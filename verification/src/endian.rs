//! Fixed-width unsigned integers in little-endian byte order.

use vstd::prelude::*;

verus! {

/// The two bytes of `x`, least significant first.
#[verifier::opaque]
pub open spec fn u16_le_bytes(x: u16) -> Seq<u8> {
    seq![(x % 0x100) as u8, (x / 0x100) as u8]
}

/// The four bytes of `x`, least significant first.
#[verifier::opaque]
pub open spec fn u32_le_bytes(x: u32) -> Seq<u8> {
    seq![
        (x % 0x100) as u8,
        (x / 0x100 % 0x100) as u8,
        (x / 0x1_0000 % 0x100) as u8,
        (x / 0x100_0000) as u8,
    ]
}

/// The eight bytes of `x`, least significant first.
#[verifier::opaque]
pub open spec fn u64_le_bytes(x: u64) -> Seq<u8> {
    seq![
        (x % 0x100) as u8,
        (x / 0x100 % 0x100) as u8,
        (x / 0x1_0000 % 0x100) as u8,
        (x / 0x100_0000 % 0x100) as u8,
        (x / 0x1_0000_0000 % 0x100) as u8,
        (x / 0x100_0000_0000 % 0x100) as u8,
        (x / 0x1_0000_0000_0000 % 0x100) as u8,
        (x / 0x100_0000_0000_0000) as u8,
    ]
}

/// The number whose little-endian bytes are the first two of `s`.
#[verifier::opaque]
pub open spec fn u16_from_le(s: Seq<u8>) -> u16
    recommends
        s.len() >= 2,
{
    (s[0] + 0x100 * s[1]) as u16
}

/// The number whose little-endian bytes are the first four of `s`.
#[verifier::opaque]
pub open spec fn u32_from_le(s: Seq<u8>) -> u32
    recommends
        s.len() >= 4,
{
    (s[0] + 0x100 * s[1] + 0x1_0000 * s[2] + 0x100_0000 * s[3]) as u32
}

/// The number whose little-endian bytes are the first eight of `s`.
#[verifier::opaque]
pub open spec fn u64_from_le(s: Seq<u8>) -> u64
    recommends
        s.len() >= 8,
{
    (s[0] + 0x100 * s[1] + 0x1_0000 * s[2] + 0x100_0000 * s[3] + 0x1_0000_0000 * s[4]
        + 0x100_0000_0000 * s[5] + 0x1_0000_0000_0000 * s[6] + 0x100_0000_0000_0000 * s[7]) as u64
}

/// Reading back what `u16_le_bytes` wrote gives the number again, whatever
/// follows the two bytes.
pub proof fn lemma_u16_le_round_trip(x: u16, rest: Seq<u8>)
    ensures
        u16_le_bytes(x).len() == 2,
        u16_from_le(u16_le_bytes(x) + rest) == x,
{
    reveal(u16_le_bytes);
    reveal(u16_from_le);
}

/// Reading back what `u32_le_bytes` wrote gives the number again, whatever
/// follows the four bytes.
pub proof fn lemma_u32_le_round_trip(x: u32, rest: Seq<u8>)
    ensures
        u32_le_bytes(x).len() == 4,
        u32_from_le(u32_le_bytes(x) + rest) == x,
{
    reveal(u32_le_bytes);
    reveal(u32_from_le);
}

/// Reading back what `u64_le_bytes` wrote gives the number again, whatever
/// follows the eight bytes.
pub proof fn lemma_u64_le_round_trip(x: u64, rest: Seq<u8>)
    ensures
        u64_le_bytes(x).len() == 8,
        u64_from_le(u64_le_bytes(x) + rest) == x,
{
    reveal(u64_le_bytes);
    reveal(u64_from_le);
    assert(x % 0x100 + 0x100 * (x / 0x100 % 0x100) + 0x1_0000 * (x / 0x1_0000 % 0x100) + 0x100_0000
        * (x / 0x100_0000 % 0x100) + 0x1_0000_0000 * (x / 0x1_0000_0000 % 0x100) + 0x100_0000_0000
        * (x / 0x100_0000_0000 % 0x100) + 0x1_0000_0000_0000 * (x / 0x1_0000_0000_0000 % 0x100)
        + 0x100_0000_0000_0000 * (x / 0x100_0000_0000_0000) == x) by (bit_vector);
    assert(x / 0x100_0000_0000_0000 < 0x100) by (bit_vector);
}

/// A little-endian `u16` is read from the first two bytes alone.
pub proof fn lemma_u16_from_le_extends(s: Seq<u8>, rest: Seq<u8>)
    requires
        s.len() >= 2,
    ensures
        u16_from_le(s + rest) == u16_from_le(s),
{
    reveal(u16_from_le);
}

/// A little-endian `u32` is read from the first four bytes alone.
pub proof fn lemma_u32_from_le_extends(s: Seq<u8>, rest: Seq<u8>)
    requires
        s.len() >= 4,
    ensures
        u32_from_le(s + rest) == u32_from_le(s),
{
    reveal(u32_from_le);
}

/// A little-endian `u64` is read from the first eight bytes alone.
pub proof fn lemma_u64_from_le_extends(s: Seq<u8>, rest: Seq<u8>)
    requires
        s.len() >= 8,
    ensures
        u64_from_le(s + rest) == u64_from_le(s),
{
    reveal(u64_from_le);
}

/// Appends the two little-endian bytes of `x` to `out`.
pub(crate) fn push_u16_le(out: &mut Vec<u8>, x: u16)
    ensures
        final(out)@ == old(out)@ + u16_le_bytes(x),
{
    reveal(u16_le_bytes);
    out.push((x % 0x100) as u8);
    out.push((x / 0x100) as u8);
}

/// Appends the four little-endian bytes of `x` to `out`.
pub(crate) fn push_u32_le(out: &mut Vec<u8>, x: u32)
    ensures
        final(out)@ == old(out)@ + u32_le_bytes(x),
{
    reveal(u32_le_bytes);
    out.push((x % 0x100) as u8);
    out.push((x / 0x100 % 0x100) as u8);
    out.push((x / 0x1_0000 % 0x100) as u8);
    out.push((x / 0x100_0000) as u8);
}

/// Appends the eight little-endian bytes of `x` to `out`.
pub(crate) fn push_u64_le(out: &mut Vec<u8>, x: u64)
    ensures
        final(out)@ == old(out)@ + u64_le_bytes(x),
{
    reveal(u64_le_bytes);
    out.push((x % 0x100) as u8);
    out.push((x / 0x100 % 0x100) as u8);
    out.push((x / 0x1_0000 % 0x100) as u8);
    out.push((x / 0x100_0000 % 0x100) as u8);
    out.push((x / 0x1_0000_0000 % 0x100) as u8);
    out.push((x / 0x100_0000_0000 % 0x100) as u8);
    out.push((x / 0x1_0000_0000_0000 % 0x100) as u8);
    out.push((x / 0x100_0000_0000_0000) as u8);
}

/// Reads the little-endian `u16` that starts at `at`.
pub(crate) fn read_u16_le(bytes: &[u8], at: usize) -> (x: u16)
    requires
        at + 2 <= bytes.len(),
    ensures
        x == u16_from_le(bytes@.skip(at as int)),
{
    reveal(u16_from_le);
    bytes[at] as u16 + 0x100 * (bytes[at + 1] as u16)
}

/// Reads the little-endian `u32` that starts at `at`.
pub(crate) fn read_u32_le(bytes: &[u8], at: usize) -> (x: u32)
    requires
        at + 4 <= bytes.len(),
    ensures
        x == u32_from_le(bytes@.skip(at as int)),
{
    reveal(u32_from_le);
    bytes[at] as u32 + 0x100 * (bytes[at + 1] as u32) + 0x1_0000 * (bytes[at + 2] as u32)
        + 0x100_0000 * (bytes[at + 3] as u32)
}

/// Reads the little-endian `u64` that starts at `at`.
pub(crate) fn read_u64_le(bytes: &[u8], at: usize) -> (x: u64)
    requires
        at + 8 <= bytes.len(),
    ensures
        x == u64_from_le(bytes@.skip(at as int)),
{
    reveal(u64_from_le);
    bytes[at] as u64 + 0x100 * (bytes[at + 1] as u64) + 0x1_0000 * (bytes[at + 2] as u64)
        + 0x100_0000 * (bytes[at + 3] as u64) + 0x1_0000_0000 * (bytes[at + 4] as u64)
        + 0x100_0000_0000 * (bytes[at + 5] as u64) + 0x1_0000_0000_0000 * (bytes[at + 6] as u64)
        + 0x100_0000_0000_0000 * (bytes[at + 7] as u64)
}

} // verus!
