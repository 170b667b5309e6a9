//! The variable-width count prefix of the wire format.
//!
//! A count is written in one, three, five or nine bytes. Small counts are
//! their own single byte; larger ones follow a marker byte that tells how
//! wide the little-endian field after it is.

use crate::endian::{
    lemma_u16_from_le_extends, lemma_u16_le_round_trip, lemma_u32_from_le_extends,
    lemma_u32_le_round_trip, lemma_u64_from_le_extends, lemma_u64_le_round_trip, push_u16_le,
    push_u32_le, push_u64_le, read_u16_le, read_u32_le, read_u64_le, u16_from_le, u16_le_bytes,
    u32_from_le, u32_le_bytes, u64_from_le, u64_le_bytes,
};
use crate::error::BitcoinError;
use vstd::prelude::*;

verus! {

/// An unsigned 64-bit count with a self-describing variable-width encoding.
#[derive(Debug, PartialEq, Eq, Clone)]
pub struct CompactSize {
    pub value: u64,
}

impl View for CompactSize {
    type V = u64;

    open spec fn view(&self) -> u64 {
        self.value
    }
}

/// The canonical encoding of `value`: the narrowest of the four forms that
/// can hold it.
pub open spec fn compact_size_bytes(value: u64) -> Seq<u8> {
    if value <= 0xFC {
        seq![value as u8]
    } else if value <= 0xFFFF {
        seq![0xFDu8] + u16_le_bytes(value as u16)
    } else if value <= 0xFFFF_FFFF {
        seq![0xFEu8] + u32_le_bytes(value as u32)
    } else {
        seq![0xFFu8] + u64_le_bytes(value)
    }
}

/// How many bytes an encoding occupies whose first byte is `first`.
pub open spec fn compact_size_width(first: u8) -> nat {
    if first <= 0xFC {
        1
    } else if first == 0xFD {
        3
    } else if first == 0xFE {
        5
    } else {
        9
    }
}

/// The count at the front of `s` and the number of bytes it occupies, or
/// `None` where `s` ends before the count is complete. A count written wider
/// than it needs to be is read all the same.
pub open spec fn compact_size_parse(s: Seq<u8>) -> Option<(u64, nat)> {
    if s.len() == 0 || s.len() < compact_size_width(s[0]) {
        None
    } else if s[0] <= 0xFC {
        Some((s[0] as u64, 1))
    } else if s[0] == 0xFD {
        Some((u16_from_le(s.skip(1)) as u64, 3))
    } else if s[0] == 0xFE {
        Some((u32_from_le(s.skip(1)) as u64, 5))
    } else {
        Some((u64_from_le(s.skip(1)), 9))
    }
}

/// A canonical encoding, followed by anything, parses to the count it was
/// made from and to its own length.
pub proof fn lemma_compact_size_parse_bytes(value: u64, rest: Seq<u8>)
    ensures
        compact_size_parse(compact_size_bytes(value) + rest) == Some(
            (value, compact_size_bytes(value).len()),
        ),
{
    let s = compact_size_bytes(value) + rest;
    if value <= 0xFC {
    } else if value <= 0xFFFF {
        lemma_u16_le_round_trip(value as u16, rest);
        assert(s.skip(1) =~= u16_le_bytes(value as u16) + rest);
    } else if value <= 0xFFFF_FFFF {
        lemma_u32_le_round_trip(value as u32, rest);
        assert(s.skip(1) =~= u32_le_bytes(value as u32) + rest);
    } else {
        lemma_u64_le_round_trip(value, rest);
        assert(s.skip(1) =~= u64_le_bytes(value) + rest);
    }
}

/// The encoding of a count is one, three, five or nine bytes long, as its
/// first byte announces, and no wider than the count needs.
pub proof fn compact_size_wire_size(x: CompactSize)
    ensures
        compact_size_bytes(x@).len() == compact_size_width(compact_size_bytes(x@)[0]),
        compact_size_bytes(x@).len() == if x@ <= 0xFC {
            1nat
        } else if x@ <= 0xFFFF {
            3nat
        } else if x@ <= 0xFFFF_FFFF {
            5nat
        } else {
            9nat
        },
{
    lemma_u16_le_round_trip(x@ as u16, Seq::empty());
    lemma_u32_le_round_trip(x@ as u32, Seq::empty());
    lemma_u64_le_round_trip(x@, Seq::empty());
}

/// A count that parses is read from the bytes it occupies alone: bytes put
/// after the buffer change nothing.
pub proof fn lemma_compact_size_parse_extends(s: Seq<u8>, rest: Seq<u8>)
    requires
        compact_size_parse(s) is Some,
    ensures
        compact_size_parse(s + rest) == compact_size_parse(s),
{
    assert((s + rest).skip(1) =~= s.skip(1) + rest);
    if s[0] == 0xFD {
        lemma_u16_from_le_extends(s.skip(1), rest);
    } else if s[0] == 0xFE {
        lemma_u32_from_le_extends(s.skip(1), rest);
    } else if s[0] == 0xFF {
        lemma_u64_from_le_extends(s.skip(1), rest);
    }
}

/// Decoding the encoding of a count gives the count back and consumes the
/// whole encoding.
pub proof fn compact_size_round_trip(x: CompactSize)
    ensures
        compact_size_parse(compact_size_bytes(x@)) == Some((x@, compact_size_bytes(x@).len())),
{
    lemma_compact_size_parse_bytes(x@, Seq::empty());
    assert(compact_size_bytes(x@) + Seq::<u8>::empty() =~= compact_size_bytes(x@));
}

impl CompactSize {
    pub fn new(value: u64) -> (c: Self)
        ensures
            c@ == value,
    {
        Self { value }
    }

    /// Encodes the count in its canonical, narrowest form.
    pub fn to_bytes(&self) -> (bytes: Vec<u8>)
        ensures
            bytes@ == compact_size_bytes(self@),
    {
        let mut bytes: Vec<u8> = Vec::new();
        match self.value {
            0..=0xFC => {
                bytes.push(self.value as u8);
            },
            0xFD..=0xFFFF => {
                bytes.push(0xFD);
                push_u16_le(&mut bytes, self.value as u16);
            },
            0x10000..=0xFFFF_FFFF => {
                bytes.push(0xFE);
                push_u32_le(&mut bytes, self.value as u32);
            },
            _ => {
                bytes.push(0xFF);
                push_u64_le(&mut bytes, self.value);
            },
        }
        bytes
    }

    /// Decodes the count at the front of `bytes` and reports how many bytes
    /// it occupied. Fails exactly where the buffer ends before the count is
    /// complete.
    pub fn from_bytes(bytes: &[u8]) -> (r: Result<(Self, usize), BitcoinError>)
        ensures
            match r {
                Ok((c, n)) => compact_size_parse(bytes@) == Some((c@, n as nat)),
                Err(e) => e == BitcoinError::InsufficientBytes && compact_size_parse(bytes@)
                    is None,
            },
    {
        if bytes.is_empty() {
            return Err(BitcoinError::InsufficientBytes);
        }
        let first_byte: u8 = bytes[0];
        match first_byte {
            0..=0xFC => Ok((Self::new(first_byte as u64), 1)),
            0xFD => {
                if bytes.len() < 3 {
                    return Err(BitcoinError::InsufficientBytes);
                }
                Ok((Self::new(read_u16_le(bytes, 1) as u64), 3))
            },
            0xFE => {
                if bytes.len() < 5 {
                    return Err(BitcoinError::InsufficientBytes);
                }
                Ok((Self::new(read_u32_le(bytes, 1) as u64), 5))
            },
            0xFF => {
                if bytes.len() < 9 {
                    return Err(BitcoinError::InsufficientBytes);
                }
                Ok((Self::new(read_u64_le(bytes, 1)), 9))
            },
        }
    }
}

} // verus!
