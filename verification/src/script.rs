//! A length-prefixed blob of script bytes.

use crate::compact_size::{
    compact_size_bytes, compact_size_parse, lemma_compact_size_parse_bytes,
    lemma_compact_size_parse_extends, CompactSize,
};
use crate::error::BitcoinError;
use vstd::prelude::*;
use vstd::slice::slice_to_vec;

verus! {

/// Script bytes. The codec carries them and never looks inside.
#[derive(Debug, PartialEq, Eq, Clone)]
pub struct Script {
    pub bytes: Vec<u8>,
}

impl View for Script {
    type V = Seq<u8>;

    open spec fn view(&self) -> Seq<u8> {
        self.bytes@
    }
}

/// The encoding of a script: the length as a count prefix, then the bytes.
pub open spec fn script_bytes(data: Seq<u8>) -> Seq<u8>
    recommends
        data.len() <= u64::MAX,
{
    compact_size_bytes(data.len() as u64) + data
}

/// The script at the front of `s`, with the number of bytes that prefix and
/// data occupy together, or `None` where `s` ends before the prefix or the
/// data is complete.
pub open spec fn script_parse(s: Seq<u8>) -> Option<(Seq<u8>, nat)> {
    match compact_size_parse(s) {
        None => None,
        Some((len, n)) => if s.len() < n + len {
            None
        } else {
            Some((s.subrange(n as int, n + len), (n + len) as nat))
        },
    }
}

/// The encoding of a script, followed by anything, parses to that script and
/// to the encoding's length.
pub proof fn lemma_script_parse_bytes(data: Seq<u8>, rest: Seq<u8>)
    requires
        data.len() <= u64::MAX,
    ensures
        script_parse(script_bytes(data) + rest) == Some((data, script_bytes(data).len())),
{
    let prefix = compact_size_bytes(data.len() as u64);
    let s = script_bytes(data) + rest;
    lemma_compact_size_parse_bytes(data.len() as u64, data + rest);
    assert(s =~= prefix + (data + rest));
    assert(s.subrange(prefix.len() as int, (prefix.len() + data.len()) as int) =~= data);
}

/// The encoding of a script is as long as its count prefix and its bytes
/// together.
pub proof fn script_wire_size(x: Script)
    ensures
        script_bytes(x@).len() == compact_size_bytes(x@.len() as u64).len() + x@.len(),
{
}

/// A script that parses is read from the bytes it occupies alone: bytes put
/// after the buffer change nothing.
pub proof fn lemma_script_parse_extends(s: Seq<u8>, rest: Seq<u8>)
    requires
        script_parse(s) is Some,
    ensures
        script_parse(s + rest) == script_parse(s),
{
    lemma_compact_size_parse_extends(s, rest);
    let (len, n) = compact_size_parse(s).unwrap();
    assert((s + rest).subrange(n as int, n + len) =~= s.subrange(n as int, n + len));
}

/// Decoding the encoding of a script gives the script back and consumes the
/// whole encoding.
pub proof fn script_round_trip(x: Script)
    ensures
        script_parse(script_bytes(x@)) == Some((x@, script_bytes(x@).len())),
{
    assert(x@.len() == x.bytes.len());
    lemma_script_parse_bytes(x@, Seq::empty());
    assert(script_bytes(x@) + Seq::<u8>::empty() =~= script_bytes(x@));
}

impl std::ops::Deref for Script {
    type Target = Vec<u8>;

    fn deref(&self) -> (bytes: &Vec<u8>)
        ensures
            bytes@ == self@,
    {
        &self.bytes
    }
}

impl Script {
    pub fn new(bytes: Vec<u8>) -> (s: Self)
        ensures
            s@ == bytes@,
    {
        Self { bytes }
    }

    /// Encodes the script: its length, then its bytes.
    pub fn to_bytes(&self) -> (bytes: Vec<u8>)
        ensures
            bytes@ == script_bytes(self@),
    {
        let mut result: Vec<u8> = Vec::new();
        let compact_size = CompactSize::new(self.bytes.len() as u64);
        result.extend_from_slice(compact_size.to_bytes().as_slice());
        result.extend_from_slice(self.bytes.as_slice());
        result
    }

    /// Decodes the script at the front of `bytes`. Fails exactly where the
    /// buffer ends before the length prefix or the announced bytes are
    /// complete.
    pub fn from_bytes(bytes: &[u8]) -> (r: Result<(Self, usize), BitcoinError>)
        ensures
            match r {
                Ok((s, n)) => script_parse(bytes@) == Some((s@, n as nat)),
                Err(e) => e == BitcoinError::InsufficientBytes && script_parse(bytes@) is None,
            },
    {
        let (compact_size, size_len) = CompactSize::from_bytes(bytes)?;
        if compact_size.value > (bytes.len() - size_len) as u64 {
            return Err(BitcoinError::InsufficientBytes);
        }
        let script_len: usize = compact_size.value as usize;
        let data: Vec<u8> = slice_to_vec(&bytes[size_len..size_len + script_len]);
        Ok((Script::new(data), size_len + script_len))
    }
}

} // verus!
