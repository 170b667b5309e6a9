//! A reference to one output of an earlier transaction.

use crate::endian::{
    lemma_u32_from_le_extends, lemma_u32_le_round_trip, push_u32_le, read_u32_le, u32_from_le,
    u32_le_bytes,
};
use crate::error::BitcoinError;
use crate::txid::Txid;
use vstd::prelude::*;

verus! {

/// What an [`OutPoint`] stands for: the identifier's bytes and the index.
pub struct OutPointView {
    pub txid: Seq<u8>,
    pub vout: u32,
}

impl OutPointView {
    /// The identifier has its 32 bytes.
    pub open spec fn wf(self) -> bool {
        self.txid.len() == 32
    }
}

/// The identifier of a transaction and the index of one of its outputs.
#[derive(Debug, PartialEq, Eq, Clone)]
pub struct OutPoint {
    pub txid: Txid,
    pub vout: u32,
}

impl View for OutPoint {
    type V = OutPointView;

    open spec fn view(&self) -> OutPointView {
        OutPointView { txid: self.txid@, vout: self.vout }
    }
}

/// The encoding of an outpoint: the identifier verbatim, then the index in
/// four little-endian bytes.
pub open spec fn outpoint_bytes(p: OutPointView) -> Seq<u8> {
    p.txid + u32_le_bytes(p.vout)
}

/// The outpoint at the front of `s`, with the 36 bytes it occupies, or `None`
/// where `s` is shorter than that.
pub open spec fn outpoint_parse(s: Seq<u8>) -> Option<(OutPointView, nat)> {
    if s.len() < 36 {
        None
    } else {
        Some((OutPointView { txid: s.subrange(0, 32), vout: u32_from_le(s.skip(32)) }, 36))
    }
}

/// The encoding of an outpoint is 36 bytes long and, followed by anything,
/// parses to that outpoint.
pub proof fn lemma_outpoint_parse_bytes(p: OutPointView, rest: Seq<u8>)
    requires
        p.wf(),
    ensures
        outpoint_bytes(p).len() == 36,
        outpoint_parse(outpoint_bytes(p) + rest) == Some((p, 36nat)),
{
    let s = outpoint_bytes(p) + rest;
    lemma_u32_le_round_trip(p.vout, rest);
    assert(s.subrange(0, 32) =~= p.txid);
    assert(s.skip(32) =~= u32_le_bytes(p.vout) + rest);
}

/// The encoding of an outpoint is always 36 bytes long.
pub proof fn outpoint_wire_size(x: OutPoint)
    ensures
        outpoint_bytes(x@).len() == 36,
{
    lemma_outpoint_parse_bytes(x@, Seq::empty());
}

/// An outpoint that parses is read from its 36 bytes alone: bytes put after
/// the buffer change nothing.
pub proof fn lemma_outpoint_parse_extends(s: Seq<u8>, rest: Seq<u8>)
    requires
        outpoint_parse(s) is Some,
    ensures
        outpoint_parse(s + rest) == outpoint_parse(s),
{
    assert((s + rest).subrange(0, 32) =~= s.subrange(0, 32));
    assert((s + rest).skip(32) =~= s.skip(32) + rest);
    lemma_u32_from_le_extends(s.skip(32), rest);
}

/// Decoding the encoding of an outpoint gives the outpoint back and consumes
/// the whole encoding.
pub proof fn outpoint_round_trip(x: OutPoint)
    ensures
        outpoint_parse(outpoint_bytes(x@)) == Some((x@, outpoint_bytes(x@).len())),
{
    lemma_outpoint_parse_bytes(x@, Seq::empty());
    assert(outpoint_bytes(x@) + Seq::<u8>::empty() =~= outpoint_bytes(x@));
}

impl OutPoint {
    pub fn new(txid: [u8; 32], vout: u32) -> (p: Self)
        ensures
            p@ == (OutPointView { txid: txid@, vout }),
    {
        Self { txid: Txid(txid), vout }
    }

    /// Encodes the outpoint in its 36 bytes.
    pub fn to_bytes(&self) -> (bytes: Vec<u8>)
        ensures
            bytes@ == outpoint_bytes(self@),
    {
        let mut bytes: Vec<u8> = Vec::with_capacity(36);
        bytes.extend_from_slice(self.txid.0.as_slice());
        push_u32_le(&mut bytes, self.vout);
        bytes
    }

    /// Decodes the outpoint at the front of `bytes`. Fails exactly where
    /// fewer than 36 bytes are there.
    pub fn from_bytes(bytes: &[u8]) -> (r: Result<(Self, usize), BitcoinError>)
        ensures
            match r {
                Ok((p, n)) => outpoint_parse(bytes@) == Some((p@, n as nat)),
                Err(e) => e == BitcoinError::InsufficientBytes && outpoint_parse(bytes@) is None,
            },
    {
        if bytes.len() < 36 {
            return Err(BitcoinError::InsufficientBytes);
        }
        let txid = Txid::from_slice(bytes, 0);
        let vout: u32 = read_u32_le(bytes, 32);
        Ok((OutPoint { txid, vout }, 36))
    }
}

} // verus!
