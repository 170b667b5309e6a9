//! The 32-byte identifier of a transaction.

use crate::error::BitcoinError;
use crate::hex_text::{
    encode_hex, hex_bytes, hex_text, is_hex_text, lemma_hex_text_round_trip, parse_hex,
};
use vstd::prelude::*;

verus! {

/// Thirty-two opaque bytes that name a transaction. On the wire they stand
/// verbatim; as text they are lower-case hex in the stored order.
#[derive(Debug, PartialEq, Eq, Clone)]
pub struct Txid(pub [u8; 32]);

impl View for Txid {
    type V = Seq<u8>;

    open spec fn view(&self) -> Seq<u8> {
        self.0@
    }
}

/// The identifier that `text` names: `text` must be 64 hex digits.
pub open spec fn txid_parse_text(text: Seq<char>) -> Option<Seq<u8>> {
    if is_hex_text(text) && text.len() == 64 {
        Some(hex_bytes(text))
    } else {
        None
    }
}

/// Parsing the text form of an identifier gives the identifier back, so
/// rendering it once more gives the same text.
pub proof fn txid_text_round_trip(id: Txid)
    ensures
        txid_parse_text(hex_text(id@)) == Some(id@),
        hex_text(txid_parse_text(hex_text(id@)).unwrap()) == hex_text(id@),
{
    lemma_hex_text_round_trip(id@);
}

/// Text that is not 64 characters long names no identifier; in particular
/// text of odd length names none.
pub proof fn txid_text_length(text: Seq<char>)
    ensures
        text.len() != 64 ==> txid_parse_text(text) is None,
        text.len() % 2 == 1 ==> txid_parse_text(text) is None,
{
}

impl Txid {
    /// The identifier made of the 32 bytes of `bytes` that start at `at`.
    pub(crate) fn from_slice(bytes: &[u8], at: usize) -> (id: Txid)
        requires
            at + 32 <= bytes.len(),
        ensures
            id@ == bytes@.subrange(at as int, at + 32),
    {
        let mut raw: [u8; 32] = [0u8; 32];
        let mut i: usize = 0;
        while i < 32
            invariant
                i <= 32,
                at + 32 <= bytes.len(),
                forall|j: int| 0 <= j < i ==> raw@[j] == bytes@[at + j],
            decreases 32 - i,
        {
            raw[i] = bytes[at + i];
            i += 1;
        }
        assert(raw@ =~= bytes@.subrange(at as int, at + 32));
        Txid(raw)
    }

    /// The text form: 64 lower-case hex digits.
    pub fn to_hex(&self) -> (text: String)
        ensures
            text@ == hex_text(self@),
    {
        encode_hex(self.0.as_slice())
    }

    /// The identifier made of exactly the bytes of `bytes`. Fails with
    /// `InvalidFormat` exactly where they are not 32.
    pub fn try_from_slice(bytes: &[u8]) -> (r: Result<Txid, BitcoinError>)
        ensures
            match r {
                Ok(id) => bytes@.len() == 32 && id@ == bytes@,
                Err(e) => e == BitcoinError::InvalidFormat && bytes@.len() != 32,
            },
    {
        if bytes.len() != 32 {
            return Err(BitcoinError::InvalidFormat);
        }
        let id = Txid::from_slice(bytes, 0);
        assert(id@ =~= bytes@);
        Ok(id)
    }

    /// Parses the text form. Digits of either case are read. Fails with
    /// `InvalidFormat` on anything but 64 hex digits.
    pub fn from_hex(text: &str) -> (r: Result<Txid, BitcoinError>)
        ensures
            match r {
                Ok(id) => txid_parse_text(text@) == Some(id@),
                Err(e) => e == BitcoinError::InvalidFormat && txid_parse_text(text@) is None,
            },
    {
        let bytes = parse_hex(text)?;
        assert(bytes@.len() == text@.len() / 2);
        Txid::try_from_slice(bytes.as_slice())
    }
}

} // verus!
