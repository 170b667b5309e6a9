//! One input of a transaction.

use crate::endian::{
    lemma_u32_from_le_extends, lemma_u32_le_round_trip, push_u32_le, read_u32_le, u32_from_le,
    u32_le_bytes,
};
use crate::error::BitcoinError;
use crate::outpoint::{
    lemma_outpoint_parse_bytes, lemma_outpoint_parse_extends, outpoint_bytes, outpoint_parse,
    OutPoint, OutPointView,
};
use crate::script::{
    lemma_script_parse_bytes, lemma_script_parse_extends, script_bytes, script_parse, Script,
};
use vstd::prelude::*;

verus! {

/// What a [`TransactionInput`] stands for.
pub struct InputView {
    pub previous_output: OutPointView,
    pub script_sig: Seq<u8>,
    pub sequence: u32,
}

impl InputView {
    /// The outpoint is well formed and the script's length fits a count
    /// prefix.
    pub open spec fn wf(self) -> bool {
        &&& self.previous_output.wf()
        &&& self.script_sig.len() <= u64::MAX
    }
}

/// The output that an input spends, the script that unlocks it and a
/// sequence number.
#[derive(Debug, PartialEq, Eq, Clone)]
pub struct TransactionInput {
    pub previous_output: OutPoint,
    pub script_sig: Script,
    pub sequence: u32,
}

impl View for TransactionInput {
    type V = InputView;

    open spec fn view(&self) -> InputView {
        InputView {
            previous_output: self.previous_output@,
            script_sig: self.script_sig@,
            sequence: self.sequence,
        }
    }
}

/// The encoding of an input: outpoint, script, then the sequence number in
/// four little-endian bytes.
pub open spec fn input_bytes(input: InputView) -> Seq<u8> {
    outpoint_bytes(input.previous_output) + script_bytes(input.script_sig) + u32_le_bytes(
        input.sequence,
    )
}

/// The input at the front of `s`, with the number of bytes it occupies, or
/// `None` where `s` ends before the input is complete.
pub open spec fn input_parse(s: Seq<u8>) -> Option<(InputView, nat)> {
    match outpoint_parse(s) {
        None => None,
        Some((previous_output, n)) => match script_parse(s.skip(n as int)) {
            None => None,
            Some((script_sig, m)) => if s.len() < n + m + 4 {
                None
            } else {
                Some(
                    (
                        InputView {
                            previous_output,
                            script_sig,
                            sequence: u32_from_le(s.skip((n + m) as int)),
                        },
                        n + m + 4,
                    ),
                )
            },
        },
    }
}

/// The encoding of an input, followed by anything, parses to that input and
/// to the encoding's length.
pub proof fn lemma_input_parse_bytes(input: InputView, rest: Seq<u8>)
    requires
        input.wf(),
    ensures
        input_parse(input_bytes(input) + rest) == Some((input, input_bytes(input).len())),
{
    let head = outpoint_bytes(input.previous_output);
    let body = script_bytes(input.script_sig);
    let tail = u32_le_bytes(input.sequence);
    let s = input_bytes(input) + rest;
    lemma_outpoint_parse_bytes(input.previous_output, body + tail + rest);
    assert(s =~= head + (body + tail + rest));
    lemma_script_parse_bytes(input.script_sig, tail + rest);
    assert(s.skip(36) =~= body + (tail + rest));
    lemma_u32_le_round_trip(input.sequence, rest);
    assert(s.skip((36 + body.len()) as int) =~= tail + rest);
}

/// The encoding of an input is as long as the 36 bytes of its outpoint,
/// the encoding of its script and the 4 bytes of its sequence number
/// together.
pub proof fn input_wire_size(x: TransactionInput)
    ensures
        input_bytes(x@).len() == 36 + script_bytes(x@.script_sig).len() + 4,
{
    lemma_outpoint_parse_bytes(x@.previous_output, Seq::empty());
    lemma_u32_le_round_trip(x@.sequence, Seq::empty());
}

/// An input that parses is read from the bytes it occupies alone: bytes put
/// after the buffer change nothing.
pub proof fn lemma_input_parse_extends(s: Seq<u8>, rest: Seq<u8>)
    requires
        input_parse(s) is Some,
    ensures
        input_parse(s + rest) == input_parse(s),
{
    lemma_outpoint_parse_extends(s, rest);
    let (_, n) = outpoint_parse(s).unwrap();
    assert((s + rest).skip(n as int) =~= s.skip(n as int) + rest);
    lemma_script_parse_extends(s.skip(n as int), rest);
    let (_, m) = script_parse(s.skip(n as int)).unwrap();
    assert((s + rest).skip((n + m) as int) =~= s.skip((n + m) as int) + rest);
    lemma_u32_from_le_extends(s.skip((n + m) as int), rest);
}

/// Decoding the encoding of an input gives the input back and consumes the
/// whole encoding.
pub proof fn input_round_trip(x: TransactionInput)
    ensures
        input_parse(input_bytes(x@)) == Some((x@, input_bytes(x@).len())),
{
    x.lemma_view_wf();
    lemma_input_parse_bytes(x@, Seq::empty());
    assert(input_bytes(x@) + Seq::<u8>::empty() =~= input_bytes(x@));
}

impl TransactionInput {
    /// What an input in memory stands for is always well formed.
    pub proof fn lemma_view_wf(self)
        ensures
            self@.wf(),
    {
        assert(self.script_sig@.len() == self.script_sig.bytes.len());
    }

    pub fn new(previous_output: OutPoint, script_sig: Script, sequence: u32) -> (input: Self)
        ensures
            input@ == (InputView {
                previous_output: previous_output@,
                script_sig: script_sig@,
                sequence,
            }),
    {
        Self { previous_output, script_sig, sequence }
    }

    /// Encodes the input: outpoint, script, sequence number.
    pub fn to_bytes(&self) -> (bytes: Vec<u8>)
        ensures
            bytes@ == input_bytes(self@),
    {
        let mut bytes: Vec<u8> = Vec::new();
        bytes.extend_from_slice(self.previous_output.to_bytes().as_slice());
        bytes.extend_from_slice(self.script_sig.to_bytes().as_slice());
        push_u32_le(&mut bytes, self.sequence);
        bytes
    }

    /// Decodes the input at the front of `bytes`. Fails exactly where the
    /// buffer ends before the outpoint, the script or the sequence number is
    /// complete.
    pub fn from_bytes(bytes: &[u8]) -> (r: Result<(Self, usize), BitcoinError>)
        ensures
            match r {
                Ok((input, n)) => input_parse(bytes@) == Some((input@, n as nat)),
                Err(e) => e == BitcoinError::InsufficientBytes && input_parse(bytes@) is None,
            },
    {
        let (outpoint, outpoint_size) = OutPoint::from_bytes(bytes)?;
        if bytes.len() <= outpoint_size {
            return Err(BitcoinError::InsufficientBytes);
        }
        let (script_sig, script_size) = Script::from_bytes(&bytes[outpoint_size..bytes.len()])?;
        let sequence_offset: usize = outpoint_size + script_size;
        if bytes.len() - sequence_offset < 4 {
            return Err(BitcoinError::InsufficientBytes);
        }
        let sequence: u32 = read_u32_le(bytes, sequence_offset);
        Ok((TransactionInput::new(outpoint, script_sig, sequence), sequence_offset + 4))
    }
}

} // verus!
