//! The transaction: a version, a counted list of inputs and a lock time.

use crate::compact_size::{
    compact_size_bytes, compact_size_parse, lemma_compact_size_parse_bytes,
    lemma_compact_size_parse_extends, CompactSize,
};
use crate::endian::{
    lemma_u32_from_le_extends, lemma_u32_le_round_trip, push_u32_le, read_u32_le, u32_from_le,
    u32_le_bytes,
};
use crate::error::BitcoinError;
use crate::input::{
    input_bytes, input_parse, lemma_input_parse_bytes, lemma_input_parse_extends, InputView,
    TransactionInput,
};
use vstd::prelude::*;

verus! {

/// What a [`BitcoinTransaction`] stands for.
pub struct TransactionView {
    pub version: u32,
    pub inputs: Seq<InputView>,
    pub lock_time: u32,
}

impl TransactionView {
    /// Every input is well formed and their number fits a count prefix.
    pub open spec fn wf(self) -> bool {
        &&& self.inputs.len() <= u64::MAX
        &&& forall|i: int| 0 <= i < self.inputs.len() ==> (#[trigger] self.inputs[i]).wf()
    }
}

/// A transaction of the reduced format: no outputs, no witness data.
#[derive(Debug, PartialEq, Eq, Clone)]
pub struct BitcoinTransaction {
    pub version: u32,
    pub inputs: Vec<TransactionInput>,
    pub lock_time: u32,
}

/// What a list of inputs in memory stands for, input by input.
pub open spec fn inputs_view(inputs: Seq<TransactionInput>) -> Seq<InputView> {
    Seq::new(inputs.len(), |i: int| inputs[i]@)
}

impl View for BitcoinTransaction {
    type V = TransactionView;

    open spec fn view(&self) -> TransactionView {
        TransactionView {
            version: self.version,
            inputs: inputs_view(self.inputs@),
            lock_time: self.lock_time,
        }
    }
}

/// The encodings of `inputs`, one after the other in list order.
pub open spec fn inputs_bytes(inputs: Seq<InputView>) -> Seq<u8>
    decreases inputs.len(),
{
    if inputs.len() == 0 {
        Seq::empty()
    } else {
        inputs_bytes(inputs.drop_last()) + input_bytes(inputs.last())
    }
}

/// The first `count` inputs at the front of `s`, in order, with the number
/// of bytes they occupy together, or `None` where `s` ends before the last
/// of them is complete.
pub open spec fn inputs_parse(s: Seq<u8>, count: nat) -> Option<(Seq<InputView>, nat)>
    decreases count,
{
    if count == 0 {
        Some((Seq::empty(), 0))
    } else {
        match inputs_parse(s, (count - 1) as nat) {
            None => None,
            Some((inputs, n)) => match input_parse(s.skip(n as int)) {
                None => None,
                Some((input, m)) => Some((inputs.push(input), n + m)),
            },
        }
    }
}

/// The encoding of a transaction: version, number of inputs, the inputs,
/// lock time.
pub open spec fn transaction_bytes(tx: TransactionView) -> Seq<u8>
    recommends
        tx.wf(),
{
    u32_le_bytes(tx.version) + compact_size_bytes(tx.inputs.len() as u64) + inputs_bytes(tx.inputs)
        + u32_le_bytes(tx.lock_time)
}

/// The transaction at the front of `s`, with the number of bytes it
/// occupies, or `None` where `s` ends before the transaction is complete.
/// Bytes after the lock time are not looked at.
pub open spec fn transaction_parse(s: Seq<u8>) -> Option<(TransactionView, nat)> {
    if s.len() < 4 {
        None
    } else {
        match compact_size_parse(s.skip(4)) {
            None => None,
            Some((count, c)) => match inputs_parse(s.skip((4 + c) as int), count as nat) {
                None => None,
                Some((inputs, n)) => if s.len() < 4 + c + n + 4 {
                    None
                } else {
                    Some(
                        (
                            TransactionView {
                                version: u32_from_le(s),
                                inputs,
                                lock_time: u32_from_le(s.skip((4 + c + n) as int)),
                            },
                            4 + c + n + 4,
                        ),
                    )
                },
            },
        }
    }
}

/// Once the inputs cannot all be read, asking for more of them does not
/// help.
pub proof fn lemma_inputs_parse_fails_on(s: Seq<u8>, few: nat, many: nat)
    requires
        few <= many,
        inputs_parse(s, few) is None,
    ensures
        inputs_parse(s, many) is None,
    decreases many,
{
    if few < many {
        lemma_inputs_parse_fails_on(s, few, (many - 1) as nat);
    }
}

/// Inputs that parse are read from the bytes they occupy alone: bytes put
/// after the buffer change nothing.
pub proof fn lemma_inputs_parse_extends(s: Seq<u8>, count: nat, rest: Seq<u8>)
    requires
        inputs_parse(s, count) is Some,
    ensures
        inputs_parse(s + rest, count) == inputs_parse(s, count),
        inputs_parse(s, count).unwrap().1 <= s.len(),
    decreases count,
{
    if count > 0 {
        lemma_inputs_parse_extends(s, (count - 1) as nat, rest);
        let (_, n) = inputs_parse(s, (count - 1) as nat).unwrap();
        assert((s + rest).skip(n as int) =~= s.skip(n as int) + rest);
        lemma_input_parse_extends(s.skip(n as int), rest);
    }
}

/// A transaction that parses is read from the bytes it occupies alone:
/// bytes put after the buffer change nothing.
pub proof fn lemma_transaction_parse_extends(s: Seq<u8>, rest: Seq<u8>)
    requires
        transaction_parse(s) is Some,
    ensures
        transaction_parse(s + rest) == transaction_parse(s),
        transaction_parse(s).unwrap().1 <= s.len(),
{
    lemma_u32_from_le_extends(s, rest);
    assert((s + rest).skip(4) =~= s.skip(4) + rest);
    lemma_compact_size_parse_extends(s.skip(4), rest);
    let (count, c) = compact_size_parse(s.skip(4)).unwrap();
    assert((s + rest).skip((4 + c) as int) =~= s.skip((4 + c) as int) + rest);
    lemma_inputs_parse_extends(s.skip((4 + c) as int), count as nat, rest);
    let (_, n) = inputs_parse(s.skip((4 + c) as int), count as nat).unwrap();
    assert((s + rest).skip((4 + c + n) as int) =~= s.skip((4 + c + n) as int) + rest);
    lemma_u32_from_le_extends(s.skip((4 + c + n) as int), rest);
}

/// The encodings of a list of inputs grow by one encoding per input.
pub proof fn lemma_inputs_bytes_push(inputs: Seq<InputView>, input: InputView)
    ensures
        inputs_bytes(inputs.push(input)) == inputs_bytes(inputs) + input_bytes(input),
{
    assert(inputs.push(input).drop_last() =~= inputs);
}

/// The encodings of well-formed inputs, followed by anything, parse to
/// those inputs and to the encodings' length.
pub proof fn lemma_inputs_parse_bytes(inputs: Seq<InputView>, rest: Seq<u8>)
    requires
        forall|i: int| 0 <= i < inputs.len() ==> (#[trigger] inputs[i]).wf(),
    ensures
        inputs_parse(inputs_bytes(inputs) + rest, inputs.len()) == Some(
            (inputs, inputs_bytes(inputs).len()),
        ),
    decreases inputs.len(),
{
    let s = inputs_bytes(inputs) + rest;
    if inputs.len() == 0 {
        assert(inputs =~= Seq::empty());
    } else {
        let front = inputs.drop_last();
        let last = inputs.last();
        lemma_inputs_parse_bytes(front, input_bytes(last) + rest);
        assert(s =~= inputs_bytes(front) + (input_bytes(last) + rest));
        lemma_input_parse_bytes(last, rest);
        assert(s.skip(inputs_bytes(front).len() as int) =~= input_bytes(last) + rest);
        assert(front.push(last) =~= inputs);
    }
}

/// How the parts of a transaction's encoding, followed by anything, read
/// back one by one: the version, the count, the inputs and the lock time.
proof fn lemma_transaction_parts(tx: TransactionView, rest: Seq<u8>)
    requires
        tx.wf(),
    ensures
        ({
            let s = transaction_bytes(tx) + rest;
            let c = compact_size_bytes(tx.inputs.len() as u64).len();
            let n = inputs_bytes(tx.inputs).len();
            &&& s.len() == 4 + c + n + 4 + rest.len()
            &&& transaction_bytes(tx).len() == 4 + c + n + 4
            &&& u32_from_le(s) == tx.version
            &&& compact_size_parse(s.skip(4)) == Some((tx.inputs.len() as u64, c))
            &&& inputs_parse(s.skip((4 + c) as int), tx.inputs.len()) == Some((tx.inputs, n))
            &&& u32_from_le(s.skip((4 + c + n) as int)) == tx.lock_time
        }),
{
    let version = u32_le_bytes(tx.version);
    let count = compact_size_bytes(tx.inputs.len() as u64);
    let body = inputs_bytes(tx.inputs);
    let lock_time = u32_le_bytes(tx.lock_time);
    let s = transaction_bytes(tx) + rest;
    assert(version.len() == 4 && u32_from_le(s) == tx.version) by {
        lemma_u32_le_round_trip(tx.version, count + body + lock_time + rest);
        assert(s =~= version + (count + body + lock_time + rest));
    }
    assert(compact_size_parse(s.skip(4)) == Some((tx.inputs.len() as u64, count.len()))) by {
        lemma_compact_size_parse_bytes(tx.inputs.len() as u64, body + lock_time + rest);
        assert(s.skip(4) =~= count + (body + lock_time + rest));
    }
    assert(inputs_parse(s.skip((4 + count.len()) as int), tx.inputs.len()) == Some(
        (tx.inputs, body.len()),
    )) by {
        lemma_inputs_parse_bytes(tx.inputs, lock_time + rest);
        assert(s.skip((4 + count.len()) as int) =~= body + (lock_time + rest));
    }
    assert(lock_time.len() == 4 && u32_from_le(s.skip((4 + count.len() + body.len()) as int))
        == tx.lock_time) by {
        lemma_u32_le_round_trip(tx.lock_time, rest);
        assert(s.skip((4 + count.len() + body.len()) as int) =~= lock_time + rest);
    }
}

/// The encoding of a well-formed transaction, followed by anything, parses
/// to that transaction and to the encoding's length.
pub proof fn lemma_transaction_parse_bytes(tx: TransactionView, rest: Seq<u8>)
    requires
        tx.wf(),
    ensures
        transaction_parse(transaction_bytes(tx) + rest) == Some(
            (tx, transaction_bytes(tx).len()),
        ),
{
    lemma_transaction_parts(tx, rest);
}

/// The encoding of a transaction is as long as the 4 bytes of its version,
/// the count prefix, the encodings of its inputs and the 4 bytes of its lock
/// time together.
pub proof fn transaction_wire_size(x: BitcoinTransaction)
    ensures
        transaction_bytes(x@).len() == 4 + compact_size_bytes(x@.inputs.len() as u64).len()
            + inputs_bytes(x@.inputs).len() + 4,
{
    lemma_u32_le_round_trip(x@.version, Seq::empty());
    lemma_u32_le_round_trip(x@.lock_time, Seq::empty());
}

/// Decoding the encoding of a transaction gives the transaction back, its
/// inputs in their order, and consumes the whole encoding.
pub proof fn transaction_round_trip(x: BitcoinTransaction)
    ensures
        transaction_parse(transaction_bytes(x@)) == Some((x@, transaction_bytes(x@).len())),
{
    x.lemma_view_wf();
    lemma_transaction_parse_bytes(x@, Seq::empty());
    assert(transaction_bytes(x@) + Seq::<u8>::empty() =~= transaction_bytes(x@));
}

/// Bytes that follow the encoding of a transaction do not disturb its
/// decoding: the transaction comes back, the count of consumed bytes is the
/// encoding's length, short of the buffer's, and what is left from there on
/// is exactly the trailing bytes.
pub proof fn transaction_ignores_trailing_bytes(x: BitcoinTransaction, trailing: Seq<u8>)
    requires
        trailing.len() > 0,
    ensures
        transaction_parse(transaction_bytes(x@) + trailing) == Some(
            (x@, transaction_bytes(x@).len()),
        ),
        transaction_bytes(x@).len() < (transaction_bytes(x@) + trailing).len(),
        (transaction_bytes(x@) + trailing).skip(transaction_bytes(x@).len() as int) == trailing,
{
    x.lemma_view_wf();
    lemma_transaction_parse_bytes(x@, trailing);
    assert((transaction_bytes(x@) + trailing).skip(transaction_bytes(x@).len() as int)
        =~= trailing);
}

/// No proper prefix of a transaction's encoding decodes: a buffer that
/// holds only the first `keep` bytes of it is refused.
pub proof fn transaction_prefix_fails(x: BitcoinTransaction, keep: nat)
    requires
        keep < transaction_bytes(x@).len(),
    ensures
        transaction_parse(transaction_bytes(x@).take(keep as int)) is None,
{
    let whole = transaction_bytes(x@);
    let kept = whole.take(keep as int);
    if transaction_parse(kept) is Some {
        lemma_transaction_parse_extends(kept, whole.skip(keep as int));
        assert(kept + whole.skip(keep as int) =~= whole);
        transaction_round_trip(x);
    }
}

/// The encoding of a transaction with its last byte removed does not
/// decode, whether it has one input or any other number of them.
pub proof fn transaction_truncated_fails(x: BitcoinTransaction)
    ensures
        transaction_bytes(x@).len() > 0,
        transaction_parse(transaction_bytes(x@).drop_last()) is None,
{
    transaction_round_trip(x);
    let whole = transaction_bytes(x@);
    transaction_prefix_fails(x, (whole.len() - 1) as nat);
    assert(whole.drop_last() =~= whole.take(whole.len() - 1));
}

impl BitcoinTransaction {
    /// What a transaction in memory stands for is always well formed.
    pub proof fn lemma_view_wf(self)
        ensures
            self@.wf(),
    {
        assert(self@.inputs.len() == self.inputs.len());
        assert forall|i: int| 0 <= i < self@.inputs.len() implies (#[trigger] self@.inputs[i]).wf(
        ) by {
            self.inputs@[i].lemma_view_wf();
        }
    }

    pub fn new(version: u32, inputs: Vec<TransactionInput>, lock_time: u32) -> (tx: Self)
        ensures
            tx@ == (TransactionView { version, inputs: inputs_view(inputs@), lock_time }),
    {
        Self { version, inputs, lock_time }
    }

    /// Encodes the transaction: version, number of inputs, each input in
    /// list order, lock time.
    pub fn to_bytes(&self) -> (bytes: Vec<u8>)
        ensures
            bytes@ == transaction_bytes(self@),
    {
        let mut bytes: Vec<u8> = Vec::new();
        push_u32_le(&mut bytes, self.version);
        let input_count = CompactSize::new(self.inputs.len() as u64);
        bytes.extend_from_slice(input_count.to_bytes().as_slice());
        let ghost head = bytes@;
        for i in 0..self.inputs.len()
            invariant
                bytes@ == head + inputs_bytes(self@.inputs.take(i as int)),
        {
            proof {
                lemma_inputs_bytes_push(self@.inputs.take(i as int), self@.inputs[i as int]);
                assert(self@.inputs.take(i + 1) =~= self@.inputs.take(i as int).push(
                    self@.inputs[i as int],
                ));
            }
            bytes.extend_from_slice(self.inputs[i].to_bytes().as_slice());
        }
        assert(self@.inputs.take(self.inputs.len() as int) =~= self@.inputs);
        push_u32_le(&mut bytes, self.lock_time);
        bytes
    }

    /// Decodes the transaction at the front of `bytes` and reports how many
    /// bytes it occupied; bytes after it are left alone. Fails exactly where
    /// the buffer ends before the transaction is complete.
    pub fn from_bytes(bytes: &[u8]) -> (r: Result<(Self, usize), BitcoinError>)
        ensures
            match r {
                Ok((tx, n)) => transaction_parse(bytes@) == Some((tx@, n as nat)),
                Err(e) => e == BitcoinError::InsufficientBytes && transaction_parse(bytes@)
                    is None,
            },
    {
        if bytes.len() < 4 {
            return Err(BitcoinError::InsufficientBytes);
        }
        let version: u32 = read_u32_le(bytes, 0);
        assert(bytes@.skip(0) =~= bytes@);
        let mut offset: usize = 4;

        let (input_count, input_count_size) = CompactSize::from_bytes(
            &bytes[offset..bytes.len()],
        )?;
        offset += input_count_size;
        let ghost start: usize = offset;
        let ghost body = bytes@.skip(start as int);

        let mut inputs: Vec<TransactionInput> = Vec::new();
        for i in 0..input_count.value
            invariant
                4 <= start <= offset <= bytes.len(),
                compact_size_parse(bytes@.skip(4)) == Some(
                    (input_count.value, (start - 4) as nat),
                ),
                body == bytes@.skip(start as int),
                inputs_parse(body, i as nat) == Some(
                    (inputs_view(inputs@), (offset - start) as nat),
                ),
        {
            proof {
                assert(body.skip(offset - start) =~= bytes@.skip(offset as int));
            }
            if offset >= bytes.len() {
                proof {
                    lemma_inputs_parse_fails_on(body, (i + 1) as nat, input_count.value as nat);
                }
                return Err(BitcoinError::InsufficientBytes);
            }
            let (input, input_size) = match TransactionInput::from_bytes(
                &bytes[offset..bytes.len()],
            ) {
                Ok(found) => found,
                Err(e) => {
                    proof {
                        lemma_inputs_parse_fails_on(body, (i + 1) as nat, input_count.value as nat);
                    }
                    return Err(e);
                },
            };
            proof {
                assert(inputs_view(inputs@.push(input)) =~= inputs_view(inputs@).push(input@));
            }
            inputs.push(input);
            offset += input_size;
        }

        if bytes.len() - offset < 4 {
            return Err(BitcoinError::InsufficientBytes);
        }
        let lock_time: u32 = read_u32_le(bytes, offset);
        offset += 4;

        Ok((BitcoinTransaction::new(version, inputs, lock_time), offset))
    }
}

} // verus!
