//! The human-readable rendering of a transaction. It is meant for
//! diagnostics and is never parsed back.

use crate::hex_text::{encode_hex, hex_text};
use crate::input::{InputView, TransactionInput};
use crate::transaction::{BitcoinTransaction, TransactionView};
use vstd::prelude::*;
use vstd::string::StringExecFns;

verus! {

/// The character for the decimal digit `d`, for `d` from 0 to 9.
pub open spec fn digit_char(d: nat) -> char {
    (d + '0' as nat) as char
}

/// `n` in decimal, without sign or leading zeros.
pub open spec fn decimal_text(n: nat) -> Seq<char>
    decreases n,
{
    if n < 10 {
        seq![digit_char(n)]
    } else {
        decimal_text(n / 10).push(digit_char(n % 10))
    }
}

/// The six lines that describe the input at position `index`.
pub open spec fn input_text(index: nat, input: InputView) -> Seq<char> {
    "Input "@ + decimal_text(index) + ":\n"@
        + "  Previous Output: "@ + hex_text(input.previous_output.txid) + "\n"@
        + "  Previous Output Vout: "@ + decimal_text(input.previous_output.vout as nat) + "\n"@
        + "  ScriptSig Length: "@ + decimal_text(input.script_sig.len()) + " bytes\n"@
        + "  ScriptSig: "@ + hex_text(input.script_sig) + "\n"@
        + "  Sequence: "@ + decimal_text(input.sequence as nat) + "\n"@
}

/// The lines that describe the first `count` of `inputs`, in order.
pub open spec fn inputs_text(inputs: Seq<InputView>, count: nat) -> Seq<char>
    decreases count,
{
    if count == 0 {
        Seq::empty()
    } else {
        inputs_text(inputs, (count - 1) as nat) + input_text(
            (count - 1) as nat,
            inputs[count - 1],
        )
    }
}

/// The rendering of a transaction: a line for the version, one for the
/// number of inputs, six for each input, and the lock time, which ends the
/// text without a line break.
pub open spec fn transaction_text(tx: TransactionView) -> Seq<char> {
    "Transaction Version: "@ + decimal_text(tx.version as nat) + "\n"@
        + "Input Count: "@ + decimal_text(tx.inputs.len()) + "\n"@
        + inputs_text(tx.inputs, tx.inputs.len())
        + "Lock Time: "@ + decimal_text(tx.lock_time as nat)
}

/// The one-character text of a decimal digit.
fn digit_str(d: u64) -> (s: &'static str)
    requires
        d < 10,
    ensures
        s@ == seq![digit_char(d as nat)],
{
    proof {
        reveal_strlit("0");
        reveal_strlit("1");
        reveal_strlit("2");
        reveal_strlit("3");
        reveal_strlit("4");
        reveal_strlit("5");
        reveal_strlit("6");
        reveal_strlit("7");
        reveal_strlit("8");
        reveal_strlit("9");
    }
    let s = match d {
        0 => "0",
        1 => "1",
        2 => "2",
        3 => "3",
        4 => "4",
        5 => "5",
        6 => "6",
        7 => "7",
        8 => "8",
        _ => "9",
    };
    assert(s@ =~= seq![digit_char(d as nat)]);
    s
}

/// Appends `n` in decimal to `out`.
pub fn push_decimal(out: &mut String, n: u64)
    ensures
        final(out)@ == old(out)@ + decimal_text(n as nat),
    decreases n,
{
    if n >= 10 {
        push_decimal(out, n / 10);
    }
    out.append(digit_str(n % 10));
}

impl TransactionInput {
    /// Appends to `out` the lines that describe this input, as the one at
    /// position `index`.
    pub fn push_text(&self, out: &mut String, index: usize)
        ensures
            final(out)@ == old(out)@ + input_text(index as nat, self@),
    {
        out.append("Input ");
        push_decimal(out, index as u64);
        out.append(":\n");
        out.append("  Previous Output: ");
        out.append(self.previous_output.txid.to_hex().as_str());
        out.append("\n");
        out.append("  Previous Output Vout: ");
        push_decimal(out, self.previous_output.vout as u64);
        out.append("\n");
        out.append("  ScriptSig Length: ");
        push_decimal(out, self.script_sig.bytes.len() as u64);
        out.append(" bytes\n");
        out.append("  ScriptSig: ");
        out.append(encode_hex(self.script_sig.bytes.as_slice()).as_str());
        out.append("\n");
        out.append("  Sequence: ");
        push_decimal(out, self.sequence as u64);
        out.append("\n");
    }
}

impl BitcoinTransaction {
    /// Renders the transaction as text, for a person to read.
    pub fn to_string(&self) -> (text: String)
        ensures
            text@ == transaction_text(self@),
    {
        let mut out = String::new();
        out.append("Transaction Version: ");
        push_decimal(&mut out, self.version as u64);
        out.append("\n");
        out.append("Input Count: ");
        push_decimal(&mut out, self.inputs.len() as u64);
        out.append("\n");
        let ghost head = out@;
        for i in 0..self.inputs.len()
            invariant
                out@ == head + inputs_text(self@.inputs, i as nat),
        {
            self.inputs[i].push_text(&mut out, i);
        }
        out.append("Lock Time: ");
        push_decimal(&mut out, self.lock_time as u64);
        out
    }
}

} // verus!
