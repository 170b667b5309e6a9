//! Hexadecimal text for byte strings: two digits per byte, high digit
//! first.

use crate::error::BitcoinError;
use vstd::prelude::*;

verus! {

/// The lower-case character for the hex digit `d`, for `d` from 0 to 15.
pub open spec fn lower_hex_char(d: int) -> char {
    if d < 10 {
        (d + '0' as int) as char
    } else {
        (d - 10 + 'a' as int) as char
    }
}

/// The value of a hex digit of either case, or `None` for any other
/// character.
pub open spec fn hex_char_value(c: char) -> Option<int> {
    if '0' <= c <= '9' {
        Some(c as int - '0' as int)
    } else if 'a' <= c <= 'f' {
        Some(c as int - 'a' as int + 10)
    } else if 'A' <= c <= 'F' {
        Some(c as int - 'A' as int + 10)
    } else {
        None
    }
}

/// The lower-case hex text of `bytes`.
pub open spec fn hex_text(bytes: Seq<u8>) -> Seq<char> {
    Seq::new(
        2 * bytes.len(),
        |i: int|
            lower_hex_char(
                if i % 2 == 0 {
                    bytes[i / 2] as int / 16
                } else {
                    bytes[i / 2] as int % 16
                },
            ),
    )
}

/// Whether `text` is hex text: an even number of characters, each a hex
/// digit of either case.
pub open spec fn is_hex_text(text: Seq<char>) -> bool {
    &&& text.len() % 2 == 0
    &&& forall|i: int| 0 <= i < text.len() ==> hex_char_value(#[trigger] text[i]) is Some
}

/// The bytes that hex text stands for.
pub open spec fn hex_bytes(text: Seq<char>) -> Seq<u8>
    recommends
        is_hex_text(text),
{
    Seq::new(
        text.len() / 2,
        |i: int|
            (16 * hex_char_value(text[2 * i]).unwrap() + hex_char_value(
                text[2 * i + 1],
            ).unwrap()) as u8,
    )
}

/// The hex text of any bytes is hex text, and stands for those bytes.
pub proof fn lemma_hex_text_round_trip(bytes: Seq<u8>)
    ensures
        hex_text(bytes).len() == 2 * bytes.len(),
        is_hex_text(hex_text(bytes)),
        hex_bytes(hex_text(bytes)) == bytes,
{
    let text = hex_text(bytes);
    assert forall|d: int| 0 <= d < 16 implies hex_char_value(#[trigger] lower_hex_char(d))
        == Some(d) by {}
    assert forall|i: int| 0 <= i < text.len() implies hex_char_value(#[trigger] text[i])
        is Some by {
        let d = if i % 2 == 0 {
            bytes[i / 2] as int / 16
        } else {
            bytes[i / 2] as int % 16
        };
        assert(text[i] == lower_hex_char(d));
    }
    assert forall|i: int| 0 <= i < bytes.len() implies #[trigger] hex_bytes(text)[i]
        == bytes[i] by {
        assert(text[2 * i] == lower_hex_char(bytes[i] as int / 16));
        assert(text[2 * i + 1] == lower_hex_char(bytes[i] as int % 16));
    }
    assert(hex_bytes(text) =~= bytes);
}

/// The type of `hex::decode`'s error.
#[verifier::external_type_specification]
#[verifier::external_body]
pub struct ExFromHexError(hex::FromHexError);

/// `hex::encode` on a byte slice. It writes each byte as two characters taken
/// from the table `0123456789abcdef`, the one for the high four bits first.
#[verifier::external_body]
pub(crate) fn encode_hex(bytes: &[u8]) -> (text: String)
    ensures
        text@ == hex_text(bytes@),
{
    hex::encode(bytes)
}

/// `hex::decode` on a string. It works on the string's bytes: it fails on an
/// odd number of them and on any that is not one of `0-9`, `a-f`, `A-F`;
/// otherwise every two digits give one byte, the first digit its high four
/// bits. A character outside ASCII is made of bytes that are no hex digits,
/// so text that holds one fails as well, and text of hex digits alone has
/// as many bytes as characters.
#[verifier::external_body]
pub(crate) fn decode_hex(text: &str) -> (r: Result<Vec<u8>, hex::FromHexError>)
    ensures
        r is Ok <==> is_hex_text(text@),
        r matches Ok(bytes) ==> bytes@ == hex_bytes(text@),
{
    hex::decode(text)
}

/// Reads hex text of either case into the bytes it stands for. Fails with
/// `InvalidFormat` exactly where `text` is not hex text.
pub fn parse_hex(text: &str) -> (r: Result<Vec<u8>, BitcoinError>)
    ensures
        match r {
            Ok(bytes) => is_hex_text(text@) && bytes@ == hex_bytes(text@),
            Err(e) => e == BitcoinError::InvalidFormat && !is_hex_text(text@),
        },
{
    match decode_hex(text) {
        Ok(bytes) => Ok(bytes),
        Err(_) => Err(BitcoinError::InvalidFormat),
    }
}

} // verus!
