use bitcoin_codec::{BitcoinError, Txid};

const COUNTING_HEX: &str = "000102030405060708090a0b0c0d0e0f101112131415161718191a1b1c1d1e1f";

fn counting_txid() -> Txid {
    let mut raw = [0u8; 32];
    for (i, byte) in raw.iter_mut().enumerate() {
        *byte = i as u8;
    }
    Txid(raw)
}

#[test]
fn txid_renders_as_lower_case_hex_in_stored_order() {
    assert_eq!(counting_txid().to_hex(), COUNTING_HEX);
}

#[test]
fn txid_renders_high_digit_first() {
    let mut raw = [0u8; 32];
    raw[0] = 0xAB;
    raw[31] = 0x0F;
    let text = Txid(raw).to_hex();
    assert_eq!(text.len(), 64);
    assert_eq!(&text[..2], "ab");
    assert_eq!(&text[62..], "0f");
}

#[test]
fn txid_of_all_ones_renders_as_64_f() {
    assert_eq!(Txid([0xFF; 32]).to_hex(), "f".repeat(64));
}

#[test]
fn txid_parses_lower_case_hex() {
    assert_eq!(Txid::from_hex(COUNTING_HEX), Ok(counting_txid()));
}

#[test]
fn txid_parses_upper_and_mixed_case_hex() {
    assert_eq!(
        Txid::from_hex(&COUNTING_HEX.to_uppercase()),
        Ok(counting_txid())
    );
    let mixed = "AbCdEf".repeat(10) + "0a0B";
    let parsed = Txid::from_hex(&mixed).unwrap();
    assert_eq!(parsed.to_hex(), mixed.to_lowercase());
}

#[test]
fn txid_text_round_trip() {
    let text = counting_txid().to_hex();
    let parsed = Txid::from_hex(&text).unwrap();
    assert_eq!(parsed, counting_txid());
    assert_eq!(parsed.to_hex(), text);
}

#[test]
fn txid_text_of_odd_length_fails() {
    assert_eq!(
        Txid::from_hex(&COUNTING_HEX[..63]),
        Err(BitcoinError::InvalidFormat)
    );
    assert_eq!(Txid::from_hex("abc"), Err(BitcoinError::InvalidFormat));
}

#[test]
fn txid_text_of_wrong_length_fails() {
    assert_eq!(
        Txid::from_hex(&COUNTING_HEX[..62]),
        Err(BitcoinError::InvalidFormat)
    );
    let long = COUNTING_HEX.to_owned() + "00";
    assert_eq!(Txid::from_hex(&long), Err(BitcoinError::InvalidFormat));
    assert_eq!(Txid::from_hex(""), Err(BitcoinError::InvalidFormat));
}

#[test]
fn txid_text_with_a_character_that_is_no_hex_digit_fails() {
    let bad = "g".to_owned() + &COUNTING_HEX[1..];
    assert_eq!(Txid::from_hex(&bad), Err(BitcoinError::InvalidFormat));
    let spaced = " ".to_owned() + &COUNTING_HEX[1..];
    assert_eq!(Txid::from_hex(&spaced), Err(BitcoinError::InvalidFormat));
}

#[test]
fn txid_text_with_characters_outside_ascii_fails() {
    let bad = "é".repeat(32);
    assert_eq!(bad.len(), 64);
    assert_eq!(Txid::from_hex(&bad), Err(BitcoinError::InvalidFormat));
    let bad = "é".to_owned() + &COUNTING_HEX[2..];
    assert_eq!(bad.chars().count(), 63);
    assert_eq!(Txid::from_hex(&bad), Err(BitcoinError::InvalidFormat));
}

#[test]
fn parse_hex_reads_digits_of_either_case() {
    assert_eq!(
        bitcoin_codec::hex_text::parse_hex("00ff1aA1Bc"),
        Ok(vec![0x00, 0xFF, 0x1A, 0xA1, 0xBC])
    );
    assert_eq!(bitcoin_codec::hex_text::parse_hex(""), Ok(Vec::new()));
}

#[test]
fn parse_hex_refuses_what_is_not_hex_text() {
    assert_eq!(
        bitcoin_codec::hex_text::parse_hex("abc"),
        Err(BitcoinError::InvalidFormat)
    );
    assert_eq!(
        bitcoin_codec::hex_text::parse_hex("zz"),
        Err(BitcoinError::InvalidFormat)
    );
    assert_eq!(
        bitcoin_codec::hex_text::parse_hex("0x"),
        Err(BitcoinError::InvalidFormat)
    );
}

#[test]
fn txid_from_slice_of_32_bytes() {
    let bytes: Vec<u8> = (0u8..32).collect();
    assert_eq!(Txid::try_from_slice(&bytes), Ok(counting_txid()));
}

#[test]
fn txid_from_slice_of_another_length_fails() {
    let bytes: Vec<u8> = (0u8..33).collect();
    assert_eq!(
        Txid::try_from_slice(&bytes),
        Err(BitcoinError::InvalidFormat)
    );
    assert_eq!(
        Txid::try_from_slice(&bytes[..31]),
        Err(BitcoinError::InvalidFormat)
    );
    assert_eq!(Txid::try_from_slice(&[]), Err(BitcoinError::InvalidFormat));
}
