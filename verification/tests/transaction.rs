use bitcoin_codec::{BitcoinError, BitcoinTransaction, OutPoint, Script, TransactionInput};

fn input(tag: u8, script: Vec<u8>) -> TransactionInput {
    TransactionInput::new(
        OutPoint::new([tag; 32], tag as u32),
        Script::new(script),
        0xFFFF_FFFF,
    )
}

fn single_input_transaction() -> BitcoinTransaction {
    BitcoinTransaction::new(2, vec![input(0xAB, vec![0x51, 0x52])], 500_000)
}

fn single_input_bytes() -> Vec<u8> {
    let mut bytes = vec![0x02, 0x00, 0x00, 0x00];
    bytes.push(0x01);
    bytes.extend_from_slice(&[0xAB; 32]);
    bytes.extend_from_slice(&[0xAB, 0x00, 0x00, 0x00]);
    bytes.extend_from_slice(&[0x02, 0x51, 0x52]);
    bytes.extend_from_slice(&[0xFF, 0xFF, 0xFF, 0xFF]);
    bytes.extend_from_slice(&[0x20, 0xA1, 0x07, 0x00]);
    bytes
}

#[test]
fn transaction_new_keeps_its_parts() {
    let tx = single_input_transaction();
    assert_eq!(tx.version, 2);
    assert_eq!(tx.inputs, vec![input(0xAB, vec![0x51, 0x52])]);
    assert_eq!(tx.lock_time, 500_000);
}

#[test]
fn transaction_without_inputs_encodes_to_nine_bytes() {
    let tx = BitcoinTransaction::new(1, Vec::new(), 0);
    assert_eq!(
        tx.to_bytes(),
        vec![0x01, 0x00, 0x00, 0x00, 0x00, 0x00, 0x00, 0x00, 0x00]
    );
}

#[test]
fn transaction_without_inputs_decodes_from_nine_bytes() {
    let bytes = [0x01, 0x00, 0x00, 0x00, 0x00, 0x00, 0x00, 0x00, 0x00];
    assert_eq!(
        BitcoinTransaction::from_bytes(&bytes),
        Ok((BitcoinTransaction::new(1, Vec::new(), 0), 9))
    );
}

#[test]
fn transaction_encodes_version_count_inputs_lock_time() {
    assert_eq!(single_input_transaction().to_bytes(), single_input_bytes());
}

#[test]
fn transaction_decodes_version_count_inputs_lock_time() {
    let bytes = single_input_bytes();
    assert_eq!(
        BitcoinTransaction::from_bytes(&bytes),
        Ok((single_input_transaction(), bytes.len()))
    );
}

#[test]
fn transaction_encoding_length_is_the_sum_of_its_parts() {
    let tx = BitcoinTransaction::new(
        1,
        vec![input(1, vec![]), input(2, vec![7; 300]), input(3, vec![9])],
        0,
    );
    let inputs: usize = tx.inputs.iter().map(|i| i.to_bytes().len()).sum();
    assert_eq!(tx.to_bytes().len(), 4 + 1 + inputs + 4);
}

#[test]
fn transaction_round_trip_keeps_the_order_of_inputs() {
    let tx = BitcoinTransaction::new(
        0xDEAD_BEEF,
        vec![
            input(3, vec![1, 2, 3]),
            input(1, vec![]),
            input(2, vec![0xEE; 260]),
            input(1, vec![]),
        ],
        0x0102_0304,
    );
    let bytes = tx.to_bytes();
    let (decoded, consumed) = BitcoinTransaction::from_bytes(&bytes).unwrap();
    assert_eq!(consumed, bytes.len());
    assert_eq!(decoded.inputs[0], input(3, vec![1, 2, 3]));
    assert_eq!(decoded.inputs[2], input(2, vec![0xEE; 260]));
    assert_eq!(decoded, tx);
}

#[test]
fn transaction_with_253_inputs_round_trips() {
    let inputs: Vec<TransactionInput> = (0..253).map(|i| input(i as u8, vec![i as u8])).collect();
    let tx = BitcoinTransaction::new(1, inputs, 0);
    let bytes = tx.to_bytes();
    assert_eq!(&bytes[4..7], &[0xFD, 0xFD, 0x00]);
    assert_eq!(BitcoinTransaction::from_bytes(&bytes), Ok((tx, bytes.len())));
}

#[test]
fn truncated_transaction_fails() {
    let bytes = single_input_bytes();
    assert_eq!(
        BitcoinTransaction::from_bytes(&bytes[..bytes.len() - 1]),
        Err(BitcoinError::InsufficientBytes)
    );
}

#[test]
fn every_proper_prefix_of_a_transaction_fails() {
    let bytes = single_input_bytes();
    for keep in 0..bytes.len() {
        assert_eq!(
            BitcoinTransaction::from_bytes(&bytes[..keep]),
            Err(BitcoinError::InsufficientBytes)
        );
    }
}

#[test]
fn truncated_transaction_without_inputs_fails() {
    let bytes = [0x01, 0x00, 0x00, 0x00, 0x00, 0x00, 0x00, 0x00];
    assert_eq!(
        BitcoinTransaction::from_bytes(&bytes),
        Err(BitcoinError::InsufficientBytes)
    );
}

#[test]
fn transaction_decode_of_short_version_fails() {
    assert_eq!(
        BitcoinTransaction::from_bytes(&[0x01, 0x00, 0x00]),
        Err(BitcoinError::InsufficientBytes)
    );
    assert_eq!(
        BitcoinTransaction::from_bytes(&[]),
        Err(BitcoinError::InsufficientBytes)
    );
}

#[test]
fn transaction_decode_without_count_fails() {
    assert_eq!(
        BitcoinTransaction::from_bytes(&[0x01, 0x00, 0x00, 0x00]),
        Err(BitcoinError::InsufficientBytes)
    );
}

#[test]
fn transaction_decode_with_count_beyond_the_data_fails() {
    let mut bytes = single_input_bytes();
    bytes[4] = 0x02;
    assert_eq!(
        BitcoinTransaction::from_bytes(&bytes),
        Err(BitcoinError::InsufficientBytes)
    );
}

#[test]
fn transaction_decode_with_count_and_no_inputs_fails() {
    assert_eq!(
        BitcoinTransaction::from_bytes(&[0x01, 0x00, 0x00, 0x00, 0x03]),
        Err(BitcoinError::InsufficientBytes)
    );
}

#[test]
fn transaction_decode_with_huge_count_fails() {
    let mut bytes = vec![0x01, 0x00, 0x00, 0x00];
    bytes.extend_from_slice(&[0xFF; 9]);
    bytes.extend_from_slice(&[0x00; 64]);
    assert_eq!(
        BitcoinTransaction::from_bytes(&bytes),
        Err(BitcoinError::InsufficientBytes)
    );
}

#[test]
fn trailing_bytes_are_left_alone() {
    let tx = single_input_transaction();
    let mut bytes = tx.to_bytes();
    let encoded = bytes.len();
    bytes.extend_from_slice(&[0xDE, 0xAD, 0xBE, 0xEF]);
    let before = bytes.clone();
    let (decoded, consumed) = BitcoinTransaction::from_bytes(&bytes).unwrap();
    assert_eq!(decoded, tx);
    assert_eq!(consumed, encoded);
    assert!(consumed < bytes.len());
    assert_eq!(&bytes[consumed..], &[0xDE, 0xAD, 0xBE, 0xEF]);
    assert_eq!(bytes, before);
}

#[test]
fn one_trailing_byte_is_left_alone() {
    let mut bytes = BitcoinTransaction::new(1, Vec::new(), 0).to_bytes();
    bytes.push(0x00);
    assert_eq!(
        BitcoinTransaction::from_bytes(&bytes),
        Ok((BitcoinTransaction::new(1, Vec::new(), 0), 9))
    );
}

#[test]
fn transaction_decode_reads_wide_count() {
    let mut bytes = vec![0x02, 0x00, 0x00, 0x00];
    bytes.extend_from_slice(&[0xFD, 0x01, 0x00]);
    bytes.extend_from_slice(&single_input_bytes()[5..]);
    assert_eq!(
        BitcoinTransaction::from_bytes(&bytes),
        Ok((single_input_transaction(), bytes.len()))
    );
}
