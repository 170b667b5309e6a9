use bitcoin_codec::{BitcoinError, OutPoint, Script, TransactionInput};

fn sample_input() -> TransactionInput {
    TransactionInput::new(
        OutPoint::new([0x11; 32], 2),
        Script::new(vec![0xAA, 0xBB, 0xCC]),
        0xFFFF_FFFE,
    )
}

fn sample_bytes() -> Vec<u8> {
    let mut bytes = vec![0x11; 32];
    bytes.extend_from_slice(&[0x02, 0x00, 0x00, 0x00]);
    bytes.extend_from_slice(&[0x03, 0xAA, 0xBB, 0xCC]);
    bytes.extend_from_slice(&[0xFE, 0xFF, 0xFF, 0xFF]);
    bytes
}

#[test]
fn input_new_keeps_its_parts() {
    let input = sample_input();
    assert_eq!(input.previous_output, OutPoint::new([0x11; 32], 2));
    assert_eq!(input.script_sig, Script::new(vec![0xAA, 0xBB, 0xCC]));
    assert_eq!(input.sequence, 0xFFFF_FFFE);
}

#[test]
fn input_encodes_outpoint_script_sequence() {
    assert_eq!(sample_input().to_bytes(), sample_bytes());
}

#[test]
fn input_encoding_length_is_the_sum_of_its_parts() {
    let input = sample_input();
    assert_eq!(
        input.to_bytes().len(),
        36 + input.script_sig.to_bytes().len() + 4
    );
}

#[test]
fn input_decodes_outpoint_script_sequence() {
    assert_eq!(
        TransactionInput::from_bytes(&sample_bytes()),
        Ok((sample_input(), 44))
    );
}

#[test]
fn input_decode_leaves_later_bytes_alone() {
    let mut bytes = sample_bytes();
    bytes.extend_from_slice(&[0x00, 0x01]);
    assert_eq!(
        TransactionInput::from_bytes(&bytes),
        Ok((sample_input(), 44))
    );
}

#[test]
fn input_with_empty_script_round_trips() {
    let input = TransactionInput::new(OutPoint::new([0; 32], 0), Script::new(Vec::new()), 0);
    let bytes = input.to_bytes();
    assert_eq!(bytes.len(), 41);
    assert_eq!(TransactionInput::from_bytes(&bytes), Ok((input, 41)));
}

#[test]
fn input_decode_with_cut_outpoint_fails() {
    assert_eq!(
        TransactionInput::from_bytes(&sample_bytes()[..35]),
        Err(BitcoinError::InsufficientBytes)
    );
}

#[test]
fn input_decode_that_ends_at_the_outpoint_fails() {
    assert_eq!(
        TransactionInput::from_bytes(&sample_bytes()[..36]),
        Err(BitcoinError::InsufficientBytes)
    );
}

#[test]
fn input_decode_with_cut_script_fails() {
    assert_eq!(
        TransactionInput::from_bytes(&sample_bytes()[..38]),
        Err(BitcoinError::InsufficientBytes)
    );
}

#[test]
fn input_decode_with_cut_sequence_fails() {
    assert_eq!(
        TransactionInput::from_bytes(&sample_bytes()[..43]),
        Err(BitcoinError::InsufficientBytes)
    );
    assert_eq!(
        TransactionInput::from_bytes(&sample_bytes()[..40]),
        Err(BitcoinError::InsufficientBytes)
    );
}

#[test]
fn input_decode_of_every_proper_prefix_fails() {
    let bytes = sample_bytes();
    for keep in 0..bytes.len() {
        assert_eq!(
            TransactionInput::from_bytes(&bytes[..keep]),
            Err(BitcoinError::InsufficientBytes)
        );
    }
}

#[test]
fn input_round_trip() {
    let input = sample_input();
    let bytes = input.to_bytes();
    assert_eq!(
        TransactionInput::from_bytes(&bytes),
        Ok((input, bytes.len()))
    );
}
