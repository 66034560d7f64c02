use std::sync::Arc;

use dizk_bridge::wire::{decode_assignment_batch, encode_assignment_batch};

fn le32(n: u64) -> Vec<u8> {
    let mut v = vec![0u8; 32];
    let le = n.to_le_bytes();
    v[..8].copy_from_slice(&le);
    v
}

#[test]
fn encoding_has_the_documented_layout() {
    let inputs = vec![Arc::new(vec![le32(1), le32(7)])];
    let aux = vec![Arc::new(vec![])];
    let bytes = encode_assignment_batch(&inputs, &aux);
    let mut expected = vec![1u8];
    expected.extend_from_slice(&2u64.to_le_bytes());
    expected.extend_from_slice(&2u64.to_le_bytes());
    expected.extend_from_slice(&le32(1));
    expected.extend_from_slice(&le32(7));
    expected.extend_from_slice(&0u64.to_le_bytes());
    assert_eq!(bytes, expected);
}

#[test]
fn round_trip_restores_the_batch_byte_for_byte() {
    let inputs = vec![Arc::new(vec![le32(1), le32(5)]), Arc::new(vec![le32(1)])];
    let aux = vec![Arc::new(vec![le32(11), le32(12), le32(13)]), Arc::new(vec![])];
    let bytes = encode_assignment_batch(&inputs, &aux);
    let (din, daux) = decode_assignment_batch(&bytes).expect("a valid encoding must decode");
    assert_eq!(din.len(), 2);
    assert_eq!(daux.len(), 2);
    for i in 0..2 {
        assert_eq!(&din[i], inputs[i].as_ref());
        assert_eq!(&daux[i], aux[i].as_ref());
    }
}

#[test]
fn empty_batch_round_trips() {
    let inputs: Vec<Arc<Vec<Vec<u8>>>> = vec![];
    let aux: Vec<Arc<Vec<Vec<u8>>>> = vec![];
    let bytes = encode_assignment_batch(&inputs, &aux);
    assert_eq!(bytes, {
        let mut v = vec![1u8];
        v.extend_from_slice(&0u64.to_le_bytes());
        v
    });
    let (din, daux) = decode_assignment_batch(&bytes).unwrap();
    assert!(din.is_empty());
    assert!(daux.is_empty());
}

#[test]
fn wrong_version_byte_is_rejected() {
    let inputs = vec![Arc::new(vec![le32(1)])];
    let aux = vec![Arc::new(vec![])];
    let mut bytes = encode_assignment_batch(&inputs, &aux);
    bytes[0] = 2;
    assert!(decode_assignment_batch(&bytes).is_none());
}

#[test]
fn truncated_stream_is_rejected() {
    let inputs = vec![Arc::new(vec![le32(1)])];
    let aux = vec![Arc::new(vec![])];
    let bytes = encode_assignment_batch(&inputs, &aux);
    let short = bytes[..bytes.len() - 1].to_vec();
    assert!(decode_assignment_batch(&short).is_none());
}

#[test]
fn trailing_bytes_are_rejected() {
    let inputs = vec![Arc::new(vec![le32(1)])];
    let aux = vec![Arc::new(vec![])];
    let mut bytes = encode_assignment_batch(&inputs, &aux);
    bytes.push(0);
    assert!(decode_assignment_batch(&bytes).is_none());
}

#[test]
fn odd_sequence_count_is_rejected() {
    // one sequence only: a count no encoder output can carry
    let mut bytes = vec![1u8];
    bytes.extend_from_slice(&1u64.to_le_bytes());
    bytes.extend_from_slice(&0u64.to_le_bytes());
    assert!(decode_assignment_batch(&bytes).is_none());
}
