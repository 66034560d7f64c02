use group::prime::PrimeCurveAffine;

use dizk_bridge::errors::{DecodeError, DizkError};
use dizk_bridge::proofdec::decode_proofs;

fn valid_record() -> Vec<u8> {
    let g1 = blstrs::G1Affine::generator().to_compressed();
    let g2 = blstrs::G2Affine::generator().to_compressed();
    let mut rec = Vec::new();
    rec.extend_from_slice(&g1);
    rec.extend_from_slice(&g2);
    rec.extend_from_slice(&g1);
    rec
}

#[test]
fn empty_stream_decodes_to_no_proofs() {
    let proofs = decode_proofs(&Vec::new()).unwrap();
    assert!(proofs.is_empty());
}

#[test]
fn two_records_decode_to_two_proofs_in_order() {
    let rec = valid_record();
    let mut bytes = rec.clone();
    bytes.extend_from_slice(&rec);
    let proofs = decode_proofs(&bytes).unwrap();
    assert_eq!(proofs.len(), 2);
    for p in &proofs {
        assert_eq!(p.a_bytes().as_slice(), &rec[0..48]);
        assert_eq!(p.b_bytes().as_slice(), &rec[48..144]);
        assert_eq!(p.c_bytes().as_slice(), &rec[144..192]);
    }
}

#[test]
fn stream_truncated_mid_second_record_is_a_decode_error() {
    let rec = valid_record();
    let mut bytes = rec.clone();
    bytes.extend_from_slice(&rec[..100]);
    match decode_proofs(&bytes) {
        Err(DizkError::Decode { detail }) => assert_eq!(detail, DecodeError::Truncated),
        _ => panic!("a truncated stream must fail decoding, not yield a partial result"),
    }
}

#[test]
fn invalid_point_reports_its_record() {
    let rec = valid_record();
    let mut bytes = rec.clone();
    bytes.extend_from_slice(&vec![0x5au8; 192]);
    match decode_proofs(&bytes) {
        Err(DizkError::Decode { detail }) => {
            assert_eq!(detail, DecodeError::InvalidPoint { record: 1 });
        },
        _ => panic!("an invalid point must fail decoding"),
    }
}

#[test]
fn identity_points_are_rejected() {
    let g1_inf = blstrs::G1Affine::identity().to_compressed();
    let g2 = blstrs::G2Affine::generator().to_compressed();
    let g1 = blstrs::G1Affine::generator().to_compressed();
    let mut bytes = Vec::new();
    bytes.extend_from_slice(&g1_inf);
    bytes.extend_from_slice(&g2);
    bytes.extend_from_slice(&g1);
    match decode_proofs(&bytes) {
        Err(DizkError::Decode { detail }) => {
            assert_eq!(detail, DecodeError::InvalidPoint { record: 0 });
        },
        _ => panic!("a point at infinity must fail decoding"),
    }
}
