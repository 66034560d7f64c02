use dizk_bridge::field::Fr;

fn le32(n: u64) -> Vec<u8> {
    let mut v = vec![0u8; 32];
    let le = n.to_le_bytes();
    v[..8].copy_from_slice(&le);
    v
}

#[test]
fn one_has_canonical_representation() {
    assert_eq!(Fr::one().to_bytes(), le32(1));
}

#[test]
fn zero_has_canonical_representation() {
    assert_eq!(Fr::zero().to_bytes(), le32(0));
    assert!(Fr::zero().is_zero());
    assert!(!Fr::one().is_zero());
}

#[test]
fn addition_is_field_addition() {
    let one = Fr::one();
    let two = one.add(&one);
    assert_eq!(two.to_bytes(), le32(2));
    let five = Fr::from_u64(2).add(&Fr::from_u64(3));
    assert_eq!(five.to_bytes(), le32(5));
}

#[test]
fn multiplication_is_field_multiplication() {
    let six = Fr::from_u64(2).mul(&Fr::from_u64(3));
    assert_eq!(six.to_bytes(), le32(6));
    let zero = Fr::from_u64(7).mul(&Fr::zero());
    assert!(zero.is_zero());
}

#[test]
fn from_u64_is_little_endian() {
    assert_eq!(Fr::from_u64(0x0102030405060708).to_bytes()[..8], [8, 7, 6, 5, 4, 3, 2, 1]);
}
