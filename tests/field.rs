use expander_orchestration::field::{BN254Fr, Field};

fn le_bytes(v: u64) -> Vec<u8> {
    let mut b = v.to_le_bytes().to_vec();
    b.resize(32, 0);
    b
}

#[test]
fn zero_has_no_inverse() {
    let zero = BN254Fr::from_u64(0);
    assert!(zero.is_zero());
    assert!(zero.optimistic_inv().is_none());
    assert!(zero.inv().is_none());
}

#[test]
fn one_is_its_own_inverse() {
    let one = BN254Fr::from_u64(1);
    assert!(one.is_one());
    assert!(!one.is_zero());
    assert_eq!(one.optimistic_inv().unwrap().to_bytes(), le_bytes(1));
    assert_eq!(BN254Fr::one().to_bytes(), le_bytes(1));
}

#[test]
fn inverse_of_two() {
    let two = BN254Fr::from_u64(2);
    assert!(!two.is_one());
    let expected = vec![
        1, 0, 0, 248, 201, 250, 240, 161, 72, 184, 220, 60, 36, 244, 25, 148, 46, 172, 192, 64,
        219, 34, 40, 220, 20, 208, 152, 112, 57, 39, 50, 24,
    ];
    assert_eq!(two.optimistic_inv().unwrap().to_bytes(), expected);
    assert_eq!(two.inv().unwrap().to_bytes(), expected);
}

#[test]
fn inverse_of_seven() {
    let seven = BN254Fr::from_u64(7);
    let expected = vec![
        110, 219, 182, 253, 203, 144, 178, 9, 167, 52, 136, 90, 10, 216, 226, 78, 13, 232, 237,
        237, 208, 192, 157, 172, 115, 59, 80, 105, 16, 194, 233, 6,
    ];
    let inv = seven.optimistic_inv().unwrap();
    assert_eq!(inv.to_bytes(), expected);
    assert!(!inv.is_one());
    assert_eq!(BN254Fr::from_u64(u64::MAX).to_bytes(), le_bytes(u64::MAX));
}

#[test]
fn optimistic_inverse_of_one_is_one() {
    let inv = BN254Fr::one().optimistic_inv().unwrap();
    assert!(inv.is_one());
    assert_eq!(inv.to_bytes(), le_bytes(1));
}
