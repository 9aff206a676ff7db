use xor_sum_proof::digest::{bit_at, native_xor_sum, INPUT_SIZE};

#[test]
fn digest_of_zero_bytes_is_zero() {
    assert_eq!(native_xor_sum(&[0u8; INPUT_SIZE]), 0);
}

#[test]
fn digest_of_the_demo_preimage() {
    let preimage = *b"da confusion of da highest orda!";
    let expected = preimage.iter().fold(0u8, |acc, b| acc ^ b);
    assert_eq!(native_xor_sum(&preimage), expected);
    assert_eq!(native_xor_sum(&preimage), 22);
}

#[test]
fn digest_of_a_single_set_byte_is_that_byte() {
    let mut preimage = [0u8; INPUT_SIZE];
    preimage[17] = 0xa5;
    assert_eq!(native_xor_sum(&preimage), 0xa5);
}

#[test]
fn digest_of_equal_bytes_cancels() {
    assert_eq!(native_xor_sum(&[0x5c; INPUT_SIZE]), 0);
    let mut preimage = [0x5c; INPUT_SIZE];
    preimage[0] = 0;
    assert_eq!(native_xor_sum(&preimage), 0x5c);
}

#[test]
fn digest_ignores_the_order_of_the_bytes() {
    let preimage = *b"da confusion of da highest orda!";
    let mut swapped = preimage;
    swapped.swap(3, 13);
    assert_ne!(preimage, swapped);
    assert_eq!(native_xor_sum(&preimage), native_xor_sum(&swapped));
    let mut reversed = preimage;
    reversed.reverse();
    assert_eq!(native_xor_sum(&preimage), native_xor_sum(&reversed));
    let mut rotated = preimage;
    rotated.rotate_left(7);
    assert_eq!(native_xor_sum(&preimage), native_xor_sum(&rotated));
}

#[test]
fn bit_at_counts_from_the_least_significant_bit() {
    assert!(bit_at(0b0000_0001, 0));
    assert!(!bit_at(0b0000_0001, 1));
    assert!(bit_at(0b1000_0000, 7));
    assert!(!bit_at(0b0111_1111, 7));
    let byte = 0b1011_0010u8;
    let bits: Vec<bool> = (0..8).map(|i| bit_at(byte, i)).collect();
    assert_eq!(bits, vec![false, true, false, false, true, true, false, true]);
}
