use protocol_ink::utils::{
    element_encoder, element_encoder_for_eight_bytes, element_encoder_for_four_bytes, element_encoder_for_one_byte,
    element_encoder_for_sixteen_bytes, element_encoder_for_two_bytes, is_account_id_zero, transform_u32_to_array_of_u8,
    truncate_and_pad,
};

#[test]
fn element_encoder_pads_short_input() {
    let out = element_encoder(&[1, 2, 3]);
    let mut expected = [0u8; 32];
    expected[0] = 1;
    expected[1] = 2;
    expected[2] = 3;
    assert_eq!(out, expected);
}

#[test]
fn element_encoder_truncates_long_input() {
    let input: Vec<u8> = (0..40u8).collect();
    let out = element_encoder(&input);
    let expected: Vec<u8> = (0..32u8).collect();
    assert_eq!(out.to_vec(), expected);
}

#[test]
fn fixed_size_encoders() {
    assert_eq!(element_encoder_for_one_byte(&[9, 8]), [9]);
    assert_eq!(element_encoder_for_one_byte(&[]), [0]);
    assert_eq!(element_encoder_for_two_bytes(&[7]), [7, 0]);
    assert_eq!(element_encoder_for_four_bytes(&[1, 2, 3, 4, 5]), [1, 2, 3, 4]);
    assert_eq!(element_encoder_for_eight_bytes(&[1, 2]), [1, 2, 0, 0, 0, 0, 0, 0]);
    let sixteen = element_encoder_for_sixteen_bytes(&[5; 20]);
    assert_eq!(sixteen, [5u8; 16]);
}

#[test]
fn u32_to_big_endian_bytes() {
    assert_eq!(transform_u32_to_array_of_u8(0x0102_0304), [1, 2, 3, 4]);
    assert_eq!(transform_u32_to_array_of_u8(0), [0, 0, 0, 0]);
    assert_eq!(transform_u32_to_array_of_u8(u32::MAX), [255, 255, 255, 255]);
}

#[test]
fn truncate_and_pad_keeps_twenty_bytes() {
    let input = [3u8; 32];
    let out = truncate_and_pad(&input);
    let mut expected = vec![3u8; 20];
    expected.extend_from_slice(&[0u8; 12]);
    assert_eq!(out, expected);
}

#[test]
fn zero_account_is_recognised() {
    assert!(is_account_id_zero([0u8; 32]));
    let mut a = [0u8; 32];
    a[31] = 1;
    assert!(!is_account_id_zero(a));
}
