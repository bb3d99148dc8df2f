use protocol_ink::ext_data::{encode_i128, encode_u128, ExtData};
use protocol_ink::field::is_field_element;

#[test]
fn integers_encode_little_endian() {
    let mut expected = vec![0u8; 16];
    expected[0] = 2;
    expected[1] = 1;
    assert_eq!(encode_u128(258), expected);
    assert_eq!(encode_u128(u128::MAX), vec![0xff; 16]);
    assert_eq!(encode_i128(-1), vec![0xff; 16]);
    let mut minus_two = vec![0xff; 16];
    minus_two[0] = 0xfe;
    assert_eq!(encode_i128(-2), minus_two);
    assert_eq!(encode_i128(258), expected);
    assert_eq!(encode_i128(i128::MIN)[15], 0x80);
}

#[test]
fn field_elements_are_below_the_modulus() {
    assert!(is_field_element(&[0u8; 32]));
    assert!(!is_field_element(&[0xff; 32]));
    let mut modulus = [0u8; 32];
    let limbs: [u64; 4] = [4891460686036598785, 2896914383306846353, 13281191951274694749, 3486998266802970665];
    for (i, l) in limbs.iter().enumerate() {
        modulus[i * 8..i * 8 + 8].copy_from_slice(&l.to_le_bytes());
    }
    assert!(!is_field_element(&modulus));
    modulus[0] -= 1;
    assert!(is_field_element(&modulus));
}

#[test]
fn binding_hash_is_a_field_element_and_depends_on_every_field() {
    let base = ExtData::new(vec![1; 32], vec![2; 32], 5, 1, vec![3], vec![4]);
    let h = base.get_encode();
    assert_eq!(h.len(), 32);
    let mut arr = [0u8; 32];
    arr.copy_from_slice(&h);
    assert!(is_field_element(&arr));
    let variants = vec![
        ExtData::new(vec![9; 32], vec![2; 32], 5, 1, vec![3], vec![4]),
        ExtData::new(vec![1; 32], vec![9; 32], 5, 1, vec![3], vec![4]),
        ExtData::new(vec![1; 32], vec![2; 32], -5, 1, vec![3], vec![4]),
        ExtData::new(vec![1; 32], vec![2; 32], 5, 2, vec![3], vec![4]),
        ExtData::new(vec![1; 32], vec![2; 32], 5, 1, vec![3, 0], vec![4]),
        ExtData::new(vec![1; 32], vec![2; 32], 5, 1, vec![3], vec![]),
    ];
    for v in &variants {
        assert_ne!(v.get_encode(), h);
    }
    assert_eq!(base.get_encode(), h);
}
