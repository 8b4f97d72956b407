use rv_core::arr_byte::{
    b_compare, copy_bytes, copy_bytes_range, e_compare, i_compare, read_byte_array, to_hex_string,
    write_byte_array, ByteArrayError,
};

#[test]
fn hex_null_is_empty() {
    assert_eq!(to_hex_string(None), "");
    assert_eq!(to_hex_string(Some(&[0xAB, 0x00, 0x01])), "ab0001");
}

#[test]
fn compare_semantics() {
    assert!(!b_compare(None, Some(&[1])));
    assert!(e_compare(None, Some(&[1])));
    assert_eq!(i_compare(None, Some(&[1])), -1);
    assert_eq!(i_compare(Some(&[1]), None), 1);
    assert_eq!(i_compare(Some(&[1, 2]), Some(&[1, 3])), -1);
}

#[test]
fn byte_array_round_trip() {
    let mut w = Vec::new();
    write_byte_array(&mut w, &[9, 8, 7]).unwrap();
    assert_eq!(w, vec![3, 9, 8, 7]);
    let (bytes, used) = read_byte_array(&w).unwrap();
    assert_eq!(bytes, vec![9, 8, 7]);
    assert_eq!(used, 4);
}

#[test]
fn byte_array_truncated() {
    assert!(matches!(read_byte_array(&[5, 1]), Err(ByteArrayError::Truncated)));
    assert!(matches!(read_byte_array(&[]), Err(ByteArrayError::Truncated)));
    let long = vec![0u8; 256];
    let mut w = vec![1u8];
    assert!(matches!(write_byte_array(&mut w, &long), Err(ByteArrayError::TooLong)));
    assert_eq!(w, vec![1u8]);
}

#[test]
fn copy_helpers() {
    assert_eq!(copy_bytes(None), None);
    assert_eq!(copy_bytes(Some(&[1, 2])), Some(vec![1, 2]));
    assert_eq!(copy_bytes_range(Some(&[1, 2, 3, 4]), 1, 2), Some(vec![2, 3]));
    assert_eq!(copy_bytes_range(Some(&[1, 2, 3, 4]), 3, 9), Some(vec![4]));
}

#[test]
fn compare_orders() {
    assert!(b_compare(Some(&[1, 2]), Some(&[1, 2])));
    assert!(!e_compare(Some(&[1]), Some(&[2])));
    assert!(e_compare(None, None));
    assert_eq!(i_compare(Some(&[1, 2]), Some(&[1, 2])), 0);
    assert_eq!(i_compare(Some(&[1, 2]), Some(&[1])), 1);
    assert_eq!(i_compare(None, None), 0);
}
