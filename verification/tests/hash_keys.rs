use rv_core::hash_keys::{crc_key, md5_key, sha1_key};

#[test]
fn keys_need_exact_lengths() {
    assert_eq!(crc_key(3, &[1, 2, 3, 4]), Some((3, [1, 2, 3, 4])));
    assert_eq!(crc_key(3, &[1, 2, 3]), None);
    assert_eq!(sha1_key(1, &[7u8; 20]), Some((1, [7u8; 20])));
    assert_eq!(sha1_key(1, &[7u8; 16]), None);
    assert_eq!(md5_key(2, &[5u8; 16]), Some((2, [5u8; 16])));
    assert_eq!(md5_key(2, &[5u8; 20]), None);
}
