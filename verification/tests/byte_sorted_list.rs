use rv_core::byte_sorted_list::{ByteSortedList, CrcCountRules};
use rv_core::hash_keys::crc_key;

#[test]
fn counts_repeated_keys() {
    let mut l = ByteSortedList::new(CrcCountRules);
    let a = crc_key(10, &[1, 2, 3, 4]).unwrap();
    let b = crc_key(5, &[1, 9, 9, 9]).unwrap();
    let c = crc_key(10, &[7, 0, 0, 0]).unwrap();
    l.add_find(&a);
    l.add_find(&b);
    l.add_find(&a);
    l.add_find(&c);
    assert_eq!(l.count(), 3);
    assert_eq!(l.find(&a), Some((a, 2)));
    assert_eq!(l.find(&b), Some((b, 1)));
    assert_eq!(l.find(&crc_key(11, &[1, 2, 3, 4]).unwrap()), None);
    assert_eq!(l.to_vec(), vec![(b, 1), (a, 2), (c, 1)]);
}

#[test]
fn exact_match_decides_merge() {
    let mut l = ByteSortedList::new(CrcCountRules);
    let a = crc_key(10, &[1, 2, 3, 4]).unwrap();
    l.add_find_with_exact(&a, |_v: &(u64, [u8; 4]), _s: &((u64, [u8; 4]), u32)| false);
    l.add_find_with_exact(&a, |_v: &(u64, [u8; 4]), _s: &((u64, [u8; 4]), u32)| false);
    assert_eq!(l.count(), 2);
    l.add_find_with_exact(&a, |_v: &(u64, [u8; 4]), s: &((u64, [u8; 4]), u32)| s.1 == 1);
    assert_eq!(l.count(), 2);
    assert_eq!(l.to_vec(), vec![(a, 2), (a, 1)]);
}

#[test]
fn count_is_the_length_of_the_contents() {
    let mut l = ByteSortedList::new(CrcCountRules);
    assert_eq!(l.count(), 0);
    assert!(l.to_vec().is_empty());
    for i in 0..20u64 {
        l.add_find(&crc_key(i, &[(i * 13) as u8, 1, 2, 3]).unwrap());
        assert_eq!(l.count() as u64, i + 1);
        assert_eq!(l.count(), l.to_vec().len());
    }
}
