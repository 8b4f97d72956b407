use rv_core::enums::FileType;
use rv_core::file_scanning::{bytes_order, FileScanning};
use std::cmp::Ordering;

#[test]
fn directory_order_ignores_case_first() {
    assert_eq!(FileScanning::compare_dir_names_case("abc", "ABD"), Ordering::Less);
    assert_eq!(FileScanning::compare_dir_names_case("ABC", "abc"), Ordering::Less);
    assert_eq!(FileScanning::compare_dir_names_case("abc", "abc"), Ordering::Equal);
    assert_eq!(FileScanning::compare_trrnt_zip_names_case("b", "A"), Ordering::Greater);
}

#[test]
fn group_order_is_byte_order() {
    assert_eq!(FileScanning::compare_names_for_group("B", "a"), Ordering::Less);
    assert_eq!(bytes_order(&[1, 2], &[1, 2, 0]), Ordering::Less);
    assert_eq!(FileScanning::ascii_lower(b'Q'), b'q');
    assert_eq!(FileScanning::ascii_lower(b'['), b'[');
}

#[test]
fn seven_zip_names_split_and_order() {
    assert_eq!(FileScanning::split_7zip_filename("dir/sub/name.ext"), ("dir/sub", "name", "ext"));
    assert_eq!(FileScanning::split_7zip_filename("name"), ("", "name", ""));
    assert_eq!(FileScanning::split_7zip_filename("a.b.c"), ("", "a.b", "c"));
    assert_eq!(FileScanning::compare_trrnt_7zip_names("z.bin", "a.cue"), Ordering::Less);
    assert_eq!(FileScanning::compare_trrnt_7zip_names("b/x.bin", "a/x.bin"), Ordering::Greater);
    assert_eq!(FileScanning::compare_trrnt_7zip_names("a.bin", "b.bin"), Ordering::Less);
}

#[test]
fn child_order_depends_on_container() {
    assert_eq!(FileScanning::compare_db_child_names(FileType::SevenZip, "z.bin", "a.cue"), Ordering::Less);
    assert_eq!(FileScanning::compare_db_child_names(FileType::Dir, "z.bin", "a.cue"), Ordering::Greater);
    assert_eq!(FileScanning::compare_db_child_names(FileType::Zip, "B", "a"), Ordering::Greater);
}
