use std::cmp::Ordering;

use rv_core::enums::FileType;
use rv_core::rv_file_ordering::{
    child_insert_index, child_name_search, compare_name_key, directory_name_compare, ordering_to_i32,
    split_7zip_filename, trrnt_7zip_string_compare, trrnt_zip_string_compare, trrnt_zip_string_compare_case,
    ChildKey,
};

fn key(file_type: FileType, name: &str) -> ChildKey {
    ChildKey { file_type, name: name.to_string() }
}

#[test]
fn zip_name_order() {
    assert_eq!(trrnt_zip_string_compare("ABC", "abd"), Ordering::Less);
    assert_eq!(trrnt_zip_string_compare("abc", "ABC"), Ordering::Equal);
    assert_eq!(trrnt_zip_string_compare("ab", "abc"), Ordering::Less);
    assert_eq!(trrnt_zip_string_compare_case("ABC", "abc"), Ordering::Less);
    assert_eq!(directory_name_compare("Dir", "dir"), Ordering::Equal);
}

#[test]
fn seven_zip_name_order() {
    assert_eq!(split_7zip_filename("a/b/c.txt"), ("a/b", "c", "txt"));
    assert_eq!(split_7zip_filename("noext"), ("", "noext", ""));
    // extension first
    assert_eq!(trrnt_7zip_string_compare("z.bin", "a.txt"), Ordering::Less);
    // then name, then path
    assert_eq!(trrnt_7zip_string_compare("b/a.txt", "a/b.txt"), Ordering::Less);
    assert_eq!(trrnt_7zip_string_compare("b/a.txt", "a/a.txt"), Ordering::Greater);
}

#[test]
fn name_key_order_by_container() {
    assert_eq!(compare_name_key(FileType::FileZip, "B", FileType::FileZip, "a"), Ordering::Greater);
    assert_eq!(compare_name_key(FileType::FileSevenZip, "x.a", FileType::FileSevenZip, "a.b"), Ordering::Less);
    // directories and files: case-insensitive name, then type
    assert_eq!(compare_name_key(FileType::Dir, "Game", FileType::File, "game"), Ordering::Less);
    assert_eq!(compare_name_key(FileType::File, "game", FileType::Dir, "GAME"), Ordering::Greater);
    assert_eq!(compare_name_key(FileType::Zip, "a", FileType::Zip, "A"), Ordering::Equal);
    assert_eq!(ordering_to_i32(Ordering::Less), -1);
    assert_eq!(ordering_to_i32(Ordering::Greater), 1);
}

#[test]
fn child_search_finds_first_equal_or_insert_point() {
    let children = vec![
        key(FileType::Dir, "alpha"),
        key(FileType::Zip, "beta"),
        key(FileType::Zip, "BETA"),
        key(FileType::File, "delta"),
    ];
    assert_eq!(child_name_search(&children, FileType::Zip, "Beta"), (0, 1));
    assert_eq!(child_name_search(&children, FileType::File, "delta"), (0, 3));
    let (res, index) = child_name_search(&children, FileType::File, "charlie");
    assert_ne!(res, 0);
    assert_eq!(index, 3);
    let (res, index) = child_name_search(&children, FileType::File, "zulu");
    assert_ne!(res, 0);
    assert_eq!(index, 4);
    assert_eq!(child_name_search(&[], FileType::File, "x"), (-1, 0));
    assert_eq!(child_insert_index(&children, &key(FileType::File, "charlie")), 3);
    assert_eq!(child_insert_index(&children, &key(FileType::Zip, "beta")), 1);
    assert_eq!(child_insert_index(&children, &key(FileType::Dir, "aardvark")), 0);
}
