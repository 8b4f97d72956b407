use rv_core::db_type_get::{dir_from_file, file_from_dir, from_extension, is_compressed_dir};
use rv_core::enums::FileType;

#[test]
fn maps_extensions() {
    assert_eq!(from_extension(".zip"), FileType::Zip);
    assert_eq!(from_extension(".7Z"), FileType::SevenZip);
    assert_eq!(from_extension(".bin"), FileType::File);
}

#[test]
fn containers_and_their_files() {
    assert_eq!(dir_from_file(FileType::FileSevenZip), FileType::SevenZip);
    assert_eq!(dir_from_file(FileType::File), FileType::Dir);
    assert_eq!(dir_from_file(FileType::FileOnly), FileType::Zip);
    assert_eq!(file_from_dir(FileType::Zip), FileType::FileZip);
    assert_eq!(file_from_dir(FileType::Dir), FileType::File);
    assert_eq!(file_from_dir(FileType::File), FileType::Zip);
    assert!(is_compressed_dir(FileType::SevenZip));
    assert!(!is_compressed_dir(FileType::Dir));
    assert_eq!(from_extension(".ZiP"), FileType::Zip);
    assert_eq!(from_extension("zip"), FileType::File);
}
