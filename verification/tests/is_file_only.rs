use rv_core::enums::FileType;
use rv_core::is_file_only::{is_file_only, AncestorDats};

fn plain() -> AncestorDats {
    AncestorDats { dat_compression: None, dir_dat_compressions: vec![] }
}

#[test]
fn global_files_only_overrides() {
    assert!(is_file_only(true, FileType::UnSet, &[plain()]));
}

#[test]
fn default_is_not_file_only() {
    assert!(!is_file_only(false, FileType::UnSet, &[plain()]));
}

#[test]
fn rule_compression_file_only() {
    assert!(is_file_only(false, FileType::FileOnly, &[]));
    assert!(!is_file_only(false, FileType::Zip, &[]));
}

#[test]
fn nearest_dat_decides() {
    let node = plain();
    let game = AncestorDats { dat_compression: Some(Some("FileOnly".to_string())), dir_dat_compressions: vec![] };
    assert!(is_file_only(false, FileType::UnSet, &[node, game]));
    let zipped = AncestorDats { dat_compression: Some(Some("zip".to_string())), dir_dat_compressions: vec![] };
    let above = AncestorDats { dat_compression: Some(Some("fileonly".to_string())), dir_dat_compressions: vec![] };
    assert!(!is_file_only(false, FileType::UnSet, &[plain(), zipped, above]));
    let unnamed = AncestorDats { dat_compression: Some(None), dir_dat_compressions: vec![] };
    assert!(!is_file_only(false, FileType::UnSet, &[unnamed]));
}

#[test]
fn directory_dats_name_file_only() {
    let dir = AncestorDats {
        dat_compression: None,
        dir_dat_compressions: vec![None, Some("7z".to_string()), Some("FILEONLY".to_string())],
    };
    assert!(is_file_only(false, FileType::UnSet, &[plain(), dir]));
    let other = AncestorDats { dat_compression: None, dir_dat_compressions: vec![Some("zip".to_string())] };
    assert!(!is_file_only(false, FileType::UnSet, &[other]));
}
