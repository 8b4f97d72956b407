use rv_core::compare::FileHashes;
use rv_core::dat_update::{
    DatHeader, DatTreeNode, DatUpdate, PhysicalState, HEADER_FILE_TYPE_FROM_HEADER, PRESERVED_PHYSICAL_FLAGS,
};
use rv_core::enums::{FileType, GotStatus, ZipStructure};
use rv_core::rv_file_ordering::ChildKey;
use rv_core::rv_dat::{DatData, RvDat};

fn dat_named(full_name: &str) -> RvDat {
    let mut d = RvDat::new();
    d.set_data(DatData::DatRootFullName, Some(full_name.to_string()));
    d
}

fn node(file_type: FileType) -> DatTreeNode {
    DatTreeNode { file_type, dir_dats: Vec::new(), dat: None, children: Vec::new() }
}

#[test]
fn test_check_all_dats_marks_matching_dir_dats_using_real_paths() {
    let mut root = node(FileType::Dir);
    root.dir_dats.push(dat_named("DatRoot\\Arcade\\a.dat"));
    root.dir_dats.push(dat_named("DatRoot\\Console\\b.dat"));

    DatUpdate::check_all_dats(&mut root, "DatRoot\\Arcade");

    assert_eq!(root.dir_dats[0].time_stamp, i64::MAX);
    assert_ne!(root.dir_dats[1].time_stamp, i64::MAX);
}

#[test]
fn test_check_all_dats_marks_matching_directory_dat_using_real_path() {
    let mut root = node(FileType::Dir);
    let mut child = node(FileType::Dir);
    child.dat = Some(dat_named("DatRoot\\Console\\game.dat"));
    root.children.push(child);

    DatUpdate::check_all_dats(&mut root, "DatRoot\\Console");

    assert_eq!(root.children[0].dat.as_ref().unwrap().time_stamp, i64::MAX);
}

#[test]
fn filter_is_a_byte_prefix() {
    assert!(DatUpdate::dat_path_matches_filter("DatRoot\\Arcade\\a.dat", "DatRoot\\Arc"));
    assert!(DatUpdate::dat_path_matches_filter("DatRoot", "DatRoot"));
    assert!(DatUpdate::dat_path_matches_filter("anything", ""));
    assert!(!DatUpdate::dat_path_matches_filter("DatRoot", "DatRoot\\Arcade"));
    assert!(!DatUpdate::dat_path_matches_filter("datroot\\Arcade", "DatRoot"));
}

#[test]
fn dats_without_a_name_match_only_the_empty_filter() {
    let mut root = node(FileType::Dir);
    root.dir_dats.push(RvDat::new());
    DatUpdate::check_all_dats(&mut root, "DatRoot");
    assert_eq!(root.dir_dats[0].time_stamp, 0);
    DatUpdate::check_all_dats(&mut root, "");
    assert_eq!(root.dir_dats[0].time_stamp, i64::MAX);
}

#[test]
fn files_are_not_looked_into() {
    let mut root = node(FileType::Dir);
    let mut file = node(FileType::File);
    file.dat = Some(dat_named("DatRoot\\x.dat"));
    root.children.push(file);
    let mut zip = node(FileType::Zip);
    zip.dat = Some(dat_named("DatRoot\\y.dat"));
    root.children.push(zip);

    DatUpdate::check_all_dats(&mut root, "DatRoot");

    assert_eq!(root.children[0].dat.as_ref().unwrap().time_stamp, 0);
    assert_eq!(root.children[1].dat.as_ref().unwrap().time_stamp, i64::MAX);
}

#[test]
fn test_populate_rv_dat_from_header_sets_extended_metadata() {
    let dat_path = "/tmp/dats/sample.dat";

    let mut header = DatHeader::default();
    header.id = Some("id-1".to_string());
    header.name = Some("SampleDat".to_string());
    header.root_dir = Some("Roms".to_string());
    header.description = Some("Desc".to_string());
    header.category = Some("Cat".to_string());
    header.version = Some("1.0".to_string());
    header.date = Some("2026-01-01".to_string());
    header.author = Some("Author".to_string());
    header.email = Some("a@example.com".to_string());
    header.homepage = Some("https://example.com".to_string());
    header.url = Some("https://example.com/dat".to_string());
    header.header = Some("nes".to_string());
    header.compression = Some("zip".to_string());
    header.merge_type = Some("split".to_string());
    header.dir = Some("full".to_string());

    let mut rv_dat = RvDat::new();
    DatUpdate::populate_rv_dat_from_header(&mut rv_dat, &header, dat_path, 1_767_225_600);

    assert_eq!(rv_dat.get_data(DatData::Id), Some("id-1".to_string()));
    assert_eq!(rv_dat.get_data(DatData::DatName), Some("SampleDat".to_string()));
    assert_eq!(rv_dat.get_data(DatData::DatRootFullName), Some(dat_path.to_string()));
    assert_eq!(rv_dat.get_data(DatData::RootDir), Some("Roms".to_string()));
    assert_eq!(rv_dat.get_data(DatData::Description), Some("Desc".to_string()));
    assert_eq!(rv_dat.get_data(DatData::Category), Some("Cat".to_string()));
    assert_eq!(rv_dat.get_data(DatData::Version), Some("1.0".to_string()));
    assert_eq!(rv_dat.get_data(DatData::Header), Some("nes".to_string()));
    assert_eq!(rv_dat.get_data(DatData::Compression), Some("zip".to_string()));
    assert_eq!(rv_dat.get_data(DatData::MergeType), Some("split".to_string()));
    assert_eq!(rv_dat.get_data(DatData::DirSetup), Some("full".to_string()));
    assert!(rv_dat.time_stamp > 0);
}

#[test]
fn populate_replaces_old_fields_and_skips_blank_ones() {
    let mut rv_dat = RvDat::new();
    rv_dat.set_data(DatData::SuperDat, Some("old".to_string()));
    rv_dat.set_data(DatData::Id, Some("old-id".to_string()));
    let mut header = DatHeader::default();
    header.name = Some("   ".to_string());
    header.author = Some("Me".to_string());

    DatUpdate::populate_rv_dat_from_header(&mut rv_dat, &header, "a.dat", 7);

    assert_eq!(rv_dat.get_data(DatData::SuperDat), None);
    assert_eq!(rv_dat.get_data(DatData::Id), None);
    assert_eq!(rv_dat.get_data(DatData::DatName), None);
    assert_eq!(rv_dat.get_data(DatData::Author), Some("Me".to_string()));
    assert_eq!(rv_dat.get_data(DatData::DatRootFullName), Some("a.dat".to_string()));
    assert_eq!(rv_dat.time_stamp, 7);
    assert_eq!(rv_dat.game_meta_data.len(), 2);
}

fn no_hashes() -> FileHashes {
    FileHashes {
        size: None,
        crc: None,
        sha1: None,
        md5: None,
        alt_size: None,
        alt_crc: None,
        alt_sha1: None,
        alt_md5: None,
    }
}

fn state(got: GotStatus) -> PhysicalState {
    PhysicalState {
        got_status: got,
        file_mod_time_stamp: i64::MIN,
        local_header_offset: None,
        hashes: no_hashes(),
        chd_version: None,
        zip_struct: ZipStructure::NoStructure,
        file_status: 0,
        header_type: 0,
        header_required: false,
    }
}

#[test]
fn existing_physical_metadata_wins_over_the_dat() {
    let mut existing = state(GotStatus::Got);
    existing.hashes.size = Some(8192);
    existing.hashes.crc = Some(vec![9, 9, 9, 9]);
    existing.hashes.sha1 = Some(vec![8; 20]);
    existing.file_mod_time_stamp = 777;
    existing.header_type = 1;
    existing.file_status = HEADER_FILE_TYPE_FROM_HEADER;
    existing.local_header_offset = Some(55);

    let mut mapped = state(GotStatus::NotGot);
    mapped.file_mod_time_stamp = 12345;
    mapped.hashes.size = Some(4096);
    mapped.hashes.crc = Some(vec![1, 2, 3, 4]);
    mapped.hashes.md5 = Some(vec![7; 16]);
    mapped.header_type = 2;
    mapped.header_required = true;
    mapped.file_status = 1 << 9;

    DatUpdate::preserve_existing_physical_state(&mut mapped, &existing);

    assert_eq!(mapped.hashes.size, Some(8192));
    assert_eq!(mapped.hashes.crc, Some(vec![9, 9, 9, 9]));
    assert_eq!(mapped.hashes.sha1, Some(vec![8; 20]));
    assert_eq!(mapped.hashes.md5, Some(vec![7; 16]));
    assert_eq!(mapped.file_mod_time_stamp, 777);
    assert_eq!(mapped.local_header_offset, Some(55));
    assert_eq!(mapped.header_type, 1);
    assert!(mapped.header_required);
    assert_eq!(mapped.file_status, HEADER_FILE_TYPE_FROM_HEADER | (1 << 9));
    assert_eq!(mapped.got_status, GotStatus::NotGot);
}

#[test]
fn existing_archive_state_is_kept() {
    let mut existing = state(GotStatus::Got);
    existing.zip_struct = ZipStructure::ZipTrrnt;
    existing.file_mod_time_stamp = 123456;
    let mut mapped = state(GotStatus::NotGot);
    DatUpdate::preserve_existing_physical_state(&mut mapped, &existing);
    assert_eq!(mapped.zip_struct, ZipStructure::ZipTrrnt);
    assert_eq!(mapped.file_mod_time_stamp, 123456);
}

#[test]
fn nothing_is_taken_from_a_missing_file() {
    let mut existing = state(GotStatus::NotGot);
    existing.hashes.size = Some(1);
    existing.file_status = PRESERVED_PHYSICAL_FLAGS;
    let mut mapped = state(GotStatus::NotGot);
    mapped.file_status = 0x3;
    DatUpdate::preserve_existing_physical_state(&mut mapped, &existing);
    assert_eq!(mapped.hashes.size, None);
    assert_eq!(mapped.file_status, 0x3);
}

#[test]
fn header_bits_are_replaced_by_the_existing_ones() {
    let mut existing = state(GotStatus::Got);
    existing.file_status = 0x1 | (1 << 20);
    let mut mapped = state(GotStatus::NotGot);
    mapped.file_status = 0x2 | (1 << 9);
    mapped.header_type = 3;
    DatUpdate::preserve_existing_physical_state(&mut mapped, &existing);
    assert_eq!(mapped.file_status, 0x1 | (1 << 9));
    assert_eq!(mapped.header_type, 3);
}

fn key(name: &str, file_type: FileType) -> ChildKey {
    ChildKey { file_type, name: name.to_string() }
}

#[test]
fn first_matching_child_is_taken() {
    let mut children = vec![
        key("a.bin", FileType::File),
        key("game", FileType::Zip),
        key("game", FileType::Dir),
        key("game", FileType::Zip),
    ];
    let taken = DatUpdate::take_matching_existing_child(&mut children, "game", FileType::Zip).unwrap();
    assert_eq!(taken.name, "game");
    assert_eq!(taken.file_type, FileType::Zip);
    assert_eq!(children.len(), 3);
    assert_eq!(children[1].file_type, FileType::Dir);
    assert_eq!(children[2].file_type, FileType::Zip);
}

#[test]
fn no_child_is_taken_without_a_match() {
    let mut children = vec![key("a.bin", FileType::File), key("Game", FileType::Zip)];
    assert!(DatUpdate::take_matching_existing_child(&mut children, "game", FileType::Zip).is_none());
    assert!(DatUpdate::take_matching_existing_child(&mut children, "a.bin", FileType::Dir).is_none());
    assert_eq!(children.len(), 2);
}
