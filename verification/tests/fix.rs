use rv_core::compare::FileHashes;
use rv_core::enums::{DatStatus, FileType, GotStatus, RepStatus, TreeSelect, ZipStructure};
use rv_core::find_fixes::FixNode;
use rv_core::fix::{Fix, FixFileAction, FixFileFacts, FixSource};

fn node(name: &str, size: Option<u64>, crc: Option<Vec<u8>>) -> FixNode {
    FixNode {
        name: name.to_string(),
        dat_status: DatStatus::InToSort,
        got_status: GotStatus::Got,
        rep_status: RepStatus::InToSort,
        tree_checked: TreeSelect::Selected,
        header_type: 0,
        header_required: false,
        header_from_header: false,
        sha1_from_dat: false,
        alt_sha1_from_dat: false,
        md5_from_dat: false,
        alt_md5_from_dat: false,
        deep_scanned: false,
        hashes: FileHashes {
            size,
            crc,
            sha1: None,
            md5: None,
            alt_size: None,
            alt_crc: None,
            alt_sha1: None,
            alt_md5: None,
        },
    }
}

#[test]
fn desired_structure_suits_archive_type() {
    assert_eq!(
        Fix::effective_desired_zip_struct(FileType::Zip, ZipStructure::SevenZipSLZMA, 0),
        ZipStructure::ZipTrrnt
    );
    assert_eq!(
        Fix::effective_desired_zip_struct(FileType::SevenZip, ZipStructure::ZipTrrnt, 2),
        ZipStructure::SevenZipSZSTD
    );
    assert_eq!(
        Fix::effective_desired_zip_struct(FileType::SevenZip, ZipStructure::SevenZipNLZMA, 2),
        ZipStructure::SevenZipNLZMA
    );
    assert_eq!(
        Fix::effective_desired_zip_struct(FileType::Dir, ZipStructure::ZipTDC, 1),
        ZipStructure::ZipTDC
    );
    assert_eq!(Fix::default_seven_zip_struct_from_settings(9), ZipStructure::SevenZipNZSTD);
}

#[test]
fn delete_double_check_skips() {
    let cue = node("Game.CUE", Some(5), None);
    assert!(Fix::double_check_delete_should_skip(true, &cue));
    assert!(Fix::double_check_delete_should_skip(false, &node("a.bin", Some(5), None)));
    assert!(Fix::double_check_delete_should_skip(true, &node("a.bin", Some(0), None)));
    assert!(!Fix::double_check_delete_should_skip(true, &node("a.bin", Some(5), None)));
}

#[test]
fn timestamp_rules() {
    assert!(Fix::timestamp_matches(i64::MIN, None));
    assert!(Fix::timestamp_matches(1000, Some(1000)));
    assert!(!Fix::timestamp_matches(1000, Some(999)));
    assert!(!Fix::timestamp_matches(1000, None));
}

#[test]
fn identity_can_fix_needs_every_known_hash() {
    let deleting = node("d", Some(4), Some(vec![1, 2, 3, 4]));
    let same = node("c", Some(4), Some(vec![1, 2, 3, 4]));
    assert!(Fix::identity_can_fix(&deleting, &same));
    let other = node("c", Some(4), Some(vec![4, 3, 2, 1]));
    assert!(!Fix::identity_can_fix(&deleting, &other));
    let mut gone = node("c", Some(4), Some(vec![1, 2, 3, 4]));
    gone.rep_status = RepStatus::Delete;
    assert!(!Fix::identity_can_fix(&deleting, &gone));
    let no_hash = node("d", Some(4), None);
    assert!(!Fix::identity_can_fix(&no_hash, &same));
}

#[test]
fn names_and_statuses() {
    assert!(Fix::logical_name_eq("abc", "abc"));
    assert!(!Fix::logical_name_eq("abc", "ABC"));
    assert!(!Fix::status_retains_shared_physical_path(RepStatus::MoveToSort));
    assert!(Fix::status_retains_shared_physical_path(RepStatus::Correct));
    assert!(!Fix::dat_status_retains_shared_physical_path(DatStatus::InToSort));
    assert!(Fix::dat_status_retains_shared_physical_path(DatStatus::InDatMerged));
}

#[test]
fn archive_member_stands_for_named_target() {
    let full = FileHashes {
        size: Some(4),
        crc: Some(vec![1, 2, 3, 4]),
        sha1: Some(vec![9; 20]),
        md5: None,
        alt_size: None,
        alt_crc: None,
        alt_sha1: None,
        alt_md5: None,
    };
    let mut target = full.clone();
    target.sha1 = None;
    assert!(Fix::archive_child_matches_named(&full, "a.bin", &target, "a.bin"));
    assert!(!Fix::archive_child_matches_named(&full, "a.bin", &target, "b.bin"));
    let mut other_crc = full.clone();
    other_crc.crc = Some(vec![4, 3, 2, 1]);
    assert!(!Fix::archive_child_matches_named(&other_crc, "a.bin", &target, "a.bin"));
    let mut bigger = full.clone();
    bigger.size = Some(5);
    assert!(!Fix::archive_child_matches_named(&bigger, "a.bin", &target, "a.bin"));
}

fn strings(v: &[&str]) -> Vec<String> {
    v.iter().map(|s| s.to_string()).collect()
}

#[test]
fn tosort_dirs_under_another_root_take_the_whole_base() {
    let comps = strings(&["tmp", "roms", "a", "file.bin"]);
    assert_eq!(Fix::tosort_relative_dirs(&comps, "ToSort"), strings(&["ToSort", "roms", "a"]));
    let single = strings(&["f.bin"]);
    assert_eq!(Fix::tosort_relative_dirs(&single, "A\\\\B/"), strings(&["A", "B"]));
    assert_eq!(Fix::tosort_relative_dirs(&[], ""), Vec::<String>::new());
}

#[test]
fn tosort_dirs_under_the_same_root_add_the_base_suffix_once() {
    let comps = strings(&["ToSort", "x", "f.bin"]);
    assert_eq!(Fix::tosort_relative_dirs(&comps, "ToSort\\Corrupt"), strings(&["Corrupt", "x"]));
    let already = strings(&["ToSort", "Corrupt", "x", "f.bin"]);
    assert_eq!(Fix::tosort_relative_dirs(&already, "ToSort/Corrupt"), strings(&["Corrupt", "x"]));
    let top = strings(&["ToSort", "f.bin"]);
    assert_eq!(Fix::tosort_relative_dirs(&top, "ToSort"), Vec::<String>::new());
    let case_differs = strings(&["tosort", "f.bin"]);
    assert_eq!(Fix::tosort_relative_dirs(&case_differs, "ToSort"), strings(&["ToSort"]));
}

#[test]
fn archive_member_parts_follow_the_archive_and_member_name() {
    let parent = strings(&["roms", "arcade"]);
    assert_eq!(
        Fix::archive_member_tosort_parts(&parent, "pac.zip", "sub\\x.bin", "ToSort"),
        strings(&["ToSort", "arcade", "pac.zip", "sub", "x.bin"])
    );
    let same_root = strings(&["ToSort", "a"]);
    assert_eq!(
        Fix::archive_member_tosort_parts(&same_root, "g.7z", "/y//z.bin", "ToSort\\Corrupt"),
        strings(&["Corrupt", "a", "g.7z", "y", "z.bin"])
    );
    assert_eq!(
        Fix::archive_member_tosort_parts(&[], "top.zip", "m.bin", "Base"),
        strings(&["Base", "top.zip", "m.bin"])
    );
}

fn facts(rep_status: RepStatus) -> FixFileFacts {
    FixFileFacts {
        rep_status,
        read_only: false,
        shared_refs: 0,
        current_exists: true,
        loose_file_with_parent: true,
        double_check_skip: false,
        has_retained_copy: true,
        source: None,
        at_target: false,
    }
}

#[test]
fn fix_step_deletes_unless_shared_or_unconfirmed() {
    let step = Fix::fix_file_step(&facts(RepStatus::Delete));
    assert_eq!(step.action, FixFileAction::Delete { remove_file: true });
    assert_eq!(step.got_status, Some(GotStatus::NotGot));
    let mut shared = facts(RepStatus::Delete);
    shared.shared_refs = 2;
    assert_eq!(Fix::fix_file_step(&shared).action, FixFileAction::Forget);
    let mut unconfirmed = facts(RepStatus::Delete);
    unconfirmed.has_retained_copy = false;
    let step = Fix::fix_file_step(&unconfirmed);
    assert_eq!(step.action, FixFileAction::Leave);
    assert_eq!(step.got_status, None);
    let mut unneeded = facts(RepStatus::UnNeeded);
    unneeded.has_retained_copy = false;
    unneeded.current_exists = false;
    assert_eq!(Fix::fix_file_step(&unneeded).action, FixFileAction::Delete { remove_file: false });
    let mut locked = facts(RepStatus::Delete);
    locked.read_only = true;
    assert_eq!(Fix::fix_file_step(&locked).action, FixFileAction::Leave);
}

#[test]
fn fix_step_moves_to_sort_and_corrupt() {
    let step = Fix::fix_file_step(&facts(RepStatus::MoveToSort));
    assert_eq!(step.action, FixFileAction::MoveToSort { move_file: true });
    assert_eq!(step.dat_status, Some(DatStatus::InToSort));
    assert_eq!(step.got_status, Some(GotStatus::Got));
    let mut shared = facts(RepStatus::MoveToCorrupt);
    shared.shared_refs = 1;
    let step = Fix::fix_file_step(&shared);
    assert_eq!(step.action, FixFileAction::MoveToCorrupt { move_file: false });
    assert_eq!(step.got_status, Some(GotStatus::NotGot));
}

#[test]
fn fix_step_fixes_from_a_source() {
    let mut f = facts(RepStatus::CanBeFixed);
    assert_eq!(Fix::fix_file_step(&f).action, FixFileAction::Leave);
    f.source = Some(FixSource { at_target: true, read_only: false });
    let step = Fix::fix_file_step(&f);
    assert_eq!(step.action, FixFileAction::FixByRename);
    assert!(step.fixed);
    f.source = Some(FixSource { at_target: false, read_only: true });
    assert_eq!(Fix::fix_file_step(&f).action, FixFileAction::FixByCopy { clean_up_source: false });
    let mut r = facts(RepStatus::Rename);
    r.at_target = true;
    assert_eq!(Fix::fix_file_step(&r).action, FixFileAction::Rename { move_reference: false });
    assert_eq!(Fix::fix_file_step(&facts(RepStatus::Correct)).action, FixFileAction::Leave);
}

#[test]
fn numbered_tosort_names_count_in_decimal() {
    assert_eq!(Fix::tosort_numbered_name("game", "zip", 0), "game_0.zip");
    assert_eq!(Fix::tosort_numbered_name("readme", "", 12), "readme_12");
    assert_eq!(Fix::tosort_numbered_name("disc.1", "bin", 305), "disc.1_305.bin");
    assert_eq!(Fix::tosort_numbered_name("x", "7z", 4294967295), "x_4294967295.7z");
}
