use rv_core::compare::{FileHashes, ScannedFile};
use rv_core::enums::{DatStatus, FileType, GotStatus, RepStatus, TreeSelect};
use rv_core::find_fixes::{FindFixes, FixNode, HashKind};
use std::collections::HashSet;

fn h(size: u64, crc: [u8; 4]) -> FileHashes {
    FileHashes {
        size: Some(size),
        crc: Some(crc.to_vec()),
        sha1: None,
        md5: None,
        alt_size: None,
        alt_crc: None,
        alt_sha1: None,
        alt_md5: None,
    }
}

fn node(name: &str, dat: DatStatus, got: GotStatus, rep: RepStatus, hashes: FileHashes) -> FixNode {
    FixNode {
        name: name.to_string(),
        dat_status: dat,
        got_status: got,
        rep_status: rep,
        tree_checked: TreeSelect::Selected,
        header_type: 0,
        header_required: false,
        header_from_header: false,
        sha1_from_dat: false,
        alt_sha1_from_dat: false,
        md5_from_dat: false,
        alt_md5_from_dat: false,
        deep_scanned: false,
        hashes,
    }
}

#[test]
fn pass_pairs_missing_file_with_tosort_source() {
    let mut got = vec![node("a.bin", DatStatus::InToSort, GotStatus::Got, RepStatus::InToSort, h(4, [1, 2, 3, 4]))];
    let mut missing = vec![
        node("want.bin", DatStatus::InDatCollect, GotStatus::NotGot, RepStatus::Missing, h(4, [1, 2, 3, 4])),
        node("other.bin", DatStatus::InDatCollect, GotStatus::NotGot, RepStatus::Missing, h(4, [9, 9, 9, 9])),
        node("merged.bin", DatStatus::InDatMerged, GotStatus::NotGot, RepStatus::Missing, h(4, [1, 2, 3, 4])),
    ];
    let ids = vec!["/tosort/a.bin".to_string()];
    FindFixes::match_missing_files(&mut got, &mut missing, &ids);
    assert_eq!(missing[0].rep_status, RepStatus::CanBeFixed);
    assert_eq!(missing[1].rep_status, RepStatus::Missing);
    assert_eq!(missing[2].rep_status, RepStatus::NotCollected);
    assert_eq!(got[0].rep_status, RepStatus::NeededForFix);
}

#[test]
fn consumable_source_serves_one_missing_file() {
    let mut got = vec![node("a.bin", DatStatus::InToSort, GotStatus::Got, RepStatus::InToSort, h(4, [1, 2, 3, 4]))];
    let mut missing = vec![
        node("one.bin", DatStatus::InDatCollect, GotStatus::NotGot, RepStatus::Missing, h(4, [1, 2, 3, 4])),
        node("two.bin", DatStatus::InDatMIA, GotStatus::NotGot, RepStatus::Missing, h(4, [1, 2, 3, 4])),
    ];
    let ids = vec!["/tosort/a.bin".to_string()];
    FindFixes::match_missing_files(&mut got, &mut missing, &ids);
    assert_eq!(missing[0].rep_status, RepStatus::CanBeFixed);
    assert_eq!(missing[1].rep_status, RepStatus::MissingMIA);
}

#[test]
fn preferred_source_is_wanted_in_place_first() {
    let files = vec![
        node("t.bin", DatStatus::InToSort, GotStatus::Got, RepStatus::InToSort, h(4, [1, 2, 3, 4])),
        node("c.bin", DatStatus::InDatCollect, GotStatus::Got, RepStatus::Correct, h(4, [1, 2, 3, 4])),
    ];
    let ids = vec!["/t".to_string(), "/c".to_string()];
    let used = HashSet::new();
    assert_eq!(FindFixes::preferred_got_idx(&[0, 1], &files, &ids, &used), Some(1));
    let mut used2 = HashSet::new();
    used2.insert(1usize);
    assert_eq!(FindFixes::preferred_got_idx(&[0, 1], &files, &ids, &used2), Some(0));
    assert_eq!(FindFixes::preferred_got_idx(&[], &files, &ids, &used), None);
}

#[test]
fn candidates_follow_index_lists() {
    let files = vec![
        node("a", DatStatus::InToSort, GotStatus::Got, RepStatus::InToSort, h(4, [1, 2, 3, 4])),
        node("b", DatStatus::InToSort, GotStatus::Got, RepStatus::InToSort, h(5, [1, 2, 3, 4])),
        node("c", DatStatus::InToSort, GotStatus::Got, RepStatus::InToSort, h(4, [1, 2, 3, 4])),
    ];
    let target = h(4, [1, 2, 3, 4]);
    assert_eq!(FindFixes::candidates_of_kind(&files, &target, HashKind::Crc), vec![0, 2]);
    assert_eq!(FindFixes::candidates_of_kind(&files, &target, HashKind::Sha1), Vec::<usize>::new());
}

#[test]
fn corrupt_and_unused_files_settle() {
    let mut got = vec![
        node("bad.bin", DatStatus::InDatCollect, GotStatus::Corrupt, RepStatus::Corrupt, h(4, [7, 7, 7, 7])),
        node("extra.bin", DatStatus::NotInDat, GotStatus::Got, RepStatus::Unknown, h(4, [8, 8, 8, 8])),
        node("ok.bin", DatStatus::InDatCollect, GotStatus::Got, RepStatus::UnScanned, h(4, [6, 6, 6, 6])),
        node("sort.bin", DatStatus::InToSort, GotStatus::Got, RepStatus::InToSort, h(4, [5, 5, 5, 5])),
    ];
    let ids: Vec<String> = vec!["/1".into(), "/2".into(), "/3".into(), "/4".into()];
    FindFixes::settle_corrupt_files(&mut got, &ids);
    assert_eq!(got[0].rep_status, RepStatus::MoveToCorrupt);
    let all_got: Vec<FixNode> = Vec::new();
    FindFixes::settle_unused_got_files(&mut got, &ids, &all_got, &[None, None, None, None], &[false, false, false, true], &[]);
    assert_eq!(got[1].rep_status, RepStatus::MoveToSort);
    assert_eq!(got[2].rep_status, RepStatus::Correct);
    assert_eq!(got[3].rep_status, RepStatus::Delete);
}

#[test]
fn redundant_tosort_copy_is_detected() {
    let all = vec![
        node("sort.bin", DatStatus::InToSort, GotStatus::Got, RepStatus::InToSort, h(4, [5, 5, 5, 5])),
        node("kept.bin", DatStatus::InDatCollect, GotStatus::Got, RepStatus::Correct, h(4, [5, 5, 5, 5])),
    ];
    assert!(FindFixes::has_redundant_romroot_match(Some(0), &all[0], &all));
    assert!(!FindFixes::has_redundant_romroot_match(Some(0), &all[0], &all[..1]));
}

#[test]
fn shared_physical_path_keeps_merged_file() {
    let files = vec![
        node("m.bin", DatStatus::InDatMerged, GotStatus::Got, RepStatus::UnNeeded, h(4, [1, 1, 1, 1])),
        node("c.bin", DatStatus::InDatCollect, GotStatus::Got, RepStatus::Correct, h(4, [1, 1, 1, 1])),
    ];
    let same = vec!["/set.zip::a".to_string(), "/set.zip::a".to_string()];
    let apart = vec!["/set.zip::a".to_string(), "/set.zip::b".to_string()];
    assert_eq!(FindFixes::merged_cleanup_status(0, &files, &same), RepStatus::NotCollected);
    assert_eq!(FindFixes::merged_cleanup_status(0, &files, &apart), RepStatus::UnNeeded);
    let (keys, retains, counts) = FindFixes::build_retained_physical_identity_index(&files, &same);
    assert_eq!(keys, same);
    assert_eq!(retains, vec![false, true]);
    assert_eq!(counts, vec![1, 1]);
    assert!(FindFixes::has_other_retained_shared_physical_path(0, &keys, &retains, &counts));
    assert!(!FindFixes::has_other_retained_shared_physical_path(1, &keys, &retains, &counts));
}

fn scanned(name: &str, hashes: FileHashes) -> ScannedFile {
    ScannedFile {
        name: name.to_string(),
        file_type: FileType::File,
        got_status: GotStatus::Got,
        header_file_type: 0,
        deep_scanned: true,
        file_mod_time_stamp: 0,
        hashes,
    }
}

#[test]
fn scanned_files_match_either_way() {
    let a = scanned("x", h(4, [1, 2, 3, 4]));
    let mut bh = h(20, [0, 0, 0, 0]);
    bh.alt_size = Some(4);
    bh.alt_crc = Some(vec![1, 2, 3, 4]);
    let b = scanned("y", bh);
    assert!(FindFixes::scanned_files_match(&a, &b));
    assert!(FindFixes::scanned_files_match(&b, &a));
    let c = scanned("z", h(5, [1, 2, 3, 4]));
    assert!(!FindFixes::scanned_files_match(&a, &c));
}

#[test]
fn empty_file_rules() {
    let mut e = node("e", DatStatus::InDatCollect, GotStatus::NotGot, RepStatus::Missing, h(0, [0, 0, 0, 0]));
    assert!(FindFixes::is_zero_length_file(&e));
    e.hashes.crc = Some(vec![1, 0, 0, 0]);
    assert!(!FindFixes::is_zero_length_file(&e));
    let mut dir = node("d/", DatStatus::InDatCollect, GotStatus::NotGot, RepStatus::Missing, h(0, [0, 0, 0, 0]));
    dir.hashes.size = None;
    dir.hashes.crc = None;
    assert!(FindFixes::is_zero_length_file(&dir));
}

#[test]
fn missing_fixed_by_got_checks_dat_hashes() {
    let mut missing = node("m", DatStatus::InDatCollect, GotStatus::NotGot, RepStatus::Missing, h(4, [1, 2, 3, 4]));
    missing.hashes.sha1 = Some(vec![0xAA; 20]);
    missing.sha1_from_dat = true;
    let mut got = node("g", DatStatus::InToSort, GotStatus::Got, RepStatus::InToSort, h(4, [1, 2, 3, 4]));
    got.deep_scanned = true;
    got.hashes.sha1 = Some(vec![0xBB; 20]);
    assert!(!FindFixes::missing_can_be_fixed_by_got(&missing, &got));
    got.hashes.alt_sha1 = Some(vec![0xAA; 20]);
    assert!(FindFixes::missing_can_be_fixed_by_got(&missing, &got));
}

#[test]
fn unique_candidates_keep_first_order() {
    let mut out = vec![7usize];
    let mut seen = HashSet::new();
    seen.insert(3usize);
    FindFixes::extend_unique_got_candidates(&mut out, &[3, 1, 1, 2, 7], &mut seen);
    assert_eq!(out, vec![7, 1, 2, 7]);
    assert!(seen.contains(&2) && seen.contains(&1) && seen.contains(&7));
}

#[test]
fn full_pass_pairs_and_settles() {
    let mut got = vec![
        node("src.bin", DatStatus::InToSort, GotStatus::Got, RepStatus::InToSort, h(4, [1, 2, 3, 4])),
        node("bad.bin", DatStatus::InDatCollect, GotStatus::Corrupt, RepStatus::Corrupt, h(4, [7, 7, 7, 7])),
        node("here.bin", DatStatus::InDatCollect, GotStatus::Got, RepStatus::UnScanned, h(4, [6, 6, 6, 6])),
        node("stray.bin", DatStatus::NotInDat, GotStatus::Got, RepStatus::Unknown, h(4, [8, 8, 8, 8])),
    ];
    let mut missing = vec![
        node("want.bin", DatStatus::InDatCollect, GotStatus::NotGot, RepStatus::Missing, h(4, [1, 2, 3, 4])),
        node("gone.bin", DatStatus::InDatMIA, GotStatus::NotGot, RepStatus::Missing, h(4, [3, 3, 3, 3])),
    ];
    let ids: Vec<String> = vec!["/1".into(), "/2".into(), "/3".into(), "/4".into()];
    let all_got: Vec<FixNode> = Vec::new();
    FindFixes::find_fixes_pass(&mut got, &mut missing, &ids, &all_got, &[None, None, None, None], &[false; 4]);
    assert_eq!(missing[0].rep_status, RepStatus::CanBeFixed);
    assert_eq!(missing[1].rep_status, RepStatus::MissingMIA);
    assert_eq!(got[0].rep_status, RepStatus::NeededForFix);
    assert_eq!(got[1].rep_status, RepStatus::MoveToCorrupt);
    assert_eq!(got[2].rep_status, RepStatus::Correct);
    assert_eq!(got[3].rep_status, RepStatus::MoveToSort);
}

#[test]
fn node_queries() {
    let n = node("a", DatStatus::InDatCollect, GotStatus::Got, RepStatus::Correct, h(4, [1, 2, 3, 4]));
    assert!(FindFixes::is_tree_selected(&n));
    let mut locked = node("a", DatStatus::InDatCollect, GotStatus::Got, RepStatus::Correct, h(4, [1, 2, 3, 4]));
    locked.tree_checked = TreeSelect::Locked;
    assert!(FindFixes::is_tree_selected(&locked));
    locked.tree_checked = TreeSelect::UnSelected;
    assert!(!FindFixes::is_tree_selected(&locked));
    assert!(FindFixes::node_has_comparable_hashes(&n));
    let mut bare = node("b", DatStatus::InDatCollect, GotStatus::Got, RepStatus::Correct, h(4, [1, 2, 3, 4]));
    bare.hashes.crc = None;
    assert!(!FindFixes::node_has_comparable_hashes(&bare));
    let other = node("c", DatStatus::InDatCollect, GotStatus::NotGot, RepStatus::Missing, h(4, [1, 2, 3, 4]));
    assert!(FindFixes::got_and_matching_are_full_matches(&n, &other));
    assert!(FindFixes::scanned_member_matches_target(&n, &scanned("x", h(4, [1, 2, 3, 4]))));
    assert!(!FindFixes::scanned_member_matches_target(&n, &scanned("x", h(4, [1, 2, 3, 5]))));
    let keys = vec!["/p".to_string(), "/p".to_string()];
    assert_eq!(FindFixes::merged_cleanup_status_with_shared(0, &keys, &[false, true], &[1, 1]), RepStatus::NotCollected);
    assert_eq!(FindFixes::merged_cleanup_status_with_shared(1, &keys, &[false, true], &[1, 1]), RepStatus::UnNeeded);
}
