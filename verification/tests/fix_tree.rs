use rv_core::compare::FileHashes;
use rv_core::enums::{DatStatus, FileType, GotStatus, RepStatus, TreeSelect};
use rv_core::find_fixes::{FindFixes, FixNode};
use rv_core::fix_tree::FixTree;

fn no_hashes() -> FileHashes {
    FileHashes {
        size: None,
        crc: None,
        sha1: None,
        md5: None,
        alt_size: None,
        alt_crc: None,
        alt_sha1: None,
        alt_md5: None,
    }
}

fn fix_node(dat: DatStatus, got: GotStatus, checked: TreeSelect) -> FixNode {
    FixNode {
        name: String::new(),
        dat_status: dat,
        got_status: got,
        rep_status: RepStatus::UnSet,
        tree_checked: checked,
        header_type: 0,
        header_required: false,
        header_from_header: false,
        sha1_from_dat: false,
        alt_sha1_from_dat: false,
        md5_from_dat: false,
        alt_md5_from_dat: false,
        deep_scanned: false,
        hashes: no_hashes(),
    }
}

fn file(dat: DatStatus, got: GotStatus, checked: TreeSelect) -> FixTree {
    FixTree { file_type: FileType::File, node: fix_node(dat, got, checked), children: Vec::new() }
}

fn dir(file_type: FileType, checked: TreeSelect, children: Vec<FixTree>) -> FixTree {
    FixTree {
        file_type,
        node: fix_node(DatStatus::InDatCollect, GotStatus::Got, checked),
        children,
    }
}

// root
//  [0] file: in DAT, got, selected
//  [1] zip (unselected)
//      [0] file: in DAT, missing, unselected
//      [1] file: in DAT, missing, selected
//  [2] file: to sort, got, locked
//  [3] file: not in DAT, corrupt, unselected
fn sample() -> FixTree {
    dir(
        FileType::Dir,
        TreeSelect::Selected,
        vec![
            file(DatStatus::InDatCollect, GotStatus::Got, TreeSelect::Selected),
            dir(
                FileType::Zip,
                TreeSelect::UnSelected,
                vec![
                    file(DatStatus::InDatCollect, GotStatus::NotGot, TreeSelect::UnSelected),
                    file(DatStatus::InDatMerged, GotStatus::NotGot, TreeSelect::Selected),
                ],
            ),
            file(DatStatus::InToSort, GotStatus::Got, TreeSelect::Locked),
            file(DatStatus::NotInDat, GotStatus::Corrupt, TreeSelect::UnSelected),
        ],
    )
}

#[test]
fn selected_walk_splits_present_and_missing() {
    let mut got = Vec::new();
    let mut missing = Vec::new();
    FindFixes::get_selected_files(&sample(), &mut got, &mut missing);
    assert_eq!(got, vec![vec![0], vec![2]]);
    assert_eq!(missing, vec![vec![1, 1]]);
}

#[test]
fn selected_walk_appends_to_what_is_there() {
    let mut got = vec![vec![9, 9]];
    let mut missing = Vec::new();
    FindFixes::get_selected_files(&sample(), &mut got, &mut missing);
    assert_eq!(got, vec![vec![9, 9], vec![0], vec![2]]);
}

#[test]
fn all_got_walk_includes_unselected_and_corrupt() {
    let mut got = Vec::new();
    FindFixes::get_all_got_files(&sample(), &mut got);
    assert_eq!(got, vec![vec![0], vec![2], vec![3]]);
}

#[test]
fn all_dat_walk_lists_files_the_dats_name() {
    let mut dat = Vec::new();
    FindFixes::get_all_dat_files(&sample(), &mut dat);
    assert_eq!(dat, vec![vec![0], vec![1, 0], vec![1, 1]]);
}

#[test]
fn single_file_root_is_its_own_path() {
    let mut got = Vec::new();
    FindFixes::get_all_got_files(&file(DatStatus::InDatCollect, GotStatus::Got, TreeSelect::UnSelected), &mut got);
    assert_eq!(got, vec![Vec::<usize>::new()]);
}

#[test]
fn selected_files_are_found_among_all_present_files() {
    let tree = sample();
    let mut got = Vec::new();
    let mut missing = Vec::new();
    FindFixes::get_selected_files(&tree, &mut got, &mut missing);
    let mut all = Vec::new();
    FindFixes::get_all_got_files(&tree, &mut all);
    assert_eq!(FindFixes::got_all_index(&got, &all), vec![Some(0), Some(1)]);
    assert_eq!(FindFixes::got_all_index(&[vec![1, 1]], &all), vec![None]);
}
