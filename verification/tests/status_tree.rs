use rv_core::enums::{FileType, GotStatus, RepStatus, ReportStatus};
use rv_core::repair_status::{RepairStatus, StatusNode};

fn node(file_type: FileType, rep_status: RepStatus, is_game: bool, children: Vec<StatusNode>) -> StatusNode {
    let dir_status = match file_type {
        FileType::Dir | FileType::Zip | FileType::SevenZip => Some(ReportStatus::Unknown),
        _ => None,
    };
    StatusNode {
        file_type,
        got_status: GotStatus::Got,
        rep_status,
        is_game,
        search_found: false,
        dir_status,
        cached_stats: None,
        children,
    }
}

fn sample_tree() -> StatusNode {
    let game = node(
        FileType::Zip,
        RepStatus::Correct,
        true,
        vec![
            node(FileType::FileZip, RepStatus::Correct, false, vec![]),
            node(FileType::FileZip, RepStatus::Missing, false, vec![]),
        ],
    );
    let empty_game = node(FileType::Zip, RepStatus::CanBeFixed, true, vec![]);
    let loose = node(FileType::File, RepStatus::Corrupt, false, vec![]);
    node(FileType::Dir, RepStatus::DirCorrect, false, vec![game, empty_game, loose])
}

#[test]
fn report_status_adds_up_the_tree_and_caches_it() {
    let mut tree = sample_tree();
    let mut total = RepairStatus::new();
    total.report_status(&mut tree);
    assert_eq!(total.total_games, 2);
    // two ROMs of the game, the game without children, the loose file
    assert_eq!(total.total_roms, 4);
    assert_eq!(total.games_correct, 1);
    assert_eq!(total.games_fixes, 1);
    assert_eq!(total.roms_correct, 1);
    assert_eq!(total.roms_missing, 2);
    assert_eq!(total.roms_corrupt, 1);
    assert_eq!(total.roms_fixes, 1);
    let cached = tree.cached_stats.unwrap();
    assert_eq!(cached.total_roms, 4);
    assert_eq!(tree.dir_status, Some(ReportStatus::Missing));
    // the game archive shows its own report status
    assert_eq!(tree.children[0].cached_stats.unwrap().total_roms, 2);
    assert_eq!(tree.children[0].dir_status, Some(ReportStatus::Missing));
    // the loose file has no report status of its own
    assert_eq!(tree.children[2].dir_status, None);
}

#[test]
fn report_status_twice_adds_the_same_counters() {
    let mut tree = sample_tree();
    let mut first = RepairStatus::new();
    first.report_status(&mut tree);
    let mut second = RepairStatus::new();
    second.report_status(&mut tree);
    assert_eq!(first.total_roms, second.total_roms);
    assert_eq!(first.roms_missing, second.roms_missing);
    assert_eq!(first.games_fixes, second.games_fixes);
}

#[test]
fn report_status_trusts_cached_counters() {
    let mut tree = sample_tree();
    let mut cached = RepairStatus::new();
    cached.total_roms = 5;
    cached.roms_correct = 5;
    tree.children[0].cached_stats = Some(cached);
    let mut total = RepairStatus::new();
    total.report_status(&mut tree);
    // 5 cached ROMs, the game without children and the loose file
    assert_eq!(total.total_roms, 7);
    assert_eq!(total.roms_correct, 5);
    assert_eq!(tree.children[0].dir_status, Some(ReportStatus::Correct));
}

#[test]
fn dominant_status_of_a_branch() {
    let tree = sample_tree();
    // CanBeFixed comes before Corrupt, Missing and Correct in the display order
    assert_eq!(RepairStatus::dominant_rep_status(&tree), RepStatus::CanBeFixed);
    let file = node(FileType::File, RepStatus::Missing, false, vec![]);
    assert_eq!(RepairStatus::dominant_rep_status(&file), RepStatus::Missing);
    let mut locked = sample_tree();
    locked.got_status = GotStatus::FileLocked;
    assert_eq!(RepairStatus::dominant_rep_status(&locked), RepStatus::UnScanned);
    let empty = node(FileType::Dir, RepStatus::DirCorrect, false, vec![]);
    assert_eq!(RepairStatus::dominant_rep_status(&empty), RepStatus::UnScanned);
}
