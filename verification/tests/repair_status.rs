use rv_core::enums::{GotStatus, RepStatus, ReportStatus};
use rv_core::repair_status::{rep_status_index, RepairStatus};

#[test]
fn tally_of_nodes_and_sum() {
    let mut total = RepairStatus::new();
    total.add(&RepairStatus::for_node(RepStatus::Correct, true, false, false));
    total.add(&RepairStatus::for_node(RepStatus::Missing, true, false, false));
    total.add(&RepairStatus::for_node(RepStatus::CanBeFixed, true, false, false));
    total.add(&RepairStatus::for_node(RepStatus::Correct, false, true, true));
    assert_eq!(total.total_roms, 3);
    assert_eq!(total.total_games, 1);
    assert_eq!(total.roms_correct, 1);
    assert_eq!(total.roms_missing, 1);
    assert_eq!(total.roms_fixes, 1);
    assert_eq!(total.count_correct(), 1);
    assert_eq!(total.count_missing(), 2);
    assert_eq!(total.synthesized_dir_status(), ReportStatus::Missing);
}

#[test]
fn all_correct_branch_reports_correct() {
    let mut total = RepairStatus::new();
    total.add(&RepairStatus::for_node(RepStatus::Correct, true, false, false));
    total.add(&RepairStatus::for_node(RepStatus::CorrectMIA, true, false, false));
    assert_eq!(total.synthesized_dir_status(), ReportStatus::Correct);
    assert_eq!(RepairStatus::new().synthesized_dir_status(), ReportStatus::Unknown);
}

#[test]
fn merged_only_branch_reports_not_collected_or_unneeded() {
    let mut nc = RepairStatus::new();
    nc.add(&RepairStatus::for_node(RepStatus::NotCollected, true, false, false));
    assert_eq!(nc.synthesized_dir_status(), ReportStatus::NotCollected);
    let mut un = RepairStatus::new();
    un.add(&RepairStatus::for_node(RepStatus::UnNeeded, true, false, false));
    assert_eq!(un.synthesized_dir_status(), ReportStatus::UnNeeded);
}

#[test]
fn corrupt_branch_reports_corrupt() {
    let mut c = RepairStatus::new();
    c.add(&RepairStatus::for_node(RepStatus::Corrupt, true, false, false));
    assert_eq!(c.roms_missing, 1);
    assert_eq!(c.synthesized_dir_status(), ReportStatus::Corrupt);
}

#[test]
fn dominant_status_follows_display_order() {
    let mut counts = vec![0u32; 30];
    counts[rep_status_index(RepStatus::Correct)] = 3;
    counts[rep_status_index(RepStatus::Missing)] = 1;
    assert_eq!(RepairStatus::dominant_from_counts(GotStatus::Got, &counts), RepStatus::Missing);
    assert_eq!(RepairStatus::dominant_from_counts(GotStatus::FileLocked, &counts), RepStatus::UnScanned);
    assert_eq!(RepairStatus::dominant_from_counts(GotStatus::Got, &[0u32; 30]), RepStatus::UnScanned);
    assert_eq!(rep_status_index(RepStatus::Error), 0);
    assert_eq!(rep_status_index(RepStatus::EndValue), 29);
}

#[test]
fn game_without_children_counts_as_rom() {
    let g = RepairStatus::for_node(RepStatus::MissingMIA, false, true, false);
    assert_eq!(g.total_games, 1);
    assert_eq!(g.total_roms, 1);
    assert_eq!(g.games_missing_mia, 1);
    assert_eq!(g.roms_missing_mia, 1);
}

#[test]
fn fixes_needed_counts_fixes_unknown_and_unneeded() {
    let mut total = RepairStatus::new();
    total.add(&RepairStatus::for_node(RepStatus::CanBeFixed, true, false, false));
    total.add(&RepairStatus::for_node(RepStatus::Unknown, true, false, false));
    total.add(&RepairStatus::for_node(RepStatus::UnNeeded, true, false, false));
    total.add(&RepairStatus::for_node(RepStatus::Correct, true, false, false));
    assert_eq!(total.count_fixes_needed(), 3);
    assert_eq!(RepairStatus::new().count_fixes_needed(), 0);
}
