use rv_core::clean_partial::{remove_partial_sets, status_check_dir, status_check_file, status_set_dir, status_set_file};
use rv_core::enums::{FileType, GotStatus, RepStatus};
use rv_core::repair_status::{RepairStatus, StatusNode};

fn file(rep_status: RepStatus) -> StatusNode {
    StatusNode {
        file_type: FileType::FileZip,
        got_status: GotStatus::Got,
        rep_status,
        is_game: false,
        search_found: false,
        dir_status: None,
        cached_stats: Some(RepairStatus::new()),
        children: vec![],
    }
}

fn game(children: Vec<StatusNode>) -> StatusNode {
    StatusNode {
        file_type: FileType::Zip,
        got_status: GotStatus::Got,
        rep_status: RepStatus::Correct,
        is_game: true,
        search_found: false,
        dir_status: None,
        cached_stats: None,
        children,
    }
}

fn statuses(n: &StatusNode) -> Vec<RepStatus> {
    n.children.iter().map(|c| c.rep_status).collect()
}

#[test]
fn partial_set_is_marked_incomplete() {
    let mut g = game(vec![
        file(RepStatus::Correct),
        file(RepStatus::Missing),
        file(RepStatus::CanBeFixed),
        file(RepStatus::NotCollected),
    ]);
    remove_partial_sets(&mut g);
    assert_eq!(
        statuses(&g),
        vec![RepStatus::IncompleteRemove, RepStatus::Missing, RepStatus::Incomplete, RepStatus::NotCollected]
    );
    assert!(g.children[0].cached_stats.is_none());
    // the game itself keeps its status
    assert_eq!(g.rep_status, RepStatus::Correct);
    let before = statuses(&g);
    remove_partial_sets(&mut g);
    assert_eq!(statuses(&g), before);
}

#[test]
fn complete_or_empty_set_is_left() {
    let mut g = game(vec![file(RepStatus::Correct), file(RepStatus::CorrectMIA)]);
    remove_partial_sets(&mut g);
    assert_eq!(statuses(&g), vec![RepStatus::Correct, RepStatus::CorrectMIA]);
    assert!(g.children[0].cached_stats.is_some());
    let mut m = game(vec![file(RepStatus::Missing), file(RepStatus::MissingMIA)]);
    remove_partial_sets(&mut m);
    assert_eq!(statuses(&m), vec![RepStatus::Missing, RepStatus::MissingMIA]);
    let mut not_a_game = game(vec![file(RepStatus::Correct), file(RepStatus::Missing)]);
    not_a_game.is_game = false;
    remove_partial_sets(&mut not_a_game);
    assert_eq!(statuses(&not_a_game), vec![RepStatus::Correct, RepStatus::Missing]);
}

#[test]
fn nested_directories_are_walked() {
    let mut inner = game(vec![file(RepStatus::CanBeFixedMIA)]);
    inner.file_type = FileType::Dir;
    inner.is_game = false;
    let mut g = game(vec![file(RepStatus::MissingMIA), inner]);
    let (mut missing, mut got) = (false, false);
    status_check_dir(&g, &mut missing, &mut got);
    assert!(missing && got);
    remove_partial_sets(&mut g);
    assert_eq!(g.children[1].children[0].rep_status, RepStatus::Incomplete);
    // the directory itself is not a file and keeps its status
    assert_eq!(g.children[1].rep_status, RepStatus::Correct);
    let mut d = game(vec![file(RepStatus::Correct)]);
    status_set_dir(&mut d);
    assert_eq!(d.children[0].rep_status, RepStatus::IncompleteRemove);
}

#[test]
fn file_checks_and_marks() {
    let (mut missing, mut got) = (false, false);
    status_check_file(RepStatus::MoveToSort, &mut missing, &mut got);
    assert!(!missing && !got);
    status_check_file(RepStatus::MissingMIA, &mut missing, &mut got);
    status_check_file(RepStatus::CanBeFixedMIA, &mut missing, &mut got);
    assert!(missing && got);
    let mut r = RepStatus::CorrectMIA;
    status_set_file(&mut r);
    assert_eq!(r, RepStatus::IncompleteRemove);
    let mut u = RepStatus::Unknown;
    status_set_file(&mut u);
    assert_eq!(u, RepStatus::Unknown);
}
