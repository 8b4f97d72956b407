use rv_core::enums::ZipStructure;
use rv_core::rv_file::{name_case, new_zip_struct, set_zip_dat_struct, zip_dat_struct, zip_dat_struct_fix};
use rv_core::enums::{DatStatus, FileType, GotStatus, RepStatus};
use rv_core::rv_file::{rep_status_for, rep_status_reset, ignored_by_patterns, rule_has_db_patterns};
use rv_core::rv_file::rep_status_reset_node;
use rv_core::enums::ReportStatus;
use rv_core::repair_status::{RepairStatus, StatusNode};

#[test]
fn status_table_for_files() {
    assert_eq!(rep_status_for(FileType::File, DatStatus::InDatCollect, GotStatus::Got), RepStatus::Correct);
    assert_eq!(rep_status_for(FileType::FileZip, DatStatus::InDatCollect, GotStatus::NotGot), RepStatus::Missing);
    assert_eq!(rep_status_for(FileType::Zip, DatStatus::InDatCollect, GotStatus::Corrupt), RepStatus::Corrupt);
    assert_eq!(rep_status_for(FileType::File, DatStatus::InDatMerged, GotStatus::NotGot), RepStatus::NotCollected);
    assert_eq!(rep_status_for(FileType::File, DatStatus::InDatNoDump, GotStatus::Corrupt), RepStatus::UnNeeded);
    assert_eq!(rep_status_for(FileType::File, DatStatus::InDatMIA, GotStatus::NotGot), RepStatus::MissingMIA);
    assert_eq!(rep_status_for(FileType::File, DatStatus::InDatMIA, GotStatus::Got), RepStatus::CorrectMIA);
    assert_eq!(rep_status_for(FileType::File, DatStatus::InToSort, GotStatus::Got), RepStatus::InToSort);
    assert_eq!(rep_status_for(FileType::File, DatStatus::InToSort, GotStatus::NotGot), RepStatus::Deleted);
    assert_eq!(rep_status_for(FileType::File, DatStatus::NotInDat, GotStatus::Got), RepStatus::Unknown);
    assert_eq!(rep_status_for(FileType::File, DatStatus::NotInDat, GotStatus::FileLocked), RepStatus::UnScanned);
}

#[test]
fn status_table_for_directories() {
    assert_eq!(rep_status_for(FileType::Dir, DatStatus::InDatMerged, GotStatus::Got), RepStatus::DirCorrect);
    assert_eq!(rep_status_for(FileType::Dir, DatStatus::InDatCollect, GotStatus::NotGot), RepStatus::DirMissing);
    assert_eq!(rep_status_for(FileType::Dir, DatStatus::InDatNoDump, GotStatus::Corrupt), RepStatus::DirCorrupt);
    assert_eq!(rep_status_for(FileType::Dir, DatStatus::NotInDat, GotStatus::Got), RepStatus::DirUnknown);
    assert_eq!(rep_status_for(FileType::Dir, DatStatus::InToSort, GotStatus::Got), RepStatus::DirInToSort);
    assert_eq!(rep_status_for(FileType::UnSet, DatStatus::InToSort, GotStatus::Got), RepStatus::UnScanned);
}

#[test]
fn stray_files_matching_patterns_are_ignored() {
    let rule: Vec<String> = vec!["ignore:*.tmp".into(), "*.nfo".into()];
    let global: Vec<String> = vec!["*.txt".into()];
    assert!(rule_has_db_patterns(&rule));
    assert!(!rule_has_db_patterns(&["ignore:x".to_string(), "   ".to_string()]));
    assert_eq!(
        rep_status_reset(FileType::File, DatStatus::NotInDat, GotStatus::Got, "read.nfo", true, &rule, &global),
        RepStatus::Ignore
    );
    assert_eq!(
        rep_status_reset(FileType::File, DatStatus::NotInDat, GotStatus::Got, "read.txt", true, &rule, &global),
        RepStatus::Unknown
    );
    assert_eq!(
        rep_status_reset(FileType::File, DatStatus::NotInDat, GotStatus::Got, "read.txt", true, &[], &global),
        RepStatus::Ignore
    );
    assert_eq!(
        rep_status_reset(FileType::File, DatStatus::NotInDat, GotStatus::Got, "read.nfo", false, &rule, &global),
        RepStatus::Unknown
    );
    assert!(ignored_by_patterns("a.nfo", &rule));
    assert!(ignored_by_patterns("A.NFO", &rule));
    assert!(!ignored_by_patterns("a.tmp", &rule));
}

#[test]
fn zip_dat_struct_byte_round_trip() {
    let b = set_zip_dat_struct(ZipStructure::SevenZipSLZMA, true);
    assert_eq!(b, 0x88);
    assert_eq!(zip_dat_struct(b), ZipStructure::SevenZipSLZMA);
    assert!(zip_dat_struct_fix(b));
    let plain = set_zip_dat_struct(ZipStructure::ZipTrrnt, false);
    assert_eq!(plain, 1);
    assert!(!zip_dat_struct_fix(plain));
    assert_eq!(new_zip_struct(DatStatus::InDatCollect, ZipStructure::ZipZSTD, b), ZipStructure::SevenZipSLZMA);
    assert_eq!(new_zip_struct(DatStatus::InToSort, ZipStructure::ZipZSTD, b), ZipStructure::ZipZSTD);
    assert_eq!(name_case("game.zip", "  "), "game.zip");
    assert_eq!(name_case("game.zip", "Game.ZIP"), "Game.ZIP");
}

#[test]
fn node_reset_drops_cached_counters_and_directory_status() {
    let mut dir = StatusNode {
        file_type: FileType::Dir,
        got_status: GotStatus::Got,
        rep_status: RepStatus::Missing,
        is_game: false,
        search_found: true,
        dir_status: Some(ReportStatus::Correct),
        cached_stats: Some(RepairStatus::new()),
        children: Vec::new(),
    };
    rep_status_reset_node(&mut dir, DatStatus::InDatCollect, "d", true, &[], &[]);
    assert_eq!(dir.rep_status, RepStatus::DirCorrect);
    assert!(dir.cached_stats.is_none());
    assert_eq!(dir.dir_status, Some(ReportStatus::Unknown));
    assert!(!dir.search_found);

    let mut stray = StatusNode {
        file_type: FileType::File,
        got_status: GotStatus::Got,
        rep_status: RepStatus::Correct,
        is_game: false,
        search_found: false,
        dir_status: None,
        cached_stats: None,
        children: Vec::new(),
    };
    let global = vec!["*.txt".to_string()];
    rep_status_reset_node(&mut stray, DatStatus::NotInDat, "notes.txt", true, &[], &global);
    assert_eq!(stray.rep_status, RepStatus::Ignore);
    assert_eq!(stray.dir_status, None);
}
