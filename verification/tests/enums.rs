use rv_core::enums::{zip_structure_code, ReportStatus, ToSortDirType, ZipStructure};

#[test]
fn report_status_queries() {
    assert!(ReportStatus::Correct.has_correct());
    assert!(!ReportStatus::Missing.has_correct());
    assert!(ReportStatus::Missing.has_missing(false));
    assert!(ReportStatus::Unknown.has_unknown());
    assert!(!ReportStatus::Unknown.has_mia());
}

#[test]
fn to_sort_flags() {
    let mut t = ToSortDirType::none();
    assert!(!t.contains(ToSortDirType::to_sort_primary()));
    t.insert(ToSortDirType::to_sort_primary());
    t.insert(ToSortDirType::to_sort_file_only());
    assert!(t.contains(ToSortDirType::to_sort_primary()));
    assert!(t.contains(ToSortDirType::to_sort_file_only()));
    assert!(!t.contains(ToSortDirType::to_sort_cache()));
}

#[test]
fn structure_codes() {
    assert_eq!(zip_structure_code(ZipStructure::NoStructure), 0);
    assert_eq!(zip_structure_code(ZipStructure::SevenZipTrrnt), 4);
    assert_eq!(zip_structure_code(ZipStructure::SevenZipNZSTD), 11);
}

#[test]
fn fix_and_merge_queries() {
    assert!(ReportStatus::InToSort.has_fixes_needed());
    assert!(ReportStatus::UnNeeded.has_fixes_needed());
    assert!(!ReportStatus::Correct.has_fixes_needed());
    assert!(ReportStatus::NotCollected.has_all_merged());
    assert!(ReportStatus::UnNeeded.has_all_merged());
    assert!(!ReportStatus::Missing.has_all_merged());
}
