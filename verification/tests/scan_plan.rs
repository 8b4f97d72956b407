use rv_core::file_scanning::FileScanning;
use rv_core::scan_plan::ScanStep;

fn names(v: &[&str]) -> Vec<String> {
    v.iter().map(|s| s.to_string()).collect()
}

#[test]
fn walk_groups_equal_names_and_reports_the_rest() {
    let db = names(&["a.zip", "b.zip", "b.zip", "d.bin"]);
    let files = names(&["b.zip", "c.bin", "d.bin", "d.bin", "e.bin"]);
    assert_eq!(
        FileScanning::scan_plan(&db, &files),
        vec![
            ScanStep::Missing(0),
            ScanStep::Group { db_start: 1, db_end: 3, file_start: 0, file_end: 1 },
            ScanStep::NewFile(1),
            ScanStep::Group { db_start: 3, db_end: 4, file_start: 2, file_end: 4 },
            ScanStep::NewFile(4),
        ]
    );
}

#[test]
fn walk_of_one_empty_side() {
    assert_eq!(FileScanning::scan_plan(&names(&["x"]), &[]), vec![ScanStep::Missing(0)]);
    assert_eq!(FileScanning::scan_plan(&[], &names(&["x", "y"])), vec![ScanStep::NewFile(0), ScanStep::NewFile(1)]);
    assert_eq!(FileScanning::scan_plan(&[], &[]), Vec::<ScanStep>::new());
    // Names compare byte by byte: upper case sorts first.
    assert_eq!(
        FileScanning::scan_plan(&names(&["B"]), &names(&["a"])),
        vec![ScanStep::Missing(0), ScanStep::NewFile(0)]
    );
}
