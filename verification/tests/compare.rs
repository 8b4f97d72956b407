use rv_core::compare::{compare_db_to_file, DbFile, EScanLevel, FileCompare, FileHashes, ScannedFile};
use rv_core::enums::{DatStatus, FileType, GotStatus};
use rv_core::file_scanning::FileScanning;

fn hashes(size: Option<u64>, crc: Option<Vec<u8>>) -> FileHashes {
    FileHashes {
        size,
        crc,
        sha1: None,
        md5: None,
        alt_size: None,
        alt_crc: None,
        alt_sha1: None,
        alt_md5: None,
    }
}

fn db(name: &str, file_type: FileType, h: FileHashes) -> DbFile {
    DbFile {
        name: name.to_string(),
        file_type,
        header_type: 0,
        header_required: false,
        deep_scanned: false,
        file_mod_time_stamp: 100,
        hashes: h,
    }
}

fn scanned(name: &str, file_type: FileType, h: FileHashes) -> ScannedFile {
    ScannedFile {
        name: name.to_string(),
        file_type,
        got_status: GotStatus::Got,
        header_file_type: 0,
        deep_scanned: false,
        file_mod_time_stamp: 100,
        hashes: h,
    }
}

#[test]
fn phase_1_matches_equal_hashes() {
    let d = db("a.bin", FileType::File, hashes(Some(10), Some(vec![1, 2, 3, 4])));
    let t = scanned("a.bin", FileType::FileZip, hashes(Some(10), Some(vec![1, 2, 3, 4])));
    assert_eq!(FileCompare::phase_1_test(&d, &t, EScanLevel::Level1, 0), (true, false));
}

#[test]
fn phase_1_rejects_other_name_or_crc() {
    let d = db("a.bin", FileType::File, hashes(Some(10), Some(vec![1, 2, 3, 4])));
    let t = scanned("b.bin", FileType::File, hashes(Some(10), Some(vec![1, 2, 3, 4])));
    assert_eq!(FileCompare::phase_1_test(&d, &t, EScanLevel::Level1, 0), (false, false));
    let t2 = scanned("a.bin", FileType::File, hashes(Some(10), Some(vec![9, 9, 9, 9])));
    assert_eq!(FileCompare::phase_1_test(&d, &t2, EScanLevel::Level1, 0), (false, false));
}

#[test]
fn phase_1_matches_header_stripped_values() {
    let mut dh = hashes(Some(16), Some(vec![1, 1, 1, 1]));
    dh.alt_size = Some(10);
    dh.alt_crc = Some(vec![2, 2, 2, 2]);
    let d = db("g.nes", FileType::File, dh);
    let t = scanned("g.nes", FileType::File, hashes(Some(10), Some(vec![2, 2, 2, 2])));
    assert_eq!(FileCompare::phase_1_test(&d, &t, EScanLevel::Level1, 0), (true, true));
}

#[test]
fn phase_1_containers_match_by_name() {
    let d = db("set", FileType::Dir, hashes(None, None));
    let t = scanned("set", FileType::Dir, hashes(None, None));
    assert_eq!(FileCompare::phase_1_test(&d, &t, EScanLevel::Level3, 0), (true, false));
    let t2 = scanned("set", FileType::Zip, hashes(None, None));
    assert_eq!(FileCompare::phase_1_test(&d, &t2, EScanLevel::Level3, 0), (false, false));
}

#[test]
fn phase_1_required_header_must_be_present() {
    let mut d = db("g.nes", FileType::File, hashes(Some(10), Some(vec![1, 2, 3, 4])));
    d.header_type = 8;
    d.header_required = true;
    let t = scanned("g.nes", FileType::File, hashes(Some(10), Some(vec![1, 2, 3, 4])));
    assert_eq!(FileCompare::phase_1_test(&d, &t, EScanLevel::Level1, 0), (false, false));
}

#[test]
fn phase_1_without_hashes_uses_time_and_size() {
    let d = db("a.bin", FileType::File, hashes(Some(10), Some(vec![1, 2, 3, 4])));
    let t = scanned("a.bin", FileType::File, hashes(Some(10), None));
    assert_eq!(FileCompare::phase_1_test(&d, &t, EScanLevel::Level1, 0), (true, false));
    assert_eq!(FileCompare::phase_1_test(&d, &t, EScanLevel::Level2, 0), (false, false));
    let mut t2 = scanned("a.bin", FileType::File, hashes(Some(10), None));
    t2.file_mod_time_stamp = 5;
    assert_eq!(FileCompare::phase_1_test(&d, &t2, EScanLevel::Level1, 0), (false, false));
}

#[test]
fn phase_2_takes_over_a_needed_rescan() {
    let d = db("a.bin", FileType::File, hashes(Some(10), Some(vec![1, 2, 3, 4])));
    let mut t = scanned("a.bin", FileType::File, hashes(Some(10), None));
    let rescan = scanned("ignored", FileType::File, hashes(Some(10), Some(vec![1, 2, 3, 4])));
    assert_eq!(FileCompare::phase_2_test(&d, &mut t, 0, Some(rescan)), (true, false));
    assert!(t.deep_scanned);
    assert_eq!(t.name, "a.bin");
    assert_eq!(t.hashes.crc, Some(vec![1, 2, 3, 4]));
}

#[test]
fn phase_2_without_rescan_does_not_match() {
    let d = db("a.bin", FileType::File, hashes(Some(10), Some(vec![1, 2, 3, 4])));
    let mut t = scanned("a.bin", FileType::File, hashes(Some(10), None));
    assert_eq!(FileCompare::phase_2_test(&d, &mut t, 0, None), (false, false));
    assert!(!t.deep_scanned);
}

#[test]
fn phase_2_name_agnostic_needs_hash_or_timestamp() {
    let d = db("x", FileType::File, hashes(Some(10), None));
    let mut t = scanned("y", FileType::File, hashes(Some(10), Some(vec![5, 5, 5, 5])));
    t.deep_scanned = true;
    assert_eq!(FileCompare::phase_2_name_agnostic_test(&d, &mut t, None), (true, false));
    let mut d2 = db("x", FileType::File, hashes(Some(10), None));
    d2.file_mod_time_stamp = 0;
    let mut t2 = scanned("y", FileType::File, hashes(Some(10), Some(vec![5, 5, 5, 5])));
    t2.deep_scanned = true;
    assert_eq!(FileCompare::phase_2_name_agnostic_test(&d2, &mut t2, None), (false, false));
}

#[test]
fn db_to_file_order() {
    let d = db("a", FileType::File, hashes(None, None));
    assert_eq!(compare_db_to_file(&d, &scanned("b", FileType::File, hashes(None, None))), -1);
    assert_eq!(compare_db_to_file(&d, &scanned("a", FileType::File, hashes(None, None))), 0);
    assert_eq!(compare_db_to_file(&d, &scanned("B", FileType::File, hashes(None, None))), 1);
}

#[test]
fn archive_contents_scan_rules() {
    let archive = db("a.zip", FileType::Zip, hashes(None, None));
    let same_time = scanned("a.zip", FileType::Zip, hashes(None, None));
    let mut newer = scanned("a.zip", FileType::Zip, hashes(None, None));
    newer.file_mod_time_stamp = 200;
    let hashed = vec![
        db("x.bin", FileType::FileZip, hashes(Some(4), Some(vec![1, 2, 3, 4]))),
        db("d", FileType::Dir, hashes(None, None)),
    ];
    let unhashed = vec![db("y.bin", FileType::FileZip, hashes(Some(4), None))];
    assert!(FileScanning::archive_is_deep_scanned(&hashed));
    assert!(!FileScanning::archive_is_deep_scanned(&unhashed));
    assert!(FileScanning::should_scan_archive_contents(&archive, &hashed, &newer, EScanLevel::Level1));
    assert!(!FileScanning::should_scan_archive_contents(&archive, &unhashed, &same_time, EScanLevel::Level1));
    assert!(FileScanning::should_scan_archive_contents(&archive, &unhashed, &same_time, EScanLevel::Level2));
    assert!(!FileScanning::should_scan_archive_contents(&archive, &hashed, &same_time, EScanLevel::Level2));
    assert!(FileScanning::should_scan_archive_contents(&archive, &hashed, &same_time, EScanLevel::Level3));
}

#[test]
fn unmatched_file_marks_corrupt() {
    let rom = db("r.bin", FileType::FileZip, hashes(Some(4), Some(vec![1, 2, 3, 4])));
    let found = scanned("r.bin", FileType::File, hashes(Some(4), Some(vec![9, 9, 9, 9])));
    assert!(FileScanning::should_mark_corrupt(&rom, DatStatus::InDatCollect, &found));
    assert!(!FileScanning::should_mark_corrupt(&rom, DatStatus::NotInDat, &found));
    assert!(!FileScanning::should_mark_corrupt(&rom, DatStatus::InToSort, &found));
    let dir = scanned("r.bin", FileType::Dir, hashes(None, None));
    assert!(!FileScanning::should_mark_corrupt(&rom, DatStatus::InDatCollect, &dir));
}

#[test]
fn hash_identity_of_files() {
    let with_crc = db("a", FileType::File, hashes(Some(1), Some(vec![1, 2, 3, 4])));
    let size_only = db("a", FileType::File, hashes(Some(1), None));
    assert!(FileCompare::db_file_has_name_agnostic_identity(&with_crc));
    assert!(!FileCompare::db_file_has_name_agnostic_identity(&size_only));
    let s = scanned("a", FileType::File, hashes(None, Some(vec![1, 2, 3, 4])));
    assert!(FileCompare::scanned_file_has_hash_identity(&s));
    assert!(!FileCompare::scanned_file_has_hash_identity(&scanned("a", FileType::File, hashes(Some(3), None))));
}
