use rv_core::compare::FileHashes;
use rv_core::enums::{DatStatus, FileType, RepStatus};
use rv_core::external_dat_converter_to::{ExportNode, ExportSource, ExternalDatConverterTo};
use rv_core::rv_dat::{DatData, RvDat};
use rv_core::rv_game::{GameData, RvGame};

fn hashes(size: u64, crc: [u8; 4]) -> FileHashes {
    FileHashes {
        size: Some(size),
        crc: Some(crc.to_vec()),
        sha1: None,
        md5: None,
        alt_size: None,
        alt_crc: None,
        alt_sha1: None,
        alt_md5: None,
    }
}

fn src(name: &str, file_type: FileType, rep_status: RepStatus, children: Vec<ExportSource>) -> ExportSource {
    ExportSource {
        name: name.to_string(),
        file_type,
        rep_status,
        dat_status: DatStatus::InDatCollect,
        header_is_chd: false,
        hashes: hashes(4, [1, 2, 3, 4]),
        merge: String::new(),
        status: None,
        game: None,
        dir_dats: Vec::new(),
        dat: None,
        children,
    }
}

fn file(name: &str, rep_status: RepStatus) -> ExportSource {
    src(name, FileType::File, rep_status, Vec::new())
}

fn names(n: &ExportNode) -> Vec<String> {
    n.children.iter().map(|c| c.name.clone()).collect()
}

#[test]
fn filters_follow_the_repair_status() {
    let c = ExternalDatConverterTo::new();
    assert!(c.includes_file(false, RepStatus::Correct));
    assert!(c.includes_file(true, RepStatus::Missing));
    assert!(c.includes_file(false, RepStatus::CanBeFixed));
    assert!(c.includes_file(false, RepStatus::UnNeeded));
    assert!(!c.includes_file(false, RepStatus::NotCollected));
    assert!(c.includes_file(false, RepStatus::Ignore));
    let mut only_missing = ExternalDatConverterTo::new();
    only_missing.filter_got = false;
    only_missing.filter_fixable = false;
    only_missing.filter_files = false;
    assert!(!only_missing.includes_file(true, RepStatus::Correct));
    assert!(!only_missing.includes_file(true, RepStatus::UnNeeded));
    assert!(only_missing.includes_file(true, RepStatus::MissingMIA));
    assert!(!only_missing.includes_file(false, RepStatus::Missing));
}

#[test]
fn a_file_is_not_exported_as_a_dat() {
    let c = ExternalDatConverterTo::new();
    assert!(c.convert_to_external_dat(&file("a.bin", RepStatus::Correct), false).is_none());
}

#[test]
fn zip_archives_become_games_without_extension() {
    let c = ExternalDatConverterTo::new();
    let game = src(
        "Pac-Man.ZIP",
        FileType::Zip,
        RepStatus::Correct,
        vec![file("a.rom", RepStatus::Correct), file("b.rom", RepStatus::Missing), file("c.rom", RepStatus::NotCollected)],
    );
    let root = src("Arcade", FileType::Dir, RepStatus::Correct, vec![game]);
    let dat = c.convert_to_external_dat(&root, false).unwrap();
    assert_eq!(dat.header.name, Some("Arcade".to_string()));
    assert_eq!(dat.header.id, None);
    assert_eq!(names(&dat.base_dir), vec!["Pac-Man".to_string()]);
    let g = &dat.base_dir.children[0];
    assert!(g.file.is_none());
    let meta = g.game.as_ref().unwrap();
    assert_eq!(meta.description, None);
    assert!(meta.category.is_empty());
    assert_eq!(names(g), vec!["a.rom".to_string(), "b.rom".to_string()]);
    let f = g.children[0].file.as_ref().unwrap();
    assert_eq!(f.size, Some(4));
    assert_eq!(f.crc, Some(vec![1, 2, 3, 4]));
    assert_eq!(f.merge, Some(String::new()));
    assert!(!f.is_disk);
}

#[test]
fn directories_inside_archives_are_flattened() {
    let c = ExternalDatConverterTo::new();
    let sub = src("sub", FileType::Dir, RepStatus::Correct, vec![file("x.bin", RepStatus::Correct)]);
    let game = src("set.7z", FileType::SevenZip, RepStatus::Correct, vec![file("top.bin", RepStatus::Correct), sub]);
    let mut root = src("Root", FileType::Dir, RepStatus::Correct, vec![game]);
    let mut g = RvGame::new();
    g.add_data(GameData::Description, "The Set");
    root.children[0].game = Some(g);
    let dat = c.convert_to_external_dat(&root, false).unwrap();
    let set = &dat.base_dir.children[0];
    assert_eq!(set.name, "set");
    assert_eq!(set.game.as_ref().unwrap().description, Some("The Set".to_string()));
    assert_eq!(names(set), vec!["top.bin".to_string(), "sub/".to_string(), "sub/x.bin".to_string()]);
    let marker = set.children[1].file.as_ref().unwrap();
    assert_eq!(marker.size, Some(0));
    assert_eq!(marker.crc, Some(vec![0, 0, 0, 0]));
}

#[test]
fn empty_directories_are_removed() {
    let c = ExternalDatConverterTo::new();
    let empty = src("empty", FileType::Dir, RepStatus::Correct, vec![file("m.bin", RepStatus::NotCollected)]);
    let kept = src("kept", FileType::Dir, RepStatus::Correct, vec![file("k.bin", RepStatus::Correct)]);
    let nested = src("outer", FileType::Dir, RepStatus::Correct, vec![src("inner", FileType::Dir, RepStatus::Correct, Vec::new())]);
    let root = src("Root", FileType::Dir, RepStatus::Correct, vec![empty, kept, nested]);
    let dat = c.convert_to_external_dat(&root, false).unwrap();
    assert_eq!(names(&dat.base_dir), vec!["kept".to_string()]);
}

#[test]
fn archives_can_be_left_out() {
    let mut c = ExternalDatConverterTo::new();
    c.filter_zips = false;
    let game = src("g.zip", FileType::Zip, RepStatus::Correct, vec![file("a.rom", RepStatus::Correct)]);
    let root = src("Root", FileType::Dir, RepStatus::Correct, vec![game, file("loose.bin", RepStatus::Correct)]);
    let dat = c.convert_to_external_dat(&root, false).unwrap();
    assert_eq!(names(&dat.base_dir), vec!["loose.bin".to_string()]);
    let inside = c.convert_to_external_dat(&root, true).unwrap();
    assert!(inside.base_dir.children.is_empty());
}

#[test]
fn disk_images_drop_chd_and_use_headerless_hashes() {
    let c = ExternalDatConverterTo::new();
    let mut disk = file("Disk.CHD", RepStatus::Correct);
    disk.header_is_chd = true;
    disk.merge = "parent.chd".to_string();
    disk.dat_status = DatStatus::InDatMIA;
    disk.hashes.alt_size = Some(9);
    disk.hashes.alt_sha1 = Some(vec![7; 20]);
    let root = src("Root", FileType::Dir, RepStatus::Correct, vec![src("game", FileType::Dir, RepStatus::Correct, vec![disk])]);
    let dat = c.convert_to_external_dat(&root, false).unwrap();
    let d = &dat.base_dir.children[0].children[0];
    assert_eq!(d.name, "Disk");
    let f = d.file.as_ref().unwrap();
    assert!(f.is_disk);
    assert_eq!(f.merge, Some("parent".to_string()));
    assert_eq!(f.size, Some(9));
    assert_eq!(f.crc, None);
    assert_eq!(f.sha1, Some(vec![7; 20]));
    assert_eq!(f.mia, Some("yes".to_string()));
}

#[test]
fn header_comes_from_the_dat() {
    let c = ExternalDatConverterTo::new();
    let mut root = src("Root", FileType::Dir, RepStatus::Correct, vec![file("a.bin", RepStatus::Correct)]);
    let mut d = RvDat::new();
    d.set_data(DatData::DatName, Some("My Dat".to_string()));
    d.set_data(DatData::Version, Some("2".to_string()));
    root.dir_dats.push(d);
    let dat = c.convert_to_external_dat(&root, false).unwrap();
    assert_eq!(dat.header.name, Some("My Dat".to_string()));
    assert_eq!(dat.header.version, Some("2".to_string()));
    assert_eq!(dat.header.author, None);

    let mut no_header = ExternalDatConverterTo::new();
    no_header.use_header = false;
    let dat = no_header.convert_to_external_dat(&root, false).unwrap();
    assert_eq!(dat.header.name, Some("Root".to_string()));
    assert_eq!(dat.header.version, None);
}

#[test]
fn placeholder_description_takes_the_game_name() {
    let c = ExternalDatConverterTo::new();
    let mut game = src("g.zip", FileType::Zip, RepStatus::Correct, vec![file("a.rom", RepStatus::Correct)]);
    let mut g = RvGame::new();
    g.add_data(GameData::Description, "\u{a4}");
    g.add_data(GameData::Category, "Games | Arcade");
    g.add_data(GameData::Year, "1980");
    game.game = Some(g);
    let root = src("Root", FileType::Dir, RepStatus::Correct, vec![game]);
    let dat = c.convert_to_external_dat(&root, false).unwrap();
    let meta = dat.base_dir.children[0].game.as_ref().unwrap();
    assert_eq!(meta.description, Some("g".to_string()));
    assert_eq!(meta.category, vec!["Games".to_string(), "Arcade".to_string()]);
    assert_eq!(meta.year, Some("1980".to_string()));
}
