use rv_core::rv_dat::{DatData, DatFlags, RvDat};
use rv_core::rv_game::{DatGame, GameData, RvGame};

#[test]
fn dat_metadata_set_and_get() {
    let mut d = RvDat::new();
    assert_eq!(d.dat_index, -1);
    assert_eq!(d.get_data(DatData::DatName), None);
    d.set_data(DatData::DatName, Some("Arcade".to_string()));
    d.set_data(DatData::Version, Some("1.0".to_string()));
    d.set_data(DatData::DatName, Some("Console".to_string()));
    d.set_data(DatData::Author, Some("   ".to_string()));
    d.set_data(DatData::Version, None);
    assert_eq!(d.get_data(DatData::DatName), Some("Console".to_string()));
    assert_eq!(d.get_data(DatData::Version), Some("1.0".to_string()));
    assert_eq!(d.get_data(DatData::Author), None);
    assert_eq!(d.game_meta_data.len(), 2);
}

#[test]
fn dat_flags() {
    let mut d = RvDat::new();
    assert!(d.flag(DatFlags::empty()));
    d.dat_flags = DatFlags::from_bits_retain(0b101);
    assert!(d.flag(DatFlags::from_bits_retain(0b001)));
    assert!(d.flag(DatFlags::from_bits_retain(0b100)));
    assert!(!d.flag(DatFlags::from_bits_retain(0b010)));
}

#[test]
fn game_metadata() {
    let mut g = RvGame::from_description("Pac-Man");
    assert_eq!(g.get_data(GameData::Description), Some("Pac-Man".to_string()));
    g.add_data(GameData::Year, "1980");
    g.add_data(GameData::Description, "Pac-Man (rev 2)");
    assert_eq!(g.get_data(GameData::Description), Some("Pac-Man (rev 2)".to_string()));
    assert_eq!(g.get_data(GameData::Year), Some("1980".to_string()));
    assert_eq!(g.get_data(GameData::Board), None);
    assert_eq!(RvGame::new().game_meta_data.len(), 0);
}

fn dat_game() -> DatGame {
    DatGame {
        id: Some("42".to_string()),
        description: Some("Pac-Man".to_string()),
        category: vec!["Maze".to_string(), "Arcade".to_string()],
        rom_of: None,
        is_bios: Some("  ".to_string()),
        source_file: None,
        clone_of: Some("puckman".to_string()),
        clone_of_id: None,
        sample_of: None,
        board: None,
        year: Some("1980".to_string()),
        manufacturer: Some("Namco".to_string()),
        is_emu_arc: false,
        publisher: Some("Midway".to_string()),
        developer: None,
        genre: None,
        sub_genre: None,
        ratings: None,
        score: None,
        players: None,
        enabled: None,
        crc: None,
        related_to: None,
        source: None,
    }
}

#[test]
fn game_from_dat_game_sets_present_fields() {
    let g = RvGame::from_dat_game(&dat_game());
    assert_eq!(g.get_data(GameData::Id), Some("42".to_string()));
    assert_eq!(g.get_data(GameData::Description), Some("Pac-Man".to_string()));
    assert_eq!(g.get_data(GameData::Category), Some("Maze | Arcade".to_string()));
    assert_eq!(g.get_data(GameData::IsBios), None);
    assert_eq!(g.get_data(GameData::CloneOf), Some("puckman".to_string()));
    assert_eq!(g.get_data(GameData::Year), Some("1980".to_string()));
    // emulator fields only for emulator arcade DATs
    assert_eq!(g.get_data(GameData::Publisher), None);
    assert_eq!(g.get_data(GameData::EmuArc), None);
}

#[test]
fn game_from_emulator_arcade_dat_game() {
    let mut d = dat_game();
    d.is_emu_arc = true;
    d.category.clear();
    let g = RvGame::from_dat_game(&d);
    assert_eq!(g.get_data(GameData::EmuArc), Some("yes".to_string()));
    assert_eq!(g.get_data(GameData::Publisher), Some("Midway".to_string()));
    assert_eq!(g.get_data(GameData::Category), None);
}
