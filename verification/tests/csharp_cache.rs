use rv_core::cache::{CSharpCacheReader, Cache, CacheReadError};
use rv_core::csharp_cache::{CSharpCacheError, CSHARP_END_MARKER};
use rv_core::enums::{DatStatus, FileType, GotStatus, RepStatus, TreeSelect, ZipStructure};
use rv_core::rv_dat::DatData;
use rv_core::rv_game::GameData;

fn push_str(out: &mut Vec<u8>, s: &str) {
    out.push(s.len() as u8);
    out.extend_from_slice(s.as_bytes());
}

fn push_u32(out: &mut Vec<u8>, v: u32) {
    out.extend_from_slice(&v.to_le_bytes());
}

fn push_i32(out: &mut Vec<u8>, v: i32) {
    out.extend_from_slice(&v.to_le_bytes());
}

fn push_i64(out: &mut Vec<u8>, v: i64) {
    out.extend_from_slice(&v.to_le_bytes());
}

/// A root directory with two children: a file with size and CRC whose file
/// status carries the older primary ToSort bit, and a zip archive with a DAT
/// structure whose file status carries the older cache ToSort bit.
fn sample_cache(version: i32) -> Vec<u8> {
    let mut b = Vec::new();
    push_i32(&mut b, version);
    // root: children, tree state, one DAT
    push_u32(&mut b, (1 << 18) | (1 << 14) | (1 << 17));
    push_str(&mut b, "RustyVault");
    push_str(&mut b, "");
    push_i64(&mut b, 7);
    b.push(0); // InDatCollect
    b.push(1); // Got
    b.push(1); // expanded
    b.push(2); // Locked
    push_i32(&mut b, 1); // one DAT
    push_i64(&mut b, 99);
    b.push(16); // flags
    b.push(2); // two entries
    b.push(1);
    push_str(&mut b, "MyDat");
    b.push(4);
    push_str(&mut b, "   ");
    push_i32(&mut b, 2); // two children
    // child 1: a file
    b.push(4);
    push_u32(&mut b, (1 << 0) | (1 << 1) | (1 << 15));
    push_str(&mut b, "a.bin");
    push_str(&mut b, "");
    push_i64(&mut b, 11);
    b.push(0); // InDatCollect
    b.push(1); // Got
    b.push(2); // game entries
    b.push(1);
    push_str(&mut b, "first");
    b.push(1);
    push_str(&mut b, "second");
    b.extend_from_slice(&1234u64.to_le_bytes());
    b.push(4);
    b.extend_from_slice(&[0xde, 0xad, 0xbe, 0xef]);
    push_u32(&mut b, 0x4000_0001);
    // child 2: a 7-Zip archive stored with the zip TorrentZip structure
    b.push(3);
    push_u32(&mut b, 0);
    push_str(&mut b, "b.7z");
    push_str(&mut b, "b.7z");
    push_i64(&mut b, 12);
    b.push(0); // InDatCollect, but forced into ToSort
    b.push(0); // NotGot
    if version >= 3 {
        b.push(1);
    }
    b.push(1);
    push_u32(&mut b, 0x8000_0000);
    // root tail
    push_u32(&mut b, 0);
    b.extend_from_slice(&CSHARP_END_MARKER.to_le_bytes());
    b
}

#[test]
fn csharp_cache_decodes_tree() {
    let root = Cache::decode_csharp_cache_from_bytes(&sample_cache(3)).unwrap();
    assert_eq!(root.head.file_type, FileType::Dir);
    assert_eq!(root.head.name, "RustyVault");
    assert_eq!(root.head.time_stamp, 7);
    assert_eq!(root.rep_status, RepStatus::DirCorrect);
    assert!(root.tree_expanded);
    assert_eq!(root.tree_checked, TreeSelect::Locked);
    assert_eq!(root.dir_dats.len(), 1);
    assert_eq!(root.dir_dats[0].dat_index, 0);
    assert_eq!(root.dir_dats[0].time_stamp, 99);
    assert_eq!(root.dir_dats[0].dat_flags.bits, 16);
    assert_eq!(root.dir_dats[0].get_data(DatData::DatName), Some("MyDat".to_string()));
    assert_eq!(root.dir_dats[0].get_data(DatData::Description), None);
    assert_eq!(root.children.len(), 2);

    let file = &root.children[0];
    assert_eq!(file.head.file_type, FileType::File);
    assert_eq!(file.head.name, "a.bin");
    assert_eq!(file.head.dat_status, DatStatus::InDatCollect);
    assert_eq!(file.head.got_status, GotStatus::Got);
    assert_eq!(file.rep_status, RepStatus::Correct);
    assert_eq!(file.tail.size, Some(1234));
    assert_eq!(file.tail.crc, Some(vec![0xde, 0xad, 0xbe, 0xef]));
    assert_eq!(file.tail.to_sort_type.bits, 1);
    assert_eq!(file.tail.file_status, 1);
    let game = file.game.as_ref().unwrap();
    assert_eq!(game.get_data(GameData::Description), Some("second".to_string()));

    let archive = &root.children[1];
    assert_eq!(archive.head.file_type, FileType::SevenZip);
    assert_eq!(archive.head.dat_status, DatStatus::InToSort);
    assert_eq!(archive.head.zip_struct, ZipStructure::SevenZipSLZMA);
    assert_eq!(archive.head.zip_dat_struct, 1);
    assert_eq!(archive.tail.to_sort_type.bits, 2);
    assert_eq!(archive.tail.file_status, 0);
}

#[test]
fn csharp_cache_version_2_has_no_dat_structure_byte() {
    let root = Cache::decode_csharp_cache_from_bytes(&sample_cache(2)).unwrap();
    let archive = &root.children[1];
    assert_eq!(archive.head.zip_struct, ZipStructure::SevenZipSLZMA);
    // forced into ToSort, so no DAT structure is assumed
    assert_eq!(archive.head.zip_dat_struct, 0);
}

#[test]
fn csharp_cache_keeps_bits_when_tosort_is_already_typed() {
    let mut bytes = sample_cache(3);
    // give child 1 the ToSort type flag (bit 19) with both primary and cache set:
    // rebuild the file child with that flag
    let mut b = Vec::new();
    push_i32(&mut b, 3);
    push_u32(&mut b, 1 << 18);
    push_str(&mut b, "");
    push_str(&mut b, "");
    push_i64(&mut b, 0);
    b.push(0);
    b.push(1);
    push_i32(&mut b, 1);
    b.push(1);
    push_u32(&mut b, 1 << 19);
    push_str(&mut b, "ToSort");
    push_str(&mut b, "");
    push_i64(&mut b, 0);
    b.push(4);
    b.push(1);
    b.push(3); // to-sort type: primary and cache
    push_u32(&mut b, 0x4000_0000);
    push_u32(&mut b, 0);
    b.extend_from_slice(&CSHARP_END_MARKER.to_le_bytes());
    bytes.clear();
    bytes.extend_from_slice(&b);
    let root = Cache::decode_csharp_cache_from_bytes(&bytes).unwrap();
    assert_eq!(root.children[0].tail.to_sort_type.bits, 3);
    assert_eq!(root.children[0].tail.file_status, 0x4000_0000);
    assert_eq!(root.children[0].rep_status, RepStatus::DirInToSort);
}

#[test]
fn csharp_cache_errors() {
    assert_eq!(
        Cache::decode_csharp_cache_from_bytes(&[0u8; 11]).unwrap_err(),
        CSharpCacheError::TooShort
    );
    let mut bad_version = sample_cache(3);
    bad_version[0] = 5;
    assert_eq!(
        Cache::decode_csharp_cache_from_bytes(&bad_version).unwrap_err(),
        CSharpCacheError::NotCSharpCache
    );
    let mut no_marker = sample_cache(3);
    let n = no_marker.len();
    no_marker[n - 1] ^= 0xff;
    assert_eq!(
        Cache::decode_csharp_cache_from_bytes(&no_marker).unwrap_err(),
        CSharpCacheError::MissingEndMarker
    );
    let mut extra = sample_cache(3);
    let n = extra.len();
    let marker = extra[n - 8..].to_vec();
    extra.truncate(n - 8);
    extra.extend_from_slice(&[1, 2, 3, 4, 5, 6, 7, 8]);
    extra.extend_from_slice(&marker);
    assert_eq!(
        Cache::decode_csharp_cache_from_bytes(&extra).unwrap_err(),
        CSharpCacheError::InvalidEndMarker
    );
    let mut short_tail = sample_cache(3);
    let n = short_tail.len();
    short_tail.drain(n - 12..n - 8);
    assert_eq!(
        Cache::decode_csharp_cache_from_bytes(&short_tail).unwrap_err(),
        CSharpCacheError::TruncatedAfterRoot
    );
    let mut cut = Vec::new();
    push_i32(&mut cut, 3);
    push_u32(&mut cut, 0);
    cut.extend_from_slice(&CSHARP_END_MARKER.to_le_bytes());
    assert_eq!(
        Cache::decode_csharp_cache_from_bytes(&cut).unwrap_err(),
        CSharpCacheError::Read(CacheReadError::Truncated)
    );
}

#[test]
fn csharp_cache_node_reader_stops_at_record_end() {
    let bytes = sample_cache(3);
    let mut r = CSharpCacheReader::new(&bytes[4..]);
    let root = Cache::read_csharp_rvfile(&mut r, 3, true, false).unwrap();
    assert_eq!(root.children.len(), 2);
    assert_eq!(r.remaining(), 8);
    // read on its own, the tree keeps the older ToSort bits
    assert_eq!(root.children[0].tail.file_status, 0x4000_0001);
}
