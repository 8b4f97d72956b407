use rv_core::fix::Fix;
use rv_core::torrentzip::TorrentZipBuiltEntry;

#[test]
fn torrentzip_flags_mark_utf8_names() {
    assert_eq!(Fix::torrentzip_flags("plain.bin"), 0x0002);
    assert_eq!(Fix::torrentzip_flags("caf\u{e9}.bin"), 0x0802);
}

#[test]
fn directory_entries_get_a_slash() {
    let e = Fix::build_torrentzip_directory_entry("dir");
    assert_eq!(e.name, "dir/");
    assert_eq!(e.external_attributes, 0x10);
    assert_eq!(e.compression_method, 0);
    let f = Fix::build_torrentzip_directory_entry("dir/");
    assert_eq!(f.name, "dir/");
}

#[test]
fn compressed_entry_carries_crc_and_sizes() {
    let e = Fix::compress_torrentzip_entry("a.txt", b"123456789").unwrap();
    assert_eq!(e.crc, 0xCBF43926);
    assert_eq!(e.uncompressed_size, 9);
    assert_eq!(e.compressed_size as usize, e.compressed_data.len());
    assert_eq!(e.compression_method, 8);
    assert_eq!(e.name, "a.txt");
}

#[test]
fn empty_archive_layout() {
    let bytes = Fix::build_torrentzip_archive(&[]).unwrap();
    assert_eq!(bytes.len(), 22 + 22);
    assert_eq!(&bytes[0..4], &[0x50, 0x4B, 0x05, 0x06]);
    assert_eq!(&bytes[20..22], &[22, 0]);
    assert_eq!(&bytes[22..], b"TORRENTZIPPED-00000000");
}

fn stored_entry(name: &str, data: &[u8]) -> TorrentZipBuiltEntry {
    TorrentZipBuiltEntry {
        name: name.to_string(),
        compressed_data: data.to_vec(),
        crc: 0x11223344,
        compressed_size: data.len() as u32,
        uncompressed_size: data.len() as u32,
        flags: 2,
        compression_method: 8,
        external_attributes: 0,
    }
}

#[test]
fn archive_with_one_entry_layout() {
    let bytes = Fix::build_torrentzip_archive(&[stored_entry("ab", &[7, 7])]).unwrap();
    // local header 30 + name 2 + data 2, central header 46 + name 2, end record 22 + comment 22
    assert_eq!(bytes.len(), 34 + 48 + 44);
    assert_eq!(&bytes[0..4], &[0x50, 0x4B, 0x03, 0x04]);
    assert_eq!(&bytes[10..14], &[0x00, 0xBC, 0x98, 0x21]);
    assert_eq!(&bytes[14..18], &[0x44, 0x33, 0x22, 0x11]);
    assert_eq!(&bytes[30..34], &[b'a', b'b', 7, 7]);
    assert_eq!(&bytes[34..38], &[0x50, 0x4B, 0x01, 0x02]);
    let eocd = 34 + 48;
    assert_eq!(&bytes[eocd..eocd + 4], &[0x50, 0x4B, 0x05, 0x06]);
    assert_eq!(&bytes[eocd + 8..eocd + 12], &[1, 0, 1, 0]);
    assert_eq!(&bytes[eocd + 12..eocd + 16], &[48, 0, 0, 0]);
    assert_eq!(&bytes[eocd + 16..eocd + 20], &[34, 0, 0, 0]);
    let expected_comment = format!("TORRENTZIPPED-{:08X}", crc32fast::hash(&bytes[34..82]));
    assert_eq!(&bytes[eocd + 22..], expected_comment.as_bytes());
}

#[test]
fn metadata_applied_to_built_archive_keeps_it() {
    let built = Fix::build_torrentzip_archive(&[stored_entry("ab", &[7, 7])]).unwrap();
    let again = Fix::apply_torrentzip_metadata_bytes(built.clone()).unwrap();
    assert_eq!(again, built);
}

#[test]
fn metadata_normalizes_headers_and_comment() {
    let mut built = Fix::build_torrentzip_archive(&[stored_entry("ab", &[7, 7])]).unwrap();
    built[6] = 0x08; // flags of the local header
    built[10] = 0x99; // time of the local header
    built.extend_from_slice(b"junk");
    let eocd = 34 + 48;
    built[eocd + 20] = 26;
    let fixed = Fix::apply_torrentzip_metadata_bytes(built).unwrap();
    let clean = Fix::build_torrentzip_archive(&[stored_entry("ab", &[7, 7])]).unwrap();
    assert_eq!(fixed, clean);
}

#[test]
fn metadata_needs_end_record() {
    assert!(Fix::apply_torrentzip_metadata_bytes(vec![1, 2, 3]).is_none());
    let mut bad = Fix::build_torrentzip_archive(&[]).unwrap();
    bad[16] = 200; // central directory offset past the end
    assert!(Fix::apply_torrentzip_metadata_bytes(bad).is_none());
}

#[test]
fn raw_entry_is_found_by_name() {
    let built = Fix::build_torrentzip_archive(&[
        stored_entry("ab", &[7, 7]),
        stored_entry("cd", &[1, 2, 3]),
        Fix::build_torrentzip_directory_entry("dir"),
    ])
    .unwrap();
    let e = Fix::read_raw_zip_entry_bytes(&built, "cd").unwrap();
    assert_eq!(e.compressed_data, vec![1, 2, 3]);
    assert_eq!(e.crc, 0x11223344);
    assert_eq!(e.compressed_size, 3);
    assert_eq!(e.uncompressed_size, 3);
    assert!(Fix::read_raw_zip_entry_bytes(&built, "zz").is_none());
    assert!(Fix::read_raw_zip_entry_bytes(&built, "dir/").is_none());
    assert!(Fix::read_raw_zip_entry_bytes(&[0u8; 10], "ab").is_none());
}
