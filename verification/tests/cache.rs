use rv_core::cache::CacheLayout;
use rv_core::cache::{CSharpCacheReader, Cache, CacheReadError};
use rv_core::rv_dat::DatData;
use rv_core::rv_game::GameData;

fn header(version: u32, encoding: u8) -> Vec<u8> {
    let mut b = b"RVDBIN\0\0".to_vec();
    b.extend_from_slice(&version.to_le_bytes());
    b.push(encoding);
    b
}

#[test]
fn cache_headers() {
    assert_eq!(Cache::parse_cache_header(&header(1, 2)), Some((13, 1, 2)));
    let mut v2 = header(2, 1);
    assert_eq!(Cache::parse_cache_header(&v2), None);
    v2.push(1);
    v2.extend_from_slice(&1234u64.to_le_bytes());
    v2.extend_from_slice(&0xDEADBEEFu32.to_le_bytes());
    assert_eq!(Cache::parse_cache_header(&v2), Some((26, 2, 1)));
    assert_eq!(Cache::parse_cache_v2_meta(&v2), Some((1, 1234, 0xDEADBEEF)));
    assert_eq!(Cache::parse_cache_v2_meta(&header(1, 2)), None);
    let mut bad = header(1, 2);
    bad[0] = b'X';
    assert_eq!(Cache::parse_cache_header(&bad), None);
}

#[test]
fn stored_codes() {
    assert_eq!(Cache::game_data_from_u8(11), Some(GameData::Id));
    assert_eq!(Cache::game_data_from_u8(23), Some(GameData::Category));
    assert_eq!(Cache::game_data_from_u8(0), None);
    assert_eq!(Cache::dat_data_from_u8(0), Some(DatData::Id));
    assert_eq!(Cache::dat_data_from_u8(18), Some(DatData::Compression));
    assert_eq!(Cache::dat_data_from_u8(19), None);
}

#[test]
fn writer_runs_first_waited_and_last_unwaited_jobs() {
    assert_eq!(Cache::writer_plan(&[false]), vec![0]);
    assert_eq!(Cache::writer_plan(&[false, false, true, false, true, false]), vec![0, 2, 4, 5]);
    assert_eq!(Cache::writer_plan(&[true, true, true]), vec![0, 1, 2]);
}

#[test]
fn csharp_reader_primitives() {
    let mut bytes = vec![7u8, 1];
    bytes.extend_from_slice(&0x01020304u32.to_le_bytes());
    bytes.extend_from_slice(&(-2i32).to_le_bytes());
    bytes.extend_from_slice(&(-3i64).to_le_bytes());
    bytes.extend_from_slice(&[0xAC, 0x02]);
    bytes.extend_from_slice(&[3, b'a', b'b', b'c']);
    bytes.extend_from_slice(&[2, 9, 8]);
    let mut r = CSharpCacheReader::new(&bytes);
    assert_eq!(r.read_u8(), Ok(7));
    assert_eq!(r.read_bool(), Ok(true));
    assert_eq!(r.read_u32_le(), Ok(0x01020304));
    assert_eq!(r.read_i32_le(), Ok(-2));
    assert_eq!(r.read_i64_le(), Ok(-3));
    assert_eq!(r.read_7bit_encoded_i32(), Ok(300));
    assert_eq!(r.read_dotnet_string(), Ok("abc".to_string()));
    assert_eq!(r.read_byte_array_u8len(), Ok(vec![9, 8]));
    assert_eq!(r.remaining(), 0);
    assert_eq!(r.read_u8(), Err(CacheReadError::Truncated));
}

#[test]
fn csharp_reader_rejects_overlong_varint() {
    let bytes = [0xFFu8, 0xFF, 0xFF, 0xFF, 0xFF, 0x01];
    let mut r = CSharpCacheReader::new(&bytes);
    assert_eq!(r.read_7bit_encoded_i32(), Err(CacheReadError::InvalidVarInt));
}

#[test]
fn cache_paths_default_when_unset() {
    let (c, b, t) = Cache::cache_paths("   ");
    assert_eq!(c, "RustyVault3_3.Cache");
    assert_eq!(b, "RustyVault3_3.CacheBackup");
    assert_eq!(t, "RustyVault3_3.Cache_tmp");
    assert_eq!(Cache::cache_path(""), "RustyVault3_3.Cache");
}

#[test]
fn cache_paths_in_a_directory() {
    let (c, b, t) = Cache::cache_paths(" /data/vault/ ");
    assert_eq!(c, "/data/vault/RustyVault3_3.Cache");
    assert_eq!(b, "/data/vault/RustyVault3_3.CacheBackup");
    assert_eq!(t, "/data/vault/RustyVault3_3.Cache_tmp");
}

#[test]
fn cache_paths_for_a_named_file() {
    let (c, b, t) = Cache::cache_paths("/data/my.cache");
    assert_eq!(c, "/data/my.cache");
    assert_eq!(b, "/data/my.cacheBackup");
    assert_eq!(t, "/data/my.cache_tmp");
    let (c, b, t) = Cache::cache_paths("plain");
    assert_eq!(c, "plain");
    assert_eq!(b, "plainBackup");
    assert_eq!(t, "plain_tmp");
}

#[test]
fn cache_paths_add_a_file_name_to_a_parent_reference() {
    let (c, b, _) = Cache::cache_paths("..");
    assert_eq!(c, "../RustyVault3_3.Cache");
    assert_eq!(b, "../RustyVault3_3.CacheBackup");
}


fn native_header(version: u32, encoding: u8) -> Vec<u8> {
    let mut b = b"RVDBIN\0\0".to_vec();
    b.extend_from_slice(&version.to_le_bytes());
    b.push(encoding);
    b
}

#[test]
fn cache_layout_follows_the_header() {
    assert_eq!(Cache::cache_layout(b"not a cache"), CacheLayout::Headerless);
    assert_eq!(Cache::cache_layout(&native_header(3, 1)), CacheLayout::UnsupportedVersion(3));
    assert_eq!(Cache::cache_layout(&native_header(1, 9)), CacheLayout::UnsupportedEncoding(9));
    let mut old = native_header(1, 2);
    old.extend_from_slice(&[7, 7, 7]);
    assert_eq!(Cache::cache_layout(&old), CacheLayout::Payload { start: 13, encoding: 2 });
    let mut v2 = native_header(2, 1);
    v2.push(1);
    v2.extend_from_slice(&3u64.to_le_bytes());
    v2.extend_from_slice(&0u32.to_le_bytes());
    let mut full = v2.clone();
    full.extend_from_slice(&[1, 2, 3, 4]);
    assert_eq!(Cache::cache_layout(&full), CacheLayout::V2Payload { start: 26, end: 29, flags: 1, encoding: 1 });
    let mut short = v2.clone();
    short.extend_from_slice(&[1, 2]);
    assert_eq!(Cache::cache_layout(&short), CacheLayout::TruncatedPayload);
    let mut huge = native_header(2, 1);
    huge.push(0);
    huge.extend_from_slice(&u64::MAX.to_le_bytes());
    huge.extend_from_slice(&0u32.to_le_bytes());
    assert_eq!(Cache::cache_layout(&huge), CacheLayout::InvalidLength);
}

#[test]
fn dotnet_strings_decode_utf8_exactly_and_replace_bad_bytes() {
    let name = "Pokémon – 日本";
    let mut bytes = vec![name.len() as u8];
    bytes.extend_from_slice(name.as_bytes());
    bytes.extend_from_slice(&[3, b'a', 0xFF, b'b']);
    let mut r = CSharpCacheReader::new(&bytes);
    assert_eq!(r.read_dotnet_string(), Ok(name.to_string()));
    assert_eq!(r.read_dotnet_string(), Ok("a\u{FFFD}b".to_string()));
    assert_eq!(r.remaining(), 0);
}
