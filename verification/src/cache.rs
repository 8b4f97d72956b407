//! Reading of the binary cache formats: a cursor over the bytes of a RomVault-style
//! style cache (little-endian integers, 7-bit encoded lengths, length-prefixed
//! strings and byte arrays), the header of the native cache file, the codes of
//! stored metadata fields, and the order in which queued cache writes run.

use vstd::prelude::*;
use vstd::utf8::{valid_utf8, decode_utf8, encode_utf8};
use vstd::string::StringExecFns;
use crate::text::{str_bytes, str_trim, trim_chars};
use crate::rv_dat::DatData;
use crate::rv_game::GameData;

verus! {

/// Errors of the cache byte cursor.
#[derive(Debug, Clone, Copy, PartialEq, Eq, Structural)]
pub enum CacheReadError {
    /// The requested length overflows the position.
    Overflow,
    /// The bytes end before the value does.
    Truncated,
    /// A 7-bit encoded integer runs over five bytes.
    InvalidVarInt,
}

/// Little-endian unsigned value of `n` bytes at `off`.
pub open spec fn le_value(b: Seq<u8>, off: int, n: nat) -> nat
    decreases n,
{
    if n == 0 {
        0
    } else {
        (b[off] as nat) + 256 * le_value(b, off + 1, (n - 1) as nat)
    }
}

/// Two's complement reading of an unsigned value of `bits` bits.
pub open spec fn signed_of(v: nat, bits: nat) -> int {
    if v < vstd::arithmetic::power2::pow2((bits - 1) as nat) {
        v as int
    } else {
        v - vstd::arithmetic::power2::pow2(bits)
    }
}

/// 128 to the power `k`.
pub open spec fn pow128(k: nat) -> nat
    decreases k,
{
    if k == 0 {
        1
    } else {
        128 * pow128((k - 1) as nat)
    }
}

/// Sum of the low seven bits of the first `n` bytes from `off`, each group
/// weighted by 128 to the power of its position.
pub open spec fn varint_sum(b: Seq<u8>, off: int, n: nat) -> nat
    decreases n,
{
    if n == 0 {
        0
    } else {
        varint_sum(b, off, (n - 1) as nat) + (b[off + n - 1] % 128) as nat * pow128((n - 1) as nat)
    }
}

/// Outcome of reading a 7-bit encoded integer from `off`, having read `k`
/// bytes so far: the value (modulo 2^32) and the bytes read, or the error and
/// the bytes read before it.
pub open spec fn varint_from(b: Seq<u8>, off: int, k: nat) -> (Result<u32, CacheReadError>, nat)
    decreases 5 - k,
{
    if k >= 5 {
        (Err(CacheReadError::InvalidVarInt), k)
    } else if off + k >= b.len() {
        (Err(CacheReadError::Truncated), k)
    } else if b[off + k] < 128 {
        (Ok((varint_sum(b, off, k + 1) % 4294967296) as u32), k + 1)
    } else {
        varint_from(b, off, k + 1)
    }
}

/// The cache file and its operations.
pub struct Cache;

/// The eight magic bytes "RVDBIN" followed by two zero bytes.
pub open spec fn cache_magic() -> Seq<u8> {
    seq![0x52u8, 0x56u8, 0x44u8, 0x42u8, 0x49u8, 0x4eu8, 0x00u8, 0x00u8]
}

/// Header of a native cache file: (payload offset, version, encoding).
/// Version 2 headers carry flags, payload length and CRC and are 26 bytes long;
/// other versions are 13 bytes long.
pub open spec fn cache_header_spec(b: Seq<u8>) -> Option<(usize, u32, u8)> {
    if b.len() < 13 || b.subrange(0, 8) != cache_magic() {
        None
    } else {
        let version = le_value(b, 8, 4) as u32;
        if version == 2 {
            if b.len() < 26 {
                None
            } else {
                Some((26usize, version, b[12]))
            }
        } else {
            Some((13usize, version, b[12]))
        }
    }
}

/// Metadata of a version 2 cache file: (flags, payload length, payload CRC32).
pub open spec fn cache_v2_meta_spec(b: Seq<u8>) -> Option<(u8, u64, u32)> {
    if b.len() < 26 || b.subrange(0, 8) != cache_magic() || le_value(b, 8, 4) != 2 {
        None
    } else {
        Some((b[13], le_value(b, 14, 8) as u64, le_value(b, 22, 4) as u32))
    }
}

/// The cache version this program writes; newer versions are refused.
pub const CACHE_VERSION: u32 = 2;

/// Payload encoding: variable-length integers.
pub const CACHE_ENCODING_VARINT: u8 = 1;

/// Payload encoding: fixed-length integers.
pub const CACHE_ENCODING_FIXED: u8 = 2;

/// How the bytes of a cache file are to be decoded.
#[derive(Debug, Clone, Copy, PartialEq, Eq, Structural)]
pub enum CacheLayout {
    /// No native header: the decoders are tried in turn on the whole file.
    Headerless,
    /// A version 2 payload in `start..end`, with its flags and encoding.
    V2Payload { start: usize, end: usize, flags: u8, encoding: u8 },
    /// An older payload from `start` to the end of the file.
    Payload { start: usize, encoding: u8 },
    /// The header names a version newer than this program reads.
    UnsupportedVersion(u32),
    /// The header names an unknown payload encoding.
    UnsupportedEncoding(u8),
    /// A version 2 header without readable metadata.
    InvalidMeta,
    /// The version 2 payload length overflows the address space.
    InvalidLength,
    /// The version 2 payload runs past the end of the file.
    TruncatedPayload,
}

/// How a cache file of these bytes is decoded: a headerless file is tried
/// with each decoder; a newer version or an unknown encoding is refused; a
/// version 2 payload must fit in the file; an older payload runs to the end.
pub open spec fn cache_layout_spec(b: Seq<u8>) -> CacheLayout {
    match cache_header_spec(b) {
        None => CacheLayout::Headerless,
        Some((offset, version, encoding)) => if version > CACHE_VERSION {
            CacheLayout::UnsupportedVersion(version)
        } else if encoding != CACHE_ENCODING_VARINT && encoding != CACHE_ENCODING_FIXED {
            CacheLayout::UnsupportedEncoding(encoding)
        } else if version == CACHE_VERSION {
            match cache_v2_meta_spec(b) {
                None => CacheLayout::InvalidMeta,
                Some((flags, len, _crc)) => if offset + len > usize::MAX {
                    CacheLayout::InvalidLength
                } else if offset + len > b.len() {
                    CacheLayout::TruncatedPayload
                } else {
                    CacheLayout::V2Payload { start: offset, end: (offset + len) as usize, flags, encoding }
                },
            }
        } else {
            CacheLayout::Payload { start: offset, encoding }
        },
    }
}

pub(crate) fn le_u32_at(b: &[u8], off: usize) -> (r: u32)
    requires
        off + 4 <= b@.len(),
    ensures
        r == le_value(b@, off as int, 4),
{
    proof {
        reveal_with_fuel(le_value, 5);
    }
    (b[off] as u32) + 256 * ((b[off + 1] as u32) + 256 * ((b[off + 2] as u32) + 256 * (b[off + 3] as u32)))
}

pub(crate) fn le_u64_at(b: &[u8], off: usize) -> (r: u64)
    requires
        off + 8 <= b@.len(),
    ensures
        r == le_value(b@, off as int, 8),
{
    proof {
        reveal_with_fuel(le_value, 9);
    }
    (b[off] as u64) + 256 * ((b[off + 1] as u64) + 256 * ((b[off + 2] as u64) + 256 * ((b[off + 3] as u64)
        + 256 * ((b[off + 4] as u64) + 256 * ((b[off + 5] as u64) + 256 * ((b[off + 6] as u64) + 256 * (
    b[off + 7] as u64)))))))
}

fn has_cache_magic(b: &[u8]) -> (r: bool)
    requires
        b@.len() >= 8,
    ensures
        r == (b@.subrange(0, 8) == cache_magic()),
{
    let r = b[0] == 0x52 && b[1] == 0x56 && b[2] == 0x44 && b[3] == 0x42 && b[4] == 0x49 && b[5] == 0x4e
        && b[6] == 0 && b[7] == 0;
    if r {
        assert(b@.subrange(0, 8) =~= cache_magic());
    } else {
        assert(b@.subrange(0, 8) != cache_magic()) by {
            if b@.subrange(0, 8) == cache_magic() {
                assert(b@.subrange(0, 8)[0] == b@[0] && b@.subrange(0, 8)[1] == b@[1]
                    && b@.subrange(0, 8)[2] == b@[2] && b@.subrange(0, 8)[3] == b@[3]);
                assert(b@.subrange(0, 8)[4] == b@[4] && b@.subrange(0, 8)[5] == b@[5]
                    && b@.subrange(0, 8)[6] == b@[6] && b@.subrange(0, 8)[7] == b@[7]);
            }
        }
    }
    r
}

impl Cache {
    /// Parses the header of a native cache file.
    pub fn parse_cache_header(bytes: &[u8]) -> (res: Option<(usize, u32, u8)>)
        ensures
            res == cache_header_spec(bytes@),
    {
        if bytes.len() < 13 {
            return None;
        }
        if !has_cache_magic(bytes) {
            return None;
        }
        let version = le_u32_at(bytes, 8);
        let encoding = bytes[12];
        if version == 2 {
            if bytes.len() < 26 {
                return None;
            }
            Some((26, version, encoding))
        } else {
            Some((13, version, encoding))
        }
    }

    /// How a cache file of these bytes is decoded (see [`cache_layout_spec`]).
    pub fn cache_layout(bytes: &[u8]) -> (r: CacheLayout)
        ensures
            r == cache_layout_spec(bytes@),
    {
        match Self::parse_cache_header(bytes) {
            None => CacheLayout::Headerless,
            Some((offset, version, encoding)) => {
                if version > CACHE_VERSION {
                    CacheLayout::UnsupportedVersion(version)
                } else if encoding != CACHE_ENCODING_VARINT && encoding != CACHE_ENCODING_FIXED {
                    CacheLayout::UnsupportedEncoding(encoding)
                } else if version == CACHE_VERSION {
                    match Self::parse_cache_v2_meta(bytes) {
                        None => CacheLayout::InvalidMeta,
                        Some((flags, len, _crc)) => {
                            if len > (usize::MAX - offset) as u64 {
                                CacheLayout::InvalidLength
                            } else {
                                let end = offset + len as usize;
                                if end > bytes.len() {
                                    CacheLayout::TruncatedPayload
                                } else {
                                    CacheLayout::V2Payload { start: offset, end, flags, encoding }
                                }
                            }
                        },
                    }
                } else {
                    CacheLayout::Payload { start: offset, encoding }
                }
            },
        }
    }

    /// Parses the flags, payload length and payload CRC32 of a version 2 cache file.
    pub fn parse_cache_v2_meta(bytes: &[u8]) -> (res: Option<(u8, u64, u32)>)
        ensures
            res == cache_v2_meta_spec(bytes@),
    {
        if bytes.len() < 26 {
            return None;
        }
        if !has_cache_magic(bytes) {
            return None;
        }
        let version = le_u32_at(bytes, 8);
        if version != 2 {
            return None;
        }
        Some((bytes[13], le_u64_at(bytes, 14), le_u32_at(bytes, 22)))
    }

    /// The game field stored under code `id`.
    pub fn game_data_from_u8(id: u8) -> (res: Option<GameData>)
        ensures
            res == game_data_code(id),
    {
        match id {
            11 => Some(GameData::Id),
            1 => Some(GameData::Description),
            2 => Some(GameData::RomOf),
            3 => Some(GameData::IsBios),
            4 => Some(GameData::Sourcefile),
            5 => Some(GameData::CloneOf),
            24 => Some(GameData::CloneOfId),
            6 => Some(GameData::SampleOf),
            7 => Some(GameData::Board),
            8 => Some(GameData::Year),
            9 => Some(GameData::Manufacturer),
            10 => Some(GameData::EmuArc),
            12 => Some(GameData::Publisher),
            13 => Some(GameData::Developer),
            14 => Some(GameData::Genre),
            15 => Some(GameData::SubGenre),
            16 => Some(GameData::Ratings),
            17 => Some(GameData::Score),
            18 => Some(GameData::Players),
            19 => Some(GameData::Enabled),
            20 => Some(GameData::CRC),
            21 => Some(GameData::RelatedTo),
            22 => Some(GameData::Source),
            23 => Some(GameData::Category),
            _ => None,
        }
    }

    /// The DAT field stored under code `id` (0 to 18, in declaration order).
    pub fn dat_data_from_u8(id: u8) -> (res: Option<DatData>)
        ensures
            res == dat_data_code(id),
    {
        match id {
            0 => Some(DatData::Id),
            1 => Some(DatData::DatName),
            2 => Some(DatData::DatRootFullName),
            3 => Some(DatData::RootDir),
            4 => Some(DatData::Description),
            5 => Some(DatData::Category),
            6 => Some(DatData::Version),
            7 => Some(DatData::Date),
            8 => Some(DatData::Author),
            9 => Some(DatData::Email),
            10 => Some(DatData::HomePage),
            11 => Some(DatData::Url),
            12 => Some(DatData::FileType),
            13 => Some(DatData::MergeType),
            14 => Some(DatData::SuperDat),
            15 => Some(DatData::DirSetup),
            16 => Some(DatData::Header),
            17 => Some(DatData::SubDirType),
            18 => Some(DatData::Compression),
            _ => None,
        }
    }

    /// Order in which a writer runs a batch of queued cache writes: `queue[0]`
    /// is the job it woke up for, the rest were waiting behind it (true = a
    /// caller waits for that job's outcome). The first job runs, then every
    /// waited-for job in queue order, then only the last of the others.
    pub fn writer_plan(queue: &[bool]) -> (res: Vec<usize>)
        requires
            queue@.len() >= 1,
        ensures
            res@ == writer_plan_spec(queue@),
    {
        let mut out: Vec<usize> = Vec::new();
        out.push(0);
        let mut last: Option<usize> = None;
        let mut i: usize = 1;
        while i < queue.len()
            invariant
                1 <= i <= queue@.len(),
                out@ == seq![0usize] + waited_jobs(queue@, i as int),
                last == last_unwaited(queue@, i as int),
            decreases queue@.len() - i,
        {
            if queue[i] {
                out.push(i);
            } else {
                last = Some(i);
            }
            i = i + 1;
        }
        if let Some(l) = last {
            out.push(l);
        }
        out
    }
}

/// Indices `1..n` of the jobs someone waits for, in order.
pub open spec fn waited_jobs(q: Seq<bool>, n: int) -> Seq<usize>
    decreases n,
{
    if n <= 1 {
        Seq::empty()
    } else if q[n - 1] {
        waited_jobs(q, n - 1).push((n - 1) as usize)
    } else {
        waited_jobs(q, n - 1)
    }
}

/// The last of the jobs `1..n` that nobody waits for.
pub open spec fn last_unwaited(q: Seq<bool>, n: int) -> Option<usize>
    decreases n,
{
    if n <= 1 {
        None
    } else if !q[n - 1] {
        Some((n - 1) as usize)
    } else {
        last_unwaited(q, n - 1)
    }
}

/// The jobs a writer runs for a batch, in order (see [`Cache::writer_plan`]).
pub open spec fn writer_plan_spec(q: Seq<bool>) -> Seq<usize> {
    let base = seq![0usize] + waited_jobs(q, q.len() as int);
    match last_unwaited(q, q.len() as int) {
        Some(l) => base.push(l),
        None => base,
    }
}

/// The game field stored under each code.
pub open spec fn game_data_code(id: u8) -> Option<GameData> {
    if id == 11 { Some(GameData::Id) }
    else if id == 1 { Some(GameData::Description) }
    else if id == 2 { Some(GameData::RomOf) }
    else if id == 3 { Some(GameData::IsBios) }
    else if id == 4 { Some(GameData::Sourcefile) }
    else if id == 5 { Some(GameData::CloneOf) }
    else if id == 24 { Some(GameData::CloneOfId) }
    else if id == 6 { Some(GameData::SampleOf) }
    else if id == 7 { Some(GameData::Board) }
    else if id == 8 { Some(GameData::Year) }
    else if id == 9 { Some(GameData::Manufacturer) }
    else if id == 10 { Some(GameData::EmuArc) }
    else if id == 12 { Some(GameData::Publisher) }
    else if id == 13 { Some(GameData::Developer) }
    else if id == 14 { Some(GameData::Genre) }
    else if id == 15 { Some(GameData::SubGenre) }
    else if id == 16 { Some(GameData::Ratings) }
    else if id == 17 { Some(GameData::Score) }
    else if id == 18 { Some(GameData::Players) }
    else if id == 19 { Some(GameData::Enabled) }
    else if id == 20 { Some(GameData::CRC) }
    else if id == 21 { Some(GameData::RelatedTo) }
    else if id == 22 { Some(GameData::Source) }
    else if id == 23 { Some(GameData::Category) }
    else { None }
}

/// The DAT field stored under each code.
pub open spec fn dat_data_code(id: u8) -> Option<DatData> {
    if id == 0 { Some(DatData::Id) }
    else if id == 1 { Some(DatData::DatName) }
    else if id == 2 { Some(DatData::DatRootFullName) }
    else if id == 3 { Some(DatData::RootDir) }
    else if id == 4 { Some(DatData::Description) }
    else if id == 5 { Some(DatData::Category) }
    else if id == 6 { Some(DatData::Version) }
    else if id == 7 { Some(DatData::Date) }
    else if id == 8 { Some(DatData::Author) }
    else if id == 9 { Some(DatData::Email) }
    else if id == 10 { Some(DatData::HomePage) }
    else if id == 11 { Some(DatData::Url) }
    else if id == 12 { Some(DatData::FileType) }
    else if id == 13 { Some(DatData::MergeType) }
    else if id == 14 { Some(DatData::SuperDat) }
    else if id == 15 { Some(DatData::DirSetup) }
    else if id == 16 { Some(DatData::Header) }
    else if id == 17 { Some(DatData::SubDirType) }
    else if id == 18 { Some(DatData::Compression) }
    else { None }
}

/// A read cursor over the bytes of a cache.
pub struct CSharpCacheReader<'a> {
    bytes: &'a [u8],
    pos: usize,
}

proof fn lemma_or_shift(count: u32, x: u32, k: u32)
    requires
        x < 128,
        k < 5,
        k == 0 ==> count == 0,
        k == 1 ==> count < 128,
        k == 2 ==> count < 16384,
        k == 3 ==> count < 2097152,
        k == 4 ==> count < 268435456,
    ensures
        k == 0 ==> count | (x << 0u32) == x,
        k == 1 ==> count | (x << 7u32) == count + x * 128,
        k == 2 ==> count | (x << 14u32) == count + x * 16384,
        k == 3 ==> count | (x << 21u32) == count + x * 2097152,
        k == 4 ==> count | (x << 28u32) == count + (x % 16) * 268435456,
{
    if k == 0 {
        assert(count | (x << 0u32) == x) by (bit_vector)
            requires
                count == 0,
                x < 128,
        ;
    } else if k == 1 {
        assert(count | (x << 7u32) == count + x * 128) by (bit_vector)
            requires
                count < 128,
                x < 128,
        ;
    } else if k == 2 {
        assert(count | (x << 14u32) == count + x * 16384) by (bit_vector)
            requires
                count < 16384,
                x < 128,
        ;
    } else if k == 3 {
        assert(count | (x << 21u32) == count + x * 2097152) by (bit_vector)
            requires
                count < 2097152,
                x < 128,
        ;
    } else {
        assert(count | (x << 28u32) == count + (x % 16) * 268435456) by (bit_vector)
            requires
                count < 268435456,
                x < 128,
        ;
    }
}

proof fn lemma_varint_sum_bound(b: Seq<u8>, off: int, n: nat)
    ensures
        varint_sum(b, off, n) < pow128(n),
    decreases n,
{
    if n > 0 {
        lemma_varint_sum_bound(b, off, (n - 1) as nat);
        let x = (b[off + n - 1] % 128) as nat;
        assert(x * pow128((n - 1) as nat) <= 127 * pow128((n - 1) as nat)) by (nonlinear_arith)
            requires
                x <= 127,
        ;
    }
}

/// Text decoded from bytes with invalid sequences replaced by U+FFFD.
pub uninterp spec fn utf8_lossy_chars(b: Seq<u8>) -> Seq<char>;

/// Decodes bytes as UTF-8, replacing invalid sequences (wraps
/// `String::from_utf8_lossy`). Claims that the text is a function of the bytes
/// and that valid UTF-8 decodes to its characters.
#[verifier::external_body]
pub(crate) fn string_from_utf8_lossy(b: &[u8]) -> (res: String)
    ensures
        res@ == utf8_lossy_chars(b@),
        valid_utf8(b@) ==> res@ == decode_utf8(b@),
{
    String::from_utf8_lossy(b).into_owned()
}


/// What `Path::join` gives for a base path and a tail.
pub uninterp spec fn path_joined(base: Seq<char>, tail: Seq<char>) -> Seq<char>;

/// What `Path::file_name` gives for a path.
pub uninterp spec fn path_file_name(p: Seq<char>) -> Option<Seq<char>>;

/// What `Path::parent` gives for a path.
pub uninterp spec fn path_parent(p: Seq<char>) -> Option<Seq<char>>;

/// `tail` joined onto `base` (wraps `std::path::Path::join`). Claims only
/// that the result is a function of the two paths.
#[verifier::external_body]
fn path_join(base: &str, tail: &str) -> (res: String)
    ensures
        res@ == path_joined(base@, tail@),
{
    std::path::Path::new(base).join(tail).to_string_lossy().into_owned()
}

/// The last component of a path, if it is a name (wraps
/// `std::path::Path::file_name`). Claims only that the result is a function
/// of the path.
#[verifier::external_body]
fn file_name_of(p: &str) -> (res: Option<String>)
    ensures
        res matches Some(x) ==> path_file_name(p@) == Some(x@),
        res is None ==> path_file_name(p@) is None,
{
    match std::path::Path::new(p).file_name() {
        Some(name) => Some(name.to_string_lossy().into_owned()),
        None => None,
    }
}

/// A path without its last component, if it has one (wraps
/// `std::path::Path::parent`). Claims only that the result is a function of
/// the path.
#[verifier::external_body]
fn parent_of(p: &str) -> (res: Option<String>)
    ensures
        res matches Some(x) ==> path_parent(p@) == Some(x@),
        res is None ==> path_parent(p@) is None,
{
    match std::path::Path::new(p).parent() {
        Some(parent) => Some(parent.to_string_lossy().into_owned()),
        None => None,
    }
}

/// True when the text's last byte is a `/` or a `\`.
pub open spec fn ends_with_separator(s: Seq<char>) -> bool {
    let b = encode_utf8(s);
    b.len() > 0 && (b.last() == 0x2fu8 || b.last() == 0x5cu8)
}

/// The default name of the cache file, and of its backup and temporary copies.
pub open spec fn default_cache_names() -> (Seq<char>, Seq<char>, Seq<char>) {
    ("RustyVault3_3.Cache"@, "RustyVault3_3.CacheBackup"@, "RustyVault3_3.Cache_tmp"@)
}

/// The cache file, its backup and its temporary file for a configured cache
/// location (trimmed): the default names when none is configured; else the
/// configured path, with the default file name added when it ends with a
/// separator or has no file name, and the backup and temporary files beside
/// it, named after it with "Backup" and "_tmp" appended.
pub open spec fn cache_paths_spec(configured: Seq<char>) -> (Seq<char>, Seq<char>, Seq<char>) {
    let raw = trim_chars(configured);
    let cache_name = "RustyVault3_3.Cache"@;
    if raw.len() == 0 {
        default_cache_names()
    } else {
        let first = if ends_with_separator(raw) {
            path_joined(raw, cache_name)
        } else {
            raw
        };
        let path = if path_file_name(first) is None {
            path_joined(first, cache_name)
        } else {
            first
        };
        let parent = match path_parent(path) {
            Some(x) => x,
            None => Seq::empty(),
        };
        let name = match path_file_name(path) {
            Some(x) => x,
            None => cache_name,
        };
        (path, path_joined(parent, name + "Backup"@), path_joined(parent, name + "_tmp"@))
    }
}

impl Cache {
    /// The cache file, its backup and its temporary file for the configured
    /// cache location.
    pub fn cache_paths(configured: &str) -> (res: (String, String, String))
        ensures
            (res.0@, res.1@, res.2@) == cache_paths_spec(configured@),
    {
        let raw = str_trim(configured);
        let cache_name = "RustyVault3_3.Cache";
        proof {
            reveal_strlit("RustyVault3_3.Cache");
            reveal_strlit("RustyVault3_3.CacheBackup");
            reveal_strlit("RustyVault3_3.Cache_tmp");
        }
        if raw.is_empty() {
            return (
                String::from_str("RustyVault3_3.Cache"),
                String::from_str("RustyVault3_3.CacheBackup"),
                String::from_str("RustyVault3_3.Cache_tmp"),
            );
        }
        let bytes = str_bytes(raw);
        let n = bytes.len();
        let ends_with_sep = n > 0 && (bytes[n - 1] == 0x2f || bytes[n - 1] == 0x5c);
        let mut path = if ends_with_sep {
            path_join(raw, cache_name)
        } else {
            String::from_str(raw)
        };
        if file_name_of(path.as_str()).is_none() {
            path = path_join(path.as_str(), cache_name);
        }
        let parent = match parent_of(path.as_str()) {
            Some(x) => x,
            None => String::new(),
        };
        let name = match file_name_of(path.as_str()) {
            Some(x) => x,
            None => String::from_str(cache_name),
        };
        let backup_name = name.clone().concat("Backup");
        let tmp_name = name.concat("_tmp");
        let backup = path_join(parent.as_str(), backup_name.as_str());
        let tmp = path_join(parent.as_str(), tmp_name.as_str());
        (path, backup, tmp)
    }

    /// The cache file for the configured cache location.
    pub fn cache_path(configured: &str) -> (res: String)
        ensures
            res@ == cache_paths_spec(configured@).0,
    {
        Self::cache_paths(configured).0
    }
}

impl<'a> CSharpCacheReader<'a> {
    pub closed spec fn data(&self) -> Seq<u8> {
        self.bytes@
    }

    pub closed spec fn position(&self) -> int {
        self.pos as int
    }

    /// The position never passes the end of the bytes.
    pub open spec fn valid(&self) -> bool {
        0 <= self.position() <= self.data().len()
    }

    pub fn new(bytes: &'a [u8]) -> (r: Self)
        ensures
            r.data() == bytes@,
            r.position() == 0,
    {
        CSharpCacheReader { bytes, pos: 0 }
    }

    pub fn remaining(&self) -> (r: usize)
        requires
            self.valid(),
        ensures
            r == self.data().len() - self.position(),
    {
        if self.pos <= self.bytes.len() {
            self.bytes.len() - self.pos
        } else {
            0
        }
    }

    pub fn read_exact(&mut self, n: usize) -> (res: Result<&'a [u8], CacheReadError>)
        requires
            old(self).valid(),
        ensures
            final(self).valid(),
            final(self).data() == old(self).data(),
            res is Ok <==> old(self).position() + n <= old(self).data().len(),
            res matches Ok(s) ==> s@ == old(self).data().subrange(
                old(self).position(),
                old(self).position() + n,
            ) && final(self).position() == old(self).position() + n,
            res is Err ==> res == Err::<&'a [u8], CacheReadError>(CacheReadError::Truncated)
                && final(self).position() == old(self).position(),
    {
        if n > self.bytes.len() - self.pos {
            return Err(CacheReadError::Truncated);
        }
        let end = self.pos + n;
        let s = &self.bytes[self.pos..end];
        self.pos = end;
        Ok(s)
    }

    pub fn read_u8(&mut self) -> (res: Result<u8, CacheReadError>)
        requires
            old(self).valid(),
        ensures
            final(self).valid(),
            final(self).data() == old(self).data(),
            res is Ok <==> old(self).position() < old(self).data().len(),
            res matches Ok(v) ==> v == old(self).data()[old(self).position()] && final(self).position()
                == old(self).position() + 1,
            res is Err ==> res == Err::<u8, CacheReadError>(CacheReadError::Truncated)
                && final(self).position() == old(self).position(),
    {
        let s = self.read_exact(1)?;
        Ok(s[0])
    }

    pub fn read_bool(&mut self) -> (res: Result<bool, CacheReadError>)
        requires
            old(self).valid(),
        ensures
            final(self).valid(),
            final(self).data() == old(self).data(),
            res is Ok <==> old(self).position() < old(self).data().len(),
            res matches Ok(v) ==> v == (old(self).data()[old(self).position()] != 0)
                && final(self).position() == old(self).position() + 1,
            res is Err ==> final(self).position() == old(self).position() && res == Err::<bool, CacheReadError>(
                CacheReadError::Truncated,
            ),
    {
        let b = self.read_u8()?;
        Ok(b != 0)
    }

    pub fn read_u32_le(&mut self) -> (res: Result<u32, CacheReadError>)
        requires
            old(self).valid(),
        ensures
            final(self).valid(),
            final(self).data() == old(self).data(),
            res is Ok <==> old(self).position() + 4 <= old(self).data().len(),
            res matches Ok(v) ==> v == le_value(old(self).data(), old(self).position(), 4)
                && final(self).position() == old(self).position() + 4,
            res is Err ==> final(self).position() == old(self).position() && res == Err::<u32, CacheReadError>(
                CacheReadError::Truncated,
            ),
    {
        let b = self.read_exact(4)?;
        proof {
            reveal_with_fuel(le_value, 5);
        }
        Ok((b[0] as u32) + 256 * ((b[1] as u32) + 256 * ((b[2] as u32) + 256 * (b[3] as u32))))
    }

    pub fn read_i32_le(&mut self) -> (res: Result<i32, CacheReadError>)
        requires
            old(self).valid(),
        ensures
            final(self).valid(),
            final(self).data() == old(self).data(),
            res is Ok <==> old(self).position() + 4 <= old(self).data().len(),
            res matches Ok(v) ==> v == signed_of(le_value(old(self).data(), old(self).position(), 4), 32)
                && final(self).position() == old(self).position() + 4,
            res is Err ==> final(self).position() == old(self).position() && res == Err::<i32, CacheReadError>(
                CacheReadError::Truncated,
            ),
    {
        let u = self.read_u32_le()?;
        proof {
            vstd::arithmetic::power2::lemma2_to64();
        }
        if u < 2147483648 {
            Ok(u as i32)
        } else {
            Ok(((u - 2147483648) as i32) - 2147483647 - 1)
        }
    }

    pub fn read_u64_le(&mut self) -> (res: Result<u64, CacheReadError>)
        requires
            old(self).valid(),
        ensures
            final(self).valid(),
            final(self).data() == old(self).data(),
            res is Ok <==> old(self).position() + 8 <= old(self).data().len(),
            res matches Ok(v) ==> v == le_value(old(self).data(), old(self).position(), 8)
                && final(self).position() == old(self).position() + 8,
            res is Err ==> final(self).position() == old(self).position() && res == Err::<u64, CacheReadError>(
                CacheReadError::Truncated,
            ),
    {
        let b = self.read_exact(8)?;
        proof {
            reveal_with_fuel(le_value, 9);
        }
        Ok((b[0] as u64) + 256 * ((b[1] as u64) + 256 * ((b[2] as u64) + 256 * ((b[3] as u64)
            + 256 * ((b[4] as u64) + 256 * ((b[5] as u64) + 256 * ((b[6] as u64) + 256 * (
        b[7] as u64))))))))
    }

    pub fn read_i64_le(&mut self) -> (res: Result<i64, CacheReadError>)
        requires
            old(self).valid(),
        ensures
            final(self).valid(),
            final(self).data() == old(self).data(),
            res is Ok <==> old(self).position() + 8 <= old(self).data().len(),
            res matches Ok(v) ==> v == signed_of(le_value(old(self).data(), old(self).position(), 8), 64)
                && final(self).position() == old(self).position() + 8,
            res is Err ==> final(self).position() == old(self).position() && res == Err::<i64, CacheReadError>(
                CacheReadError::Truncated,
            ),
    {
        let u = self.read_u64_le()?;
        proof {
            vstd::arithmetic::power2::lemma2_to64();
            vstd::arithmetic::power2::lemma2_to64_rest();
        }
        if u < 9223372036854775808 {
            Ok(u as i64)
        } else {
            Ok(((u - 9223372036854775808) as i64) - 9223372036854775807 - 1)
        }
    }

    pub fn read_7bit_encoded_i32(&mut self) -> (res: Result<u32, CacheReadError>)
        requires
            old(self).valid(),
        ensures
            final(self).valid(),
            final(self).data() == old(self).data(),
            res == varint_from(old(self).data(), old(self).position(), 0).0,
            final(self).position() == old(self).position() + varint_from(
                old(self).data(),
                old(self).position(),
                0,
            ).1,
    {
        let ghost start = self.position();
        let ghost data = self.data();
        let mut count: u32 = 0;
        let mut shift: u32 = 0;
        let mut k: u32 = 0;
        loop
            invariant
                self.valid(),
                self.data() == data,
                data == old(self).data(),
                start == old(self).position(),
                k <= 5,
                shift == 7 * k,
                self.position() == start + k,
                start + k <= data.len(),
                k < 5 ==> count == varint_sum(data, start, k as nat),
                varint_from(data, start, 0) == varint_from(data, start, k as nat),
            decreases 5 - k,
        {
            if shift >= 35 {
                return Err(CacheReadError::InvalidVarInt);
            }
            let b = self.read_u8()?;
            let x = (b & 0x7f) as u32;
            assert(x == b % 128) by (bit_vector)
                requires
                    x == (b & 0x7f) as u32,
            ;
            proof {
                reveal_with_fuel(pow128, 6);
                assert(pow128(1) == 128 && pow128(2) == 16384 && pow128(3) == 2097152 && pow128(4)
                    == 268435456 && pow128(5) == 34359738368);
                lemma_varint_sum_bound(data, start, k as nat);
                lemma_or_shift(count, x, k);
                assert(b == data[start + k]);
            }
            count = count | (x << shift);
            if (b & 0x80) == 0 {
                proof {
                    assert(b < 128) by (bit_vector)
                        requires
                            (b & 0x80) == 0,
                    ;
                    assert(varint_sum(data, start, (k + 1) as nat) == varint_sum(data, start, k as nat)
                        + x * pow128(k as nat));
                    if k == 4 {
                        reveal_with_fuel(pow128, 5);
                        lemma_varint_sum_bound(data, start, 4);
                        assert(pow128(4) == 268435456);
                        assert((count as int) == (varint_sum(data, start, 5) % 4294967296)) by {
                            assert(x * 268435456 == (x % 16) * 268435456 + (x / 16) * 4294967296) by (nonlinear_arith)
                                requires x < 128;
                        }
                    } else {
                        lemma_varint_sum_bound(data, start, (k + 1) as nat);
                        assert(varint_sum(data, start, (k + 1) as nat) < 268435456);
                        assert(count == varint_sum(data, start, (k + 1) as nat));
                    }
                    assert(varint_from(data, start, k as nat) == (Ok::<u32, CacheReadError>(
                        (varint_sum(data, start, (k + 1) as nat) % 4294967296) as u32), (k + 1) as nat));
                }
                return Ok(count);
            }
            proof {
                assert(b >= 128) by (bit_vector)
                    requires
                        (b & 0x80) != 0,
                ;
                reveal_with_fuel(pow128, 4);
            }
            shift = shift + 7;
            k = k + 1;
        }
    }

    pub fn read_dotnet_string(&mut self) -> (res: Result<String, CacheReadError>)
        requires
            old(self).valid(),
        ensures
            final(self).valid(),
            final(self).data() == old(self).data(),
            ({
                let (len_res, len_bytes) = varint_from(old(self).data(), old(self).position(), 0);
                let p = old(self).position() + len_bytes;
                match len_res {
                    Err(e) => res == Err::<String, CacheReadError>(e),
                    Ok(n) => if p + n <= old(self).data().len() {
                        res is Ok && res.unwrap()@ == utf8_lossy_chars(
                            old(self).data().subrange(p, p + n),
                        ) && (valid_utf8(old(self).data().subrange(p, p + n)) ==> res.unwrap()@ == decode_utf8(
                            old(self).data().subrange(p, p + n),
                        )) && final(self).position() == p + n
                    } else {
                        res == Err::<String, CacheReadError>(CacheReadError::Truncated)
                    },
                }
            }),
    {
        let byte_len = self.read_7bit_encoded_i32()? as usize;
        let b = self.read_exact(byte_len)?;
        Ok(string_from_utf8_lossy(b))
    }

    pub fn read_byte_array_u8len(&mut self) -> (res: Result<Vec<u8>, CacheReadError>)
        requires
            old(self).valid(),
        ensures
            final(self).valid(),
            final(self).data() == old(self).data(),
            ({
                let p = old(self).position();
                let d = old(self).data();
                if p < d.len() && p + 1 + d[p] <= d.len() {
                    res is Ok && res.unwrap()@ == d.subrange(p + 1, p + 1 + d[p]) && final(self).position()
                        == p + 1 + d[p]
                } else {
                    res == Err::<Vec<u8>, CacheReadError>(CacheReadError::Truncated)
                }
            }),
    {
        let len = self.read_u8()? as usize;
        let b = self.read_exact(len)?;
        Ok(vstd::slice::slice_to_vec(b))
    }
}

} // verus!
