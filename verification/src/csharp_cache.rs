//! Decoding of the cache file in the RomVault format: a
//! version number, the tree of nodes written depth first, and an end marker.
//! Each node is a type code, a set of flags saying which optional fields
//! follow, its names and status codes, then its children, then its hashes.

use vstd::prelude::*;
use crate::cache::{Cache, CSharpCacheReader, le_u64_at, CacheReadError, le_value, signed_of, varint_from, utf8_lossy_chars};
use crate::rv_file::{rep_status_for, rep_status_table};
use crate::enums::{DatStatus, FileType, GotStatus, RepStatus, ToSortDirType, TreeSelect, ZipStructure};
use crate::cache::{game_data_code, dat_data_code};
use crate::rv_game::{GameData, RvGame, game_meta_lookup};
use crate::rv_dat::{DatData, DatFlags, DatUpdateStatus, RvDat, dat_meta_lookup, is_blank};

verus! {

/// A byte at `p`, and the position after it.
pub open spec fn u8_at(b: Seq<u8>, p: int) -> Result<(u8, int), CacheReadError> {
    if 0 <= p < b.len() {
        Ok((b[p], p + 1))
    } else {
        Err(CacheReadError::Truncated)
    }
}

/// A little-endian `u32` at `p`, and the position after it.
pub open spec fn u32_at(b: Seq<u8>, p: int) -> Result<(u32, int), CacheReadError> {
    if 0 <= p && p + 4 <= b.len() {
        Ok((le_value(b, p, 4) as u32, p + 4))
    } else {
        Err(CacheReadError::Truncated)
    }
}

/// A little-endian `i32` at `p`, and the position after it.
pub open spec fn i32_at(b: Seq<u8>, p: int) -> Result<(i32, int), CacheReadError> {
    if 0 <= p && p + 4 <= b.len() {
        Ok((signed_of(le_value(b, p, 4), 32) as i32, p + 4))
    } else {
        Err(CacheReadError::Truncated)
    }
}

/// A little-endian `u64` at `p`, and the position after it.
pub open spec fn u64_at(b: Seq<u8>, p: int) -> Result<(u64, int), CacheReadError> {
    if 0 <= p && p + 8 <= b.len() {
        Ok((le_value(b, p, 8) as u64, p + 8))
    } else {
        Err(CacheReadError::Truncated)
    }
}

/// A little-endian `i64` at `p`, and the position after it.
pub open spec fn i64_at(b: Seq<u8>, p: int) -> Result<(i64, int), CacheReadError> {
    if 0 <= p && p + 8 <= b.len() {
        Ok((signed_of(le_value(b, p, 8), 64) as i64, p + 8))
    } else {
        Err(CacheReadError::Truncated)
    }
}

/// A string at `p` (its byte length as a 7-bit encoded integer, then its
/// bytes, decoded as UTF-8 with invalid sequences replaced), and the position
/// after it.
pub open spec fn str_at(b: Seq<u8>, p: int) -> Result<(Seq<char>, int), CacheReadError> {
    let (len_res, k) = varint_from(b, p, 0);
    match len_res {
        Err(e) => Err(e),
        Ok(n) => {
            let q = p + k;
            if q + n <= b.len() {
                Ok((utf8_lossy_chars(b.subrange(q, q + n)), q + n))
            } else {
                Err(CacheReadError::Truncated)
            }
        },
    }
}

/// A byte array at `p` (its length as one byte, then its bytes), and the
/// position after it.
pub open spec fn bytes_at(b: Seq<u8>, p: int) -> Result<(Seq<u8>, int), CacheReadError> {
    if 0 <= p < b.len() && p + 1 + b[p] <= b.len() {
        Ok((b.subrange(p + 1, p + 1 + b[p]), p + 1 + b[p]))
    } else {
        Err(CacheReadError::Truncated)
    }
}

/// True when any bit of `mask` is set in `flags`.
pub open spec fn has_flag(flags: u32, mask: u32) -> bool {
    flags & mask != 0
}

/// Node type stored under each code; unknown codes give `UnSet`.
pub open spec fn file_type_code(c: u8) -> FileType {
    if c == 1 {
        FileType::Dir
    } else if c == 2 {
        FileType::Zip
    } else if c == 3 {
        FileType::SevenZip
    } else if c == 4 {
        FileType::File
    } else if c == 5 {
        FileType::FileZip
    } else if c == 6 {
        FileType::FileSevenZip
    } else if c == 100 {
        FileType::FileOnly
    } else {
        FileType::UnSet
    }
}

/// DAT status stored under each code; unknown codes give `NotInDat`.
pub open spec fn dat_status_code(c: u8) -> DatStatus {
    if c == 0 {
        DatStatus::InDatCollect
    } else if c == 1 {
        DatStatus::InDatMerged
    } else if c == 2 {
        DatStatus::InDatNoDump
    } else if c == 4 {
        DatStatus::InToSort
    } else if c == 5 {
        DatStatus::InDatMIA
    } else {
        DatStatus::NotInDat
    }
}

/// Physical status stored under each code; unknown codes give `NotGot`.
pub open spec fn got_status_code(c: u8) -> GotStatus {
    if c == 1 {
        GotStatus::Got
    } else if c == 2 {
        GotStatus::Corrupt
    } else if c == 3 {
        GotStatus::FileLocked
    } else {
        GotStatus::NotGot
    }
}

/// Archive structure stored under each code; unknown codes give no structure.
pub open spec fn zip_structure_of_code(c: u8) -> ZipStructure {
    if c == 1 {
        ZipStructure::ZipTrrnt
    } else if c == 2 {
        ZipStructure::ZipTDC
    } else if c == 4 {
        ZipStructure::SevenZipTrrnt
    } else if c == 5 {
        ZipStructure::ZipZSTD
    } else if c == 8 {
        ZipStructure::SevenZipSLZMA
    } else if c == 9 {
        ZipStructure::SevenZipNLZMA
    } else if c == 10 {
        ZipStructure::SevenZipSZSTD
    } else if c == 11 {
        ZipStructure::SevenZipNZSTD
    } else {
        ZipStructure::NoStructure
    }
}

/// Tree check state stored under each code; unknown codes give `Selected`.
pub open spec fn tree_select_code(c: u8) -> TreeSelect {
    if c == 0 {
        TreeSelect::UnSelected
    } else if c == 2 {
        TreeSelect::Locked
    } else {
        TreeSelect::Selected
    }
}

fn file_type_from_code(c: u8) -> (r: FileType)
    ensures
        r == file_type_code(c),
{
    match c {
        1 => FileType::Dir,
        2 => FileType::Zip,
        3 => FileType::SevenZip,
        4 => FileType::File,
        5 => FileType::FileZip,
        6 => FileType::FileSevenZip,
        100 => FileType::FileOnly,
        _ => FileType::UnSet,
    }
}

fn dat_status_from_code(c: u8) -> (r: DatStatus)
    ensures
        r == dat_status_code(c),
{
    match c {
        0 => DatStatus::InDatCollect,
        1 => DatStatus::InDatMerged,
        2 => DatStatus::InDatNoDump,
        4 => DatStatus::InToSort,
        5 => DatStatus::InDatMIA,
        _ => DatStatus::NotInDat,
    }
}

fn got_status_from_code(c: u8) -> (r: GotStatus)
    ensures
        r == got_status_code(c),
{
    match c {
        1 => GotStatus::Got,
        2 => GotStatus::Corrupt,
        3 => GotStatus::FileLocked,
        _ => GotStatus::NotGot,
    }
}

pub(crate) fn zip_structure_from_code(c: u8) -> (r: ZipStructure)
    ensures
        r == zip_structure_of_code(c),
{
    match c {
        1 => ZipStructure::ZipTrrnt,
        2 => ZipStructure::ZipTDC,
        4 => ZipStructure::SevenZipTrrnt,
        5 => ZipStructure::ZipZSTD,
        8 => ZipStructure::SevenZipSLZMA,
        9 => ZipStructure::SevenZipNLZMA,
        10 => ZipStructure::SevenZipSZSTD,
        11 => ZipStructure::SevenZipNZSTD,
        _ => ZipStructure::NoStructure,
    }
}

fn tree_select_from_code(c: u8) -> (r: TreeSelect)
    ensures
        r == tree_select_code(c),
{
    match c {
        0 => TreeSelect::UnSelected,
        2 => TreeSelect::Locked,
        _ => TreeSelect::Selected,
    }
}

/// The fields that open a node record.
#[derive(Debug)]
pub struct NodeHead {
    pub file_type: FileType,
    pub flags: u32,
    pub name: String,
    pub file_name: String,
    pub time_stamp: i64,
    pub dat_index: Option<i32>,
    pub dat_status: DatStatus,
    pub got_status: GotStatus,
    pub zip_dat_struct: u8,
    pub zip_struct: ZipStructure,
}

/// What [`NodeHead`] holds, with its texts as characters.
pub struct HeadView {
    pub file_type: FileType,
    pub flags: u32,
    pub name: Seq<char>,
    pub file_name: Seq<char>,
    pub time_stamp: i64,
    pub dat_index: Option<i32>,
    pub dat_status: DatStatus,
    pub got_status: GotStatus,
    pub zip_dat_struct: u8,
    pub zip_struct: ZipStructure,
}

pub open spec fn head_matches(n: NodeHead, h: HeadView) -> bool {
    &&& n.file_type == h.file_type
    &&& n.flags == h.flags
    &&& n.name@ == h.name
    &&& n.file_name@ == h.file_name
    &&& n.time_stamp == h.time_stamp
    &&& n.dat_index == h.dat_index
    &&& n.dat_status == h.dat_status
    &&& n.got_status == h.got_status
    &&& n.zip_dat_struct == h.zip_dat_struct
    &&& n.zip_struct == h.zip_struct
}

/// True for the archive node types.
pub open spec fn is_archive_type(t: FileType) -> bool {
    t == FileType::Zip || t == FileType::SevenZip
}

/// The DAT structure code of an archive: read from the record from version 3
/// on; before that, set for collected archives (8 for 7-Zip, 1 for zip) and 0
/// otherwise. Non-archives store none.
pub open spec fn zip_dat_at(b: Seq<u8>, p: int, t: FileType, version: i32, d: DatStatus) -> Result<
    (u8, int),
    CacheReadError,
> {
    if is_archive_type(t) && version >= 3 {
        u8_at(b, p)
    } else if is_archive_type(t) && d == DatStatus::InDatCollect {
        Ok((if t == FileType::SevenZip { 8u8 } else { 1u8 }, p))
    } else {
        Ok((0u8, p))
    }
}

/// The structure of an archive as read from its code; a 7-Zip archive never
/// carries the zip TorrentZip structure (it is taken as solid LZMA).
pub open spec fn zip_struct_at(b: Seq<u8>, p: int, t: FileType) -> Result<(ZipStructure, int), CacheReadError> {
    if is_archive_type(t) {
        match u8_at(b, p) {
            Err(e) => Err(e),
            Ok((c, q)) => {
                let z = zip_structure_of_code(c);
                Ok((if t == FileType::SevenZip && z == ZipStructure::ZipTrrnt {
                    ZipStructure::SevenZipSLZMA
                } else {
                    z
                }, q))
            },
        }
    } else {
        Ok((ZipStructure::NoStructure, p))
    }
}

/// A collected 7-Zip archive never keeps the zip TorrentZip DAT structure.
pub open spec fn settled_zip_dat(t: FileType, d: DatStatus, zd: u8) -> u8 {
    if t == FileType::SevenZip && d == DatStatus::InDatCollect && zd == 1 {
        8
    } else {
        zd
    }
}

/// The head of a node record at `p`: the type code (absent for the root,
/// which is a directory), flags, name, file name, time stamp, DAT index when
/// flag bit 16 is set, DAT status (forced to `InToSort` under a ToSort
/// branch), physical status, and for archives the DAT structure and structure.
#[verifier::opaque]
pub open spec fn head_at(b: Seq<u8>, p: int, version: i32, is_root: bool, force: bool) -> Result<
    (HeadView, int),
    CacheReadError,
> {
    let ft_res: Result<(FileType, int), CacheReadError> = if is_root {
        Ok((FileType::Dir, p))
    } else {
        match u8_at(b, p) {
            Err(e) => Err(e),
            Ok((c, q)) => Ok((file_type_code(c), q)),
        }
    };
    match ft_res {
        Err(e) => Err(e),
        Ok((t, p1)) => match u32_at(b, p1) {
            Err(e) => Err(e),
            Ok((flags, p2)) => match str_at(b, p2) {
                Err(e) => Err(e),
                Ok((name, p3)) => match str_at(b, p3) {
                    Err(e) => Err(e),
                    Ok((file_name, p4)) => match i64_at(b, p4) {
                        Err(e) => Err(e),
                        Ok((ts, p5)) => {
                            let di: Result<(Option<i32>, int), CacheReadError> = if has_flag(
                                flags,
                                0x10000,
                            ) {
                                match i32_at(b, p5) {
                                    Err(e) => Err(e),
                                    Ok((v, q)) => Ok((Some(v), q)),
                                }
                            } else {
                                Ok((None, p5))
                            };
                            match di {
                                Err(e) => Err(e),
                                Ok((dat_index, p6)) => match u8_at(b, p6) {
                                    Err(e) => Err(e),
                                    Ok((dc, p7)) => match u8_at(b, p7) {
                                        Err(e) => Err(e),
                                        Ok((gc, p8)) => {
                                            let d = if force {
                                                DatStatus::InToSort
                                            } else {
                                                dat_status_code(dc)
                                            };
                                            match zip_dat_at(b, p8, t, version, d) {
                                                Err(e) => Err(e),
                                                Ok((zd, p9)) => match zip_struct_at(b, p9, t) {
                                                    Err(e) => Err(e),
                                                    Ok((zs, p10)) => Ok(
                                                        (
                                                            HeadView {
                                                                file_type: t,
                                                                flags,
                                                                name,
                                                                file_name,
                                                                time_stamp: ts,
                                                                dat_index,
                                                                dat_status: d,
                                                                got_status: got_status_code(gc),
                                                                zip_dat_struct: settled_zip_dat(t, d, zd),
                                                                zip_struct: zs,
                                                            },
                                                            p10,
                                                        ),
                                                    ),
                                                },
                                            }
                                        },
                                    },
                                },
                            }
                        },
                    },
                },
            },
        },
    }
}

/// Reads a string; see [`str_at`].
fn read_str(r: &mut CSharpCacheReader<'_>) -> (res: Result<String, CacheReadError>)
    requires
        old(r).valid(),
    ensures
        final(r).valid(),
        final(r).data() == old(r).data(),
        match str_at(old(r).data(), old(r).position()) {
            Ok((s, q)) => res matches Ok(v) && v@ == s && final(r).position() == q,
            Err(e) => res == Err::<String, CacheReadError>(e),
        },
{
    r.read_dotnet_string()
}


/// A `u64` when `present`, else nothing read.
pub open spec fn opt_u64_at(b: Seq<u8>, p: int, present: bool) -> Result<(Option<u64>, int), CacheReadError> {
    if present {
        match u64_at(b, p) {
            Err(e) => Err(e),
            Ok((v, q)) => Ok((Some(v), q)),
        }
    } else {
        Ok((None, p))
    }
}

/// A byte array when `present`, else nothing read.
pub open spec fn opt_bytes_at(b: Seq<u8>, p: int, present: bool) -> Result<(Option<Seq<u8>>, int), CacheReadError> {
    if present {
        match bytes_at(b, p) {
            Err(e) => Err(e),
            Ok((v, q)) => Ok((Some(v), q)),
        }
    } else {
        Ok((None, p))
    }
}

/// A string when `present`, else nothing read.
pub open spec fn opt_str_at(b: Seq<u8>, p: int, present: bool) -> Result<(Option<Seq<char>>, int), CacheReadError> {
    if present {
        match str_at(b, p) {
            Err(e) => Err(e),
            Ok((v, q)) => Ok((Some(v), q)),
        }
    } else {
        Ok((None, p))
    }
}

/// A byte when `present`, else 0 and nothing read.
pub open spec fn opt_u8_at(b: Seq<u8>, p: int, present: bool) -> Result<(u8, int), CacheReadError> {
    if present {
        u8_at(b, p)
    } else {
        Ok((0u8, p))
    }
}

/// An `i32` when `present`, else nothing read.
pub open spec fn opt_i32_at(b: Seq<u8>, p: int, present: bool) -> Result<(Option<i32>, int), CacheReadError> {
    if present {
        match i32_at(b, p) {
            Err(e) => Err(e),
            Ok((v, q)) => Ok((Some(v), q)),
        }
    } else {
        Ok((None, p))
    }
}

/// The fields that close a node record.
#[derive(Debug)]
pub struct NodeTail {
    pub size: Option<u64>,
    pub crc: Option<Vec<u8>>,
    pub sha1: Option<Vec<u8>>,
    pub md5: Option<Vec<u8>>,
    pub header_file_type: u8,
    pub alt_size: Option<u64>,
    pub alt_crc: Option<Vec<u8>>,
    pub alt_sha1: Option<Vec<u8>>,
    pub alt_md5: Option<Vec<u8>>,
    pub merge: String,
    pub status: Option<String>,
    pub local_header_offset: Option<u64>,
    pub chd_version: Option<u32>,
    pub to_sort_type: ToSortDirType,
    pub file_status: u32,
}

/// What [`NodeTail`] holds, with byte arrays and texts as sequences.
pub struct TailView {
    pub size: Option<u64>,
    pub crc: Option<Seq<u8>>,
    pub sha1: Option<Seq<u8>>,
    pub md5: Option<Seq<u8>>,
    pub header_file_type: u8,
    pub alt_size: Option<u64>,
    pub alt_crc: Option<Seq<u8>>,
    pub alt_sha1: Option<Seq<u8>>,
    pub alt_md5: Option<Seq<u8>>,
    pub merge: Seq<char>,
    pub status: Option<Seq<char>>,
    pub local_header_offset: Option<u64>,
    pub chd_version: Option<u32>,
    pub to_sort_type: u8,
    pub file_status: u32,
}

pub open spec fn opt_vec_view(v: Option<Vec<u8>>) -> Option<Seq<u8>> {
    match v {
        Some(x) => Some(x@),
        None => None,
    }
}

pub open spec fn opt_string_view(v: Option<String>) -> Option<Seq<char>> {
    match v {
        Some(x) => Some(x@),
        None => None,
    }
}

pub open spec fn tail_matches(n: NodeTail, t: TailView) -> bool {
    &&& n.size == t.size
    &&& opt_vec_view(n.crc) == t.crc
    &&& opt_vec_view(n.sha1) == t.sha1
    &&& opt_vec_view(n.md5) == t.md5
    &&& n.header_file_type == t.header_file_type
    &&& n.alt_size == t.alt_size
    &&& opt_vec_view(n.alt_crc) == t.alt_crc
    &&& opt_vec_view(n.alt_sha1) == t.alt_sha1
    &&& opt_vec_view(n.alt_md5) == t.alt_md5
    &&& n.merge@ == t.merge
    &&& opt_string_view(n.status) == t.status
    &&& n.local_header_offset == t.local_header_offset
    &&& n.chd_version == t.chd_version
    &&& n.to_sort_type.bits == t.to_sort_type
    &&& n.file_status == t.file_status
}

/// The chd version: the stored `i32` taken as a `u32`.
pub open spec fn chd_of(v: Option<i32>) -> Option<u32> {
    match v {
        Some(x) => Some(x as u32),
        None => None,
    }
}

/// The tail of a node record at `p`, each optional field present when its
/// flag bit is set: size (0), CRC (1), SHA1 (2), MD5 (3), header type (4),
/// alternate size (5), CRC (6), SHA1 (7), MD5 (8), merge name (9), status
/// (10), an unused zip index (11), local header offset (12), chd version (13)
/// and ToSort type (19); then the file status bits, always present.
#[verifier::opaque]
pub open spec fn tail_at(b: Seq<u8>, p: int, flags: u32) -> Result<(TailView, int), CacheReadError> {
    match opt_u64_at(b, p, has_flag(flags, 0x1)) {
        Err(e) => Err(e),
        Ok((size, p1)) => match opt_bytes_at(b, p1, has_flag(flags, 0x2)) {
            Err(e) => Err(e),
            Ok((crc, p2)) => match opt_bytes_at(b, p2, has_flag(flags, 0x4)) {
                Err(e) => Err(e),
                Ok((sha1, p3)) => match opt_bytes_at(b, p3, has_flag(flags, 0x8)) {
                    Err(e) => Err(e),
                    Ok((md5, p4)) => match opt_u8_at(b, p4, has_flag(flags, 0x10)) {
                        Err(e) => Err(e),
                        Ok((header, p5)) => match opt_u64_at(b, p5, has_flag(flags, 0x20)) {
                            Err(e) => Err(e),
                            Ok((alt_size, p6)) => match opt_bytes_at(b, p6, has_flag(flags, 0x40)) {
                                Err(e) => Err(e),
                                Ok((alt_crc, p7)) => match opt_bytes_at(b, p7, has_flag(flags, 0x80)) {
                                    Err(e) => Err(e),
                                    Ok((alt_sha1, p8)) => match opt_bytes_at(b, p8, has_flag(flags, 0x100)) {
                                        Err(e) => Err(e),
                                        Ok((alt_md5, p9)) => tail_rest_at(
                                            b,
                                            p9,
                                            flags,
                                            TailView {
                                                size,
                                                crc,
                                                sha1,
                                                md5,
                                                header_file_type: header,
                                                alt_size,
                                                alt_crc,
                                                alt_sha1,
                                                alt_md5,
                                                merge: Seq::empty(),
                                                status: None,
                                                local_header_offset: None,
                                                chd_version: None,
                                                to_sort_type: 0,
                                                file_status: 0,
                                            },
                                        ),
                                    },
                                },
                            },
                        },
                    },
                },
            },
        },
    }
}

/// The second half of a node tail (from the merge name on), completing `t`.
#[verifier::opaque]
pub open spec fn tail_rest_at(b: Seq<u8>, p: int, flags: u32, t: TailView) -> Result<(TailView, int), CacheReadError> {
    match opt_str_at(b, p, has_flag(flags, 0x200)) {
        Err(e) => Err(e),
        Ok((merge, p1)) => match opt_str_at(b, p1, has_flag(flags, 0x400)) {
            Err(e) => Err(e),
            Ok((status, p2)) => match opt_i32_at(b, p2, has_flag(flags, 0x800)) {
                Err(e) => Err(e),
                Ok((_zip_index, p3)) => match opt_u64_at(b, p3, has_flag(flags, 0x1000)) {
                    Err(e) => Err(e),
                    Ok((local_header_offset, p4)) => match opt_i32_at(b, p4, has_flag(flags, 0x2000)) {
                        Err(e) => Err(e),
                        Ok((chd, p5)) => match opt_u8_at(b, p5, has_flag(flags, 0x80000)) {
                            Err(e) => Err(e),
                            Ok((to_sort, p6)) => match u32_at(b, p6) {
                                Err(e) => Err(e),
                                Ok((file_status, p7)) => Ok(
                                    (
                                        TailView {
                                            merge: match merge {
                                                Some(m) => m,
                                                None => Seq::empty(),
                                            },
                                            status,
                                            local_header_offset,
                                            chd_version: chd_of(chd),
                                            to_sort_type: to_sort,
                                            file_status,
                                            ..t
                                        },
                                        p7,
                                    ),
                                ),
                            },
                        },
                    },
                },
            },
        },
    }
}

fn read_opt_u64(r: &mut CSharpCacheReader<'_>, present: bool) -> (res: Result<Option<u64>, CacheReadError>)
    requires
        old(r).valid(),
    ensures
        final(r).valid(),
        final(r).data() == old(r).data(),
        match opt_u64_at(old(r).data(), old(r).position(), present) {
            Ok((v, q)) => res == Ok::<Option<u64>, CacheReadError>(v) && final(r).position() == q,
            Err(e) => res == Err::<Option<u64>, CacheReadError>(e),
        },
{
    if present {
        Ok(Some(r.read_u64_le()?))
    } else {
        Ok(None)
    }
}

fn read_opt_bytes(r: &mut CSharpCacheReader<'_>, present: bool) -> (res: Result<Option<Vec<u8>>, CacheReadError>)
    requires
        old(r).valid(),
    ensures
        final(r).valid(),
        final(r).data() == old(r).data(),
        match opt_bytes_at(old(r).data(), old(r).position(), present) {
            Ok((v, q)) => res matches Ok(x) && opt_vec_view(x) == v && final(r).position() == q,
            Err(e) => res == Err::<Option<Vec<u8>>, CacheReadError>(e),
        },
{
    if present {
        Ok(Some(r.read_byte_array_u8len()?))
    } else {
        Ok(None)
    }
}

fn read_opt_str(r: &mut CSharpCacheReader<'_>, present: bool) -> (res: Result<Option<String>, CacheReadError>)
    requires
        old(r).valid(),
    ensures
        final(r).valid(),
        final(r).data() == old(r).data(),
        match opt_str_at(old(r).data(), old(r).position(), present) {
            Ok((v, q)) => res matches Ok(x) && opt_string_view(x) == v && final(r).position() == q,
            Err(e) => res == Err::<Option<String>, CacheReadError>(e),
        },
{
    if present {
        Ok(Some(read_str(r)?))
    } else {
        Ok(None)
    }
}

fn read_opt_u8(r: &mut CSharpCacheReader<'_>, present: bool) -> (res: Result<u8, CacheReadError>)
    requires
        old(r).valid(),
    ensures
        final(r).valid(),
        final(r).data() == old(r).data(),
        match opt_u8_at(old(r).data(), old(r).position(), present) {
            Ok((v, q)) => res == Ok::<u8, CacheReadError>(v) && final(r).position() == q,
            Err(e) => res == Err::<u8, CacheReadError>(e),
        },
{
    if present {
        r.read_u8()
    } else {
        Ok(0)
    }
}

fn read_opt_i32(r: &mut CSharpCacheReader<'_>, present: bool) -> (res: Result<Option<i32>, CacheReadError>)
    requires
        old(r).valid(),
    ensures
        final(r).valid(),
        final(r).data() == old(r).data(),
        match opt_i32_at(old(r).data(), old(r).position(), present) {
            Ok((v, q)) => res == Ok::<Option<i32>, CacheReadError>(v) && final(r).position() == q,
            Err(e) => res == Err::<Option<i32>, CacheReadError>(e),
        },
{
    if present {
        Ok(Some(r.read_i32_le()?))
    } else {
        Ok(None)
    }
}


/// The tree view state: when flag bit 14 is set, an expanded byte and a check
/// state code; else not expanded and selected.
#[verifier::opaque]
pub open spec fn tree_at(b: Seq<u8>, p: int, flags: u32) -> Result<((bool, TreeSelect), int), CacheReadError> {
    if has_flag(flags, 0x4000) {
        match u8_at(b, p) {
            Err(e) => Err(e),
            Ok((x, q)) => match u8_at(b, q) {
                Err(e) => Err(e),
                Ok((c, q2)) => Ok(((x != 0, tree_select_code(c)), q2)),
            },
        }
    } else {
        Ok(((false, TreeSelect::Selected), p))
    }
}

/// `n` metadata entries from `p`, each a field code and a string.
pub open spec fn meta_entries_at(b: Seq<u8>, p: int, n: nat) -> Result<(Seq<(u8, Seq<char>)>, int), CacheReadError>
    decreases n,
{
    if n == 0 {
        Ok((Seq::empty(), p))
    } else {
        match u8_at(b, p) {
            Err(e) => Err(e),
            Ok((id, q)) => match str_at(b, q) {
                Err(e) => Err(e),
                Ok((v, q2)) => match meta_entries_at(b, q2, (n - 1) as nat) {
                    Err(e) => Err(e),
                    Ok((rest, q3)) => Ok((seq![(id, v)] + rest, q3)),
                },
            },
        }
    }
}

/// The game entries: when flag bit 15 is set, a count byte and that many
/// metadata entries.
#[verifier::opaque]
pub open spec fn game_at(b: Seq<u8>, p: int, flags: u32) -> Result<(Option<Seq<(u8, Seq<char>)>>, int), CacheReadError> {
    if has_flag(flags, 0x8000) {
        match u8_at(b, p) {
            Err(e) => Err(e),
            Ok((c, q)) => match meta_entries_at(b, q, c as nat) {
                Err(e) => Err(e),
                Ok((es, q2)) => Ok((Some(es), q2)),
            },
        }
    } else {
        Ok((None, p))
    }
}

/// One DAT of a directory as stored.
pub struct DatView {
    pub dat_index: i32,
    pub time_stamp: i64,
    pub flags: u8,
    pub entries: Seq<(u8, Seq<char>)>,
}

/// The `i`-th DAT record at `p`: time stamp, flags, an entry count byte and
/// that many metadata entries.
pub open spec fn dat_entry_at(b: Seq<u8>, p: int, i: nat) -> Result<(DatView, int), CacheReadError> {
    match i64_at(b, p) {
        Err(e) => Err(e),
        Ok((ts, p1)) => match u8_at(b, p1) {
            Err(e) => Err(e),
            Ok((fl, p2)) => match u8_at(b, p2) {
                Err(e) => Err(e),
                Ok((mc, p3)) => match meta_entries_at(b, p3, mc as nat) {
                    Err(e) => Err(e),
                    Ok((es, p4)) => Ok((DatView { dat_index: i as i32, time_stamp: ts, flags: fl, entries: es }, p4)),
                },
            },
        },
    }
}

/// DAT records `i..n` from `p`.
pub open spec fn dats_at(b: Seq<u8>, p: int, n: nat, i: nat) -> Result<(Seq<DatView>, int), CacheReadError>
    decreases n - i,
{
    if i >= n {
        Ok((Seq::empty(), p))
    } else {
        match dat_entry_at(b, p, i) {
            Err(e) => Err(e),
            Ok((d, q)) => match dats_at(b, q, n, i + 1) {
                Err(e) => Err(e),
                Ok((rest, q2)) => Ok((seq![d] + rest, q2)),
            },
        }
    }
}

/// A stored count: an `i32` taken as a `usize`.
pub open spec fn count_of(c: i32) -> nat {
    (c as usize) as nat
}

/// The DATs of a directory: when flag bit 17 is set, a count and that many
/// DAT records.
#[verifier::opaque]
pub open spec fn dir_dats_at(b: Seq<u8>, p: int, flags: u32) -> Result<(Seq<DatView>, int), CacheReadError> {
    if has_flag(flags, 0x20000) {
        match i32_at(b, p) {
            Err(e) => Err(e),
            Ok((c, q)) => dats_at(b, q, count_of(c), 0),
        }
    } else {
        Ok((Seq::empty(), p))
    }
}

/// The number of children: when flag bit 18 is set, a count; else none.
#[verifier::opaque]
pub open spec fn child_count_at(b: Seq<u8>, p: int, flags: u32) -> Result<(nat, int), CacheReadError> {
    if has_flag(flags, 0x40000) {
        match i32_at(b, p) {
            Err(e) => Err(e),
            Ok((c, q)) => Ok((count_of(c), q)),
        }
    } else {
        Ok((0, p))
    }
}

/// The last value given to game field `id` among the entries; entries with an
/// unknown code are skipped.
pub open spec fn game_value(es: Seq<(u8, Seq<char>)>, id: GameData) -> Option<Seq<char>>
    decreases es.len(),
{
    if es.len() == 0 {
        None
    } else if game_data_code(es.last().0) == Some(id) {
        Some(es.last().1)
    } else {
        game_value(es.drop_last(), id)
    }
}

/// The last non-blank value given to DAT field `id` among the entries;
/// entries with an unknown code are skipped.
pub open spec fn dat_value(es: Seq<(u8, Seq<char>)>, id: DatData) -> Option<Seq<char>>
    decreases es.len(),
{
    if es.len() == 0 {
        None
    } else if dat_data_code(es.last().0) == Some(id) && !is_blank(es.last().1) {
        Some(es.last().1)
    } else {
        dat_value(es.drop_last(), id)
    }
}

pub open spec fn game_matches(g: Option<RvGame>, v: Option<Seq<(u8, Seq<char>)>>) -> bool {
    match (g, v) {
        (None, None) => true,
        (Some(g), Some(es)) => forall|id: GameData| #[trigger] game_meta_lookup(g.game_meta_data@, id)
            == game_value(es, id),
        _ => false,
    }
}

pub open spec fn dat_matches(d: RvDat, v: DatView) -> bool {
    &&& d.dat_index == v.dat_index
    &&& d.time_stamp == v.time_stamp
    &&& d.dat_flags.bits == v.flags
    &&& d.status == DatUpdateStatus::Correct
    &&& forall|id: DatData| #[trigger] dat_meta_lookup(d.game_meta_data@, id) == dat_value(v.entries, id)
}

pub open spec fn prepend_meta(
    read: Seq<(u8, Seq<char>)>,
    r: Result<(Seq<(u8, Seq<char>)>, int), CacheReadError>,
) -> Result<(Seq<(u8, Seq<char>)>, int), CacheReadError> {
    match r {
        Err(e) => Err(e),
        Ok((rest, q)) => Ok((read + rest, q)),
    }
}

proof fn lemma_meta_entries_advance(b: Seq<u8>, p: int, n: nat)
    requires
        0 <= p <= b.len(),
    ensures
        meta_entries_at(b, p, n) matches Ok((es, q)) ==> p <= q <= b.len() && es.len() == n,
    decreases n,
{
    if n > 0 {
        if let Ok((id, q)) = u8_at(b, p) {
            if let Ok((v, q2)) = str_at(b, q) {
                lemma_varint_len(b, q);
                lemma_meta_entries_advance(b, q2, (n - 1) as nat);
            }
        }
    }
}

proof fn lemma_varint_len(b: Seq<u8>, p: int)
    ensures
        varint_from(b, p, 0).1 >= 0,
        str_at(b, p) matches Ok((s, q)) ==> p <= q <= b.len(),
{
    lemma_varint_from_len(b, p, 0);
}

proof fn lemma_varint_from_len(b: Seq<u8>, p: int, k: nat)
    ensures
        varint_from(b, p, k).1 >= k,
    decreases 5 - k,
{
    if k < 5 && p + k < b.len() && b[p + k] >= 128 {
        lemma_varint_from_len(b, p, k + 1);
    }
}

proof fn lemma_dats_advance(b: Seq<u8>, p: int, n: nat, i: nat)
    requires
        0 <= p <= b.len(),
    ensures
        dats_at(b, p, n, i) matches Ok((ds, q)) ==> p <= q <= b.len(),
    decreases n - i,
{
    if i < n {
        if let Ok((d, q)) = dat_entry_at(b, p, i) {
            lemma_dat_entry_advance(b, p, i);
            lemma_dats_advance(b, q, n, i + 1);
        }
    }
}

proof fn lemma_dat_entry_advance(b: Seq<u8>, p: int, i: nat)
    requires
        0 <= p <= b.len(),
    ensures
        dat_entry_at(b, p, i) matches Ok((d, q)) ==> p <= q <= b.len(),
{
    if let Ok((ts, p1)) = i64_at(b, p) {
        if let Ok((fl, p2)) = u8_at(b, p1) {
            if let Ok((mc, p3)) = u8_at(b, p2) {
                lemma_meta_entries_advance(b, p3, mc as nat);
            }
        }
    }
}

/// The stages between a node's head and its children never move backwards
/// nor past the end.
pub proof fn lemma_middle_advance(b: Seq<u8>, p: int, flags: u32)
    requires
        0 <= p <= b.len(),
    ensures
        tree_at(b, p, flags) matches Ok((tr, q)) ==> p <= q <= b.len(),
        game_at(b, p, flags) matches Ok((g, q)) ==> p <= q <= b.len(),
        dir_dats_at(b, p, flags) matches Ok((ds, q)) ==> p <= q <= b.len(),
        child_count_at(b, p, flags) matches Ok((n, q)) ==> p <= q <= b.len(),
{
    reveal(tree_at);
    reveal(game_at);
    reveal(dir_dats_at);
    reveal(child_count_at);
    if let Ok((c, q)) = u8_at(b, p) {
        lemma_meta_entries_advance(b, q, c as nat);
    }
    if let Ok((c, q)) = i32_at(b, p) {
        lemma_dats_advance(b, q, count_of(c), 0);
    }
}

pub proof fn lemma_head_advance(b: Seq<u8>, p: int, version: i32, is_root: bool, force: bool)
    ensures
        head_at(b, p, version, is_root, force) matches Ok((h, q)) ==> 0 <= p && p + 4 <= q <= b.len(),
{
    reveal(head_at);
    let p1 = if is_root { p } else { p + 1 };
    if p1 + 4 <= b.len() {
        lemma_varint_len(b, p1 + 4);
        if let Ok((name, p3)) = str_at(b, p1 + 4) {
            lemma_varint_len(b, p3);
        }
    }
}


pub open spec fn prepend_dats(read: Seq<DatView>, r: Result<(Seq<DatView>, int), CacheReadError>) -> Result<
    (Seq<DatView>, int),
    CacheReadError,
> {
    match r {
        Err(e) => Err(e),
        Ok((rest, q)) => Ok((read + rest, q)),
    }
}

fn read_tree(r: &mut CSharpCacheReader<'_>, flags: u32) -> (res: Result<(bool, TreeSelect), CacheReadError>)
    requires
        old(r).valid(),
    ensures
        final(r).valid(),
        final(r).data() == old(r).data(),
        match tree_at(old(r).data(), old(r).position(), flags) {
            Ok((v, q)) => res == Ok::<(bool, TreeSelect), CacheReadError>(v) && final(r).position() == q,
            Err(e) => res == Err::<(bool, TreeSelect), CacheReadError>(e),
        },
{
    proof {
        reveal(tree_at);
    }
    if flags & 0x4000 != 0 {
        let expanded = r.read_bool()?;
        let c = r.read_u8()?;
        Ok((expanded, tree_select_from_code(c)))
    } else {
        Ok((false, TreeSelect::Selected))
    }
}

/// Reads `n` game entries into a new game.
fn read_game_entries(r: &mut CSharpCacheReader<'_>, n: u8) -> (res: Result<RvGame, CacheReadError>)
    requires
        old(r).valid(),
    ensures
        final(r).valid(),
        final(r).data() == old(r).data(),
        match meta_entries_at(old(r).data(), old(r).position(), n as nat) {
            Ok((es, q)) => res matches Ok(g) && game_matches(Some(g), Some(es)) && final(r).position() == q,
            Err(e) => res == Err::<RvGame, CacheReadError>(e),
        },
{
    let ghost d = r.data();
    let ghost p0 = r.position();
    let mut game = RvGame::new();
    let ghost mut read: Seq<(u8, Seq<char>)> = Seq::empty();
    let mut i: u8 = 0;
    assert(prepend_meta(read, meta_entries_at(d, p0, n as nat)) == meta_entries_at(d, p0, n as nat)) by {
        if let Ok((rest, q)) = meta_entries_at(d, p0, n as nat) {
            assert(read + rest =~= rest);
        }
    }
    while i < n
        invariant
            r.valid(),
            r.data() == d,
            d == old(r).data(),
            p0 == old(r).position(),
            i <= n,
            meta_entries_at(d, p0, n as nat) == prepend_meta(read, meta_entries_at(d, r.position(), (n - i) as nat)),
            forall|id: GameData| #[trigger] game_meta_lookup(game.game_meta_data@, id) == game_value(read, id),
        decreases n - i,
    {
        let ghost pos = r.position();
        let id = r.read_u8()?;
        let val = read_str(r)?;
        let ghost rest = meta_entries_at(d, r.position(), (n - i - 1) as nat);
        let ghost old_game = game.game_meta_data@;
        match Cache::game_data_from_u8(id) {
            Some(k) => {
                game.add_data(k, val.as_str());
            },
            None => {},
        }
        proof {
            let e = (id, val@);
            assert(meta_entries_at(d, pos, (n - i) as nat) == prepend_meta(seq![e], rest));
            assert(prepend_meta(read, prepend_meta(seq![e], rest)) == prepend_meta(read.push(e), rest)) by {
                if let Ok((xs, q)) = rest {
                    assert(read + (seq![e] + xs) =~= read.push(e) + xs);
                }
            }
            assert(read.push(e).drop_last() =~= read);
            assert forall|id2: GameData| #[trigger] game_meta_lookup(game.game_meta_data@, id2) == game_value(
                read.push(e),
                id2,
            ) by {
                assert(read.push(e).last() == e);
            }
            read = read.push(e);
        }
        i = i + 1;
    }
    proof {
        assert(meta_entries_at(d, r.position(), 0) == Ok::<(Seq<(u8, Seq<char>)>, int), CacheReadError>(
            (Seq::empty(), r.position()),
        ));
        assert(read + Seq::<(u8, Seq<char>)>::empty() =~= read);
    }
    Ok(game)
}

fn read_game(r: &mut CSharpCacheReader<'_>, flags: u32) -> (res: Result<Option<RvGame>, CacheReadError>)
    requires
        old(r).valid(),
    ensures
        final(r).valid(),
        final(r).data() == old(r).data(),
        match game_at(old(r).data(), old(r).position(), flags) {
            Ok((v, q)) => res matches Ok(g) && game_matches(g, v) && final(r).position() == q,
            Err(e) => res == Err::<Option<RvGame>, CacheReadError>(e),
        },
{
    proof {
        reveal(game_at);
    }
    if flags & 0x8000 != 0 {
        let c = r.read_u8()?;
        let game = read_game_entries(r, c)?;
        Ok(Some(game))
    } else {
        Ok(None)
    }
}

/// Reads the `i`-th DAT record of a directory.
fn read_dat_entry(r: &mut CSharpCacheReader<'_>, i: usize) -> (res: Result<RvDat, CacheReadError>)
    requires
        old(r).valid(),
    ensures
        final(r).valid(),
        final(r).data() == old(r).data(),
        match dat_entry_at(old(r).data(), old(r).position(), i as nat) {
            Ok((v, q)) => res matches Ok(dat) && dat_matches(dat, v) && final(r).position() == q,
            Err(e) => res == Err::<RvDat, CacheReadError>(e),
        },
{
    let time_stamp = r.read_i64_le()?;
    let dat_flags = r.read_u8()?;
    let n = r.read_u8()?;
    let mut dat = RvDat::new();
    dat.dat_index = #[verifier::truncate] (i as i32);
    dat.time_stamp = time_stamp;
    dat.dat_flags = DatFlags::from_bits_retain(dat_flags);
    let ghost d = r.data();
    let ghost p0 = r.position();
    let ghost mut read: Seq<(u8, Seq<char>)> = Seq::empty();
    let ghost whole = match meta_entries_at(d, p0, n as nat) {
        Err(e) => Err(e),
        Ok((es, q)) => Ok(
            (DatView { dat_index: (i as nat) as i32, time_stamp, flags: dat_flags, entries: es }, q),
        ),
    };
    assert(dat_entry_at(d, old(r).position(), i as nat) == whole);
    let mut k: u8 = 0;
    assert(prepend_meta(read, meta_entries_at(d, p0, n as nat)) == meta_entries_at(d, p0, n as nat)) by {
        if let Ok((rest, q)) = meta_entries_at(d, p0, n as nat) {
            assert(read + rest =~= rest);
        }
    }
    while k < n
        invariant
            r.valid(),
            r.data() == d,
            d == old(r).data(),
            k <= n,
            dat_entry_at(d, old(r).position(), i as nat) == whole,
            whole == match meta_entries_at(d, p0, n as nat) {
                Err(e) => Err(e),
                Ok((es, q)) => Ok(
                    (DatView { dat_index: (i as nat) as i32, time_stamp, flags: dat_flags, entries: es }, q),
                ),
            },
            meta_entries_at(d, p0, n as nat) == prepend_meta(read, meta_entries_at(d, r.position(), (n - k) as nat)),
            forall|id: DatData| #[trigger] dat_meta_lookup(dat.game_meta_data@, id) == dat_value(read, id),
            dat.dat_index == #[verifier::truncate] (i as i32),
            dat.time_stamp == time_stamp,
            dat.dat_flags.bits == dat_flags,
            dat.status == DatUpdateStatus::Correct,
        decreases n - k,
    {
        let ghost pos = r.position();
        let id = r.read_u8()?;
        let val = read_str(r)?;
        let ghost rest = meta_entries_at(d, r.position(), (n - k - 1) as nat);
        let ghost vv = val@;
        match Cache::dat_data_from_u8(id) {
            Some(f) => {
                dat.set_data(f, Some(val));
            },
            None => {},
        }
        proof {
            let e = (id, vv);
            assert(meta_entries_at(d, pos, (n - k) as nat) == prepend_meta(seq![e], rest));
            assert(prepend_meta(read, prepend_meta(seq![e], rest)) == prepend_meta(read.push(e), rest)) by {
                if let Ok((xs, q)) = rest {
                    assert(read + (seq![e] + xs) =~= read.push(e) + xs);
                }
            }
            assert(read.push(e).drop_last() =~= read);
            assert forall|id2: DatData| #[trigger] dat_meta_lookup(dat.game_meta_data@, id2) == dat_value(
                read.push(e),
                id2,
            ) by {
                assert(read.push(e).last() == e);
            }
            read = read.push(e);
        }
        k = k + 1;
    }
    proof {
        assert(meta_entries_at(d, r.position(), 0) == Ok::<(Seq<(u8, Seq<char>)>, int), CacheReadError>(
            (Seq::empty(), r.position()),
        ));
        assert(read + Seq::<(u8, Seq<char>)>::empty() =~= read);
    }
    Ok(dat)
}


fn read_dir_dats(r: &mut CSharpCacheReader<'_>, flags: u32) -> (res: Result<Vec<RvDat>, CacheReadError>)
    requires
        old(r).valid(),
    ensures
        final(r).valid(),
        final(r).data() == old(r).data(),
        match dir_dats_at(old(r).data(), old(r).position(), flags) {
            Ok((vs, q)) => res matches Ok(ds) && ds@.len() == vs.len() && (forall|j: int|
                0 <= j < vs.len() ==> #[trigger] dat_matches(ds@[j], vs[j])) && final(r).position() == q,
            Err(e) => res == Err::<Vec<RvDat>, CacheReadError>(e),
        },
{
    proof {
        reveal(dir_dats_at);
    }
    let mut dats: Vec<RvDat> = Vec::new();
    if flags & 0x20000 == 0 {
        return Ok(dats);
    }
    let c = r.read_i32_le()?;
    let count = c as usize;
    let ghost d = r.data();
    let ghost p0 = r.position();
    let ghost mut views: Seq<DatView> = Seq::empty();
    assert(dir_dats_at(d, old(r).position(), flags) == dats_at(d, p0, count as nat, 0));
    assert(prepend_dats(views, dats_at(d, p0, count as nat, 0)) == dats_at(d, p0, count as nat, 0)) by {
        if let Ok((rest, q)) = dats_at(d, p0, count as nat, 0) {
            assert(views + rest =~= rest);
        }
    }
    let mut i: usize = 0;
    while i < count
        invariant
            r.valid(),
            r.data() == d,
            d == old(r).data(),
            i <= count,
            views.len() == i,
            dats@.len() == i,
            forall|j: int| 0 <= j < i ==> #[trigger] dat_matches(dats@[j], views[j]),
            dir_dats_at(d, old(r).position(), flags) == dats_at(d, p0, count as nat, 0),
            dats_at(d, p0, count as nat, 0) == prepend_dats(views, dats_at(d, r.position(), count as nat, i as nat)),
        decreases count - i,
    {
        let ghost pos = r.position();
        let dat = read_dat_entry(r, i)?;
        proof {
            let v = dat_entry_at(d, pos, i as nat).unwrap().0;
            let rest = dats_at(d, r.position(), count as nat, (i + 1) as nat);
            assert(dats_at(d, pos, count as nat, i as nat) == prepend_dats(seq![v], rest));
            assert(prepend_dats(views, prepend_dats(seq![v], rest)) == prepend_dats(views.push(v), rest)) by {
                if let Ok((xs, q)) = rest {
                    assert(views + (seq![v] + xs) =~= views.push(v) + xs);
                }
            }
            views = views.push(v);
        }
        dats.push(dat);
        i = i + 1;
    }
    proof {
        assert(views + Seq::<DatView>::empty() =~= views);
    }
    Ok(dats)
}

fn read_child_count(r: &mut CSharpCacheReader<'_>, flags: u32) -> (res: Result<usize, CacheReadError>)
    requires
        old(r).valid(),
    ensures
        final(r).valid(),
        final(r).data() == old(r).data(),
        match child_count_at(old(r).data(), old(r).position(), flags) {
            Ok((n, q)) => res matches Ok(c) && c as nat == n && final(r).position() == q,
            Err(e) => res == Err::<usize, CacheReadError>(e),
        },
{
    proof {
        reveal(child_count_at);
    }
    if flags & 0x40000 != 0 {
        let c = r.read_i32_le()?;
        Ok(c as usize)
    } else {
        Ok(0)
    }
}


proof fn lemma_opt_advance(b: Seq<u8>, p: int, present: bool)
    requires
        0 <= p <= b.len(),
    ensures
        opt_u64_at(b, p, present) matches Ok((v, q)) ==> p <= q <= b.len(),
        opt_bytes_at(b, p, present) matches Ok((v, q)) ==> p <= q <= b.len(),
        opt_str_at(b, p, present) matches Ok((v, q)) ==> p <= q <= b.len(),
        opt_u8_at(b, p, present) matches Ok((v, q)) ==> p <= q <= b.len(),
        opt_i32_at(b, p, present) matches Ok((v, q)) ==> p <= q <= b.len(),
        u32_at(b, p) matches Ok((v, q)) ==> p <= q <= b.len(),
{
    lemma_varint_len(b, p);
}

proof fn lemma_tail_rest_advance(b: Seq<u8>, p: int, flags: u32, t: TailView)
    requires
        0 <= p <= b.len(),
    ensures
        tail_rest_at(b, p, flags, t) matches Ok((t2, q)) ==> p <= q <= b.len(),
{
    reveal(tail_rest_at);
    lemma_opt_advance(b, p, has_flag(flags, 0x200));
    if let Ok((m, p1)) = opt_str_at(b, p, has_flag(flags, 0x200)) {
        lemma_opt_advance(b, p1, has_flag(flags, 0x400));
        if let Ok((st, p2)) = opt_str_at(b, p1, has_flag(flags, 0x400)) {
            lemma_opt_advance(b, p2, has_flag(flags, 0x800));
            if let Ok((zi, p3)) = opt_i32_at(b, p2, has_flag(flags, 0x800)) {
                lemma_opt_advance(b, p3, has_flag(flags, 0x1000));
                if let Ok((lh, p4)) = opt_u64_at(b, p3, has_flag(flags, 0x1000)) {
                    lemma_opt_advance(b, p4, has_flag(flags, 0x2000));
                    if let Ok((chd, p5)) = opt_i32_at(b, p4, has_flag(flags, 0x2000)) {
                        lemma_opt_advance(b, p5, has_flag(flags, 0x80000));
                        if let Ok((ts, p6)) = opt_u8_at(b, p5, has_flag(flags, 0x80000)) {
                            lemma_opt_advance(b, p6, false);
                        }
                    }
                }
            }
        }
    }
}

#[verifier::rlimit(50)]
proof fn lemma_tail_advance(b: Seq<u8>, p: int, flags: u32)
    requires
        0 <= p <= b.len(),
    ensures
        tail_at(b, p, flags) matches Ok((t, q)) ==> p <= q <= b.len(),
{
    reveal(tail_at);
    lemma_opt_advance(b, p, has_flag(flags, 0x1));
    if let Ok((size, p1)) = opt_u64_at(b, p, has_flag(flags, 0x1)) {
        lemma_opt_advance(b, p1, has_flag(flags, 0x2));
        if let Ok((crc, p2)) = opt_bytes_at(b, p1, has_flag(flags, 0x2)) {
            lemma_opt_advance(b, p2, has_flag(flags, 0x4));
            if let Ok((sha1, p3)) = opt_bytes_at(b, p2, has_flag(flags, 0x4)) {
                lemma_opt_advance(b, p3, has_flag(flags, 0x8));
                if let Ok((md5, p4)) = opt_bytes_at(b, p3, has_flag(flags, 0x8)) {
                    lemma_opt_advance(b, p4, has_flag(flags, 0x10));
                    if let Ok((header, p5)) = opt_u8_at(b, p4, has_flag(flags, 0x10)) {
                        lemma_opt_advance(b, p5, has_flag(flags, 0x20));
                        if let Ok((alt_size, p6)) = opt_u64_at(b, p5, has_flag(flags, 0x20)) {
                            lemma_opt_advance(b, p6, has_flag(flags, 0x40));
                            if let Ok((alt_crc, p7)) = opt_bytes_at(b, p6, has_flag(flags, 0x40)) {
                                lemma_opt_advance(b, p7, has_flag(flags, 0x80));
                                if let Ok((alt_sha1, p8)) = opt_bytes_at(b, p7, has_flag(flags, 0x80)) {
                                    lemma_opt_advance(b, p8, has_flag(flags, 0x100));
                                    if let Ok((alt_md5, p9)) = opt_bytes_at(b, p8, has_flag(flags, 0x100)) {
                                        let t = TailView {
                                            size,
                                            crc,
                                            sha1,
                                            md5,
                                            header_file_type: header,
                                            alt_size,
                                            alt_crc,
                                            alt_sha1,
                                            alt_md5,
                                            merge: Seq::empty(),
                                            status: None,
                                            local_header_offset: None,
                                            chd_version: None,
                                            to_sort_type: 0,
                                            file_status: 0,
                                        };
                                        lemma_tail_rest_advance(b, p9, flags, t);
                                    }
                                }
                            }
                        }
                    }
                }
            }
        }
    }
}

/// One node of the tree as the cache stores it, with its children.
#[derive(Debug)]
pub struct CacheNode {
    pub head: NodeHead,
    /// The repair status the node's type and statuses give it.
    pub rep_status: RepStatus,
    pub tree_expanded: bool,
    pub tree_checked: TreeSelect,
    pub game: Option<RvGame>,
    pub dir_dats: Vec<RvDat>,
    pub children: Vec<CacheNode>,
    pub tail: NodeTail,
}

/// What a node record holds, as read from the bytes.
pub struct CacheNodeView {
    pub head: HeadView,
    pub tree_expanded: bool,
    pub tree_checked: TreeSelect,
    pub game: Option<Seq<(u8, Seq<char>)>>,
    pub dir_dats: Seq<DatView>,
    pub children: Seq<CacheNodeView>,
    pub tail: TailView,
}

/// `n` holds what `v` says, its children recursively.
pub open spec fn node_matches(n: CacheNode, v: CacheNodeView) -> bool
    decreases n,
{
    &&& head_matches(n.head, v.head)
    &&& n.rep_status == rep_status_table(v.head.file_type, v.head.dat_status, v.head.got_status)
    &&& n.tree_expanded == v.tree_expanded
    &&& n.tree_checked == v.tree_checked
    &&& game_matches(n.game, v.game)
    &&& n.dir_dats@.len() == v.dir_dats.len()
    &&& forall|j: int| 0 <= j < v.dir_dats.len() ==> #[trigger] dat_matches(n.dir_dats@[j], v.dir_dats[j])
    &&& kids_match(n.children@, v.children)
    &&& tail_matches(n.tail, v.tail)
}

/// Each node holds what the view at its position says.
pub open spec fn kids_match(ns: Seq<CacheNode>, vs: Seq<CacheNodeView>) -> bool
    decreases ns,
{
    &&& ns.len() == vs.len()
    &&& (ns.len() > 0 ==> (node_matches(ns[ns.len() - 1], vs[vs.len() - 1]) && kids_match(
        ns.subrange(0, ns.len() - 1),
        vs.subrange(0, vs.len() - 1),
    )))
}

/// Children that match pair up one by one.
pub proof fn lemma_kids_match_index(ns: Seq<CacheNode>, vs: Seq<CacheNodeView>, j: int)
    requires
        kids_match(ns, vs),
        0 <= j < ns.len(),
    ensures
        node_matches(ns[j], vs[j]),
    decreases ns.len(),
{
    if j < ns.len() - 1 {
        lemma_kids_match_index(ns.subrange(0, ns.len() - 1), vs.subrange(0, vs.len() - 1), j);
    }
}

/// The node record at `p` and the position after it: head, tree state, game,
/// DATs, children (each a node record, under the same version; below the
/// root every child but the first is in the ToSort branch), then the tail.
pub open spec fn node_at(b: Seq<u8>, p: int, version: i32, is_root: bool, force: bool) -> Result<
    (CacheNodeView, int),
    CacheReadError,
>
    decreases b.len() - p, 0int,
{
    match head_at(b, p, version, is_root, force) {
        Err(e) => Err(e),
        Ok((h, p1)) => match tree_at(b, p1, h.flags) {
            Err(e) => Err(e),
            Ok((tr, p2)) => match game_at(b, p2, h.flags) {
                Err(e) => Err(e),
                Ok((g, p3)) => match dir_dats_at(b, p3, h.flags) {
                    Err(e) => Err(e),
                    Ok((ds, p4)) => match child_count_at(b, p4, h.flags) {
                        Err(e) => Err(e),
                        Ok((n, p5)) => {
                            proof {
                                lemma_head_advance(b, p, version, is_root, force);
                                lemma_middle_advance(b, p1, h.flags);
                                lemma_middle_advance(b, p2, h.flags);
                                lemma_middle_advance(b, p3, h.flags);
                                lemma_middle_advance(b, p4, h.flags);
                            }
                            node_finish(b, p5, h, tr, g, ds, n, version, is_root, force)
                        },
                    },
                },
            },
        },
    }
}

/// The end of a node record from its children on, given what came before.
pub open spec fn node_finish(
    b: Seq<u8>,
    p: int,
    h: HeadView,
    tr: (bool, TreeSelect),
    g: Option<Seq<(u8, Seq<char>)>>,
    ds: Seq<DatView>,
    n: nat,
    version: i32,
    is_root: bool,
    force: bool,
) -> Result<(CacheNodeView, int), CacheReadError>
    decreases b.len() - p, 2int,
{
    match children_at(b, p, version, is_root, force, n, 0) {
        Err(e) => Err(e),
        Ok((kids, p6)) => match tail_at(b, p6, h.flags) {
            Err(e) => Err(e),
            Ok((t, p7)) => Ok(
                (
                    CacheNodeView {
                        head: h,
                        tree_expanded: tr.0,
                        tree_checked: tr.1,
                        game: g,
                        dir_dats: ds,
                        children: kids,
                        tail: t,
                    },
                    p7,
                ),
            ),
        },
    }
}

/// Children `i..n` of a node from `p`. Every node record takes at least one
/// byte, which the check on the child's end position records.
pub open spec fn children_at(
    b: Seq<u8>,
    p: int,
    version: i32,
    is_root: bool,
    force: bool,
    n: nat,
    i: nat,
) -> Result<(Seq<CacheNodeView>, int), CacheReadError>
    decreases b.len() - p, 1int,
{
    if i >= n {
        Ok((Seq::empty(), p))
    } else {
        match node_at(b, p, version, false, force || (is_root && i > 0)) {
            Err(e) => Err(e),
            Ok((c, q)) => if p < q <= b.len() {
                match children_at(b, q, version, is_root, force, n, i + 1) {
                    Err(e) => Err(e),
                    Ok((rest, q2)) => Ok((seq![c] + rest, q2)),
                }
            } else {
                Err(CacheReadError::Truncated)
            },
        }
    }
}

pub open spec fn prepend_nodes(
    read: Seq<CacheNodeView>,
    r: Result<(Seq<CacheNodeView>, int), CacheReadError>,
) -> Result<(Seq<CacheNodeView>, int), CacheReadError> {
    match r {
        Err(e) => Err(e),
        Ok((rest, q)) => Ok((read + rest, q)),
    }
}

/// A node record always ends after its start and not past the end of the
/// bytes; so does a run of children.
pub proof fn lemma_node_advance(b: Seq<u8>, p: int, version: i32, is_root: bool, force: bool)
    ensures
        node_at(b, p, version, is_root, force) matches Ok((v, q)) ==> 0 <= p < q <= b.len(),
    decreases b.len() - p, 0int,
{
    
    lemma_head_advance(b, p, version, is_root, force);
    if let Ok((h, p1)) = head_at(b, p, version, is_root, force) {
        lemma_middle_advance(b, p1, h.flags);
        if let Ok((tr, p2)) = tree_at(b, p1, h.flags) {
            lemma_middle_advance(b, p2, h.flags);
            if let Ok((g, p3)) = game_at(b, p2, h.flags) {
                lemma_middle_advance(b, p3, h.flags);
                if let Ok((ds, p4)) = dir_dats_at(b, p3, h.flags) {
                    lemma_middle_advance(b, p4, h.flags);
                    if let Ok((n, p5)) = child_count_at(b, p4, h.flags) {
                        lemma_finish_advance(b, p5, h, tr, g, ds, n, version, is_root, force);
                    }
                }
            }
        }
    }
}

pub proof fn lemma_finish_advance(
    b: Seq<u8>,
    p: int,
    h: HeadView,
    tr: (bool, TreeSelect),
    g: Option<Seq<(u8, Seq<char>)>>,
    ds: Seq<DatView>,
    n: nat,
    version: i32,
    is_root: bool,
    force: bool,
)
    requires
        0 <= p <= b.len(),
    ensures
        node_finish(b, p, h, tr, g, ds, n, version, is_root, force) matches Ok((v, q)) ==> p <= q <= b.len(),
    decreases b.len() - p, 2int,
{
    
    lemma_children_advance(b, p, version, is_root, force, n, 0);

    if let Ok((kids, p6)) = children_at(b, p, version, is_root, force, n, 0) {
        lemma_tail_advance(b, p6, h.flags);
    }
}

pub proof fn lemma_children_advance(b: Seq<u8>, p: int, version: i32, is_root: bool, force: bool, n: nat, i: nat)
    requires
        0 <= p <= b.len(),
    ensures
        children_at(b, p, version, is_root, force, n, i) matches Ok((kids, q)) ==> p <= q <= b.len(),
    decreases b.len() - p, 1int,
{
    
    if i < n {
        lemma_node_advance(b, p, version, false, force || (is_root && i > 0));
        if let Ok((c, q)) = node_at(b, p, version, false, force || (is_root && i > 0)) {
            if p < q <= b.len() {
                lemma_children_advance(b, q, version, is_root, force, n, i + 1);
            }
        }
    }
}


/// The value that ends a cache file in the RomVault format.
pub const CSHARP_END_MARKER: u64 = 0x15a600dda7;

/// Why bytes are not a cache file in the RomVault format.
#[derive(Debug, Clone, Copy, PartialEq, Eq, Structural)]
pub enum CSharpCacheError {
    /// Fewer than twelve bytes.
    TooShort,
    /// The version number is neither 2 nor 3.
    NotCSharpCache,
    /// The last eight bytes are not the end marker.
    MissingEndMarker,
    /// The tree of nodes could not be read.
    Read(CacheReadError),
    /// Fewer than eight bytes follow the tree.
    TruncatedAfterRoot,
    /// The eight bytes after the tree are not the end marker.
    InvalidEndMarker,
}

/// Bit 30 of the stored file status: the node was the primary ToSort
/// directory (an older encoding).
pub open spec fn old_primary_bit() -> u32 {
    0x40000000
}

/// Bit 31 of the stored file status: the node was a ToSort cache directory
/// (an older encoding).
pub open spec fn old_cache_bit() -> u32 {
    0x80000000
}

/// A top-level node with the older ToSort bits of its file status moved into
/// its ToSort type (bit 30 to 1, bit 31 to 2) and cleared.
pub open spec fn moved_tosort_bits(c: CacheNodeView) -> CacheNodeView {
    let fs = c.tail.file_status;
    let extra: u8 = (if fs & old_primary_bit() != 0 { 1u8 } else { 0u8 }) | (if fs & old_cache_bit() != 0 {
        2u8
    } else {
        0u8
    });
    CacheNodeView {
        tail: TailView { to_sort_type: c.tail.to_sort_type | extra, file_status: fs & 0x3fffffff, ..c.tail },
        ..c
    }
}

/// When no top-level node is marked both primary and cache ToSort, the older
/// ToSort bits of every top-level node are moved into its ToSort type.
pub open spec fn tosort_updated(root: CacheNodeView) -> CacheNodeView {
    if exists|j: int| 0 <= j < root.children.len() && #[trigger] root.children[j].tail.to_sort_type & 3 == 3 {
        root
    } else {
        CacheNodeView {
            children: Seq::new(root.children.len(), |j: int| moved_tosort_bits(root.children[j])),
            ..root
        }
    }
}

/// What a cache file in the RomVault format decodes to: the version (2 or 3)
/// in the first four bytes, the end marker in the last eight, the root node
/// record from byte 4, and the end marker right after it.
pub open spec fn decode_csharp_spec(b: Seq<u8>) -> Result<CacheNodeView, CSharpCacheError> {
    if b.len() < 12 {
        Err(CSharpCacheError::TooShort)
    } else {
        let version = signed_of(le_value(b, 0, 4), 32) as i32;
        if version != 2 && version != 3 {
            Err(CSharpCacheError::NotCSharpCache)
        } else if le_value(b, b.len() - 8, 8) != CSHARP_END_MARKER {
            Err(CSharpCacheError::MissingEndMarker)
        } else {
            match node_at(b, 4, version, true, false) {
                Err(e) => Err(CSharpCacheError::Read(e)),
                Ok((root, q)) => if b.len() - q < 8 {
                    Err(CSharpCacheError::TruncatedAfterRoot)
                } else if le_value(b, q, 8) != CSHARP_END_MARKER {
                    Err(CSharpCacheError::InvalidEndMarker)
                } else {
                    Ok(tosort_updated(root))
                },
            }
        }
    }
}

/// Children that match one by one match as a whole.
pub proof fn lemma_kids_match_all(ns: Seq<CacheNode>, vs: Seq<CacheNodeView>)
    requires
        ns.len() == vs.len(),
        forall|j: int| 0 <= j < ns.len() ==> #[trigger] node_matches(ns[j], vs[j]),
    ensures
        kids_match(ns, vs),
    decreases ns.len(),
{
    if ns.len() > 0 {
        let ns2 = ns.subrange(0, ns.len() - 1);
        let vs2 = vs.subrange(0, vs.len() - 1);
        assert forall|j: int| 0 <= j < ns2.len() implies #[trigger] node_matches(ns2[j], vs2[j]) by {
            assert(ns2[j] == ns[j] && vs2[j] == vs[j]);
        }
        lemma_kids_match_all(ns2, vs2);
        assert(node_matches(ns[ns.len() - 1], vs[vs.len() - 1]));
    }
}

impl Cache {
    /// Reads the head of a node record.
    fn read_csharp_head(r: &mut CSharpCacheReader<'_>, version: i32, is_root: bool, force: bool) -> (res:
        Result<NodeHead, CacheReadError>)
        requires
            old(r).valid(),
        ensures
            final(r).valid(),
            final(r).data() == old(r).data(),
            match head_at(old(r).data(), old(r).position(), version, is_root, force) {
                Ok((h, q)) => res matches Ok(v) && head_matches(v, h) && final(r).position() == q,
                Err(e) => res == Err::<NodeHead, CacheReadError>(e),
            },
    {
        proof {
            reveal(head_at);
        }
        let file_type = if is_root {
            FileType::Dir
        } else {
            let c = r.read_u8()?;
            file_type_from_code(c)
        };
        let flags = r.read_u32_le()?;
        let name = read_str(r)?;
        let file_name = read_str(r)?;
        let time_stamp = r.read_i64_le()?;
        let dat_index = if flags & 0x10000 != 0 {
            Some(r.read_i32_le()?)
        } else {
            None
        };
        let dc = r.read_u8()?;
        let gc = r.read_u8()?;
        let dat_status = if force {
            DatStatus::InToSort
        } else {
            dat_status_from_code(dc)
        };
        let got_status = got_status_from_code(gc);
        let is_archive = file_type == FileType::Zip || file_type == FileType::SevenZip;
        let mut zip_dat_struct: u8 = 0;
        if is_archive {
            if version >= 3 {
                zip_dat_struct = r.read_u8()?;
            } else if dat_status == DatStatus::InDatCollect {
                zip_dat_struct = if file_type == FileType::SevenZip {
                    8
                } else {
                    1
                };
            }
        }
        let mut zip_struct = ZipStructure::NoStructure;
        if is_archive {
            let zs = r.read_u8()?;
            zip_struct = zip_structure_from_code(zs);
            if file_type == FileType::SevenZip && zip_struct == ZipStructure::ZipTrrnt {
                zip_struct = ZipStructure::SevenZipSLZMA;
            }
            if file_type == FileType::SevenZip && dat_status == DatStatus::InDatCollect && zip_dat_struct == 1 {
                zip_dat_struct = 8;
            }
        }
        Ok(
            NodeHead {
                file_type,
                flags,
                name,
                file_name,
                time_stamp,
                dat_index,
                dat_status,
                got_status,
                zip_dat_struct,
                zip_struct,
            },
        )
    }
    /// Reads the tail of a node record.
    #[verifier::rlimit(30)]
    fn read_csharp_tail(r: &mut CSharpCacheReader<'_>, flags: u32) -> (res: Result<NodeTail, CacheReadError>)
        requires
            old(r).valid(),
        ensures
            final(r).valid(),
            final(r).data() == old(r).data(),
            match tail_at(old(r).data(), old(r).position(), flags) {
                Ok((t, q)) => res matches Ok(v) && tail_matches(v, t) && final(r).position() == q,
                Err(e) => res == Err::<NodeTail, CacheReadError>(e),
            },
    {
        proof {
            reveal(tail_at);
        }
        let size = read_opt_u64(r, flags & 0x1 != 0)?;
        let crc = read_opt_bytes(r, flags & 0x2 != 0)?;
        let sha1 = read_opt_bytes(r, flags & 0x4 != 0)?;
        let md5 = read_opt_bytes(r, flags & 0x8 != 0)?;
        let header_file_type = read_opt_u8(r, flags & 0x10 != 0)?;
        let alt_size = read_opt_u64(r, flags & 0x20 != 0)?;
        let alt_crc = read_opt_bytes(r, flags & 0x40 != 0)?;
        let alt_sha1 = read_opt_bytes(r, flags & 0x80 != 0)?;
        let alt_md5 = read_opt_bytes(r, flags & 0x100 != 0)?;
        let t = NodeTail {
            size,
            crc,
            sha1,
            md5,
            header_file_type,
            alt_size,
            alt_crc,
            alt_sha1,
            alt_md5,
            merge: String::new(),
            status: None,
            local_header_offset: None,
            chd_version: None,
            to_sort_type: ToSortDirType { bits: 0 },
            file_status: 0,
        };
        let ghost tv = TailView {
            size: t.size,
            crc: opt_vec_view(t.crc),
            sha1: opt_vec_view(t.sha1),
            md5: opt_vec_view(t.md5),
            header_file_type: t.header_file_type,
            alt_size: t.alt_size,
            alt_crc: opt_vec_view(t.alt_crc),
            alt_sha1: opt_vec_view(t.alt_sha1),
            alt_md5: opt_vec_view(t.alt_md5),
            merge: Seq::empty(),
            status: None,
            local_header_offset: None,
            chd_version: None,
            to_sort_type: 0,
            file_status: 0,
        };
        Self::read_csharp_tail_rest(r, flags, t, Ghost(tv))
    }

    /// Reads the second half of a node tail into `t`.
    fn read_csharp_tail_rest(r: &mut CSharpCacheReader<'_>, flags: u32, t: NodeTail, Ghost(tv): Ghost<TailView>) -> (res:
        Result<NodeTail, CacheReadError>)
        requires
            old(r).valid(),
            tail_matches(t, tv),
        ensures
            final(r).valid(),
            final(r).data() == old(r).data(),
            match tail_rest_at(old(r).data(), old(r).position(), flags, tv) {
                Ok((t2, q)) => res matches Ok(v) && tail_matches(v, t2) && final(r).position() == q,
                Err(e) => res == Err::<NodeTail, CacheReadError>(e),
            },
    {
        proof {
            reveal(tail_rest_at);
        }
        let merge = match read_opt_str(r, flags & 0x200 != 0)? {
            Some(m) => m,
            None => String::new(),
        };
        let status = read_opt_str(r, flags & 0x400 != 0)?;
        let _zip_index = read_opt_i32(r, flags & 0x800 != 0)?;
        let local_header_offset = read_opt_u64(r, flags & 0x1000 != 0)?;
        let chd_version = match read_opt_i32(r, flags & 0x2000 != 0)? {
            Some(v) => Some(v as u32),
            None => None,
        };
        let to_sort_bits = read_opt_u8(r, flags & 0x80000 != 0)?;
        let to_sort_type = ToSortDirType { bits: to_sort_bits };
        let file_status = r.read_u32_le()?;
        Ok(NodeTail { merge, status, local_header_offset, chd_version, to_sort_type, file_status, ..t })
    }
    /// Reads a node record and, depth first, the records of its children.
    /// The root record carries no type code (it is a directory); below the
    /// root, every child but the first, with all it holds, is marked as in
    /// the ToSort branch, as is everything under a node so marked.
    pub fn read_csharp_rvfile(r: &mut CSharpCacheReader<'_>, version: i32, is_root: bool, force_in_to_sort: bool) -> (res:
        Result<CacheNode, CacheReadError>)
        requires
            old(r).valid(),
        ensures
            final(r).valid(),
            final(r).data() == old(r).data(),
            match node_at(old(r).data(), old(r).position(), version, is_root, force_in_to_sort) {
                Ok((v, q)) => res matches Ok(n) && node_matches(n, v) && final(r).position() == q,
                Err(e) => res == Err::<CacheNode, CacheReadError>(e),
            },
        decreases old(r).data().len() - old(r).position(),
    {
        let ghost d = r.data();
        let ghost p0 = r.position();
        let head = Self::read_csharp_head(r, version, is_root, force_in_to_sort)?;
        let ghost p1 = r.position();
        let rep_status = rep_status_for(head.file_type, head.dat_status, head.got_status);
        let (tree_expanded, tree_checked) = read_tree(r, head.flags)?;
        let ghost p2 = r.position();
        let game = read_game(r, head.flags)?;
        let ghost p3 = r.position();
        let dir_dats = read_dir_dats(r, head.flags)?;
        let ghost p4 = r.position();
        let count = read_child_count(r, head.flags)?;
        let ghost p5 = r.position();
        let ghost h = head_at(d, p0, version, is_root, force_in_to_sort).unwrap().0;
        let ghost tv = tree_at(d, p1, h.flags).unwrap().0;
        let ghost gv = game_at(d, p2, h.flags).unwrap().0;
        let ghost dsv = dir_dats_at(d, p3, h.flags).unwrap().0;
        proof {
            lemma_head_advance(d, p0, version, is_root, force_in_to_sort);
            lemma_middle_advance(d, p1, head.flags);
            lemma_middle_advance(d, p2, head.flags);
            lemma_middle_advance(d, p3, head.flags);
            lemma_middle_advance(d, p4, head.flags);
            assert(prepend_nodes(Seq::empty(), children_at(d, p5, version, is_root, force_in_to_sort, count as nat, 0))
                == children_at(d, p5, version, is_root, force_in_to_sort, count as nat, 0)) by {
                if let Ok((rest, q)) = children_at(d, p5, version, is_root, force_in_to_sort, count as nat, 0) {
                    assert(Seq::<CacheNodeView>::empty() + rest =~= rest);
                }
            }
            assert(node_at(d, p0, version, is_root, force_in_to_sort) == node_finish(
                d,
                p5,
                h,
                tv,
                gv,
                dsv,
                count as nat,
                version,
                is_root,
                force_in_to_sort,
            )) by {
                
            }
        }
        let mut children: Vec<CacheNode> = Vec::new();
        let ghost mut kids: Seq<CacheNodeView> = Seq::empty();
        let mut i: usize = 0;
        while i < count
            invariant
                r.valid(),
                r.data() == d,
                d == old(r).data(),
                p0 == old(r).position(),
                p0 < p5 <= r.position(),
                node_at(d, p0, version, is_root, force_in_to_sort) == node_finish(
                    d,
                    p5,
                    h,
                    tv,
                    gv,
                    dsv,
                    count as nat,
                    version,
                    is_root,
                    force_in_to_sort,
                ),
                i <= count,
                children@.len() == i,
                kids.len() == i,
                kids_match(children@, kids),
                children_at(d, p5, version, is_root, force_in_to_sort, count as nat, 0) == prepend_nodes(
                    kids,
                    children_at(d, r.position(), version, is_root, force_in_to_sort, count as nat, i as nat),
                ),
            decreases count - i,
        {
            let ghost pos = r.position();
            let child_force = force_in_to_sort || (is_root && i > 0);
            let child = match Self::read_csharp_rvfile(r, version, false, child_force) {
                Ok(c) => c,
                Err(e) => {
                    proof {
                        
                        assert(children_at(d, pos, version, is_root, force_in_to_sort, count as nat, i as nat)
                            == Err::<(Seq<CacheNodeView>, int), CacheReadError>(e));
                    }
                    return Err(e);
                },
            };
            proof {
                lemma_node_advance(d, pos, version, false, child_force);
                let c = node_at(d, pos, version, false, child_force).unwrap().0;
                let rest = children_at(d, r.position(), version, is_root, force_in_to_sort, count as nat, (i + 1) as nat);
                assert(children_at(d, pos, version, is_root, force_in_to_sort, count as nat, i as nat)
                    == prepend_nodes(seq![c], rest)) by {
                    
                }
                assert(prepend_nodes(kids, prepend_nodes(seq![c], rest)) == prepend_nodes(kids.push(c), rest)) by {
                    if let Ok((xs, q)) = rest {
                        assert(kids + (seq![c] + xs) =~= kids.push(c) + xs);
                    }
                }
                assert(children@.push(child).subrange(0, children@.len() as int) =~= children@);
                assert(kids.push(c).subrange(0, kids.len() as int) =~= kids);
                kids = kids.push(c);
            }
            children.push(child);
            i = i + 1;
        }
        let ghost p6 = r.position();
        proof {
            assert(kids + Seq::<CacheNodeView>::empty() =~= kids);
            assert(children_at(d, p6, version, is_root, force_in_to_sort, count as nat, count as nat) == Ok::<
                (Seq<CacheNodeView>, int),
                CacheReadError,
            >((Seq::empty(), p6))) by {
                
            }
            assert(node_finish(d, p5, h, tv, gv, dsv, count as nat, version, is_root, force_in_to_sort) == match tail_at(
                d,
                p6,
                h.flags,
            ) {
                Err(e) => Err(e),
                Ok((t, p7)) => Ok(
                    (
                        CacheNodeView {
                            head: h,
                            tree_expanded: tv.0,
                            tree_checked: tv.1,
                            game: gv,
                            dir_dats: dsv,
                            children: kids,
                            tail: t,
                        },
                        p7,
                    ),
                ),
            }) by {
                
            }
        }
        let tail = Self::read_csharp_tail(r, head.flags)?;
        let node = CacheNode { head, rep_status, tree_expanded, tree_checked, game, dir_dats, children, tail };
        proof {
            let t = tail_at(d, p6, h.flags).unwrap().0;
            let v = CacheNodeView {
                head: h,
                tree_expanded: tv.0,
                tree_checked: tv.1,
                game: gv,
                dir_dats: dsv,
                children: kids,
                tail: t,
            };
            assert(node_at(d, p0, version, is_root, force_in_to_sort) == Ok::<(CacheNodeView, int), CacheReadError>((v, r.position())));
        }
        Ok(node)
    }
    /// Moves the older ToSort bits of the top-level nodes into their ToSort
    /// types, unless some top-level node is already marked both primary and
    /// cache ToSort.
    pub fn csharp_update_fix_tosort_status(root: &mut CacheNode, Ghost(v): Ghost<CacheNodeView>)
        requires
            node_matches(*old(root), v),
        ensures
            node_matches(*final(root), tosort_updated(v)),
    {
        let ghost n0 = root.children@;
        proof {
            assert forall|j: int| 0 <= j < n0.len() implies #[trigger] node_matches(n0[j], v.children[j]) by {
                lemma_kids_match_index(n0, v.children, j);
            }
        }
        let mut k: usize = 0;
        while k < root.children.len()
            invariant
                root.children@ == n0,
                node_matches(*root, v),
                k <= n0.len(),
                forall|j: int| 0 <= j < k ==> v.children[j].tail.to_sort_type & 3 != 3,
            decreases n0.len() - k,
        {
            let bits = root.children[k].tail.to_sort_type.bits;
            if bits & 3 == 3 {
                proof {
                    lemma_kids_match_index(n0, v.children, k as int);
                }
                return;
            }
            proof {
                lemma_kids_match_index(n0, v.children, k as int);
            }
            k = k + 1;
        }
        let ghost target = tosort_updated(v);
        proof {
            assert(!(exists|j: int| 0 <= j < v.children.len() && #[trigger] v.children[j].tail.to_sort_type & 3 == 3));
        }
        let mut i: usize = 0;
        while i < root.children.len()
            invariant
                root.children@.len() == n0.len(),
                n0.len() == v.children.len(),
                target.children.len() == n0.len(),
                forall|j: int| 0 <= j < n0.len() ==> #[trigger] node_matches(n0[j], v.children[j]),
                forall|j: int| 0 <= j < n0.len() ==> #[trigger] target.children[j] == moved_tosort_bits(v.children[j]),
                forall|j: int| 0 <= j < i ==> #[trigger] node_matches(root.children@[j], target.children[j]),
                forall|j: int| i <= j < n0.len() ==> #[trigger] root.children@[j] == n0[j],
                i <= n0.len(),
                root.head == old(root).head,
                root.rep_status == old(root).rep_status,
                root.tree_expanded == old(root).tree_expanded,
                root.tree_checked == old(root).tree_checked,
                root.game == old(root).game,
                root.dir_dats == old(root).dir_dats,
                root.tail == old(root).tail,
            decreases n0.len() - i,
        {
            let fs = root.children[i].tail.file_status;
            let old_bits = root.children[i].tail.to_sort_type.bits;
            let primary: u8 = if fs & 0x40000000 != 0 {
                1
            } else {
                0
            };
            let cache: u8 = if fs & 0x80000000 != 0 {
                2
            } else {
                0
            };
            root.children[i].tail.to_sort_type = ToSortDirType { bits: old_bits | (primary | cache) };
            root.children[i].tail.file_status = fs & 0x3fffffff;
            proof {
                let c = n0[i as int];
                let cv = v.children[i as int];
                assert(node_matches(c, cv));
                assert(root.children@[i as int].children == c.children);
                assert(node_matches(root.children@[i as int], target.children[i as int]));
            }
            i = i + 1;
        }
        proof {
            lemma_kids_match_all(root.children@, target.children);
        }
    }

    /// Decodes a whole cache file in the RomVault format.
    pub fn decode_csharp_cache_from_bytes(bytes: &[u8]) -> (res: Result<CacheNode, CSharpCacheError>)
        ensures
            match decode_csharp_spec(bytes@) {
                Ok(v) => res matches Ok(n) && node_matches(n, v),
                Err(e) => res == Err::<CacheNode, CSharpCacheError>(e),
            },
    {
        if bytes.len() < 12 {
            return Err(CSharpCacheError::TooShort);
        }
        let mut r = CSharpCacheReader::new(bytes);
        let version = match r.read_i32_le() {
            Ok(v) => v,
            Err(e) => return Err(CSharpCacheError::Read(e)),
        };
        if version != 2 && version != 3 {
            return Err(CSharpCacheError::NotCSharpCache);
        }
        if le_u64_at(bytes, bytes.len() - 8) != CSHARP_END_MARKER {
            return Err(CSharpCacheError::MissingEndMarker);
        }
        let mut root = match Self::read_csharp_rvfile(&mut r, version, true, false) {
            Ok(n) => n,
            Err(e) => return Err(CSharpCacheError::Read(e)),
        };
        if r.remaining() < 8 {
            return Err(CSharpCacheError::TruncatedAfterRoot);
        }
        let eof = match r.read_u64_le() {
            Ok(v) => v,
            Err(e) => return Err(CSharpCacheError::Read(e)),
        };
        if eof != CSHARP_END_MARKER {
            return Err(CSharpCacheError::InvalidEndMarker);
        }
        let ghost v = node_at(bytes@, 4, version, true, false).unwrap().0;
        Self::csharp_update_fix_tosort_status(&mut root, Ghost(v));
        Ok(root)
    }
}

} // verus!
