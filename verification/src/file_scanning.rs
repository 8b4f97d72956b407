//! Name ordering rules used when the scanner walks a directory or an archive
//! alongside the database: plain byte order, directory order (ASCII-case
//! insensitive first, exact bytes to break ties), TorrentZip member order, and
//! TorrentZip 7z member order (by extension, then name, then path).

use std::cmp::Ordering;
use vstd::prelude::*;
use vstd::utf8::*;
use crate::arr_byte::{i_compare, lex_order, or_empty, opt_view};
use crate::enums::{DatStatus, FileType};
use crate::compare::{DbFile, EScanLevel, ScannedFile, leaf_type};
use crate::text::{ascii_lower, ascii_lower_byte, str_bytes};

verus! {

/// The `Ordering` of a three-way result: negative, zero or positive.
pub open spec fn ordering_from(v: int) -> Ordering {
    if v < 0 {
        Ordering::Less
    } else if v == 0 {
        Ordering::Equal
    } else {
        Ordering::Greater
    }
}

/// ASCII lower-casing of every byte.
pub open spec fn lower_bytes(b: Seq<u8>) -> Seq<u8> {
    b.map_values(|x: u8| ascii_lower(x))
}

/// Lexicographic byte order of two byte slices.
pub fn bytes_order(a: &[u8], b: &[u8]) -> (r: Ordering)
    ensures
        r == ordering_from(lex_order(a@, b@)),
{
    let v = i_compare(Some(a), Some(b));
    assert(or_empty(opt_view(Some(a))) == a@);
    assert(or_empty(opt_view(Some(b))) == b@);
    if v < 0 {
        Ordering::Less
    } else if v == 0 {
        Ordering::Equal
    } else {
        Ordering::Greater
    }
}

pub(crate) fn lowered(b: &[u8]) -> (r: Vec<u8>)
    ensures
        r@ == lower_bytes(b@),
{
    let mut out: Vec<u8> = Vec::new();
    let mut i: usize = 0;
    while i < b.len()
        invariant
            i <= b@.len(),
            out@ == lower_bytes(b@.subrange(0, i as int)),
        decreases b@.len() - i,
    {
        out.push(ascii_lower_byte(b[i]));
        assert(lower_bytes(b@.subrange(0, i + 1)) =~= lower_bytes(b@.subrange(0, i as int)).push(
            ascii_lower(b@[i as int]),
        ));
        i = i + 1;
    }
    assert(b@.subrange(0, b@.len() as int) =~= b@);
    out
}

/// Directory order: ASCII-case-insensitive byte order, ties broken by exact bytes.
pub open spec fn dir_order(a: Seq<u8>, b: Seq<u8>) -> Ordering {
    if lex_order(lower_bytes(a), lower_bytes(b)) != 0 {
        ordering_from(lex_order(lower_bytes(a), lower_bytes(b)))
    } else {
        ordering_from(lex_order(a, b))
    }
}

/// The order with its sides swapped.
pub open spec fn reversed(o: Ordering) -> Ordering {
    match o {
        Ordering::Less => Ordering::Greater,
        Ordering::Equal => Ordering::Equal,
        Ordering::Greater => Ordering::Less,
    }
}

proof fn lemma_ordering_from_reverse(x: Seq<u8>, y: Seq<u8>)
    ensures
        ordering_from(lex_order(x, y)) == reversed(ordering_from(lex_order(y, x))),
{
    crate::arr_byte::lemma_lex_order_antisymmetric(x, y);
}

/// Directory order swaps with its arguments, and ties only equal names.
pub proof fn law_dir_order_antisymmetric(a: Seq<u8>, b: Seq<u8>)
    ensures
        dir_order(a, b) == reversed(dir_order(b, a)),
        dir_order(a, b) == Ordering::Equal <==> a == b,
{
    lemma_ordering_from_reverse(lower_bytes(a), lower_bytes(b));
    lemma_ordering_from_reverse(a, b);
    crate::arr_byte::lemma_lex_order_antisymmetric(lower_bytes(a), lower_bytes(b));
    crate::arr_byte::lemma_lex_order_zero(lower_bytes(a), lower_bytes(b));
    crate::arr_byte::lemma_lex_order_zero(a, b);
}

/// Directory order is transitive.
pub proof fn law_dir_order_transitive(a: Seq<u8>, b: Seq<u8>, c: Seq<u8>)
    requires
        dir_order(a, b) == Ordering::Less,
        dir_order(b, c) == Ordering::Less,
    ensures
        dir_order(a, c) == Ordering::Less,
{
    let (la, lb, lc) = (lower_bytes(a), lower_bytes(b), lower_bytes(c));
    crate::arr_byte::lemma_lex_order_zero(la, lb);
    crate::arr_byte::lemma_lex_order_zero(lb, lc);
    crate::arr_byte::lemma_lex_order_zero(la, lc);
    crate::arr_byte::lemma_lex_order_zero(a, b);
    crate::arr_byte::lemma_lex_order_zero(b, c);
    crate::arr_byte::lemma_lex_order_zero(a, c);
    if lex_order(la, lb) < 0 && lex_order(lb, lc) < 0 {
        crate::arr_byte::lemma_lex_order_transitive(la, lb, lc);
    } else if lex_order(la, lb) == 0 && lex_order(lb, lc) == 0 {
        crate::arr_byte::lemma_lex_order_transitive(a, b, c);
    }
}

/// TorrentZip 7z member order swaps with its arguments.
pub proof fn law_seven_zip_order_antisymmetric(a: Seq<u8>, b: Seq<u8>)
    ensures
        seven_zip_order(a, b) == reversed(seven_zip_order(b, a)),
{
    let (pa, na, ea) = split_7zip_spec(a);
    let (pb, nb, eb) = split_7zip_spec(b);
    lemma_ordering_from_reverse(ea, eb);
    lemma_ordering_from_reverse(na, nb);
    lemma_ordering_from_reverse(pa, pb);
    crate::arr_byte::lemma_lex_order_antisymmetric(ea, eb);
    crate::arr_byte::lemma_lex_order_antisymmetric(na, nb);
}

/// TorrentZip 7z member order is transitive.
pub proof fn law_seven_zip_order_transitive(a: Seq<u8>, b: Seq<u8>, c: Seq<u8>)
    requires
        seven_zip_order(a, b) == Ordering::Less,
        seven_zip_order(b, c) == Ordering::Less,
    ensures
        seven_zip_order(a, c) == Ordering::Less,
{
    let (pa, na, ea) = split_7zip_spec(a);
    let (pb, nb, eb) = split_7zip_spec(b);
    let (pc, nc, ec) = split_7zip_spec(c);
    crate::arr_byte::lemma_lex_order_zero(ea, eb);
    crate::arr_byte::lemma_lex_order_zero(eb, ec);
    crate::arr_byte::lemma_lex_order_zero(ea, ec);
    crate::arr_byte::lemma_lex_order_zero(na, nb);
    crate::arr_byte::lemma_lex_order_zero(nb, nc);
    crate::arr_byte::lemma_lex_order_zero(na, nc);
    crate::arr_byte::lemma_lex_order_zero(pa, pb);
    crate::arr_byte::lemma_lex_order_zero(pb, pc);
    crate::arr_byte::lemma_lex_order_zero(pa, pc);
    if lex_order(ea, eb) < 0 && lex_order(eb, ec) < 0 {
        crate::arr_byte::lemma_lex_order_transitive(ea, eb, ec);
    } else if lex_order(ea, eb) == 0 && lex_order(eb, ec) == 0 {
        if lex_order(na, nb) < 0 && lex_order(nb, nc) < 0 {
            crate::arr_byte::lemma_lex_order_transitive(na, nb, nc);
        } else if lex_order(na, nb) == 0 && lex_order(nb, nc) == 0 {
            crate::arr_byte::lemma_lex_order_transitive(pa, pb, pc);
        }
    }
}

/// Last position of byte `x` in `b`, or -1.
pub open spec fn last_index_of(b: Seq<u8>, x: u8) -> int
    decreases b.len(),
{
    if b.len() == 0 {
        -1
    } else if b.last() == x {
        b.len() - 1
    } else {
        last_index_of(b.drop_last(), x)
    }
}

/// Bytes of a 7z member name split into (directory path, stem, extension):
/// the path is what precedes the last '/', the extension what follows the
/// last '.' of the rest.
pub open spec fn split_7zip_spec(b: Seq<u8>) -> (Seq<u8>, Seq<u8>, Seq<u8>) {
    let d = last_index_of(b, 0x2f);
    let path = if d >= 0 { b.subrange(0, d) } else { Seq::empty() };
    let name = if d >= 0 { b.subrange(d + 1, b.len() as int) } else { b };
    let e = last_index_of(name, 0x2e);
    if e >= 0 {
        (path, name.subrange(0, e), name.subrange(e + 1, name.len() as int))
    } else {
        (path, name, Seq::empty())
    }
}

/// TorrentZip 7z member order: by extension, then stem, then path (bytes).
pub open spec fn seven_zip_order(a: Seq<u8>, b: Seq<u8>) -> Ordering {
    let (pa, na, ea) = split_7zip_spec(a);
    let (pb, nb, eb) = split_7zip_spec(b);
    if lex_order(ea, eb) != 0 {
        ordering_from(lex_order(ea, eb))
    } else if lex_order(na, nb) != 0 {
        ordering_from(lex_order(na, nb))
    } else {
        ordering_from(lex_order(pa, pb))
    }
}

fn last_index(b: &[u8], x: u8) -> (r: Option<usize>)
    ensures
        match r {
            Some(i) => i == last_index_of(b@, x) && i < b@.len() && b@[i as int] == x,
            None => last_index_of(b@, x) == -1,
        },
{
    let mut i = b.len();
    assert(b@.subrange(0, b@.len() as int) =~= b@);
    while i > 0
        invariant
            i <= b@.len(),
            last_index_of(b@, x) == last_index_of(b@.subrange(0, i as int), x),
        decreases i,
    {
        assert(b@.subrange(0, i as int).drop_last() =~= b@.subrange(0, i - 1));
        if b[i - 1] == x {
            return Some(i - 1);
        }
        i = i - 1;
    }
    None
}

proof fn lemma_last_index_range(b: Seq<u8>, x: u8)
    ensures
        -1 <= last_index_of(b, x) < b.len(),
        last_index_of(b, x) >= 0 ==> b[last_index_of(b, x)] == x,
    decreases b.len(),
{
    if b.len() > 0 && b.last() != x {
        lemma_last_index_range(b.drop_last(), x);
    }
}

/// Splits `s` at the ASCII byte `b[i]`: the text before it and the text after it.
fn split_around_ascii(s: &str, i: usize) -> (res: (&str, &str))
    requires
        i < encode_utf8(s@).len(),
        encode_utf8(s@)[i as int] < 0x80,
    ensures
        encode_utf8(res.0@) == encode_utf8(s@).subrange(0, i as int),
        encode_utf8(res.1@) == encode_utf8(s@).subrange(i + 1, encode_utf8(s@).len() as int),
{
    let ghost bytes = encode_utf8(s@);
    proof {
        encode_utf8_valid_utf8(s@);
        is_char_boundary_iff_not_is_continuation_byte(bytes, i as int);
    }
    let (head, rest) = s.split_at(i);
    let ghost rb = encode_utf8(rest@);
    proof {
        encode_utf8_valid_utf8(rest@);
        assert(rb == bytes.subrange(i as int, bytes.len() as int));
        assert(rb[0] == bytes[i as int]);
        reveal_with_fuel(is_char_boundary, 2);
        assert(is_leading_byte_width_1(rb[0]));
        assert(is_char_boundary(rb, 1));
    }
    let (_sep, tail) = rest.split_at(1);
    assert(encode_utf8(tail@) =~= bytes.subrange(i + 1, bytes.len() as int));
    (head, tail)
}

/// Lexicographic order of the ASCII-lower-cased bytes, computed byte by byte
/// over the common length and then by length.
fn lowered_prefix_order(a: &[u8], b: &[u8]) -> (v: i32)
    ensures
        v == lex_order(lower_bytes(a@), lower_bytes(b@)),
{
    let len = if a.len() < b.len() { a.len() } else { b.len() };
    let ghost la = lower_bytes(a@);
    let ghost lb = lower_bytes(b@);
    let mut i: usize = 0;
    assert(la.skip(0) =~= la);
    assert(lb.skip(0) =~= lb);
    while i < len
        invariant
            len <= a@.len(),
            len <= b@.len(),
            len == a@.len() || len == b@.len(),
            i <= len,
            la == lower_bytes(a@),
            lb == lower_bytes(b@),
            lex_order(la, lb) == lex_order(la.skip(i as int), lb.skip(i as int)),
        decreases len - i,
    {
        let ca = ascii_lower_byte(a[i]);
        let cb = ascii_lower_byte(b[i]);
        assert(la.skip(i as int)[0] == ca);
        assert(lb.skip(i as int)[0] == cb);
        if ca < cb {
            return -1;
        }
        if ca > cb {
            return 1;
        }
        assert(la.skip(i as int).drop_first() =~= la.skip(i + 1));
        assert(lb.skip(i as int).drop_first() =~= lb.skip(i + 1));
        i = i + 1;
    }
    if a.len() < b.len() {
        assert(la.skip(i as int).len() == 0);
        return -1;
    }
    if a.len() > b.len() {
        assert(lb.skip(i as int).len() == 0);
        return 1;
    }
    assert(la.skip(i as int).len() == 0 && lb.skip(i as int).len() == 0);
    0
}

/// Directories and archives.
pub open spec fn is_container_type(t: FileType) -> bool {
    t == FileType::Dir || t == FileType::Zip || t == FileType::SevenZip
}

/// Every member of an archive is a directory or has some hash.
pub open spec fn archive_deep_scanned(children: Seq<DbFile>) -> bool {
    forall|i: int| 0 <= i < children.len() ==> is_container_type(#[trigger] children[i].file_type)
        || children[i].hashes@.has_hash_identity()
}

/// A found file stands for a DAT entry that is missing: the entry is in a
/// DAT (neither unlisted nor in ToSort), neither is a directory or archive,
/// and their types are the same or both plain or member files.
pub open spec fn marks_corrupt(db: DbFile, db_dat_status: DatStatus, file: ScannedFile) -> bool {
    &&& db_dat_status != DatStatus::NotInDat
    &&& db_dat_status != DatStatus::InToSort
    &&& !is_container_type(db.file_type)
    &&& !is_container_type(file.file_type)
    &&& (db.file_type == file.file_type || (leaf_type(db.file_type) && leaf_type(file.file_type)))
}

/// The members of a matched archive are scanned: when its time stamp
/// changed, always at level 3, at level 2 when some member lacks hashes, never
/// at level 1.
pub open spec fn scans_archive_contents(
    db: DbFile,
    db_children: Seq<DbFile>,
    file: ScannedFile,
    level: EScanLevel,
) -> bool {
    if db.file_mod_time_stamp != file.file_mod_time_stamp {
        true
    } else {
        match level {
            EScanLevel::Level3 => true,
            EScanLevel::Level2 => !archive_deep_scanned(db_children),
            EScanLevel::Level1 => false,
        }
    }
}

/// The FileScanning name rules.
pub struct FileScanning;

impl FileScanning {
    /// Order used to group names: byte order (names compare case-sensitively).
    pub fn compare_names_for_group(left: &str, right: &str) -> (r: Ordering)
        ensures
            r == ordering_from(lex_order(encode_utf8(left@), encode_utf8(right@))),
    {
        bytes_order(str_bytes(left), str_bytes(right))
    }

    /// ASCII lower-casing of a byte.
    pub fn ascii_lower(byte: u8) -> (r: u8)
        ensures
            r == ascii_lower(byte),
    {
        ascii_lower_byte(byte)
    }

    /// Directory order of two names.
    pub fn compare_dir_names_case(left: &str, right: &str) -> (r: Ordering)
        ensures
            r == dir_order(encode_utf8(left@), encode_utf8(right@)),
    {
        let a = str_bytes(left);
        let b = str_bytes(right);
        let la = lowered(a);
        let lb = lowered(b);
        let res = bytes_order(la.as_slice(), lb.as_slice());
        match res {
            Ordering::Equal => bytes_order(a, b),
            _ => res,
        }
    }

    /// TorrentZip member order: bytes compared ASCII-case-insensitively, then
    /// the shorter name first, then exact bytes.
    pub fn compare_trrnt_zip_names_case(left: &str, right: &str) -> (r: Ordering)
        ensures
            r == dir_order(encode_utf8(left@), encode_utf8(right@)),
    {
        let a = str_bytes(left);
        let b = str_bytes(right);
        let v = lowered_prefix_order(a, b);
        if v < 0 {
            Ordering::Less
        } else if v > 0 {
            Ordering::Greater
        } else {
            bytes_order(a, b)
        }
    }

    /// Splits a 7z member name into (path, stem, extension); see [`split_7zip_spec`].
    pub fn split_7zip_filename(filename: &str) -> (res: (&str, &str, &str))
        ensures
            (encode_utf8(res.0@), encode_utf8(res.1@), encode_utf8(res.2@)) == split_7zip_spec(
                encode_utf8(filename@),
            ),
    {
        let b = str_bytes(filename);
        let (path, name) = match last_index(b, 0x2f) {
            Some(i) => split_around_ascii(filename, i),
            None => {
                let (empty, all) = filename.split_at(0);
                proof {
                    encode_utf8_valid_utf8(filename@);
                    is_char_boundary_start_end_of_seq(encode_utf8(filename@));
                }
                assert(encode_utf8(empty@) =~= Seq::<u8>::empty());
                assert(encode_utf8(all@) =~= b@);
                (empty, all)
            },
        };
        let nb = str_bytes(name);
        match last_index(nb, 0x2e) {
            Some(j) => {
                let (stem, ext) = split_around_ascii(name, j);
                (path, stem, ext)
            },
            None => {
                proof {
                    encode_utf8_valid_utf8(name@);
                    is_char_boundary_start_end_of_seq(encode_utf8(name@));
                }
                let (_all, empty) = name.split_at(nb.len());
                assert(encode_utf8(empty@) =~= Seq::<u8>::empty());
                (path, name, empty)
            },
        }
    }

    /// TorrentZip 7z member order of two names.
    pub fn compare_trrnt_7zip_names(left: &str, right: &str) -> (r: Ordering)
        ensures
            r == seven_zip_order(encode_utf8(left@), encode_utf8(right@)),
    {
        let (path_a, name_a, ext_a) = Self::split_7zip_filename(left);
        let (path_b, name_b, ext_b) = Self::split_7zip_filename(right);
        let res = bytes_order(str_bytes(ext_a), str_bytes(ext_b));
        match res {
            Ordering::Equal => {},
            _ => return res,
        }
        let res = bytes_order(str_bytes(name_a), str_bytes(name_b));
        match res {
            Ordering::Equal => {},
            _ => return res,
        }
        bytes_order(str_bytes(path_a), str_bytes(path_b))
    }

    /// Order of the children of a container: TorrentZip order in a zip, 7z order
    /// in a 7z, directory order otherwise.
    pub fn compare_db_child_names(container_type: FileType, left: &str, right: &str) -> (r: Ordering)
        ensures
            r == (match container_type {
                FileType::Zip => dir_order(encode_utf8(left@), encode_utf8(right@)),
                FileType::SevenZip => seven_zip_order(encode_utf8(left@), encode_utf8(right@)),
                _ => dir_order(encode_utf8(left@), encode_utf8(right@)),
            }),
    {
        match container_type {
            FileType::Zip => Self::compare_trrnt_zip_names_case(left, right),
            FileType::SevenZip => Self::compare_trrnt_7zip_names(left, right),
            _ => Self::compare_dir_names_case(left, right),
        }
    }
    /// Whether every member of an archive is a directory or has some hash.
    pub fn archive_is_deep_scanned(db_children: &[DbFile]) -> (r: bool)
        ensures
            r == archive_deep_scanned(db_children@),
    {
        let mut i: usize = 0;
        while i < db_children.len()
            invariant
                i <= db_children@.len(),
                forall|j: int| 0 <= j < i ==> is_container_type(#[trigger] db_children@[j].file_type)
                    || db_children@[j].hashes@.has_hash_identity(),
            decreases db_children@.len() - i,
        {
            let c = &db_children[i];
            let container = c.file_type == FileType::Dir || c.file_type == FileType::Zip || c.file_type
                == FileType::SevenZip;
            if !container && !c.hashes.has_hash_identity() {
                return false;
            }
            i = i + 1;
        }
        true
    }

    /// Whether the members of a matched archive are scanned.
    pub fn should_scan_archive_contents(
        db_child: &DbFile,
        db_children: &[DbFile],
        file_child: &ScannedFile,
        scan_level: EScanLevel,
    ) -> (r: bool)
        ensures
            r == scans_archive_contents(*db_child, db_children@, *file_child, scan_level),
    {
        if db_child.file_mod_time_stamp != file_child.file_mod_time_stamp {
            return true;
        }
        match scan_level {
            EScanLevel::Level3 => true,
            EScanLevel::Level2 => !Self::archive_is_deep_scanned(db_children),
            EScanLevel::Level1 => false,
        }
    }

    /// Whether a found file left unmatched marks a DAT entry as corrupt.
    pub fn should_mark_corrupt(db_child: &DbFile, db_dat_status: DatStatus, file_child: &ScannedFile) -> (r: bool)
        ensures
            r == marks_corrupt(*db_child, db_dat_status, *file_child),
    {
        let leaf_db = match db_child.file_type {
            FileType::File | FileType::FileOnly | FileType::FileZip | FileType::FileSevenZip => true,
            _ => false,
        };
        let leaf_file = match file_child.file_type {
            FileType::File | FileType::FileOnly | FileType::FileZip | FileType::FileSevenZip => true,
            _ => false,
        };
        let db_container = db_child.file_type == FileType::Dir || db_child.file_type == FileType::Zip
            || db_child.file_type == FileType::SevenZip;
        let file_container = file_child.file_type == FileType::Dir || file_child.file_type == FileType::Zip
            || file_child.file_type == FileType::SevenZip;
        db_dat_status != DatStatus::NotInDat && db_dat_status != DatStatus::InToSort && !db_container
            && !file_container && (db_child.file_type == file_child.file_type || (leaf_db && leaf_file))
    }
}

} // verus!
