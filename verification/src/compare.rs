//! Matching a physically scanned file against the database entry that expects
//! it: by name, type, header, timestamp, size and hashes (primary and
//! header-stripped "alt" variants).

use std::cmp::Ordering;
use vstd::prelude::*;
use vstd::utf8::*;
use crate::arr_byte::{lex_order, lemma_lex_order_zero, slices_equal};
use crate::enums::{FileType, GotStatus};
use crate::file_scanning::{bytes_order, ordering_from};
use crate::text::str_bytes;

verus! {

/// The bytes of an optional hash, by value.
pub open spec fn opt_seq(o: Option<Vec<u8>>) -> Option<Seq<u8>> {
    match o {
        Some(v) => Some(v@),
        None => None,
    }
}

/// An expected value constrains the actual one only when it is present.
pub open spec fn field_ok<T>(expected: Option<T>, actual: Option<T>) -> bool {
    expected is None || expected == actual
}

/// The first value when present, else the second.
pub open spec fn or_alt<T>(a: Option<T>, b: Option<T>) -> Option<T> {
    if a is Some {
        a
    } else {
        b
    }
}

/// Size and hashes of a file, with their alternatives computed after a
/// recognised header was stripped.
#[derive(Debug, Clone)]
pub struct FileHashes {
    pub size: Option<u64>,
    pub crc: Option<Vec<u8>>,
    pub sha1: Option<Vec<u8>>,
    pub md5: Option<Vec<u8>>,
    pub alt_size: Option<u64>,
    pub alt_crc: Option<Vec<u8>>,
    pub alt_sha1: Option<Vec<u8>>,
    pub alt_md5: Option<Vec<u8>>,
}

/// Mathematical value of [`FileHashes`].
pub struct HashesView {
    pub size: Option<u64>,
    pub crc: Option<Seq<u8>>,
    pub sha1: Option<Seq<u8>>,
    pub md5: Option<Seq<u8>>,
    pub alt_size: Option<u64>,
    pub alt_crc: Option<Seq<u8>>,
    pub alt_sha1: Option<Seq<u8>>,
    pub alt_md5: Option<Seq<u8>>,
}

impl View for FileHashes {
    type V = HashesView;

    open spec fn view(&self) -> HashesView {
        HashesView {
            size: self.size,
            crc: opt_seq(self.crc),
            sha1: opt_seq(self.sha1),
            md5: opt_seq(self.md5),
            alt_size: self.alt_size,
            alt_crc: opt_seq(self.alt_crc),
            alt_sha1: opt_seq(self.alt_sha1),
            alt_md5: opt_seq(self.alt_md5),
        }
    }
}

impl HashesView {
    /// Some primary size or hash is known.
    pub open spec fn has_primary_identity(self) -> bool {
        self.size is Some || self.crc is Some || self.sha1 is Some || self.md5 is Some
    }

    /// Some hash, primary or alternative, is known.
    pub open spec fn has_hash_identity(self) -> bool {
        self.crc is Some || self.sha1 is Some || self.md5 is Some || self.alt_crc is Some
            || self.alt_sha1 is Some || self.alt_md5 is Some
    }

    /// Some alternative size or hash is known.
    pub open spec fn has_alt_identity(self) -> bool {
        self.alt_size is Some || self.alt_crc is Some || self.alt_sha1 is Some
            || self.alt_md5 is Some
    }

    /// The alternative size, falling back to the primary one.
    pub open spec fn eff_size(self) -> Option<u64> {
        or_alt(self.alt_size, self.size)
    }

    pub open spec fn eff_crc(self) -> Option<Seq<u8>> {
        or_alt(self.alt_crc, self.crc)
    }

    pub open spec fn eff_sha1(self) -> Option<Seq<u8>> {
        or_alt(self.alt_sha1, self.sha1)
    }

    pub open spec fn eff_md5(self) -> Option<Seq<u8>> {
        or_alt(self.alt_md5, self.md5)
    }
}

/// The expected primary identity matches the scanned primary values.
pub open spec fn standard_match(d: HashesView, t: HashesView) -> bool {
    &&& d.has_primary_identity()
    &&& field_ok(d.size, t.size)
    &&& field_ok(d.crc, t.crc)
    &&& field_ok(d.sha1, t.sha1)
    &&& field_ok(d.md5, t.md5)
}

/// The expected primary identity matches the scanned alternative values.
pub open spec fn primary_vs_alt_match(d: HashesView, t: HashesView) -> bool {
    &&& t.has_alt_identity()
    &&& d.has_primary_identity()
    &&& field_ok(d.size, t.eff_size())
    &&& field_ok(d.crc, t.eff_crc())
    &&& field_ok(d.sha1, t.eff_sha1())
    &&& field_ok(d.md5, t.eff_md5())
}

/// The expected alternative identity matches the scanned alternative values.
pub open spec fn alt_match(d: HashesView, t: HashesView) -> bool {
    &&& d.has_alt_identity()
    &&& field_ok(d.alt_size, t.eff_size())
    &&& field_ok(d.alt_crc, t.eff_crc())
    &&& field_ok(d.alt_sha1, t.eff_sha1())
    &&& field_ok(d.alt_md5, t.eff_md5())
}

/// Hash comparison: `(matched, matched_alt)`.
pub open spec fn hash_match(d: HashesView, t: HashesView) -> (bool, bool) {
    if standard_match(d, t) {
        (true, false)
    } else if primary_vs_alt_match(d, t) || alt_match(d, t) {
        (true, true)
    } else {
        (false, false)
    }
}

fn bytes_field_ok(expected: &Option<Vec<u8>>, actual: &Option<Vec<u8>>) -> (r: bool)
    ensures
        r == field_ok(opt_seq(*expected), opt_seq(*actual)),
{
    match expected {
        None => true,
        Some(e) => match actual {
            None => false,
            Some(a) => slices_equal(e.as_slice(), a.as_slice()),
        },
    }
}

fn size_field_ok(expected: Option<u64>, actual: Option<u64>) -> (r: bool)
    ensures
        r == field_ok(expected, actual),
{
    match expected {
        None => true,
        Some(e) => match actual {
            None => false,
            Some(a) => e == a,
        },
    }
}

fn pick_bytes<'a>(a: &'a Option<Vec<u8>>, b: &'a Option<Vec<u8>>) -> (r: &'a Option<Vec<u8>>)
    ensures
        opt_seq(*r) == or_alt(opt_seq(*a), opt_seq(*b)),
{
    if a.is_some() {
        a
    } else {
        b
    }
}

fn opt_u64_eq(a: Option<u64>, b: Option<u64>) -> (r: bool)
    ensures
        r == (a == b),
{
    match a {
        None => b.is_none(),
        Some(x) => match b {
            None => false,
            Some(y) => x == y,
        },
    }
}

fn pick_size(a: Option<u64>, b: Option<u64>) -> (r: Option<u64>)
    ensures
        r == or_alt(a, b),
{
    if a.is_some() {
        a
    } else {
        b
    }
}

impl FileHashes {
    /// Some primary size or hash is known.
    pub fn has_primary_identity(&self) -> (r: bool)
        ensures
            r == self@.has_primary_identity(),
    {
        self.size.is_some() || self.crc.is_some() || self.sha1.is_some() || self.md5.is_some()
    }

    /// Some hash, primary or alternative, is known.
    pub fn has_hash_identity(&self) -> (r: bool)
        ensures
            r == self@.has_hash_identity(),
    {
        self.crc.is_some() || self.sha1.is_some() || self.md5.is_some() || self.alt_crc.is_some()
            || self.alt_sha1.is_some() || self.alt_md5.is_some()
    }

    /// Some alternative size or hash is known.
    pub fn has_alt_identity(&self) -> (r: bool)
        ensures
            r == self@.has_alt_identity(),
    {
        self.alt_size.is_some() || self.alt_crc.is_some() || self.alt_sha1.is_some()
            || self.alt_md5.is_some()
    }
}

/// How thoroughly the scanner looked at files.
#[derive(Debug, Clone, Copy, PartialEq, Eq, Structural)]
pub enum EScanLevel {
    Level1,
    Level2,
    Level3,
}

/// What the database expects of a file: the values the matching rules read.
pub struct DbFile {
    pub name: String,
    pub file_type: FileType,
    /// Header type with the "required" bit taken off.
    pub header_type: u8,
    /// A header of `header_type` must be present.
    pub header_required: bool,
    pub deep_scanned: bool,
    pub file_mod_time_stamp: i64,
    pub hashes: FileHashes,
}

/// A file as the scanner found it.
pub struct ScannedFile {
    pub name: String,
    pub file_type: FileType,
    pub got_status: GotStatus,
    pub header_file_type: u8,
    pub deep_scanned: bool,
    pub file_mod_time_stamp: i64,
    pub hashes: FileHashes,
}

/// Loose files and archive members: the types that carry their own hashes.
pub open spec fn leaf_type(t: FileType) -> bool {
    t == FileType::File || t == FileType::FileOnly || t == FileType::FileZip
        || t == FileType::FileSevenZip
}

/// Types that may be matched in the first phase: equal, or both leaves.
pub open spec fn compatible_types(a: FileType, b: FileType) -> bool {
    a == b || (leaf_type(a) && leaf_type(b))
}

/// Directories and archives, matched by name and type alone.
pub open spec fn container_type(t: FileType) -> bool {
    t == FileType::Dir || t == FileType::Zip || t == FileType::SevenZip
}

/// A required header is present in the scanned file.
pub open spec fn header_ok(db: DbFile, test: ScannedFile) -> bool {
    !db.header_required || db.header_type == test.header_file_type
}

/// The names are the same string.
pub open spec fn same_name(db: DbFile, test: ScannedFile) -> bool {
    db.name@ == test.name@
}

/// First-phase verdict `(matched, matched_alt)`.
pub open spec fn phase_1_spec(db: DbFile, test: ScannedFile, level: EScanLevel) -> (bool, bool) {
    let d = db.hashes@;
    let t = test.hashes@;
    if !same_name(db, test) || !compatible_types(db.file_type, test.file_type) {
        (false, false)
    } else if container_type(db.file_type) {
        (true, false)
    } else if !header_ok(db, test) {
        (false, false)
    } else if t.has_hash_identity() {
        hash_match(d, t)
    } else if level != EScanLevel::Level1 && !db.deep_scanned {
        (false, false)
    } else if db.file_mod_time_stamp != test.file_mod_time_stamp {
        (false, false)
    } else if d.size == t.size {
        (true, false)
    } else if t.alt_size is Some && d.size is Some && d.size == t.eff_size() {
        (true, true)
    } else if d.alt_size is Some && d.alt_size == t.eff_size() {
        (true, true)
    } else {
        (false, false)
    }
}

/// In the first phase a file matches only under the same name and with a
/// compatible type; a match is an alternative match only if it is a match;
/// a directory or archive under the same name and of a compatible type
/// always matches, plainly.
pub proof fn law_phase_1_needs_name_and_type(db: DbFile, test: ScannedFile, level: EScanLevel)
    ensures
        phase_1_spec(db, test, level).0 ==> same_name(db, test) && compatible_types(db.file_type, test.file_type),
        phase_1_spec(db, test, level).1 ==> phase_1_spec(db, test, level).0,
        same_name(db, test) && compatible_types(db.file_type, test.file_type) && container_type(db.file_type)
            ==> phase_1_spec(db, test, level) == (true, false),
        phase_1_spec(db, test, level).0 && !container_type(db.file_type) ==> header_ok(db, test),
{
}

/// An expected value is absent, or present and equal to the actual one.
pub open spec fn expected_agrees<T>(expected: Option<T>, actual: Option<T>) -> bool {
    match expected {
        None => true,
        Some(x) => actual == Some(x),
    }
}

/// The expected primary values all agree with the scanned values `size`,
/// `crc`, `sha1`, `md5`, and at least one of them is present.
pub open spec fn identity_agrees(
    d: HashesView,
    size: Option<u64>,
    crc: Option<Seq<u8>>,
    sha1: Option<Seq<u8>>,
    md5: Option<Seq<u8>>,
) -> bool {
    &&& (d.size.is_some() || d.crc.is_some() || d.sha1.is_some() || d.md5.is_some())
    &&& expected_agrees(d.size, size)
    &&& expected_agrees(d.crc, crc)
    &&& expected_agrees(d.sha1, sha1)
    &&& expected_agrees(d.md5, md5)
}

/// In the first phase a hashed file (of known kind, same name, compatible
/// type and header) matches plainly exactly when the expected primary values
/// all agree with its primary values (and one of them is present). An
/// alternative match needs the expected primary values to agree with its
/// header-stripped values (each falling back to the primary one), or the
/// expected header-stripped values to do so.
pub proof fn law_phase_1_hashed_match(db: DbFile, test: ScannedFile, level: EScanLevel)
    requires
        same_name(db, test),
        compatible_types(db.file_type, test.file_type),
        !container_type(db.file_type),
        header_ok(db, test),
        test.hashes@.has_hash_identity(),
    ensures
        ({
            let d = db.hashes@;
            let t = test.hashes@;
            phase_1_spec(db, test, level) == (true, false) <==> identity_agrees(d, t.size, t.crc, t.sha1, t.md5)
        }),
        ({
            let d = db.hashes@;
            let t = test.hashes@;
            phase_1_spec(db, test, level) == (true, true) ==> (identity_agrees(
                d,
                or_alt(t.alt_size, t.size),
                or_alt(t.alt_crc, t.crc),
                or_alt(t.alt_sha1, t.sha1),
                or_alt(t.alt_md5, t.md5),
            ) || identity_agrees(
                HashesView {
                    size: d.alt_size,
                    crc: d.alt_crc,
                    sha1: d.alt_sha1,
                    md5: d.alt_md5,
                    alt_size: None,
                    alt_crc: None,
                    alt_sha1: None,
                    alt_md5: None,
                },
                or_alt(t.alt_size, t.size),
                or_alt(t.alt_crc, t.crc),
                or_alt(t.alt_sha1, t.sha1),
                or_alt(t.alt_md5, t.md5),
            ))
        }),
        phase_1_spec(db, test, level).0 || phase_1_spec(db, test, level) == (false, false),
{
}

/// In the first phase a file of known kind with no hash at all matches only
/// by size: the expected size equals the scanned size, or the scanned
/// header-stripped size is known and equals the expected size, or the
/// expected header-stripped size is known and equals the scanned
/// header-stripped size (the plain size when that is unknown). A match on
/// the plain sizes is not an alternative match. Conversely, with names,
/// types and header agreeing, the scan level allowing it, equal time stamps
/// and equal sizes, the file matches.
pub proof fn law_phase_1_hashless_match_is_by_size(db: DbFile, test: ScannedFile, level: EScanLevel)
    ensures
        ({
            let d = db.hashes@;
            let t = test.hashes@;
            let r = phase_1_spec(db, test, level);
            (!container_type(db.file_type) && !t.has_hash_identity() && r.0) ==> {
                &&& same_name(db, test)
                &&& db.file_mod_time_stamp == test.file_mod_time_stamp
                &&& (d.size == t.size || (t.alt_size is Some && d.size is Some && d.size == t.alt_size)
                    || (d.alt_size is Some && (if t.alt_size is Some {
                    d.alt_size == t.alt_size
                } else {
                    d.alt_size == t.size
                })))
                &&& (!r.1 <==> d.size == t.size)
            }
        }),
        ({
            let d = db.hashes@;
            let t = test.hashes@;
            (same_name(db, test) && compatible_types(db.file_type, test.file_type) && !container_type(
                db.file_type,
            ) && header_ok(db, test) && !t.has_hash_identity() && (level == EScanLevel::Level1
                || db.deep_scanned) && db.file_mod_time_stamp == test.file_mod_time_stamp && d.size
                == t.size) ==> phase_1_spec(db, test, level) == (true, false)
        }),
{
}

/// The scanned values cover every kind of hash that the database expects.
pub open spec fn covers_required_hashes(d: HashesView, t: HashesView) -> bool {
    &&& (d.crc is None && d.alt_crc is None) || t.crc is Some || t.alt_crc is Some
    &&& (d.sha1 is None && d.alt_sha1 is None) || t.sha1 is Some || t.alt_sha1 is Some
    &&& (d.md5 is None && d.alt_md5 is None) || t.md5 is Some || t.alt_md5 is Some
}

/// The file must be hashed from disk before the second phase can judge it.
pub open spec fn deep_scan_needed(db: DbFile, test: ScannedFile) -> bool {
    &&& leaf_type(test.file_type)
    &&& !test.deep_scanned || !test.hashes@.has_hash_identity() || !covers_required_hashes(
        db.hashes@,
        test.hashes@,
    )
    &&& test.got_status != GotStatus::FileLocked
}

/// The scanned file after a deep scan's result `sf` was taken over.
pub open spec fn rescanned(test: ScannedFile, sf: ScannedFile) -> ScannedFile {
    ScannedFile {
        name: test.name,
        file_type: test.file_type,
        got_status: sf.got_status,
        header_file_type: sf.header_file_type,
        deep_scanned: true,
        file_mod_time_stamp: sf.file_mod_time_stamp,
        hashes: sf.hashes,
    }
}

/// The scanned file once the second phase has looked at it: rescanned when a
/// scan was needed and one came back.
pub open spec fn after_deep_scan(db: DbFile, test: ScannedFile, rescan: Option<ScannedFile>) -> ScannedFile {
    if deep_scan_needed(db, test) && rescan is Some {
        rescanned(test, rescan.unwrap())
    } else {
        test
    }
}

/// Second-phase verdict on a file that has been deep-scanned where needed.
pub open spec fn phase_2_verdict(db: DbFile, test: ScannedFile) -> (bool, bool) {
    if test.got_status == GotStatus::FileLocked || !header_ok(db, test) {
        (false, false)
    } else {
        hash_match(db.hashes@, test.hashes@)
    }
}

/// Second-phase verdict that ignores names: when the entry expects no hash,
/// only an equal, positive timestamp lets the comparison go on.
pub open spec fn name_agnostic_verdict(db: DbFile, test: ScannedFile) -> (bool, bool) {
    if test.got_status == GotStatus::FileLocked || !header_ok(db, test) {
        (false, false)
    } else if !db.hashes@.has_hash_identity() && !(db.file_mod_time_stamp > 0
        && db.file_mod_time_stamp == test.file_mod_time_stamp) {
        (false, false)
    } else {
        hash_match(db.hashes@, test.hashes@)
    }
}

/// Three-way order of the names of an entry and a scanned file: -1, 0 or 1.
pub fn compare_db_to_file(db_file: &DbFile, file_c: &ScannedFile) -> (r: i32)
    ensures
        r == lex_order(encode_utf8(db_file.name@), encode_utf8(file_c.name@)),
{
    let o = bytes_order(str_bytes(db_file.name.as_str()), str_bytes(file_c.name.as_str()));
    proof {
        lemma_lex_order_zero(encode_utf8(db_file.name@), encode_utf8(file_c.name@));
    }
    match o {
        Ordering::Less => -1,
        Ordering::Equal => 0,
        Ordering::Greater => 1,
    }
}

/// Matching rules between database entries and scanned files.
pub struct FileCompare;

impl FileCompare {
    /// A database file with some hash can be matched without its name.
    pub fn db_file_has_name_agnostic_identity(db_file: &DbFile) -> (r: bool)
        ensures
            r == db_file.hashes@.has_hash_identity(),
    {
        db_file.hashes.has_hash_identity()
    }

    /// A scanned file has some hash.
    pub fn scanned_file_has_hash_identity(test_file: &ScannedFile) -> (r: bool)
        ensures
            r == test_file.hashes@.has_hash_identity(),
    {
        test_file.hashes.has_hash_identity()
    }


    /// Name order used by the phases; names compare by their bytes.
    fn compare_names(db_name: &str, test_name: &str, index_case: i32) -> (r: Ordering)
        ensures
            r == ordering_from(lex_order(encode_utf8(db_name@), encode_utf8(test_name@))),
            (r == Ordering::Equal) == (db_name@ == test_name@),
    {
        let r = bytes_order(str_bytes(db_name), str_bytes(test_name));
        proof {
            lemma_lex_order_zero(encode_utf8(db_name@), encode_utf8(test_name@));
            encode_utf8_decode_utf8(db_name@);
            encode_utf8_decode_utf8(test_name@);
        }
        r
    }

    fn phase_2_supported_leaf_type(file_type: FileType) -> (r: bool)
        ensures
            r == leaf_type(file_type),
    {
        match file_type {
            FileType::File | FileType::FileOnly | FileType::FileZip | FileType::FileSevenZip => true,
            _ => false,
        }
    }

    fn phase_1_compatible_type_pair(db_file_type: FileType, test_file_type: FileType) -> (r: bool)
        ensures
            r == compatible_types(db_file_type, test_file_type),
    {
        db_file_type == test_file_type || (Self::phase_2_supported_leaf_type(db_file_type)
            && Self::phase_2_supported_leaf_type(test_file_type))
    }

    fn header_requirement_matches(db_file: &DbFile, test_file: &ScannedFile) -> (r: bool)
        ensures
            r == header_ok(*db_file, *test_file),
    {
        !db_file.header_required || db_file.header_type == test_file.header_file_type
    }

    fn scanned_file_covers_required_hashes(db_file: &DbFile, test_file: &ScannedFile) -> (r: bool)
        ensures
            r == covers_required_hashes(db_file.hashes@, test_file.hashes@),
    {
        let d = &db_file.hashes;
        let t = &test_file.hashes;
        let has_crc = t.crc.is_some() || t.alt_crc.is_some();
        let has_sha1 = t.sha1.is_some() || t.alt_sha1.is_some();
        let has_md5 = t.md5.is_some() || t.alt_md5.is_some();
        ((d.crc.is_none() && d.alt_crc.is_none()) || has_crc) && ((d.sha1.is_none()
            && d.alt_sha1.is_none()) || has_sha1) && ((d.md5.is_none() && d.alt_md5.is_none())
            || has_md5)
    }

    /// First-phase test: exact name, compatible type, required header, then
    /// hashes when the scan produced any, else timestamp and size.
    pub fn phase_1_test(
        db_file: &DbFile,
        test_file: &ScannedFile,
        e_scan_level: EScanLevel,
        index_case: i32,
    ) -> (r: (bool, bool))
        ensures
            r == phase_1_spec(*db_file, *test_file, e_scan_level),
    {
        let mut matched_alt = false;
        let retv = Self::compare_names(db_file.name.as_str(), test_file.name.as_str(), index_case);
        match retv {
            Ordering::Equal => {},
            _ => {
                return (false, matched_alt);
            },
        }
        let db_file_type = db_file.file_type;
        let test_file_type = test_file.file_type;
        if !Self::phase_1_compatible_type_pair(db_file_type, test_file_type) {
            return (false, matched_alt);
        }
        if db_file_type == FileType::Dir || db_file_type == FileType::Zip || db_file_type
            == FileType::SevenZip {
            return (true, matched_alt);
        }
        if !Self::header_requirement_matches(db_file, test_file) {
            return (false, matched_alt);
        }
        if test_file.hashes.has_hash_identity() {
            let matched = Self::compare_with_alt(&db_file.hashes, &test_file.hashes, &mut matched_alt);
            return (matched, matched_alt);
        }
        if e_scan_level != EScanLevel::Level1 && !db_file.deep_scanned {
            return (false, matched_alt);
        }
        if db_file.file_mod_time_stamp != test_file.file_mod_time_stamp {
            return (false, matched_alt);
        }
        let d = &db_file.hashes;
        let t = &test_file.hashes;
        if opt_u64_eq(d.size, t.size) {
            return (true, matched_alt);
        }
        let alt_test_size = pick_size(t.alt_size, t.size);
        if t.alt_size.is_some() && d.size.is_some() && opt_u64_eq(d.size, alt_test_size) {
            matched_alt = true;
            return (true, matched_alt);
        }
        if d.alt_size.is_some() && opt_u64_eq(d.alt_size, alt_test_size) {
            matched_alt = true;
            return (true, matched_alt);
        }
        (false, matched_alt)
    }
    /// The file must be hashed from disk before the second phase can judge it.
    pub fn deep_scan_needed(db_file: &DbFile, test_file: &ScannedFile) -> (r: bool)
        ensures
            r == deep_scan_needed(*db_file, *test_file),
    {
        if !Self::phase_2_supported_leaf_type(test_file.file_type) {
            return false;
        }
        let locked = match test_file.got_status {
            GotStatus::FileLocked => true,
            _ => false,
        };
        (!test_file.deep_scanned || !test_file.hashes.has_hash_identity()
            || !Self::scanned_file_covers_required_hashes(db_file, test_file)) && !locked
    }

    /// Takes a deep scan's result over when one was needed and came back.
    fn take_deep_scan(db_file: &DbFile, test_file: &mut ScannedFile, rescan: Option<ScannedFile>)
        ensures
            *final(test_file) == after_deep_scan(*db_file, *old(test_file), rescan),
    {
        if Self::deep_scan_needed(db_file, test_file) {
            match rescan {
                Some(sf) => {
                    test_file.file_mod_time_stamp = sf.file_mod_time_stamp;
                    test_file.header_file_type = sf.header_file_type;
                    test_file.hashes = sf.hashes;
                    test_file.got_status = sf.got_status;
                    test_file.deep_scanned = true;
                },
                None => {},
            }
        }
    }

    fn is_locked(g: GotStatus) -> (r: bool)
        ensures
            r == (g == GotStatus::FileLocked),
    {
        match g {
            GotStatus::FileLocked => true,
            _ => false,
        }
    }

    /// Second-phase test. When the names are equal and both types are leaves,
    /// the scanned file takes over `rescan` (what hashing it from disk gave, if
    /// that was needed and succeeded) and is judged by its hashes; otherwise
    /// nothing matches and the file is left as it was.
    pub fn phase_2_test(
        db_file: &DbFile,
        test_file: &mut ScannedFile,
        index_case: i32,
        rescan: Option<ScannedFile>,
    ) -> (r: (bool, bool))
        ensures
            !(same_name(*db_file, *old(test_file)) && leaf_type(db_file.file_type) && leaf_type(
                old(test_file).file_type,
            )) ==> r == (false, false) && *final(test_file) == *old(test_file),
            same_name(*db_file, *old(test_file)) && leaf_type(db_file.file_type) && leaf_type(
                old(test_file).file_type,
            ) ==> *final(test_file) == after_deep_scan(*db_file, *old(test_file), rescan) && r
                == phase_2_verdict(*db_file, *final(test_file)),
    {
        let mut matched_alt = false;
        let retv = Self::compare_names(db_file.name.as_str(), test_file.name.as_str(), index_case);
        match retv {
            Ordering::Equal => {},
            _ => {
                return (false, matched_alt);
            },
        }
        if !Self::phase_2_supported_leaf_type(db_file.file_type)
            || !Self::phase_2_supported_leaf_type(test_file.file_type) {
            return (false, matched_alt);
        }
        Self::take_deep_scan(db_file, test_file, rescan);
        if Self::is_locked(test_file.got_status) {
            return (false, matched_alt);
        }
        if !Self::header_requirement_matches(db_file, test_file) {
            return (false, matched_alt);
        }
        let matched = Self::compare_with_alt(&db_file.hashes, &test_file.hashes, &mut matched_alt);
        (matched, matched_alt)
    }

    /// Second-phase test that ignores names: both types must be leaves; after
    /// the deep scan, an entry without any expected hash needs an equal,
    /// positive timestamp before its size and hashes are compared.
    pub fn phase_2_name_agnostic_test(
        db_file: &DbFile,
        test_file: &mut ScannedFile,
        rescan: Option<ScannedFile>,
    ) -> (r: (bool, bool))
        ensures
            !(leaf_type(db_file.file_type) && leaf_type(old(test_file).file_type)) ==> r == (
                false,
                false,
            ) && *final(test_file) == *old(test_file),
            leaf_type(db_file.file_type) && leaf_type(old(test_file).file_type) ==> *final(test_file)
                == after_deep_scan(*db_file, *old(test_file), rescan) && r == name_agnostic_verdict(
                *db_file,
                *final(test_file),
            ),
    {
        let mut matched_alt = false;
        if !Self::phase_2_supported_leaf_type(db_file.file_type)
            || !Self::phase_2_supported_leaf_type(test_file.file_type) {
            return (false, matched_alt);
        }
        Self::take_deep_scan(db_file, test_file, rescan);
        if Self::is_locked(test_file.got_status) {
            return (false, matched_alt);
        }
        if !Self::header_requirement_matches(db_file, test_file) {
            return (false, matched_alt);
        }
        if !db_file.hashes.has_hash_identity() {
            let timestamp_confident = db_file.file_mod_time_stamp > 0 && db_file.file_mod_time_stamp
                == test_file.file_mod_time_stamp;
            if !timestamp_confident {
                return (false, matched_alt);
            }
        }
        let matched = Self::compare_with_alt(&db_file.hashes, &test_file.hashes, &mut matched_alt);
        (matched, matched_alt)
    }

    /// Compares the hashes of an expected entry with those of a scanned file.
    /// On a match `matched_alt` tells whether alternative values were used; on
    /// no match it is left as it was.
    fn compare_with_alt(db: &FileHashes, test: &FileHashes, matched_alt: &mut bool) -> (r: bool)
        ensures
            r == hash_match(db@, test@).0,
            r ==> *final(matched_alt) == hash_match(db@, test@).1,
            !r ==> *final(matched_alt) == *old(matched_alt),
    {
        let has_primary_identity = db.has_primary_identity();
        let match_ok = has_primary_identity && size_field_ok(db.size, test.size)
            && bytes_field_ok(&db.crc, &test.crc) && bytes_field_ok(&db.sha1, &test.sha1)
            && bytes_field_ok(&db.md5, &test.md5);
        if match_ok {
            *matched_alt = false;
            return true;
        }
        let alt_test_size = pick_size(test.alt_size, test.size);
        let alt_test_crc = pick_bytes(&test.alt_crc, &test.crc);
        let alt_test_sha1 = pick_bytes(&test.alt_sha1, &test.sha1);
        let alt_test_md5 = pick_bytes(&test.alt_md5, &test.md5);
        if test.has_alt_identity() {
            let primary_vs_alt_ok = has_primary_identity && size_field_ok(db.size, alt_test_size)
                && bytes_field_ok(&db.crc, alt_test_crc) && bytes_field_ok(&db.sha1, alt_test_sha1)
                && bytes_field_ok(&db.md5, alt_test_md5);
            if primary_vs_alt_ok {
                *matched_alt = true;
                return true;
            }
        }
        let alt_ok = size_field_ok(db.alt_size, alt_test_size) && bytes_field_ok(
            &db.alt_crc,
            alt_test_crc,
        ) && bytes_field_ok(&db.alt_sha1, alt_test_sha1) && bytes_field_ok(
            &db.alt_md5,
            alt_test_md5,
        );
        if alt_ok && db.has_alt_identity() {
            *matched_alt = true;
            return true;
        }
        false
    }
}

} // verus!
