//! Repair status of a node before a fix pass: what its type, DAT status and
//! physical status make of it, and the ignore patterns that mark a stray
//! file as ignored.

use vstd::prelude::*;
use crate::enums::{DatStatus, FileType, GotStatus, RepStatus, ZipStructure, zip_structure_code, zip_structure_code_spec};
use crate::csharp_cache::{zip_structure_from_code, zip_structure_of_code};
use crate::patterns::{boundary_ok, db_pattern_spec, extract_db_pattern, matches_pattern_folded, pattern_matches_folded_spec};
use crate::text::{str_bytes, str_trim, trim_chars};
use crate::enums::ReportStatus;
use crate::repair_status::StatusNode;
use vstd::utf8::encode_utf8;

verus! {

/// Files and archives: the nodes that are collected as a whole.
pub open spec fn collectable(t: FileType) -> bool {
    t == FileType::File || t == FileType::FileZip || t == FileType::FileSevenZip || t
        == FileType::FileOnly || t == FileType::Zip || t == FileType::SevenZip
}

/// Repair status that a node's type, DAT status and physical status give it
/// at the start of a fix pass.
pub open spec fn rep_status_table(t: FileType, d: DatStatus, g: GotStatus) -> RepStatus {
    if collectable(t) {
        match (d, g) {
            (DatStatus::InDatCollect, GotStatus::Got) => RepStatus::Correct,
            (DatStatus::InDatCollect, GotStatus::NotGot) => RepStatus::Missing,
            (DatStatus::InDatCollect, GotStatus::Corrupt) => RepStatus::Corrupt,
            (DatStatus::InDatMerged, GotStatus::NotGot) => RepStatus::NotCollected,
            (DatStatus::InDatNoDump, GotStatus::NotGot) => RepStatus::NotCollected,
            (DatStatus::InDatMerged, GotStatus::Got) => RepStatus::UnNeeded,
            (DatStatus::InDatMerged, GotStatus::Corrupt) => RepStatus::UnNeeded,
            (DatStatus::InDatNoDump, GotStatus::Got) => RepStatus::UnNeeded,
            (DatStatus::InDatNoDump, GotStatus::Corrupt) => RepStatus::UnNeeded,
            (DatStatus::InDatMIA, GotStatus::NotGot) => RepStatus::MissingMIA,
            (DatStatus::InDatMIA, GotStatus::Got) => RepStatus::CorrectMIA,
            (DatStatus::InToSort, GotStatus::Got) => RepStatus::InToSort,
            (DatStatus::InToSort, GotStatus::NotGot) => RepStatus::Deleted,
            (DatStatus::NotInDat, GotStatus::Got) => RepStatus::Unknown,
            (DatStatus::NotInDat, GotStatus::NotGot) => RepStatus::Deleted,
            _ => RepStatus::UnScanned,
        }
    } else if t == FileType::Dir {
        match (d, g) {
            (DatStatus::InDatCollect, GotStatus::Got) => RepStatus::DirCorrect,
            (DatStatus::InDatMerged, GotStatus::Got) => RepStatus::DirCorrect,
            (DatStatus::InDatNoDump, GotStatus::Got) => RepStatus::DirCorrect,
            (DatStatus::InDatCollect, GotStatus::NotGot) => RepStatus::DirMissing,
            (DatStatus::InDatMerged, GotStatus::NotGot) => RepStatus::DirMissing,
            (DatStatus::InDatNoDump, GotStatus::NotGot) => RepStatus::DirMissing,
            (DatStatus::InDatCollect, GotStatus::Corrupt) => RepStatus::DirCorrupt,
            (DatStatus::InDatMerged, GotStatus::Corrupt) => RepStatus::DirCorrupt,
            (DatStatus::InDatNoDump, GotStatus::Corrupt) => RepStatus::DirCorrupt,
            (DatStatus::NotInDat, GotStatus::Got) => RepStatus::DirUnknown,
            (DatStatus::InToSort, GotStatus::Got) => RepStatus::DirInToSort,
            _ => RepStatus::UnScanned,
        }
    } else {
        RepStatus::UnScanned
    }
}

/// A configured ignore pattern can be read without splitting a character.
pub open spec fn db_entry_ok(raw: Seq<char>) -> bool {
    &&& boundary_ok(trim_chars(raw), 7)
    &&& db_pattern_spec(raw) matches Some(pat) ==> boundary_ok(trim_chars(trim_chars(pat)), 6)
}

/// The database pattern of `raw`, trimmed, is not blank.
pub open spec fn has_db_pattern(raw: Seq<char>) -> bool {
    db_pattern_spec(raw) matches Some(pat) && trim_chars(pat).len() > 0
}

/// `name` matches the non-blank database pattern of `raw`, ASCII case
/// ignored as names compare on Windows.
pub open spec fn db_entry_matches(raw: Seq<char>, name: Seq<char>) -> bool {
    db_pattern_spec(raw) matches Some(pat) && trim_chars(pat).len() > 0 && pattern_matches_folded_spec(
        trim_chars(pat),
        name,
    )
}

/// The patterns of a directory rule apply when one of them is a non-blank
/// database pattern; otherwise the global patterns do.
pub open spec fn effective_patterns(rule: Seq<String>, global: Seq<String>) -> Seq<String> {
    if exists|i: int| 0 <= i < rule.len() && has_db_pattern(#[trigger] rule[i]@) {
        rule
    } else {
        global
    }
}

/// `name` matches one of the patterns.
pub open spec fn ignored_by(patterns: Seq<String>, name: Seq<char>) -> bool {
    exists|i: int| 0 <= i < patterns.len() && db_entry_matches(#[trigger] patterns[i]@, name)
}

/// Every pattern can be read without splitting a character.
pub open spec fn patterns_ok(patterns: Seq<String>) -> bool {
    forall|i: int| 0 <= i < patterns.len() ==> db_entry_ok(#[trigger] patterns[i]@)
}

/// Status of a node after a reset: a stray file (a `File` present on disk
/// that no DAT lists) under a parent is `Ignore` when its name matches an
/// ignore pattern; otherwise the table decides.
pub open spec fn reset_status(
    t: FileType,
    d: DatStatus,
    g: GotStatus,
    name: Seq<char>,
    has_parent: bool,
    rule: Seq<String>,
    global: Seq<String>,
) -> RepStatus {
    if t == FileType::File && d == DatStatus::NotInDat && g == GotStatus::Got && has_parent
        && ignored_by(effective_patterns(rule, global), name) {
        RepStatus::Ignore
    } else {
        rep_status_table(t, d, g)
    }
}

/// Repair status that a node's type, DAT status and physical status give it.
pub fn rep_status_for(file_type: FileType, dat_status: DatStatus, got_status: GotStatus) -> (r: RepStatus)
    ensures
        r == rep_status_table(file_type, dat_status, got_status),
{
    let collect = match file_type {
        FileType::File | FileType::FileZip | FileType::FileSevenZip | FileType::FileOnly
        | FileType::Zip | FileType::SevenZip => true,
        _ => false,
    };
    if collect {
        match (dat_status, got_status) {
            (DatStatus::InDatCollect, GotStatus::Got) => RepStatus::Correct,
            (DatStatus::InDatCollect, GotStatus::NotGot) => RepStatus::Missing,
            (DatStatus::InDatCollect, GotStatus::Corrupt) => RepStatus::Corrupt,
            (DatStatus::InDatMerged, GotStatus::NotGot)
            | (DatStatus::InDatNoDump, GotStatus::NotGot) => RepStatus::NotCollected,
            (DatStatus::InDatMerged, GotStatus::Got)
            | (DatStatus::InDatMerged, GotStatus::Corrupt)
            | (DatStatus::InDatNoDump, GotStatus::Got)
            | (DatStatus::InDatNoDump, GotStatus::Corrupt) => RepStatus::UnNeeded,
            (DatStatus::InDatMIA, GotStatus::NotGot) => RepStatus::MissingMIA,
            (DatStatus::InDatMIA, GotStatus::Got) => RepStatus::CorrectMIA,
            (DatStatus::InToSort, GotStatus::Got) => RepStatus::InToSort,
            (DatStatus::InToSort, GotStatus::NotGot) => RepStatus::Deleted,
            (DatStatus::NotInDat, GotStatus::Got) => RepStatus::Unknown,
            (DatStatus::NotInDat, GotStatus::NotGot) => RepStatus::Deleted,
            _ => RepStatus::UnScanned,
        }
    } else {
        match (file_type, dat_status, got_status) {
            (FileType::Dir, DatStatus::InDatCollect, GotStatus::Got)
            | (FileType::Dir, DatStatus::InDatMerged, GotStatus::Got)
            | (FileType::Dir, DatStatus::InDatNoDump, GotStatus::Got) => RepStatus::DirCorrect,
            (FileType::Dir, DatStatus::InDatCollect, GotStatus::NotGot)
            | (FileType::Dir, DatStatus::InDatMerged, GotStatus::NotGot)
            | (FileType::Dir, DatStatus::InDatNoDump, GotStatus::NotGot) => RepStatus::DirMissing,
            (FileType::Dir, DatStatus::InDatCollect, GotStatus::Corrupt)
            | (FileType::Dir, DatStatus::InDatMerged, GotStatus::Corrupt)
            | (FileType::Dir, DatStatus::InDatNoDump, GotStatus::Corrupt) => RepStatus::DirCorrupt,
            (FileType::Dir, DatStatus::NotInDat, GotStatus::Got) => RepStatus::DirUnknown,
            (FileType::Dir, DatStatus::InToSort, GotStatus::Got) => RepStatus::DirInToSort,
            _ => RepStatus::UnScanned,
        }
    }
}

/// The database pattern of `raw`, trimmed, when it is not blank.
fn db_pattern_trimmed(raw: &str) -> (r: Option<&str>)
    requires
        db_entry_ok(raw@),
    ensures
        match r {
            Some(p) => has_db_pattern(raw@) && p@ == trim_chars(db_pattern_spec(raw@).unwrap()),
            None => !has_db_pattern(raw@),
        },
{
    match extract_db_pattern(raw) {
        Some(pat) => {
            let p = str_trim(pat);
            if str_bytes(p).len() == 0 {
                proof {
                    vstd::utf8::encode_utf8_decode_utf8(p@);
                    assert(p@ == vstd::utf8::decode_utf8(encode_utf8(p@)));
                    assert(encode_utf8(p@) =~= Seq::<u8>::empty());
                    assert(vstd::utf8::decode_utf8(Seq::<u8>::empty()) =~= Seq::<char>::empty());
                }
                None
            } else {
                proof {
                    if p@.len() == 0 {
                        assert(p@ =~= Seq::<char>::empty());
                        assert(encode_utf8(Seq::<char>::empty()) =~= Seq::<u8>::empty());
                    }
                }
                Some(p)
            }
        },
        None => None,
    }
}

/// One of the patterns is a non-blank database pattern.
pub fn rule_has_db_patterns(patterns: &[String]) -> (r: bool)
    requires
        patterns_ok(patterns@),
    ensures
        r == exists|i: int| 0 <= i < patterns@.len() && has_db_pattern(#[trigger] patterns@[i]@),
{
    let mut i: usize = 0;
    while i < patterns.len()
        invariant
            patterns_ok(patterns@),
            i <= patterns@.len(),
            forall|k: int| 0 <= k < i ==> !has_db_pattern(#[trigger] patterns@[k]@),
        decreases patterns@.len() - i,
    {
        assert(db_entry_ok(patterns@[i as int]@));
        match db_pattern_trimmed(patterns[i].as_str()) {
            Some(_) => {
                return true;
            },
            None => {},
        }
        i = i + 1;
    }
    false
}

/// `name` matches one of the patterns.
pub fn ignored_by_patterns(name: &str, patterns: &[String]) -> (r: bool)
    requires
        patterns_ok(patterns@),
    ensures
        r == ignored_by(patterns@, name@),
{
    let mut i: usize = 0;
    while i < patterns.len()
        invariant
            patterns_ok(patterns@),
            i <= patterns@.len(),
            forall|k: int| 0 <= k < i ==> !db_entry_matches(#[trigger] patterns@[k]@, name@),
        decreases patterns@.len() - i,
    {
        assert(db_entry_ok(patterns@[i as int]@));
        match db_pattern_trimmed(patterns[i].as_str()) {
            Some(pat) => {
                if matches_pattern_folded(name, pat) {
                    return true;
                }
            },
            None => {},
        }
        i = i + 1;
    }
    false
}

/// Repair status of a node after a reset. A stray file (a `File` present on
/// disk that no DAT lists) under a parent is `Ignore` when its name matches
/// an ignore pattern of its directory's rule, or of the global settings when
/// the rule has no database pattern; otherwise its type, DAT status and
/// physical status decide.
pub fn rep_status_reset(
    file_type: FileType,
    dat_status: DatStatus,
    got_status: GotStatus,
    name: &str,
    has_parent: bool,
    rule_patterns: &[String],
    global_patterns: &[String],
) -> (r: RepStatus)
    requires
        file_type == FileType::File && dat_status == DatStatus::NotInDat && got_status == GotStatus::Got
            && has_parent ==> patterns_ok(rule_patterns@) && (!(exists|i: int|
            0 <= i < rule_patterns@.len() && has_db_pattern(#[trigger] rule_patterns@[i]@))
            ==> patterns_ok(global_patterns@)),
    ensures
        r == reset_status(
            file_type,
            dat_status,
            got_status,
            name@,
            has_parent,
            rule_patterns@,
            global_patterns@,
        ),
{
    let stray = match (file_type, dat_status, got_status) {
        (FileType::File, DatStatus::NotInDat, GotStatus::Got) => true,
        _ => false,
    };
    if stray && has_parent {
        let patterns = if rule_has_db_patterns(rule_patterns) {
            rule_patterns
        } else {
            global_patterns
        };
        if ignored_by_patterns(name, patterns) {
            return RepStatus::Ignore;
        }
    }
    rep_status_for(file_type, dat_status, got_status)
}

/// Resets a node before a fix pass: its repair status becomes
/// [`reset_status`] of its type, `dat_status` and physical status, its
/// search-found flag is cleared, its cached counters are dropped and a
/// directory status, if it has one, goes back to `Unknown`; type, physical
/// status, game flag and children stay.
pub fn rep_status_reset_node(
    node: &mut StatusNode,
    dat_status: DatStatus,
    name: &str,
    has_parent: bool,
    rule_patterns: &[String],
    global_patterns: &[String],
)
    requires
        old(node).file_type == FileType::File && dat_status == DatStatus::NotInDat && old(node).got_status
            == GotStatus::Got && has_parent ==> patterns_ok(rule_patterns@) && (!(exists|i: int|
            0 <= i < rule_patterns@.len() && has_db_pattern(#[trigger] rule_patterns@[i]@))
            ==> patterns_ok(global_patterns@)),
    ensures
        final(node).rep_status == reset_status(
            old(node).file_type,
            dat_status,
            old(node).got_status,
            name@,
            has_parent,
            rule_patterns@,
            global_patterns@,
        ),
        !final(node).search_found,
        final(node).cached_stats is None,
        final(node).dir_status == match old(node).dir_status {
            Some(_) => Some(ReportStatus::Unknown),
            None => None,
        },
        final(node).file_type == old(node).file_type,
        final(node).got_status == old(node).got_status,
        final(node).is_game == old(node).is_game,
        final(node).children == old(node).children,
{
    node.search_found = false;
    node.cached_stats = None;
    if node.dir_status.is_some() {
        node.dir_status = Some(ReportStatus::Unknown);
    }
    node.rep_status = rep_status_reset(
        node.file_type,
        dat_status,
        node.got_status,
        name,
        has_parent,
        rule_patterns,
        global_patterns,
    );
}

/// Bits of the stored DAT-structure byte: the structure code in the low
/// seven bits, and bit 7 set when the archive is to be rebuilt to it.
pub open spec fn zip_dat_struct_bits(z: ZipStructure, fix: bool) -> u8 {
    if fix {
        zip_structure_code_spec(z) | 0x80
    } else {
        zip_structure_code_spec(z)
    }
}

/// The archive structure a DAT asks for, from the stored byte.
pub fn zip_dat_struct(bits: u8) -> (r: ZipStructure)
    ensures
        r == zip_structure_of_code(bits & 0x7f),
{
    zip_structure_from_code(bits & 0x7f)
}

/// Whether the stored byte asks for a rebuild to the DAT's structure.
pub fn zip_dat_struct_fix(bits: u8) -> (r: bool)
    ensures
        r == (bits & 0x80 == 0x80),
{
    (bits & 0x80) == 0x80
}

/// The stored byte for a DAT structure and its rebuild flag.
pub fn set_zip_dat_struct(zip_structure: ZipStructure, fix: bool) -> (r: u8)
    ensures
        r == zip_dat_struct_bits(zip_structure, fix),
{
    let code = zip_structure_code(zip_structure);
    if fix {
        code | 0x80
    } else {
        code
    }
}

/// The structure an archive should have: its own for archives outside the
/// DATs (unlisted or in ToSort), else the one its DAT asks for.
pub fn new_zip_struct(dat_status: DatStatus, zip_struct: ZipStructure, zip_dat_bits: u8) -> (r: ZipStructure)
    ensures
        r == (if dat_status == DatStatus::NotInDat || dat_status == DatStatus::InToSort {
            zip_struct
        } else {
            zip_structure_of_code(zip_dat_bits & 0x7f)
        }),
{
    if dat_status == DatStatus::NotInDat || dat_status == DatStatus::InToSort {
        zip_struct
    } else {
        zip_dat_struct(zip_dat_bits)
    }
}

/// Reading back the stored DAT-structure byte gives the structure and the
/// rebuild flag that were written.
pub proof fn law_zip_dat_struct_round_trip(z: ZipStructure, fix: bool)
    ensures
        zip_structure_of_code(zip_dat_struct_bits(z, fix) & 0x7f) == z,
        (zip_dat_struct_bits(z, fix) & 0x80 == 0x80) == fix,
{
    let c = zip_structure_code_spec(z);
    assert(c < 128);
    assert((c | 0x80u8) & 0x7fu8 == c && (c | 0x80u8) & 0x80u8 == 0x80u8 && c & 0x7fu8 == c && c & 0x80u8 == 0)
        by (bit_vector)
        requires
            c < 128,
    ;
}

/// The name with its original case: the file name when it is not blank,
/// else the name.
pub fn name_case<'a>(name: &'a str, file_name: &'a str) -> (r: &'a str)
    ensures
        r@ == (if trim_chars(file_name@).len() == 0 {
            name@
        } else {
            file_name@
        }),
{
    let t = str_trim(file_name);
    if t.is_empty() {
        name
    } else {
        file_name
    }
}

} // verus!
