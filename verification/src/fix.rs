//! Decision rules of the fixer: which archive structure a rebuilt archive
//! gets, when a file already present may stand in for one being deleted,
//! when a delete is double-checked, and when a timestamp still matches.

use vstd::prelude::*;
use vstd::utf8::*;
use crate::arr_byte::slices_equal;
use crate::compare::{FileHashes, HashesView, opt_seq, or_alt};
use crate::enums::{DatStatus, FileType, GotStatus, RepStatus, ZipStructure};
use crate::find_fixes::{FixNode, cleanup_retains, dat_retains};
use crate::relative_path::{path_pieces, path_pieces_of};
use crate::text::{ascii_lower, str_bytes};
use vstd::string::StringExecFns;

verus! {

/// The fixer's rules.
pub struct Fix;

/// The 7z structure chosen by the "default 7z structure" setting.
pub open spec fn default_seven_zip_struct(setting: u8) -> ZipStructure {
    if setting == 0 {
        ZipStructure::SevenZipSLZMA
    } else if setting == 1 {
        ZipStructure::SevenZipNLZMA
    } else if setting == 2 {
        ZipStructure::SevenZipSZSTD
    } else {
        ZipStructure::SevenZipNZSTD
    }
}

pub open spec fn is_seven_zip_struct(z: ZipStructure) -> bool {
    z == ZipStructure::SevenZipSLZMA || z == ZipStructure::SevenZipNLZMA || z
        == ZipStructure::SevenZipSZSTD || z == ZipStructure::SevenZipNZSTD || z
        == ZipStructure::SevenZipTrrnt
}

pub open spec fn is_zip_struct(z: ZipStructure) -> bool {
    z == ZipStructure::ZipTrrnt || z == ZipStructure::ZipZSTD || z == ZipStructure::ZipTDC
}

/// The structure an archive is rebuilt with: the desired one when it suits
/// the archive's type, else the default for that type.
pub open spec fn effective_struct(t: FileType, desired: ZipStructure, setting: u8) -> ZipStructure {
    if t == FileType::SevenZip || t == FileType::FileSevenZip {
        if is_seven_zip_struct(desired) {
            desired
        } else {
            default_seven_zip_struct(setting)
        }
    } else if t == FileType::Zip || t == FileType::FileZip {
        if is_zip_struct(desired) {
            desired
        } else {
            ZipStructure::ZipTrrnt
        }
    } else {
        desired
    }
}

/// The bytes end with ".cue", up to ASCII case.
pub open spec fn ends_with_cue(b: Seq<u8>) -> bool {
    b.len() >= 4 && ascii_lower(b[b.len() - 4]) == 0x2Eu8 && ascii_lower(b[b.len() - 3]) == 0x63u8
        && ascii_lower(b[b.len() - 2]) == 0x75u8 && ascii_lower(b[b.len() - 1]) == 0x65u8
}

/// A delete goes ahead without looking for another copy: double-checking is
/// off, the file is a cue sheet waiting in ToSort, or it is empty.
pub open spec fn delete_check_skipped(double_check_delete: bool, file: FixNode) -> bool {
    !double_check_delete || (file.dat_status == DatStatus::InToSort && ends_with_cue(
        encode_utf8(file.name@),
    )) || file.hashes@.size == Some(0u64)
}

/// The candidate's primary or alternative value equals `v`.
pub open spec fn either_is(v: Seq<u8>, primary: Option<Seq<u8>>, alt: Option<Seq<u8>>) -> bool {
    primary == Some(v) || alt == Some(v)
}

/// The identity check of one hash kind: when the deleted file has a value
/// (primary, else alternative), the candidate must have it.
pub open spec fn kind_ok(d: Option<Seq<u8>>, c: Option<Seq<u8>>, c_alt: Option<Seq<u8>>) -> bool {
    d is None || either_is(d.unwrap(), c, c_alt)
}

/// A present file `candidate` holds the content of `deleting`: present, not
/// itself being deleted, of the expected size, with every known hash kind
/// agreeing, and some hash known.
pub open spec fn identity_fixes(deleting: FixNode, candidate: FixNode) -> bool {
    let d = deleting.hashes@;
    let c = candidate.hashes@;
    let expected_size = or_alt(d.size, d.alt_size);
    &&& candidate.got_status == GotStatus::Got
    &&& candidate.rep_status != RepStatus::Delete && candidate.rep_status != RepStatus::Deleted
    &&& expected_size is None || c.size == expected_size || c.alt_size == expected_size
    &&& kind_ok(or_alt(d.crc, d.alt_crc), c.crc, c.alt_crc)
    &&& kind_ok(or_alt(d.sha1, d.alt_sha1), c.sha1, c.alt_sha1)
    &&& kind_ok(or_alt(d.md5, d.alt_md5), c.md5, c.alt_md5)
    &&& d.crc is Some || d.alt_crc is Some || d.sha1 is Some || d.alt_sha1 is Some || d.md5 is Some
        || d.alt_md5 is Some
}

/// Where the file's modification time still is the recorded one: no time
/// recorded (`i64::MIN`), or the file's time, in whole seconds since the Unix
/// epoch and taken as `i64`, equals it.
pub open spec fn timestamp_ok(expected_secs: i64, modified_secs: Option<u64>) -> bool {
    expected_secs == i64::MIN || (modified_secs matches Some(d) && d as i64 == expected_secs)
}

fn opt_bytes_is(v: &[u8], o: &Option<Vec<u8>>) -> (r: bool)
    ensures
        r == (opt_seq(*o) == Some(v@)),
{
    match o {
        Some(x) => slices_equal(x.as_slice(), v),
        None => false,
    }
}

fn first_present<'a>(a: &'a Option<Vec<u8>>, b: &'a Option<Vec<u8>>) -> (r: &'a Option<Vec<u8>>)
    ensures
        opt_seq(*r) == or_alt(opt_seq(*a), opt_seq(*b)),
{
    if a.is_some() {
        a
    } else {
        b
    }
}

fn kind_ok_exec(d: &Option<Vec<u8>>, c: &Option<Vec<u8>>, c_alt: &Option<Vec<u8>>) -> (r: bool)
    ensures
        r == kind_ok(opt_seq(*d), opt_seq(*c), opt_seq(*c_alt)),
{
    match d {
        None => true,
        Some(v) => opt_bytes_is(v.as_slice(), c) || opt_bytes_is(v.as_slice(), c_alt),
    }
}

fn opt_u64_is(a: Option<u64>, b: Option<u64>) -> (r: bool)
    ensures
        r == (a == b),
{
    match a {
        Some(x) => match b {
            Some(y) => x == y,
            None => false,
        },
        None => b.is_none(),
    }
}


/// Two optional byte arrays are both absent or both present with the same bytes.
fn same_opt_bytes(a: &Option<Vec<u8>>, b: &Option<Vec<u8>>) -> (r: bool)
    ensures
        r == (opt_seq(*a) == opt_seq(*b)),
{
    match (a, b) {
        (Some(x), Some(y)) => slices_equal(x.as_slice(), y.as_slice()),
        (None, None) => true,
        _ => false,
    }
}

/// An archive member of a source stands for the target member of the same
/// name: same size, and the same CRC, SHA1 and MD5 wherever the target has
/// them.
pub open spec fn member_matches_named(source: HashesView, source_name: Seq<char>, target: HashesView, target_name: Seq<char>) -> bool {
    &&& source_name == target_name
    &&& source.size == target.size
    &&& (target.crc is Some ==> source.crc == target.crc)
    &&& (target.sha1 is Some ==> source.sha1 == target.sha1)
    &&& (target.md5 is Some ==> source.md5 == target.md5)
}

/// Texts as their UTF-8 bytes.
pub open spec fn texts_utf8(v: Seq<String>) -> Seq<Seq<u8>> {
    Seq::new(v.len(), |i: int| encode_utf8(v[i]@))
}

/// The directories below a path's root under which something moves into
/// the base directory `base` when no directory mapping covers the path:
/// `rel`, the path's own directories after its first component `first`,
/// preceded by all of `base`'s components when the path lies under another
/// root, or by those but the root when it shares the root and `rel` does
/// not already begin with them.
pub open spec fn base_prefixed(first: Option<Seq<u8>>, rel: Seq<Seq<u8>>, base: Seq<u8>) -> Seq<Seq<u8>> {
    let bp = path_pieces(base);
    if first is Some && bp.len() > 0 && first.unwrap() == bp[0] {
        let suffix = bp.drop_first();
        let already = rel.len() >= suffix.len() && rel.subrange(0, suffix.len() as int) == suffix;
        if suffix.len() > 0 && !already {
            suffix + rel
        } else {
            rel
        }
    } else {
        bp + rel
    }
}

/// For a file whose path has the normal components `comps`: the
/// directories between the first component and the file name, prefixed as
/// [`base_prefixed`] says.
pub open spec fn tosort_dirs(comps: Seq<Seq<u8>>, base: Seq<u8>) -> Seq<Seq<u8>> {
    base_prefixed(
        if comps.len() > 0 {
            Some(comps[0])
        } else {
            None
        },
        if comps.len() > 1 {
            comps.subrange(1, comps.len() - 1)
        } else {
            Seq::empty()
        },
        base,
    )
}

/// For a member `child` of an archive named `archive_name` in a directory
/// with the normal components `parent`: the parts after the directory's
/// first component — the directories prefixed as [`base_prefixed`] says,
/// the archive's name, then the pieces of the member's name.
pub open spec fn member_tosort_parts(parent: Seq<Seq<u8>>, archive_name: Seq<u8>, child: Seq<u8>, base: Seq<u8>) -> Seq<
    Seq<u8>,
> {
    base_prefixed(
        if parent.len() > 0 {
            Some(parent[0])
        } else {
            None
        },
        if parent.len() > 1 {
            parent.subrange(1, parent.len() as int)
        } else {
            Seq::empty()
        },
        base,
    ) + seq![archive_name] + path_pieces(child)
}

fn push_texts(out: &mut Vec<String>, src: &[String], from: usize, to: usize)
    requires
        from <= to <= src@.len(),
    ensures
        texts_utf8(final(out)@) == texts_utf8(old(out)@) + texts_utf8(src@).subrange(from as int, to as int),
{
    let mut i = from;
    while i < to
        invariant
            from <= i <= to <= src@.len(),
            texts_utf8(out@) == texts_utf8(old(out)@) + texts_utf8(src@).subrange(from as int, i as int),
        decreases to - i,
    {
        let ghost before = out@;
        out.push(src[i].clone());
        assert(texts_utf8(out@) =~= texts_utf8(before) + seq![encode_utf8(src@[i as int]@)]);
        assert(texts_utf8(src@).subrange(from as int, i + 1) =~= texts_utf8(src@).subrange(from as int, i as int)
            + seq![encode_utf8(src@[i as int]@)]);
        i = i + 1;
    }
}

fn same_text(a: &String, b: &String) -> (r: bool)
    ensures
        r == (encode_utf8(a@) == encode_utf8(b@)),
{
    slices_equal(str_bytes(a.as_str()), str_bytes(b.as_str()))
}

/// The source the fix finder found for a file to fix.
#[derive(Debug, Clone, Copy, PartialEq, Eq, Structural)]
pub struct FixSource {
    /// The source already sits at the file's target path (up to case).
    pub at_target: bool,
    /// The source is locked against changes.
    pub read_only: bool,
}

/// What the fixer knows of a file when it comes to act on it.
#[derive(Debug, Clone, Copy, PartialEq, Eq, Structural)]
pub struct FixFileFacts {
    pub rep_status: RepStatus,
    /// The file is locked against changes.
    pub read_only: bool,
    /// Retained references to the file's current physical path.
    pub shared_refs: u32,
    /// A file exists at the current physical path.
    pub current_exists: bool,
    /// The node is a loose `File` under a parent.
    pub loose_file_with_parent: bool,
    /// The delete double-check is skipped for this file (see
    /// `Fix::double_check_delete_should_skip`).
    pub double_check_skip: bool,
    /// The double-check found a retained file with the same content.
    pub has_retained_copy: bool,
    /// The source found for a file to fix, if any.
    pub source: Option<FixSource>,
    /// The current and the target physical paths are the same.
    pub at_target: bool,
}

/// The file work of one fix step.
#[derive(Debug, Clone, Copy, PartialEq, Eq, Structural)]
pub enum FixFileAction {
    /// Nothing is done and the node stays as it is.
    Leave,
    /// No file work: the path is still used by a retained file.
    Forget,
    /// The file is removed (when it exists), then its emptied parent
    /// directories.
    Delete { remove_file: bool },
    /// The file moves into ToSort (when it exists and no retained file uses
    /// its path).
    MoveToSort { move_file: bool },
    /// The file moves into ToSort/Corrupt (same conditions).
    MoveToCorrupt { move_file: bool },
    /// The source is renamed to the target path (they differ only in case);
    /// the path references stay.
    FixByRename,
    /// The source is copied to the target path, which gains a retained
    /// reference; the source is queued for clean-up unless it is locked.
    FixByCopy { clean_up_source: bool },
    /// The file is renamed to its target name; when the paths differ, its
    /// retained reference moves from the current path to the target path.
    Rename { move_reference: bool },
}

/// The outcome of one fix step.
#[derive(Debug, Clone, Copy, PartialEq, Eq, Structural)]
pub struct FixFileStep {
    pub action: FixFileAction,
    /// The node's new physical status, when it changes (its repair status is
    /// then reset).
    pub got_status: Option<GotStatus>,
    /// The node's new DAT status, when it changes.
    pub dat_status: Option<DatStatus>,
    /// The step fixed a file (the fixed-files counter goes up by one).
    pub fixed: bool,
}

/// The fix step for a file, by its repair status: files to delete are
/// forgotten while their path is shared and kept when the double-check finds
/// no retained copy; files to sort or to set aside as corrupt move into
/// ToSort or ToSort/Corrupt; files to fix are renamed from a source at their
/// target path or copied from another source; files to rename are renamed.
pub open spec fn fix_file_step_spec(f: FixFileFacts) -> FixFileStep {
    let none = FixFileStep { action: FixFileAction::Leave, got_status: None, dat_status: None, fixed: false };
    if f.read_only {
        none
    } else {
        match f.rep_status {
            RepStatus::Delete | RepStatus::UnNeeded => if f.shared_refs > 0 {
                FixFileStep {
                    action: FixFileAction::Forget,
                    got_status: Some(GotStatus::NotGot),
                    dat_status: None,
                    fixed: false,
                }
            } else if f.rep_status == RepStatus::Delete && f.current_exists && f.loose_file_with_parent
                && !f.double_check_skip && !f.has_retained_copy {
                none
            } else {
                FixFileStep {
                    action: FixFileAction::Delete { remove_file: f.current_exists },
                    got_status: Some(GotStatus::NotGot),
                    dat_status: None,
                    fixed: false,
                }
            },
            RepStatus::MoveToSort => FixFileStep {
                action: FixFileAction::MoveToSort { move_file: f.current_exists && f.shared_refs == 0 },
                got_status: Some(GotStatus::Got),
                dat_status: Some(DatStatus::InToSort),
                fixed: false,
            },
            RepStatus::MoveToCorrupt => FixFileStep {
                action: FixFileAction::MoveToCorrupt { move_file: f.current_exists && f.shared_refs == 0 },
                got_status: Some(GotStatus::NotGot),
                dat_status: None,
                fixed: false,
            },
            RepStatus::CanBeFixed | RepStatus::CanBeFixedMIA | RepStatus::CorruptCanBeFixed => match f.source {
                Some(src) => FixFileStep {
                    action: if src.at_target {
                        FixFileAction::FixByRename
                    } else {
                        FixFileAction::FixByCopy { clean_up_source: !src.read_only }
                    },
                    got_status: Some(GotStatus::Got),
                    dat_status: None,
                    fixed: true,
                },
                None => none,
            },
            RepStatus::Rename => FixFileStep {
                action: FixFileAction::Rename { move_reference: !f.at_target },
                got_status: Some(GotStatus::Got),
                dat_status: None,
                fixed: false,
            },
            _ => none,
        }
    }
}

/// A fixable status: a missing file, a missing MIA file or a corrupt file
/// that a source can restore.
pub open spec fn fixable_rep(r: RepStatus) -> bool {
    r == RepStatus::CanBeFixed || r == RepStatus::CanBeFixedMIA || r == RepStatus::CorruptCanBeFixed
}

/// A writable file with a fixable status.
pub open spec fn writable_fixable(f: FixFileFacts) -> bool {
    !f.read_only && fixable_rep(f.rep_status)
}

/// The file is fixed from the source `src`: renamed from it when it already
/// sits at the target path, copied from it otherwise (the source cleaned up
/// unless it is locked); the file is then present.
pub open spec fn fixed_from(step: FixFileStep, src: FixSource) -> bool {
    &&& step.fixed
    &&& step.got_status == Some(GotStatus::Got)
    &&& step.dat_status == None::<DatStatus>
    &&& step.action == (if src.at_target {
        FixFileAction::FixByRename
    } else {
        FixFileAction::FixByCopy { clean_up_source: !src.read_only }
    })
}

/// Nothing is done.
pub open spec fn left_alone(step: FixFileStep) -> bool {
    step.action == FixFileAction::Leave && step.got_status == None::<GotStatus> && step.dat_status == None::<
        DatStatus,
    > && !step.fixed
}

/// Two sets of facts differ at most in the repair status.
pub open spec fn same_but_status(f: FixFileFacts, g: FixFileFacts) -> bool {
    &&& f.read_only == g.read_only
    &&& f.shared_refs == g.shared_refs
    &&& f.current_exists == g.current_exists
    &&& f.loose_file_with_parent == g.loose_file_with_parent
    &&& f.double_check_skip == g.double_check_skip
    &&& f.has_retained_copy == g.has_retained_copy
    &&& f.source == g.source
    &&& f.at_target == g.at_target
}

/// A writable file with a fixable status and a source is fixed from that
/// source; without a source it is left alone. A step fixes a file only in
/// the first case.
pub proof fn law_fixable_files_are_fixed_from_their_source(f: FixFileFacts)
    ensures
        writable_fixable(f) && f.source.is_some() ==> fixed_from(fix_file_step_spec(f), f.source.unwrap()),
        writable_fixable(f) && f.source.is_none() ==> left_alone(fix_file_step_spec(f)),
        fix_file_step_spec(f).fixed == (writable_fixable(f) && f.source.is_some()),
{
}

/// The steps for the other statuses: a locked file is left alone; a file to
/// sort moves to ToSort and is then present there; a file set aside as
/// corrupt moves to ToSort/Corrupt and is no longer present; a file to delete
/// or unneeded is forgotten while other files share its path, and otherwise
/// deleted (no longer present) or, for a file to delete that the
/// double-check cannot confirm, left alone; a file to rename is renamed,
/// moving its reference when the paths differ; any other status is left
/// alone. None of these steps counts as a fix.
pub proof fn law_non_fix_steps(f: FixFileFacts)
    ensures
        f.read_only ==> left_alone(fix_file_step_spec(f)),
        !f.read_only && f.rep_status == RepStatus::MoveToSort ==> fix_file_step_spec(f) == (FixFileStep {
            action: FixFileAction::MoveToSort { move_file: f.current_exists && f.shared_refs == 0 },
            got_status: Some(GotStatus::Got),
            dat_status: Some(DatStatus::InToSort),
            fixed: false,
        }),
        !f.read_only && f.rep_status == RepStatus::MoveToCorrupt ==> fix_file_step_spec(f) == (FixFileStep {
            action: FixFileAction::MoveToCorrupt { move_file: f.current_exists && f.shared_refs == 0 },
            got_status: Some(GotStatus::NotGot),
            dat_status: None,
            fixed: false,
        }),
        !f.read_only && (f.rep_status == RepStatus::Delete || f.rep_status == RepStatus::UnNeeded) && f.shared_refs
            > 0 ==> fix_file_step_spec(f) == (FixFileStep {
            action: FixFileAction::Forget,
            got_status: Some(GotStatus::NotGot),
            dat_status: None,
            fixed: false,
        }),
        !f.read_only && f.rep_status == RepStatus::UnNeeded && f.shared_refs == 0 ==> fix_file_step_spec(f) == (
        FixFileStep {
            action: FixFileAction::Delete { remove_file: f.current_exists },
            got_status: Some(GotStatus::NotGot),
            dat_status: None,
            fixed: false,
        }),
        !f.read_only && f.rep_status == RepStatus::Delete && f.shared_refs == 0 ==> (left_alone(
            fix_file_step_spec(f),
        ) <==> (f.current_exists && f.loose_file_with_parent && !f.double_check_skip && !f.has_retained_copy)),
        !f.read_only && f.rep_status == RepStatus::Delete && f.shared_refs == 0 && !left_alone(
            fix_file_step_spec(f),
        ) ==> fix_file_step_spec(f) == (FixFileStep {
            action: FixFileAction::Delete { remove_file: f.current_exists },
            got_status: Some(GotStatus::NotGot),
            dat_status: None,
            fixed: false,
        }),
        !f.read_only && f.rep_status == RepStatus::Rename ==> fix_file_step_spec(f) == (FixFileStep {
            action: FixFileAction::Rename { move_reference: !f.at_target },
            got_status: Some(GotStatus::Got),
            dat_status: None,
            fixed: false,
        }),
        !(f.rep_status == RepStatus::MoveToSort || f.rep_status == RepStatus::MoveToCorrupt || f.rep_status
            == RepStatus::Delete || f.rep_status == RepStatus::UnNeeded || f.rep_status == RepStatus::Rename
            || fixable_rep(f.rep_status)) ==> left_alone(fix_file_step_spec(f)),
{
}

/// The three fixable statuses are fixed alike: two files that differ only in
/// which fixable status they have get the same step.
pub proof fn law_fixable_statuses_fix_alike(f: FixFileFacts, g: FixFileFacts)
    requires
        fixable_rep(f.rep_status),
        fixable_rep(g.rep_status),
        same_but_status(f, g),
    ensures
        fix_file_step_spec(f) == fix_file_step_spec(g),
{
}

/// The decimal digit `d` as a character.
pub open spec fn digit_char(d: nat) -> char {
    (48 + d) as char
}

/// The decimal digits of `n`, most significant first, without leading zeros.
pub open spec fn decimal_chars(n: nat) -> Seq<char>
    decreases n,
{
    if n < 10 {
        seq![digit_char(n)]
    } else {
        decimal_chars(n / 10) + seq![digit_char(n % 10)]
    }
}

/// The name `stem_k.ext` (or `stem_k` when there is no extension), `k`
/// being the counter in decimal.
pub open spec fn numbered_name_spec(stem: Seq<char>, ext: Seq<char>, counter: nat) -> Seq<char> {
    let base = stem + seq!['_'] + decimal_chars(counter);
    if ext.len() == 0 {
        base
    } else {
        base + seq!['.'] + ext
    }
}

fn digit_str(d: u32) -> (s: &'static str)
    requires
        d < 10,
    ensures
        s@ == seq![digit_char(d as nat)],
{
    proof {
        reveal_strlit("0");
        reveal_strlit("1");
        reveal_strlit("2");
        reveal_strlit("3");
        reveal_strlit("4");
        reveal_strlit("5");
        reveal_strlit("6");
        reveal_strlit("7");
        reveal_strlit("8");
        reveal_strlit("9");
    }
    match d {
        0 => "0",
        1 => "1",
        2 => "2",
        3 => "3",
        4 => "4",
        5 => "5",
        6 => "6",
        7 => "7",
        8 => "8",
        _ => "9",
    }
}

fn append_decimal(s: &mut String, n: u32)
    ensures
        final(s)@ == old(s)@ + decimal_chars(n as nat),
    decreases n,
{
    if n >= 10 {
        append_decimal(s, n / 10);
    }
    let d = digit_str(n % 10);
    s.append(d);
    assert(s@ =~= old(s)@ + decimal_chars(n as nat));
}

impl Fix {
    /// A cleanup status under which the file stays on disk.
    pub fn status_retains_shared_physical_path(rep_status: RepStatus) -> (r: bool)
        ensures
            r == cleanup_retains(rep_status),
    {
        match rep_status {
            RepStatus::Delete | RepStatus::UnNeeded | RepStatus::MoveToSort
            | RepStatus::MoveToCorrupt | RepStatus::Deleted => false,
            _ => true,
        }
    }

    /// A DAT status under which the file stays where it is.
    pub fn dat_status_retains_shared_physical_path(dat_status: DatStatus) -> (r: bool)
        ensures
            r == dat_retains(dat_status),
    {
        match dat_status {
            DatStatus::NotInDat | DatStatus::InToSort => false,
            _ => true,
        }
    }

    /// The 7z structure chosen by the "default 7z structure" setting.
    pub fn default_seven_zip_struct_from_settings(setting: u8) -> (r: ZipStructure)
        ensures
            r == default_seven_zip_struct(setting),
    {
        match setting {
            0 => ZipStructure::SevenZipSLZMA,
            1 => ZipStructure::SevenZipNLZMA,
            2 => ZipStructure::SevenZipSZSTD,
            _ => ZipStructure::SevenZipNZSTD,
        }
    }

    /// The structure an archive is rebuilt with: the desired one when it
    /// suits the archive's type, else the default for that type.
    pub fn effective_desired_zip_struct(file_type: FileType, desired: ZipStructure, seven_z_default_struct: u8) -> (r: ZipStructure)
        ensures
            r == effective_struct(file_type, desired, seven_z_default_struct),
    {
        match file_type {
            FileType::SevenZip | FileType::FileSevenZip => match desired {
                ZipStructure::SevenZipSLZMA | ZipStructure::SevenZipNLZMA
                | ZipStructure::SevenZipSZSTD | ZipStructure::SevenZipNZSTD
                | ZipStructure::SevenZipTrrnt => desired,
                _ => Self::default_seven_zip_struct_from_settings(seven_z_default_struct),
            },
            FileType::Zip | FileType::FileZip => match desired {
                ZipStructure::ZipTrrnt | ZipStructure::ZipZSTD | ZipStructure::ZipTDC => desired,
                _ => ZipStructure::ZipTrrnt,
            },
            _ => desired,
        }
    }

    /// A delete goes ahead without looking for another copy.
    pub fn double_check_delete_should_skip(double_check_delete: bool, file: &FixNode) -> (r: bool)
        ensures
            r == delete_check_skipped(double_check_delete, *file),
    {
        if !double_check_delete {
            return true;
        }
        let in_to_sort = match file.dat_status {
            DatStatus::InToSort => true,
            _ => false,
        };
        if in_to_sort {
            let b = str_bytes(file.name.as_str());
            let n = b.len();
            if n >= 4 && crate::text::ascii_lower_byte(b[n - 4]) == 0x2E && crate::text::ascii_lower_byte(
                b[n - 3],
            ) == 0x63 && crate::text::ascii_lower_byte(b[n - 2]) == 0x75
                && crate::text::ascii_lower_byte(b[n - 1]) == 0x65 {
                return true;
            }
        }
        match file.hashes.size {
            Some(s) => s == 0,
            None => false,
        }
    }

    /// Whether a recorded modification time still matches the file's
    /// (`modified_secs`: the file's time in whole seconds since the Unix
    /// epoch, `None` when it could not be read).
    #[verifier::truncate]
    pub fn timestamp_matches(expected_secs: i64, modified_secs: Option<u64>) -> (r: bool)
        ensures
            r == timestamp_ok(expected_secs, modified_secs),
    {
        if expected_secs == i64::MIN {
            return true;
        }
        match modified_secs {
            Some(d) => d as i64 == expected_secs,
            None => false,
        }
    }

    /// Two logical names are the same.
    pub fn logical_name_eq(left: &str, right: &str) -> (r: bool)
        ensures
            r == (left@ == right@),
    {
        let e = slices_equal(str_bytes(left), str_bytes(right));
        proof {
            encode_utf8_decode_utf8(left@);
            encode_utf8_decode_utf8(right@);
        }
        e
    }

    /// A present file holds the content of the file being deleted.
    pub fn identity_can_fix(deleting: &FixNode, candidate: &FixNode) -> (r: bool)
        ensures
            r == identity_fixes(*deleting, *candidate),
    {
        match candidate.got_status {
            GotStatus::Got => {},
            _ => {
                return false;
            },
        }
        match candidate.rep_status {
            RepStatus::Delete | RepStatus::Deleted => {
                return false;
            },
            _ => {},
        }
        let d = &deleting.hashes;
        let c = &candidate.hashes;
        let expected_size = if d.size.is_some() {
            d.size
        } else {
            d.alt_size
        };
        if expected_size.is_some() && !opt_u64_is(c.size, expected_size) && !opt_u64_is(
            c.alt_size,
            expected_size,
        ) {
            return false;
        }
        let mut has_any = false;
        let crc = first_present(&d.crc, &d.alt_crc);
        if crc.is_some() {
            has_any = true;
            if !kind_ok_exec(crc, &c.crc, &c.alt_crc) {
                return false;
            }
        }
        let sha1 = first_present(&d.sha1, &d.alt_sha1);
        if sha1.is_some() {
            has_any = true;
            if !kind_ok_exec(sha1, &c.sha1, &c.alt_sha1) {
                return false;
            }
        }
        let md5 = first_present(&d.md5, &d.alt_md5);
        if md5.is_some() {
            has_any = true;
            if !kind_ok_exec(md5, &c.md5, &c.alt_md5) {
                return false;
            }
        }
        has_any
    }

    /// Whether a member of the source archive can stand for the target
    /// member of the same name.
    pub fn archive_child_matches_named(
        source_child: &FileHashes,
        source_name: &str,
        target_child: &FileHashes,
        target_name: &str,
    ) -> (r: bool)
        ensures
            r == member_matches_named(source_child@, source_name@, target_child@, target_name@),
    {
        if !Self::logical_name_eq(source_name, target_name) {
            return false;
        }
        if source_child.size != target_child.size {
            return false;
        }
        if target_child.crc.is_some() && !same_opt_bytes(&source_child.crc, &target_child.crc) {
            return false;
        }
        if target_child.sha1.is_some() && !same_opt_bytes(&source_child.sha1, &target_child.sha1) {
            return false;
        }
        if target_child.md5.is_some() && !same_opt_bytes(&source_child.md5, &target_child.md5) {
            return false;
        }
        true
    }

    fn prefixed_dirs(comps: &[String], has_first: bool, rel_from: usize, rel_to: usize, base_dir: &str) -> (r: Vec<
        String,
    >)
        requires
            has_first ==> comps@.len() > 0,
            rel_from <= rel_to <= comps@.len(),
        ensures
            texts_utf8(r@) == base_prefixed(
                if has_first {
                    Some(texts_utf8(comps@)[0])
                } else {
                    None
                },
                texts_utf8(comps@).subrange(rel_from as int, rel_to as int),
                encode_utf8(base_dir@),
            ),
    {
        let ghost all = texts_utf8(comps@);
        let base_parts = path_pieces_of(base_dir);
        let ghost bp = path_pieces(encode_utf8(base_dir@));
        assert(texts_utf8(base_parts@) =~= bp);
        let ghost rel = all.subrange(rel_from as int, rel_to as int);
        let shares_root = has_first && base_parts.len() > 0 && same_text(&comps[0], &base_parts[0]);
        let mut out: Vec<String> = Vec::new();
        assert(texts_utf8(out@) =~= Seq::<Seq<u8>>::empty());
        if shares_root {
            let slen = base_parts.len() - 1;
            let rlen = rel_to - rel_from;
            let mut already = rlen >= slen;
            let mut k: usize = 0;
            while already && k < slen
                invariant
                    k <= slen,
                    slen == bp.len() - 1,
                    rlen == rel.len(),
                    already ==> rlen >= slen,
                    all == texts_utf8(comps@),
                    bp == texts_utf8(base_parts@),
                    rel == all.subrange(rel_from as int, rel_to as int),
                    rel_from <= rel_to <= comps@.len(),
                    rel_to - rel_from == rlen,
                    base_parts@.len() == bp.len(),
                    already ==> forall|j: int| 0 <= j < k ==> rel[j] == bp.drop_first()[j],
                    !already ==> !(rel.len() >= bp.drop_first().len() && rel.subrange(0, bp.drop_first().len() as int)
                        == bp.drop_first()),
                decreases slen - k,
            {
                if !same_text(&base_parts[k + 1], &comps[rel_from + k]) {
                    proof {
                        assert(rel.subrange(0, bp.drop_first().len() as int)[k as int] != bp.drop_first()[k as int]);
                    }
                    already = false;
                }
                k = k + 1;
            }
            proof {
                if already {
                    assert(rel.subrange(0, bp.drop_first().len() as int) =~= bp.drop_first());
                }
            }
            if slen > 0 && !already {
                push_texts(&mut out, base_parts.as_slice(), 1, base_parts.len());
                assert(bp.subrange(1, bp.len() as int) =~= bp.drop_first());
            }
        } else {
            push_texts(&mut out, base_parts.as_slice(), 0, base_parts.len());
            assert(bp.subrange(0, bp.len() as int) =~= bp);
        }
        push_texts(&mut out, comps, rel_from, rel_to);
        out
    }

    /// The directories under which a file at a path with these normal
    /// components moves into `base_dir` when no directory mapping covers
    /// the path (see [`tosort_dirs`]).
    pub fn tosort_relative_dirs(normal_components: &[String], base_dir: &str) -> (r: Vec<String>)
        ensures
            texts_utf8(r@) == tosort_dirs(texts_utf8(normal_components@), encode_utf8(base_dir@)),
    {
        let n = normal_components.len();
        let ghost comps = texts_utf8(normal_components@);
        if n > 1 {
            Self::prefixed_dirs(normal_components, true, 1, n - 1, base_dir)
        } else {
            let r = Self::prefixed_dirs(normal_components, n > 0, 0, 0, base_dir);
            assert(comps.subrange(0, 0) =~= Seq::<Seq<u8>>::empty());
            r
        }
    }

    /// Where a member `child_name` of the archive `archive_name`, which lies
    /// in a directory with these normal components, moves inside `base_dir`
    /// when no directory mapping covers the archive: the parts after the
    /// directory's first component (see [`member_tosort_parts`]).
    pub fn archive_member_tosort_parts(
        parent_components: &[String],
        archive_name: &str,
        child_name: &str,
        base_dir: &str,
    ) -> (r: Vec<String>)
        ensures
            texts_utf8(r@) == member_tosort_parts(
                texts_utf8(parent_components@),
                encode_utf8(archive_name@),
                encode_utf8(child_name@),
                encode_utf8(base_dir@),
            ),
    {
        let n = parent_components.len();
        let ghost comps = texts_utf8(parent_components@);
        let mut out = if n > 1 {
            Self::prefixed_dirs(parent_components, true, 1, n, base_dir)
        } else {
            let r = Self::prefixed_dirs(parent_components, n > 0, 0, 0, base_dir);
            assert(comps.subrange(0, 0) =~= Seq::<Seq<u8>>::empty());
            r
        };
        let ghost dirs = texts_utf8(out@);
        out.push(archive_name.to_string());
        assert(texts_utf8(out@) =~= dirs + seq![encode_utf8(archive_name@)]);
        let pieces = path_pieces_of(child_name);
        let ghost mid = texts_utf8(out@);
        assert(texts_utf8(pieces@) =~= path_pieces(encode_utf8(child_name@)));
        let plen = pieces.len();
        push_texts(&mut out, pieces.as_slice(), 0, plen);
        assert(texts_utf8(pieces@).subrange(0, plen as int) =~= texts_utf8(pieces@));
        out
    }

    /// The name tried for the `counter`-th time when a file's own name is
    /// taken in its ToSort directory (see [`numbered_name_spec`]).
    pub fn tosort_numbered_name(stem: &str, ext: &str, counter: u32) -> (r: String)
        ensures
            r@ == numbered_name_spec(stem@, ext@, counter as nat),
    {
        let mut r = String::from_str(stem);
        proof {
            reveal_strlit("_");
        }
        r.append("_");
        append_decimal(&mut r, counter);
        if !ext.is_empty() {
            proof {
                reveal_strlit(".");
            }
            r.append(".");
            r.append(ext);
        }
        r
    }

    /// The fix step for a file (see [`fix_file_step_spec`]).
    pub fn fix_file_step(facts: &FixFileFacts) -> (r: FixFileStep)
        ensures
            r == fix_file_step_spec(*facts),
    {
        let none = FixFileStep { action: FixFileAction::Leave, got_status: None, dat_status: None, fixed: false };
        if facts.read_only {
            return none;
        }
        match facts.rep_status {
            RepStatus::Delete | RepStatus::UnNeeded => {
                if facts.shared_refs > 0 {
                    FixFileStep {
                        action: FixFileAction::Forget,
                        got_status: Some(GotStatus::NotGot),
                        dat_status: None,
                        fixed: false,
                    }
                } else if facts.rep_status == RepStatus::Delete && facts.current_exists
                    && facts.loose_file_with_parent && !facts.double_check_skip && !facts.has_retained_copy {
                    none
                } else {
                    FixFileStep {
                        action: FixFileAction::Delete { remove_file: facts.current_exists },
                        got_status: Some(GotStatus::NotGot),
                        dat_status: None,
                        fixed: false,
                    }
                }
            },
            RepStatus::MoveToSort => FixFileStep {
                action: FixFileAction::MoveToSort { move_file: facts.current_exists && facts.shared_refs == 0 },
                got_status: Some(GotStatus::Got),
                dat_status: Some(DatStatus::InToSort),
                fixed: false,
            },
            RepStatus::MoveToCorrupt => FixFileStep {
                action: FixFileAction::MoveToCorrupt { move_file: facts.current_exists && facts.shared_refs == 0 },
                got_status: Some(GotStatus::NotGot),
                dat_status: None,
                fixed: false,
            },
            RepStatus::CanBeFixed | RepStatus::CanBeFixedMIA | RepStatus::CorruptCanBeFixed => {
                match facts.source {
                    Some(src) => FixFileStep {
                        action: if src.at_target {
                            FixFileAction::FixByRename
                        } else {
                            FixFileAction::FixByCopy { clean_up_source: !src.read_only }
                        },
                        got_status: Some(GotStatus::Got),
                        dat_status: None,
                        fixed: true,
                    },
                    None => none,
                }
            },
            RepStatus::Rename => FixFileStep {
                action: FixFileAction::Rename { move_reference: !facts.at_target },
                got_status: Some(GotStatus::Got),
                dat_status: None,
                fixed: false,
            },
            _ => none,
        }
    }
}

} // verus!
