//! Repair statistics of a branch of the tree: counters of games and ROMs by
//! status, the node-level tally they are built from, and the report status a
//! directory shows for them.

use vstd::prelude::*;
use crate::enums::{FileType, GotStatus, RepStatus, ReportStatus};

verus! {

/// Counters of games and ROMs by repair status.
#[derive(Debug, Clone, Copy)]
pub struct RepairStatus {
    pub total_games: i32,
    pub total_roms: i32,
    pub games_correct: i32,
    pub games_missing: i32,
    pub games_missing_mia: i32,
    pub games_fixes: i32,
    pub roms_correct: i32,
    pub roms_correct_mia: i32,
    pub roms_missing: i32,
    pub roms_missing_mia: i32,
    pub roms_corrupt: i32,
    pub roms_fixes: i32,
    pub roms_in_to_sort: i32,
    pub roms_not_collected: i32,
    pub roms_unneeded: i32,
    pub roms_unknown: i32,
}

pub open spec fn fits_i32(v: int) -> bool {
    i32::MIN <= v <= i32::MAX
}

/// All counters zero.
pub open spec fn is_zero(s: RepairStatus) -> bool {
    &&& s.total_games == 0
    &&& s.total_roms == 0
    &&& s.games_correct == 0
    &&& s.games_missing == 0
    &&& s.games_missing_mia == 0
    &&& s.games_fixes == 0
    &&& s.roms_correct == 0
    &&& s.roms_correct_mia == 0
    &&& s.roms_missing == 0
    &&& s.roms_missing_mia == 0
    &&& s.roms_corrupt == 0
    &&& s.roms_fixes == 0
    &&& s.roms_in_to_sort == 0
    &&& s.roms_not_collected == 0
    &&& s.roms_unneeded == 0
    &&& s.roms_unknown == 0
}

/// Field-wise sum of two sets of counters (as integers).
pub open spec fn sums_fit(a: RepairStatus, b: RepairStatus) -> bool {
    &&& fits_i32(a.total_games + b.total_games)
    &&& fits_i32(a.total_roms + b.total_roms)
    &&& fits_i32(a.games_correct + b.games_correct)
    &&& fits_i32(a.games_missing + b.games_missing)
    &&& fits_i32(a.games_missing_mia + b.games_missing_mia)
    &&& fits_i32(a.games_fixes + b.games_fixes)
    &&& fits_i32(a.roms_correct + b.roms_correct)
    &&& fits_i32(a.roms_correct_mia + b.roms_correct_mia)
    &&& fits_i32(a.roms_missing + b.roms_missing)
    &&& fits_i32(a.roms_missing_mia + b.roms_missing_mia)
    &&& fits_i32(a.roms_corrupt + b.roms_corrupt)
    &&& fits_i32(a.roms_fixes + b.roms_fixes)
    &&& fits_i32(a.roms_in_to_sort + b.roms_in_to_sort)
    &&& fits_i32(a.roms_not_collected + b.roms_not_collected)
    &&& fits_i32(a.roms_unneeded + b.roms_unneeded)
    &&& fits_i32(a.roms_unknown + b.roms_unknown)
}

/// `c` is the field-wise sum of `a` and `b`.
pub open spec fn is_sum(c: RepairStatus, a: RepairStatus, b: RepairStatus) -> bool {
    &&& c.total_games == a.total_games + b.total_games
    &&& c.total_roms == a.total_roms + b.total_roms
    &&& c.games_correct == a.games_correct + b.games_correct
    &&& c.games_missing == a.games_missing + b.games_missing
    &&& c.games_missing_mia == a.games_missing_mia + b.games_missing_mia
    &&& c.games_fixes == a.games_fixes + b.games_fixes
    &&& c.roms_correct == a.roms_correct + b.roms_correct
    &&& c.roms_correct_mia == a.roms_correct_mia + b.roms_correct_mia
    &&& c.roms_missing == a.roms_missing + b.roms_missing
    &&& c.roms_missing_mia == a.roms_missing_mia + b.roms_missing_mia
    &&& c.roms_corrupt == a.roms_corrupt + b.roms_corrupt
    &&& c.roms_fixes == a.roms_fixes + b.roms_fixes
    &&& c.roms_in_to_sort == a.roms_in_to_sort + b.roms_in_to_sort
    &&& c.roms_not_collected == a.roms_not_collected + b.roms_not_collected
    &&& c.roms_unneeded == a.roms_unneeded + b.roms_unneeded
    &&& c.roms_unknown == a.roms_unknown + b.roms_unknown
}

/// The order in which two tallies are added does not matter.
pub proof fn law_tally_sum_commutes(c: RepairStatus, a: RepairStatus, b: RepairStatus)
    requires
        is_sum(c, a, b),
    ensures
        is_sum(c, b, a),
{
}

/// Adding an empty tally changes nothing.
pub proof fn law_tally_sum_zero(c: RepairStatus, a: RepairStatus, z: RepairStatus)
    requires
        is_zero(z),
        is_sum(c, a, z),
    ensures
        c == a,
{
}

/// A directory whose ROMs are all accounted for as correct, merged
/// (not collected or unneeded), corrupt or fixable, with at least one
/// corrupt and none plainly missing (every missing ROM is a corrupt one),
/// reports `Corrupt`; so does one whose ROMs are all corrupt.
pub proof fn law_corrupt_without_plain_missing_reports_corrupt(s: RepairStatus)
    requires
        s.total_roms > 0,
        s.roms_unknown != s.total_roms,
        s.roms_corrupt == s.total_roms || (s.roms_corrupt > 0 && s.roms_missing == s.roms_corrupt
            && s.roms_correct + s.roms_not_collected + s.roms_unneeded + s.roms_corrupt + s.roms_fixes
            == s.total_roms),
    ensures
        report_status_spec(s) == ReportStatus::Corrupt,
{
}

/// A directory reports `Corrupt` only when some ROM is corrupt.
pub proof fn law_corrupt_report_needs_a_corrupt_rom(s: RepairStatus)
    requires
        report_status_spec(s) == ReportStatus::Corrupt,
    ensures
        s.roms_corrupt != 0,
        s.roms_corrupt == s.total_roms || s.roms_missing == s.roms_corrupt,
{
}

/// A directory with no ROMs, or whose ROMs are all unknown, reports
/// `Unknown`.
pub proof fn law_empty_or_unknown_reports_unknown(s: RepairStatus)
    requires
        s.total_roms == 0 || s.roms_unknown == s.total_roms,
    ensures
        report_status_spec(s) == ReportStatus::Unknown,
{
}

/// A directory whose ROMs are all correct (none corrupt, merged, fixable or
/// in ToSort) reports `Correct`.
pub proof fn law_all_correct_reports_correct(s: RepairStatus)
    requires
        s.total_roms > 0,
        s.roms_correct == s.total_roms,
        s.roms_unknown == 0,
        s.roms_corrupt == 0,
        s.roms_not_collected == 0,
        s.roms_unneeded == 0,
        s.roms_fixes == 0,
        s.roms_in_to_sort == 0,
    ensures
        report_status_spec(s) == ReportStatus::Correct,
{
}

/// A directory whose ROMs are all merged reports `UnNeeded` when they are
/// all unneeded, else `NotCollected` (none of them corrupt or unknown).
pub proof fn law_all_merged_reports_cleanup(s: RepairStatus)
    requires
        s.total_roms > 0,
        s.roms_unknown == 0,
        s.roms_corrupt == 0,
        s.roms_not_collected >= 0,
        s.roms_unneeded >= 0,
        s.roms_not_collected + s.roms_unneeded == s.total_roms,
    ensures
        report_status_spec(s) == (if s.roms_not_collected == 0 {
            ReportStatus::UnNeeded
        } else {
            ReportStatus::NotCollected
        }),
{
}

/// A directory with a plainly missing ROM (missing, not corrupt) reports
/// `Missing`, unless its ROMs are all unknown, all in ToSort, all fixable or
/// all corrupt.
pub proof fn law_plainly_missing_reports_missing(s: RepairStatus)
    requires
        s.roms_correct >= 0,
        s.roms_not_collected >= 0,
        s.roms_unneeded >= 0,
        s.roms_corrupt >= 0,
        s.roms_missing > s.roms_corrupt,
        s.total_roms > s.roms_correct + s.roms_not_collected + s.roms_unneeded,
        s.roms_unknown != s.total_roms,
        s.roms_in_to_sort != s.total_roms,
        s.roms_fixes != s.total_roms,
        s.roms_corrupt != s.total_roms,
    ensures
        report_status_spec(s) == ReportStatus::Missing,
{
}

/// Tallies can be grouped in any way when adding up a directory.
pub proof fn law_tally_sum_associates(
    ab: RepairStatus,
    abc: RepairStatus,
    bc: RepairStatus,
    abc2: RepairStatus,
    a: RepairStatus,
    b: RepairStatus,
    c: RepairStatus,
)
    requires
        is_sum(ab, a, b),
        is_sum(abc, ab, c),
        is_sum(bc, b, c),
        is_sum(abc2, a, bc),
    ensures
        abc == abc2,
{
}

/// Statuses that count a game as correct.
pub open spec fn game_is_correct(r: RepStatus) -> bool {
    r == RepStatus::Correct || r == RepStatus::DirCorrect || r == RepStatus::CorrectMIA
}

/// Statuses that count a game as missing.
pub open spec fn game_is_missing(r: RepStatus) -> bool {
    r == RepStatus::Missing || r == RepStatus::DirMissing || r == RepStatus::Corrupt
        || r == RepStatus::DirCorrupt || r == RepStatus::Incomplete || r == RepStatus::MissingMIA
}

/// Fix-pending statuses shared by games and ROMs.
pub open spec fn is_fix_status(r: RepStatus) -> bool {
    r == RepStatus::CanBeFixed || r == RepStatus::CanBeFixedMIA || r == RepStatus::CorruptCanBeFixed
        || r == RepStatus::MoveToSort || r == RepStatus::MoveToCorrupt || r == RepStatus::Delete
        || r == RepStatus::Deleted || r == RepStatus::NeededForFix || r == RepStatus::Rename
        || r == RepStatus::IncompleteRemove
}

/// Statuses that count a game as needing fixes.
pub open spec fn game_is_fix(r: RepStatus) -> bool {
    is_fix_status(r) || r == RepStatus::InToSort || r == RepStatus::DirInToSort
}

pub open spec fn ind(b: bool) -> int {
    if b {
        1
    } else {
        0
    }
}

/// The counters that a single node contributes, given its status, whether it is
/// a file, whether it is a game, and whether it has children.
pub open spec fn node_tally(
    s: RepairStatus,
    r: RepStatus,
    is_file: bool,
    is_game: bool,
    has_children: bool,
) -> bool {
    let as_file = is_file || (is_game && !has_children);
    let corrupt = r == RepStatus::Corrupt || r == RepStatus::DirCorrupt || r == RepStatus::Incomplete;
    &&& s.total_games == ind(is_game)
    &&& s.games_correct == ind(is_game && game_is_correct(r))
    &&& s.games_missing == ind(is_game && game_is_missing(r))
    &&& s.games_missing_mia == ind(is_game && (r == RepStatus::CorrectMIA || r == RepStatus::MissingMIA))
    &&& s.games_fixes == ind(is_game && game_is_fix(r))
    &&& s.total_roms == ind(as_file)
    &&& s.roms_correct == ind(as_file && game_is_correct(r))
    &&& s.roms_correct_mia == ind(as_file && r == RepStatus::CorrectMIA)
    &&& s.roms_missing == ind(as_file && game_is_missing(r))
    &&& s.roms_missing_mia == ind(as_file && r == RepStatus::MissingMIA)
    &&& s.roms_corrupt == ind(as_file && corrupt)
    &&& s.roms_fixes == ind(as_file && is_fix_status(r))
    &&& s.roms_in_to_sort == ind(as_file && (r == RepStatus::InToSort || r == RepStatus::DirInToSort))
    &&& s.roms_not_collected == ind(as_file && r == RepStatus::NotCollected)
    &&& s.roms_unneeded == ind(as_file && r == RepStatus::UnNeeded)
    &&& s.roms_unknown == ind(
        as_file && (r == RepStatus::Unknown || r == RepStatus::DirUnknown || r == RepStatus::UnScanned),
    )
}

/// The intermediate sums of the report-status rule fit in `i32`.
pub open spec fn report_sums_fit(s: RepairStatus) -> bool {
    &&& fits_i32(s.roms_not_collected + s.roms_unneeded)
    &&& fits_i32(s.roms_missing - s.roms_corrupt)
    &&& fits_i32(s.roms_correct + s.roms_not_collected + s.roms_unneeded)
    &&& fits_i32(s.roms_correct + s.roms_not_collected + s.roms_unneeded + s.roms_corrupt)
    &&& fits_i32(
        s.roms_correct + s.roms_not_collected + s.roms_unneeded + s.roms_corrupt + s.roms_fixes,
    )
}

/// The report status that a directory shows for its counters.
pub open spec fn report_status_spec(s: RepairStatus) -> ReportStatus {
    let merged = s.roms_not_collected + s.roms_unneeded;
    let correct = s.roms_correct;
    let plain_missing = s.roms_missing - s.roms_corrupt;
    if s.total_roms == 0 || s.roms_unknown == s.total_roms {
        ReportStatus::Unknown
    } else if s.roms_corrupt == s.total_roms || (s.roms_corrupt > 0 && plain_missing == 0
        && correct + merged + s.roms_corrupt + s.roms_fixes == s.total_roms) {
        ReportStatus::Corrupt
    } else if merged == s.total_roms {
        if s.roms_unneeded > 0 && s.roms_not_collected == 0 {
            ReportStatus::UnNeeded
        } else {
            ReportStatus::NotCollected
        }
    } else if s.roms_in_to_sort == s.total_roms || s.roms_fixes == s.total_roms {
        ReportStatus::InToSort
    } else if correct == s.total_roms {
        ReportStatus::Correct
    } else if s.roms_missing > 0 {
        ReportStatus::Missing
    } else if s.roms_fixes > 0 || s.roms_in_to_sort > 0 {
        ReportStatus::InToSort
    } else {
        ReportStatus::Unknown
    }
}

/// Position of each status in the per-status count table.
pub open spec fn rep_status_index_spec(r: RepStatus) -> int {
    match r {
        RepStatus::Error => 0,
        RepStatus::UnSet => 1,
        RepStatus::UnScanned => 2,
        RepStatus::DirCorrect => 3,
        RepStatus::DirMissing => 4,
        RepStatus::DirUnknown => 5,
        RepStatus::DirInToSort => 6,
        RepStatus::DirCorrupt => 7,
        RepStatus::Missing => 8,
        RepStatus::Correct => 9,
        RepStatus::NotCollected => 10,
        RepStatus::UnNeeded => 11,
        RepStatus::Unknown => 12,
        RepStatus::InToSort => 13,
        RepStatus::Corrupt => 14,
        RepStatus::Ignore => 15,
        RepStatus::CanBeFixed => 16,
        RepStatus::MoveToSort => 17,
        RepStatus::Delete => 18,
        RepStatus::NeededForFix => 19,
        RepStatus::Rename => 20,
        RepStatus::CorruptCanBeFixed => 21,
        RepStatus::MoveToCorrupt => 22,
        RepStatus::Deleted => 23,
        RepStatus::MissingMIA => 24,
        RepStatus::CorrectMIA => 25,
        RepStatus::CanBeFixedMIA => 26,
        RepStatus::IncompleteRemove => 27,
        RepStatus::Incomplete => 28,
        RepStatus::EndValue => 29,
    }
}

/// Position of a status in the per-status count table (its declaration order).
pub fn rep_status_index(r: RepStatus) -> (res: usize)
    ensures
        res == rep_status_index_spec(r),
{
    match r {
        RepStatus::Error => 0,
        RepStatus::UnSet => 1,
        RepStatus::UnScanned => 2,
        RepStatus::DirCorrect => 3,
        RepStatus::DirMissing => 4,
        RepStatus::DirUnknown => 5,
        RepStatus::DirInToSort => 6,
        RepStatus::DirCorrupt => 7,
        RepStatus::Missing => 8,
        RepStatus::Correct => 9,
        RepStatus::NotCollected => 10,
        RepStatus::UnNeeded => 11,
        RepStatus::Unknown => 12,
        RepStatus::InToSort => 13,
        RepStatus::Corrupt => 14,
        RepStatus::Ignore => 15,
        RepStatus::CanBeFixed => 16,
        RepStatus::MoveToSort => 17,
        RepStatus::Delete => 18,
        RepStatus::NeededForFix => 19,
        RepStatus::Rename => 20,
        RepStatus::CorruptCanBeFixed => 21,
        RepStatus::MoveToCorrupt => 22,
        RepStatus::Deleted => 23,
        RepStatus::MissingMIA => 24,
        RepStatus::CorrectMIA => 25,
        RepStatus::CanBeFixedMIA => 26,
        RepStatus::IncompleteRemove => 27,
        RepStatus::Incomplete => 28,
        RepStatus::EndValue => 29,
    }
}

/// Priority order in which a branch's most significant status is picked.
pub open spec fn display_order() -> Seq<RepStatus> {
    seq![
        RepStatus::Error,
        RepStatus::UnSet,
        RepStatus::UnScanned,
        RepStatus::DirCorrupt,
        RepStatus::MoveToCorrupt,
        RepStatus::CorruptCanBeFixed,
        RepStatus::CanBeFixedMIA,
        RepStatus::CanBeFixed,
        RepStatus::MoveToSort,
        RepStatus::Delete,
        RepStatus::NeededForFix,
        RepStatus::Rename,
        RepStatus::Corrupt,
        RepStatus::Unknown,
        RepStatus::UnNeeded,
        RepStatus::Incomplete,
        RepStatus::Missing,
        RepStatus::MissingMIA,
        RepStatus::CorrectMIA,
        RepStatus::Correct,
        RepStatus::InToSort,
        RepStatus::NotCollected,
        RepStatus::Ignore,
        RepStatus::Deleted,
    ]
}

/// The status has a positive entry in the count table.
pub open spec fn counted(counts: Seq<u32>, r: RepStatus) -> bool {
    rep_status_index_spec(r) < counts.len() && counts[rep_status_index_spec(r)] > 0
}

/// First status of `display_order()[i..]` that is counted, or `UnScanned`.
pub open spec fn first_counted_from(counts: Seq<u32>, i: int) -> RepStatus
    decreases 24 - i,
{
    if i >= 24 || i < 0 {
        RepStatus::UnScanned
    } else if counted(counts, display_order()[i]) {
        display_order()[i]
    } else {
        first_counted_from(counts, i + 1)
    }
}


/// A node of the tree as far as its repair statistics go: its type, physical
/// and repair status, whether it is a game, whether a scan has paired it with
/// a file found on disk, the report status it shows (for directories and
/// archives), the counters cached for its branch, and its children.
#[derive(Debug)]
pub struct StatusNode {
    pub file_type: FileType,
    pub got_status: GotStatus,
    pub rep_status: RepStatus,
    pub is_game: bool,
    pub search_found: bool,
    pub dir_status: Option<ReportStatus>,
    pub cached_stats: Option<RepairStatus>,
    pub children: Vec<StatusNode>,
}

/// Directories and archives.
pub open spec fn is_dir_type(t: FileType) -> bool {
    t == FileType::Dir || t == FileType::Zip || t == FileType::SevenZip
}

/// Files, loose or inside an archive.
pub open spec fn is_file_type(t: FileType) -> bool {
    t == FileType::File || t == FileType::FileZip || t == FileType::FileSevenZip || t == FileType::FileOnly
}

/// The counters as integers, in field order.
pub open spec fn counts_of(s: RepairStatus) -> Seq<int> {
    seq![
        s.total_games as int,
        s.total_roms as int,
        s.games_correct as int,
        s.games_missing as int,
        s.games_missing_mia as int,
        s.games_fixes as int,
        s.roms_correct as int,
        s.roms_correct_mia as int,
        s.roms_missing as int,
        s.roms_missing_mia as int,
        s.roms_corrupt as int,
        s.roms_fixes as int,
        s.roms_in_to_sort as int,
        s.roms_not_collected as int,
        s.roms_unneeded as int,
        s.roms_unknown as int,
    ]
}

pub open spec fn counts_add(a: Seq<int>, b: Seq<int>) -> Seq<int> {
    Seq::new(16, |i: int| a[i] + b[i])
}

pub open spec fn zero_counts() -> Seq<int> {
    Seq::new(16, |i: int| 0int)
}

/// The counters one node contributes by itself, as integers (see
/// [`node_tally`]).
pub open spec fn own_counts(r: RepStatus, is_file: bool, is_game: bool, has_children: bool) -> Seq<int> {
    let as_file = is_file || (is_game && !has_children);
    let corrupt = r == RepStatus::Corrupt || r == RepStatus::DirCorrupt || r == RepStatus::Incomplete;
    seq![
        ind(is_game),
        ind(as_file),
        ind(is_game && game_is_correct(r)),
        ind(is_game && game_is_missing(r)),
        ind(is_game && (r == RepStatus::CorrectMIA || r == RepStatus::MissingMIA)),
        ind(is_game && game_is_fix(r)),
        ind(as_file && game_is_correct(r)),
        ind(as_file && r == RepStatus::CorrectMIA),
        ind(as_file && game_is_missing(r)),
        ind(as_file && r == RepStatus::MissingMIA),
        ind(as_file && corrupt),
        ind(as_file && is_fix_status(r)),
        ind(as_file && (r == RepStatus::InToSort || r == RepStatus::DirInToSort)),
        ind(as_file && r == RepStatus::NotCollected),
        ind(as_file && r == RepStatus::UnNeeded),
        ind(as_file && (r == RepStatus::Unknown || r == RepStatus::DirUnknown || r == RepStatus::UnScanned)),
    ]
}

/// The counters of a branch: its cached counters when it has them, else the
/// node's own plus, for a directory, those of each child's branch.
pub open spec fn subtree_counts(n: StatusNode) -> Seq<int>
    decreases n,
{
    match n.cached_stats {
        Some(c) => counts_of(c),
        None => if is_dir_type(n.file_type) {
            counts_add(
                kids_counts(n.children@),
                own_counts(n.rep_status, is_file_type(n.file_type), n.is_game, n.children@.len() > 0),
            )
        } else {
            own_counts(n.rep_status, is_file_type(n.file_type), n.is_game, false)
        },
    }
}

/// The counters of a run of branches, added up.
pub open spec fn kids_counts(ns: Seq<StatusNode>) -> Seq<int>
    decreases ns,
{
    if ns.len() == 0 {
        zero_counts()
    } else {
        counts_add(kids_counts(ns.subrange(0, ns.len() - 1)), subtree_counts(ns[ns.len() - 1]))
    }
}

/// Every counter is at least zero.
pub open spec fn counts_nonneg(v: Seq<int>) -> bool {
    forall|i: int| 0 <= i < 16 ==> 0 <= #[trigger] v[i]
}

/// Every counter fits in an `i32`.
pub open spec fn counts_fit(v: Seq<int>) -> bool {
    forall|i: int| 0 <= i < 16 ==> #[trigger] v[i] <= i32::MAX
}

/// The intermediate sums of the report-status rule fit in an `i32` (see
/// [`report_sums_fit`]).
pub open spec fn counts_report_fit(v: Seq<int>) -> bool {
    &&& v[13] + v[14] <= i32::MAX
    &&& v[6] + v[13] + v[14] + v[10] + v[11] <= i32::MAX
}

/// The counters of a tree can be added up in `i32` without overflow: cached
/// counters are never negative, each branch that is not cached has counters
/// that fit, and the report status of each directory can be computed.
pub open spec fn report_fits(n: StatusNode) -> bool
    decreases n,
{
    match n.cached_stats {
        Some(c) => counts_nonneg(counts_of(c)) && (n.dir_status is Some ==> counts_report_fit(counts_of(c))),
        None => {
            &&& counts_fit(subtree_counts(n))
            &&& (n.dir_status is Some ==> counts_report_fit(subtree_counts(n)))
            &&& (is_dir_type(n.file_type) ==> kids_report_fit(n.children@))
        },
    }
}

pub open spec fn kids_report_fit(ns: Seq<StatusNode>) -> bool
    decreases ns,
{
    ns.len() > 0 ==> (report_fits(ns[ns.len() - 1]) && kids_report_fit(ns.subrange(0, ns.len() - 1)))
}

/// `n` is `o` after its statistics were reported: a node with cached
/// counters only refreshes its report status from them; any other node gets
/// its branch counters cached and its report status recomputed, and, for a
/// directory, each child is reported in the same way.
pub open spec fn reported(o: StatusNode, n: StatusNode) -> bool
    decreases o,
{
    &&& n.file_type == o.file_type
    &&& n.got_status == o.got_status
    &&& n.rep_status == o.rep_status
    &&& n.is_game == o.is_game
    &&& match o.cached_stats {
        Some(c) => {
            &&& n.cached_stats == o.cached_stats
            &&& n.children@ == o.children@
            &&& n.dir_status == (if o.dir_status is Some {
                Some(report_status_spec(c))
            } else {
                None
            })
        },
        None => {
            &&& n.cached_stats matches Some(s) && counts_of(s) == subtree_counts(o) && n.dir_status == (
            if o.dir_status is Some {
                Some(report_status_spec(s))
            } else {
                None
            })
            &&& if is_dir_type(o.file_type) {
                kids_reported(o.children@, n.children@)
            } else {
                n.children@ == o.children@
            }
        },
    }
}

pub open spec fn kids_reported(os: Seq<StatusNode>, ns: Seq<StatusNode>) -> bool
    decreases os,
{
    &&& os.len() == ns.len()
    &&& (os.len() > 0 ==> (reported(os[os.len() - 1], ns[ns.len() - 1]) && kids_reported(
        os.subrange(0, os.len() - 1),
        ns.subrange(0, ns.len() - 1),
    )))
}

/// Number of nodes of a branch whose status has index `k`; the children of a
/// node are counted only when it is a directory.
pub open spec fn status_count(n: StatusNode, k: int) -> int
    decreases n,
{
    ind(rep_status_index_spec(n.rep_status) == k) + if is_dir_type(n.file_type) {
        kids_status_count(n.children@, k)
    } else {
        0
    }
}

pub open spec fn kids_status_count(ns: Seq<StatusNode>, k: int) -> int
    decreases ns,
{
    if ns.len() == 0 {
        0
    } else {
        kids_status_count(ns.subrange(0, ns.len() - 1), k) + status_count(ns[ns.len() - 1], k)
    }
}

/// Status counts of the branch below `root` (of `root` itself when it is not
/// a directory), by index.
pub open spec fn branch_status_count(root: StatusNode, k: int) -> int {
    if is_dir_type(root.file_type) {
        kids_status_count(root.children@, k)
    } else {
        status_count(root, k)
    }
}

pub open spec fn branch_counts(root: StatusNode) -> Seq<u32> {
    Seq::new(29, |k: int| branch_status_count(root, k) as u32)
}

proof fn lemma_status_count_nonneg(n: StatusNode, k: int)
    ensures
        status_count(n, k) >= 0,
    decreases n,
{
    if is_dir_type(n.file_type) {
        lemma_kids_status_count_nonneg(n.children@, k);
    }
}

proof fn lemma_kids_status_count_nonneg(ns: Seq<StatusNode>, k: int)
    ensures
        kids_status_count(ns, k) >= 0,
    decreases ns,
{
    if ns.len() > 0 {
        lemma_kids_status_count_nonneg(ns.subrange(0, ns.len() - 1), k);
        lemma_status_count_nonneg(ns[ns.len() - 1], k);
    }
}

/// Adds the status of every node of `node`'s branch to `counts`.
fn add_counts(node: &StatusNode, counts: &mut Vec<u32>)
    requires
        old(counts)@.len() == 29,
        forall|k: int| 0 <= k < 29 ==> #[trigger] old(counts)@[k] + status_count(*node, k) <= u32::MAX,
    ensures
        final(counts)@.len() == 29,
        forall|k: int| 0 <= k < 29 ==> #[trigger] final(counts)@[k] == old(counts)@[k] + status_count(*node, k),
    decreases *node,
{
    proof {
        assert forall|k: int| 0 <= k < 29 implies status_count(*node, k) >= ind(rep_status_index_spec(node.rep_status) == k) by {
            lemma_status_count_nonneg(*node, k);
            if is_dir_type(node.file_type) {
                lemma_kids_status_count_nonneg(node.children@, k);
            }
        }
    }
    let idx = rep_status_index(node.rep_status);
    if idx < counts.len() {
        let c = counts[idx];
        counts.set(idx, c + 1);
    }
    let ghost base = counts@;
    if node.file_type == FileType::Dir || node.file_type == FileType::Zip || node.file_type == FileType::SevenZip {
        let mut i: usize = 0;
        while i < node.children.len()
            invariant
                counts@.len() == 29,
                i <= node.children@.len(),
                is_dir_type(node.file_type),
                forall|k: int| 0 <= k < 29 ==> #[trigger] counts@[k] == base[k] + kids_status_count(
                    node.children@.subrange(0, i as int),
                    k,
                ),
                forall|k: int| 0 <= k < 29 ==> #[trigger] base[k] + kids_status_count(node.children@, k) <= u32::MAX,
            decreases node.children@.len() - i,
        {
            let ghost pre = node.children@.subrange(0, i as int);
            let ghost pre2 = node.children@.subrange(0, i + 1);
            proof {
                assert(pre2.subrange(0, pre2.len() - 1) =~= pre);
                assert(pre2[pre2.len() - 1] == node.children@[i as int]);
                assert forall|k: int| 0 <= k < 29 implies #[trigger] base[k] + kids_status_count(pre2, k) <= u32::MAX by {
                    lemma_kids_prefix_count_le(node.children@, i + 1, k);
                }
                assert(decreases_to!(*node => node.children));
            }
            add_counts(&node.children[i], counts);
            i = i + 1;
        }
        proof {
            assert(node.children@.subrange(0, node.children@.len() as int) =~= node.children@);
        }
    }
}

proof fn lemma_kids_prefix_count_le(ns: Seq<StatusNode>, j: int, k: int)
    requires
        0 <= j <= ns.len(),
    ensures
        kids_status_count(ns.subrange(0, j), k) <= kids_status_count(ns, k),
    decreases ns.len() - j,
{
    if j < ns.len() {
        lemma_kids_prefix_count_le(ns, j + 1, k);
        let p = ns.subrange(0, j + 1);
        assert(p.subrange(0, p.len() - 1) =~= ns.subrange(0, j));
        lemma_status_count_nonneg(p[p.len() - 1], k);
    } else {
        assert(ns.subrange(0, j) =~= ns);
    }
}


proof fn lemma_counts_sum(c: RepairStatus, a: RepairStatus, b: RepairStatus)
    requires
        is_sum(c, a, b),
    ensures
        counts_of(c) == counts_add(counts_of(a), counts_of(b)),
{
    assert(counts_of(c) =~= counts_add(counts_of(a), counts_of(b)));
}

proof fn lemma_sums_fit(a: RepairStatus, b: RepairStatus)
    requires
        forall|i: int| 0 <= i < 16 ==> fits_i32(#[trigger] counts_add(counts_of(a), counts_of(b))[i]),
    ensures
        sums_fit(a, b),
{
    let v = counts_add(counts_of(a), counts_of(b));
    assert(fits_i32(v[0]) && fits_i32(v[1]) && fits_i32(v[2]) && fits_i32(v[3]));
    assert(fits_i32(v[4]) && fits_i32(v[5]) && fits_i32(v[6]) && fits_i32(v[7]));
    assert(fits_i32(v[8]) && fits_i32(v[9]) && fits_i32(v[10]) && fits_i32(v[11]));
    assert(fits_i32(v[12]) && fits_i32(v[13]) && fits_i32(v[14]) && fits_i32(v[15]));
}

proof fn lemma_tally_counts(s: RepairStatus, r: RepStatus, is_file: bool, is_game: bool, has_children: bool)
    requires
        node_tally(s, r, is_file, is_game, has_children),
    ensures
        counts_of(s) == own_counts(r, is_file, is_game, has_children),
{
    assert(counts_of(s) =~= own_counts(r, is_file, is_game, has_children));
}

proof fn lemma_zero_counts(z: RepairStatus)
    requires
        is_zero(z),
    ensures
        counts_of(z) == zero_counts(),
{
    assert(counts_of(z) =~= zero_counts());
}

proof fn lemma_report_fit(s: RepairStatus)
    requires
        counts_nonneg(counts_of(s)),
        counts_report_fit(counts_of(s)),
    ensures
        report_sums_fit(s),
{
    let v = counts_of(s);
    assert(v[6] >= 0 && v[8] >= 0 && v[10] >= 0 && v[11] >= 0 && v[13] >= 0 && v[14] >= 0);
    assert(v[8] <= i32::MAX && v[10] <= i32::MAX);
}

proof fn lemma_report_fit_cached(n: StatusNode, c: RepairStatus)
    requires
        report_fits(n),
        n.cached_stats == Some(c),
        n.dir_status is Some,
    ensures
        report_sums_fit(c),
{
    lemma_report_fit(c);
}

proof fn lemma_own_nonneg(r: RepStatus, is_file: bool, is_game: bool, has_children: bool)
    ensures
        counts_nonneg(own_counts(r, is_file, is_game, has_children)),
        forall|i: int| 0 <= i < 16 ==> #[trigger] own_counts(r, is_file, is_game, has_children)[i] <= 1,
{
}

proof fn lemma_subtree_nonneg(n: StatusNode)
    requires
        report_fits(n),
    ensures
        counts_nonneg(subtree_counts(n)),
    decreases n,
{
    if n.cached_stats is None {
        lemma_own_nonneg(n.rep_status, is_file_type(n.file_type), n.is_game, n.children@.len() > 0);
        lemma_own_nonneg(n.rep_status, is_file_type(n.file_type), n.is_game, false);
        if is_dir_type(n.file_type) {
            lemma_kids_nonneg(n.children@);
        }
    }
}

proof fn lemma_kids_nonneg(ns: Seq<StatusNode>)
    requires
        kids_report_fit(ns),
    ensures
        counts_nonneg(kids_counts(ns)),
    decreases ns,
{
    if ns.len() > 0 {
        lemma_kids_nonneg(ns.subrange(0, ns.len() - 1));
        lemma_subtree_nonneg(ns[ns.len() - 1]);
    }
}

proof fn lemma_kids_fit_index(ns: Seq<StatusNode>, j: int)
    requires
        kids_report_fit(ns),
        0 <= j < ns.len(),
    ensures
        report_fits(ns[j]),
    decreases ns.len(),
{
    if j < ns.len() - 1 {
        lemma_kids_fit_index(ns.subrange(0, ns.len() - 1), j);
    }
}

proof fn lemma_kids_prefix_le(ns: Seq<StatusNode>, j: int)
    requires
        kids_report_fit(ns),
        0 <= j <= ns.len(),
    ensures
        forall|i: int| 0 <= i < 16 ==> #[trigger] kids_counts(ns.subrange(0, j))[i] <= kids_counts(ns)[i],
        counts_nonneg(kids_counts(ns.subrange(0, j))),
    decreases ns.len() - j,
{
    if j < ns.len() {
        lemma_kids_prefix_le(ns, j + 1);
        let p = ns.subrange(0, j + 1);
        assert(p.subrange(0, p.len() - 1) =~= ns.subrange(0, j));
        lemma_kids_fit_index(ns, j);
        lemma_subtree_nonneg(ns[j]);
        assert(p[p.len() - 1] == ns[j]);
        assert(kids_counts(p) == counts_add(kids_counts(ns.subrange(0, j)), subtree_counts(ns[j])));
        assert forall|i: int| 0 <= i < 16 implies #[trigger] kids_counts(ns.subrange(0, j))[i] <= kids_counts(ns)[i] by {
            assert(kids_counts(p)[i] == kids_counts(ns.subrange(0, j))[i] + subtree_counts(ns[j])[i]);
            assert(subtree_counts(ns[j])[i] >= 0);
            assert(kids_counts(p)[i] <= kids_counts(ns)[i]);
        }
        lemma_kids_fit_prefix(ns, j);
        lemma_kids_nonneg(ns.subrange(0, j));
    } else {
        assert(ns.subrange(0, j) =~= ns);
        lemma_kids_nonneg(ns);
    }
}

proof fn lemma_kids_fit_prefix(ns: Seq<StatusNode>, j: int)
    requires
        kids_report_fit(ns),
        0 <= j <= ns.len(),
    ensures
        kids_report_fit(ns.subrange(0, j)),
    decreases ns.len() - j,
{
    if j < ns.len() {
        lemma_kids_fit_prefix(ns.subrange(0, ns.len() - 1), j);
        assert(ns.subrange(0, ns.len() - 1).subrange(0, j) =~= ns.subrange(0, j));
    } else {
        assert(ns.subrange(0, j) =~= ns);
    }
}


/// No node of the branch has cached counters, and only directories have
/// children.
pub open spec fn uncached_tree(n: StatusNode) -> bool
    decreases n,
{
    &&& n.cached_stats is None
    &&& (!is_dir_type(n.file_type) ==> n.children@.len() == 0)
    &&& kids_uncached(n.children@)
}

/// `uncached_tree` for each of `ns`.
pub open spec fn kids_uncached(ns: Seq<StatusNode>) -> bool
    decreases ns,
{
    ns.len() > 0 ==> {
        &&& uncached_tree(ns[ns.len() - 1])
        &&& kids_uncached(ns.subrange(0, ns.len() - 1))
    }
}

/// The own counters of every node of the branch, added up.
pub open spec fn node_sum(n: StatusNode) -> Seq<int>
    decreases n,
{
    counts_add(kids_sum(n.children@), own_counts(n.rep_status, is_file_type(n.file_type), n.is_game, n.children@.len() > 0))
}

/// `node_sum` over each of `ns`, added up.
pub open spec fn kids_sum(ns: Seq<StatusNode>) -> Seq<int>
    decreases ns,
{
    if ns.len() == 0 {
        zero_counts()
    } else {
        counts_add(kids_sum(ns.subrange(0, ns.len() - 1)), node_sum(ns[ns.len() - 1]))
    }
}

/// In a branch without cached counters, the counters of the branch are the
/// own counters of every one of its nodes, added up.
pub proof fn law_counts_sum_every_node(n: StatusNode)
    requires
        uncached_tree(n),
    ensures
        subtree_counts(n) == node_sum(n),
    decreases n,
{
    lemma_kids_counts_sum(n.children@);
    if !is_dir_type(n.file_type) {
        assert(n.children@.len() == 0);
        assert(kids_sum(n.children@) == zero_counts());
        assert(counts_add(zero_counts(), own_counts(n.rep_status, is_file_type(n.file_type), n.is_game, false))
            =~= own_counts(n.rep_status, is_file_type(n.file_type), n.is_game, false));
    }
}

proof fn lemma_kids_counts_sum(ns: Seq<StatusNode>)
    requires
        kids_uncached(ns),
    ensures
        kids_counts(ns) == kids_sum(ns),
    decreases ns,
{
    if ns.len() > 0 {
        lemma_kids_counts_sum(ns.subrange(0, ns.len() - 1));
        law_counts_sum_every_node(ns[ns.len() - 1]);
    }
}

/// Once a branch is reported, its cached counters are the ones it had before:
/// reporting it again adds the same counters.
pub proof fn law_report_keeps_counts(o: StatusNode, n: StatusNode)
    requires
        reported(o, n),
    ensures
        subtree_counts(n) == subtree_counts(o),
        n.cached_stats is Some,
{
}

impl RepairStatus {
    /// All counters set to zero.
    pub fn new() -> (r: Self)
        ensures
            is_zero(r),
    {
        RepairStatus {
            total_games: 0,
            total_roms: 0,
            games_correct: 0,
            games_missing: 0,
            games_missing_mia: 0,
            games_fixes: 0,
            roms_correct: 0,
            roms_correct_mia: 0,
            roms_missing: 0,
            roms_missing_mia: 0,
            roms_corrupt: 0,
            roms_fixes: 0,
            roms_in_to_sort: 0,
            roms_not_collected: 0,
            roms_unneeded: 0,
            roms_unknown: 0,
        }
    }

    /// Number of correct ROMs.
    pub fn count_correct(&self) -> (r: i32)
        ensures
            r == self.roms_correct,
    {
        self.roms_correct
    }

    /// Number of ROMs that are missing (corrupt ones included) or awaiting a fix.
    pub fn count_missing(&self) -> (r: i32)
        requires
            fits_i32(self.roms_missing + self.roms_fixes),
        ensures
            r == self.roms_missing + self.roms_fixes,
    {
        self.roms_missing + self.roms_fixes
    }

    /// Number of ROMs that need fix work: pending fixes, unknown and unneeded files.
    pub fn count_fixes_needed(&self) -> (r: i32)
        requires
            fits_i32(self.roms_fixes + self.roms_unknown),
            fits_i32(self.roms_fixes + self.roms_unknown + self.roms_unneeded),
        ensures
            r == self.roms_fixes + self.roms_unknown + self.roms_unneeded,
    {
        self.roms_fixes + self.roms_unknown + self.roms_unneeded
    }

    fn synthesized_report_status(&self) -> (r: ReportStatus)
        requires
            report_sums_fit(*self),
        ensures
            r == report_status_spec(*self),
    {
        let merged_roms = self.roms_not_collected + self.roms_unneeded;
        let correct_roms = self.count_correct();
        let missing_roms = self.roms_missing;
        let plain_missing_roms = missing_roms - self.roms_corrupt;

        if self.total_roms == 0 || self.roms_unknown == self.total_roms {
            ReportStatus::Unknown
        } else if self.roms_corrupt == self.total_roms || (self.roms_corrupt > 0
            && plain_missing_roms == 0 && correct_roms + merged_roms + self.roms_corrupt
            + self.roms_fixes == self.total_roms) {
            ReportStatus::Corrupt
        } else if merged_roms == self.total_roms {
            if self.roms_unneeded > 0 && self.roms_not_collected == 0 {
                ReportStatus::UnNeeded
            } else {
                ReportStatus::NotCollected
            }
        } else if self.roms_in_to_sort == self.total_roms || self.roms_fixes == self.total_roms {
            ReportStatus::InToSort
        } else if correct_roms == self.total_roms {
            ReportStatus::Correct
        } else if missing_roms > 0 {
            ReportStatus::Missing
        } else if self.roms_fixes > 0 || self.roms_in_to_sort > 0 {
            ReportStatus::InToSort
        } else {
            ReportStatus::Unknown
        }
    }

    /// Report status shown for a directory with these counters.
    pub fn synthesized_dir_status(&self) -> (r: ReportStatus)
        requires
            report_sums_fit(*self),
        ensures
            r == report_status_spec(*self),
    {
        self.synthesized_report_status()
    }

    /// Counters that one node contributes by itself (not its children).
    /// A node counts as a ROM when it is a file, or a game without children.
    pub fn for_node(rep_status: RepStatus, is_file: bool, is_game: bool, has_children: bool) -> (r: Self)
        ensures
            node_tally(r, rep_status, is_file, is_game, has_children),
    {
        let mut s = RepairStatus::new();
        let count_as_file = is_file || (is_game && !has_children);
        if is_game {
            s.total_games = 1;
            match rep_status {
                RepStatus::Correct | RepStatus::DirCorrect => s.games_correct = 1,
                RepStatus::CorrectMIA => {
                    s.games_correct = 1;
                    s.games_missing_mia = 1;
                },
                RepStatus::Missing
                | RepStatus::DirMissing
                | RepStatus::Corrupt
                | RepStatus::DirCorrupt
                | RepStatus::Incomplete => s.games_missing = 1,
                RepStatus::MissingMIA => {
                    s.games_missing = 1;
                    s.games_missing_mia = 1;
                },
                RepStatus::CanBeFixed
                | RepStatus::CanBeFixedMIA
                | RepStatus::CorruptCanBeFixed
                | RepStatus::InToSort
                | RepStatus::DirInToSort
                | RepStatus::MoveToSort
                | RepStatus::MoveToCorrupt
                | RepStatus::Delete
                | RepStatus::Deleted
                | RepStatus::NeededForFix
                | RepStatus::Rename
                | RepStatus::IncompleteRemove => s.games_fixes = 1,
                _ => {},
            }
        }
        if count_as_file {
            s.total_roms = 1;
            match rep_status {
                RepStatus::Correct | RepStatus::DirCorrect => s.roms_correct = 1,
                RepStatus::CorrectMIA => {
                    s.roms_correct = 1;
                    s.roms_correct_mia = 1;
                },
                RepStatus::Missing | RepStatus::DirMissing => s.roms_missing = 1,
                RepStatus::MissingMIA => {
                    s.roms_missing = 1;
                    s.roms_missing_mia = 1;
                },
                RepStatus::Corrupt | RepStatus::DirCorrupt | RepStatus::Incomplete => {
                    s.roms_corrupt = 1;
                    s.roms_missing = 1;
                },
                RepStatus::CanBeFixed
                | RepStatus::CanBeFixedMIA
                | RepStatus::CorruptCanBeFixed
                | RepStatus::MoveToSort
                | RepStatus::MoveToCorrupt
                | RepStatus::Delete
                | RepStatus::Deleted
                | RepStatus::NeededForFix
                | RepStatus::Rename
                | RepStatus::IncompleteRemove => s.roms_fixes = 1,
                RepStatus::InToSort | RepStatus::DirInToSort => s.roms_in_to_sort = 1,
                RepStatus::NotCollected => s.roms_not_collected = 1,
                RepStatus::UnNeeded => s.roms_unneeded = 1,
                RepStatus::Unknown | RepStatus::DirUnknown | RepStatus::UnScanned => {
                    s.roms_unknown = 1
                },
                _ => {},
            }
        }
        s
    }

    /// Most significant status of a branch, given the status counts of its
    /// nodes (indexed by [`rep_status_index`]): the first status of the display
    /// order that occurs; `UnScanned` when none occurs or the root is locked.
    pub fn dominant_from_counts(root_got_status: GotStatus, counts: &[u32]) -> (r: RepStatus)
        ensures
            r == (if root_got_status == GotStatus::FileLocked {
                RepStatus::UnScanned
            } else {
                first_counted_from(counts@, 0)
            }),
    {
        if root_got_status == GotStatus::FileLocked {
            return RepStatus::UnScanned;
        }
        let order: [RepStatus; 24] = [
            RepStatus::Error,
            RepStatus::UnSet,
            RepStatus::UnScanned,
            RepStatus::DirCorrupt,
            RepStatus::MoveToCorrupt,
            RepStatus::CorruptCanBeFixed,
            RepStatus::CanBeFixedMIA,
            RepStatus::CanBeFixed,
            RepStatus::MoveToSort,
            RepStatus::Delete,
            RepStatus::NeededForFix,
            RepStatus::Rename,
            RepStatus::Corrupt,
            RepStatus::Unknown,
            RepStatus::UnNeeded,
            RepStatus::Incomplete,
            RepStatus::Missing,
            RepStatus::MissingMIA,
            RepStatus::CorrectMIA,
            RepStatus::Correct,
            RepStatus::InToSort,
            RepStatus::NotCollected,
            RepStatus::Ignore,
            RepStatus::Deleted,
        ];
        assert(order@ =~= display_order());
        let mut i: usize = 0;
        while i < 24
            invariant
                i <= 24,
                order@ == display_order(),
                root_got_status != GotStatus::FileLocked,
                first_counted_from(counts@, 0) == first_counted_from(counts@, i as int),
            decreases 24 - i,
        {
            let status = order[i];
            assert(status == display_order()[i as int]);
            let idx = rep_status_index(status);
            assert(first_counted_from(counts@, i as int) == (if counted(counts@, status) {
                status
            } else {
                first_counted_from(counts@, i + 1)
            }));
            if idx < counts.len() && counts[idx] > 0 {
                return status;
            }
            i = i + 1;
        }
        RepStatus::UnScanned
    }

    /// Adds `other` to these counters, field by field.
    pub fn add(&mut self, other: &RepairStatus)
        requires
            sums_fit(*old(self), *other),
        ensures
            is_sum(*final(self), *old(self), *other),
    {
        self.total_games = self.total_games + other.total_games;
        self.total_roms = self.total_roms + other.total_roms;
        self.games_correct = self.games_correct + other.games_correct;
        self.games_missing = self.games_missing + other.games_missing;
        self.games_missing_mia = self.games_missing_mia + other.games_missing_mia;
        self.games_fixes = self.games_fixes + other.games_fixes;
        self.roms_correct = self.roms_correct + other.roms_correct;
        self.roms_correct_mia = self.roms_correct_mia + other.roms_correct_mia;
        self.roms_missing = self.roms_missing + other.roms_missing;
        self.roms_missing_mia = self.roms_missing_mia + other.roms_missing_mia;
        self.roms_corrupt = self.roms_corrupt + other.roms_corrupt;
        self.roms_fixes = self.roms_fixes + other.roms_fixes;
        self.roms_in_to_sort = self.roms_in_to_sort + other.roms_in_to_sort;
        self.roms_not_collected = self.roms_not_collected + other.roms_not_collected;
        self.roms_unneeded = self.roms_unneeded + other.roms_unneeded;
        self.roms_unknown = self.roms_unknown + other.roms_unknown;
    }
    /// Most significant status of the branch below `root` (or of `root`
    /// itself when it is not a directory): the first status of the display
    /// order that some node of it has; `UnScanned` when the root is locked.
    pub fn dominant_rep_status(root: &StatusNode) -> (r: RepStatus)
        requires
            forall|k: int| 0 <= k < 29 ==> #[trigger] branch_status_count(*root, k) <= u32::MAX,
        ensures
            r == (if root.got_status == GotStatus::FileLocked {
                RepStatus::UnScanned
            } else {
                first_counted_from(branch_counts(*root), 0)
            }),
    {
        if root.got_status == GotStatus::FileLocked {
            return RepStatus::UnScanned;
        }
        let mut counts: Vec<u32> = Vec::new();
        let mut k: usize = 0;
        while k < 29
            invariant
                k <= 29,
                counts@.len() == k,
                forall|j: int| 0 <= j < k ==> #[trigger] counts@[j] == 0,
            decreases 29 - k,
        {
            counts.push(0);
            k = k + 1;
        }
        if root.file_type == FileType::Dir || root.file_type == FileType::Zip || root.file_type == FileType::SevenZip {
            let mut i: usize = 0;
            while i < root.children.len()
                invariant
                    counts@.len() == 29,
                    i <= root.children@.len(),
                    is_dir_type(root.file_type),
                    forall|k: int| 0 <= k < 29 ==> #[trigger] counts@[k] == kids_status_count(
                        root.children@.subrange(0, i as int),
                        k,
                    ),
                    forall|k: int| 0 <= k < 29 ==> #[trigger] branch_status_count(*root, k) <= u32::MAX,
                decreases root.children@.len() - i,
            {
                let ghost pre = root.children@.subrange(0, i as int);
                let ghost pre2 = root.children@.subrange(0, i + 1);
                proof {
                    assert(pre2.subrange(0, pre2.len() - 1) =~= pre);
                    assert(pre2[pre2.len() - 1] == root.children@[i as int]);
                    assert forall|k: int| 0 <= k < 29 implies #[trigger] counts@[k] + status_count(root.children@[i as int], k) <= u32::MAX by {
                        lemma_kids_prefix_count_le(root.children@, i + 1, k);
                        assert(kids_status_count(pre2, k) == kids_status_count(pre, k) + status_count(
                            root.children@[i as int],
                            k,
                        ));
                        assert(branch_status_count(*root, k) == kids_status_count(root.children@, k));
                    }
                }
                add_counts(&root.children[i], &mut counts);
                i = i + 1;
            }
            proof {
                assert(root.children@.subrange(0, root.children@.len() as int) =~= root.children@);
            }
        } else {
            add_counts(root, &mut counts);
        }
        proof {
            assert forall|k: int| 0 <= k < 29 implies #[trigger] counts@[k] == branch_counts(*root)[k] by {
                lemma_kids_status_count_nonneg(root.children@, k);
                lemma_status_count_nonneg(*root, k);
            }
            assert(counts@ =~= branch_counts(*root));
        }
        Self::dominant_from_counts(root.got_status, &counts)
    }
    /// Adds the counters of `root`'s branch to these. A node with cached
    /// counters contributes them and only refreshes its report status; any
    /// other node's counters are its own plus, for a directory, those of its
    /// children's branches (each reported in turn); they are cached on the
    /// node, which, when it shows a report status, gets the one they give.
    pub fn report_status(&mut self, root: &mut StatusNode)
        requires
            report_fits(*old(root)),
            forall|i: int| 0 <= i < 16 ==> fits_i32(
                #[trigger] counts_add(counts_of(*old(self)), subtree_counts(*old(root)))[i],
            ),
        ensures
            reported(*old(root), *final(root)),
            counts_of(*final(self)) == counts_add(counts_of(*old(self)), subtree_counts(*old(root))),
        decreases *old(root),
    {
        let ghost o = *root;
        match root.cached_stats {
            Some(cached) => {
                if root.dir_status.is_some() {
                    proof {
                        lemma_report_fit_cached(o, cached);
                    }
                    root.dir_status = Some(cached.synthesized_report_status());
                }
                let ghost before = *self;
                proof {
                    assert(subtree_counts(o) == counts_of(cached));
                    lemma_sums_fit(*self, cached);
                }
                self.add(&cached);
                proof {
                    lemma_counts_sum(*self, before, cached);
                }
                return;
            },
            None => {},
        }
        let is_dir = root.file_type == FileType::Dir || root.file_type == FileType::Zip || root.file_type
            == FileType::SevenZip;
        let is_file = root.file_type == FileType::File || root.file_type == FileType::FileZip || root.file_type
            == FileType::FileSevenZip || root.file_type == FileType::FileOnly;
        let ghost n0 = o.children@;
        let mut node_stats = RepairStatus::new();
        proof {
            lemma_zero_counts(node_stats);
            lemma_subtree_nonneg(o);
            lemma_own_nonneg(o.rep_status, is_file, o.is_game, n0.len() > 0);
            lemma_own_nonneg(o.rep_status, is_file, o.is_game, false);
            assert(n0.subrange(0, 0) =~= Seq::<StatusNode>::empty());
        }
        if is_dir {
            proof {
                lemma_kids_nonneg(n0);
                assert(root.children@.subrange(0, 0) =~= Seq::<StatusNode>::empty());
            }
            let mut i: usize = 0;
            while i < root.children.len()
                invariant
                    o == *old(root),
                    root.file_type == o.file_type,
                    root.got_status == o.got_status,
                    root.rep_status == o.rep_status,
                    root.is_game == o.is_game,
                    root.dir_status == o.dir_status,
                    root.cached_stats == o.cached_stats,
                    o.cached_stats is None,
                    is_dir_type(o.file_type),
                    report_fits(o),
                    n0 == o.children@,
                    root.children@.len() == n0.len(),
                    i <= n0.len(),
                    forall|j: int| i <= j < n0.len() ==> #[trigger] root.children@[j] == n0[j],
                    kids_reported(n0.subrange(0, i as int), root.children@.subrange(0, i as int)),
                    counts_of(node_stats) == kids_counts(n0.subrange(0, i as int)),
                    counts_fit(subtree_counts(o)),
                    counts_nonneg(kids_counts(n0)),
                    subtree_counts(o) == counts_add(
                        kids_counts(n0),
                        own_counts(o.rep_status, is_file_type(o.file_type), o.is_game, n0.len() > 0),
                    ),
                    counts_nonneg(own_counts(o.rep_status, is_file_type(o.file_type), o.is_game, n0.len() > 0)),
                decreases n0.len() - i,
            {
                let ghost done = root.children@;
                let mut child = StatusNode {
                    file_type: FileType::UnSet,
                    got_status: GotStatus::NotGot,
                    rep_status: RepStatus::UnSet,
                    is_game: false,
                    search_found: false,
                    dir_status: None,
                    cached_stats: None,
                    children: Vec::new(),
                };
                root.children.set_and_swap(i, &mut child);
                let ghost c0 = child;
                proof {
                    assert(c0 == n0[i as int]);
                    lemma_kids_fit_index(n0, i as int);
                    lemma_kids_prefix_le(n0, i + 1);
                    lemma_kids_prefix_le(n0, i as int);
                    let p = n0.subrange(0, i + 1);
                    assert(p.subrange(0, p.len() - 1) =~= n0.subrange(0, i as int));
                    assert(p[p.len() - 1] == c0);
                    lemma_subtree_nonneg(c0);
                    assert(kids_counts(p) == counts_add(kids_counts(n0.subrange(0, i as int)), subtree_counts(c0)));
                    assert(decreases_to!(o => o.children));
                    assert(decreases_to!(o.children => o.children@));
                    assert(decreases_to!(o.children@ => o.children@[i as int]));
                    assert(decreases_to!(o => c0));
                }
                let mut child_status = RepairStatus::new();
                proof {
                    lemma_zero_counts(child_status);
                    assert forall|k: int| 0 <= k < 16 implies fits_i32(
                        #[trigger] counts_add(counts_of(child_status), subtree_counts(c0))[k],
                    ) by {
                        let p = n0.subrange(0, i + 1);
                        assert(kids_counts(p)[k] == kids_counts(n0.subrange(0, i as int))[k] + subtree_counts(c0)[k]);
                        assert(kids_counts(n0.subrange(0, i as int))[k] >= 0);
                        assert(kids_counts(p)[k] <= kids_counts(n0)[k]);
                        assert(subtree_counts(o)[k] == kids_counts(n0)[k] + own_counts(o.rep_status, is_file_type(o.file_type), o.is_game, n0.len() > 0)[k]);
                        assert(own_counts(o.rep_status, is_file_type(o.file_type), o.is_game, n0.len() > 0)[k] >= 0);
                        assert(subtree_counts(o)[k] <= i32::MAX);
                        assert(subtree_counts(c0)[k] >= 0);
                        assert(counts_of(child_status)[k] == 0);
                    }
                }
                proof {
                    assert(*old(root) == o);
                    assert(child == c0);
                    assert(decreases_to!(*old(root) => child));
                }
                child_status.report_status(&mut child);
                let ghost before = node_stats;
                proof {
                    assert(counts_of(child_status) =~= subtree_counts(c0));
                    assert forall|k: int| 0 <= k < 16 implies fits_i32(
                        #[trigger] counts_add(counts_of(node_stats), counts_of(child_status))[k],
                    ) by {
                        let p = n0.subrange(0, i + 1);
                        assert(kids_counts(p)[k] == kids_counts(n0.subrange(0, i as int))[k] + subtree_counts(c0)[k]);
                        assert(counts_add(counts_of(node_stats), counts_of(child_status))[k] == kids_counts(p)[k]);
                        assert(kids_counts(n0.subrange(0, i as int))[k] >= 0);
                        assert(kids_counts(p)[k] <= kids_counts(n0)[k]);
                        assert(subtree_counts(o)[k] == kids_counts(n0)[k] + own_counts(o.rep_status, is_file_type(o.file_type), o.is_game, n0.len() > 0)[k]);
                        assert(own_counts(o.rep_status, is_file_type(o.file_type), o.is_game, n0.len() > 0)[k] >= 0);
                        assert(subtree_counts(o)[k] <= i32::MAX);
                        assert(subtree_counts(c0)[k] >= 0);
                    }
                    lemma_sums_fit(node_stats, child_status);
                }
                node_stats.add(&child_status);
                proof {
                    lemma_counts_sum(node_stats, before, child_status);
                    assert(counts_of(node_stats) =~= kids_counts(n0.subrange(0, i + 1)));
                }
                let ghost c1 = child;
                root.children.set_and_swap(i, &mut child);
                proof {
                    let os = n0.subrange(0, i + 1);
                    let ns = root.children@.subrange(0, i + 1);
                    assert(os.subrange(0, os.len() - 1) =~= n0.subrange(0, i as int));
                    assert(ns.subrange(0, ns.len() - 1) =~= done.subrange(0, i as int));
                    assert(ns[ns.len() - 1] == c1);
                    assert(os[os.len() - 1] == c0);
                }
                i = i + 1;
            }
            proof {
                assert(n0.subrange(0, n0.len() as int) =~= n0);
                assert(root.children@.subrange(0, n0.len() as int) =~= root.children@);
            }
        }
        let own = RepairStatus::for_node(root.rep_status, is_file, root.is_game, is_dir && root.children.len() > 0);
        let ghost before = node_stats;
        proof {
            lemma_tally_counts(own, o.rep_status, is_file, o.is_game, is_dir && n0.len() > 0);
            if is_dir {
                assert(counts_add(counts_of(node_stats), counts_of(own)) =~= subtree_counts(o));
            } else {
                assert(counts_add(counts_of(node_stats), counts_of(own)) =~= subtree_counts(o));
            }
            lemma_sums_fit(node_stats, own);
        }
        node_stats.add(&own);
        proof {
            lemma_counts_sum(node_stats, before, own);
            assert(counts_of(node_stats) =~= subtree_counts(o));
        }
        root.cached_stats = Some(node_stats);
        if root.dir_status.is_some() {
            proof {
                lemma_report_fit(node_stats);
            }
            root.dir_status = Some(node_stats.synthesized_report_status());
        }
        let ghost acc = *self;
        proof {
            lemma_sums_fit(*self, node_stats);
        }
        self.add(&node_stats);
        proof {
            lemma_counts_sum(*self, acc, node_stats);
        }
    }
}

} // verus!
