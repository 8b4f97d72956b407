//! The walk of a directory scan: the database's children and the scanned
//! children, each sorted by name (byte order), are walked side by side; runs
//! of equal names on both sides form a group whose members are then paired,
//! a name only in the database marks a file not found, and a name only on
//! disk a new file.

use vstd::prelude::*;
use vstd::utf8::encode_utf8;
use crate::arr_byte::{lex_order, slices_equal};
use crate::file_scanning::FileScanning;
use crate::fix::texts_utf8;
use crate::text::str_bytes;

verus! {

/// One step of the walk, by positions in the two sorted lists.
#[derive(Debug, Clone, Copy, PartialEq, Eq, Structural)]
pub enum ScanStep {
    /// Database children `db_start..db_end` and scanned children
    /// `file_start..file_end` share one name.
    Group { db_start: usize, db_end: usize, file_start: usize, file_end: usize },
    /// The scanned child has no database child of its name.
    NewFile(usize),
    /// The database child has no scanned child of its name.
    Missing(usize),
}

/// The end of the run of names equal to `s[first]`, looking from `k` on.
pub open spec fn run_end(s: Seq<Seq<u8>>, first: int, k: int) -> int
    decreases s.len() - k,
{
    if k < 0 || k >= s.len() || s[k] != s[first] {
        k
    } else {
        run_end(s, first, k + 1)
    }
}

/// A run ends no earlier than where the search starts, and within the list.
pub proof fn lemma_run_end(s: Seq<Seq<u8>>, first: int, k: int)
    requires
        0 <= k <= s.len(),
    ensures
        k <= run_end(s, first, k) <= s.len(),
    decreases s.len() - k,
{
    if k < s.len() && s[k] == s[first] {
        lemma_run_end(s, first, k + 1);
    }
}

/// The steps of the walk from database position `i` and scanned position
/// `j`: while both lists have names left, equal names make a group (both
/// runs of that name), a smaller database name a missing file and a smaller
/// scanned name a new file; then the names left on either side.
pub open spec fn scan_plan_from(db: Seq<Seq<u8>>, fs: Seq<Seq<u8>>, i: int, j: int) -> Seq<ScanStep>
    decreases db.len() - i + fs.len() - j,
{
    if i < 0 || j < 0 || i > db.len() || j > fs.len() || (i == db.len() && j == fs.len()) {
        Seq::empty()
    } else if i < db.len() && j < fs.len() {
        let c = lex_order(db[i], fs[j]);
        if c == 0 {
            let di = run_end(db, i, i + 1);
            let fj = run_end(fs, j, j + 1);
            proof {
                lemma_run_end(db, i, i + 1);
                lemma_run_end(fs, j, j + 1);
            }
            seq![
                ScanStep::Group {
                    db_start: i as usize,
                    db_end: di as usize,
                    file_start: j as usize,
                    file_end: fj as usize,
                },
            ] + scan_plan_from(db, fs, di, fj)
        } else if c < 0 {
            seq![ScanStep::Missing(i as usize)] + scan_plan_from(db, fs, i + 1, j)
        } else {
            seq![ScanStep::NewFile(j as usize)] + scan_plan_from(db, fs, i, j + 1)
        }
    } else if j < fs.len() {
        seq![ScanStep::NewFile(j as usize)] + scan_plan_from(db, fs, i, j + 1)
    } else {
        seq![ScanStep::Missing(i as usize)] + scan_plan_from(db, fs, i + 1, j)
    }
}

fn name_sign(a: &String, b: &String) -> (r: i8)
    ensures
        r == (if lex_order(encode_utf8(a@), encode_utf8(b@)) < 0 {
            -1int
        } else if lex_order(encode_utf8(a@), encode_utf8(b@)) == 0 {
            0int
        } else {
            1int
        }),
{
    match FileScanning::compare_names_for_group(a.as_str(), b.as_str()) {
        std::cmp::Ordering::Less => -1,
        std::cmp::Ordering::Equal => 0,
        std::cmp::Ordering::Greater => 1,
    }
}

fn same_name(a: &String, b: &String) -> (r: bool)
    ensures
        r == (encode_utf8(a@) == encode_utf8(b@)),
{
    slices_equal(str_bytes(a.as_str()), str_bytes(b.as_str()))
}

fn run_end_exec(s: &[String], first: usize, k: usize) -> (r: usize)
    requires
        first < k <= s@.len(),
    ensures
        r == run_end(texts_utf8(s@), first as int, k as int),
        k <= r <= s@.len(),
{
    let ghost t = texts_utf8(s@);
    let mut m = k;
    while m < s.len() && same_name(&s[m], &s[first])
        invariant
            first < k <= m <= s@.len(),
            t == texts_utf8(s@),
            run_end(t, first as int, k as int) == run_end(t, first as int, m as int),
        decreases s@.len() - m,
    {
        m = m + 1;
    }
    m
}

impl FileScanning {
    /// The walk of a directory scan over the database's children and the
    /// scanned children, both sorted by name (see [`scan_plan_from`]).
    pub fn scan_plan(db_names: &[String], file_names: &[String]) -> (r: Vec<ScanStep>)
        ensures
            r@ == scan_plan_from(texts_utf8(db_names@), texts_utf8(file_names@), 0, 0),
    {
        let ghost db = texts_utf8(db_names@);
        let ghost fs = texts_utf8(file_names@);
        let mut out: Vec<ScanStep> = Vec::new();
        let mut i: usize = 0;
        let mut j: usize = 0;
        assert(out@ + scan_plan_from(db, fs, 0, 0) =~= scan_plan_from(db, fs, 0, 0));
        while i < db_names.len() || j < file_names.len()
            invariant
                db == texts_utf8(db_names@),
                fs == texts_utf8(file_names@),
                i <= db.len(),
                j <= fs.len(),
                out@ + scan_plan_from(db, fs, i as int, j as int) == scan_plan_from(db, fs, 0, 0),
            decreases db.len() - i + fs.len() - j,
        {
            let ghost before = out@;
            let step;
            if i < db_names.len() && j < file_names.len() {
                let c = name_sign(&db_names[i], &file_names[j]);
                if c == 0 {
                    let di = run_end_exec(db_names, i, i + 1);
                    let fj = run_end_exec(file_names, j, j + 1);
                    step = ScanStep::Group { db_start: i, db_end: di, file_start: j, file_end: fj };
                    out.push(step);
                    i = di;
                    j = fj;
                } else if c < 0 {
                    step = ScanStep::Missing(i);
                    out.push(step);
                    i = i + 1;
                } else {
                    step = ScanStep::NewFile(j);
                    out.push(step);
                    j = j + 1;
                }
            } else if j < file_names.len() {
                step = ScanStep::NewFile(j);
                out.push(step);
                j = j + 1;
            } else {
                step = ScanStep::Missing(i);
                out.push(step);
                i = i + 1;
            }
            assert(out@ + scan_plan_from(db, fs, i as int, j as int) =~= before + (seq![step] + scan_plan_from(
                db,
                fs,
                i as int,
                j as int,
            )));
        }
        assert(scan_plan_from(db, fs, i as int, j as int) =~= Seq::<ScanStep>::empty());
        assert(out@ =~= out@ + scan_plan_from(db, fs, i as int, j as int));
        out
    }
}

} // verus!
