//! Decision rules of the fix finder: which file present on disk may serve a
//! missing one, which of several candidates is preferred, when two scans of
//! the same content agree, and when a physical path is still backed by
//! another retained file.

use vstd::prelude::*;
use vstd::utf8::*;
use std::collections::HashSet;
use crate::arr_byte::slices_equal;
use crate::compare::{FileHashes, HashesView, ScannedFile, opt_seq};
use crate::enums::{DatStatus, GotStatus, RepStatus, TreeSelect};
use crate::text::str_bytes;

verus! {

broadcast use vstd::std_specs::hash::group_hash_axioms;

/// A node of the database as the fix finder reads it.
pub struct FixNode {
    pub name: String,
    pub dat_status: DatStatus,
    pub got_status: GotStatus,
    pub rep_status: RepStatus,
    pub tree_checked: TreeSelect,
    /// Header type with the "required" bit taken off; 0 is "no header".
    pub header_type: u8,
    /// A header of `header_type` must be present.
    pub header_required: bool,
    /// The header type was read from the file's own header.
    pub header_from_header: bool,
    pub sha1_from_dat: bool,
    pub alt_sha1_from_dat: bool,
    pub md5_from_dat: bool,
    pub alt_md5_from_dat: bool,
    pub deep_scanned: bool,
    pub hashes: FileHashes,
}

/// The fix finder's rules.
pub struct FindFixes;

/// The row is checked or locked in the tree view.
pub open spec fn tree_selected(t: TreeSelect) -> bool {
    t == TreeSelect::Selected || t == TreeSelect::Locked
}

/// A source that may be moved away: not locked, not itself wanted in place.
pub open spec fn consumable(n: FixNode) -> bool {
    n.tree_checked != TreeSelect::Locked && n.dat_status != DatStatus::InDatCollect
        && n.dat_status != DatStatus::InDatMIA
}

/// Where a source sits: wanted in place first, `NotInDat` last.
pub open spec fn location_priority(d: DatStatus) -> u8 {
    match d {
        DatStatus::InDatCollect => 0,
        DatStatus::InDatMIA => 1,
        DatStatus::InDatMerged | DatStatus::InDatNoDump => 2,
        DatStatus::InToSort => 3,
        DatStatus::NotInDat => 4,
    }
}

/// Sound files first, then corrupt ones, then the rest.
pub open spec fn corruption_priority(g: GotStatus) -> u8 {
    match g {
        GotStatus::Got => 0,
        GotStatus::Corrupt => 1,
        _ => 2,
    }
}

/// Priority of a source: location, corruption, consumability (smaller first).
pub open spec fn source_priority(n: FixNode) -> (u8, u8, u8) {
    (location_priority(n.dat_status), corruption_priority(n.got_status), if consumable(n) {
        0
    } else {
        1
    })
}

/// A cleanup status under which the file stays on disk.
pub open spec fn cleanup_retains(r: RepStatus) -> bool {
    !(r == RepStatus::Delete || r == RepStatus::UnNeeded || r == RepStatus::MoveToSort || r
        == RepStatus::MoveToCorrupt || r == RepStatus::Deleted)
}

/// A DAT status under which the file stays where it is.
pub open spec fn dat_retains(d: DatStatus) -> bool {
    !(d == DatStatus::NotInDat || d == DatStatus::InToSort)
}

/// The file is present and stays at its physical path.
pub open spec fn retains_shared(n: FixNode) -> bool {
    n.got_status == GotStatus::Got && dat_retains(n.dat_status) && cleanup_retains(n.rep_status)
}

/// Another file at the same physical identity stays on disk.
pub open spec fn other_retains_identity(i: int, files: Seq<FixNode>, identities: Seq<String>) -> bool {
    exists|j: int|
        #![trigger files[j]]
        0 <= j < files.len() && j < identities.len() && j != i && retains_shared(files[j])
            && identities[j]@ == identities[i]@
}

/// Number of retained entries among the first `n` whose key equals `key`.
pub open spec fn retained_count(keys: Seq<String>, retains: Seq<bool>, key: Seq<char>, n: int) -> nat
    decreases n,
{
    if n <= 0 {
        0
    } else {
        retained_count(keys, retains, key, n - 1) + if retains[n - 1] && keys[n - 1]@ == key {
            1nat
        } else {
            0nat
        }
    }
}


/// Count given by an index built with `build_retained_physical_identity_index`
/// (0 where the index has no entry).
pub open spec fn count_at(counts: Seq<u32>, i: int) -> int {
    if 0 <= i < counts.len() {
        counts[i] as int
    } else {
        0
    }
}

/// Another retained entry shares entry `i`'s key, read from a built index.
pub open spec fn other_retained_in_index(i: int, keys: Seq<String>, retains: Seq<bool>, counts: Seq<u32>) -> bool {
    0 <= i < keys.len() && if 0 <= i < retains.len() && retains[i] {
        count_at(counts, i) > 1
    } else {
        count_at(counts, i) > 0
    }
}

/// The set of indices seen after the first `n` entries of `list` were offered.
pub open spec fn seen_after(list: Seq<usize>, seen: Set<usize>, n: int) -> Set<usize>
    decreases n,
{
    if n <= 0 {
        seen
    } else {
        seen_after(list, seen, n - 1).insert(list[n - 1])
    }
}

/// The entries among the first `n` of `list` that were not seen before, in order.
pub open spec fn fresh_prefix(list: Seq<usize>, seen: Set<usize>, n: int) -> Seq<usize>
    decreases n,
{
    if n <= 0 {
        Seq::empty()
    } else if seen_after(list, seen, n - 1).contains(list[n - 1]) {
        fresh_prefix(list, seen, n - 1)
    } else {
        fresh_prefix(list, seen, n - 1).push(list[n - 1])
    }
}

/// The retained count is bounded by the number of entries looked at.
proof fn lemma_retained_count_bound(keys: Seq<String>, retains: Seq<bool>, key: Seq<char>, n: int)
    ensures
        retained_count(keys, retains, key, n) <= if n < 0 {
            0
        } else {
            n
        },
    decreases n,
{
    if n > 0 {
        lemma_retained_count_bound(keys, retains, key, n - 1);
    }
}

/// The count is positive exactly when some entry counts.
proof fn lemma_retained_count_pos(keys: Seq<String>, retains: Seq<bool>, key: Seq<char>, n: int)
    ensures
        retained_count(keys, retains, key, n) > 0 <==> exists|j: int|
            0 <= j < n && #[trigger] retains[j] && keys[j]@ == key,
    decreases n,
{
    if n > 0 {
        lemma_retained_count_pos(keys, retains, key, n - 1);
        if retains[n - 1] && keys[n - 1]@ == key {
            assert(retains[n - 1]);
        }
        if exists|j: int| 0 <= j < n && #[trigger] retains[j] && keys[j]@ == key {
            let j = choose|j: int| 0 <= j < n && #[trigger] retains[j] && keys[j]@ == key;
            if j < n - 1 {
                assert(0 <= j < n - 1 && retains[j] && keys[j]@ == key);
            }
        }
    }
}

/// With entry `i` itself counted, the count exceeds one exactly when another
/// entry counts too.
proof fn lemma_retained_count_two(keys: Seq<String>, retains: Seq<bool>, key: Seq<char>, n: int, i: int)
    requires
        0 <= i < n,
        retains[i],
        keys[i]@ == key,
    ensures
        retained_count(keys, retains, key, n) > 1 <==> exists|j: int|
            0 <= j < n && j != i && #[trigger] retains[j] && keys[j]@ == key,
    decreases n,
{
    if i == n - 1 {
        lemma_retained_count_pos(keys, retains, key, n - 1);
        if retained_count(keys, retains, key, n - 1) > 0 {
            let j = choose|j: int| 0 <= j < n - 1 && #[trigger] retains[j] && keys[j]@ == key;
            assert(0 <= j < n && j != i && retains[j] && keys[j]@ == key);
        }
        if exists|j: int| 0 <= j < n && j != i && #[trigger] retains[j] && keys[j]@ == key {
            let j = choose|j: int| 0 <= j < n && j != i && #[trigger] retains[j] && keys[j]@ == key;
            assert(0 <= j < n - 1 && retains[j] && keys[j]@ == key);
        }
    } else {
        lemma_retained_count_two(keys, retains, key, n - 1, i);
        lemma_retained_count_pos(keys, retains, key, n - 1);
        assert(0 <= i < n - 1 && retains[i] && keys[i]@ == key);
        if retains[n - 1] && keys[n - 1]@ == key {
            assert(0 <= n - 1 < n && n - 1 != i && retains[n - 1] && keys[n - 1]@ == key);
        }
        if exists|j: int| 0 <= j < n && j != i && #[trigger] retains[j] && keys[j]@ == key {
            let j = choose|j: int| 0 <= j < n && j != i && #[trigger] retains[j] && keys[j]@ == key;
            if j < n - 1 {
                assert(0 <= j < n - 1 && j != i && retains[j] && keys[j]@ == key);
            }
        }
    }
}

/// Reading another retained file at the same physical identity from an index
/// built over `files` and `identities` gives the same answer as looking
/// through all the files.
pub proof fn law_index_agrees_with_scan(
    i: int,
    files: Seq<FixNode>,
    identities: Seq<String>,
    keys: Seq<String>,
    retains: Seq<bool>,
    counts: Seq<u32>,
)
    requires
        0 <= i < files.len(),
        files.len() == identities.len(),
        keys.len() == files.len(),
        retains.len() == files.len(),
        counts.len() == files.len(),
        forall|k: int| 0 <= k < files.len() ==> #[trigger] keys[k]@ == identities[k]@,
        forall|k: int| 0 <= k < files.len() ==> #[trigger] retains[k] == retains_shared(files[k]),
        forall|k: int|
            0 <= k < files.len() ==> #[trigger] counts[k] == retained_count(
                keys,
                retains,
                keys[k]@,
                files.len() as int,
            ),
    ensures
        other_retained_in_index(i, keys, retains, counts) == other_retains_identity(i, files, identities),
{
    let n = files.len() as int;
    let key = keys[i]@;
    assert(counts[i] == retained_count(keys, retains, key, n));
    if retains[i] {
        lemma_retained_count_two(keys, retains, key, n, i);
        if other_retains_identity(i, files, identities) {
            let j = choose|j: int|
                #![trigger files[j]]
                0 <= j < files.len() && j < identities.len() && j != i && retains_shared(files[j])
                    && identities[j]@ == identities[i]@;
            assert(keys[j]@ == identities[j]@);
            assert(retains[j]);
        }
        if exists|j: int| 0 <= j < n && j != i && #[trigger] retains[j] && keys[j]@ == key {
            let j = choose|j: int| 0 <= j < n && j != i && #[trigger] retains[j] && keys[j]@ == key;
            assert(retains[j] == retains_shared(files[j]));
            assert(keys[j]@ == identities[j]@);
            assert(files[j] == files[j]);
        }
    } else {
        lemma_retained_count_pos(keys, retains, key, n);
        if other_retains_identity(i, files, identities) {
            let j = choose|j: int|
                #![trigger files[j]]
                0 <= j < files.len() && j < identities.len() && j != i && retains_shared(files[j])
                    && identities[j]@ == identities[i]@;
            assert(keys[j]@ == identities[j]@);
            assert(retains[j]);
        }
        if exists|j: int| 0 <= j < n && #[trigger] retains[j] && keys[j]@ == key {
            let j = choose|j: int| 0 <= j < n && #[trigger] retains[j] && keys[j]@ == key;
            assert(retains[j] == retains_shared(files[j]));
            assert(keys[j]@ == identities[j]@);
            assert(j != i);
            assert(files[j] == files[j]);
        }
    }
}


/// Both values are present and equal.
pub open spec fn both_eq(x: Option<Seq<u8>>, y: Option<Seq<u8>>) -> bool {
    x is Some && y is Some && x.unwrap() == y.unwrap()
}

/// The size, 0 when unknown.
pub open spec fn size_or_zero(h: HashesView) -> u64 {
    match h.size {
        Some(s) => s,
        None => 0,
    }
}

/// The alternative size, falling back to `size_or_zero`.
pub open spec fn alt_size_or(h: HashesView) -> u64 {
    match h.alt_size {
        Some(s) => s,
        None => size_or_zero(h),
    }
}

/// One kind of hash agrees between two files: some primary or alternative
/// value of one equals one of the other, with the corresponding sizes equal.
pub open spec fn kind_match(
    l: Option<Seq<u8>>,
    la: Option<Seq<u8>>,
    r: Option<Seq<u8>>,
    ra: Option<Seq<u8>>,
    ls: u64,
    las: u64,
    rs: u64,
    ras: u64,
) -> bool {
    (ls == rs && both_eq(l, r)) || (ls == ras && both_eq(l, ra)) || (las == rs && both_eq(la, r))
        || (las == ras && both_eq(la, ra))
}

pub open spec fn crc_match(l: HashesView, r: HashesView) -> bool {
    kind_match(l.crc, l.alt_crc, r.crc, r.alt_crc, size_or_zero(l), alt_size_or(l), size_or_zero(r), alt_size_or(r))
}

pub open spec fn sha1_match(l: HashesView, r: HashesView) -> bool {
    kind_match(l.sha1, l.alt_sha1, r.sha1, r.alt_sha1, size_or_zero(l), alt_size_or(l), size_or_zero(r), alt_size_or(r))
}

pub open spec fn md5_match(l: HashesView, r: HashesView) -> bool {
    kind_match(l.md5, l.alt_md5, r.md5, r.alt_md5, size_or_zero(l), alt_size_or(l), size_or_zero(r), alt_size_or(r))
}

pub open spec fn has_sha1(h: HashesView) -> bool {
    h.sha1 is Some || h.alt_sha1 is Some
}

pub open spec fn has_md5(h: HashesView) -> bool {
    h.md5 is Some || h.alt_md5 is Some
}

/// Two files hold the same content: some hash kind agrees.
pub open spec fn any_kind_match(l: HashesView, r: HashesView) -> bool {
    crc_match(l, r) || sha1_match(l, r) || md5_match(l, r)
}

/// Hash matching does not depend on which file is named first.
pub proof fn law_hash_match_symmetric(l: HashesView, r: HashesView)
    ensures
        any_kind_match(l, r) == any_kind_match(r, l),
{
}

/// MD5 of empty content.
pub open spec fn zero_md5() -> Seq<u8> {
    seq![0xD4u8, 0x1D, 0x8C, 0xD9, 0x8F, 0x00, 0xB2, 0x04, 0xE9, 0x80, 0x09, 0x98, 0xEC, 0xF8, 0x42, 0x7E]
}

/// SHA1 of empty content.
pub open spec fn zero_sha1() -> Seq<u8> {
    seq![
        0xDAu8, 0x39, 0xA3, 0xEE, 0x5E, 0x6B, 0x4B, 0x0D, 0x32, 0x55, 0xBF, 0xEF, 0x95, 0x60, 0x18,
        0x90, 0xAF, 0xD8, 0x07, 0x09,
    ]
}

/// CRC32 of empty content.
pub open spec fn zero_crc() -> Seq<u8> {
    seq![0u8, 0, 0, 0]
}

/// The name ends with `/` (a directory entry of an archive).
pub open spec fn ends_with_slash(b: Seq<u8>) -> bool {
    b.len() > 0 && b.last() == 0x2Fu8
}

/// Every known size or hash is that of empty content, and some is known or
/// the name ends with `/`.
pub open spec fn zero_length(n: FixNode) -> bool {
    let h = n.hashes@;
    &&& h.md5 is None || h.md5.unwrap() == zero_md5()
    &&& h.sha1 is None || h.sha1.unwrap() == zero_sha1()
    &&& h.crc is None || h.crc.unwrap() == zero_crc()
    &&& h.size is None || h.size.unwrap() == 0
    &&& h.md5 is Some || h.sha1 is Some || h.crc is Some || h.size is Some || ends_with_slash(
        encode_utf8(n.name@),
    )
}

/// Agreement of one hash kind over primary and alternative values: `None`
/// when one side has neither, else whether some pair is equal.
pub open spec fn pair_compatible(
    l1: Option<Seq<u8>>,
    l2: Option<Seq<u8>>,
    r1: Option<Seq<u8>>,
    r2: Option<Seq<u8>>,
) -> Option<bool> {
    if !((l1 is Some || l2 is Some) && (r1 is Some || r2 is Some)) {
        None
    } else {
        Some(both_eq(l1, r1) || both_eq(l1, r2) || both_eq(l2, r1) || both_eq(l2, r2))
    }
}

/// A present file and a wanted one are the same content.
pub open spec fn full_match(got: FixNode, matching: FixNode) -> bool {
    let g = got.hashes@;
    let m = matching.hashes@;
    if zero_length(got) && zero_length(matching) {
        true
    } else if got.deep_scanned && matching.deep_scanned {
        pair_compatible(g.sha1, g.alt_sha1, m.sha1, m.alt_sha1) != Some(false) && pair_compatible(
            g.md5,
            g.alt_md5,
            m.md5,
            m.alt_md5,
        ) != Some(false)
    } else {
        true
    }
}

/// A DAT-given value of a missing file contradicts a hashed present file: the
/// present file's primary value differs and its alternative is not the value.
pub open spec fn contradicts(flag: bool, wanted: Option<Seq<u8>>, got: Option<Seq<u8>>, got_alt: Option<Seq<u8>>) -> bool {
    flag && wanted is Some && got is Some && wanted != got && got_alt != wanted
}

/// The present file `got` may serve as the missing file `missing`.
pub open spec fn can_fix(missing: FixNode, got: FixNode) -> bool {
    let m = missing.hashes@;
    let g = got.hashes@;
    if m.size == Some(0u64) && m.crc is None && m.sha1 is None && m.md5 is None && m.alt_crc is None
        && m.alt_sha1 is None && m.alt_md5 is None {
        g.size == Some(0u64)
    } else if missing.header_type != 0 && got.header_type != 0 && missing.header_type
        != got.header_type {
        false
    } else if missing.header_required && (got.header_type == 0 || !got.header_from_header) {
        false
    } else if got.deep_scanned {
        !contradicts(missing.sha1_from_dat, m.sha1, g.sha1, g.alt_sha1) && !contradicts(
            missing.alt_sha1_from_dat,
            m.alt_sha1,
            g.sha1,
            g.alt_sha1,
        ) && !contradicts(missing.md5_from_dat, m.md5, g.md5, g.alt_md5) && !contradicts(
            missing.alt_md5_from_dat,
            m.alt_md5,
            g.md5,
            g.alt_md5,
        )
    } else {
        true
    }
}


/// Lexicographic order of candidate keys.
pub open spec fn key_less(a: (u8, u8, u8, u8), b: (u8, u8, u8, u8)) -> bool {
    a.0 < b.0 || (a.0 == b.0 && (a.1 < b.1 || (a.1 == b.1 && (a.2 < b.2 || (a.2 == b.2 && a.3
        < b.3)))))
}

/// Key of a candidate source: location, shared backing, corruption,
/// consumability (smaller first).
pub open spec fn candidate_key(files: Seq<FixNode>, identities: Seq<String>, idx: int) -> (u8, u8, u8, u8) {
    let p = source_priority(files[idx]);
    (p.0, if other_retains_identity(idx, files, identities) {
        1
    } else {
        0
    }, p.1, p.2)
}

/// The source chosen among the first `n` listed: the first one not used yet
/// with the smallest key.
pub open spec fn preferred_upto(
    list: Seq<usize>,
    files: Seq<FixNode>,
    identities: Seq<String>,
    used: Set<usize>,
    n: int,
) -> Option<usize>
    decreases n,
{
    if n <= 0 {
        None
    } else {
        let best = preferred_upto(list, files, identities, used, n - 1);
        let x = list[n - 1];
        if used.contains(x) {
            best
        } else {
            match best {
                None => Some(x),
                Some(y) => if key_less(
                    candidate_key(files, identities, x as int),
                    candidate_key(files, identities, y as int),
                ) {
                    Some(x)
                } else {
                    best
                },
            }
        }
    }
}

/// The source chosen among all listed.
pub open spec fn preferred(list: Seq<usize>, files: Seq<FixNode>, identities: Seq<String>, used: Set<usize>) -> Option<usize> {
    preferred_upto(list, files, identities, used, list.len() as int)
}


/// The three kinds of hash.
#[derive(Debug, Clone, Copy, PartialEq, Eq, Structural)]
pub enum HashKind {
    Crc,
    Sha1,
    Md5,
}

/// The primary hash of a kind.
pub open spec fn primary_hash(h: HashesView, k: HashKind) -> Option<Seq<u8>> {
    match k {
        HashKind::Crc => h.crc,
        HashKind::Sha1 => h.sha1,
        HashKind::Md5 => h.md5,
    }
}

/// The alternative hash of a kind.
pub open spec fn alt_hash(h: HashesView, k: HashKind) -> Option<Seq<u8>> {
    match k {
        HashKind::Crc => h.alt_crc,
        HashKind::Sha1 => h.alt_sha1,
        HashKind::Md5 => h.alt_md5,
    }
}

/// Positions among the first `n` files whose index entries of kind `k` have
/// the key `(s, v)`: a file is indexed under (size, primary hash) and under
/// (alternative size, alternative hash), and is listed once per matching
/// entry.
pub open spec fn lookup_upto(files: Seq<FixNode>, k: HashKind, s: u64, v: Seq<u8>, n: int) -> Seq<usize>
    decreases n,
{
    if n <= 0 {
        Seq::empty()
    } else {
        let h = files[n - 1].hashes@;
        let p = if size_or_zero(h) == s && primary_hash(h, k) == Some(v) {
            seq![(n - 1) as usize]
        } else {
            Seq::empty()
        };
        let a = if alt_size_or(h) == s && alt_hash(h, k) == Some(v) {
            seq![(n - 1) as usize]
        } else {
            Seq::empty()
        };
        lookup_upto(files, k, s, v, n - 1) + p + a
    }
}

/// All positions listed under the key `(s, v)` for kind `k`.
pub open spec fn lookup(files: Seq<FixNode>, k: HashKind, s: u64, v: Seq<u8>) -> Seq<usize> {
    lookup_upto(files, k, s, v, files.len() as int)
}

/// Candidates of kind `k` for a file with hashes `t`: listed under (size,
/// primary hash), then under (alternative size, primary hash) when the
/// sizes differ, then under (alternative size, alternative hash).
pub open spec fn kind_candidates(files: Seq<FixNode>, t: HashesView, k: HashKind) -> Seq<usize> {
    let s = size_or_zero(t);
    let a = alt_size_or(t);
    let l1 = match primary_hash(t, k) {
        Some(v) => lookup(files, k, s, v),
        None => Seq::empty(),
    };
    let l2 = match primary_hash(t, k) {
        Some(v) => if a != s {
            lookup(files, k, a, v)
        } else {
            Seq::empty()
        },
        None => Seq::empty(),
    };
    let l3 = match alt_hash(t, k) {
        Some(v) => lookup(files, k, a, v),
        None => Seq::empty(),
    };
    l1 + l2 + l3
}

/// Candidates of every kind.
pub open spec fn all_candidates(files: Seq<FixNode>, t: HashesView) -> Seq<usize> {
    kind_candidates(files, t, HashKind::Crc) + kind_candidates(files, t, HashKind::Sha1)
        + kind_candidates(files, t, HashKind::Md5)
}

/// The source chosen for a missing file: among its CRC candidates; failing
/// that its SHA1 candidates; failing that its MD5 candidates.
#[verifier::opaque]
pub open spec fn source_for(got: Seq<FixNode>, identities: Seq<String>, used: Set<usize>, m: FixNode) -> Option<usize> {
    let r1 = preferred(kind_candidates(got, m.hashes@, HashKind::Crc), got, identities, used);
    if r1 is Some {
        r1
    } else {
        let r2 = preferred(kind_candidates(got, m.hashes@, HashKind::Sha1), got, identities, used);
        if r2 is Some {
            r2
        } else {
            preferred(kind_candidates(got, m.hashes@, HashKind::Md5), got, identities, used)
        }
    }
}

/// `n` with its repair status replaced.
pub open spec fn with_rep(n: FixNode, r: RepStatus) -> FixNode {
    FixNode { rep_status: r, ..n }
}


/// Status of a missing file once a source was found for it.
pub open spec fn fixable_status(m: FixNode, g: FixNode) -> RepStatus {
    if g.got_status == GotStatus::Corrupt {
        RepStatus::CorruptCanBeFixed
    } else if m.dat_status == DatStatus::InDatMIA {
        RepStatus::CanBeFixedMIA
    } else {
        RepStatus::CanBeFixed
    }
}

/// Status of a missing file for which no source was found.
pub open spec fn unfixable_status(m: FixNode) -> RepStatus {
    if m.dat_status == DatStatus::InDatMIA {
        RepStatus::MissingMIA
    } else {
        RepStatus::Missing
    }
}

/// A source used for a fix becomes `NeededForFix`: a sound file whose status
/// does not already claim it.
pub open spec fn becomes_needed(g: FixNode) -> bool {
    g.got_status != GotStatus::Corrupt && (g.rep_status == RepStatus::UnScanned || g.rep_status
        == RepStatus::InToSort || g.rep_status == RepStatus::MoveToSort || g.rep_status
        == RepStatus::Unknown || g.rep_status == RepStatus::Deleted || g.rep_status
        == RepStatus::UnNeeded)
}

/// One missing file (position `i`) looked at: merged and no-dump entries are
/// `NotCollected`; otherwise a source is looked for, the missing file marked
/// fixable or missing, the source marked needed and, when it may be moved
/// away, used up.
pub open spec fn pair_one(
    got: Seq<FixNode>,
    missing: Seq<FixNode>,
    identities: Seq<String>,
    used: Set<usize>,
    i: int,
) -> (Seq<FixNode>, Seq<FixNode>, Set<usize>) {
    let m = missing[i];
    if m.dat_status == DatStatus::InDatMerged || m.dat_status == DatStatus::InDatNoDump {
        (got, missing.update(i, with_rep(m, RepStatus::NotCollected)), used)
    } else {
        match source_for(got, identities, used, m) {
            Some(g) => {
                let gn = got[g as int];
                let got2 = if becomes_needed(gn) {
                    got.update(g as int, with_rep(gn, RepStatus::NeededForFix))
                } else {
                    got
                };
                let used2 = if consumable(gn) {
                    used.insert(g)
                } else {
                    used
                };
                (got2, missing.update(i, with_rep(m, fixable_status(m, gn))), used2)
            },
            None => (got, missing.update(i, with_rep(m, unfixable_status(m))), used),
        }
    }
}

/// The first `n` missing files looked at, in order.
pub open spec fn pair_upto(
    got: Seq<FixNode>,
    missing: Seq<FixNode>,
    identities: Seq<String>,
    n: int,
) -> (Seq<FixNode>, Seq<FixNode>, Set<usize>)
    decreases n,
{
    if n <= 0 {
        (got, missing, Set::empty())
    } else {
        let st = pair_upto(got, missing, identities, n - 1);
        pair_one(st.0, st.1, identities, st.2, n - 1)
    }
}

/// Two lists of files with the same hashes, position by position.
pub open spec fn same_hashes(a: Seq<FixNode>, b: Seq<FixNode>) -> bool {
    a.len() == b.len() && forall|k: int| 0 <= k < a.len() ==> #[trigger] a[k].hashes@ == b[k].hashes@
}

/// Some present file is listed under one of the missing file's hashes.
pub open spec fn has_candidates(got: Seq<FixNode>, m: FixNode) -> bool {
    kind_candidates(got, m.hashes@, HashKind::Crc).len() > 0 || kind_candidates(
        got,
        m.hashes@,
        HashKind::Sha1,
    ).len() > 0 || kind_candidates(got, m.hashes@, HashKind::Md5).len() > 0
}

/// A status that marks a missing file as fixable.
pub open spec fn fixable(r: RepStatus) -> bool {
    r == RepStatus::CanBeFixed || r == RepStatus::CanBeFixedMIA || r == RepStatus::CorruptCanBeFixed
}

/// What pairing may make of a missing file `m`: merged and no-dump entries
/// become `NotCollected`; others become fixable (`CanBeFixedMIA` for a MIA
/// entry unless the source is corrupt) or missing.
pub open spec fn pairing_outcome(m: FixNode, f: FixNode) -> bool {
    &&& f == with_rep(m, f.rep_status)
    &&& if merged_or_no_dump(m.dat_status) {
        f.rep_status == RepStatus::NotCollected
    } else {
        f.rep_status == unfixable_status(m) || f.rep_status == RepStatus::CorruptCanBeFixed
            || f.rep_status == (if m.dat_status == DatStatus::InDatMIA {
            RepStatus::CanBeFixedMIA
        } else {
            RepStatus::CanBeFixed
        })
    }
}

proof fn lemma_lookup_same_hashes(a: Seq<FixNode>, b: Seq<FixNode>, k: HashKind, s: u64, v: Seq<u8>, n: int)
    requires
        same_hashes(a, b),
        n <= a.len(),
    ensures
        lookup_upto(a, k, s, v, n) == lookup_upto(b, k, s, v, n),
    decreases n,
{
    if n > 0 {
        lemma_lookup_same_hashes(a, b, k, s, v, n - 1);
        assert(a[n - 1].hashes@ == b[n - 1].hashes@);
    }
}

proof fn lemma_candidates_same_hashes(a: Seq<FixNode>, b: Seq<FixNode>, t: HashesView)
    requires
        same_hashes(a, b),
    ensures
        kind_candidates(a, t, HashKind::Crc) == kind_candidates(b, t, HashKind::Crc),
        kind_candidates(a, t, HashKind::Sha1) == kind_candidates(b, t, HashKind::Sha1),
        kind_candidates(a, t, HashKind::Md5) == kind_candidates(b, t, HashKind::Md5),
{
    let s = size_or_zero(t);
    let al = alt_size_or(t);
    let kinds = seq![HashKind::Crc, HashKind::Sha1, HashKind::Md5];
    assert forall|i: int| 0 <= i < 3 implies kind_candidates(a, t, #[trigger] kinds[i])
        == kind_candidates(b, t, kinds[i]) by {
        let k = kinds[i];
        if primary_hash(t, k) is Some {
            lemma_lookup_same_hashes(a, b, k, s, primary_hash(t, k).unwrap(), a.len() as int);
            lemma_lookup_same_hashes(a, b, k, al, primary_hash(t, k).unwrap(), a.len() as int);
        }
        if alt_hash(t, k) is Some {
            lemma_lookup_same_hashes(a, b, k, al, alt_hash(t, k).unwrap(), a.len() as int);
        }
    }
    assert(kinds[0] == HashKind::Crc);
    assert(kinds[1] == HashKind::Sha1);
    assert(kinds[2] == HashKind::Md5);
}

/// A source found for a missing file is listed under one of its hashes.
proof fn lemma_source_has_candidates(got: Seq<FixNode>, identities: Seq<String>, used: Set<usize>, m: FixNode)
    ensures
        source_for(got, identities, used, m) is Some ==> has_candidates(got, m),
{
    reveal(source_for);
    lemma_preferred_in_list(kind_candidates(got, m.hashes@, HashKind::Crc), got, identities, used);
    lemma_preferred_in_list(kind_candidates(got, m.hashes@, HashKind::Sha1), got, identities, used);
    lemma_preferred_in_list(kind_candidates(got, m.hashes@, HashKind::Md5), got, identities, used);
}

proof fn lemma_pair_upto_facts(got: Seq<FixNode>, missing: Seq<FixNode>, identities: Seq<String>, n: int)
    requires
        0 <= n <= missing.len(),
    ensures
        same_hashes(pair_upto(got, missing, identities, n).0, got),
        pair_upto(got, missing, identities, n).1.len() == missing.len(),
        forall|i: int|
            n <= i < missing.len() ==> #[trigger] pair_upto(got, missing, identities, n).1[i] == missing[i],
        forall|i: int|
            0 <= i < n ==> pairing_outcome(missing[i], #[trigger] pair_upto(got, missing, identities, n).1[i]),
        forall|i: int|
            0 <= i < n && fixable(#[trigger] pair_upto(got, missing, identities, n).1[i].rep_status)
                ==> has_candidates(got, missing[i]),
    decreases n,
{
    if n > 0 {
        lemma_pair_upto_facts(got, missing, identities, n - 1);
        let st = pair_upto(got, missing, identities, n - 1);
        let m = st.1[n - 1];
        assert(m == missing[n - 1]);
        lemma_source_bound(st.0, identities, st.2, m);
        lemma_source_has_candidates(st.0, identities, st.2, m);
        lemma_candidates_same_hashes(st.0, got, m.hashes@);
        let after = pair_upto(got, missing, identities, n);
        assert(after == pair_one(st.0, st.1, identities, st.2, n - 1));
        assert(same_hashes(after.0, got)) by {
            assert forall|k: int| 0 <= k < after.0.len() implies #[trigger] after.0[k].hashes@ == got[k].hashes@ by {
                assert(st.0[k].hashes@ == got[k].hashes@);
            }
        }
        assert forall|i: int| 0 <= i < n implies pairing_outcome(missing[i], #[trigger] after.1[i]) by {
            if i < n - 1 {
                assert(after.1[i] == st.1[i]);
            }
        }
        assert forall|i: int| 0 <= i < n && fixable(#[trigger] after.1[i].rep_status) implies has_candidates(
            got,
            missing[i],
        ) by {
            if i < n - 1 {
                assert(after.1[i] == st.1[i]);
            }
        }
    }
}

/// What pairing does to the missing files: each keeps everything but its
/// repair status; merged and no-dump entries become `NotCollected`, others
/// fixable or missing; and a file is marked fixable only when some present
/// file is listed under one of its hashes.
pub proof fn law_pairing_outcome(got: Seq<FixNode>, missing: Seq<FixNode>, identities: Seq<String>, i: int)
    requires
        0 <= i < missing.len(),
    ensures
        pairing_outcome(missing[i], pair_upto(got, missing, identities, missing.len() as int).1[i]),
        fixable(pair_upto(got, missing, identities, missing.len() as int).1[i].rep_status)
            ==> has_candidates(got, missing[i]),
{
    lemma_pair_upto_facts(got, missing, identities, missing.len() as int);
}

/// A missing file that is not merged and under whose hashes no present file
/// is listed stays missing.
pub proof fn law_no_candidates_stays_missing(got: Seq<FixNode>, missing: Seq<FixNode>, identities: Seq<String>, i: int)
    requires
        0 <= i < missing.len(),
        !merged_or_no_dump(missing[i].dat_status),
        !has_candidates(got, missing[i]),
    ensures
        pair_upto(got, missing, identities, missing.len() as int).1[i].rep_status == unfixable_status(
            missing[i],
        ),
{
    lemma_pair_upto_facts(got, missing, identities, missing.len() as int);
}

/// Pairing keeps the number of files.
proof fn lemma_pair_upto_len(got: Seq<FixNode>, missing: Seq<FixNode>, identities: Seq<String>, n: int)
    requires
        n <= missing.len(),
    ensures
        pair_upto(got, missing, identities, n).0.len() == got.len(),
        pair_upto(got, missing, identities, n).1.len() == missing.len(),
    decreases n,
{
    if n > 0 {
        lemma_pair_upto_len(got, missing, identities, n - 1);
        let st = pair_upto(got, missing, identities, n - 1);
        reveal(source_for);
        lemma_source_bound(st.0, identities, st.2, st.1[n - 1]);
    }
}

/// A chosen source is a position of the present files.
proof fn lemma_source_bound(got: Seq<FixNode>, identities: Seq<String>, used: Set<usize>, m: FixNode)
    ensures
        source_for(got, identities, used, m) matches Some(g) ==> g < got.len(),
{
    reveal(source_for);
    lemma_candidates_bound(got, m.hashes@, HashKind::Crc);
    lemma_candidates_bound(got, m.hashes@, HashKind::Sha1);
    lemma_candidates_bound(got, m.hashes@, HashKind::Md5);
    lemma_preferred_in_list(kind_candidates(got, m.hashes@, HashKind::Crc), got, identities, used);
    lemma_preferred_in_list(kind_candidates(got, m.hashes@, HashKind::Sha1), got, identities, used);
    lemma_preferred_in_list(kind_candidates(got, m.hashes@, HashKind::Md5), got, identities, used);
}

/// Settling corrupt files keeps the number of files.
proof fn lemma_corrupt_upto_len(got: Seq<FixNode>, identities: Seq<String>, n: int)
    requires
        n <= got.len(),
    ensures
        corrupt_upto(got, identities, n).len() == got.len(),
    decreases n,
{
    if n > 0 {
        lemma_corrupt_upto_len(got, identities, n - 1);
    }
}

/// The chosen source is one of the listed ones.
proof fn lemma_preferred_in_list(list: Seq<usize>, files: Seq<FixNode>, identities: Seq<String>, used: Set<usize>)
    ensures
        preferred(list, files, identities, used) matches Some(x) ==> list.contains(x),
{
    lemma_preferred_upto_in_list(list, files, identities, used, list.len() as int);
}

proof fn lemma_preferred_upto_in_list(
    list: Seq<usize>,
    files: Seq<FixNode>,
    identities: Seq<String>,
    used: Set<usize>,
    n: int,
)
    requires
        n <= list.len(),
    ensures
        preferred_upto(list, files, identities, used, n) matches Some(x) ==> list.contains(x),
    decreases n,
{
    if n > 0 {
        lemma_preferred_upto_in_list(list, files, identities, used, n - 1);
        assert(list[n - 1] == list[n - 1]);
    }
}

/// Listed positions are positions of the files.
proof fn lemma_lookup_bound(files: Seq<FixNode>, k: HashKind, s: u64, v: Seq<u8>, n: int)
    requires
        n <= files.len(),
    ensures
        forall|j: int|
            0 <= j < lookup_upto(files, k, s, v, n).len() ==> #[trigger] lookup_upto(files, k, s, v, n)[j]
                < files.len(),
    decreases n,
{
    if n > 0 {
        lemma_lookup_bound(files, k, s, v, n - 1);
        let prev = lookup_upto(files, k, s, v, n - 1);
        let h = files[n - 1].hashes@;
        let p = if size_or_zero(h) == s && primary_hash(h, k) == Some(v) {
            seq![(n - 1) as usize]
        } else {
            Seq::empty()
        };
        let a = if alt_size_or(h) == s && alt_hash(h, k) == Some(v) {
            seq![(n - 1) as usize]
        } else {
            Seq::empty()
        };
        let all = lookup_upto(files, k, s, v, n);
        assert(all == prev + p + a);
        assert forall|j: int| 0 <= j < all.len() implies #[trigger] all[j] < files.len() by {
            if j < prev.len() {
                assert(all[j] == prev[j]);
            } else if j < prev.len() + p.len() {
                assert(all[j] == p[j - prev.len()]);
            } else {
                assert(all[j] == a[j - prev.len() - p.len()]);
            }
        }
    }
}

proof fn lemma_candidates_bound(files: Seq<FixNode>, t: HashesView, k: HashKind)
    ensures
        forall|j: int|
            0 <= j < kind_candidates(files, t, k).len() ==> #[trigger] kind_candidates(files, t, k)[j]
                < files.len(),
{
    let s = size_or_zero(t);
    let a = alt_size_or(t);
    if primary_hash(t, k) is Some {
        lemma_lookup_bound(files, k, s, primary_hash(t, k).unwrap(), files.len() as int);
        lemma_lookup_bound(files, k, a, primary_hash(t, k).unwrap(), files.len() as int);
    }
    if alt_hash(t, k) is Some {
        lemma_lookup_bound(files, k, a, alt_hash(t, k).unwrap(), files.len() as int);
    }
    let c = kind_candidates(files, t, k);
    assert forall|j: int| 0 <= j < c.len() implies #[trigger] c[j] < files.len() by {
        let l1 = match primary_hash(t, k) {
            Some(v) => lookup(files, k, s, v),
            None => Seq::empty(),
        };
        let l2 = match primary_hash(t, k) {
            Some(v) => if a != s {
                lookup(files, k, a, v)
            } else {
                Seq::empty()
            },
            None => Seq::empty(),
        };
        let l3 = match alt_hash(t, k) {
            Some(v) => lookup(files, k, a, v),
            None => Seq::empty(),
        };
        assert(c == l1 + l2 + l3);
        if j < l1.len() {
            assert(c[j] == l1[j]);
        } else if j < l1.len() + l2.len() {
            assert(c[j] == l2[j - l1.len()]);
        } else {
            assert(c[j] == l3[j - l1.len() - l2.len()]);
        }
    }
}


/// A merged or no-dump entry.
pub open spec fn merged_or_no_dump(d: DatStatus) -> bool {
    d == DatStatus::InDatMerged || d == DatStatus::InDatNoDump
}

/// Cleanup status of a merged file: `NotCollected` while another retained
/// file shares its physical path, else `UnNeeded`.
pub open spec fn merged_status(idx: int, got: Seq<FixNode>, identities: Seq<String>) -> RepStatus {
    if other_retains_identity(idx, got, identities) {
        RepStatus::NotCollected
    } else {
        RepStatus::UnNeeded
    }
}

/// A corrupt file not needed for a fix: moved to the corrupt directory when
/// it is wanted in place, cleaned up as a merged file, else deleted.
pub open spec fn corrupt_one(got: Seq<FixNode>, identities: Seq<String>, idx: int) -> Seq<FixNode> {
    let n = got[idx];
    if n.got_status != GotStatus::Corrupt || n.rep_status == RepStatus::NeededForFix {
        got
    } else if n.dat_status == DatStatus::InDatCollect {
        got.update(idx, with_rep(n, RepStatus::MoveToCorrupt))
    } else if merged_or_no_dump(n.dat_status) {
        got.update(idx, with_rep(n, merged_status(idx, got, identities)))
    } else {
        got.update(idx, with_rep(n, RepStatus::Delete))
    }
}

/// The first `n` present files looked at for corruption, in order.
pub open spec fn corrupt_upto(got: Seq<FixNode>, identities: Seq<String>, n: int) -> Seq<FixNode>
    decreases n,
{
    if n <= 0 {
        got
    } else {
        corrupt_one(corrupt_upto(got, identities, n - 1), identities, n - 1)
    }
}

/// A DAT status of a file the DATs want somewhere.
pub open spec fn in_some_dat(d: DatStatus) -> bool {
    d == DatStatus::InDatCollect || d == DatStatus::InDatMIA || d == DatStatus::InDatMerged || d
        == DatStatus::InDatNoDump
}

/// Another present file (not the one at `current`) listed under the hashes
/// `h` is wanted by some DAT.
pub open spec fn romroot_redundant(current: Option<usize>, h: HashesView, all_got: Seq<FixNode>) -> bool {
    exists|j: int|
        #![trigger all_got[j]]
        all_candidates(all_got, h).contains(j as usize) && 0 <= j < all_got.len() && current != Some(
            j as usize,
        ) && all_got[j].got_status == GotStatus::Got && in_some_dat(all_got[j].dat_status)
}

/// A wanted file listed under the hashes `h` is about to be fixed.
pub open spec fn pending_fix_target(h: HashesView, missing: Seq<FixNode>) -> bool {
    exists|j: int|
        #![trigger missing[j]]
        all_candidates(missing, h).contains(j as usize) && 0 <= j < missing.len() && (
        missing[j].rep_status == RepStatus::CanBeFixed || missing[j].rep_status
            == RepStatus::CanBeFixedMIA) && (missing[j].dat_status == DatStatus::InDatCollect
            || missing[j].dat_status == DatStatus::InDatMIA)
}

/// The status a present file, not needed for a fix, settles on.
pub open spec fn settled_status(
    got: Seq<FixNode>,
    identities: Seq<String>,
    idx: int,
    delete_from_tosort: bool,
) -> RepStatus {
    let n = got[idx];
    if n.dat_status == DatStatus::InDatCollect {
        RepStatus::Correct
    } else if merged_or_no_dump(n.dat_status) {
        merged_status(idx, got, identities)
    } else if n.dat_status == DatStatus::InDatMIA {
        RepStatus::CorrectMIA
    } else if n.dat_status == DatStatus::InToSort {
        if delete_from_tosort {
            RepStatus::Delete
        } else {
            RepStatus::InToSort
        }
    } else {
        RepStatus::MoveToSort
    }
}

/// A present file's status already decided by the pairing or the corruption
/// pass.
pub open spec fn already_settled(r: RepStatus) -> bool {
    r == RepStatus::NeededForFix || r == RepStatus::Correct || r == RepStatus::Delete || r
        == RepStatus::MoveToCorrupt
}

/// A file waiting in ToSort is redundant: another present copy is wanted by a
/// DAT, a physical copy for a DAT matches it, or a wanted file is about to
/// be fixed from it.
pub open spec fn tosort_redundant(
    n: FixNode,
    current: Option<usize>,
    all_got: Seq<FixNode>,
    physical_match: bool,
    missing: Seq<FixNode>,
) -> bool {
    romroot_redundant(current, n.hashes@, all_got) || physical_match || pending_fix_target(
        n.hashes@,
        missing,
    )
}

/// One present file settled.
pub open spec fn settle_one(
    got: Seq<FixNode>,
    identities: Seq<String>,
    idx: int,
    all_got: Seq<FixNode>,
    current: Option<usize>,
    physical_match: bool,
    missing: Seq<FixNode>,
) -> Seq<FixNode> {
    let n = got[idx];
    if already_settled(n.rep_status) {
        got
    } else {
        got.update(
            idx,
            with_rep(
                n,
                settled_status(
                    got,
                    identities,
                    idx,
                    n.dat_status == DatStatus::InToSort && tosort_redundant(
                        n,
                        current,
                        all_got,
                        physical_match,
                        missing,
                    ),
                ),
            ),
        )
    }
}

/// The first `n` present files settled, in order.
pub open spec fn settle_upto(
    got: Seq<FixNode>,
    identities: Seq<String>,
    all_got: Seq<FixNode>,
    got_all_index: Seq<Option<usize>>,
    physical: Seq<bool>,
    missing: Seq<FixNode>,
    n: int,
) -> Seq<FixNode>
    decreases n,
{
    if n <= 0 {
        got
    } else {
        settle_one(
            settle_upto(got, identities, all_got, got_all_index, physical, missing, n - 1),
            identities,
            n - 1,
            all_got,
            got_all_index[n - 1],
            physical[n - 1],
            missing,
        )
    }
}

/// How the corruption pass leaves a present file `g` as `r`: only its
/// repair status changes; a file that is not corrupt, or is needed for a
/// fix, stays as it is; a corrupt file a DAT wants collected moves to
/// ToSort/Corrupt, a corrupt merged or no-dump file is `NotCollected` or
/// `UnNeeded`, and any other corrupt file is deleted.
pub open spec fn corrupt_settled_as(g: FixNode, r: FixNode) -> bool {
    &&& r == with_rep(g, r.rep_status)
    &&& (g.got_status != GotStatus::Corrupt || g.rep_status == RepStatus::NeededForFix) ==> r == g
    &&& (g.got_status == GotStatus::Corrupt && g.rep_status != RepStatus::NeededForFix) ==> {
        &&& g.dat_status == DatStatus::InDatCollect ==> r.rep_status == RepStatus::MoveToCorrupt
        &&& merged_or_no_dump(g.dat_status) ==> (r.rep_status == RepStatus::NotCollected || r.rep_status
            == RepStatus::UnNeeded)
        &&& !(g.dat_status == DatStatus::InDatCollect || merged_or_no_dump(g.dat_status)) ==> r.rep_status
            == RepStatus::Delete
    }
}

/// The corruption pass over the first `n` present files treats each of them
/// as [`corrupt_settled_as`] says and leaves the others as they were.
pub proof fn law_corrupt_pass(got: Seq<FixNode>, identities: Seq<String>, n: int)
    requires
        0 <= n <= got.len(),
    ensures
        corrupt_upto(got, identities, n).len() == got.len(),
        forall|i: int| 0 <= i < n ==> corrupt_settled_as(got[i], #[trigger] corrupt_upto(got, identities, n)[i]),
        forall|i: int| n <= i < got.len() ==> #[trigger] corrupt_upto(got, identities, n)[i] == got[i],
    decreases n,
{
    if n > 0 {
        law_corrupt_pass(got, identities, n - 1);
        let prev = corrupt_upto(got, identities, n - 1);
        let r = corrupt_upto(got, identities, n);
        assert(prev[n - 1] == got[n - 1]);
        assert(r == corrupt_one(prev, identities, n - 1));
        assert forall|i: int| 0 <= i < got.len() && i != n - 1 implies r[i] == prev[i] by {}
        assert(corrupt_settled_as(got[n - 1], r[n - 1]));
        assert forall|i: int| 0 <= i < n implies corrupt_settled_as(got[i], #[trigger] r[i]) by {
            if i < n - 1 {
                assert(r[i] == prev[i]);
            }
        }
    }
}

/// How settling leaves a present file `g` as `r`: only its repair status
/// changes; a status already decided stays; otherwise a file a DAT wants in
/// place is `Correct` (collected) or `CorrectMIA` (MIA), a merged or no-dump
/// file is `NotCollected` or `UnNeeded`, a file in ToSort stays there or is
/// deleted, and any other file moves to ToSort.
pub open spec fn settled_as(g: FixNode, r: FixNode) -> bool {
    &&& r == with_rep(g, r.rep_status)
    &&& already_settled(g.rep_status) ==> r.rep_status == g.rep_status
    &&& !already_settled(g.rep_status) ==> {
        &&& g.dat_status == DatStatus::InDatCollect ==> r.rep_status == RepStatus::Correct
        &&& g.dat_status == DatStatus::InDatMIA ==> r.rep_status == RepStatus::CorrectMIA
        &&& merged_or_no_dump(g.dat_status) ==> (r.rep_status == RepStatus::NotCollected || r.rep_status
            == RepStatus::UnNeeded)
        &&& g.dat_status == DatStatus::InToSort ==> (r.rep_status == RepStatus::InToSort || r.rep_status
            == RepStatus::Delete)
        &&& g.dat_status == DatStatus::NotInDat ==> r.rep_status == RepStatus::MoveToSort
    }
}

/// Settling the first `n` present files settles each of them as
/// [`settled_as`] says and leaves the others as they were. In particular a
/// file that a DAT wants in place (collected or MIA) never moves to ToSort:
/// a found MIA file not otherwise decided stays as `CorrectMIA`.
pub proof fn law_settling_keeps_wanted_files(
    got: Seq<FixNode>,
    identities: Seq<String>,
    all_got: Seq<FixNode>,
    got_all_index: Seq<Option<usize>>,
    physical: Seq<bool>,
    missing: Seq<FixNode>,
    n: int,
)
    requires
        0 <= n <= got.len(),
    ensures
        settle_upto(got, identities, all_got, got_all_index, physical, missing, n).len() == got.len(),
        forall|i: int|
            0 <= i < n ==> settled_as(
                got[i],
                #[trigger] settle_upto(got, identities, all_got, got_all_index, physical, missing, n)[i],
            ),
        forall|i: int|
            n <= i < got.len() ==> #[trigger] settle_upto(got, identities, all_got, got_all_index, physical, missing, n)[i]
                == got[i],
        forall|i: int|
            0 <= i < n && (got[i].dat_status == DatStatus::InDatCollect || got[i].dat_status
                == DatStatus::InDatMIA) ==> #[trigger] settle_upto(got, identities, all_got, got_all_index, physical, missing, n)[i].rep_status
                != RepStatus::MoveToSort,
    decreases n,
{
    if n > 0 {
        law_settling_keeps_wanted_files(got, identities, all_got, got_all_index, physical, missing, n - 1);
        let prev = settle_upto(got, identities, all_got, got_all_index, physical, missing, n - 1);
        let r = settle_upto(got, identities, all_got, got_all_index, physical, missing, n);
        assert(prev[n - 1] == got[n - 1]);
        assert(r == settle_one(prev, identities, n - 1, all_got, got_all_index[n - 1], physical[n - 1], missing));
        assert forall|i: int| 0 <= i < got.len() && i != n - 1 implies r[i] == prev[i] by {}
        assert(settled_as(got[n - 1], r[n - 1]));
        assert forall|i: int| 0 <= i < n implies settled_as(got[i], #[trigger] r[i]) by {
            if i < n - 1 {
                assert(r[i] == prev[i]);
            }
        }
    }
}

fn key_less_exec(a: (u8, u8, u8, u8), b: (u8, u8, u8, u8)) -> (r: bool)
    ensures
        r == key_less(a, b),
{
    a.0 < b.0 || (a.0 == b.0 && (a.1 < b.1 || (a.1 == b.1 && (a.2 < b.2 || (a.2 == b.2 && a.3
        < b.3)))))
}


fn primary_ref(h: &FileHashes, k: HashKind) -> (r: &Option<Vec<u8>>)
    ensures
        opt_seq(*r) == primary_hash(h@, k),
{
    match k {
        HashKind::Crc => &h.crc,
        HashKind::Sha1 => &h.sha1,
        HashKind::Md5 => &h.md5,
    }
}

fn alt_ref(h: &FileHashes, k: HashKind) -> (r: &Option<Vec<u8>>)
    ensures
        opt_seq(*r) == alt_hash(h@, k),
{
    match k {
        HashKind::Crc => &h.alt_crc,
        HashKind::Sha1 => &h.alt_sha1,
        HashKind::Md5 => &h.alt_md5,
    }
}

fn opt_is(o: &Option<Vec<u8>>, v: &[u8]) -> (r: bool)
    ensures
        r == (opt_seq(*o) == Some(v@)),
{
    match o {
        Some(x) => slices_equal(x.as_slice(), v),
        None => false,
    }
}

/// Appends the positions listed under `(s, v)` for kind `k`.
fn push_lookup(out: &mut Vec<usize>, files: &[FixNode], k: HashKind, s: u64, v: &[u8])
    ensures
        final(out)@ == old(out)@ + lookup(files@, k, s, v@),
{
    let ghost start = out@;
    let mut i: usize = 0;
    while i < files.len()
        invariant
            i <= files@.len(),
            out@ == start + lookup_upto(files@, k, s, v@, i as int),
        decreases files@.len() - i,
    {
        let h = &files[i].hashes;
        let ghost before = out@;
        if size_or_zero_exec(h) == s && opt_is(primary_ref(h, k), v) {
            out.push(i);
        }
        let ghost mid = out@;
        if alt_size_or_exec(h) == s && opt_is(alt_ref(h, k), v) {
            out.push(i);
        }
        assert(out@ =~= start + lookup_upto(files@, k, s, v@, i + 1));
        i = i + 1;
    }
}

/// Appends the candidates of kind `k` for a file with hashes `t`.
fn push_kind_candidates(out: &mut Vec<usize>, files: &[FixNode], t: &FileHashes, k: HashKind)
    ensures
        final(out)@ == old(out)@ + kind_candidates(files@, t@, k),
{
    let ghost start = out@;
    let s = size_or_zero_exec(t);
    let a = alt_size_or_exec(t);
    match primary_ref(t, k) {
        Some(v) => {
            push_lookup(out, files, k, s, v.as_slice());
            if a != s {
                push_lookup(out, files, k, a, v.as_slice());
            }
        },
        None => {},
    }
    match alt_ref(t, k) {
        Some(v) => {
            push_lookup(out, files, k, a, v.as_slice());
        },
        None => {},
    }
    assert(out@ =~= start + kind_candidates(files@, t@, k));
}

fn both_eq_exec(x: &Option<Vec<u8>>, y: &Option<Vec<u8>>) -> (r: bool)
    ensures
        r == both_eq(opt_seq(*x), opt_seq(*y)),
{
    match x {
        Some(a) => match y {
            Some(b) => slices_equal(a.as_slice(), b.as_slice()),
            None => false,
        },
        None => false,
    }
}

fn kind_match_exec(
    l: &Option<Vec<u8>>,
    la: &Option<Vec<u8>>,
    r: &Option<Vec<u8>>,
    ra: &Option<Vec<u8>>,
    ls: u64,
    las: u64,
    rs: u64,
    ras: u64,
) -> (res: bool)
    ensures
        res == kind_match(opt_seq(*l), opt_seq(*la), opt_seq(*r), opt_seq(*ra), ls, las, rs, ras),
{
    (ls == rs && both_eq_exec(l, r)) || (ls == ras && both_eq_exec(l, ra)) || (las == rs
        && both_eq_exec(la, r)) || (las == ras && both_eq_exec(la, ra))
}

fn size_or_zero_exec(h: &FileHashes) -> (r: u64)
    ensures
        r == size_or_zero(h@),
{
    match h.size {
        Some(s) => s,
        None => 0,
    }
}

fn alt_size_or_exec(h: &FileHashes) -> (r: u64)
    ensures
        r == alt_size_or(h@),
{
    match h.alt_size {
        Some(s) => s,
        None => size_or_zero_exec(h),
    }
}

fn any_kind_match_exec(l: &FileHashes, r: &FileHashes) -> (res: bool)
    ensures
        res == any_kind_match(l@, r@),
{
    let ls = size_or_zero_exec(l);
    let las = alt_size_or_exec(l);
    let rs = size_or_zero_exec(r);
    let ras = alt_size_or_exec(r);
    kind_match_exec(&l.crc, &l.alt_crc, &r.crc, &r.alt_crc, ls, las, rs, ras) || kind_match_exec(
        &l.sha1,
        &l.alt_sha1,
        &r.sha1,
        &r.alt_sha1,
        ls,
        las,
        rs,
        ras,
    ) || kind_match_exec(&l.md5, &l.alt_md5, &r.md5, &r.alt_md5, ls, las, rs, ras)
}

fn pair_compatible_exec(
    l1: &Option<Vec<u8>>,
    l2: &Option<Vec<u8>>,
    r1: &Option<Vec<u8>>,
    r2: &Option<Vec<u8>>,
) -> (res: Option<bool>)
    ensures
        res == pair_compatible(opt_seq(*l1), opt_seq(*l2), opt_seq(*r1), opt_seq(*r2)),
{
    let has_any = (l1.is_some() || l2.is_some()) && (r1.is_some() || r2.is_some());
    if !has_any {
        return None;
    }
    Some(both_eq_exec(l1, r1) || both_eq_exec(l1, r2) || both_eq_exec(l2, r1) || both_eq_exec(l2, r2))
}

fn equals_constant(b: &Option<Vec<u8>>, c: &[u8]) -> (r: bool)
    ensures
        r == (opt_seq(*b) is None || opt_seq(*b).unwrap() == c@),
{
    match b {
        None => true,
        Some(v) => slices_equal(v.as_slice(), c),
    }
}

fn contradicts_exec(flag: bool, wanted: &Option<Vec<u8>>, got: &Option<Vec<u8>>, got_alt: &Option<Vec<u8>>) -> (r: bool)
    ensures
        r == contradicts(flag, opt_seq(*wanted), opt_seq(*got), opt_seq(*got_alt)),
{
    if !flag {
        return false;
    }
    match wanted {
        None => false,
        Some(w) => match got {
            None => false,
            Some(g) => {
                let alt_is_wanted = match got_alt {
                    Some(a) => slices_equal(a.as_slice(), w.as_slice()),
                    None => false,
                };
                !slices_equal(w.as_slice(), g.as_slice()) && !alt_is_wanted
            },
        },
    }
}

impl FindFixes {
    /// The row is checked or locked in the tree view.
    pub fn is_tree_selected(node: &FixNode) -> (r: bool)
        ensures
            r == tree_selected(node.tree_checked),
    {
        match node.tree_checked {
            TreeSelect::Selected | TreeSelect::Locked => true,
            TreeSelect::UnSelected => false,
        }
    }

    /// A source that may be moved away.
    pub fn source_is_consumable(node: &FixNode) -> (r: bool)
        ensures
            r == consumable(*node),
    {
        let locked = match node.tree_checked {
            TreeSelect::Locked => true,
            _ => false,
        };
        let in_place = match node.dat_status {
            DatStatus::InDatCollect | DatStatus::InDatMIA => true,
            _ => false,
        };
        !locked && !in_place
    }

    /// Priority of a source as a fix: location, corruption, consumability.
    pub fn got_source_priority(node: &FixNode) -> (r: (u8, u8, u8))
        ensures
            r == source_priority(*node),
    {
        let location_priority: u8 = match node.dat_status {
            DatStatus::InDatCollect => 0,
            DatStatus::InDatMIA => 1,
            DatStatus::InDatMerged | DatStatus::InDatNoDump => 2,
            DatStatus::InToSort => 3,
            DatStatus::NotInDat => 4,
        };
        let corruption_priority: u8 = match node.got_status {
            GotStatus::Got => 0,
            GotStatus::Corrupt => 1,
            _ => 2,
        };
        let consumable_priority: u8 = if Self::source_is_consumable(node) {
            0
        } else {
            1
        };
        (location_priority, corruption_priority, consumable_priority)
    }

    /// A cleanup status under which the file stays on disk.
    pub fn cleanup_status_retains_shared_path(rep_status: RepStatus) -> (r: bool)
        ensures
            r == cleanup_retains(rep_status),
    {
        match rep_status {
            RepStatus::Delete | RepStatus::UnNeeded | RepStatus::MoveToSort
            | RepStatus::MoveToCorrupt | RepStatus::Deleted => false,
            _ => true,
        }
    }

    /// A DAT status under which the file stays where it is.
    pub fn dat_status_retains_shared_path(dat_status: DatStatus) -> (r: bool)
        ensures
            r == dat_retains(dat_status),
    {
        match dat_status {
            DatStatus::NotInDat | DatStatus::InToSort => false,
            _ => true,
        }
    }

    fn retains(node: &FixNode) -> (r: bool)
        ensures
            r == retains_shared(*node),
    {
        let got = match node.got_status {
            GotStatus::Got => true,
            _ => false,
        };
        got && Self::dat_status_retains_shared_path(node.dat_status)
            && Self::cleanup_status_retains_shared_path(node.rep_status)
    }

    /// Key under which physical identities are grouped: the identity itself.
    pub fn physical_identity_key(identity: &str) -> (r: String)
        ensures
            r@ == identity@,
    {
        identity.to_string()
    }

    /// Two physical identities name the same file.
    pub fn physical_identity_eq(left: &str, right: &str) -> (r: bool)
        ensures
            r == (left@ == right@),
    {
        let e = slices_equal(str_bytes(left), str_bytes(right));
        proof {
            encode_utf8_decode_utf8(left@);
            encode_utf8_decode_utf8(right@);
        }
        e
    }

    /// Some other file with the same physical identity as entry
    /// `current_idx` is present and stays on disk.
    pub fn has_retained_shared_physical_path(
        current_idx: usize,
        files_got: &[FixNode],
        identities: &[String],
    ) -> (r: bool)
        requires
            current_idx < files_got.len(),
            current_idx < identities.len(),
        ensures
            r == other_retains_identity(current_idx as int, files_got@, identities@),
    {
        let current = identities[current_idx].as_str();
        let n = if files_got.len() < identities.len() {
            files_got.len()
        } else {
            identities.len()
        };
        let mut j: usize = 0;
        while j < n
            invariant
                n <= files_got@.len(),
                n <= identities@.len(),
                n == files_got@.len() || n == identities@.len(),
                current_idx < files_got@.len(),
                current_idx < identities@.len(),
                current@ == identities@[current_idx as int]@,
                j <= n,
                forall|k: int|
                    #![trigger files_got@[k]]
                    0 <= k < j ==> !(k != current_idx && retains_shared(files_got@[k])
                        && identities@[k]@ == identities@[current_idx as int]@),
            decreases n - j,
        {
            if j != current_idx && Self::retains(&files_got[j]) && Self::physical_identity_eq(
                identities[j].as_str(),
                current,
            ) {
                assert(files_got@[j as int] == files_got[j as int]);
                return true;
            }
            j = j + 1;
        }
        false
    }

    /// `NotCollected` while another retained file shares the physical path,
    /// else `UnNeeded`.
    pub fn merged_cleanup_status(current_idx: usize, files_got: &[FixNode], identities: &[String]) -> (r: RepStatus)
        requires
            current_idx < files_got.len(),
            current_idx < identities.len(),
        ensures
            r == if other_retains_identity(current_idx as int, files_got@, identities@) {
                RepStatus::NotCollected
            } else {
                RepStatus::UnNeeded
            },
    {
        if Self::has_retained_shared_physical_path(current_idx, files_got, identities) {
            RepStatus::NotCollected
        } else {
            RepStatus::UnNeeded
        }
    }

    /// For each file: its identity key, whether it stays on disk, and how many
    /// retained files share its key.
    pub fn build_retained_physical_identity_index(files_got: &[FixNode], identities: &[String]) -> (r: (
        Vec<String>,
        Vec<bool>,
        Vec<u32>,
    ))
        requires
            identities.len() == files_got.len(),
            files_got.len() <= u32::MAX,
        ensures
            r.0@.len() == files_got@.len(),
            r.1@.len() == files_got@.len(),
            r.2@.len() == files_got@.len(),
            forall|k: int| 0 <= k < files_got@.len() ==> #[trigger] r.0@[k]@ == identities@[k]@,
            forall|k: int| 0 <= k < files_got@.len() ==> #[trigger] r.1@[k] == retains_shared(files_got@[k]),
            forall|k: int|
                0 <= k < files_got@.len() ==> #[trigger] r.2@[k] == retained_count(
                    r.0@,
                    r.1@,
                    r.0@[k]@,
                    files_got@.len() as int,
                ),
    {
        let n = files_got.len();
        let mut keys: Vec<String> = Vec::new();
        let mut retains: Vec<bool> = Vec::new();
        let mut i: usize = 0;
        while i < n
            invariant
                n == files_got@.len(),
                n == identities@.len(),
                i <= n,
                keys@.len() == i,
                retains@.len() == i,
                forall|k: int| 0 <= k < i ==> #[trigger] keys@[k]@ == identities@[k]@,
                forall|k: int| 0 <= k < i ==> #[trigger] retains@[k] == retains_shared(files_got@[k]),
            decreases n - i,
        {
            keys.push(Self::physical_identity_key(identities[i].as_str()));
            retains.push(Self::retains(&files_got[i]));
            i = i + 1;
        }
        let mut counts: Vec<u32> = Vec::new();
        let mut a: usize = 0;
        while a < n
            invariant
                n == files_got@.len(),
                n <= u32::MAX,
                keys@.len() == n,
                retains@.len() == n,
                a <= n,
                counts@.len() == a,
                forall|k: int|
                    0 <= k < a ==> #[trigger] counts@[k] == retained_count(
                        keys@,
                        retains@,
                        keys@[k]@,
                        n as int,
                    ),
            decreases n - a,
        {
            let mut c: u32 = 0;
            let mut b: usize = 0;
            while b < n
                invariant
                    n <= u32::MAX,
                    keys@.len() == n,
                    retains@.len() == n,
                    a < n,
                    b <= n,
                    c == retained_count(keys@, retains@, keys@[a as int]@, b as int),
                decreases n - b,
            {
                proof {
                    lemma_retained_count_bound(keys@, retains@, keys@[a as int]@, b as int);
                }
                if retains[b] && Self::physical_identity_eq(keys[b].as_str(), keys[a].as_str()) {
                    c = c + 1;
                }
                b = b + 1;
            }
            counts.push(c);
            a = a + 1;
        }
        (keys, retains, counts)
    }

    /// Another retained file shares the key of entry `current_idx`, read from
    /// an index built by `build_retained_physical_identity_index`.
    pub fn has_other_retained_shared_physical_path(
        current_idx: usize,
        identity_keys: &[String],
        identity_retains: &[bool],
        retained_counts: &[u32],
    ) -> (r: bool)
        ensures
            r == other_retained_in_index(
                current_idx as int,
                identity_keys@,
                identity_retains@,
                retained_counts@,
            ),
    {
        if current_idx >= identity_keys.len() {
            return false;
        }
        let count: u32 = if current_idx < retained_counts.len() {
            retained_counts[current_idx]
        } else {
            0
        };
        if current_idx < identity_retains.len() && identity_retains[current_idx] {
            count > 1
        } else {
            count > 0
        }
    }

    /// `NotCollected` while the index shows another retained file at the same
    /// physical path, else `UnNeeded`.
    pub fn merged_cleanup_status_with_shared(
        current_idx: usize,
        identity_keys: &[String],
        identity_retains: &[bool],
        retained_counts: &[u32],
    ) -> (r: RepStatus)
        ensures
            r == if other_retained_in_index(
                current_idx as int,
                identity_keys@,
                identity_retains@,
                retained_counts@,
            ) {
                RepStatus::NotCollected
            } else {
                RepStatus::UnNeeded
            },
    {
        if Self::has_other_retained_shared_physical_path(
            current_idx,
            identity_keys,
            identity_retains,
            retained_counts,
        ) {
            RepStatus::NotCollected
        } else {
            RepStatus::UnNeeded
        }
    }

    /// Appends to `candidates` each index of `got_list` not seen before, in
    /// order, and marks it seen.
    pub fn extend_unique_got_candidates(
        candidates: &mut Vec<usize>,
        got_list: &[usize],
        seen: &mut HashSet<usize>,
    )
        ensures
            final(seen)@ == seen_after(got_list@, old(seen)@, got_list@.len() as int),
            final(candidates)@ == old(candidates)@ + fresh_prefix(
                got_list@,
                old(seen)@,
                got_list@.len() as int,
            ),
    {
        let ghost seen0 = seen@;
        let ghost cand0 = candidates@;
        let mut i: usize = 0;
        while i < got_list.len()
            invariant
                i <= got_list@.len(),
                seen@ == seen_after(got_list@, seen0, i as int),
                candidates@ == cand0 + fresh_prefix(got_list@, seen0, i as int),
            decreases got_list@.len() - i,
        {
            let idx = got_list[i];
            if seen.insert(idx) {
                candidates.push(idx);
            }
            assert(cand0 + fresh_prefix(got_list@, seen0, i + 1) =~= candidates@);
            i = i + 1;
        }
    }

    /// Every known size or hash is that of empty content, and some is known
    /// or the name ends with `/`.
    pub fn is_zero_length_file(file: &FixNode) -> (r: bool)
        ensures
            r == zero_length(*file),
    {
        let empty_md5: [u8; 16] = [
            0xD4, 0x1D, 0x8C, 0xD9, 0x8F, 0x00, 0xB2, 0x04, 0xE9, 0x80, 0x09, 0x98, 0xEC, 0xF8, 0x42,
            0x7E,
        ];
        let empty_sha1: [u8; 20] = [
            0xDA, 0x39, 0xA3, 0xEE, 0x5E, 0x6B, 0x4B, 0x0D, 0x32, 0x55, 0xBF, 0xEF, 0x95, 0x60, 0x18,
            0x90, 0xAF, 0xD8, 0x07, 0x09,
        ];
        let empty_crc: [u8; 4] = [0, 0, 0, 0];
        assert(empty_md5@ =~= zero_md5());
        assert(empty_sha1@ =~= zero_sha1());
        assert(empty_crc@ =~= zero_crc());
        let h = &file.hashes;
        if !equals_constant(&h.md5, empty_md5.as_slice()) {
            return false;
        }
        if !equals_constant(&h.sha1, empty_sha1.as_slice()) {
            return false;
        }
        if !equals_constant(&h.crc, empty_crc.as_slice()) {
            return false;
        }
        match h.size {
            Some(size) => {
                if size != 0 {
                    return false;
                }
            },
            None => {},
        }
        let found_one = h.md5.is_some() || h.sha1.is_some() || h.crc.is_some() || h.size.is_some();
        if found_one {
            return true;
        }
        let b = str_bytes(file.name.as_str());
        b.len() > 0 && b[b.len() - 1] == 0x2Fu8
    }

    /// SHA1 agreement of two files over primary and alternative values.
    pub fn sha1_compatible(left: &FixNode, right: &FixNode) -> (r: Option<bool>)
        ensures
            r == pair_compatible(
                left.hashes@.sha1,
                left.hashes@.alt_sha1,
                right.hashes@.sha1,
                right.hashes@.alt_sha1,
            ),
    {
        pair_compatible_exec(&left.hashes.sha1, &left.hashes.alt_sha1, &right.hashes.sha1, &right.hashes.alt_sha1)
    }

    /// MD5 agreement of two files over primary and alternative values.
    pub fn md5_compatible(left: &FixNode, right: &FixNode) -> (r: Option<bool>)
        ensures
            r == pair_compatible(
                left.hashes@.md5,
                left.hashes@.alt_md5,
                right.hashes@.md5,
                right.hashes@.alt_md5,
            ),
    {
        pair_compatible_exec(&left.hashes.md5, &left.hashes.alt_md5, &right.hashes.md5, &right.hashes.alt_md5)
    }

    /// A present file and a wanted one hold the same content.
    pub fn got_and_matching_are_full_matches(got: &FixNode, matching: &FixNode) -> (r: bool)
        ensures
            r == full_match(*got, *matching),
    {
        if Self::is_zero_length_file(got) && Self::is_zero_length_file(matching) {
            return true;
        }
        if got.deep_scanned && matching.deep_scanned {
            match Self::sha1_compatible(got, matching) {
                Some(ok) => {
                    if !ok {
                        return false;
                    }
                },
                None => {},
            }
            match Self::md5_compatible(got, matching) {
                Some(ok) => {
                    if !ok {
                        return false;
                    }
                },
                None => {},
            }
        }
        true
    }

    /// A database file and a candidate's sizes and hashes hold the same content.
    pub fn hashes_match_file(file: &FixNode, candidate: &FileHashes) -> (r: bool)
        ensures
            r == any_kind_match(file.hashes@, candidate@),
    {
        any_kind_match_exec(&file.hashes, candidate)
    }

    /// A scanned archive member holds the content of a database file.
    pub fn scanned_member_matches_target(file: &FixNode, scanned: &ScannedFile) -> (r: bool)
        ensures
            r == any_kind_match(file.hashes@, scanned.hashes@),
    {
        Self::hashes_match_file(file, &scanned.hashes)
    }

    /// Two scanned files hold the same content.
    pub fn scanned_files_match(left: &ScannedFile, right: &ScannedFile) -> (r: bool)
        ensures
            r == any_kind_match(left.hashes@, right.hashes@),
    {
        any_kind_match_exec(&left.hashes, &right.hashes)
    }

    /// Some hash, primary or alternative, is known.
    pub fn node_has_comparable_hashes(node: &FixNode) -> (r: bool)
        ensures
            r == node.hashes@.has_hash_identity(),
    {
        node.hashes.has_hash_identity()
    }

    /// The present file `got` may serve as the missing file `missing`: empty
    /// files only for empty files; headers must agree; once `got` was hashed
    /// from disk no DAT-given SHA1 or MD5 of `missing` may contradict it.
    pub fn missing_can_be_fixed_by_got(missing: &FixNode, got: &FixNode) -> (r: bool)
        ensures
            r == can_fix(*missing, *got),
    {
        let m = &missing.hashes;
        let g = &got.hashes;
        let missing_zero_len = match m.size {
            Some(s) => s == 0,
            None => false,
        } && m.crc.is_none() && m.sha1.is_none() && m.md5.is_none() && m.alt_crc.is_none()
            && m.alt_sha1.is_none() && m.alt_md5.is_none();
        if missing_zero_len {
            return match g.size {
                Some(s) => s == 0,
                None => false,
            };
        }
        if missing.header_type != 0 && got.header_type != 0 && missing.header_type != got.header_type {
            return false;
        }
        if missing.header_required && (got.header_type == 0 || !got.header_from_header) {
            return false;
        }
        if got.deep_scanned {
            if contradicts_exec(missing.sha1_from_dat, &m.sha1, &g.sha1, &g.alt_sha1) {
                return false;
            }
            if contradicts_exec(missing.alt_sha1_from_dat, &m.alt_sha1, &g.sha1, &g.alt_sha1) {
                return false;
            }
            if contradicts_exec(missing.md5_from_dat, &m.md5, &g.md5, &g.alt_md5) {
                return false;
            }
            if contradicts_exec(missing.alt_md5_from_dat, &m.alt_md5, &g.md5, &g.alt_md5) {
                return false;
            }
        }
        true
    }

    /// Among the sources listed in `got_list` that are not used yet, the
    /// first one with the smallest key (location, shared backing,
    /// corruption, consumability); `None` when every one is used.
    pub fn preferred_got_idx(
        got_list: &[usize],
        files_got: &[FixNode],
        identities: &[String],
        used_got_indices: &HashSet<usize>,
    ) -> (r: Option<usize>)
        requires
            forall|k: int| 0 <= k < got_list.len() ==> #[trigger] got_list[k] < files_got.len(),
            files_got.len() <= identities.len(),
        ensures
            r == preferred(got_list@, files_got@, identities@, used_got_indices@),
    {
        let mut best: Option<usize> = None;
        let mut best_key: (u8, u8, u8, u8) = (0, 0, 0, 0);
        let mut i: usize = 0;
        while i < got_list.len()
            invariant
                forall|k: int| 0 <= k < got_list.len() ==> #[trigger] got_list[k] < files_got.len(),
                files_got.len() <= identities.len(),
                i <= got_list@.len(),
                best == preferred_upto(got_list@, files_got@, identities@, used_got_indices@, i as int),
                best matches Some(b) ==> b < files_got.len() && best_key == candidate_key(
                    files_got@,
                    identities@,
                    b as int,
                ),
            decreases got_list@.len() - i,
        {
            let idx = got_list[i];
            if !used_got_indices.contains(&idx) {
                let p = Self::got_source_priority(&files_got[idx]);
                let shared: u8 = if Self::has_retained_shared_physical_path(idx, files_got, identities) {
                    1
                } else {
                    0
                };
                let key = (p.0, shared, p.1, p.2);
                let take = match best {
                    None => true,
                    Some(_) => key_less_exec(key, best_key),
                };
                if take {
                    best = Some(idx);
                    best_key = key;
                }
            }
            i = i + 1;
        }
        best
    }

    /// The candidates of kind `k` for a file with hashes `t`.
    pub fn candidates_of_kind(files: &[FixNode], t: &FileHashes, k: HashKind) -> (r: Vec<usize>)
        ensures
            r@ == kind_candidates(files@, t@, k),
            forall|j: int| 0 <= j < r@.len() ==> #[trigger] r@[j] < files@.len(),
    {
        let mut out: Vec<usize> = Vec::new();
        push_kind_candidates(&mut out, files, t, k);
        assert(out@ =~= kind_candidates(files@, t@, k));
        proof {
            lemma_candidates_bound(files@, t@, k);
        }
        out
    }

    /// The source chosen for a missing file (see [`source_for`]).
    fn find_source(files_got: &[FixNode], m: &FixNode, identities: &[String], used: &HashSet<usize>) -> (r: Option<usize>)
        requires
            files_got.len() <= identities.len(),
        ensures
            r == source_for(files_got@, identities@, used@, *m),
            r matches Some(g) ==> g < files_got.len(),
    {
        proof {
            reveal(source_for);
            lemma_candidates_bound(files_got@, m.hashes@, HashKind::Crc);
            lemma_candidates_bound(files_got@, m.hashes@, HashKind::Sha1);
            lemma_candidates_bound(files_got@, m.hashes@, HashKind::Md5);
            lemma_preferred_in_list(kind_candidates(files_got@, m.hashes@, HashKind::Crc), files_got@, identities@, used@);
            lemma_preferred_in_list(kind_candidates(files_got@, m.hashes@, HashKind::Sha1), files_got@, identities@, used@);
            lemma_preferred_in_list(kind_candidates(files_got@, m.hashes@, HashKind::Md5), files_got@, identities@, used@);
        }
        let crc = Self::candidates_of_kind(files_got, &m.hashes, HashKind::Crc);
        let r1 = Self::preferred_got_idx(crc.as_slice(), files_got, identities, used);
        if r1.is_some() {
            return r1;
        }
        let sha1 = Self::candidates_of_kind(files_got, &m.hashes, HashKind::Sha1);
        let r2 = Self::preferred_got_idx(sha1.as_slice(), files_got, identities, used);
        if r2.is_some() {
            return r2;
        }
        let md5 = Self::candidates_of_kind(files_got, &m.hashes, HashKind::Md5);
        Self::preferred_got_idx(md5.as_slice(), files_got, identities, used)
    }

    /// One missing file looked at (see [`pair_one`]).
    #[verifier::rlimit(60)]
    fn match_one(
        files_got: &mut Vec<FixNode>,
        files_missing: &mut Vec<FixNode>,
        identities: &[String],
        used: &mut HashSet<usize>,
        i: usize,
    )
        requires
            i < old(files_missing).len(),
            old(files_got).len() <= identities.len(),
        ensures
            final(files_got)@.len() == old(files_got)@.len(),
            final(files_missing)@.len() == old(files_missing)@.len(),
            (final(files_got)@, final(files_missing)@, final(used)@) == pair_one(
                old(files_got)@,
                old(files_missing)@,
                identities@,
                old(used)@,
                i as int,
            ),
    {
        let ghost got_before = files_got@;
        let ghost missing_before = files_missing@;
        let ghost used_before = used@;
        let dat = files_missing[i].dat_status;
        let merged = match dat {
            DatStatus::InDatMerged | DatStatus::InDatNoDump => true,
            _ => false,
        };
        if merged {
            files_missing[i].rep_status = RepStatus::NotCollected;
            assert(files_missing@ =~= missing_before.update(
                i as int,
                with_rep(missing_before[i as int], RepStatus::NotCollected),
            ));
        } else {
            let found = Self::find_source(files_got.as_slice(), &files_missing[i], identities, used);
            let is_mia = match dat {
                DatStatus::InDatMIA => true,
                _ => false,
            };
            match found {
                Some(g) => {
                    let is_corrupt = match files_got[g].got_status {
                        GotStatus::Corrupt => true,
                        _ => false,
                    };
                    let status = if is_corrupt {
                        RepStatus::CorruptCanBeFixed
                    } else if is_mia {
                        RepStatus::CanBeFixedMIA
                    } else {
                        RepStatus::CanBeFixed
                    };
                    files_missing[i].rep_status = status;
                    assert(files_missing@ =~= missing_before.update(
                        i as int,
                        with_rep(missing_before[i as int], status),
                    ));
                    let current = files_got[g].rep_status;
                    let needed = !is_corrupt && match current {
                        RepStatus::UnScanned | RepStatus::InToSort | RepStatus::MoveToSort
                        | RepStatus::Unknown | RepStatus::Deleted | RepStatus::UnNeeded => true,
                        _ => false,
                    };
                    assert(needed == becomes_needed(got_before[g as int]));
                    if needed {
                        files_got[g].rep_status = RepStatus::NeededForFix;
                        assert(files_got@ =~= got_before.update(
                            g as int,
                            with_rep(got_before[g as int], RepStatus::NeededForFix),
                        ));
                    }
                    if Self::source_is_consumable(&files_got[g]) {
                        used.insert(g);
                    }
                },
                None => {
                    let status = if is_mia {
                        RepStatus::MissingMIA
                    } else {
                        RepStatus::Missing
                    };
                    files_missing[i].rep_status = status;
                    assert(files_missing@ =~= missing_before.update(
                        i as int,
                        with_rep(missing_before[i as int], status),
                    ));
                },
            }
        }
    }

    /// Looks for a source for each missing file in turn (see [`pair_one`]):
    /// CRC candidates first, then SHA1, then MD5, the first unused candidate
    /// with the smallest key winning.
    pub fn match_missing_files(
        files_got: &mut Vec<FixNode>,
        files_missing: &mut Vec<FixNode>,
        identities: &[String],
    )
        requires
            old(files_got).len() <= identities.len(),
        ensures
            final(files_got)@ == pair_upto(old(files_got)@, old(files_missing)@, identities@, old(files_missing)@.len() as int).0,
            final(files_missing)@ == pair_upto(old(files_got)@, old(files_missing)@, identities@, old(files_missing)@.len() as int).1,
    {
        let ghost g0 = files_got@;
        let ghost m0 = files_missing@;
        let mut used: HashSet<usize> = HashSet::new();
        let mut i: usize = 0;
        while i < files_missing.len()
            invariant
                i <= files_missing@.len(),
                files_missing@.len() == m0.len(),
                files_got@.len() == g0.len(),
                g0.len() <= identities@.len(),
                (files_got@, files_missing@, used@) == pair_upto(g0, m0, identities@, i as int),
            decreases files_missing@.len() - i,
        {
            Self::match_one(files_got, files_missing, identities, &mut used, i);
            i = i + 1;
        }
    }

    /// All candidates, of every kind, for a file with hashes `t`.
    fn all_candidates_of(files: &[FixNode], t: &FileHashes) -> (r: Vec<usize>)
        ensures
            r@ == all_candidates(files@, t@),
    {
        let mut out: Vec<usize> = Vec::new();
        push_kind_candidates(&mut out, files, t, HashKind::Crc);
        push_kind_candidates(&mut out, files, t, HashKind::Sha1);
        push_kind_candidates(&mut out, files, t, HashKind::Md5);
        assert(out@ =~= all_candidates(files@, t@));
        out
    }

    /// Another present file (not the one at `current`) with the same hashes
    /// as `file` is wanted by some DAT.
    pub fn has_redundant_romroot_match(current: Option<usize>, file: &FixNode, all_got: &[FixNode]) -> (r: bool)
        ensures
            r == romroot_redundant(current, file.hashes@, all_got@),
    {
        let cands = Self::all_candidates_of(all_got, &file.hashes);
        let mut k: usize = 0;
        while k < cands.len()
            invariant
                cands@ == all_candidates(all_got@, file.hashes@),
                k <= cands@.len(),
                forall|q: int|
                    0 <= q < k ==> !(0 <= cands@[q] < all_got@.len() && current != Some(cands@[q])
                        && #[trigger] all_got@[cands@[q] as int].got_status == GotStatus::Got
                        && in_some_dat(all_got@[cands@[q] as int].dat_status)),
            decreases cands@.len() - k,
        {
            let j = cands[k];
            let is_current = match current {
                Some(c) => c == j,
                None => false,
            };
            if j < all_got.len() && !is_current {
                let got = match all_got[j].got_status {
                    GotStatus::Got => true,
                    _ => false,
                };
                let dat = match all_got[j].dat_status {
                    DatStatus::InDatCollect | DatStatus::InDatMIA | DatStatus::InDatMerged
                    | DatStatus::InDatNoDump => true,
                    _ => false,
                };
                if got && dat {
                    assert(cands@.contains(j));
                    assert(all_got@[j as int] == all_got@[j as int]);
                    return true;
                }
            }
            k = k + 1;
        }
        proof {
            assert forall|j: int|
                #![trigger all_got@[j]]
                all_candidates(all_got@, file.hashes@).contains(j as usize) && 0 <= j < all_got@.len()
                    && current != Some(j as usize) implies !(all_got@[j].got_status == GotStatus::Got
                && in_some_dat(all_got@[j].dat_status)) by {
                assert(all_got@.len() == all_got.len());
                assert(j as usize as int == j);
                let q = choose|q: int| 0 <= q < cands@.len() && cands@[q] == j as usize;
                assert(0 <= q < cands@.len() && cands@[q] == j as usize);
                assert(cands@[q] as int == j);
                assert(all_got@[cands@[q] as int] == all_got@[j]);
            }
        }
        false
    }

    /// A wanted file with the same hashes as `file` is about to be fixed.
    pub fn has_pending_fix_target_match(file: &FixNode, files_missing: &[FixNode]) -> (r: bool)
        ensures
            r == pending_fix_target(file.hashes@, files_missing@),
    {
        let cands = Self::all_candidates_of(files_missing, &file.hashes);
        let mut k: usize = 0;
        while k < cands.len()
            invariant
                cands@ == all_candidates(files_missing@, file.hashes@),
                k <= cands@.len(),
                forall|q: int|
                    0 <= q < k ==> !(0 <= cands@[q] < files_missing@.len() && (
                    #[trigger] files_missing@[cands@[q] as int].rep_status == RepStatus::CanBeFixed
                        || files_missing@[cands@[q] as int].rep_status == RepStatus::CanBeFixedMIA)
                        && (files_missing@[cands@[q] as int].dat_status == DatStatus::InDatCollect
                        || files_missing@[cands@[q] as int].dat_status == DatStatus::InDatMIA)),
            decreases cands@.len() - k,
        {
            let j = cands[k];
            if j < files_missing.len() {
                let fixable = match files_missing[j].rep_status {
                    RepStatus::CanBeFixed | RepStatus::CanBeFixedMIA => true,
                    _ => false,
                };
                let wanted = match files_missing[j].dat_status {
                    DatStatus::InDatCollect | DatStatus::InDatMIA => true,
                    _ => false,
                };
                if fixable && wanted {
                    assert(cands@.contains(j));
                    assert(files_missing@[j as int] == files_missing@[j as int]);
                    return true;
                }
            }
            k = k + 1;
        }
        proof {
            assert forall|j: int|
                #![trigger files_missing@[j]]
                all_candidates(files_missing@, file.hashes@).contains(j as usize) && 0 <= j
                    < files_missing@.len() implies !((files_missing@[j].rep_status
                == RepStatus::CanBeFixed || files_missing@[j].rep_status == RepStatus::CanBeFixedMIA)
                && (files_missing@[j].dat_status == DatStatus::InDatCollect
                || files_missing@[j].dat_status == DatStatus::InDatMIA)) by {
                assert(files_missing@.len() == files_missing.len());
                assert(j as usize as int == j);
                let q = choose|q: int| 0 <= q < cands@.len() && cands@[q] == j as usize;
                assert(0 <= q < cands@.len() && cands@[q] == j as usize);
                assert(cands@[q] as int == j);
                assert(files_missing@[cands@[q] as int] == files_missing@[j]);
            }
        }
        false
    }

    /// One present file looked at for corruption (see [`corrupt_one`]).
    fn settle_corrupt_one(files_got: &mut Vec<FixNode>, identities: &[String], idx: usize)
        requires
            idx < old(files_got).len(),
            old(files_got).len() <= identities.len(),
        ensures
            final(files_got)@ == corrupt_one(old(files_got)@, identities@, idx as int),
    {
        let ghost before = files_got@;
        let corrupt = match files_got[idx].got_status {
            GotStatus::Corrupt => true,
            _ => false,
        };
        if !corrupt {
            return;
        }
        let needed = match files_got[idx].rep_status {
            RepStatus::NeededForFix => true,
            _ => false,
        };
        if needed {
            return;
        }
        let status = match files_got[idx].dat_status {
            DatStatus::InDatCollect => RepStatus::MoveToCorrupt,
            DatStatus::InDatMerged | DatStatus::InDatNoDump => Self::merged_cleanup_status(
                idx,
                files_got.as_slice(),
                identities,
            ),
            _ => RepStatus::Delete,
        };
        files_got[idx].rep_status = status;
        assert(files_got@ =~= before.update(idx as int, with_rep(before[idx as int], status)));
    }

    /// Settles the corrupt present files in order (see [`corrupt_one`]).
    pub fn settle_corrupt_files(files_got: &mut Vec<FixNode>, identities: &[String])
        requires
            old(files_got).len() <= identities.len(),
        ensures
            final(files_got)@ == corrupt_upto(old(files_got)@, identities@, old(files_got)@.len() as int),
    {
        let ghost g0 = files_got@;
        let mut idx: usize = 0;
        while idx < files_got.len()
            invariant
                files_got@.len() == g0.len(),
                g0.len() <= identities@.len(),
                idx <= g0.len(),
                files_got@ == corrupt_upto(g0, identities@, idx as int),
            decreases g0.len() - idx,
        {
            Self::settle_corrupt_one(files_got, identities, idx);
            idx = idx + 1;
        }
    }

    /// One present file settled (see [`settle_one`]).
    fn settle_unused_one(
        files_got: &mut Vec<FixNode>,
        identities: &[String],
        idx: usize,
        all_got: &[FixNode],
        current: Option<usize>,
        physical_match: bool,
        files_missing: &[FixNode],
    )
        requires
            idx < old(files_got).len(),
            old(files_got).len() <= identities.len(),
        ensures
            final(files_got)@ == settle_one(
                old(files_got)@,
                identities@,
                idx as int,
                all_got@,
                current,
                physical_match,
                files_missing@,
            ),
    {
        let ghost before = files_got@;
        let settled = match files_got[idx].rep_status {
            RepStatus::NeededForFix | RepStatus::Correct | RepStatus::Delete
            | RepStatus::MoveToCorrupt => true,
            _ => false,
        };
        if settled {
            return;
        }
        let status = match files_got[idx].dat_status {
            DatStatus::InDatCollect => RepStatus::Correct,
            DatStatus::InDatMerged | DatStatus::InDatNoDump => Self::merged_cleanup_status(
                idx,
                files_got.as_slice(),
                identities,
            ),
            DatStatus::InDatMIA => RepStatus::CorrectMIA,
            DatStatus::InToSort => {
                if Self::has_redundant_romroot_match(current, &files_got[idx], all_got) || physical_match
                    || Self::has_pending_fix_target_match(&files_got[idx], files_missing) {
                    RepStatus::Delete
                } else {
                    RepStatus::InToSort
                }
            },
            DatStatus::NotInDat => RepStatus::MoveToSort,
        };
        files_got[idx].rep_status = status;
        assert(files_got@ =~= before.update(idx as int, with_rep(before[idx as int], status)));
    }

    /// Settles the present files not needed for a fix, in order (see
    /// [`settle_one`]). `got_all_index[i]` is the position of `files_got[i]`
    /// in `all_got`, and `physical_dat_match[i]` whether a physical copy of
    /// a DAT file matches it.
    pub fn settle_unused_got_files(
        files_got: &mut Vec<FixNode>,
        identities: &[String],
        all_got: &[FixNode],
        got_all_index: &[Option<usize>],
        physical_dat_match: &[bool],
        files_missing: &[FixNode],
    )
        requires
            old(files_got).len() <= identities.len(),
            got_all_index.len() == old(files_got).len(),
            physical_dat_match.len() == old(files_got).len(),
        ensures
            final(files_got)@ == settle_upto(
                old(files_got)@,
                identities@,
                all_got@,
                got_all_index@,
                physical_dat_match@,
                files_missing@,
                old(files_got)@.len() as int,
            ),
    {
        let ghost g0 = files_got@;
        let mut idx: usize = 0;
        while idx < files_got.len()
            invariant
                files_got@.len() == g0.len(),
                g0.len() <= identities@.len(),
                got_all_index@.len() == g0.len(),
                physical_dat_match@.len() == g0.len(),
                idx <= g0.len(),
                files_got@ == settle_upto(
                    g0,
                    identities@,
                    all_got@,
                    got_all_index@,
                    physical_dat_match@,
                    files_missing@,
                    idx as int,
                ),
            decreases g0.len() - idx,
        {
            Self::settle_unused_one(
                files_got,
                identities,
                idx,
                all_got,
                got_all_index[idx],
                physical_dat_match[idx],
                files_missing,
            );
            idx = idx + 1;
        }
    }

    /// One pass of the fix finder over the selected files: pair missing files
    /// with sources, settle corrupt files, then settle the present files not
    /// needed for a fix.
    pub fn find_fixes_pass(
        files_got: &mut Vec<FixNode>,
        files_missing: &mut Vec<FixNode>,
        identities: &[String],
        all_got: &[FixNode],
        got_all_index: &[Option<usize>],
        physical_dat_match: &[bool],
    )
        requires
            old(files_got).len() <= identities.len(),
            got_all_index.len() == old(files_got).len(),
            physical_dat_match.len() == old(files_got).len(),
        ensures
            final(files_missing)@ == pair_upto(
                old(files_got)@,
                old(files_missing)@,
                identities@,
                old(files_missing)@.len() as int,
            ).1,
            final(files_got)@ == settle_upto(
                corrupt_upto(
                    pair_upto(
                        old(files_got)@,
                        old(files_missing)@,
                        identities@,
                        old(files_missing)@.len() as int,
                    ).0,
                    identities@,
                    old(files_got)@.len() as int,
                ),
                identities@,
                all_got@,
                got_all_index@,
                physical_dat_match@,
                final(files_missing)@,
                old(files_got)@.len() as int,
            ),
            final(files_got)@.len() == old(files_got)@.len(),
            forall|k: int|
                0 <= k < final(files_got)@.len() && (#[trigger] final(files_got)@[k].dat_status
                    == DatStatus::InDatCollect || final(files_got)@[k].dat_status == DatStatus::InDatMIA)
                    ==> final(files_got)@[k].rep_status != RepStatus::MoveToSort,
    {
        let ghost g0 = files_got@;
        let ghost m0 = files_missing@;
        Self::match_missing_files(files_got, files_missing, identities);
        proof {
            lemma_pair_upto_len(g0, m0, identities@, m0.len() as int);
        }
        Self::settle_corrupt_files(files_got, identities);
        proof {
            lemma_corrupt_upto_len(
                pair_upto(g0, m0, identities@, m0.len() as int).0,
                identities@,
                g0.len() as int,
            );
        }
        Self::settle_unused_got_files(
            files_got,
            identities,
            all_got,
            got_all_index,
            physical_dat_match,
            files_missing.as_slice(),
        );
        proof {
            let c = corrupt_upto(pair_upto(g0, m0, identities@, m0.len() as int).0, identities@, g0.len() as int);
            law_settling_keeps_wanted_files(
                c,
                identities@,
                all_got@,
                got_all_index@,
                physical_dat_match@,
                files_missing@,
                g0.len() as int,
            );
            assert forall|k: int|
                0 <= k < files_got@.len() && (#[trigger] files_got@[k].dat_status == DatStatus::InDatCollect
                    || files_got@[k].dat_status == DatStatus::InDatMIA) implies files_got@[k].rep_status
                != RepStatus::MoveToSort by {
                assert(settled_as(c[k], files_got@[k]));
            }
        }
    }
}

} // verus!
