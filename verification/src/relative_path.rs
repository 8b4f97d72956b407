//! Relative paths between directories, with paths read the Windows way:
//! `\` and `/` both separate components, an optional drive letter or UNC
//! server and share lead, and names compare up to ASCII case.

use vstd::prelude::*;
use vstd::utf8::*;
use crate::text::{
    all_ascii, ascii_ci_eq, ascii_lower, ascii_lower_byte, eq_ignore_ascii_case, lemma_ascii_valid_utf8,
    str_bytes, str_tail, string_from_utf8,
};
use crate::torrentzip::push_bytes;
use crate::arr_byte::slices_equal;

verus! {

/// A path separator: `\` or `/`.
pub open spec fn is_sep(c: u8) -> bool {
    c == 0x5Cu8 || c == 0x2Fu8
}

/// An ASCII letter.
pub open spec fn is_ascii_alpha(c: u8) -> bool {
    (0x41 <= c <= 0x5A) || (0x61 <= c <= 0x7A)
}

/// The path starts with a drive such as `C:`.
pub open spec fn has_drive(b: Seq<u8>) -> bool {
    b.len() >= 2 && is_ascii_alpha(b[0]) && b[1] == 0x3Au8
}

/// The first separator at or after `i`, or the end of `b`.
pub open spec fn sep_from(b: Seq<u8>, i: int) -> int
    decreases b.len() - i,
{
    if i < 0 || i >= b.len() {
        b.len() as int
    } else if is_sep(b[i]) {
        i
    } else {
        sep_from(b, i + 1)
    }
}

/// The path starts with a UNC prefix: two separators, then the server and
/// the share (each up to the next separator, either of them possibly empty).
/// Verbatim (`\\?\`) and device (`\\.\`) prefixes are not read as UNC.
pub open spec fn has_unc(b: Seq<u8>) -> bool {
    &&& b.len() >= 2
    &&& is_sep(b[0])
    &&& is_sep(b[1])
    &&& !(b.len() >= 4 && (b[2] == 0x3Fu8 || b[2] == 0x2Eu8) && is_sep(b[3]))
}

/// Where the server of a UNC prefix ends.
pub open spec fn unc_server_end(b: Seq<u8>) -> int {
    sep_from(b, 2)
}

/// Where a UNC prefix (server and share) ends.
pub open spec fn unc_end(b: Seq<u8>) -> int {
    if unc_server_end(b) < b.len() {
        sep_from(b, unc_server_end(b) + 1)
    } else {
        b.len() as int
    }
}

/// The server of a UNC prefix.
pub open spec fn unc_server(b: Seq<u8>) -> Seq<u8> {
    b.subrange(2, unc_server_end(b))
}

/// The share of a UNC prefix.
pub open spec fn unc_share(b: Seq<u8>) -> Seq<u8> {
    if unc_server_end(b) < b.len() {
        b.subrange(unc_server_end(b) + 1, unc_end(b))
    } else {
        Seq::empty()
    }
}

/// Where the components start: after the drive or the UNC prefix, if any.
pub open spec fn parts_start(b: Seq<u8>) -> int {
    if has_drive(b) {
        2
    } else if has_unc(b) {
        unc_end(b)
    } else {
        0
    }
}

/// A drive followed by a separator, or a UNC prefix.
pub open spec fn is_absolute_path(b: Seq<u8>) -> bool {
    (has_drive(b) && b.len() > 2 && is_sep(b[2])) || has_unc(b)
}

/// Two absolute paths start with different prefixes: different drives (the
/// letter compared up to ASCII case), different UNC servers or shares
/// (compared exactly), or a drive against a UNC prefix.
pub open spec fn prefixes_differ(f: Seq<u8>, t: Seq<u8>) -> bool {
    if has_drive(f) && has_drive(t) {
        ascii_lower(f[0]) != ascii_lower(t[0])
    } else if has_unc(f) && has_unc(t) {
        unc_server(f) != unc_server(t) || unc_share(f) != unc_share(t)
    } else {
        true
    }
}

/// A named component: neither empty, nor `.`, nor `..`.
pub open spec fn keep_part(p: Seq<u8>) -> bool {
    p.len() > 0 && p != seq![0x2Eu8] && p != seq![0x2Eu8, 0x2Eu8]
}

/// `p` as a one-element list when it is a named component.
pub open spec fn kept(p: Seq<u8>) -> Seq<Seq<u8>> {
    if keep_part(p) {
        seq![p]
    } else {
        Seq::empty()
    }
}

/// The named components of `b`, the current unfinished one being `cur`.
pub open spec fn parts_from(b: Seq<u8>, cur: Seq<u8>) -> Seq<Seq<u8>>
    decreases b.len(),
{
    if b.len() == 0 {
        kept(cur)
    } else if is_sep(b[0]) {
        kept(cur) + parts_from(b.drop_first(), Seq::empty())
    } else {
        parts_from(b.drop_first(), cur.push(b[0]))
    }
}

/// The named components of a path.
pub open spec fn normal_parts(b: Seq<u8>) -> Seq<Seq<u8>> {
    parts_from(b.subrange(parts_start(b), b.len() as int), Seq::empty())
}

/// Number of leading components, from `i` on, equal up to ASCII case.
pub open spec fn common_from(f: Seq<Seq<u8>>, t: Seq<Seq<u8>>, i: int) -> int
    decreases f.len() - i,
{
    if 0 <= i < f.len() && i < t.len() && ascii_ci_eq(f[i], t[i]) {
        common_from(f, t, i + 1)
    } else {
        i
    }
}

/// Components joined with `\`.
pub open spec fn join_parts(p: Seq<Seq<u8>>) -> Seq<u8>
    decreases p.len(),
{
    if p.len() == 0 {
        Seq::empty()
    } else if p.len() == 1 {
        p[0]
    } else {
        join_parts(p.drop_last()) + seq![0x5Cu8] + p.last()
    }
}

/// `..` as bytes.
pub open spec fn dot_dot() -> Seq<u8> {
    seq![0x2Eu8, 0x2Eu8]
}

/// The path of `to` relative to the directory `from`: `to` itself when both
/// are absolute with different prefixes (drives or UNC shares) or they share
/// no leading component;
/// else one `..` per remaining component of `from`, then the remaining
/// components of `to`, joined with `\`.
pub open spec fn relative_spec(from: Seq<u8>, to: Seq<u8>) -> Seq<u8> {
    let fp = normal_parts(from);
    let tp = normal_parts(to);
    let k = common_from(fp, tp, 0);
    if is_absolute_path(from) && is_absolute_path(to) && prefixes_differ(from, to) {
        to
    } else if k == 0 {
        to
    } else {
        join_parts(Seq::new((fp.len() - k) as nat, |i: int| dot_dot()) + tp.subrange(k, tp.len() as int))
    }
}

/// The component ranges of `b`, as byte positions.
pub open spec fn range_parts(b: Seq<u8>, r: Seq<(usize, usize)>) -> Seq<Seq<u8>> {
    Seq::new(r.len(), |k: int| b.subrange(r[k].0 as int, r[k].1 as int))
}

/// Each range lies within `b`, starts at the start or after an ASCII byte, and
/// ends at the end or before an ASCII byte.
pub open spec fn ranges_ascii_bounded(b: Seq<u8>, r: Seq<(usize, usize)>) -> bool {
    forall|k: int|
        0 <= k < r.len() ==> {
            &&& #[trigger] r[k].0 <= r[k].1 <= b.len()
            &&& r[k].0 == 0 || b[r[k].0 - 1] < 0x80
            &&& r[k].1 == b.len() || b[r[k].1 as int] < 0x80
        }
}

/// In valid UTF-8, an ASCII byte starts a character and the next position is
/// a character boundary too.
proof fn lemma_ascii_boundary(b: Seq<u8>, k: int)
    requires
        valid_utf8(b),
        0 <= k < b.len(),
        b[k] < 0x80,
    ensures
        is_char_boundary(b, k),
        is_char_boundary(b, k + 1),
    decreases b.len(),
{
    let l = length_of_first_scalar(b);
    let tail = pop_first_scalar(b);
    assert(valid_first_scalar(b));
    assert(valid_utf8(tail));
    if k == 0 {
        assert(l == 1);
        assert(is_char_boundary(tail, 0));
    } else {
        assert(l <= k) by {
            if k < l {
                assert(is_continuation_byte(b[k]));
            }
        }
        assert(tail[k - l] == b[k]);
        lemma_ascii_boundary(tail, k - l);
    }
}

/// A range of valid UTF-8 bounded by the ends or by ASCII bytes starts and
/// ends on character boundaries, within the prefix up to its end too.
proof fn lemma_range_boundaries(b: Seq<u8>, s: int, e: int)
    requires
        valid_utf8(b),
        0 <= s <= e <= b.len(),
        s == 0 || b[s - 1] < 0x80,
        e == b.len() || b[e] < 0x80,
    ensures
        is_char_boundary(b, e),
        valid_utf8(b.subrange(0, e)),
        is_char_boundary(b.subrange(0, e), s),
{
    if e == b.len() {
        is_char_boundary_start_end_of_seq(b);
    } else {
        lemma_ascii_boundary(b, e);
    }
    valid_utf8_split(b, e);
    let p = b.subrange(0, e);
    if s == 0 || s == e {
        is_char_boundary_start_end_of_seq(p);
    } else {
        assert(p[s - 1] == b[s - 1]);
        lemma_ascii_boundary(p, s - 1);
    }
}

proof fn lemma_dots(cur: Seq<u8>)
    ensures
        (cur == seq![0x2Eu8]) <==> (cur.len() == 1 && cur[0] == 0x2Eu8),
        (cur == seq![0x2Eu8, 0x2Eu8]) <==> (cur.len() == 2 && cur[0] == 0x2Eu8 && cur[1] == 0x2Eu8),
{
    if cur.len() == 1 && cur[0] == 0x2Eu8 {
        assert(cur =~= seq![0x2Eu8]);
    }
    if cur.len() == 2 && cur[0] == 0x2Eu8 && cur[1] == 0x2Eu8 {
        assert(cur =~= seq![0x2Eu8, 0x2Eu8]);
    }
}

proof fn lemma_sep_from(b: Seq<u8>, i: int)
    requires
        0 <= i <= b.len(),
    ensures
        i <= sep_from(b, i) <= b.len(),
        sep_from(b, i) < b.len() ==> is_sep(b[sep_from(b, i)]),
    decreases b.len() - i,
{
    if i < b.len() && !is_sep(b[i]) {
        lemma_sep_from(b, i + 1);
    }
}

/// The first separator at or after `i`, or the end (see [`sep_from`]).
fn sep_index_from(b: &[u8], i: usize) -> (j: usize)
    requires
        i <= b@.len(),
    ensures
        j == sep_from(b@, i as int),
{
    let mut j = i;
    while j < b.len() && !(b[j] == 0x5C || b[j] == 0x2F)
        invariant
            i <= j <= b@.len(),
            sep_from(b@, i as int) == sep_from(b@, j as int),
        decreases b@.len() - j,
    {
        j = j + 1;
    }
    j
}

fn has_unc_bytes(b: &[u8]) -> (r: bool)
    ensures
        r == has_unc(b@),
{
    b.len() >= 2 && (b[0] == 0x5C || b[0] == 0x2F) && (b[1] == 0x5C || b[1] == 0x2F) && !(b.len() >= 4 && (
    b[2] == 0x3F || b[2] == 0x2E) && (b[3] == 0x5C || b[3] == 0x2F))
}

fn has_drive_bytes(b: &[u8]) -> (r: bool)
    ensures
        r == has_drive(b@),
{
    b.len() >= 2 && ((0x41 <= b[0] && b[0] <= 0x5A) || (0x61 <= b[0] && b[0] <= 0x7A)) && b[1] == 0x3A
}

/// The end of the server and of the whole UNC prefix.
fn unc_ends(b: &[u8]) -> (r: (usize, usize))
    requires
        has_unc(b@),
    ensures
        r.0 == unc_server_end(b@),
        r.1 == unc_end(b@),
        2 <= r.0 <= r.1 <= b@.len(),
        r.0 < b@.len() ==> r.0 < r.1 && is_sep(b@[r.0 as int]),
        r.1 < b@.len() ==> is_sep(b@[r.1 as int]),
{
    let se = sep_index_from(b, 2);
    proof {
        lemma_sep_from(b@, 2);
    }
    if se < b.len() {
        let e = sep_index_from(b, se + 1);
        proof {
            lemma_sep_from(b@, se + 1);
        }
        (se, e)
    } else {
        (se, se)
    }
}

/// Where the components start (see [`parts_start`]).
fn prefix_end(b: &[u8]) -> (p: usize)
    ensures
        p == parts_start(b@),
        p <= b@.len(),
        p == 0 || b@[p - 1] < 0x80 || p == b@.len() || is_sep(b@[p as int]),
{
    if has_drive_bytes(b) {
        2
    } else if has_unc_bytes(b) {
        let (_se, e) = unc_ends(b);
        e
    } else {
        0
    }
}

/// The named component ranges of `b` (see [`normal_parts`]).
fn part_ranges(b: &[u8]) -> (r: Vec<(usize, usize)>)
    ensures
        range_parts(b@, r@) == normal_parts(b@),
        ranges_ascii_bounded(b@, r@),
{
    let n = b.len();
    let p0: usize = prefix_end(b);
    let mut r: Vec<(usize, usize)> = Vec::new();
    let mut cur_start: usize = p0;
    let mut i: usize = p0;
    assert(b@.subrange(p0 as int, p0 as int) =~= Seq::<u8>::empty());
    assert(range_parts(b@, r@) =~= Seq::<Seq<u8>>::empty());
    assert(range_parts(b@, r@) + normal_parts(b@) =~= normal_parts(b@));
    while i < n
        invariant
            n == b@.len(),
            p0 <= cur_start <= i <= n,
            p0 == parts_start(b@),
            p0 == 0 || b@[p0 - 1] < 0x80 || p0 == n || is_sep(b@[p0 as int]),
            cur_start == p0 || b@[cur_start - 1] < 0x80,
            cur_start == p0 && p0 > 0 && b@[p0 - 1] >= 0x80 ==> i == p0,
            ranges_ascii_bounded(b@, r@),
            range_parts(b@, r@) + parts_from(
                b@.subrange(i as int, n as int),
                b@.subrange(cur_start as int, i as int),
            ) == normal_parts(b@),
        decreases n - i,
    {
        let ghost rest = b@.subrange(i as int, n as int);
        let ghost cur = b@.subrange(cur_start as int, i as int);
        assert(rest.drop_first() =~= b@.subrange(i + 1, n as int));
        if b[i] == 0x5C || b[i] == 0x2F {
            let len = i - cur_start;
            let is_dot = len == 1 && b[cur_start] == 0x2E;
            let is_dot_dot = len == 2 && b[cur_start] == 0x2E && b[cur_start + 1] == 0x2E;
            proof {
                lemma_dots(cur);
            }
            let ghost old_r = r@;
            if len > 0 && !is_dot && !is_dot_dot {
                r.push((cur_start, i));
                assert(range_parts(b@, r@) =~= range_parts(b@, old_r) + seq![cur]);
            } else {
                assert(kept(cur) =~= Seq::<Seq<u8>>::empty());
            }
            assert(range_parts(b@, r@) =~= range_parts(b@, old_r) + kept(cur));
            assert(b@.subrange(i + 1, i + 1) =~= Seq::<u8>::empty());
            cur_start = i + 1;
        } else {
            assert(cur.push(b@[i as int]) =~= b@.subrange(cur_start as int, i + 1));
        }
        i = i + 1;
    }
    let ghost cur = b@.subrange(cur_start as int, n as int);
    let len = n - cur_start;
    let is_dot = len == 1 && b[cur_start] == 0x2E;
    let is_dot_dot = len == 2 && b[cur_start] == 0x2E && b[cur_start + 1] == 0x2E;
    proof {
        lemma_dots(cur);
        assert(b@.subrange(n as int, n as int) =~= Seq::<u8>::empty());
    }
    let ghost old_r = r@;
    if len > 0 && !is_dot && !is_dot_dot {
        r.push((cur_start, n));
        assert(range_parts(b@, r@) =~= range_parts(b@, old_r) + seq![cur]);
    } else {
        assert(kept(cur) =~= Seq::<Seq<u8>>::empty());
    }
    assert(range_parts(b@, r@) =~= range_parts(b@, old_r) + kept(cur));
    r
}

/// `p` as a one-element list when it is not empty.
pub open spec fn nonempty(p: Seq<u8>) -> Seq<Seq<u8>> {
    if p.len() > 0 {
        seq![p]
    } else {
        Seq::empty()
    }
}

/// The non-empty pieces of `b` between separators, the current unfinished
/// one being `cur`.
pub open spec fn pieces_from(b: Seq<u8>, cur: Seq<u8>) -> Seq<Seq<u8>>
    decreases b.len(),
{
    if b.len() == 0 {
        nonempty(cur)
    } else if is_sep(b[0]) {
        nonempty(cur) + pieces_from(b.drop_first(), Seq::empty())
    } else {
        pieces_from(b.drop_first(), cur.push(b[0]))
    }
}

/// The non-empty pieces of a path between its `\` and `/` separators.
pub open spec fn path_pieces(b: Seq<u8>) -> Seq<Seq<u8>> {
    pieces_from(b, Seq::empty())
}

/// The ranges of the non-empty pieces of `b` (see [`path_pieces`]).
fn piece_ranges(b: &[u8]) -> (r: Vec<(usize, usize)>)
    ensures
        range_parts(b@, r@) == path_pieces(b@),
        ranges_ascii_bounded(b@, r@),
{
    let n = b.len();
    let mut r: Vec<(usize, usize)> = Vec::new();
    let mut cur_start: usize = 0;
    let mut i: usize = 0;
    assert(b@.subrange(0, 0) =~= Seq::<u8>::empty());
    assert(b@.subrange(0, n as int) =~= b@);
    assert(range_parts(b@, r@) =~= Seq::<Seq<u8>>::empty());
    assert(range_parts(b@, r@) + path_pieces(b@) =~= path_pieces(b@));
    while i < n
        invariant
            n == b@.len(),
            cur_start <= i <= n,
            cur_start == 0 || b@[cur_start - 1] < 0x80,
            ranges_ascii_bounded(b@, r@),
            range_parts(b@, r@) + pieces_from(
                b@.subrange(i as int, n as int),
                b@.subrange(cur_start as int, i as int),
            ) == path_pieces(b@),
        decreases n - i,
    {
        let ghost rest = b@.subrange(i as int, n as int);
        let ghost cur = b@.subrange(cur_start as int, i as int);
        assert(rest.drop_first() =~= b@.subrange(i + 1, n as int));
        if b[i] == 0x5C || b[i] == 0x2F {
            let ghost old_r = r@;
            if i > cur_start {
                r.push((cur_start, i));
                assert(range_parts(b@, r@) =~= range_parts(b@, old_r) + seq![cur]);
            } else {
                assert(nonempty(cur) =~= Seq::<Seq<u8>>::empty());
            }
            assert(range_parts(b@, r@) =~= range_parts(b@, old_r) + nonempty(cur));
            assert(b@.subrange(i + 1, i + 1) =~= Seq::<u8>::empty());
            cur_start = i + 1;
        } else {
            assert(cur.push(b@[i as int]) =~= b@.subrange(cur_start as int, i + 1));
        }
        i = i + 1;
    }
    let ghost cur = b@.subrange(cur_start as int, n as int);
    proof {
        assert(b@.subrange(n as int, n as int) =~= Seq::<u8>::empty());
    }
    let ghost old_r = r@;
    if n > cur_start {
        r.push((cur_start, n));
        assert(range_parts(b@, r@) =~= range_parts(b@, old_r) + seq![cur]);
    } else {
        assert(nonempty(cur) =~= Seq::<Seq<u8>>::empty());
    }
    assert(range_parts(b@, r@) =~= range_parts(b@, old_r) + nonempty(cur));
    r
}

/// The non-empty pieces of `s` between its `\` and `/` separators.
pub(crate) fn path_pieces_of(s: &str) -> (r: Vec<String>)
    ensures
        r@.len() == path_pieces(encode_utf8(s@)).len(),
        forall|k: int| 0 <= k < r@.len() ==> encode_utf8(#[trigger] r@[k]@) == path_pieces(encode_utf8(s@))[k],
{
    let b = str_bytes(s);
    let ranges = piece_ranges(b);
    let ghost pieces = path_pieces(b@);
    let mut out: Vec<String> = Vec::new();
    let mut k: usize = 0;
    while k < ranges.len()
        invariant
            b@ == encode_utf8(s@),
            pieces == path_pieces(b@),
            range_parts(b@, ranges@) == pieces,
            ranges_ascii_bounded(b@, ranges@),
            k <= ranges@.len(),
            out@.len() == k,
            forall|j: int| 0 <= j < k ==> encode_utf8(#[trigger] out@[j]@) == pieces[j],
        decreases ranges@.len() - k,
    {
        let (st, en) = ranges[k];
        let p = piece(s, st, en);
        proof {
            assert(ranges@[k as int].0 <= ranges@[k as int].1 <= b@.len());
            assert(pieces[k as int] == b@.subrange(st as int, en as int));
        }
        out.push(p.to_string());
        k = k + 1;
    }
    out
}

/// The part of `s` between two byte positions that lie at the ends or next to
/// ASCII bytes.
pub(crate) fn piece(s: &str, start: usize, end: usize) -> (r: &str)
    requires
        start <= end <= encode_utf8(s@).len(),
        start == 0 || encode_utf8(s@)[start - 1] < 0x80,
        end == encode_utf8(s@).len() || encode_utf8(s@)[end as int] < 0x80,
    ensures
        encode_utf8(r@) == encode_utf8(s@).subrange(start as int, end as int),
{
    let ghost b = encode_utf8(s@);
    proof {
        encode_utf8_valid_utf8(s@);
        lemma_range_boundaries(b, start as int, end as int);
    }
    let (head, _rest) = str_tail(s, end);
    assert(encode_utf8(head@) == b.subrange(0, end as int));
    let (_lead, p) = str_tail(head, start);
    assert(b.subrange(0, end as int).subrange(start as int, end as int) =~= b.subrange(
        start as int,
        end as int,
    ));
    p
}

proof fn lemma_join_push(items: Seq<Seq<u8>>, c: int)
    requires
        0 <= c < items.len(),
    ensures
        join_parts(items.take(c + 1)) == if c == 0 {
            items[0]
        } else {
            join_parts(items.take(c)) + seq![0x5Cu8] + items[c]
        },
{
    assert(items.take(c + 1).drop_last() =~= items.take(c));
    assert(items.take(c + 1).last() == items[c]);
}

proof fn lemma_sep_valid(out: Seq<u8>)
    requires
        valid_utf8(out),
    ensures
        valid_utf8(out + seq![0x5Cu8]),
        valid_utf8(out + seq![0x2Eu8, 0x2Eu8]),
{
    lemma_ascii_valid_utf8(seq![0x5Cu8]);
    lemma_ascii_valid_utf8(seq![0x2Eu8, 0x2Eu8]);
    valid_utf8_concat(out, seq![0x5Cu8]);
    valid_utf8_concat(out, seq![0x2Eu8, 0x2Eu8]);
}

fn is_absolute_bytes(b: &[u8]) -> (r: bool)
    ensures
        r == is_absolute_path(b@),
{
    (has_drive_bytes(b) && b.len() > 2 && (b[2] == 0x5C || b[2] == 0x2F)) || has_unc_bytes(b)
}

fn prefixes_differ_bytes(f: &[u8], t: &[u8]) -> (r: bool)
    requires
        is_absolute_path(f@),
        is_absolute_path(t@),
    ensures
        r == prefixes_differ(f@, t@),
{
    if has_drive_bytes(f) && has_drive_bytes(t) {
        ascii_lower_byte(f[0]) != ascii_lower_byte(t[0])
    } else if has_unc_bytes(f) && has_unc_bytes(t) {
        let (fs, fe) = unc_ends(f);
        let (ts, te) = unc_ends(t);
        let same_server = slices_equal(&f[2..fs], &t[2..ts]);
        let fsh: &[u8] = if fs < f.len() { &f[fs + 1..fe] } else { &f[0..0] };
        let tsh: &[u8] = if ts < t.len() { &t[ts + 1..te] } else { &t[0..0] };
        assert(fsh@ =~= unc_share(f@));
        assert(tsh@ =~= unc_share(t@));
        let same_share = slices_equal(fsh, tsh);
        !same_server || !same_share
    } else {
        true
    }
}

/// The path of `to_path` relative to the directory `from_directory` (see
/// [`relative_spec`]).
pub fn make_relative(from_directory: &str, to_path: &str) -> (r: String)
    ensures
        encode_utf8(r@) == relative_spec(encode_utf8(from_directory@), encode_utf8(to_path@)),
{
    let fb = str_bytes(from_directory);
    let tb = str_bytes(to_path);
    if is_absolute_bytes(fb) && is_absolute_bytes(tb) && prefixes_differ_bytes(fb, tb) {
        return to_path.to_string();
    }
    let fr = part_ranges(fb);
    let tr = part_ranges(tb);
    let ghost fp = normal_parts(fb@);
    let ghost tp = normal_parts(tb@);
    assert(fr@.len() == fp.len() && tr@.len() == tp.len()) by {
        assert(range_parts(fb@, fr@).len() == fr@.len());
        assert(range_parts(tb@, tr@).len() == tr@.len());
    }
    let length = if fr.len() < tr.len() {
        fr.len()
    } else {
        tr.len()
    };
    let mut k: usize = 0;
    while k < length
        invariant
            length <= fr@.len(),
            length <= tr@.len(),
            fr@.len() == fp.len(),
            tr@.len() == tp.len(),
            range_parts(fb@, fr@) == fp,
            range_parts(tb@, tr@) == tp,
            ranges_ascii_bounded(fb@, fr@),
            ranges_ascii_bounded(tb@, tr@),
            k <= length,
            common_from(fp, tp, 0) == common_from(fp, tp, k as int),
        ensures
            k == length || !ascii_ci_eq(fp[k as int], tp[k as int]),
            k <= length,
            common_from(fp, tp, 0) == common_from(fp, tp, k as int),
        decreases length - k,
    {
        let (fs, fe) = fr[k];
        let (ts, te) = tr[k];
        assert(fp[k as int] == fb@.subrange(fs as int, fe as int));
        assert(tp[k as int] == tb@.subrange(ts as int, te as int));
        let same = eq_ignore_ascii_case(&fb[fs..fe], &tb[ts..te]);
        if !same {
            break;
        }
        k = k + 1;
    }
    assert(common_from(fp, tp, k as int) == k);
    if k == 0 {
        return to_path.to_string();
    }
    let ghost items = Seq::new((fp.len() - k) as nat, |i: int| dot_dot()) + tp.subrange(
        k as int,
        tp.len() as int,
    );
    let mut out: Vec<u8> = Vec::new();
    let ghost mut count: int = 0;
    let mut nonempty = false;
    let mut j: usize = k;
    assert(items.take(0) =~= Seq::<Seq<u8>>::empty());
    proof {
        lemma_ascii_valid_utf8(Seq::<u8>::empty());
    }
    while j < fr.len()
        invariant
            k <= j <= fr@.len(),
            fr@.len() == fp.len(),
            count == j - k,
            nonempty == (count > 0),
            items == Seq::new((fp.len() - k) as nat, |i: int| dot_dot()) + tp.subrange(
                k as int,
                tp.len() as int,
            ),
            out@ == join_parts(items.take(count)),
            valid_utf8(out@),
            k <= tp.len(),
        decreases fr@.len() - j,
    {
        proof {
            lemma_join_push(items, count);
            lemma_sep_valid(out@);
        }
        let ghost before = out@;
        if nonempty {
            out.push(0x5C);
            assert(out@ =~= before + seq![0x5Cu8]);
        }
        let ghost mid = out@;
        proof {
            lemma_sep_valid(mid);
        }
        out.push(0x2E);
        out.push(0x2E);
        assert(out@ =~= mid + seq![0x2Eu8, 0x2Eu8]);
        assert(items[count] == dot_dot());
        assert(out@ =~= join_parts(items.take(count + 1)));
        proof {
            count = count + 1;
        }
        nonempty = true;
        j = j + 1;
    }
    let mut t: usize = k;
    while t < tr.len()
        invariant
            k <= t <= tr@.len(),
            tr@.len() == tp.len(),
            fr@.len() == fp.len(),
            k <= fp.len(),
            count == (fp.len() - k) + (t - k),
            nonempty == (count > 0),
            items == Seq::new((fp.len() - k) as nat, |i: int| dot_dot()) + tp.subrange(
                k as int,
                tp.len() as int,
            ),
            out@ == join_parts(items.take(count)),
            valid_utf8(out@),
            range_parts(tb@, tr@) == tp,
            ranges_ascii_bounded(tb@, tr@),
            tb@ == encode_utf8(to_path@),
        decreases tr@.len() - t,
    {
        let (ts, te) = tr[t];
        let p = piece(to_path, ts, te);
        let pb = str_bytes(p);
        assert(pb@ == tp[t as int]);
        assert(items[count] == tp[t as int]);
        proof {
            lemma_join_push(items, count);
            lemma_sep_valid(out@);
        }
        let ghost before = out@;
        if nonempty {
            out.push(0x5C);
            assert(out@ =~= before + seq![0x5Cu8]);
        }
        let ghost mid = out@;
        push_bytes(&mut out, pb);
        proof {
            valid_utf8_concat(mid, pb@);
        }
        assert(out@ =~= join_parts(items.take(count + 1)));
        proof {
            count = count + 1;
        }
        nonempty = true;
        t = t + 1;
    }
    assert(items.take(count) =~= items);
    string_from_utf8(out)
}

} // verus!
