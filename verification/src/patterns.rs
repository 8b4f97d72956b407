//! Ignore patterns: the "ignore:" prefix that marks scan-time patterns, the
//! "regex:" prefix for case-insensitive regular expressions, `*` / `?`
//! wildcards, and literal names. Where a name is matched as on Windows
//! (the scan-time matcher and the ignore test of a status reset), ASCII case
//! is ignored for wildcards and literal names too.

use vstd::prelude::*;
use vstd::utf8::*;
use crate::arr_byte::slices_equal;
use crate::text::{ascii_ci_eq, ascii_lower_seq, contains_byte, eq_ignore_ascii_case, lower_bytes, str_bytes, str_tail, str_trim, trim_chars};

verus! {

/// The prefix "ignore:" as bytes.
pub open spec fn ignore_prefix() -> Seq<u8> {
    seq![0x69u8, 0x67u8, 0x6eu8, 0x6fu8, 0x72u8, 0x65u8, 0x3au8]
}

/// The prefix "regex:" as bytes.
pub open spec fn regex_prefix() -> Seq<u8> {
    seq![0x72u8, 0x65u8, 0x67u8, 0x65u8, 0x78u8, 0x3au8]
}

/// The bytes of a string (as characters) begin with `prefix`, up to ASCII case.
pub open spec fn has_ci_prefix(b: Seq<u8>, prefix: Seq<u8>) -> bool {
    b.len() >= prefix.len() && ascii_ci_eq(b.subrange(0, prefix.len() as int), prefix)
}

/// Byte slicing of `s` at `at` does not split a character (when `s` is that long).
pub open spec fn boundary_ok(s: Seq<char>, at: int) -> bool {
    encode_utf8(s).len() >= at ==> is_char_boundary(encode_utf8(s), at)
}

/// The characters after the first `n` bytes of `s`.
pub open spec fn chars_after(s: Seq<char>, n: int) -> Seq<char> {
    decode_utf8(encode_utf8(s).subrange(n, encode_utf8(s).len() as int))
}

/// The scan-time pattern of a configured pattern: the trimmed text after an
/// "ignore:" prefix (any ASCII case), if the trimmed pattern has that prefix.
pub open spec fn scan_pattern_spec(raw: Seq<char>) -> Option<Seq<char>> {
    let s = trim_chars(raw);
    if has_ci_prefix(encode_utf8(s), ignore_prefix()) {
        Some(trim_chars(chars_after(s, 7)))
    } else {
        None
    }
}

/// The database pattern of a configured pattern: the trimmed pattern, unless it
/// is a scan-time ("ignore:") pattern.
pub open spec fn db_pattern_spec(raw: Seq<char>) -> Option<Seq<char>> {
    let s = trim_chars(raw);
    if has_ci_prefix(encode_utf8(s), ignore_prefix()) {
        None
    } else {
        Some(s)
    }
}

fn ignore_prefix_bytes() -> (r: [u8; 7])
    ensures
        r@ == ignore_prefix(),
{
    let r: [u8; 7] = [0x69, 0x67, 0x6e, 0x6f, 0x72, 0x65, 0x3a];
    assert(r@ =~= ignore_prefix());
    r
}

fn regex_prefix_bytes() -> (r: [u8; 6])
    ensures
        r@ == regex_prefix(),
{
    let r: [u8; 6] = [0x72, 0x65, 0x67, 0x65, 0x78, 0x3a];
    assert(r@ =~= regex_prefix());
    r
}

/// The scan-time pattern in `raw`: `raw` trimmed must start with "ignore:" (any
/// ASCII case); the rest, trimmed, is returned.
pub fn extract_scan_pattern(raw: &str) -> (res: Option<&str>)
    requires
        boundary_ok(trim_chars(raw@), 7),
    ensures
        opt_chars(res) == scan_pattern_spec(raw@),
{
    let s = str_trim(raw);
    let b = str_bytes(s);
    if b.len() < 7 {
        return None;
    }
    let (head, tail) = str_tail(s, 7);
    let hb = str_bytes(head);
    let prefix = ignore_prefix_bytes();
    if eq_ignore_ascii_case(hb, &prefix) {
        Some(str_trim(tail))
    } else {
        None
    }
}

/// The characters of an optional string slice.
pub open spec fn opt_chars(r: Option<&str>) -> Option<Seq<char>> {
    match r {
        Some(s) => Some(s@),
        None => None,
    }
}

/// The database pattern in `raw`: `raw` trimmed, unless it starts with "ignore:"
/// (any ASCII case).
pub fn extract_db_pattern(raw: &str) -> (res: Option<&str>)
    requires
        boundary_ok(trim_chars(raw@), 7),
    ensures
        opt_chars(res) == db_pattern_spec(raw@),
{
    let s = str_trim(raw);
    let b = str_bytes(s);
    if b.len() >= 7 {
        let (head, _tail) = str_tail(s, 7);
        let hb = str_bytes(head);
        let prefix = ignore_prefix_bytes();
        if eq_ignore_ascii_case(hb, &prefix) {
            return None;
        }
    }
    Some(s)
}

/// Runs the greedy wildcard matcher from pattern position `pi`, text position
/// `ti` and the last star seen (its pattern position and the text position its
/// current attempt starts at). `?` matches one byte, `*` any run of bytes; any
/// other pattern byte, and `*` or `?` against the same byte in the text, match
/// themselves. On a mismatch the last star takes one more byte. This is the
/// matcher's own rule: because a pattern `*` first tries to match a `*` in
/// the name as a byte and the choice is never undone, the pattern `*` does
/// not match the name `*a`. It accepts only what [`glob_matches`] accepts,
/// and for names without a `*` exactly that
/// ([`law_wildcard_match_is_a_glob_match`],
/// [`law_wildcard_match_is_glob_match_without_stars`]).
pub open spec fn wildcard_run(p: Seq<u8>, t: Seq<u8>, pi: int, ti: int, star: Option<(int, int)>) -> bool
    decreases t.len() - (match star {
        Some((sp, st)) => st,
        None => 0,
    }), t.len() - ti, p.len() - pi,
{
    if !(0 <= pi <= p.len() && 0 <= ti <= t.len() && (star matches Some((sp, st)) ==> 0 <= sp < pi
        && 0 <= st <= ti)) {
        false
    } else if ti >= t.len() {
        forall|k: int| pi <= k < p.len() ==> p[k] == 0x2a
    } else if pi < p.len() && (p[pi] == 0x3f || p[pi] == t[ti]) {
        wildcard_run(p, t, pi + 1, ti + 1, star)
    } else if pi < p.len() && p[pi] == 0x2a {
        wildcard_run(p, t, pi + 1, ti, Some((pi, ti)))
    } else {
        match star {
            Some((sp, st)) => wildcard_run(p, t, sp + 1, st + 1, Some((sp, st + 1))),
            None => false,
        }
    }
}

/// Whether `text` matches the wildcard `pattern` (by bytes).
pub open spec fn wildcard_matches(pattern: Seq<u8>, text: Seq<u8>) -> bool {
    wildcard_run(pattern, text, 0, 0, None)
}

/// `t[j..]` matches `p[i..]` read as a glob: `?` stands for any one byte,
/// `*` for any run of bytes, every other byte for itself.
pub open spec fn glob_from(p: Seq<u8>, t: Seq<u8>, i: int, j: int) -> bool
    decreases p.len() - i, t.len() - j,
{
    if !(0 <= i <= p.len() && 0 <= j <= t.len()) {
        false
    } else if i == p.len() {
        j == t.len()
    } else if p[i] == 0x2a {
        glob_from(p, t, i + 1, j) || (j < t.len() && glob_from(p, t, i, j + 1))
    } else {
        j < t.len() && (p[i] == 0x3f || p[i] == t[j]) && glob_from(p, t, i + 1, j + 1)
    }
}

/// `t` matches the pattern `p` read as a glob.
pub open spec fn glob_matches(p: Seq<u8>, t: Seq<u8>) -> bool {
    glob_from(p, t, 0, 0)
}

proof fn lemma_trailing_stars(p: Seq<u8>, t: Seq<u8>, i: int)
    requires
        0 <= i <= p.len(),
        forall|k: int| i <= k < p.len() ==> p[k] == 0x2a,
    ensures
        glob_from(p, t, i, t.len() as int),
    decreases p.len() - i,
{
    if i < p.len() {
        lemma_trailing_stars(p, t, i + 1);
    }
}

proof fn lemma_run_is_glob(p: Seq<u8>, t: Seq<u8>, pi: int, ti: int, star: Option<(int, int)>)
    requires
        wildcard_run(p, t, pi, ti, star),
        glob_from(p, t, pi, ti) ==> glob_matches(p, t),
        star matches Some((sp, st)) ==> p[sp] == 0x2a && (glob_from(p, t, sp, st) ==> glob_matches(p, t)),
    ensures
        glob_matches(p, t),
    decreases t.len() - (match star {
        Some((sp, st)) => st,
        None => 0,
    }), t.len() - ti, p.len() - pi,
{
    if ti >= t.len() {
        lemma_trailing_stars(p, t, pi);
    } else if pi < p.len() && (p[pi] == 0x3f || p[pi] == t[ti]) {
        if glob_from(p, t, pi + 1, ti + 1) && p[pi] == 0x2a {
            assert(glob_from(p, t, pi, ti + 1));
            assert(glob_from(p, t, pi, ti));
        }
        lemma_run_is_glob(p, t, pi + 1, ti + 1, star);
    } else if pi < p.len() && p[pi] == 0x2a {
        lemma_run_is_glob(p, t, pi + 1, ti, Some((pi, ti)));
    } else {
        match star {
            Some((sp, st)) => {
                if glob_from(p, t, sp, st + 1) {
                    assert(glob_from(p, t, sp, st));
                }
                if glob_from(p, t, sp + 1, st + 1) {
                    assert(glob_from(p, t, sp, st + 1));
                }
                lemma_run_is_glob(p, t, sp + 1, st + 1, Some((sp, st + 1)));
            },
            None => {},
        }
    }
}

/// The wildcard matcher accepts only names that the pattern, read as a glob,
/// matches. The converse fails where the name holds a `*`: the pattern `*`
/// does not accept the name `*a` (see [`wildcard_run`]).
pub proof fn law_wildcard_match_is_a_glob_match(p: Seq<u8>, t: Seq<u8>)
    requires
        wildcard_matches(p, t),
    ensures
        glob_matches(p, t),
{
    lemma_run_is_glob(p, t, 0, 0, None);
}

proof fn lemma_star_split(p: Seq<u8>, t: Seq<u8>, i: int, j: int)
    requires
        0 <= i < p.len(),
        p[i] == 0x2a,
        glob_from(p, t, i, j),
    ensures
        exists|k: int| j <= k <= t.len() && #[trigger] glob_from(p, t, i + 1, k),
    decreases t.len() - j,
{
    if glob_from(p, t, i + 1, j) {
        assert(j <= t.len());
    } else {
        lemma_star_split(p, t, i, j + 1);
    }
}

proof fn lemma_skip_plain(p: Seq<u8>, t: Seq<u8>, i: int, j: int, n: int)
    requires
        0 <= n,
        i + n <= p.len(),
        forall|k: int| i <= k < i + n ==> p[k] != 0x2a,
        glob_from(p, t, i, j),
    ensures
        glob_from(p, t, i + n, j + n),
    decreases n,
{
    if n > 0 {
        assert(p[i] != 0x2a);
        assert(glob_from(p, t, i + 1, j + 1));
        lemma_skip_plain(p, t, i + 1, j + 1, n - 1);
    }
}

proof fn lemma_star_absorb(p: Seq<u8>, t: Seq<u8>, i: int, a: int, b: int)
    requires
        0 <= i < p.len(),
        p[i] == 0x2a,
        glob_from(p, t, i, a),
        0 <= b <= a,
    ensures
        glob_from(p, t, i, b),
    decreases a - b,
{
    if b < a {
        lemma_star_absorb(p, t, i, a, b + 1);
    }
}

proof fn lemma_glob_end_stars(p: Seq<u8>, t: Seq<u8>, i: int)
    requires
        glob_from(p, t, i, t.len() as int),
    ensures
        forall|k: int| i <= k < p.len() ==> p[k] == 0x2a,
    decreases p.len() - i,
{
    if i < p.len() {
        assert(p[i] == 0x2a);
        assert(glob_from(p, t, i + 1, t.len() as int));
        lemma_glob_end_stars(p, t, i + 1);
    }
}

proof fn lemma_glob_is_run(p: Seq<u8>, t: Seq<u8>, pi: int, ti: int, star: Option<(int, int)>)
    requires
        forall|k: int| 0 <= k < t.len() ==> t[k] != 0x2a,
        0 <= pi <= p.len(),
        0 <= ti <= t.len(),
        match star {
            None => glob_from(p, t, pi, ti),
            Some((sp, st)) => 0 <= sp < pi && 0 <= st <= ti && p[sp] == 0x2a && glob_from(p, t, sp, st)
                && ti - st == pi - sp - 1 && forall|k: int| sp < k < pi ==> p[k] != 0x2a,
        },
    ensures
        wildcard_run(p, t, pi, ti, star),
    decreases t.len() - (match star {
        Some((sp, st)) => st,
        None => 0,
    }), t.len() - ti, p.len() - pi,
{
    if ti >= t.len() {
        match star {
            None => {
                lemma_glob_end_stars(p, t, pi);
            },
            Some((sp, st)) => {
                lemma_star_split(p, t, sp, st);
                let j = choose|j: int| st <= j <= t.len() && #[trigger] glob_from(p, t, sp + 1, j);
                lemma_skip_plain(p, t, sp + 1, j, pi - sp - 1);
                lemma_glob_end_stars(p, t, pi);
            },
        }
    } else if pi < p.len() && (p[pi] == 0x3f || p[pi] == t[ti]) {
        assert(p[pi] != 0x2a);
        match star {
            None => {
                assert(glob_from(p, t, pi + 1, ti + 1));
            },
            Some(_) => {},
        }
        lemma_glob_is_run(p, t, pi + 1, ti + 1, star);
    } else if pi < p.len() && p[pi] == 0x2a {
        match star {
            None => {},
            Some((sp, st)) => {
                lemma_star_split(p, t, sp, st);
                let j = choose|j: int| st <= j <= t.len() && #[trigger] glob_from(p, t, sp + 1, j);
                lemma_skip_plain(p, t, sp + 1, j, pi - sp - 1);
                lemma_star_absorb(p, t, pi, j + pi - sp - 1, ti);
            },
        }
        lemma_glob_is_run(p, t, pi + 1, ti, Some((pi, ti)));
    } else {
        match star {
            None => {
                assert(!glob_from(p, t, pi, ti));
            },
            Some((sp, st)) => {
                if glob_from(p, t, sp + 1, st) {
                    lemma_skip_plain(p, t, sp + 1, st, pi - sp - 1);
                    assert(!glob_from(p, t, pi, ti));
                }
                assert(glob_from(p, t, sp, st + 1));
                lemma_glob_is_run(p, t, sp + 1, st + 1, Some((sp, st + 1)));
            },
        }
    }
}

/// For a name without a `*`, the wildcard matcher accepts exactly the names
/// that the pattern, read as a glob, matches.
pub proof fn law_wildcard_match_is_glob_match_without_stars(p: Seq<u8>, t: Seq<u8>)
    requires
        forall|k: int| 0 <= k < t.len() ==> t[k] != 0x2a,
    ensures
        wildcard_matches(p, t) == glob_matches(p, t),
{
    if wildcard_matches(p, t) {
        lemma_run_is_glob(p, t, 0, 0, None);
    }
    if glob_matches(p, t) {
        lemma_glob_is_run(p, t, 0, 0, None);
    }
}

/// The last star seen by the matcher, as pattern and text positions.
pub open spec fn star_view(sp: Option<usize>, st: usize) -> Option<(int, int)> {
    match sp {
        Some(x) => Some((x as int, st as int)),
        None => None,
    }
}

fn wildcard_match(pattern: &str, text: &str) -> (res: bool)
    ensures
        res == wildcard_matches(encode_utf8(pattern@), encode_utf8(text@)),
{
    wildcard_match_bytes(str_bytes(pattern), str_bytes(text))
}

fn wildcard_match_bytes(p: &[u8], t: &[u8]) -> (res: bool)
    ensures
        res == wildcard_matches(p@, t@),
{
    let mut pi: usize = 0;
    let mut ti: usize = 0;
    let mut star_match_pi: Option<usize> = None;
    let mut star_match_ti: usize = 0;

    while ti < t.len()
        invariant
            pi <= p@.len(),
            ti <= t@.len(),
            star_match_pi matches Some(x) ==> x < pi && star_match_ti <= ti,
            wildcard_matches(p@, t@) == wildcard_run(
                p@,
                t@,
                pi as int,
                ti as int,
                star_view(star_match_pi, star_match_ti),
            ),
        decreases t@.len() - (match star_match_pi {
            Some(x) => star_match_ti as int,
            None => 0,
        }), t@.len() - ti, p@.len() - pi,
    {
        if pi < p.len() && (p[pi] == 0x3f || p[pi] == t[ti]) {
            pi = pi + 1;
            ti = ti + 1;
            continue;
        }
        if pi < p.len() && p[pi] == 0x2a {
            star_match_pi = Some(pi);
            star_match_ti = ti;
            pi = pi + 1;
            continue;
        }
        if let Some(star_pi) = star_match_pi {
            pi = star_pi + 1;
            star_match_ti = star_match_ti + 1;
            ti = star_match_ti;
            continue;
        }
        return false;
    }

    let ghost end_pi = pi;
    while pi < p.len() && p[pi] == 0x2a
        invariant
            end_pi <= pi <= p@.len(),
            forall|k: int| end_pi <= k < pi ==> p@[k] == 0x2a,
        decreases p@.len() - pi,
    {
        pi = pi + 1;
    }
    pi == p.len()
}

/// Whether the regex crate compiles `expr` as a case-insensitive regular expression.
pub uninterp spec fn regex_ci_builds(expr: Seq<char>) -> bool;

/// Whether the case-insensitive regular expression compiled from `expr` finds a
/// match anywhere in `text`.
pub uninterp spec fn regex_ci_matches(expr: Seq<char>, text: Seq<char>) -> bool;

#[verifier::external_type_specification]
#[verifier::external_body]
pub struct ExRegex(regex::Regex);

/// A compiled case-insensitive regular expression and the text it was compiled from.
pub struct CaseInsensitiveRegex {
    re: regex::Regex,
    source: String,
}

impl CaseInsensitiveRegex {
    /// The text the expression was compiled from.
    pub closed spec fn source(&self) -> Seq<char> {
        self.source@
    }
}

/// Compiles `expr` case-insensitively (wraps `RegexBuilder::new(expr)
/// .case_insensitive(true).build()`). Claims only that the result is present
/// exactly when that build succeeds, and that it remembers `expr`.
#[verifier::external_body]
fn build_case_insensitive_regex(expr: &str) -> (res: Option<CaseInsensitiveRegex>)
    ensures
        res is Some <==> regex_ci_builds(expr@),
        res matches Some(r) ==> r.source() == expr@,
{
    match regex::RegexBuilder::new(expr).case_insensitive(true).build() {
        Ok(re) => Some(CaseInsensitiveRegex { re, source: expr.to_string() }),
        Err(_) => None,
    }
}

/// Whether the compiled expression matches somewhere in `text` (wraps
/// `Regex::is_match`). Claims that the answer is a function of the source
/// expression and the text.
#[verifier::external_body]
fn regex_is_match(r: &CaseInsensitiveRegex, text: &str) -> (res: bool)
    ensures
        res == regex_ci_matches(r.source(), text@),
{
    r.re.is_match(text)
}

/// Whether `name` matches one configured pattern: "regex:" (any ASCII case)
/// followed by a non-empty case-insensitive regular expression that compiles and
/// matches; else a pattern with `*` or `?` matched as a wildcard; else the
/// pattern itself.
pub open spec fn pattern_matches_spec(pattern: Seq<char>, name: Seq<char>) -> bool {
    let p = trim_chars(pattern);
    let pb = encode_utf8(p);
    if has_ci_prefix(pb, regex_prefix()) {
        let expr = trim_chars(chars_after(p, 6));
        expr.len() > 0 && regex_ci_builds(expr) && regex_ci_matches(expr, name)
    } else if pb.contains(0x2a) || pb.contains(0x3f) {
        wildcard_matches(pb, encode_utf8(name))
    } else {
        p == name
    }
}

pub(crate) fn str_eq(a: &str, b: &str) -> (res: bool)
    ensures
        res == (a@ == b@),
{
    let r = slices_equal(str_bytes(a), str_bytes(b));
    proof {
        encode_utf8_decode_utf8(a@);
        encode_utf8_decode_utf8(b@);
    }
    r
}

fn wildcard_or_literal(p: &str, name: &str) -> (res: bool)
    ensures
        res == (if encode_utf8(p@).contains(0x2a) || encode_utf8(p@).contains(0x3f) {
            wildcard_matches(encode_utf8(p@), encode_utf8(name@))
        } else {
            p@ == name@
        }),
{
    let pb = str_bytes(p);
    if contains_byte(pb, 0x2a) || contains_byte(pb, 0x3f) {
        wildcard_match(p, name)
    } else {
        str_eq(p, name)
    }
}

/// Whether `name` matches `pattern` (see [`pattern_matches_spec`]).
pub fn matches_pattern(name: &str, pattern: &str) -> (res: bool)
    requires
        boundary_ok(trim_chars(pattern@), 6),
    ensures
        res == pattern_matches_spec(pattern@, name@),
{
    let p = str_trim(pattern);
    let pb = str_bytes(p);
    if pb.len() >= 6 {
        let (head, tail) = str_tail(p, 6);
        let prefix = regex_prefix_bytes();
        if eq_ignore_ascii_case(str_bytes(head), &prefix) {
            let expr = str_trim(tail);
            if str_bytes(expr).len() == 0 {
                return false;
            }
            return match build_case_insensitive_regex(expr) {
                Some(re) => regex_is_match(&re, name),
                None => false,
            };
        }
    }
    wildcard_or_literal(p, name)
}

/// [`pattern_matches_spec`] with ASCII case ignored, as names compare on
/// Windows: a "regex:" pattern is matched as it is (its expression ignores
/// case anyway); otherwise the pattern and the name are both lowered first.
pub open spec fn pattern_matches_folded_spec(pattern: Seq<char>, name: Seq<char>) -> bool {
    let p = trim_chars(pattern);
    let pb = encode_utf8(p);
    if has_ci_prefix(pb, regex_prefix()) {
        let expr = trim_chars(chars_after(p, 6));
        expr.len() > 0 && regex_ci_builds(expr) && regex_ci_matches(expr, name)
    } else if pb.contains(0x2a) || pb.contains(0x3f) {
        wildcard_matches(ascii_lower_seq(pb), ascii_lower_seq(encode_utf8(name)))
    } else {
        ascii_lower_seq(pb) == ascii_lower_seq(encode_utf8(name))
    }
}

/// Whether `name` matches `pattern` with ASCII case ignored (see
/// [`pattern_matches_folded_spec`]).
pub fn matches_pattern_folded(name: &str, pattern: &str) -> (res: bool)
    requires
        boundary_ok(trim_chars(pattern@), 6),
    ensures
        res == pattern_matches_folded_spec(pattern@, name@),
{
    let p = str_trim(pattern);
    let pb = str_bytes(p);
    if pb.len() >= 6 {
        let (head, tail) = str_tail(p, 6);
        let prefix = regex_prefix_bytes();
        if eq_ignore_ascii_case(str_bytes(head), &prefix) {
            let expr = str_trim(tail);
            if str_bytes(expr).len() == 0 {
                return false;
            }
            return match build_case_insensitive_regex(expr) {
                Some(re) => regex_is_match(&re, name),
                None => false,
            };
        }
    }
    let lp = lower_bytes(pb);
    let ln = lower_bytes(str_bytes(name));
    if contains_byte(pb, 0x2a) || contains_byte(pb, 0x3f) {
        wildcard_match_bytes(lp.as_slice(), ln.as_slice())
    } else {
        slices_equal(lp.as_slice(), ln.as_slice())
    }
}

/// Whether `name` matches a configured scan pattern: one with the "ignore:"
/// prefix whose pattern is not blank and matches `name`, ASCII case ignored.
pub open spec fn scan_entry_matches(raw: Seq<char>, name: Seq<char>) -> bool {
    match scan_pattern_spec(raw) {
        Some(pat) => trim_chars(pat).len() > 0 && pattern_matches_folded_spec(pat, name),
        None => false,
    }
}

/// A configured scan pattern can be processed without splitting a character.
pub open spec fn scan_entry_ok(raw: Seq<char>) -> bool {
    &&& boundary_ok(trim_chars(raw), 7)
    &&& scan_pattern_spec(raw) matches Some(pat) ==> boundary_ok(trim_chars(pat), 6)
}

/// Matcher for the scan-time ignore patterns, split into compiled regular
/// expressions, literal names and wildcard patterns; the last two are kept
/// as lowered bytes and compared with the lowered name.
pub struct PatternMatcher {
    regex: Vec<CaseInsensitiveRegex>,
    literal: Vec<Vec<u8>>,
    wildcard: Vec<Vec<u8>>,
}

impl PatternMatcher {
    /// Whether the matcher accepts `name`.
    pub closed spec fn accepts(&self, name: Seq<char>) -> bool {
        ||| exists|i: int| 0 <= i < self.regex@.len() && regex_ci_matches(#[trigger] self.regex@[i].source(), name)
        ||| exists|i: int| 0 <= i < self.literal@.len() && #[trigger] self.literal@[i]@ == ascii_lower_seq(encode_utf8(name))
        ||| exists|i: int|
            0 <= i < self.wildcard@.len() && wildcard_matches(#[trigger] self.wildcard@[i]@, ascii_lower_seq(encode_utf8(name)))
    }

    /// Builds the matcher for the "ignore:" patterns among `patterns`.
    pub fn from_scan_ignore_patterns(patterns: &[String]) -> (res: Self)
        requires
            forall|i: int| 0 <= i < patterns@.len() ==> scan_entry_ok(#[trigger] patterns@[i]@),
        ensures
            forall|name: Seq<char>| #[trigger] res.accepts(name) <==> exists|k: int|
                0 <= k < patterns@.len() && scan_entry_matches(#[trigger] patterns@[k]@, name),
    {
        let mut m = PatternMatcher { regex: Vec::new(), literal: Vec::new(), wildcard: Vec::new() };
        let mut i: usize = 0;
        while i < patterns.len()
            invariant
                i <= patterns@.len(),
                forall|j: int| 0 <= j < patterns@.len() ==> scan_entry_ok(#[trigger] patterns@[j]@),
                forall|name: Seq<char>| #[trigger] m.accepts(name) <==> exists|k: int|
                    0 <= k < i && scan_entry_matches(#[trigger] patterns@[k]@, name),
            decreases patterns@.len() - i,
        {
            let raw = patterns[i].as_str();
            assert(scan_entry_ok(patterns@[i as int]@));
            let ghost old_m = m;
            let ghost raw_v = raw@;
            let pat = match extract_scan_pattern(raw) {
                Some(pat) => pat,
                None => {
                    proof {
                        assert forall|name: Seq<char>| #[trigger] m.accepts(name) <==> exists|k: int|
                            0 <= k < i + 1 && scan_entry_matches(#[trigger] patterns@[k]@, name) by {
                            if exists|k: int| 0 <= k < i + 1 && scan_entry_matches(#[trigger] patterns@[k]@, name) {
                                let k = choose|k: int| 0 <= k < i + 1 && scan_entry_matches(#[trigger] patterns@[k]@, name);
                                assert(k != i);
                            }
                        }
                    }
                    i = i + 1;
                    continue;
                },
            };
            let p = str_trim(pat);
            let pb = str_bytes(p);
            let mut handled = false;
            // added: what the new entry accepts, for the proof
            let ghost mut added: spec_fn(Seq<char>) -> bool = |name: Seq<char>| false;
            if pb.len() == 0 {
                handled = true;
            }
            if !handled && pb.len() >= 6 {
                let (head, tail) = str_tail(p, 6);
                let prefix = regex_prefix_bytes();
                if eq_ignore_ascii_case(str_bytes(head), &prefix) {
                    handled = true;
                    let expr = str_trim(tail);
                    if str_bytes(expr).len() > 0 {
                        match build_case_insensitive_regex(expr) {
                            Some(re) => {
                                proof {
                                    added = |name: Seq<char>| regex_ci_matches(expr@, name);
                                }
                                m.regex.push(re);
                            },
                            None => {},
                        }
                    }
                }
            }
            if !handled {
                let pb2 = str_bytes(p);
                if contains_byte(pb2, 0x2a) || contains_byte(pb2, 0x3f) {
                    proof {
                        added = |name: Seq<char>| wildcard_matches(ascii_lower_seq(encode_utf8(p@)), ascii_lower_seq(encode_utf8(name)));
                    }
                    m.wildcard.push(lower_bytes(pb2));
                } else {
                    proof {
                        added = |name: Seq<char>| ascii_lower_seq(encode_utf8(p@)) == ascii_lower_seq(encode_utf8(name));
                    }
                    m.literal.push(lower_bytes(pb2));
                }
            }
            proof {
                assert forall|name: Seq<char>| #[trigger] scan_entry_matches(raw_v, name) == added(name) by {}
                assert forall|name: Seq<char>| #[trigger] m.accepts(name) == (old_m.accepts(name) || added(name)) by {
                    if m.regex@.len() > old_m.regex@.len() {
                        assert(m.regex@ == old_m.regex@.push(m.regex@.last()));
                        if exists|j: int| 0 <= j < m.regex@.len() && regex_ci_matches(#[trigger] m.regex@[j].source(), name) {
                            let j = choose|j: int| 0 <= j < m.regex@.len() && regex_ci_matches(#[trigger] m.regex@[j].source(), name);
                            if j < old_m.regex@.len() {
                                assert(old_m.regex@[j] == m.regex@[j]);
                            }
                        }
                        if exists|j: int| 0 <= j < old_m.regex@.len() && regex_ci_matches(#[trigger] old_m.regex@[j].source(), name) {
                            let j = choose|j: int| 0 <= j < old_m.regex@.len() && regex_ci_matches(#[trigger] old_m.regex@[j].source(), name);
                            assert(old_m.regex@[j] == m.regex@[j]);
                        }
                    } else {
                        assert(m.regex@ == old_m.regex@);
                    }
                    if m.literal@.len() > old_m.literal@.len() {
                        assert(m.literal@ == old_m.literal@.push(m.literal@.last()));
                        if exists|j: int| 0 <= j < m.literal@.len() && #[trigger] m.literal@[j]@ == ascii_lower_seq(encode_utf8(name)) {
                            let j = choose|j: int| 0 <= j < m.literal@.len() && #[trigger] m.literal@[j]@ == ascii_lower_seq(encode_utf8(name));
                            if j < old_m.literal@.len() {
                                assert(old_m.literal@[j] == m.literal@[j]);
                            }
                        }
                        if exists|j: int| 0 <= j < old_m.literal@.len() && #[trigger] old_m.literal@[j]@ == ascii_lower_seq(encode_utf8(name)) {
                            let j = choose|j: int| 0 <= j < old_m.literal@.len() && #[trigger] old_m.literal@[j]@ == ascii_lower_seq(encode_utf8(name));
                            assert(old_m.literal@[j] == m.literal@[j]);
                        }
                    } else {
                        assert(m.literal@ == old_m.literal@);
                    }
                    if m.wildcard@.len() > old_m.wildcard@.len() {
                        assert(m.wildcard@ == old_m.wildcard@.push(m.wildcard@.last()));
                        if exists|j: int| 0 <= j < m.wildcard@.len() && wildcard_matches(#[trigger] m.wildcard@[j]@, ascii_lower_seq(encode_utf8(name))) {
                            let j = choose|j: int| 0 <= j < m.wildcard@.len() && wildcard_matches(#[trigger] m.wildcard@[j]@, ascii_lower_seq(encode_utf8(name)));
                            if j < old_m.wildcard@.len() {
                                assert(old_m.wildcard@[j] == m.wildcard@[j]);
                            }
                        }
                        if exists|j: int| 0 <= j < old_m.wildcard@.len() && wildcard_matches(#[trigger] old_m.wildcard@[j]@, ascii_lower_seq(encode_utf8(name))) {
                            let j = choose|j: int| 0 <= j < old_m.wildcard@.len() && wildcard_matches(#[trigger] old_m.wildcard@[j]@, ascii_lower_seq(encode_utf8(name)));
                            assert(old_m.wildcard@[j] == m.wildcard@[j]);
                        }
                    } else {
                        assert(m.wildcard@ == old_m.wildcard@);
                    }
                }
                assert forall|name: Seq<char>| #[trigger] m.accepts(name) <==> exists|k: int|
                    0 <= k < i + 1 && scan_entry_matches(#[trigger] patterns@[k]@, name) by {
                    if exists|k: int| 0 <= k < i + 1 && scan_entry_matches(#[trigger] patterns@[k]@, name) {
                        let k = choose|k: int| 0 <= k < i + 1 && scan_entry_matches(#[trigger] patterns@[k]@, name);
                        if k < i {
                            assert(old_m.accepts(name));
                        }
                    }
                    if old_m.accepts(name) {
                        let k = choose|k: int| 0 <= k < i && scan_entry_matches(#[trigger] patterns@[k]@, name);
                    }
                }
            }
            i = i + 1;
        }
        m
    }

    /// Whether `name` matches any of the patterns the matcher was built from.
    pub fn is_match(&self, name: &str) -> (res: bool)
        ensures
            res == self.accepts(name@),
    {
        let mut i: usize = 0;
        while i < self.regex.len()
            invariant
                i <= self.regex@.len(),
                forall|j: int| 0 <= j < i ==> !regex_ci_matches(#[trigger] self.regex@[j].source(), name@),
            decreases self.regex@.len() - i,
        {
            if regex_is_match(&self.regex[i], name) {
                return true;
            }
            i = i + 1;
        }
        if self.literal.len() == 0 && self.wildcard.len() == 0 {
            return false;
        }
        let n = lower_bytes(str_bytes(name));
        let mut i: usize = 0;
        while i < self.literal.len()
            invariant
                i <= self.literal@.len(),
                n@ == ascii_lower_seq(encode_utf8(name@)),
                forall|j: int| 0 <= j < self.regex@.len() ==> !regex_ci_matches(#[trigger] self.regex@[j].source(), name@),
                forall|j: int| 0 <= j < i ==> #[trigger] self.literal@[j]@ != n@,
            decreases self.literal@.len() - i,
        {
            if slices_equal(self.literal[i].as_slice(), n.as_slice()) {
                return true;
            }
            i = i + 1;
        }
        let mut i: usize = 0;
        while i < self.wildcard.len()
            invariant
                i <= self.wildcard@.len(),
                n@ == ascii_lower_seq(encode_utf8(name@)),
                forall|j: int| 0 <= j < self.regex@.len() ==> !regex_ci_matches(#[trigger] self.regex@[j].source(), name@),
                forall|j: int| 0 <= j < self.literal@.len() ==> #[trigger] self.literal@[j]@ != n@,
                forall|j: int| 0 <= j < i ==> !wildcard_matches(#[trigger] self.wildcard@[j]@, n@),
            decreases self.wildcard@.len() - i,
        {
            if wildcard_match_bytes(self.wildcard[i].as_slice(), n.as_slice()) {
                return true;
            }
            i = i + 1;
        }
        false
    }
}

} // verus!
