//! Byte-level text helpers shared by the name and path rules.

use vstd::prelude::*;
use vstd::utf8::*;

verus! {

/// True when every byte is an ASCII byte.
pub open spec fn all_ascii(b: Seq<u8>) -> bool {
    forall|i: int| 0 <= i < b.len() ==> #[trigger] b[i] < 0x80
}

/// A sequence of ASCII bytes is valid UTF-8.
pub proof fn lemma_ascii_valid_utf8(b: Seq<u8>)
    requires
        all_ascii(b),
    ensures
        valid_utf8(b),
{
    assert(b.subrange(0, 0) =~= Seq::<u8>::empty());
    assert(partial_valid_utf8(b, 0));
    assert forall|i: int| 0 <= 0 <= i < b.len() <= b.len() implies #[trigger] is_leading_byte_width_1(b[i]) by {
        assert(b[i] < 0x80);
    }
    partial_valid_utf8_extend_ascii_block(b, 0, b.len() as int);
    assert(b.subrange(0, b.len() as int) =~= b);
}

/// Turns bytes that are valid UTF-8 into a `String` (wraps `String::from_utf8`).
/// Claims that the string's UTF-8 encoding is exactly the given bytes.
#[verifier::external_body]
pub fn string_from_utf8(v: Vec<u8>) -> (res: String)
    requires
        valid_utf8(v@),
    ensures
        encode_utf8(res@) == v@,
{
    String::from_utf8(v).unwrap()
}

/// The Unicode `White_Space` property.
pub open spec fn is_white_space(c: char) -> bool {
    let u = c as u32;
    ||| 0x09 <= u <= 0x0d
    ||| u == 0x20
    ||| u == 0x85
    ||| u == 0xa0
    ||| u == 0x1680
    ||| 0x2000 <= u <= 0x200a
    ||| u == 0x2028
    ||| u == 0x2029
    ||| u == 0x202f
    ||| u == 0x205f
    ||| u == 0x3000
}

/// `s` without its leading white space.
pub open spec fn trim_start_chars(s: Seq<char>) -> Seq<char>
    decreases s.len(),
{
    if s.len() > 0 && is_white_space(s[0]) {
        trim_start_chars(s.drop_first())
    } else {
        s
    }
}

/// `s` without its trailing white space.
pub open spec fn trim_end_chars(s: Seq<char>) -> Seq<char>
    decreases s.len(),
{
    if s.len() > 0 && is_white_space(s.last()) {
        trim_end_chars(s.drop_last())
    } else {
        s
    }
}

/// `s` without leading and trailing white space.
pub open spec fn trim_chars(s: Seq<char>) -> Seq<char> {
    trim_end_chars(trim_start_chars(s))
}

/// `s` with leading and trailing white space removed (wraps `str::trim`, which
/// removes characters with the Unicode `White_Space` property from both ends).
#[verifier::external_body]
pub fn str_trim(s: &str) -> (res: &str)
    ensures
        res@ == trim_chars(s@),
{
    s.trim()
}

/// ASCII lower-casing of a byte.
pub open spec fn ascii_lower(b: u8) -> u8 {
    if 0x41 <= b <= 0x5a {
        (b + 0x20) as u8
    } else {
        b
    }
}

/// Equal up to ASCII case.
pub open spec fn ascii_ci_eq(a: Seq<u8>, b: Seq<u8>) -> bool {
    a.len() == b.len() && forall|i: int| 0 <= i < a.len() ==> ascii_lower(#[trigger] a[i]) == ascii_lower(b[i])
}

/// ASCII lower-casing of a byte.
pub fn ascii_lower_byte(b: u8) -> (r: u8)
    ensures
        r == ascii_lower(b),
{
    if 0x41 <= b && b <= 0x5a {
        b + 0x20
    } else {
        b
    }
}

/// The bytes with each ASCII upper-case letter lowered.
pub open spec fn ascii_lower_seq(b: Seq<u8>) -> Seq<u8> {
    Seq::new(b.len(), |i: int| ascii_lower(b[i]))
}

/// A copy of the bytes with each ASCII upper-case letter lowered.
pub fn lower_bytes(b: &[u8]) -> (r: Vec<u8>)
    ensures
        r@ == ascii_lower_seq(b@),
{
    let mut r: Vec<u8> = Vec::new();
    let mut i: usize = 0;
    while i < b.len()
        invariant
            i <= b@.len(),
            r@ == ascii_lower_seq(b@.subrange(0, i as int)),
        decreases b@.len() - i,
    {
        let c = ascii_lower_byte(b[i]);
        r.push(c);
        i = i + 1;
        assert(r@ =~= ascii_lower_seq(b@.subrange(0, i as int)));
    }
    assert(b@.subrange(0, b@.len() as int) == b@);
    r
}

/// Byte-wise equality up to ASCII case.
pub fn eq_ignore_ascii_case(a: &[u8], b: &[u8]) -> (res: bool)
    ensures
        res == ascii_ci_eq(a@, b@),
{
    if a.len() != b.len() {
        return false;
    }
    let mut i: usize = 0;
    while i < a.len()
        invariant
            i <= a@.len(),
            a@.len() == b@.len(),
            forall|j: int| 0 <= j < i ==> ascii_lower(#[trigger] a@[j]) == ascii_lower(b@[j]),
        decreases a@.len() - i,
    {
        if ascii_lower_byte(a[i]) != ascii_lower_byte(b[i]) {
            return false;
        }
        i = i + 1;
    }
    true
}

/// The UTF-8 bytes of a string slice.
pub fn str_bytes(s: &str) -> (b: &[u8])
    ensures
        b@ == encode_utf8(s@),
        valid_utf8(b@),
{
    proof {
        encode_utf8_valid_utf8(s@);
    }
    s.as_bytes()
}

/// The part of `s` from byte `at` on, where `at` is a character boundary.
pub fn str_tail(s: &str, at: usize) -> (res: (&str, &str))
    requires
        is_char_boundary(encode_utf8(s@), at as int),
        at <= encode_utf8(s@).len(),
    ensures
        encode_utf8(res.0@) == encode_utf8(s@).subrange(0, at as int),
        encode_utf8(res.1@) == encode_utf8(s@).subrange(at as int, encode_utf8(s@).len() as int),
        res.1@ == decode_utf8(encode_utf8(s@).subrange(at as int, encode_utf8(s@).len() as int)),
{
    let r = s.split_at(at);
    proof {
        encode_utf8_decode_utf8(r.1@);
    }
    r
}

/// True when `b` contains the byte `x`.
pub fn contains_byte(b: &[u8], x: u8) -> (res: bool)
    ensures
        res == b@.contains(x),
{
    let mut i: usize = 0;
    while i < b.len()
        invariant
            i <= b@.len(),
            forall|j: int| 0 <= j < i ==> b@[j] != x,
        decreases b@.len() - i,
    {
        if b[i] == x {
            assert(b@[i as int] == x);
            return true;
        }
        i = i + 1;
    }
    false
}

/// The UTF-8 encoding of a concatenation is the concatenation of the
/// encodings.
pub proof fn lemma_encode_concat(a: Seq<char>, b: Seq<char>)
    ensures
        encode_utf8(a + b) == encode_utf8(a) + encode_utf8(b),
    decreases a.len(),
{
    if a.len() == 0 {
        assert(a + b =~= b);
        assert(encode_utf8(a) =~= Seq::<u8>::empty());
        assert(encode_utf8(a) + encode_utf8(b) =~= encode_utf8(b));
    } else {
        assert((a + b).drop_first() =~= a.drop_first() + b);
        assert((a + b)[0] == a[0]);
        lemma_encode_concat(a.drop_first(), b);
        assert(encode_utf8(a + b) =~= encode_scalar(a[0] as u32) + (encode_utf8(a.drop_first()) + encode_utf8(b)));
    }
}

/// `b` ends with `suffix`, up to ASCII case.
pub open spec fn ends_with_ci(b: Seq<u8>, suffix: Seq<u8>) -> bool {
    suffix.len() <= b.len() && ascii_ci_eq(b.subrange(b.len() - suffix.len(), b.len() as int), suffix)
}

/// `b` without `suffix` when it ends with it (up to ASCII case).
pub open spec fn strip_suffix_ci(b: Seq<u8>, suffix: Seq<u8>) -> Seq<u8> {
    if ends_with_ci(b, suffix) {
        b.subrange(0, b.len() - suffix.len())
    } else {
        b
    }
}

/// Whether the bytes of `s` end with `suffix`, up to ASCII case.
pub fn str_ends_with_ci(s: &str, suffix: &[u8]) -> (r: bool)
    ensures
        r == ends_with_ci(encode_utf8(s@), suffix@),
{
    let b = str_bytes(s);
    if suffix.len() > b.len() {
        return false;
    }
    let k = b.len() - suffix.len();
    let ghost tail = b@.subrange(k as int, b@.len() as int);
    let mut i: usize = 0;
    while i < suffix.len()
        invariant
            b@ == encode_utf8(s@),
            k + suffix@.len() == b@.len(),
            k + suffix.len() == b.len(),
            tail == b@.subrange(k as int, b@.len() as int),
            i <= suffix@.len(),
            forall|j: int| 0 <= j < i ==> ascii_lower(#[trigger] tail[j]) == ascii_lower(suffix@[j]),
        decreases suffix@.len() - i,
    {
        if ascii_lower_byte(b[k + i]) != ascii_lower_byte(suffix[i]) {
            assert(tail[i as int] == b@[k + i]);
            return false;
        }
        assert(tail[i as int] == b@[k + i]);
        i = i + 1;
    }
    true
}

/// `s` without `suffix` when it ends with it (up to ASCII case); the suffix
/// begins with `.`, so the cut falls between two characters.
pub fn strip_suffix_ci_str(s: &str, suffix: &[u8]) -> (r: String)
    requires
        suffix@.len() > 0,
        suffix@[0] == 0x2e,
    ensures
        encode_utf8(r@) == strip_suffix_ci(encode_utf8(s@), suffix@),
{
    if str_ends_with_ci(s, suffix) {
        let ghost bytes = encode_utf8(s@);
        let k = str_bytes(s).len() - suffix.len();
        proof {
            let tail = bytes.subrange(k as int, bytes.len() as int);
            assert(ascii_lower(tail[0]) == ascii_lower(suffix@[0]));
            assert(bytes[k as int] == tail[0]);
            assert(bytes[k as int] == 0x2e);
            encode_utf8_valid_utf8(s@);
            is_char_boundary_iff_not_is_continuation_byte(bytes, k as int);
        }
        let (head, _rest) = s.split_at(k);
        let r = head.to_string();
        assert(encode_utf8(r@) =~= bytes.subrange(0, k as int));
        r
    } else {
        s.to_string()
    }
}

} // verus!
