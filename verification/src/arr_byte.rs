//! Helpers on optional byte arrays (hash values): framing with a one-byte
//! length, copying, equality and ordering, and lower-case hex rendering.

use vstd::prelude::*;
use vstd::utf8::encode_utf8;
use crate::text::{all_ascii, lemma_ascii_valid_utf8, string_from_utf8};

verus! {

/// Errors of the one-byte length framing used for hash values.
#[derive(Debug, Clone, Copy, PartialEq, Eq)]
pub enum ByteArrayError {
    /// The array has more than 255 bytes and cannot be framed.
    TooLong,
    /// The input ends before the framed array does.
    Truncated,
}

/// The framed form of a byte array: its length as one byte, then the bytes.
pub open spec fn framed(b: Seq<u8>) -> Seq<u8>
    recommends
        b.len() <= 255,
{
    seq![b.len() as u8] + b
}

/// The content of an optional array, `None` reading as the empty array.
pub open spec fn or_empty(b: Option<Seq<u8>>) -> Seq<u8> {
    match b {
        Some(s) => s,
        None => Seq::empty(),
    }
}

/// View of an optional byte slice.
pub open spec fn opt_view(b: Option<&[u8]>) -> Option<Seq<u8>> {
    match b {
        Some(s) => Some(s@),
        None => None,
    }
}

/// Lexicographic three-way comparison of byte sequences: -1, 0 or 1.
pub open spec fn lex_order(a: Seq<u8>, b: Seq<u8>) -> int
    decreases a.len(),
{
    if a.len() == 0 {
        if b.len() == 0 {
            0
        } else {
            -1
        }
    } else if b.len() == 0 {
        1
    } else if a[0] < b[0] {
        -1
    } else if a[0] > b[0] {
        1
    } else {
        lex_order(a.drop_first(), b.drop_first())
    }
}

/// The lexicographic order yields -1, 0 or 1, and 0 exactly on equal sequences.
pub proof fn lemma_lex_order_zero(a: Seq<u8>, b: Seq<u8>)
    ensures
        -1 <= lex_order(a, b) <= 1,
        lex_order(a, b) == 0 <==> a == b,
    decreases a.len(),
{
    if a.len() == 0 || b.len() == 0 {
        if a.len() == 0 && b.len() == 0 {
            assert(a =~= b);
        }
    } else if a[0] == b[0] {
        lemma_lex_order_zero(a.drop_first(), b.drop_first());
        assert(a =~= seq![a[0]] + a.drop_first());
        assert(b =~= seq![b[0]] + b.drop_first());
        if a == b {
            assert(a.drop_first() =~= b.drop_first());
        }
    } else {
        assert(a[0] != b[0]);
    }
}

/// Swapping the arguments negates the lexicographic order.
pub proof fn lemma_lex_order_antisymmetric(a: Seq<u8>, b: Seq<u8>)
    ensures
        lex_order(a, b) == -lex_order(b, a),
    decreases a.len(),
{
    if a.len() > 0 && b.len() > 0 && a[0] == b[0] {
        lemma_lex_order_antisymmetric(a.drop_first(), b.drop_first());
    }
}

/// The lexicographic order is transitive.
pub proof fn lemma_lex_order_transitive(a: Seq<u8>, b: Seq<u8>, c: Seq<u8>)
    requires
        lex_order(a, b) < 0,
        lex_order(b, c) < 0,
    ensures
        lex_order(a, c) < 0,
    decreases a.len(),
{
    if a.len() > 0 && b.len() > 0 && c.len() > 0 && a[0] == b[0] && b[0] == c[0] {
        lemma_lex_order_transitive(a.drop_first(), b.drop_first(), c.drop_first());
    }
}

/// Reading the frame written for an array of at most 255 bytes gives the
/// array back and consumes exactly the frame, whatever follows it.
pub proof fn law_frame_round_trip(b: Seq<u8>, rest: Seq<u8>)
    requires
        b.len() <= 255,
    ensures
        (framed(b) + rest).len() >= 1 + (framed(b) + rest)[0],
        (framed(b) + rest)[0] == b.len(),
        (framed(b) + rest).subrange(1, 1 + (framed(b) + rest)[0]) == b,
{
    let r = framed(b) + rest;
    assert(r[0] == b.len() as u8);
    assert(r.subrange(1, 1 + b.len() as int) =~= b);
}

/// Lower-case hex digit (ASCII) of a value below 16.
pub open spec fn hex_digit(v: u8) -> u8 {
    if v < 10 {
        (0x30 + v) as u8
    } else {
        (0x61 + v - 10) as u8
    }
}

/// Two lower-case hex digits per byte, most significant nibble first.
pub open spec fn hex_bytes(b: Seq<u8>) -> Seq<u8>
    decreases b.len(),
{
    if b.len() == 0 {
        Seq::empty()
    } else {
        hex_bytes(b.drop_last()) + seq![hex_digit(b.last() / 16), hex_digit(b.last() % 16)]
    }
}

/// Appends `b`, framed by its length as one byte, to `w`.
/// Fails, writing nothing, when `b` is longer than 255 bytes.
pub fn write_byte_array(w: &mut Vec<u8>, b: &[u8]) -> (res: Result<(), ByteArrayError>)
    ensures
        res is Ok <==> b@.len() <= 255,
        res is Ok ==> final(w)@ == old(w)@ + framed(b@),
        res is Err ==> res == Err::<(), ByteArrayError>(ByteArrayError::TooLong) && final(w)@ == old(w)@,
{
    if b.len() > 255 {
        return Err(ByteArrayError::TooLong);
    }
    let len: u8 = b.len() as u8;
    let ghost start = w@;
    w.push(len);
    let mut i: usize = 0;
    while i < b.len()
        invariant
            i <= b@.len(),
            b@.len() <= 255,
            len == b@.len(),
            w@ == start + seq![len] + b@.subrange(0, i as int),
        decreases b@.len() - i,
    {
        w.push(b[i]);
        assert(b@.subrange(0, i + 1) == b@.subrange(0, i as int).push(b@[i as int]));
        i = i + 1;
    }
    assert(b@.subrange(0, b@.len() as int) == b@);
    assert(start + seq![len] + b@ == start + framed(b@));
    Ok(())
}

/// Reads one framed byte array from the front of `r`.
/// On success returns the array and the number of bytes consumed.
pub fn read_byte_array(r: &[u8]) -> (res: Result<(Vec<u8>, usize), ByteArrayError>)
    ensures
        res is Ok <==> (r@.len() >= 1 && r@.len() >= 1 + r@[0]),
        res matches Ok((b, n)) ==> n == 1 + r@[0] && b@ == r@.subrange(1, n as int),
        res is Err ==> res == Err::<(Vec<u8>, usize), ByteArrayError>(ByteArrayError::Truncated),
{
    if r.len() < 1 {
        return Err(ByteArrayError::Truncated);
    }
    let len = r[0] as usize;
    if r.len() - 1 < len {
        return Err(ByteArrayError::Truncated);
    }
    let b = vstd::slice::slice_to_vec(&r[1..1 + len]);
    Ok((b, 1 + len))
}

/// Copies an optional byte array.
pub fn copy_bytes(b: Option<&[u8]>) -> (res: Option<Vec<u8>>)
    ensures
        res is Some <==> b is Some,
        res matches Some(v) ==> v@ == b.unwrap()@,
{
    match b {
        Some(s) => Some(vstd::slice::slice_to_vec(s)),
        None => None,
    }
}

/// Copies up to `count` bytes of `b` starting at `index`, clamped to the end.
/// `None` when `b` is `None` or `index` lies past the end.
pub fn copy_bytes_range(b: Option<&[u8]>, index: usize, count: usize) -> (res: Option<Vec<u8>>)
    ensures
        res is Some <==> (b is Some && index <= b.unwrap()@.len()),
        res matches Some(v) ==> v@ == b.unwrap()@.subrange(
            index as int,
            if index + count <= b.unwrap()@.len() { index + count } else { b.unwrap()@.len() as int },
        ),
{
    let s = match b {
        Some(s) => s,
        None => return None,
    };
    if index > s.len() {
        return None;
    }
    let end = if count <= s.len() - index { index + count } else { s.len() };
    Some(vstd::slice::slice_to_vec(&s[index..end]))
}

/// Byte-wise equality of two slices.
pub fn slices_equal(a: &[u8], b: &[u8]) -> (res: bool)
    ensures
        res == (a@ == b@),
{
    if a.len() != b.len() {
        return false;
    }
    let mut i: usize = 0;
    while i < a.len()
        invariant
            i <= a@.len(),
            a@.len() == b@.len(),
            forall|j: int| 0 <= j < i ==> a@[j] == b@[j],
        decreases a@.len() - i,
    {
        if a[i] != b[i] {
            return false;
        }
        i = i + 1;
    }
    assert(a@ =~= b@);
    true
}

/// Equal when both are present and hold the same bytes.
pub fn b_compare(b1: Option<&[u8]>, b2: Option<&[u8]>) -> (res: bool)
    ensures
        res == (b1 is Some && b2 is Some && b1.unwrap()@ == b2.unwrap()@),
{
    match (b1, b2) {
        (Some(a), Some(b)) => slices_equal(a, b),
        _ => false,
    }
}

/// Equal unless both are present and differ: a missing value matches anything.
pub fn e_compare(b1: Option<&[u8]>, b2: Option<&[u8]>) -> (res: bool)
    ensures
        res == (b1 is None || b2 is None || b1.unwrap()@ == b2.unwrap()@),
{
    match (b1, b2) {
        (Some(a), Some(b)) => slices_equal(a, b),
        _ => true,
    }
}

proof fn lemma_lex_order_skip(a: Seq<u8>, b: Seq<u8>, p: int)
    requires
        0 <= p < a.len(),
        p < b.len(),
        a[p] == b[p],
    ensures
        lex_order(a.skip(p), b.skip(p)) == lex_order(a.skip(p + 1), b.skip(p + 1)),
{
    assert(a.skip(p).drop_first() =~= a.skip(p + 1));
    assert(b.skip(p).drop_first() =~= b.skip(p + 1));
}

/// Three-way lexicographic comparison (-1, 0, 1); a missing array orders as empty.
pub fn i_compare(b1: Option<&[u8]>, b2: Option<&[u8]>) -> (res: i32)
    ensures
        res == lex_order(or_empty(opt_view(b1)), or_empty(opt_view(b2))),
{
    let a: &[u8] = match b1 {
        Some(s) => s,
        None => &[],
    };
    let b: &[u8] = match b2 {
        Some(s) => s,
        None => &[],
    };
    assert(a@ == or_empty(opt_view(b1)));
    assert(b@ == or_empty(opt_view(b2)));
    assert(a@.skip(0) =~= a@);
    assert(b@.skip(0) =~= b@);
    let mut p: usize = 0;
    loop
        invariant
            p <= a@.len(),
            p <= b@.len(),
            a@ == or_empty(opt_view(b1)),
            b@ == or_empty(opt_view(b2)),
            lex_order(a@, b@) == lex_order(a@.skip(p as int), b@.skip(p as int)),
        decreases a@.len() - p,
    {
        assert(a@.skip(p as int).len() == a@.len() - p);
        assert(b@.skip(p as int).len() == b@.len() - p);
        if a.len() == p {
            return if b.len() == p {
                0
            } else {
                -1
            };
        }
        if b.len() == p {
            return 1;
        }
        if a[p] < b[p] {
            return -1;
        }
        if a[p] > b[p] {
            return 1;
        }
        proof {
            lemma_lex_order_skip(a@, b@, p as int);
        }
        p = p + 1;
    }
}

fn hex_digit_exec(v: u8) -> (d: u8)
    requires
        v < 16,
    ensures
        d == hex_digit(v),
        d < 0x80,
{
    if v < 10 {
        0x30 + v
    } else {
        0x61 + v - 10
    }
}

/// Lower-case hex rendering, two digits per byte; `None` renders as "".
pub fn to_hex_string(b: Option<&[u8]>) -> (res: String)
    ensures
        encode_utf8(res@) == hex_bytes(or_empty(opt_view(b))),
{
    let s: &[u8] = match b {
        Some(s) => s,
        None => &[],
    };
    let mut out: Vec<u8> = Vec::new();
    let mut i: usize = 0;
    while i < s.len()
        invariant
            i <= s@.len(),
            out@ == hex_bytes(s@.subrange(0, i as int)),
            all_ascii(out@),
        decreases s@.len() - i,
    {
        let v = s[i];
        let hi = hex_digit_exec(v / 16);
        let lo = hex_digit_exec(v % 16);
        proof {
            let next = s@.subrange(0, i + 1);
            assert(next.drop_last() =~= s@.subrange(0, i as int));
            assert(next.last() == v);
        }
        out.push(hi);
        out.push(lo);
        i = i + 1;
    }
    assert(s@.subrange(0, s@.len() as int) =~= s@);
    proof {
        lemma_ascii_valid_utf8(out@);
    }
    string_from_utf8(out)
}

} // verus!
