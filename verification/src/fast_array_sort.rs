//! Sorting (and filtering) of copies of a slice by a caller-given three-way
//! comparison: negative or zero keeps `a` before `b`, positive puts `b` first.
//! The sort is stable: elements that compare equal keep their relative order
//! (see [`stable_order`]); the order is exactly [`stable_sorted`].

use vstd::prelude::*;

verus! {

broadcast use vstd::seq_lib::group_to_multiset_ensures;

/// Every result of `sort(a, b)` is at most 0: `a` may stand before `b`.
pub open spec fn sort_leq<T, F: Fn(&T, &T) -> i32>(sort: F, a: T, b: T) -> bool {
    forall|r: i32| #[trigger] call_ensures(sort, (&a, &b), r) ==> r <= 0
}

/// `sort` can be called on any pair, answers the same for the same pair, and
/// orders all values totally and transitively.
pub open spec fn comparator_ok<T, F: Fn(&T, &T) -> i32>(sort: F) -> bool {
    &&& forall|a: T, b: T| #[trigger] call_requires(sort, (&a, &b))
    &&& forall|a: T, b: T, r1: i32, r2: i32|
        #[trigger] call_ensures(sort, (&a, &b), r1) && #[trigger] call_ensures(sort, (&a, &b), r2)
            ==> r1 == r2
    &&& forall|a: T, b: T| #[trigger] sort_leq(sort, a, b) || #[trigger] sort_leq(sort, b, a)
    &&& forall|a: T, b: T, c: T|
        #[trigger] sort_leq(sort, a, b) && #[trigger] sort_leq(sort, b, c) ==> sort_leq(sort, a, c)
}

/// Every earlier element may stand before every later one.
pub open spec fn sorted_by<T, F: Fn(&T, &T) -> i32>(sort: F, s: Seq<T>) -> bool {
    forall|i: int, j: int| 0 <= i < j < s.len() ==> sort_leq(sort, #[trigger] s[i], #[trigger] s[j])
}

/// `out` is `input` reordered stably: `origin` names, for each element of
/// `out`, a distinct position of `input` holding it, and two elements that
/// `sort` lets stand either way round keep their order from `input`.
pub open spec fn stable_order<T, F: Fn(&T, &T) -> i32>(sort: F, input: Seq<T>, out: Seq<T>, origin: Seq<int>) -> bool {
    &&& origin.len() == out.len()
    &&& forall|m: int| 0 <= m < out.len() ==> 0 <= #[trigger] origin[m] < input.len() && out[m] == input[origin[m]]
    &&& forall|a: int, b: int| 0 <= a < b < out.len() ==> #[trigger] origin[a] != #[trigger] origin[b]
    &&& forall|a: int, b: int|
        0 <= a < b < out.len() && sort_leq(sort, #[trigger] out[b], #[trigger] out[a]) ==> origin[a] < origin[b]
}

/// `find` can be called on any value and answers the same for the same value.
pub open spec fn predicate_ok<T, P: Fn(&T) -> bool>(find: P) -> bool {
    &&& forall|a: T| #[trigger] call_requires(find, (&a,))
    &&& forall|a: T, b1: bool, b2: bool|
        #[trigger] call_ensures(find, (&a,), b1) && #[trigger] call_ensures(find, (&a,), b2) ==> b1 == b2
}

/// The elements of `input` that `find` accepts, in order.
pub open spec fn kept_by<T, P: Fn(&T) -> bool>(find: P, input: Seq<T>) -> Seq<T> {
    input.filter(|a: T| accepts(find, a))
}

/// `find` accepts `a` (every answer it gives for `a` is true).
pub open spec fn accepts<T, P: Fn(&T) -> bool>(find: P, a: T) -> bool {
    forall|b: bool| #[trigger] call_ensures(find, (&a,), b) ==> b
}

/// Where `x` goes into `out` when it is placed after the last of
/// `out[0..k]` that may stand before it (at 0 if none may).
pub open spec fn insert_position<T, F: Fn(&T, &T) -> i32>(sort: F, out: Seq<T>, x: T, k: int) -> int
    decreases k,
{
    if k <= 0 {
        0
    } else if sort_leq(sort, out[k - 1], x) {
        k
    } else {
        insert_position(sort, out, x, k - 1)
    }
}

/// `s` sorted by `sort`, stably: each element in turn is placed after the
/// last of those already placed that may stand before it.
pub open spec fn stable_sorted<T, F: Fn(&T, &T) -> i32>(sort: F, s: Seq<T>) -> Seq<T>
    decreases s.len(),
{
    if s.len() == 0 {
        Seq::empty()
    } else {
        let done = stable_sorted(sort, s.drop_last());
        done.insert(insert_position(sort, done, s.last(), done.len() as int), s.last())
    }
}

/// What [`sort_with_filter`] returns: the accepted elements, stably sorted.
pub open spec fn sort_with_filter_result<T, P: Fn(&T) -> bool, F: Fn(&T, &T) -> i32>(
    find: P,
    sort: F,
    input: Seq<T>,
) -> Seq<T> {
    stable_sorted(sort, kept_by(find, input))
}

/// What [`sort_array`] returns: all elements, stably sorted.
pub open spec fn sort_array_result<T, F: Fn(&T, &T) -> i32>(sort: F, input: Seq<T>) -> Seq<T> {
    stable_sorted(sort, input)
}

/// Filtering and then sorting is what the filtered sort does: for every
/// input, [`sort_with_filter`] returns exactly what [`sort_array`] returns
/// on the elements that `find` accepts.
pub proof fn law_filtered_sort_sorts_the_kept<T, P: Fn(&T) -> bool, F: Fn(&T, &T) -> i32>(
    find: P,
    sort: F,
    input: Seq<T>,
)
    requires
        predicate_ok(find),
        comparator_ok(sort),
    ensures
        sort_with_filter_result(find, sort, input) == sort_array_result(sort, kept_by(find, input)),
{
}

fn insertion_sort<T: Copy, F: Fn(&T, &T) -> i32>(input: Vec<T>, sort: &F) -> (out: Vec<T>)
    requires
        comparator_ok(*sort),
    ensures
        out@ == stable_sorted(*sort, input@),
        out@.to_multiset() == input@.to_multiset(),
        sorted_by(*sort, out@),
        exists|origin: Seq<int>| #[trigger] stable_order(*sort, input@, out@, origin),
{
    let mut out: Vec<T> = Vec::new();
    let ghost mut origin: Seq<int> = Seq::empty();
    let mut i: usize = 0;
    while i < input.len()
        invariant
            i <= input@.len(),
            comparator_ok(*sort),
            out@.to_multiset() == input@.subrange(0, i as int).to_multiset(),
            out@ == stable_sorted(*sort, input@.subrange(0, i as int)),
            sorted_by(*sort, out@),
            stable_order(*sort, input@, out@, origin),
            forall|m: int| 0 <= m < origin.len() ==> #[trigger] origin[m] < i,
        decreases input@.len() - i,
    {
        let x = input[i];
        let mut k = out.len();
        while k > 0
            invariant
                k <= out@.len(),
                comparator_ok(*sort),
                forall|m: int| k <= m < out@.len() ==> sort_leq(*sort, x, #[trigger] out@[m]),
                forall|m: int| k <= m < out@.len() ==> !sort_leq(*sort, #[trigger] out@[m], x),
                insert_position(*sort, out@, x, out@.len() as int) == insert_position(*sort, out@, x, k as int),
            ensures
                k == 0 || sort_leq(*sort, out@[k - 1], x),
                insert_position(*sort, out@, x, out@.len() as int) == k,
                forall|m: int| k <= m < out@.len() ==> sort_leq(*sort, x, #[trigger] out@[m]),
                forall|m: int| k <= m < out@.len() ==> !sort_leq(*sort, #[trigger] out@[m], x),
            decreases k,
        {
            let r = sort(&out[k - 1], &x);
            if r > 0 {
                assert(!sort_leq(*sort, out@[k - 1], x));
                assert(sort_leq(*sort, out@[k - 1], x) || sort_leq(*sort, x, out@[k - 1]));
                k = k - 1;
            } else {
                assert forall|r2: i32| #[trigger] call_ensures(*sort, (&out@[k - 1], &x), r2) implies r2
                    <= 0 by {}
                break;
            }
        }
        let ghost prev = out@;
        let ghost prev_origin = origin;
        out.insert(k, x);
        proof {
            let s1 = input@.subrange(0, i + 1);
            assert(s1.drop_last() == input@.subrange(0, i as int));
            assert(s1.last() == x);
            origin = prev_origin.insert(k as int, i as int);
            assert(out@ == prev.insert(k as int, x));
            assert forall|m: int| 0 <= m < out@.len() implies 0 <= #[trigger] origin[m] < input@.len()
                && out@[m] == input@[origin[m]] by {
                if m < k {
                    assert(origin[m] == prev_origin[m]);
                } else if m > k {
                    assert(origin[m] == prev_origin[m - 1]);
                }
            }
            assert forall|a: int, b: int| 0 <= a < b < out@.len() implies #[trigger] origin[a]
                != #[trigger] origin[b] by {
                let aa = if a < k { a } else { a - 1 };
                let bb = if b < k { b } else { b - 1 };
                if a == k {
                    assert(prev_origin[bb] < i);
                } else if b == k {
                    assert(prev_origin[aa] < i);
                } else {
                    assert(origin[a] == prev_origin[aa]);
                    assert(origin[b] == prev_origin[bb]);
                }
            }
            assert forall|a: int, b: int|
                0 <= a < b < out@.len() && sort_leq(*sort, #[trigger] out@[b], #[trigger] out@[a]) implies origin[a]
                < origin[b] by {
                let aa = if a < k { a } else { a - 1 };
                let bb = if b < k { b } else { b - 1 };
                if a == k {
                    assert(out@[b] == prev[bb]);
                    assert(!sort_leq(*sort, prev[bb], x));
                } else if b == k {
                    assert(prev_origin[aa] < i);
                } else {
                    assert(out@[a] == prev[aa]);
                    assert(out@[b] == prev[bb]);
                    assert(origin[a] == prev_origin[aa]);
                    assert(origin[b] == prev_origin[bb]);
                }
            }
            assert forall|m: int| 0 <= m < origin.len() implies #[trigger] origin[m] < i + 1 by {
                if m < k {
                    assert(origin[m] == prev_origin[m]);
                } else if m > k {
                    assert(origin[m] == prev_origin[m - 1]);
                }
            }
            assert forall|a: int, b: int| 0 <= a < b < out@.len() implies sort_leq(
                *sort,
                #[trigger] out@[a],
                #[trigger] out@[b],
            ) by {
                if a == k {
                    assert(out@[b] == prev[b - 1]);
                } else if b == k {
                    assert(out@[a] == prev[a]);
                    if a < k - 1 {
                        assert(sort_leq(*sort, prev[a], prev[k - 1]));
                    }
                } else {
                    let aa = if a < k { a } else { a - 1 };
                    let bb = if b < k { b } else { b - 1 };
                    assert(out@[a] == prev[aa]);
                    assert(out@[b] == prev[bb]);
                }
            }
            assert(input@.subrange(0, i + 1) == input@.subrange(0, i as int).push(x));
        }
        i = i + 1;
    }
    assert(input@.subrange(0, input@.len() as int) == input@);
    assert(stable_order(*sort, input@, out@, origin));
    out
}

/// The elements of `input` that `find` accepts, sorted by `sort`.
pub fn sort_with_filter<T: Copy, P: Fn(&T) -> bool, F: Fn(&T, &T) -> i32>(
    input: &[T],
    find: P,
    sort: F,
) -> (out: Vec<T>)
    requires
        predicate_ok(find),
        comparator_ok(sort),
    ensures
        out@ == sort_with_filter_result(find, sort, input@),
        out@.to_multiset() == input@.filter(|a: T| accepts(find, a)).to_multiset(),
        sorted_by(sort, out@),
        exists|origin: Seq<int>| #[trigger] stable_order(sort, kept_by(find, input@), out@, origin),
{
    let ghost pred = |a: T| accepts(find, a);
    let mut kept: Vec<T> = Vec::new();
    let mut i: usize = 0;
    while i < input.len()
        invariant
            i <= input@.len(),
            predicate_ok(find),
            pred == (|a: T| accepts(find, a)),
            kept@ == input@.subrange(0, i as int).filter(pred),
        decreases input@.len() - i,
    {
        let x = input[i];
        let keep = find(&x);
        proof {
            assert(input@.subrange(0, i + 1) == input@.subrange(0, i as int).push(x));
            input@.subrange(0, i as int).lemma_filter_push(x, pred);
            assert(call_ensures(find, (&x,), keep));
            if keep {
                assert forall|b: bool| #[trigger] call_ensures(find, (&x,), b) implies b by {}
                assert(accepts(find, x));
            } else {
                assert(!accepts(find, x));
            }
            assert(pred(x) == keep);
        }
        if keep {
            kept.push(x);
        }
        i = i + 1;
    }
    assert(input@.subrange(0, input@.len() as int) == input@);
    let ghost k0 = kept@;
    assert(k0 == kept_by(find, input@));
    let r = insertion_sort(kept, &sort);
    proof {
        let o = choose|o: Seq<int>| #[trigger] stable_order(sort, k0, r@, o);
        assert(stable_order(sort, kept_by(find, input@), r@, o));
    }
    r
}

/// A copy of `input` sorted by `sort`.
pub fn sort_array<T: Copy, F: Fn(&T, &T) -> i32>(input: &[T], sort: F) -> (out: Vec<T>)
    requires
        comparator_ok(sort),
    ensures
        out@ == sort_array_result(sort, input@),
        out@.to_multiset() == input@.to_multiset(),
        sorted_by(sort, out@),
        exists|origin: Seq<int>| #[trigger] stable_order(sort, input@, out@, origin),
{
    insertion_sort(vstd::slice::slice_to_vec(input), &sort)
}

} // verus!
