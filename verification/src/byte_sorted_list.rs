//! A list of items kept sorted in 256 buckets: an input value picks its bucket
//! by one byte, is looked up there by binary search, and is either merged into
//! an equivalent item or inserted as a new item at its sorted position.
//!
//! What the items are, how an input is keyed and how items merge is given by
//! an implementation of [`SortedListRules`].

use vstd::prelude::*;

verus! {

/// The rules a [`ByteSortedList`] works by: the bucket of an input, the
/// comparison of an input with a stored item (through keys ordered by a strict
/// weak order), how an item is made from an input, and how an input is merged
/// into an existing item.
pub trait SortedListRules: Sized {
    type Store;
    type Input;
    type Key;

    spec fn input_key(v: Self::Input) -> Self::Key;

    spec fn store_key(s: Self::Store) -> Self::Key;

    /// Strict "orders before" on keys.
    spec fn key_less(a: Self::Key, b: Self::Key) -> bool;

    spec fn bucket_of(v: Self::Input) -> u8;

    spec fn made_from(v: Self::Input) -> Self::Store;

    spec fn merged(v: Self::Input, s: Self::Store) -> Self::Store;

    /// `key_less` is a strict weak order.
    proof fn lemma_key_order(a: Self::Key, b: Self::Key, c: Self::Key)
        ensures
            !Self::key_less(a, a),
            Self::key_less(a, b) && Self::key_less(b, c) ==> Self::key_less(a, c),
            !Self::key_less(b, a) && Self::key_less(b, c) ==> Self::key_less(a, c),
            Self::key_less(a, b) && !Self::key_less(c, b) ==> Self::key_less(a, c),
    ;

    /// A new item has the key of its input.
    proof fn lemma_made_from_key(v: Self::Input)
        ensures
            Self::store_key(Self::made_from(v)) == Self::input_key(v),
    ;

    /// Merging keeps an item's key.
    proof fn lemma_merged_key(v: Self::Input, s: Self::Store)
        ensures
            Self::store_key(Self::merged(v, s)) == Self::store_key(s),
    ;

    fn get_bucket(&self, v: &Self::Input) -> (b: u8)
        ensures
            b == Self::bucket_of(*v),
    ;

    /// Negative when `v` orders before `s`, positive when after, else zero.
    fn compare(&self, v: &Self::Input, s: &Self::Store) -> (r: i32)
        ensures
            r < 0 <==> Self::key_less(Self::input_key(*v), Self::store_key(*s)),
            r > 0 <==> Self::key_less(Self::store_key(*s), Self::input_key(*v)),
    ;

    fn new_item(&self, v: &Self::Input) -> (s: Self::Store)
        ensures
            s == Self::made_from(*v),
    ;

    fn merge(&self, v: &Self::Input, s: &mut Self::Store)
        ensures
            *final(s) == Self::merged(*v, *old(s)),
    ;
}

/// `s` orders strictly before the input `v`.
pub open spec fn before<R: SortedListRules>(s: R::Store, v: R::Input) -> bool {
    R::key_less(R::store_key(s), R::input_key(v))
}

/// `s` orders strictly after the input `v`.
pub open spec fn after<R: SortedListRules>(s: R::Store, v: R::Input) -> bool {
    R::key_less(R::input_key(v), R::store_key(s))
}

/// `s` is equivalent to the input `v` (neither orders before the other).
pub open spec fn equivalent<R: SortedListRules>(s: R::Store, v: R::Input) -> bool {
    !before::<R>(s, v) && !after::<R>(s, v)
}

/// The items are in non-decreasing key order.
pub open spec fn sorted_by_key<R: SortedListRules>(l: Seq<R::Store>) -> bool {
    forall|i: int, j: int|
        0 <= i < j < l.len() ==> !R::key_less(#[trigger] R::store_key(l[j]), #[trigger] R::store_key(l[i]))
}

/// `idx` is the first position whose item does not order before `v`.
pub open spec fn is_lower_bound<R: SortedListRules>(l: Seq<R::Store>, v: R::Input, idx: int) -> bool {
    &&& 0 <= idx <= l.len()
    &&& forall|k: int| 0 <= k < idx ==> before::<R>(#[trigger] l[k], v)
    &&& forall|k: int| idx <= k < l.len() ==> !before::<R>(#[trigger] l[k], v)
}

/// Some item of `l` is equivalent to `v`.
pub open spec fn has_equivalent<R: SortedListRules>(l: Seq<R::Store>, v: R::Input) -> bool {
    exists|k: int| 0 <= k < l.len() && equivalent::<R>(#[trigger] l[k], v)
}

/// The items of the first `n` buckets, bucket after bucket.
pub open spec fn concat_buckets<T>(bs: Seq<Seq<T>>, n: int) -> Seq<T>
    decreases n,
{
    if n <= 0 {
        Seq::empty()
    } else {
        concat_buckets(bs, n - 1) + bs[n - 1]
    }
}

/// The item list after `v` is added to `l` at the lower bound `idx`: merged into
/// the equivalent item there, or inserted as a new item.
pub open spec fn added<R: SortedListRules>(l: Seq<R::Store>, v: R::Input, idx: int) -> Seq<R::Store> {
    if has_equivalent::<R>(l, v) {
        l.update(idx, R::merged(v, l[idx]))
    } else {
        l.insert(idx, R::made_from(v))
    }
}

/// The equivalent items `l[idx..j]` were each checked with `exact` and rejected.
pub open spec fn rejected_run<R: SortedListRules, F: Fn(&R::Input, &R::Store) -> bool>(
    l: Seq<R::Store>,
    v: R::Input,
    exact: F,
    idx: int,
    j: int,
) -> bool {
    &&& idx <= j <= l.len()
    &&& forall|k: int|
        idx <= k < j ==> equivalent::<R>(#[trigger] l[k], v) && call_ensures(exact, (&v, &l[k]), false)
}

/// The bucket `nl` that results from adding `v` to `l` with the check `exact`:
/// the scan of equivalent items from the lower bound `idx` stopped at `j`, and
/// either merged `v` into an accepted item there or inserted a new item there.
pub open spec fn added_exact<R: SortedListRules, F: Fn(&R::Input, &R::Store) -> bool>(
    l: Seq<R::Store>,
    v: R::Input,
    exact: F,
    idx: int,
    j: int,
    nl: Seq<R::Store>,
) -> bool {
    &&& is_lower_bound::<R>(l, v, idx)
    &&& rejected_run::<R, F>(l, v, exact, idx, j)
    &&& {
        ||| (j < l.len() && equivalent::<R>(l[j], v) && call_ensures(exact, (&v, &l[j]), true)
            && nl == l.update(j, R::merged(v, l[j])))
        ||| ((j == l.len() || !equivalent::<R>(l[j], v)) && nl == l.insert(j, R::made_from(v)))
    }
}

/// A sorted list split over 256 buckets.
pub struct ByteSortedList<R: SortedListRules> {
    buckets: Vec<Vec<R::Store>>,
    rules: R,
}

impl<R: SortedListRules> View for ByteSortedList<R> {
    type V = Seq<Seq<R::Store>>;

    closed spec fn view(&self) -> Seq<Seq<R::Store>> {
        self.buckets@.map_values(|b: Vec<R::Store>| b@)
    }
}

proof fn lemma_concat_len_mono<T>(bs: Seq<Seq<T>>, m: int, n: int)
    requires
        0 <= m <= n,
    ensures
        concat_buckets(bs, m).len() <= concat_buckets(bs, n).len(),
    decreases n - m,
{
    if m < n {
        lemma_concat_len_mono(bs, m, n - 1);
    }
}

proof fn lemma_concat_len_update<T>(bs: Seq<Seq<T>>, b: int, nb: Seq<T>, n: int)
    requires
        0 <= b < bs.len(),
        0 <= n <= bs.len(),
    ensures
        concat_buckets(bs.update(b, nb), n).len() == concat_buckets(bs, n).len() + (if b < n {
            nb.len() - bs[b].len()
        } else {
            0
        }),
    decreases n,
{
    if n > 0 {
        lemma_concat_len_update(bs, b, nb, n - 1);
    }
}

impl<R: SortedListRules> ByteSortedList<R> {
    /// 256 buckets, each sorted by key, holding at most `usize::MAX` items in all.
    pub open spec fn well_formed(&self) -> bool {
        &&& self@.len() == 256
        &&& forall|b: int| 0 <= b < 256 ==> sorted_by_key::<R>(#[trigger] self@[b])
        &&& concat_buckets(self@, 256).len() <= usize::MAX
    }

    /// The rules this list works by.
    pub closed spec fn rules(&self) -> R {
        self.rules
    }

    /// An empty list working by `rules`.
    pub fn new(rules: R) -> (res: Self)
        ensures
            res.well_formed(),
            res.rules() == rules,
            forall|b: int| 0 <= b < 256 ==> (#[trigger] res@[b]).len() == 0,
    {
        let mut buckets: Vec<Vec<R::Store>> = Vec::new();
        let mut i: usize = 0;
        while i < 256
            invariant
                i <= 256,
                buckets@.len() == i,
                forall|b: int| 0 <= b < i ==> (#[trigger] buckets@[b])@.len() == 0,
            decreases 256 - i,
        {
            buckets.push(Vec::new());
            i = i + 1;
        }
        let res = ByteSortedList { buckets, rules };
        assert forall|b: int| 0 <= b < 256 implies (#[trigger] res@[b]).len() == 0 by {
            assert(res@[b] == res.buckets@[b]@);
        }
        assert forall|n: int| 0 <= n <= 256 implies concat_buckets(res@, n).len() == 0 by {
            lemma_concat_zero(res@, n);
        }
        res
    }

    /// Binary search for `value` in the sorted `search_list`: the first position
    /// whose item does not order before `value`, and 0 exactly when the item
    /// there is equivalent to `value`.
    fn search_on(&self, search_value: &R::Input, search_list: &[R::Store]) -> (res: (i32, usize))
        requires
            sorted_by_key::<R>(search_list@),
        ensures
            is_lower_bound::<R>(search_list@, *search_value, res.1 as int),
            (res.0 == 0) <==> (res.1 < search_list@.len() && equivalent::<R>(
                search_list@[res.1 as int],
                *search_value,
            )),
    {
        let ghost l = search_list@;
        let ghost v = *search_value;
        let mut bottom: usize = 0;
        let mut top: usize = search_list.len();
        let mut mid: usize = 0;
        let mut res: i32 = -1;

        while bottom < top && res != 0
            invariant
                l == search_list@,
                v == *search_value,
                sorted_by_key::<R>(l),
                bottom <= top <= l.len(),
                forall|k: int| 0 <= k < bottom ==> before::<R>(#[trigger] l[k], v),
                forall|k: int| top <= k < l.len() ==> after::<R>(#[trigger] l[k], v),
                res == 0 ==> mid < l.len() && equivalent::<R>(l[mid as int], v),
                res != 0 ==> (bottom < top || (if res > 0 {
                    mid + 1
                } else {
                    mid as int
                }) == bottom),
            decreases top - bottom, (if res == 0 { 0int } else { 1int }),
        {
            mid = bottom + (top - bottom) / 2;
            res = self.rules.compare(search_value, &search_list[mid]);
            proof {
                R::lemma_key_order(R::store_key(l[mid as int]), R::input_key(v), R::store_key(l[mid as int]));
            }
            if res < 0 {
                assert forall|k: int| mid <= k < l.len() implies after::<R>(#[trigger] l[k], v) by {
                    if k > mid {
                        R::lemma_key_order(R::input_key(v), R::store_key(l[mid as int]), R::store_key(l[k]));
                    }
                }
                top = mid;
            } else if res > 0 {
                assert forall|k: int| 0 <= k <= mid implies before::<R>(#[trigger] l[k], v) by {
                    if k < mid {
                        R::lemma_key_order(R::store_key(l[k]), R::store_key(l[mid as int]), R::input_key(v));
                    }
                }
                bottom = mid + 1;
            }
        }
        let mut index = mid;

        if res == 0 {
            while index > 0
                invariant
                    l == search_list@,
                    v == *search_value,
                    sorted_by_key::<R>(l),
                    index <= mid < l.len(),
                    equivalent::<R>(l[index as int], v),
                ensures
                    index == 0 || !equivalent::<R>(l[index - 1], v),
                decreases index,
            {
                let res1 = self.rules.compare(search_value, &search_list[index - 1]);
                if res1 == 0 {
                    index = index - 1;
                } else {
                    break;
                }
            }
            proof {
                let ik = R::input_key(v);
                let si = R::store_key(l[index as int]);
                if index > 0 {
                    let sp = R::store_key(l[index - 1]);
                    R::lemma_key_order(ik, sp, si);
                    assert(before::<R>(l[index - 1], v));
                }
                assert forall|k: int| 0 <= k < index implies before::<R>(#[trigger] l[k], v) by {
                    if k < index - 1 {
                        R::lemma_key_order(R::store_key(l[k]), R::store_key(l[index - 1]), ik);
                    }
                }
                assert forall|k: int| index <= k < l.len() implies !before::<R>(#[trigger] l[k], v) by {
                    if k > index {
                        R::lemma_key_order(si, R::store_key(l[k]), ik);
                    }
                }
            }
        } else if res > 0 {
            index = index + 1;
        }
        proof {
            if res != 0 {
                assert forall|k: int| index <= k < l.len() implies !before::<R>(#[trigger] l[k], v) by {
                    R::lemma_key_order(R::input_key(v), R::store_key(l[k]), R::input_key(v));
                }
            }
        }
        (res, index)
    }

    /// The first item of `value`'s bucket that is equivalent to `value`, cloned.
    pub fn find(&self, value: &R::Input) -> (res: Option<R::Store>)
        where R::Store: Clone,
        requires
            self.well_formed(),
        ensures
            res is Some <==> has_equivalent::<R>(self@[R::bucket_of(*value) as int], *value),
            res matches Some(s) ==> exists|idx: int|
                is_lower_bound::<R>(self@[R::bucket_of(*value) as int], *value, idx)
                    && cloned(self@[R::bucket_of(*value) as int][idx], s),
    {
        let bucket = self.rules.get_bucket(value) as usize;
        let list = &self.buckets[bucket];
        assert(list@ == self@[bucket as int]);
        let (found, index) = self.search_on(value, list.as_slice());
        proof {
            lemma_lower_bound_equivalent::<R>(list@, *value, index as int);
        }
        if found == 0 {
            Some(list[index].clone())
        } else {
            None
        }
    }

    proof fn lemma_view_update(&self, old_buckets: Seq<Vec<R::Store>>, b: int, nb: Vec<R::Store>)
        requires
            0 <= b < old_buckets.len(),
            self.buckets@ == old_buckets.update(b, nb),
        ensures
            self@ == old_buckets.map_values(|x: Vec<R::Store>| x@).update(b, nb@),
    {
        assert(self@ =~= old_buckets.map_values(|x: Vec<R::Store>| x@).update(b, nb@));
    }

    proof fn lemma_well_formed_after(&self, old_view: Seq<Seq<R::Store>>, b: int, nl: Seq<R::Store>)
        requires
            old_view.len() == 256,
            forall|k: int| 0 <= k < 256 ==> sorted_by_key::<R>(#[trigger] old_view[k]),
            0 <= b < 256,
            self@ == old_view.update(b, nl),
            sorted_by_key::<R>(nl),
            concat_buckets(old_view, 256).len() + nl.len() - old_view[b].len() <= usize::MAX,
        ensures
            self.well_formed(),
            concat_buckets(self@, 256).len() == concat_buckets(old_view, 256).len() + nl.len()
                - old_view[b].len(),
    {
        lemma_concat_len_update(old_view, b, nl, 256);
        assert forall|k: int| 0 <= k < 256 implies sorted_by_key::<R>(#[trigger] self@[k]) by {
            if k != b {
                assert(self@[k] == old_view[k]);
            }
        }
    }

    /// Adds `value` to its bucket: merged into the first equivalent item if
    /// there is one, else inserted as a new item at its sorted position.
    pub fn add_find(&mut self, value: &R::Input)
        requires
            old(self).well_formed(),
            concat_buckets(old(self)@, 256).len() < usize::MAX,
        ensures
            final(self).well_formed(),
            final(self).rules() == old(self).rules(),
            exists|idx: int|
                is_lower_bound::<R>(old(self)@[R::bucket_of(*value) as int], *value, idx)
                    && final(self)@ == old(self)@.update(
                    R::bucket_of(*value) as int,
                    added::<R>(old(self)@[R::bucket_of(*value) as int], *value, idx),
                ),
    {
        let ghost old_view = self@;
        let ghost old_buckets = self.buckets@;
        let bucket = self.rules.get_bucket(value) as usize;
        let mut list: Vec<R::Store> = Vec::new();
        self.buckets.set_and_swap(bucket, &mut list);
        assert(list@ == old_view[bucket as int]);
        let (found, index) = self.search_on(value, list.as_slice());
        proof {
            lemma_lower_bound_equivalent::<R>(list@, *value, index as int);
        }
        let ghost l = list@;
        if found == 0 {
            let mut item = self.rules.new_item(value);
            list.set_and_swap(index, &mut item);
            self.rules.merge(value, &mut item);
            list.set_and_swap(index, &mut item);
            proof {
                R::lemma_merged_key(*value, l[index as int]);
                lemma_sorted_update::<R>(l, index as int, R::merged(*value, l[index as int]));
            }
            assert(list@ =~= added::<R>(l, *value, index as int));
        } else {
            let item = self.rules.new_item(value);
            proof {
                assert forall|k: int| index <= k < l.len() implies !before::<R>(#[trigger] l[k], *value)
                    && !equivalent::<R>(l[k], *value) by {}
                assert forall|k: int| 0 <= k < index implies !after::<R>(#[trigger] l[k], *value) by {
                    R::lemma_key_order(R::store_key(l[k]), R::input_key(*value), R::store_key(l[k]));
                }
                lemma_sorted_insert::<R>(l, index as int, *value);
            }
            list.insert(index, item);
            assert(list@ =~= added::<R>(l, *value, index as int));
        }
        let ghost nl = list@;
        self.buckets.set_and_swap(bucket, &mut list);
        assert(self.buckets@ =~= old_buckets.update(bucket as int, self.buckets@[bucket as int]));
        proof {
            self.lemma_view_update(old_buckets, bucket as int, self.buckets@[bucket as int]);
            lemma_concat_len_mono(old_view, 256, 256);
            self.lemma_well_formed_after(old_view, bucket as int, nl);
        }
    }

    /// Adds `value` to its bucket: among the items equivalent to `value`, in
    /// order, the first one that `exact` accepts gets `value` merged into it;
    /// when none does, a new item is inserted after them.
    pub fn add_find_with_exact<F: Fn(&R::Input, &R::Store) -> bool>(&mut self, value: &R::Input, exact: F)
        requires
            old(self).well_formed(),
            concat_buckets(old(self)@, 256).len() < usize::MAX,
            forall|s: R::Store| call_requires(exact, (value, &s)),
        ensures
            final(self).well_formed(),
            final(self).rules() == old(self).rules(),
            exists|idx: int, j: int, nl: Seq<R::Store>|
                added_exact::<R, F>(old(self)@[R::bucket_of(*value) as int], *value, exact, idx, j, nl)
                    && final(self)@ == old(self)@.update(R::bucket_of(*value) as int, nl),
    {
        let ghost old_view = self@;
        let ghost old_buckets = self.buckets@;
        let bucket = self.rules.get_bucket(value) as usize;
        let mut list: Vec<R::Store> = Vec::new();
        self.buckets.set_and_swap(bucket, &mut list);
        assert(list@ == old_view[bucket as int]);
        let (found, mut index) = self.search_on(value, list.as_slice());
        let ghost l = list@;
        let ghost idx = index as int;
        proof {
            lemma_lower_bound_equivalent::<R>(l, *value, idx);
        }
        let mut merged_at: bool = false;
        if found == 0 {
            let top = list.len();
            while index < top
                invariant_except_break
                    list@ == l,
                    !merged_at,
                invariant
                    top == l.len(),
                    rejected_run::<R, F>(l, *value, exact, idx, index as int),
                    forall|s: R::Store| call_requires(exact, (value, &s)),
                ensures
                    !merged_at ==> list@ == l && rejected_run::<R, F>(l, *value, exact, idx, index as int)
                        && (index == l.len() || !equivalent::<R>(l[index as int], *value)),
                    merged_at ==> rejected_run::<R, F>(l, *value, exact, idx, index as int)
                        && index < l.len() && equivalent::<R>(l[index as int], *value)
                        && call_ensures(exact, (value, &l[index as int]), true)
                        && list@ == l.update(index as int, R::merged(*value, l[index as int])),
                decreases top - index,
            {
                let int_res = self.rules.compare(value, &list[index]);
                if int_res != 0 {
                    break;
                }
                if exact(value, &list[index]) {
                    let mut item = self.rules.new_item(value);
                    list.set_and_swap(index, &mut item);
                    self.rules.merge(value, &mut item);
                    list.set_and_swap(index, &mut item);
                    merged_at = true;
                    assert(list@ =~= l.update(index as int, R::merged(*value, l[index as int])));
                    break;
                }
                index = index + 1;
            }
        }
        let ghost j = index as int;
        if merged_at {
            proof {
                R::lemma_merged_key(*value, l[j]);
                lemma_sorted_update::<R>(l, j, R::merged(*value, l[j]));
            }
        } else {
            let item = self.rules.new_item(value);
            proof {
                assert forall|k: int| j <= k < l.len() implies !before::<R>(#[trigger] l[k], *value)
                    && !equivalent::<R>(l[k], *value) by {
                    if k > j {
                        R::lemma_key_order(R::input_key(*value), R::store_key(l[j]), R::store_key(l[k]));
                    }
                }
                assert forall|k: int| 0 <= k < j implies !after::<R>(#[trigger] l[k], *value) by {
                    if k < idx {
                        R::lemma_key_order(R::store_key(l[k]), R::input_key(*value), R::store_key(l[k]));
                    }
                }
                lemma_sorted_insert::<R>(l, j, *value);
            }
            list.insert(index, item);
        }
        let ghost nl = list@;
        assert(added_exact::<R, F>(l, *value, exact, idx, j, nl));
        self.buckets.set_and_swap(bucket, &mut list);
        assert(self.buckets@ =~= old_buckets.update(bucket as int, self.buckets@[bucket as int]));
        proof {
            self.lemma_view_update(old_buckets, bucket as int, self.buckets@[bucket as int]);
            lemma_concat_len_mono(old_view, 256, 256);
            self.lemma_well_formed_after(old_view, bucket as int, nl);
        }
    }

    /// Number of items in all buckets.
    pub fn count(&self) -> (res: usize)
        requires
            self.well_formed(),
        ensures
            res == concat_buckets(self@, 256).len(),
    {
        let mut total: usize = 0;
        let mut i: usize = 0;
        while i < 256
            invariant
                i <= 256,
                self.well_formed(),
                total == concat_buckets(self@, i as int).len(),
            decreases 256 - i,
        {
            proof {
                lemma_concat_len_mono(self@, i + 1, 256);
            }
            assert(self.buckets@[i as int]@ == self@[i as int]);
            total = total + self.buckets[i].len();
            i = i + 1;
        }
        total
    }

    /// Clones of all items, bucket after bucket, each bucket in its sorted order.
    pub fn to_vec(&self) -> (res: Vec<R::Store>)
        where R::Store: Clone,
        requires
            self.well_formed(),
        ensures
            res@.len() == concat_buckets(self@, 256).len(),
            forall|k: int|
                0 <= k < res@.len() ==> cloned(concat_buckets(self@, 256)[k], #[trigger] res@[k]),
    {
        let mut out: Vec<R::Store> = Vec::new();
        let mut i: usize = 0;
        while i < 256
            invariant
                i <= 256,
                self.well_formed(),
                out@.len() == concat_buckets(self@, i as int).len(),
                forall|k: int|
                    0 <= k < out@.len() ==> cloned(concat_buckets(self@, i as int)[k], #[trigger] out@[k]),
            decreases 256 - i,
        {
            let list = &self.buckets[i];
            assert(list@ == self@[i as int]);
            let ghost before_len = out@.len();
            let mut j: usize = 0;
            while j < list.len()
                invariant
                    i < 256,
                    self.well_formed(),
                    list@ == self@[i as int],
                    j <= list@.len(),
                    before_len == concat_buckets(self@, i as int).len(),
                    out@.len() == before_len + j,
                    forall|k: int|
                        0 <= k < before_len ==> cloned(concat_buckets(self@, i as int)[k], #[trigger] out@[k]),
                    forall|k: int| 0 <= k < j ==> cloned(list@[k], #[trigger] out@[before_len + k]),
                decreases list@.len() - j,
            {
                let c = list[j].clone();
                out.push(c);
                j = j + 1;
            }
            proof {
                let prev = concat_buckets(self@, i as int);
                let next = concat_buckets(self@, i + 1);
                assert(next == prev + self@[i as int]);
                assert forall|k: int| 0 <= k < out@.len() implies cloned(next[k], #[trigger] out@[k]) by {
                    if k < before_len {
                    } else {
                        assert(next[k] == list@[k - before_len]);
                        assert(out@[before_len + (k - before_len)] == out@[k]);
                    }
                }
            }
            i = i + 1;
        }
        out
    }
}

/// After an input is added to a sorted bucket, the bucket holds an item
/// equivalent to it, so a lookup of the same input finds it.
pub proof fn law_added_is_found<R: SortedListRules>(l: Seq<R::Store>, v: R::Input, idx: int)
    requires
        sorted_by_key::<R>(l),
        is_lower_bound::<R>(l, v, idx),
    ensures
        has_equivalent::<R>(added::<R>(l, v, idx), v),
{
    lemma_lower_bound_equivalent::<R>(l, v, idx);
    let a = added::<R>(l, v, idx);
    if has_equivalent::<R>(l, v) {
        R::lemma_merged_key(v, l[idx]);
        assert(equivalent::<R>(a[idx], v));
    } else {
        R::lemma_made_from_key(v);
        R::lemma_key_order(R::input_key(v), R::input_key(v), R::input_key(v));
        assert(equivalent::<R>(a[idx], v));
    }
}

/// Adding an input grows its bucket by one item exactly when no item was
/// equivalent to it; otherwise the bucket keeps its size.
pub proof fn law_added_count<R: SortedListRules>(l: Seq<R::Store>, v: R::Input, idx: int)
    requires
        sorted_by_key::<R>(l),
        is_lower_bound::<R>(l, v, idx),
    ensures
        added::<R>(l, v, idx).len() == l.len() + if has_equivalent::<R>(l, v) {
            0int
        } else {
            1int
        },
{
    lemma_lower_bound_equivalent::<R>(l, v, idx);
}

/// A freshly built list counts no item.
pub proof fn law_new_list_counts_nothing<T>(bs: Seq<Seq<T>>)
    requires
        bs.len() == 256,
        forall|b: int| 0 <= b < 256 ==> (#[trigger] bs[b]).len() == 0,
    ensures
        concat_buckets(bs, 256).len() == 0,
{
    lemma_concat_zero(bs, 256);
}

/// The list's count is the length of its contents, bucket after bucket, and
/// adding an input that no stored item is equivalent to raises it by one;
/// adding one that is equivalent to a stored item leaves it unchanged.
pub proof fn law_count_after_add<R: SortedListRules>(bs: Seq<Seq<R::Store>>, v: R::Input, idx: int)
    requires
        bs.len() == 256,
        sorted_by_key::<R>(bs[R::bucket_of(v) as int]),
        is_lower_bound::<R>(bs[R::bucket_of(v) as int], v, idx),
    ensures
        concat_buckets(bs.update(R::bucket_of(v) as int, added::<R>(bs[R::bucket_of(v) as int], v, idx)), 256).len()
            == concat_buckets(bs, 256).len() + if has_equivalent::<R>(bs[R::bucket_of(v) as int], v) {
            0int
        } else {
            1int
        },
{
    let b = R::bucket_of(v) as int;
    law_added_count::<R>(bs[b], v, idx);
    lemma_concat_len_update(bs, b, added::<R>(bs[b], v, idx), 256);
}

proof fn lemma_lower_bound_equivalent<R: SortedListRules>(l: Seq<R::Store>, v: R::Input, idx: int)
    requires
        sorted_by_key::<R>(l),
        is_lower_bound::<R>(l, v, idx),
    ensures
        has_equivalent::<R>(l, v) <==> (idx < l.len() && equivalent::<R>(l[idx], v)),
{
    if has_equivalent::<R>(l, v) {
        let k = choose|k: int| 0 <= k < l.len() && equivalent::<R>(#[trigger] l[k], v);
        assert(k >= idx);
        if k > idx {
            R::lemma_key_order(R::input_key(v), R::store_key(l[idx]), R::store_key(l[k]));
        }
    }
    if idx < l.len() && equivalent::<R>(l[idx], v) {
        assert(equivalent::<R>(l[idx], v));
    }
}

proof fn lemma_sorted_update<R: SortedListRules>(l: Seq<R::Store>, i: int, s: R::Store)
    requires
        sorted_by_key::<R>(l),
        0 <= i < l.len(),
        R::store_key(s) == R::store_key(l[i]),
    ensures
        sorted_by_key::<R>(l.update(i, s)),
{
    let n = l.update(i, s);
    assert forall|a: int, b: int| 0 <= a < b < n.len() implies !R::key_less(
        #[trigger] R::store_key(n[b]),
        #[trigger] R::store_key(n[a]),
    ) by {
        assert(R::store_key(n[a]) == R::store_key(l[a]));
        assert(R::store_key(n[b]) == R::store_key(l[b]));
    }
}

proof fn lemma_sorted_insert<R: SortedListRules>(l: Seq<R::Store>, j: int, v: R::Input)
    requires
        sorted_by_key::<R>(l),
        0 <= j <= l.len(),
        forall|k: int| 0 <= k < j ==> !after::<R>(#[trigger] l[k], v),
        forall|k: int| j <= k < l.len() ==> !before::<R>(#[trigger] l[k], v) && !equivalent::<R>(l[k], v),
    ensures
        sorted_by_key::<R>(l.insert(j, R::made_from(v))),
{
    let s = R::made_from(v);
    R::lemma_made_from_key(v);
    let n = l.insert(j, s);
    assert forall|a: int, b: int| 0 <= a < b < n.len() implies !R::key_less(
        #[trigger] R::store_key(n[b]),
        #[trigger] R::store_key(n[a]),
    ) by {
        if a == j {
            let k = b - 1;
            assert(n[b] == l[k]);
            R::lemma_key_order(R::store_key(l[k]), R::input_key(v), R::store_key(l[k]));
        } else if b == j {
            assert(n[a] == l[a]);
        } else {
            let aa = if a < j { a } else { a - 1 };
            let bb = if b < j { b } else { b - 1 };
            assert(n[a] == l[aa]);
            assert(n[b] == l[bb]);
        }
    }
}

proof fn lemma_concat_zero<T>(bs: Seq<Seq<T>>, n: int)
    requires
        0 <= n <= bs.len(),
        forall|b: int| 0 <= b < bs.len() ==> (#[trigger] bs[b]).len() == 0,
    ensures
        concat_buckets(bs, n).len() == 0,
    decreases n,
{
    if n > 0 {
        lemma_concat_zero(bs, n - 1);
    }
}

} // verus!

verus! {

/// Rules that count occurrences of (size, CRC) keys: items are a key and a
/// count, bucketed by the first CRC byte and ordered by size, then CRC bytes.
pub struct CrcCountRules;

/// Numeric key of a (size, CRC) pair: size first, then the CRC read big-endian.
pub open spec fn crc_key_number(k: crate::hash_keys::CrcKey) -> int {
    k.0 * 4294967296 + k.1@[0] * 16777216 + k.1@[1] * 65536 + k.1@[2] * 256 + k.1@[3]
}

impl SortedListRules for CrcCountRules {
    type Store = (crate::hash_keys::CrcKey, u32);
    type Input = crate::hash_keys::CrcKey;
    type Key = int;

    open spec fn input_key(v: Self::Input) -> int {
        crc_key_number(v)
    }

    open spec fn store_key(s: Self::Store) -> int {
        crc_key_number(s.0)
    }

    open spec fn key_less(a: int, b: int) -> bool {
        a < b
    }

    open spec fn bucket_of(v: Self::Input) -> u8 {
        v.1@[0]
    }

    open spec fn made_from(v: Self::Input) -> Self::Store {
        (v, 1)
    }

    open spec fn merged(v: Self::Input, s: Self::Store) -> Self::Store {
        (s.0, if s.1 < u32::MAX { (s.1 + 1) as u32 } else { s.1 })
    }

    proof fn lemma_key_order(a: int, b: int, c: int) {
    }

    proof fn lemma_made_from_key(v: Self::Input) {
    }

    proof fn lemma_merged_key(v: Self::Input, s: Self::Store) {
    }

    fn get_bucket(&self, v: &Self::Input) -> (b: u8) {
        v.1[0]
    }

    fn compare(&self, v: &Self::Input, s: &Self::Store) -> (r: i32) {
        let a = v;
        let b = &s.0;
        if a.0 < b.0 {
            return -1;
        }
        if a.0 > b.0 {
            return 1;
        }
        let (x, y) = (a.1, b.1);
        if x[0] != y[0] {
            return if x[0] < y[0] { -1 } else { 1 };
        }
        if x[1] != y[1] {
            return if x[1] < y[1] { -1 } else { 1 };
        }
        if x[2] != y[2] {
            return if x[2] < y[2] { -1 } else { 1 };
        }
        if x[3] != y[3] {
            return if x[3] < y[3] { -1 } else { 1 };
        }
        0
    }

    fn new_item(&self, v: &Self::Input) -> (s: Self::Store) {
        (*v, 1)
    }

    fn merge(&self, v: &Self::Input, s: &mut Self::Store) {
        if s.1 < u32::MAX {
            s.1 = s.1 + 1;
        }
    }
}

} // verus!
