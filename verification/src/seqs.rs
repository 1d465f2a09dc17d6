//! Weighted totals over sequences and lookups by predicate.
use vstd::prelude::*;

verus! {

/// Sum of `weight` over the elements of `s`.
pub open spec fn total<T>(s: Seq<T>, weight: spec_fn(T) -> nat) -> nat
    decreases s.len(),
{
    if s.len() == 0 {
        0
    } else {
        total(s.drop_last(), weight) + weight(s.last())
    }
}

/// Appending an element adds its weight.
pub proof fn lemma_total_push<T>(s: Seq<T>, weight: spec_fn(T) -> nat, x: T)
    ensures
        total(s.push(x), weight) == total(s, weight) + weight(x),
{
    assert(s.push(x).drop_last() =~= s);
}

/// Replacing an element trades its weight for that of the new one.
pub proof fn lemma_total_update<T>(s: Seq<T>, weight: spec_fn(T) -> nat, i: int, x: T)
    requires
        0 <= i < s.len(),
    ensures
        total(s.update(i, x), weight) + weight(s[i]) == total(s, weight) + weight(x),
    decreases s.len(),
{
    if i == s.len() - 1 {
        assert(s.update(i, x).drop_last() =~= s.drop_last());
    } else {
        lemma_total_update(s.drop_last(), weight, i, x);
        assert(s.update(i, x).drop_last() =~= s.drop_last().update(i, x));
    }
}

/// No element weighs more than the total.
pub proof fn lemma_total_covers<T>(s: Seq<T>, weight: spec_fn(T) -> nat, i: int)
    requires
        0 <= i < s.len(),
    ensures
        weight(s[i]) <= total(s, weight),
    decreases s.len(),
{
    if i < s.len() - 1 {
        lemma_total_covers(s.drop_last(), weight, i);
    }
}

/// No prefix weighs more than the whole.
pub proof fn lemma_total_prefix<T>(s: Seq<T>, weight: spec_fn(T) -> nat, i: int)
    requires
        0 <= i <= s.len(),
    ensures
        total(s.take(i), weight) <= total(s, weight),
    decreases s.len(),
{
    if i == s.len() {
        assert(s.take(i) =~= s);
    } else {
        lemma_total_prefix(s.drop_last(), weight, i);
        assert(s.drop_last().take(i) =~= s.take(i));
    }
}

/// Index of the last element of `s` that satisfies `pred`.
pub open spec fn last_index<T>(s: Seq<T>, pred: spec_fn(T) -> bool) -> Option<int>
    decreases s.len(),
{
    if s.len() == 0 {
        None
    } else if pred(s.last()) {
        Some(s.len() - 1)
    } else {
        last_index(s.drop_last(), pred)
    }
}

/// The index found holds an element that satisfies the predicate and none
/// after it does; where none is found no element satisfies it.
pub proof fn lemma_last_index<T>(s: Seq<T>, pred: spec_fn(T) -> bool)
    ensures
        match last_index(s, pred) {
            Some(i) => 0 <= i < s.len() && pred(s[i]) && forall|j: int| i < j < s.len() ==> !pred(s[j]),
            None => forall|j: int| 0 <= j < s.len() ==> !pred(s[j]),
        },
    decreases s.len(),
{
    if s.len() > 0 && !pred(s.last()) {
        lemma_last_index(s.drop_last(), pred);
        let front = s.drop_last();
        assert forall|j: int| 0 <= j < front.len() implies front[j] == s[j] by {}
        match last_index(front, pred) {
            Some(i) => {
                assert forall|j: int| i < j < s.len() implies !pred(s[j]) by {
                    if j < front.len() {
                        assert(!pred(front[j]));
                    }
                }
            },
            None => {
                assert forall|j: int| 0 <= j < s.len() implies !pred(s[j]) by {
                    if j < front.len() {
                        assert(!pred(front[j]));
                    }
                }
            },
        }
    }
}


/// The first `limit` elements of `s`, all of them where it has no more.
pub open spec fn first_n<T>(s: Seq<T>, limit: nat) -> Seq<T> {
    if limit < s.len() {
        s.take(limit as int)
    } else {
        s
    }
}

/// Appending to a sequence extends its first `limit` elements while it has
/// fewer than `limit`, and leaves them as they are afterwards.
pub proof fn lemma_first_n_push<T>(s: Seq<T>, x: T, limit: nat)
    ensures
        first_n(s.push(x), limit) == (if s.len() < limit {
            first_n(s, limit).push(x)
        } else {
            first_n(s, limit)
        }),
        first_n(s, limit).len() == (if s.len() < limit {
            s.len()
        } else {
            limit
        }),
{
    if s.len() >= limit {
        assert(s.push(x).take(limit as int) =~= s.take(limit as int));
        assert(s.take(s.len() as int) =~= s);
    }
}

/// Filtering a range that grows by one element at its end.
pub proof fn lemma_filter_grow_back<T>(s: Seq<T>, lo: int, i: int, pred: spec_fn(T) -> bool)
    requires
        0 <= lo <= i < s.len(),
    ensures
        s.subrange(lo, i + 1).filter(pred) == (if pred(s[i]) {
            s.subrange(lo, i).filter(pred).push(s[i])
        } else {
            s.subrange(lo, i).filter(pred)
        }),
{
    reveal(Seq::filter);
    assert(s.subrange(lo, i + 1).drop_last() =~= s.subrange(lo, i));
}

/// Filtering and reversing a range that grows by one element at its front.
pub proof fn lemma_filter_grow_front<T>(s: Seq<T>, i: int, hi: int, pred: spec_fn(T) -> bool)
    requires
        0 < i <= hi <= s.len(),
    ensures
        s.subrange(i - 1, hi).filter(pred).reverse() == (if pred(s[i - 1]) {
            s.subrange(i, hi).filter(pred).reverse().push(s[i - 1])
        } else {
            s.subrange(i, hi).filter(pred).reverse()
        }),
{
    let x = s[i - 1];
    let rest = s.subrange(i, hi);
    assert(s.subrange(i - 1, hi) =~= seq![x] + rest);
    Seq::filter_distributes_over_add(seq![x], rest, pred);
    assert(seq![x].filter(pred) =~= (if pred(x) {
        seq![x]
    } else {
        Seq::<T>::empty()
    })) by {
        reveal(Seq::filter);
        assert(seq![x].drop_last() =~= Seq::<T>::empty());
        assert(seq![x].last() == x);
        assert(Seq::<T>::empty().filter(pred) =~= Seq::<T>::empty());
    }
    let kept = rest.filter(pred);
    if pred(x) {
        assert((seq![x] + kept).reverse() =~= kept.reverse().push(x));
    } else {
        assert(Seq::<T>::empty() + kept =~= kept);
    }
}

/// The lookup depends only on which elements satisfy the predicate.
pub proof fn lemma_last_index_same<T>(a: Seq<T>, b: Seq<T>, pred: spec_fn(T) -> bool)
    requires
        a.len() == b.len(),
        forall|j: int| 0 <= j < a.len() ==> pred(a[j]) == pred(b[j]),
    ensures
        last_index(a, pred) == last_index(b, pred),
    decreases a.len(),
{
    if a.len() > 0 && !pred(a.last()) {
        lemma_last_index_same(a.drop_last(), b.drop_last(), pred);
    }
}

} // verus!
