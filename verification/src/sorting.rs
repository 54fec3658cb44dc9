//! Sorting by name, as a mathematical function.
//!
//! `sorted_by_key` is the stable sort of a sequence by the names of its
//! items. The lemmas state what callers rely on: the result is ordered, it is
//! a rearrangement of the input, and it does not depend on the order of the
//! input when no name occurs twice.
use crate::names::{
    lemma_name_le_transitive, lemma_name_lt_asymmetric, lemma_name_lt_connected,
    lemma_name_lt_irreflexive, lemma_name_lt_transitive, name_le, name_lt,
};
use vstd::prelude::*;
use vstd::seq_lib::*;

verus! {

/// An item that is sorted by a name.
pub trait Keyed {
    /// The name by which the item is sorted.
    spec fn sort_key(&self) -> Seq<char>;
}

/// The names of the items of `s`, in order.
pub open spec fn keys_of<T: Keyed>(s: Seq<T>) -> Seq<Seq<char>> {
    Seq::new(s.len(), |i: int| s[i].sort_key())
}

/// No name is followed by a smaller one.
pub open spec fn ordered(keys: Seq<Seq<char>>) -> bool {
    forall|i: int, j: int| 0 <= i < j < keys.len() ==> name_le(keys[i], keys[j])
}

/// Every name is followed by greater ones only.
pub open spec fn strictly_ordered(keys: Seq<Seq<char>>) -> bool {
    forall|i: int, j: int| 0 <= i < j < keys.len() ==> name_lt(keys[i], keys[j])
}

/// Where a new item named `k` goes: behind the last name that is not greater
/// than `k`, found from the back.
pub open spec fn upper_bound(keys: Seq<Seq<char>>, k: Seq<char>) -> int
    decreases keys.len(),
{
    if keys.len() > 0 && name_lt(k, keys.last()) {
        upper_bound(keys.drop_last(), k)
    } else {
        keys.len() as int
    }
}

/// `s` sorted by name. Items with equal names keep their order.
pub open spec fn sorted_by_key<T: Keyed>(s: Seq<T>) -> Seq<T>
    decreases s.len(),
{
    if s.len() == 0 {
        s
    } else {
        let head = sorted_by_key(s.drop_last());
        head.insert(upper_bound(keys_of(head), s.last().sort_key()), s.last())
    }
}

/// `upper_bound` lies within the sequence, every name from it on is greater
/// than `k`, and the name just before it is not.
pub proof fn lemma_upper_bound(keys: Seq<Seq<char>>, k: Seq<char>)
    ensures
        0 <= upper_bound(keys, k) <= keys.len(),
        forall|i: int| upper_bound(keys, k) <= i < keys.len() ==> name_lt(k, #[trigger] keys[i]),
        upper_bound(keys, k) > 0 ==> name_le(keys[upper_bound(keys, k) - 1], k),
    decreases keys.len(),
{
    if keys.len() > 0 && name_lt(k, keys.last()) {
        let init = keys.drop_last();
        lemma_upper_bound(init, k);
        assert forall|i: int| upper_bound(keys, k) <= i < keys.len() implies name_lt(
            k,
            #[trigger] keys[i],
        ) by {
            if i < init.len() {
                assert(keys[i] == init[i]);
            }
        }
        if upper_bound(keys, k) > 0 {
            assert(keys[upper_bound(keys, k) - 1] == init[upper_bound(init, k) - 1]);
        }
    }
}

/// In an ordered sequence no name before `upper_bound` is greater than `k`.
pub proof fn lemma_upper_bound_ordered(keys: Seq<Seq<char>>, k: Seq<char>)
    requires
        ordered(keys),
    ensures
        forall|i: int| 0 <= i < upper_bound(keys, k) ==> name_le(#[trigger] keys[i], k),
{
    lemma_upper_bound(keys, k);
    let p = upper_bound(keys, k);
    assert forall|i: int| 0 <= i < p implies name_le(#[trigger] keys[i], k) by {
        if i < p - 1 {
            lemma_name_le_transitive(keys[i], keys[p - 1], k);
        }
    }
}

/// Sorting keeps the number of items.
pub proof fn lemma_sorted_len<T: Keyed>(s: Seq<T>)
    ensures
        sorted_by_key(s).len() == s.len(),
    decreases s.len(),
{
    if s.len() > 0 {
        let head = sorted_by_key(s.drop_last());
        lemma_sorted_len(s.drop_last());
        lemma_upper_bound(keys_of(head), s.last().sort_key());
    }
}

/// Sorting rearranges: each item occurs in the result as often as in the
/// input.
pub proof fn lemma_sorted_permutes<T: Keyed>(s: Seq<T>)
    ensures
        sorted_by_key(s).to_multiset() == s.to_multiset(),
    decreases s.len(),
{
    if s.len() > 0 {
        let head = sorted_by_key(s.drop_last());
        lemma_sorted_permutes(s.drop_last());
        lemma_upper_bound(keys_of(head), s.last().sort_key());
        to_multiset_insert(head, upper_bound(keys_of(head), s.last().sort_key()), s.last());
        to_multiset_build(s.drop_last(), s.last());
        assert(s.drop_last().push(s.last()) =~= s);
    }
}

/// The result of sorting is ordered.
pub proof fn lemma_sorted_ordered<T: Keyed>(s: Seq<T>)
    ensures
        ordered(keys_of(sorted_by_key(s))),
    decreases s.len(),
{
    if s.len() > 0 {
        let head = sorted_by_key(s.drop_last());
        let k = s.last().sort_key();
        let p = upper_bound(keys_of(head), k);
        let out = sorted_by_key(s);
        lemma_sorted_ordered(s.drop_last());
        lemma_upper_bound(keys_of(head), k);
        lemma_upper_bound_ordered(keys_of(head), k);
        assert forall|i: int, j: int| 0 <= i < j < keys_of(out).len() implies name_le(
            keys_of(out)[i],
            keys_of(out)[j],
        ) by {
            if j < p {
                assert(keys_of(out)[i] == keys_of(head)[i]);
                assert(keys_of(out)[j] == keys_of(head)[j]);
            } else if j == p {
                assert(keys_of(out)[i] == keys_of(head)[i]);
            } else if i < p {
                assert(keys_of(out)[i] == keys_of(head)[i]);
                assert(keys_of(out)[j] == keys_of(head)[j - 1]);
            } else if i == p {
                assert(keys_of(out)[j] == keys_of(head)[j - 1]);
                lemma_name_lt_asymmetric(k, keys_of(head)[j - 1]);
            } else {
                assert(keys_of(out)[i] == keys_of(head)[i - 1]);
                assert(keys_of(out)[j] == keys_of(head)[j - 1]);
            }
        }
    }
}

/// Every item of the sorted sequence is an item of the input, and the other
/// way round.
pub proof fn lemma_sorted_same_items<T: Keyed>(s: Seq<T>)
    ensures
        forall|x: T| sorted_by_key(s).contains(x) <==> s.contains(x),
{
    lemma_sorted_permutes(s);
    assert forall|x: T| sorted_by_key(s).contains(x) <==> s.contains(x) by {
        to_multiset_contains(sorted_by_key(s), x);
        to_multiset_contains(s, x);
    }
}

/// Where no name occurs twice in the input, none occurs twice in the result.
pub proof fn lemma_sorted_no_duplicate_keys<T: Keyed>(s: Seq<T>)
    requires
        keys_of(s).no_duplicates(),
    ensures
        keys_of(sorted_by_key(s)).no_duplicates(),
    decreases s.len(),
{
    if s.len() > 0 {
        let init = s.drop_last();
        let head = sorted_by_key(init);
        let k = s.last().sort_key();
        let p = upper_bound(keys_of(head), k);
        let out = sorted_by_key(s);
        assert forall|i: int, j: int|
            0 <= i < init.len() && 0 <= j < init.len() && i != j implies keys_of(init)[i]
            != keys_of(init)[j] by {
            assert(keys_of(init)[i] == keys_of(s)[i]);
            assert(keys_of(init)[j] == keys_of(s)[j]);
        }
        lemma_sorted_no_duplicate_keys(init);
        lemma_sorted_len(init);
        lemma_upper_bound(keys_of(head), k);
        lemma_sorted_same_items(init);
        assert forall|i: int| 0 <= i < head.len() implies keys_of(head)[i] != k by {
            assert(head.contains(head[i]));
            assert(init.contains(head[i]));
            let m = choose|m: int| 0 <= m < init.len() && init[m] == head[i];
            assert(s[m] == init[m]);
            assert(keys_of(s)[m] == head[i].sort_key());
            assert(keys_of(s)[s.len() - 1] == k);
            assert(keys_of(head)[i] == head[i].sort_key());
        }
        assert forall|i: int, j: int|
            0 <= i < out.len() && 0 <= j < out.len() && i != j implies keys_of(out)[i] != keys_of(
            out,
        )[j] by {
            let a = if i < p { i } else { i - 1 };
            let b = if j < p { j } else { j - 1 };
            if i != p {
                assert(keys_of(out)[i] == keys_of(head)[a]);
            }
            if j != p {
                assert(keys_of(out)[j] == keys_of(head)[b]);
            }
        }
    }
}

/// Where no name occurs twice, the sorted sequence is strictly ordered.
pub proof fn lemma_sorted_strictly_ordered<T: Keyed>(s: Seq<T>)
    requires
        keys_of(s).no_duplicates(),
    ensures
        strictly_ordered(keys_of(sorted_by_key(s))),
{
    let keys = keys_of(sorted_by_key(s));
    lemma_sorted_ordered(s);
    lemma_sorted_no_duplicate_keys(s);
    assert forall|i: int, j: int| 0 <= i < j < keys.len() implies name_lt(keys[i], keys[j]) by {
        lemma_name_lt_connected(keys[i], keys[j]);
        assert(name_le(keys[i], keys[j]));
        assert(keys[i] != keys[j]);
    }
}

/// Two strictly ordered sequences that hold the same items are equal.
pub proof fn lemma_strictly_ordered_unique<T: Keyed>(a: Seq<T>, b: Seq<T>)
    requires
        strictly_ordered(keys_of(a)),
        strictly_ordered(keys_of(b)),
        a.to_multiset() == b.to_multiset(),
    ensures
        a == b,
    decreases a.len(),
{
    to_multiset_len(a);
    to_multiset_len(b);
    if a.len() == 0 {
        assert(a =~= b);
    } else {
        to_multiset_contains(a, a[0]);
        to_multiset_contains(b, a[0]);
        to_multiset_contains(a, b[0]);
        to_multiset_contains(b, b[0]);
        assert(a.contains(a[0]));
        assert(b.contains(b[0]));
        let j = choose|j: int| 0 <= j < b.len() && b[j] == a[0];
        let i = choose|i: int| 0 <= i < a.len() && a[i] == b[0];
        assert(keys_of(a)[0] == a[0].sort_key());
        assert(keys_of(a)[i] == a[i].sort_key());
        assert(keys_of(b)[0] == b[0].sort_key());
        assert(keys_of(b)[j] == b[j].sort_key());
        if j > 0 {
            if i > 0 {
                lemma_name_lt_transitive(b[0].sort_key(), a[0].sort_key(), a[i].sort_key());
            }
            lemma_name_lt_irreflexive(b[0].sort_key());
        }
        assert(a[0] == b[0]);
        let ta = a.drop_first();
        let tb = b.drop_first();
        assert(ta =~= a.remove(0));
        assert(tb =~= b.remove(0));
        to_multiset_remove(a, 0);
        to_multiset_remove(b, 0);
        assert forall|x: int, y: int| 0 <= x < y < ta.len() implies name_lt(
            keys_of(ta)[x],
            keys_of(ta)[y],
        ) by {
            assert(keys_of(ta)[x] == keys_of(a)[x + 1]);
            assert(keys_of(ta)[y] == keys_of(a)[y + 1]);
        }
        assert forall|x: int, y: int| 0 <= x < y < tb.len() implies name_lt(
            keys_of(tb)[x],
            keys_of(tb)[y],
        ) by {
            assert(keys_of(tb)[x] == keys_of(b)[x + 1]);
            assert(keys_of(tb)[y] == keys_of(b)[y + 1]);
        }
        lemma_strictly_ordered_unique(ta, tb);
        assert(a =~= seq![a[0]] + ta);
        assert(b =~= seq![b[0]] + tb);
    }
}

/// Where no name occurs twice, the sorted sequence does not depend on the
/// order of the input: two inputs that hold the same items sort to the same
/// sequence.
pub proof fn lemma_sorted_order_independent<T: Keyed>(a: Seq<T>, b: Seq<T>)
    requires
        keys_of(a).no_duplicates(),
        keys_of(b).no_duplicates(),
        a.to_multiset() == b.to_multiset(),
    ensures
        sorted_by_key(a) == sorted_by_key(b),
{
    lemma_sorted_strictly_ordered(a);
    lemma_sorted_strictly_ordered(b);
    lemma_sorted_permutes(a);
    lemma_sorted_permutes(b);
    lemma_strictly_ordered_unique(sorted_by_key(a), sorted_by_key(b));
}

/// Whether an item is named `k`, as a function of the item.
pub open spec fn name_is<T: Keyed>(k: Seq<char>) -> spec_fn(T) -> bool {
    |x: T| x.sort_key() == k
}

/// The items of `s` that are named `k`, in order.
pub open spec fn named<T: Keyed>(s: Seq<T>, k: Seq<char>) -> Seq<T> {
    s.filter(name_is(k))
}

/// Sorting is stable: the items of one name come in the order in which they
/// came in the input.
pub proof fn lemma_sorted_stable<T: Keyed>(s: Seq<T>, k: Seq<char>)
    ensures
        named(sorted_by_key(s), k) == named(s, k),
    decreases s.len(),
{
    if s.len() > 0 {
        let init = s.drop_last();
        let x = s.last();
        let head = sorted_by_key(init);
        let p = upper_bound(keys_of(head), x.sort_key());
        let pred = name_is::<T>(k);
        lemma_sorted_stable(init, k);
        lemma_upper_bound(keys_of(head), x.sort_key());
        assert(keys_of(head).len() == head.len());
        let front = head.subrange(0, p);
        let back = head.subrange(p, head.len() as int);
        assert(head =~= front + back);
        assert(head.insert(p, x) =~= front.push(x) + back);
        Seq::filter_distributes_over_add(front, back, pred);
        Seq::filter_distributes_over_add(front.push(x), back, pred);
        front.lemma_filter_push(x, pred);
        init.lemma_filter_push(x, pred);
        assert(init.push(x) =~= s);
        if x.sort_key() == k {
            assert forall|i: int| 0 <= i < back.len() implies !pred(#[trigger] back[i]) by {
                assert(keys_of(head)[p + i] == back[i].sort_key());
                lemma_name_lt_irreflexive(k);
            }
            back.lemma_all_neg_filter_empty(pred);
            assert(front.filter(pred).push(x) + back.filter(pred) =~= front.filter(pred).push(x));
            assert(front.filter(pred) + back.filter(pred) =~= front.filter(pred));
        }
    }
}

} // verus!
