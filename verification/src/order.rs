//! Putting things in order by name, with what ties kept in the order it came.

use vstd::prelude::*;
use crate::text::{text_less, text_order_is_strict, text_order_is_transitive};

verus! {

/// An item put behind all that do not come after it.
pub open spec fn placed_by<A>(s: Seq<A>, x: A, key: spec_fn(A) -> Seq<char>) -> Seq<A>
    decreases s.len(),
{
    if s.len() == 0 {
        seq![x]
    } else if text_less(key(x), key(s[0])) {
        seq![x] + s
    } else {
        seq![s[0]] + placed_by(s.skip(1), x, key)
    }
}

/// The items in order of their names.
pub open spec fn sorted_by<A>(s: Seq<A>, key: spec_fn(A) -> Seq<char>) -> Seq<A>
    decreases s.len(),
{
    if s.len() == 0 {
        Seq::empty()
    } else {
        placed_by(sorted_by(s.drop_last(), key), s.last(), key)
    }
}

/// Where an item is put: before the first that comes after it.
pub proof fn lemma_placed_by<A>(s: Seq<A>, x: A, key: spec_fn(A) -> Seq<char>, k: int)
    requires
        0 <= k <= s.len(),
        forall|j: int| 0 <= j < k ==> !text_less(key(x), key(#[trigger] s[j])),
        k < s.len() ==> text_less(key(x), key(s[k])),
    ensures
        placed_by(s, x, key) == s.insert(k, x),
    decreases k,
{
    if k > 0 {
        assert(!text_less(key(x), key(s[0])));
        assert forall|j: int| 0 <= j < k - 1 implies !text_less(
            key(x),
            key(#[trigger] s.skip(1)[j]),
        ) by {
            assert(!text_less(key(x), key(s[j + 1])));
        }
        lemma_placed_by(s.skip(1), x, key, k - 1);
        assert(placed_by(s, x, key) =~= s.insert(k, x));
    } else {
        assert(placed_by(s, x, key) =~= s.insert(0, x));
    }
}

/// No name comes before one that stands ahead of it.
pub open spec fn is_sorted<A>(s: Seq<A>, key: spec_fn(A) -> Seq<char>) -> bool {
    forall|i: int, j: int|
        0 <= i < j < s.len() ==> !text_less(key(#[trigger] s[j]), key(#[trigger] s[i]))
}

proof fn lemma_not_after(a: Seq<char>, b: Seq<char>, c: Seq<char>)
    requires
        text_less(a, b),
        !text_less(c, b),
    ensures
        !text_less(c, a),
{
    text_order_is_strict(c, b);
    if text_less(c, a) {
        text_order_is_transitive(c, a, b);
    }
}

proof fn lemma_front<A>(s: Seq<A>, x: A)
    ensures
        (seq![x] + s).to_multiset() == s.to_multiset().insert(x),
{
    vstd::seq_lib::lemma_multiset_commutative(seq![x], s);
    assert(seq![x] =~= Seq::<A>::empty().push(x));
    Seq::<A>::empty().to_multiset_ensures();
    assert((seq![x] + s).to_multiset() =~= s.to_multiset().insert(x));
}

proof fn lemma_placed_in_order<A>(s: Seq<A>, x: A, key: spec_fn(A) -> Seq<char>)
    requires
        is_sorted(s, key),
    ensures
        is_sorted(placed_by(s, x, key), key),
        placed_by(s, x, key).to_multiset() == s.to_multiset().insert(x),
    decreases s.len(),
{
    let r = placed_by(s, x, key);
    if s.len() == 0 {
        assert(r =~= s.push(x));
        s.to_multiset_ensures();
    } else if text_less(key(x), key(s[0])) {
        assert forall|i: int, j: int| 0 <= i < j < r.len() implies !text_less(
            key(#[trigger] r[j]),
            key(#[trigger] r[i]),
        ) by {
            if i > 0 {
                assert(!text_less(key(s[j - 1]), key(s[i - 1])));
            } else {
                if j > 1 {
                    assert(!text_less(key(s[j - 1]), key(s[0])));
                }
                text_order_is_strict(key(s[0]), key(s[0]));
                lemma_not_after(key(x), key(s[0]), key(s[j - 1]));
            }
        }
        lemma_front(s, x);
    } else {
        let t = s.skip(1);
        assert forall|i: int, j: int| 0 <= i < j < t.len() implies !text_less(
            key(#[trigger] t[j]),
            key(#[trigger] t[i]),
        ) by {
            assert(!text_less(key(s[j + 1]), key(s[i + 1])));
        }
        lemma_placed_in_order(t, x, key);
        let q = placed_by(t, x, key);
        assert forall|i: int, j: int| 0 <= i < j < r.len() implies !text_less(
            key(#[trigger] r[j]),
            key(#[trigger] r[i]),
        ) by {
            if i > 0 {
                assert(!text_less(key(q[j - 1]), key(q[i - 1])));
            } else {
                q.to_multiset_ensures();
                t.to_multiset_ensures();
                assert(q.to_multiset().count(q[j - 1]) > 0);
                if q[j - 1] != x {
                    assert(t.to_multiset().count(q[j - 1]) > 0);
                    let m = choose|m: int| 0 <= m < t.len() && t[m] == q[j - 1];
                    assert(!text_less(key(s[m + 1]), key(s[0])));
                }
            }
        }
        lemma_front(q, s[0]);
        lemma_front(t, s[0]);
        assert(seq![s[0]] + t =~= s);
        assert(r.to_multiset() =~= s.to_multiset().insert(x));
    }
}

/// Sorting puts things in order, and neither loses nor adds any.
pub proof fn sorting_orders_and_keeps<A>(s: Seq<A>, key: spec_fn(A) -> Seq<char>)
    ensures
        is_sorted(sorted_by(s, key), key),
        sorted_by(s, key).to_multiset() == s.to_multiset(),
    decreases s.len(),
{
    if s.len() > 0 {
        sorting_orders_and_keeps(s.drop_last(), key);
        lemma_placed_in_order(sorted_by(s.drop_last(), key), s.last(), key);
        assert(s.drop_last().push(s.last()) =~= s);
        s.drop_last().to_multiset_ensures();
    } else {
        assert(sorted_by(s, key) =~= s);
    }
}

} // verus!
