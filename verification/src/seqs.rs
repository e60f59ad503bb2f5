//! Picking, counting and collecting over sequences.

use vstd::prelude::*;

verus! {

/// The items a predicate holds of, in order.
pub open spec fn kept<T>(s: Seq<T>, p: spec_fn(T) -> bool) -> Seq<T>
    decreases s.len(),
{
    if s.len() == 0 {
        Seq::empty()
    } else if p(s.last()) {
        kept(s.drop_last(), p).push(s.last())
    } else {
        kept(s.drop_last(), p)
    }
}

/// The first item a predicate holds of.
pub open spec fn first_of<T>(s: Seq<T>, p: spec_fn(T) -> bool) -> Option<T>
    decreases s.len(),
{
    if s.len() == 0 {
        None
    } else {
        match first_of(s.drop_last(), p) {
            Some(x) => Some(x),
            None => if p(s.last()) {
                Some(s.last())
            } else {
                None
            },
        }
    }
}

/// What each item gives, one after the other.
pub open spec fn gathered<T, U>(s: Seq<T>, f: spec_fn(T) -> Seq<U>) -> Seq<U>
    decreases s.len(),
{
    if s.len() == 0 {
        Seq::empty()
    } else {
        gathered(s.drop_last(), f) + f(s.last())
    }
}

/// The values behind a list of references.
pub open spec fn pointees<T>(v: Seq<&T>) -> Seq<T> {
    Seq::new(v.len(), |i: int| *v[i])
}

/// The value behind an optional reference.
pub open spec fn pointee<T>(o: Option<&T>) -> Option<T> {
    match o {
        Some(x) => Some(*x),
        None => None,
    }
}

/// An empty list of references.
pub fn no_refs<'a, T>() -> (r: Vec<&'a T>)
    ensures
        pointees(r@) == Seq::<T>::empty(),
        r@.len() == 0,
{
    let r: Vec<&'a T> = Vec::new();
    assert(pointees(r@) =~= Seq::<T>::empty());
    r
}

/// Adds a reference to a list.
pub fn push_ref<'a, T>(v: &mut Vec<&'a T>, x: &'a T)
    ensures
        pointees(final(v)@) == pointees(old(v)@).push(*x),
        final(v)@.len() == old(v)@.len() + 1,
{
    let ghost before = v@;
    v.push(x);
    assert(pointees(v@) =~= pointees(before).push(*x));
}

/// One more item from the front.
pub proof fn lemma_take_more<T>(s: Seq<T>, i: int)
    requires
        0 <= i < s.len(),
    ensures
        s.take(i + 1).drop_last() == s.take(i),
        s.take(i + 1).last() == s[i],
        s.take(i + 1).len() == i + 1,
{
    assert(s.take(i + 1).drop_last() =~= s.take(i));
}

/// All of it from the front.
pub proof fn lemma_take_all<T>(s: Seq<T>)
    ensures
        s.take(s.len() as int) == s,
{
    assert(s.take(s.len() as int) =~= s);
}

/// Nothing is found exactly where the predicate holds of no item; what is found
/// is the earliest.
pub proof fn lemma_first_of<T>(s: Seq<T>, p: spec_fn(T) -> bool)
    ensures
        first_of(s, p) is None <==> (forall|i: int| 0 <= i < s.len() ==> !p(#[trigger] s[i])),
        first_of(s, p) matches Some(x) ==> exists|i: int|
            0 <= i < s.len() && x == #[trigger] s[i] && p(s[i]) && (forall|j: int|
                0 <= j < i ==> !p(#[trigger] s[j])),
    decreases s.len(),
{
    if s.len() > 0 {
        let t = s.drop_last();
        lemma_first_of(t, p);
        assert(forall|i: int| 0 <= i < t.len() ==> t[i] == s[i]);
        assert(s.last() == s[s.len() - 1]);
        if first_of(t, p) is Some {
            let i = choose|i: int|
                0 <= i < t.len() && first_of(t, p)->0 == #[trigger] t[i] && p(t[i]) && (forall|
                    j: int,
                | 0 <= j < i ==> !p(#[trigger] t[j]));
            assert(s[i] == t[i]);
            assert(forall|j: int| 0 <= j < i ==> s[j] == t[j]);
        }
    }
}

/// What is kept are items of the sequence that the predicate holds of, and
/// every such item is kept.
pub proof fn lemma_kept<T>(s: Seq<T>, p: spec_fn(T) -> bool)
    ensures
        kept(s, p).len() <= s.len(),
        forall|x: T| #[trigger] kept(s, p).contains(x) <==> s.contains(x) && p(x),
    decreases s.len(),
{
    if s.len() > 0 {
        let t = s.drop_last();
        lemma_kept(t, p);
        let k = kept(t, p);
        assert forall|x: T| #[trigger] kept(s, p).contains(x) <==> s.contains(x) && p(x) by {
            if s.contains(x) {
                let i = choose|i: int| 0 <= i < s.len() && s[i] == x;
                if i < t.len() {
                    assert(t[i] == x);
                }
            }
            if t.contains(x) {
                let i = choose|i: int| 0 <= i < t.len() && t[i] == x;
                assert(s[i] == x);
            }
            if p(s.last()) {
                assert(kept(s, p) == k.push(s.last()));
                if k.contains(x) {
                    let i = choose|i: int| 0 <= i < k.len() && k[i] == x;
                    assert(k.push(s.last())[i] == x);
                }
                if x == s.last() {
                    assert(k.push(s.last())[k.len() as int] == x);
                    assert(s[s.len() - 1] == x);
                }
                if kept(s, p).contains(x) {
                    let i = choose|i: int| 0 <= i < kept(s, p).len() && kept(s, p)[i] == x;
                    if i < k.len() {
                        assert(k[i] == x);
                    }
                }
            }
        }
    }
}

} // verus!
