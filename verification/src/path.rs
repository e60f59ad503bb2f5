//! File system paths, as the components they are made of.

use vstd::prelude::*;
use crate::text::{chars_of, no_texts, pieces, push_text, same, split, texts};

verus! {

/// The pieces of a path that name something: not empty, and not `.`.
pub open spec fn named(s: Seq<Seq<char>>) -> Seq<Seq<char>>
    decreases s.len(),
{
    if s.len() == 0 {
        Seq::empty()
    } else if s.last().len() == 0 || s.last() == "."@ {
        named(s.drop_last())
    } else {
        named(s.drop_last()).push(s.last())
    }
}

/// The components of a path: its root, a leading `.` where it is relative, and
/// the names between separators. Repeated and trailing separators do not count.
pub open spec fn components(p: Seq<char>) -> Seq<Seq<char>> {
    let parts = pieces(p, '/');
    if p.len() > 0 && p[0] == '/' {
        seq!["/"@] + named(parts)
    } else if parts[0] == "."@ {
        seq!["."@] + named(parts)
    } else {
        named(parts)
    }
}

pub fn components_of(p: &str) -> (r: Vec<String>)
    ensures
        texts(r@) == components(p@),
{
    let parts = split(p, '/');
    let cs = chars_of(p);
    let mut out = no_texts();
    let ghost all = texts(parts@);
    proof {
        lemma_some_piece(p@, '/');
    }
    if cs.len() > 0 && cs[0] == '/' {
        push_text(&mut out, crate::text::owned("/"));
    } else {
        assert(all[0] == parts[0]@);
        if same(parts[0].as_str(), ".") {
            push_text(&mut out, crate::text::owned("."));
        }
    }
    let ghost head = texts(out@);
    let mut i: usize = 0;
    assert(head + named(all.take(0)) =~= head);
    while i < parts.len()
        invariant
            i <= parts.len(),
            all == texts(parts@),
            texts(out@) == head + named(all.take(i as int)),
        decreases parts.len() - i,
    {
        assert(all.take(i + 1).drop_last() == all.take(i as int));
        assert(all.take(i + 1).last() == parts[i as int]@);
        if !parts[i].as_str().is_empty() && !same(parts[i].as_str(), ".") {
            let ghost before = texts(out@);
            push_text(&mut out, parts[i].clone());
            assert(texts(out@) =~= head + named(all.take(i + 1)));
        }
        i += 1;
    }
    assert(all.take(i as int) == all);
    assert(texts(out@) =~= components(p@));
    out
}

proof fn lemma_some_piece(s: Seq<char>, c: char)
    ensures
        pieces(s, c).len() > 0,
{
    crate::text::lemma_first_char_bound(s, c);
}

/// Whether a path lies at or below another.
pub open spec fn within(p: Seq<char>, base: Seq<char>) -> bool {
    components(base).is_prefix_of(components(p))
}

pub fn is_within(p: &str, base: &str) -> (r: bool)
    ensures
        r == within(p@, base@),
{
    let a = components_of(p);
    let b = components_of(base);
    if b.len() > a.len() {
        return false;
    }
    let mut i: usize = 0;
    while i < b.len()
        invariant
            i <= b.len() <= a.len(),
            texts(a@) == components(p@),
            texts(b@) == components(base@),
            forall|k: int| 0 <= k < i ==> texts(a@)[k] == texts(b@)[k],
        decreases b.len() - i,
    {
        assert(texts(a@)[i as int] == a[i as int]@);
        assert(texts(b@)[i as int] == b[i as int]@);
        if !same(a[i].as_str(), b[i].as_str()) {
            assert(components(p@)[i as int] != components(base@)[i as int]);
            return false;
        }
        i += 1;
    }
    assert(components(base@) =~= components(p@).take(b.len() as int));
    true
}

/// How deep a path is.
pub fn depth(p: &str) -> (r: usize)
    ensures
        r == components(p@).len(),
{
    let parts = components_of(p);
    assert(texts(parts@).len() == parts@.len());
    parts.len()
}

} // verus!
