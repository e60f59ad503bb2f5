//! Text as sequences of characters: searching, splitting, and filling templates.
//!
//! Every function here states its result over the character sequence of its
//! argument, so the rest of the library can speak about text exactly.

use vstd::prelude::*;

verus! {

/// `String::push` appends one character at the end.
pub assume_specification[ String::push ](s: &mut String, c: char)
    ensures
        final(s)@ == old(s)@.push(c),
;

// ---------------------------------------------------------------------------
// whole strings
// ---------------------------------------------------------------------------

/// The characters of a string, in order.
pub fn chars_of(s: &str) -> (r: Vec<char>)
    ensures
        r@ == s@,
{
    let mut out: Vec<char> = Vec::new();
    for c in it: s.chars()
        invariant
            out@ == it.seq().take(it.index() as int),
            it.seq() == s@,
    {
        out.push(c);
        assert(it.seq().take(it.index() + 1) == it.seq().take(it.index() as int).push(c));
    }
    assert(s@.take(s@.len() as int) == s@);
    out
}

/// The characters `from..to` of a vector, as a string.
pub fn slice(cs: &Vec<char>, from: usize, to: usize) -> (r: String)
    requires
        from <= to <= cs.len(),
    ensures
        r@ == cs@.subrange(from as int, to as int),
{
    let mut out = String::new();
    let mut i: usize = from;
    while i < to
        invariant
            from <= i <= to <= cs.len(),
            out@ == cs@.subrange(from as int, i as int),
        decreases to - i,
    {
        out.push(cs[i]);
        i += 1;
        assert(cs@.subrange(from as int, i as int) == cs@.subrange(from as int, i - 1).push(
            cs@[i - 1],
        ));
    }
    out
}

/// An owned copy.
pub fn owned(s: &str) -> (r: String)
    ensures
        r@ == s@,
{
    String::from_str(s)
}

/// The joined text of two pieces.
pub fn cat(a: &str, b: &str) -> (r: String)
    ensures
        r@ == a@ + b@,
{
    let mut s = String::from_str(a);
    s.append(b);
    s
}

/// Whether two texts are the same.
pub fn same(a: &str, b: &str) -> (r: bool)
    ensures
        r == (a@ == b@),
{
    let x = chars_of(a);
    let y = chars_of(b);
    if x.len() != y.len() {
        return false;
    }
    let mut i: usize = 0;
    while i < x.len()
        invariant
            i <= x.len(),
            x.len() == y.len(),
            x@ == a@,
            y@ == b@,
            forall|k: int| 0 <= k < i ==> x[k] == y[k],
        decreases x.len() - i,
    {
        if x[i] != y[i] {
            assert(a@[i as int] != b@[i as int]);
            return false;
        }
        i += 1;
    }
    assert(a@ =~= b@);
    true
}

/// The text of an optional string.
pub open spec fn opt_text(o: Option<String>) -> Option<Seq<char>> {
    match o {
        Some(s) => Some(s@),
        None => None,
    }
}

/// Whether an optional string is present and reads `s`.
pub fn is_text(o: &Option<String>, s: &str) -> (r: bool)
    ensures
        r == (opt_text(*o) == Some(s@)),
{
    match o {
        Some(t) => same(t.as_str(), s),
        None => false,
    }
}

/// The texts of a list of strings.
pub open spec fn texts(v: Seq<String>) -> Seq<Seq<char>> {
    Seq::new(v.len(), |i: int| v[i]@)
}

/// Adds a line to a list of strings.
pub fn push_text(v: &mut Vec<String>, s: String)
    ensures
        texts(final(v)@) == texts(old(v)@).push(s@),
{
    let ghost before = v@;
    v.push(s);
    assert(texts(v@) =~= texts(before).push(s@));
}

/// An empty list of strings.
pub fn no_texts() -> (r: Vec<String>)
    ensures
        texts(r@) == Seq::<Seq<char>>::empty(),
{
    let r: Vec<String> = Vec::new();
    assert(texts(r@) =~= Seq::<Seq<char>>::empty());
    r
}

/// A copy of a list of strings.
pub fn copy_texts(v: &Vec<String>) -> (r: Vec<String>)
    ensures
        texts(r@) == texts(v@),
        r@ == v@,
{
    let mut out: Vec<String> = Vec::new();
    let mut i: usize = 0;
    while i < v.len()
        invariant
            i <= v.len(),
            out@ == v@.take(i as int),
        decreases v.len() - i,
    {
        out.push(v[i].clone());
        i += 1;
        assert(v@.take(i as int) == v@.take(i - 1).push(v@[i - 1]));
    }
    assert(v@.take(v@.len() as int) == v@);
    out
}

/// A copy of an optional string.
pub fn copy_opt(o: &Option<String>) -> (r: Option<String>)
    ensures
        r == *o,
{
    match o {
        Some(s) => Some(s.clone()),
        None => None,
    }
}

/// Whether a list of texts has this one.
pub fn has_text(v: &Vec<String>, s: &str) -> (r: bool)
    ensures
        r == texts(v@).contains(s@),
{
    let mut i: usize = 0;
    while i < v.len()
        invariant
            i <= v.len(),
            forall|k: int| 0 <= k < i ==> v[k]@ != s@,
        decreases v.len() - i,
    {
        if same(v[i].as_str(), s) {
            assert(texts(v@)[i as int] == s@);
            return true;
        }
        i += 1;
    }
    proof {
        assert forall|k: int| 0 <= k < texts(v@).len() implies texts(v@)[k] != s@ by {
            assert(v[k]@ != s@);
        }
    }
    false
}

// ---------------------------------------------------------------------------
// ordering
// ---------------------------------------------------------------------------

/// Lexicographic order on characters, which is how strings compare.
pub open spec fn text_less(a: Seq<char>, b: Seq<char>) -> bool
    decreases a.len(),
{
    if b.len() == 0 {
        false
    } else if a.len() == 0 {
        true
    } else if a[0] != b[0] {
        a[0] < b[0]
    } else {
        text_less(a.skip(1), b.skip(1))
    }
}

/// Whether `a` sorts before `b`.
pub fn less(a: &str, b: &str) -> (r: bool)
    ensures
        r == text_less(a@, b@),
{
    let x = chars_of(a);
    let y = chars_of(b);
    let mut i: usize = 0;
    proof {
        assert(x@.skip(0) == x@);
        assert(y@.skip(0) == y@);
    }
    while i < x.len() && i < y.len()
        invariant
            i <= x.len(),
            i <= y.len(),
            x@ == a@,
            y@ == b@,
            text_less(a@, b@) == text_less(x@.skip(i as int), y@.skip(i as int)),
        decreases x.len() - i,
    {
        if x[i] != y[i] {
            return x[i] < y[i];
        }
        proof {
            assert(x@.skip(i as int).skip(1) == x@.skip(i + 1));
            assert(y@.skip(i as int).skip(1) == y@.skip(i + 1));
        }
        i += 1;
    }
    i < y.len()
}

/// No text sorts before itself, and the order is one-directional.
pub proof fn text_order_is_strict(a: Seq<char>, b: Seq<char>)
    ensures
        !text_less(a, a),
        text_less(a, b) ==> !text_less(b, a),
        !text_less(a, b) && !text_less(b, a) ==> a == b,
    decreases a.len(),
{
    if a.len() == 0 {
        if b.len() == 0 {
            assert(a =~= b);
        }
    } else {
        text_order_is_strict(a.skip(1), a.skip(1));
        if b.len() > 0 {
            text_order_is_strict(a.skip(1), b.skip(1));
            if a[0] == b[0] && a.skip(1) == b.skip(1) {
                assert(a == seq![a[0]] + a.skip(1));
                assert(b == seq![b[0]] + b.skip(1));
            }
        }
    }
}

/// The order carries through a third text.
pub proof fn text_order_is_transitive(a: Seq<char>, b: Seq<char>, c: Seq<char>)
    requires
        text_less(a, b),
        text_less(b, c),
    ensures
        text_less(a, c),
    decreases a.len(),
{
    if a.len() > 0 && a[0] == b[0] && b[0] == c[0] {
        text_order_is_transitive(a.skip(1), b.skip(1), c.skip(1));
    }
}

/// A text put into a sorted list, once.
pub open spec fn put_in_order(s: Seq<Seq<char>>, x: Seq<char>) -> Seq<Seq<char>>
    decreases s.len(),
{
    if s.len() == 0 {
        seq![x]
    } else if s[0] == x {
        s
    } else if text_less(x, s[0]) {
        seq![x] + s
    } else {
        seq![s[0]] + put_in_order(s.skip(1), x)
    }
}

/// The distinct texts of a list, in order.
pub open spec fn in_order(s: Seq<Seq<char>>) -> Seq<Seq<char>>
    decreases s.len(),
{
    if s.len() == 0 {
        Seq::empty()
    } else {
        put_in_order(in_order(s.drop_last()), s.last())
    }
}

/// Every text sorts before all that follow it.
pub open spec fn ascending(s: Seq<Seq<char>>) -> bool {
    forall|i: int, j: int| 0 <= i < j < s.len() ==> text_less(#[trigger] s[i], #[trigger] s[j])
}

/// Putting a text in keeps the list ascending and adds that text alone.
pub proof fn lemma_put_in_order(s: Seq<Seq<char>>, x: Seq<char>)
    requires
        ascending(s),
    ensures
        ascending(put_in_order(s, x)),
        forall|y: Seq<char>|
            #[trigger] put_in_order(s, x).contains(y) <==> s.contains(y) || y == x,
    decreases s.len(),
{
    let r = put_in_order(s, x);
    if s.len() == 0 {
        assert(r[0] == x);
    } else if s[0] == x {
    } else if text_less(x, s[0]) {
        assert forall|i: int, j: int| 0 <= i < j < r.len() implies text_less(
            #[trigger] r[i],
            #[trigger] r[j],
        ) by {
            if i == 0 {
                if j > 1 {
                    assert(text_less(s[0], s[j - 1]));
                    text_order_is_transitive(x, s[0], s[j - 1]);
                }
            } else {
                assert(text_less(s[i - 1], s[j - 1]));
            }
        }
        assert forall|y: Seq<char>| #[trigger] r.contains(y) <==> s.contains(y) || y == x by {
            if s.contains(y) {
                let i = choose|i: int| 0 <= i < s.len() && s[i] == y;
                assert(r[i + 1] == y);
            }
            assert(r[0] == x);
            if r.contains(y) {
                let i = choose|i: int| 0 <= i < r.len() && r[i] == y;
                if i > 0 {
                    assert(s[i - 1] == y);
                }
            }
        }
    } else {
        let t = s.skip(1);
        assert(ascending(t)) by {
            assert forall|i: int, j: int| 0 <= i < j < t.len() implies text_less(
                #[trigger] t[i],
                #[trigger] t[j],
            ) by {
                assert(text_less(s[i + 1], s[j + 1]));
            }
        }
        lemma_put_in_order(t, x);
        let p = put_in_order(t, x);
        text_order_is_strict(x, s[0]);
        assert forall|i: int, j: int| 0 <= i < j < r.len() implies text_less(
            #[trigger] r[i],
            #[trigger] r[j],
        ) by {
            if i == 0 {
                assert(p.contains(p[j - 1]));
                if p[j - 1] != x {
                    let k = choose|k: int| 0 <= k < t.len() && t[k] == p[j - 1];
                    assert(text_less(s[0], s[k + 1]));
                }
            } else {
                assert(text_less(p[i - 1], p[j - 1]));
            }
        }
        assert forall|y: Seq<char>| #[trigger] r.contains(y) <==> s.contains(y) || y == x by {
            if s.contains(y) {
                let i = choose|i: int| 0 <= i < s.len() && s[i] == y;
                if i > 0 {
                    assert(t[i - 1] == y);
                    assert(p.contains(y));
                } else {
                    assert(r[0] == y);
                }
            }
            if p.contains(y) {
                let i = choose|i: int| 0 <= i < p.len() && p[i] == y;
                assert(r[i + 1] == y);
            }
            if y == x {
                assert(p.contains(y));
            }
            if r.contains(y) {
                let i = choose|i: int| 0 <= i < r.len() && r[i] == y;
                if i > 0 {
                    assert(p[i - 1] == y);
                    assert(p.contains(y));
                    if t.contains(y) {
                        let k = choose|k: int| 0 <= k < t.len() && t[k] == y;
                        assert(s[k + 1] == y);
                    }
                } else {
                    assert(s[0] == y);
                }
            }
        }
    }
}

/// The ordered list is ascending and holds exactly the texts of the list.
pub proof fn lemma_in_order(s: Seq<Seq<char>>)
    ensures
        ascending(in_order(s)),
        forall|y: Seq<char>| #[trigger] in_order(s).contains(y) <==> s.contains(y),
    decreases s.len(),
{
    if s.len() > 0 {
        lemma_in_order(s.drop_last());
        lemma_put_in_order(in_order(s.drop_last()), s.last());
        assert forall|y: Seq<char>| #[trigger] in_order(s).contains(y) <==> s.contains(y) by {
            let t = s.drop_last();
            if s.contains(y) {
                let i = choose|i: int| 0 <= i < s.len() && s[i] == y;
                if i < t.len() {
                    assert(t[i] == y);
                }
            }
            if t.contains(y) {
                let i = choose|i: int| 0 <= i < t.len() && t[i] == y;
                assert(s[i] == y);
            }
            assert(s[s.len() - 1] == s.last());
        }
    }
}

proof fn lemma_put_at(s: Seq<Seq<char>>, x: Seq<char>, k: int)
    requires
        0 <= k <= s.len(),
        forall|j: int| 0 <= j < k ==> (#[trigger] s[j]) != x && !text_less(x, s[j]),
        k < s.len() ==> s[k] == x || text_less(x, s[k]),
    ensures
        put_in_order(s, x) == (if k < s.len() && s[k] == x {
            s
        } else {
            s.insert(k, x)
        }),
    decreases k,
{
    if k > 0 {
        assert(s[0] != x && !text_less(x, s[0]));
        assert forall|j: int| 0 <= j < k - 1 implies (#[trigger] s.skip(1)[j]) != x && !text_less(
            x,
            s.skip(1)[j],
        ) by {
            assert(s[j + 1] != x && !text_less(x, s[j + 1]));
        }
        lemma_put_at(s.skip(1), x, k - 1);
        if k < s.len() && s[k] == x {
            assert(put_in_order(s, x) =~= s);
        } else {
            assert(put_in_order(s, x) =~= s.insert(k, x));
        }
    } else {
        if s.len() == 0 || s[0] != x {
            assert(put_in_order(s, x) =~= s.insert(0, x));
        }
    }
}

/// Puts a text into a sorted list, once.
pub fn put_text(v: &mut Vec<String>, x: String)
    ensures
        texts(final(v)@) == put_in_order(texts(old(v)@), x@),
{
    let ghost before = texts(v@);
    let mut k: usize = 0;
    while k < v.len() && !same(v[k].as_str(), x.as_str()) && !less(x.as_str(), v[k].as_str())
        invariant
            k <= v.len(),
            before == texts(v@),
            forall|j: int|
                0 <= j < k ==> (#[trigger] before[j]) != x@ && !text_less(x@, before[j]),
        decreases v.len() - k,
    {
        assert(before[k as int] == v@[k as int]@);
        k += 1;
    }
    proof {
        if k < v.len() {
            assert(before[k as int] == v@[k as int]@);
        }
        lemma_put_at(before, x@, k as int);
    }
    if k < v.len() && same(v[k].as_str(), x.as_str()) {
        return ;
    }
    v.insert(k, x);
    assert(texts(v@) =~= before.insert(k as int, x@));
}

// ---------------------------------------------------------------------------
// character classes
// ---------------------------------------------------------------------------

/// The characters Unicode calls white space.
pub open spec fn is_white(c: char) -> bool {
    let n = c as u32;
    9 <= n <= 13 || n == 32 || n == 0x85 || n == 0xa0 || n == 0x1680 || 0x2000 <= n <= 0x200a || n
        == 0x2028 || n == 0x2029 || n == 0x202f || n == 0x205f || n == 0x3000
}

pub fn white(c: char) -> (r: bool)
    ensures
        r == is_white(c),
{
    let n: u32 = c as u32;
    (9 <= n && n <= 13) || n == 32 || n == 0x85 || n == 0xa0 || n == 0x1680 || (0x2000 <= n && n
        <= 0x200a) || n == 0x2028 || n == 0x2029 || n == 0x202f || n == 0x205f || n == 0x3000
}

pub open spec fn is_digit(c: char) -> bool {
    '0' <= c <= '9'
}

pub fn digit(c: char) -> (r: bool)
    ensures
        r == is_digit(c),
{
    '0' <= c && c <= '9'
}

/// An ASCII capital in lower case; any other character as it is.
pub open spec fn lower_char(c: char) -> char {
    if 'A' <= c <= 'Z' {
        ((c as u8) + 32) as char
    } else {
        c
    }
}

/// A text with its ASCII capitals in lower case.
pub open spec fn lowered(s: Seq<char>) -> Seq<char> {
    Seq::new(s.len(), |i: int| lower_char(s[i]))
}

pub fn lower(s: &str) -> (r: String)
    ensures
        r@ == lowered(s@),
{
    let cs = chars_of(s);
    let mut out = String::new();
    let mut i: usize = 0;
    while i < cs.len()
        invariant
            i <= cs.len(),
            cs@ == s@,
            out@ == lowered(s@).take(i as int),
        decreases cs.len() - i,
    {
        let c = cs[i];
        if 'A' <= c && c <= 'Z' {
            out.push(((c as u8) + 32) as char);
        } else {
            out.push(c);
        }
        i += 1;
        assert(lowered(s@).take(i as int) =~= lowered(s@).take(i - 1).push(lower_char(s@[i - 1])));
    }
    assert(lowered(s@).take(s@.len() as int) =~= lowered(s@));
    out
}

/// Whether two texts agree once ASCII case is set aside.
pub fn same_ignoring_case(a: &str, b: &str) -> (r: bool)
    ensures
        r == (lowered(a@) == lowered(b@)),
{
    let x = lower(a);
    let y = lower(b);
    same(x.as_str(), y.as_str())
}

/// Whether every character is an ASCII digit (an empty text has none that is not).
pub open spec fn all_digits(s: Seq<char>) -> bool {
    forall|i: int| 0 <= i < s.len() ==> is_digit(#[trigger] s[i])
}

pub fn digits_only(s: &str) -> (r: bool)
    ensures
        r == all_digits(s@),
{
    let cs = chars_of(s);
    let mut i: usize = 0;
    while i < cs.len()
        invariant
            i <= cs.len(),
            cs@ == s@,
            forall|k: int| 0 <= k < i ==> is_digit(#[trigger] cs@[k]),
        decreases cs.len() - i,
    {
        if !digit(cs[i]) {
            assert(!is_digit(s@[i as int]));
            return false;
        }
        i += 1;
    }
    true
}

// ---------------------------------------------------------------------------
// searching
// ---------------------------------------------------------------------------

/// Whether `p` stands in `s` at position `i`.
pub open spec fn occurs_at(s: Seq<char>, p: Seq<char>, i: int) -> bool {
    0 <= i && i + p.len() <= s.len() && s.subrange(i, i + p.len()) == p
}

/// Whether `p` stands anywhere in `s`.
pub open spec fn holds_text(s: Seq<char>, p: Seq<char>) -> bool {
    exists|i: int| occurs_at(s, p, i)
}

fn matches_here(cs: &Vec<char>, p: &Vec<char>, at: usize) -> (r: bool)
    requires
        at <= cs.len(),
    ensures
        r == occurs_at(cs@, p@, at as int),
{
    if p.len() > cs.len() - at {
        return false;
    }
    let mut k: usize = 0;
    while k < p.len()
        invariant
            k <= p.len(),
            at + p.len() <= cs.len(),
            forall|j: int| 0 <= j < k ==> cs[at + j] == p[j],
        decreases p.len() - k,
    {
        if cs[at + k] != p[k] {
            assert(cs@.subrange(at as int, at + p.len())[k as int] != p@[k as int]);
            return false;
        }
        k += 1;
    }
    assert(cs@.subrange(at as int, at + p.len()) =~= p@);
    true
}

/// Whether `i` is the first place `p` stands in `s`.
pub open spec fn first_occurs(s: Seq<char>, p: Seq<char>, i: int) -> bool {
    occurs_at(s, p, i) && (forall|j: int| 0 <= j < i ==> !occurs_at(s, p, j))
}

/// The first place `p` stands in `s`.
pub open spec fn found_at(s: Seq<char>, p: Seq<char>) -> Option<int> {
    if holds_text(s, p) {
        Some(choose|i: int| first_occurs(s, p, i))
    } else {
        None
    }
}

/// The first place `p` stands in `s`.
pub fn find(s: &str, p: &str) -> (r: Option<usize>)
    ensures
        match r {
            Some(i) => first_occurs(s@, p@, i as int) && found_at(s@, p@) == Some(i as int),
            None => !holds_text(s@, p@) && found_at(s@, p@) is None,
        },
{
    let r: Option<usize> = find_first(s, p);
    proof {
        if let Some(i) = r {
            assert(first_occurs(s@, p@, i as int));
            let k = choose|k: int| first_occurs(s@, p@, k);
            assert(k == i) by {
                if k < i {
                    assert(occurs_at(s@, p@, k));
                } else if i < k {
                    assert(occurs_at(s@, p@, i as int));
                }
            }
        }
    }
    r
}

fn find_first(s: &str, p: &str) -> (r: Option<usize>)
    ensures
        match r {
            Some(i) => occurs_at(s@, p@, i as int) && (forall|j: int|
                0 <= j < i ==> !occurs_at(s@, p@, j)),
            None => !holds_text(s@, p@),
        },
{
    let cs = chars_of(s);
    let ps = chars_of(p);
    let mut i: usize = 0;
    while i < cs.len()
        invariant
            i <= cs.len(),
            cs@ == s@,
            ps@ == p@,
            forall|j: int| 0 <= j < i ==> !occurs_at(s@, p@, j),
        decreases cs.len() - i,
    {
        if matches_here(&cs, &ps, i) {
            return Some(i);
        }
        i += 1;
    }
    if matches_here(&cs, &ps, i) {
        Some(i)
    } else {
        None
    }
}

/// Whether `p` stands anywhere in `s`.
pub fn contains(s: &str, p: &str) -> (r: bool)
    ensures
        r == holds_text(s@, p@),
{
    match find(s, p) {
        Some(i) => {
            assert(occurs_at(s@, p@, i as int));
            true
        },
        None => false,
    }
}

/// Whether `s` begins with `p`.
pub open spec fn begins_with(s: Seq<char>, p: Seq<char>) -> bool {
    occurs_at(s, p, 0)
}

pub fn starts_with(s: &str, p: &str) -> (r: bool)
    ensures
        r == begins_with(s@, p@),
{
    let cs = chars_of(s);
    let ps = chars_of(p);
    matches_here(&cs, &ps, 0)
}

/// What follows the prefix `p`, if `s` begins with it.
pub open spec fn after_prefix(s: Seq<char>, p: Seq<char>) -> Option<Seq<char>> {
    if begins_with(s, p) {
        Some(s.skip(p.len() as int))
    } else {
        None
    }
}

pub fn strip_prefix(s: &str, p: &str) -> (r: Option<String>)
    ensures
        opt_text(r) == after_prefix(s@, p@),
{
    let cs = chars_of(s);
    let ps = chars_of(p);
    if matches_here(&cs, &ps, 0) {
        Some(slice(&cs, ps.len(), cs.len()))
    } else {
        None
    }
}

/// The position of the first `c`, or the length where there is none.
pub open spec fn first_char(s: Seq<char>, c: char) -> int
    decreases s.len(),
{
    if s.len() == 0 || s[0] == c {
        0
    } else {
        1 + first_char(s.skip(1), c)
    }
}

pub proof fn lemma_first_char(s: Seq<char>, c: char, n: int)
    requires
        0 <= n <= s.len(),
        forall|k: int| 0 <= k < n ==> s[k] != c,
        n < s.len() ==> s[n] == c,
    ensures
        first_char(s, c) == n,
    decreases n,
{
    if n > 0 {
        assert(s[0] != c);
        assert forall|k: int| 0 <= k < n - 1 implies s.skip(1)[k] != c by {
            assert(s[k + 1] != c);
        }
        lemma_first_char(s.skip(1), c, n - 1);
    }
}

pub proof fn lemma_first_char_bound(s: Seq<char>, c: char)
    ensures
        0 <= first_char(s, c) <= s.len(),
        first_char(s, c) < s.len() ==> s[first_char(s, c)] == c,
        forall|k: int| 0 <= k < first_char(s, c) ==> s[k] != c,
    decreases s.len(),
{
    if s.len() > 0 && s[0] != c {
        lemma_first_char_bound(s.skip(1), c);
        assert forall|k: int| 0 <= k < first_char(s, c) implies s[k] != c by {
            if k > 0 {
                assert(s.skip(1)[k - 1] == s[k]);
            }
        }
    }
}

/// The position of the first `c` at or after `from`, or the length.
pub fn position(cs: &Vec<char>, from: usize, c: char) -> (r: usize)
    requires
        from <= cs.len(),
    ensures
        from <= r <= cs.len(),
        r == from + first_char(cs@.skip(from as int), c),
        forall|k: int| from <= k < r ==> cs[k] != c,
        r < cs.len() ==> cs[r as int] == c,
{
    let mut i: usize = from;
    while i < cs.len() && cs[i] != c
        invariant
            from <= i <= cs.len(),
            forall|k: int| from <= k < i ==> cs[k] != c,
        decreases cs.len() - i,
    {
        i += 1;
    }
    proof {
        assert forall|k: int| 0 <= k < i - from implies cs@.skip(from as int)[k] != c by {
            assert(cs[from + k] != c);
        }
        lemma_first_char(cs@.skip(from as int), c, i - from);
    }
    i
}

/// The two sides of the first `c`.
pub open spec fn cut_first(s: Seq<char>, c: char) -> Option<(Seq<char>, Seq<char>)> {
    let n = first_char(s, c);
    if n < s.len() {
        Some((s.take(n), s.skip(n + 1)))
    } else {
        None
    }
}

pub open spec fn opt_pair(o: Option<(String, String)>) -> Option<(Seq<char>, Seq<char>)> {
    match o {
        Some((a, b)) => Some((a@, b@)),
        None => None,
    }
}

pub fn split_once(s: &str, c: char) -> (r: Option<(String, String)>)
    ensures
        opt_pair(r) == cut_first(s@, c),
{
    let cs = chars_of(s);
    let n: usize = position(&cs, 0, c);
    assert(cs@.skip(0) == s@);
    if n < cs.len() {
        let a = slice(&cs, 0, n);
        let b = slice(&cs, n + 1, cs.len());
        assert(a@ == s@.take(n as int));
        assert(b@ == s@.skip(n + 1));
        Some((a, b))
    } else {
        None
    }
}

/// The position just after the last `c`, or 0 where there is none.
pub open spec fn after_last(s: Seq<char>, c: char) -> int
    decreases s.len(),
{
    if s.len() == 0 {
        0
    } else if s.last() == c {
        s.len() as int
    } else {
        after_last(s.drop_last(), c)
    }
}

/// The two sides of the last `c`.
pub open spec fn cut_last(s: Seq<char>, c: char) -> Option<(Seq<char>, Seq<char>)> {
    let n = after_last(s, c);
    if n > 0 {
        Some((s.take(n - 1), s.skip(n)))
    } else {
        None
    }
}

pub proof fn lemma_after_last(s: Seq<char>, c: char)
    ensures
        0 <= after_last(s, c) <= s.len(),
        after_last(s, c) > 0 ==> s[after_last(s, c) - 1] == c,
        forall|k: int| after_last(s, c) <= k < s.len() ==> s[k] != c,
    decreases s.len(),
{
    if s.len() > 0 && s.last() != c {
        lemma_after_last(s.drop_last(), c);
        assert forall|k: int| after_last(s, c) <= k < s.len() implies s[k] != c by {
            if k < s.len() - 1 {
                assert(s.drop_last()[k] == s[k]);
            }
        }
    }
}

pub fn rsplit_once(s: &str, c: char) -> (r: Option<(String, String)>)
    ensures
        opt_pair(r) == cut_last(s@, c),
{
    let cs = chars_of(s);
    let mut n: usize = cs.len();
    assert(cs@.take(n as int) == s@);
    while n > 0 && cs[n - 1] != c
        invariant
            n <= cs.len(),
            cs@ == s@,
            after_last(s@, c) == after_last(cs@.take(n as int), c),
        decreases n,
    {
        assert(cs@.take(n as int).drop_last() == cs@.take(n - 1));
        n -= 1;
    }
    if n > 0 {
        assert(cs@.take(n as int).last() == c);
        let a = slice(&cs, 0, n - 1);
        let b = slice(&cs, n, cs.len());
        assert(a@ == s@.take(n - 1));
        assert(b@ == s@.skip(n as int));
        Some((a, b))
    } else {
        None
    }
}

// ---------------------------------------------------------------------------
// splitting and joining
// ---------------------------------------------------------------------------

/// The pieces between separators `c`. Always at least one.
pub open spec fn pieces(s: Seq<char>, c: char) -> Seq<Seq<char>>
    decreases s.len(),
{
    let n = first_char(s, c);
    if n < 0 || n >= s.len() {
        seq![s]
    } else {
        seq![s.take(n)] + pieces(s.skip(n + 1), c)
    }
}

pub fn split(s: &str, c: char) -> (r: Vec<String>)
    ensures
        texts(r@) == pieces(s@, c),
{
    let cs = chars_of(s);
    let mut out = no_texts();
    let mut i: usize = 0;
    assert(cs@.skip(0) == s@);
    assert(texts(out@) + pieces(s@, c) =~= pieces(s@, c));
    loop
        invariant
            i <= cs.len(),
            cs@ == s@,
            texts(out@) + pieces(cs@.skip(i as int), c) == pieces(s@, c),
        decreases cs.len() - i,
    {
        let n: usize = position(&cs, i, c);
        let ghost rest = cs@.skip(i as int);
        let ghost sofar = texts(out@);
        let piece = slice(&cs, i, n);
        assert(piece@ == rest.take(n - i));
        push_text(&mut out, piece);
        if n == cs.len() {
            assert(rest.take(n - i) == rest);
            assert(texts(out@) =~= sofar + seq![rest]);
            return out;
        }
        assert(rest.skip(n - i + 1) == cs@.skip(n + 1));
        i = n + 1;
        assert(texts(out@) + pieces(cs@.skip(i as int), c) =~= sofar + pieces(rest, c));
    }
}

/// What stands before and after the first `p`.
pub open spec fn cut_text(s: Seq<char>, p: Seq<char>) -> Option<(Seq<char>, Seq<char>)> {
    match found_at(s, p) {
        Some(i) => Some((s.take(i), s.skip(i + p.len()))),
        None => None,
    }
}

pub fn split_once_at(s: &str, p: &str) -> (r: Option<(String, String)>)
    ensures
        opt_pair(r) == cut_text(s@, p@),
{
    match find(s, p) {
        Some(i) => {
            let cs = chars_of(s);
            let ps = chars_of(p);
            let total: usize = cs.len();
            assert(i + ps@.len() <= total);
            let end: usize = i + ps.len();
            Some((slice(&cs, 0, i), slice(&cs, end, total)))
        },
        None => None,
    }
}

/// A line without the carriage return that closed it.
pub open spec fn without_return(s: Seq<char>) -> Seq<char> {
    if s.len() > 0 && s.last() == '\r' {
        s.drop_last()
    } else {
        s
    }
}

/// The lines of a text. A line break at the very end opens no further line.
pub open spec fn lines_of(s: Seq<char>) -> Seq<Seq<char>>
    decreases s.len(),
{
    let n = first_char(s, '\n');
    if s.len() == 0 {
        Seq::empty()
    } else if n < 0 || n >= s.len() {
        seq![s]
    } else {
        seq![without_return(s.take(n))] + lines_of(s.skip(n + 1))
    }
}

pub fn lines(s: &str) -> (r: Vec<String>)
    ensures
        texts(r@) == lines_of(s@),
{
    let cs = chars_of(s);
    let mut out = no_texts();
    let mut i: usize = 0;
    assert(cs@.skip(0) == s@);
    assert(texts(out@) + lines_of(s@) =~= lines_of(s@));
    while i < cs.len()
        invariant
            i <= cs.len(),
            cs@ == s@,
            texts(out@) + lines_of(cs@.skip(i as int)) == lines_of(s@),
        decreases cs.len() - i,
    {
        let n: usize = position(&cs, i, '\n');
        let ghost rest = cs@.skip(i as int);
        let ghost sofar = texts(out@);
        if n == cs.len() {
            let piece = slice(&cs, i, n);
            assert(piece@ == rest);
            push_text(&mut out, piece);
            assert(texts(out@) =~= sofar + lines_of(rest));
            return out;
        }
        let end: usize = if n > i && cs[n - 1] == '\r' {
            n - 1
        } else {
            n
        };
        let piece = slice(&cs, i, end);
        assert(piece@ == without_return(rest.take(n - i)));
        push_text(&mut out, piece);
        assert(rest.skip(n - i + 1) == cs@.skip(n + 1));
        i = n + 1;
        assert(texts(out@) + lines_of(cs@.skip(i as int)) =~= sofar + lines_of(rest));
    }
    assert(lines_of(cs@.skip(i as int)) =~= Seq::<Seq<char>>::empty());
    assert(texts(out@) =~= lines_of(s@));
    out
}

/// A text without the `c` it begins with.
pub open spec fn stripped_start(s: Seq<char>, c: char) -> Seq<char>
    decreases s.len(),
{
    if s.len() > 0 && s[0] == c {
        stripped_start(s.skip(1), c)
    } else {
        s
    }
}

/// A text without the `c` it ends in.
pub open spec fn stripped_end(s: Seq<char>, c: char) -> Seq<char>
    decreases s.len(),
{
    if s.len() > 0 && s.last() == c {
        stripped_end(s.drop_last(), c)
    } else {
        s
    }
}

pub fn trim_start_matches(s: &str, c: char) -> (r: String)
    ensures
        r@ == stripped_start(s@, c),
{
    let cs = chars_of(s);
    let mut i: usize = 0;
    assert(cs@.skip(0) == s@);
    while i < cs.len() && cs[i] == c
        invariant
            i <= cs.len(),
            cs@ == s@,
            stripped_start(cs@.skip(i as int), c) == stripped_start(s@, c),
        decreases cs.len() - i,
    {
        assert(cs@.skip(i as int).skip(1) == cs@.skip(i + 1));
        i += 1;
    }
    assert(cs@.subrange(i as int, cs.len() as int) == cs@.skip(i as int));
    slice(&cs, i, cs.len())
}

pub fn trim_end_matches(s: &str, c: char) -> (r: String)
    ensures
        r@ == stripped_end(s@, c),
{
    let cs = chars_of(s);
    let mut n: usize = cs.len();
    assert(cs@.take(n as int) == s@);
    while n > 0 && cs[n - 1] == c
        invariant
            n <= cs.len(),
            cs@ == s@,
            stripped_end(cs@.take(n as int), c) == stripped_end(s@, c),
        decreases n,
    {
        assert(cs@.take(n as int).drop_last() == cs@.take(n - 1));
        n -= 1;
    }
    assert(cs@.subrange(0, n as int) == cs@.take(n as int));
    slice(&cs, 0, n)
}

/// A text with spaces in front up to a width.
pub open spec fn padded(s: Seq<char>, width: nat) -> Seq<char> {
    if s.len() >= width {
        s
    } else {
        Seq::new((width - s.len()) as nat, |i: int| ' ') + s
    }
}

pub fn pad_start(s: &str, width: usize) -> (r: String)
    ensures
        r@ == padded(s@, width as nat),
{
    let cs = chars_of(s);
    if cs.len() >= width {
        return owned(s);
    }
    let n: usize = width - cs.len();
    let ghost spaces = Seq::new(n as nat, |i: int| ' ');
    let mut out = String::new();
    let mut i: usize = 0;
    while i < n
        invariant
            i <= n,
            spaces == Seq::new(n as nat, |i: int| ' '),
            out@ == spaces.take(i as int),
        decreases n - i,
    {
        out.push(' ');
        i += 1;
        assert(spaces.take(i as int) =~= spaces.take(i - 1).push(' '));
    }
    assert(spaces.take(n as int) =~= spaces);
    cat(out.as_str(), s)
}

/// How many leading characters are not white space.
pub open spec fn word_len(s: Seq<char>) -> int
    decreases s.len(),
{
    if s.len() == 0 || is_white(s[0]) {
        0
    } else {
        1 + word_len(s.skip(1))
    }
}

pub proof fn lemma_word_len(s: Seq<char>, n: int)
    requires
        0 <= n <= s.len(),
        forall|k: int| 0 <= k < n ==> !is_white(s[k]),
        n < s.len() ==> is_white(s[n]),
    ensures
        word_len(s) == n,
    decreases n,
{
    if n > 0 {
        assert(!is_white(s[0]));
        assert forall|k: int| 0 <= k < n - 1 implies !is_white(s.skip(1)[k]) by {
            assert(!is_white(s[k + 1]));
        }
        lemma_word_len(s.skip(1), n - 1);
    }
}

/// The words of a text: its maximal runs without white space.
pub open spec fn words(s: Seq<char>) -> Seq<Seq<char>>
    decreases s.len(),
{
    if s.len() == 0 {
        Seq::empty()
    } else if is_white(s[0]) {
        words(s.skip(1))
    } else {
        let n = word_len(s);
        if 0 < n <= s.len() {
            seq![s.take(n)] + words(s.skip(n))
        } else {
            Seq::empty()
        }
    }
}

pub fn split_whitespace(s: &str) -> (r: Vec<String>)
    ensures
        texts(r@) == words(s@),
{
    let cs = chars_of(s);
    let mut out = no_texts();
    let mut i: usize = 0;
    assert(cs@.skip(0) == s@);
    assert(texts(out@) + words(s@) =~= words(s@));
    while i < cs.len()
        invariant
            i <= cs.len(),
            cs@ == s@,
            texts(out@) + words(cs@.skip(i as int)) == words(s@),
        decreases cs.len() - i,
    {
        let ghost rest = cs@.skip(i as int);
        if white(cs[i]) {
            i += 1;
            assert(rest.skip(1) == cs@.skip(i as int));
        } else {
            let start: usize = i;
            let ghost sofar = texts(out@);
            while i < cs.len() && !white(cs[i])
                invariant
                    start <= i <= cs.len(),
                    start < cs.len(),
                    !is_white(cs[start as int]),
                    forall|k: int| start <= k < i ==> !is_white(cs[k]),
                decreases cs.len() - i,
            {
                i += 1;
            }
            proof {
                assert forall|k: int| 0 <= k < i - start implies !is_white(rest[k]) by {
                    assert(!is_white(cs[start + k]));
                }
                lemma_word_len(rest, i - start);
                assert(i > start);
            }
            let w = slice(&cs, start, i);
            assert(w@ == rest.take(i - start));
            push_text(&mut out, w);
            assert(rest.skip(i - start) == cs@.skip(i as int));
            assert(texts(out@) + words(cs@.skip(i as int)) =~= sofar + words(rest));
        }
    }
    assert(texts(out@) + words(cs@.skip(i as int)) =~= texts(out@));
    out
}

/// The text without white space at its ends.
pub open spec fn trimmed_start(s: Seq<char>) -> Seq<char>
    decreases s.len(),
{
    if s.len() > 0 && is_white(s[0]) {
        trimmed_start(s.skip(1))
    } else {
        s
    }
}

pub open spec fn trimmed_end(s: Seq<char>) -> Seq<char>
    decreases s.len(),
{
    if s.len() > 0 && is_white(s.last()) {
        trimmed_end(s.drop_last())
    } else {
        s
    }
}

pub open spec fn trimmed(s: Seq<char>) -> Seq<char> {
    trimmed_end(trimmed_start(s))
}

pub fn trim_start(s: &str) -> (r: String)
    ensures
        r@ == trimmed_start(s@),
{
    let cs = chars_of(s);
    let mut i: usize = 0;
    assert(cs@.skip(0) == s@);
    while i < cs.len() && white(cs[i])
        invariant
            i <= cs.len(),
            cs@ == s@,
            trimmed_start(s@) == trimmed_start(cs@.skip(i as int)),
        decreases cs.len() - i,
    {
        assert(cs@.skip(i as int).skip(1) == cs@.skip(i + 1));
        i += 1;
    }
    let r = slice(&cs, i, cs.len());
    assert(r@ == cs@.skip(i as int));
    r
}

pub fn trim_end(s: &str) -> (r: String)
    ensures
        r@ == trimmed_end(s@),
{
    let cs = chars_of(s);
    let mut n: usize = cs.len();
    assert(cs@.take(n as int) == s@);
    while n > 0 && white(cs[n - 1])
        invariant
            n <= cs.len(),
            cs@ == s@,
            trimmed_end(s@) == trimmed_end(cs@.take(n as int)),
        decreases n,
    {
        assert(cs@.take(n as int).drop_last() == cs@.take(n - 1));
        n -= 1;
    }
    let r = slice(&cs, 0, n);
    assert(r@ == cs@.take(n as int));
    r
}

pub fn trim(s: &str) -> (r: String)
    ensures
        r@ == trimmed(s@),
{
    let t = trim_start(s);
    trim_end(t.as_str())
}

/// The texts with a separator between each two.
pub open spec fn joined(v: Seq<Seq<char>>, sep: Seq<char>) -> Seq<char>
    decreases v.len(),
{
    if v.len() == 0 {
        Seq::empty()
    } else if v.len() == 1 {
        v[0]
    } else {
        joined(v.drop_last(), sep) + sep + v.last()
    }
}

pub fn join(v: &Vec<String>, sep: &str) -> (r: String)
    ensures
        r@ == joined(texts(v@), sep@),
{
    let mut out = String::new();
    let mut i: usize = 0;
    while i < v.len()
        invariant
            i <= v.len(),
            out@ == joined(texts(v@).take(i as int), sep@),
        decreases v.len() - i,
    {
        proof {
            let t = texts(v@).take(i + 1);
            assert(t.drop_last() == texts(v@).take(i as int));
            if i == 0 {
                assert(joined(t, sep@) == v[0]@);
                assert(out@ + v[0]@ =~= v[0]@);
            }
        }
        if i > 0 {
            out.append(sep);
        }
        out.append(v[i].as_str());
        i += 1;
    }
    assert(texts(v@).take(i as int) == texts(v@));
    out
}

// ---------------------------------------------------------------------------
// templates
// ---------------------------------------------------------------------------

/// A template with each `{}` replaced by the next argument.
pub open spec fn filled(t: Seq<char>, args: Seq<Seq<char>>) -> Seq<char>
    decreases t.len(),
{
    if t.len() == 0 {
        Seq::empty()
    } else if t.len() >= 2 && t[0] == '{' && t[1] == '}' && args.len() > 0 {
        args[0] + filled(t.skip(2), args.skip(1))
    } else {
        seq![t[0]] + filled(t.skip(1), args)
    }
}

/// The texts of a list of borrowed strings.
pub open spec fn views(v: Seq<&str>) -> Seq<Seq<char>> {
    Seq::new(v.len(), |i: int| v[i]@)
}

/// Fills a template.
pub fn fill(t: &str, args: &Vec<&str>) -> (r: String)
    ensures
        r@ == filled(t@, views(args@)),
{
    let cs = chars_of(t);
    let mut out = String::new();
    let mut i: usize = 0;
    let mut k: usize = 0;
    let ghost all = views(args@);
    assert(cs@.skip(0) == t@);
    assert(all.skip(0) == all);
    assert(out@ + filled(t@, all) =~= filled(t@, all));
    while i < cs.len()
        invariant
            i <= cs.len(),
            k <= args.len(),
            cs@ == t@,
            all == views(args@),
            out@ + filled(cs@.skip(i as int), all.skip(k as int)) == filled(t@, all),
        decreases cs.len() - i,
    {
        let ghost rest = cs@.skip(i as int);
        let ghost left = all.skip(k as int);
        let ghost sofar = out@;
        if cs.len() - i >= 2 && cs[i] == '{' && cs[i + 1] == '}' && k < args.len() {
            out.append(args[k]);
            i += 2;
            k += 1;
            assert(rest.skip(2) == cs@.skip(i as int));
            assert(left.skip(1) == all.skip(k as int));
            assert(left[0] == args[k - 1]@);
        } else {
            out.push(cs[i]);
            i += 1;
            assert(rest.skip(1) == cs@.skip(i as int));
        }
        assert(out@ + filled(cs@.skip(i as int), all.skip(k as int)) =~= sofar + filled(rest, left));
    }
    assert(out@ + filled(cs@.skip(i as int), all.skip(k as int)) =~= out@);
    out
}

pub fn fill1(t: &str, a: &str) -> (r: String)
    ensures
        r@ == filled(t@, seq![a@]),
{
    let args: Vec<&str> = vec![a];
    assert(views(args@) =~= seq![a@]);
    fill(t, &args)
}

pub fn fill2(t: &str, a: &str, b: &str) -> (r: String)
    ensures
        r@ == filled(t@, seq![a@, b@]),
{
    let args: Vec<&str> = vec![a, b];
    assert(views(args@) =~= seq![a@, b@]);
    fill(t, &args)
}

pub fn fill3(t: &str, a: &str, b: &str, c: &str) -> (r: String)
    ensures
        r@ == filled(t@, seq![a@, b@, c@]),
{
    let args: Vec<&str> = vec![a, b, c];
    assert(views(args@) =~= seq![a@, b@, c@]);
    fill(t, &args)
}

pub fn fill4(t: &str, a: &str, b: &str, c: &str, d: &str) -> (r: String)
    ensures
        r@ == filled(t@, seq![a@, b@, c@, d@]),
{
    let args: Vec<&str> = vec![a, b, c, d];
    assert(views(args@) =~= seq![a@, b@, c@, d@]);
    fill(t, &args)
}

} // verus!
