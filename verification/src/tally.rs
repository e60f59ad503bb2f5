//! What came up on a bus: endpoints, and statuses with their counts. Each is
//! held in order, and nothing is held twice.

use vstd::prelude::*;

verus! {

// ---------------------------------------------------------------------------
// endpoints
// ---------------------------------------------------------------------------

/// Lowest first, and no endpoint twice.
pub open spec fn rising(s: Seq<u8>) -> bool {
    forall|i: int, j: int| 0 <= i < j < s.len() ==> #[trigger] s[i] < #[trigger] s[j]
}

/// A set of endpoint numbers.
#[derive(Debug)]
pub struct Endpoints {
    items: Vec<u8>,
}

impl View for Endpoints {
    type V = Seq<u8>;

    closed spec fn view(&self) -> Seq<u8> {
        self.items@
    }
}

/// An endpoint put in its place, unless it is there.
pub open spec fn with_endpoint(s: Seq<u8>, e: u8) -> Seq<u8>
    decreases s.len(),
{
    if s.len() == 0 || e < s[0] {
        seq![e] + s
    } else if s[0] == e {
        s
    } else {
        seq![s[0]] + with_endpoint(s.skip(1), e)
    }
}

proof fn lemma_with_endpoint(s: Seq<u8>, e: u8, k: int)
    requires
        0 <= k <= s.len(),
        forall|j: int| 0 <= j < k ==> #[trigger] s[j] < e,
        k < s.len() ==> s[k] >= e,
    ensures
        with_endpoint(s, e) == (if k < s.len() && s[k] == e {
            s
        } else {
            s.insert(k, e)
        }),
    decreases k,
{
    if k > 0 {
        assert(s[0] < e);
        assert forall|j: int| 0 <= j < k - 1 implies #[trigger] s.skip(1)[j] < e by {
            assert(s[j + 1] < e);
        }
        lemma_with_endpoint(s.skip(1), e, k - 1);
        if k < s.len() && s[k] == e {
            assert(with_endpoint(s, e) =~= s);
        } else {
            assert(with_endpoint(s, e) =~= s.insert(k, e));
        }
    } else {
        assert(seq![e] + s =~= s.insert(0, e));
    }
}

impl Endpoints {
    #[verifier::type_invariant]
    spec fn ordered(self) -> bool {
        rising(self.items@)
    }

    pub fn new() -> (r: Self)
        ensures
            r@ == Seq::<u8>::empty(),
    {
        Endpoints { items: Vec::new() }
    }

    pub fn insert(&mut self, e: u8)
        ensures
            final(self)@ == with_endpoint(old(self)@, e),
            rising(final(self)@),
    {
        proof {
            use_type_invariant(&*self);
        }
        let mut items: Vec<u8> = Vec::new();
        std::mem::swap(&mut items, &mut self.items);
        let ghost before = items@;
        let mut k: usize = 0;
        while k < items.len() && items[k] < e
            invariant
                k <= items.len(),
                before == items@,
                forall|j: int| 0 <= j < k ==> #[trigger] before[j] < e,
            decreases items.len() - k,
        {
            k += 1;
        }
        proof {
            lemma_with_endpoint(before, e, k as int);
            putting_an_endpoint_keeps_the_order(before, e);
        }
        if k == items.len() || items[k] != e {
            items.insert(k, e);
        }
        self.items = items;
    }

    pub fn len(&self) -> (r: usize)
        ensures
            r == self@.len(),
    {
        self.items.len()
    }

    /// Lowest first.
    pub fn entries(&self) -> (r: &Vec<u8>)
        ensures
            r@ == self@,
            rising(r@),
    {
        proof {
            use_type_invariant(self);
        }
        &self.items
    }
}

impl Default for Endpoints {
    fn default() -> (r: Self)
        ensures
            r@ == Seq::<u8>::empty(),
    {
        Endpoints::new()
    }
}

impl Clone for Endpoints {
    fn clone(&self) -> (r: Self)
        ensures
            r@ == self@,
    {
        proof {
            use_type_invariant(self);
        }
        let items = self.items.clone();
        assert(items@ =~= self.items@);
        Endpoints { items }
    }
}

/// Whatever is put in, endpoints stay in order with none of them twice, and
/// exactly that one is added.
pub proof fn putting_an_endpoint_keeps_the_order(s: Seq<u8>, e: u8)
    requires
        rising(s),
    ensures
        rising(with_endpoint(s, e)),
        forall|x: u8| #[trigger] with_endpoint(s, e).contains(x) <==> s.contains(x) || x == e,
    decreases s.len(),
{
    let t = with_endpoint(s, e);
    if s.len() == 0 || e < s[0] {
        assert(t[0] == e);
        assert forall|x: u8| #[trigger] t.contains(x) <==> s.contains(x) || x == e by {
            if s.contains(x) {
                let i = choose|i: int| 0 <= i < s.len() && s[i] == x;
                assert(t[i + 1] == x);
            }
            if t.contains(x) {
                let i = choose|i: int| 0 <= i < t.len() && t[i] == x;
                if i > 0 {
                    assert(s[i - 1] == x);
                }
            }
        }
    } else if s[0] == e {
        assert(s.contains(e));
    } else {
        let rest = s.skip(1);
        let more = with_endpoint(rest, e);
        assert forall|i: int, j: int| 0 <= i < j < rest.len() implies #[trigger] rest[i]
            < #[trigger] rest[j] by {
            assert(s[i + 1] < s[j + 1]);
        }
        putting_an_endpoint_keeps_the_order(rest, e);
        assert forall|j: int| 0 <= j < more.len() implies s[0] < #[trigger] more[j] by {
            assert(more.contains(more[j]));
            if rest.contains(more[j]) {
                let i = choose|i: int| 0 <= i < rest.len() && rest[i] == more[j];
                assert(s[0] < s[i + 1]);
            }
        }
        assert forall|x: u8| #[trigger] t.contains(x) <==> s.contains(x) || x == e by {
            if t.contains(x) {
                let i = choose|i: int| 0 <= i < t.len() && t[i] == x;
                if i > 0 {
                    assert(more[i - 1] == x);
                    assert(more.contains(x));
                    if rest.contains(x) {
                        let n = choose|n: int| 0 <= n < rest.len() && rest[n] == x;
                        assert(s[n + 1] == x);
                    }
                } else {
                    assert(s[0] == x);
                }
            }
            if s.contains(x) {
                let i = choose|i: int| 0 <= i < s.len() && s[i] == x;
                if i > 0 {
                    assert(rest[i - 1] == x);
                    assert(more.contains(x));
                    let n = choose|n: int| 0 <= n < more.len() && more[n] == x;
                    assert(t[n + 1] == x);
                } else {
                    assert(t[0] == x);
                }
            }
            if x == e {
                assert(more.contains(e));
                let n = choose|n: int| 0 <= n < more.len() && more[n] == e;
                assert(t[n + 1] == e);
            }
        }
    }
}

// ---------------------------------------------------------------------------
// statuses
// ---------------------------------------------------------------------------

/// Lowest status first, and none twice.
pub open spec fn by_number(s: Seq<(i32, u64)>) -> bool {
    forall|i: int, j: int| 0 <= i < j < s.len() ==> (#[trigger] s[i]).0 < (#[trigger] s[j]).0
}

/// How often each status was seen.
#[derive(Debug)]
pub struct StatusCounts {
    items: Vec<(i32, u64)>,
}

impl View for StatusCounts {
    type V = Seq<(i32, u64)>;

    closed spec fn view(&self) -> Seq<(i32, u64)> {
        self.items@
    }
}

/// A status with its count, in the place of what it had before.
pub open spec fn with_status(s: Seq<(i32, u64)>, x: (i32, u64)) -> Seq<(i32, u64)>
    decreases s.len(),
{
    if s.len() == 0 || x.0 < s[0].0 {
        seq![x] + s
    } else if s[0].0 == x.0 {
        s.update(0, x)
    } else {
        seq![s[0]] + with_status(s.skip(1), x)
    }
}

proof fn lemma_with_status(s: Seq<(i32, u64)>, x: (i32, u64), k: int)
    requires
        0 <= k <= s.len(),
        forall|j: int| 0 <= j < k ==> (#[trigger] s[j]).0 < x.0,
        k < s.len() ==> s[k].0 >= x.0,
    ensures
        with_status(s, x) == (if k < s.len() && s[k].0 == x.0 {
            s.update(k, x)
        } else {
            s.insert(k, x)
        }),
    decreases k,
{
    if k > 0 {
        assert(s[0].0 < x.0);
        assert forall|j: int| 0 <= j < k - 1 implies (#[trigger] s.skip(1)[j]).0 < x.0 by {
            assert(s[j + 1].0 < x.0);
        }
        lemma_with_status(s.skip(1), x, k - 1);
        if k < s.len() && s[k].0 == x.0 {
            assert(with_status(s, x) =~= s.update(k, x));
        } else {
            assert(with_status(s, x) =~= s.insert(k, x));
        }
    } else {
        assert(seq![x] + s =~= s.insert(0, x));
    }
}

/// Whatever is put in, statuses stay in order with none of them twice.
pub proof fn putting_a_status_keeps_the_order(s: Seq<(i32, u64)>, x: (i32, u64))
    requires
        by_number(s),
    ensures
        by_number(with_status(s, x)),
        with_status(s, x).contains(x),
{
    let k = lemma_place(s, x.0);
    lemma_with_status(s, x, k);
    let t = with_status(s, x);
    assert(t[k] == x);
}

proof fn lemma_place(s: Seq<(i32, u64)>, n: i32) -> (k: int)
    ensures
        0 <= k <= s.len(),
        forall|j: int| 0 <= j < k ==> (#[trigger] s[j]).0 < n,
        k < s.len() ==> s[k].0 >= n,
    decreases s.len(),
{
    if s.len() == 0 || s[0].0 >= n {
        0
    } else {
        let k = lemma_place(s.skip(1), n);
        assert forall|j: int| 0 <= j < k + 1 implies (#[trigger] s[j]).0 < n by {
            if j > 0 {
                assert(s.skip(1)[j - 1] == s[j]);
            }
        }
        if k < s.skip(1).len() {
            assert(s.skip(1)[k] == s[k + 1]);
        }
        k + 1
    }
}

impl StatusCounts {
    #[verifier::type_invariant]
    spec fn ordered(self) -> bool {
        by_number(self.items@)
    }

    pub fn new() -> (r: Self)
        ensures
            r@ == Seq::<(i32, u64)>::empty(),
    {
        StatusCounts { items: Vec::new() }
    }

    pub fn insert(&mut self, status: i32, count: u64)
        ensures
            final(self)@ == with_status(old(self)@, (status, count)),
            by_number(final(self)@),
    {
        proof {
            use_type_invariant(&*self);
        }
        let mut items: Vec<(i32, u64)> = Vec::new();
        std::mem::swap(&mut items, &mut self.items);
        let ghost before = items@;
        let mut k: usize = 0;
        while k < items.len() && items[k].0 < status
            invariant
                k <= items.len(),
                before == items@,
                forall|j: int| 0 <= j < k ==> (#[trigger] before[j]).0 < status,
            decreases items.len() - k,
        {
            k += 1;
        }
        proof {
            lemma_with_status(before, (status, count), k as int);
            putting_a_status_keeps_the_order(before, (status, count));
        }
        if k < items.len() && items[k].0 == status {
            items.set(k, (status, count));
        } else {
            items.insert(k, (status, count));
        }
        self.items = items;
    }

    /// Lowest status first.
    pub fn entries(&self) -> (r: &Vec<(i32, u64)>)
        ensures
            r@ == self@,
            by_number(r@),
    {
        proof {
            use_type_invariant(self);
        }
        &self.items
    }
}

impl Default for StatusCounts {
    fn default() -> (r: Self)
        ensures
            r@ == Seq::<(i32, u64)>::empty(),
    {
        StatusCounts::new()
    }
}

impl Clone for StatusCounts {
    fn clone(&self) -> (r: Self)
        ensures
            r@ == self@,
    {
        proof {
            use_type_invariant(self);
        }
        let mut items: Vec<(i32, u64)> = Vec::new();
        let mut i: usize = 0;
        while i < self.items.len()
            invariant
                i <= self.items.len(),
                items@ == self.items@.take(i as int),
            decreases self.items.len() - i,
        {
            items.push(self.items[i]);
            i += 1;
        }
        assert(items@ =~= self.items@);
        StatusCounts { items }
    }
}

} // verus!
