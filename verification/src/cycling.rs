//! What cycling a port over and over showed about its link.

use vstd::prelude::*;
use crate::model::{brief_rate, brief_rate_text, ReenumerationCycle, ReenumerationRun};
use crate::number::Decimal;
use crate::seqs::{kept, lemma_take_all, lemma_take_more};
use crate::text::{less, text_less};

verus! {

/// How often a rate came up.
pub struct Tally {
    pub rate: Decimal,
    pub count: nat,
}

/// Slowest first, by whole megabits; rates within one megabit of each other go
/// by how they are written.
pub open spec fn slower(a: Decimal, b: Decimal) -> bool {
    a.micros / 1_000_000 < b.micros / 1_000_000 || (a.micros / 1_000_000 == b.micros / 1_000_000
        && text_less(brief_rate(a), brief_rate(b)))
}

fn is_slower(a: Decimal, b: Decimal) -> (r: bool)
    ensures
        r == slower(a, b),
{
    let x: u64 = a.micros / 1_000_000;
    let y: u64 = b.micros / 1_000_000;
    if x != y {
        return x < y;
    }
    let s = brief_rate_text(a);
    let t = brief_rate_text(b);
    less(s.as_str(), t.as_str())
}

/// One more of a rate.
pub open spec fn tallied(s: Seq<Tally>, m: Decimal) -> Seq<Tally>
    decreases s.len(),
{
    if s.len() == 0 {
        seq![Tally { rate: m, count: 1 }]
    } else if s[0].rate == m {
        seq![Tally { rate: m, count: s[0].count + 1 }] + s.skip(1)
    } else if slower(m, s[0].rate) {
        seq![Tally { rate: m, count: 1 }] + s
    } else {
        seq![s[0]] + tallied(s.skip(1), m)
    }
}

/// How often each rate came up, slowest first.
pub open spec fn tallies(s: Seq<ReenumerationCycle>) -> Seq<Tally>
    decreases s.len(),
{
    if s.len() == 0 {
        Seq::empty()
    } else {
        match s.last().speed_mbps {
            Some(m) => tallied(tallies(s.drop_last()), m),
            None => tallies(s.drop_last()),
        }
    }
}

pub open spec fn as_tallies(v: Seq<(Decimal, usize)>) -> Seq<Tally> {
    Seq::new(v.len(), |i: int| Tally { rate: v[i].0, count: v[i].1 as nat })
}

/// A tally by its label.
pub open spec fn labelled(s: Seq<Tally>) -> Seq<(Seq<char>, nat)> {
    Seq::new(s.len(), |i: int| (brief_rate(s[i].rate), s[i].count))
}

pub open spec fn label_views(v: Seq<(String, usize)>) -> Seq<(Seq<char>, nat)> {
    Seq::new(v.len(), |i: int| (v[i].0@, v[i].1 as nat))
}

/// The fastest rate reached.
pub open spec fn fastest(s: Seq<ReenumerationCycle>) -> Option<Decimal>
    decreases s.len(),
{
    if s.len() == 0 {
        None
    } else {
        match (fastest(s.drop_last()), s.last().speed_mbps) {
            (Some(a), Some(m)) => Some(a.larger(m)),
            (None, m) => m,
            (a, None) => a,
        }
    }
}

pub open spec fn came_back(yes: bool) -> spec_fn(ReenumerationCycle) -> bool {
    |c: ReenumerationCycle| c.returned == yes
}

proof fn lemma_tallied(s: Seq<Tally>, m: Decimal, k: int)
    requires
        0 <= k <= s.len(),
        forall|j: int| 0 <= j < k ==> (#[trigger] s[j]).rate != m && !slower(m, s[j].rate),
        k < s.len() ==> s[k].rate == m || slower(m, s[k].rate),
    ensures
        tallied(s, m) == (if k < s.len() && s[k].rate == m {
            s.update(k, Tally { rate: m, count: s[k].count + 1 })
        } else {
            s.insert(k, Tally { rate: m, count: 1 })
        }),
    decreases k,
{
    if k > 0 {
        assert(s[0].rate != m && !slower(m, s[0].rate));
        assert forall|j: int| 0 <= j < k - 1 implies (#[trigger] s.skip(1)[j]).rate != m && !slower(
            m,
            s.skip(1)[j].rate,
        ) by {
            assert(s[j + 1].rate != m && !slower(m, s[j + 1].rate));
        }
        lemma_tallied(s.skip(1), m, k - 1);
        if k < s.len() && s[k].rate == m {
            assert(tallied(s, m) =~= s.update(k, Tally { rate: m, count: s[k].count + 1 }));
        } else {
            assert(tallied(s, m) =~= s.insert(k, Tally { rate: m, count: 1 }));
        }
    } else if s.len() > 0 && s[0].rate == m {
        assert(tallied(s, m) =~= s.update(0, Tally { rate: m, count: s[0].count + 1 }));
    } else {
        assert(tallied(s, m) =~= s.insert(0, Tally { rate: m, count: 1 }));
    }
}

impl ReenumerationRun {
    fn count_returned(&self, yes: bool) -> (r: usize)
        ensures
            r == kept(self.cycles@, came_back(yes)).len(),
            r <= self.cycles.len(),
    {
        let mut n: usize = 0;
        let mut i: usize = 0;
        while i < self.cycles.len()
            invariant
                i <= self.cycles.len(),
                n <= i,
                n == kept(self.cycles@.take(i as int), came_back(yes)).len(),
            decreases self.cycles.len() - i,
        {
            proof {
                lemma_take_more(self.cycles@, i as int);
            }
            if self.cycles[i].returned == yes {
                n += 1;
            }
            i += 1;
        }
        proof {
            lemma_take_all(self.cycles@);
        }
        n
    }

    pub open spec fn returned(self) -> nat {
        kept(self.cycles@, came_back(true)).len()
    }

    pub open spec fn lost(self) -> nat {
        kept(self.cycles@, came_back(false)).len()
    }

    /// Cycles where the device came back at all.
    pub fn successes(&self) -> (r: usize)
        ensures
            r == self.returned(),
    {
        self.count_returned(true)
    }

    pub fn failures(&self) -> (r: usize)
        ensures
            r == self.lost(),
    {
        self.count_returned(false)
    }

    fn count_rates(&self) -> (r: Vec<(Decimal, usize)>)
        ensures
            as_tallies(r@) == tallies(self.cycles@),
    {
        let mut out: Vec<(Decimal, usize)> = Vec::new();
        let mut i: usize = 0;
        assert(as_tallies(out@) =~= Seq::<Tally>::empty());
        while i < self.cycles.len()
            invariant
                i <= self.cycles.len(),
                as_tallies(out@) == tallies(self.cycles@.take(i as int)),
                forall|k: int| 0 <= k < out.len() ==> (#[trigger] out[k]).1 <= i,
            decreases self.cycles.len() - i,
        {
            proof {
                lemma_take_more(self.cycles@, i as int);
            }
            if let Some(m) = self.cycles[i].speed_mbps {
                let ghost before = as_tallies(out@);
                let ghost raw = out@;
                let mut k: usize = 0;
                while k < out.len() && out[k].0.micros != m.micros && !is_slower(m, out[k].0)
                    invariant
                        k <= out.len(),
                        before == as_tallies(out@),
                        raw == out@,
                        forall|j: int|
                            0 <= j < k ==> (#[trigger] before[j]).rate != m && !slower(
                                m,
                                before[j].rate,
                            ),
                    decreases out.len() - k,
                {
                    assert(before[k as int].rate == out@[k as int].0);
                    k += 1;
                }
                proof {
                    if k < out.len() {
                        assert(before[k as int].rate == out@[k as int].0);
                    }
                    lemma_tallied(before, m, k as int);
                }
                if k < out.len() && out[k].0.micros == m.micros {
                    assert(raw[k as int].1 <= i);
                    let n: usize = out[k].1 + 1;
                    out.set(k, (m, n));
                    assert(as_tallies(out@) =~= tallied(before, m));
                } else {
                    out.insert(k, (m, 1));
                    assert(as_tallies(out@) =~= tallied(before, m));
                }
                assert forall|j: int| 0 <= j < out.len() implies (#[trigger] out[j]).1 <= i + 1 by {
                    if out.len() == raw.len() {
                        if j != k {
                            assert(out@[j] == raw[j]);
                        }
                    } else if j < k {
                        assert(out@[j] == raw[j]);
                    } else if j > k {
                        assert(out@[j] == raw[j - 1]);
                    }
                }
            }
            i += 1;
        }
        proof {
            lemma_take_all(self.cycles@);
        }
        out
    }

    /// How often each negotiated speed came up, slowest first. One entry means a
    /// stable link, more than one means it varies.
    pub open spec fn distribution(self) -> Seq<(Seq<char>, nat)> {
        labelled(tallies(self.cycles@))
    }

    pub fn speed_distribution(&self) -> (r: Vec<(String, usize)>)
        ensures
            label_views(r@) == self.distribution(),
    {
        let counts = self.count_rates();
        let ghost all = self.distribution();
        let mut out: Vec<(String, usize)> = Vec::new();
        let mut i: usize = 0;
        assert(label_views(out@) =~= all.take(0));
        while i < counts.len()
            invariant
                i <= counts.len(),
                all == labelled(as_tallies(counts@)),
                label_views(out@) == all.take(i as int),
            decreases counts.len() - i,
        {
            let ghost before = out@;
            out.push((brief_rate_text(counts[i].0), counts[i].1));
            assert(label_views(out@) =~= label_views(before).push(all[i as int]));
            assert(all.take(i + 1) =~= all.take(i as int).push(all[i as int]));
            i += 1;
        }
        proof {
            lemma_take_all(all);
        }
        out
    }

    /// The fastest rate ever reached: what the link is capable of.
    pub fn best_mbps(&self) -> (r: Option<Decimal>)
        ensures
            r == fastest(self.cycles@),
    {
        let mut best: Option<Decimal> = None;
        let mut i: usize = 0;
        while i < self.cycles.len()
            invariant
                i <= self.cycles.len(),
                best == fastest(self.cycles@.take(i as int)),
            decreases self.cycles.len() - i,
        {
            proof {
                lemma_take_more(self.cycles@, i as int);
            }
            best = match (best, self.cycles[i].speed_mbps) {
                (Some(a), Some(m)) => Some(
                    if a.micros >= m.micros {
                        a
                    } else {
                        m
                    },
                ),
                (None, m) => m,
                (a, None) => a,
            };
            i += 1;
        }
        proof {
            lemma_take_all(self.cycles@);
        }
        best
    }

    /// The link did not do the same thing every time. A single attempt cannot
    /// disagree with itself.
    pub open spec fn varies(self) -> bool {
        self.cycles@.len() > 1 && (self.lost() > 0 || self.distribution().len() > 1)
    }

    pub fn is_intermittent(&self) -> (r: bool)
        ensures
            r == self.varies(),
    {
        if self.cycles.len() <= 1 {
            return false;
        }
        if self.failures() > 0 {
            return true;
        }
        let d = self.speed_distribution();
        assert(label_views(d@).len() == d@.len());
        d.len() > 1
    }
}

/// Every cycle either came back or was lost.
pub proof fn cycles_return_or_are_lost(s: Seq<ReenumerationCycle>)
    ensures
        kept(s, came_back(true)).len() + kept(s, came_back(false)).len() == s.len(),
    decreases s.len(),
{
    if s.len() > 0 {
        cycles_return_or_are_lost(s.drop_last());
    }
}

/// A single cycle is never called intermittent.
pub proof fn one_cycle_never_varies(run: ReenumerationRun)
    requires
        run.cycles@.len() <= 1,
    ensures
        !run.varies(),
{
}

/// The fastest rate is at least every rate that was reached.
pub proof fn fastest_is_an_upper_bound(s: Seq<ReenumerationCycle>, i: int)
    requires
        0 <= i < s.len(),
        s[i].speed_mbps is Some,
    ensures
        fastest(s) is Some,
        fastest(s)->0.micros >= s[i].speed_mbps->0.micros,
    decreases s.len(),
{
    if i < s.len() - 1 {
        assert(s.drop_last()[i] == s[i]);
        fastest_is_an_upper_bound(s.drop_last(), i);
    }
}

} // verus!
