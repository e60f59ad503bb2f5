//! What can be asked of a report.

use vstd::prelude::*;
use crate::model::{
    About, Finding, Report, Severity, Snapshot, Subject, UrbStats, UrbTraffic, UsbDevice, Verdict,
};
use crate::seqs::{first_of, kept, lemma_kept, lemma_take_all, lemma_take_more, pointee, pointees};
use crate::snapshot::{is_at, lemma_first_stays};
use crate::text::{has_text, no_texts, push_text, texts};

verus! {

/// The worst severity of a list of findings.
pub open spec fn worst(s: Seq<Finding>) -> Option<Severity>
    decreases s.len(),
{
    if s.len() == 0 {
        None
    } else {
        match worst(s.drop_last()) {
            Some(w) => if w.weight() >= s.last().severity.weight() {
                Some(w)
            } else {
                Some(s.last().severity)
            },
            None => Some(s.last().severity),
        }
    }
}

pub open spec fn is_about(subject: About) -> spec_fn(Verdict) -> bool {
    |v: Verdict| v.subject@ == subject
}

/// The names of some devices.
pub open spec fn device_names(s: Seq<UsbDevice>) -> Seq<Seq<char>> {
    Seq::new(s.len(), |i: int| s[i].sysfs_name@)
}

/// A subject that names one of these. The host is never one of them.
pub open spec fn names_one(names: Seq<Seq<char>>, a: About) -> bool {
    match a {
        About::Device(d) | About::Port(d) | About::Cable(d) => names.contains(d),
        About::Host => false,
    }
}

pub open spec fn finding_in(names: Seq<Seq<char>>) -> spec_fn(Finding) -> bool {
    |f: Finding| names_one(names, f.subject@)
}

pub open spec fn verdict_in(names: Seq<Seq<char>>) -> spec_fn(Verdict) -> bool {
    |v: Verdict| names_one(names, v.subject@)
}

/// Traffic of one of these devices, by its address.
pub open spec fn traffic_of(devs: Seq<UsbDevice>) -> spec_fn(UrbStats) -> bool {
    |s: UrbStats| first_of(devs, is_at(s.bus, s.device_address)) is Some
}

/// Where devices sit on their buses, as far as that is known.
pub open spec fn addresses(s: Seq<UsbDevice>) -> Seq<(u32, u32)>
    decreases s.len(),
{
    if s.len() == 0 {
        Seq::empty()
    } else {
        match (s.last().busnum, s.last().devnum) {
            (Some(b), Some(a)) => addresses(s.drop_last()).push((b, a)),
            _ => addresses(s.drop_last()),
        }
    }
}

proof fn lemma_addresses(s: Seq<UsbDevice>, bus: u32, address: u32)
    ensures
        addresses(s).contains((bus, address)) <==> first_of(s, is_at(bus, address)) is Some,
    decreases s.len(),
{
    if s.len() > 0 {
        lemma_addresses(s.drop_last(), bus, address);
        let t = addresses(s.drop_last());
        if let (Some(b), Some(a)) = (s.last().busnum, s.last().devnum) {
            if t.contains((bus, address)) {
                let i = choose|i: int| 0 <= i < t.len() && t[i] == (bus, address);
                assert(t.push((b, a))[i] == (bus, address));
            }
            if t.push((b, a)).contains((bus, address)) {
                let i = choose|i: int|
                    0 <= i < t.push((b, a)).len() && t.push((b, a))[i] == (bus, address);
                if i < t.len() {
                    assert(t[i] == (bus, address));
                }
            }
            assert(t.push((b, a))[t.len() as int] == (b, a));
        }
    }
}

fn list_names(v: &Vec<&UsbDevice>) -> (r: Vec<String>)
    ensures
        texts(r@) == device_names(pointees(v@)),
{
    let ghost names = device_names(pointees(v@));
    let mut out = no_texts();
    let mut i: usize = 0;
    assert(texts(out@) =~= names.take(0));
    while i < v.len()
        invariant
            i <= v.len(),
            names == device_names(pointees(v@)),
            texts(out@) == names.take(i as int),
        decreases v.len() - i,
    {
        push_text(&mut out, v[i].sysfs_name.clone());
        assert(names.take(i + 1) =~= names.take(i as int).push(names[i as int]));
        i += 1;
    }
    assert(names.take(i as int) =~= names);
    out
}

fn list_addresses(v: &Vec<&UsbDevice>) -> (r: Vec<(u32, u32)>)
    ensures
        r@ == addresses(pointees(v@)),
{
    let ghost all = pointees(v@);
    let mut out: Vec<(u32, u32)> = Vec::new();
    let mut i: usize = 0;
    while i < v.len()
        invariant
            i <= v.len(),
            all == pointees(v@),
            out@ == addresses(all.take(i as int)),
        decreases v.len() - i,
    {
        proof {
            lemma_take_more(all, i as int);
        }
        if let (Some(b), Some(a)) = (v[i].busnum, v[i].devnum) {
            out.push((b, a));
        }
        i += 1;
    }
    proof {
        lemma_take_all(all);
    }
    out
}

fn in_scope(names: &Vec<String>, s: &Subject) -> (r: bool)
    ensures
        r == names_one(texts(names@), s@),
{
    match s {
        Subject::Device(d) => has_text(names, d.as_str()),
        Subject::Port(d) => has_text(names, d.as_str()),
        Subject::Cable(d) => has_text(names, d.as_str()),
        Subject::Host => false,
    }
}

fn narrow_findings(findings: Vec<Finding>, names: &Vec<String>) -> (r: Vec<Finding>)
    ensures
        r@ == kept(findings@, finding_in(texts(names@))),
{
    let ghost all = findings@;
    let ghost p = finding_in(texts(names@));
    let mut rest = findings;
    let n: usize = rest.len();
    let mut out: Vec<Finding> = Vec::new();
    let mut i: usize = 0;
    assert(rest@ =~= all.skip(0));
    while i < n
        invariant
            i <= n,
            all.len() == n,
            p == finding_in(texts(names@)),
            rest@ == all.skip(i as int),
            out@ == kept(all.take(i as int), p),
        decreases n - i,
    {
        let f = rest.remove(0);
        proof {
            assert(rest@ =~= all.skip(i + 1));
            lemma_take_more(all, i as int);
        }
        if in_scope(names, &f.subject) {
            out.push(f);
        }
        i += 1;
    }
    proof {
        lemma_take_all(all);
    }
    out
}

fn narrow_verdicts(verdicts: Vec<Verdict>, names: &Vec<String>) -> (r: Vec<Verdict>)
    ensures
        r@ == kept(verdicts@, verdict_in(texts(names@))),
{
    let ghost all = verdicts@;
    let ghost p = verdict_in(texts(names@));
    let mut rest = verdicts;
    let n: usize = rest.len();
    let mut out: Vec<Verdict> = Vec::new();
    let mut i: usize = 0;
    assert(rest@ =~= all.skip(0));
    while i < n
        invariant
            i <= n,
            all.len() == n,
            p == verdict_in(texts(names@)),
            rest@ == all.skip(i as int),
            out@ == kept(all.take(i as int), p),
        decreases n - i,
    {
        let v = rest.remove(0);
        proof {
            assert(rest@ =~= all.skip(i + 1));
            lemma_take_more(all, i as int);
        }
        if in_scope(names, &v.subject) {
            out.push(v);
        }
        i += 1;
    }
    proof {
        lemma_take_all(all);
    }
    out
}

fn has_address(v: &Vec<(u32, u32)>, bus: u32, address: u32) -> (r: bool)
    ensures
        r == v@.contains((bus, address)),
{
    let mut i: usize = 0;
    while i < v.len()
        invariant
            i <= v.len(),
            forall|j: int| 0 <= j < i ==> (#[trigger] v@[j]) != (bus, address),
        decreases v.len() - i,
    {
        if v[i].0 == bus && v[i].1 == address {
            assert(v@[i as int] == (bus, address));
            return true;
        }
        i += 1;
    }
    false
}

fn narrow_traffic(devices: Vec<UrbStats>, at: &Vec<(u32, u32)>, Ghost(devs): Ghost<Seq<UsbDevice>>) -> (r:
    Vec<UrbStats>)
    requires
        at@ == addresses(devs),
    ensures
        r@ == kept(devices@, traffic_of(devs)),
{
    let ghost all = devices@;
    let ghost p = traffic_of(devs);
    let mut rest = devices;
    let n: usize = rest.len();
    let mut out: Vec<UrbStats> = Vec::new();
    let mut i: usize = 0;
    assert(rest@ =~= all.skip(0));
    while i < n
        invariant
            i <= n,
            all.len() == n,
            at@ == addresses(devs),
            p == traffic_of(devs),
            rest@ == all.skip(i as int),
            out@ == kept(all.take(i as int), p),
        decreases n - i,
    {
        let s = rest.remove(0);
        proof {
            assert(rest@ =~= all.skip(i + 1));
            lemma_take_more(all, i as int);
            lemma_addresses(devs, s.bus, s.device_address);
        }
        if has_address(at, s.bus, s.device_address) {
            out.push(s);
        }
        i += 1;
    }
    proof {
        lemma_take_all(all);
    }
    out
}

/// Traffic narrowed to some devices; the window and everything else stay.
pub open spec fn narrowed(before: Option<UrbTraffic>, after: Option<UrbTraffic>, devs: Seq<UsbDevice>) -> bool {
    match (before, after) {
        (Some(t), Some(u)) => u == (UrbTraffic { devices: u.devices, ..t }) && u.devices@ == kept(
            t.devices@,
            traffic_of(devs),
        ),
        (None, None) => true,
        _ => false,
    }
}

impl Report {
    pub fn worst_severity(&self) -> (r: Option<Severity>)
        ensures
            r == worst(self.findings@),
    {
        let mut out: Option<Severity> = None;
        let mut i: usize = 0;
        while i < self.findings.len()
            invariant
                i <= self.findings.len(),
                out == worst(self.findings@.take(i as int)),
            decreases self.findings.len() - i,
        {
            proof {
                lemma_take_more(self.findings@, i as int);
            }
            let s = self.findings[i].severity;
            out = match out {
                Some(w) => if w.rank() >= s.rank() {
                    Some(w)
                } else {
                    Some(s)
                },
                None => Some(s),
            };
            i += 1;
        }
        proof {
            lemma_take_all(self.findings@);
        }
        out
    }

    /// The verdict for one subject, if one was reached.
    pub fn verdict_for(&self, subject: &Subject) -> (r: Option<&Verdict>)
        ensures
            pointee(r) == first_of(self.verdicts@, is_about(subject@)),
    {
        let ghost p = is_about(subject@);
        let mut i: usize = 0;
        while i < self.verdicts.len()
            invariant
                i <= self.verdicts.len(),
                p == is_about(subject@),
                first_of(self.verdicts@.take(i as int), p) is None,
            decreases self.verdicts.len() - i,
        {
            proof {
                lemma_take_more(self.verdicts@, i as int);
            }
            if self.verdicts[i].subject.is(subject) {
                proof {
                    lemma_first_stays(self.verdicts@, i + 1, p);
                }
                return Some(&self.verdicts[i]);
            }
            i += 1;
        }
        proof {
            lemma_take_all(self.verdicts@);
        }
        None
    }

    /// The same report with findings, verdicts and traffic narrowed to one
    /// device and its descendants. What was observed stays whole: only what is
    /// shown is narrowed.
    pub fn scoped_to(self, sysfs_name: &str) -> (r: Self)
        ensures
            r.findings@ == kept(
                self.findings@,
                finding_in(device_names(self.snapshot.below(sysfs_name@))),
            ),
            r.exonerations@ == kept(
                self.exonerations@,
                finding_in(device_names(self.snapshot.below(sysfs_name@))),
            ),
            r.verdicts@ == kept(
                self.verdicts@,
                verdict_in(device_names(self.snapshot.below(sysfs_name@))),
            ),
            r.snapshot == (Snapshot { urb_traffic: r.snapshot.urb_traffic, ..self.snapshot }),
            narrowed(
                self.snapshot.urb_traffic,
                r.snapshot.urb_traffic,
                self.snapshot.below(sysfs_name@),
            ),
    {
        let ghost devs = self.snapshot.below(sysfs_name@);
        let scope = self.snapshot.subtree(sysfs_name);
        let names = list_names(&scope);
        let at = list_addresses(&scope);
        let mut r = self;
        r.findings = narrow_findings(r.findings, &names);
        r.exonerations = narrow_findings(r.exonerations, &names);
        r.verdicts = narrow_verdicts(r.verdicts, &names);
        r.snapshot.urb_traffic =
        match r.snapshot.urb_traffic {
            Some(t) => {
                let mut u = t;
                u.devices = narrow_traffic(u.devices, &at, Ghost(devs));
                Some(u)
            },
            None => None,
        };
        r
    }
}

// ---------------------------------------------------------------------------
// laws
// ---------------------------------------------------------------------------

/// The worst severity is the severity of some finding, and none is above it.
pub proof fn the_worst_is_reached_and_not_passed(s: Seq<Finding>)
    ensures
        worst(s) is None <==> s.len() == 0,
        worst(s) matches Some(w) ==> (exists|i: int|
            0 <= i < s.len() && (#[trigger] s[i]).severity == w),
        worst(s) matches Some(w) ==> (forall|i: int|
            0 <= i < s.len() ==> (#[trigger] s[i]).severity.weight() <= w.weight()),
    decreases s.len(),
{
    if s.len() > 0 {
        let t = s.drop_last();
        the_worst_is_reached_and_not_passed(t);
        assert(s[s.len() - 1] == s.last());
        if let Some(w) = worst(t) {
            let i = choose|i: int| 0 <= i < t.len() && (#[trigger] t[i]).severity == w;
            assert(s[i] == t[i]);
        }
        assert forall|i: int| 0 <= i < s.len() implies (#[trigger] s[i]).severity.weight() <= worst(
            s,
        )->0.weight() by {
            if i < t.len() {
                assert(t[i].severity.weight() <= worst(t)->0.weight());
            }
        }
    }
}

/// Narrowing shows nothing that was not there, and nothing of the host.
pub proof fn narrowing_adds_nothing(s: Seq<Finding>, names: Seq<Seq<char>>, f: Finding)
    requires
        kept(s, finding_in(names)).contains(f),
    ensures
        s.contains(f),
        f.subject@ != About::Host,
{
    lemma_kept(s, finding_in(names));
}

/// A subject in scope loses no finding to narrowing.
pub proof fn narrowing_keeps_what_is_in_scope(s: Seq<Finding>, names: Seq<Seq<char>>, f: Finding)
    requires
        s.contains(f),
        names_one(names, f.subject@),
    ensures
        kept(s, finding_in(names)).contains(f),
{
    lemma_kept(s, finding_in(names));
}

} // verus!
