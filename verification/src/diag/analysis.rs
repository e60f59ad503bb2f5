//! Every rule, run over one snapshot, and the order its findings come in.

use vstd::prelude::*;
use crate::diag::cycle::{cycle_statement, reenumeration_rules};
use crate::diag::device::{device_rules, device_statements};
use crate::diag::host::{host_rules, host_statements};
use crate::diag::phantom::{phantom, phantom_device_rules, phantom_names};
use crate::diag::port::{port_rules, port_statements};
use crate::diag::power::{battery_rules, battery_statements, hub_port_rules, tripped_on};
use crate::diag::receptacle::{
    covered, half_failed, half_idle, sockets, ss_half_failed_rules, ss_half_idle_rules,
};
use crate::diag::storage::{sample_statements, scsi_error_rules, scsi_holding, throughput_rules};
use crate::diag::traffic::{
    all_strengthened, corroborate_with_urb_errors, corroboration_never_overclaims, strengthened,
    traffic_statements, urb_error_rules,
};
use crate::diag::video::{
    billboard, billboard_rules, display_rules, display_statements, picture, thunderbolt_rules,
    thunderbolt_statements,
};
use crate::diag::{extend, note, nothing, one, stated};
use crate::model::{
    bus_of, owning_bus, About, Confidence, Finding, Report, Snapshot, Statement, Subject, Verdict,
};
use crate::seqs::{gathered, kept, lemma_take_all, lemma_take_more, pointees};
use crate::text::{
    has_text, less, same, text_less, text_order_is_strict, text_order_is_transitive, texts,
};

verus! {

// ---------------------------------------------------------------------------
// the order
// ---------------------------------------------------------------------------

/// Strongest claim first.
pub open spec fn confidence_place(c: Confidence) -> int {
    match c {
        Confidence::Measured => 0,
        Confidence::Inferred => 1,
        Confidence::Heuristic => 2,
    }
}

pub fn conf_rank(c: Confidence) -> (r: u8)
    ensures
        r as int == confidence_place(c),
{
    match c {
        Confidence::Measured => 0,
        Confidence::Inferred => 1,
        Confidence::Heuristic => 2,
    }
}

/// The more severe comes first, then the surer, then by code, then by subject.
pub open spec fn outranks(a: Statement, b: Statement) -> bool {
    if a.severity != b.severity {
        a.severity.weight() > b.severity.weight()
    } else if a.confidence != b.confidence {
        confidence_place(a.confidence) < confidence_place(b.confidence)
    } else if a.code != b.code {
        text_less(a.code, b.code)
    } else {
        text_less(a.subject.shown(), b.subject.shown())
    }
}

/// Neither comes before the other.
pub open spec fn ties_with(k: Statement) -> spec_fn(Statement) -> bool {
    |x: Statement| !outranks(x, k) && !outranks(k, x)
}

fn comes_first(a: &Finding, b: &Finding) -> (r: bool)
    ensures
        r == outranks(a@, b@),
{
    let x: u8 = a.severity.rank();
    let y: u8 = b.severity.rank();
    if x != y {
        return x > y;
    }
    let p: u8 = conf_rank(a.confidence);
    let q: u8 = conf_rank(b.confidence);
    if p != q {
        return p < q;
    }
    if !same(a.code.as_str(), b.code.as_str()) {
        return less(a.code.as_str(), b.code.as_str());
    }
    let s = a.subject.display();
    let t = b.subject.display();
    less(s.as_str(), t.as_str())
}

/// A statement put behind all that do not come after it.
pub open spec fn placed(s: Seq<Statement>, x: Statement) -> Seq<Statement>
    decreases s.len(),
{
    if s.len() == 0 {
        seq![x]
    } else if outranks(x, s[0]) {
        seq![x] + s
    } else {
        seq![s[0]] + placed(s.skip(1), x)
    }
}

/// The statements, strongest first; those that tie stay in the order they were
/// made.
pub open spec fn arranged(s: Seq<Statement>) -> Seq<Statement>
    decreases s.len(),
{
    if s.len() == 0 {
        Seq::empty()
    } else {
        placed(arranged(s.drop_last()), s.last())
    }
}

/// Nothing comes after something that it outranks.
pub open spec fn ranked(s: Seq<Statement>) -> bool {
    forall|i: int, j: int| 0 <= i < j < s.len() ==> !outranks(#[trigger] s[j], #[trigger] s[i])
}

proof fn lemma_placed_at(s: Seq<Statement>, x: Statement, k: int)
    requires
        0 <= k <= s.len(),
        forall|j: int| 0 <= j < k ==> !outranks(x, #[trigger] s[j]),
        k < s.len() ==> outranks(x, s[k]),
    ensures
        placed(s, x) == s.insert(k, x),
    decreases k,
{
    if k > 0 {
        assert(!outranks(x, s[0]));
        assert forall|j: int| 0 <= j < k - 1 implies !outranks(x, #[trigger] s.skip(1)[j]) by {
            assert(!outranks(x, s[j + 1]));
        }
        lemma_placed_at(s.skip(1), x, k - 1);
        assert(placed(s, x) =~= s.insert(k, x));
    } else {
        assert(placed(s, x) =~= s.insert(0, x));
    }
}

fn place(v: &mut Vec<Finding>, x: Finding)
    ensures
        stated(final(v)@) == placed(stated(old(v)@), x@),
{
    let ghost before = stated(v@);
    let mut k: usize = 0;
    while k < v.len() && !comes_first(&x, &v[k])
        invariant
            k <= v.len(),
            before == stated(v@),
            forall|j: int| 0 <= j < k ==> !outranks(x@, #[trigger] before[j]),
        decreases v.len() - k,
    {
        assert(before[k as int] == v@[k as int]@);
        k += 1;
    }
    proof {
        if k < v.len() {
            assert(before[k as int] == v@[k as int]@);
        }
        lemma_placed_at(before, x@, k as int);
    }
    v.insert(k, x);
    assert(stated(v@) =~= before.insert(k as int, x@));
}

/// Puts findings in order.
pub fn arrange(findings: Vec<Finding>) -> (r: Vec<Finding>)
    ensures
        stated(r@) == arranged(stated(findings@)),
{
    let ghost all = stated(findings@);
    let mut rest = findings;
    let n: usize = rest.len();
    let mut out = nothing();
    let mut i: usize = 0;
    assert(stated(rest@) =~= all.skip(0));
    while i < n
        invariant
            i <= n,
            all.len() == n,
            stated(rest@) == all.skip(i as int),
            stated(out@) == arranged(all.take(i as int)),
        decreases n - i,
    {
        assert(stated(rest@).len() == rest@.len());
        let ghost before = rest@;
        let f = rest.remove(0);
        proof {
            assert(f@ == stated(before)[0]);
            assert(rest@ =~= before.skip(1));
            assert forall|j: int| 0 <= j < rest@.len() implies #[trigger] stated(rest@)[j]
                == all.skip(i + 1)[j] by {
                assert(stated(before)[j + 1] == before[j + 1]@);
                assert(all.skip(i as int)[j + 1] == all[i + j + 1]);
            }
            assert(stated(rest@) =~= all.skip(i + 1));
            lemma_take_more(all, i as int);
        }
        place(&mut out, f);
        i += 1;
    }
    proof {
        lemma_take_all(all);
    }
    out
}

// ---------------------------------------------------------------------------
// one fault, one finding
// ---------------------------------------------------------------------------

/// What a SuperSpeed half that failed explains by itself.
pub open spec fn explained(code: Seq<char>) -> bool {
    code == "KERNEL_BLAMED_CABLE"@ || code == "ENUMERATION_FAILURE"@ || code
        == "DEVICE_FAILED_TO_ENUMERATE"@ || code == "LINK_TRAINING_FAILURE"@
}

fn is_explained(code: &str) -> (r: bool)
    ensures
        r == explained(code@),
{
    same(code, "KERNEL_BLAMED_CABLE") || same(code, "ENUMERATION_FAILURE") || same(
        code,
        "DEVICE_FAILED_TO_ENUMERATE",
    ) || same(code, "LINK_TRAINING_FAILURE")
}

pub open spec fn subject_on(a: About, buses: Seq<Seq<char>>) -> bool {
    match a {
        About::Device(d) => match owning_bus(d) {
            Some(b) => buses.contains(b),
            None => false,
        },
        _ => false,
    }
}

/// A statement that stands beside a failed SuperSpeed half on these buses.
pub open spec fn stands(buses: Seq<Seq<char>>) -> spec_fn(Statement) -> bool {
    |x: Statement| !(explained(x.code) && subject_on(x.subject, buses))
}

fn stands_beside(f: &Finding, buses: &Vec<String>) -> (r: bool)
    ensures
        r == stands(texts(buses@))(f@),
{
    if !is_explained(f.code.as_str()) {
        return true;
    }
    match &f.subject {
        Subject::Device(d) => match bus_of(d.as_str()) {
            Some(b) => !has_text(buses, b.as_str()),
            None => true,
        },
        _ => true,
    }
}

fn drop_explained(findings: Vec<Finding>, buses: &Vec<String>) -> (r: Vec<Finding>)
    ensures
        stated(r@) == kept(stated(findings@), stands(texts(buses@))),
{
    let ghost all = stated(findings@);
    let ghost p = stands(texts(buses@));
    let mut rest = findings;
    let n: usize = rest.len();
    let mut out = nothing();
    let mut i: usize = 0;
    assert(stated(rest@) =~= all.skip(0));
    while i < n
        invariant
            i <= n,
            all.len() == n,
            p == stands(texts(buses@)),
            stated(rest@) == all.skip(i as int),
            stated(out@) == kept(all.take(i as int), p),
        decreases n - i,
    {
        assert(stated(rest@).len() == rest@.len());
        let ghost before = rest@;
        let f = rest.remove(0);
        proof {
            assert(f@ == stated(before)[0]);
            assert(rest@ =~= before.skip(1));
            assert forall|j: int| 0 <= j < rest@.len() implies #[trigger] stated(rest@)[j]
                == all.skip(i + 1)[j] by {
                assert(stated(before)[j + 1] == before[j + 1]@);
                assert(all.skip(i as int)[j + 1] == all[i + j + 1]);
            }
            assert(stated(rest@) =~= all.skip(i + 1));
            lemma_take_more(all, i as int);
        }
        if stands_beside(&f, buses) {
            note(&mut out, Some(f));
            assert(stated(out@) =~= kept(all.take(i + 1), p));
        }
        i += 1;
    }
    proof {
        lemma_take_all(all);
    }
    out
}

// ---------------------------------------------------------------------------
// every rule
// ---------------------------------------------------------------------------

/// What the rules say of the machine's ports and devices.
pub open spec fn topology_statements(snap: Snapshot) -> Seq<Statement> {
    host_statements(snap.kernel_log) + gathered(snap.ports@, port_statements(snap)) + gathered(
        snap.all(),
        device_statements(snap),
    )
}

/// What the rules say of receptacles and of devices that are not there.
pub open spec fn absence_statements(snap: Snapshot) -> Seq<Statement> {
    gathered(sockets(snap), half_failed(snap)) + gathered(sockets(snap), half_idle(snap))
        + gathered(phantom_names(snap), phantom(snap))
}

/// What the rules say of modes, links and power.
pub open spec fn link_statements(snap: Snapshot) -> Seq<Statement> {
    gathered(snap.all(), billboard(picture(snap.displays@))) + thunderbolt_statements(
        snap.thunderbolt,
    ) + battery_statements(snap) + display_statements(snap)
}

/// What the rules say of anything that was measured.
pub open spec fn measured_statements(snap: Snapshot) -> Seq<Statement> {
    traffic_statements(snap) + gathered(snap.throughput@, sample_statements(snap)) + gathered(
        snap.storage(),
        scsi_holding(),
    ) + one(cycle_statement(snap)) + gathered(snap.all(), tripped_on())
}

/// Every statement of every rule.
pub open spec fn all_statements(snap: Snapshot) -> Seq<Statement> {
    topology_statements(snap) + absence_statements(snap) + link_statements(snap)
        + measured_statements(snap)
}

/// What is reported: every statement, without those that a failed SuperSpeed
/// half explains, strengthened by measured traffic, strongest first.
pub open spec fn analysis(snap: Snapshot) -> Seq<Statement> {
    arranged(all_strengthened(snap, kept(all_statements(snap), stands(covered(snap)))))
}

fn run_port_rules(snap: &Snapshot, out: &mut Vec<Finding>)
    ensures
        stated(final(out)@) == stated(old(out)@) + gathered(snap.ports@, port_statements(*snap)),
{
    let ghost sofar = stated(out@);
    let ghost f = port_statements(*snap);
    let mut i: usize = 0;
    assert(sofar + gathered(snap.ports@.take(0), f) =~= sofar);
    while i < snap.ports.len()
        invariant
            i <= snap.ports.len(),
            f == port_statements(*snap),
            stated(out@) == sofar + gathered(snap.ports@.take(i as int), f),
        decreases snap.ports.len() - i,
    {
        proof {
            lemma_take_more(snap.ports@, i as int);
        }
        extend(out, port_rules(snap, &snap.ports[i]));
        assert(stated(out@) =~= sofar + gathered(snap.ports@.take(i + 1), f));
        i += 1;
    }
    proof {
        lemma_take_all(snap.ports@);
    }
}

fn run_device_rules(snap: &Snapshot, out: &mut Vec<Finding>)
    ensures
        stated(final(out)@) == stated(old(out)@) + gathered(snap.all(), device_statements(*snap)),
{
    let devs = snap.devices();
    let ghost all = snap.all();
    let ghost sofar = stated(out@);
    let ghost f = device_statements(*snap);
    let mut i: usize = 0;
    assert(sofar + gathered(all.take(0), f) =~= sofar);
    while i < devs.len()
        invariant
            i <= devs.len(),
            all == pointees(devs@),
            f == device_statements(*snap),
            stated(out@) == sofar + gathered(all.take(i as int), f),
        decreases devs.len() - i,
    {
        proof {
            lemma_take_more(all, i as int);
        }
        extend(out, device_rules(snap, devs[i]));
        assert(stated(out@) =~= sofar + gathered(all.take(i + 1), f));
        i += 1;
    }
    proof {
        lemma_take_all(all);
    }
}

fn run_topology_rules(snap: &Snapshot) -> (r: Vec<Finding>)
    ensures
        stated(r@) == topology_statements(*snap),
{
    let mut out = host_rules(snap);
    run_port_rules(snap, &mut out);
    run_device_rules(snap, &mut out);
    out
}

fn run_link_rules(snap: &Snapshot) -> (r: Vec<Finding>)
    ensures
        stated(r@) == link_statements(*snap),
{
    let mut out = billboard_rules(snap);
    extend(&mut out, thunderbolt_rules(snap));
    extend(&mut out, battery_rules(snap));
    extend(&mut out, display_rules(snap));
    out
}

fn run_measured_rules(snap: &Snapshot) -> (r: Vec<Finding>)
    ensures
        stated(r@) == measured_statements(*snap),
{
    let mut out = urb_error_rules(snap);
    extend(&mut out, throughput_rules(snap));
    extend(&mut out, scsi_error_rules(snap));
    extend(&mut out, reenumeration_rules(snap));
    extend(&mut out, hub_port_rules(snap));
    out
}

/// Runs every rule against a snapshot, strongest finding first.
pub fn analyze(snap: &Snapshot) -> (r: Vec<Finding>)
    ensures
        stated(r@) == analysis(*snap),
{
    let mut out = run_topology_rules(snap);
    let (failed, buses) = ss_half_failed_rules(snap);
    let mut absent = failed;
    extend(&mut absent, ss_half_idle_rules(snap));
    extend(&mut absent, phantom_device_rules(snap));
    extend(&mut out, absent);
    extend(&mut out, run_link_rules(snap));
    extend(&mut out, run_measured_rules(snap));
    let left = drop_explained(out, &buses);
    arrange(corroborate_with_urb_errors(snap, left))
}

/// A snapshot with its findings, and what was concluded from them.
pub fn report(snap: Snapshot, exonerations: Vec<Finding>, verdicts: Vec<Verdict>) -> (r: Report)
    ensures
        r.snapshot == snap,
        stated(r.findings@) == analysis(snap),
        r.exonerations == exonerations,
        r.verdicts == verdicts,
{
    let findings = analyze(&snap);
    Report { snapshot: snap, findings, exonerations, verdicts }
}

// ---------------------------------------------------------------------------
// laws
// ---------------------------------------------------------------------------

proof fn lemma_ranks_carry(a: Statement, b: Statement, c: Statement)
    requires
        outranks(a, b),
        !outranks(c, b),
    ensures
        outranks(a, c),
{
    text_order_is_strict(a.code, b.code);
    text_order_is_strict(b.code, c.code);
    text_order_is_strict(c.code, b.code);
    text_order_is_strict(a.subject.shown(), b.subject.shown());
    text_order_is_strict(b.subject.shown(), c.subject.shown());
    text_order_is_strict(c.subject.shown(), b.subject.shown());
    if text_less(a.code, b.code) && text_less(b.code, c.code) {
        text_order_is_transitive(a.code, b.code, c.code);
        text_order_is_strict(a.code, c.code);
    }
    if text_less(a.subject.shown(), b.subject.shown()) && text_less(
        b.subject.shown(),
        c.subject.shown(),
    ) {
        text_order_is_transitive(a.subject.shown(), b.subject.shown(), c.subject.shown());
    }
}

/// The order is strict: nothing outranks itself, and no two outrank each other.
pub proof fn ranking_is_strict(a: Statement, b: Statement)
    ensures
        !outranks(a, a),
        outranks(a, b) ==> !outranks(b, a),
{
    text_order_is_strict(a.code, b.code);
    text_order_is_strict(a.subject.shown(), a.subject.shown());
    text_order_is_strict(a.subject.shown(), b.subject.shown());
}

proof fn lemma_placed(s: Seq<Statement>, x: Statement, k: Statement)
    requires
        ranked(s),
    ensures
        ranked(placed(s, x)),
        placed(s, x).to_multiset() == s.to_multiset().insert(x),
        kept(placed(s, x), ties_with(k)) == kept(s.push(x), ties_with(k)),
    decreases s.len(),
{
    let p = ties_with(k);
    if s.len() == 0 {
        assert(placed(s, x) =~= s.push(x));
        s.to_multiset_ensures();
    } else if outranks(x, s[0]) {
        let r = seq![x] + s;
        assert forall|i: int, j: int| 0 <= i < j < r.len() implies !outranks(
            #[trigger] r[j],
            #[trigger] r[i],
        ) by {
            if i > 0 {
                assert(!outranks(s[j - 1], s[i - 1]));
            } else {
                if j > 1 {
                    assert(!outranks(s[j - 1], s[0]));
                }
                ranking_is_strict(s[0], s[0]);
                lemma_ranks_carry(x, s[0], s[j - 1]);
                ranking_is_strict(x, s[j - 1]);
            }
        }
        lemma_front(s, x);
        if p(x) {
            assert forall|i: int| 0 <= i < s.len() implies !p(#[trigger] s[i]) by {
                if i > 0 {
                    assert(!outranks(s[i], s[0]));
                }
                ranking_is_strict(s[0], s[0]);
                lemma_ranks_carry(x, s[0], s[i]);
                if p(s[i]) {
                    lemma_ranks_carry(x, s[i], k);
                }
            }
            lemma_none_kept(s, p);
            lemma_kept_front(s, x, p);
        } else {
            lemma_kept_front(s, x, p);
        }
        assert(s.push(x).drop_last() =~= s);
        assert(kept(placed(s, x), p) =~= kept(s.push(x), p));
    } else {
        let t = s.skip(1);
        assert forall|i: int, j: int| 0 <= i < j < t.len() implies !outranks(
            #[trigger] t[j],
            #[trigger] t[i],
        ) by {
            assert(!outranks(s[j + 1], s[i + 1]));
        }
        lemma_placed(t, x, k);
        let q = placed(t, x);
        let r = seq![s[0]] + q;
        assert forall|i: int, j: int| 0 <= i < j < r.len() implies !outranks(
            #[trigger] r[j],
            #[trigger] r[i],
        ) by {
            if i > 0 {
                assert(!outranks(q[j - 1], q[i - 1]));
            } else {
                q.to_multiset_ensures();
                t.to_multiset_ensures();
                assert(q.to_multiset().count(q[j - 1]) > 0);
                if q[j - 1] != x {
                    assert(t.to_multiset().count(q[j - 1]) > 0);
                    assert(t.contains(q[j - 1]));
                    let m = choose|m: int| 0 <= m < t.len() && t[m] == q[j - 1];
                    assert(!outranks(s[m + 1], s[0]));
                }
            }
        }
        lemma_front(q, s[0]);
        lemma_front(t, s[0]);
        assert(seq![s[0]] + t =~= s);
        assert(placed(s, x).to_multiset() =~= s.to_multiset().insert(x));
        lemma_kept_front(q, s[0], p);
        lemma_kept_front(t.push(x), s[0], p);
        assert(seq![s[0]] + t.push(x) =~= s.push(x));
    }
}

proof fn lemma_front(s: Seq<Statement>, x: Statement)
    ensures
        (seq![x] + s).to_multiset() == s.to_multiset().insert(x),
{
    vstd::seq_lib::lemma_multiset_commutative(seq![x], s);
    seq![x].to_multiset_ensures();
    assert(seq![x] =~= Seq::<Statement>::empty().push(x));
    Seq::<Statement>::empty().to_multiset_ensures();
    assert((seq![x] + s).to_multiset() =~= s.to_multiset().insert(x));
}

proof fn lemma_none_kept(s: Seq<Statement>, p: spec_fn(Statement) -> bool)
    requires
        forall|i: int| 0 <= i < s.len() ==> !p(#[trigger] s[i]),
    ensures
        kept(s, p).len() == 0,
    decreases s.len(),
{
    if s.len() > 0 {
        assert(!p(s[s.len() - 1]));
        assert forall|i: int| 0 <= i < s.drop_last().len() implies !p(#[trigger] s.drop_last()[i]) by {
            assert(!p(s[i]));
        }
        lemma_none_kept(s.drop_last(), p);
    }
}

proof fn lemma_kept_front(s: Seq<Statement>, x: Statement, p: spec_fn(Statement) -> bool)
    ensures
        kept(seq![x] + s, p) == (if p(x) {
            seq![x]
        } else {
            Seq::empty()
        }) + kept(s, p),
    decreases s.len(),
{
    let r = seq![x] + s;
    if s.len() == 0 {
        assert(r.drop_last() =~= s);
        assert(kept(s, p) =~= Seq::<Statement>::empty());
        assert(r.last() == x);
        assert(kept(r, p) =~= (if p(x) {
            seq![x]
        } else {
            Seq::<Statement>::empty()
        }) + kept(s, p));
    } else {
        lemma_kept_front(s.drop_last(), x, p);
        assert(r.drop_last() =~= seq![x] + s.drop_last());
        assert(r.last() == s.last());
        assert(kept(r, p) =~= (if p(x) {
            seq![x]
        } else {
            Seq::<Statement>::empty()
        }) + kept(s, p));
    }
}

proof fn lemma_arranged(s: Seq<Statement>, k: Statement)
    ensures
        ranked(arranged(s)),
        arranged(s).to_multiset() == s.to_multiset(),
        kept(arranged(s), ties_with(k)) == kept(s, ties_with(k)),
    decreases s.len(),
{
    if s.len() > 0 {
        let t = s.drop_last();
        let p = ties_with(k);
        lemma_arranged(t, k);
        lemma_placed(arranged(t), s.last(), k);
        assert(t.push(s.last()) =~= s);
        t.to_multiset_ensures();
        assert(arranged(t).push(s.last()).drop_last() =~= arranged(t));
        assert(kept(arranged(s), p) =~= kept(s, p));
    } else {
        assert(arranged(s) =~= s);
    }
}

/// Findings come strongest first.
pub proof fn the_strongest_comes_first(snap: Snapshot)
    ensures
        ranked(analysis(snap)),
{
    let s = all_strengthened(snap, kept(all_statements(snap), stands(covered(snap))));
    lemma_arranged(s, s[0]);
}

/// Arranging loses nothing and adds nothing, and what ties keeps its order.
pub proof fn arranging_keeps_everything(s: Seq<Statement>, k: Statement)
    ensures
        arranged(s).to_multiset() == s.to_multiset(),
        kept(arranged(s), ties_with(k)) == kept(s, ties_with(k)),
{
    lemma_arranged(s, k);
}

/// A failed SuperSpeed half silences nothing but the four findings it explains,
/// and those only on its own bus.
pub proof fn only_explained_findings_are_dropped(x: Statement, buses: Seq<Seq<char>>)
    ensures
        !explained(x.code) ==> stands(buses)(x),
        buses.len() == 0 ==> stands(buses)(x),
        !(x.subject is Device) ==> stands(buses)(x),
{
}

/// Nothing that is reported was claimed with less confidence by its rule than a
/// measurement and is now called measured.
pub proof fn reporting_never_overclaims(snap: Snapshot, x: Statement)
    requires
        analysis(snap).contains(x),
        x.confidence == Confidence::Measured,
    ensures
        exists|y: Statement| #[trigger]
            all_statements(snap).contains(y) && y.confidence == Confidence::Measured && y.code
                == x.code && y.subject == x.subject && strengthened(snap, y) == x,
{
    let k = kept(all_statements(snap), stands(covered(snap)));
    let s = all_strengthened(snap, k);
    lemma_arranged(s, x);
    arranged(s).to_multiset_ensures();
    s.to_multiset_ensures();
    assert(arranged(s).to_multiset().count(x) > 0);
    assert(s.contains(x));
    let i = choose|i: int| 0 <= i < s.len() && s[i] == x;
    let y = k[i];
    assert(x == strengthened(snap, y));
    corroboration_never_overclaims(snap, y);
    crate::seqs::lemma_kept(all_statements(snap), stands(covered(snap)));
    assert(k.contains(y));
    assert(all_statements(snap).contains(y));
}

/// One fault is one finding: beside a failed SuperSpeed half, nothing that it
/// explains is reported on its bus.
pub proof fn one_fault_is_one_finding(snap: Snapshot, x: Statement)
    requires
        analysis(snap).contains(x),
    ensures
        !(explained(x.code) && subject_on(x.subject, covered(snap))),
{
    let k = kept(all_statements(snap), stands(covered(snap)));
    let s = all_strengthened(snap, k);
    lemma_arranged(s, x);
    arranged(s).to_multiset_ensures();
    s.to_multiset_ensures();
    assert(arranged(s).to_multiset().count(x) > 0);
    assert(s.contains(x));
    let i = choose|i: int| 0 <= i < s.len() && s[i] == x;
    crate::seqs::lemma_kept(all_statements(snap), stands(covered(snap)));
    assert(k.contains(k[i]));
    assert(stands(covered(snap))(k[i]));
}

/// Every statement that no failed half explains is reported, as strong as
/// measured traffic makes it.
pub proof fn nothing_else_is_dropped(snap: Snapshot, y: Statement)
    requires
        all_statements(snap).contains(y),
        stands(covered(snap))(y),
    ensures
        analysis(snap).contains(strengthened(snap, y)),
{
    let k = kept(all_statements(snap), stands(covered(snap)));
    let s = all_strengthened(snap, k);
    crate::seqs::lemma_kept(all_statements(snap), stands(covered(snap)));
    assert(k.contains(y));
    let i = choose|i: int| 0 <= i < k.len() && k[i] == y;
    let x = strengthened(snap, y);
    assert(s[i] == x);
    lemma_arranged(s, x);
    arranged(s).to_multiset_ensures();
    s.to_multiset_ensures();
    assert(s.to_multiset().count(x) > 0);
}

} // verus!
