//! The rule about a port that was deliberately switched off and on.
//!
//! The link was asked the same question many times, so that it answers
//! differently is a fact about the link and not an inference from one reading.

use vstd::prelude::*;
use crate::cycling::{fastest, label_views};
use crate::diag::{finding, note, nothing, one, some_text, stated};
use crate::model::{
    brief_rate, brief_rate_text, About, Confidence, Finding, ReenumerationRun, Severity, Snapshot,
    Statement, Subject,
};
use crate::number::{dec, number};
use crate::text::{fill2, fill3, fill4, filled, no_texts, owned, push_text, same, texts};

verus! {

pub const TRAINED_LINE: &'static str = "{} of {} cycles trained at {}";

pub const LOST_LINE: &'static str = "{} of {} cycles did not come back at all";

pub const PORT_LINE: &'static str = "port {} ({})";

pub const SAME_RATE: &'static str = "the same rate";

pub const STABLE_TITLE: &'static str = "{} trained at {} on all {} attempts";

pub const STABLE_DETAIL: &'static str =
    "The port was switched off and on repeatedly and the link came back the same way every \
        time. That does not prove the cable is good — a fault that only appears under \
        sustained load or at temperature would not show here — but it does rule out the \
        intermittent training that a single reading can never distinguish from a stable one.";

pub const LOST_TITLE: &'static str = "{} failed to re-appear on {} of {} attempts";

pub const ONLY_TITLE: &'static str = "{} reached {} on only {} of {} attempts";

pub const INCONSISTENT_TITLE: &'static str = "{} trained inconsistently";

pub const VARIES_DETAIL: &'static str =
    "The same port was cycled repeatedly and did not behave the same way twice. This is the \
        fault that no single reading can find: every individual check looks fine, and the link \
        only fails some of the time. A device that sometimes trains and sometimes does not is \
        almost never a firmware problem — it is a physical one, in the cable, the connector, \
        or the socket.";

pub const VARIES_ADVICE: &'static str =
    "Run this again with a different cable. Intermittency that disappears with the cable is \
        the cable; intermittency that follows the device to another port is the device or its \
        connector.";

pub open spec fn trained_line(total: nat) -> spec_fn((Seq<char>, nat)) -> Seq<char> {
    |x: (Seq<char>, nat)| filled(TRAINED_LINE@, seq![dec(x.1), dec(total), x.0])
}

/// One line for each rate that came up, slowest first.
pub open spec fn trained_lines(d: Seq<(Seq<char>, nat)>, total: nat) -> Seq<Seq<char>> {
    Seq::new(d.len(), |i: int| trained_line(total)(d[i]))
}

pub open spec fn cycle_evidence(run: ReenumerationRun) -> Seq<Seq<char>> {
    let total = run.cycles@.len();
    let base = trained_lines(run.distribution(), total);
    let with_lost = if run.lost() > 0 {
        base.push(filled(LOST_LINE@, seq![dec(run.lost()), dec(total)]))
    } else {
        base
    };
    with_lost.push(filled(PORT_LINE@, seq![run.port@, run.port_path@]))
}

/// How often a rate came up, by its label.
pub open spec fn times_at(d: Seq<(Seq<char>, nat)>, label: Seq<char>) -> nat
    decreases d.len(),
{
    if d.len() == 0 {
        0
    } else if d[0].0 == label {
        d[0].1
    } else {
        times_at(d.skip(1), label)
    }
}

pub open spec fn usual_rate(run: ReenumerationRun) -> Seq<char> {
    if run.distribution().len() > 0 {
        run.distribution()[0].0
    } else {
        SAME_RATE@
    }
}

/// A run that went the same way every time. It does not prove a cable good, but
/// it rules intermittency out.
pub open spec fn stable_statement(run: ReenumerationRun) -> Statement {
    Statement {
        code: "LINK_STABLE_UNDER_CYCLING"@,
        severity: Severity::Info,
        confidence: Confidence::Measured,
        subject: About::Device(run.device@),
        title: filled(STABLE_TITLE@, seq![run.device@, usual_rate(run), dec(run.cycles@.len())]),
        detail: STABLE_DETAIL@,
        evidence: cycle_evidence(run),
        suggestion: None,
    }
}

pub open spec fn varying_title(run: ReenumerationRun) -> Seq<char> {
    let total = dec(run.cycles@.len());
    if run.lost() > 0 {
        filled(LOST_TITLE@, seq![run.device@, dec(run.lost()), total])
    } else {
        match fastest(run.cycles@) {
            Some(best) => filled(
                ONLY_TITLE@,
                seq![
                    run.device@,
                    brief_rate(best),
                    dec(times_at(run.distribution(), brief_rate(best))),
                    total,
                ],
            ),
            None => filled(INCONSISTENT_TITLE@, seq![run.device@]),
        }
    }
}

/// A run that varied. A link that sometimes trains slower is degraded; one that
/// sometimes does not appear is failing.
pub open spec fn varying_statement(run: ReenumerationRun) -> Statement {
    Statement {
        code: "LINK_INTERMITTENT"@,
        severity: if run.lost() > 0 {
            Severity::High
        } else {
            Severity::Medium
        },
        confidence: Confidence::Measured,
        subject: About::Device(run.device@),
        title: varying_title(run),
        detail: VARIES_DETAIL@,
        evidence: cycle_evidence(run),
        suggestion: Some(VARIES_ADVICE@),
    }
}

/// What a run of cycles shows. A run without cycles shows nothing.
pub open spec fn cycle_statement(snap: Snapshot) -> Option<Statement> {
    match snap.reenumeration {
        Some(run) => if run.cycles@.len() == 0 {
            None
        } else if run.varies() {
            Some(varying_statement(run))
        } else {
            Some(stable_statement(run))
        },
        None => None,
    }
}

fn state_evidence(run: &ReenumerationRun, dist: &Vec<(String, usize)>) -> (r: Vec<String>)
    requires
        label_views(dist@) == run.distribution(),
    ensures
        texts(r@) == cycle_evidence(*run),
{
    let ghost total = run.cycles@.len();
    let ghost lines = trained_lines(run.distribution(), total);
    let all = number(run.cycles.len() as u64);
    let mut out = no_texts();
    assert(label_views(dist@).len() == dist@.len());
    assert(texts(out@) =~= lines.take(0));
    let mut i: usize = 0;
    while i < dist.len()
        invariant
            i <= dist.len(),
            label_views(dist@) == run.distribution(),
            label_views(dist@).len() == dist@.len(),
            total == run.cycles@.len(),
            all@ == dec(total),
            lines == trained_lines(run.distribution(), total),
            texts(out@) == lines.take(i as int),
        decreases dist.len() - i,
    {
        assert(label_views(dist@)[i as int] == (dist@[i as int].0@, dist@[i as int].1 as nat));
        let n = number(dist[i].1 as u64);
        let line = fill3(TRAINED_LINE, n.as_str(), all.as_str(), dist[i].0.as_str());
        assert(line@ == lines[i as int]);
        push_text(&mut out, line);
        assert(lines.take(i + 1) =~= lines.take(i as int).push(lines[i as int]));
        i += 1;
    }
    assert(lines.take(i as int) =~= lines);
    let lost = run.failures();
    if lost > 0 {
        let n = number(lost as u64);
        push_text(&mut out, fill2(LOST_LINE, n.as_str(), all.as_str()));
    }
    push_text(&mut out, fill2(PORT_LINE, run.port.as_str(), run.port_path.as_str()));
    out
}

proof fn lemma_times_at(d: Seq<(Seq<char>, nat)>, label: Seq<char>, k: int)
    requires
        0 <= k <= d.len(),
        forall|j: int| 0 <= j < k ==> (#[trigger] d[j]).0 != label,
        k < d.len() ==> d[k].0 == label,
    ensures
        times_at(d, label) == (if k < d.len() {
            d[k].1
        } else {
            0
        }),
    decreases k,
{
    if k > 0 {
        assert(d[0].0 != label);
        assert forall|j: int| 0 <= j < k - 1 implies (#[trigger] d.skip(1)[j]).0 != label by {
            assert(d[j + 1].0 != label);
        }
        lemma_times_at(d.skip(1), label, k - 1);
    }
}

fn count_at(dist: &Vec<(String, usize)>, label: &str) -> (r: usize)
    ensures
        r == times_at(label_views(dist@), label@),
{
    let ghost d = label_views(dist@);
    let mut k: usize = 0;
    while k < dist.len() && !same(dist[k].0.as_str(), label)
        invariant
            k <= dist.len(),
            d == label_views(dist@),
            forall|j: int| 0 <= j < k ==> (#[trigger] d[j]).0 != label@,
        decreases dist.len() - k,
    {
        assert(d[k as int].0 == dist@[k as int].0@);
        k += 1;
    }
    proof {
        if k < dist.len() {
            assert(d[k as int].0 == dist@[k as int].0@);
        }
        lemma_times_at(d, label@, k as int);
    }
    if k < dist.len() {
        dist[k].1
    } else {
        0
    }
}

fn state_title(run: &ReenumerationRun, dist: &Vec<(String, usize)>) -> (r: String)
    requires
        label_views(dist@) == run.distribution(),
    ensures
        r@ == varying_title(*run),
{
    let total = number(run.cycles.len() as u64);
    let lost = run.failures();
    if lost > 0 {
        let n = number(lost as u64);
        return fill3(LOST_TITLE, run.device.as_str(), n.as_str(), total.as_str());
    }
    match run.best_mbps() {
        Some(best) => {
            let label = brief_rate_text(best);
            let n = number(count_at(dist, label.as_str()) as u64);
            fill4(ONLY_TITLE, run.device.as_str(), label.as_str(), n.as_str(), total.as_str())
        },
        None => crate::text::fill1(INCONSISTENT_TITLE, run.device.as_str()),
    }
}

fn judge(run: &ReenumerationRun) -> (r: Finding)
    ensures
        r@ == (if run.varies() {
            varying_statement(*run)
        } else {
            stable_statement(*run)
        }),
{
    let dist = run.speed_distribution();
    let evidence = state_evidence(run, &dist);
    if !run.is_intermittent() {
        assert(label_views(dist@).len() == dist@.len());
        let what: &str = if dist.len() > 0 {
            assert(label_views(dist@)[0].0 == dist@[0].0@);
            dist[0].0.as_str()
        } else {
            SAME_RATE
        };
        let total = number(run.cycles.len() as u64);
        return finding(
            "LINK_STABLE_UNDER_CYCLING",
            Severity::Info,
            Confidence::Measured,
            Subject::Device(run.device.clone()),
            fill3(STABLE_TITLE, run.device.as_str(), what, total.as_str()),
            owned(STABLE_DETAIL),
            evidence,
            None,
        );
    }
    let severity = if run.failures() > 0 {
        Severity::High
    } else {
        Severity::Medium
    };
    finding(
        "LINK_INTERMITTENT",
        severity,
        Confidence::Measured,
        Subject::Device(run.device.clone()),
        state_title(run, &dist),
        owned(VARIES_DETAIL),
        evidence,
        some_text(VARIES_ADVICE),
    )
}

pub fn reenumeration_rules(snap: &Snapshot) -> (r: Vec<Finding>)
    ensures
        stated(r@) == one(cycle_statement(*snap)),
{
    let mut out = nothing();
    if let Some(run) = &snap.reenumeration {
        if run.cycles.len() > 0 {
            note(&mut out, Some(judge(run)));
        }
    }
    assert(stated(out@) =~= one(cycle_statement(*snap)));
    out
}

// ---------------------------------------------------------------------------
// laws
// ---------------------------------------------------------------------------

/// A run says exactly one thing, good or bad, as soon as there was a cycle.
pub proof fn every_run_is_reported(snap: Snapshot)
    requires
        snap.reenumeration matches Some(run) && run.cycles@.len() > 0,
    ensures
        cycle_statement(snap) is Some,
        cycle_statement(snap)->0.confidence == Confidence::Measured,
{
}

/// A device that was lost on some cycle, of several, is a high-severity finding.
pub proof fn a_lost_cycle_is_high(snap: Snapshot)
    requires
        snap.reenumeration matches Some(run) && run.cycles@.len() > 1 && run.lost() > 0,
    ensures
        cycle_statement(snap) matches Some(s) && s.severity == Severity::High,
{
}

} // verus!
