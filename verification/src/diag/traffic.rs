//! Rules about measured URB traffic: behaviour rather than negotiated state.

use vstd::prelude::*;
use crate::diag::{
    finding, lines2, note, nothing, one, some_text, stated, stated_opt,
};
use crate::model::{
    About, Confidence, Finding, Severity, Snapshot, Statement, Subject, UrbStats, UrbTraffic,
    UsbDevice,
};
use crate::number::{dec, number, seconds, seconds_text, Ratio};
use crate::seqs::{first_of, gathered, lemma_take_all, lemma_take_more, pointee};
use crate::snapshot::is_at;
use crate::text::{fill1, fill2, fill3, fill4, filled, join, joined, owned, push_text, same};

verus! {

/// Below this many transport errors a window says nothing.
pub const URB_ERROR_MIN: u64 = 3;

/// Enough completions for a rate to mean anything.
pub const URB_MIN_COMPLETIONS: u64 = 50;

pub const WHO: &'static str = "{} ({})";

pub const WHO_ADDRESS: &'static str = "the device at bus {} address {}";

pub const FAILED_LINE: &'static str = "{} of {} completions failed in transport over {}s — {}%";

pub const STATUS_LINE: &'static str = "statuses: {}";

pub const ENDPOINTS_LINE: &'static str =
    "{} endpoints affected, which points at the path rather than one pipe";

pub const CANCELLED_LINE: &'static str =
    "{} driver cancellations excluded — those are routine, not faults";

pub const RATE_TITLE: &'static str = "{} is losing {}% of its transfers to link errors";

pub const RATE_DETAIL: &'static str =
    "These are transfers the bus failed to carry intact — CRC mismatches, babble, or no \
        answer at all — counted as they happened rather than inferred from anything. A link \
        that negotiated cleanly and then drops packets under load is the signature of a \
        marginal physical path: a damaged or out-of-spec cable, a dirty or worn connector, or \
        a hub running past what its power budget supports. It is not a driver problem, and it \
        is not power management.";

pub const RATE_ADVICE: &'static str =
    "Swap the cable first — it is the cheapest thing in the path and the most common cause. \
        If the errors follow the device to another port and another cable, the device is at \
        fault; if they stay with the port, the port is.";

pub const CORROBORATED: &'static str =
    "corroborated: {} transport error(s) measured over {}s of live traffic ({})";

// ---------------------------------------------------------------------------
// error rates
// ---------------------------------------------------------------------------

/// The error rate worth reporting: at least three errors, enough transfers to
/// make a rate of (or ten errors), and at least one in a thousand.
pub open spec fn elevated(s: UrbStats) -> Option<Ratio> {
    match s.error_part() {
        Some(r) => if s.transport_errors >= URB_ERROR_MIN && (s.completions >= URB_MIN_COMPLETIONS
            || s.transport_errors >= 10) && r.at_least(1, 1000) {
            Some(r)
        } else {
            None
        },
        None => None,
    }
}

fn elevated_rate(s: &UrbStats) -> (r: Option<Ratio>)
    ensures
        r == elevated(*s),
        r matches Some(x) ==> x.den > 0,
{
    if s.transport_errors < URB_ERROR_MIN {
        return None;
    }
    if s.completions < URB_MIN_COMPLETIONS && s.transport_errors < 10 {
        return None;
    }
    match s.transport_error_rate() {
        Some(r) => if r.is_at_least(1, 1000) {
            Some(r)
        } else {
            None
        },
        None => None,
    }
}

/// One in a hundred or more: the link is failing outright.
pub open spec fn severe(r: Ratio) -> bool {
    r.at_least(1, 100)
}

pub open spec fn device_of(snap: Snapshot, s: UrbStats) -> Option<UsbDevice> {
    first_of(snap.all(), is_at(s.bus, s.device_address))
}

pub open spec fn who(dev: Option<UsbDevice>, s: UrbStats) -> Seq<char> {
    match dev {
        Some(d) => filled(WHO@, seq![d.called(), d.sysfs_name@]),
        None => filled(WHO_ADDRESS@, seq![dec(s.bus as nat), dec(s.device_address as nat)]),
    }
}

pub open spec fn rate_evidence(window_ms: u64, s: UrbStats, r: Ratio) -> Seq<Seq<char>> {
    let base = seq![
        filled(
            FAILED_LINE@,
            seq![
                dec(s.transport_errors as nat),
                dec(s.completions as nat),
                seconds(window_ms),
                r.fine_percent(),
            ],
        ),
        filled(STATUS_LINE@, seq![joined(s.breakdown(), ", "@)]),
    ];
    let wide = if s.transport_endpoints@.len() > 1 {
        base.push(filled(ENDPOINTS_LINE@, seq![dec(s.transport_endpoints@.len())]))
    } else {
        base
    };
    if s.cancellations > 0 {
        wide.push(filled(CANCELLED_LINE@, seq![dec(s.cancellations as nat)]))
    } else {
        wide
    }
}

/// Transfers the bus failed to carry. Stalls and driver cancellations never
/// count.
pub open spec fn error_rate(snap: Snapshot, window_ms: u64) -> spec_fn(UrbStats) -> Seq<Statement> {
    |s: UrbStats|
        match elevated(s) {
            Some(r) => seq![
                Statement {
                    code: "LINK_ERROR_RATE"@,
                    severity: if severe(r) {
                        Severity::High
                    } else {
                        Severity::Medium
                    },
                    confidence: Confidence::Measured,
                    subject: match device_of(snap, s) {
                        Some(d) => About::Device(d.sysfs_name@),
                        None => About::Host,
                    },
                    title: filled(RATE_TITLE@, seq![who(device_of(snap, s), s), r.fine_percent()]),
                    detail: RATE_DETAIL@,
                    evidence: rate_evidence(window_ms, s, r),
                    suggestion: Some(RATE_ADVICE@),
                },
            ],
            None => Seq::empty(),
        }
}

fn find_error_rate(snap: &Snapshot, window_ms: u64, s: &UrbStats) -> (r: Option<Finding>)
    ensures
        one(stated_opt(r)) == error_rate(*snap, window_ms)(*s),
{
    let rate = match elevated_rate(s) {
        Some(r) => r,
        None => {
            return None;
        },
    };
    let dev = snap.device_at_address(s.bus, s.device_address);
    let named = match dev {
        Some(d) => {
            let label = d.label();
            fill2(WHO, label.as_str(), d.sysfs_name.as_str())
        },
        None => {
            let b = number(s.bus as u64);
            let a = number(s.device_address as u64);
            fill2(WHO_ADDRESS, b.as_str(), a.as_str())
        },
    };
    let pct = rate.fine_percent_text();
    let errors = number(s.transport_errors);
    let total = number(s.completions);
    let secs = seconds_text(window_ms);
    let statuses = s.error_breakdown();
    let list = join(&statuses, ", ");
    let mut evidence = lines2(
        fill4(FAILED_LINE, errors.as_str(), total.as_str(), secs.as_str(), pct.as_str()),
        fill1(STATUS_LINE, list.as_str()),
    );
    if s.transport_endpoints.len() > 1 {
        let n = number(s.transport_endpoints.len() as u64);
        push_text(&mut evidence, fill1(ENDPOINTS_LINE, n.as_str()));
    }
    if s.cancellations > 0 {
        let n = number(s.cancellations);
        push_text(&mut evidence, fill1(CANCELLED_LINE, n.as_str()));
    }
    let subject = match dev {
        Some(d) => Subject::Device(d.sysfs_name.clone()),
        None => Subject::Host,
    };
    let severity = if rate.is_at_least(1, 100) {
        Severity::High
    } else {
        Severity::Medium
    };
    Some(
        finding(
            "LINK_ERROR_RATE",
            severity,
            Confidence::Measured,
            subject,
            fill2(RATE_TITLE, named.as_str(), pct.as_str()),
            owned(RATE_DETAIL),
            evidence,
            some_text(RATE_ADVICE),
        ),
    )
}

/// What the traffic shows, which is nothing where none was sampled.
pub open spec fn traffic_statements(snap: Snapshot) -> Seq<Statement> {
    match snap.urb_traffic {
        Some(t) => gathered(t.devices@, error_rate(snap, t.window_ms)),
        None => Seq::empty(),
    }
}

pub fn urb_error_rules(snap: &Snapshot) -> (r: Vec<Finding>)
    ensures
        stated(r@) == traffic_statements(*snap),
{
    let mut out = nothing();
    if let Some(t) = &snap.urb_traffic {
        let ghost f = error_rate(*snap, t.window_ms);
        let mut i: usize = 0;
        while i < t.devices.len()
            invariant
                i <= t.devices.len(),
                f == error_rate(*snap, t.window_ms),
                stated(out@) == gathered(t.devices@.take(i as int), f),
            decreases t.devices.len() - i,
        {
            proof {
                lemma_take_more(t.devices@, i as int);
            }
            note(&mut out, find_error_rate(snap, t.window_ms, &t.devices[i]));
            i += 1;
        }
        proof {
            lemma_take_all(t.devices@);
        }
    }
    out
}

// ---------------------------------------------------------------------------
// corroboration
// ---------------------------------------------------------------------------

/// Findings that an error rate speaks to: each claims that the link
/// underperforms, and measured errors say that it is failing too.
pub open spec fn corroborates(code: Seq<char>) -> bool {
    code == "LINK_BELOW_DEVICE_CAPABILITY"@ || code == "LINK_SLOW_DESPITE_CAPABLE_CABLE"@ || code
        == "LINK_SINGLE_LANE"@ || code == "DEVICE_RESET_STORM"@
}

fn is_corroborated(code: &str) -> (r: bool)
    ensures
        r == corroborates(code@),
{
    same(code, "LINK_BELOW_DEVICE_CAPABILITY") || same(code, "LINK_SLOW_DESPITE_CAPABLE_CABLE")
        || same(code, "LINK_SINGLE_LANE") || same(code, "DEVICE_RESET_STORM")
}

pub open spec fn counts_at(bus: u32, address: u32) -> spec_fn(UrbStats) -> bool {
    |s: UrbStats| s.bus == bus && s.device_address == address
}

/// The traffic seen for a subject, where it shows a pattern of errors.
pub open spec fn errors_for(snap: Snapshot, t: UrbTraffic, subject: About) -> Option<UrbStats> {
    match subject {
        About::Device(name) => match snap.named(name) {
            Some(d) => match (d.busnum, d.devnum) {
                (Some(b), Some(a)) => match first_of(t.devices@, counts_at(b, a)) {
                    Some(s) => if s.transport_errors >= URB_ERROR_MIN {
                        Some(s)
                    } else {
                        None
                    },
                    None => None,
                },
                _ => None,
            },
            None => None,
        },
        _ => None,
    }
}

pub open spec fn corroboration_line(t: UrbTraffic, s: UrbStats) -> Seq<char> {
    filled(
        CORROBORATED@,
        seq![
            dec(s.transport_errors as nat),
            seconds(t.window_ms),
            joined(s.breakdown(), ", "@),
        ],
    )
}

/// A statement that measured errors strengthen: one line of evidence more, and
/// a heuristic becomes inferred. Nothing becomes measured: the errors are, but
/// blaming the cable for them is still an inference.
pub open spec fn strengthened(snap: Snapshot, x: Statement) -> Statement {
    match snap.urb_traffic {
        Some(t) => match errors_for(snap, t, x.subject) {
            Some(s) => if corroborates(x.code) {
                Statement {
                    evidence: x.evidence.push(corroboration_line(t, s)),
                    confidence: if x.confidence == Confidence::Heuristic {
                        Confidence::Inferred
                    } else {
                        x.confidence
                    },
                    ..x
                }
            } else {
                x
            },
            None => x,
        },
        None => x,
    }
}

fn find_counts<'a>(t: &'a UrbTraffic, bus: u32, address: u32) -> (r: Option<&'a UrbStats>)
    ensures
        pointee(r) == first_of(t.devices@, counts_at(bus, address)),
{
    let r = t.for_address(bus, address);
    proof {
        let p = counts_at(bus, address);
        crate::seqs::lemma_first_of(t.devices@, p);
        if let Some(d) = r {
            let i = choose|i: int|
                0 <= i < t.devices.len() && *d == #[trigger] t.devices[i] && UrbTraffic::is_at(
                    t.devices[i],
                    bus,
                    address,
                ) && (forall|j: int|
                    0 <= j < i ==> !UrbTraffic::is_at(#[trigger] t.devices[j], bus, address));
            assert(p(t.devices@[i]));
            let k = choose|k: int|
                0 <= k < t.devices@.len() && first_of(t.devices@, p)->0 == #[trigger] t.devices@[k]
                    && p(t.devices@[k]) && (forall|j: int| 0 <= j < k ==> !p(#[trigger] t.devices@[j]));
            assert(i == k) by {
                if i < k {
                    assert(!p(t.devices@[i]));
                } else if k < i {
                    assert(!UrbTraffic::is_at(t.devices[k], bus, address));
                }
            }
        } else {
            assert forall|i: int| 0 <= i < t.devices@.len() implies !p(#[trigger] t.devices@[i]) by {
                assert(!UrbTraffic::is_at(t.devices[i], bus, address));
            }
        }
    }
    r
}

fn find_errors_for<'a>(snap: &'a Snapshot, t: &'a UrbTraffic, subject: &Subject) -> (r: Option<
    &'a UrbStats,
>)
    ensures
        pointee(r) == errors_for(*snap, *t, subject@),
{
    let name = match subject {
        Subject::Device(n) => n,
        _ => {
            return None;
        },
    };
    let dev = match snap.device(name.as_str()) {
        Some(d) => d,
        None => {
            return None;
        },
    };
    match (dev.busnum, dev.devnum) {
        (Some(b), Some(a)) => match find_counts(t, b, a) {
            Some(s) => if s.transport_errors >= URB_ERROR_MIN {
                Some(s)
            } else {
                None
            },
            None => None,
        },
        _ => None,
    }
}

fn strengthen(snap: &Snapshot, f: Finding) -> (r: Finding)
    ensures
        r@ == strengthened(*snap, f@),
{
    let t = match &snap.urb_traffic {
        Some(t) => t,
        None => {
            return f;
        },
    };
    if !is_corroborated(f.code.as_str()) {
        return f;
    }
    match find_errors_for(snap, t, &f.subject) {
        Some(s) => {
            let n = number(s.transport_errors);
            let secs = seconds_text(t.window_ms);
            let statuses = s.error_breakdown();
            let list = join(&statuses, ", ");
            let mut g = f;
            let ghost before = g;
            let line = fill3(CORROBORATED, n.as_str(), secs.as_str(), list.as_str());
            push_text(&mut g.evidence, line);
            if g.confidence == Confidence::Heuristic {
                g.confidence = Confidence::Inferred;
            }
            assert(g@ == strengthened(*snap, before@));
            g
        },
        None => f,
    }
}

/// Each statement, strengthened where traffic speaks to it.
pub open spec fn all_strengthened(snap: Snapshot, s: Seq<Statement>) -> Seq<Statement> {
    Seq::new(s.len(), |i: int| strengthened(snap, s[i]))
}

/// Let measured errors strengthen the findings they speak to.
pub fn corroborate_with_urb_errors(snap: &Snapshot, findings: Vec<Finding>) -> (r: Vec<Finding>)
    ensures
        stated(r@) == all_strengthened(*snap, stated(findings@)),
{
    let ghost all = stated(findings@);
    let mut rest = findings;
    let ghost total = rest@.len();
    let mut out = nothing();
    let n: usize = rest.len();
    let mut i: usize = 0;
    assert(stated(rest@) =~= all.skip(0));
    while i < n
        invariant
            i <= n,
            n == total,
            all.len() == n,
            stated(rest@) == all.skip(i as int),
            stated(out@) == all_strengthened(*snap, all.take(i as int)),
        decreases n - i,
    {
        assert(stated(rest@).len() == rest@.len());
        let ghost before = rest@;
        let f = rest.remove(0);
        proof {
            assert(f@ == stated(before)[0]);
            assert(rest@ =~= before.skip(1));
            assert forall|j: int| 0 <= j < rest@.len() implies #[trigger] stated(rest@)[j]
                == all.skip(i + 1)[j] by {
                assert(stated(before)[j + 1] == before[j + 1]@);
                assert(all.skip(i as int)[j + 1] == all[i + j + 1]);
            }
            assert(stated(rest@) =~= all.skip(i + 1));
        }
        note(&mut out, Some(strengthen(snap, f)));
        assert(stated(out@) =~= all_strengthened(*snap, all.take(i + 1)));
        i += 1;
    }
    proof {
        lemma_take_all(all);
    }
    out
}

// ---------------------------------------------------------------------------
// laws
// ---------------------------------------------------------------------------

/// Corroboration never turns a claim into a measurement, never weakens one, and
/// changes nothing of it but its confidence and one line of evidence.
pub proof fn corroboration_never_overclaims(snap: Snapshot, x: Statement)
    ensures
        strengthened(snap, x).confidence == Confidence::Measured ==> x.confidence
            == Confidence::Measured,
        strengthened(snap, x).confidence.strength() >= x.confidence.strength(),
        strengthened(snap, x).code == x.code,
        strengthened(snap, x).severity == x.severity,
        strengthened(snap, x).subject == x.subject,
        strengthened(snap, x).title == x.title,
        strengthened(snap, x).detail == x.detail,
        strengthened(snap, x).suggestion == x.suggestion,
        x.evidence.is_prefix_of(strengthened(snap, x).evidence),
{
    assert(x.evidence.is_prefix_of(strengthened(snap, x).evidence)) by {
        let e = strengthened(snap, x).evidence;
        assert(e.take(x.evidence.len() as int) =~= x.evidence);
    }
}

/// Where no traffic was sampled there is no finding either way, and nothing is
/// strengthened.
pub proof fn no_traffic_says_nothing(snap: Snapshot, x: Statement)
    requires
        snap.urb_traffic is None,
    ensures
        traffic_statements(snap).len() == 0,
        strengthened(snap, x) == x,
{
}

/// Cancellations and stalls never produce a finding: without transport errors
/// there is none.
pub proof fn only_transport_errors_count(snap: Snapshot, window_ms: u64, s: UrbStats)
    requires
        s.transport_errors < URB_ERROR_MIN,
    ensures
        error_rate(snap, window_ms)(s).len() == 0,
{
}

} // verus!
