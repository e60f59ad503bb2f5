//! Rules about the machine itself: its log, its controllers and its buses.

use vstd::prelude::*;
use crate::diag::{
    finding, lines1, note, noted, nothing, or_text, some_text, stated, stated_opt, text_or,
};
use crate::model::{
    About, Confidence, EventKind, Finding, KernelEvent, KernelLog, KernelLogSource, Severity,
    Snapshot, Statement, Subject,
};
use crate::number::{dec, number};
use crate::seqs::{kept, lemma_take_all, lemma_take_more, no_refs, pointees, push_ref};
use crate::text::{fill1, filled, no_texts, owned, push_text, texts};

verus! {

pub const LOG_TITLE: &'static str =
    "Kernel log not readable — reset and enumeration history is missing";

pub const LOG_DETAIL: &'static str = "No kernel log source could be read.";

pub const LOG_EVIDENCE: &'static str = "kernel.dmesg_restrict blocks /dev/kmsg for non-root users";

pub const LOG_ADVICE: &'static str =
    "Re-run with sudo, or grant journal access, to enable the link-quality rules.";

pub const HC_TITLE: &'static str = "xHCI host controller failed {} time(s) this boot";

pub const HC_DETAIL: &'static str =
    "The kernel declared a USB host controller unresponsive or dead. Every device on that \
        controller drops out when this happens. This is a host-side or power-management fault, \
        not a cable fault.";

pub const HC_ADVICE: &'static str =
    "Check for a BIOS/firmware update and test whether it correlates with suspend/resume.";

pub const OC_TITLE: &'static str = "Over-current condition reported on a USB port";

pub const OC_DETAIL: &'static str =
    "The port shut down because the attached device or cable drew more current than the \
        port allows. A shorted cable, a damaged connector, or a device with a failed power \
        stage all produce this.";

pub const OC_ADVICE: &'static str =
    "Inspect the cable and connectors for damage before reusing them.";

pub const POWER_TITLE: &'static str = "A device was denied its requested bus power";

pub const POWER_DETAIL: &'static str =
    "The device asked for more current than the port could grant, so the kernel rejected \
        its configuration. Common on bus-powered hubs with several devices behind them.";

pub const POWER_ADVICE: &'static str =
    "Use a self-powered hub, or connect the device directly to a port on the machine.";

pub const BANDWIDTH_TITLE: &'static str =
    "A device could not be configured for lack of bus bandwidth";

pub const BANDWIDTH_DETAIL: &'static str =
    "The host controller could not reserve the periodic bandwidth the device asked for. \
        Isochronous devices — webcams and audio interfaces — reserve bandwidth up front, so \
        two of them on one controller can exhaust it even when nothing is transferring.";

pub const BANDWIDTH_ADVICE: &'static str =
    "Move the device to a port on a different controller, shown as a different bus here.";

/// The events of one kind.
pub open spec fn of_kind(kind: EventKind) -> spec_fn(KernelEvent) -> bool {
    |e: KernelEvent| e.kind == kind
}

/// What the last `n` events read, newest first.
pub open spec fn newest_by(
    s: Seq<KernelEvent>,
    n: nat,
    f: spec_fn(KernelEvent) -> Seq<char>,
) -> Seq<Seq<char>>
    decreases n,
{
    if n == 0 || s.len() == 0 {
        Seq::empty()
    } else {
        seq![f(s.last())] + newest_by(s.drop_last(), (n - 1) as nat, f)
    }
}

/// An event's own text.
pub open spec fn its_text() -> spec_fn(KernelEvent) -> Seq<char> {
    |e: KernelEvent| e.text@
}

/// The texts of the last `n` events, newest first.
pub open spec fn newest_texts(s: Seq<KernelEvent>, n: nat) -> Seq<Seq<char>> {
    newest_by(s, n, its_text())
}

/// Taking the newest one off the front of the newest.
pub proof fn lemma_newest(
    all: Seq<KernelEvent>,
    i: int,
    left: nat,
    f: spec_fn(KernelEvent) -> Seq<char>,
)
    requires
        0 < i <= all.len(),
        left > 0,
    ensures
        newest_by(all.take(i), left, f) == seq![f(all[i - 1])] + newest_by(
            all.take(i - 1),
            (left - 1) as nat,
            f,
        ),
{
    lemma_take_more(all, i - 1);
}

/// Picks the events of one kind.
pub fn pick_kind<'a>(events: &'a Vec<KernelEvent>, kind: EventKind) -> (r: Vec<&'a KernelEvent>)
    ensures
        pointees(r@) == kept(events@, of_kind(kind)),
        r@.len() <= events@.len(),
{
    let mut out = no_refs();
    let mut i: usize = 0;
    while i < events.len()
        invariant
            i <= events.len(),
            out@.len() <= i,
            pointees(out@) == kept(events@.take(i as int), of_kind(kind)),
        decreases events.len() - i,
    {
        proof {
            lemma_take_more(events@, i as int);
        }
        if events[i].kind == kind {
            push_ref(&mut out, &events[i]);
        }
        i += 1;
    }
    proof {
        lemma_take_all(events@);
    }
    out
}

/// Picks the events of one kind from a list of them.
pub fn pick_of<'a>(events: &Vec<&'a KernelEvent>, kind: EventKind) -> (r: Vec<&'a KernelEvent>)
    ensures
        pointees(r@) == kept(pointees(events@), of_kind(kind)),
        r@.len() <= events@.len(),
{
    let ghost all = pointees(events@);
    let mut out = no_refs();
    let mut i: usize = 0;
    while i < events.len()
        invariant
            i <= events.len(),
            all == pointees(events@),
            out@.len() <= i,
            pointees(out@) == kept(all.take(i as int), of_kind(kind)),
        decreases events.len() - i,
    {
        proof {
            lemma_take_more(all, i as int);
        }
        if events[i].kind == kind {
            push_ref(&mut out, events[i]);
        }
        i += 1;
    }
    proof {
        lemma_take_all(all);
    }
    out
}

pub fn newest(events: &Vec<&KernelEvent>, n: usize) -> (r: Vec<String>)
    ensures
        texts(r@) == newest_texts(pointees(events@), n as nat),
{
    let ghost all = pointees(events@);
    let mut out = no_texts();
    let mut i: usize = events.len();
    let mut left: usize = n;
    proof {
        lemma_take_all(all);
        assert(texts(out@) + newest_texts(all, n as nat) =~= newest_texts(all, n as nat));
    }
    while i > 0 && left > 0
        invariant
            i <= events.len(),
            all == pointees(events@),
            texts(out@) + newest_texts(all.take(i as int), left as nat) == newest_texts(
                all,
                n as nat,
            ),
        decreases i,
    {
        let ghost sofar = texts(out@);
        proof {
            lemma_newest(all, i as int, left as nat, its_text());
        }
        push_text(&mut out, events[i - 1].text.clone());
        proof {
            let rest = newest_texts(all.take(i - 1), (left - 1) as nat);
            assert(texts(out@) + rest =~= sofar + (seq![all[i - 1].text@] + rest));
        }
        i -= 1;
        left -= 1;
    }
    assert(texts(out@) + newest_texts(all.take(i as int), left as nat) =~= texts(out@));
    out
}

// ---------------------------------------------------------------------------
// the log
// ---------------------------------------------------------------------------

/// The log could not be read, which is said rather than hidden.
pub open spec fn log_missing(log: KernelLog) -> Option<Statement> {
    if log.source == KernelLogSource::Unavailable {
        Some(
            Statement {
                code: "KERNEL_LOG_UNAVAILABLE"@,
                severity: Severity::Info,
                confidence: Confidence::Measured,
                subject: About::Host,
                title: LOG_TITLE@,
                detail: text_or(log.note, LOG_DETAIL@),
                evidence: seq![LOG_EVIDENCE@],
                suggestion: Some(LOG_ADVICE@),
            },
        )
    } else {
        None
    }
}

fn find_log_missing(log: &KernelLog) -> (r: Option<Finding>)
    ensures
        stated_opt(r) == log_missing(*log),
{
    if log.source == KernelLogSource::Unavailable {
        Some(
            finding(
                "KERNEL_LOG_UNAVAILABLE",
                Severity::Info,
                Confidence::Measured,
                Subject::Host,
                owned(LOG_TITLE),
                owned(or_text(&log.note, LOG_DETAIL)),
                lines1(owned(LOG_EVIDENCE)),
                some_text(LOG_ADVICE),
            ),
        )
    } else {
        None
    }
}

// ---------------------------------------------------------------------------
// controllers and buses
// ---------------------------------------------------------------------------

/// A host controller died this boot.
pub open spec fn controller_failed(log: KernelLog) -> Option<Statement> {
    let hits = kept(log.events@, of_kind(EventKind::HostControllerFailure));
    if hits.len() > 0 {
        Some(
            Statement {
                code: "HOST_CONTROLLER_FAILURE"@,
                severity: Severity::High,
                confidence: Confidence::Measured,
                subject: About::Host,
                title: filled(HC_TITLE@, seq![dec(hits.len())]),
                detail: HC_DETAIL@,
                evidence: newest_texts(hits, 4),
                suggestion: Some(HC_ADVICE@),
            },
        )
    } else {
        None
    }
}

fn find_controller_failed(log: &KernelLog) -> (r: Option<Finding>)
    ensures
        stated_opt(r) == controller_failed(*log),
{
    let hits = pick_kind(&log.events, EventKind::HostControllerFailure);
    assert(pointees(hits@).len() == hits@.len());
    if hits.len() > 0 {
        let n = number(hits.len() as u64);
        Some(
            finding(
                "HOST_CONTROLLER_FAILURE",
                Severity::High,
                Confidence::Measured,
                Subject::Host,
                fill1(HC_TITLE, n.as_str()),
                owned(HC_DETAIL),
                newest(&hits, 4),
                some_text(HC_ADVICE),
            ),
        )
    } else {
        None
    }
}

/// A fault the ring buffer reports against a bus.
pub open spec fn bus_fault(
    log: KernelLog,
    kind: EventKind,
    code: Seq<char>,
    severity: Severity,
    title: Seq<char>,
    detail: Seq<char>,
    advice: Seq<char>,
) -> Option<Statement> {
    let hits = kept(log.events@, of_kind(kind));
    if hits.len() > 0 {
        Some(
            Statement {
                code,
                severity,
                confidence: Confidence::Measured,
                subject: About::Host,
                title,
                detail,
                evidence: newest_texts(hits, 4),
                suggestion: Some(advice),
            },
        )
    } else {
        None
    }
}

fn find_bus_fault(
    log: &KernelLog,
    kind: EventKind,
    code: &str,
    severity: Severity,
    title: &str,
    detail: &str,
    advice: &str,
) -> (r: Option<Finding>)
    ensures
        stated_opt(r) == bus_fault(*log, kind, code@, severity, title@, detail@, advice@),
{
    let hits = pick_kind(&log.events, kind);
    assert(pointees(hits@).len() == hits@.len());
    if hits.len() > 0 {
        Some(
            finding(
                code,
                severity,
                Confidence::Measured,
                Subject::Host,
                owned(title),
                owned(detail),
                newest(&hits, 4),
                some_text(advice),
            ),
        )
    } else {
        None
    }
}

pub open spec fn over_current(log: KernelLog) -> Option<Statement> {
    bus_fault(
        log,
        EventKind::OverCurrent,
        "BUS_OVER_CURRENT"@,
        Severity::High,
        OC_TITLE@,
        OC_DETAIL@,
        OC_ADVICE@,
    )
}

pub open spec fn power_denied(log: KernelLog) -> Option<Statement> {
    bus_fault(
        log,
        EventKind::InsufficientPower,
        "BUS_POWER_INSUFFICIENT"@,
        Severity::Medium,
        POWER_TITLE@,
        POWER_DETAIL@,
        POWER_ADVICE@,
    )
}

pub open spec fn bandwidth_denied(log: KernelLog) -> Option<Statement> {
    bus_fault(
        log,
        EventKind::InsufficientBandwidth,
        "BUS_BANDWIDTH_INSUFFICIENT"@,
        Severity::Medium,
        BANDWIDTH_TITLE@,
        BANDWIDTH_DETAIL@,
        BANDWIDTH_ADVICE@,
    )
}

/// Everything said about the machine itself.
pub open spec fn host_statements(log: KernelLog) -> Seq<Statement> {
    let s = noted(Seq::empty(), log_missing(log));
    let s = noted(s, controller_failed(log));
    let s = noted(s, over_current(log));
    let s = noted(s, power_denied(log));
    noted(s, bandwidth_denied(log))
}

pub fn host_rules(snap: &Snapshot) -> (r: Vec<Finding>)
    ensures
        stated(r@) == host_statements(snap.kernel_log),
{
    let log = &snap.kernel_log;
    let mut out = nothing();
    note(&mut out, find_log_missing(log));
    note(&mut out, find_controller_failed(log));
    note(
        &mut out,
        find_bus_fault(
            log,
            EventKind::OverCurrent,
            "BUS_OVER_CURRENT",
            Severity::High,
            OC_TITLE,
            OC_DETAIL,
            OC_ADVICE,
        ),
    );
    note(
        &mut out,
        find_bus_fault(
            log,
            EventKind::InsufficientPower,
            "BUS_POWER_INSUFFICIENT",
            Severity::Medium,
            POWER_TITLE,
            POWER_DETAIL,
            POWER_ADVICE,
        ),
    );
    note(
        &mut out,
        find_bus_fault(
            log,
            EventKind::InsufficientBandwidth,
            "BUS_BANDWIDTH_INSUFFICIENT",
            Severity::Medium,
            BANDWIDTH_TITLE,
            BANDWIDTH_DETAIL,
            BANDWIDTH_ADVICE,
        ),
    );
    out
}

} // verus!
