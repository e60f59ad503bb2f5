//! Rules about one device: the link it negotiated, and what the kernel logged
//! about it since it attached.

use vstd::prelude::*;
use crate::diag::host::{
    lemma_newest, newest, newest_by, newest_texts, of_kind, pick_of,
};
use crate::diag::{
    extend, finding, lines1, lines2, note, noted, nothing, or_text, some_text, stated, stated_opt,
    text_or,
};
use crate::kind::{DeviceKind, KindSource};
use crate::model::{
    About, Confidence, EventKind, Finding, KernelEvent, Severity, Snapshot, Statement, Subject,
    UsbDevice, TWO_WORDS,
};
use crate::number::{dec, dec_int, integer, number};
use crate::seqs::{kept, lemma_take_all, pointee, pointees};
use crate::text::{fill1, fill2, fill4, filled, no_texts, owned, push_text, texts, trim, trimmed};

verus! {

/// Reset count at which repetition stops looking like coincidence.
pub const RESET_WARN: usize = 3;

pub const RESET_ALARM: usize = 8;

pub const LANE_TITLE: &'static str = "{} runs single-lane at {}";

pub const LANE_DETAIL: &'static str =
    "The device claims USB 3.2, which allows a two-lane (20 Gbps) link, but only one lane \
        is in use. Two-lane operation needs a Gen 2x2 cable, port, and device all together.";

pub const LANE_LINE: &'static str = "tx_lanes=1 rx_lanes={} version={}";

pub const KIND_CITED_LINE: &'static str = "kind: {} — {}";

pub const SLOW_INTERNAL: &'static str =
    "This is an internal device (`removable = fixed`), so there is no cable to swap. Either \
        it is wired to a USB 2.0-only internal header, or its SuperSpeed pairs are not routed \
        on this board.";

pub const SLOW_UPSTREAM: &'static str =
    "The upstream link is itself USB 2.0, so this device cannot exceed it. The limit is the \
        chain through \"{}\", not necessarily this device's own cable.";

pub const SLOW_UPSTREAM_ADVICE: &'static str =
    "Connect the device directly to a SuperSpeed port, or replace the upstream hub or its \
        cable.";

pub const SLOW_CABLE: &'static str =
    "The device advertises SuperSpeed and the upstream port provides it, yet the link \
        negotiated USB 2.0. The SuperSpeed differential pairs are not getting through — a USB \
        2.0-only cable, a charge-only cable, a damaged cable, or a dirty connector.";

pub const SLOW_CABLE_ADVICE: &'static str =
    "Swap the cable for one known to carry USB 3 data; that resolves the large majority of \
        these.";

pub const CLAIM_LINE: &'static str = "device claims USB {}";

pub const NEGOTIATED_LINE: &'static str = "negotiated {}";

pub const UPSTREAM_LINE: &'static str = "upstream {} at {}";

pub const SLOW_TITLE: &'static str = "{} supports SuperSpeed but linked at {}";

pub const CHURN_DETAIL: &'static str =
    "Runtime power management accounts for this. The device has runtime PM enabled and has \
        spent {}% of its connected life suspended, with a {} ms autosuspend delay — so it is \
        woken and re-suspended constantly, and each wake logs a reset. This is the designed \
        behaviour, not a bad connection.";

pub const CHURN_ADVICE: &'static str =
    "Nothing to fix unless the device actually misbehaves. If it does, raise its \
        autosuspend delay or set power/control to 'on' — the cable is not involved.";

pub const RESET_INTERNAL: &'static str =
    "This is an internal device (`removable = fixed`), so no cable or connector is \
        involved. Repeated resets on internal devices are usually runtime power management \
        suspending and resuming them, which is normal.";

pub const RESET_INTERNAL_ADVICE: &'static str =
    "Only worth pursuing if the device actually misbehaves; then look at its autosuspend \
        settings rather than at cabling.";

pub const RESET_DETAIL: &'static str =
    "Repeated resets on a device that otherwise works are the classic signature of a \
        marginal connection: the link drops, the kernel recovers it, and the cycle repeats. A \
        worn cable, a loose plug, or aggressive autosuspend on a device that handles it badly \
        all look like this.";

pub const RESET_ADVICE: &'static str =
    "Try another cable and port. If the resets follow the device, suspect the device or its \
        power management rather than the cable.";

pub const RESET_TITLE: &'static str = "{} was reset {} times this boot";

pub const RUNTIME_PM_LINE: &'static str =
    "runtime PM: control={}, suspended {}% of {} s connected, {} urbs";

pub const BLAMED_TITLE: &'static str = "The kernel explicitly reported a bad cable";

pub const BLAMED_DETAIL: &'static str =
    "The hub driver could not enable the port and logged its cable warning. This message is \
        emitted when a port fails to come up at all.";

pub const ENUM_TITLE: &'static str = "Device failed to enumerate";

pub const ENUM_DETAIL: &'static str =
    "Descriptor reads failed or the device never accepted an address. Signal integrity, \
        insufficient power, and failing device hardware all produce this.";

pub const TRAIN_TITLE: &'static str = "A port failed to train its link";

pub const TRAIN_DETAIL: &'static str =
    "The port could not bring the link up cleanly and either retried or gave up. On a \
        SuperSpeed port this usually ends in a silent fall back to USB 2.0.";

pub const NAMED_TITLE: &'static str = "{}: {}";

pub const REPLACE_ADVICE: &'static str = "Replace the cable first — it is the cheapest variable.";

// ---------------------------------------------------------------------------
// what a rule that selects by kind owes
// ---------------------------------------------------------------------------

/// The readings, and the declaration behind the device's kind where a user
/// supplied it: a finding that leans on one says where the fact came from.
pub open spec fn with_kind_cited(lines: Seq<Seq<char>>, dev: UsbDevice) -> Seq<Seq<char>> {
    match dev.declared {
        Some(d) => match d.kind {
            Some(k) => lines.push(filled(KIND_CITED_LINE@, seq![k.name(), d.citation()])),
            None => lines,
        },
        None => lines,
    }
}

pub fn cite_kind(lines: &mut Vec<String>, dev: &UsbDevice)
    ensures
        texts(final(lines)@) == with_kind_cited(texts(old(lines)@), *dev),
{
    if let Some(d) = &dev.declared {
        if let Some(k) = d.kind {
            let c = d.cite();
            push_text(lines, fill2(KIND_CITED_LINE, k.label(), c.as_str()));
        }
    }
}

// ---------------------------------------------------------------------------
// link speed
// ---------------------------------------------------------------------------

/// A USB 3.2 storage device on one lane at 10 Gbit/s or less. Restricted to
/// storage: hubs are almost never dual-lane.
pub open spec fn on_one_lane(dev: UsbDevice) -> bool {
    &&& dev.usb_version_num matches Some(v) && v.micros >= 3_200_000
    &&& dev.tx_lanes == Some(1u32)
    &&& dev.speed matches Some(s) && s.mbps.micros <= 10_000_000_000
    &&& dev.identified().basis() == Some(DeviceKind::Storage)
}

fn is_on_one_lane(dev: &UsbDevice) -> (r: bool)
    ensures
        r == on_one_lane(*dev),
{
    let new = match dev.usb_version_num {
        Some(v) => v.micros >= 3_200_000,
        None => false,
    };
    let one = match dev.tx_lanes {
        Some(n) => n == 1,
        None => false,
    };
    let slow = match &dev.speed {
        Some(s) => s.mbps.micros <= 10_000_000_000,
        None => false,
    };
    if !(new && one && slow) {
        return false;
    }
    match dev.kind().grounds() {
        Some(k) => k == DeviceKind::Storage,
        None => false,
    }
}

pub open spec fn lanes_or_one(dev: UsbDevice) -> nat {
    match dev.rx_lanes {
        Some(n) => n as nat,
        None => 1,
    }
}

/// One lane in use where two were possible. A device that is storage because a
/// user said so is no measurement: the confidence is capped, and the
/// declaration cited.
pub open spec fn single_lane(dev: UsbDevice) -> Option<Statement> {
    if on_one_lane(dev) {
        Some(
            Statement {
                code: "LINK_SINGLE_LANE"@,
                severity: Severity::Info,
                confidence: dev.identified().capped(Confidence::Measured),
                subject: About::Device(dev.sysfs_name@),
                title: filled(LANE_TITLE@, seq![dev.called(), dev.rate_text()]),
                detail: LANE_DETAIL@,
                evidence: with_kind_cited(
                    seq![
                        filled(
                            LANE_LINE@,
                            seq![dec(lanes_or_one(dev)), text_or(dev.usb_version, "?"@)],
                        ),
                    ],
                    dev,
                ),
                suggestion: None,
            },
        )
    } else {
        None
    }
}

fn find_single_lane(dev: &UsbDevice) -> (r: Option<Finding>)
    ensures
        stated_opt(r) == single_lane(*dev),
{
    if !is_on_one_lane(dev) {
        return None;
    }
    let name = dev.label();
    let rate = dev.rate();
    let lanes: u32 = match dev.rx_lanes {
        Some(n) => n,
        None => 1,
    };
    let n = number(lanes as u64);
    let mut evidence = lines1(fill2(LANE_LINE, n.as_str(), or_text(&dev.usb_version, "?")));
    cite_kind(&mut evidence, dev);
    Some(
        finding(
            "LINK_SINGLE_LANE",
            Severity::Info,
            dev.kind().cap(Confidence::Measured),
            Subject::Device(dev.sysfs_name.clone()),
            fill2(LANE_TITLE, name.as_str(), rate.as_str()),
            owned(LANE_DETAIL),
            evidence,
            None,
        ),
    )
}

/// The device above is itself on a USB 2.0 link.
pub open spec fn upstream_slow(up: Option<UsbDevice>) -> bool {
    up matches Some(p) && p.linked_slow()
}

pub open spec fn negotiated_words(dev: UsbDevice) -> Seq<char> {
    match dev.speed {
        Some(s) => s.label@,
        None => "?"@,
    }
}

/// The readings behind a downshift.
pub open spec fn downshift_evidence(dev: UsbDevice, up: Option<UsbDevice>) -> Seq<Seq<char>> {
    let base = seq![
        filled(CLAIM_LINE@, seq![text_or(dev.usb_version, "?"@)]),
        filled(NEGOTIATED_LINE@, seq![negotiated_words(dev)]),
    ];
    match up {
        Some(p) => base.push(filled(UPSTREAM_LINE@, seq![p.sysfs_name@, p.rate_text()])),
        None => base,
    }
}

/// The device claims SuperSpeed and linked at USB 2.0. An internal device has
/// no cable to swap, and a USB 2.0 hub upstream explains it: only where neither
/// holds is the cable suspected.
pub open spec fn downshift(dev: UsbDevice, up: Option<UsbDevice>) -> Statement {
    Statement {
        code: "LINK_BELOW_DEVICE_CAPABILITY"@,
        severity: if dev.internal() {
            Severity::Low
        } else if upstream_slow(up) {
            Severity::Medium
        } else {
            Severity::High
        },
        confidence: Confidence::Inferred,
        subject: About::Device(dev.sysfs_name@),
        title: filled(SLOW_TITLE@, seq![dev.called(), dev.rate_text()]),
        detail: if dev.internal() {
            SLOW_INTERNAL@
        } else if upstream_slow(up) {
            filled(SLOW_UPSTREAM@, seq![up->0.called()])
        } else {
            SLOW_CABLE@
        },
        evidence: downshift_evidence(dev, up),
        suggestion: if dev.internal() {
            None
        } else if upstream_slow(up) {
            Some(SLOW_UPSTREAM_ADVICE@)
        } else {
            Some(SLOW_CABLE_ADVICE@)
        },
    }
}

fn find_downshift(dev: &UsbDevice, up: Option<&UsbDevice>) -> (r: Finding)
    ensures
        r@ == downshift(*dev, pointee(up)),
{
    let claim = fill1(CLAIM_LINE, or_text(&dev.usb_version, "?"));
    let negotiated = match &dev.speed {
        Some(s) => fill1(NEGOTIATED_LINE, s.label.as_str()),
        None => fill1(NEGOTIATED_LINE, "?"),
    };
    let mut evidence = lines2(claim, negotiated);
    if let Some(p) = up {
        let rate = p.rate();
        push_text(&mut evidence, fill2(UPSTREAM_LINE, p.sysfs_name.as_str(), rate.as_str()));
    }
    let name = dev.label();
    let rate = dev.rate();
    let title = fill2(SLOW_TITLE, name.as_str(), rate.as_str());
    let subject = Subject::Device(dev.sysfs_name.clone());
    if dev.is_internal() {
        return finding(
            "LINK_BELOW_DEVICE_CAPABILITY",
            Severity::Low,
            Confidence::Inferred,
            subject,
            title,
            owned(SLOW_INTERNAL),
            evidence,
            None,
        );
    }
    if let Some(p) = up {
        if p.linked_below_superspeed() {
            let above = p.label();
            return finding(
                "LINK_BELOW_DEVICE_CAPABILITY",
                Severity::Medium,
                Confidence::Inferred,
                subject,
                title,
                fill1(SLOW_UPSTREAM, above.as_str()),
                evidence,
                some_text(SLOW_UPSTREAM_ADVICE),
            );
        }
    }
    finding(
        "LINK_BELOW_DEVICE_CAPABILITY",
        Severity::High,
        Confidence::Inferred,
        subject,
        title,
        owned(SLOW_CABLE),
        evidence,
        some_text(SLOW_CABLE_ADVICE),
    )
}

/// What is said about a device's link.
pub open spec fn link_statement(snap: Snapshot, dev: UsbDevice) -> Option<Statement> {
    if dev.says_superspeed() && dev.linked_slow() {
        Some(downshift(dev, snap.parent(dev)))
    } else {
        single_lane(dev)
    }
}

fn link_speed_rules(snap: &Snapshot, dev: &UsbDevice) -> (r: Option<Finding>)
    ensures
        stated_opt(r) == link_statement(*snap, *dev),
{
    if dev.claims_superspeed() && dev.linked_below_superspeed() {
        Some(find_downshift(dev, snap.parent_of(dev)))
    } else {
        find_single_lane(dev)
    }
}

// ---------------------------------------------------------------------------
// history
// ---------------------------------------------------------------------------

/// An event's time and text on one line.
pub open spec fn stamped() -> spec_fn(KernelEvent) -> Seq<char> {
    |e: KernelEvent| trimmed(filled(TWO_WORDS@, seq![text_or(e.timestamp, ""@), e.text@]))
}

fn newest_stamped(events: &Vec<&KernelEvent>, n: usize) -> (r: Vec<String>)
    ensures
        texts(r@) == newest_by(pointees(events@), n as nat, stamped()),
{
    let ghost all = pointees(events@);
    let ghost f = stamped();
    let mut out = no_texts();
    let mut i: usize = events.len();
    let mut left: usize = n;
    proof {
        lemma_take_all(all);
        assert(texts(out@) + newest_by(all, n as nat, f) =~= newest_by(all, n as nat, f));
    }
    while i > 0 && left > 0
        invariant
            i <= events.len(),
            all == pointees(events@),
            f == stamped(),
            texts(out@) + newest_by(all.take(i as int), left as nat, f) == newest_by(
                all,
                n as nat,
                f,
            ),
        decreases i,
    {
        let ghost sofar = texts(out@);
        proof {
            lemma_newest(all, i as int, left as nat, f);
        }
        let line = fill2(
            TWO_WORDS,
            or_text(&events[i - 1].timestamp, ""),
            events[i - 1].text.as_str(),
        );
        push_text(&mut out, trim(line.as_str()));
        proof {
            assert(all[i - 1] == *events@[i - 1]);
            let rest = newest_by(all.take(i - 1), (left - 1) as nat, f);
            assert(texts(out@) + rest =~= sofar + (seq![f(all[i - 1])] + rest));
        }
        i -= 1;
        left -= 1;
    }
    assert(texts(out@) + newest_by(all.take(i as int), left as nat, f) =~= texts(out@));
    out
}

pub open spec fn or_zero(o: Option<u64>) -> nat {
    match o {
        Some(n) => n as nat,
        None => 0,
    }
}

pub open spec fn delay_of(dev: UsbDevice) -> int {
    match dev.autosuspend_delay_ms {
        Some(n) => n as int,
        None => 0,
    }
}

/// Runtime power management in numbers, where it was read.
pub open spec fn runtime_pm(dev: UsbDevice) -> Seq<Seq<char>> {
    match dev.suspended_part() {
        Some(r) => seq![
            filled(
                RUNTIME_PM_LINE@,
                seq![
                    text_or(dev.power_control, "?"@),
                    r.percent(),
                    dec(or_zero(dev.connected_duration_ms) / 1000),
                    dec(or_zero(dev.urbnum)),
                ],
            ),
        ],
        None => Seq::empty(),
    }
}

fn find_runtime_pm(dev: &UsbDevice) -> (r: Vec<String>)
    ensures
        texts(r@) == runtime_pm(*dev),
{
    match dev.suspend_ratio() {
        Some(r) => {
            let pct = r.percent_text();
            let connected: u64 = match dev.connected_duration_ms {
                Some(n) => n,
                None => 0,
            };
            let urbs: u64 = match dev.urbnum {
                Some(n) => n,
                None => 0,
            };
            let c = number(connected / 1000);
            let u = number(urbs);
            lines1(
                fill4(
                    RUNTIME_PM_LINE,
                    or_text(&dev.power_control, "?"),
                    pct.as_str(),
                    c.as_str(),
                    u.as_str(),
                ),
            )
        },
        None => no_texts(),
    }
}

/// How a run of resets is explained: power management where the accounting
/// proves it, the device's own wiring where it is internal, and otherwise a
/// marginal connection.
pub open spec fn reset_storm(dev: UsbDevice, resets: Seq<KernelEvent>) -> Option<Statement> {
    if resets.len() >= RESET_WARN {
        Some(
            Statement {
                code: "DEVICE_RESET_STORM"@,
                severity: if dev.churns() || dev.internal() {
                    Severity::Low
                } else if resets.len() >= RESET_ALARM {
                    Severity::High
                } else {
                    Severity::Medium
                },
                confidence: if dev.churns() {
                    Confidence::Measured
                } else {
                    Confidence::Heuristic
                },
                subject: About::Device(dev.sysfs_name@),
                title: filled(RESET_TITLE@, seq![dev.called(), dec(resets.len())]),
                detail: if dev.churns() {
                    filled(
                        CHURN_DETAIL@,
                        seq![dev.suspended_part()->0.percent(), dec_int(delay_of(dev))],
                    )
                } else if dev.internal() {
                    RESET_INTERNAL@
                } else {
                    RESET_DETAIL@
                },
                evidence: newest_by(resets, 3, stamped()) + runtime_pm(dev),
                suggestion: Some(
                    if dev.churns() {
                        CHURN_ADVICE@
                    } else if dev.internal() {
                        RESET_INTERNAL_ADVICE@
                    } else {
                        RESET_ADVICE@
                    },
                ),
            },
        )
    } else {
        None
    }
}

fn find_reset_storm(dev: &UsbDevice, resets: &Vec<&KernelEvent>) -> (r: Option<Finding>)
    ensures
        stated_opt(r) == reset_storm(*dev, pointees(resets@)),
{
    assert(pointees(resets@).len() == resets@.len());
    if resets.len() < RESET_WARN {
        return None;
    }
    let mut evidence = newest_stamped(resets, 3);
    let mut pm = find_runtime_pm(dev);
    let ghost a = texts(evidence@);
    let ghost b = texts(pm@);
    evidence.append(&mut pm);
    assert(texts(evidence@) =~= a + b);
    let name = dev.label();
    let n = number(resets.len() as u64);
    let title = fill2(RESET_TITLE, name.as_str(), n.as_str());
    let subject = Subject::Device(dev.sysfs_name.clone());
    if dev.autosuspend_churn() {
        let pct = match dev.suspend_ratio() {
            Some(r) => r.percent_text(),
            None => String::new(),
        };
        let delay: i64 = match dev.autosuspend_delay_ms {
            Some(d) => d,
            None => 0,
        };
        let d = integer(delay);
        return Some(
            finding(
                "DEVICE_RESET_STORM",
                Severity::Low,
                Confidence::Measured,
                subject,
                title,
                fill2(CHURN_DETAIL, pct.as_str(), d.as_str()),
                evidence,
                some_text(CHURN_ADVICE),
            ),
        );
    }
    if dev.is_internal() {
        return Some(
            finding(
                "DEVICE_RESET_STORM",
                Severity::Low,
                Confidence::Heuristic,
                subject,
                title,
                owned(RESET_INTERNAL),
                evidence,
                some_text(RESET_INTERNAL_ADVICE),
            ),
        );
    }
    let severity = if resets.len() >= RESET_ALARM {
        Severity::High
    } else {
        Severity::Medium
    };
    Some(
        finding(
            "DEVICE_RESET_STORM",
            severity,
            Confidence::Heuristic,
            subject,
            title,
            owned(RESET_DETAIL),
            evidence,
            some_text(RESET_ADVICE),
        ),
    )
}

/// One kind of fault the kernel reported against a device.
pub open spec fn logged_fault(
    dev: UsbDevice,
    hits: Seq<KernelEvent>,
    code: Seq<char>,
    title: Seq<char>,
    detail: Seq<char>,
) -> Option<Statement> {
    if hits.len() > 0 {
        Some(
            Statement {
                code,
                severity: Severity::High,
                confidence: Confidence::Measured,
                subject: About::Device(dev.sysfs_name@),
                title: filled(NAMED_TITLE@, seq![dev.sysfs_name@, title]),
                detail,
                evidence: newest_texts(hits, 3),
                suggestion: Some(REPLACE_ADVICE@),
            },
        )
    } else {
        None
    }
}

fn find_logged_fault(
    dev: &UsbDevice,
    events: &Vec<&KernelEvent>,
    kind: EventKind,
    code: &str,
    title: &str,
    detail: &str,
) -> (r: Option<Finding>)
    ensures
        stated_opt(r) == logged_fault(
            *dev,
            kept(pointees(events@), of_kind(kind)),
            code@,
            title@,
            detail@,
        ),
{
    let hits = pick_of(events, kind);
    assert(pointees(hits@).len() == hits@.len());
    if hits.len() == 0 {
        return None;
    }
    Some(
        finding(
            code,
            Severity::High,
            Confidence::Measured,
            Subject::Device(dev.sysfs_name.clone()),
            fill2(NAMED_TITLE, dev.sysfs_name.as_str(), title),
            owned(detail),
            newest(&hits, 3),
            some_text(REPLACE_ADVICE),
        ),
    )
}

/// What is said about a device's history. Only events since it attached count:
/// a path is a socket's address, and not who is in it.
pub open spec fn history_statements(dev: UsbDevice, events: Seq<KernelEvent>) -> Seq<Statement> {
    let s = noted(Seq::empty(), reset_storm(dev, kept(events, of_kind(EventKind::DeviceReset))));
    let s = noted(
        s,
        logged_fault(
            dev,
            kept(events, of_kind(EventKind::CableSuspect)),
            "KERNEL_BLAMED_CABLE"@,
            BLAMED_TITLE@,
            BLAMED_DETAIL@,
        ),
    );
    let s = noted(
        s,
        logged_fault(
            dev,
            kept(events, of_kind(EventKind::EnumerationFailure)),
            "ENUMERATION_FAILURE"@,
            ENUM_TITLE@,
            ENUM_DETAIL@,
        ),
    );
    noted(
        s,
        logged_fault(
            dev,
            kept(events, of_kind(EventKind::LinkTrainingFailure)),
            "LINK_TRAINING_FAILURE"@,
            TRAIN_TITLE@,
            TRAIN_DETAIL@,
        ),
    )
}

fn kernel_history_rules(snap: &Snapshot, dev: &UsbDevice) -> (r: Vec<Finding>)
    ensures
        stated(r@) == history_statements(*dev, snap.live_events(*dev)),
{
    let (events, _) = snap.events_since_attach(dev);
    let resets = pick_of(&events, EventKind::DeviceReset);
    let mut out = nothing();
    note(&mut out, find_reset_storm(dev, &resets));
    note(
        &mut out,
        find_logged_fault(
            dev,
            &events,
            EventKind::CableSuspect,
            "KERNEL_BLAMED_CABLE",
            BLAMED_TITLE,
            BLAMED_DETAIL,
        ),
    );
    note(
        &mut out,
        find_logged_fault(
            dev,
            &events,
            EventKind::EnumerationFailure,
            "ENUMERATION_FAILURE",
            ENUM_TITLE,
            ENUM_DETAIL,
        ),
    );
    note(
        &mut out,
        find_logged_fault(
            dev,
            &events,
            EventKind::LinkTrainingFailure,
            "LINK_TRAINING_FAILURE",
            TRAIN_TITLE,
            TRAIN_DETAIL,
        ),
    );
    out
}

/// Everything said about one device. A root hub is not behind a cable, so its
/// link is not judged.
pub open spec fn device_statements(snap: Snapshot) -> spec_fn(UsbDevice) -> Seq<Statement> {
    |dev: UsbDevice|
        if dev.is_root_hub {
            history_statements(dev, snap.live_events(dev))
        } else {
            noted(Seq::empty(), link_statement(snap, dev)) + history_statements(
                dev,
                snap.live_events(dev),
            )
        }
}

pub fn device_rules(snap: &Snapshot, dev: &UsbDevice) -> (r: Vec<Finding>)
    ensures
        stated(r@) == device_statements(*snap)(*dev),
{
    if dev.is_root_hub {
        return kernel_history_rules(snap, dev);
    }
    let mut out = nothing();
    note(&mut out, link_speed_rules(snap, dev));
    extend(&mut out, kernel_history_rules(snap, dev));
    out
}

// ---------------------------------------------------------------------------
// laws
// ---------------------------------------------------------------------------

/// An internal device is never told to swap a cable: its downshift is at most
/// Low and suggests nothing, and so is a reset storm at most Low.
pub proof fn internal_devices_are_not_blamed_on_cables(
    dev: UsbDevice,
    up: Option<UsbDevice>,
    resets: Seq<KernelEvent>,
)
    requires
        dev.internal(),
    ensures
        downshift(dev, up).severity == Severity::Low,
        downshift(dev, up).suggestion is None,
        reset_storm(dev, resets) matches Some(s) ==> s.severity == Severity::Low,
{
}

/// Measured power-management churn outranks every other explanation of a reset
/// storm, and is the only one that is called measured.
pub proof fn churn_explains_a_reset_storm(dev: UsbDevice, resets: Seq<KernelEvent>)
    ensures
        reset_storm(dev, resets) matches Some(s) ==> (dev.churns() <==> s.confidence
            == Confidence::Measured),
        reset_storm(dev, resets) matches Some(s) ==> (dev.churns() ==> s.severity == Severity::Low),
{
}

/// A device that does not claim SuperSpeed, or that linked at SuperSpeed, is
/// never called degraded.
pub proof fn only_a_downshift_is_reported_as_one(snap: Snapshot, dev: UsbDevice)
    requires
        !dev.says_superspeed() || !dev.linked_slow(),
    ensures
        link_statement(snap, dev) matches Some(s) ==> s.severity == Severity::Info && dev.identified().basis()
            == Some(DeviceKind::Storage),
{
}

/// A device that is storage only because a user said so is never reported as
/// measured, and the finding cites the declaration.
pub proof fn a_declared_kind_is_never_measured(dev: UsbDevice)
    requires
        dev.identified().source == KindSource::User,
    ensures
        single_lane(dev) matches Some(x) ==> x.confidence == Confidence::Inferred
            && x.evidence.last() == filled(
            KIND_CITED_LINE@,
            seq![DeviceKind::Storage.name(), dev.declared->0.citation()],
        ),
{
}

} // verus!
