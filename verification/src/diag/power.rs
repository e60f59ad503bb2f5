//! Rules about power that is lost: a battery that drains on mains, and a port
//! whose limiter fired.

use vstd::prelude::*;
use crate::diag::port::drawing;
use crate::diag::units::{watts, watts_text};
use crate::diag::{
    finding, lines1, lines2, note, nothing, one, or_text, some_text, stated, stated_opt, text_or,
};
use crate::model::{
    About, Battery, Confidence, Finding, HubPort, Severity, Snapshot, Statement, Subject,
    TypecPort, UsbDevice,
};
use crate::number::{dec, number, one_place};
use crate::seqs::{first_of, gathered, lemma_take_all, lemma_take_more, pointees};
use crate::snapshot::lemma_first_stays;
use crate::text::{fill1, fill2, fill3, filled, owned, push_text};

verus! {

pub const STATUS_LINE: &'static str = "{}: status={}, power_now={}";

pub const IN_WATTS: &'static str = "{} W";

pub const NOT_REPORTED: &'static str = "not reported";

pub const MAINS_LINE: &'static str = "a mains supply is online";

pub const CHARGE_LINE: &'static str = "charge {} Wh of {} Wh ({}%)";

pub const CONTRACT_LINE: &'static str = "{} contract: {}";

pub const SUPPLY_TITLE: &'static str = "Battery is not gaining despite {} from the attached supply";

pub const MAINS_TITLE: &'static str = "Battery is not gaining although mains power is present";

pub const DRAIN_DETAIL: &'static str =
    "The system is drawing at least as much as the supply provides, so the shortfall comes \
        out of the battery. Under sustained load the machine will run down even while plugged \
        in. The usual causes are a supply rated below what this machine can accept, a hub or \
        dock passing through only part of what it receives, or peripherals being powered from \
        the same budget. Note that a status of \"Charging\" with zero flow is not a \
        contradiction — it is what the driver reports when the contract covers the load \
        exactly and nothing is left over.";

pub const DRAIN_ADVICE: &'static str =
    "Use a supply closer to what this machine accepts, or connect the charger directly \
        rather than through a hub that reserves part of the budget.";

pub const OVER_TITLE: &'static str = "{} tripped over-current protection {} time(s)";

pub const OVER_DETAIL: &'static str =
    "This is a hardware counter, not an inference: the port's current limiter actually \
        fired. A shorted or crushed cable, a bent pin, or debris bridging VBUS to ground will \
        do it.";

pub const OVER_LINE: &'static str = "{}/over_current_count = {}";

pub const OVER_ADVICE: &'static str =
    "Inspect the cable and both connectors for damage before reusing them.";

// ---------------------------------------------------------------------------
// batteries
// ---------------------------------------------------------------------------

pub open spec fn feeding() -> spec_fn(TypecPort) -> bool {
    |p: TypecPort| p.sinking() && drawing(p)
}

/// The supply in use and the power its contract permits. Only the first port
/// that feeds the machine is looked at.
pub open spec fn supply(snap: Snapshot) -> Option<(Seq<char>, u32)> {
    match first_of(snap.ports@, feeding()) {
        Some(p) => match p.power_supply {
            Some(ps) => match ps.contract_mw() {
                Some(mw) => Some((p.name@, mw)),
                None => None,
            },
            None => None,
        },
        None => None,
    }
}

fn find_supply(snap: &Snapshot) -> (r: Option<(String, u32)>)
    ensures
        match r {
            Some((n, mw)) => supply(*snap) == Some((n@, mw)),
            None => supply(*snap) is None,
        },
{
    let mut i: usize = 0;
    while i < snap.ports.len()
        invariant
            i <= snap.ports.len(),
            first_of(snap.ports@.take(i as int), feeding()) is None,
        decreases snap.ports.len() - i,
    {
        proof {
            lemma_take_more(snap.ports@, i as int);
        }
        let p = &snap.ports[i];
        if let Some(ps) = &p.power_supply {
            if p.is_sinking() && ps.is_drawing_power() {
                proof {
                    lemma_first_stays(snap.ports@, i + 1, feeding());
                }
                return match ps.contract_power_mw() {
                    Some(mw) => Some((p.name.clone(), mw)),
                    None => None,
                };
            }
        }
        i += 1;
    }
    proof {
        lemma_take_all(snap.ports@);
    }
    None
}

pub open spec fn flow_words(b: Battery) -> Seq<char> {
    match b.power_now_w {
        Some(p) => filled(IN_WATTS@, seq![one_place(p.micros as nat, 100_000)]),
        None => NOT_REPORTED@,
    }
}

pub open spec fn pct_or_zero(v: Option<u32>) -> Seq<char> {
    match v {
        Some(n) => dec(n as nat),
        None => dec(0),
    }
}

pub open spec fn drain_evidence(b: Battery, s: Option<(Seq<char>, u32)>) -> Seq<Seq<char>> {
    let base = seq![
        filled(STATUS_LINE@, seq![b.name@, text_or(b.status, "?"@), flow_words(b)]),
        MAINS_LINE@,
    ];
    let charge = match (b.energy_now_wh, b.energy_full_wh) {
        (Some(now), Some(full)) => base.push(
            filled(
                CHARGE_LINE@,
                seq![
                    one_place(now.micros as nat, 100_000),
                    one_place(full.micros as nat, 100_000),
                    pct_or_zero(b.capacity_pct),
                ],
            ),
        ),
        _ => base,
    };
    match s {
        Some((port, mw)) => charge.push(filled(CONTRACT_LINE@, seq![port, watts_text(mw)])),
        None => charge,
    }
}

pub open spec fn drain_title(s: Option<(Seq<char>, u32)>) -> Seq<char> {
    match s {
        Some((port, mw)) => filled(SUPPLY_TITLE@, seq![watts_text(mw)]),
        None => MAINS_TITLE@,
    }
}

/// A battery that does not gain while mains power is present.
pub open spec fn draining(s: Option<(Seq<char>, u32)>) -> spec_fn(Battery) -> Seq<Statement> {
    |b: Battery|
        if b.losing(true) {
            seq![
                Statement {
                    code: "BATTERY_DRAINING_ON_AC"@,
                    severity: Severity::Medium,
                    confidence: Confidence::Measured,
                    subject: About::Host,
                    title: drain_title(s),
                    detail: DRAIN_DETAIL@,
                    evidence: drain_evidence(b, s),
                    suggestion: Some(DRAIN_ADVICE@),
                },
            ]
        } else {
            Seq::empty()
        }
}

pub open spec fn battery_statements(snap: Snapshot) -> Seq<Statement> {
    if snap.mains_online == Some(true) {
        gathered(snap.batteries@, draining(supply(snap)))
    } else {
        Seq::empty()
    }
}

fn find_draining(snap: &Snapshot, b: &Battery) -> (r: Option<Finding>)
    ensures
        one(stated_opt(r)) == draining(supply(*snap))(*b),
{
    if !b.not_keeping_up(true) {
        return None;
    }
    let contract = find_supply(snap);
    let flow = match b.power_now_w {
        Some(p) => {
            let w = p.one_place();
            fill1(IN_WATTS, w.as_str())
        },
        None => owned(NOT_REPORTED),
    };
    let mut evidence = lines2(
        fill3(STATUS_LINE, b.name.as_str(), or_text(&b.status, "?"), flow.as_str()),
        owned(MAINS_LINE),
    );
    if let (Some(now), Some(full)) = (b.energy_now_wh, b.energy_full_wh) {
        let x = now.one_place();
        let y = full.one_place();
        let pct = number(
            match b.capacity_pct {
                Some(n) => n as u64,
                None => 0,
            },
        );
        push_text(&mut evidence, fill3(CHARGE_LINE, x.as_str(), y.as_str(), pct.as_str()));
    }
    let title = match &contract {
        Some((port, mw)) => {
            let w = watts(*mw);
            push_text(&mut evidence, fill2(CONTRACT_LINE, port.as_str(), w.as_str()));
            fill1(SUPPLY_TITLE, w.as_str())
        },
        None => owned(MAINS_TITLE),
    };
    Some(
        finding(
            "BATTERY_DRAINING_ON_AC",
            Severity::Medium,
            Confidence::Measured,
            Subject::Host,
            title,
            owned(DRAIN_DETAIL),
            evidence,
            some_text(DRAIN_ADVICE),
        ),
    )
}

/// Is the attached supply keeping up? The contract says what is permitted, the
/// battery what is happening.
pub fn battery_rules(snap: &Snapshot) -> (r: Vec<Finding>)
    ensures
        stated(r@) == battery_statements(*snap),
{
    let mut out = nothing();
    let mains = match snap.mains_online {
        Some(m) => m,
        None => false,
    };
    if !mains {
        return out;
    }
    let ghost f = draining(supply(*snap));
    let mut i: usize = 0;
    while i < snap.batteries.len()
        invariant
            i <= snap.batteries.len(),
            f == draining(supply(*snap)),
            stated(out@) == gathered(snap.batteries@.take(i as int), f),
        decreases snap.batteries.len() - i,
    {
        proof {
            lemma_take_more(snap.batteries@, i as int);
        }
        note(&mut out, find_draining(snap, &snap.batteries[i]));
        i += 1;
    }
    proof {
        lemma_take_all(snap.batteries@);
    }
    out
}

// ---------------------------------------------------------------------------
// over-current
// ---------------------------------------------------------------------------

/// A port whose current limiter fired.
pub open spec fn tripped(hub: UsbDevice) -> spec_fn(HubPort) -> Seq<Statement> {
    |p: HubPort|
        match p.over_current_count {
            Some(n) => if n > 0 {
                seq![
                    Statement {
                        code: "PORT_OVER_CURRENT_COUNT"@,
                        severity: Severity::High,
                        confidence: Confidence::Measured,
                        subject: About::Device(hub.sysfs_name@),
                        title: filled(OVER_TITLE@, seq![p.name@, dec(n as nat)]),
                        detail: OVER_DETAIL@,
                        evidence: seq![filled(OVER_LINE@, seq![p.name@, dec(n as nat)])],
                        suggestion: Some(OVER_ADVICE@),
                    },
                ]
            } else {
                Seq::empty()
            },
            None => Seq::empty(),
        }
}

fn find_tripped(hub: &UsbDevice, p: &HubPort) -> (r: Option<Finding>)
    ensures
        one(stated_opt(r)) == tripped(*hub)(*p),
{
    match p.over_current_count {
        Some(n) => if n > 0 {
            let c = number(n as u64);
            Some(
                finding(
                    "PORT_OVER_CURRENT_COUNT",
                    Severity::High,
                    Confidence::Measured,
                    Subject::Device(hub.sysfs_name.clone()),
                    fill2(OVER_TITLE, p.name.as_str(), c.as_str()),
                    owned(OVER_DETAIL),
                    lines1(fill2(OVER_LINE, p.name.as_str(), c.as_str())),
                    some_text(OVER_ADVICE),
                ),
            )
        } else {
            None
        },
        None => None,
    }
}

pub open spec fn tripped_on() -> spec_fn(UsbDevice) -> Seq<Statement> {
    |d: UsbDevice| gathered(d.ports@, tripped(d))
}

pub fn hub_port_rules(snap: &Snapshot) -> (r: Vec<Finding>)
    ensures
        stated(r@) == gathered(snap.all(), tripped_on()),
{
    let devs = snap.devices();
    let ghost all = snap.all();
    let mut out = nothing();
    let mut i: usize = 0;
    while i < devs.len()
        invariant
            i <= devs.len(),
            all == pointees(devs@),
            stated(out@) == gathered(all.take(i as int), tripped_on()),
        decreases devs.len() - i,
    {
        proof {
            lemma_take_more(all, i as int);
        }
        let d = devs[i];
        let ghost sofar = stated(out@);
        let ghost f = tripped(*d);
        let mut k: usize = 0;
        assert(sofar + gathered(d.ports@.take(0), f) =~= sofar);
        while k < d.ports.len()
            invariant
                k <= d.ports.len(),
                f == tripped(*d),
                stated(out@) == sofar + gathered(d.ports@.take(k as int), f),
            decreases d.ports.len() - k,
        {
            proof {
                lemma_take_more(d.ports@, k as int);
            }
            note(&mut out, find_tripped(d, &d.ports[k]));
            assert(stated(out@) =~= sofar + gathered(d.ports@.take(k + 1), f));
            k += 1;
        }
        proof {
            lemma_take_all(d.ports@);
        }
        i += 1;
    }
    proof {
        lemma_take_all(all);
    }
    out
}

// ---------------------------------------------------------------------------
// laws
// ---------------------------------------------------------------------------

/// On battery alone, draining is what a battery does.
pub proof fn without_mains_nothing_drains_wrongly(snap: Snapshot)
    requires
        snap.mains_online != Some(true),
    ensures
        battery_statements(snap).len() == 0,
{
}

} // verus!
