//! Rules about a cable that identified itself.

use vstd::prelude::*;
use crate::diag::units::{amps_text, milliamps, volts, volts_text, watts, watts_text};
use crate::diag::{
    extend, finding, lines2, lines3, note, noted, nothing, one, or_text, some_text, stated,
    stated_opt, text_or,
};
use crate::model::{
    nonzero, About, Cable, Confidence, Finding, HubPort, Identity, Severity, Snapshot, Statement,
    Subject, TypecPort, UsbDevice, Vdo,
};
use crate::seqs::{gathered, lemma_take_all, lemma_take_more, no_refs, pointees, push_ref};
use crate::text::{fill1, fill3, filled, is_text, opt_text, owned};
use crate::vdo::{cable_speed, cable_speed_mbps};

verus! {

pub const CURRENT_TITLE: &'static str = "Cable is rated 3 A, which caps this link at 60 W";

pub const CURRENT_DETAIL: &'static str =
    "The cable's e-marker declares 3 A current handling. Anything above 60 W (20 V x 3 A) \
        requires a 5 A e-marked cable, so the higher PDOs cannot be used no matter what the \
        charger offers.";

pub const CURRENT_LINE: &'static str = "cable e-marker: {} rating";

pub const OFFER_LINE: &'static str = "source offers up to {}";

pub const OFFER_UNKNOWN: &'static str = "source capabilities unknown";

pub const CURRENT_ADVICE: &'static str = "Use a 5 A (100 W or 240 W) e-marked cable.";

pub const VOLTAGE_TITLE: &'static str = "Contract voltage {} exceeds the cable's {} rating";

pub const VOLTAGE_DETAIL: &'static str =
    "The negotiated voltage is above what the cable declares it can carry. This should not \
        happen and points at a mis-programmed e-marker or a counterfeit cable.";

pub const VOLTAGE_MAX_LINE: &'static str = "cable max VBUS: {}";

pub const VOLTAGE_NOW_LINE: &'static str = "voltage_now: {}";

pub const VOLTAGE_ADVICE: &'static str = "Stop using this cable for high-voltage charging.";

pub const DATA_TITLE: &'static str = "Cable is USB 2.0 only — SuperSpeed is impossible over it";

pub const DATA_DETAIL: &'static str =
    "The cable's e-marker declares USB 2.0 as its highest speed, so the port's SuperSpeed \
        capability cannot be used. This is normal for charge-focused cables and is the single \
        most common cause of 'my USB 3 drive is slow'.";

pub const DATA_SPEED_LINE: &'static str = "cable highest speed: {}";

pub const DATA_PORT_LINE: &'static str = "port usb_capability: {}";

pub const DATA_VDO_LINE: &'static str = "cable product_type_vdo1 = {}";

pub const DATA_ADVICE: &'static str = "Swap in a cable rated for USB 3.2 Gen 1 or better.";

pub const SLOW_TITLE: &'static str = "{} linked at {} although the cable is rated {}";

pub const SLOW_DETAIL: &'static str =
    "With the cable ruled out by its own e-marker, the limit is the device, the receptacle, \
        or a marginal connection that failed SuperSpeed training and fell back.";

pub const SLOW_VERSION_LINE: &'static str = "device version {}";

pub const SLOW_RATING_LINE: &'static str = "cable rating {}";

pub const SLOW_ADVICE: &'static str = "Re-seat the plug and check for connector debris.";

// ---------------------------------------------------------------------------
// the devices behind a port
// ---------------------------------------------------------------------------

/// The device in a hub port that firmware links to a Type-C port.
pub open spec fn behind(snap: Snapshot, name: Seq<char>) -> spec_fn(HubPort) -> Seq<UsbDevice> {
    |p: HubPort|
        if opt_text(p.connector) != Some(name) {
            Seq::empty()
        } else {
            match p.child {
                Some(c) => match snap.named(c@) {
                    Some(d) => seq![d],
                    None => Seq::empty(),
                },
                None => Seq::empty(),
            }
        }
}

/// The USB devices behind a Type-C port. Only the firmware's own link counts: a
/// wrong correlation would attach a finding to the wrong cable.
pub open spec fn devices_behind(snap: Snapshot, name: Seq<char>) -> Seq<UsbDevice> {
    gathered(snap.all_ports(), behind(snap, name))
}

pub fn devices_on_port<'a>(snap: &'a Snapshot, port: &TypecPort) -> (r: Vec<&'a UsbDevice>)
    ensures
        pointees(r@) == devices_behind(*snap, port.name@),
{
    let ports = snap.hub_ports();
    let ghost all = snap.all_ports();
    let ghost f = behind(*snap, port.name@);
    let mut out = no_refs();
    let mut i: usize = 0;
    while i < ports.len()
        invariant
            i <= ports.len(),
            all == pointees(ports@),
            f == behind(*snap, port.name@),
            pointees(out@) == gathered(all.take(i as int), f),
        decreases ports.len() - i,
    {
        proof {
            lemma_take_more(all, i as int);
        }
        let ghost sofar = pointees(out@);
        if is_text(&ports[i].connector, port.name.as_str()) {
            if let Some(c) = &ports[i].child {
                if let Some(d) = snap.device(c.as_str()) {
                    push_ref(&mut out, d);
                }
            }
        }
        assert(pointees(out@) =~= sofar + f(all[i as int]));
        i += 1;
    }
    proof {
        lemma_take_all(all);
    }
    out
}

// ---------------------------------------------------------------------------
// the rules
// ---------------------------------------------------------------------------

/// The contract's power, in mW.
pub open spec fn contract_of(port: TypecPort) -> Option<u32> {
    match port.power_supply {
        Some(c) => c.contract_mw(),
        None => None,
    }
}

/// More than an unmarked cable carries is on the table.
pub open spec fn needs_5a(port: TypecPort, offered: Option<u32>) -> bool {
    ||| offered matches Some(mw) && mw > 60_000
    ||| port.power_supply matches Some(c) && c.current_max_ma matches Some(ma) && ma > 3000
}

pub open spec fn offer_words(offered: Option<u32>) -> Seq<char> {
    match offered {
        Some(mw) => filled(OFFER_LINE@, seq![watts_text(mw)]),
        None => OFFER_UNKNOWN@,
    }
}

/// The cable is rated for less current than the supply would push.
pub open spec fn current_limit(port: TypecPort, id: Identity, offered: Option<u32>) -> Option<
    Statement,
> {
    match id.decoded.cable_current_ma {
        Some(rating) => if rating <= 3000 && needs_5a(port, offered) {
            Some(
                Statement {
                    code: "CABLE_CURRENT_LIMIT"@,
                    severity: Severity::Medium,
                    confidence: Confidence::Measured,
                    subject: About::Cable(port.name@),
                    title: CURRENT_TITLE@,
                    detail: CURRENT_DETAIL@,
                    evidence: seq![
                        filled(CURRENT_LINE@, seq![amps_text(rating)]),
                        offer_words(offered),
                    ],
                    suggestion: Some(CURRENT_ADVICE@),
                },
            )
        } else {
            None
        },
        None => None,
    }
}

fn find_current_limit(port: &TypecPort, id: &Identity, offered: Option<u32>) -> (r: Option<Finding>)
    ensures
        stated_opt(r) == current_limit(*port, *id, offered),
{
    let rating: u32 = match id.decoded.cable_current_ma {
        Some(ma) => ma,
        None => {
            return None;
        },
    };
    let by_offer = match offered {
        Some(mw) => mw > 60_000,
        None => false,
    };
    let by_contract = match &port.power_supply {
        Some(c) => match c.current_max_ma {
            Some(ma) => ma > 3000,
            None => false,
        },
        None => false,
    };
    if rating > 3000 || !(by_offer || by_contract) {
        return None;
    }
    let amps = milliamps(rating);
    let offer = match offered {
        Some(mw) => {
            let w = watts(mw);
            fill1(OFFER_LINE, w.as_str())
        },
        None => owned(OFFER_UNKNOWN),
    };
    Some(
        finding(
            "CABLE_CURRENT_LIMIT",
            Severity::Medium,
            Confidence::Measured,
            Subject::Cable(port.name.clone()),
            owned(CURRENT_TITLE),
            owned(CURRENT_DETAIL),
            lines2(fill1(CURRENT_LINE, amps.as_str()), offer),
            some_text(CURRENT_ADVICE),
        ),
    )
}

/// The voltage in effect.
pub open spec fn voltage_now(port: TypecPort) -> Option<u32> {
    match port.power_supply {
        Some(c) => nonzero(c.voltage_now_mv),
        None => None,
    }
}

/// The contract's voltage is above what the cable declares.
pub open spec fn voltage_exceeded(port: TypecPort, id: Identity) -> Option<Statement> {
    match (id.decoded.cable_max_voltage_mv, voltage_now(port)) {
        (Some(max), Some(now)) => if now > max {
            Some(
                Statement {
                    code: "CABLE_VOLTAGE_EXCEEDED"@,
                    severity: Severity::High,
                    confidence: Confidence::Measured,
                    subject: About::Cable(port.name@),
                    title: filled(VOLTAGE_TITLE@, seq![volts_text(now), volts_text(max)]),
                    detail: VOLTAGE_DETAIL@,
                    evidence: seq![
                        filled(VOLTAGE_MAX_LINE@, seq![volts_text(max)]),
                        filled(VOLTAGE_NOW_LINE@, seq![volts_text(now)]),
                    ],
                    suggestion: Some(VOLTAGE_ADVICE@),
                },
            )
        } else {
            None
        },
        _ => None,
    }
}

fn find_voltage_exceeded(port: &TypecPort, id: &Identity) -> (r: Option<Finding>)
    ensures
        stated_opt(r) == voltage_exceeded(*port, *id),
{
    let now: Option<u32> = match &port.power_supply {
        Some(c) => c.contract_voltage_mv(),
        None => None,
    };
    match (id.decoded.cable_max_voltage_mv, now) {
        (Some(max), Some(now)) => {
            if now <= max {
                return None;
            }
            let n = volts(now);
            let m = volts(max);
            Some(
                finding(
                    "CABLE_VOLTAGE_EXCEEDED",
                    Severity::High,
                    Confidence::Measured,
                    Subject::Cable(port.name.clone()),
                    crate::text::fill2(VOLTAGE_TITLE, n.as_str(), m.as_str()),
                    owned(VOLTAGE_DETAIL),
                    lines2(
                        fill1(VOLTAGE_MAX_LINE, m.as_str()),
                        fill1(VOLTAGE_NOW_LINE, n.as_str()),
                    ),
                    some_text(VOLTAGE_ADVICE),
                ),
            )
        },
        _ => None,
    }
}

pub open spec fn capability_words(port: TypecPort) -> Seq<char> {
    match port.usb_capability {
        Some(c) => c.raw@,
        None => "?"@,
    }
}

/// The cable is USB 2.0 only, on a port that could do more.
pub open spec fn data_limit(port: TypecPort, id: Identity, vdo1: Vdo) -> Option<Statement> {
    let rate = cable_speed(vdo1.raw).micros;
    if 0 < rate && rate <= 480_000_000 && port.usb3_capable() {
        Some(
            Statement {
                code: "CABLE_DATA_LIMIT"@,
                severity: Severity::High,
                confidence: Confidence::Measured,
                subject: About::Cable(port.name@),
                title: DATA_TITLE@,
                detail: DATA_DETAIL@,
                evidence: seq![
                    filled(DATA_SPEED_LINE@, seq![text_or(id.decoded.cable_max_speed, "?"@)]),
                    filled(DATA_PORT_LINE@, seq![capability_words(port)]),
                    filled(DATA_VDO_LINE@, seq![vdo1.hex.text()]),
                ],
                suggestion: Some(DATA_ADVICE@),
            },
        )
    } else {
        None
    }
}

fn find_data_limit(port: &TypecPort, id: &Identity, vdo1: &Vdo) -> (r: Option<Finding>)
    ensures
        stated_opt(r) == data_limit(*port, *id, *vdo1),
{
    let rate: u64 = cable_speed_mbps(vdo1.raw).micros;
    if !(0 < rate && rate <= 480_000_000) || !port.supports_usb3() {
        return None;
    }
    let cap = match &port.usb_capability {
        Some(c) => c.raw.as_str(),
        None => "?",
    };
    let hex = vdo1.hex.display();
    Some(
        finding(
            "CABLE_DATA_LIMIT",
            Severity::High,
            Confidence::Measured,
            Subject::Cable(port.name.clone()),
            owned(DATA_TITLE),
            owned(DATA_DETAIL),
            lines3(
                fill1(DATA_SPEED_LINE, or_text(&id.decoded.cable_max_speed, "?")),
                fill1(DATA_PORT_LINE, cap),
                fill1(DATA_VDO_LINE, hex.as_str()),
            ),
            some_text(DATA_ADVICE),
        ),
    )
}

/// A device behind a capable cable linked slow all the same.
pub open spec fn slow_despite_cable(id: Identity) -> spec_fn(UsbDevice) -> Seq<Statement> {
    |dev: UsbDevice|
        if dev.says_superspeed() && dev.linked_slow() {
            seq![
                Statement {
                    code: "LINK_SLOW_DESPITE_CAPABLE_CABLE"@,
                    severity: Severity::Medium,
                    confidence: Confidence::Inferred,
                    subject: About::Device(dev.sysfs_name@),
                    title: filled(
                        SLOW_TITLE@,
                        seq![
                            dev.sysfs_name@,
                            dev.rate_text(),
                            text_or(id.decoded.cable_max_speed, "faster"@),
                        ],
                    ),
                    detail: SLOW_DETAIL@,
                    evidence: seq![
                        filled(SLOW_VERSION_LINE@, seq![text_or(dev.usb_version, "?"@)]),
                        filled(SLOW_RATING_LINE@, seq![text_or(id.decoded.cable_max_speed, "?"@)]),
                    ],
                    suggestion: Some(SLOW_ADVICE@),
                },
            ]
        } else {
            Seq::empty()
        }
}

fn find_slow_despite_cable(id: &Identity, dev: &UsbDevice) -> (r: Option<Finding>)
    ensures
        one(stated_opt(r)) == slow_despite_cable(*id)(*dev),
{
    if !dev.claims_superspeed() || !dev.linked_below_superspeed() {
        return None;
    }
    let rate = dev.rate();
    Some(
        finding(
            "LINK_SLOW_DESPITE_CAPABLE_CABLE",
            Severity::Medium,
            Confidence::Inferred,
            Subject::Device(dev.sysfs_name.clone()),
            fill3(
                SLOW_TITLE,
                dev.sysfs_name.as_str(),
                rate.as_str(),
                or_text(&id.decoded.cable_max_speed, "faster"),
            ),
            owned(SLOW_DETAIL),
            lines2(
                fill1(SLOW_VERSION_LINE, or_text(&dev.usb_version, "?")),
                fill1(SLOW_RATING_LINE, or_text(&id.decoded.cable_max_speed, "?")),
            ),
            some_text(SLOW_ADVICE),
        ),
    )
}

/// What the cable's data rating gives rise to.
pub open spec fn data_statements(snap: Snapshot, port: TypecPort, id: Identity) -> Seq<Statement> {
    match id.product_type_vdo1 {
        Some(v) => if cable_speed(v.raw).micros > 480_000_000 {
            noted(Seq::empty(), data_limit(port, id, v)) + gathered(
                devices_behind(snap, port.name@),
                slow_despite_cable(id),
            )
        } else {
            noted(Seq::empty(), data_limit(port, id, v))
        },
        None => Seq::empty(),
    }
}

fn data_rules(snap: &Snapshot, port: &TypecPort, id: &Identity) -> (r: Vec<Finding>)
    ensures
        stated(r@) == data_statements(*snap, *port, *id),
{
    let mut out = nothing();
    if let Some(v) = &id.product_type_vdo1 {
        note(&mut out, find_data_limit(port, id, v));
        if cable_speed_mbps(v.raw).micros > 480_000_000 {
            let ghost head = stated(out@);
            let devs = devices_on_port(snap, port);
            let ghost all = pointees(devs@);
            let ghost f = slow_despite_cable(*id);
            let mut i: usize = 0;
            assert(head + gathered(all.take(0), f) =~= head);
            while i < devs.len()
                invariant
                    i <= devs.len(),
                    all == pointees(devs@),
                    f == slow_despite_cable(*id),
                    stated(out@) == head + gathered(all.take(i as int), f),
                decreases devs.len() - i,
            {
                proof {
                    lemma_take_more(all, i as int);
                }
                note(&mut out, find_slow_despite_cable(id, devs[i]));
                assert(stated(out@) =~= head + gathered(all.take(i + 1), f));
                i += 1;
            }
            proof {
                lemma_take_all(all);
            }
        }
    }
    out
}

/// Everything a cable's own identity gives rise to.
pub open spec fn cable_statements(
    snap: Snapshot,
    port: TypecPort,
    cable: Cable,
    offered: Option<u32>,
) -> Seq<Statement> {
    match cable.identity {
        None => Seq::empty(),
        Some(id) => {
            let s = noted(Seq::empty(), current_limit(port, id, offered));
            let s = noted(s, voltage_exceeded(port, id));
            s + data_statements(snap, port, id)
        },
    }
}

pub fn cable_rules(snap: &Snapshot, port: &TypecPort, cable: &Cable, offered: Option<u32>) -> (r: Vec<
    Finding,
>)
    ensures
        stated(r@) == cable_statements(*snap, *port, *cable, offered),
{
    let mut out = nothing();
    if let Some(id) = &cable.identity {
        note(&mut out, find_current_limit(port, id, offered));
        note(&mut out, find_voltage_exceeded(port, id));
        extend(&mut out, data_rules(snap, port, id));
    }
    out
}

} // verus!
