//! Rules about a Type-C port: what was offered, what was wanted, and what the
//! contract came to.

use vstd::prelude::*;
use crate::diag::cable::{cable_statements, cable_rules, contract_of, devices_behind, devices_on_port};
use crate::diag::units::{
    amps_text, best_pdo_desc, best_sink, best_source, cable_summary, cable_words, contract_desc,
    contract_words, milliamps, watts, watts_text,
};
use crate::diag::{
    extend, finding, lines1, lines2, lines3, lines4, note, noted, nothing, one, or_text, some_text,
    stated, stated_opt, text_or,
};
use crate::model::{
    most_power, nonzero, About, AltMode, Confidence, Finding, Partner, Severity, Snapshot,
    Statement, Subject, TypecPort, UsbDevice,
};
use crate::seqs::{gathered, lemma_take_all, lemma_take_more, pointees};
use crate::text::{fill1, fill2, filled, owned};

verus! {

/// The part of an offered or wanted power below which the gap is worth
/// reporting, in percent.
pub const POWER_GAP_PCT: u32 = 80;

/// Contract current from which a 5 A rating is beyond doubt. A contract just
/// over 3 A may as well go over a captive cable, which has no e-marker.
pub const CLEARLY_5A_MA: u32 = 4500;

/// The standard id of DisplayPort Alternate Mode.
pub const SVID_DISPLAYPORT: u16 = 0xff01;

pub const UNDER_TITLE: &'static str =
    "Drawing at most {} from this port, but this machine can accept {}";

pub const UNDER_DETAIL: &'static str =
    "There is no PD contract, so the link is limited to 5 V at the Type-C current \
        advertisement. Two causes are indistinguishable from here: the supply genuinely is not \
        a PD source, or the cable is charge-only or has a failed CC line — which passes 5 V \
        perfectly while making PD negotiation impossible, so a good PD charger then reports \
        itself as a non-PD device. Note that without a contract the supply advertises no \
        capabilities at all, which is why nothing about its real rating can be read here.";

pub const UNDER_MODE: &'static str = "power_operation_mode = {} ({} ceiling)";

pub const NO_PD_LINE: &'static str = "partner supports_usb_power_delivery = no";

pub const BEST_SINK: &'static str = "best local sink PDO: {}";

pub const NO_OFFERS: &'static str = "partner advertises no source capabilities";

pub const UNDER_ADVICE: &'static str =
    "Reseat both ends, then try a known-good USB-C cable. If PD comes back, the cable was \
        the problem.";

pub const NO_PD_DEVICE_TITLE: &'static str =
    "Attached device does not support Power Delivery — 5 V only";

pub const NO_PD_DEVICE_DETAIL: &'static str =
    "The device negotiated power the old way, through the Type-C CC resistor advertisement, \
        so it is limited to 5 V at whatever current this port advertises. Normal for watch \
        chargers, small accessories and most captive-cable devices; higher voltages would \
        require the device to implement PD.";

pub const NO_PD_CHARGER_TITLE: &'static str =
    "Attached charger does not support Power Delivery — 5 V only";

pub const NO_PD_CHARGER_DETAIL: &'static str =
    "This supply offers no PD contract, so the machine can only draw 5 V from it at the \
        advertised Type-C current. Fast charging needs a PD source.";

pub const NO_PD_MODE: &'static str = "power_operation_mode = {} ({})";

pub const TO_DEVICE: &'static str = "advertised to the device";

pub const TO_MACHINE: &'static str = "advertised to this machine";

pub const NO_CONTRACT_TITLE: &'static str =
    "Attached device speaks Power Delivery, but no PD contract is in effect";

pub const NO_CONTRACT_DETAIL: &'static str =
    "Without a contract the link falls back to Type-C current advertisement (5 V at 0.5-3 \
        A). If this is a charger, it is charging at a small fraction of its rating.";

pub const MODE_LINE: &'static str = "power_operation_mode = {}";

pub const PD_LINE: &'static str = "partner supports_usb_power_delivery = yes";

pub const NO_CONTRACT_ADVICE: &'static str =
    "Re-seat the connector, then try a different cable — a cable with a damaged CC line \
        prevents PD negotiation while still passing 5 V.";

pub const SMALL_TITLE: &'static str = "Charger offers {} but this machine can accept {}";

pub const SMALL_DRAINING: &'static str =
    "The supply is smaller than this port can accept, and the battery is measurably failing \
        to gain as a result — so this is not merely a slower charge, the machine is running \
        down while plugged in.";

pub const SMALL_HARMLESS: &'static str =
    "Not a fault — the supply is simply smaller than the port's maximum. Expect slower \
        charging, and possible battery drain under heavy load.";

pub const BEST_SOURCE: &'static str = "best source PDO: {}";

pub const SHORT_TITLE: &'static str = "Negotiated only {} from a supply offering {}";

pub const SHORT_DETAIL: &'static str =
    "The source advertised more power than the contract actually took. The usual causes are \
        a cable rated below the required current, a cable without an e-marker (which caps the \
        link at 3 A), or a host policy limit.";

pub const SHORT_CONTRACT: &'static str = "contract: {}";

pub const SHORT_ADVICE: &'static str =
    "Test with a known 5 A e-marked cable; if the contract jumps, the cable was the limit.";

pub const CLEAR_5A_TITLE: &'static str =
    "Cable is 5 A rated — the {} contract leaves no alternative, though the controller does \
        not report the e-marker";

pub const CLEAR_5A_DETAIL: &'static str =
    "The only VBUS current ratings a cable can declare are 3 A and 5 A, and this contract \
        exceeds 3 A by a wide margin, so the cable is 5 A capable. This platform's port \
        controller simply does not pass SOP' cable data up to the kernel, which is why no \
        cable node exists in sysfs.";

pub const ABOVE_3A_TITLE: &'static str = "Cable is carrying {}, above the 3 A unmarked-cable limit";

pub const ABOVE_3A_DETAIL: &'static str =
    "Power Delivery permits a source to advertise more than 3 A only after it has read a 5 \
        A rating from the cable's e-marker, or when the cable is captive to the charger and \
        needs no e-marker of its own. This controller does not report SOP' data, so which of \
        the two applies cannot be determined — but either way the cable is adequate for the \
        contract in effect.";

pub const ABOVE_3A_LINE: &'static str = "contract current {} (> 3 A unmarked limit)";

pub const NO_CABLE_NODE: &'static str = "{}-cable does not exist in sysfs";

pub const ABOVE_3A_ADVICE: &'static str =
    "Nothing to do. Cable capability cannot be read on this platform, but this cable is \
        carrying the active contract without trouble.";

pub const UNMARKED_TITLE: &'static str =
    "No cable identity available — cable capability cannot be read";

pub const UNMARKED_DETAIL: &'static str =
    "The kernel exposes no e-marker for this cable. Either the cable has no e-marker chip \
        (normal for USB 2.0 and 60 W cables), or the port controller does not report SOP' \
        data. An unmarked cable is limited to 3 A and, in practice, often to USB 2.0 data \
        rates.";

pub const UNMARKED_ADVICE: &'static str =
    "Nothing to fix by itself. To rule the cable out, swap in a known-good 5 A e-marked \
        cable and compare.";

pub const DP_IDLE_TITLE: &'static str =
    "Attached device advertises DisplayPort Alt Mode, but it is not active";

pub const DP_IDLE_DETAIL: &'static str =
    "DisplayPort over USB-C needs the cable to carry the SuperSpeed pairs. A USB 2.0-only \
        or charge-only cable leaves the mode advertised but unusable.";

pub const DP_IDLE_LINE: &'static str = "{}: svid=ff01 active=no vdo={}";

pub const DP_IDLE_ADVICE: &'static str = "Use a full-featured USB-C cable rated for video.";

// ---------------------------------------------------------------------------
// what was offered and wanted
// ---------------------------------------------------------------------------

/// The most the attached device offers, in mW.
pub open spec fn offered(partner: Partner) -> Option<u32> {
    match partner.pd {
        Some(pd) => most_power(pd.source_capabilities@),
        None => None,
    }
}

fn offered_mw(partner: &Partner) -> (r: Option<u32>)
    ensures
        r == offered(*partner),
{
    match &partner.pd {
        Some(pd) => pd.max_source_power_mw(),
        None => None,
    }
}

/// The most this machine asks for on the port, in mW.
pub open spec fn wanted(port: TypecPort) -> Option<u32> {
    match port.local_pd {
        Some(pd) => most_power(pd.sink_capabilities@),
        None => None,
    }
}

fn wanted_mw(port: &TypecPort) -> (r: Option<u32>)
    ensures
        r == wanted(*port),
{
    match &port.local_pd {
        Some(pd) => pd.max_sink_power_mw(),
        None => None,
    }
}

/// Whether `got` is less than the reporting part of `possible`.
pub open spec fn well_below(got: u32, possible: u32) -> bool {
    got * 100 < possible * POWER_GAP_PCT
}

fn is_well_below(got: u32, possible: u32) -> (r: bool)
    ensures
        r == well_below(got, possible),
{
    let pct: u64 = POWER_GAP_PCT as u64;
    assert(possible * pct <= 0xffff_ffff * 80) by (nonlinear_arith)
        requires
            pct == 80,
            possible <= 0xffff_ffff,
    ;
    got as u64 * 100 < possible as u64 * pct
}

/// Sinking less than half of what this machine could take, with no PD. Where
/// the partner claims PD the missing contract is the finding instead.
pub open spec fn underpowered(port: TypecPort, partner: Partner) -> bool {
    &&& port.sinking()
    &&& !port.contracted()
    &&& !partner.pd_capable()
    &&& wanted(port) matches Some(w) && port.advertised_mw() matches Some(c) && w > c * 2
}

fn is_underpowered(port: &TypecPort, partner: &Partner) -> (r: bool)
    ensures
        r == underpowered(*port, *partner),
{
    if !port.is_sinking() || port.pd_contract_active() || partner.speaks_pd() {
        return false;
    }
    match (wanted_mw(port), port.typec_advertised_ceiling_mw()) {
        (Some(w), Some(c)) => w as u64 > c as u64 * 2,
        _ => false,
    }
}

// ---------------------------------------------------------------------------
// power
// ---------------------------------------------------------------------------

pub open spec fn sink_underpowered(port: TypecPort, partner: Partner) -> Option<Statement> {
    if underpowered(port, partner) {
        let want = watts_text(wanted(port)->0);
        let ceil = watts_text(port.advertised_mw()->0);
        Some(
            Statement {
                code: "SINK_UNDERPOWERED_NO_PD"@,
                severity: Severity::Medium,
                confidence: Confidence::Measured,
                subject: About::Port(port.name@),
                title: filled(UNDER_TITLE@, seq![ceil, want]),
                detail: UNDER_DETAIL@,
                evidence: seq![
                    filled(UNDER_MODE@, seq![text_or(port.power_operation_mode, "?"@), ceil]),
                    NO_PD_LINE@,
                    filled(BEST_SINK@, seq![best_sink(port.local_pd)]),
                    NO_OFFERS@,
                ],
                suggestion: Some(UNDER_ADVICE@),
            },
        )
    } else {
        None
    }
}

fn find_underpowered(port: &TypecPort, partner: &Partner) -> (r: Option<Finding>)
    ensures
        stated_opt(r) == sink_underpowered(*port, *partner),
{
    if !is_underpowered(port, partner) {
        return None;
    }
    let (w, c) = match (wanted_mw(port), port.typec_advertised_ceiling_mw()) {
        (Some(w), Some(c)) => (w, c),
        _ => {
            return None;
        },
    };
    let want = watts(w);
    let ceil = watts(c);
    let best = best_pdo_desc(&port.local_pd, false);
    Some(
        finding(
            "SINK_UNDERPOWERED_NO_PD",
            Severity::Medium,
            Confidence::Measured,
            Subject::Port(port.name.clone()),
            fill2(UNDER_TITLE, ceil.as_str(), want.as_str()),
            owned(UNDER_DETAIL),
            lines4(
                fill2(UNDER_MODE, or_text(&port.power_operation_mode, "?"), ceil.as_str()),
                owned(NO_PD_LINE),
                fill1(BEST_SINK, best.as_str()),
                owned(NO_OFFERS),
            ),
            some_text(UNDER_ADVICE),
        ),
    )
}

/// Which way the Type-C current is advertised.
pub open spec fn direction(port: TypecPort) -> Seq<char> {
    if port.sourcing() {
        TO_DEVICE@
    } else {
        TO_MACHINE@
    }
}

/// The attached device does not speak PD at all. Never said where the machine
/// is underpowered by it: the two describe one electrical state.
pub open spec fn partner_no_pd(port: TypecPort, partner: Partner) -> Option<Statement> {
    if partner.supports_pd == Some(false) && !underpowered(port, partner) {
        Some(
            Statement {
                code: "PARTNER_NO_PD"@,
                severity: Severity::Info,
                confidence: Confidence::Measured,
                subject: About::Port(port.name@),
                title: if port.sourcing() {
                    NO_PD_DEVICE_TITLE@
                } else {
                    NO_PD_CHARGER_TITLE@
                },
                detail: if port.sourcing() {
                    NO_PD_DEVICE_DETAIL@
                } else {
                    NO_PD_CHARGER_DETAIL@
                },
                evidence: seq![
                    NO_PD_LINE@,
                    filled(
                        NO_PD_MODE@,
                        seq![text_or(port.power_operation_mode, "?"@), direction(port)],
                    ),
                ],
                suggestion: None,
            },
        )
    } else {
        None
    }
}

fn find_partner_no_pd(port: &TypecPort, partner: &Partner) -> (r: Option<Finding>)
    ensures
        stated_opt(r) == partner_no_pd(*port, *partner),
{
    let silent = match partner.supports_pd {
        Some(b) => !b,
        None => false,
    };
    if !silent || is_underpowered(port, partner) {
        return None;
    }
    let out = port.is_sourcing();
    let mode = or_text(&port.power_operation_mode, "?");
    let way = if out {
        TO_DEVICE
    } else {
        TO_MACHINE
    };
    Some(
        finding(
            "PARTNER_NO_PD",
            Severity::Info,
            Confidence::Measured,
            Subject::Port(port.name.clone()),
            owned(
                if out {
                    NO_PD_DEVICE_TITLE
                } else {
                    NO_PD_CHARGER_TITLE
                },
            ),
            owned(
                if out {
                    NO_PD_DEVICE_DETAIL
                } else {
                    NO_PD_CHARGER_DETAIL
                },
            ),
            lines2(owned(NO_PD_LINE), fill2(NO_PD_MODE, mode, way)),
            None,
        ),
    )
}

/// The attached device speaks PD, and there is no contract.
pub open spec fn pd_no_contract(port: TypecPort, partner: Partner) -> Option<Statement> {
    if partner.pd_capable() && !port.contracted() {
        Some(
            Statement {
                code: "PD_NO_CONTRACT"@,
                severity: Severity::Medium,
                confidence: Confidence::Inferred,
                subject: About::Port(port.name@),
                title: NO_CONTRACT_TITLE@,
                detail: NO_CONTRACT_DETAIL@,
                evidence: seq![
                    filled(MODE_LINE@, seq![text_or(port.power_operation_mode, "?"@)]),
                    PD_LINE@,
                ],
                suggestion: Some(NO_CONTRACT_ADVICE@),
            },
        )
    } else {
        None
    }
}

fn find_pd_no_contract(port: &TypecPort, partner: &Partner) -> (r: Option<Finding>)
    ensures
        stated_opt(r) == pd_no_contract(*port, *partner),
{
    if !partner.speaks_pd() || port.pd_contract_active() {
        return None;
    }
    Some(
        finding(
            "PD_NO_CONTRACT",
            Severity::Medium,
            Confidence::Inferred,
            Subject::Port(port.name.clone()),
            owned(NO_CONTRACT_TITLE),
            owned(NO_CONTRACT_DETAIL),
            lines2(
                fill1(MODE_LINE, or_text(&port.power_operation_mode, "?")),
                owned(PD_LINE),
            ),
            some_text(NO_CONTRACT_ADVICE),
        ),
    )
}

/// Some battery is not keeping up.
pub open spec fn draining(snap: Snapshot) -> bool {
    exists|i: int|
        0 <= i < snap.batteries.len() && (#[trigger] snap.batteries[i]).losing(
            snap.mains_online == Some(true),
        )
}

fn is_draining(snap: &Snapshot) -> (r: bool)
    ensures
        r == draining(*snap),
{
    let mains = match snap.mains_online {
        Some(b) => b,
        None => false,
    };
    let mut i: usize = 0;
    while i < snap.batteries.len()
        invariant
            i <= snap.batteries.len(),
            mains == (snap.mains_online == Some(true)),
            forall|k: int| 0 <= k < i ==> !(#[trigger] snap.batteries[k]).losing(mains),
        decreases snap.batteries.len() - i,
    {
        if snap.batteries[i].not_keeping_up(mains) {
            return true;
        }
        i += 1;
    }
    false
}

/// The charger is weaker than the machine wants. It matters more where the
/// battery proves it.
pub open spec fn source_below_sink(snap: Snapshot, port: TypecPort, partner: Partner) -> Option<
    Statement,
> {
    match (offered(partner), wanted(port)) {
        (Some(o), Some(w)) => if port.sinking() && well_below(o, w) {
            Some(
                Statement {
                    code: "PD_SOURCE_BELOW_SINK_CAPABILITY"@,
                    severity: if draining(snap) {
                        Severity::Medium
                    } else {
                        Severity::Low
                    },
                    confidence: Confidence::Measured,
                    subject: About::Port(port.name@),
                    title: filled(SMALL_TITLE@, seq![watts_text(o), watts_text(w)]),
                    detail: if draining(snap) {
                        SMALL_DRAINING@
                    } else {
                        SMALL_HARMLESS@
                    },
                    evidence: seq![
                        filled(BEST_SOURCE@, seq![best_source(partner.pd)]),
                        filled(BEST_SINK@, seq![best_sink(port.local_pd)]),
                    ],
                    suggestion: None,
                },
            )
        } else {
            None
        },
        _ => None,
    }
}

fn find_source_below_sink(snap: &Snapshot, port: &TypecPort, partner: &Partner) -> (r: Option<
    Finding,
>)
    ensures
        stated_opt(r) == source_below_sink(*snap, *port, *partner),
{
    match (offered_mw(partner), wanted_mw(port)) {
        (Some(o), Some(w)) => {
            if !port.is_sinking() || !is_well_below(o, w) {
                return None;
            }
            let losing = is_draining(snap);
            let a = watts(o);
            let b = watts(w);
            let src = best_pdo_desc(&partner.pd, true);
            let snk = best_pdo_desc(&port.local_pd, false);
            Some(
                finding(
                    "PD_SOURCE_BELOW_SINK_CAPABILITY",
                    if losing {
                        Severity::Medium
                    } else {
                        Severity::Low
                    },
                    Confidence::Measured,
                    Subject::Port(port.name.clone()),
                    fill2(SMALL_TITLE, a.as_str(), b.as_str()),
                    owned(
                        if losing {
                            SMALL_DRAINING
                        } else {
                            SMALL_HARMLESS
                        },
                    ),
                    lines2(fill1(BEST_SOURCE, src.as_str()), fill1(BEST_SINK, snk.as_str())),
                    None,
                ),
            )
        },
        _ => None,
    }
}

/// The contract took far less than was offered.
pub open spec fn contract_below_offer(port: TypecPort, partner: Partner) -> Option<Statement> {
    match (offered(partner), contract_of(port)) {
        (Some(o), Some(got)) => if port.sinking() && well_below(got, o) {
            Some(
                Statement {
                    code: "PD_CONTRACT_BELOW_OFFER"@,
                    severity: Severity::Medium,
                    confidence: Confidence::Measured,
                    subject: About::Port(port.name@),
                    title: filled(SHORT_TITLE@, seq![watts_text(got), watts_text(o)]),
                    detail: SHORT_DETAIL@,
                    evidence: seq![
                        filled(SHORT_CONTRACT@, seq![contract_words(port.power_supply)]),
                        filled(BEST_SOURCE@, seq![best_source(partner.pd)]),
                        cable_words(port),
                    ],
                    suggestion: Some(SHORT_ADVICE@),
                },
            )
        } else {
            None
        },
        _ => None,
    }
}

fn find_contract_below_offer(port: &TypecPort, partner: &Partner) -> (r: Option<Finding>)
    ensures
        stated_opt(r) == contract_below_offer(*port, *partner),
{
    let contract: Option<u32> = match &port.power_supply {
        Some(c) => c.contract_power_mw(),
        None => None,
    };
    match (offered_mw(partner), contract) {
        (Some(o), Some(got)) => {
            if !port.is_sinking() || !is_well_below(got, o) {
                return None;
            }
            let a = watts(got);
            let b = watts(o);
            let words = contract_desc(&port.power_supply);
            let src = best_pdo_desc(&partner.pd, true);
            Some(
                finding(
                    "PD_CONTRACT_BELOW_OFFER",
                    Severity::Medium,
                    Confidence::Measured,
                    Subject::Port(port.name.clone()),
                    fill2(SHORT_TITLE, a.as_str(), b.as_str()),
                    owned(SHORT_DETAIL),
                    lines3(
                        fill1(SHORT_CONTRACT, words.as_str()),
                        fill1(BEST_SOURCE, src.as_str()),
                        cable_summary(port),
                    ),
                    some_text(SHORT_ADVICE),
                ),
            )
        },
        _ => None,
    }
}

// ---------------------------------------------------------------------------
// a cable that did not identify itself
// ---------------------------------------------------------------------------

/// The contract current, where it is above the 3 A of an unmarked cable.
pub open spec fn current_above_3a(port: TypecPort) -> Option<u32> {
    match port.power_supply {
        Some(c) => if c.above_3a() {
            nonzero(c.current_now_ma)
        } else {
            None
        },
        None => None,
    }
}

fn above_3a(port: &TypecPort) -> (r: Option<u32>)
    ensures
        r == current_above_3a(*port),
{
    match &port.power_supply {
        Some(c) => if c.contract_requires_5a_cable() {
            c.contract_current_ma()
        } else {
            None
        },
        None => None,
    }
}

/// A contract above 3 A shows that the cable is good for it, though the
/// controller reported no e-marker.
pub open spec fn emarker_not_reported(port: TypecPort, ma: u32) -> Statement {
    Statement {
        code: "CABLE_EMARKER_NOT_REPORTED"@,
        severity: Severity::Info,
        confidence: Confidence::Inferred,
        subject: About::Cable(port.name@),
        title: if ma >= CLEARLY_5A_MA {
            filled(CLEAR_5A_TITLE@, seq![amps_text(ma)])
        } else {
            filled(ABOVE_3A_TITLE@, seq![amps_text(ma)])
        },
        detail: if ma >= CLEARLY_5A_MA {
            CLEAR_5A_DETAIL@
        } else {
            ABOVE_3A_DETAIL@
        },
        evidence: seq![
            filled(ABOVE_3A_LINE@, seq![amps_text(ma)]),
            filled(NO_CABLE_NODE@, seq![port.name@]),
        ],
        suggestion: Some(ABOVE_3A_ADVICE@),
    }
}

fn find_emarker_not_reported(port: &TypecPort, ma: u32) -> (r: Finding)
    ensures
        r@ == emarker_not_reported(*port, ma),
{
    let amps = milliamps(ma);
    let clear = ma >= CLEARLY_5A_MA;
    finding(
        "CABLE_EMARKER_NOT_REPORTED",
        Severity::Info,
        Confidence::Inferred,
        Subject::Cable(port.name.clone()),
        fill1(
            if clear {
                CLEAR_5A_TITLE
            } else {
                ABOVE_3A_TITLE
            },
            amps.as_str(),
        ),
        owned(
            if clear {
                CLEAR_5A_DETAIL
            } else {
                ABOVE_3A_DETAIL
            },
        ),
        lines2(fill1(ABOVE_3A_LINE, amps.as_str()), fill1(NO_CABLE_NODE, port.name.as_str())),
        some_text(ABOVE_3A_ADVICE),
    )
}

pub open spec fn not_emarked(port: TypecPort) -> Statement {
    Statement {
        code: "CABLE_NOT_EMARKED"@,
        severity: Severity::Info,
        confidence: Confidence::Heuristic,
        subject: About::Cable(port.name@),
        title: UNMARKED_TITLE@,
        detail: UNMARKED_DETAIL@,
        evidence: seq![filled(NO_CABLE_NODE@, seq![port.name@])],
        suggestion: Some(UNMARKED_ADVICE@),
    }
}

fn find_not_emarked(port: &TypecPort) -> (r: Finding)
    ensures
        r@ == not_emarked(*port),
{
    finding(
        "CABLE_NOT_EMARKED",
        Severity::Info,
        Confidence::Heuristic,
        Subject::Cable(port.name.clone()),
        owned(UNMARKED_TITLE),
        owned(UNMARKED_DETAIL),
        lines1(fill1(NO_CABLE_NODE, port.name.as_str())),
        some_text(UNMARKED_ADVICE),
    )
}

/// Power is arriving through the port.
pub open spec fn drawing(port: TypecPort) -> bool {
    port.power_supply matches Some(ps) && ps.online == Some(true) && nonzero(
        ps.voltage_now_mv,
    ) is Some
}

pub open spec fn some_superspeed(s: Seq<UsbDevice>) -> bool {
    exists|i: int| 0 <= i < s.len() && (#[trigger] s[i]).says_superspeed()
}

/// A cable's rating could limit something here: the partner speaks PD, the
/// machine draws power, or a SuperSpeed device sits behind the port.
pub open spec fn rating_matters(snap: Snapshot, port: TypecPort, partner: Partner) -> bool {
    partner.pd_capable() || drawing(port) || some_superspeed(devices_behind(snap, port.name@))
}

pub fn cable_rating_could_matter(snap: &Snapshot, port: &TypecPort, partner: &Partner) -> (r: bool)
    ensures
        r == rating_matters(*snap, *port, *partner),
{
    if partner.speaks_pd() {
        return true;
    }
    if let Some(ps) = &port.power_supply {
        if ps.is_drawing_power() {
            return true;
        }
    }
    let devs = devices_on_port(snap, port);
    let ghost all = pointees(devs@);
    let mut i: usize = 0;
    while i < devs.len()
        invariant
            i <= devs.len(),
            all == pointees(devs@),
            all == devices_behind(*snap, port.name@),
            forall|k: int| 0 <= k < i ==> !(#[trigger] all[k]).says_superspeed(),
        decreases devs.len() - i,
    {
        assert(all[i as int] == *devs@[i as int]);
        if devs[i].claims_superspeed() {
            return true;
        }
        i += 1;
    }
    false
}

/// What is said about the cable: what its e-marker tells, or what its silence
/// allows.
pub open spec fn cable_part(snap: Snapshot, port: TypecPort, partner: Partner) -> Seq<Statement> {
    match port.cable {
        Some(cable) => cable_statements(snap, port, cable, offered(partner)),
        None => match current_above_3a(port) {
            Some(ma) => seq![emarker_not_reported(port, ma)],
            None => if rating_matters(snap, port, partner) {
                seq![not_emarked(port)]
            } else {
                Seq::empty()
            },
        },
    }
}

fn find_cable_part(snap: &Snapshot, port: &TypecPort, partner: &Partner) -> (r: Vec<Finding>)
    ensures
        stated(r@) == cable_part(*snap, *port, *partner),
{
    match &port.cable {
        Some(cable) => cable_rules(snap, port, cable, offered_mw(partner)),
        None => {
            let mut out = nothing();
            match above_3a(port) {
                Some(ma) => {
                    note(&mut out, Some(find_emarker_not_reported(port, ma)));
                },
                None => {
                    if cable_rating_could_matter(snap, port, partner) {
                        note(&mut out, Some(find_not_emarked(port)));
                    }
                },
            }
            assert(stated(out@) =~= cable_part(*snap, *port, *partner));
            out
        },
    }
}

// ---------------------------------------------------------------------------
// alternate modes
// ---------------------------------------------------------------------------

pub open spec fn vdo_words(am: AltMode) -> Seq<char> {
    match am.vdo {
        Some(v) => v.hex.text(),
        None => "?"@,
    }
}

/// DisplayPort is advertised and not active.
pub open spec fn dp_not_active(port: TypecPort) -> spec_fn(AltMode) -> Seq<Statement> {
    |am: AltMode|
        if am.svid == Some(SVID_DISPLAYPORT) && am.active == Some(false) {
            seq![
                Statement {
                    code: "DP_ALTMODE_NOT_ACTIVE"@,
                    severity: Severity::Low,
                    confidence: Confidence::Measured,
                    subject: About::Port(port.name@),
                    title: DP_IDLE_TITLE@,
                    detail: DP_IDLE_DETAIL@,
                    evidence: seq![filled(DP_IDLE_LINE@, seq![am.sysfs_name@, vdo_words(am)])],
                    suggestion: Some(DP_IDLE_ADVICE@),
                },
            ]
        } else {
            Seq::empty()
        }
}

fn find_dp_not_active(port: &TypecPort, am: &AltMode) -> (r: Option<Finding>)
    ensures
        one(stated_opt(r)) == dp_not_active(*port)(*am),
{
    let mine = match (am.svid, am.active) {
        (Some(s), Some(a)) => s == SVID_DISPLAYPORT && !a,
        _ => false,
    };
    if !mine {
        return None;
    }
    let v = match am.vdo {
        Some(v) => v.hex.display(),
        None => owned("?"),
    };
    Some(
        finding(
            "DP_ALTMODE_NOT_ACTIVE",
            Severity::Low,
            Confidence::Measured,
            Subject::Port(port.name.clone()),
            owned(DP_IDLE_TITLE),
            owned(DP_IDLE_DETAIL),
            lines1(fill2(DP_IDLE_LINE, am.sysfs_name.as_str(), v.as_str())),
            some_text(DP_IDLE_ADVICE),
        ),
    )
}

fn alt_mode_rules(port: &TypecPort, partner: &Partner) -> (r: Vec<Finding>)
    ensures
        stated(r@) == gathered(partner.alt_modes@, dp_not_active(*port)),
{
    let mut out = nothing();
    let mut i: usize = 0;
    while i < partner.alt_modes.len()
        invariant
            i <= partner.alt_modes.len(),
            stated(out@) == gathered(partner.alt_modes@.take(i as int), dp_not_active(*port)),
        decreases partner.alt_modes.len() - i,
    {
        proof {
            lemma_take_more(partner.alt_modes@, i as int);
        }
        note(&mut out, find_dp_not_active(port, &partner.alt_modes[i]));
        i += 1;
    }
    proof {
        lemma_take_all(partner.alt_modes@);
    }
    out
}

// ---------------------------------------------------------------------------
// the port
// ---------------------------------------------------------------------------

/// Everything said about one port, which is nothing while nothing is attached.
pub open spec fn port_statements(snap: Snapshot) -> spec_fn(TypecPort) -> Seq<Statement> {
    |port: TypecPort|
        match port.partner {
            None => Seq::empty(),
            Some(partner) => attached_statements(snap, port, partner),
        }
}

pub open spec fn attached_statements(snap: Snapshot, port: TypecPort, partner: Partner) -> Seq<
    Statement,
> {
    let s = noted(Seq::empty(), sink_underpowered(port, partner));
    let s = noted(s, partner_no_pd(port, partner));
    let s = noted(s, pd_no_contract(port, partner));
    let s = noted(s, source_below_sink(snap, port, partner));
    let s = noted(s, contract_below_offer(port, partner));
    let s = s + cable_part(snap, port, partner);
    s + gathered(partner.alt_modes@, dp_not_active(port))
}

pub fn port_rules(snap: &Snapshot, port: &TypecPort) -> (r: Vec<Finding>)
    ensures
        stated(r@) == port_statements(*snap)(*port),
{
    let mut out = nothing();
    if let Some(partner) = &port.partner {
        note(&mut out, find_underpowered(port, partner));
        note(&mut out, find_partner_no_pd(port, partner));
        note(&mut out, find_pd_no_contract(port, partner));
        note(&mut out, find_source_below_sink(snap, port, partner));
        note(&mut out, find_contract_below_offer(port, partner));
        extend(&mut out, find_cable_part(snap, port, partner));
        extend(&mut out, alt_mode_rules(port, partner));
    }
    out
}

// ---------------------------------------------------------------------------
// laws
// ---------------------------------------------------------------------------

/// "Underpowered" and "does not speak PD" describe one electrical state, one
/// calling it a problem and the other routine, so they are never both said.
pub proof fn underpowered_and_no_pd_exclude_each_other(port: TypecPort, partner: Partner)
    ensures
        sink_underpowered(port, partner) is None || partner_no_pd(port, partner) is None,
        sink_underpowered(port, partner) is None || pd_no_contract(port, partner) is None,
{
}

/// An empty socket is never diagnosed.
pub proof fn an_unattached_port_says_nothing(snap: Snapshot, port: TypecPort)
    requires
        !port.attached(),
    ensures
        port_statements(snap)(port).len() == 0,
{
}

/// While this machine is the source, nothing is said about how much it draws.
pub proof fn a_sourcing_port_is_not_judged_as_a_sink(
    snap: Snapshot,
    port: TypecPort,
    partner: Partner,
)
    requires
        port.sourcing(),
    ensures
        sink_underpowered(port, partner) is None,
        source_below_sink(snap, port, partner) is None,
        contract_below_offer(port, partner) is None,
{
    let c = port.power_role->0.current->0@;
    if crate::text::lowered(c) == crate::text::lowered("sink"@) {
        reveal_strlit("sink");
        reveal_strlit("source");
        assert(crate::text::lowered("sink"@).len() == 4);
        assert(crate::text::lowered("source"@).len() == 6);
    }
}

} // verus!
