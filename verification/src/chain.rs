//! The bottleneck chain: four stages, and which one is the limit.
//!
//! A chain lays a question out as a sequence of ceilings: where does the power,
//! or the speed, stop? The marked stage comes from the findings and never from
//! arithmetic here: comparing numbers would be a second rule engine. A stage
//! with no number is the normal case, and stays without one.

use vstd::prelude::*;
use crate::diag::units::{
    amps_text, best_pdo, milliamps, power_or_zero, volts, volts_text, watts, watts_text,
};
use crate::diag::laws::{ceiling, is_largest, the_most_is_the_largest};
use crate::diag::{or_text, text_or};
use crate::model::{About, Finding, Partner, Pdo, Severity, Snapshot, Subject, TypecPort, UsbDevice};
use crate::number::{
    dec, double_side, number, one_place, one_place_text, side_of, Decimal, Ratio,
};
use crate::seqs::{
    first_of, kept, lemma_first_of, lemma_take_all, lemma_take_more, pointee,
};
use crate::snapshot::{lemma_first_stays, parent_in};
use crate::text::{cat, fill1, fill2, fill3, filled, opt_text, owned, same};

verus! {

/// Which chain this is.
#[derive(Debug, Clone, Copy, PartialEq, Eq, Structural)]
pub enum ChainKind {
    /// charger offers, cable carries, contract, this machine accepts
    Power,
    /// device claims, cable carries, path allows, link reached
    Data,
}

impl ChainKind {
    pub open spec fn name(self) -> Seq<char> {
        match self {
            ChainKind::Power => "the power chain"@,
            ChainKind::Data => "the data chain"@,
        }
    }

    pub fn title(&self) -> (r: &'static str)
        ensures
            r@ == self.name(),
    {
        match self {
            ChainKind::Power => "the power chain",
            ChainKind::Data => "the data chain",
        }
    }
}

/// Where a stage sits in its chain. Findings are attached by this.
#[derive(Debug, Clone, Copy, PartialEq, Eq, Structural)]
pub enum StageKey {
    /// What the other end is willing to give, or claims to do.
    Offer,
    /// What the cable between them can carry.
    Cable,
    /// What was agreed, or what the topology permits.
    Agreed,
    /// What this end can take, or what was reached.
    Achieved,
}

/// One ceiling in the chain.
#[derive(Debug, Clone)]
pub struct Stage {
    pub key: StageKey,
    /// Short caption, e.g. `charger offers`.
    pub cap: String,
    /// The headline figure, already formatted.
    pub value: String,
    /// The reading behind it.
    pub sub: String,
    /// Magnitude in mW, for a power chain. None means unknown.
    pub watts_mw: Option<u32>,
    /// Magnitude in Mbps, for a data chain. None means unknown.
    pub mbps: Option<Decimal>,
    /// Code of the finding that names this stage as the limit.
    pub marked_by: Option<String>,
}

/// A stage, as text.
pub struct Ceiling {
    pub key: StageKey,
    pub cap: Seq<char>,
    pub value: Seq<char>,
    pub sub: Seq<char>,
    pub watts_mw: Option<u32>,
    pub mbps: Option<Decimal>,
    pub marked_by: Option<Seq<char>>,
}

impl View for Stage {
    type V = Ceiling;

    open spec fn view(&self) -> Ceiling {
        Ceiling {
            key: self.key,
            cap: self.cap@,
            value: self.value@,
            sub: self.sub@,
            watts_mw: self.watts_mw,
            mbps: self.mbps,
            marked_by: opt_text(self.marked_by),
        }
    }
}

pub open spec fn ceilings(v: Seq<Stage>) -> Seq<Ceiling> {
    Seq::new(v.len(), |i: int| v[i]@)
}

impl Ceiling {
    /// The magnitude of a stage, in the unit of its chain.
    pub open spec fn magnitude(self) -> Option<Decimal> {
        match (self.watts_mw, self.mbps) {
            (Some(mw), _) => Some(Decimal::of(mw as nat)),
            (None, m) => m,
        }
    }
}

impl Stage {
    fn size(&self) -> (r: Option<Decimal>)
        ensures
            r == self@.magnitude(),
    {
        match (self.watts_mw, self.mbps) {
            (Some(mw), _) => Some(Decimal::whole(mw)),
            (None, m) => m,
        }
    }

    /// This stage's magnitude as a part of the widest one, or none where it has
    /// no number. Linear: a slow fallback must not look survivable.
    pub fn fraction(&self, max: Decimal) -> (r: Option<Ratio>)
        ensures
            r == (match self@.magnitude() {
                Some(v) => if max.micros == 0 {
                    None
                } else if v.micros > max.micros {
                    Some(Ratio { num: max.micros, den: max.micros })
                } else {
                    Some(Ratio { num: v.micros, den: max.micros })
                },
                None => None,
            }),
    {
        if max.micros == 0 {
            return None;
        }
        match self.size() {
            Some(v) => if v.micros > max.micros {
                Some(Ratio { num: max.micros, den: max.micros })
            } else {
                Some(Ratio { num: v.micros, den: max.micros })
            },
            None => None,
        }
    }
}

/// Four stages and the finding, if any, that names one of them as the limit.
#[derive(Debug, Clone)]
pub struct Chain {
    pub kind: ChainKind,
    pub subject: Subject,
    pub stages: Vec<Stage>,
    /// None is the healthy case, and not the same as "no bottleneck exists".
    pub limited_by: Option<String>,
}

/// The largest magnitude of any stage; zero where none is known.
pub open spec fn widest(s: Seq<Ceiling>) -> Decimal
    decreases s.len(),
{
    if s.len() == 0 {
        Decimal { micros: 0 }
    } else {
        match s.last().magnitude() {
            Some(v) => widest(s.drop_last()).larger(v),
            None => widest(s.drop_last()),
        }
    }
}

pub open spec fn has_no_figure() -> spec_fn(Ceiling) -> bool {
    |c: Ceiling| c.watts_mw is None && c.mbps is None
}

impl Chain {
    /// The widest known stage, for scaling bars.
    pub fn max(&self) -> (r: Decimal)
        ensures
            r == widest(ceilings(self.stages@)),
    {
        let ghost all = ceilings(self.stages@);
        let mut best = Decimal { micros: 0 };
        let mut i: usize = 0;
        while i < self.stages.len()
            invariant
                i <= self.stages.len(),
                all == ceilings(self.stages@),
                best == widest(all.take(i as int)),
            decreases self.stages.len() - i,
        {
            proof {
                lemma_take_more(all, i as int);
                assert(all[i as int] == self.stages@[i as int]@);
            }
            if let Some(v) = self.stages[i].size() {
                if v.micros > best.micros {
                    best = v;
                }
            }
            i += 1;
        }
        proof {
            lemma_take_all(all);
        }
        best
    }

    /// How many stages carry no figure at all.
    pub fn unknown_stages(&self) -> (r: usize)
        ensures
            r == kept(ceilings(self.stages@), has_no_figure()).len(),
    {
        let ghost all = ceilings(self.stages@);
        let mut n: usize = 0;
        let mut i: usize = 0;
        while i < self.stages.len()
            invariant
                i <= self.stages.len(),
                n <= i,
                all == ceilings(self.stages@),
                n == kept(all.take(i as int), has_no_figure()).len(),
            decreases self.stages.len() - i,
        {
            proof {
                lemma_take_more(all, i as int);
                assert(all[i as int] == self.stages@[i as int]@);
            }
            if self.stages[i].watts_mw.is_none() && self.stages[i].mbps.is_none() {
                n += 1;
            }
            i += 1;
        }
        proof {
            lemma_take_all(all);
        }
        n
    }
}

// ---------------------------------------------------------------------------
// which finding marks which stage
// ---------------------------------------------------------------------------

/// The stage a code points at. A code that is not here never marks one.
pub open spec fn stage_of(code: Seq<char>) -> Option<(ChainKind, StageKey)> {
    if code == "CABLE_CURRENT_LIMIT"@ || code == "CABLE_VOLTAGE_EXCEEDED"@ {
        Some((ChainKind::Power, StageKey::Cable))
    } else if code == "PD_CONTRACT_BELOW_OFFER"@ || code == "PD_NO_CONTRACT"@ {
        Some((ChainKind::Power, StageKey::Agreed))
    } else if code == "PARTNER_NO_PD"@ || code == "SINK_UNDERPOWERED_NO_PD"@ || code
        == "PD_SOURCE_BELOW_SINK_CAPABILITY"@ {
        Some((ChainKind::Power, StageKey::Offer))
    } else if code == "CABLE_DATA_LIMIT"@ {
        Some((ChainKind::Data, StageKey::Cable))
    } else if code == "LINK_BELOW_DEVICE_CAPABILITY"@ || code
        == "LINK_SLOW_DESPITE_CAPABLE_CABLE"@ || code == "LINK_SINGLE_LANE"@ || code
        == "USB4_LINK_BELOW_CAPABILITY"@ || code == "SS_HALF_IDLE"@ || code == "SS_HALF_FAILED"@ {
        Some((ChainKind::Data, StageKey::Achieved))
    } else {
        None
    }
}

pub fn stage_for(code: &str) -> (r: Option<(ChainKind, StageKey)>)
    ensures
        r == stage_of(code@),
{
    if same(code, "CABLE_CURRENT_LIMIT") || same(code, "CABLE_VOLTAGE_EXCEEDED") {
        Some((ChainKind::Power, StageKey::Cable))
    } else if same(code, "PD_CONTRACT_BELOW_OFFER") || same(code, "PD_NO_CONTRACT") {
        Some((ChainKind::Power, StageKey::Agreed))
    } else if same(code, "PARTNER_NO_PD") || same(code, "SINK_UNDERPOWERED_NO_PD") || same(
        code,
        "PD_SOURCE_BELOW_SINK_CAPABILITY",
    ) {
        Some((ChainKind::Power, StageKey::Offer))
    } else if same(code, "CABLE_DATA_LIMIT") {
        Some((ChainKind::Data, StageKey::Cable))
    } else if same(code, "LINK_BELOW_DEVICE_CAPABILITY") || same(
        code,
        "LINK_SLOW_DESPITE_CAPABLE_CABLE",
    ) || same(code, "LINK_SINGLE_LANE") || same(code, "USB4_LINK_BELOW_CAPABILITY") || same(
        code,
        "SS_HALF_IDLE",
    ) || same(code, "SS_HALF_FAILED") {
        Some((ChainKind::Data, StageKey::Achieved))
    } else {
        None
    }
}

/// Two subjects naming the same physical place: a port and its cable are one.
pub open spec fn same_place(a: About, b: About) -> bool {
    match (a, b) {
        (About::Port(x), About::Port(y)) => x == y,
        (About::Port(x), About::Cable(y)) => x == y,
        (About::Cable(x), About::Port(y)) => x == y,
        (About::Cable(x), About::Cable(y)) => x == y,
        (About::Device(x), About::Device(y)) => x == y,
        _ => false,
    }
}

pub fn same_thing(a: &Subject, b: &Subject) -> (r: bool)
    ensures
        r == same_place(a@, b@),
{
    match (a, b) {
        (Subject::Port(x), Subject::Port(y)) => same(x.as_str(), y.as_str()),
        (Subject::Port(x), Subject::Cable(y)) => same(x.as_str(), y.as_str()),
        (Subject::Cable(x), Subject::Port(y)) => same(x.as_str(), y.as_str()),
        (Subject::Cable(x), Subject::Cable(y)) => same(x.as_str(), y.as_str()),
        (Subject::Device(x), Subject::Device(y)) => same(x.as_str(), y.as_str()),
        _ => false,
    }
}

/// A finding that points at a stage. A note is worth knowing, and pointing a
/// marker at one would turn it into an accusation.
pub open spec fn points_at(kind: ChainKind, subject: About,
    key: StageKey) -> spec_fn(Finding) -> bool {
    |f: Finding|
        f.severity.weight() >= 1 && same_place(f.subject@, subject) && stage_of(f.code@) == Some(
            (kind, key),
        )
}

/// The code of the first finding that points at a stage.
pub open spec fn mark_of(s: Seq<Finding>, kind: ChainKind, subject: About, key: StageKey) -> Option<
    Seq<char>,
> {
    match first_of(s, points_at(kind, subject, key)) {
        Some(f) => Some(f.code@),
        None => None,
    }
}

pub fn marks<'a>(
    findings: &'a Vec<Finding>,
    kind: ChainKind,
    subject: &Subject,
    key: StageKey,
) -> (r: Option<&'a Finding>)
    ensures
        pointee(r) == first_of(findings@, points_at(kind, subject@, key)),
{
    let ghost p = points_at(kind, subject@, key);
    let mut i: usize = 0;
    while i < findings.len()
        invariant
            i <= findings.len(),
            p == points_at(kind, subject@, key),
            first_of(findings@.take(i as int), p) is None,
        decreases findings.len() - i,
    {
        proof {
            lemma_take_more(findings@, i as int);
        }
        let f = &findings[i];
        if f.severity.rank() >= 1 && same_thing(&f.subject, subject) {
            let hit = match stage_for(f.code.as_str()) {
                Some((k, s)) => k == kind && s == key,
                None => false,
            };
            if hit {
                proof {
                    lemma_first_stays(findings@, i + 1, p);
                }
                return Some(f);
            }
        }
        i += 1;
    }
    proof {
        lemma_take_all(findings@);
    }
    None
}

fn mark(findings: &Vec<Finding>, kind: ChainKind, subject: &Subject, key: StageKey) -> (r: Option<
    String,
>)
    ensures
        opt_text(r) == mark_of(findings@, kind, subject@, key),
{
    match marks(findings, kind, subject, key) {
        Some(f) => Some(f.code.clone()),
        None => None,
    }
}

// ---------------------------------------------------------------------------
// the power chain
// ---------------------------------------------------------------------------

pub const PD_SOURCE: &'static str = "PD source";

pub const TYPEC_ONLY: &'static str = "no PD — Type-C advertisement only ({})";

pub const DID_NOT_SAY: &'static str = "the attached device did not say";

pub const EMARKED: &'static str = "e-marker read";

pub const INFERRED: &'static str = "inferred — no e-marker read";

pub const NO_EMARKER: &'static str = "no e-marker reported";

pub const RATED: &'static str = "{} · {} at {}";

pub const PD_REVISION: &'static str = " · PD {}";

pub const CONTRACT_SUB: &'static str = "{} at {}{}";

pub const MODE_SUB: &'static str = "{}{}";

pub const NO_SINK: &'static str = "no sink capabilities reported";

pub open spec fn best_words(s: Seq<Pdo>, other: Seq<char>) -> Seq<char> {
    match best_pdo(s) {
        Some(p) => p.described(),
        None => other,
    }
}

fn describe_best(list: &Vec<Pdo>, other: &str) -> (r: String)
    ensures
        r@ == best_words(list@, other@),
{
    let mut best: Option<&Pdo> = None;
    let mut power: u32 = 0;
    let mut i: usize = 0;
    while i < list.len()
        invariant
            i <= list.len(),
            match best {
                Some(b) => best_pdo(list@.take(i as int)) == Some(*b) && power == power_or_zero(*b),
                None => best_pdo(list@.take(i as int)) is None,
            },
        decreases list.len() - i,
    {
        proof {
            lemma_take_more(list@, i as int);
        }
        let p: u32 = match list[i].power_mw() {
            Some(mw) => mw,
            None => 0,
        };
        if best.is_none() || p >= power {
            best = Some(&list[i]);
            power = p;
        }
        i += 1;
    }
    proof {
        lemma_take_all(list@);
    }
    match best {
        Some(b) => b.describe(),
        None => owned(other),
    }
}

/// What the charger offers. Without PD there is still a ceiling: the resistors
/// of the connector advertise one.
pub open spec fn offer(port: TypecPort, partner: Partner, marked: Option<Seq<char>>) -> Ceiling {
    let mw = match partner.pd {
        Some(pd) => crate::model::most_power(pd.source_capabilities@),
        None => None,
    };
    let base = Ceiling {
        key: StageKey::Offer,
        cap: "charger offers"@,
        value: "unknown"@,
        sub: DID_NOT_SAY@,
        watts_mw: None,
        mbps: None,
        marked_by: marked,
    };
    match mw {
        Some(w) => Ceiling {
            value: watts_text(w),
            sub: best_words(partner.pd->0.source_capabilities@, PD_SOURCE@),
            watts_mw: Some(w),
            ..base
        },
        None => match port.advertised_mw() {
            Some(w) => Ceiling {
                value: watts_text(w),
                sub: filled(TYPEC_ONLY@, seq![text_or(port.power_operation_mode, "default"@)]),
                watts_mw: Some(w),
                ..base
            },
            None => base,
        },
    }
}

fn offer_stage(port: &TypecPort, partner: &Partner, marked: Option<String>) -> (r: Stage)
    ensures
        r@ == offer(*port, *partner, opt_text(marked)),
{
    if let Some(pd) = &partner.pd {
        if let Some(mw) = pd.max_source_power_mw() {
            return Stage {
                key: StageKey::Offer,
                cap: owned("charger offers"),
                value: watts(mw),
                sub: describe_best(&pd.source_capabilities, PD_SOURCE),
                watts_mw: Some(mw),
                mbps: None,
                marked_by: marked,
            };
        }
    }
    match port.typec_advertised_ceiling_mw() {
        Some(mw) => Stage {
            key: StageKey::Offer,
            cap: owned("charger offers"),
            value: watts(mw),
            sub: fill1(TYPEC_ONLY, or_text(&port.power_operation_mode, "default")),
            watts_mw: Some(mw),
            mbps: None,
            marked_by: marked,
        },
        None => Stage {
            key: StageKey::Offer,
            cap: owned("charger offers"),
            value: owned("unknown"),
            sub: owned(DID_NOT_SAY),
            watts_mw: None,
            mbps: None,
            marked_by: marked,
        },
    }
}

/// What the e-marker says the cable carries, in mA.
pub open spec fn emarked_ma(port: TypecPort) -> Option<u32> {
    match port.cable {
        Some(c) => match c.identity {
            Some(id) => id.decoded.cable_current_ma,
            None => None,
        },
        None => None,
    }
}

/// What the contract proves the cable carries: above 3 A only a 5 A cable will
/// do.
pub open spec fn inferred_ma(port: TypecPort) -> Option<u32> {
    match port.power_supply {
        Some(ps) => if ps.above_3a() {
            Some(5000u32)
        } else {
            None
        },
        None => None,
    }
}

pub open spec fn contract_mv(port: TypecPort) -> Option<u32> {
    match port.power_supply {
        Some(ps) => crate::model::nonzero(ps.voltage_now_mv),
        None => None,
    }
}

pub open spec fn contract_ma(port: TypecPort) -> Option<u32> {
    match port.power_supply {
        Some(ps) => crate::model::nonzero(ps.current_now_ma),
        None => None,
    }
}

pub open spec fn contract_mw(port: TypecPort) -> Option<u32> {
    match port.power_supply {
        Some(ps) => ps.contract_mw(),
        None => None,
    }
}

/// What the cable can carry. Its rating is a current, but a chain compares
/// powers: a 3 A cable is a 60 W cable only at 20 V.
pub open spec fn carried(port: TypecPort, marked: Option<Seq<char>>) -> Ceiling {
    let ma = match emarked_ma(port) {
        Some(a) => Some(a),
        None => inferred_ma(port),
    };
    let source = if emarked_ma(port) is Some {
        EMARKED@
    } else if inferred_ma(port) is Some {
        INFERRED@
    } else {
        NO_EMARKER@
    };
    let mw: Option<u32> = match (ma, contract_mv(port)) {
        (Some(a), Some(v)) => Some((v as nat * a as nat / 1000) as u32),
        _ => None,
    };
    Ceiling {
        key: StageKey::Cable,
        cap: "cable carries"@,
        value: match ma {
            Some(a) => amps_text(a),
            None => "unknown"@,
        },
        sub: match (mw, contract_mv(port)) {
            (Some(w), Some(v)) => filled(RATED@, seq![source, watts_text(w), volts_text(v)]),
            _ => source,
        },
        watts_mw: mw,
        mbps: None,
        marked_by: marked,
    }
}

fn cable_power_stage(port: &TypecPort, marked: Option<String>) -> (r: Stage)
    ensures
        r@ == carried(*port, opt_text(marked)),
{
    let emarker: Option<u32> = match &port.cable {
        Some(c) => match &c.identity {
            Some(id) => id.decoded.cable_current_ma,
            None => None,
        },
        None => None,
    };
    let inferred: Option<u32> = match &port.power_supply {
        Some(ps) => if ps.contract_requires_5a_cable() {
            Some(5000)
        } else {
            None
        },
        None => None,
    };
    let mv: Option<u32> = match &port.power_supply {
        Some(ps) => ps.contract_voltage_mv(),
        None => None,
    };
    let (ma, source): (Option<u32>, &str) = match (emarker, inferred) {
        (Some(a), _) => (Some(a), EMARKED),
        (None, Some(a)) => (Some(a), INFERRED),
        (None, None) => (None, NO_EMARKER),
    };
    let mw: Option<u32> = match (ma, mv) {
        (Some(a), Some(v)) => {
            proof {
                assert(v as u64 * a as u64 <= 0xffff_ffff * 0xffff_ffff) by (nonlinear_arith)
                    requires
                        v <= 0xffff_ffff,
                        a <= 0xffff_ffff,
                ;
            }
            Some(((v as u64 * a as u64) / 1000) as u32)
        },
        _ => None,
    };
    let sub = match (mw, mv) {
        (Some(w), Some(v)) => {
            let p = watts(w);
            let u = volts(v);
            fill3(RATED, source, p.as_str(), u.as_str())
        },
        _ => owned(source),
    };
    let value = match ma {
        Some(a) => milliamps(a),
        None => owned("unknown"),
    };
    Stage {
        key: StageKey::Cable,
        cap: owned("cable carries"),
        value,
        sub,
        watts_mw: mw,
        mbps: None,
        marked_by: marked,
    }
}

pub open spec fn revision_words(port: TypecPort) -> Seq<char> {
    match port.partner {
        Some(p) => match shown_revision(p) {
            Some(r) => filled(PD_REVISION@, seq![r]),
            None => ""@,
        },
        None => ""@,
    }
}

/// The PD revision worth showing: a partner that does not speak PD reports zero.
pub open spec fn shown_revision(p: Partner) -> Option<Seq<char>> {
    match p.pd_revision {
        Some(t) => if crate::text::begins_with(t@, "0."@) || t@ == "0"@ {
            None
        } else {
            Some(t@)
        },
        None => None,
    }
}

/// What was agreed.
pub open spec fn agreed(port: TypecPort, marked: Option<Seq<char>>) -> Ceiling {
    Ceiling {
        key: StageKey::Agreed,
        cap: "contract"@,
        value: match contract_mw(port) {
            Some(w) => watts_text(w),
            None => "none"@,
        },
        sub: match (contract_mv(port), contract_ma(port)) {
            (Some(v), Some(i)) => filled(
                CONTRACT_SUB@,
                seq![volts_text(v), amps_text(i), revision_words(port)],
            ),
            _ => filled(
                MODE_SUB@,
                seq![text_or(port.power_operation_mode, "no contract"@), revision_words(port)],
            ),
        },
        watts_mw: contract_mw(port),
        mbps: None,
        marked_by: marked,
    }
}

fn contract_stage(port: &TypecPort, marked: Option<String>) -> (r: Stage)
    ensures
        r@ == agreed(*port, opt_text(marked)),
{
    let rev = match &port.partner {
        Some(p) => match p.pd_revision_display() {
            Some(s) => fill1(PD_REVISION, s),
            None => owned(""),
        },
        None => owned(""),
    };
    let (mv, ma, mw): (Option<u32>, Option<u32>, Option<u32>) = match &port.power_supply {
        Some(ps) => (ps.contract_voltage_mv(), ps.contract_current_ma(), ps.contract_power_mw()),
        None => (None, None, None),
    };
    let sub = match (mv, ma) {
        (Some(v), Some(i)) => {
            let a = volts(v);
            let b = milliamps(i);
            fill3(CONTRACT_SUB, a.as_str(), b.as_str(), rev.as_str())
        },
        _ => fill2(MODE_SUB, or_text(&port.power_operation_mode, "no contract"), rev.as_str()),
    };
    let value = match mw {
        Some(w) => watts(w),
        None => owned("none"),
    };
    Stage {
        key: StageKey::Agreed,
        cap: owned("contract"),
        value,
        sub,
        watts_mw: mw,
        mbps: None,
        marked_by: marked,
    }
}

/// What this machine accepts.
pub open spec fn accepted(port: TypecPort, marked: Option<Seq<char>>) -> Ceiling {
    let mw = match port.local_pd {
        Some(pd) => crate::model::most_power(pd.sink_capabilities@),
        None => None,
    };
    Ceiling {
        key: StageKey::Achieved,
        cap: "this machine accepts"@,
        value: match mw {
            Some(w) => watts_text(w),
            None => "unknown"@,
        },
        sub: match port.local_pd {
            Some(pd) => best_words(pd.sink_capabilities@, NO_SINK@),
            None => NO_SINK@,
        },
        watts_mw: mw,
        mbps: None,
        marked_by: marked,
    }
}

fn sink_stage(port: &TypecPort, marked: Option<String>) -> (r: Stage)
    ensures
        r@ == accepted(*port, opt_text(marked)),
{
    let (mw, sub): (Option<u32>, String) = match &port.local_pd {
        Some(pd) => (pd.max_sink_power_mw(), describe_best(&pd.sink_capabilities, NO_SINK)),
        None => (None, owned(NO_SINK)),
    };
    let value = match mw {
        Some(w) => watts(w),
        None => owned("unknown"),
    };
    Stage {
        key: StageKey::Achieved,
        cap: owned("this machine accepts"),
        value,
        sub,
        watts_mw: mw,
        mbps: None,
        marked_by: marked,
    }
}

/// The first mark of a chain: the first constriction is the one that matters,
/// and those after it follow from it.
pub open spec fn first_mark(s: Seq<Ceiling>) -> Option<Seq<char>>
    decreases s.len(),
{
    if s.len() == 0 {
        None
    } else {
        match s[0].marked_by {
            Some(m) => Some(m),
            None => first_mark(s.skip(1)),
        }
    }
}

fn find_mark(stages: &Vec<Stage>) -> (r: Option<String>)
    ensures
        opt_text(r) == first_mark(ceilings(stages@)),
{
    let ghost all = ceilings(stages@);
    let mut i: usize = 0;
    assert(all.skip(0) =~= all);
    while i < stages.len()
        invariant
            i <= stages.len(),
            all == ceilings(stages@),
            first_mark(all) == first_mark(all.skip(i as int)),
        decreases stages.len() - i,
    {
        assert(all.skip(i as int)[0] == stages@[i as int]@);
        assert(all.skip(i as int).skip(1) =~= all.skip(i + 1));
        if let Some(m) = &stages[i].marked_by {
            return Some(m.clone());
        }
        i += 1;
    }
    None
}

fn finish(kind: ChainKind, subject: Subject, a: Stage, b: Stage, c: Stage, d: Stage) -> (r: Chain)
    ensures
        r.kind == kind,
        r.subject == subject,
        ceilings(r.stages@) == seq![a@, b@, c@, d@],
        opt_text(r.limited_by) == first_mark(seq![a@, b@, c@, d@]),
{
    let mut stages: Vec<Stage> = Vec::new();
    stages.push(a);
    stages.push(b);
    stages.push(c);
    stages.push(d);
    assert(ceilings(stages@) =~= seq![a@, b@, c@, d@]);
    let limited_by = find_mark(&stages);
    Chain { kind, subject, stages, limited_by }
}

/// The four stages of a port's power chain.
pub open spec fn power_stages(port: TypecPort, partner: Partner, s: Seq<Finding>) -> Seq<Ceiling> {
    let about = About::Port(port.name@);
    seq![
        offer(port, partner, mark_of(s, ChainKind::Power, about, StageKey::Offer)),
        carried(port, mark_of(s, ChainKind::Power, about, StageKey::Cable)),
        agreed(port, mark_of(s, ChainKind::Power, about, StageKey::Agreed)),
        accepted(port, mark_of(s, ChainKind::Power, about, StageKey::Achieved)),
    ]
}

/// A chain is what its stages say.
pub open spec fn is_chain(c: Chain, kind: ChainKind, subject: About, stages: Seq<Ceiling>) -> bool {
    c.kind == kind && c.subject@ == subject && ceilings(c.stages@) == stages && opt_text(
        c.limited_by,
    ) == first_mark(stages)
}

/// The power chain for a port, built only while the port is sinking: its stages
/// are worded from the point of view of power arriving. Nothing attached, power
/// going out, or a role that was not reported make no such picture.
pub fn power(port: &TypecPort, findings: &Vec<Finding>) -> (r: Option<Chain>)
    ensures
        match port.partner {
            Some(p) => if port.sinking() {
                r matches Some(c) && is_chain(
                    c,
                    ChainKind::Power,
                    About::Port(port.name@),
                    power_stages(*port, p, findings@),
                )
            } else {
                r is None
            },
            None => r is None,
        },
{
    let partner = match &port.partner {
        Some(p) => p,
        None => {
            return None;
        },
    };
    if !port.is_sinking() {
        return None;
    }
    let subject = Subject::Port(port.name.clone());
    let kind = ChainKind::Power;
    let a = offer_stage(port, partner, mark(findings, kind, &subject, StageKey::Offer));
    let b = cable_power_stage(port, mark(findings, kind, &subject, StageKey::Cable));
    let c = contract_stage(port, mark(findings, kind, &subject, StageKey::Agreed));
    let d = sink_stage(port, mark(findings, kind, &subject, StageKey::Achieved));
    Some(finish(kind, subject, a, b, c, d))
}

// ---------------------------------------------------------------------------
// the data chain
// ---------------------------------------------------------------------------

pub const USB_VERSION: &'static str = "USB {}";

pub const ONLY_RATE: &'static str = "5 Gbps — the only rate 3.0 names";

pub const NOT_A_RATE: &'static str =
    "a specification, not a rate — {} is claimed at more than one speed";

pub const NO_VERSION: &'static str = "no version descriptor";

pub const NO_CABLE_RATE: &'static str = "no e-marker is readable for a USB cable outside Type-C";

pub const NARROWEST: &'static str = "narrowest hop upstream is {}";

pub const NO_UPSTREAM: &'static str = "no upstream link rate reported";

pub const NEVER_ENUMERATED: &'static str = "the device never enumerated";

/// The rate a claimed version names. Only 3.0 names a single one.
pub open spec fn claimed_rate(dev: UsbDevice) -> Option<Decimal> {
    match dev.usb_version_num {
        Some(v) => if 3_000_000 <= v.micros < 3_100_000 {
            Some(Decimal::of(5000))
        } else {
            None
        },
        None => None,
    }
}

/// What the device claims: a specification, and usually not a rate.
pub open spec fn claim(dev: UsbDevice, marked: Option<Seq<char>>) -> Ceiling {
    Ceiling {
        key: StageKey::Offer,
        cap: "device claims"@,
        value: match dev.usb_version {
            Some(v) => filled(USB_VERSION@, seq![v@]),
            None => "unknown"@,
        },
        sub: match dev.usb_version {
            Some(v) => if claimed_rate(dev) is Some {
                ONLY_RATE@
            } else {
                filled(NOT_A_RATE@, seq![v@])
            },
            None => NO_VERSION@,
        },
        watts_mw: None,
        mbps: claimed_rate(dev),
        marked_by: marked,
    }
}

fn claim_stage(dev: &UsbDevice, marked: Option<String>) -> (r: Stage)
    ensures
        r@ == claim(*dev, opt_text(marked)),
{
    let mbps: Option<Decimal> = match dev.usb_version_num {
        Some(v) => if 3_000_000 <= v.micros && v.micros < 3_100_000 {
            Some(Decimal::whole(5000))
        } else {
            None
        },
        None => None,
    };
    let (value, sub) = match &dev.usb_version {
        Some(v) => (
            fill1(USB_VERSION, v.as_str()),
            if mbps.is_some() {
                owned(ONLY_RATE)
            } else {
                fill1(NOT_A_RATE, v.as_str())
            },
        ),
        None => (owned("unknown"), owned(NO_VERSION)),
    };
    Stage {
        key: StageKey::Offer,
        cap: owned("device claims"),
        value,
        sub,
        watts_mw: None,
        mbps,
        marked_by: marked,
    }
}

/// The cable's data rating, which no ordinary cable reports.
pub open spec fn unrated_cable(marked: Option<Seq<char>>) -> Ceiling {
    Ceiling {
        key: StageKey::Cable,
        cap: "cable carries"@,
        value: "unknown"@,
        sub: NO_CABLE_RATE@,
        watts_mw: None,
        mbps: None,
        marked_by: marked,
    }
}

fn cable_data_stage(marked: Option<String>) -> (r: Stage)
    ensures
        r@ == unrated_cable(opt_text(marked)),
{
    Stage {
        key: StageKey::Cable,
        cap: owned("cable carries"),
        value: owned("unknown"),
        sub: owned(NO_CABLE_RATE),
        watts_mw: None,
        mbps: None,
        marked_by: marked,
    }
}

/// A hop and its rate.
pub struct Hop {
    pub mbps: Decimal,
    pub via: Seq<char>,
}

/// The narrower of what was found so far and one device more. Of two that are
/// equally narrow, the nearer.
pub open spec fn narrower(best: Option<Hop>, up: UsbDevice) -> Option<Hop> {
    match up.speed {
        Some(s) => match best {
            Some(h) => if s.mbps.micros < h.mbps.micros {
                Some(Hop { mbps: s.mbps, via: up.sysfs_name@ })
            } else {
                best
            },
            None => Some(Hop { mbps: s.mbps, via: up.sysfs_name@ }),
        },
        None => best,
    }
}

/// The narrowest hop on the way up. A way with more steps than there are
/// devices has come back on itself.
pub open spec fn narrowest(
    devs: Seq<UsbDevice>,
    d: UsbDevice,
    best: Option<Hop>,
    steps: nat,
) -> Option<Hop>
    decreases steps,
{
    if steps == 0 {
        best
    } else {
        match parent_in(devs, d) {
            Some(up) => narrowest(devs, up, narrower(best, up), (steps - 1) as nat),
            None => best,
        }
    }
}

pub open spec fn narrowest_hop(snap: Snapshot, dev: UsbDevice) -> Option<Hop> {
    narrowest(snap.all(), dev, None, snap.all().len())
}

pub open spec fn hop(o: Option<(Decimal, String)>) -> Option<Hop> {
    match o {
        Some((m, v)) => Some(Hop { mbps: m, via: v@ }),
        None => None,
    }
}

fn find_narrowest(snap: &Snapshot, dev: &UsbDevice) -> (r: Option<(Decimal, String)>)
    ensures
        hop(r) == narrowest_hop(*snap, *dev),
{
    let devs = snap.devices();
    let ghost all = snap.all();
    let total: usize = devs.len();
    assert(crate::seqs::pointees(devs@).len() == devs@.len());
    let mut best: Option<(Decimal, String)> = None;
    let mut at: &UsbDevice = dev;
    let mut left: usize = total;
    while left > 0
        invariant
            left <= total,
            all == snap.all(),
            narrowest(all, *at, hop(best), left as nat) == narrowest(all, *dev, None, total as nat),
        ensures
            hop(best) == narrowest(all, *dev, None, total as nat),
        decreases left,
    {
        match snap.parent_of(at) {
            Some(up) => {
                if let Some(s) = &up.speed {
                    let closer = match &best {
                        Some((m, _)) => s.mbps.micros < m.micros,
                        None => true,
                    };
                    if closer {
                        best = Some((s.mbps, up.sysfs_name.clone()));
                    }
                }
                at = up;
                left -= 1;
            },
            None => {
                break;
            },
        }
    }
    best
}

/// What the way up allows: the one ceiling of the chain that is measured.
pub open spec fn allowed(snap: Snapshot, dev: UsbDevice, marked: Option<Seq<char>>) -> Ceiling {
    let base = Ceiling {
        key: StageKey::Agreed,
        cap: "path allows"@,
        value: "unknown"@,
        sub: NO_UPSTREAM@,
        watts_mw: None,
        mbps: None,
        marked_by: marked,
    };
    match narrowest_hop(snap, dev) {
        Some(h) => Ceiling {
            value: rate_text(h.mbps),
            sub: filled(NARROWEST@, seq![h.via]),
            mbps: Some(h.mbps),
            ..base
        },
        None => base,
    }
}

fn path_stage(snap: &Snapshot, dev: &UsbDevice, marked: Option<String>) -> (r: Stage)
    ensures
        r@ == allowed(*snap, *dev, opt_text(marked)),
{
    match find_narrowest(snap, dev) {
        Some((mbps, via)) => Stage {
            key: StageKey::Agreed,
            cap: owned("path allows"),
            value: rate(mbps),
            sub: fill1(NARROWEST, via.as_str()),
            watts_mw: None,
            mbps: Some(mbps),
            marked_by: marked,
        },
        None => Stage {
            key: StageKey::Agreed,
            cap: owned("path allows"),
            value: owned("unknown"),
            sub: owned(NO_UPSTREAM),
            watts_mw: None,
            mbps: None,
            marked_by: marked,
        },
    }
}

/// What the link reached.
pub open spec fn reached(dev: UsbDevice, marked: Option<Seq<char>>) -> Ceiling {
    let base = Ceiling {
        key: StageKey::Achieved,
        cap: "link reached"@,
        value: "unknown"@,
        sub: NEVER_ENUMERATED@,
        watts_mw: None,
        mbps: None,
        marked_by: marked,
    };
    match dev.speed {
        Some(s) => Ceiling {
            value: rate_text(s.mbps),
            sub: s.label@,
            mbps: Some(s.mbps),
            ..base
        },
        None => base,
    }
}

fn link_stage(dev: &UsbDevice, marked: Option<String>) -> (r: Stage)
    ensures
        r@ == reached(*dev, opt_text(marked)),
{
    match &dev.speed {
        Some(s) => Stage {
            key: StageKey::Achieved,
            cap: owned("link reached"),
            value: rate(s.mbps),
            sub: s.label.clone(),
            watts_mw: None,
            mbps: Some(s.mbps),
            marked_by: marked,
        },
        None => Stage {
            key: StageKey::Achieved,
            cap: owned("link reached"),
            value: owned("unknown"),
            sub: owned(NEVER_ENUMERATED),
            watts_mw: None,
            mbps: None,
            marked_by: marked,
        },
    }
}

/// The four stages of a device's data chain.
pub open spec fn data_stages(snap: Snapshot, dev: UsbDevice, s: Seq<Finding>) -> Seq<Ceiling> {
    let about = About::Device(dev.sysfs_name@);
    seq![
        claim(dev, mark_of(s, ChainKind::Data, about, StageKey::Offer)),
        unrated_cable(mark_of(s, ChainKind::Data, about, StageKey::Cable)),
        allowed(snap, dev, mark_of(s, ChainKind::Data, about, StageKey::Agreed)),
        reached(dev, mark_of(s, ChainKind::Data, about, StageKey::Achieved)),
    ]
}

/// The data chain for a device. A root hub has none: it has no upstream cable.
pub fn data(snap: &Snapshot, dev: &UsbDevice, findings: &Vec<Finding>) -> (r: Option<Chain>)
    ensures
        if dev.is_root_hub {
            r is None
        } else {
            r matches Some(c) && is_chain(
                c,
                ChainKind::Data,
                About::Device(dev.sysfs_name@),
                data_stages(*snap, *dev, findings@),
            )
        },
{
    if dev.is_root_hub {
        return None;
    }
    let subject = Subject::Device(dev.sysfs_name.clone());
    let kind = ChainKind::Data;
    let a = claim_stage(dev, mark(findings, kind, &subject, StageKey::Offer));
    let b = cable_data_stage(mark(findings, kind, &subject, StageKey::Cable));
    let c = path_stage(snap, dev, mark(findings, kind, &subject, StageKey::Agreed));
    let d = link_stage(dev, mark(findings, kind, &subject, StageKey::Achieved));
    Some(finish(kind, subject, a, b, c, d))
}

/// Close enough to a whole number of units to be shown as one: the fraction is
/// below a twentieth, which a quotient on the edge is where its double lies
/// below it.
pub open spec fn nearly_whole(n: nat, unit: nat) -> bool {
    20 * (n % unit) < unit || (20 * (n % unit) == unit && double_side(n, unit) < 0)
}

/// `480 Mbps`, `5 Gbps`, `10 Gbps`.
pub open spec fn rate_text(mbps: Decimal) -> Seq<char> {
    let n = mbps.micros as nat;
    if n >= 1_000_000_000 {
        if nearly_whole(n, 1_000_000_000) {
            dec(n / 1_000_000_000) + " Gbps"@
        } else {
            one_place(n, 100_000_000) + " Gbps"@
        }
    } else if nearly_whole(n, 1_000_000) {
        dec(n / 1_000_000) + " Mbps"@
    } else {
        one_place(n, 100_000) + " Mbps"@
    }
}

fn is_nearly_whole(n: u64, unit: u64) -> (r: bool)
    requires
        0 < unit <= 1_000_000_000,
    ensures
        r == nearly_whole(n as nat, unit as nat),
{
    let m: u64 = n % unit;
    20 * m < unit || (20 * m == unit && side_of(n, unit) < 0)
}

pub fn rate(mbps: Decimal) -> (r: String)
    ensures
        r@ == rate_text(mbps),
{
    let n: u64 = mbps.micros;
    if n >= 1_000_000_000 {
        let t = if is_nearly_whole(n, 1_000_000_000) {
            number(n / 1_000_000_000)
        } else {
            one_place_text(n, 100_000_000)
        };
        cat(t.as_str(), " Gbps")
    } else {
        let t = if is_nearly_whole(n, 1_000_000) {
            number(n / 1_000_000)
        } else {
            one_place_text(n, 100_000)
        };
        cat(t.as_str(), " Mbps")
    }
}

// ---------------------------------------------------------------------------
// laws
// ---------------------------------------------------------------------------

/// Without findings nothing is marked, however lopsided the numbers are.
pub proof fn no_finding_no_mark(kind: ChainKind, subject: About, key: StageKey)
    ensures
        mark_of(Seq::<Finding>::empty(), kind, subject, key) is None,
{
    lemma_first_of(Seq::<Finding>::empty(), points_at(kind, subject, key));
}

/// A mark is the code of a finding about this very place that is more than a
/// note and names that stage of that chain.
pub proof fn a_mark_comes_from_a_finding(
    s: Seq<Finding>,
    kind: ChainKind,
    subject: About,
    key: StageKey,
)
    requires
        mark_of(s, kind, subject, key) is Some,
    ensures
        exists|i: int|
            0 <= i < s.len() && (#[trigger] s[i]).code@ == mark_of(s, kind, subject, key)->0
                && s[i].severity != Severity::Info && same_place(s[i].subject@, subject)
                && stage_of(s[i].code@) == Some((kind, key)),
{
    let p = points_at(kind, subject, key);
    lemma_first_of(s, p);
    let i = choose|i: int|
        0 <= i < s.len() && first_of(s, p)->0 == #[trigger] s[i] && p(s[i]) && (forall|j: int|
            0 <= j < i ==> !p(#[trigger] s[j]));
    assert(s[i].code@ == mark_of(s, kind, subject, key)->0);
}

/// No code marks stages of two chains, nor two stages of one.
pub proof fn a_code_marks_one_stage(code: Seq<char>, a: (ChainKind, StageKey), b: (
    ChainKind,
    StageKey,
))
    requires
        stage_of(code) == Some(a),
        stage_of(code) == Some(b),
    ensures
        a == b,
{
}

/// Nothing on the way up is narrower than the narrowest hop.
pub proof fn nothing_upstream_is_narrower(
    devs: Seq<UsbDevice>,
    d: UsbDevice,
    best: Option<Hop>,
    steps: nat,
    k: nat,
)
    requires
        1 <= k <= steps,
        crate::snapshot::ancestor_at(devs, d, k) matches Some(up) && up.speed is Some,
    ensures
        narrowest(devs, d, best, steps) matches Some(h) && h.mbps.micros
            <= crate::snapshot::ancestor_at(devs, d, k)->0.speed->0.mbps.micros,
    decreases steps,
{
    lemma_first_step(devs, d, k);
    let up = parent_in(devs, d)->0;
    let next = narrower(best, up);
    if k == 1 {
        lemma_only_narrower(devs, up, next, (steps - 1) as nat);
    } else {
        nothing_upstream_is_narrower(devs, up, next, (steps - 1) as nat, (k - 1) as nat);
    }
}

proof fn lemma_only_narrower(devs: Seq<UsbDevice>, d: UsbDevice, best: Option<Hop>, steps: nat)
    requires
        best is Some,
    ensures
        narrowest(devs, d, best, steps) matches Some(h) && h.mbps.micros <= best->0.mbps.micros,
    decreases steps,
{
    if steps > 0 {
        if let Some(up) = parent_in(devs, d) {
            lemma_only_narrower(devs, up, narrower(best, up), (steps - 1) as nat);
        }
    }
}

proof fn lemma_first_step(devs: Seq<UsbDevice>, d: UsbDevice, k: nat)
    requires
        k >= 1,
        crate::snapshot::ancestor_at(devs, d, k) is Some,
    ensures
        parent_in(devs, d) is Some,
        crate::snapshot::ancestor_at(devs, parent_in(devs, d)->0, (k - 1) as nat)
            == crate::snapshot::ancestor_at(devs, d, k),
    decreases k,
{
    if k == 1 {
        assert(crate::snapshot::ancestor_at(devs, d, 0) == Some(d));
    } else {
        lemma_first_step(devs, d, (k - 1) as nat);
    }
}

/// A finding that is more than a note, about a port or the cable in it.
pub open spec fn speaks_of_port(f: Finding, name: Seq<char>) -> bool {
    f.severity != Severity::Info && (f.subject@ == About::Port(name) || f.subject@ == About::Cable(
        name,
    ))
}

/// A finding that is more than a note, about a device.
pub open spec fn speaks_of_device(f: Finding, name: Seq<char>) -> bool {
    f.severity != Severity::Info && f.subject@ == About::Device(name)
}

proof fn lemma_mark(s: Seq<Finding>, kind: ChainKind, about: About, key: StageKey)
    ensures
        mark_of(s, kind, about, key) is Some <==> (exists|i: int|
            0 <= i < s.len() && points_at(kind, about, key)(#[trigger] s[i])),
        mark_of(s, kind, about, key) matches Some(m) ==> exists|i: int|
            0 <= i < s.len() && m == (#[trigger] s[i]).code@ && points_at(kind, about, key)(s[i])
                && (forall|j: int| 0 <= j < i ==> !points_at(kind, about, key)(#[trigger] s[j])),
{
    let p = points_at(kind, about, key);
    lemma_first_of(s, p);
    if let Some(x) = first_of(s, p) {
        let i = choose|i: int|
            0 <= i < s.len() && x == #[trigger] s[i] && p(s[i]) && (forall|j: int|
                0 <= j < i ==> !p(#[trigger] s[j]));
        assert(s[i].code@ == x.code@);
    }
}

/// What the charger offers is the limit where a finding about the port says that
/// it speaks no PD or has too little to give, and the first of those names it.
pub proof fn a_weak_supply_marks_the_offer(port: TypecPort, partner: Partner, s: Seq<Finding>)
    ensures
        ({
            let mark = power_stages(port, partner, s)[0].marked_by;
            &&& mark is Some <==> exists|i: int|
                0 <= i < s.len() && speaks_of_port(#[trigger] s[i], port.name@) && (s[i].code@
                    == "PARTNER_NO_PD"@ || s[i].code@ == "SINK_UNDERPOWERED_NO_PD"@ || s[i].code@
                    == "PD_SOURCE_BELOW_SINK_CAPABILITY"@)
            &&& mark matches Some(m) ==> exists|i: int|
                0 <= i < s.len() && m == s[i].code@ && speaks_of_port(#[trigger] s[i], port.name@)
                    && (m == "PARTNER_NO_PD"@ || m == "SINK_UNDERPOWERED_NO_PD"@ || m
                    == "PD_SOURCE_BELOW_SINK_CAPABILITY"@) && forall|j: int|
                    0 <= j < i && speaks_of_port(#[trigger] s[j], port.name@) ==> !(s[j].code@
                        == "PARTNER_NO_PD"@ || s[j].code@ == "SINK_UNDERPOWERED_NO_PD"@
                        || s[j].code@ == "PD_SOURCE_BELOW_SINK_CAPABILITY"@)
        }),
{
    crate::diag::origins::codes_differ();
    let about = About::Port(port.name@);
    let p = points_at(ChainKind::Power, about, StageKey::Offer);
    lemma_mark(s, ChainKind::Power, about, StageKey::Offer);
    assert forall|i: int| 0 <= i < s.len() implies p(#[trigger] s[i])
        == (speaks_of_port(s[i], port.name@) && (s[i].code@ == "PARTNER_NO_PD"@ || s[i].code@
        == "SINK_UNDERPOWERED_NO_PD"@ || s[i].code@ == "PD_SOURCE_BELOW_SINK_CAPABILITY"@)) by {}
    let mark = mark_of(s, ChainKind::Power, about, StageKey::Offer);
    assert(power_stages(port, partner, s)[0].marked_by == mark);
    if exists|i: int| 0 <= i < s.len() && speaks_of_port(#[trigger] s[i], port.name@) && (s[i].code@
        == "PARTNER_NO_PD"@ || s[i].code@ == "SINK_UNDERPOWERED_NO_PD"@ || s[i].code@
        == "PD_SOURCE_BELOW_SINK_CAPABILITY"@) {
        let i = choose|i: int| 0 <= i < s.len() && speaks_of_port(#[trigger] s[i], port.name@)
            && (s[i].code@ == "PARTNER_NO_PD"@ || s[i].code@ == "SINK_UNDERPOWERED_NO_PD"@
            || s[i].code@ == "PD_SOURCE_BELOW_SINK_CAPABILITY"@);
        assert(p(s[i]));
    }
    if mark is Some {
        let i = choose|i: int|
            0 <= i < s.len() && mark->0 == (#[trigger] s[i]).code@ && p(s[i]) && (forall|j: int|
                0 <= j < i ==> !p(#[trigger] s[j]));
        assert(speaks_of_port(s[i], port.name@));
    }
}

/// What the cable carries is the limit where a finding about it says so.
pub proof fn a_weak_cable_marks_the_cable(port: TypecPort, partner: Partner, s: Seq<Finding>)
    ensures
        ({
            let mark = power_stages(port, partner, s)[1].marked_by;
            &&& mark is Some <==> exists|i: int|
                0 <= i < s.len() && speaks_of_port(#[trigger] s[i], port.name@) && (s[i].code@
                    == "CABLE_CURRENT_LIMIT"@ || s[i].code@ == "CABLE_VOLTAGE_EXCEEDED"@)
            &&& mark matches Some(m) ==> exists|i: int|
                0 <= i < s.len() && m == s[i].code@ && speaks_of_port(#[trigger] s[i], port.name@)
                    && (m == "CABLE_CURRENT_LIMIT"@ || m == "CABLE_VOLTAGE_EXCEEDED"@)
                    && forall|j: int|
                    0 <= j < i && speaks_of_port(#[trigger] s[j], port.name@) ==> !(s[j].code@
                        == "CABLE_CURRENT_LIMIT"@ || s[j].code@ == "CABLE_VOLTAGE_EXCEEDED"@)
        }),
{
    crate::diag::origins::codes_differ();
    let about = About::Port(port.name@);
    let p = points_at(ChainKind::Power, about, StageKey::Cable);
    lemma_mark(s, ChainKind::Power, about, StageKey::Cable);
    assert forall|i: int| 0 <= i < s.len() implies p(#[trigger] s[i])
        == (speaks_of_port(s[i], port.name@) && (s[i].code@ == "CABLE_CURRENT_LIMIT"@ || s[i].code@
        == "CABLE_VOLTAGE_EXCEEDED"@)) by {}
    let mark = mark_of(s, ChainKind::Power, about, StageKey::Cable);
    assert(power_stages(port, partner, s)[1].marked_by == mark);
    if exists|i: int| 0 <= i < s.len() && speaks_of_port(#[trigger] s[i], port.name@) && (s[i].code@
        == "CABLE_CURRENT_LIMIT"@ || s[i].code@ == "CABLE_VOLTAGE_EXCEEDED"@) {
        let i = choose|i: int| 0 <= i < s.len() && speaks_of_port(#[trigger] s[i], port.name@)
            && (s[i].code@ == "CABLE_CURRENT_LIMIT"@ || s[i].code@ == "CABLE_VOLTAGE_EXCEEDED"@);
        assert(p(s[i]));
    }
    if mark is Some {
        let i = choose|i: int|
            0 <= i < s.len() && mark->0 == (#[trigger] s[i]).code@ && p(s[i]) && (forall|j: int|
                0 <= j < i ==> !p(#[trigger] s[j]));
        assert(speaks_of_port(s[i], port.name@));
    }
}

/// The contract is the limit where a finding says that it is missing or short.
pub proof fn a_weak_contract_marks_the_contract(port: TypecPort, partner: Partner, s: Seq<Finding>)
    ensures
        ({
            let mark = power_stages(port, partner, s)[2].marked_by;
            &&& mark is Some <==> exists|i: int|
                0 <= i < s.len() && speaks_of_port(#[trigger] s[i], port.name@) && (s[i].code@
                    == "PD_CONTRACT_BELOW_OFFER"@ || s[i].code@ == "PD_NO_CONTRACT"@)
            &&& mark matches Some(m) ==> exists|i: int|
                0 <= i < s.len() && m == s[i].code@ && speaks_of_port(#[trigger] s[i], port.name@)
                    && (m == "PD_CONTRACT_BELOW_OFFER"@ || m == "PD_NO_CONTRACT"@) && forall|j: int|
                    0 <= j < i && speaks_of_port(#[trigger] s[j], port.name@) ==> !(s[j].code@
                        == "PD_CONTRACT_BELOW_OFFER"@ || s[j].code@ == "PD_NO_CONTRACT"@)
        }),
{
    crate::diag::origins::codes_differ();
    let about = About::Port(port.name@);
    let p = points_at(ChainKind::Power, about, StageKey::Agreed);
    lemma_mark(s, ChainKind::Power, about, StageKey::Agreed);
    assert forall|i: int| 0 <= i < s.len() implies p(#[trigger] s[i])
        == (speaks_of_port(s[i], port.name@) && (s[i].code@ == "PD_CONTRACT_BELOW_OFFER"@
        || s[i].code@ == "PD_NO_CONTRACT"@)) by {}
    let mark = mark_of(s, ChainKind::Power, about, StageKey::Agreed);
    assert(power_stages(port, partner, s)[2].marked_by == mark);
    if exists|i: int| 0 <= i < s.len() && speaks_of_port(#[trigger] s[i], port.name@) && (s[i].code@
        == "PD_CONTRACT_BELOW_OFFER"@ || s[i].code@ == "PD_NO_CONTRACT"@) {
        let i = choose|i: int| 0 <= i < s.len() && speaks_of_port(#[trigger] s[i], port.name@)
            && (s[i].code@ == "PD_CONTRACT_BELOW_OFFER"@ || s[i].code@ == "PD_NO_CONTRACT"@);
        assert(p(s[i]));
    }
    if mark is Some {
        let i = choose|i: int|
            0 <= i < s.len() && mark->0 == (#[trigger] s[i]).code@ && p(s[i]) && (forall|j: int|
                0 <= j < i ==> !p(#[trigger] s[j]));
        assert(speaks_of_port(s[i], port.name@));
    }
}

/// The link is the limit where a finding about the device says that it came up
/// slower than it could.
pub proof fn a_slow_link_marks_the_link(snap: Snapshot, dev: UsbDevice, s: Seq<Finding>)
    ensures
        ({
            let mark = data_stages(snap, dev, s)[3].marked_by;
            &&& mark is Some <==> exists|i: int|
                0 <= i < s.len() && speaks_of_device(#[trigger] s[i], dev.sysfs_name@)
                    && (s[i].code@ == "LINK_BELOW_DEVICE_CAPABILITY"@ || s[i].code@
                    == "LINK_SLOW_DESPITE_CAPABLE_CABLE"@ || s[i].code@ == "LINK_SINGLE_LANE"@
                    || s[i].code@ == "USB4_LINK_BELOW_CAPABILITY"@ || s[i].code@ == "SS_HALF_IDLE"@
                    || s[i].code@ == "SS_HALF_FAILED"@)
            &&& mark matches Some(m) ==> exists|i: int|
                0 <= i < s.len() && m == s[i].code@
                    && speaks_of_device(#[trigger] s[i], dev.sysfs_name@) && (m
                    == "LINK_BELOW_DEVICE_CAPABILITY"@ || m == "LINK_SLOW_DESPITE_CAPABLE_CABLE"@
                    || m == "LINK_SINGLE_LANE"@ || m == "USB4_LINK_BELOW_CAPABILITY"@ || m
                    == "SS_HALF_IDLE"@ || m == "SS_HALF_FAILED"@) && forall|j: int|
                    0 <= j < i && speaks_of_device(#[trigger] s[j], dev.sysfs_name@)
                        ==> !(s[j].code@ == "LINK_BELOW_DEVICE_CAPABILITY"@ || s[j].code@
                        == "LINK_SLOW_DESPITE_CAPABLE_CABLE"@ || s[j].code@ == "LINK_SINGLE_LANE"@
                        || s[j].code@ == "USB4_LINK_BELOW_CAPABILITY"@ || s[j].code@
                        == "SS_HALF_IDLE"@ || s[j].code@ == "SS_HALF_FAILED"@)
        }),
{
    crate::diag::origins::codes_differ();
    let about = About::Device(dev.sysfs_name@);
    let p = points_at(ChainKind::Data, about, StageKey::Achieved);
    lemma_mark(s, ChainKind::Data, about, StageKey::Achieved);
    assert forall|i: int| 0 <= i < s.len() implies p(#[trigger] s[i])
        == (speaks_of_device(s[i], dev.sysfs_name@) && (s[i].code@
        == "LINK_BELOW_DEVICE_CAPABILITY"@ || s[i].code@ == "LINK_SLOW_DESPITE_CAPABLE_CABLE"@
        || s[i].code@ == "LINK_SINGLE_LANE"@ || s[i].code@ == "USB4_LINK_BELOW_CAPABILITY"@
        || s[i].code@ == "SS_HALF_IDLE"@ || s[i].code@ == "SS_HALF_FAILED"@)) by {}
    let mark = mark_of(s, ChainKind::Data, about, StageKey::Achieved);
    assert(data_stages(snap, dev, s)[3].marked_by == mark);
    if exists|i: int| 0 <= i < s.len() && speaks_of_device(#[trigger] s[i], dev.sysfs_name@)
        && (s[i].code@ == "LINK_BELOW_DEVICE_CAPABILITY"@ || s[i].code@
        == "LINK_SLOW_DESPITE_CAPABLE_CABLE"@ || s[i].code@ == "LINK_SINGLE_LANE"@ || s[i].code@
        == "USB4_LINK_BELOW_CAPABILITY"@ || s[i].code@ == "SS_HALF_IDLE"@ || s[i].code@
        == "SS_HALF_FAILED"@) {
        let i = choose|i: int| 0 <= i < s.len()
            && speaks_of_device(#[trigger] s[i], dev.sysfs_name@) && (s[i].code@
            == "LINK_BELOW_DEVICE_CAPABILITY"@ || s[i].code@ == "LINK_SLOW_DESPITE_CAPABLE_CABLE"@
            || s[i].code@ == "LINK_SINGLE_LANE"@ || s[i].code@ == "USB4_LINK_BELOW_CAPABILITY"@
            || s[i].code@ == "SS_HALF_IDLE"@ || s[i].code@ == "SS_HALF_FAILED"@);
        assert(p(s[i]));
    }
    if mark is Some {
        let i = choose|i: int|
            0 <= i < s.len() && mark->0 == (#[trigger] s[i]).code@ && p(s[i]) && (forall|j: int|
                0 <= j < i ==> !p(#[trigger] s[j]));
        assert(speaks_of_device(s[i], dev.sysfs_name@));
    }
}

/// The cable is the limit of a link where a finding about the device says so.
pub proof fn a_usb2_cable_marks_the_cable(snap: Snapshot, dev: UsbDevice, s: Seq<Finding>)
    ensures
        ({
            let mark = data_stages(snap, dev, s)[1].marked_by;
            &&& mark is Some <==> exists|i: int|
                0 <= i < s.len() && speaks_of_device(#[trigger] s[i], dev.sysfs_name@)
                    && (s[i].code@ == "CABLE_DATA_LIMIT"@)
            &&& mark matches Some(m) ==> exists|i: int|
                0 <= i < s.len() && m == s[i].code@
                    && speaks_of_device(#[trigger] s[i], dev.sysfs_name@) && (m
                    == "CABLE_DATA_LIMIT"@) && forall|j: int|
                    0 <= j < i && speaks_of_device(#[trigger] s[j], dev.sysfs_name@)
                        ==> !(s[j].code@ == "CABLE_DATA_LIMIT"@)
        }),
{
    crate::diag::origins::codes_differ();
    let about = About::Device(dev.sysfs_name@);
    let p = points_at(ChainKind::Data, about, StageKey::Cable);
    lemma_mark(s, ChainKind::Data, about, StageKey::Cable);
    assert forall|i: int| 0 <= i < s.len() implies p(#[trigger] s[i])
        == (speaks_of_device(s[i], dev.sysfs_name@) && (s[i].code@ == "CABLE_DATA_LIMIT"@)) by {}
    let mark = mark_of(s, ChainKind::Data, about, StageKey::Cable);
    assert(data_stages(snap, dev, s)[1].marked_by == mark);
    if exists|i: int| 0 <= i < s.len() && speaks_of_device(#[trigger] s[i], dev.sysfs_name@)
        && (s[i].code@ == "CABLE_DATA_LIMIT"@) {
        let i = choose|i: int| 0 <= i < s.len()
            && speaks_of_device(#[trigger] s[i], dev.sysfs_name@) && (s[i].code@
            == "CABLE_DATA_LIMIT"@);
        assert(p(s[i]));
    }
    if mark is Some {
        let i = choose|i: int|
            0 <= i < s.len() && mark->0 == (#[trigger] s[i]).code@ && p(s[i]) && (forall|j: int|
                0 <= j < i ==> !p(#[trigger] s[j]));
        assert(speaks_of_device(s[i], dev.sysfs_name@));
    }
}

/// No finding says that this machine accepts too little, that a device claims too
/// little, or that the path is too narrow.
pub proof fn some_stages_are_never_marked(
    port: TypecPort,
    partner: Partner,
    snap: Snapshot,
    dev: UsbDevice,
    s: Seq<Finding>,
)
    ensures
        power_stages(port, partner, s)[3].marked_by is None,
        data_stages(snap, dev, s)[0].marked_by is None,
        data_stages(snap, dev, s)[2].marked_by is None,
{
    lemma_mark(s, ChainKind::Power, About::Port(port.name@), StageKey::Achieved);
    lemma_mark(s, ChainKind::Data, About::Device(dev.sysfs_name@), StageKey::Offer);
    lemma_mark(s, ChainKind::Data, About::Device(dev.sysfs_name@), StageKey::Agreed);
    assert forall|i: int| 0 <= i < s.len() implies !points_at(
        ChainKind::Power,
        About::Port(port.name@),
        StageKey::Achieved,
    )(#[trigger] s[i]) && !points_at(
        ChainKind::Data,
        About::Device(dev.sysfs_name@),
        StageKey::Offer,
    )(s[i]) && !points_at(ChainKind::Data, About::Device(dev.sysfs_name@), StageKey::Agreed)(
        s[i],
    ) by {}
}

/// One finding about a port marks at most one stage of its power chain, the one
/// that its code names, and the chain is limited by it.
pub proof fn a_lone_finding_marks_one_stage(port: TypecPort, partner: Partner, f: Finding)
    requires
        speaks_of_port(f, port.name@),
    ensures
        ({
            let st = power_stages(port, partner, seq![f]);
            let code = f.code@;
            &&& st.len() == 4
            &&& st[0].marked_by == (if code == "PARTNER_NO_PD"@ || code
                == "SINK_UNDERPOWERED_NO_PD"@ || code
                == "PD_SOURCE_BELOW_SINK_CAPABILITY"@ { Some(code) } else { None })
            &&& st[1].marked_by == (if code == "CABLE_CURRENT_LIMIT"@ || code
                == "CABLE_VOLTAGE_EXCEEDED"@ { Some(code) } else { None })
            &&& st[2].marked_by == (if code == "PD_CONTRACT_BELOW_OFFER"@ || code
                == "PD_NO_CONTRACT"@ { Some(code) } else { None })
            &&& st[3].marked_by is None
            &&& first_mark(st) is Some <==> code == "PARTNER_NO_PD"@ || code
                == "SINK_UNDERPOWERED_NO_PD"@ || code == "PD_SOURCE_BELOW_SINK_CAPABILITY"@ || code
                == "CABLE_CURRENT_LIMIT"@ || code == "CABLE_VOLTAGE_EXCEEDED"@ || code
                == "PD_CONTRACT_BELOW_OFFER"@ || code == "PD_NO_CONTRACT"@
            &&& first_mark(st) matches Some(m) ==> m == code
        }),
{
    crate::diag::origins::codes_differ();
    let s = seq![f];
    let st = power_stages(port, partner, s);
    a_weak_supply_marks_the_offer(port, partner, s);
    a_weak_cable_marks_the_cable(port, partner, s);
    a_weak_contract_marks_the_contract(port, partner, s);
    some_stages_are_never_marked(
        port,
        partner,
        arbitrary(),
        arbitrary(),
        s,
    );
    assert(speaks_of_port(s[0], port.name@));
    reveal_with_fuel(first_mark, 5);
    assert(st.skip(1)[0] == st[1]);
    assert(st.skip(1).skip(1)[0] == st[2]);
    assert(st.skip(1).skip(1).skip(1)[0] == st[3]);
    assert(st.skip(1).skip(1).skip(1).skip(1).len() == 0);
}

/// A chain is limited by the first of its stages that is marked.
pub proof fn the_first_mark_limits(st: Seq<Ceiling>)
    ensures
        first_mark(st) is None <==> (forall|i: int|
            0 <= i < st.len() ==> (#[trigger] st[i]).marked_by is None),
        first_mark(st) matches Some(m) ==> exists|i: int|
            0 <= i < st.len() && (#[trigger] st[i]).marked_by == Some(m) && (forall|j: int|
                0 <= j < i ==> (#[trigger] st[j]).marked_by is None),
    decreases st.len(),
{
    if st.len() > 0 && st[0].marked_by is None {
        let t = st.skip(1);
        the_first_mark_limits(t);
        assert forall|i: int| 0 < i < st.len() implies #[trigger] st[i] == t[i - 1] by {}
        assert forall|i: int| 0 <= i < t.len() implies #[trigger] t[i] == st[i + 1] by {}
        if let Some(m) = first_mark(t) {
            let i = choose|i: int|
                0 <= i < t.len() && (#[trigger] t[i]).marked_by == Some(m) && (forall|j: int|
                    0 <= j < i ==> (#[trigger] t[j]).marked_by is None);
            assert(st[i + 1].marked_by == Some(m));
            assert forall|j: int| 0 <= j < i + 1 implies (#[trigger] st[j]).marked_by is None by {
                if j > 0 {
                    assert(t[j - 1].marked_by is None);
                }
            }
        }
    }
}

/// The four figures of a power chain: the charger's best offer, or what its
/// resistors allow; the cable's rating at the voltage in effect; what the
/// contract comes to; and the best that this machine takes.
pub proof fn the_power_figures(port: TypecPort, partner: Partner, s: Seq<Finding>)
    ensures
        ({
            let st = power_stages(port, partner, s);
            let v = match port.power_supply {
                Some(ps) => ps.voltage_now_mv,
                None => None,
            };
            let i = match port.power_supply {
                Some(ps) => ps.current_now_ma,
                None => None,
            };
            let rated = match port.cable {
                Some(c) => match c.identity {
                    Some(d) => d.decoded.cable_current_ma,
                    None => None,
                },
                None => None,
            };
            &&& st[0].key == StageKey::Offer && st[1].key == StageKey::Cable && st[2].key
                == StageKey::Agreed && st[3].key == StageKey::Achieved
            &&& st[0].cap == "charger offers"@ && st[1].cap == "cable carries"@ && st[2].cap
                == "contract"@ && st[3].cap == "this machine accepts"@
            &&& forall|k: int| 0 <= k < 4 ==> (#[trigger] st[k]).mbps is None
            &&& partner.pd matches Some(pd) ==> forall|m: u32|
                #[trigger] is_largest(pd.source_capabilities@, m) ==> st[0].watts_mw == Some(m)
            &&& (forall|k: int|
                partner.pd is Some && 0 <= k < partner.pd->0.source_capabilities@.len() ==> (
                #[trigger] partner.pd->0.source_capabilities@[k]).power() is None) ==> (forall|
                mw: int,
            | #[trigger] ceiling(port, mw) ==> st[0].watts_mw == Some(mw as u32))
            &&& v == Some(0u32) || v is None || (rated is None && !(i matches Some(ma)
                && ma > 3000))
                ==> st[1].watts_mw is None
            &&& (v matches Some(mv) && mv > 0) ==> {
                &&& rated matches Some(ma) ==> st[1].watts_mw == Some((v->0 * ma / 1000) as u32)
                &&& rated is None && (i matches Some(ma) && ma > 3000) ==> st[1].watts_mw == Some(
                    (v->0 * 5000 / 1000) as u32,
                )
            }
            &&& (v matches Some(mv) && mv > 0) && (i matches Some(ma) && ma > 0) ==> st[2].watts_mw
                == Some((v->0 * i->0 / 1000) as u32)
            &&& !((v matches Some(mv) && mv > 0) && (i matches Some(ma) && ma > 0))
                ==> st[2].watts_mw is None && st[2].value == "none"@
            &&& port.local_pd is None ==> st[3].watts_mw is None
            &&& port.local_pd matches Some(pd) ==> forall|m: u32|
                st[3].watts_mw == Some(m) <==> #[trigger] is_largest(pd.sink_capabilities@, m)
        }),
{
    let st = power_stages(port, partner, s);
    if let Some(pd) = partner.pd {
        the_most_is_the_largest(pd.source_capabilities@);
    }
    if let Some(pd) = port.local_pd {
        the_most_is_the_largest(pd.sink_capabilities@);
    }
    reveal_strlit("default");
    reveal_strlit("1.5A");
    reveal_strlit("3.0A");
    assert("default"@.len() == 7 && "1.5A"@.len() == 4 && "3.0A"@.len() == 4);
    assert("1.5A"@[0] == '1' && "3.0A"@[0] == '3');
}

/// The four figures of a data chain: a rate only where the version names one,
/// none for a cable, the narrowest link on the way up, and the link itself.
pub proof fn the_data_figures(snap: Snapshot, dev: UsbDevice, s: Seq<Finding>)
    ensures
        ({
            let st = data_stages(snap, dev, s);
            &&& st.len() == 4
            &&& st[0].key == StageKey::Offer && st[1].key == StageKey::Cable && st[2].key
                == StageKey::Agreed && st[3].key == StageKey::Achieved
            &&& st[0].cap == "device claims"@ && st[1].cap == "cable carries"@ && st[2].cap
                == "path allows"@ && st[3].cap == "link reached"@
            &&& forall|k: int| 0 <= k < 4 ==> (#[trigger] st[k]).watts_mw is None
            &&& st[0].mbps is Some <==> (dev.usb_version_num matches Some(v)
                && 3_000_000 <= v.micros
                < 3_100_000)
            &&& st[0].mbps matches Some(r) ==> r.micros == 5_000_000_000
            &&& st[1].mbps is None
            &&& st[2].mbps is None <==> narrowest_hop(snap, dev) is None
            &&& narrowest_hop(snap, dev) matches Some(h) ==> st[2].mbps == Some(h.mbps)
            &&& st[3].mbps is Some <==> dev.speed is Some
            &&& dev.speed matches Some(x) ==> st[3].mbps == Some(x.mbps) && st[3].sub == x.label@
        }),
{
}

/// The narrowest hop is the link of something upstream, by its name.
pub proof fn the_narrowest_hop_is_upstream(
    devs: Seq<UsbDevice>,
    d: UsbDevice,
    best: Option<Hop>,
    steps: nat,
)
    ensures
        narrowest(devs, d, best, steps) == best || exists|k: nat|
            1 <= k <= steps && (#[trigger] crate::snapshot::ancestor_at(devs, d, k) matches Some(up)
                && up.speed is Some && narrowest(devs, d, best, steps) == Some(
                Hop { mbps: up.speed->0.mbps, via: up.sysfs_name@ },
            )),
    decreases steps,
{
    if steps > 0 {
        if let Some(up) = parent_in(devs, d) {
            let next = narrower(best, up);
            let r = narrowest(devs, up, next, (steps - 1) as nat);
            the_narrowest_hop_is_upstream(devs, up, next, (steps - 1) as nat);
            assert(crate::snapshot::ancestor_at(devs, d, 0) == Some(d));
            assert(crate::snapshot::ancestor_at(devs, d, 1) == Some(up));
            if r != next {
                let k = choose|k: nat|
                    1 <= k <= steps - 1 && (#[trigger] crate::snapshot::ancestor_at(
                        devs,
                        up,
                        k,
                    ) matches Some(u) && u.speed is Some && r == Some(
                        Hop { mbps: u.speed->0.mbps, via: u.sysfs_name@ },
                    ));
                lemma_step_more(devs, d, up, k);
                assert(crate::snapshot::ancestor_at(devs, d, k + 1) is Some);
            }
        }
    }
}

proof fn lemma_step_more(devs: Seq<UsbDevice>, d: UsbDevice, up: UsbDevice, k: nat)
    requires
        parent_in(devs, d) == Some(up),
    ensures
        crate::snapshot::ancestor_at(devs, d, k + 1) == crate::snapshot::ancestor_at(devs, up, k),
    decreases k,
{
    if k == 0 {
        assert(crate::snapshot::ancestor_at(devs, d, 0) == Some(d));
    } else {
        lemma_step_more(devs, d, up, (k - 1) as nat);
    }
}

/// A whole rate is written without a fraction, in Gbps from 1000 Mbps on.
pub proof fn a_whole_rate_has_no_fraction(k: u64)
    ensures
        1 <= k <= 1_000_000 ==> rate_text(Decimal { micros: (k * 1_000_000_000) as u64 }) == dec(
            k as nat,
        ) + " Gbps"@,
        k < 1000 ==> rate_text(Decimal { micros: (k * 1_000_000) as u64 }) == dec(k as nat)
            + " Mbps"@,
{
}

} // verus!
