//! When each finding is reported and when it is not, in terms of the readings.

use vstd::prelude::*;
use crate::diag::analysis::analysis;
use crate::diag::cable::{behind, cable_statements, devices_behind, slow_despite_cable};
use crate::diag::origins::{
    cable_origin, came_from, codes_differ, gets_reported, id, lemma_in_gathered, lemma_single,
    piece, port_origin, ports_piece,
};
use crate::diag::port::{
    attached_statements, cable_part, contract_below_offer, dp_not_active, offered, partner_no_pd,
    pd_no_contract, port_statements, sink_underpowered, source_below_sink, wanted,
};
use crate::model::{
    most_power, About, Battery, Confidence, HubPort, Identity, Partner, Pdo, RoleField, Severity,
    Snapshot, Statement, TypecPort, UsbDevice,
};
use crate::seqs::gathered;
use crate::text::{holds_text, lowered};

verus! {

// ---------------------------------------------------------------------------
// readings
// ---------------------------------------------------------------------------

/// A finding with a code is reported about a subject.
pub open spec fn reports(snap: Snapshot, code: Seq<char>, a: About) -> bool {
    exists|x: Statement| #[trigger] analysis(snap).contains(x) && x.code == code && x.subject == a
}

pub open spec fn reads(o: Option<String>, word: Seq<char>) -> bool {
    o matches Some(s) && s@ == word
}

/// The role in effect, whatever its case.
pub open spec fn in_role(o: Option<RoleField>, word: Seq<char>) -> bool {
    o matches Some(f) && f.current matches Some(c) && lowered(c@) == word
}

/// One of the offers comes to more than this.
pub open spec fn some_above(s: Seq<Pdo>, mw: int) -> bool {
    exists|i: int| 0 <= i < s.len() && ((#[trigger] s[i]).power() matches Some(p) && p > mw)
}

/// The largest of the offers.
pub open spec fn is_largest(s: Seq<Pdo>, m: u32) -> bool {
    &&& exists|i: int| 0 <= i < s.len() && (#[trigger] s[i]).power() == Some(m)
    &&& forall|i: int| 0 <= i < s.len() ==> ((#[trigger] s[i]).power() matches Some(p) ==> p <= m)
}

/// What the resistors alone permit, by the advertisement.
pub open spec fn ceiling(port: TypecPort, mw: int) -> bool {
    ||| reads(port.power_operation_mode, "default"@) && mw == 4_500
    ||| reads(port.power_operation_mode, "1.5A"@) && mw == 7_500
    ||| reads(port.power_operation_mode, "3.0A"@) && mw == 15_000
}

/// Drawing without a contract from what does not speak PD, and able to take
/// more than twice of it.
pub open spec fn starved(port: TypecPort, partner: Partner) -> bool {
    &&& in_role(port.power_role, "sink"@)
    &&& !reads(port.power_operation_mode, "usb_power_delivery"@)
    &&& partner.supports_pd != Some(true)
    &&& port.local_pd matches Some(pd) && exists|c: int| #[trigger]
        ceiling(port, c) && some_above(pd.sink_capabilities@, 2 * c)
}

pub open spec fn says_usb3(port: TypecPort) -> bool {
    port.usb_capability matches Some(c) && exists|i: int|
        0 <= i < c.supported@.len() && holds_text((#[trigger] c.supported@[i])@, "usb3"@)
}

/// The e-marker of a port's cable.
pub open spec fn marked(port: TypecPort, d: Identity) -> bool {
    port.partner is Some && (port.cable matches Some(c) && c.identity == Some(d))
}

pub open spec fn version_from(dev: UsbDevice, micros: u64) -> bool {
    dev.usb_version_num matches Some(v) && v.micros >= micros
}

pub open spec fn linked_to(dev: UsbDevice, micros: u64) -> bool {
    dev.speed matches Some(s) && s.mbps.micros <= micros
}

/// A hub port links the device to the Type-C port of this name.
pub open spec fn stands_behind(snap: Snapshot, name: Seq<char>, dev: UsbDevice) -> bool {
    exists|h: int, j: int|
        0 <= h < snap.all().len() && 0 <= j < snap.all()[h].ports@.len() && links(
            snap,
            #[trigger] snap.all()[h].ports@[j],
            name,
            dev,
        )
}

/// A hub port that names a connector, and the device in it.
pub open spec fn links(snap: Snapshot, p: HubPort, name: Seq<char>, dev: UsbDevice) -> bool {
    reads(p.connector, name) && (p.child matches Some(d) && snap.named(d@) == Some(dev))
}

pub open spec fn gains_nothing(b: Battery) -> bool {
    reads(b.status, "Discharging"@) || (reads(b.status, "Charging"@) && (
    b.power_now_w matches Some(w) && w.micros == 0))
}

// ---------------------------------------------------------------------------
// steps
// ---------------------------------------------------------------------------

proof fn lemma_role(o: Option<RoleField>)
    ensures
        crate::model::role_is(o, "sink"@) <==> in_role(o, "sink"@),
        crate::model::role_is(o, "source"@) <==> in_role(o, "source"@),
{
    reveal_strlit("sink");
    reveal_strlit("source");
    assert(lowered("sink"@) =~= "sink"@);
    assert(lowered("source"@) =~= "source"@);
}

/// The most power that a list of offers comes to is the largest of them.
pub proof fn the_most_is_the_largest(s: Seq<Pdo>)
    ensures
        forall|m: u32| most_power(s) == Some(m) <==> is_largest(s, m),
        most_power(s) is None <==> (forall|i: int|
            0 <= i < s.len() ==> (#[trigger] s[i]).power() is None),
        forall|n: int| (most_power(s) matches Some(m) && m > n) <==> #[trigger] some_above(s, n),
    decreases s.len(),
{
    if s.len() > 0 {
        let t = s.drop_last();
        the_most_is_the_largest(t);
        assert forall|i: int| 0 <= i < t.len() implies #[trigger] s[i] == t[i] by {}
        assert(s[s.len() - 1] == s.last());
        if let Some(m) = most_power(t) {
            assert(is_largest(t, m));
            let i = choose|i: int| 0 <= i < t.len() && (#[trigger] t[i]).power() == Some(m);
            assert(s[i].power() == Some(m));
        }
        assert forall|i: int| 0 <= i < s.len() implies (#[trigger] s[i]).power() is None || (
        most_power(s) matches Some(m) && s[i].power()->0 <= m) by {
            if i < t.len() {
                assert(t[i].power() == s[i].power());
            }
        }
        assert(most_power(s) matches Some(m) ==> is_largest(s, m));
        assert forall|m: u32| is_largest(s, m) implies most_power(s) == Some(m) by {
            let i = choose|i: int| 0 <= i < s.len() && (#[trigger] s[i]).power() == Some(m);
            let k = most_power(s)->0;
            assert(is_largest(s, k));
            let j = choose|j: int| 0 <= j < s.len() && (#[trigger] s[j]).power() == Some(k);
            assert(s[i].power()->0 <= k && s[j].power()->0 <= m);
        }
        assert forall|n: int| (most_power(s) matches Some(m) && m > n) <==> #[trigger] some_above(
            s,
            n,
        ) by {
            if most_power(s) matches Some(m) && m > n {
                let i = choose|i: int| 0 <= i < s.len() && (#[trigger] s[i]).power() == most_power(s);
                assert(s[i].power() == most_power(s));
            }
        }
    }
}

/// The devices behind a port are those that a hub port links to it.
pub proof fn behind_is_linked(snap: Snapshot, name: Seq<char>, dev: UsbDevice)
    ensures
        devices_behind(snap, name).contains(dev) <==> stands_behind(snap, name, dev),
{
    let f = behind(snap, name);
    lemma_gathered_any(snap.all_ports(), f, dev);
    let g = crate::snapshot::ports_of();
    if devices_behind(snap, name).contains(dev) {
        let k = choose|k: int|
            0 <= k < snap.all_ports().len() && f(#[trigger] snap.all_ports()[k]).contains(dev);
        let p = snap.all_ports()[k];
        lemma_gathered_any(snap.all(), g, p);
        let h = choose|h: int| 0 <= h < snap.all().len() && g(#[trigger] snap.all()[h]).contains(p);
        let j = choose|j: int| 0 <= j < snap.all()[h].ports@.len() && snap.all()[h].ports@[j] == p;
        assert(snap.all()[h].ports@[j].connector is Some);
        assert(f(p).len() > 0);
        assert(links(snap, snap.all()[h].ports@[j], name, dev));
    }
    if stands_behind(snap, name, dev) {
        let (h, j) = choose|h: int, j: int|
            0 <= h < snap.all().len() && 0 <= j < snap.all()[h].ports@.len() && links(
                snap,
                #[trigger] snap.all()[h].ports@[j],
                name,
                dev,
            );
        let p = snap.all()[h].ports@[j];
        assert(g(snap.all()[h]).contains(p));
        lemma_gathered_any(snap.all(), g, p);
        let k = choose|k: int| 0 <= k < snap.all_ports().len() && snap.all_ports()[k] == p;
        assert(f(snap.all_ports()[k])[0] == dev);
        assert(f(snap.all_ports()[k]).contains(dev));
    }
}

pub proof fn lemma_gathered_any<T, U>(s: Seq<T>, f: spec_fn(T) -> Seq<U>, y: U)
    ensures
        gathered(s, f).contains(y) <==> exists|i: int|
            0 <= i < s.len() && f(#[trigger] s[i]).contains(y),
    decreases s.len(),
{
    if s.len() > 0 {
        let t = s.drop_last();
        let a = gathered(t, f);
        let b = f(s.last());
        lemma_gathered_any(t, f, y);
        assert(s[s.len() - 1] == s.last());
        if (a + b).contains(y) {
            let i = choose|i: int| 0 <= i < (a + b).len() && (a + b)[i] == y;
            if i < a.len() {
                assert(a[i] == y);
                let j = choose|j: int| 0 <= j < t.len() && f(#[trigger] t[j]).contains(y);
                assert(s[j] == t[j]);
            } else {
                assert(b[i - a.len()] == y);
            }
        }
        if exists|i: int| 0 <= i < s.len() && f(#[trigger] s[i]).contains(y) {
            let i = choose|i: int| 0 <= i < s.len() && f(#[trigger] s[i]).contains(y);
            if i < t.len() {
                assert(t[i] == s[i]);
                let j = choose|j: int| 0 <= j < a.len() && a[j] == y;
                assert((a + b)[j] == y);
            } else {
                let j = choose|j: int| 0 <= j < b.len() && b[j] == y;
                assert((a + b)[a.len() + j] == y);
            }
        }
    }
}

/// What is reported of ports was stated of one of them.
proof fn from_port(snap: Snapshot, x: Statement) -> (r: (int, Statement))
    requires
        analysis(snap).contains(x),
        6 <= id(x.code) <= 17,
    ensures
        0 <= r.0 < snap.ports@.len(),
        snap.ports@[r.0].partner is Some,
        attached_statements(snap, snap.ports@[r.0], snap.ports@[r.0].partner->0).contains(r.1),
        id(x.code) != 17 ==> x == r.1,
        crate::diag::origins::reported_from(x, r.1),
{
    ports_piece(snap);
    let y = came_from(snap, x);
    let f = port_statements(snap);
    lemma_in_gathered(snap.ports@, f, y);
    let i = choose|i: int| 0 <= i < snap.ports@.len() && f(#[trigger] snap.ports@[i]).contains(y);
    assert(f(snap.ports@[i]).len() > 0);
    (i, y)
}

/// What is stated of a port is reported.
proof fn of_port(snap: Snapshot, i: int, y: Statement)
    requires
        0 <= i < snap.ports@.len(),
        snap.ports@[i].partner is Some,
        attached_statements(snap, snap.ports@[i], snap.ports@[i].partner->0).contains(y),
        6 <= id(y.code) <= 17,
    ensures
        reports(snap, y.code, y.subject),
{
    ports_piece(snap);
    let f = port_statements(snap);
    assert(f(snap.ports@[i]).contains(y));
    lemma_in_gathered(snap.ports@, f, y);
    assert(piece(snap, 2).contains(y));
    let x = gets_reported(snap, y);
}

// ---------------------------------------------------------------------------
// ports
// ---------------------------------------------------------------------------

/// A machine starved of power by a supply without PD is reported, and only such
/// a one.
pub proof fn starving_is_reported(snap: Snapshot)
    ensures
        forall|x: Statement| #[trigger]
            analysis(snap).contains(x) && x.code == "SINK_UNDERPOWERED_NO_PD"@ ==> x.severity
                == Severity::Medium && x.confidence == Confidence::Measured && exists|i: int|
                0 <= i < snap.ports@.len() && (#[trigger] snap.ports@[i]).partner is Some && starved(
                    snap.ports@[i],
                    snap.ports@[i].partner->0,
                ) && x.subject == About::Port(snap.ports@[i].name@),
        forall|i: int|
            0 <= i < snap.ports@.len() && (#[trigger] snap.ports@[i]).partner is Some && starved(
                snap.ports@[i],
                snap.ports@[i].partner->0,
            ) ==> reports(snap, "SINK_UNDERPOWERED_NO_PD"@, About::Port(snap.ports@[i].name@)),
{
    codes_differ();
    assert forall|x: Statement| #[trigger]
        analysis(snap).contains(x) && x.code == "SINK_UNDERPOWERED_NO_PD"@ implies x.severity
        == Severity::Medium && x.confidence == Confidence::Measured && exists|i: int|
        0 <= i < snap.ports@.len() && (#[trigger] snap.ports@[i]).partner is Some && starved(
            snap.ports@[i],
            snap.ports@[i].partner->0,
        ) && x.subject == About::Port(snap.ports@[i].name@) by {
        let (i, y) = from_port(snap, x);
        port_origin(snap, snap.ports@[i], snap.ports@[i].partner->0, y);
        lemma_starved(snap.ports@[i], snap.ports@[i].partner->0);
    }
    assert forall|i: int|
        0 <= i < snap.ports@.len() && (#[trigger] snap.ports@[i]).partner is Some && starved(
            snap.ports@[i],
            snap.ports@[i].partner->0,
        ) implies reports(snap, "SINK_UNDERPOWERED_NO_PD"@, About::Port(snap.ports@[i].name@)) by {
        let p = snap.ports@[i].partner->0;
        lemma_starved(snap.ports@[i], p);
        let y = sink_underpowered(snap.ports@[i], p)->0;
        port_origin(snap, snap.ports@[i], p, y);
        of_port(snap, i, y);
    }
}

proof fn lemma_starved(port: TypecPort, partner: Partner)
    ensures
        crate::diag::port::underpowered(port, partner) <==> starved(port, partner),
{
    lemma_role(port.power_role);
    reveal_strlit("default");
    reveal_strlit("1.5A");
    reveal_strlit("3.0A");
    assert("default"@.len() == 7 && "1.5A"@.len() == 4 && "3.0A"@.len() == 4);
    assert("1.5A"@[0] == '1' && "3.0A"@[0] == '3');
    if let Some(pd) = port.local_pd {
        the_most_is_the_largest(pd.sink_capabilities@);
        if crate::diag::port::underpowered(port, partner) {
            let c = port.advertised_mw()->0 as int;
            assert(ceiling(port, c));
            assert(some_above(pd.sink_capabilities@, 2 * c));
        }
        if starved(port, partner) {
            let c = choose|c: int| #[trigger]
                ceiling(port, c) && some_above(pd.sink_capabilities@, 2 * c);
            assert(port.advertised_mw() == Some(c as u32));
        }
    }
}

/// What does not speak PD is noted where nothing worse is said of it, as a
/// charger or as a device according to which way the power goes.
pub proof fn a_partner_without_pd_is_noted(snap: Snapshot)
    ensures
        forall|x: Statement| #[trigger]
            analysis(snap).contains(x) && x.code == "PARTNER_NO_PD"@ ==> x.severity
                == Severity::Info && x.confidence == Confidence::Measured && exists|i: int|
                0 <= i < snap.ports@.len() && (#[trigger] snap.ports@[i]).partner is Some
                    && snap.ports@[i].partner->0.supports_pd == Some(false) && !starved(
                    snap.ports@[i],
                    snap.ports@[i].partner->0,
                ) && x.subject == About::Port(snap.ports@[i].name@) && x.title == (if in_role(
                    snap.ports@[i].power_role,
                    "source"@,
                ) {
                    "Attached device does not support Power Delivery — 5 V only"@
                } else {
                    "Attached charger does not support Power Delivery — 5 V only"@
                }),
        forall|i: int|
            0 <= i < snap.ports@.len() && (#[trigger] snap.ports@[i]).partner is Some
                && snap.ports@[i].partner->0.supports_pd == Some(false) && !starved(
                snap.ports@[i],
                snap.ports@[i].partner->0,
            ) ==> reports(snap, "PARTNER_NO_PD"@, About::Port(snap.ports@[i].name@)),
{
    codes_differ();
    assert forall|x: Statement| #[trigger]
        analysis(snap).contains(x) && x.code == "PARTNER_NO_PD"@ implies x.severity
        == Severity::Info && x.confidence == Confidence::Measured && exists|i: int|
        0 <= i < snap.ports@.len() && (#[trigger] snap.ports@[i]).partner is Some
            && snap.ports@[i].partner->0.supports_pd == Some(false) && !starved(
            snap.ports@[i],
            snap.ports@[i].partner->0,
        ) && x.subject == About::Port(snap.ports@[i].name@) && x.title == (if in_role(
            snap.ports@[i].power_role,
            "source"@,
        ) {
            "Attached device does not support Power Delivery — 5 V only"@
        } else {
            "Attached charger does not support Power Delivery — 5 V only"@
        }) by {
        let (i, y) = from_port(snap, x);
        port_origin(snap, snap.ports@[i], snap.ports@[i].partner->0, y);
        lemma_starved(snap.ports@[i], snap.ports@[i].partner->0);
        lemma_role(snap.ports@[i].power_role);
    }
    assert forall|i: int|
        0 <= i < snap.ports@.len() && (#[trigger] snap.ports@[i]).partner is Some
            && snap.ports@[i].partner->0.supports_pd == Some(false) && !starved(
            snap.ports@[i],
            snap.ports@[i].partner->0,
        ) implies reports(snap, "PARTNER_NO_PD"@, About::Port(snap.ports@[i].name@)) by {
        let p = snap.ports@[i].partner->0;
        lemma_starved(snap.ports@[i], p);
        let y = partner_no_pd(snap.ports@[i], p)->0;
        port_origin(snap, snap.ports@[i], p, y);
        of_port(snap, i, y);
    }
}

/// A partner that speaks PD without a contract in effect is reported, and only
/// then.
pub proof fn a_missing_contract_is_reported(snap: Snapshot)
    ensures
        forall|x: Statement| #[trigger]
            analysis(snap).contains(x) && x.code == "PD_NO_CONTRACT"@ ==> x.severity
                == Severity::Medium && x.confidence == Confidence::Inferred && exists|i: int|
                0 <= i < snap.ports@.len() && (#[trigger] snap.ports@[i]).partner is Some
                    && snap.ports@[i].partner->0.supports_pd == Some(true) && !reads(
                    snap.ports@[i].power_operation_mode,
                    "usb_power_delivery"@,
                ) && x.subject == About::Port(snap.ports@[i].name@),
        forall|i: int|
            0 <= i < snap.ports@.len() && (#[trigger] snap.ports@[i]).partner is Some
                && snap.ports@[i].partner->0.supports_pd == Some(true) && !reads(
                snap.ports@[i].power_operation_mode,
                "usb_power_delivery"@,
            ) ==> reports(snap, "PD_NO_CONTRACT"@, About::Port(snap.ports@[i].name@)),
{
    codes_differ();
    assert forall|x: Statement| #[trigger]
        analysis(snap).contains(x) && x.code == "PD_NO_CONTRACT"@ implies x.severity
        == Severity::Medium && x.confidence == Confidence::Inferred && exists|i: int|
        0 <= i < snap.ports@.len() && (#[trigger] snap.ports@[i]).partner is Some
            && snap.ports@[i].partner->0.supports_pd == Some(true) && !reads(
            snap.ports@[i].power_operation_mode,
            "usb_power_delivery"@,
        ) && x.subject == About::Port(snap.ports@[i].name@) by {
        let (i, y) = from_port(snap, x);
        port_origin(snap, snap.ports@[i], snap.ports@[i].partner->0, y);
    }
    assert forall|i: int|
        0 <= i < snap.ports@.len() && (#[trigger] snap.ports@[i]).partner is Some
            && snap.ports@[i].partner->0.supports_pd == Some(true) && !reads(
            snap.ports@[i].power_operation_mode,
            "usb_power_delivery"@,
        ) implies reports(snap, "PD_NO_CONTRACT"@, About::Port(snap.ports@[i].name@)) by {
        let p = snap.ports@[i].partner->0;
        let y = pd_no_contract(snap.ports@[i], p)->0;
        port_origin(snap, snap.ports@[i], p, y);
        of_port(snap, i, y);
    }
}

/// The supply's best offer is less than four fifths of the machine's best
/// appetite.
pub open spec fn too_small(port: TypecPort, o: u32, w: u32) -> bool {
    &&& in_role(port.power_role, "sink"@)
    &&& port.partner matches Some(p) && p.pd matches Some(pd) && is_largest(
        pd.source_capabilities@,
        o,
    )
    &&& port.local_pd matches Some(pd) && is_largest(pd.sink_capabilities@, w)
    &&& o * 100 < w * 80
}

proof fn lemma_offers(port: TypecPort, partner: Partner)
    ensures
        forall|m: u32|
            offered(partner) == Some(m) <==> (partner.pd is Some && #[trigger] is_largest(
                partner.pd->0.source_capabilities@,
                m,
            )),
        forall|m: u32|
            wanted(port) == Some(m) <==> (port.local_pd is Some && #[trigger] is_largest(
                port.local_pd->0.sink_capabilities@,
                m,
            )),
        forall|n: int|
            (offered(partner) matches Some(m) && m > n) <==> (partner.pd is Some
                && #[trigger] some_above(partner.pd->0.source_capabilities@, n)),
{
    if let Some(pd) = partner.pd {
        the_most_is_the_largest(pd.source_capabilities@);
    }
    if let Some(pd) = port.local_pd {
        the_most_is_the_largest(pd.sink_capabilities@);
    }
}

/// A charger weaker than the machine is reported while power comes in, and
/// only then; it is worse where a battery is losing for it.
pub proof fn a_weak_charger_is_reported(snap: Snapshot)
    ensures
        forall|x: Statement| #[trigger]
            analysis(snap).contains(x) && x.code == "PD_SOURCE_BELOW_SINK_CAPABILITY"@
                ==> x.confidence == Confidence::Measured && x.severity == (if snap.mains_online
                == Some(true) && exists|k: int|
                0 <= k < snap.batteries@.len() && gains_nothing(#[trigger] snap.batteries@[k]) {
                Severity::Medium
            } else {
                Severity::Low
            }) && exists|i: int, o: u32, w: u32|
                0 <= i < snap.ports@.len() && #[trigger] too_small(snap.ports@[i], o, w)
                    && x.subject == About::Port(snap.ports@[i].name@),
        forall|i: int, o: u32, w: u32|
            0 <= i < snap.ports@.len() && #[trigger] too_small(snap.ports@[i], o, w) ==> reports(
                snap,
                "PD_SOURCE_BELOW_SINK_CAPABILITY"@,
                About::Port(snap.ports@[i].name@),
            ),
{
    codes_differ();
    assert(crate::diag::port::draining(snap) <==> (snap.mains_online == Some(true) && exists|k: int|
        0 <= k < snap.batteries@.len() && gains_nothing(#[trigger] snap.batteries@[k]))) by {
        if crate::diag::port::draining(snap) {
            let k = choose|k: int|
                0 <= k < snap.batteries.len() && (#[trigger] snap.batteries[k]).losing(
                    snap.mains_online == Some(true),
                );
            assert(gains_nothing(snap.batteries@[k]));
        }
        if snap.mains_online == Some(true) && exists|k: int|
            0 <= k < snap.batteries@.len() && gains_nothing(#[trigger] snap.batteries@[k]) {
            let k = choose|k: int|
                0 <= k < snap.batteries@.len() && gains_nothing(#[trigger] snap.batteries@[k]);
            assert(snap.batteries[k].losing(true));
        }
    }
    assert forall|x: Statement| #[trigger]
        analysis(snap).contains(x) && x.code
            == "PD_SOURCE_BELOW_SINK_CAPABILITY"@ implies x.confidence == Confidence::Measured
        && x.severity == (if snap.mains_online == Some(true) && exists|k: int|
        0 <= k < snap.batteries@.len() && gains_nothing(#[trigger] snap.batteries@[k]) {
        Severity::Medium
    } else {
        Severity::Low
    }) && exists|i: int, o: u32, w: u32|
        0 <= i < snap.ports@.len() && #[trigger] too_small(snap.ports@[i], o, w) && x.subject
            == About::Port(snap.ports@[i].name@) by {
        let (i, y) = from_port(snap, x);
        let port = snap.ports@[i];
        port_origin(snap, port, port.partner->0, y);
        lemma_offers(port, port.partner->0);
        lemma_role(port.power_role);
        let o = offered(port.partner->0)->0;
        let w = wanted(port)->0;
        assert(is_largest(port.partner->0.pd->0.source_capabilities@, o));
        assert(is_largest(port.local_pd->0.sink_capabilities@, w));
        assert(too_small(snap.ports@[i], o, w));
    }
    assert forall|i: int, o: u32, w: u32|
        0 <= i < snap.ports@.len() && #[trigger] too_small(snap.ports@[i], o, w) implies reports(
        snap,
        "PD_SOURCE_BELOW_SINK_CAPABILITY"@,
        About::Port(snap.ports@[i].name@),
    ) by {
        let port = snap.ports@[i];
        let p = port.partner->0;
        lemma_offers(port, p);
        lemma_role(port.power_role);
        let y = source_below_sink(snap, port, p)->0;
        port_origin(snap, port, p, y);
        of_port(snap, i, y);
    }
}

/// The contract in effect comes to less than four fifths of the best offer.
pub open spec fn falls_short(port: TypecPort, o: u32) -> bool {
    &&& in_role(port.power_role, "sink"@)
    &&& port.partner matches Some(p) && p.pd matches Some(pd) && is_largest(
        pd.source_capabilities@,
        o,
    )
    &&& port.power_supply matches Some(ps) && ps.voltage_now_mv matches Some(v)
        && ps.current_now_ma matches Some(i) && v > 0 && i > 0 && ((v * i / 1000) as u32) * 100 < o
        * 80
}

/// A contract well below what the supply offers is reported while power comes
/// in, and only then.
pub proof fn a_short_contract_is_reported(snap: Snapshot)
    ensures
        forall|x: Statement| #[trigger]
            analysis(snap).contains(x) && x.code == "PD_CONTRACT_BELOW_OFFER"@ ==> x.severity
                == Severity::Medium && x.confidence == Confidence::Measured && exists|i: int, o: u32|
                0 <= i < snap.ports@.len() && #[trigger] falls_short(snap.ports@[i], o)
                    && x.subject == About::Port(snap.ports@[i].name@),
        forall|i: int, o: u32|
            0 <= i < snap.ports@.len() && #[trigger] falls_short(snap.ports@[i], o) ==> reports(
                snap,
                "PD_CONTRACT_BELOW_OFFER"@,
                About::Port(snap.ports@[i].name@),
            ),
{
    codes_differ();
    assert forall|x: Statement| #[trigger]
        analysis(snap).contains(x) && x.code == "PD_CONTRACT_BELOW_OFFER"@ implies x.severity
        == Severity::Medium && x.confidence == Confidence::Measured && exists|i: int, o: u32|
        0 <= i < snap.ports@.len() && #[trigger] falls_short(snap.ports@[i], o) && x.subject
            == About::Port(snap.ports@[i].name@) by {
        let (i, y) = from_port(snap, x);
        let port = snap.ports@[i];
        port_origin(snap, port, port.partner->0, y);
        lemma_offers(port, port.partner->0);
        lemma_role(port.power_role);
        let o = offered(port.partner->0)->0;
        assert(is_largest(port.partner->0.pd->0.source_capabilities@, o));
        assert(falls_short(snap.ports@[i], o));
    }
    assert forall|i: int, o: u32|
        0 <= i < snap.ports@.len() && #[trigger] falls_short(snap.ports@[i], o) implies reports(
        snap,
        "PD_CONTRACT_BELOW_OFFER"@,
        About::Port(snap.ports@[i].name@),
    ) by {
        let port = snap.ports@[i];
        let p = port.partner->0;
        lemma_offers(port, p);
        lemma_role(port.power_role);
        let y = contract_below_offer(port, p)->0;
        port_origin(snap, port, p, y);
        of_port(snap, i, y);
    }
}

/// A DisplayPort mode that is offered and not entered is reported, and nothing
/// else is as that.
pub proof fn an_idle_display_mode_is_reported(snap: Snapshot)
    ensures
        forall|x: Statement| #[trigger]
            analysis(snap).contains(x) && x.code == "DP_ALTMODE_NOT_ACTIVE"@ ==> x.severity
                == Severity::Low && x.confidence == Confidence::Measured && exists|i: int, k: int|
                0 <= i < snap.ports@.len() && snap.ports@[i].partner is Some && 0 <= k
                    < snap.ports@[i].partner->0.alt_modes@.len() && (
                #[trigger] snap.ports@[i].partner->0.alt_modes@[k]).svid == Some(0xff01u16)
                    && snap.ports@[i].partner->0.alt_modes@[k].active == Some(false) && x.subject
                    == About::Port(snap.ports@[i].name@),
        forall|i: int, k: int|
            0 <= i < snap.ports@.len() && snap.ports@[i].partner is Some && 0 <= k
                < snap.ports@[i].partner->0.alt_modes@.len() && (
            #[trigger] snap.ports@[i].partner->0.alt_modes@[k]).svid == Some(0xff01u16)
                && snap.ports@[i].partner->0.alt_modes@[k].active == Some(false) ==> reports(
                snap,
                "DP_ALTMODE_NOT_ACTIVE"@,
                About::Port(snap.ports@[i].name@),
            ),
{
    codes_differ();
    assert forall|x: Statement| #[trigger]
        analysis(snap).contains(x) && x.code == "DP_ALTMODE_NOT_ACTIVE"@ implies x.severity
        == Severity::Low && x.confidence == Confidence::Measured && exists|i: int, k: int|
        0 <= i < snap.ports@.len() && snap.ports@[i].partner is Some && 0 <= k
            < snap.ports@[i].partner->0.alt_modes@.len() && (
        #[trigger] snap.ports@[i].partner->0.alt_modes@[k]).svid == Some(0xff01u16)
            && snap.ports@[i].partner->0.alt_modes@[k].active == Some(false) && x.subject
            == About::Port(snap.ports@[i].name@) by {
        let (i, y) = from_port(snap, x);
        let port = snap.ports@[i];
        let p = port.partner->0;
        port_origin(snap, port, p, y);
        let f = dp_not_active(port);
        lemma_in_gathered(p.alt_modes@, f, y);
        let k = choose|k: int|
            0 <= k < p.alt_modes@.len() && f(#[trigger] p.alt_modes@[k]).contains(y);
        assert(f(p.alt_modes@[k]).len() > 0);
        assert(snap.ports@[i].partner->0.alt_modes@[k].svid == Some(0xff01u16));
    }
    assert forall|i: int, k: int|
        0 <= i < snap.ports@.len() && snap.ports@[i].partner is Some && 0 <= k
            < snap.ports@[i].partner->0.alt_modes@.len() && (
        #[trigger] snap.ports@[i].partner->0.alt_modes@[k]).svid == Some(0xff01u16)
            && snap.ports@[i].partner->0.alt_modes@[k].active == Some(false) implies reports(
        snap,
        "DP_ALTMODE_NOT_ACTIVE"@,
        About::Port(snap.ports@[i].name@),
    ) by {
        let port = snap.ports@[i];
        let p = port.partner->0;
        let f = dp_not_active(port);
        let y = f(p.alt_modes@[k])[0];
        assert(f(p.alt_modes@[k]).contains(y));
        lemma_in_gathered(p.alt_modes@, f, y);
        port_origin(snap, port, p, y);
        of_port(snap, i, y);
    }
}

// ---------------------------------------------------------------------------
// cables
// ---------------------------------------------------------------------------

proof fn from_cable(snap: Snapshot, x: Statement) -> (r: (int, Statement))
    requires
        analysis(snap).contains(x),
        14 <= id(x.code) <= 17,
    ensures
        0 <= r.0 < snap.ports@.len(),
        snap.ports@[r.0].partner is Some,
        snap.ports@[r.0].cable is Some,
        snap.ports@[r.0].cable->0.identity is Some,
        cable_statements(
            snap,
            snap.ports@[r.0],
            snap.ports@[r.0].cable->0,
            offered(snap.ports@[r.0].partner->0),
        ).contains(r.1),
        id(x.code) != 17 ==> x == r.1,
        crate::diag::origins::reported_from(x, r.1),
{
    let (i, y) = from_port(snap, x);
    let port = snap.ports@[i];
    port_origin(snap, port, port.partner->0, y);
    cable_origin(snap, port, port.cable->0, offered(port.partner->0), y);
    (i, y)
}

proof fn of_cable(snap: Snapshot, i: int, y: Statement)
    requires
        0 <= i < snap.ports@.len(),
        snap.ports@[i].partner is Some,
        snap.ports@[i].cable is Some,
        cable_statements(
            snap,
            snap.ports@[i],
            snap.ports@[i].cable->0,
            offered(snap.ports@[i].partner->0),
        ).contains(y),
    ensures
        reports(snap, y.code, y.subject),
{
    let port = snap.ports@[i];
    cable_origin(snap, port, port.cable->0, offered(port.partner->0), y);
    port_origin(snap, port, port.partner->0, y);
    of_port(snap, i, y);
}

/// The cable's e-marker says USB 2.0, on a port that could do more.
pub open spec fn held_to_usb2(port: TypecPort) -> bool {
    says_usb3(port) && exists|d: Identity| #[trigger]
        marked(port, d) && (d.product_type_vdo1 matches Some(v) && v.raw % 8 == 0)
}

/// A cable that is USB 2.0 only by its e-marker is reported on a port that
/// supports USB 3, and no other cable ever is as that.
pub proof fn a_usb2_cable_is_reported(snap: Snapshot)
    ensures
        forall|x: Statement| #[trigger]
            analysis(snap).contains(x) && x.code == "CABLE_DATA_LIMIT"@ ==> x.severity
                == Severity::High && x.confidence == Confidence::Measured && x.title
                == "Cable is USB 2.0 only — SuperSpeed is impossible over it"@ && exists|i: int|
                0 <= i < snap.ports@.len() && held_to_usb2(#[trigger] snap.ports@[i]) && x.subject
                    == About::Cable(snap.ports@[i].name@),
        forall|i: int|
            0 <= i < snap.ports@.len() && held_to_usb2(#[trigger] snap.ports@[i]) ==> reports(
                snap,
                "CABLE_DATA_LIMIT"@,
                About::Cable(snap.ports@[i].name@),
            ),
{
    codes_differ();
    assert forall|x: Statement| #[trigger]
        analysis(snap).contains(x) && x.code == "CABLE_DATA_LIMIT"@ implies x.severity
        == Severity::High && x.confidence == Confidence::Measured && x.title
        == "Cable is USB 2.0 only — SuperSpeed is impossible over it"@ && exists|i: int|
        0 <= i < snap.ports@.len() && held_to_usb2(#[trigger] snap.ports@[i]) && x.subject
            == About::Cable(snap.ports@[i].name@) by {
        let (i, y) = from_cable(snap, x);
        let port = snap.ports@[i];
        cable_origin(snap, port, port.cable->0, offered(port.partner->0), y);
        let d = port.cable->0.identity->0;
        assert(marked(port, d));
        lemma_says_usb3(port);
        assert(held_to_usb2(snap.ports@[i]));
    }
    assert forall|i: int|
        0 <= i < snap.ports@.len() && held_to_usb2(#[trigger] snap.ports@[i]) implies reports(
        snap,
        "CABLE_DATA_LIMIT"@,
        About::Cable(snap.ports@[i].name@),
    ) by {
        let port = snap.ports@[i];
        let d = choose|d: Identity| #[trigger]
            marked(port, d) && (d.product_type_vdo1 matches Some(v) && v.raw % 8 == 0);
        lemma_says_usb3(port);
        let y = crate::diag::cable::data_limit(port, d, d.product_type_vdo1->0)->0;
        cable_origin(snap, port, port.cable->0, offered(port.partner->0), y);
        of_cable(snap, i, y);
    }
}

proof fn lemma_says_usb3(port: TypecPort)
    ensures
        port.usb3_capable() <==> says_usb3(port),
{
    if let Some(c) = port.usb_capability {
        if port.usb3_capable() {
            let i = choose|i: int|
                0 <= i < c.supported.len() && holds_text((#[trigger] c.supported[i])@, "usb3"@);
            assert(holds_text(c.supported@[i]@, "usb3"@));
        }
        if says_usb3(port) {
            let i = choose|i: int|
                0 <= i < c.supported@.len() && holds_text((#[trigger] c.supported@[i])@, "usb3"@);
            assert(holds_text(c.supported[i]@, "usb3"@));
        }
    }
}

/// The cable is rated for 3 A at most, and more than that is on the table.
pub open spec fn held_to_3a(port: TypecPort) -> bool {
    &&& exists|d: Identity| #[trigger]
        marked(port, d) && (d.decoded.cable_current_ma matches Some(ma) && ma <= 3000)
    &&& {
        ||| (port.partner matches Some(p) && p.pd matches Some(pd) && some_above(
            pd.source_capabilities@,
            60_000,
        ))
        ||| (port.power_supply matches Some(ps) && ps.current_max_ma matches Some(ma) && ma > 3000)
    }
}

/// A 3 A cable is reported where the supply would push more, and only there.
pub proof fn a_3a_cable_is_reported(snap: Snapshot)
    ensures
        forall|x: Statement| #[trigger]
            analysis(snap).contains(x) && x.code == "CABLE_CURRENT_LIMIT"@ ==> x.severity
                == Severity::Medium && x.confidence == Confidence::Measured && x.title
                == "Cable is rated 3 A, which caps this link at 60 W"@ && exists|i: int|
                0 <= i < snap.ports@.len() && held_to_3a(#[trigger] snap.ports@[i]) && x.subject
                    == About::Cable(snap.ports@[i].name@),
        forall|i: int|
            0 <= i < snap.ports@.len() && held_to_3a(#[trigger] snap.ports@[i]) ==> reports(
                snap,
                "CABLE_CURRENT_LIMIT"@,
                About::Cable(snap.ports@[i].name@),
            ),
{
    codes_differ();
    assert forall|x: Statement| #[trigger]
        analysis(snap).contains(x) && x.code == "CABLE_CURRENT_LIMIT"@ implies x.severity
        == Severity::Medium && x.confidence == Confidence::Measured && x.title
        == "Cable is rated 3 A, which caps this link at 60 W"@ && exists|i: int|
        0 <= i < snap.ports@.len() && held_to_3a(#[trigger] snap.ports@[i]) && x.subject
            == About::Cable(snap.ports@[i].name@) by {
        let (i, y) = from_cable(snap, x);
        let port = snap.ports@[i];
        cable_origin(snap, port, port.cable->0, offered(port.partner->0), y);
        lemma_offers(port, port.partner->0);
        if let Some(pd) = port.partner->0.pd {
            assert(some_above(pd.source_capabilities@, 60_000) || true);
        }
        assert(marked(port, port.cable->0.identity->0));
        assert(held_to_3a(snap.ports@[i]));
    }
    assert forall|i: int|
        0 <= i < snap.ports@.len() && held_to_3a(#[trigger] snap.ports@[i]) implies reports(
        snap,
        "CABLE_CURRENT_LIMIT"@,
        About::Cable(snap.ports@[i].name@),
    ) by {
        let port = snap.ports@[i];
        let o = offered(port.partner->0);
        lemma_offers(port, port.partner->0);
        let d = port.cable->0.identity->0;
        let y = crate::diag::cable::current_limit(port, d, o)->0;
        cable_origin(snap, port, port.cable->0, o, y);
        of_cable(snap, i, y);
    }
}

/// The voltage in effect is above what the cable declares.
pub open spec fn overvolted(port: TypecPort) -> bool {
    exists|d: Identity| #[trigger]
        marked(port, d) && (d.decoded.cable_max_voltage_mv matches Some(max)
            && port.power_supply matches Some(ps) && ps.voltage_now_mv matches Some(now) && now
            > max)
}

/// A contract above a cable's voltage rating is reported, and only then.
pub proof fn an_overvolted_cable_is_reported(snap: Snapshot)
    ensures
        forall|x: Statement| #[trigger]
            analysis(snap).contains(x) && x.code == "CABLE_VOLTAGE_EXCEEDED"@ ==> x.severity
                == Severity::High && x.confidence == Confidence::Measured && exists|i: int|
                0 <= i < snap.ports@.len() && overvolted(#[trigger] snap.ports@[i]) && x.subject
                    == About::Cable(snap.ports@[i].name@),
        forall|i: int|
            0 <= i < snap.ports@.len() && overvolted(#[trigger] snap.ports@[i]) ==> reports(
                snap,
                "CABLE_VOLTAGE_EXCEEDED"@,
                About::Cable(snap.ports@[i].name@),
            ),
{
    codes_differ();
    assert forall|x: Statement| #[trigger]
        analysis(snap).contains(x) && x.code == "CABLE_VOLTAGE_EXCEEDED"@ implies x.severity
        == Severity::High && x.confidence == Confidence::Measured && exists|i: int|
        0 <= i < snap.ports@.len() && overvolted(#[trigger] snap.ports@[i]) && x.subject
            == About::Cable(snap.ports@[i].name@) by {
        let (i, y) = from_cable(snap, x);
        let port = snap.ports@[i];
        cable_origin(snap, port, port.cable->0, offered(port.partner->0), y);
        assert(marked(port, port.cable->0.identity->0));
        assert(overvolted(snap.ports@[i]));
    }
    assert forall|i: int|
        0 <= i < snap.ports@.len() && overvolted(#[trigger] snap.ports@[i]) implies reports(
        snap,
        "CABLE_VOLTAGE_EXCEEDED"@,
        About::Cable(snap.ports@[i].name@),
    ) by {
        let port = snap.ports@[i];
        let d = port.cable->0.identity->0;
        let y = crate::diag::cable::voltage_exceeded(port, d)->0;
        cable_origin(snap, port, port.cable->0, offered(port.partner->0), y);
        of_cable(snap, i, y);
    }
}

/// The e-marker says SuperSpeed, and a device behind the port that claims USB 3
/// linked at USB 2.0.
pub open spec fn slow_behind(snap: Snapshot, port: TypecPort, dev: UsbDevice) -> bool {
    &&& exists|d: Identity| #[trigger]
        marked(port, d) && (d.product_type_vdo1 matches Some(v) && 1 <= v.raw % 8 <= 4)
    &&& stands_behind(snap, port.name@, dev)
    &&& version_from(dev, 3_000_000)
    &&& linked_to(dev, 480_000_000)
}

proof fn lemma_slow_found(snap: Snapshot, x: Statement) -> (r: (int, UsbDevice))
    requires
        analysis(snap).contains(x),
        id(x.code) == 17,
    ensures
        0 <= r.0 < snap.ports@.len(),
        slow_behind(snap, snap.ports@[r.0], r.1),
        x.subject == About::Device(r.1.sysfs_name@),
        x.severity == Severity::Medium,
        x.confidence == Confidence::Inferred,
{
    let (i, y) = from_cable(snap, x);
    let port = snap.ports@[i];
    cable_origin(snap, port, port.cable->0, offered(port.partner->0), y);
    let d = port.cable->0.identity->0;
    assert(marked(port, d));
    let f = slow_despite_cable(d);
    let devs = devices_behind(snap, port.name@);
    lemma_in_gathered(devs, f, y);
    let k = choose|k: int| 0 <= k < devs.len() && f(#[trigger] devs[k]).contains(y);
    assert(f(devs[k]).len() > 0);
    assert(devs.contains(devs[k]));
    behind_is_linked(snap, port.name@, devs[k]);
    (i, devs[k])
}

proof fn lemma_slow_reported(snap: Snapshot, i: int, dev: UsbDevice)
    requires
        0 <= i < snap.ports@.len(),
        slow_behind(snap, snap.ports@[i], dev),
    ensures
        reports(snap, "LINK_SLOW_DESPITE_CAPABLE_CABLE"@, About::Device(dev.sysfs_name@)),
{
    codes_differ();
    let port = snap.ports@[i];
    let d = port.cable->0.identity->0;
    behind_is_linked(snap, port.name@, dev);
    let f = slow_despite_cable(d);
    let devs = devices_behind(snap, port.name@);
    let k = choose|k: int| 0 <= k < devs.len() && devs[k] == dev;
    let y = f(dev)[0];
    assert(f(devs[k]).contains(y));
    assert(id(y.code) == 17);
    lemma_in_gathered(devs, f, y);
    assert(crate::vdo::cable_speed(d.product_type_vdo1->0.raw).micros > 480_000_000);
    cable_origin(snap, port, port.cable->0, offered(port.partner->0), y);
    of_cable(snap, i, y);
}

/// A slow link behind a cable rated for more is reported, and only then.
pub proof fn a_slow_link_behind_a_fast_cable_is_reported(snap: Snapshot)
    ensures
        forall|x: Statement| #[trigger]
            analysis(snap).contains(x) && x.code == "LINK_SLOW_DESPITE_CAPABLE_CABLE"@
                ==> x.severity == Severity::Medium && x.confidence == Confidence::Inferred
                && exists|i: int, dev: UsbDevice|
                0 <= i < snap.ports@.len() && #[trigger] slow_behind(snap, snap.ports@[i], dev)
                    && x.subject == About::Device(dev.sysfs_name@),
        forall|i: int, dev: UsbDevice|
            0 <= i < snap.ports@.len() && #[trigger] slow_behind(snap, snap.ports@[i], dev)
                ==> reports(
                snap,
                "LINK_SLOW_DESPITE_CAPABLE_CABLE"@,
                About::Device(dev.sysfs_name@),
            ),
{
    codes_differ();
    assert forall|x: Statement| #[trigger]
        analysis(snap).contains(x) && x.code
            == "LINK_SLOW_DESPITE_CAPABLE_CABLE"@ implies x.severity == Severity::Medium
        && x.confidence == Confidence::Inferred && exists|i: int, dev: UsbDevice|
        0 <= i < snap.ports@.len() && #[trigger] slow_behind(snap, snap.ports@[i], dev)
            && x.subject == About::Device(dev.sysfs_name@) by {
        let (i, dev) = lemma_slow_found(snap, x);
        assert(slow_behind(snap, snap.ports@[i], dev));
    }
    assert forall|i: int, dev: UsbDevice|
        0 <= i < snap.ports@.len() && #[trigger] slow_behind(
            snap,
            snap.ports@[i],
            dev,
        ) implies reports(
        snap,
        "LINK_SLOW_DESPITE_CAPABLE_CABLE"@,
        About::Device(dev.sysfs_name@),
    ) by {
        lemma_slow_reported(snap, i, dev);
    }
}

/// The contract takes more than 3 A over a cable that does not say what it is.
pub open spec fn unread_above_3a(port: TypecPort, ma: u32) -> bool {
    port.partner is Some && port.cable is None && (port.power_supply matches Some(ps)
        && ps.current_now_ma == Some(ma)) && ma > 3000
}

/// The rating of a cable that does not say what it is could limit something.
pub open spec fn unread_and_wanted(snap: Snapshot, port: TypecPort) -> bool {
    &&& port.partner is Some
    &&& port.cable is None
    &&& !(port.power_supply matches Some(ps) && ps.current_now_ma matches Some(ma) && ma > 3000)
    &&& {
        ||| port.partner->0.supports_pd == Some(true)
        ||| (port.power_supply matches Some(ps) && ps.online == Some(true) && (
        ps.voltage_now_mv matches Some(v) && v > 0))
        ||| exists|dev: UsbDevice| #[trigger]
            stands_behind(snap, port.name@, dev) && version_from(dev, 3_000_000)
    }
}

proof fn lemma_unread(snap: Snapshot, port: TypecPort)
    requires
        port.partner is Some,
        port.cable is None,
    ensures
        forall|ma: u32|
            crate::diag::port::current_above_3a(port) == Some(ma) <==> #[trigger] unread_above_3a(
                port,
                ma,
            ),
        (crate::diag::port::current_above_3a(port) is None && crate::diag::port::rating_matters(
            snap,
            port,
            port.partner->0,
        )) <==> unread_and_wanted(snap, port),
{
    let devs = devices_behind(snap, port.name@);
    if crate::diag::port::some_superspeed(devs) {
        let k = choose|k: int| 0 <= k < devs.len() && (#[trigger] devs[k]).says_superspeed();
        assert(devs.contains(devs[k]));
        behind_is_linked(snap, port.name@, devs[k]);
    }
    if exists|dev: UsbDevice| #[trigger]
        stands_behind(snap, port.name@, dev) && version_from(dev, 3_000_000) {
        let dev = choose|dev: UsbDevice| #[trigger]
            stands_behind(snap, port.name@, dev) && version_from(dev, 3_000_000);
        behind_is_linked(snap, port.name@, dev);
        let k = choose|k: int| 0 <= k < devs.len() && devs[k] == dev;
        assert(devs[k].says_superspeed());
    }
}

proof fn lemma_cable_part(snap: Snapshot, i: int, y: Statement)
    requires
        0 <= i < snap.ports@.len(),
        snap.ports@[i].partner is Some,
        snap.ports@[i].cable is None,
        cable_part(snap, snap.ports@[i], snap.ports@[i].partner->0).contains(y),
    ensures
        reports(snap, y.code, y.subject),
{
    port_origin(snap, snap.ports@[i], snap.ports@[i].partner->0, y);
    of_port(snap, i, y);
}

/// More than 3 A over a cable that was not read is noted, and only that; from
/// 4.5 A on there is no doubt left about the cable.
pub proof fn an_unread_5a_cable_is_noted(snap: Snapshot)
    ensures
        forall|x: Statement| #[trigger]
            analysis(snap).contains(x) && x.code == "CABLE_EMARKER_NOT_REPORTED"@ ==> x.severity
                == Severity::Info && x.confidence == Confidence::Inferred && exists|i: int, ma: u32|
                0 <= i < snap.ports@.len() && #[trigger] unread_above_3a(snap.ports@[i], ma)
                    && x.subject == About::Cable(snap.ports@[i].name@) && (ma >= 4500 <==> x.title
                    == crate::text::filled(
                    "Cable is 5 A rated — the {} contract leaves no alternative, though the \
                        controller does not report the e-marker"@,
                    seq![crate::diag::units::amps_text(ma)],
                )),
        forall|i: int, ma: u32|
            0 <= i < snap.ports@.len() && #[trigger] unread_above_3a(snap.ports@[i], ma)
                ==> reports(
                snap,
                "CABLE_EMARKER_NOT_REPORTED"@,
                About::Cable(snap.ports@[i].name@),
            ),
{
    codes_differ();
    assert forall|x: Statement| #[trigger]
        analysis(snap).contains(x) && x.code == "CABLE_EMARKER_NOT_REPORTED"@ implies x.severity
        == Severity::Info && x.confidence == Confidence::Inferred && exists|i: int, ma: u32|
        0 <= i < snap.ports@.len() && #[trigger] unread_above_3a(snap.ports@[i], ma) && x.subject
            == About::Cable(snap.ports@[i].name@) && (ma >= 4500 <==> x.title
            == crate::text::filled(
            "Cable is 5 A rated — the {} contract leaves no alternative, though the \
                        controller does not report the e-marker"@,
            seq![crate::diag::units::amps_text(ma)],
        )) by {
        let (i, y) = from_port(snap, x);
        let port = snap.ports@[i];
        port_origin(snap, port, port.partner->0, y);
        lemma_unread(snap, port);
        let ma = crate::diag::port::current_above_3a(port)->0;
        lemma_single(crate::diag::port::emarker_not_reported(port, ma), y);
        lemma_single(crate::diag::port::not_emarked(port), y);
        lemma_two_titles(crate::diag::units::amps_text(ma));
        assert(unread_above_3a(snap.ports@[i], ma));
    }
    assert forall|i: int, ma: u32|
        0 <= i < snap.ports@.len() && #[trigger] unread_above_3a(
            snap.ports@[i],
            ma,
        ) implies reports(
        snap,
        "CABLE_EMARKER_NOT_REPORTED"@,
        About::Cable(snap.ports@[i].name@),
    ) by {
        let port = snap.ports@[i];
        lemma_unread(snap, port);
        let y = crate::diag::port::emarker_not_reported(port, ma);
        lemma_single(y, y);
        lemma_cable_part(snap, i, y);
    }
}

proof fn lemma_two_titles(amps: Seq<char>)
    ensures
        crate::text::filled(crate::diag::port::CLEAR_5A_TITLE@, seq![amps]) != crate::text::filled(
            crate::diag::port::ABOVE_3A_TITLE@,
            seq![amps],
        ),
{
    let a = "Cable is 5 A rated — the {} contract leaves no alternative, though the \
                        controller does not report the e-marker"@;
    let b = "Cable is carrying {}, above the 3 A unmarked-cable limit"@;
    reveal_strlit(
        "Cable is 5 A rated — the {} contract leaves no alternative, though the \
                        controller does not report the e-marker",
    );
    reveal_strlit("Cable is carrying {}, above the 3 A unmarked-cable limit");
    lemma_ninth(a, seq![amps]);
    lemma_ninth(b, seq![amps]);
    assert(a[9] == '5' && b[9] == 'c');
}

proof fn lemma_ninth(t: Seq<char>, args: Seq<Seq<char>>)
    requires
        t.len() > 10,
        forall|k: int| 0 <= k <= 9 ==> t[k] != '{',
    ensures
        crate::text::filled(t, args).len() > 9,
        crate::text::filled(t, args)[9] == t[9],
{
    lemma_plain_start(t, args, 10);
}

proof fn lemma_plain_start(t: Seq<char>, args: Seq<Seq<char>>, n: nat)
    requires
        t.len() >= n,
        forall|k: int| 0 <= k < n ==> t[k] != '{',
    ensures
        crate::text::filled(t, args).len() >= n,
        forall|k: int| 0 <= k < n ==> crate::text::filled(t, args)[k] == t[k],
    decreases n,
{
    if n > 0 {
        lemma_plain_start(t.skip(1), args, (n - 1) as nat);
        assert forall|k: int| 0 <= k < n implies crate::text::filled(t, args)[k] == t[k] by {
            if k > 0 {
                assert(t.skip(1)[k - 1] == t[k]);
            }
        }
    }
}

/// A cable that was not read is noted where its rating could matter, and only
/// there.
pub proof fn an_unmarked_cable_is_noted(snap: Snapshot)
    ensures
        forall|x: Statement| #[trigger]
            analysis(snap).contains(x) && x.code == "CABLE_NOT_EMARKED"@ ==> x.severity
                == Severity::Info && x.confidence == Confidence::Heuristic && exists|i: int|
                0 <= i < snap.ports@.len() && unread_and_wanted(snap, #[trigger] snap.ports@[i])
                    && x.subject == About::Cable(snap.ports@[i].name@),
        forall|i: int|
            0 <= i < snap.ports@.len() && unread_and_wanted(snap, #[trigger] snap.ports@[i])
                ==> reports(snap, "CABLE_NOT_EMARKED"@, About::Cable(snap.ports@[i].name@)),
{
    codes_differ();
    assert forall|x: Statement| #[trigger]
        analysis(snap).contains(x) && x.code == "CABLE_NOT_EMARKED"@ implies x.severity
        == Severity::Info && x.confidence == Confidence::Heuristic && exists|i: int|
        0 <= i < snap.ports@.len() && unread_and_wanted(snap, #[trigger] snap.ports@[i])
            && x.subject == About::Cable(snap.ports@[i].name@) by {
        let (i, y) = from_port(snap, x);
        let port = snap.ports@[i];
        port_origin(snap, port, port.partner->0, y);
        lemma_unread(snap, port);
        let ma = crate::diag::port::current_above_3a(port)->0;
        lemma_single(crate::diag::port::emarker_not_reported(port, ma), y);
        lemma_single(crate::diag::port::not_emarked(port), y);
        assert(unread_and_wanted(snap, snap.ports@[i]));
    }
    assert forall|i: int|
        0 <= i < snap.ports@.len() && unread_and_wanted(
            snap,
            #[trigger] snap.ports@[i],
        ) implies reports(snap, "CABLE_NOT_EMARKED"@, About::Cable(snap.ports@[i].name@)) by {
        let port = snap.ports@[i];
        lemma_unread(snap, port);
        let y = crate::diag::port::not_emarked(port);
        lemma_single(y, y);
        lemma_cable_part(snap, i, y);
    }
}

} // verus!
