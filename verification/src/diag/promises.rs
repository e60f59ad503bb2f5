//! What holds of everything that is reported, whatever rule it came from.

use vstd::prelude::*;
use crate::diag::analysis::{
    absence_statements, all_statements, analysis, arranged, arranging_keeps_everything,
    link_statements, measured_statements, nothing_else_is_dropped, stands, topology_statements,
};
use crate::diag::cable::{
    cable_statements, current_limit, data_limit, data_statements, devices_behind,
    slow_despite_cable, voltage_exceeded,
};
use crate::diag::cycle::cycle_statement;
use crate::diag::device::{
    device_statements, history_statements, link_statement, logged_fault, reset_storm,
};
use crate::diag::host::{
    bandwidth_denied, controller_failed, host_statements, log_missing, of_kind, over_current,
    power_denied,
};
use crate::diag::phantom::{phantom, phantom_names};
use crate::diag::port::{
    attached_statements, cable_part, contract_below_offer, dp_not_active, offered, partner_no_pd,
    pd_no_contract, port_statements, sink_underpowered, source_below_sink,
};
use crate::diag::power::{battery_statements, draining, supply, tripped, tripped_on};
use crate::diag::receptacle::{covered, half_failed, half_idle, sockets};
use crate::diag::storage::{sample_statements, scsi_errors, scsi_holding};
use crate::diag::traffic::{
    all_strengthened, error_rate, strengthened, traffic_statements,
};
use crate::diag::units::cable_identity;
use crate::diag::video::{
    active_cable, billboard, display_statements, dp_outputs, no_output, one_lane, picture,
    thunderbolt_statements,
};
use crate::diag::{noted, one};
use crate::model::{
    About, Cable, Confidence, EventKind, KernelEvent, KernelLog, KernelLogSource,
    Snapshot, Statement, TypecPort, UsbDevice,
};
use crate::seqs::{gathered, kept, lemma_kept};

verus! {

/// Whether something was read off a cable itself: the e-marker of the port's
/// cable, or the retimers that only an active cable has.
pub open spec fn cable_was_read(snap: Snapshot, a: About) -> bool {
    (snap.thunderbolt.active_cable() && a == About::Cable("thunderbolt"@)) || (exists|i: int|
        0 <= i < snap.ports@.len() && a == About::Cable((#[trigger] snap.ports@[i]).name@)
            && cable_identity(snap.ports@[i]) is Some)
}

/// A statement that carries readings, and that does not call a cable measured
/// which nothing was read off.
pub open spec fn founded(snap: Snapshot) -> spec_fn(Statement) -> bool {
    |x: Statement|
        x.evidence.len() > 0 && (x.subject is Cable && x.confidence == Confidence::Measured
            ==> cable_was_read(snap, x.subject))
}

pub open spec fn all_of(s: Seq<Statement>, p: spec_fn(Statement) -> bool) -> bool {
    forall|i: int| 0 <= i < s.len() ==> p(#[trigger] s[i])
}

pub proof fn lemma_joined(a: Seq<Statement>, b: Seq<Statement>, p: spec_fn(Statement) -> bool)
    requires
        all_of(a, p),
        all_of(b, p),
    ensures
        all_of(a + b, p),
{
    assert forall|i: int| 0 <= i < (a + b).len() implies p(#[trigger] (a + b)[i]) by {
        if i < a.len() {
            assert((a + b)[i] == a[i]);
        } else {
            assert((a + b)[i] == b[i - a.len()]);
        }
    }
}

pub proof fn lemma_noted(s: Seq<Statement>, o: Option<Statement>, p: spec_fn(Statement) -> bool)
    requires
        all_of(s, p),
        o matches Some(x) ==> p(x),
    ensures
        all_of(noted(s, o), p),
{
    lemma_joined(s, one(o), p);
}

pub proof fn lemma_gathered<T>(
    s: Seq<T>,
    f: spec_fn(T) -> Seq<Statement>,
    p: spec_fn(Statement) -> bool,
)
    requires
        forall|i: int| 0 <= i < s.len() ==> all_of(f(#[trigger] s[i]), p),
    ensures
        all_of(gathered(s, f), p),
    decreases s.len(),
{
    if s.len() > 0 {
        assert forall|i: int| 0 <= i < s.drop_last().len() implies all_of(
            f(#[trigger] s.drop_last()[i]),
            p,
        ) by {
            assert(s.drop_last()[i] == s[i]);
        }
        lemma_gathered(s.drop_last(), f, p);
        assert(all_of(f(s[s.len() - 1]), p));
        lemma_joined(gathered(s.drop_last(), f), f(s.last()), p);
    }
}

proof fn lemma_host(snap: Snapshot)
    ensures
        all_of(host_statements(snap.kernel_log), founded(snap)),
{
    let p = founded(snap);
    let log = snap.kernel_log;
    let s0 = Seq::<Statement>::empty();
    lemma_noted(s0, log_missing(log), p);
    let s1 = noted(s0, log_missing(log));
    lemma_noted(s1, controller_failed(log), p);
    let s2 = noted(s1, controller_failed(log));
    lemma_noted(s2, over_current(log), p);
    let s3 = noted(s2, over_current(log));
    lemma_noted(s3, power_denied(log), p);
    let s4 = noted(s3, power_denied(log));
    lemma_noted(s4, bandwidth_denied(log), p);
}

proof fn lemma_cable(snap: Snapshot, port: TypecPort, cable: Cable, offer: Option<u32>)
    requires
        port.cable == Some(cable),
        snap.ports@.contains(port),
    ensures
        all_of(cable_statements(snap, port, cable, offer), founded(snap)),
{
    let p = founded(snap);
    if let Some(id) = cable.identity {
        let k = choose|k: int| 0 <= k < snap.ports@.len() && snap.ports@[k] == port;
        assert(cable_identity(snap.ports@[k]) is Some);
        assert(cable_was_read(snap, About::Cable(snap.ports@[k].name@)));
        assert(cable_was_read(snap, About::Cable(port.name@)));
        let s0 = Seq::<Statement>::empty();
        lemma_noted(s0, current_limit(port, id, offer), p);
        let s1 = noted(s0, current_limit(port, id, offer));
        lemma_noted(s1, voltage_exceeded(port, id), p);
        let s2 = noted(s1, voltage_exceeded(port, id));
        if let Some(v) = id.product_type_vdo1 {
            lemma_noted(s0, data_limit(port, id, v), p);
            let f = slow_despite_cable(id);
            let devs = devices_behind(snap, port.name@);
            assert forall|i: int| 0 <= i < devs.len() implies all_of(
                f(#[trigger] devs[i]),
                p,
            ) by {}
            lemma_gathered(devs, f, p);
            lemma_joined(noted(s0, data_limit(port, id, v)), gathered(devs, f), p);
        }
        lemma_joined(s2, data_statements(snap, port, id), p);
    }
}

proof fn lemma_port(snap: Snapshot, port: TypecPort)
    requires
        snap.ports@.contains(port),
    ensures
        all_of(port_statements(snap)(port), founded(snap)),
{
    let p = founded(snap);
    if let Some(partner) = port.partner {
        let s0 = Seq::<Statement>::empty();
        lemma_noted(s0, sink_underpowered(port, partner), p);
        let s1 = noted(s0, sink_underpowered(port, partner));
        lemma_noted(s1, partner_no_pd(port, partner), p);
        let s2 = noted(s1, partner_no_pd(port, partner));
        lemma_noted(s2, pd_no_contract(port, partner), p);
        let s3 = noted(s2, pd_no_contract(port, partner));
        lemma_noted(s3, source_below_sink(snap, port, partner), p);
        let s4 = noted(s3, source_below_sink(snap, port, partner));
        lemma_noted(s4, contract_below_offer(port, partner), p);
        let s5 = noted(s4, contract_below_offer(port, partner));
        if let Some(cable) = port.cable {
            lemma_cable(snap, port, cable, offered(partner));
        }
        lemma_joined(s5, cable_part(snap, port, partner), p);
        let f = dp_not_active(port);
        assert forall|i: int| 0 <= i < partner.alt_modes@.len() implies all_of(
            f(#[trigger] partner.alt_modes@[i]),
            p,
        ) by {}
        lemma_gathered(partner.alt_modes@, f, p);
        lemma_joined(
            s5 + cable_part(snap, port, partner),
            gathered(partner.alt_modes@, f),
            p,
        );
        assert(port_statements(snap)(port) == attached_statements(snap, port, partner));
    }
}

proof fn lemma_history(snap: Snapshot, dev: UsbDevice, events: Seq<KernelEvent>)
    ensures
        all_of(history_statements(dev, events), founded(snap)),
{
    let p = founded(snap);
    let s0 = Seq::<Statement>::empty();
    let resets = kept(events, of_kind(EventKind::DeviceReset));
    lemma_noted(s0, reset_storm(dev, resets), p);
    let s1 = noted(s0, reset_storm(dev, resets));
    let blamed = logged_fault(
        dev,
        kept(events, of_kind(EventKind::CableSuspect)),
        "KERNEL_BLAMED_CABLE"@,
        crate::diag::device::BLAMED_TITLE@,
        crate::diag::device::BLAMED_DETAIL@,
    );
    lemma_noted(s1, blamed, p);
    let s2 = noted(s1, blamed);
    let failed = logged_fault(
        dev,
        kept(events, of_kind(EventKind::EnumerationFailure)),
        "ENUMERATION_FAILURE"@,
        crate::diag::device::ENUM_TITLE@,
        crate::diag::device::ENUM_DETAIL@,
    );
    lemma_noted(s2, failed, p);
    let s3 = noted(s2, failed);
    let untrained = logged_fault(
        dev,
        kept(events, of_kind(EventKind::LinkTrainingFailure)),
        "LINK_TRAINING_FAILURE"@,
        crate::diag::device::TRAIN_TITLE@,
        crate::diag::device::TRAIN_DETAIL@,
    );
    lemma_noted(s3, untrained, p);
}

proof fn lemma_topology(snap: Snapshot)
    ensures
        all_of(topology_statements(snap), founded(snap)),
{
    let p = founded(snap);
    lemma_host(snap);
    assert forall|i: int| 0 <= i < snap.ports@.len() implies all_of(
        port_statements(snap)(#[trigger] snap.ports@[i]),
        p,
    ) by {
        assert(snap.ports@.contains(snap.ports@[i]));
        lemma_port(snap, snap.ports@[i]);
    }
    lemma_gathered(snap.ports@, port_statements(snap), p);
    lemma_joined(
        host_statements(snap.kernel_log),
        gathered(snap.ports@, port_statements(snap)),
        p,
    );
    assert forall|i: int| 0 <= i < snap.all().len() implies all_of(
        device_statements(snap)(#[trigger] snap.all()[i]),
        p,
    ) by {
        let dev = snap.all()[i];
        let past = history_statements(dev, snap.live_events(dev));
        lemma_history(snap, dev, snap.live_events(dev));
        let s0 = Seq::<Statement>::empty();
        lemma_noted(s0, link_statement(snap, dev), p);
        lemma_joined(noted(s0, link_statement(snap, dev)), past, p);
    }
    lemma_gathered(snap.all(), device_statements(snap), p);
    lemma_joined(
        host_statements(snap.kernel_log) + gathered(snap.ports@, port_statements(snap)),
        gathered(snap.all(), device_statements(snap)),
        p,
    );
}

proof fn lemma_absence(snap: Snapshot)
    ensures
        all_of(absence_statements(snap), founded(snap)),
{
    let p = founded(snap);
    let ss = sockets(snap);
    assert forall|i: int| 0 <= i < ss.len() implies all_of(
        half_failed(snap)(#[trigger] ss[i]),
        p,
    ) by {}
    lemma_gathered(ss, half_failed(snap), p);
    assert forall|i: int| 0 <= i < ss.len() implies all_of(
        half_idle(snap)(#[trigger] ss[i]),
        p,
    ) by {}
    lemma_gathered(ss, half_idle(snap), p);
    lemma_joined(gathered(ss, half_failed(snap)), gathered(ss, half_idle(snap)), p);
    let names = phantom_names(snap);
    assert forall|i: int| 0 <= i < names.len() implies all_of(
        phantom(snap)(#[trigger] names[i]),
        p,
    ) by {}
    lemma_gathered(names, phantom(snap), p);
    lemma_joined(
        gathered(ss, half_failed(snap)) + gathered(ss, half_idle(snap)),
        gathered(names, phantom(snap)),
        p,
    );
}

proof fn lemma_link(snap: Snapshot)
    ensures
        all_of(link_statements(snap), founded(snap)),
{
    let p = founded(snap);
    let pic = picture(snap.displays@);
    assert forall|i: int| 0 <= i < snap.all().len() implies all_of(
        billboard(pic)(#[trigger] snap.all()[i]),
        p,
    ) by {}
    lemma_gathered(snap.all(), billboard(pic), p);
    let boards = gathered(snap.all(), billboard(pic));
    let tb = snap.thunderbolt;
    let routers = crate::model::attached_routers(tb.routers@);
    assert forall|i: int| 0 <= i < routers.len() implies all_of(
        one_lane()(#[trigger] routers[i]),
        p,
    ) by {}
    lemma_gathered(routers, one_lane(), p);
    lemma_joined(one(active_cable(tb)), gathered(routers, one_lane()), p);
    lemma_joined(boards, thunderbolt_statements(tb), p);
    let f = draining(supply(snap));
    assert forall|i: int| 0 <= i < snap.batteries@.len() implies all_of(
        f(#[trigger] snap.batteries@[i]),
        p,
    ) by {}
    lemma_gathered(snap.batteries@, f, p);
    lemma_joined(boards + thunderbolt_statements(tb), battery_statements(snap), p);
    let outputs = dp_outputs(snap);
    assert forall|i: int| 0 <= i < snap.ports@.len() implies all_of(
        no_output(outputs)(#[trigger] snap.ports@[i]),
        p,
    ) by {}
    lemma_gathered(snap.ports@, no_output(outputs), p);
    lemma_joined(
        boards + thunderbolt_statements(tb) + battery_statements(snap),
        display_statements(snap),
        p,
    );
}

proof fn lemma_measured(snap: Snapshot)
    ensures
        all_of(measured_statements(snap), founded(snap)),
{
    let p = founded(snap);
    if let Some(t) = snap.urb_traffic {
        let f = error_rate(snap, t.window_ms);
        assert forall|i: int| 0 <= i < t.devices@.len() implies all_of(
            f(#[trigger] t.devices@[i]),
            p,
        ) by {}
        lemma_gathered(t.devices@, f, p);
    }
    let samples = gathered(snap.throughput@, sample_statements(snap));
    assert forall|i: int| 0 <= i < snap.throughput@.len() implies all_of(
        sample_statements(snap)(#[trigger] snap.throughput@[i]),
        p,
    ) by {}
    lemma_gathered(snap.throughput@, sample_statements(snap), p);
    lemma_joined(traffic_statements(snap), samples, p);
    let held = snap.storage();
    assert forall|i: int| 0 <= i < held.len() implies all_of(
        scsi_holding()(#[trigger] held[i]),
        p,
    ) by {
        let f = scsi_errors(held[i].owner);
        assert forall|j: int| 0 <= j < held[i].drives.len() implies all_of(
            f(#[trigger] held[i].drives[j]),
            p,
        ) by {}
        lemma_gathered(held[i].drives, f, p);
    }
    lemma_gathered(held, scsi_holding(), p);
    let scsi = gathered(held, scsi_holding());
    lemma_joined(traffic_statements(snap) + samples, scsi, p);
    lemma_joined(
        traffic_statements(snap) + samples + scsi,
        one(cycle_statement(snap)),
        p,
    );
    assert forall|i: int| 0 <= i < snap.all().len() implies all_of(
        tripped_on()(#[trigger] snap.all()[i]),
        p,
    ) by {
        let hub = snap.all()[i];
        assert forall|j: int| 0 <= j < hub.ports@.len() implies all_of(
            tripped(hub)(#[trigger] hub.ports@[j]),
            p,
        ) by {}
        lemma_gathered(hub.ports@, tripped(hub), p);
    }
    lemma_gathered(snap.all(), tripped_on(), p);
    lemma_joined(
        traffic_statements(snap) + samples + scsi + one(cycle_statement(snap)),
        gathered(snap.all(), tripped_on()),
        p,
    );
}

pub proof fn lemma_reported(snap: Snapshot, x: Statement)
    requires
        analysis(snap).contains(x),
    ensures
        exists|y: Statement| #[trigger]
            all_statements(snap).contains(y) && strengthened(snap, y) == x,
{
    let k = kept(all_statements(snap), stands(covered(snap)));
    let s = all_strengthened(snap, k);
    arranging_keeps_everything(s, x);
    arranged(s).to_multiset_ensures();
    s.to_multiset_ensures();
    assert(arranged(s).to_multiset().count(x) > 0);
    assert(s.contains(x));
    let i = choose|i: int| 0 <= i < s.len() && s[i] == x;
    lemma_kept(all_statements(snap), stands(covered(snap)));
    assert(k.contains(k[i]));
    assert(all_statements(snap).contains(k[i]));
}

proof fn lemma_founded(snap: Snapshot, x: Statement)
    requires
        analysis(snap).contains(x),
    ensures
        founded(snap)(x),
{
    let p = founded(snap);
    lemma_topology(snap);
    lemma_absence(snap);
    lemma_link(snap);
    lemma_measured(snap);
    lemma_joined(topology_statements(snap), absence_statements(snap), p);
    lemma_joined(
        topology_statements(snap) + absence_statements(snap),
        link_statements(snap),
        p,
    );
    lemma_joined(
        topology_statements(snap) + absence_statements(snap) + link_statements(snap),
        measured_statements(snap),
        p,
    );
    lemma_reported(snap, x);
    let y = choose|y: Statement| #[trigger]
        all_statements(snap).contains(y) && strengthened(snap, y) == x;
    let i = choose|i: int| 0 <= i < all_statements(snap).len() && all_statements(snap)[i] == y;
    assert(p(all_statements(snap)[i]));
    crate::diag::traffic::corroboration_never_overclaims(snap, y);
}

/// Whatever is reported carries the readings it rests on.
pub proof fn every_finding_carries_its_readings(snap: Snapshot, x: Statement)
    requires
        analysis(snap).contains(x),
    ensures
        x.evidence.len() > 0,
{
    lemma_founded(snap, x);
}

/// Nothing about a cable is called measured unless it was read off the cable: a
/// cable cannot be measured from here.
pub proof fn a_cable_is_measured_only_where_it_was_read(snap: Snapshot, x: Statement)
    requires
        analysis(snap).contains(x),
        x.subject is Cable,
        x.confidence == Confidence::Measured,
    ensures
        cable_was_read(snap, x.subject),
{
    lemma_founded(snap, x);
}

proof fn lemma_host_is_reported(snap: Snapshot, y: Statement)
    requires
        host_statements(snap.kernel_log).contains(y),
        y.subject is Host,
    ensures
        analysis(snap).contains(strengthened(snap, y)),
{
    let h = host_statements(snap.kernel_log);
    let i = choose|i: int| 0 <= i < h.len() && h[i] == y;
    assert(topology_statements(snap)[i] == y);
    assert(all_statements(snap)[i] == y);
    nothing_else_is_dropped(snap, y);
}

/// A log that could not be read is reported rather than hidden.
pub proof fn an_unread_log_is_reported(snap: Snapshot)
    requires
        snap.kernel_log.source == KernelLogSource::Unavailable,
    ensures
        exists|x: Statement| #[trigger]
            analysis(snap).contains(x) && x.code == "KERNEL_LOG_UNAVAILABLE"@,
{
    let y = log_missing(snap.kernel_log)->0;
    assert(host_statements(snap.kernel_log)[0] == y);
    lemma_host_is_reported(snap, y);
    assert(strengthened(snap, y).code == y.code);
}

/// The finding that a kind of fault on a bus comes to.
pub open spec fn fault_code(kind: EventKind) -> Option<Seq<char>> {
    match kind {
        EventKind::HostControllerFailure => Some("HOST_CONTROLLER_FAILURE"@),
        EventKind::OverCurrent => Some("BUS_OVER_CURRENT"@),
        EventKind::InsufficientPower => Some("BUS_POWER_INSUFFICIENT"@),
        EventKind::InsufficientBandwidth => Some("BUS_BANDWIDTH_INSUFFICIENT"@),
        _ => None,
    }
}

pub open spec fn fault_on(log: KernelLog, kind: EventKind) -> Option<Statement> {
    match kind {
        EventKind::HostControllerFailure => controller_failed(log),
        EventKind::OverCurrent => over_current(log),
        EventKind::InsufficientPower => power_denied(log),
        EventKind::InsufficientBandwidth => bandwidth_denied(log),
        _ => None,
    }
}

proof fn lemma_fault_is_stated(log: KernelLog, kind: EventKind)
    requires
        fault_on(log, kind) is Some,
    ensures
        host_statements(log).contains(fault_on(log, kind)->0),
{
    let s0 = noted(Seq::empty(), log_missing(log));
    let s1 = noted(s0, controller_failed(log));
    let s2 = noted(s1, over_current(log));
    let s3 = noted(s2, power_denied(log));
    let s4 = noted(s3, bandwidth_denied(log));
    let at = match kind {
        EventKind::HostControllerFailure => s0.len(),
        EventKind::OverCurrent => s1.len(),
        EventKind::InsufficientPower => s2.len(),
        _ => s3.len(),
    };
    assert(s4 == host_statements(log));
    assert(s4[at as int] == fault_on(log, kind)->0);
}

/// Every fault that the log reports against a bus comes to a finding.
pub proof fn every_bus_fault_is_reported(snap: Snapshot, e: KernelEvent)
    requires
        snap.kernel_log.events@.contains(e),
        fault_code(e.kind) is Some,
    ensures
        exists|x: Statement| #[trigger]
            analysis(snap).contains(x) && Some(x.code) == fault_code(e.kind),
{
    let log = snap.kernel_log;
    lemma_kept(log.events@, of_kind(e.kind));
    assert(kept(log.events@, of_kind(e.kind)).contains(e));
    assert(fault_on(log, e.kind) is Some);
    let y = fault_on(log, e.kind)->0;
    lemma_fault_is_stated(log, e.kind);
    lemma_host_is_reported(snap, y);
    assert(strengthened(snap, y).code == y.code);
}

} // verus!
