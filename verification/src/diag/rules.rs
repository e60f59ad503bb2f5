//! When each finding about the host, a device, a receptacle, a display, a battery,
//! a link's traffic or a disk is reported and when it is not.

use vstd::prelude::*;
use crate::diag::analysis::analysis;
use crate::diag::cycle::cycle_statement;
use crate::diag::device::{device_statements, link_statement, reset_storm};
use crate::diag::host::{
    bandwidth_denied, controller_failed, log_missing, of_kind, over_current, power_denied,
};
use crate::diag::laws::{gains_nothing, linked_to, reads, reports, version_from};
use crate::diag::one;
use crate::diag::origins::{
    batteries_piece, billboards_piece, blamed, broken_halves_piece, came_from, codes_differ,
    cycles_piece, device_origin, devices_piece, displays_piece, drives_piece, gets_reported,
    host_origin, host_piece, hub_ports_piece, id, lemma_in_gathered, lemma_single, not_enumerated,
    not_trained, piece, piece_of, reported_from, routers_piece, samples_piece, traffic_piece,
    unused_halves_piece,
};
use crate::diag::power::{draining, supply, tripped, tripped_on};
use crate::diag::receptacle::{
    attach_time, covered, did_train, half_failed, half_idle, sockets, ss_error_on, ss_errors,
    trained_since,
};
use crate::diag::storage::{
    disk_in, floor_of, judged, read_failed, sample_statements, scsi_errors, scsi_holding,
    scsi_severity, scsi_statement,
};
use crate::diag::traffic::{device_of, error_rate, strengthened};
use crate::diag::video::{
    active_cable, billboard, dp_active, dp_lit, dp_outputs, is_live, no_output, one_lane,
    outside_live, outward_dp, picture,
};
use crate::kind::{classified, DeviceKind, KindSource};
use crate::model::{
    attached_routers, sustained, About, Confidence, DisplayConnector, EventKind, KernelEvent,
    KernelLogSource, Medium, Partner, ScsiDelta, Severity, Snapshot, Statement, ThroughputSample,
    ThunderboltRouter, UrbStats, UsbDevice,
};
use crate::seqs::{first_of, gathered, kept, lemma_first_of};
use crate::text::{begins_with, holds_text, lowered};

verus! {

// ---------------------------------------------------------------------------
// steps
// ---------------------------------------------------------------------------

/// What is kept of a list is what of it passes.
pub proof fn lemma_kept_is<T>(s: Seq<T>, p: spec_fn(T) -> bool)
    ensures
        forall|x: T| #[trigger] kept(s, p).contains(x) <==> (s.contains(x) && p(x)),
        kept(s, p).len() > 0 <==> (exists|i: int| 0 <= i < s.len() && p(#[trigger] s[i])),
        kept(s, p).len() <= s.len(),
    decreases s.len(),
{
    if s.len() > 0 {
        let t = s.drop_last();
        lemma_kept_is(t, p);
        let k = kept(t, p);
        assert(s[s.len() - 1] == s.last());
        assert forall|i: int| 0 <= i < t.len() implies #[trigger] t[i] == s[i] by {}
        assert forall|x: T| #[trigger] kept(s, p).contains(x) <==> (s.contains(x) && p(x)) by {
            if kept(s, p).contains(x) {
                let i = choose|i: int| 0 <= i < kept(s, p).len() && kept(s, p)[i] == x;
                if i < k.len() {
                    assert(k[i] == x);
                    assert(k.contains(x));
                    let j = choose|j: int| 0 <= j < t.len() && t[j] == x;
                    assert(s[j] == x);
                }
            }
            if s.contains(x) && p(x) {
                let i = choose|i: int| 0 <= i < s.len() && s[i] == x;
                if i < t.len() {
                    assert(t[i] == x);
                    assert(t.contains(x));
                    assert(k.contains(x));
                    let j = choose|j: int| 0 <= j < k.len() && k[j] == x;
                    assert(kept(s, p)[j] == x);
                } else {
                    assert(kept(s, p)[k.len() as int] == x);
                }
            }
        }
        if exists|i: int| 0 <= i < s.len() && p(#[trigger] s[i]) {
            let i = choose|i: int| 0 <= i < s.len() && p(#[trigger] s[i]);
            if i < t.len() {
                assert(p(t[i]));
            }
        }
        if kept(t, p).len() > 0 {
            let i = choose|i: int| 0 <= i < t.len() && p(#[trigger] t[i]);
            assert(p(s[i]));
        }
    }
}

proof fn from_list<T>(snap: Snapshot, x: Statement, s: Seq<T>,
    f: spec_fn(T) -> Seq<Statement>) -> (r: (
    int,
    Statement,
))
    requires
        analysis(snap).contains(x),
        piece(snap, piece_of(id(x.code))) == gathered(s, f),
    ensures
        0 <= r.0 < s.len(),
        f(s[r.0]).contains(r.1),
        reported_from(x, r.1),
        !(17 <= id(x.code) <= 20) ==> x == r.1,
{
    let y = came_from(snap, x);
    lemma_in_gathered(s, f, y);
    let i = choose|i: int| 0 <= i < s.len() && f(#[trigger] s[i]).contains(y);
    (i, y)
}

proof fn of_list<T>(snap: Snapshot, s: Seq<T>, f: spec_fn(T) -> Seq<Statement>, i: int,
    y: Statement)
    requires
        1 <= id(y.code) <= 38,
        piece(snap, piece_of(id(y.code))) == gathered(s, f),
        0 <= i < s.len(),
        f(s[i]).contains(y),
        !(21 <= id(y.code) <= 23 || id(y.code) == 26) || covered(snap).len() == 0,
    ensures
        reports(snap, y.code, y.subject),
{
    lemma_in_gathered(s, f, y);
    let x = gets_reported(snap, y);
    assert(analysis(snap).contains(x));
}

// ---------------------------------------------------------------------------
// the host
// ---------------------------------------------------------------------------

/// An event of this kind was logged.
pub open spec fn logged(snap: Snapshot, kind: EventKind) -> bool {
    exists|i: int|
        0 <= i < snap.kernel_log.events@.len() && (#[trigger] snap.kernel_log.events@[i]).kind
            == kind
}

proof fn lemma_logged(snap: Snapshot, kind: EventKind)
    ensures
        logged(snap, kind) <==> kept(snap.kernel_log.events@, of_kind(kind)).len() > 0,
{
    let s = snap.kernel_log.events@;
    lemma_kept_is(s, of_kind(kind));
    if logged(snap, kind) {
        let i = choose|i: int| 0 <= i < s.len() && (#[trigger] s[i]).kind == kind;
        assert(of_kind(kind)(s[i]));
    }
    if kept(s, of_kind(kind)).len() > 0 {
        let i = choose|i: int| 0 <= i < s.len() && of_kind(kind)(#[trigger] s[i]);
        assert(s[i].kind == kind);
    }
}

/// A log that could not be read is noted, and only then.
pub proof fn an_unreadable_log_is_noted(snap: Snapshot)
    ensures
        reports(snap, "KERNEL_LOG_UNAVAILABLE"@, About::Host) <==> snap.kernel_log.source
            == KernelLogSource::Unavailable,
        forall|x: Statement| #[trigger]
            analysis(snap).contains(x) && x.code == "KERNEL_LOG_UNAVAILABLE"@ ==> x.severity
                == Severity::Info
                && x.confidence == Confidence::Measured && x.subject == About::Host,
{
    codes_differ();
    host_piece(snap);
    let log = snap.kernel_log;
    assert forall|x: Statement| #[trigger]
        analysis(snap).contains(x) && x.code == "KERNEL_LOG_UNAVAILABLE"@ implies log_missing(log)
            == Some(x) by {
        let y = came_from(snap, x);
        host_origin(log, y);
    }
    if let Some(y) = log_missing(log) {
        host_origin(log, y);
        let x = gets_reported(snap, y);
        assert(analysis(snap).contains(x));
    }
}

/// A host controller that died is reported, and only then.
pub proof fn a_failed_controller_is_reported(snap: Snapshot)
    ensures
        reports(snap, "HOST_CONTROLLER_FAILURE"@, About::Host)
            <==> logged(snap, EventKind::HostControllerFailure),
        forall|x: Statement| #[trigger]
            analysis(snap).contains(x) && x.code == "HOST_CONTROLLER_FAILURE"@ ==> x.severity
                == Severity::High
                && x.confidence == Confidence::Measured && x.subject == About::Host,
{
    codes_differ();
    host_piece(snap);
    let log = snap.kernel_log;
    lemma_logged(snap, EventKind::HostControllerFailure);
    assert forall|x: Statement| #[trigger]
        analysis(snap).contains(x) && x.code == "HOST_CONTROLLER_FAILURE"@
            implies controller_failed(log) == Some(x) by {
        let y = came_from(snap, x);
        host_origin(log, y);
    }
    if let Some(y) = controller_failed(log) {
        host_origin(log, y);
        let x = gets_reported(snap, y);
        assert(analysis(snap).contains(x));
    }
}

/// A logged over-current is reported, and only then.
pub proof fn an_over_current_is_reported(snap: Snapshot)
    ensures
        reports(snap, "BUS_OVER_CURRENT"@, About::Host) <==> logged(snap, EventKind::OverCurrent),
        forall|x: Statement| #[trigger]
            analysis(snap).contains(x) && x.code == "BUS_OVER_CURRENT"@ ==> x.severity
                == Severity::High
                && x.confidence == Confidence::Measured && x.subject == About::Host,
{
    codes_differ();
    host_piece(snap);
    let log = snap.kernel_log;
    lemma_logged(snap, EventKind::OverCurrent);
    assert forall|x: Statement| #[trigger]
        analysis(snap).contains(x) && x.code == "BUS_OVER_CURRENT"@ implies over_current(log)
            == Some(x) by {
        let y = came_from(snap, x);
        host_origin(log, y);
    }
    if let Some(y) = over_current(log) {
        host_origin(log, y);
        let x = gets_reported(snap, y);
        assert(analysis(snap).contains(x));
    }
}

/// A device that was denied its power is reported, and only then.
pub proof fn a_denied_power_is_reported(snap: Snapshot)
    ensures
        reports(snap, "BUS_POWER_INSUFFICIENT"@, About::Host)
            <==> logged(snap, EventKind::InsufficientPower),
        forall|x: Statement| #[trigger]
            analysis(snap).contains(x) && x.code == "BUS_POWER_INSUFFICIENT"@ ==> x.severity
                == Severity::Medium
                && x.confidence == Confidence::Measured && x.subject == About::Host,
{
    codes_differ();
    host_piece(snap);
    let log = snap.kernel_log;
    lemma_logged(snap, EventKind::InsufficientPower);
    assert forall|x: Statement| #[trigger]
        analysis(snap).contains(x) && x.code == "BUS_POWER_INSUFFICIENT"@ implies power_denied(log)
            == Some(x) by {
        let y = came_from(snap, x);
        host_origin(log, y);
    }
    if let Some(y) = power_denied(log) {
        host_origin(log, y);
        let x = gets_reported(snap, y);
        assert(analysis(snap).contains(x));
    }
}

/// A device that was denied its bandwidth is reported, and only then.
pub proof fn a_denied_bandwidth_is_reported(snap: Snapshot)
    ensures
        reports(snap, "BUS_BANDWIDTH_INSUFFICIENT"@, About::Host)
            <==> logged(snap, EventKind::InsufficientBandwidth),
        forall|x: Statement| #[trigger]
            analysis(snap).contains(x) && x.code == "BUS_BANDWIDTH_INSUFFICIENT"@ ==> x.severity
                == Severity::Medium
                && x.confidence == Confidence::Measured && x.subject == About::Host,
{
    codes_differ();
    host_piece(snap);
    let log = snap.kernel_log;
    lemma_logged(snap, EventKind::InsufficientBandwidth);
    assert forall|x: Statement| #[trigger]
        analysis(snap).contains(x) && x.code == "BUS_BANDWIDTH_INSUFFICIENT"@
            implies bandwidth_denied(log) == Some(x) by {
        let y = came_from(snap, x);
        host_origin(log, y);
    }
    if let Some(y) = bandwidth_denied(log) {
        host_origin(log, y);
        let x = gets_reported(snap, y);
        assert(analysis(snap).contains(x));
    }
}

// ---------------------------------------------------------------------------
// devices
// ---------------------------------------------------------------------------

/// Storage, by the user's word or else by its class.
pub open spec fn stores(dev: UsbDevice) -> bool {
    if dev.declared matches Some(d) && d.kind is Some {
        dev.declared->0.kind == Some(DeviceKind::Storage)
    } else {
        classified(dev).kind == DeviceKind::Storage
    }
}

pub open spec fn by_user(dev: UsbDevice) -> bool {
    dev.declared matches Some(d) && d.kind is Some
}

/// A storage device that claims USB 3.2 on one lane, above USB 2.0 and at most
/// 10 Gbps.
pub open spec fn one_lane_link(snap: Snapshot, i: int) -> bool {
    &&& 0 <= i < snap.all().len()
    &&& !snap.all()[i].is_root_hub
    &&& version_from(snap.all()[i], 3_200_000)
    &&& snap.all()[i].tx_lanes == Some(1u32)
    &&& !linked_to(snap.all()[i], 480_000_000)
    &&& linked_to(snap.all()[i], 10_000_000_000)
    &&& stores(snap.all()[i])
}

/// A device that claims USB 3 and linked at USB 2.0.
pub open spec fn downshifted(snap: Snapshot, i: int) -> bool {
    &&& 0 <= i < snap.all().len()
    &&& !snap.all()[i].is_root_hub
    &&& version_from(snap.all()[i], 3_000_000)
    &&& linked_to(snap.all()[i], 480_000_000)
}

pub open spec fn parent_linked_slow(snap: Snapshot, dev: UsbDevice) -> bool {
    dev.parent is Some && (snap.named(dev.parent->0@) matches Some(up)
        && linked_to(up, 480_000_000))
}

/// More than nine tenths of its connected life asleep, by its own choice.
pub open spec fn mostly_asleep(dev: UsbDevice) -> bool {
    reads(dev.power_control, "auto"@) && dev.connected_duration_ms is Some
        && dev.runtime_suspended_ms is Some && dev.connected_duration_ms->0 > 0
        && dev.runtime_suspended_ms->0 * 10 > dev.connected_duration_ms->0 * 9
}

/// How often a device was reset while it was here.
pub open spec fn resets(snap: Snapshot, i: int) -> nat {
    kept(snap.live_events(snap.all()[i]), of_kind(EventKind::DeviceReset)).len()
}

pub open spec fn often_reset(snap: Snapshot, i: int) -> bool {
    0 <= i < snap.all().len() && resets(snap, i) >= 3
}

/// Something of this kind was logged about a device while it was here.
pub open spec fn suffered(snap: Snapshot, i: int, kind: EventKind) -> bool {
    0 <= i < snap.all().len() && exists|e: KernelEvent| #[trigger]
        snap.live_events(snap.all()[i]).contains(e) && e.kind == kind
}

proof fn lemma_suffered(snap: Snapshot, i: int, kind: EventKind)
    requires
        0 <= i < snap.all().len(),
    ensures
        suffered(snap, i, kind) <==> kept(snap.live_events(snap.all()[i]), of_kind(kind)).len() > 0,
{
    let s = snap.live_events(snap.all()[i]);
    lemma_kept_is(s, of_kind(kind));
    if suffered(snap, i, kind) {
        let e = choose|e: KernelEvent| #[trigger] s.contains(e) && e.kind == kind;
        let j = choose|j: int| 0 <= j < s.len() && s[j] == e;
        assert(of_kind(kind)(s[j]));
    }
    if kept(s, of_kind(kind)).len() > 0 {
        let j = choose|j: int| 0 <= j < s.len() && of_kind(kind)(#[trigger] s[j]);
        assert(s.contains(s[j]));
    }
}

proof fn lemma_stores(dev: UsbDevice)
    ensures
        dev.identified().basis() == Some(DeviceKind::Storage) <==> stores(dev),
        stores(dev) ==> dev.identified().capped(Confidence::Measured) == (if by_user(dev) {
            Confidence::Inferred
        } else {
            Confidence::Measured
        }),
        stores(dev) ==> dev.identified().capped(Confidence::Heuristic) == Confidence::Heuristic,
{
}

/// A storage device on one lane of two is noted, and only such a one.
pub proof fn a_single_lane_is_noted(snap: Snapshot)
    ensures
        forall|x: Statement| #[trigger]
            analysis(snap).contains(x) && x.code == "LINK_SINGLE_LANE"@ ==> x.severity
                == Severity::Info && exists|i: int|
                #[trigger] one_lane_link(snap, i) && x.subject
                    == About::Device(snap.all()[i].sysfs_name@) && x.confidence
                    == (if by_user(snap.all()[i]) { Confidence::Inferred }
                    else { Confidence::Measured }),
        forall|i: int| #[trigger] one_lane_link(snap, i)
            ==> reports(snap, "LINK_SINGLE_LANE"@, About::Device(snap.all()[i].sysfs_name@)),
{
    codes_differ();
    devices_piece(snap);
    assert forall|x: Statement| #[trigger]
            analysis(snap).contains(x) && x.code == "LINK_SINGLE_LANE"@ implies x.severity
                == Severity::Info && exists|i: int|
                #[trigger] one_lane_link(snap, i) && x.subject
                    == About::Device(snap.all()[i].sysfs_name@) && x.confidence
                    == (if by_user(snap.all()[i]) { Confidence::Inferred }
                    else { Confidence::Measured }) by {
        let (i, y) = from_list(snap, x, snap.all(), device_statements(snap));
        let dev = snap.all()[i];
        device_origin(snap, dev, y);
        lemma_stores(dev);
        assert(one_lane_link(snap, i));
    }
    assert forall|i: int| #[trigger] one_lane_link(snap, i)
        implies reports(snap, "LINK_SINGLE_LANE"@, About::Device(snap.all()[i].sysfs_name@)) by {
        let dev = snap.all()[i];
        lemma_stores(dev);
        let y = link_statement(snap, dev)->0;
        device_origin(snap, dev, y);
        of_list(snap, snap.all(), device_statements(snap), i, y);
    }
}

/// A device that linked below what it claims is reported, and only such a one;
/// how gravely depends on whether there is a cable, and on what is upstream.
pub proof fn a_downshift_is_reported(snap: Snapshot)
    ensures
        forall|x: Statement| #[trigger]
            analysis(snap).contains(x) && x.code == "LINK_BELOW_DEVICE_CAPABILITY"@ ==> x.confidence
                == Confidence::Inferred && exists|i: int|
                #[trigger] downshifted(snap, i) && x.subject
                    == About::Device(snap.all()[i].sysfs_name@) && x.severity
                    == (if reads(snap.all()[i].removable, "fixed"@) { Severity::Low }
                    else if parent_linked_slow(snap, snap.all()[i]) { Severity::Medium }
                    else { Severity::High }) && x.suggestion
                    == (if reads(snap.all()[i].removable, "fixed"@) { None }
                    else if parent_linked_slow(snap,
                    snap.all()[i]) { Some(crate::diag::device::SLOW_UPSTREAM_ADVICE@) }
                    else { Some(crate::diag::device::SLOW_CABLE_ADVICE@) }),
        forall|i: int| #[trigger] downshifted(snap, i)
            ==> reports(snap, "LINK_BELOW_DEVICE_CAPABILITY"@,
            About::Device(snap.all()[i].sysfs_name@)),
{
    codes_differ();
    devices_piece(snap);
    assert forall|x: Statement| #[trigger]
            analysis(snap).contains(x) && x.code == "LINK_BELOW_DEVICE_CAPABILITY"@
                implies x.confidence == Confidence::Inferred && exists|i: int|
                #[trigger] downshifted(snap, i) && x.subject
                    == About::Device(snap.all()[i].sysfs_name@) && x.severity
                    == (if reads(snap.all()[i].removable, "fixed"@) { Severity::Low }
                    else if parent_linked_slow(snap, snap.all()[i]) { Severity::Medium }
                    else { Severity::High }) && x.suggestion
                    == (if reads(snap.all()[i].removable, "fixed"@) { None }
                    else if parent_linked_slow(snap,
                    snap.all()[i]) { Some(crate::diag::device::SLOW_UPSTREAM_ADVICE@) }
                    else { Some(crate::diag::device::SLOW_CABLE_ADVICE@) }) by {
        let (i, y) = from_list(snap, x, snap.all(), device_statements(snap));
        let dev = snap.all()[i];
        device_origin(snap, dev, y);
        assert(downshifted(snap, i));
    }
    assert forall|i: int| #[trigger] downshifted(snap, i)
        implies reports(snap, "LINK_BELOW_DEVICE_CAPABILITY"@,
        About::Device(snap.all()[i].sysfs_name@)) by {
        let dev = snap.all()[i];
        let y = link_statement(snap, dev)->0;
        device_origin(snap, dev, y);
        of_list(snap, snap.all(), device_statements(snap), i, y);
    }
}

/// A device that was reset three times is reported, and only such a one. Power
/// management explains it, an internal device has no cable, and from eight on it
/// is grave.
pub proof fn a_reset_storm_is_reported(snap: Snapshot)
    ensures
        forall|x: Statement| #[trigger]
            analysis(snap).contains(x) && x.code == "DEVICE_RESET_STORM"@ ==> true && exists|i: int|
                #[trigger] often_reset(snap, i) && x.subject
                    == About::Device(snap.all()[i].sysfs_name@) && x.severity
                    == (if mostly_asleep(snap.all()[i])
                    || reads(snap.all()[i].removable, "fixed"@) { Severity::Low }
                    else if resets(snap, i) >= 8 { Severity::High } else { Severity::Medium })
                    && (mostly_asleep(snap.all()[i]) <==> x.confidence == Confidence::Measured)
                    && x.suggestion
                    == Some(if mostly_asleep(snap.all()[i]) { crate::diag::device::CHURN_ADVICE@ }
                    else if reads(snap.all()[i].removable,
                    "fixed"@) { crate::diag::device::RESET_INTERNAL_ADVICE@ }
                    else { crate::diag::device::RESET_ADVICE@ }),
        forall|i: int| #[trigger] often_reset(snap, i)
            ==> reports(snap, "DEVICE_RESET_STORM"@, About::Device(snap.all()[i].sysfs_name@)),
{
    codes_differ();
    devices_piece(snap);
    assert forall|x: Statement| #[trigger]
            analysis(snap).contains(x) && x.code == "DEVICE_RESET_STORM"@ implies true
                && exists|i: int|
                #[trigger] often_reset(snap, i) && x.subject
                    == About::Device(snap.all()[i].sysfs_name@) && x.severity
                    == (if mostly_asleep(snap.all()[i])
                    || reads(snap.all()[i].removable, "fixed"@) { Severity::Low }
                    else if resets(snap, i) >= 8 { Severity::High } else { Severity::Medium })
                    && (mostly_asleep(snap.all()[i]) <==> x.confidence == Confidence::Measured)
                    && x.suggestion
                    == Some(if mostly_asleep(snap.all()[i]) { crate::diag::device::CHURN_ADVICE@ }
                    else if reads(snap.all()[i].removable,
                    "fixed"@) { crate::diag::device::RESET_INTERNAL_ADVICE@ }
                    else { crate::diag::device::RESET_ADVICE@ }) by {
        let (i, y) = from_list(snap, x, snap.all(), device_statements(snap));
        let dev = snap.all()[i];
        device_origin(snap, dev, y);
        lemma_asleep(dev);
        assert(often_reset(snap, i));
    }
    assert forall|i: int| #[trigger] often_reset(snap, i)
        implies reports(snap, "DEVICE_RESET_STORM"@, About::Device(snap.all()[i].sysfs_name@)) by {
        let dev = snap.all()[i];
        let y = reset_storm(dev, kept(snap.live_events(dev), of_kind(EventKind::DeviceReset)))->0;
        device_origin(snap, dev, y);
        of_list(snap, snap.all(), device_statements(snap), i, y);
    }
}

proof fn lemma_asleep(dev: UsbDevice)
    ensures
        dev.churns() <==> mostly_asleep(dev),
{
    if dev.connected_duration_ms is Some && dev.runtime_suspended_ms is Some {
        let c = dev.connected_duration_ms->0;
        let s = dev.runtime_suspended_ms->0;
        assert(c > 0 && s > c ==> c * 10 > 9 * c);
    }
}

/// Where no receptacle's failure covers it, a cable that the kernel blames is
/// reported of its device, and only then.
pub proof fn a_blamed_cable_is_reported(snap: Snapshot)
    requires
        covered(snap).len() == 0,
    ensures
        forall|x: Statement| #[trigger]
            analysis(snap).contains(x) && x.code == "KERNEL_BLAMED_CABLE"@ ==> x.severity
                == Severity::High && x.confidence == Confidence::Measured && exists|i: int|
                #[trigger] suffered(snap, i, EventKind::CableSuspect) && x.subject
                    == About::Device(snap.all()[i].sysfs_name@),
        forall|i: int| #[trigger] suffered(snap, i, EventKind::CableSuspect)
            ==> reports(snap, "KERNEL_BLAMED_CABLE"@, About::Device(snap.all()[i].sysfs_name@)),
{
    codes_differ();
    devices_piece(snap);
    assert forall|x: Statement| #[trigger]
            analysis(snap).contains(x) && x.code == "KERNEL_BLAMED_CABLE"@ implies x.severity
                == Severity::High && x.confidence == Confidence::Measured && exists|i: int|
                #[trigger] suffered(snap, i, EventKind::CableSuspect) && x.subject
                    == About::Device(snap.all()[i].sysfs_name@) by {
        let (i, y) = from_list(snap, x, snap.all(), device_statements(snap));
        let dev = snap.all()[i];
        device_origin(snap, dev, y);
        lemma_suffered(snap, i, EventKind::CableSuspect);
        assert(suffered(snap, i, EventKind::CableSuspect));
    }
    assert forall|i: int| #[trigger] suffered(snap, i, EventKind::CableSuspect)
        implies reports(snap, "KERNEL_BLAMED_CABLE"@, About::Device(snap.all()[i].sysfs_name@)) by {
        let dev = snap.all()[i];
        lemma_suffered(snap, i, EventKind::CableSuspect);
        let y = blamed(dev, snap.live_events(dev))->0;
        device_origin(snap, dev, y);
        of_list(snap, snap.all(), device_statements(snap), i, y);
    }
}

/// Where no receptacle's failure covers it, a failed enumeration is reported of
/// its device, and only then.
pub proof fn a_failed_enumeration_is_reported(snap: Snapshot)
    requires
        covered(snap).len() == 0,
    ensures
        forall|x: Statement| #[trigger]
            analysis(snap).contains(x) && x.code == "ENUMERATION_FAILURE"@ ==> x.severity
                == Severity::High && x.confidence == Confidence::Measured && exists|i: int|
                #[trigger] suffered(snap, i, EventKind::EnumerationFailure) && x.subject
                    == About::Device(snap.all()[i].sysfs_name@),
        forall|i: int| #[trigger] suffered(snap, i, EventKind::EnumerationFailure)
            ==> reports(snap, "ENUMERATION_FAILURE"@, About::Device(snap.all()[i].sysfs_name@)),
{
    codes_differ();
    devices_piece(snap);
    assert forall|x: Statement| #[trigger]
            analysis(snap).contains(x) && x.code == "ENUMERATION_FAILURE"@ implies x.severity
                == Severity::High && x.confidence == Confidence::Measured && exists|i: int|
                #[trigger] suffered(snap, i, EventKind::EnumerationFailure) && x.subject
                    == About::Device(snap.all()[i].sysfs_name@) by {
        let (i, y) = from_list(snap, x, snap.all(), device_statements(snap));
        let dev = snap.all()[i];
        device_origin(snap, dev, y);
        lemma_suffered(snap, i, EventKind::EnumerationFailure);
        assert(suffered(snap, i, EventKind::EnumerationFailure));
    }
    assert forall|i: int| #[trigger] suffered(snap, i, EventKind::EnumerationFailure)
        implies reports(snap, "ENUMERATION_FAILURE"@, About::Device(snap.all()[i].sysfs_name@)) by {
        let dev = snap.all()[i];
        lemma_suffered(snap, i, EventKind::EnumerationFailure);
        let y = not_enumerated(dev, snap.live_events(dev))->0;
        device_origin(snap, dev, y);
        of_list(snap, snap.all(), device_statements(snap), i, y);
    }
}

/// Where no receptacle's failure covers it, a failed training is reported of its
/// device, and only then.
pub proof fn a_failed_training_is_reported(snap: Snapshot)
    requires
        covered(snap).len() == 0,
    ensures
        forall|x: Statement| #[trigger]
            analysis(snap).contains(x) && x.code == "LINK_TRAINING_FAILURE"@ ==> x.severity
                == Severity::High && x.confidence == Confidence::Measured && exists|i: int|
                #[trigger] suffered(snap, i, EventKind::LinkTrainingFailure) && x.subject
                    == About::Device(snap.all()[i].sysfs_name@),
        forall|i: int| #[trigger] suffered(snap, i, EventKind::LinkTrainingFailure)
            ==> reports(snap, "LINK_TRAINING_FAILURE"@, About::Device(snap.all()[i].sysfs_name@)),
{
    codes_differ();
    devices_piece(snap);
    assert forall|x: Statement| #[trigger]
            analysis(snap).contains(x) && x.code == "LINK_TRAINING_FAILURE"@ implies x.severity
                == Severity::High && x.confidence == Confidence::Measured && exists|i: int|
                #[trigger] suffered(snap, i, EventKind::LinkTrainingFailure) && x.subject
                    == About::Device(snap.all()[i].sysfs_name@) by {
        let (i, y) = from_list(snap, x, snap.all(), device_statements(snap));
        let dev = snap.all()[i];
        device_origin(snap, dev, y);
        lemma_suffered(snap, i, EventKind::LinkTrainingFailure);
        assert(suffered(snap, i, EventKind::LinkTrainingFailure));
    }
    assert forall|i: int| #[trigger] suffered(snap, i, EventKind::LinkTrainingFailure)
        implies reports(snap, "LINK_TRAINING_FAILURE"@,
        About::Device(snap.all()[i].sysfs_name@)) by {
        let dev = snap.all()[i];
        lemma_suffered(snap, i, EventKind::LinkTrainingFailure);
        let y = not_trained(dev, snap.live_events(dev))->0;
        device_origin(snap, dev, y);
        of_list(snap, snap.all(), device_statements(snap), i, y);
    }
}

// ---------------------------------------------------------------------------
// receptacles
// ---------------------------------------------------------------------------

/// Trouble on a bus: a link that did not train, a device that did not enumerate,
/// or a cable that the kernel blames.
pub open spec fn trouble_on(e: KernelEvent, bus: Seq<char>) -> bool {
    (e.kind == EventKind::LinkTrainingFailure || e.kind == EventKind::CableSuspect || e.kind
        == EventKind::EnumerationFailure) && e.on_bus() == Some(bus)
}

/// Logged no earlier than a device attached, as far as either is known.
pub open spec fn since_here(snap: Snapshot, e: KernelEvent, dev: UsbDevice) -> bool {
    snap.uptime_s is Some && dev.attached_at(snap.uptime_s->0) is Some && e.monotonic_s is Some
        ==> e.monotonic_s->0.at_least(dev.attached_at(snap.uptime_s->0)->0)
}

/// What is in the slow half of a receptacle, while the fast half had trouble.
pub open spec fn half_broken(snap: Snapshot, i: int) -> bool {
    &&& 0 <= i < sockets(snap).len()
    &&& sockets(snap)[i].slow.port.child is Some
    &&& snap.named(sockets(snap)[i].slow.port.child->0@) is Some
    &&& exists|e: KernelEvent| #[trigger]
        snap.kernel_log.events@.contains(e) && trouble_on(e, sockets(snap)[i].fast.hub.sysfs_name@)
            && since_here(snap, e, snap.named(sockets(snap)[i].slow.port.child->0@)->0)
}

/// A storage device in the slow half of a receptacle whose fast half is empty
/// and never had trouble.
pub open spec fn half_unused(snap: Snapshot, i: int) -> bool {
    &&& 0 <= i < sockets(snap).len()
    &&& sockets(snap)[i].slow.port.child is Some
    &&& sockets(snap)[i].fast.port.child is None
    &&& (snap.named(sockets(snap)[i].slow.port.child->0@) matches Some(d) && stores(d))
    &&& forall|e: KernelEvent| #[trigger]
        snap.kernel_log.events@.contains(e) ==> !trouble_on(
            e,
            sockets(snap)[i].fast.hub.sysfs_name@,
        )
}

proof fn lemma_trouble(snap: Snapshot, bus: Seq<char>)
    ensures
        forall|e: KernelEvent| #[trigger]
            ss_errors(snap, bus).contains(e) <==> (snap.kernel_log.events@.contains(e)
                && trouble_on(e, bus)),
        ss_errors(snap, bus).len() == 0 <==> (forall|e: KernelEvent| #[trigger]
            snap.kernel_log.events@.contains(e) ==> !trouble_on(e, bus)),
{
    let s = snap.kernel_log.events@;
    lemma_kept_is(s, ss_error_on(bus));
    if ss_errors(snap, bus).len() > 0 {
        let e = ss_errors(snap, bus)[0];
        assert(ss_errors(snap, bus).contains(e));
    }
    if exists|e: KernelEvent| #[trigger] s.contains(e) && trouble_on(e, bus) {
        let e = choose|e: KernelEvent| #[trigger] s.contains(e) && trouble_on(e, bus);
        assert(ss_errors(snap, bus).contains(e));
    }
}

/// The events since a device attached are those that were not logged before.
pub proof fn since_attach_is_since_here(snap: Snapshot, s: Seq<KernelEvent>, dev: UsbDevice)
    ensures
        forall|e: KernelEvent| #[trigger]
            snap.since_attach(s, dev).contains(e) <==> (s.contains(e) && since_here(snap, e, dev)),
        snap.since_attach(s, dev).len() <= s.len(),
{
    if let Some(u) = snap.uptime_s {
        if let Some(t) = dev.attached_at(u) {
            lemma_kept_is(s, crate::snapshot::not_before(t));
        }
    }
}

proof fn lemma_half_broken(snap: Snapshot, i: int)
    requires
        0 <= i < sockets(snap).len(),
    ensures
        half_failed(snap)(sockets(snap)[i]).len() > 0 <==> half_broken(snap, i),
{
    let s = sockets(snap)[i];
    let bus = s.fast.hub.sysfs_name@;
    lemma_trouble(snap, bus);
    if s.slow.port.child is Some && snap.named(s.slow.port.child->0@) is Some {
        let d = snap.named(s.slow.port.child->0@)->0;
        let all = ss_errors(snap, bus);
        since_attach_is_since_here(snap, all, d);
        let now = snap.since_attach(all, d);
        if now.len() > 0 {
            assert(now.contains(now[0]));
            assert(all.contains(now[0]));
        }
        if half_broken(snap, i) {
            let e = choose|e: KernelEvent| #[trigger]
                snap.kernel_log.events@.contains(e) && trouble_on(e, bus) && since_here(snap, e, d);
            assert(all.contains(e));
            assert(now.contains(e));
        }
    }
}

/// The fast half came up once under what is in the slow half.
pub open spec fn came_up_once(snap: Snapshot, i: int) -> bool {
    exists|e: KernelEvent| #[trigger]
        snap.kernel_log.events@.contains(e) && e.kind == EventKind::DeviceEnumerating && holds_text(
            lowered(e.text@),
            "superspeed"@,
        ) && e.on_bus() == Some(sockets(snap)[i].fast.hub.sysfs_name@) && since_here(
            snap,
            e,
            snap.named(sockets(snap)[i].slow.port.child->0@)->0,
        )
}

proof fn lemma_came_up(snap: Snapshot, i: int)
    requires
        half_broken(snap, i),
    ensures
        did_train(
            snap,
            sockets(snap)[i],
            snap.named(sockets(snap)[i].slow.port.child->0@)->0,
        ) <==> came_up_once(snap, i),
{
    let s = sockets(snap)[i];
    let d = snap.named(s.slow.port.child->0@)->0;
    let all = snap.kernel_log.events@;
    let p = trained_since(s.fast.hub.sysfs_name@, attach_time(snap, d));
    lemma_any(all, p);
    if did_train(snap, s, d) {
        let k = choose|k: int| 0 <= k < all.len() && p(#[trigger] all[k]);
        assert(all.contains(all[k]));
    }
    if came_up_once(snap, i) {
        let e = choose|e: KernelEvent| #[trigger]
            all.contains(e) && e.kind == EventKind::DeviceEnumerating && holds_text(
                lowered(e.text@),
                "superspeed"@,
            ) && e.on_bus() == Some(s.fast.hub.sysfs_name@) && since_here(snap, e, d);
        let k = choose|k: int| 0 <= k < all.len() && all[k] == e;
        assert(p(all[k]));
    }
}

/// A receptacle whose fast half had trouble under what is in its slow half is
/// reported, and only such a one.
pub proof fn a_broken_half_is_reported(snap: Snapshot)
    ensures
        forall|x: Statement| #[trigger]
            analysis(snap).contains(x) && x.code == "SS_HALF_FAILED"@ ==> x.severity
                == Severity::High && x.confidence == Confidence::Inferred && exists|i: int|
                #[trigger] half_broken(snap, i) && x.subject
                    == About::Cable(sockets(snap)[i].place()) && x.suggestion
                    == Some(if came_up_once(snap, i) { crate::diag::receptacle::DEFECTIVE_ADVICE@ }
                    else { crate::diag::receptacle::UNWIRED_ADVICE@ }),
        forall|i: int| #[trigger] half_broken(snap, i)
            ==> reports(snap, "SS_HALF_FAILED"@, About::Cable(sockets(snap)[i].place())),
{
    codes_differ();
    broken_halves_piece(snap);
    assert forall|x: Statement| #[trigger]
            analysis(snap).contains(x) && x.code == "SS_HALF_FAILED"@ implies x.severity
                == Severity::High && x.confidence == Confidence::Inferred && exists|i: int|
                #[trigger] half_broken(snap, i) && x.subject
                    == About::Cable(sockets(snap)[i].place()) && x.suggestion
                    == Some(if came_up_once(snap, i) { crate::diag::receptacle::DEFECTIVE_ADVICE@ }
                    else { crate::diag::receptacle::UNWIRED_ADVICE@ }) by {
        let (i, y) = from_list(snap, x, sockets(snap), half_failed(snap));
        assert(half_failed(snap)(sockets(snap)[i]).len() > 0);
        lemma_half_broken(snap, i);
        assert(half_broken(snap, i));
        lemma_came_up(snap, i);
    }
    assert forall|i: int| #[trigger] half_broken(snap, i)
        implies reports(snap, "SS_HALF_FAILED"@, About::Cable(sockets(snap)[i].place())) by {
        lemma_half_broken(snap, i);
        let y = half_failed(snap)(sockets(snap)[i])[0];
        assert(half_failed(snap)(sockets(snap)[i]).contains(y));
        of_list(snap, sockets(snap), half_failed(snap), i, y);
    }
}

/// Storage in the slow half of a receptacle is reported where the fast half is
/// empty and quiet, and only then.
pub proof fn an_unused_half_is_reported(snap: Snapshot)
    ensures
        forall|x: Statement| #[trigger]
            analysis(snap).contains(x) && x.code == "SS_HALF_IDLE"@ ==> x.severity
                == Severity::Medium && x.confidence == Confidence::Heuristic && exists|i: int|
                #[trigger] half_unused(snap, i) && x.subject
                    == About::Device(snap.named(sockets(snap)[i].slow.port.child->0@)->0.sysfs_name@),
        forall|i: int| #[trigger] half_unused(snap, i)
            ==> reports(snap, "SS_HALF_IDLE"@,
            About::Device(snap.named(sockets(snap)[i].slow.port.child->0@)->0.sysfs_name@)),
{
    codes_differ();
    unused_halves_piece(snap);
    assert forall|x: Statement| #[trigger]
            analysis(snap).contains(x) && x.code == "SS_HALF_IDLE"@ implies x.severity
                == Severity::Medium && x.confidence == Confidence::Heuristic && exists|i: int|
                #[trigger] half_unused(snap, i) && x.subject
                    == About::Device(snap.named(sockets(snap)[i].slow.port.child->0@)->0.sysfs_name@) by {
        let (i, y) = from_list(snap, x, sockets(snap), half_idle(snap));
        let s = sockets(snap)[i];
        assert(half_idle(snap)(s).len() > 0);
        lemma_trouble(snap, s.fast.hub.sysfs_name@);
        lemma_stores(snap.named(s.slow.port.child->0@)->0);
        assert(half_unused(snap, i));
    }
    assert forall|i: int| #[trigger] half_unused(snap, i)
        implies reports(snap, "SS_HALF_IDLE"@,
        About::Device(snap.named(sockets(snap)[i].slow.port.child->0@)->0.sysfs_name@)) by {
        let s = sockets(snap)[i];
        lemma_trouble(snap, s.fast.hub.sysfs_name@);
        lemma_stores(snap.named(s.slow.port.child->0@)->0);
        let y = half_idle(snap)(s)[0];
        assert(half_idle(snap)(s).contains(y));
        of_list(snap, sockets(snap), half_idle(snap), i, y);
    }
}

// ---------------------------------------------------------------------------
// displays, routers, batteries
// ---------------------------------------------------------------------------

pub open spec fn outside(d: DisplayConnector) -> bool {
    !begins_with(d.connector@, "eDP"@) && !begins_with(d.connector@, "LVDS"@)
}

pub open spec fn dp_named(d: DisplayConnector) -> bool {
    begins_with(d.connector@, "DP"@) || begins_with(d.connector@, "DisplayPort"@)
}

/// Some outside output that is named as DisplayPort shows a picture.
pub open spec fn picture_shown(snap: Snapshot) -> bool {
    exists|k: int|
        0 <= k < snap.displays@.len() && dp_named(#[trigger] snap.displays@[k]) && outside(
            snap.displays@[k],
        ) && reads(snap.displays@[k].status, "connected"@) && snap.displays@[k].enabled
            == Some(true)
            && !reads(snap.displays@[k].dpms, "Off"@)
}

/// Some outside output has a display on it.
pub open spec fn display_attached(snap: Snapshot) -> bool {
    exists|k: int|
        0 <= k < snap.displays@.len() && outside(#[trigger] snap.displays@[k]) && reads(
            snap.displays@[k].status,
            "connected"@,
        )
}

/// A device with a billboard interface.
pub open spec fn announces(snap: Snapshot, i: int) -> bool {
    0 <= i < snap.all().len() && exists|j: int|
        0 <= j < snap.all()[i].interfaces@.len() && (#[trigger] snap.all()[i].interfaces@[j]).class
            == Some(0x11u8)
}

proof fn lemma_any<T>(s: Seq<T>, p: spec_fn(T) -> bool)
    ensures
        first_of(s, p) is Some <==> (exists|i: int| 0 <= i < s.len() && p(#[trigger] s[i])),
{
    lemma_first_of(s, p);
}

proof fn lemma_picture(snap: Snapshot)
    ensures
        first_of(snap.displays@, dp_lit()) is Some <==> picture_shown(snap),
        first_of(snap.displays@, outside_live()) is Some <==> display_attached(snap),
{
    let s = snap.displays@;
    lemma_any(s, dp_lit());
    lemma_any(s, outside_live());
    if picture_shown(snap) {
        let k = choose|k: int|
            0 <= k < s.len() && dp_named(#[trigger] s[k]) && outside(s[k]) && reads(
                s[k].status,
                "connected"@,
            ) && s[k].enabled == Some(true) && !reads(s[k].dpms, "Off"@);
        assert(dp_lit()(s[k]));
    }
    if display_attached(snap) {
        let k = choose|k: int|
            0 <= k < s.len() && outside(#[trigger] s[k]) && reads(s[k].status, "connected"@);
        assert(outside_live()(s[k]));
    }
    if first_of(s, dp_lit()) is Some {
        let k = choose|k: int| 0 <= k < s.len() && dp_lit()(#[trigger] s[k]);
        assert(dp_named(s[k]));
    }
    if first_of(s, outside_live()) is Some {
        let k = choose|k: int| 0 <= k < s.len() && outside_live()(#[trigger] s[k]);
        assert(outside(s[k]));
    }
}

proof fn lemma_announces(snap: Snapshot, i: int)
    requires
        0 <= i < snap.all().len(),
    ensures
        snap.all()[i].has_class(0x11) <==> announces(snap, i),
{
    let d = snap.all()[i];
    if d.has_class(0x11) {
        let j = choose|j: int|
            0 <= j < d.interfaces.len() && (#[trigger] d.interfaces[j]).class == Some(0x11u8);
        assert(snap.all()[i].interfaces@[j].class == Some(0x11u8));
    }
    if announces(snap, i) {
        let j = choose|j: int|
            0 <= j < snap.all()[i].interfaces@.len() && (
            #[trigger] snap.all()[i].interfaces@[j]).class == Some(0x11u8);
        assert(d.interfaces[j].class == Some(0x11u8));
    }
}

/// A billboard is reported of every device that has one, and of no other. It is no
/// fault where a picture is shown, a small one where no display is attached.
pub proof fn a_billboard_is_reported(snap: Snapshot)
    ensures
        forall|x: Statement| #[trigger]
            analysis(snap).contains(x) && x.code == "BILLBOARD_ALT_MODE_FAILED"@ ==> x.confidence
                == Confidence::Measured && x.severity == (if picture_shown(snap) { Severity::Info }
                else if display_attached(snap) || snap.displays@.len() == 0 { Severity::Medium }
                else { Severity::Low }) && exists|i: int|
                #[trigger] announces(snap, i) && x.subject
                    == About::Device(snap.all()[i].sysfs_name@),
        forall|i: int| #[trigger] announces(snap, i)
            ==> reports(snap, "BILLBOARD_ALT_MODE_FAILED"@,
            About::Device(snap.all()[i].sysfs_name@)),
{
    codes_differ();
    billboards_piece(snap);
    assert forall|x: Statement| #[trigger]
            analysis(snap).contains(x) && x.code == "BILLBOARD_ALT_MODE_FAILED"@
                implies x.confidence == Confidence::Measured && x.severity
                == (if picture_shown(snap) { Severity::Info } else if display_attached(snap)
                || snap.displays@.len() == 0 { Severity::Medium } else { Severity::Low })
                && exists|i: int|
                #[trigger] announces(snap, i) && x.subject
                    == About::Device(snap.all()[i].sysfs_name@) by {
        let f = billboard(picture(snap.displays@));
        let (i, y) = from_list(snap, x, snap.all(), f);
        assert(f(snap.all()[i]).len() > 0);
        lemma_picture(snap);
        lemma_announces(snap, i);
        assert(announces(snap, i));
    }
    assert forall|i: int| #[trigger] announces(snap, i)
        implies reports(snap, "BILLBOARD_ALT_MODE_FAILED"@,
        About::Device(snap.all()[i].sysfs_name@)) by {
        let f = billboard(picture(snap.displays@));
        lemma_announces(snap, i);
        let y = f(snap.all()[i])[0];
        assert(f(snap.all()[i]).contains(y));
        of_list(snap, snap.all(), f, i, y);
    }
}

/// A link through retimers is noted as an active cable, and no other link is.
pub proof fn an_active_cable_is_noted(snap: Snapshot)
    ensures
        reports(snap, "ACTIVE_CABLE_PRESENT"@, About::Cable("thunderbolt"@))
            <==> snap.thunderbolt.retimers@.len() > 0,
        forall|x: Statement| #[trigger]
            analysis(snap).contains(x) && x.code == "ACTIVE_CABLE_PRESENT"@ ==> x.severity
                == Severity::Info && x.confidence == Confidence::Measured && x.subject
                == About::Cable("thunderbolt"@),
{
    codes_differ();
    routers_piece(snap);
    let tb = snap.thunderbolt;
    let f = one_lane();
    let rest = attached_routers(tb.routers@);
    let a = one(active_cable(tb));
    assert forall|x: Statement| #[trigger]
        analysis(snap).contains(x) && x.code == "ACTIVE_CABLE_PRESENT"@ implies active_cable(tb)
        == Some(x) by {
        let y = came_from(snap, x);
        lemma_either(a, gathered(rest, f), y);
        lemma_in_gathered(rest, f, y);
        if gathered(rest, f).contains(y) {
            let i = choose|i: int| 0 <= i < rest.len() && f(#[trigger] rest[i]).contains(y);
            assert(f(rest[i]).len() > 0);
        }
        lemma_one_holds(active_cable(tb), y);
    }
    if let Some(y) = active_cable(tb) {
        lemma_one_holds(active_cable(tb), y);
        lemma_either(a, gathered(rest, f), y);
        let x = gets_reported(snap, y);
        assert(analysis(snap).contains(x));
    }
}

proof fn lemma_either(a: Seq<Statement>, b: Seq<Statement>, y: Statement)
    ensures
        (a + b).contains(y) <==> a.contains(y) || b.contains(y),
{
    if a.contains(y) {
        let i = choose|i: int| 0 <= i < a.len() && a[i] == y;
        assert((a + b)[i] == y);
    }
    if b.contains(y) {
        let i = choose|i: int| 0 <= i < b.len() && b[i] == y;
        assert((a + b)[a.len() + i] == y);
    }
    if (a + b).contains(y) {
        let i = choose|i: int| 0 <= i < (a + b).len() && (a + b)[i] == y;
        if i < a.len() {
            assert(a[i] == y);
        } else {
            assert(b[i - a.len()] == y);
        }
    }
}

proof fn lemma_one_holds(o: Option<Statement>, y: Statement)
    ensures
        one(o).contains(y) <==> o == Some(y),
{
    if o == Some(y) {
        assert(one(o)[0] == y);
    }
}

/// A USB4 router, not the host's own, on one lane.
pub open spec fn one_lane_router(snap: Snapshot, i: int) -> bool {
    &&& 0 <= i < snap.thunderbolt.routers@.len()
    &&& !snap.thunderbolt.routers@[i].is_host
    &&& (snap.thunderbolt.routers@[i].generation matches Some(g) && g >= 4)
    &&& snap.thunderbolt.routers@[i].tx_lanes == Some(1u32)
}

/// The attached routers are those that are not the host's own.
pub proof fn attached_is_not_the_host(s: Seq<ThunderboltRouter>)
    ensures
        forall|r: ThunderboltRouter| #[trigger]
            attached_routers(s).contains(r) <==> (s.contains(r) && !r.is_host),
    decreases s.len(),
{
    if s.len() > 0 {
        let t = s.drop_last();
        let k = attached_routers(t);
        attached_is_not_the_host(t);
        assert forall|r: ThunderboltRouter| #[trigger]
            attached_routers(s).contains(r) <==> (s.contains(r) && !r.is_host) by {
            if attached_routers(s).contains(r) {
                let i = choose|i: int| 0 <= i < attached_routers(s).len() && attached_routers(s)[i]
                    == r;
                if i < k.len() {
                    assert(k[i] == r);
                    assert(k.contains(r));
                    let j = choose|j: int| 0 <= j < t.len() && t[j] == r;
                    assert(s[j] == r);
                } else {
                    assert(s[s.len() - 1] == r);
                }
            }
            if s.contains(r) && !r.is_host {
                let i = choose|i: int| 0 <= i < s.len() && s[i] == r;
                if i < t.len() {
                    assert(t[i] == r);
                    assert(t.contains(r));
                    assert(k.contains(r));
                    let j = choose|j: int| 0 <= j < k.len() && k[j] == r;
                    assert(attached_routers(s)[j] == r);
                } else {
                    assert(attached_routers(s)[k.len() as int] == r);
                }
            }
        }
    }
}

/// A USB4 router on one lane is reported, and only such a one.
pub proof fn a_single_lane_router_is_reported(snap: Snapshot)
    ensures
        forall|x: Statement| #[trigger]
            analysis(snap).contains(x) && x.code == "USB4_LINK_BELOW_CAPABILITY"@ ==> x.severity
                == Severity::Medium && x.confidence == Confidence::Inferred && exists|i: int|
                #[trigger] one_lane_router(snap, i) && x.subject
                    == About::Device(snap.thunderbolt.routers@[i].name@),
        forall|i: int| #[trigger] one_lane_router(snap, i)
            ==> reports(snap, "USB4_LINK_BELOW_CAPABILITY"@,
            About::Device(snap.thunderbolt.routers@[i].name@)),
{
    codes_differ();
    routers_piece(snap);
    assert forall|x: Statement| #[trigger]
            analysis(snap).contains(x) && x.code == "USB4_LINK_BELOW_CAPABILITY"@ implies x.severity
                == Severity::Medium && x.confidence == Confidence::Inferred && exists|i: int|
                #[trigger] one_lane_router(snap, i) && x.subject
                    == About::Device(snap.thunderbolt.routers@[i].name@) by {
        let tb = snap.thunderbolt;
        let f = one_lane();
        let rest = attached_routers(tb.routers@);
        let y = came_from(snap, x);
        lemma_either(one(active_cable(tb)), gathered(rest, f), y);
        lemma_one_holds(active_cable(tb), y);
        lemma_in_gathered(rest, f, y);
        let k = choose|k: int| 0 <= k < rest.len() && f(#[trigger] rest[k]).contains(y);
        assert(f(rest[k]).len() > 0);
        attached_is_not_the_host(tb.routers@);
        assert(rest.contains(rest[k]));
        let i = choose|i: int| 0 <= i < tb.routers@.len() && tb.routers@[i] == rest[k];
        assert(one_lane_router(snap, i));
    }
    assert forall|i: int| #[trigger] one_lane_router(snap, i)
        implies reports(snap, "USB4_LINK_BELOW_CAPABILITY"@,
        About::Device(snap.thunderbolt.routers@[i].name@)) by {
        let tb = snap.thunderbolt;
        let f = one_lane();
        let rest = attached_routers(tb.routers@);
        attached_is_not_the_host(tb.routers@);
        assert(rest.contains(tb.routers@[i]));
        let k = choose|k: int| 0 <= k < rest.len() && rest[k] == tb.routers@[i];
        let y = f(rest[k])[0];
        assert(f(rest[k]).contains(y));
        lemma_in_gathered(rest, f, y);
        lemma_either(one(active_cable(tb)), gathered(rest, f), y);
        let x = gets_reported(snap, y);
        assert(analysis(snap).contains(x));
    }
}

/// A battery that gains nothing with the mains on is reported, and only then.
pub proof fn a_draining_battery_is_reported(snap: Snapshot)
    ensures
        reports(snap, "BATTERY_DRAINING_ON_AC"@, About::Host) <==> snap.mains_online == Some(true)
            && exists|k: int|
            0 <= k < snap.batteries@.len() && gains_nothing(#[trigger] snap.batteries@[k]),
        forall|x: Statement| #[trigger]
            analysis(snap).contains(x) && x.code == "BATTERY_DRAINING_ON_AC"@ ==> x.severity
                == Severity::Medium && x.confidence == Confidence::Measured && x.subject
                == About::Host,
{
    codes_differ();
    batteries_piece(snap);
    let f = draining(supply(snap));
    let s = snap.batteries@;
    assert forall|x: Statement| #[trigger]
        analysis(snap).contains(x) && x.code == "BATTERY_DRAINING_ON_AC"@ implies x.severity
        == Severity::Medium && x.confidence == Confidence::Measured && x.subject == About::Host
        && snap.mains_online == Some(true) && exists|k: int|
        0 <= k < s.len() && gains_nothing(#[trigger] s[k]) by {
        let y = came_from(snap, x);
        lemma_in_gathered(s, f, y);
        let k = choose|k: int| 0 <= k < s.len() && f(#[trigger] s[k]).contains(y);
        assert(f(s[k]).len() > 0);
        assert(gains_nothing(s[k]));
    }
    if snap.mains_online == Some(true) && exists|k: int|
        0 <= k < s.len() && gains_nothing(#[trigger] s[k]) {
        let k = choose|k: int| 0 <= k < s.len() && gains_nothing(#[trigger] s[k]);
        assert(s[k].losing(true));
        let y = f(s[k])[0];
        assert(f(s[k]).contains(y));
        of_list(snap, s, f, k, y);
    }
}

/// There are outside DisplayPort outputs, none with a display, and a partner that
/// is in DisplayPort mode.
pub open spec fn picture_lost(snap: Snapshot, i: int) -> bool {
    &&& 0 <= i < snap.ports@.len()
    &&& snap.ports@[i].partner is Some
    &&& exists|k: int|
        0 <= k < snap.ports@[i].partner->0.alt_modes@.len() && (
        #[trigger] snap.ports@[i].partner->0.alt_modes@[k]).svid == Some(0xff01u16)
            && snap.ports@[i].partner->0.alt_modes@[k].active == Some(true)
    &&& exists|k: int|
        0 <= k < snap.displays@.len() && dp_named(#[trigger] snap.displays@[k]) && outside(
            snap.displays@[k],
        )
    &&& forall|k: int|
        0 <= k < snap.displays@.len() && dp_named(#[trigger] snap.displays@[k]) && outside(
            snap.displays@[k],
        ) ==> !reads(snap.displays@[k].status, "connected"@)
}

proof fn lemma_outputs(snap: Snapshot)
    ensures
        dp_outputs(snap).len() > 0 <==> (exists|k: int|
            0 <= k < snap.displays@.len() && dp_named(#[trigger] snap.displays@[k]) && outside(
                snap.displays@[k],
            )),
        first_of(dp_outputs(snap), is_live()) is None <==> (forall|k: int|
            0 <= k < snap.displays@.len() && dp_named(#[trigger] snap.displays@[k]) && outside(
                snap.displays@[k],
            ) ==> !reads(snap.displays@[k].status, "connected"@)),
{
    let s = snap.displays@;
    let g = dp_outputs(snap);
    lemma_kept_is(s, outward_dp());
    lemma_first_of(g, is_live());
    if g.len() > 0 {
        let k = choose|k: int| 0 <= k < s.len() && outward_dp()(#[trigger] s[k]);
        assert(dp_named(s[k]));
    }
    if exists|k: int| 0 <= k < s.len() && dp_named(#[trigger] s[k]) && outside(s[k]) {
        let k = choose|k: int| 0 <= k < s.len() && dp_named(#[trigger] s[k]) && outside(s[k]);
        assert(outward_dp()(s[k]));
    }
    if first_of(g, is_live()) is None {
        assert forall|k: int|
            0 <= k < s.len() && dp_named(#[trigger] s[k]) && outside(s[k]) implies !reads(
            s[k].status,
            "connected"@,
        ) by {
            assert(s.contains(s[k]) && outward_dp()(s[k]));
            assert(g.contains(s[k]));
            let j = choose|j: int| 0 <= j < g.len() && g[j] == s[k];
            assert(!is_live()(g[j]));
        }
    } else {
        let x = first_of(g, is_live())->0;
        let j = choose|j: int| 0 <= j < g.len() && x == #[trigger] g[j] && is_live()(g[j])
            && (forall|
            m: int,
        | 0 <= m < j ==> !is_live()(#[trigger] g[m]));
        assert(g.contains(g[j]));
        let k = choose|k: int| 0 <= k < s.len() && s[k] == g[j];
        assert(dp_named(s[k]) && outside(s[k]));
        assert(reads(s[k].status, "connected"@));
    }
}

proof fn lemma_dp_active(p: Partner)
    ensures
        first_of(p.alt_modes@, dp_active()) is Some <==> (exists|k: int|
            0 <= k < p.alt_modes@.len() && (#[trigger] p.alt_modes@[k]).svid == Some(0xff01u16)
                && p.alt_modes@[k].active == Some(true)),
{
    let s = p.alt_modes@;
    lemma_any(s, dp_active());
    if exists|k: int|
        0 <= k < s.len() && (#[trigger] s[k]).svid == Some(0xff01u16) && s[k].active == Some(true) {
        let k = choose|k: int|
            0 <= k < s.len() && (#[trigger] s[k]).svid == Some(0xff01u16) && s[k].active == Some(
                true,
            );
        assert(dp_active()(s[k]));
    }
    if first_of(s, dp_active()) is Some {
        let k = choose|k: int| 0 <= k < s.len() && dp_active()(#[trigger] s[k]);
        assert(s[k].svid == Some(0xff01u16));
    }
}

/// A partner in DisplayPort mode is reported where outputs exist and none has a
/// display, and only then.
pub proof fn a_lost_picture_is_reported(snap: Snapshot)
    ensures
        forall|x: Statement| #[trigger]
            analysis(snap).contains(x) && x.code == "DP_ALT_MODE_NO_OUTPUT"@ ==> x.severity
                == Severity::Medium && x.confidence == Confidence::Inferred && exists|i: int|
                #[trigger] picture_lost(snap, i) && x.subject == About::Port(snap.ports@[i].name@),
        forall|i: int| #[trigger] picture_lost(snap, i)
            ==> reports(snap, "DP_ALT_MODE_NO_OUTPUT"@, About::Port(snap.ports@[i].name@)),
{
    codes_differ();
    displays_piece(snap);
    assert forall|x: Statement| #[trigger]
            analysis(snap).contains(x) && x.code == "DP_ALT_MODE_NO_OUTPUT"@ implies x.severity
                == Severity::Medium && x.confidence == Confidence::Inferred && exists|i: int|
                #[trigger] picture_lost(snap, i) && x.subject
                    == About::Port(snap.ports@[i].name@) by {
        let f = no_output(dp_outputs(snap));
        let y = came_from(snap, x);
        lemma_outputs(snap);
        lemma_in_gathered(snap.ports@, f, y);
        let i = choose|i: int| 0 <= i < snap.ports@.len()
            && f(#[trigger] snap.ports@[i]).contains(y);
        assert(f(snap.ports@[i]).len() > 0);
        lemma_dp_active(snap.ports@[i].partner->0);
        assert(picture_lost(snap, i));
    }
    assert forall|i: int| #[trigger] picture_lost(snap, i)
        implies reports(snap, "DP_ALT_MODE_NO_OUTPUT"@, About::Port(snap.ports@[i].name@)) by {
        let f = no_output(dp_outputs(snap));
        lemma_outputs(snap);
        lemma_dp_active(snap.ports@[i].partner->0);
        let y = f(snap.ports@[i])[0];
        assert(f(snap.ports@[i]).contains(y));
        of_list(snap, snap.ports@, f, i, y);
    }
}

/// A hub port that counted an over-current.
pub open spec fn port_tripped(snap: Snapshot, i: int, j: int) -> bool {
    &&& 0 <= i < snap.all().len()
    &&& 0 <= j < snap.all()[i].ports@.len()
    &&& (snap.all()[i].ports@[j].over_current_count matches Some(n) && n > 0)
}

/// A hub port that counted an over-current is reported of its hub, and only then.
pub proof fn a_tripped_port_is_reported(snap: Snapshot)
    ensures
        forall|x: Statement| #[trigger]
            analysis(snap).contains(x) && x.code == "PORT_OVER_CURRENT_COUNT"@ ==> x.severity
                == Severity::High && x.confidence == Confidence::Measured && exists|i: int, j: int|
                #[trigger] port_tripped(snap, i, j) && x.subject
                    == About::Device(snap.all()[i].sysfs_name@),
        forall|i: int, j: int| #[trigger] port_tripped(snap, i, j)
            ==> reports(snap, "PORT_OVER_CURRENT_COUNT"@, About::Device(snap.all()[i].sysfs_name@)),
{
    codes_differ();
    hub_ports_piece(snap);
    assert forall|x: Statement| #[trigger]
            analysis(snap).contains(x) && x.code == "PORT_OVER_CURRENT_COUNT"@ implies x.severity
                == Severity::High && x.confidence == Confidence::Measured && exists|i: int, j: int|
                #[trigger] port_tripped(snap, i, j) && x.subject
                    == About::Device(snap.all()[i].sysfs_name@) by {
        let (i, y) = from_list(snap, x, snap.all(), tripped_on());
        let d = snap.all()[i];
        lemma_in_gathered(d.ports@, tripped(d), y);
        let j = choose|j: int| 0 <= j < d.ports@.len()
            && tripped(d)(#[trigger] d.ports@[j]).contains(y);
        assert(tripped(d)(d.ports@[j]).len() > 0);
        assert(port_tripped(snap, i, j));
    }
    assert forall|i: int, j: int| #[trigger] port_tripped(snap, i, j)
        implies reports(snap, "PORT_OVER_CURRENT_COUNT"@,
        About::Device(snap.all()[i].sysfs_name@)) by {
        let d = snap.all()[i];
        let y = tripped(d)(d.ports@[j])[0];
        assert(tripped(d)(d.ports@[j]).contains(y));
        lemma_in_gathered(d.ports@, tripped(d), y);
        of_list(snap, snap.all(), tripped_on(), i, y);
    }
}

// ---------------------------------------------------------------------------
// traffic and disks
// ---------------------------------------------------------------------------

/// Three errors at least, enough traffic to tell, and one in a thousand.
pub open spec fn errs(s: UrbStats) -> bool {
    &&& s.transport_errors >= 3
    &&& s.completions > 0
    &&& s.completions >= 50 || s.transport_errors >= 10
    &&& s.transport_errors * 1000 >= s.completions
}

pub open spec fn link_errs(snap: Snapshot, i: int) -> bool {
    &&& snap.urb_traffic is Some
    &&& 0 <= i < snap.urb_traffic->0.devices@.len()
    &&& errs(snap.urb_traffic->0.devices@[i])
}

/// Whose the traffic at an address is: the first device there, or nobody known.
pub open spec fn owner_of(snap: Snapshot, s: UrbStats) -> About {
    match device_of(snap, s) {
        Some(d) => About::Device(d.sysfs_name@),
        None => About::Host,
    }
}

/// Traffic belongs to a device at its bus and address, where there is one.
pub proof fn traffic_belongs_to_its_address(snap: Snapshot, s: UrbStats)
    ensures
        device_of(snap, s) matches Some(d) ==> snap.all().contains(d) && d.busnum == Some(s.bus)
            && d.devnum == Some(s.device_address),
        device_of(snap, s) is None ==> forall|i: int|
            0 <= i < snap.all().len() ==> !((#[trigger] snap.all()[i]).busnum == Some(s.bus)
                && snap.all()[i].devnum == Some(s.device_address)),
{
    let p = crate::snapshot::is_at(s.bus, s.device_address);
    lemma_first_of(snap.all(), p);
    assert forall|i: int| 0 <= i < snap.all().len() implies p(#[trigger] snap.all()[i]) == (
    snap.all()[i].busnum == Some(s.bus) && snap.all()[i].devnum == Some(s.device_address)) by {}
}

/// A link that loses one transfer in a thousand is reported, and only such a one;
/// one in a hundred is grave.
pub proof fn an_error_rate_is_reported(snap: Snapshot)
    ensures
        forall|x: Statement| #[trigger]
            analysis(snap).contains(x) && x.code == "LINK_ERROR_RATE"@ ==> x.confidence
                == Confidence::Measured && exists|i: int|
                #[trigger] link_errs(snap, i) && x.subject
                    == owner_of(snap, snap.urb_traffic->0.devices@[i]) && x.severity
                    == (if snap.urb_traffic->0.devices@[i].transport_errors * 100
                    >= snap.urb_traffic->0.devices@[i].completions {
                    Severity::High
                } else {
                    Severity::Medium
                }),
        forall|i: int| #[trigger] link_errs(snap, i)
            ==> reports(snap, "LINK_ERROR_RATE"@, owner_of(snap, snap.urb_traffic->0.devices@[i])),
{
    codes_differ();
    traffic_piece(snap);
    assert forall|x: Statement| #[trigger]
            analysis(snap).contains(x) && x.code == "LINK_ERROR_RATE"@ implies x.confidence
                == Confidence::Measured && exists|i: int|
                #[trigger] link_errs(snap, i) && x.subject
                    == owner_of(snap, snap.urb_traffic->0.devices@[i]) && x.severity
                    == (if snap.urb_traffic->0.devices@[i].transport_errors * 100
                    >= snap.urb_traffic->0.devices@[i].completions {
                    Severity::High
                } else {
                    Severity::Medium
                }) by {
        let y = came_from(snap, x);
        assert(snap.urb_traffic is Some);
        let t = snap.urb_traffic->0;
        let f = error_rate(snap, t.window_ms);
        lemma_in_gathered(t.devices@, f, y);
        let i = choose|i: int| 0 <= i < t.devices@.len() && f(#[trigger] t.devices@[i]).contains(y);
        assert(f(t.devices@[i]).len() > 0);
        assert(link_errs(snap, i));
    }
    assert forall|i: int| #[trigger] link_errs(snap, i)
        implies reports(snap, "LINK_ERROR_RATE"@, owner_of(snap,
        snap.urb_traffic->0.devices@[i])) by {
        let t = snap.urb_traffic->0;
        let f = error_rate(snap, t.window_ms);
        let y = f(t.devices@[i])[0];
        assert(f(t.devices@[i]).contains(y));
        of_list(snap, t.devices@, f, i, y);
    }
}

/// Errors on the wire turn a guess about the same device's link into an
/// inference, and change nothing else but the evidence.
pub proof fn wire_errors_corroborate(snap: Snapshot, y: Statement, d: UsbDevice, i: int)
    requires
        snap.urb_traffic is Some,
        y.code == "LINK_BELOW_DEVICE_CAPABILITY"@ || y.code == "LINK_SLOW_DESPITE_CAPABLE_CABLE"@
            || y.code == "LINK_SINGLE_LANE"@ || y.code == "DEVICE_RESET_STORM"@,
        y.subject == About::Device(d.sysfs_name@),
        snap.named(d.sysfs_name@) == Some(d),
        0 <= i < snap.urb_traffic->0.devices@.len(),
        d.busnum == Some(snap.urb_traffic->0.devices@[i].bus),
        d.devnum == Some(snap.urb_traffic->0.devices@[i].device_address),
        snap.urb_traffic->0.devices@[i].transport_errors >= 3,
        forall|j: int|
            0 <= j < i ==> !((#[trigger] snap.urb_traffic->0.devices@[j]).bus
                == snap.urb_traffic->0.devices@[i].bus
                && snap.urb_traffic->0.devices@[j].device_address
                == snap.urb_traffic->0.devices@[i].device_address),
    ensures
        strengthened(snap, y).confidence == (if y.confidence == Confidence::Heuristic {
            Confidence::Inferred
        } else {
            y.confidence
        }),
        strengthened(snap, y).evidence.len() == y.evidence.len() + 1,
{
    let s = snap.urb_traffic->0.devices@;
    let p = crate::diag::traffic::counts_at(s[i].bus, s[i].device_address);
    lemma_first_of(s, p);
    assert(p(s[i]));
    let x = first_of(s, p)->0;
    let k = choose|k: int|
        0 <= k < s.len() && x == #[trigger] s[k] && p(s[k]) && (forall|j: int|
            0 <= j < k ==> !p(#[trigger] s[j]));
    if k < i {
        assert(!(s[k].bus == s[i].bus && s[k].device_address == s[i].device_address));
    }
    if i < k {
        assert(!p(s[i]));
    }
}

/// A read that failed after it had begun.
pub open spec fn read_broke(snap: Snapshot, i: int) -> bool {
    &&& 0 <= i < snap.throughput@.len()
    &&& snap.throughput@[i].error is Some
    &&& snap.throughput@[i].bytes_read > 0
}

pub open spec fn disk_owner(snap: Snapshot, disk: Seq<char>) -> About {
    match disk_in(snap.storage(), disk) {
        Some((d, _)) => About::Device(d.sysfs_name@),
        None => About::Host,
    }
}

proof fn lemma_sample(snap: Snapshot, t: ThroughputSample, y: Statement)
    ensures
        sample_statements(snap)(t).contains(y) <==> ((t.error is Some && t.bytes_read > 0 && y
            == read_failed(snap, t, t.error->0@)) || (t.error is None && judged(snap, t) == Some(
            y,
        ))),
        t.error is Some ==> read_failed(snap, t, t.error->0@).code == "STORAGE_READ_FAILED"@,
        judged(snap, t) == Some(y) ==> y.code == "THROUGHPUT_FAR_BELOW_LINK"@,
{
    let f = sample_statements(snap);
    match t.error {
        Some(e) => {
            if t.bytes_read > 0 {
                lemma_single(read_failed(snap, t, e@), y);
            }
        },
        None => {
            lemma_one_holds(judged(snap, t), y);
        },
    }
}

/// A read that failed after it had begun is reported, and only such a one.
pub proof fn a_failed_read_is_reported(snap: Snapshot)
    ensures
        forall|x: Statement| #[trigger]
            analysis(snap).contains(x) && x.code == "STORAGE_READ_FAILED"@ ==> x.severity
                == Severity::High && x.confidence == Confidence::Measured && exists|i: int|
                #[trigger] read_broke(snap, i) && x.subject
                    == disk_owner(snap, snap.throughput@[i].device@),
        forall|i: int| #[trigger] read_broke(snap, i)
            ==> reports(snap, "STORAGE_READ_FAILED"@, disk_owner(snap,
            snap.throughput@[i].device@)),
{
    codes_differ();
    samples_piece(snap);
    assert forall|x: Statement| #[trigger]
            analysis(snap).contains(x) && x.code == "STORAGE_READ_FAILED"@ implies x.severity
                == Severity::High && x.confidence == Confidence::Measured && exists|i: int|
                #[trigger] read_broke(snap, i) && x.subject
                    == disk_owner(snap, snap.throughput@[i].device@) by {
        let (i, y) = from_list(snap, x, snap.throughput@, sample_statements(snap));
        lemma_sample(snap, snap.throughput@[i], y);
        assert(read_broke(snap, i));
    }
    assert forall|i: int| #[trigger] read_broke(snap, i)
        implies reports(snap, "STORAGE_READ_FAILED"@, disk_owner(snap,
        snap.throughput@[i].device@)) by {
        let t = snap.throughput@[i];
        let y = read_failed(snap, t, t.error->0@);
        lemma_sample(snap, t, y);
        of_list(snap, snap.throughput@, sample_statements(snap), i, y);
    }
}

/// What a link carries in practice, in bytes a second.
pub open spec fn carries(mbps_micros: u64, bytes: int) -> bool {
    ||| mbps_micros <= 12_000_000 && bytes == 1_000_000
    ||| 12_000_000 < mbps_micros <= 480_000_000 && bytes == 40_000_000
    ||| 480_000_000 < mbps_micros <= 5_000_000_000 && bytes == 450_000_000
    ||| 5_000_000_000 < mbps_micros <= 10_000_000_000 && bytes == 950_000_000
    ||| 10_000_000_000 < mbps_micros <= 20_000_000_000 && bytes == 1_900_000_000
    ||| 20_000_000_000 < mbps_micros && bytes == 3_500_000_000
}

/// What a disk should reach: half of what a platter or its link gives, whichever
/// is less; 40 MB/s of anything else on a link that carries more.
pub open spec fn should_reach(rotating: bool, link: int, micros: int) -> bool {
    if rotating {
        micros == (if link < 120_000_000 {
            link
        } else {
            120_000_000
        }) * 1_000_000 / 2
    } else {
        link > 40_000_000 && micros == 40_000_000 * 1_000_000
    }
}

/// A disk that reads slower than it should, with nothing else reading from it.
pub open spec fn reads_slowly(snap: Snapshot, i: int, link: int, floor: int) -> bool {
    &&& 0 <= i < snap.throughput@.len()
    &&& snap.throughput@[i].error is None
    &&& !(snap.throughput@[i].contended_bytes matches Some(b) && b > 4_000_000)
    &&& (disk_in(snap.storage(), snap.throughput@[i].device@) matches Some((d, b))
        && d.speed is Some
        && carries(d.speed->0.mbps.micros, link) && should_reach(
        snap.medium(b).0 == Medium::Rotating,
        link,
        floor,
    ))
    &&& (snap.throughput@[i].bytes_per_second matches Some(a) && a.micros < floor)
}

/// A medium that the user declared is no measurement.
pub open spec fn how_sure(snap: Snapshot, disk: Seq<char>) -> Confidence {
    match disk_in(snap.storage(), disk) {
        Some((d, b)) => if snap.medium(b).1 == KindSource::User {
            Confidence::Inferred
        } else if snap.medium(b).1 == KindSource::Class {
            Confidence::Measured
        } else {
            Confidence::Heuristic
        },
        None => Confidence::Heuristic,
    }
}

proof fn lemma_judged(snap: Snapshot, i: int) -> (r: (int, int))
    requires
        0 <= i < snap.throughput@.len(),
        snap.throughput@[i].error is None,
        judged(snap, snap.throughput@[i]) is Some,
    ensures
        reads_slowly(snap, i, r.0, r.1),
        judged(snap, snap.throughput@[i])->0.severity == Severity::Medium,
        judged(snap, snap.throughput@[i])->0.confidence == how_sure(
            snap,
            snap.throughput@[i].device@,
        ),
        judged(snap, snap.throughput@[i])->0.subject == disk_owner(
            snap,
            snap.throughput@[i].device@,
        ),
{
    let t = snap.throughput@[i];
    let (d, b) = disk_in(snap.storage(), t.device@)->0;
    let rate = sustained(d.speed->0.mbps);
    let (least, because) = floor_of(snap.medium(b).0, rate)->0;
    let link = rate.micros as int / 1_000_000;
    assert(carries(d.speed->0.mbps.micros, link));
    (link, least.micros as int)
}

proof fn lemma_slow(snap: Snapshot, i: int, link: int, floor: int)
    requires
        reads_slowly(snap, i, link, floor),
    ensures
        judged(snap, snap.throughput@[i]) is Some,
        judged(snap, snap.throughput@[i])->0.subject == disk_owner(
            snap,
            snap.throughput@[i].device@,
        ),
{
    let t = snap.throughput@[i];
    let (d, b) = disk_in(snap.storage(), t.device@)->0;
    assert(sustained(d.speed->0.mbps).micros == link * 1_000_000);
}

/// A disk that reads slower than it should is reported, and only such a one.
pub proof fn a_slow_disk_is_reported(snap: Snapshot)
    ensures
        forall|x: Statement| #[trigger]
            analysis(snap).contains(x) && x.code == "THROUGHPUT_FAR_BELOW_LINK"@ ==> x.severity
                == Severity::Medium && exists|i: int, link: int, floor: int|
                #[trigger] reads_slowly(snap, i, link, floor) && x.subject
                    == disk_owner(snap, snap.throughput@[i].device@) && x.confidence
                    == how_sure(snap, snap.throughput@[i].device@),
        forall|i: int, link: int, floor: int| #[trigger] reads_slowly(snap, i, link, floor)
            ==> reports(snap, "THROUGHPUT_FAR_BELOW_LINK"@, disk_owner(snap,
            snap.throughput@[i].device@)),
{
    codes_differ();
    samples_piece(snap);
    assert forall|x: Statement| #[trigger]
            analysis(snap).contains(x) && x.code == "THROUGHPUT_FAR_BELOW_LINK"@ implies x.severity
                == Severity::Medium && exists|i: int, link: int, floor: int|
                #[trigger] reads_slowly(snap, i, link, floor) && x.subject
                    == disk_owner(snap, snap.throughput@[i].device@) && x.confidence
                    == how_sure(snap, snap.throughput@[i].device@) by {
        let (i, y) = from_list(snap, x, snap.throughput@, sample_statements(snap));
        lemma_sample(snap, snap.throughput@[i], y);
        let (link, floor) = lemma_judged(snap, i);
        assert(reads_slowly(snap, i, link, floor));
    }
    assert forall|i: int, link: int, floor: int| #[trigger] reads_slowly(snap, i, link, floor)
        implies reports(snap, "THROUGHPUT_FAR_BELOW_LINK"@, disk_owner(snap,
        snap.throughput@[i].device@)) by {
        lemma_slow(snap, i, link, floor);
        let y = judged(snap, snap.throughput@[i])->0;
        lemma_sample(snap, snap.throughput@[i], y);
        of_list(snap, snap.throughput@, sample_statements(snap), i, y);
    }
}

/// A drive of a device failed requests in a window.
pub open spec fn requests_failed(snap: Snapshot, h: int, j: int) -> bool {
    &&& 0 <= h < snap.storage().len()
    &&& 0 <= j < snap.storage()[h].drives.len()
    &&& (snap.storage()[h].drives[j].scsi_delta matches Some(d) && (d.timeouts > 0
        || (d.requests > 0
        && d.errors > 0)))
}

pub open spec fn gravity(d: ScsiDelta) -> Severity {
    if d.timeouts > 0 {
        Severity::High
    } else if d.errors * 100 >= d.requests {
        Severity::Medium
    } else {
        Severity::Low
    }
}

proof fn lemma_requests(snap: Snapshot, h: int, j: int, y: Statement)
    requires
        0 <= h < snap.storage().len(),
        0 <= j < snap.storage()[h].drives.len(),
    ensures
        ({
            let owner = snap.storage()[h].owner;
            let b = snap.storage()[h].drives[j];
            scsi_errors(owner)(b).contains(y) <==> requests_failed(snap, h, j) && y
                == scsi_statement(
                owner,
                b,
                b.scsi_delta->0,
                gravity(b.scsi_delta->0),
            )
        }),
{
    let owner = snap.storage()[h].owner;
    let b = snap.storage()[h].drives[j];
    if let Some(d) = b.scsi_delta {
        lemma_single(scsi_statement(owner, b, d, gravity(d)), y);
        assert(requests_failed(snap, h, j) ==> scsi_severity(d) == Some(gravity(d)) && !d.clean());
        assert(!requests_failed(snap, h, j) ==> scsi_errors(owner)(b).len() == 0);
    } else {
        assert(scsi_errors(owner)(b).len() == 0);
    }
}

/// A drive that timed out or failed requests is reported, and only such a one;
/// a timeout is grave, and so, less, is one error in a hundred.
pub proof fn a_failed_request_is_reported(snap: Snapshot)
    ensures
        forall|x: Statement| #[trigger]
            analysis(snap).contains(x) && x.code == "STORAGE_IO_ERRORS"@ ==> x.confidence
                == Confidence::Measured && exists|h: int, j: int|
                #[trigger] requests_failed(snap, h, j) && x.subject
                    == About::Device(snap.storage()[h].owner.sysfs_name@) && x.severity
                    == gravity(snap.storage()[h].drives[j].scsi_delta->0),
        forall|h: int, j: int| #[trigger] requests_failed(snap, h, j)
            ==> reports(snap, "STORAGE_IO_ERRORS"@,
            About::Device(snap.storage()[h].owner.sysfs_name@)),
{
    codes_differ();
    drives_piece(snap);
    assert forall|x: Statement| #[trigger]
            analysis(snap).contains(x) && x.code == "STORAGE_IO_ERRORS"@ implies x.confidence
                == Confidence::Measured && exists|h: int, j: int|
                #[trigger] requests_failed(snap, h, j) && x.subject
                    == About::Device(snap.storage()[h].owner.sysfs_name@) && x.severity
                    == gravity(snap.storage()[h].drives[j].scsi_delta->0) by {
        let (h, y) = from_list(snap, x, snap.storage(), scsi_holding());
        let s = snap.storage()[h];
        let f = scsi_errors(s.owner);
        lemma_in_gathered(s.drives, f, y);
        let j = choose|j: int| 0 <= j < s.drives.len() && f(#[trigger] s.drives[j]).contains(y);
        lemma_requests(snap, h, j, y);
        assert(requests_failed(snap, h, j));
    }
    assert forall|h: int, j: int| #[trigger] requests_failed(snap, h, j)
        implies reports(snap, "STORAGE_IO_ERRORS"@,
        About::Device(snap.storage()[h].owner.sysfs_name@)) by {
        let s = snap.storage()[h];
        let f = scsi_errors(s.owner);
        let d = s.drives[j].scsi_delta->0;
        let y = scsi_statement(s.owner, s.drives[j], d, gravity(d));
        lemma_requests(snap, h, j, y);
        lemma_in_gathered(s.drives, f, y);
        of_list(snap, snap.storage(), scsi_holding(), h, y);
    }
}

/// A run of cycles is reported as intermittent where a device stayed away or came
/// back at more than one rate, else as stable; one cycle alone is never
/// intermittent.
pub proof fn a_run_is_judged(snap: Snapshot)
    ensures
        ({
            let run = snap.reenumeration->0;
            let about = About::Device(run.device@);
            let ran = snap.reenumeration is Some && run.cycles@.len() > 0;
            let uneven = ran && run.cycles@.len() > 1 && (run.lost() > 0
                || run.distribution().len() > 1);
            &&& reports(snap, "LINK_INTERMITTENT"@, about) <==> uneven
            &&& reports(snap, "LINK_STABLE_UNDER_CYCLING"@, about) <==> ran && !uneven
            &&& forall|x: Statement| #[trigger]
                analysis(snap).contains(x) && x.code == "LINK_INTERMITTENT"@ ==> x.severity == (
                if run.lost() > 0 {
                    Severity::High
                } else {
                    Severity::Medium
                }) && x.confidence == Confidence::Measured && x.subject == about
            &&& forall|x: Statement| #[trigger]
                analysis(snap).contains(x) && x.code == "LINK_STABLE_UNDER_CYCLING"@ ==> x.severity
                    == Severity::Info && x.confidence == Confidence::Measured && x.subject == about
        }),
{
    codes_differ();
    cycles_piece(snap);
    let run = snap.reenumeration->0;
    let c = cycle_statement(snap);
    assert forall|x: Statement| #[trigger]
        analysis(snap).contains(x) && (x.code == "LINK_INTERMITTENT"@ || x.code
            == "LINK_STABLE_UNDER_CYCLING"@) implies c == Some(x) by {
        let y = came_from(snap, x);
        lemma_one_holds(c, y);
    }
    if let Some(y) = c {
        lemma_one_holds(c, y);
        let x = gets_reported(snap, y);
        assert(analysis(snap).contains(x));
    }
}

} // verus!
