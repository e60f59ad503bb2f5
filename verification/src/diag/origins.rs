//! Which rule each code comes from, and that it comes from nowhere else.

use vstd::prelude::*;
use crate::diag::analysis::{
    absence_statements, all_statements, analysis, link_statements, measured_statements,
    nothing_else_is_dropped, stands, topology_statements,
};
use crate::diag::cable::{
    cable_statements, current_limit, data_limit, data_statements, devices_behind,
    slow_despite_cable, voltage_exceeded,
};
use crate::diag::cycle::cycle_statement;
use crate::diag::device::{
    device_statements, history_statements, link_statement, logged_fault, reset_storm,
};
use crate::diag::host::{
    bandwidth_denied, controller_failed, host_statements, log_missing, of_kind, over_current,
    power_denied,
};
use crate::diag::phantom::{phantom, phantom_names};
use crate::diag::port::{
    attached_statements, cable_part, contract_below_offer, dp_not_active, offered, partner_no_pd,
    pd_no_contract, port_statements, sink_underpowered, source_below_sink,
};
use crate::diag::power::{battery_statements, draining, supply, tripped, tripped_on};
use crate::diag::promises::{all_of, lemma_gathered, lemma_joined, lemma_noted, lemma_reported};
use crate::diag::receptacle::{covered, half_failed, half_idle, sockets};
use crate::diag::storage::{sample_statements, scsi_errors, scsi_holding};
use crate::diag::traffic::{error_rate, strengthened, traffic_statements};
use crate::diag::video::{
    active_cable, billboard, display_statements, dp_outputs, no_output, one_lane, picture,
    thunderbolt_statements,
};
use crate::diag::{noted, one};
use crate::model::{
    Cable, EventKind, KernelEvent, KernelLog, Partner, Snapshot, Statement, TypecPort, UsbDevice,
};
use crate::seqs::{gathered, kept};

verus! {

/// The place of a code among all that are reported, or 0.
#[verifier::opaque]
pub open spec fn id(code: Seq<char>) -> int {
    if code == "KERNEL_LOG_UNAVAILABLE"@ {
        1
    } else if code == "HOST_CONTROLLER_FAILURE"@ {
        2
    } else if code == "BUS_OVER_CURRENT"@ {
        3
    } else if code == "BUS_POWER_INSUFFICIENT"@ {
        4
    } else if code == "BUS_BANDWIDTH_INSUFFICIENT"@ {
        5
    } else if code == "SINK_UNDERPOWERED_NO_PD"@ {
        6
    } else if code == "PARTNER_NO_PD"@ {
        7
    } else if code == "PD_NO_CONTRACT"@ {
        8
    } else if code == "PD_SOURCE_BELOW_SINK_CAPABILITY"@ {
        9
    } else if code == "PD_CONTRACT_BELOW_OFFER"@ {
        10
    } else if code == "CABLE_EMARKER_NOT_REPORTED"@ {
        11
    } else if code == "CABLE_NOT_EMARKED"@ {
        12
    } else if code == "DP_ALTMODE_NOT_ACTIVE"@ {
        13
    } else if code == "CABLE_CURRENT_LIMIT"@ {
        14
    } else if code == "CABLE_VOLTAGE_EXCEEDED"@ {
        15
    } else if code == "CABLE_DATA_LIMIT"@ {
        16
    } else if code == "LINK_SLOW_DESPITE_CAPABLE_CABLE"@ {
        17
    } else if code == "LINK_SINGLE_LANE"@ {
        18
    } else if code == "LINK_BELOW_DEVICE_CAPABILITY"@ {
        19
    } else if code == "DEVICE_RESET_STORM"@ {
        20
    } else if code == "KERNEL_BLAMED_CABLE"@ {
        21
    } else if code == "ENUMERATION_FAILURE"@ {
        22
    } else if code == "LINK_TRAINING_FAILURE"@ {
        23
    } else if code == "SS_HALF_FAILED"@ {
        24
    } else if code == "SS_HALF_IDLE"@ {
        25
    } else if code == "DEVICE_FAILED_TO_ENUMERATE"@ {
        26
    } else if code == "BILLBOARD_ALT_MODE_FAILED"@ {
        27
    } else if code == "ACTIVE_CABLE_PRESENT"@ {
        28
    } else if code == "USB4_LINK_BELOW_CAPABILITY"@ {
        29
    } else if code == "BATTERY_DRAINING_ON_AC"@ {
        30
    } else if code == "DP_ALT_MODE_NO_OUTPUT"@ {
        31
    } else if code == "LINK_ERROR_RATE"@ {
        32
    } else if code == "THROUGHPUT_FAR_BELOW_LINK"@ {
        33
    } else if code == "STORAGE_READ_FAILED"@ {
        34
    } else if code == "STORAGE_IO_ERRORS"@ {
        35
    } else if code == "LINK_STABLE_UNDER_CYCLING"@ {
        36
    } else if code == "LINK_INTERMITTENT"@ {
        37
    } else if code == "PORT_OVER_CURRENT_COUNT"@ {
        38
    } else {
        0
    }
}

/// The codes are told apart by their letters.
pub proof fn codes_differ()
    ensures
        id("KERNEL_LOG_UNAVAILABLE"@) == 1,
        id("HOST_CONTROLLER_FAILURE"@) == 2,
        id("BUS_OVER_CURRENT"@) == 3,
        id("BUS_POWER_INSUFFICIENT"@) == 4,
        id("BUS_BANDWIDTH_INSUFFICIENT"@) == 5,
        id("SINK_UNDERPOWERED_NO_PD"@) == 6,
        id("PARTNER_NO_PD"@) == 7,
        id("PD_NO_CONTRACT"@) == 8,
        id("PD_SOURCE_BELOW_SINK_CAPABILITY"@) == 9,
        id("PD_CONTRACT_BELOW_OFFER"@) == 10,
        id("CABLE_EMARKER_NOT_REPORTED"@) == 11,
        id("CABLE_NOT_EMARKED"@) == 12,
        id("DP_ALTMODE_NOT_ACTIVE"@) == 13,
        id("CABLE_CURRENT_LIMIT"@) == 14,
        id("CABLE_VOLTAGE_EXCEEDED"@) == 15,
        id("CABLE_DATA_LIMIT"@) == 16,
        id("LINK_SLOW_DESPITE_CAPABLE_CABLE"@) == 17,
        id("LINK_SINGLE_LANE"@) == 18,
        id("LINK_BELOW_DEVICE_CAPABILITY"@) == 19,
        id("DEVICE_RESET_STORM"@) == 20,
        id("KERNEL_BLAMED_CABLE"@) == 21,
        id("ENUMERATION_FAILURE"@) == 22,
        id("LINK_TRAINING_FAILURE"@) == 23,
        id("SS_HALF_FAILED"@) == 24,
        id("SS_HALF_IDLE"@) == 25,
        id("DEVICE_FAILED_TO_ENUMERATE"@) == 26,
        id("BILLBOARD_ALT_MODE_FAILED"@) == 27,
        id("ACTIVE_CABLE_PRESENT"@) == 28,
        id("USB4_LINK_BELOW_CAPABILITY"@) == 29,
        id("BATTERY_DRAINING_ON_AC"@) == 30,
        id("DP_ALT_MODE_NO_OUTPUT"@) == 31,
        id("LINK_ERROR_RATE"@) == 32,
        id("THROUGHPUT_FAR_BELOW_LINK"@) == 33,
        id("STORAGE_READ_FAILED"@) == 34,
        id("STORAGE_IO_ERRORS"@) == 35,
        id("LINK_STABLE_UNDER_CYCLING"@) == 36,
        id("LINK_INTERMITTENT"@) == 37,
        id("PORT_OVER_CURRENT_COUNT"@) == 38,
{
    reveal(id);
    reveal_strlit("KERNEL_LOG_UNAVAILABLE");
    reveal_strlit("HOST_CONTROLLER_FAILURE");
    reveal_strlit("BUS_OVER_CURRENT");
    reveal_strlit("BUS_POWER_INSUFFICIENT");
    reveal_strlit("BUS_BANDWIDTH_INSUFFICIENT");
    reveal_strlit("SINK_UNDERPOWERED_NO_PD");
    reveal_strlit("PARTNER_NO_PD");
    reveal_strlit("PD_NO_CONTRACT");
    reveal_strlit("PD_SOURCE_BELOW_SINK_CAPABILITY");
    reveal_strlit("PD_CONTRACT_BELOW_OFFER");
    reveal_strlit("CABLE_EMARKER_NOT_REPORTED");
    reveal_strlit("CABLE_NOT_EMARKED");
    reveal_strlit("DP_ALTMODE_NOT_ACTIVE");
    reveal_strlit("CABLE_CURRENT_LIMIT");
    reveal_strlit("CABLE_VOLTAGE_EXCEEDED");
    reveal_strlit("CABLE_DATA_LIMIT");
    reveal_strlit("LINK_SLOW_DESPITE_CAPABLE_CABLE");
    reveal_strlit("LINK_SINGLE_LANE");
    reveal_strlit("LINK_BELOW_DEVICE_CAPABILITY");
    reveal_strlit("DEVICE_RESET_STORM");
    reveal_strlit("KERNEL_BLAMED_CABLE");
    reveal_strlit("ENUMERATION_FAILURE");
    reveal_strlit("LINK_TRAINING_FAILURE");
    reveal_strlit("SS_HALF_FAILED");
    reveal_strlit("SS_HALF_IDLE");
    reveal_strlit("DEVICE_FAILED_TO_ENUMERATE");
    reveal_strlit("BILLBOARD_ALT_MODE_FAILED");
    reveal_strlit("ACTIVE_CABLE_PRESENT");
    reveal_strlit("USB4_LINK_BELOW_CAPABILITY");
    reveal_strlit("BATTERY_DRAINING_ON_AC");
    reveal_strlit("DP_ALT_MODE_NO_OUTPUT");
    reveal_strlit("LINK_ERROR_RATE");
    reveal_strlit("THROUGHPUT_FAR_BELOW_LINK");
    reveal_strlit("STORAGE_READ_FAILED");
    reveal_strlit("STORAGE_IO_ERRORS");
    reveal_strlit("LINK_STABLE_UNDER_CYCLING");
    reveal_strlit("LINK_INTERMITTENT");
    reveal_strlit("PORT_OVER_CURRENT_COUNT");
    assert("KERNEL_LOG_UNAVAILABLE"@.len() == 22);
    assert("HOST_CONTROLLER_FAILURE"@.len() == 23);
    assert("BUS_OVER_CURRENT"@.len() == 16);
    assert("BUS_POWER_INSUFFICIENT"@.len() == 22);
    assert("BUS_BANDWIDTH_INSUFFICIENT"@.len() == 26);
    assert("SINK_UNDERPOWERED_NO_PD"@.len() == 23);
    assert("PARTNER_NO_PD"@.len() == 13);
    assert("PD_NO_CONTRACT"@.len() == 14);
    assert("PD_SOURCE_BELOW_SINK_CAPABILITY"@.len() == 31);
    assert("PD_CONTRACT_BELOW_OFFER"@.len() == 23);
    assert("CABLE_EMARKER_NOT_REPORTED"@.len() == 26);
    assert("CABLE_NOT_EMARKED"@.len() == 17);
    assert("DP_ALTMODE_NOT_ACTIVE"@.len() == 21);
    assert("CABLE_CURRENT_LIMIT"@.len() == 19);
    assert("CABLE_VOLTAGE_EXCEEDED"@.len() == 22);
    assert("CABLE_DATA_LIMIT"@.len() == 16);
    assert("LINK_SLOW_DESPITE_CAPABLE_CABLE"@.len() == 31);
    assert("LINK_SINGLE_LANE"@.len() == 16);
    assert("LINK_BELOW_DEVICE_CAPABILITY"@.len() == 28);
    assert("DEVICE_RESET_STORM"@.len() == 18);
    assert("KERNEL_BLAMED_CABLE"@.len() == 19);
    assert("ENUMERATION_FAILURE"@.len() == 19);
    assert("LINK_TRAINING_FAILURE"@.len() == 21);
    assert("SS_HALF_FAILED"@.len() == 14);
    assert("SS_HALF_IDLE"@.len() == 12);
    assert("DEVICE_FAILED_TO_ENUMERATE"@.len() == 26);
    assert("BILLBOARD_ALT_MODE_FAILED"@.len() == 25);
    assert("ACTIVE_CABLE_PRESENT"@.len() == 20);
    assert("USB4_LINK_BELOW_CAPABILITY"@.len() == 26);
    assert("BATTERY_DRAINING_ON_AC"@.len() == 22);
    assert("DP_ALT_MODE_NO_OUTPUT"@.len() == 21);
    assert("LINK_ERROR_RATE"@.len() == 15);
    assert("THROUGHPUT_FAR_BELOW_LINK"@.len() == 25);
    assert("STORAGE_READ_FAILED"@.len() == 19);
    assert("STORAGE_IO_ERRORS"@.len() == 17);
    assert("LINK_STABLE_UNDER_CYCLING"@.len() == 25);
    assert("LINK_INTERMITTENT"@.len() == 17);
    assert("PORT_OVER_CURRENT_COUNT"@.len() == 23);
    assert("KERNEL_LOG_UNAVAILABLE"@[2] == 'R');
    assert("BUS_POWER_INSUFFICIENT"@[2] == 'S');
    assert("CABLE_VOLTAGE_EXCEEDED"@[2] == 'B');
    assert("BATTERY_DRAINING_ON_AC"@[2] == 'T');
    assert("HOST_CONTROLLER_FAILURE"@[2] == 'S');
    assert("SINK_UNDERPOWERED_NO_PD"@[2] == 'N');
    assert("PD_CONTRACT_BELOW_OFFER"@[2] == '_');
    assert("PORT_OVER_CURRENT_COUNT"@[2] == 'R');
    assert("BUS_OVER_CURRENT"@[0] == 'B');
    assert("CABLE_DATA_LIMIT"@[0] == 'C');
    assert("LINK_SINGLE_LANE"@[0] == 'L');
    assert("BUS_BANDWIDTH_INSUFFICIENT"@[0] == 'B');
    assert("CABLE_EMARKER_NOT_REPORTED"@[0] == 'C');
    assert("DEVICE_FAILED_TO_ENUMERATE"@[0] == 'D');
    assert("USB4_LINK_BELOW_CAPABILITY"@[0] == 'U');
    assert("PD_NO_CONTRACT"@[0] == 'P');
    assert("SS_HALF_FAILED"@[0] == 'S');
    assert("PD_SOURCE_BELOW_SINK_CAPABILITY"@[0] == 'P');
    assert("LINK_SLOW_DESPITE_CAPABLE_CABLE"@[0] == 'L');
    assert("CABLE_NOT_EMARKED"@[0] == 'C');
    assert("STORAGE_IO_ERRORS"@[0] == 'S');
    assert("LINK_INTERMITTENT"@[0] == 'L');
    assert("DP_ALTMODE_NOT_ACTIVE"@[6] == 'M');
    assert("LINK_TRAINING_FAILURE"@[6] == 'R');
    assert("DP_ALT_MODE_NO_OUTPUT"@[6] == '_');
    assert("CABLE_CURRENT_LIMIT"@[0] == 'C');
    assert("KERNEL_BLAMED_CABLE"@[0] == 'K');
    assert("ENUMERATION_FAILURE"@[0] == 'E');
    assert("STORAGE_READ_FAILED"@[0] == 'S');
    assert("BILLBOARD_ALT_MODE_FAILED"@[0] == 'B');
    assert("THROUGHPUT_FAR_BELOW_LINK"@[0] == 'T');
    assert("LINK_STABLE_UNDER_CYCLING"@[0] == 'L');
}

/// Statements whose codes lie in a stretch of the list.
pub open spec fn within(lo: int, hi: int) -> spec_fn(Statement) -> bool {
    |x: Statement| lo <= id(x.code) <= hi
}

proof fn lemma_sum(a: Seq<Statement>, b: Seq<Statement>, y: Statement)
    ensures
        (a + b).contains(y) <==> a.contains(y) || b.contains(y),
{
    if a.contains(y) {
        let i = choose|i: int| 0 <= i < a.len() && a[i] == y;
        assert((a + b)[i] == y);
    }
    if b.contains(y) {
        let i = choose|i: int| 0 <= i < b.len() && b[i] == y;
        assert((a + b)[a.len() + i] == y);
    }
}

proof fn lemma_one(o: Option<Statement>, y: Statement)
    ensures
        one(o).contains(y) <==> o == Some(y),
{
    if o == Some(y) {
        assert(one(o)[0] == y);
    }
}

pub proof fn lemma_single(x: Statement, y: Statement)
    ensures
        seq![x].contains(y) <==> x == y,
{
    if x == y {
        assert(seq![x][0] == y);
    }
}

/// What is gathered from a list comes from one of its items.
pub proof fn lemma_in_gathered<T>(s: Seq<T>, f: spec_fn(T) -> Seq<Statement>, y: Statement)
    ensures
        gathered(s, f).contains(y) <==> exists|i: int|
            0 <= i < s.len() && f(#[trigger] s[i]).contains(y),
    decreases s.len(),
{
    if s.len() > 0 {
        let t = s.drop_last();
        lemma_in_gathered(t, f, y);
        lemma_sum(gathered(t, f), f(s.last()), y);
        if gathered(t, f).contains(y) {
            let i = choose|i: int| 0 <= i < t.len() && f(#[trigger] t[i]).contains(y);
            assert(s[i] == t[i]);
        }
        if f(s.last()).contains(y) {
            assert(s[s.len() - 1] == s.last());
        }
        if exists|i: int| 0 <= i < s.len() && f(#[trigger] s[i]).contains(y) {
            let i = choose|i: int| 0 <= i < s.len() && f(#[trigger] s[i]).contains(y);
            if i < t.len() {
                assert(t[i] == s[i]);
            }
        }
    }
}

pub proof fn lemma_all_of(s: Seq<Statement>, p: spec_fn(Statement) -> bool, y: Statement)
    requires
        all_of(s, p),
        s.contains(y),
    ensures
        p(y),
{
}

/// The pieces that the statements of all rules are made of.
#[verifier::opaque]
pub open spec fn piece(snap: Snapshot, k: int) -> Seq<Statement> {
    if k == 1 {
        host_statements(snap.kernel_log)
    } else if k == 2 {
        gathered(snap.ports@, port_statements(snap))
    } else if k == 3 {
        gathered(snap.all(), device_statements(snap))
    } else if k == 4 {
        gathered(sockets(snap), half_failed(snap))
    } else if k == 5 {
        gathered(sockets(snap), half_idle(snap))
    } else if k == 6 {
        gathered(phantom_names(snap), phantom(snap))
    } else if k == 7 {
        gathered(snap.all(), billboard(picture(snap.displays@)))
    } else if k == 8 {
        thunderbolt_statements(snap.thunderbolt)
    } else if k == 9 {
        battery_statements(snap)
    } else if k == 10 {
        display_statements(snap)
    } else if k == 11 {
        traffic_statements(snap)
    } else if k == 12 {
        gathered(snap.throughput@, sample_statements(snap))
    } else if k == 13 {
        gathered(snap.storage(), scsi_holding())
    } else if k == 14 {
        one(cycle_statement(snap))
    } else {
        gathered(snap.all(), tripped_on())
    }
}

/// The piece that the statements with a code come from.
pub open spec fn piece_of(n: int) -> int {
    if n <= 5 {
        1
    } else if n <= 17 {
        2
    } else if n <= 23 {
        3
    } else if n <= 29 {
        if n <= 27 {
            n - 20
        } else {
            8
        }
    } else if n == 30 {
        9
    } else if n == 31 {
        10
    } else if n == 32 {
        11
    } else if n <= 34 {
        12
    } else if n == 35 {
        13
    } else if n <= 37 {
        14
    } else {
        15
    }
}

pub proof fn host_piece(snap: Snapshot)
    ensures
        piece(snap, 1) == host_statements(snap.kernel_log),
{
    reveal(piece);
}

pub proof fn ports_piece(snap: Snapshot)
    ensures
        piece(snap, 2) == gathered(snap.ports@, port_statements(snap)),
{
    reveal(piece);
}

pub proof fn devices_piece(snap: Snapshot)
    ensures
        piece(snap, 3) == gathered(snap.all(), device_statements(snap)),
{
    reveal(piece);
}

pub proof fn broken_halves_piece(snap: Snapshot)
    ensures
        piece(snap, 4) == gathered(sockets(snap), half_failed(snap)),
{
    reveal(piece);
}

pub proof fn unused_halves_piece(snap: Snapshot)
    ensures
        piece(snap, 5) == gathered(sockets(snap), half_idle(snap)),
{
    reveal(piece);
}

pub proof fn phantoms_piece(snap: Snapshot)
    ensures
        piece(snap, 6) == gathered(phantom_names(snap), phantom(snap)),
{
    reveal(piece);
}

pub proof fn billboards_piece(snap: Snapshot)
    ensures
        piece(snap, 7) == gathered(snap.all(), billboard(picture(snap.displays@))),
{
    reveal(piece);
}

pub proof fn routers_piece(snap: Snapshot)
    ensures
        piece(snap, 8) == thunderbolt_statements(snap.thunderbolt),
{
    reveal(piece);
}

pub proof fn batteries_piece(snap: Snapshot)
    ensures
        piece(snap, 9) == battery_statements(snap),
{
    reveal(piece);
}

pub proof fn displays_piece(snap: Snapshot)
    ensures
        piece(snap, 10) == display_statements(snap),
{
    reveal(piece);
}

pub proof fn traffic_piece(snap: Snapshot)
    ensures
        piece(snap, 11) == traffic_statements(snap),
{
    reveal(piece);
}

pub proof fn samples_piece(snap: Snapshot)
    ensures
        piece(snap, 12) == gathered(snap.throughput@, sample_statements(snap)),
{
    reveal(piece);
}

pub proof fn drives_piece(snap: Snapshot)
    ensures
        piece(snap, 13) == gathered(snap.storage(), scsi_holding()),
{
    reveal(piece);
}

pub proof fn cycles_piece(snap: Snapshot)
    ensures
        piece(snap, 14) == one(cycle_statement(snap)),
{
    reveal(piece);
}

pub proof fn hub_ports_piece(snap: Snapshot)
    ensures
        piece(snap, 15) == gathered(snap.all(), tripped_on()),
{
    reveal(piece);
}

proof fn lemma_pieces(snap: Snapshot, y: Statement)
    ensures
        all_statements(snap).contains(y) <==> exists|k: int|
            1 <= k <= 15 && (#[trigger] piece(snap, k)).contains(y),
{
    reveal(piece);
    lemma_sum(piece(snap, 1), piece(snap, 2), y);
    lemma_sum(piece(snap, 1) + piece(snap, 2), piece(snap, 3), y);
    lemma_sum(piece(snap, 4), piece(snap, 5), y);
    lemma_sum(piece(snap, 4) + piece(snap, 5), piece(snap, 6), y);
    lemma_sum(piece(snap, 7), piece(snap, 8), y);
    lemma_sum(piece(snap, 7) + piece(snap, 8), piece(snap, 9), y);
    lemma_sum(piece(snap, 7) + piece(snap, 8) + piece(snap, 9), piece(snap, 10), y);
    lemma_sum(piece(snap, 11), piece(snap, 12), y);
    lemma_sum(piece(snap, 11) + piece(snap, 12), piece(snap, 13), y);
    lemma_sum(piece(snap, 11) + piece(snap, 12) + piece(snap, 13), piece(snap, 14), y);
    lemma_sum(
        piece(snap, 11) + piece(snap, 12) + piece(snap, 13) + piece(snap, 14),
        piece(snap, 15),
        y,
    );
    lemma_sum(topology_statements(snap), absence_statements(snap), y);
    lemma_sum(topology_statements(snap) + absence_statements(snap), link_statements(snap), y);
    lemma_sum(
        topology_statements(snap) + absence_statements(snap) + link_statements(snap),
        measured_statements(snap),
        y,
    );
}

proof fn lemma_host_codes(log: KernelLog)
    ensures
        all_of(host_statements(log), within(1, 5)),
{
    codes_differ();
    let p = within(1, 5);
    let s0 = Seq::<Statement>::empty();
    lemma_noted(s0, log_missing(log), p);
    let s1 = noted(s0, log_missing(log));
    lemma_noted(s1, controller_failed(log), p);
    let s2 = noted(s1, controller_failed(log));
    lemma_noted(s2, over_current(log), p);
    let s3 = noted(s2, over_current(log));
    lemma_noted(s3, power_denied(log), p);
    let s4 = noted(s3, power_denied(log));
    lemma_noted(s4, bandwidth_denied(log), p);
}

/// A statement about a host comes from the rule that its code names.
pub proof fn host_origin(log: KernelLog, y: Statement)
    ensures
        host_statements(log).contains(y) <==> log_missing(log) == Some(y) || controller_failed(log)
            == Some(y) || over_current(log) == Some(y) || power_denied(log) == Some(y)
            || bandwidth_denied(log) == Some(y),
        log_missing(log) == Some(y) ==> id(y.code) == 1,
        controller_failed(log) == Some(y) ==> id(y.code) == 2,
        over_current(log) == Some(y) ==> id(y.code) == 3,
        power_denied(log) == Some(y) ==> id(y.code) == 4,
        bandwidth_denied(log) == Some(y) ==> id(y.code) == 5,
{
    codes_differ();
    let s0 = Seq::<Statement>::empty();
    let s1 = noted(s0, log_missing(log));
    let s2 = noted(s1, controller_failed(log));
    let s3 = noted(s2, over_current(log));
    let s4 = noted(s3, power_denied(log));
    lemma_sum(s0, one(log_missing(log)), y);
    lemma_sum(s1, one(controller_failed(log)), y);
    lemma_sum(s2, one(over_current(log)), y);
    lemma_sum(s3, one(power_denied(log)), y);
    lemma_sum(s4, one(bandwidth_denied(log)), y);
    lemma_one(log_missing(log), y);
    lemma_one(controller_failed(log), y);
    lemma_one(over_current(log), y);
    lemma_one(power_denied(log), y);
    lemma_one(bandwidth_denied(log), y);
}

/// A statement about a cable comes from the rule that its code names.
pub proof fn cable_origin(snap: Snapshot, port: TypecPort, cable: Cable, o: Option<u32>, y: Statement)
    ensures
        match cable.identity {
            None => !cable_statements(snap, port, cable, o).contains(y),
            Some(d) => {
                &&& cable_statements(snap, port, cable, o).contains(y) <==> current_limit(port, d, o)
                    == Some(y) || voltage_exceeded(port, d) == Some(y) || data_statements(
                    snap,
                    port,
                    d,
                ).contains(y)
                &&& current_limit(port, d, o) == Some(y) ==> id(y.code) == 14
                &&& voltage_exceeded(port, d) == Some(y) ==> id(y.code) == 15
                &&& data_statements(snap, port, d).contains(y) ==> (id(y.code) == 16 || id(y.code)
                    == 17)
                &&& id(y.code) == 16 ==> (data_statements(snap, port, d).contains(y) <==> (
                d.product_type_vdo1 matches Some(v) && data_limit(port, d, v) == Some(y)))
                &&& id(y.code) == 17 ==> (data_statements(snap, port, d).contains(y) <==> (
                d.product_type_vdo1 matches Some(v) && crate::vdo::cable_speed(v.raw).micros
                    > 480_000_000 && gathered(
                    devices_behind(snap, port.name@),
                    slow_despite_cable(d),
                ).contains(y)))
            },
        },
{
    codes_differ();
    if let Some(d) = cable.identity {
        let s0 = Seq::<Statement>::empty();
        let s1 = noted(s0, current_limit(port, d, o));
        let s2 = noted(s1, voltage_exceeded(port, d));
        lemma_sum(s0, one(current_limit(port, d, o)), y);
        lemma_one(current_limit(port, d, o), y);
        lemma_sum(s1, one(voltage_exceeded(port, d)), y);
        lemma_one(voltage_exceeded(port, d), y);
        lemma_sum(s2, data_statements(snap, port, d), y);
        if let Some(v) = d.product_type_vdo1 {
            let f = slow_despite_cable(d);
            let devs = devices_behind(snap, port.name@);
            lemma_sum(s0, one(data_limit(port, d, v)), y);
            lemma_one(data_limit(port, d, v), y);
            lemma_sum(noted(s0, data_limit(port, d, v)), gathered(devs, f), y);
            assert forall|i: int| 0 <= i < devs.len() implies all_of(
                f(#[trigger] devs[i]),
                within(17, 17),
            ) by {}
            lemma_gathered(devs, f, within(17, 17));
            if gathered(devs, f).contains(y) {
                lemma_all_of(gathered(devs, f), within(17, 17), y);
            }
        }
    }
}

/// A statement about an attached port comes from the rule that its code names.
pub proof fn port_origin(snap: Snapshot, port: TypecPort, partner: Partner, y: Statement)
    ensures
        attached_statements(snap, port, partner).contains(y) <==> sink_underpowered(port, partner)
            == Some(y) || partner_no_pd(port, partner) == Some(y) || pd_no_contract(port, partner)
            == Some(y) || source_below_sink(snap, port, partner) == Some(y) || contract_below_offer(
            port,
            partner,
        ) == Some(y) || cable_part(snap, port, partner).contains(y) || gathered(
            partner.alt_modes@,
            dp_not_active(port),
        ).contains(y),
        sink_underpowered(port, partner) == Some(y) ==> id(y.code) == 6,
        partner_no_pd(port, partner) == Some(y) ==> id(y.code) == 7,
        pd_no_contract(port, partner) == Some(y) ==> id(y.code) == 8,
        source_below_sink(snap, port, partner) == Some(y) ==> id(y.code) == 9,
        contract_below_offer(port, partner) == Some(y) ==> id(y.code) == 10,
        cable_part(snap, port, partner).contains(y) ==> id(y.code) == 11 || id(y.code) == 12 || 14
            <= id(y.code) <= 17,
        cable_part(snap, port, partner).contains(y) ==> (port.cable is Some <==> id(y.code) >= 14),
        gathered(partner.alt_modes@, dp_not_active(port)).contains(y) ==> id(y.code) == 13,
{
    codes_differ();
    let s0 = Seq::<Statement>::empty();
    let s1 = noted(s0, sink_underpowered(port, partner));
    let s2 = noted(s1, partner_no_pd(port, partner));
    let s3 = noted(s2, pd_no_contract(port, partner));
    let s4 = noted(s3, source_below_sink(snap, port, partner));
    let s5 = noted(s4, contract_below_offer(port, partner));
    let c = cable_part(snap, port, partner);
    let f = dp_not_active(port);
    lemma_sum(s0, one(sink_underpowered(port, partner)), y);
    lemma_one(sink_underpowered(port, partner), y);
    lemma_sum(s1, one(partner_no_pd(port, partner)), y);
    lemma_one(partner_no_pd(port, partner), y);
    lemma_sum(s2, one(pd_no_contract(port, partner)), y);
    lemma_one(pd_no_contract(port, partner), y);
    lemma_sum(s3, one(source_below_sink(snap, port, partner)), y);
    lemma_one(source_below_sink(snap, port, partner), y);
    lemma_sum(s4, one(contract_below_offer(port, partner)), y);
    lemma_one(contract_below_offer(port, partner), y);
    lemma_sum(s5, c, y);
    lemma_sum(s5 + c, gathered(partner.alt_modes@, f), y);
    if let Some(cable) = port.cable {
        cable_origin(snap, port, cable, offered(partner), y);
    }
    assert forall|i: int| 0 <= i < partner.alt_modes@.len() implies all_of(
        f(#[trigger] partner.alt_modes@[i]),
        within(13, 13),
    ) by {}
    lemma_gathered(partner.alt_modes@, f, within(13, 13));
    if gathered(partner.alt_modes@, f).contains(y) {
        lemma_all_of(gathered(partner.alt_modes@, f), within(13, 13), y);
    }
}

pub open spec fn blamed(dev: UsbDevice, events: Seq<KernelEvent>) -> Option<Statement> {
    logged_fault(
        dev,
        kept(events, of_kind(EventKind::CableSuspect)),
        "KERNEL_BLAMED_CABLE"@,
        crate::diag::device::BLAMED_TITLE@,
        crate::diag::device::BLAMED_DETAIL@,
    )
}

pub open spec fn not_enumerated(dev: UsbDevice, events: Seq<KernelEvent>) -> Option<Statement> {
    logged_fault(
        dev,
        kept(events, of_kind(EventKind::EnumerationFailure)),
        "ENUMERATION_FAILURE"@,
        crate::diag::device::ENUM_TITLE@,
        crate::diag::device::ENUM_DETAIL@,
    )
}

pub open spec fn not_trained(dev: UsbDevice, events: Seq<KernelEvent>) -> Option<Statement> {
    logged_fault(
        dev,
        kept(events, of_kind(EventKind::LinkTrainingFailure)),
        "LINK_TRAINING_FAILURE"@,
        crate::diag::device::TRAIN_TITLE@,
        crate::diag::device::TRAIN_DETAIL@,
    )
}

/// A statement about a device comes from the rule that its code names.
pub proof fn device_origin(snap: Snapshot, dev: UsbDevice, y: Statement)
    ensures
        ({
            let past = snap.live_events(dev);
            let storm = reset_storm(dev, kept(past, of_kind(EventKind::DeviceReset)));
            let link = link_statement(snap, dev);
            &&& device_statements(snap)(dev).contains(y) <==> (!dev.is_root_hub && link == Some(y))
                || storm == Some(y) || blamed(dev, past) == Some(y) || not_enumerated(dev, past)
                == Some(y) || not_trained(dev, past) == Some(y)
            &&& link == Some(y) ==> id(y.code) == (if dev.says_superspeed() && dev.linked_slow() {
                19int
            } else {
                18
            })
            &&& storm == Some(y) ==> id(y.code) == 20
            &&& blamed(dev, past) == Some(y) ==> id(y.code) == 21
            &&& not_enumerated(dev, past) == Some(y) ==> id(y.code) == 22
            &&& not_trained(dev, past) == Some(y) ==> id(y.code) == 23
        }),
{
    codes_differ();
    let past = snap.live_events(dev);
    let storm = reset_storm(dev, kept(past, of_kind(EventKind::DeviceReset)));
    let link = link_statement(snap, dev);
    let s0 = Seq::<Statement>::empty();
    let s1 = noted(s0, storm);
    let s2 = noted(s1, blamed(dev, past));
    let s3 = noted(s2, not_enumerated(dev, past));
    lemma_sum(s0, one(storm), y);
    lemma_one(storm, y);
    lemma_sum(s1, one(blamed(dev, past)), y);
    lemma_one(blamed(dev, past), y);
    lemma_sum(s2, one(not_enumerated(dev, past)), y);
    lemma_one(not_enumerated(dev, past), y);
    lemma_sum(s3, one(not_trained(dev, past)), y);
    lemma_one(not_trained(dev, past), y);
    lemma_sum(s0, one(link), y);
    lemma_one(link, y);
    lemma_sum(noted(s0, link), history_statements(dev, past), y);
}

proof fn lemma_port_codes(snap: Snapshot)
    ensures
        all_of(piece(snap, 2), within(6, 17)),
{
    reveal(piece);
    let f = port_statements(snap);
    assert forall|i: int| 0 <= i < snap.ports@.len() implies all_of(
        f(#[trigger] snap.ports@[i]),
        within(6, 17),
    ) by {
        let port = snap.ports@[i];
        if let Some(partner) = port.partner {
            let s = f(port);
            assert forall|j: int| 0 <= j < s.len() implies within(6, 17)(#[trigger] s[j]) by {
                assert(s.contains(s[j]));
                port_origin(snap, port, partner, s[j]);
            }
        }
    }
    lemma_gathered(snap.ports@, f, within(6, 17));
}

proof fn lemma_device_codes(snap: Snapshot)
    ensures
        all_of(piece(snap, 3), within(18, 23)),
{
    reveal(piece);
    let f = device_statements(snap);
    assert forall|i: int| 0 <= i < snap.all().len() implies all_of(
        f(#[trigger] snap.all()[i]),
        within(18, 23),
    ) by {
        let s = f(snap.all()[i]);
        assert forall|j: int| 0 <= j < s.len() implies within(18, 23)(#[trigger] s[j]) by {
            assert(s.contains(s[j]));
            device_origin(snap, snap.all()[i], s[j]);
        }
    }
    lemma_gathered(snap.all(), f, within(18, 23));
}

proof fn lemma_absence_codes(snap: Snapshot)
    ensures
        all_of(piece(snap, 4), within(24, 24)),
        all_of(piece(snap, 5), within(25, 25)),
        all_of(piece(snap, 6), within(26, 26)),
{
    reveal(piece);
    codes_differ();
    let ss = sockets(snap);
    assert forall|i: int| 0 <= i < ss.len() implies all_of(
        half_failed(snap)(#[trigger] ss[i]),
        within(24, 24),
    ) by {}
    lemma_gathered(ss, half_failed(snap), within(24, 24));
    assert forall|i: int| 0 <= i < ss.len() implies all_of(
        half_idle(snap)(#[trigger] ss[i]),
        within(25, 25),
    ) by {}
    lemma_gathered(ss, half_idle(snap), within(25, 25));
    let names = phantom_names(snap);
    assert forall|i: int| 0 <= i < names.len() implies all_of(
        phantom(snap)(#[trigger] names[i]),
        within(26, 26),
    ) by {}
    lemma_gathered(names, phantom(snap), within(26, 26));
}

proof fn lemma_link_codes(snap: Snapshot)
    ensures
        all_of(piece(snap, 7), within(27, 27)),
        all_of(piece(snap, 8), within(28, 29)),
        all_of(piece(snap, 9), within(30, 30)),
        all_of(piece(snap, 10), within(31, 31)),
{
    reveal(piece);
    codes_differ();
    let pic = picture(snap.displays@);
    assert forall|i: int| 0 <= i < snap.all().len() implies all_of(
        billboard(pic)(#[trigger] snap.all()[i]),
        within(27, 27),
    ) by {}
    lemma_gathered(snap.all(), billboard(pic), within(27, 27));
    let tb = snap.thunderbolt;
    let routers = crate::model::attached_routers(tb.routers@);
    assert forall|i: int| 0 <= i < routers.len() implies all_of(
        one_lane()(#[trigger] routers[i]),
        within(28, 29),
    ) by {}
    lemma_gathered(routers, one_lane(), within(28, 29));
    lemma_joined(one(active_cable(tb)), gathered(routers, one_lane()), within(28, 29));
    let f = draining(supply(snap));
    assert forall|i: int| 0 <= i < snap.batteries@.len() implies all_of(
        f(#[trigger] snap.batteries@[i]),
        within(30, 30),
    ) by {}
    lemma_gathered(snap.batteries@, f, within(30, 30));
    let outputs = dp_outputs(snap);
    assert forall|i: int| 0 <= i < snap.ports@.len() implies all_of(
        no_output(outputs)(#[trigger] snap.ports@[i]),
        within(31, 31),
    ) by {}
    lemma_gathered(snap.ports@, no_output(outputs), within(31, 31));
}

proof fn lemma_measured_codes(snap: Snapshot)
    ensures
        all_of(piece(snap, 11), within(32, 32)),
        all_of(piece(snap, 12), within(33, 34)),
        all_of(piece(snap, 13), within(35, 35)),
        all_of(piece(snap, 14), within(36, 37)),
        all_of(piece(snap, 15), within(38, 38)),
{
    reveal(piece);
    codes_differ();
    if let Some(t) = snap.urb_traffic {
        let f = error_rate(snap, t.window_ms);
        assert forall|i: int| 0 <= i < t.devices@.len() implies all_of(
            f(#[trigger] t.devices@[i]),
            within(32, 32),
        ) by {}
        lemma_gathered(t.devices@, f, within(32, 32));
    }
    assert forall|i: int| 0 <= i < snap.throughput@.len() implies all_of(
        sample_statements(snap)(#[trigger] snap.throughput@[i]),
        within(33, 34),
    ) by {}
    lemma_gathered(snap.throughput@, sample_statements(snap), within(33, 34));
    let held = snap.storage();
    assert forall|i: int| 0 <= i < held.len() implies all_of(
        scsi_holding()(#[trigger] held[i]),
        within(35, 35),
    ) by {
        let f = scsi_errors(held[i].owner);
        assert forall|j: int| 0 <= j < held[i].drives.len() implies all_of(
            f(#[trigger] held[i].drives[j]),
            within(35, 35),
        ) by {}
        lemma_gathered(held[i].drives, f, within(35, 35));
    }
    lemma_gathered(held, scsi_holding(), within(35, 35));
    assert forall|i: int| 0 <= i < snap.all().len() implies all_of(
        tripped_on()(#[trigger] snap.all()[i]),
        within(38, 38),
    ) by {
        let hub = snap.all()[i];
        assert forall|j: int| 0 <= j < hub.ports@.len() implies all_of(
            tripped(hub)(#[trigger] hub.ports@[j]),
            within(38, 38),
        ) by {}
        lemma_gathered(hub.ports@, tripped(hub), within(38, 38));
    }
    lemma_gathered(snap.all(), tripped_on(), within(38, 38));
}

/// Every statement comes from the piece that its code names, and every code is
/// one of those listed.
pub proof fn stated_origin(snap: Snapshot, y: Statement)
    ensures
        all_statements(snap).contains(y) ==> 1 <= id(y.code) <= 38 && piece(
            snap,
            piece_of(id(y.code)),
        ).contains(y),
        piece(snap, piece_of(id(y.code))).contains(y) ==> all_statements(snap).contains(y),
{
    reveal(piece);
    lemma_pieces(snap, y);
    if all_statements(snap).contains(y) {
        let k = choose|k: int| 1 <= k <= 15 && (#[trigger] piece(snap, k)).contains(y);
        lemma_host_codes(snap.kernel_log);
        lemma_port_codes(snap);
        lemma_device_codes(snap);
        lemma_absence_codes(snap);
        lemma_link_codes(snap);
        lemma_measured_codes(snap);
        if k == 1 {
            lemma_all_of(piece(snap, k), within(1, 5), y);
        } else if k == 2 {
            lemma_all_of(piece(snap, k), within(6, 17), y);
        } else if k == 3 {
            lemma_all_of(piece(snap, k), within(18, 23), y);
        } else if 4 <= k <= 7 {
            lemma_all_of(piece(snap, k), within(k + 20, k + 20), y);
        } else if k == 8 {
            lemma_all_of(piece(snap, k), within(28, 29), y);
        } else if k == 9 || k == 10 || k == 11 {
            lemma_all_of(piece(snap, k), within(k + 21, k + 21), y);
        } else if k == 12 {
            lemma_all_of(piece(snap, k), within(33, 34), y);
        } else if k == 13 {
            lemma_all_of(piece(snap, k), within(35, 35), y);
        } else if k == 14 {
            lemma_all_of(piece(snap, k), within(36, 37), y);
        } else {
            lemma_all_of(piece(snap, k), within(38, 38), y);
        }
    }
    assert(1 <= piece_of(id(y.code)) <= 15 || id(y.code) < 1);
}

/// What is reported is what a rule stated, in every respect but that traffic
/// may have added a line and raised a suspicion.
pub open spec fn reported_from(x: Statement, y: Statement) -> bool {
    &&& x.code == y.code
    &&& x.severity == y.severity
    &&& x.subject == y.subject
    &&& x.title == y.title
    &&& x.detail == y.detail
    &&& x.suggestion == y.suggestion
    &&& y.evidence.is_prefix_of(x.evidence)
    &&& x.confidence == y.confidence || (y.confidence == crate::model::Confidence::Heuristic
        && x.confidence == crate::model::Confidence::Inferred)
}

/// What is reported was stated by the piece that its code names.
pub proof fn came_from(snap: Snapshot, x: Statement) -> (y: Statement)
    requires
        analysis(snap).contains(x),
    ensures
        1 <= id(x.code) <= 38,
        piece(snap, piece_of(id(x.code))).contains(y),
        reported_from(x, y),
        strengthened(snap, y) == x,
        !(18 <= id(x.code) <= 20 || id(x.code) == 17) ==> x == y,
{
    lemma_reported(snap, x);
    let y = choose|y: Statement| #[trigger]
        all_statements(snap).contains(y) && strengthened(snap, y) == x;
    crate::diag::traffic::corroboration_never_overclaims(snap, y);
    stated_origin(snap, y);
    codes_differ();
    y
}

/// What a piece states is reported, unless a failed SuperSpeed half explains it.
pub proof fn gets_reported(snap: Snapshot, y: Statement) -> (x: Statement)
    requires
        1 <= id(y.code) <= 38,
        piece(snap, piece_of(id(y.code))).contains(y),
        !(21 <= id(y.code) <= 23 || id(y.code) == 26) || covered(snap).len() == 0,
    ensures
        analysis(snap).contains(x),
        reported_from(x, y),
        strengthened(snap, y) == x,
        !(18 <= id(x.code) <= 20 || id(x.code) == 17) ==> x == y,
{
    stated_origin(snap, y);
    codes_differ();
    assert(stands(covered(snap))(y));
    nothing_else_is_dropped(snap, y);
    crate::diag::traffic::corroboration_never_overclaims(snap, y);
    strengthened(snap, y)
}

} // verus!
