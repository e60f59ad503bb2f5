//! What things are called, and which of several readings counts.

use vstd::prelude::*;
use crate::caps::{
    disk_name, tried_node, usbmon_loaded, usbmon_reach, Capabilities, ProbeInfo, Requirement,
    TEXT_API,
};
use crate::escalate::{consent_part, knob_part, octal, target_part, Request};
use crate::kernel::{kmsg_entry, record_text, record_time, stamp, Collecting};
use crate::double::Double;
use crate::kind::{classified, KindSource};
use crate::model::{
    bracketed, last_bracketed, About, Confidence, KernelLogSource, Medium, Pdo, PdoKind,
    PhysicalLocation, RoleField, Severity, SpeedClass, UsbDevice,
};
use crate::number::{dec, hex_fixed};
use crate::root::{Mode, Outcome, Root};
use crate::seqs::first_of;
use crate::tally::{by_number, with_status};
use crate::text::{begins_with, cut_first, filled, words};

verus! {

// ---------------------------------------------------------------------------
// names
// ---------------------------------------------------------------------------

/// A device is called by its maker and product, as far as it gives them; else by
/// its ids, else by its place.
pub proof fn a_device_is_called_as_it_says(d: UsbDevice)
    ensures
        d.manufacturer is Some && d.product is Some ==> d.called() == filled(
            "{} {}"@,
            seq![d.manufacturer->0@, d.product->0@],
        ),
        d.manufacturer is None && d.product is Some ==> d.called() == d.product->0@,
        d.manufacturer is Some && d.product is None ==> d.called() == d.manufacturer->0@,
        d.manufacturer is None && d.product is None && d.id_vendor is Some && d.id_product is Some
            ==> d.called() == filled(
            "{}:{}"@,
            seq![hex_fixed(d.id_vendor->0 as nat, 4), hex_fixed(d.id_product->0 as nat, 4)],
        ),
        d.manufacturer is None && d.product is None && (d.id_vendor is None || d.id_product is None)
            ==> d.called() == d.sysfs_name@,
{
}

/// What the user says a device is counts before its class.
pub proof fn the_user_knows_the_kind(d: UsbDevice)
    ensures
        d.declared is Some && d.declared->0.kind is Some ==> d.identified().kind
            == d.declared->0.kind->0 && d.identified().source == KindSource::User,
        !(d.declared is Some && d.declared->0.kind is Some) ==> d.identified() == classified(d),
        KindSource::Class.strongest() == Confidence::Measured,
        KindSource::User.strongest() == Confidence::Inferred,
        KindSource::Heuristic.strongest() == Confidence::Heuristic,
{
}

/// The words for severities, confidences, media and rates.
pub proof fn the_words_are_known()
    ensures
        Severity::Info.name() == "INFO"@ && Severity::Low.name() == "LOW"@
            && Severity::Medium.name() == "MEDIUM"@ && Severity::High.name() == "HIGH"@
            && Severity::Critical.name() == "CRITICAL"@,
        Confidence::Measured.name() == "measured"@ && Confidence::Inferred.name() == "inferred"@
            && Confidence::Heuristic.name() == "heuristic"@,
        Medium::Rotating.name() == "spinning disk"@ && Medium::SolidState.name() == "solid state"@
            && Medium::Unknown.name() == "medium not reported"@,
        SpeedClass::Low.name() == "Low-Speed 1.5 Mbps (USB 1.0)"@,
        SpeedClass::Full.name() == "Full-Speed 12 Mbps (USB 1.1)"@,
        SpeedClass::High.name() == "High-Speed 480 Mbps (USB 2.0)"@,
        SpeedClass::SuperSpeed.name() == "SuperSpeed 5 Gbps (USB 3.2 Gen 1x1)"@,
        SpeedClass::SuperSpeedPlus10.name() == "SuperSpeed+ 10 Gbps (USB 3.2 Gen 2x1)"@,
        SpeedClass::SuperSpeedPlus20.name() == "SuperSpeed+ 20 Gbps (USB 3.2 Gen 2x2)"@,
        SpeedClass::Usb4.name() == "USB4 40 Gbps"@,
        About::Host.shown() == "host"@,
        forall|n: Seq<char>| #[trigger] About::Port(n).shown() == n,
        forall|n: Seq<char>| #[trigger] About::Device(n).shown() == n,
        forall|n: Seq<char>| #[trigger] About::Cable(n).shown() == filled("{} cable"@, seq![n]),
        Severity::Info.weight() < Severity::Low.weight() < Severity::Medium.weight()
            < Severity::High.weight() < Severity::Critical.weight(),
        Confidence::Heuristic.strength() < Confidence::Inferred.strength()
            < Confidence::Measured.strength(),
{
}

/// The word in brackets is the one in force; the last, where there are several.
/// Without brackets a lone word is, and of several none.
pub proof fn the_bracketed_word_is_in_force(raw: Seq<char>, w: Seq<char>)
    ensures
        words(raw).len() > 0 && words(raw).last() == seq!['['] + w + seq![']'] ==> RoleField::active(
            raw,
        ) == Some(w),
        words(raw).len() == 1 && words(raw)[0] == w && (w.len() < 2 || w[0] != '[' || w.last()
            != ']') ==> RoleField::active(raw) == Some(w),
        words(raw).len() > 1 && (forall|i: int|
            0 <= i < words(raw).len() ==> (#[trigger] words(raw)[i]).len() > 0 && words(raw)[i][0]
                != '[') ==> RoleField::active(raw) is None,
{
    let ws = words(raw);
    let b = seq!['['] + w + seq![']'];
    assert(b.subrange(1, b.len() - 1) =~= w);
    assert(b[0] == '[' && b.last() == ']');
    if ws.len() == 1 {
        assert(ws.drop_last().len() == 0);
        assert(last_bracketed(ws.drop_last()) is None);
        assert(ws.last() == ws[0]);
    }
    if ws.len() > 1 && (forall|i: int|
        0 <= i < ws.len() ==> (#[trigger] ws[i]).len() > 0 && ws[i][0] != '[') {
        lemma_none_bracketed(ws);
    }
}

proof fn lemma_none_bracketed(ws: Seq<Seq<char>>)
    requires
        forall|i: int| 0 <= i < ws.len() ==> (#[trigger] ws[i]).len() > 0 && ws[i][0] != '[',
    ensures
        last_bracketed(ws) is None,
    decreases ws.len(),
{
    if ws.len() > 0 {
        let t = ws.drop_last();
        assert forall|i: int| 0 <= i < t.len() implies (#[trigger] t[i]).len() > 0 && t[i][0]
            != '[' by {
            assert(t[i] == ws[i]);
        }
        lemma_none_bracketed(t);
        assert(ws[ws.len() - 1] == ws.last());
        assert(bracketed(ws.last()) is None);
    }
}

/// A place is told by as many parts as were read: its panel, its position on it,
/// a dock and a lid.
pub proof fn a_place_has_its_parts(l: PhysicalLocation)
    ensures
        l.parts().len() == (if l.panel is Some {
            1int
        } else {
            0
        }) + (if l.vertical_position is Some || l.horizontal_position is Some {
            1int
        } else {
            0
        }) + (if l.dock == Some(true) {
            1int
        } else {
            0
        }) + (if l.lid == Some(true) {
            1int
        } else {
            0
        }),
        l.lid == Some(true) ==> l.parts().last() == "on lid"@,
        l.dock == Some(true) && l.lid != Some(true) ==> l.parts().last() == "on dock"@,
        l.panel matches Some(p) ==> l.parts()[0] == filled("{} panel"@, seq![p@]),
        l.says_nothing() <==> l.panel is None && l.vertical_position is None
            && l.horizontal_position is None && l.dock is None && l.lid is None,
{
}

/// An offer is told after its kind.
pub proof fn an_offer_is_told_after_its_kind(p: Pdo)
    ensures
        ({
            let v = crate::model::unit_text(p.voltage_mv, 'V');
            let lo = crate::model::unit_text(p.min_voltage_mv, 'V');
            let hi = crate::model::unit_text(p.max_voltage_mv, 'V');
            let a = crate::model::unit_text(p.current_ma, 'A');
            let w = p.power_note();
            &&& p.kind == PdoKind::FixedSupply ==> p.described() == filled(
                "{} @ {}{}"@,
                seq![v, a, w],
            )
            &&& p.kind == PdoKind::Battery ==> p.described() == filled(
                "{}-{} battery{}"@,
                seq![lo, hi, w],
            )
            &&& p.kind == PdoKind::VariableSupply ==> p.described() == filled(
                "{}-{} @ {}{}"@,
                seq![lo, hi, a, w],
            )
            &&& p.kind == PdoKind::ProgrammableSupply && !p.limited() ==> p.described() == filled(
                "{}-{} PPS @ {}{}"@,
                seq![lo, hi, a, w],
            )
            &&& p.kind == PdoKind::ProgrammableSupply && p.limited() ==> p.described() == filled(
                "{}-{} PPS @ {}{}"@,
                seq![lo, hi, a, " (power-limited)"@],
            )
            &&& p.power() is None ==> w.len() == 0
        }),
{
}

// ---------------------------------------------------------------------------
// the log
// ---------------------------------------------------------------------------

/// The log is asked of the kernel's own device, then of the journal, then of
/// `dmesg`, then of nobody; only what was not first needs a remark.
pub proof fn the_sources_follow_each_other(c: Collecting)
    ensures
        c.source == KernelLogSource::DevKmsg ==> c.fallback() == KernelLogSource::Journalctl,
        c.source == KernelLogSource::Journalctl ==> c.fallback() == KernelLogSource::Dmesg,
        c.source == KernelLogSource::Dmesg ==> c.fallback() == KernelLogSource::Unavailable,
        c.remark() is Some <==> c.source == KernelLogSource::Journalctl || c.source
            == KernelLogSource::Dmesg,
        forall|e: Seq<char>| c.source == KernelLogSource::DevKmsg ==> #[trigger] c.complaint(e)
            == filled("/dev/kmsg: {}"@, seq![e]),
        forall|e: Seq<char>| c.source == KernelLogSource::Journalctl ==> #[trigger] c.complaint(e)
            == filled("journalctl: {}"@, seq![e]),
        forall|e: Seq<char>| c.source == KernelLogSource::Dmesg ==> #[trigger] c.complaint(e)
            == filled("dmesg: {}"@, seq![e]),
{
}

/// A record gives the first line of its message and its time in microseconds;
/// without either it gives nothing.
pub proof fn a_record_is_read_by_its_fields(record: Seq<char>)
    ensures
        kmsg_entry(record) is Some <==> cut_first(record, ';') is Some && {
            let (meta, rest) = cut_first(record, ';')->0;
            record_text(rest) is Some && record_time(meta) is Some
        },
        kmsg_entry(record) matches Some(e) ==> {
            let (meta, rest) = cut_first(record, ';')->0;
            let usec = record_time(meta)->0;
            &&& e.text == record_text(rest)->0
            &&& e.timestamp == Some(stamp(usec))
            &&& e.monotonic == Some(Double::whole(usec).over(1_000_000))
        },
{
}

// ---------------------------------------------------------------------------
// what may be used
// ---------------------------------------------------------------------------

/// A probe is blocked exactly by the interface that it needs.
pub proof fn a_probe_is_blocked_by_what_it_needs(c: Capabilities, p: ProbeInfo)
    ensures
        p.needs == Requirement::Nothing ==> c.blocked(p) is None,
        p.needs == Requirement::Usbmon ==> (c.blocked(p) is None <==> c.usbmon@.access is Usable),
        p.needs == Requirement::Usbfs ==> (c.blocked(p) is None <==> c.usbfs@.access is Usable),
        p.needs == Requirement::BlockRead ==> (c.blocked(p) is None
            <==> c.block_read@.access is Usable),
        p.needs == Requirement::PortControl ==> (c.blocked(p) is None
            <==> c.port_control@.access is Usable),
{
}

/// A node that opens is usable, one that refuses is denied, and so is one that
/// fails; each is named.
pub proof fn a_node_is_usable_where_it_opens(node: Seq<char>, came: Outcome, denied: Seq<char>)
    ensures
        tried_node(node, came, denied).access is Usable <==> came is Yes,
        !(came is Yes) ==> tried_node(node, came, denied).access is Denied,
        tried_node(node, came, denied).path == Some("/"@ + node),
{
}

/// A tracer that is loaded and refuses is denied; one that is loaded and has no
/// stream is unknown.
pub proof fn a_loaded_tracer_is_denied_or_unknown(root: Root)
    requires
        usbmon_loaded(root),
        !(root.came_to(TEXT_API@, Mode::Read) is Yes),
    ensures
        root.came_to(TEXT_API@, Mode::Read) is Denied <==> usbmon_reach(root).access is Denied,
        !(root.came_to(TEXT_API@, Mode::Read) is Denied) <==> usbmon_reach(root).access is Unknown,
{
}

/// A whole disk is named `sd` and letters.
pub proof fn a_partition_is_no_disk(n: Seq<char>)
    ensures
        disk_name(n) <==> begins_with(n, "sd"@) && n.len() > 2 && !('0' <= n.last() <= '9'),
{
}

/// The last four octal digits, highest first.
pub proof fn a_mode_is_written_in_octal(a: nat, b: nat, c: nat, d: nat)
    requires
        a < 8,
        b < 8,
        c < 8,
        d < 8,
    ensures
        octal(a * 512 + b * 64 + c * 8 + d) == seq![
            (48 + a) as char,
            (48 + b) as char,
            (48 + c) as char,
            (48 + d) as char,
        ],
{
    let n = a * 512 + b * 64 + c * 8 + d;
    assert(n / 512 == a);
    assert(n / 64 == a * 8 + b);
    assert((a * 8 + b) % 8 == b);
    assert(n / 8 == a * 64 + b * 8 + c);
    assert((a * 64 + b * 8 + c) % 8 == c);
    assert(n % 8 == d);
}

/// A probe that reads is told how long, one that cycles how often, and no other
/// is told either.
pub proof fn a_probe_is_told_what_it_takes(req: Request)
    ensures
        ({
            let p = first_of(crate::caps::infos(), crate::caps::called(req.name@));
            let reads = p is Some && p->0.class == crate::caps::ProbeClass::PrivilegedRead;
            let cycles = p is Some && p->0.needs == Requirement::PortControl;
            &&& reads && !cycles ==> knob_part(req) == seq![
                "--duration"@,
                dec(req.window_ms as nat),
            ]
            &&& cycles && !reads ==> knob_part(req) == seq!["--cycles"@, dec(req.cycles as nat)]
            &&& !reads && !cycles ==> knob_part(req).len() == 0
        }),
        req.target matches Some(t) ==> target_part(req) == seq!["--target"@, t@],
        req.target is None ==> target_part(req).len() == 0,
        req.consented && !req.accepts_disruption ==> consent_part(req) == seq!["--yes"@],
        !req.consented && req.accepts_disruption ==> consent_part(req) == seq!["--force"@],
        req.consented && req.accepts_disruption ==> consent_part(req) == seq![
            "--yes"@,
            "--force"@,
        ],
        !req.consented && !req.accepts_disruption ==> consent_part(req).len() == 0,
{
    let none = Seq::<Seq<char>>::empty();
    let d = seq!["--duration"@, dec(req.window_ms as nat)];
    let c = seq!["--cycles"@, dec(req.cycles as nat)];
    assert(d + none =~= d && none + c =~= c);
    assert(seq!["--yes"@] + none =~= seq!["--yes"@]);
    assert(none + seq!["--force"@] =~= seq!["--force"@]);
    assert(seq!["--yes"@] + seq!["--force"@] =~= seq!["--yes"@, "--force"@]);
}

// ---------------------------------------------------------------------------
// counts
// ---------------------------------------------------------------------------

/// Setting the count of one status leaves every other as it was.
pub proof fn one_count_leaves_the_others(s: Seq<(i32, u64)>, x: (i32, u64), y: (i32, u64))
    requires
        by_number(s),
        y.0 != x.0,
    ensures
        with_status(s, x).contains(y) <==> s.contains(y),
    decreases s.len(),
{
    let r = with_status(s, x);
    if s.len() == 0 || x.0 < s[0].0 {
        assert(r =~= seq![x] + s);
        if s.contains(y) {
            let i = choose|i: int| 0 <= i < s.len() && s[i] == y;
            assert(r[i + 1] == y);
        }
        if r.contains(y) {
            let i = choose|i: int| 0 <= i < r.len() && r[i] == y;
            assert(s[i - 1] == y);
        }
    } else if s[0].0 == x.0 {
        if s.contains(y) {
            let i = choose|i: int| 0 <= i < s.len() && s[i] == y;
            assert(r[i] == y);
        }
        if r.contains(y) {
            let i = choose|i: int| 0 <= i < r.len() && r[i] == y;
            assert(s[i] == y);
        }
    } else {
        let t = s.skip(1);
        assert forall|i: int, j: int| 0 <= i < j < t.len() implies (#[trigger] t[i]).0 < (
        #[trigger] t[j]).0 by {
            assert(s[i + 1].0 < s[j + 1].0);
        }
        one_count_leaves_the_others(t, x, y);
        let u = with_status(t, x);
        assert(r =~= seq![s[0]] + u);
        if s.contains(y) {
            let i = choose|i: int| 0 <= i < s.len() && s[i] == y;
            if i > 0 {
                assert(t[i - 1] == y);
                let k = choose|k: int| 0 <= k < u.len() && u[k] == y;
                assert(r[k + 1] == y);
            } else {
                assert(r[0] == y);
            }
        }
        if r.contains(y) {
            let i = choose|i: int| 0 <= i < r.len() && r[i] == y;
            if i > 0 {
                assert(u[i - 1] == y);
                let k = choose|k: int| 0 <= k < t.len() && t[k] == y;
                assert(s[k + 1] == y);
            } else {
                assert(s[0] == y);
            }
        }
    }
}

} // verus!
