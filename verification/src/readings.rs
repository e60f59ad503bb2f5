//! What single readings come to: rates, offers, counters, descriptors, names and
//! codes, each in terms of what was read.

use vstd::prelude::*;
use crate::block::{counters, field, is_virtual, size_of_sectors, unescaped};
use crate::caps::{usbmon_absent, Probe, ProbeClass, Requirement};
use crate::diag::analysis::{analysis, the_strongest_comes_first};
use crate::diag::rules::{carries, lemma_kept_is, since_attach_is_since_here, since_here};
use crate::drm::{
    decoded_edid, descriptor_at, descriptors, edid_header, label_in, pnp_code, timing, vendor_of,
};
use crate::escalate::{fault_of, heard, Heard};
use crate::model::{
    about_device, meaning_of, owning_bus, sustained, Battery, BlockDevice, BlockStats, Confidence,
    KernelEvent, Medium, Pdo, PdoKind, PortPowerSupply, ScsiCounters, Severity, Snapshot,
    SpeedClass, UsbDevice,
};
use crate::number::Decimal;
use crate::seqs::kept;
use crate::text::{all_digits, begins_with, filled, is_digit, opt_text, trimmed, words};
use crate::vdo::cable_speed;

verus! {

// ---------------------------------------------------------------------------
// rates
// ---------------------------------------------------------------------------

/// A link rate names its class, and the classes follow each other with the rate.
pub proof fn a_rate_names_its_class(r: Decimal)
    ensures
        SpeedClass::of(r) == SpeedClass::Low <==> r.micros < 2_000_000,
        SpeedClass::of(r) == SpeedClass::Full <==> 2_000_000 <= r.micros < 20_000_000,
        SpeedClass::of(r) == SpeedClass::High <==> 20_000_000 <= r.micros < 1_000_000_000,
        SpeedClass::of(r) == SpeedClass::SuperSpeed <==> 1_000_000_000 <= r.micros < 7_000_000_000,
        SpeedClass::of(r) == SpeedClass::SuperSpeedPlus10 <==> 7_000_000_000 <= r.micros
            < 15_000_000_000,
        SpeedClass::of(r) == SpeedClass::SuperSpeedPlus20 <==> 15_000_000_000 <= r.micros
            < 30_000_000_000,
        SpeedClass::of(r) == SpeedClass::Usb4 <==> 30_000_000_000 <= r.micros,
{
}

/// What a link carries in practice grows with its rate, in known steps.
pub proof fn a_rate_carries_what_is_known(r: Decimal, s: Decimal, bytes: int)
    ensures
        carries(r.micros, bytes) ==> sustained(r).micros == bytes * 1_000_000,
        r.micros <= s.micros ==> sustained(r).micros <= sustained(s).micros,
{
}

/// Only the low three bits of a cable's word name its rate: USB 2.0, then 5, 10,
/// 40 and 80 Gbps, and nothing for a reserved value.
pub proof fn the_low_bits_name_the_cable(raw: u32, other: u32)
    ensures
        raw % 8 == 0 ==> cable_speed(raw).micros == 480_000_000,
        raw % 8 == 1 ==> cable_speed(raw).micros == 5_000_000_000,
        raw % 8 == 2 ==> cable_speed(raw).micros == 10_000_000_000,
        raw % 8 == 3 ==> cable_speed(raw).micros == 40_000_000_000,
        raw % 8 == 4 ==> cable_speed(raw).micros == 80_000_000_000,
        raw % 8 > 4 ==> cable_speed(raw).micros == 0,
        raw % 8 == other % 8 ==> cable_speed(raw) == cable_speed(other),
        raw % 8 < other % 8 <= 4 ==> cable_speed(raw).micros < cable_speed(other).micros,
{
}

// ---------------------------------------------------------------------------
// power
// ---------------------------------------------------------------------------

/// An offer comes to the power it states; else to its voltage, or its highest,
/// times its current; a power-limited programmable one is not worked out.
pub proof fn an_offer_comes_to_its_product(p: Pdo)
    ensures
        p.power_mw_field is Some ==> p.power() == p.power_mw_field,
        p.power_mw_field is None && p.kind == PdoKind::ProgrammableSupply && p.limited()
            ==> p.power() is None,
        p.power_mw_field is None && !(p.kind == PdoKind::ProgrammableSupply && p.limited()) ==> {
            &&& p.current_ma is None ==> p.power() is None
            &&& p.voltage_mv is None && p.max_voltage_mv is None ==> p.power() is None
            &&& p.voltage_mv is Some && p.current_ma is Some ==> p.power() == Some(
                (p.voltage_mv->0 * p.current_ma->0 / 1000) as u32,
            )
            &&& p.voltage_mv is None && p.max_voltage_mv is Some && p.current_ma is Some
                ==> p.power() == Some((p.max_voltage_mv->0 * p.current_ma->0 / 1000) as u32)
        },
{
}

/// A contract comes to its voltage times its current, where both are there.
pub proof fn a_contract_comes_to_its_product(ps: PortPowerSupply)
    ensures
        ps.contract_mw() is Some <==> ps.voltage_now_mv is Some && ps.voltage_now_mv->0 > 0
            && ps.current_now_ma is Some && ps.current_now_ma->0 > 0,
        ps.contract_mw() matches Some(w) ==> w == (ps.voltage_now_mv->0 * ps.current_now_ma->0
            / 1000) as u32,
        ps.above_3a() <==> ps.current_now_ma is Some && ps.current_now_ma->0 > 3000,
{
}

/// A battery's health is its full charge against its design; what is missing is
/// what it lacks of full; the time left is that against its draw, while charging.
pub proof fn a_battery_reads_as_it_is(b: Battery)
    ensures
        b.health() is Some <==> b.energy_full_wh is Some && b.energy_full_design_wh is Some
            && b.energy_full_design_wh->0.micros > 0,
        b.health() matches Some(r) ==> r.num == b.energy_full_wh->0.micros && r.den
            == b.energy_full_design_wh->0.micros,
        b.deficit() is Some <==> b.energy_full_wh is Some && b.energy_now_wh is Some,
        b.deficit() matches Some(d) ==> d.micros == (if b.energy_full_wh->0.micros
            > b.energy_now_wh->0.micros {
            b.energy_full_wh->0.micros - b.energy_now_wh->0.micros
        } else {
            0
        }),
        b.eta() is Some <==> b.deficit() is Some && opt_text(b.status) == Some("Charging"@)
            && b.power_now_w is Some && b.power_now_w->0.micros > 100_000,
        b.eta() matches Some(r) ==> r.num == b.deficit()->0.micros && r.den
            == b.power_now_w->0.micros,
{
}

// ---------------------------------------------------------------------------
// disks
// ---------------------------------------------------------------------------

/// What happened in a window, added to what stood before it, is what stands now;
/// a counter that went back makes no window.
pub proof fn a_window_adds_up(now: ScsiCounters, before: ScsiCounters)
    ensures
        now.since(before) is None <==> now.iorequest_cnt < before.iorequest_cnt || now.ioerr_cnt
            < before.ioerr_cnt || now.iotmo_cnt < before.iotmo_cnt || now.sampled_at_unix_ms
            < before.sampled_at_unix_ms,
        now.since(before) matches Some(d) ==> {
            &&& before.iorequest_cnt + d.requests == now.iorequest_cnt
            &&& before.ioerr_cnt + d.errors == now.ioerr_cnt
            &&& before.iotmo_cnt + d.timeouts == now.iotmo_cnt
            &&& before.sampled_at_unix_ms + d.window_ms == now.sampled_at_unix_ms
        },
{
}

/// A spinning disk is known as one only where it is not behind USB, whose bridges
/// say so of anything.
pub proof fn a_bridge_hides_the_medium(b: BlockDevice)
    ensures
        b.made_of() == Medium::Rotating <==> b.rotational == Some(true) && !b.over_usb(),
        b.made_of() == Medium::SolidState <==> b.rotational == Some(false),
{
}

/// The fields of a `stat` file, by their places.
pub proof fn the_counters_stand_in_place(raw: Seq<char>, at: u64)
    ensures
        counters(raw, at) is Some <==> words(raw).len() >= 9,
        counters(raw, at) matches Some(c) ==> {
            &&& c.read_ios == field(words(raw)[0])
            &&& c.sectors_read == field(words(raw)[2])
            &&& c.ms_reading == field(words(raw)[3])
            &&& c.write_ios == field(words(raw)[4])
            &&& c.sectors_written == field(words(raw)[6])
            &&& c.ms_writing == field(words(raw)[7])
            &&& c.ios_in_flight == field(words(raw)[8])
            &&& c.sampled_at_unix_ms == at
        },
{
}

/// A rate is the bytes of the sectors over the time, to a millionth of a byte,
/// each way of its own sectors.
pub proof fn a_throughput_is_bytes_over_time(now: BlockStats, before: BlockStats)
    requires
        now.sampled_at_unix_ms > before.sampled_at_unix_ms,
        now.sectors_read >= before.sectors_read,
        now.sectors_written >= before.sectors_written,
        now.sectors_read - before.sectors_read < 0x1_0000_0000,
        now.sectors_written - before.sectors_written < 0x1_0000_0000,
    ensures
        now.since(before) matches Some(t) && {
            let ms = now.sampled_at_unix_ms - before.sampled_at_unix_ms;
            let r = (now.sectors_read - before.sectors_read) * 512 * 1_000_000_000;
            let w = (now.sectors_written - before.sectors_written) * 512 * 1_000_000_000;
            &&& t.interval_ms == ms
            &&& r / ms <= u64::MAX ==> t.read_bps.micros == r / ms
            &&& r / ms > u64::MAX ==> t.read_bps.micros == u64::MAX
            &&& w / ms <= u64::MAX ==> t.write_bps.micros == w / ms
            &&& w / ms > u64::MAX ==> t.write_bps.micros == u64::MAX
        },
{
}

/// A size is in sectors of 512 bytes, and these names are of no disk.
pub proof fn a_disk_is_sized_in_sectors(n: u64, name: Seq<char>)
    ensures
        n * 512 <= u64::MAX ==> size_of_sectors(Some(n)) == Some((n * 512) as u64),
        is_virtual(name) <==> begins_with(name, "loop"@) || begins_with(name, "ram"@)
            || begins_with(name, "zram"@) || begins_with(name, "dm-"@) || begins_with(name, "md"@),
{
}

/// A backslash and three octal digits stand for one character; anything else
/// stands for itself.
pub proof fn an_escape_is_one_character(a: char, b: char, c: char, rest: Seq<char>)
    requires
        '0' <= a <= '3',
        '0' <= b <= '7',
        '0' <= c <= '7',
    ensures
        unescaped(seq!['\\', a, b, c] + rest) == seq![
            ((a as int - 48) * 64 + (b as int - 48) * 8 + (c as int - 48)) as char,
        ] + unescaped(rest),
        unescaped(seq![a] + rest) == seq![a] + unescaped(rest),
{
    let s = seq!['\\', a, b, c] + rest;
    assert(s.skip(4) =~= rest);
    assert(s[0] == '\\' && s[1] == a && s[2] == b && s[3] == c);
    let t = seq![a] + rest;
    assert(t.skip(1) =~= rest);
    assert(t[0] == a);
}

// ---------------------------------------------------------------------------
// events
// ---------------------------------------------------------------------------

/// Every errno that is explained, and what it means.
pub proof fn an_errno_means_what_it_says()
    ensures
        meaning_of(-110i32 as i32) == Some("ETIMEDOUT — the device never answered"@),
        meaning_of(-71i32 as i32) == Some("EPROTO — protocol error, typically signal integrity"@),
        meaning_of(-84i32 as i32) == Some("EILSEQ — CRC or framing error, typically signal integrity"@),
        meaning_of(-32i32 as i32) == Some("EPIPE — the endpoint stalled"@),
        meaning_of(-62i32 as i32) == Some("ETIME — the transfer timed out"@),
        meaning_of(-75i32 as i32) == Some("EOVERFLOW — babble, more data than the endpoint expected"@),
        meaning_of(-19i32 as i32) == Some("ENODEV — the device vanished mid-operation"@),
        meaning_of(-22i32 as i32) == Some("EINVAL — the kernel rejected the request"@),
        forall|n: i32| #[trigger]
            meaning_of(n) is Some <==> n == -110 || n == -71 || n == -84 || n == -32 || n == -62
                || n == -75 || n == -19 || n == -22,
{
}

/// The events about a device are those that name it.
pub proof fn about_device_names_it(s: Seq<KernelEvent>, name: Seq<char>)
    ensures
        forall|e: KernelEvent| #[trigger]
            about_device(s, name).contains(e) <==> (s.contains(e) && opt_text(e.device) == Some(
                name,
            )),
    decreases s.len(),
{
    if s.len() > 0 {
        let t = s.drop_last();
        let k = about_device(t, name);
        let m = about_device(s, name);
        about_device_names_it(t, name);
        assert forall|e: KernelEvent| #[trigger]
            m.contains(e) <==> (s.contains(e) && opt_text(e.device) == Some(name)) by {
            if m.contains(e) {
                let i = choose|i: int| 0 <= i < m.len() && m[i] == e;
                if i < k.len() {
                    assert(k[i] == e);
                    assert(k.contains(e));
                    let j = choose|j: int| 0 <= j < t.len() && t[j] == e;
                    assert(s[j] == e);
                } else {
                    assert(s[s.len() - 1] == e);
                }
            }
            if s.contains(e) && opt_text(e.device) == Some(name) {
                let i = choose|i: int| 0 <= i < s.len() && s[i] == e;
                if i < t.len() {
                    assert(t[i] == e);
                    assert(t.contains(e));
                    assert(k.contains(e));
                    let j = choose|j: int| 0 <= j < k.len() && k[j] == e;
                    assert(m[j] == e);
                } else {
                    assert(m[k.len() as int] == e);
                }
            }
        }
    }
}

/// What counts against a device is what was logged of it since it attached; an
/// event that names a port counts only for what is in that port now and was then.
pub proof fn live_events_are_about_what_is_here(snap: Snapshot, dev: UsbDevice, e: KernelEvent)
    ensures
        snap.live_events(dev).contains(e) ==> snap.kernel_log.events@.contains(e) && opt_text(
            e.device,
        ) == Some(dev.sysfs_name@) && since_here(snap, e, dev),
        snap.kernel_log.events@.contains(e) && opt_text(e.device) == Some(dev.sysfs_name@)
            && since_here(snap, e, dev) && (e.port is None || snap.uptime_s is None
            || snap.hub_port(e.port->0@) is None) ==> snap.live_events(dev).contains(e),
        snap.kernel_log.events@.contains(e) && opt_text(e.device) == Some(dev.sysfs_name@)
            && since_here(snap, e, dev) && e.port is Some && snap.hub_port(e.port->0@) is Some
            && snap.hub_port(e.port->0@)->0.child is Some && snap.named(
            snap.hub_port(e.port->0@)->0.child->0@,
        ) is Some && since_here(
            snap,
            e,
            snap.named(snap.hub_port(e.port->0@)->0.child->0@)->0,
        ) ==> snap.live_events(dev).contains(e),
        snap.live_events(dev).contains(e) && e.port is Some && snap.uptime_s is Some
            && snap.hub_port(e.port->0@) is Some ==> {
            &&& snap.hub_port(e.port->0@)->0.child is Some
            &&& snap.named(snap.hub_port(e.port->0@)->0.child->0@) is Some
            &&& since_here(snap, e, snap.named(snap.hub_port(e.port->0@)->0.child->0@)->0)
        },
{
    let s = snap.kernel_log.events@;
    let a = about_device(s, dev.sysfs_name@);
    let k = kept(a, crate::snapshot::current_in(snap));
    about_device_names_it(s, dev.sysfs_name@);
    lemma_kept_is(a, crate::snapshot::current_in(snap));
    since_attach_is_since_here(snap, k, dev);
    if snap.live_events(dev).contains(e) {
        assert(k.contains(e));
        assert(a.contains(e));
    }
    if s.contains(e) && opt_text(e.device) == Some(dev.sysfs_name@) {
        assert(a.contains(e));
    }
}

/// The bus of a root hub is itself; that of a device is the hub of its number.
pub proof fn a_device_is_on_its_bus(num: Seq<char>, rest: Seq<char>)
    requires
        num.len() > 0,
        all_digits(num),
    ensures
        owning_bus("usb"@ + num) == Some("usb"@ + num),
        owning_bus(num + "-"@ + rest) == Some(filled("usb{}"@, seq![num])),
{
    reveal_strlit("usb");
    reveal_strlit("-");
    let a = "usb"@ + num;
    assert(a.subrange(0, 3) =~= "usb"@);
    assert(a.skip(3) =~= num);
    let d = num + "-"@ + rest;
    assert(is_digit(num[0]) && d[0] == num[0]);
    if begins_with(d, "usb"@) {
        assert(d.subrange(0, 3)[0] == d[0]);
        assert("usb"@[0] == 'u');
    }
    assert forall|k: int| 0 <= k < num.len() implies d[k] != '-' by {
        assert(is_digit(num[k]));
    }
    crate::text::lemma_first_char(d, '-', num.len() as int);
    assert(d.take(num.len() as int) =~= num);
}

/// Findings are reported from the gravest to the slightest, and among equals the
/// better founded come first.
pub proof fn the_gravest_is_reported_first(snap: Snapshot, i: int, j: int)
    requires
        0 <= i < j < analysis(snap).len(),
    ensures
        ({
            let a = analysis(snap)[i];
            let b = analysis(snap)[j];
            &&& b.severity == Severity::Critical ==> a.severity == Severity::Critical
            &&& b.severity == Severity::High ==> a.severity == Severity::Critical || a.severity
                == Severity::High
            &&& b.severity == Severity::Medium ==> a.severity != Severity::Low && a.severity
                != Severity::Info
            &&& b.severity == Severity::Low ==> a.severity != Severity::Info
            &&& a.severity == b.severity && b.confidence == Confidence::Measured ==> a.confidence
                == Confidence::Measured
            &&& a.severity == b.severity && b.confidence == Confidence::Inferred ==> a.confidence
                != Confidence::Heuristic
        }),
{
    the_strongest_comes_first(snap);
    let s = analysis(snap);
    assert(!crate::diag::analysis::outranks(s[j], s[i]));
}

// ---------------------------------------------------------------------------
// monitors
// ---------------------------------------------------------------------------

/// Three letters, five bits each.
pub proof fn a_vendor_code_is_three_letters(a: u16, b: u16, c: u16)
    requires
        1 <= a <= 26,
        1 <= b <= 26,
        1 <= c <= 26,
    ensures
        pnp_code((a * 1024 + b * 32 + c) as u16) == seq![
            (64 + a) as char,
            (64 + b) as char,
            (64 + c) as char,
        ],
{
    lemma_three_parts(a as int, b as int, c as int);
}

proof fn lemma_three_parts(a: int, b: int, c: int)
    requires
        0 <= a < 32,
        0 <= b < 32,
        0 <= c < 32,
    ensures
        (a * 1024 + b * 32 + c) / 1024 % 32 == a,
        (a * 1024 + b * 32 + c) / 32 % 32 == b,
        (a * 1024 + b * 32 + c) % 32 == c,
        0 <= a * 1024 + b * 32 + c <= 32_767,
{
    let v = a * 1024 + b * 32 + c;
    assert(v / 1024 == a);
    assert(v / 32 == a * 32 + b);
    assert((a * 32 + b) % 32 == b);
    assert(v % 32 == c);
}

/// Every vendor whose name is known, by its code.
pub proof fn the_vendors_are_known()
    ensures
        vendor_of("AAA"@) == Some("Avolites"@),
        vendor_of("ACI"@) == Some("Asus"@),
        vendor_of("ACR"@) == Some("Acer"@),
        vendor_of("AOC"@) == Some("AOC"@),
        vendor_of("APP"@) == Some("Apple"@),
        vendor_of("AUO"@) == Some("AU Optronics"@),
        vendor_of("BNQ"@) == Some("BenQ"@),
        vendor_of("BOE"@) == Some("BOE"@),
        vendor_of("CMN"@) == Some("Chi Mei"@),
        vendor_of("DEL"@) == Some("Dell"@),
        vendor_of("GSM"@) == Some("LG"@),
        vendor_of("HWP"@) == Some("HP"@),
        vendor_of("IVM"@) == Some("Iiyama"@),
        vendor_of("LEN"@) == Some("Lenovo"@),
        vendor_of("LGD"@) == Some("LG Display"@),
        vendor_of("MSI"@) == Some("MSI"@),
        vendor_of("NCP"@) == Some("Nec"@),
        vendor_of("PHL"@) == Some("Philips"@),
        vendor_of("SAM"@) == Some("Samsung"@),
        vendor_of("SDC"@) == Some("Samsung Display"@),
        vendor_of("SHP"@) == Some("Sharp"@),
        vendor_of("VSC"@) == Some("ViewSonic"@),
{
    reveal_strlit("AAA");
    reveal_strlit("ACI");
    reveal_strlit("ACR");
    reveal_strlit("AOC");
    reveal_strlit("APP");
    reveal_strlit("AUO");
    reveal_strlit("BNQ");
    reveal_strlit("BOE");
    reveal_strlit("CMN");
    reveal_strlit("DEL");
    reveal_strlit("GSM");
    reveal_strlit("HWP");
    reveal_strlit("IVM");
    reveal_strlit("LEN");
    reveal_strlit("LGD");
    reveal_strlit("MSI");
    reveal_strlit("NCP");
    reveal_strlit("PHL");
    reveal_strlit("SAM");
    reveal_strlit("SDC");
    reveal_strlit("SHP");
    reveal_strlit("VSC");
    assert("AAA"@.len() == 3);
    assert("ACI"@.len() == 3);
    assert("ACR"@.len() == 3);
    assert("AOC"@.len() == 3);
    assert("APP"@.len() == 3);
    assert("AUO"@.len() == 3);
    assert("BNQ"@.len() == 3);
    assert("BOE"@.len() == 3);
    assert("CMN"@.len() == 3);
    assert("DEL"@.len() == 3);
    assert("GSM"@.len() == 3);
    assert("HWP"@.len() == 3);
    assert("IVM"@.len() == 3);
    assert("LEN"@.len() == 3);
    assert("LGD"@.len() == 3);
    assert("MSI"@.len() == 3);
    assert("NCP"@.len() == 3);
    assert("PHL"@.len() == 3);
    assert("SAM"@.len() == 3);
    assert("SDC"@.len() == 3);
    assert("SHP"@.len() == 3);
    assert("VSC"@.len() == 3);
    assert("AAA"@[1] == 'A');
    assert("ACI"@[1] == 'C');
    assert("ACR"@[1] == 'C');
    assert("AOC"@[1] == 'O');
    assert("APP"@[1] == 'P');
    assert("AUO"@[1] == 'U');
    assert("BNQ"@[1] == 'N');
    assert("BOE"@[1] == 'O');
    assert("CMN"@[1] == 'M');
    assert("DEL"@[1] == 'E');
    assert("GSM"@[1] == 'S');
    assert("HWP"@[1] == 'W');
    assert("IVM"@[1] == 'V');
    assert("LEN"@[1] == 'E');
    assert("LGD"@[1] == 'G');
    assert("MSI"@[1] == 'S');
    assert("NCP"@[1] == 'C');
    assert("PHL"@[1] == 'H');
    assert("SAM"@[1] == 'A');
    assert("SDC"@[1] == 'D');
    assert("SHP"@[1] == 'H');
    assert("VSC"@[1] == 'S');
    assert("AAA"@[2] == 'A');
    assert("ACI"@[2] == 'I');
    assert("ACR"@[2] == 'R');
    assert("AOC"@[2] == 'C');
    assert("APP"@[2] == 'P');
    assert("AUO"@[2] == 'O');
    assert("BNQ"@[2] == 'Q');
    assert("BOE"@[2] == 'E');
    assert("CMN"@[2] == 'N');
    assert("DEL"@[2] == 'L');
    assert("GSM"@[2] == 'M');
    assert("HWP"@[2] == 'P');
    assert("IVM"@[2] == 'M');
    assert("LEN"@[2] == 'N');
    assert("LGD"@[2] == 'D');
    assert("MSI"@[2] == 'I');
    assert("NCP"@[2] == 'P');
    assert("PHL"@[2] == 'L');
    assert("SAM"@[2] == 'M');
    assert("SDC"@[2] == 'C');
    assert("SHP"@[2] == 'P');
    assert("VSC"@[2] == 'C');
}

/// What a valid block says of its monitor, byte by byte.
pub proof fn a_monitor_reads_from_its_bytes(raw: Seq<u8>)
    ensures
        decoded_edid(raw) is Some <==> raw.len() >= 128 && raw.take(8) == seq![
            0x00u8,
            0xff,
            0xff,
            0xff,
            0xff,
            0xff,
            0xff,
            0x00,
        ] && crate::drm::byte_sum(raw.take(128)) % 256 == 0,
        decoded_edid(raw) matches Some(m) ==> {
            &&& m.manufacturer == Some(pnp_code((raw[8] as nat * 256 + raw[9] as nat) as u16))
            &&& m.manufacturer_name == vendor_of(m.manufacturer->0)
            &&& m.product_code is Some && m.product_code->0 % 256 == raw[10] && m.product_code->0
                / 256 == raw[11]
            &&& m.serial is Some && m.serial->0 % 256 == raw[12] && m.serial->0 / 256 % 256
                == raw[13] && m.serial->0 / 65_536 % 256 == raw[14] && m.serial->0 / 16_777_216
                == raw[15]
            &&& m.year is Some <==> raw[17] > 0
            &&& m.year matches Some(y) ==> y == 1990 + raw[17]
        },
{
    assert(edid_header() =~= seq![0x00u8, 0xff, 0xff, 0xff, 0xff, 0xff, 0xff, 0x00]);
    lemma_two_bytes(raw[10], raw[11]);
    lemma_four_bytes(raw[12], raw[13], raw[14], raw[15]);
}

proof fn lemma_two_bytes(a: u8, b: u8)
    ensures
        ({
            let p = (a as nat + 256 * b as nat) as u16;
            p % 256 == a && p / 256 == b
        }),
{
    let p = a as nat + 256 * b as nat;
    assert(p < 65_536);
}

proof fn lemma_four_bytes(a: u8, b: u8, c: u8, d: u8)
    ensures
        ({
            let n = (a as nat + 256 * b as nat + 65_536 * c as nat + 16_777_216 * d as nat) as u32;
            n % 256 == a && n / 256 % 256 == b && n / 65_536 % 256 == c && n / 16_777_216 == d
        }),
{
    let n = (a as nat + 256 * b as nat + 65_536 * c as nat + 16_777_216 * d as nat);
    assert(n <= u32::MAX);
    assert(n / 256 == b as nat + 256 * c as nat + 65_536 * d as nat);
    assert(n / 65_536 == c as nat + 256 * d as nat);
    assert(n / 16_777_216 == d as nat);
}

/// A monitor's name is what its last name descriptor says, its serial text what
/// its last serial descriptor does.
pub proof fn the_last_descriptor_names_it(raw: Seq<u8>, k: nat, n: nat)
    requires
        raw.len() >= 128,
        k < n <= 4,
        raw[descriptor_at(k as int)] == 0,
        raw[descriptor_at(k as int) + 1] == 0,
    ensures
        raw[descriptor_at(k as int) + 3] == 0xfc && (forall|j: int|
            k < j < n ==> !(raw[#[trigger] descriptor_at(j)] == 0 && raw[descriptor_at(j) + 1] == 0
                && raw[descriptor_at(j) + 3] == 0xfc)) ==> descriptors(raw, n).name == label_in(
            raw.subrange(descriptor_at(k as int) + 5, descriptor_at(k as int) + 18),
        ),
        raw[descriptor_at(k as int) + 3] == 0xff && (forall|j: int|
            k < j < n ==> !(raw[#[trigger] descriptor_at(j)] == 0 && raw[descriptor_at(j) + 1] == 0
                && raw[descriptor_at(j) + 3] == 0xff)) ==> descriptors(raw, n).serial == label_in(
            raw.subrange(descriptor_at(k as int) + 5, descriptor_at(k as int) + 18),
        ),
    decreases n,
{
    let at = descriptor_at(n - 1);
    let d = raw.subrange(at, at + 18);
    assert(d[0] == raw[at] && d[1] == raw[at + 1] && d[3] == raw[at + 3]);
    assert(d.subrange(5, 18) =~= raw.subrange(at + 5, at + 18));
    if k < n - 1 {
        the_last_descriptor_names_it(raw, k, (n - 1) as nat);
    }
}

/// A timing gives the picture's size, its clock in units of 10 kHz, and its rate
/// over the whole raster.
pub proof fn a_timing_reads_from_its_bytes(d: Seq<u8>)
    requires
        d.len() == 18,
    ensures
        ({
            let clock = (d[0] + d[1] * 256) * 10;
            let w = d[4] / 16 * 256 + d[2];
            let h = d[7] / 16 * 256 + d[5];
            &&& timing(d) is Some <==> clock > 0 && w > 0 && h > 0
            &&& timing(d) matches Some(m) ==> {
                &&& m.pixel_clock_khz == clock
                &&& m.width == w
                &&& m.height == h
                &&& m.refresh_hz.num == clock * 1000
                &&& m.refresh_hz.den == (w + d[4] % 16 * 256 + d[3]) * (h + d[7] % 16 * 256 + d[6])
            }
        }),
{
    let w = (d[4] / 16 * 256 + d[2]) + (d[4] % 16 * 256 + d[3]);
    let h = (d[7] / 16 * 256 + d[5]) + (d[7] % 16 * 256 + d[6]);
    assert(0 <= w <= 10_000 && 0 <= h <= 10_000);
    assert(0 <= w * h <= 100_000_000) by (nonlinear_arith)
        requires
            0 <= w <= 10_000,
            0 <= h <= 10_000,
    ;
}

// ---------------------------------------------------------------------------
// probes and helpers
// ---------------------------------------------------------------------------

/// What each probe is called, how it intrudes, and what it needs.
pub proof fn the_probes_are_known()
    ensures
        Probe::Snapshot.described().name@ == "snapshot"@ && Probe::Snapshot.described().class
            == ProbeClass::Passive && Probe::Snapshot.described().needs == Requirement::Nothing,
        Probe::StorageSample.described().name@ == "storage-sample"@
            && Probe::StorageSample.described().class == ProbeClass::Passive
            && Probe::StorageSample.described().needs == Requirement::Nothing,
        Probe::UrbErrors.described().name@ == "urb-errors"@ && Probe::UrbErrors.described().class
            == ProbeClass::PrivilegedRead && Probe::UrbErrors.described().needs
            == Requirement::Usbmon,
        Probe::Throughput.described().name@ == "throughput"@ && Probe::Throughput.described().class
            == ProbeClass::PrivilegedRead && Probe::Throughput.described().needs
            == Requirement::BlockRead,
        Probe::Reenumerate.described().name@ == "reenumerate"@
            && Probe::Reenumerate.described().class == ProbeClass::Disruptive
            && Probe::Reenumerate.described().needs == Requirement::PortControl,
        forall|p: Probe| (#[trigger] p.described()).implemented,
{
}

/// A tracer that is not loaded: a module can be loaded, a built-in one is denied
/// or silent, and none is reported missing unless the refusal could hide it.
pub proof fn an_absent_tracer_is_explained(configured: Option<char>, blocked: bool)
    ensures
        usbmon_absent(configured, blocked) is NotLoaded <==> configured == Some('m'),
        usbmon_absent(configured, blocked) is Denied <==> configured == Some('y') && blocked,
        usbmon_absent(configured, blocked) is Unsupported <==> configured is None && !blocked,
        !(usbmon_absent(configured, blocked) is Usable),
{
}

/// A step of a path is at fault exactly where root does not own it or others may
/// write to it.
pub proof fn a_step_is_roots_alone(path: Seq<char>, uid: u32, mode: u32)
    ensures
        fault_of(path, uid, mode) is None <==> uid == 0 && mode & 0o022u32 == 0,
        mode & 0o022u32 == 0 <==> (mode / 16) % 2 == 0 && (mode / 2) % 2 == 0,
{
    assert(mode & 0o022u32 == 0 <==> (mode / 16) % 2 == 0 && (mode / 2) % 2 == 0) by (bit_vector);
}

/// An exit without an answer: 126 is no authority, 127 no start, and what was
/// said on the way out is what is told.
pub proof fn an_exit_is_told(stderr: Seq<char>, code: Option<i32>)
    ensures
        heard(None, None, stderr, code) is NotAuthorised <==> code == Some(126i32),
        code == Some(126i32) && trimmed(stderr).len() > 0 ==> heard(None, None, stderr, code)
            == Heard::NotAuthorised(trimmed(stderr)),
        code != Some(126i32) && code != Some(127i32) && trimmed(stderr).len() > 0 ==> heard(
            None,
            None,
            stderr,
            code,
        ) == Heard::Failed(trimmed(stderr)),
{
}

} // verus!
