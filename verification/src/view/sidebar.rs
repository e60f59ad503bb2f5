//! The sidebar: the machine, its Type-C ports, and the device tree.
//!
//! Every dot carries its sentence: the subject's verdict where there is one, and
//! a plain fact where there is not. And hubs collapse: one between the user and
//! the device they came for is noise, and becomes a count on the device's own
//! row. A hub with nothing but hubs behind it is the exception, for then the hub
//! is the device.

use vstd::prelude::*;
use crate::diag::units::watts_text;
use crate::diag::watts;
use crate::model::{
    About, Outcome, Report, Severity, Snapshot, Subject, TypecPort, UsbDevice, UsbInterface,
    Verdict, TWO_WORDS,
};
use crate::number::{dec, number};
use crate::report::is_about;
use crate::seqs::{
    first_of, gathered, kept, lemma_take_all, lemma_take_more, no_refs, pointee,
    pointees, push_ref,
};
use crate::snapshot::{below_path, lemma_first_stays, parent_in};
use crate::text::{fill1, fill2, filled, opt_text, owned, same, trim, trimmed};
use crate::view::findings::{about, pane_findings, severity_class, severity_style, unless_empty};

verus! {

/// USB class code for a hub.
pub const CLASS_HUB: u8 = 0x09;

// ---------------------------------------------------------------------------
// topology
// ---------------------------------------------------------------------------

pub open spec fn hub(d: UsbDevice) -> bool {
    d.device_class == Some(CLASS_HUB) || d.has_class(CLASS_HUB)
}

pub fn is_hub(d: &UsbDevice) -> (r: bool)
    ensures
        r == hub(*d),
{
    let by_device = match d.device_class {
        Some(c) => c == CLASS_HUB,
        None => false,
    };
    by_device || d.has_interface_class(CLASS_HUB)
}

/// The hubs above a device, short of its root hub, looking at most `steps` up.
pub open spec fn hubs_above(devs: Seq<UsbDevice>, d: UsbDevice, steps: nat) -> nat
    decreases steps,
{
    if steps == 0 {
        0
    } else {
        match parent_in(devs, d) {
            Some(up) => if up.is_root_hub {
                0
            } else {
                (if hub(up) {
                    1nat
                } else {
                    0nat
                }) + hubs_above(devs, up, (steps - 1) as nat)
            },
            None => 0,
        }
    }
}

/// How many hubs sit between a device and its root hub. A chain with more steps
/// than there are devices has come back on itself.
pub open spec fn hub_count(snap: Snapshot, d: UsbDevice) -> nat {
    hubs_above(snap.all(), d, snap.all().len())
}

pub fn hops(snap: &Snapshot, d: &UsbDevice) -> (r: usize)
    ensures
        r == hub_count(*snap, *d),
{
    let devs = snap.devices();
    let total: usize = devs.len();
    let ghost all = snap.all();
    assert(all.len() == total);
    let mut n: usize = 0;
    let mut left: usize = total;
    let mut cur: &UsbDevice = d;
    while left > 0
        invariant_except_break
            left <= total,
            n <= total - left,
            all == snap.all(),
            n + hubs_above(all, *cur, left as nat) == hubs_above(all, *d, total as nat),
        ensures
            n == hubs_above(all, *d, total as nat),
        decreases left,
    {
        match snap.parent_of(cur) {
            Some(up) => {
                if up.is_root_hub {
                    break ;
                }
                if is_hub(up) {
                    n += 1;
                }
                cur = up;
                left -= 1;
            },
            None => {
                break ;
            },
        }
    }
    n
}

/// Something that is not itself a hub, other than the device of that name.
pub open spec fn real_device(name: Seq<char>) -> spec_fn(UsbDevice) -> bool {
    |d: UsbDevice| d.sysfs_name@ != name && !hub(d)
}

/// Whether anything behind a hub is not itself a hub.
pub open spec fn leads_somewhere(snap: Snapshot, d: UsbDevice) -> bool {
    first_of(snap.below(d.sysfs_name@), real_device(d.sysfs_name@)) is Some
}

pub fn has_real_descendant(snap: &Snapshot, hub: &UsbDevice) -> (r: bool)
    ensures
        r == leads_somewhere(*snap, *hub),
{
    let under = snap.subtree(hub.sysfs_name.as_str());
    let ghost s = pointees(under@);
    let ghost p = real_device(hub.sysfs_name@);
    let mut i: usize = 0;
    while i < under.len()
        invariant
            i <= under@.len(),
            s == pointees(under@),
            s == snap.below(hub.sysfs_name@),
            p == real_device(hub.sysfs_name@),
            first_of(s.take(i as int), p) is None,
        decreases under@.len() - i,
    {
        proof {
            lemma_take_more(s, i as int);
        }
        if !same(under[i].sysfs_name.as_str(), hub.sysfs_name.as_str()) && !is_hub(under[i]) {
            proof {
                lemma_first_stays(s, i + 1, p);
            }
            return true;
        }
        i += 1;
    }
    proof {
        lemma_take_all(s);
    }
    false
}

/// Whether a device has a row: a root hub has none, and a hub that leads to
/// something has one only where hubs are asked for.
pub open spec fn listed(snap: Snapshot, show_hubs: bool) -> spec_fn(UsbDevice) -> bool {
    |d: UsbDevice| !d.is_root_hub && (show_hubs || !hub(d) || !leads_somewhere(snap, d))
}

pub open spec fn rows_of_bus(snap: Snapshot, bus: UsbDevice, show_hubs: bool) -> Seq<UsbDevice> {
    kept(snap.below(bus.sysfs_name@), listed(snap, show_hubs))
}

/// The devices of a bus that have a row.
pub fn shown<'a>(snap: &'a Snapshot, bus: &UsbDevice, show_hubs: bool) -> (r: Vec<&'a UsbDevice>)
    ensures
        pointees(r@) == rows_of_bus(*snap, *bus, show_hubs),
{
    let under = snap.subtree(bus.sysfs_name.as_str());
    let ghost s = pointees(under@);
    let ghost p = listed(*snap, show_hubs);
    let mut out: Vec<&'a UsbDevice> = no_refs();
    let mut i: usize = 0;
    assert(kept(s.take(0), p) =~= Seq::empty());
    while i < under.len()
        invariant
            i <= under@.len(),
            s == pointees(under@),
            p == listed(*snap, show_hubs),
            pointees(out@) == kept(s.take(i as int), p),
        decreases under@.len() - i,
    {
        proof {
            lemma_take_more(s, i as int);
        }
        let d: &'a UsbDevice = under[i];
        if !d.is_root_hub && (show_hubs || !is_hub(d) || !has_real_descendant(snap, d)) {
            push_ref(&mut out, d);
        }
        i += 1;
    }
    proof {
        lemma_take_all(s);
    }
    out
}

pub open spec fn port_called(name: Seq<char>) -> spec_fn(TypecPort) -> bool {
    |p: TypecPort| p.name@ == name
}

pub open spec fn port_of(snap: Snapshot, name: Seq<char>) -> Option<TypecPort> {
    first_of(snap.ports@, port_called(name))
}

/// The Type-C port of a name.
pub fn find_port<'a>(snap: &'a Snapshot, name: &str) -> (r: Option<&'a TypecPort>)
    ensures
        pointee(r) == port_of(*snap, name@),
{
    let ghost p = port_called(name@);
    let mut i: usize = 0;
    while i < snap.ports.len()
        invariant
            i <= snap.ports@.len(),
            p == port_called(name@),
            first_of(snap.ports@.take(i as int), p) is None,
        decreases snap.ports@.len() - i,
    {
        proof {
            lemma_take_more(snap.ports@, i as int);
        }
        if same(snap.ports[i].name.as_str(), name) {
            proof {
                lemma_first_stays(snap.ports@, i + 1, p);
            }
            return Some(&snap.ports[i]);
        }
        i += 1;
    }
    proof {
        lemma_take_all(snap.ports@);
    }
    None
}

// ---------------------------------------------------------------------------
// what a row says
// ---------------------------------------------------------------------------

pub const VIA_DRIVER: &'static str = "Type-C via {}";

pub const ON_DRIVE: &'static str = "storage \u{00b7} {}";

pub const VIA_HUBS: &'static str = "via {} hub{}";

/// The ending of a counted noun.
pub open spec fn plural(n: nat) -> Seq<char> {
    if n == 1 {
        ""@
    } else {
        "s"@
    }
}

pub fn plural_ending(n: usize) -> (r: &'static str)
    ensures
        r@ == plural(n as nat),
{
    if n == 1 {
        ""
    } else {
        "s"
    }
}

pub open spec fn host_fact(snap: Snapshot) -> Seq<char> {
    if snap.host.typec_drivers@.len() > 0 {
        filled(VIA_DRIVER@, seq![snap.host.typec_drivers@[0]@])
    } else {
        "no Type-C driver loaded"@
    }
}

pub open spec fn port_fact(snap: Snapshot, name: Seq<char>) -> Seq<char> {
    match port_of(snap, name) {
        Some(p) => match p.partner {
            Some(pt) => if pt.pd_capable() {
                "attached, speaks PD"@
            } else {
                "attached, does not speak PD"@
            },
            None => "nothing attached"@,
        },
        None => ""@,
    }
}

pub open spec fn device_fact(snap: Snapshot, name: Seq<char>) -> Seq<char> {
    match snap.named(name) {
        Some(d) => {
            let drives = kept(snap.block_devices@, below_path(d.sysfs_path@));
            if drives.len() > 0 {
                filled(ON_DRIVE@, seq![drives[0].called()])
            } else if hub(d) && d.children@.len() == 0 {
                "nothing attached"@
            } else if hub_count(snap, d) == 0 {
                match d.speed {
                    Some(s) => s.label@,
                    None => "attached"@,
                }
            } else {
                filled(VIA_HUBS@, seq![dec(hub_count(snap, d)), plural(hub_count(snap, d))])
            }
        },
        None => ""@,
    }
}

/// A plain, checkable fact for a subject nothing has been concluded about.
pub open spec fn plain_fact(snap: Snapshot, a: About) -> Seq<char> {
    match a {
        About::Host => host_fact(snap),
        About::Port(p) | About::Cable(p) => port_fact(snap, p),
        About::Device(d) => device_fact(snap, d),
    }
}

fn state_host(snap: &Snapshot) -> (r: String)
    ensures
        r@ == host_fact(*snap),
{
    if snap.host.typec_drivers.len() > 0 {
        fill1(VIA_DRIVER, snap.host.typec_drivers[0].as_str())
    } else {
        owned("no Type-C driver loaded")
    }
}

fn state_port(snap: &Snapshot, name: &str) -> (r: String)
    ensures
        r@ == port_fact(*snap, name@),
{
    match find_port(snap, name) {
        Some(p) => match &p.partner {
            Some(pt) => if pt.speaks_pd() {
                owned("attached, speaks PD")
            } else {
                owned("attached, does not speak PD")
            },
            None => owned("nothing attached"),
        },
        None => owned(""),
    }
}

fn state_device(snap: &Snapshot, name: &str) -> (r: String)
    ensures
        r@ == device_fact(*snap, name@),
{
    match snap.device(name) {
        Some(d) => {
            let drives = snap.storage_on(d);
            let ghost s = pointees(drives@);
            assert(s.len() == drives@.len());
            if drives.len() > 0 {
                assert(s[0] == *drives@[0]);
                let label = drives[0].label();
                return fill1(ON_DRIVE, label.as_str());
            }
            if is_hub(d) && d.children.len() == 0 {
                return owned("nothing attached");
            }
            let n = hops(snap, d);
            if n == 0 {
                match &d.speed {
                    Some(s) => s.label.clone(),
                    None => owned("attached"),
                }
            } else {
                let count = number(n as u64);
                fill2(VIA_HUBS, count.as_str(), plural_ending(n))
            }
        },
        None => owned(""),
    }
}

pub fn fact(snap: &Snapshot, subject: &Subject) -> (r: String)
    ensures
        r@ == plain_fact(*snap, subject@),
{
    match subject {
        Subject::Host => state_host(snap),
        Subject::Port(p) => state_port(snap, p.as_str()),
        Subject::Cable(p) => state_port(snap, p.as_str()),
        Subject::Device(d) => state_device(snap, d.as_str()),
    }
}

/// A verdict that rests on something.
pub open spec fn is_cited(v: Verdict) -> bool {
    v.because@.len() > 0
}

pub open spec fn verdict_on(r: Report, a: About) -> Option<Verdict> {
    first_of(r.verdicts@, is_about(a))
}

/// The worst severity found for a subject.
pub open spec fn worst_on(r: Report, a: About) -> Option<Severity> {
    let s = pane_findings(r.findings@, a);
    if s.len() == 0 {
        None
    } else {
        Some(s[0].severity)
    }
}

/// The class of a subject's dot.
pub open spec fn dot_class(r: Report, a: About) -> Seq<char> {
    match worst_on(r, a) {
        Some(s) if s.weight() >= Severity::Low.weight() => severity_style(s),
        w => match verdict_on(r, a) {
            Some(v) if v.outcome is Clear && is_cited(v) => "ok"@,
            _ => if w is Some {
                "info"@
            } else {
                "none"@
            },
        },
    }
}

/// The sentence beside a subject's dot.
pub open spec fn sentence(r: Report, a: About) -> Seq<char> {
    match verdict_on(r, a) {
        Some(v) if is_cited(v) => v.headline@,
        _ => plain_fact(r.snapshot, a),
    }
}

/// The sentence beside the dot, and the dot's class.
///
/// A verdict that cites nothing is a weaker statement than one that does, so it
/// does not get to speak: the row falls back to a plain fact and a hollow dot.
pub fn reason(report: &Report, subject: &Subject) -> (r: (String, &'static str))
    ensures
        r.0@ == sentence(*report, subject@),
        r.1@ == dot_class(*report, subject@),
{
    let verdict = report.verdict_for(subject);
    let mine = about(&report.findings, subject);
    let ghost s = pointees(mine@);
    assert(s.len() == mine@.len());
    let cited = match verdict {
        Some(v) => v.because.len() > 0,
        None => false,
    };
    let text = match verdict {
        Some(v) => if v.because.len() > 0 {
            v.headline.clone()
        } else {
            fact(&report.snapshot, subject)
        },
        None => fact(&report.snapshot, subject),
    };
    let clear = match verdict {
        Some(v) => match v.outcome {
            Outcome::Clear => true,
            _ => false,
        },
        None => false,
    };
    let class = if mine.len() > 0 {
        assert(s[0] == *mine@[0]);
        let worst = mine[0].severity;
        if worst.rank() >= Severity::Low.rank() {
            severity_class(worst)
        } else if cited && clear {
            "ok"
        } else {
            "info"
        }
    } else if cited && clear {
        "ok"
    } else {
        "none"
    };
    (text, class)
}

// ---------------------------------------------------------------------------
// names
// ---------------------------------------------------------------------------

/// The machine by its own name, or else by `otherwise`.
pub open spec fn machine_name(snap: Snapshot, otherwise: Seq<char>) -> Seq<char> {
    match (snap.host.sys_vendor, snap.host.product_name) {
        (Some(v), Some(p)) => filled(TWO_WORDS@, seq![trimmed(v@), trimmed(p@)]),
        (None, Some(p)) => trimmed(p@),
        _ => otherwise,
    }
}

pub fn name_machine(snap: &Snapshot, otherwise: &str) -> (r: String)
    ensures
        r@ == machine_name(*snap, otherwise@),
{
    match (&snap.host.sys_vendor, &snap.host.product_name) {
        (Some(v), Some(p)) => {
            let v2 = trim(v.as_str());
            let p2 = trim(p.as_str());
            fill2(TWO_WORDS, v2.as_str(), p2.as_str())
        },
        (None, Some(p)) => trim(p.as_str()),
        _ => owned(otherwise),
    }
}

pub fn host_name(snap: &Snapshot) -> (r: String)
    ensures
        r@ == machine_name(*snap, "This machine"@),
{
    name_machine(snap, "This machine")
}

pub const PORT_AT: &'static str = "{}  \u{00b7} {}";

/// Where a port is, where that is known.
pub open spec fn place_of(p: TypecPort) -> Option<Seq<char>> {
    match p.physical_location {
        Some(l) => unless_empty(l.short()),
        None => None,
    }
}

pub fn port_place(p: &TypecPort) -> (r: Option<String>)
    ensures
        opt_text(r) == place_of(*p),
{
    match &p.physical_location {
        Some(l) => {
            let s = l.display();
            if s.as_str().is_empty() {
                None
            } else {
                Some(s)
            }
        },
        None => None,
    }
}

pub open spec fn port_title(p: TypecPort) -> Seq<char> {
    match place_of(p) {
        Some(place) => filled(PORT_AT@, seq![p.name@, place]),
        None => p.name@,
    }
}

pub fn port_name(p: &TypecPort) -> (r: String)
    ensures
        r@ == port_title(*p),
{
    match port_place(p) {
        Some(place) => fill2(PORT_AT, p.name.as_str(), place.as_str()),
        None => p.name.clone(),
    }
}

/// The power a port carries: its contract, else what it advertises.
pub open spec fn port_power(p: TypecPort) -> Option<u32> {
    match p.power_supply {
        Some(ps) => match ps.contract_mw() {
            Some(mw) => Some(mw),
            None => p.advertised_mw(),
        },
        None => p.advertised_mw(),
    }
}

pub open spec fn flow(p: TypecPort) -> Seq<char> {
    if p.sourcing() {
        "out"@
    } else {
        "in"@
    }
}

/// Power in or out, only while something is attached: an empty socket still
/// advertises a current, and nothing arrives through it.
pub open spec fn power_note(p: TypecPort) -> Seq<char> {
    match port_power(p) {
        Some(mw) if p.attached() => filled(TWO_WORDS@, seq![watts_text(mw), flow(p)]),
        _ => ""@,
    }
}

pub fn port_meta(p: &TypecPort) -> (r: String)
    ensures
        r@ == power_note(*p),
{
    if !p.is_attached() {
        return owned("");
    }
    let contract = match &p.power_supply {
        Some(ps) => ps.contract_power_mw(),
        None => None,
    };
    let mw = match contract {
        Some(mw) => Some(mw),
        None => p.typec_advertised_ceiling_mw(),
    };
    match mw {
        Some(mw) => {
            let dir = if p.is_sourcing() {
                "out"
            } else {
                "in"
            };
            let power = watts(mw);
            fill2(TWO_WORDS, power.as_str(), dir)
        },
        None => owned(""),
    }
}

pub open spec fn speed_note(d: UsbDevice) -> Seq<char> {
    match d.speed {
        Some(s) => s.brief(),
        None => ""@,
    }
}

pub fn device_meta(d: &UsbDevice) -> (r: String)
    ensures
        r@ == speed_note(*d),
{
    match &d.speed {
        Some(s) => s.short(),
        None => owned(""),
    }
}

// ---------------------------------------------------------------------------
// the whole of it
// ---------------------------------------------------------------------------

/// One line of the sidebar.
#[derive(Debug, Clone)]
pub enum Entry {
    /// The start of a group, with what the button beside it says.
    Heading { title: &'static str, toggle: Option<&'static str> },
    /// A subject, with its name and the number beside it.
    Row {
        subject: Subject,
        name: String,
        meta: String,
        why: String,
        class: &'static str,
        /// Whether the sentence takes the class of the dot too.
        tinted: bool,
        selected: bool,
    },
    /// The start of a bus.
    Bus { name: String, speed: Option<String>, driver: Option<String> },
    Note(String),
}

pub enum EntryText {
    Heading { title: Seq<char>, toggle: Option<Seq<char>> },
    Row {
        subject: About,
        name: Seq<char>,
        meta: Seq<char>,
        why: Seq<char>,
        class: Seq<char>,
        tinted: bool,
        selected: bool,
    },
    Bus { name: Seq<char>, speed: Option<Seq<char>>, driver: Option<Seq<char>> },
    Note(Seq<char>),
}

pub open spec fn opt_word(o: Option<&'static str>) -> Option<Seq<char>> {
    match o {
        Some(w) => Some(w@),
        None => None,
    }
}

impl View for Entry {
    type V = EntryText;

    open spec fn view(&self) -> EntryText {
        match *self {
            Entry::Heading { title, toggle } => EntryText::Heading {
                title: title@,
                toggle: opt_word(toggle),
            },
            Entry::Row { subject, name, meta, why, class, tinted, selected } => EntryText::Row {
                subject: subject@,
                name: name@,
                meta: meta@,
                why: why@,
                class: class@,
                tinted,
                selected,
            },
            Entry::Bus { name, speed, driver } => EntryText::Bus {
                name: name@,
                speed: opt_text(speed),
                driver: opt_text(driver),
            },
            Entry::Note(n) => EntryText::Note(n@),
        }
    }
}

pub open spec fn entries(v: Seq<Entry>) -> Seq<EntryText> {
    Seq::new(v.len(), |i: int| v[i]@)
}

fn push_entry(v: &mut Vec<Entry>, e: Entry)
    ensures
        entries(final(v)@) == entries(old(v)@).push(e@),
{
    let ghost before = v@;
    v.push(e);
    assert(entries(v@) =~= entries(before).push(e@));
}

/// The row of a subject.
pub open spec fn row_entry(
    r: Report,
    a: About,
    name: Seq<char>,
    meta: Seq<char>,
    selected: About,
) -> EntryText {
    EntryText::Row {
        subject: a,
        name,
        meta,
        why: sentence(r, a),
        class: dot_class(r, a),
        tinted: dot_class(r, a) != "none"@ && dot_class(r, a) != "info"@,
        selected: a == selected,
    }
}

fn row(report: &Report, subject: Subject, name: String, meta: String, selected: &Subject) -> (r:
    Entry)
    ensures
        r@ == row_entry(*report, subject@, name@, meta@, selected@),
{
    let (why, class) = reason(report, &subject);
    let tinted = !same(class, "none") && !same(class, "info");
    let here = subject.is(selected);
    Entry::Row { subject, name, meta, why, class, tinted, selected: here }
}

pub open spec fn driven() -> spec_fn(UsbInterface) -> bool {
    |i: UsbInterface| i.driver is Some
}

/// The driver of the first interface that has one.
pub open spec fn bus_driver(bus: UsbDevice) -> Option<Seq<char>> {
    match first_of(bus.interfaces@, driven()) {
        Some(i) => unless_empty(i.driver->0@),
        None => None,
    }
}

fn find_driver(bus: &UsbDevice) -> (r: Option<String>)
    ensures
        opt_text(r) == bus_driver(*bus),
{
    let mut i: usize = 0;
    while i < bus.interfaces.len()
        invariant
            i <= bus.interfaces@.len(),
            first_of(bus.interfaces@.take(i as int), driven()) is None,
        decreases bus.interfaces@.len() - i,
    {
        proof {
            lemma_take_more(bus.interfaces@, i as int);
        }
        if let Some(d) = &bus.interfaces[i].driver {
            proof {
                lemma_first_stays(bus.interfaces@, i + 1, driven());
            }
            return if d.as_str().is_empty() {
                None
            } else {
                Some(d.clone())
            };
        }
        i += 1;
    }
    proof {
        lemma_take_all(bus.interfaces@);
    }
    None
}

pub open spec fn bus_speed(bus: UsbDevice) -> Option<Seq<char>> {
    match bus.speed {
        Some(s) => Some(s.brief()),
        None => None,
    }
}

pub open spec fn bus_entry(bus: UsbDevice) -> EntryText {
    EntryText::Bus { name: bus.sysfs_name@, speed: bus_speed(bus), driver: bus_driver(bus) }
}

fn bus_heading(bus: &UsbDevice) -> (r: Entry)
    ensures
        r@ == bus_entry(*bus),
{
    let speed = match &bus.speed {
        Some(s) => Some(s.short()),
        None => None,
    };
    Entry::Bus { name: bus.sysfs_name.clone(), speed, driver: find_driver(bus) }
}

pub open spec fn port_entries(r: Report, selected: About, ports: Seq<TypecPort>) -> Seq<EntryText> {
    Seq::new(
        ports.len(),
        |i: int|
            row_entry(
                r,
                About::Port(ports[i].name@),
                port_title(ports[i]),
                power_note(ports[i]),
                selected,
            ),
    )
}

pub open spec fn device_entries(r: Report, selected: About, devs: Seq<UsbDevice>) -> Seq<
    EntryText,
> {
    Seq::new(
        devs.len(),
        |i: int|
            row_entry(
                r,
                About::Device(devs[i].sysfs_name@),
                devs[i].called(),
                speed_note(devs[i]),
                selected,
            ),
    )
}

/// A bus with its devices, or nothing for one with nothing to show.
pub open spec fn bus_entries(r: Report, selected: About, show_hubs: bool) -> spec_fn(
    UsbDevice,
) -> Seq<EntryText> {
    |bus: UsbDevice|
        {
            let devs = rows_of_bus(r.snapshot, bus, show_hubs);
            if devs.len() == 0 {
                Seq::empty()
            } else {
                seq![bus_entry(bus)] + device_entries(r, selected, devs)
            }
        }
}

pub open spec fn silent(snap: Snapshot, show_hubs: bool) -> spec_fn(UsbDevice) -> bool {
    |bus: UsbDevice| rows_of_bus(snap, bus, show_hubs).len() == 0
}

pub const SILENT_BUSES: &'static str = "{} controller{} with nothing attached";

pub open spec fn toggle_text(show_hubs: bool) -> Seq<char> {
    if show_hubs {
        "hide hubs"@
    } else {
        "show hubs"@
    }
}

pub open spec fn machine_part(r: Report, selected: About) -> Seq<EntryText> {
    seq![
        EntryText::Heading { title: "SYSTEM"@, toggle: None },
        row_entry(
            r,
            About::Host,
            machine_name(r.snapshot, "This machine"@),
            release(r.snapshot),
            selected,
        ),
    ]
}

pub open spec fn release(snap: Snapshot) -> Seq<char> {
    match snap.host.kernel_release {
        Some(k) => k@,
        None => ""@,
    }
}

pub open spec fn ports_part(r: Report, selected: About) -> Seq<EntryText> {
    if r.snapshot.ports@.len() == 0 {
        Seq::empty()
    } else {
        seq![EntryText::Heading { title: "USB-C PORTS"@, toggle: None }] + port_entries(
            r,
            selected,
            r.snapshot.ports@,
        )
    }
}

pub open spec fn silence_part(n: nat) -> Seq<EntryText> {
    if n == 0 {
        Seq::empty()
    } else {
        seq![EntryText::Note(filled(SILENT_BUSES@, seq![dec(n), plural(n)]))]
    }
}

pub open spec fn sidebar(r: Report, selected: About, show_hubs: bool) -> Seq<EntryText> {
    machine_part(r, selected) + ports_part(r, selected) + seq![
        EntryText::Heading { title: "DEVICES"@, toggle: Some(toggle_text(show_hubs)) },
    ] + gathered(r.snapshot.buses@, bus_entries(r, selected, show_hubs)) + silence_part(
        kept(r.snapshot.buses@, silent(r.snapshot, show_hubs)).len(),
    )
}

fn list_ports(report: &Report, selected: &Subject, out: &mut Vec<Entry>)
    ensures
        entries(final(out)@) == entries(old(out)@) + ports_part(*report, selected@),
{
    let ghost before = entries(out@);
    let ports = &report.snapshot.ports;
    if ports.len() == 0 {
        assert(before + ports_part(*report, selected@) =~= before);
        return;
    }
    push_entry(out, Entry::Heading { title: "USB-C PORTS", toggle: None });
    let ghost head = entries(out@);
    let ghost all = port_entries(*report, selected@, ports@);
    let mut i: usize = 0;
    assert(head + all.take(0) =~= head);
    while i < ports.len()
        invariant
            i <= ports@.len(),
            *ports == report.snapshot.ports,
            all == port_entries(*report, selected@, ports@),
            entries(out@) == head + all.take(i as int),
        decreases ports@.len() - i,
    {
        let p = &ports[i];
        let name = port_name(p);
        let meta = port_meta(p);
        let e = row(report, Subject::Port(p.name.clone()), name, meta, selected);
        push_entry(out, e);
        assert(head + all.take(i + 1) =~= (head + all.take(i as int)).push(all[i as int]));
        i += 1;
    }
    assert(head + all.take(i as int) =~= before + ports_part(*report, selected@));
}

fn list_bus(
    report: &Report,
    selected: &Subject,
    bus: &UsbDevice,
    show_hubs: bool,
    out: &mut Vec<Entry>,
) -> (r: bool)
    ensures
        entries(final(out)@) == entries(old(out)@) + bus_entries(*report, selected@, show_hubs)(
            *bus,
        ),
        r == silent(report.snapshot, show_hubs)(*bus),
{
    let ghost before = entries(out@);
    let devs = shown(&report.snapshot, bus, show_hubs);
    let ghost s = pointees(devs@);
    assert(s.len() == devs@.len());
    if devs.len() == 0 {
        assert(before + bus_entries(*report, selected@, show_hubs)(*bus) =~= before);
        return true;
    }
    push_entry(out, bus_heading(bus));
    let ghost head = entries(out@);
    let ghost all = device_entries(*report, selected@, s);
    let mut i: usize = 0;
    assert(head + all.take(0) =~= head);
    while i < devs.len()
        invariant
            i <= devs@.len(),
            s == pointees(devs@),
            all == device_entries(*report, selected@, s),
            entries(out@) == head + all.take(i as int),
        decreases devs@.len() - i,
    {
        let d = devs[i];
        assert(s[i as int] == *d);
        let name = d.label();
        let meta = device_meta(d);
        let e = row(report, Subject::Device(d.sysfs_name.clone()), name, meta, selected);
        push_entry(out, e);
        assert(head + all.take(i + 1) =~= (head + all.take(i as int)).push(all[i as int]));
        i += 1;
    }
    assert(head + all.take(i as int) =~= before + bus_entries(*report, selected@, show_hubs)(
        *bus,
    ));
    false
}

/// The sidebar, from top to bottom.
pub fn build(report: &Report, selected: &Subject, show_hubs: bool) -> (r: Vec<Entry>)
    ensures
        entries(r@) == sidebar(*report, selected@, show_hubs),
{
    let snap = &report.snapshot;
    let ghost a = selected@;
    let mut out: Vec<Entry> = Vec::new();
    assert(entries(out@) =~= Seq::empty());
    push_entry(&mut out, Entry::Heading { title: "SYSTEM", toggle: None });
    let meta = match &snap.host.kernel_release {
        Some(k) => k.clone(),
        None => owned(""),
    };
    let e = row(report, Subject::Host, host_name(snap), meta, selected);
    push_entry(&mut out, e);
    assert(entries(out@) =~= machine_part(*report, a));
    list_ports(report, selected, &mut out);
    let toggle = if show_hubs {
        "hide hubs"
    } else {
        "show hubs"
    };
    let ghost above = entries(out@);
    push_entry(&mut out, Entry::Heading { title: "DEVICES", toggle: Some(toggle) });
    let ghost head = entries(out@);
    assert(head =~= above + seq![
        EntryText::Heading { title: "DEVICES"@, toggle: Some(toggle_text(show_hubs)) },
    ]);
    let ghost f = bus_entries(*report, a, show_hubs);
    let ghost p = silent(report.snapshot, show_hubs);
    let mut quiet: usize = 0;
    let mut i: usize = 0;
    assert(head + gathered(snap.buses@.take(0), f) =~= head);
    assert(kept(snap.buses@.take(0), p) =~= Seq::empty());
    while i < snap.buses.len()
        invariant
            i <= snap.buses@.len(),
            *snap == report.snapshot,
            a == selected@,
            f == bus_entries(*report, a, show_hubs),
            p == silent(report.snapshot, show_hubs),
            entries(out@) == head + gathered(snap.buses@.take(i as int), f),
            quiet == kept(snap.buses@.take(i as int), p).len(),
            quiet <= i,
        decreases snap.buses@.len() - i,
    {
        proof {
            lemma_take_more(snap.buses@, i as int);
        }
        let ghost so_far = gathered(snap.buses@.take(i as int), f);
        let empty = list_bus(report, selected, &snap.buses[i], show_hubs, &mut out);
        if empty {
            quiet += 1;
        }
        assert(head + so_far + f(snap.buses@[i as int]) =~= head + (so_far + f(
            snap.buses@[i as int],
        )));
        i += 1;
    }
    proof {
        lemma_take_all(snap.buses@);
    }
    let ghost body = entries(out@);
    if quiet > 0 {
        let count = number(quiet as u64);
        let note = fill2(SILENT_BUSES, count.as_str(), plural_ending(quiet));
        push_entry(&mut out, Entry::Note(note));
        assert(entries(out@) =~= body + silence_part(quiet as nat));
    } else {
        assert(body + silence_part(0) =~= body);
    }
    out
}

// ---------------------------------------------------------------------------
// laws
// ---------------------------------------------------------------------------

/// A dot is green only where a verdict that found nothing says what it rests on,
/// and nothing above a remark was found.
pub proof fn green_rests_on_something(r: Report, a: About)
    requires
        dot_class(r, a) == "ok"@,
    ensures
        verdict_on(r, a) matches Some(v) && v.outcome is Clear && is_cited(v),
        worst_on(r, a) matches Some(s) ==> s is Info,
{
    reveal_strlit("ok");
    reveal_strlit("high");
    reveal_strlit("medium");
    reveal_strlit("low");
    reveal_strlit("info");
    reveal_strlit("none");
    assert("ok"@.len() == 2 && "high"@.len() == 4 && "medium"@.len() == 6 && "low"@.len() == 3
        && "info"@.len() == 4 && "none"@.len() == 4);
}

/// A verdict that cites nothing does not get to speak.
pub proof fn an_uncited_verdict_is_silent(r: Report, a: About)
    requires
        verdict_on(r, a) matches Some(v) ==> !is_cited(v),
    ensures
        sentence(r, a) == plain_fact(r.snapshot, a),
        dot_class(r, a) != "ok"@,
{
    if dot_class(r, a) == "ok"@ {
        green_rests_on_something(r, a);
    }
}

/// Asking for hubs takes no row away: every device with a row keeps it.
pub proof fn showing_hubs_hides_nothing(snap: Snapshot, d: UsbDevice)
    requires
        listed(snap, false)(d),
    ensures
        listed(snap, true)(d),
{
}

/// What is not a hub always has its row, and so has a hub with nothing but hubs
/// behind it.
pub proof fn what_is_no_hub_is_listed(snap: Snapshot, show_hubs: bool, d: UsbDevice)
    requires
        !d.is_root_hub,
        !hub(d) || !leads_somewhere(snap, d),
    ensures
        listed(snap, show_hubs)(d),
{
}

} // verus!
