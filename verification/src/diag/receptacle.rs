//! Rules about physical sockets: one receptacle is a USB 2.0 half and a
//! SuperSpeed half on different buses, and a device on the slow half while the
//! fast half is idle or failing says what its own descriptors cannot.

use vstd::prelude::*;
use crate::diag::device::{cite_kind, with_kind_cited};
use crate::diag::host::{lemma_newest, newest_by};
use crate::diag::{
    finding, lines3, note, nothing, one, or_text, some_text, stated, stated_opt, text_or,
};
use crate::double::Double;
use crate::kind::DeviceKind;
use crate::model::{
    brief_rate, brief_rate_text, errno_meaning, meaning_of, About, Confidence, EventKind, Finding,
    HubPort, KernelEvent, Severity, Snapshot, Statement, Subject, UsbDevice,
};
use crate::number::{dec, number, Decimal};
use crate::seqs::{
    first_of, gathered, kept, lemma_take_all, lemma_take_more, no_refs, pointee, pointees, push_ref,
};
use crate::text::{
    cat, fill1, fill2, fill3, filled, in_order, is_text, no_texts, opt_text, owned, push_text,
    put_text, same, texts,
};

verus! {

pub const AT_LOCATION: &'static str = "location {}";

pub const IDLE_SLOW_LINE: &'static str = "{} (hub at {}) has {}";

pub const IDLE_FAST_LINE: &'static str = "{} (hub at {}) is idle — same receptacle, location {}";

pub const IDLE_VERSION_LINE: &'static str =
    "device reports USB {} — which a USB 3 device in fallback also does";

pub const LOCATION_LINE: &'static str = "physical location: {}";

pub const IDLE_TITLE: &'static str = "{} is on the USB 2.0 half of a SuperSpeed-capable socket";

pub const IDLE_DETAIL: &'static str =
    "This receptacle has a SuperSpeed half, and it is empty while the device sits on the \
        USB 2.0 half — so the SuperSpeed pairs never trained. For storage that usually means \
        the cable or adapter carries no SuperSpeed wiring at all, which is normal for \
        charge-only cables and for USB 2.0-only adapters. The device's own descriptors cannot \
        confirm this either way: a USB 3 device operating at High Speed presents its USB 2.0 \
        descriptor set and stops advertising USB 3.";

pub const IDLE_ADVICE: &'static str =
    "If this is a USB 3 device, replace the cable or adapter with one rated for USB 3 data. \
        If it is genuinely a USB 2.0 device, nothing is wrong.";

pub const DEFECTIVE: &'static str = "the cable or connector is likely defective";

pub const DEFECTIVE_DETAIL: &'static str =
    "The SuperSpeed link trained at least once and then failed, so the SuperSpeed pairs are \
        physically present and wired — they just will not hold a connection. That points at an \
        intermittent contact: a loose or damaged connector, a worn plug, or a cable failing \
        internally. A cable that merely lacked SuperSpeed wiring could never have trained at \
        all. Note that USB 2.0 keeps working through this: it uses one differential pair with \
        generous margins, while SuperSpeed adds two pairs at multi-gigabit rates where signal \
        integrity is unforgiving — so the SuperSpeed half fails long before anything else \
        shows symptoms.";

pub const DEFECTIVE_ADVICE: &'static str =
    "Reseat both ends and inspect the connectors. If the device is a hub or dock with a \
        built-in cable, the uplink cannot be replaced and the unit needs repair or \
        replacement.";

pub const UNWIRED: &'static str = "the path has no SuperSpeed wiring";

pub const UNWIRED_DETAIL: &'static str =
    "The SuperSpeed link never trained even once, which means the SuperSpeed pairs are not \
        reaching this socket at all. A USB 2.0-only cable or adapter does exactly this — \
        nothing is damaged, the wiring is simply absent.";

pub const UNWIRED_ADVICE: &'static str =
    "Replace the cable or adapter with one rated for USB 3 data. Charge-only cables and USB \
        2.0 adapters cannot carry SuperSpeed however good they are.";

pub const ERRORS_LINE: &'static str = "{} on the SuperSpeed half: {} error event(s) this boot";

pub const COMPANION_LINE: &'static str =
    "{} on the USB 2.0 half of the same socket is running {} ({})";

pub const TRAINED_LINE: &'static str = "SuperSpeed {} this boot";

pub const TRAINED: &'static str = "trained at least once, then failed";

pub const NEVER_TRAINED: &'static str = "never trained";

pub const GAVE_UP_LINE: &'static str = "{} has since given up (state: not attached)";

pub const EXCLUDED_LINE: &'static str =
    "{} older error(s) on this socket predate the current device and were excluded — they \
        belonged to whatever was plugged in before";

pub const ERRNO_LINE: &'static str = "{}  [{}]";

pub const UP_NOW_LINE: &'static str = "SuperSpeed is up right now: {} is {} at {}";

pub const UP_NOW_TITLE: &'static str =
    "SuperSpeed at the {} socket is up now, but failed {} times earlier this boot — \
        intermittent";

pub const UP_NOW_DETAIL: &'static str =
    "The link is working at this moment, which is what makes this worth reporting: an \
        intermittent fault is most misleading exactly when it looks fine. {}";

pub const FAILED_TITLE: &'static str = "SuperSpeed failed at the {} socket — {}";

pub const SUPERSEDES: &'static str =
    "\n\nThis supersedes the individual kernel-log findings for this bus, which describe \
        the same fault one message at a time.";

// ---------------------------------------------------------------------------
// sites and sockets
// ---------------------------------------------------------------------------

/// A hub port with the hub it belongs to and that hub's link rate.
pub struct Site {
    pub hub: UsbDevice,
    pub port: HubPort,
    pub rate: Decimal,
}

/// One physical socket, as its two halves.
pub struct Socket {
    pub location: Seq<char>,
    pub slow: Site,
    pub fast: Site,
}

/// A downstream port together with the hub it belongs to.
pub struct PortSite<'a> {
    pub hub: &'a UsbDevice,
    pub port: &'a HubPort,
    pub rate: Decimal,
}

/// One physical socket: a USB 2.0 half and a SuperSpeed half on different buses,
/// sharing an ACPI `_PLD` location token.
pub struct Receptacle<'a> {
    pub location: &'a String,
    pub slow: PortSite<'a>,
    pub fast: PortSite<'a>,
}

impl<'a> View for PortSite<'a> {
    type V = Site;

    open spec fn view(&self) -> Site {
        Site { hub: *self.hub, port: *self.port, rate: self.rate }
    }
}

impl<'a> View for Receptacle<'a> {
    type V = Socket;

    open spec fn view(&self) -> Socket {
        Socket { location: self.location@, slow: self.slow@, fast: self.fast@ }
    }
}

pub open spec fn site_views(v: Seq<PortSite>) -> Seq<Site> {
    Seq::new(v.len(), |i: int| v[i]@)
}

pub open spec fn socket_views(v: Seq<Receptacle>) -> Seq<Socket> {
    Seq::new(v.len(), |i: int| v[i]@)
}

/// The ports of a hub that firmware gave a location.
pub open spec fn located(hub: UsbDevice, rate: Decimal) -> spec_fn(HubPort) -> Seq<Site> {
    |p: HubPort|
        match p.location {
            Some(_) => seq![Site { hub, port: p, rate }],
            None => Seq::empty(),
        }
}

/// The sites of one hub, where its link rate was read.
pub open spec fn sites_of() -> spec_fn(UsbDevice) -> Seq<Site> {
    |d: UsbDevice|
        match d.speed {
            Some(s) => gathered(d.ports@, located(d, s.mbps)),
            None => Seq::empty(),
        }
}

/// Every site with a location, in walking order.
pub open spec fn sites(snap: Snapshot) -> Seq<Site> {
    gathered(snap.all(), sites_of())
}

pub open spec fn location_of(s: Site) -> Seq<char> {
    s.port.location->0@
}

pub open spec fn locations(s: Seq<Site>) -> Seq<Seq<char>> {
    Seq::new(s.len(), |i: int| location_of(s[i]))
}

pub open spec fn at_location(loc: Seq<char>) -> spec_fn(Site) -> bool {
    |s: Site| location_of(s) == loc
}

pub open spec fn is_slow() -> spec_fn(Site) -> bool {
    |s: Site| s.rate.micros <= 480_000_000
}

pub open spec fn is_fast() -> spec_fn(Site) -> bool {
    |s: Site| s.rate.micros >= 5_000_000_000
}

/// The socket at a location: exactly two ports, one slow and one fast. Firmware
/// emits catch-all tokens shared by many ports, and pairing those would attach a
/// finding to the wrong socket.
pub open spec fn socket_at(all: Seq<Site>) -> spec_fn(Seq<char>) -> Seq<Socket> {
    |loc: Seq<char>|
        {
            let group = kept(all, at_location(loc));
            match (first_of(group, is_slow()), first_of(group, is_fast())) {
                (Some(slow), Some(fast)) => if group.len() == 2 {
                    seq![Socket { location: loc, slow, fast }]
                } else {
                    Seq::empty()
                },
                _ => Seq::empty(),
            }
        }
}

/// The physical sockets, by location.
pub open spec fn sockets(snap: Snapshot) -> Seq<Socket> {
    gathered(in_order(locations(sites(snap))), socket_at(sites(snap)))
}

fn push_site<'a>(out: &mut Vec<PortSite<'a>>, s: PortSite<'a>)
    ensures
        final(out)@ == old(out)@.push(s),
        site_views(final(out)@) == site_views(old(out)@).push(s@),
{
    let ghost before = out@;
    out.push(s);
    assert(site_views(out@) =~= site_views(before).push(s@));
}

fn find_sites<'a>(snap: &'a Snapshot) -> (r: Vec<PortSite<'a>>)
    ensures
        site_views(r@) == sites(*snap),
        forall|i: int| 0 <= i < r.len() ==> (#[trigger] r[i]).port.location is Some,
{
    let devs = snap.devices();
    let ghost all = snap.all();
    let mut out: Vec<PortSite<'a>> = Vec::new();
    let mut i: usize = 0;
    assert(site_views(out@) =~= Seq::<Site>::empty());
    while i < devs.len()
        invariant
            i <= devs.len(),
            all == pointees(devs@),
            site_views(out@) == gathered(all.take(i as int), sites_of()),
            forall|k: int| 0 <= k < out.len() ==> (#[trigger] out[k]).port.location is Some,
        decreases devs.len() - i,
    {
        proof {
            lemma_take_more(all, i as int);
        }
        let hub: &'a UsbDevice = devs[i];
        let ghost sofar = site_views(out@);
        assert(all[i as int] == *hub);
        if let Some(s) = &hub.speed {
            let rate = s.mbps;
            let ghost f = located(*hub, rate);
            let mut k: usize = 0;
            assert(sofar + gathered(hub.ports@.take(0), f) =~= sofar);
            while k < hub.ports.len()
                invariant
                    k <= hub.ports.len(),
                    f == located(*hub, rate),
                    site_views(out@) == sofar + gathered(hub.ports@.take(k as int), f),
                    forall|k: int|
                        0 <= k < out.len() ==> (#[trigger] out[k]).port.location is Some,
                decreases hub.ports.len() - k,
            {
                proof {
                    lemma_take_more(hub.ports@, k as int);
                }
                let ghost here = site_views(out@);
                if hub.ports[k].location.is_some() {
                    push_site(&mut out, PortSite { hub, port: &hub.ports[k], rate });
                }
                assert(site_views(out@) =~= here + f(hub.ports@[k as int]));
                assert(site_views(out@) =~= sofar + gathered(hub.ports@.take(k + 1), f));
                k += 1;
            }
            proof {
                lemma_take_all(hub.ports@);
            }
        } else {
            assert(site_views(out@) =~= sofar + sites_of()(*hub));
        }
        i += 1;
    }
    proof {
        lemma_take_all(all);
    }
    out
}

fn find_locations(found: &Vec<PortSite>) -> (r: Vec<String>)
    requires
        forall|i: int| 0 <= i < found.len() ==> (#[trigger] found[i]).port.location is Some,
    ensures
        texts(r@) == in_order(locations(site_views(found@))),
{
    let ghost all = locations(site_views(found@));
    let mut out = no_texts();
    let mut i: usize = 0;
    while i < found.len()
        invariant
            i <= found.len(),
            all == locations(site_views(found@)),
            forall|i: int| 0 <= i < found.len() ==> (#[trigger] found[i]).port.location is Some,
            texts(out@) == in_order(all.take(i as int)),
        decreases found.len() - i,
    {
        proof {
            lemma_take_more(all, i as int);
            assert(all[i as int] == found@[i as int].port.location->0@);
        }
        if let Some(loc) = &found[i].port.location {
            put_text(&mut out, loc.clone());
        }
        i += 1;
    }
    proof {
        lemma_take_all(all);
    }
    out
}

/// The socket at one location.
fn find_socket<'a>(found: &Vec<PortSite<'a>>, loc: &str) -> (r: Option<Receptacle<'a>>)
    requires
        forall|i: int| 0 <= i < found.len() ==> (#[trigger] found[i]).port.location is Some,
    ensures
        socket_at(site_views(found@))(loc@) == (match r {
            Some(x) => seq![x@],
            None => Seq::empty(),
        }),
{
    let ghost all = site_views(found@);
    let ghost p = at_location(loc@);
    let mut count: usize = 0;
    let mut slow: Option<usize> = None;
    let mut fast: Option<usize> = None;
    let mut i: usize = 0;
    while i < found.len()
        invariant
            i <= found.len(),
            count <= i,
            all == site_views(found@),
            p == at_location(loc@),
            forall|i: int| 0 <= i < found.len() ==> (#[trigger] found[i]).port.location is Some,
            count == kept(all.take(i as int), p).len(),
            first_of(kept(all.take(i as int), p), is_slow()) == (match slow {
                Some(k) => Some(all[k as int]),
                None => None,
            }),
            first_of(kept(all.take(i as int), p), is_fast()) == (match fast {
                Some(k) => Some(all[k as int]),
                None => None,
            }),
            slow matches Some(k) ==> k < found.len() && location_of(all[k as int]) == loc@,
            fast matches Some(k) ==> k < found.len() && location_of(all[k as int]) == loc@,
        decreases found.len() - i,
    {
        proof {
            lemma_take_more(all, i as int);
            assert(all[i as int] == found@[i as int]@);
            let g = kept(all.take(i as int), p);
            assert(g.push(all[i as int]).drop_last() =~= g);
        }
        let here = is_text(&found[i].port.location, loc);
        if here {
            count += 1;
            let m: u64 = found[i].rate.micros;
            if m <= 480_000_000 {
                if slow.is_none() {
                    slow = Some(i);
                }
            } else if m >= 5_000_000_000 {
                if fast.is_none() {
                    fast = Some(i);
                }
            }
        }
        i += 1;
    }
    proof {
        lemma_take_all(all);
    }
    if count != 2 {
        return None;
    }
    match (slow, fast) {
        (Some(a), Some(b)) => {
            let s = &found[a];
            let f = &found[b];
            assert(all[a as int] == found@[a as int]@);
            assert(all[b as int] == found@[b as int]@);
            let hub_a: &'a UsbDevice = s.hub;
            let port_a: &'a HubPort = s.port;
            let hub_b: &'a UsbDevice = f.hub;
            let port_b: &'a HubPort = f.port;
            match &port_a.location {
                Some(location) => {
                    let r = Receptacle {
                        location,
                        slow: PortSite { hub: hub_a, port: port_a, rate: s.rate },
                        fast: PortSite { hub: hub_b, port: port_b, rate: f.rate },
                    };
                    Some(r)
                },
                None => None,
            }
        },
        _ => None,
    }
}

/// Group downstream ports into physical receptacles.
pub fn receptacles<'a>(snap: &'a Snapshot) -> (r: Vec<Receptacle<'a>>)
    ensures
        socket_views(r@) == sockets(*snap),
{
    let found = find_sites(snap);
    let locs = find_locations(&found);
    let ghost all = in_order(locations(sites(*snap)));
    let ghost f = socket_at(sites(*snap));
    let mut out: Vec<Receptacle<'a>> = Vec::new();
    let mut i: usize = 0;
    assert(socket_views(out@) =~= Seq::<Socket>::empty());
    while i < locs.len()
        invariant
            i <= locs.len(),
            all == texts(locs@),
            site_views(found@) == sites(*snap),
            forall|i: int| 0 <= i < found.len() ==> (#[trigger] found[i]).port.location is Some,
            f == socket_at(sites(*snap)),
            socket_views(out@) == gathered(all.take(i as int), f),
        decreases locs.len() - i,
    {
        proof {
            lemma_take_more(all, i as int);
            assert(all[i as int] == locs@[i as int]@);
        }
        let ghost sofar = socket_views(out@);
        if let Some(x) = find_socket(&found, locs[i].as_str()) {
            out.push(x);
            assert(socket_views(out@) =~= sofar + seq![x@]);
        } else {
            assert(socket_views(out@) =~= sofar + f(all[i as int]));
        }
        i += 1;
    }
    proof {
        lemma_take_all(all);
    }
    out
}

impl Socket {
    /// Where the socket physically is, in words.
    pub open spec fn place(self) -> Seq<char> {
        match self.slow.port.physical_location {
            Some(l) => l.short(),
            None => filled(AT_LOCATION@, seq![self.location]),
        }
    }
}

impl<'a> Receptacle<'a> {
    /// Human description of where the socket physically is.
    pub fn where_is(&self) -> (r: String)
        ensures
            r@ == self@.place(),
    {
        match &self.slow.port.physical_location {
            Some(l) => l.display(),
            None => fill1(AT_LOCATION, self.location.as_str()),
        }
    }
}

// ---------------------------------------------------------------------------
// SuperSpeed errors
// ---------------------------------------------------------------------------

/// Whether an event says that a SuperSpeed link failed to come up on a bus.
pub open spec fn ss_error_on(hub: Seq<char>) -> spec_fn(KernelEvent) -> bool {
    |e: KernelEvent|
        (e.kind == EventKind::LinkTrainingFailure || e.kind == EventKind::CableSuspect || e.kind
            == EventKind::EnumerationFailure) && e.on_bus() == Some(hub)
}

pub open spec fn ss_errors(snap: Snapshot, hub: Seq<char>) -> Seq<KernelEvent> {
    kept(snap.kernel_log.events@, ss_error_on(hub))
}

fn is_on_bus(e: &KernelEvent, hub: &str) -> (r: bool)
    ensures
        r == (e.on_bus() == Some(hub@)),
{
    let b = e.bus();
    is_text(&b, hub)
}

pub fn ss_errors_on<'a>(snap: &'a Snapshot, hub_name: &str) -> (r: Vec<&'a KernelEvent>)
    ensures
        pointees(r@) == ss_errors(*snap, hub_name@),
{
    let events = &snap.kernel_log.events;
    let mut out = no_refs();
    let mut i: usize = 0;
    while i < events.len()
        invariant
            i <= events.len(),
            events@ == snap.kernel_log.events@,
            pointees(out@) == kept(events@.take(i as int), ss_error_on(hub_name@)),
        decreases events.len() - i,
    {
        proof {
            lemma_take_more(events@, i as int);
        }
        let k = events[i].kind;
        if (k == EventKind::LinkTrainingFailure || k == EventKind::CableSuspect || k
            == EventKind::EnumerationFailure) && is_on_bus(&events[i], hub_name) {
            push_ref(&mut out, &events[i]);
        }
        i += 1;
    }
    proof {
        lemma_take_all(events@);
    }
    out
}

// ---------------------------------------------------------------------------
// an idle SuperSpeed half
// ---------------------------------------------------------------------------

/// The storage device stranded on the slow half: the fast half is empty and its
/// bus is quiet. A USB 2.0 keyboard in such a socket is normal, so only storage
/// counts.
pub open spec fn stranded(snap: Snapshot, s: Socket) -> Option<UsbDevice> {
    match (s.slow.port.child, s.fast.port.child) {
        (Some(c), None) => match snap.named(c@) {
            Some(d) => if ss_errors(snap, s.fast.hub.sysfs_name@).len() == 0
                && d.identified().basis() == Some(DeviceKind::Storage) {
                Some(d)
            } else {
                None
            },
            None => None,
        },
        _ => None,
    }
}

pub open spec fn idle_evidence(s: Socket, dev: UsbDevice) -> Seq<Seq<char>> {
    let base = seq![
        filled(
            IDLE_SLOW_LINE@,
            seq![s.slow.port.name@, brief_rate(s.slow.rate), s.slow.port.child->0@],
        ),
        filled(IDLE_FAST_LINE@, seq![s.fast.port.name@, brief_rate(s.fast.rate), s.location]),
        filled(IDLE_VERSION_LINE@, seq![text_or(dev.usb_version, "?"@)]),
    ];
    let placed = match s.slow.port.physical_location {
        Some(l) => base.push(filled(LOCATION_LINE@, seq![l.short()])),
        None => base,
    };
    with_kind_cited(placed, dev)
}

/// A drive on the USB 2.0 half of a socket whose SuperSpeed half is idle.
pub open spec fn half_idle(snap: Snapshot) -> spec_fn(Socket) -> Seq<Statement> {
    |s: Socket|
        match stranded(snap, s) {
            Some(dev) => seq![
                Statement {
                    code: "SS_HALF_IDLE"@,
                    severity: Severity::Medium,
                    confidence: dev.identified().capped(Confidence::Heuristic),
                    subject: About::Device(dev.sysfs_name@),
                    title: filled(IDLE_TITLE@, seq![dev.called()]),
                    detail: IDLE_DETAIL@,
                    evidence: idle_evidence(s, dev),
                    suggestion: Some(IDLE_ADVICE@),
                },
            ],
            None => Seq::empty(),
        }
}

fn find_half_idle(snap: &Snapshot, rec: &Receptacle) -> (r: Option<Finding>)
    ensures
        one(stated_opt(r)) == half_idle(*snap)(rec@),
{
    if rec.fast.port.child.is_some() {
        return None;
    }
    let child = match &rec.slow.port.child {
        Some(c) => c,
        None => {
            return None;
        },
    };
    let dev = match snap.device(child.as_str()) {
        Some(d) => d,
        None => {
            return None;
        },
    };
    let errors = ss_errors_on(snap, rec.fast.hub.sysfs_name.as_str());
    assert(pointees(errors@).len() == errors@.len());
    if errors.len() > 0 {
        return None;
    }
    match dev.kind().grounds() {
        Some(k) => {
            if k != DeviceKind::Storage {
                return None;
            }
        },
        None => {
            return None;
        },
    }
    let a = brief_rate_text(rec.slow.rate);
    let b = brief_rate_text(rec.fast.rate);
    let mut evidence = lines3(
        fill3(IDLE_SLOW_LINE, rec.slow.port.name.as_str(), a.as_str(), child.as_str()),
        fill3(IDLE_FAST_LINE, rec.fast.port.name.as_str(), b.as_str(), rec.location.as_str()),
        fill1(IDLE_VERSION_LINE, or_text(&dev.usb_version, "?")),
    );
    if let Some(l) = &rec.slow.port.physical_location {
        let place = l.display();
        push_text(&mut evidence, fill1(LOCATION_LINE, place.as_str()));
    }
    cite_kind(&mut evidence, dev);
    let name = dev.label();
    Some(
        finding(
            "SS_HALF_IDLE",
            Severity::Medium,
            dev.kind().cap(Confidence::Heuristic),
            Subject::Device(dev.sysfs_name.clone()),
            fill1(IDLE_TITLE, name.as_str()),
            owned(IDLE_DETAIL),
            evidence,
            some_text(IDLE_ADVICE),
        ),
    )
}

pub fn ss_half_idle_rules(snap: &Snapshot) -> (r: Vec<Finding>)
    ensures
        stated(r@) == gathered(sockets(*snap), half_idle(*snap)),
{
    let recs = receptacles(snap);
    let ghost all = sockets(*snap);
    let mut out = nothing();
    let mut i: usize = 0;
    while i < recs.len()
        invariant
            i <= recs.len(),
            all == socket_views(recs@),
            stated(out@) == gathered(all.take(i as int), half_idle(*snap)),
        decreases recs.len() - i,
    {
        proof {
            lemma_take_more(all, i as int);
            assert(all[i as int] == recs@[i as int]@);
        }
        note(&mut out, find_half_idle(snap, &recs[i]));
        i += 1;
    }
    proof {
        lemma_take_all(all);
    }
    out
}

// ---------------------------------------------------------------------------
// a failing SuperSpeed half
// ---------------------------------------------------------------------------

/// The device on the slow half.
pub open spec fn occupant(snap: Snapshot, s: Socket) -> Option<UsbDevice> {
    match s.slow.port.child {
        Some(c) => snap.named(c@),
        None => None,
    }
}

/// The device on the fast half, if it came back.
pub open spec fn up_now(snap: Snapshot, s: Socket) -> Option<UsbDevice> {
    match s.fast.port.child {
        Some(c) => snap.named(c@),
        None => None,
    }
}

/// Whether an event is a SuperSpeed link training on a bus since a device
/// attached. Without both times it counts.
pub open spec fn trained_since(
    hub: Seq<char>,
    attached: Option<Double>,
) -> spec_fn(KernelEvent) -> bool {
    |e: KernelEvent|
        e.trained() && e.on_bus() == Some(hub) && (match (attached, e.monotonic_s) {
            (Some(a), Some(t)) => t.at_least(a),
            _ => true,
        })
}

pub open spec fn attach_time(snap: Snapshot, dev: UsbDevice) -> Option<Double> {
    match snap.uptime_s {
        Some(u) => dev.attached_at(u),
        None => None,
    }
}

/// The SuperSpeed half trained at least once since the device attached: the
/// wiring is there and will not hold, rather than being absent.
pub open spec fn did_train(snap: Snapshot, s: Socket, dev: UsbDevice) -> bool {
    first_of(
        snap.kernel_log.events@,
        trained_since(s.fast.hub.sysfs_name@, attach_time(snap, dev)),
    ) is Some
}

fn find_did_train(snap: &Snapshot, hub: &str, dev: &UsbDevice) -> (r: bool)
    ensures
        r == (first_of(
            snap.kernel_log.events@,
            trained_since(hub@, attach_time(*snap, *dev)),
        ) is Some),
{
    let attached = match snap.uptime_s {
        Some(u) => dev.attached_at_s(u),
        None => None,
    };
    let events = &snap.kernel_log.events;
    let ghost p = trained_since(hub@, attached);
    let mut i: usize = 0;
    while i < events.len()
        invariant
            i <= events.len(),
            events@ == snap.kernel_log.events@,
            attached == attach_time(*snap, *dev),
            p == trained_since(hub@, attached),
            first_of(events@.take(i as int), p) is None,
        decreases events.len() - i,
    {
        proof {
            lemma_take_more(events@, i as int);
        }
        let e = &events[i];
        let dated = match (attached, e.monotonic_s) {
            (Some(a), Some(t)) => t.is_at_least(&a),
            _ => true,
        };
        if dated && e.is_superspeed_train() && is_on_bus(e, hub) {
            proof {
                crate::snapshot::lemma_first_stays(events@, i + 1, p);
            }
            return true;
        }
        i += 1;
    }
    proof {
        lemma_take_all(events@);
    }
    false
}

/// An error with its errno in plain language.
pub open spec fn explained() -> spec_fn(KernelEvent) -> Seq<char> {
    |e: KernelEvent|
        match e.errno {
            Some(n) => match meaning_of(n) {
                Some(m) => filled(ERRNO_LINE@, seq![e.text@, m]),
                None => e.text@,
            },
            None => e.text@,
        }
}

pub fn newest_explained(events: &Vec<&KernelEvent>, n: usize) -> (r: Vec<String>)
    ensures
        texts(r@) == newest_by(pointees(events@), n as nat, explained()),
{
    let ghost all = pointees(events@);
    let ghost f = explained();
    let mut out = no_texts();
    let mut i: usize = events.len();
    let mut left: usize = n;
    proof {
        lemma_take_all(all);
        assert(texts(out@) + newest_by(all, n as nat, f) =~= newest_by(all, n as nat, f));
    }
    while i > 0 && left > 0
        invariant
            i <= events.len(),
            all == pointees(events@),
            f == explained(),
            texts(out@) + newest_by(all.take(i as int), left as nat, f) == newest_by(
                all,
                n as nat,
                f,
            ),
        decreases i,
    {
        let ghost sofar = texts(out@);
        proof {
            lemma_newest(all, i as int, left as nat, f);
            assert(all[i - 1] == *events@[i - 1]);
        }
        let e = events[i - 1];
        let meaning: Option<&'static str> = match e.errno {
            Some(n) => errno_meaning(n),
            None => None,
        };
        let line = match meaning {
            Some(m) => fill2(ERRNO_LINE, e.text.as_str(), m),
            None => e.text.clone(),
        };
        push_text(&mut out, line);
        proof {
            let rest = newest_by(all.take(i - 1), (left - 1) as nat, f);
            assert(texts(out@) + rest =~= sofar + (seq![f(all[i - 1])] + rest));
        }
        i -= 1;
        left -= 1;
    }
    assert(texts(out@) + newest_by(all.take(i as int), left as nat, f) =~= texts(out@));
    out
}

pub open spec fn rate_or_unknown(d: UsbDevice) -> Seq<char> {
    match d.speed {
        Some(s) => s.brief(),
        None => "?"@,
    }
}

fn rate_or_question(d: &UsbDevice) -> (r: String)
    ensures
        r@ == rate_or_unknown(*d),
{
    match &d.speed {
        Some(s) => s.short(),
        None => owned("?"),
    }
}

pub open spec fn training_words(trained: bool) -> Seq<char> {
    if trained {
        TRAINED@
    } else {
        NEVER_TRAINED@
    }
}

/// What is known of one failing half.
pub struct Failure {
    pub dev: UsbDevice,
    /// Errors since the device attached.
    pub errors: Seq<KernelEvent>,
    /// How many older ones were set aside.
    pub excluded: nat,
    pub trained: bool,
    pub up: Option<UsbDevice>,
}

/// The failure at a socket: its slow half is occupied and its fast half has
/// errors that do not predate the occupant.
pub open spec fn failure(snap: Snapshot, s: Socket) -> Option<Failure> {
    let all = ss_errors(snap, s.fast.hub.sysfs_name@);
    match occupant(snap, s) {
        Some(dev) => {
            let errors = snap.since_attach(all, dev);
            if errors.len() > 0 {
                Some(
                    Failure {
                        dev,
                        errors,
                        excluded: (all.len() - errors.len()) as nat,
                        trained: did_train(snap, s, dev),
                        up: up_now(snap, s),
                    },
                )
            } else {
                None
            }
        },
        None => None,
    }
}

pub open spec fn failed_evidence(s: Socket, f: Failure) -> Seq<Seq<char>> {
    let base = seq![
        filled(ERRORS_LINE@, seq![s.fast.port.name@, dec(f.errors.len())]),
        filled(
            COMPANION_LINE@,
            seq![s.slow.port.name@, f.dev.called(), rate_or_unknown(f.dev)],
        ),
        filled(TRAINED_LINE@, seq![training_words(f.trained)]),
    ];
    let gave_up = if opt_text(s.fast.port.state) == Some("not attached"@) {
        base.push(filled(GAVE_UP_LINE@, seq![s.fast.port.name@]))
    } else {
        base
    };
    let aside = if f.excluded > 0 {
        gave_up.push(filled(EXCLUDED_LINE@, seq![dec(f.excluded)]))
    } else {
        gave_up
    };
    let errors = aside + newest_by(f.errors, 3, explained());
    match f.up {
        Some(d) => errors.push(
            filled(UP_NOW_LINE@, seq![d.sysfs_name@, d.called(), rate_or_unknown(d)]),
        ),
        None => errors,
    }
}

pub open spec fn cause_words(trained: bool) -> Seq<char> {
    if trained {
        DEFECTIVE@
    } else {
        UNWIRED@
    }
}

pub open spec fn cause_detail(trained: bool) -> Seq<char> {
    if trained {
        DEFECTIVE_DETAIL@
    } else {
        UNWIRED_DETAIL@
    }
}

/// A SuperSpeed half that is failing. Trained and then failed points at a
/// defect; never trained points at absent wiring. The tense is honest where the
/// half is up again.
pub open spec fn failed_statement(s: Socket, f: Failure) -> Statement {
    Statement {
        code: "SS_HALF_FAILED"@,
        severity: Severity::High,
        confidence: Confidence::Inferred,
        subject: About::Cable(s.place()),
        title: match f.up {
            Some(_) => filled(UP_NOW_TITLE@, seq![s.place(), dec(f.errors.len())]),
            None => filled(FAILED_TITLE@, seq![s.place(), cause_words(f.trained)]),
        },
        detail: match f.up {
            Some(_) => filled(UP_NOW_DETAIL@, seq![cause_detail(f.trained)]) + SUPERSEDES@,
            None => cause_detail(f.trained) + SUPERSEDES@,
        },
        evidence: failed_evidence(s, f),
        suggestion: Some(
            if f.trained {
                DEFECTIVE_ADVICE@
            } else {
                UNWIRED_ADVICE@
            },
        ),
    }
}

pub open spec fn half_failed(snap: Snapshot) -> spec_fn(Socket) -> Seq<Statement> {
    |s: Socket|
        match failure(snap, s) {
            Some(f) => seq![failed_statement(s, f)],
            None => Seq::empty(),
        }
}

/// The bus whose narrower findings a failure covers.
pub open spec fn covered_bus(snap: Snapshot) -> spec_fn(Socket) -> Seq<Seq<char>> {
    |s: Socket|
        match failure(snap, s) {
            Some(f) => seq![s.fast.hub.sysfs_name@],
            None => Seq::empty(),
        }
}

/// Every bus that a failure covers.
pub open spec fn covered(snap: Snapshot) -> Seq<Seq<char>> {
    gathered(sockets(snap), covered_bus(snap))
}

fn state_failed(
    rec: &Receptacle,
    dev: &UsbDevice,
    errors: &Vec<&KernelEvent>,
    excluded: usize,
    trained: bool,
    up: Option<&UsbDevice>,
) -> (r: Finding)
    ensures
        r@ == failed_statement(
            rec@,
            Failure {
                dev: *dev,
                errors: pointees(errors@),
                excluded: excluded as nat,
                trained,
                up: pointee(up),
            },
        ),
{
    assert(pointees(errors@).len() == errors@.len());
    let n = number(errors.len() as u64);
    let name = dev.label();
    let rate = rate_or_question(dev);
    let mut evidence = lines3(
        fill2(ERRORS_LINE, rec.fast.port.name.as_str(), n.as_str()),
        fill3(COMPANION_LINE, rec.slow.port.name.as_str(), name.as_str(), rate.as_str()),
        fill1(
            TRAINED_LINE,
            if trained {
                TRAINED
            } else {
                NEVER_TRAINED
            },
        ),
    );
    if is_text(&rec.fast.port.state, "not attached") {
        push_text(&mut evidence, fill1(GAVE_UP_LINE, rec.fast.port.name.as_str()));
    }
    if excluded > 0 {
        let x = number(excluded as u64);
        push_text(&mut evidence, fill1(EXCLUDED_LINE, x.as_str()));
    }
    let mut recent = newest_explained(errors, 3);
    let ghost a = texts(evidence@);
    let ghost b = texts(recent@);
    evidence.append(&mut recent);
    assert(texts(evidence@) =~= a + b);
    let place = rec.where_is();
    let cause = if trained {
        DEFECTIVE_DETAIL
    } else {
        UNWIRED_DETAIL
    };
    let advice = if trained {
        DEFECTIVE_ADVICE
    } else {
        UNWIRED_ADVICE
    };
    match up {
        Some(d) => {
            let label = d.label();
            let at = rate_or_question(d);
            push_text(
                &mut evidence,
                fill3(UP_NOW_LINE, d.sysfs_name.as_str(), label.as_str(), at.as_str()),
            );
            let detail = fill1(UP_NOW_DETAIL, cause);
            finding(
                "SS_HALF_FAILED",
                Severity::High,
                Confidence::Inferred,
                Subject::Cable(rec.where_is()),
                fill2(UP_NOW_TITLE, place.as_str(), n.as_str()),
                cat(detail.as_str(), SUPERSEDES),
                evidence,
                some_text(advice),
            )
        },
        None => {
            let why = if trained {
                DEFECTIVE
            } else {
                UNWIRED
            };
            finding(
                "SS_HALF_FAILED",
                Severity::High,
                Confidence::Inferred,
                Subject::Cable(rec.where_is()),
                fill2(FAILED_TITLE, place.as_str(), why),
                cat(cause, SUPERSEDES),
                evidence,
                some_text(advice),
            )
        },
    }
}

fn find_half_failed(snap: &Snapshot, rec: &Receptacle) -> (r: Option<Finding>)
    ensures
        one(stated_opt(r)) == half_failed(*snap)(rec@),
        r is Some <==> failure(*snap, rec@) is Some,
{
    let child = match &rec.slow.port.child {
        Some(c) => c,
        None => {
            return None;
        },
    };
    let dev = match snap.device(child.as_str()) {
        Some(d) => d,
        None => {
            return None;
        },
    };
    let all = ss_errors_on(snap, rec.fast.hub.sysfs_name.as_str());
    let ghost everything = pointees(all@);
    assert(everything.len() == all@.len());
    let (errors, excluded) = snap.filter_since_attach(all, dev);
    assert(pointees(errors@).len() == errors@.len());
    if errors.len() == 0 {
        return None;
    }
    let trained = find_did_train(snap, rec.fast.hub.sysfs_name.as_str(), dev);
    let up = match &rec.fast.port.child {
        Some(c) => snap.device(c.as_str()),
        None => None,
    };
    Some(state_failed(rec, dev, &errors, excluded, trained, up))
}

/// The failing sockets, and the buses they cover.
pub fn ss_half_failed_rules(snap: &Snapshot) -> (r: (Vec<Finding>, Vec<String>))
    ensures
        stated(r.0@) == gathered(sockets(*snap), half_failed(*snap)),
        texts(r.1@) == covered(*snap),
{
    let recs = receptacles(snap);
    let ghost all = sockets(*snap);
    let mut out = nothing();
    let mut buses = no_texts();
    let mut i: usize = 0;
    while i < recs.len()
        invariant
            i <= recs.len(),
            all == socket_views(recs@),
            stated(out@) == gathered(all.take(i as int), half_failed(*snap)),
            texts(buses@) == gathered(all.take(i as int), covered_bus(*snap)),
        decreases recs.len() - i,
    {
        proof {
            lemma_take_more(all, i as int);
            assert(all[i as int] == recs@[i as int]@);
        }
        let f = find_half_failed(snap, &recs[i]);
        let ghost before = texts(buses@);
        if f.is_some() {
            push_text(&mut buses, recs[i].fast.hub.sysfs_name.clone());
        }
        assert(texts(buses@) =~= before + covered_bus(*snap)(all[i as int]));
        note(&mut out, f);
        i += 1;
    }
    proof {
        lemma_take_all(all);
    }
    (out, buses)
}

// ---------------------------------------------------------------------------
// laws
// ---------------------------------------------------------------------------

/// A socket is never called both idle and failing: an idle half has no errors
/// at all, and a failing one has some.
pub proof fn idle_and_failed_exclude_each_other(snap: Snapshot, s: Socket)
    ensures
        half_idle(snap)(s).len() == 0 || half_failed(snap)(s).len() == 0,
{
    let all = ss_errors(snap, s.fast.hub.sysfs_name@);
    if let Some(dev) = occupant(snap, s) {
        if let Some(u) = snap.uptime_s {
            if let Some(a) = dev.attached_at(u) {
                crate::seqs::lemma_kept(all, crate::snapshot::not_before(a));
            }
        }
    }
}

/// An empty socket is neither idle nor failing, whatever the log still holds.
pub proof fn an_empty_socket_says_nothing(snap: Snapshot, s: Socket)
    requires
        s.slow.port.child is None,
    ensures
        half_idle(snap)(s).len() == 0,
        half_failed(snap)(s).len() == 0,
{
}

/// Errors from before the current occupant attached are not charged to it.
pub proof fn older_errors_are_not_charged(snap: Snapshot, s: Socket, uptime: Double)
    requires
        snap.uptime_s == Some(uptime),
        occupant(snap, s) matches Some(d) && d.attached_at(uptime) is Some,
        forall|e: KernelEvent|
            #[trigger] ss_errors(snap, s.fast.hub.sysfs_name@).contains(e) ==> e.monotonic_s is Some
                && !e.monotonic_s->0.at_least(occupant(snap, s)->0.attached_at(uptime)->0),
    ensures
        half_failed(snap)(s).len() == 0,
{
    let all = ss_errors(snap, s.fast.hub.sysfs_name@);
    let at = occupant(snap, s)->0.attached_at(uptime)->0;
    let left = kept(all, crate::snapshot::not_before(at));
    crate::seqs::lemma_kept(all, crate::snapshot::not_before(at));
    if left.len() > 0 {
        assert(left.contains(left[0]));
    }
}

/// Both halves of a socket carry its location, the slow one at USB 2.0 rates
/// and the fast one at SuperSpeed rates.
pub proof fn sockets_have_two_halves(all: Seq<Site>, loc: Seq<char>)
    ensures
        socket_at(all)(loc).len() <= 1,
        socket_at(all)(loc).len() == 1 ==> {
            let s = socket_at(all)(loc)[0];
            &&& kept(all, at_location(loc)).len() == 2
            &&& location_of(s.slow) == loc
            &&& location_of(s.fast) == loc
            &&& s.slow.rate.micros <= 480_000_000
            &&& s.fast.rate.micros >= 5_000_000_000
        },
{
    let g = kept(all, at_location(loc));
    crate::seqs::lemma_first_of(g, is_slow());
    crate::seqs::lemma_first_of(g, is_fast());
    crate::seqs::lemma_kept(all, at_location(loc));
    if socket_at(all)(loc).len() == 1 {
        let s = socket_at(all)(loc)[0];
        assert(g.contains(s.slow));
        assert(g.contains(s.fast));
    }
}

} // verus!
