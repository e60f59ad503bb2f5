//! Rules about devices that appear only in the kernel log: they tried to attach
//! and never got as far as existing.

use vstd::prelude::*;
use crate::diag::host::{newest_by, of_kind, pick_of};
use crate::diag::receptacle::{
    explained, newest_explained, receptacles, socket_views, sockets, Receptacle, Socket,
};
use crate::diag::{finding, lines1, note, nothing, one, some_text, stated, stated_opt};
use crate::model::{
    bus_of, owning_bus, About, Confidence, EventKind, Finding, KernelEvent, Severity, Snapshot,
    Statement, Subject, UsbDevice,
};
use crate::number::{dec, number};
use crate::seqs::{
    first_of, gathered, kept, lemma_take_all, lemma_take_more, no_refs, pointee, pointees, push_ref,
};
use crate::snapshot::{existing_above, lemma_first_stays};
use crate::text::{
    fill1, fill2, filled, in_order, is_text, no_texts, opt_text, owned, push_text, put_text, texts,
};

verus! {

pub const BESIDE: &'static str =
    "the SuperSpeed half of the {} socket, whose USB 2.0 half is running {}";

pub const HALF_OF: &'static str = "the SuperSpeed half of the {} socket";

pub const ABSENT_LINE: &'static str =
    "{} appears in the kernel log but not in sysfs — it never finished enumerating";

pub const THIS_IS_LINE: &'static str = "this is {}";

pub const COUNT_LINE: &'static str = "{} relevant event(s)";

pub const OLDER_LINE: &'static str =
    "{} older event(s) excluded — they predate the device now on this socket";

pub const SOCKET_TITLE: &'static str =
    "{} never enumerated on the SuperSpeed half of the {} socket";

pub const PLAIN_TITLE: &'static str = "{} tried to attach and never enumerated";

pub const CABLE_DETAIL: &'static str =
    "The hub driver could not enable the port and logged its bad-cable warning. The device \
        is not merely degraded — it is absent, so nothing behind it is usable.";

pub const ENUM_DETAIL: &'static str =
    "Descriptor reads failed or the device never accepted an address, so it does not exist \
        as far as the rest of the system is concerned. Signal integrity, insufficient power, \
        and failing device hardware all produce this.";

pub const ADVICE: &'static str =
    "Reseat the connection and try a different cable and port. If the device is behind a \
        hub, test it directly on the machine to tell the two apart.";

/// Whether an event is a failure to come up of a device that is not in the tree.
pub open spec fn is_phantom(snap: Snapshot) -> spec_fn(KernelEvent) -> bool {
    |e: KernelEvent|
        e.device is Some && snap.named(e.device->0@) is None && (e.kind
            == EventKind::EnumerationFailure || e.kind == EventKind::LinkTrainingFailure || e.kind
            == EventKind::CableSuspect)
}

/// Every such event.
pub open spec fn phantom_events(snap: Snapshot) -> Seq<KernelEvent> {
    kept(snap.kernel_log.events@, is_phantom(snap))
}

pub open spec fn devices_named(s: Seq<KernelEvent>) -> Seq<Seq<char>> {
    Seq::new(s.len(), |i: int| s[i].device->0@)
}

pub open spec fn concerns(name: Seq<char>) -> spec_fn(KernelEvent) -> bool {
    |e: KernelEvent| opt_text(e.device) == Some(name)
}

pub open spec fn fast_on(bus: Option<Seq<char>>) -> spec_fn(Socket) -> bool {
    |s: Socket| Some(s.fast.hub.sysfs_name@) == bus
}

/// The socket whose fast half is on the phantom's bus.
pub open spec fn socket_for(snap: Snapshot, name: Seq<char>) -> Option<Socket> {
    first_of(sockets(snap), fast_on(owning_bus(name)))
}

/// The device on the slow half of that socket.
pub open spec fn sibling(snap: Snapshot, socket: Option<Socket>) -> Option<UsbDevice> {
    match socket {
        Some(s) => match s.slow.port.child {
            Some(c) => snap.named(c@),
            None => None,
        },
        None => None,
    }
}

/// Events no older than a device, where there is one to date them by.
pub open spec fn dated_by(snap: Snapshot, events: Seq<KernelEvent>, d: Option<UsbDevice>) -> Seq<
    KernelEvent,
> {
    match d {
        Some(x) => snap.since_attach(events, x),
        None => events,
    }
}

/// What is left of a phantom's events once those are set aside that predate the
/// socket's occupant, or the nearest thing above the phantom that still exists.
pub open spec fn current_events(snap: Snapshot, name: Seq<char>) -> Seq<KernelEvent> {
    let all = kept(phantom_events(snap), concerns(name));
    let by_sibling = dated_by(snap, all, sibling(snap, socket_for(snap, name)));
    dated_by(snap, by_sibling, existing_above(snap.all(), name))
}

pub open spec fn context_words(snap: Snapshot, s: Socket) -> Seq<char> {
    match sibling(snap, Some(s)) {
        Some(d) => filled(BESIDE@, seq![s.place(), d.called()]),
        None => filled(HALF_OF@, seq![s.place()]),
    }
}

/// The worst thing said is the kernel's own cable warning.
pub open spec fn cable_is_worst(events: Seq<KernelEvent>) -> bool {
    kept(events, of_kind(EventKind::EnumerationFailure)).len() == 0 && kept(
        events,
        of_kind(EventKind::CableSuspect),
    ).len() > 0
}

pub open spec fn phantom_evidence(
    snap: Snapshot,
    name: Seq<char>,
    events: Seq<KernelEvent>,
    excluded: nat,
) -> Seq<Seq<char>> {
    let base = seq![filled(ABSENT_LINE@, seq![name])];
    let placed = match socket_for(snap, name) {
        Some(s) => base.push(filled(THIS_IS_LINE@, seq![context_words(snap, s)])),
        None => base,
    };
    let counted = placed.push(filled(COUNT_LINE@, seq![dec(events.len())]));
    let aside = if excluded > 0 {
        counted.push(filled(OLDER_LINE@, seq![dec(excluded)]))
    } else {
        counted
    };
    aside + newest_by(events, 3, explained())
}

/// A device that never enumerated.
pub open spec fn phantom(snap: Snapshot) -> spec_fn(Seq<char>) -> Seq<Statement> {
    |name: Seq<char>|
        {
            let events = current_events(snap, name);
            let all = kept(phantom_events(snap), concerns(name));
            if events.len() == 0 {
                Seq::empty()
            } else {
                seq![
                    Statement {
                        code: "DEVICE_FAILED_TO_ENUMERATE"@,
                        severity: Severity::High,
                        confidence: Confidence::Measured,
                        subject: About::Device(name),
                        title: match socket_for(snap, name) {
                            Some(s) => filled(SOCKET_TITLE@, seq![name, s.place()]),
                            None => filled(PLAIN_TITLE@, seq![name]),
                        },
                        detail: if cable_is_worst(events) {
                            CABLE_DETAIL@
                        } else {
                            ENUM_DETAIL@
                        },
                        evidence: phantom_evidence(
                            snap,
                            name,
                            events,
                            (all.len() - events.len()) as nat,
                        ),
                        suggestion: Some(ADVICE@),
                    },
                ]
            }
        }
}

/// The names that appear only in the log, in order.
pub open spec fn phantom_names(snap: Snapshot) -> Seq<Seq<char>> {
    in_order(devices_named(phantom_events(snap)))
}

fn find_phantom_events<'a>(snap: &'a Snapshot) -> (r: Vec<&'a KernelEvent>)
    ensures
        pointees(r@) == phantom_events(*snap),
{
    let events = &snap.kernel_log.events;
    let ghost p = is_phantom(*snap);
    let mut out = no_refs();
    let mut i: usize = 0;
    while i < events.len()
        invariant
            i <= events.len(),
            events@ == snap.kernel_log.events@,
            p == is_phantom(*snap),
            pointees(out@) == kept(events@.take(i as int), p),
        decreases events.len() - i,
    {
        proof {
            lemma_take_more(events@, i as int);
        }
        let k = events[i].kind;
        if k == EventKind::EnumerationFailure || k == EventKind::LinkTrainingFailure || k
            == EventKind::CableSuspect {
            if let Some(name) = &events[i].device {
                if snap.device(name.as_str()).is_none() {
                    push_ref(&mut out, &events[i]);
                }
            }
        }
        i += 1;
    }
    proof {
        lemma_take_all(events@);
    }
    out
}

fn find_names(events: &Vec<&KernelEvent>) -> (r: Vec<String>)
    requires
        forall|i: int| 0 <= i < events.len() ==> (#[trigger] events[i]).device is Some,
    ensures
        texts(r@) == in_order(devices_named(pointees(events@))),
{
    let ghost all = devices_named(pointees(events@));
    let mut out = no_texts();
    let mut i: usize = 0;
    while i < events.len()
        invariant
            i <= events.len(),
            all == devices_named(pointees(events@)),
            forall|i: int| 0 <= i < events.len() ==> (#[trigger] events[i]).device is Some,
            texts(out@) == in_order(all.take(i as int)),
        decreases events.len() - i,
    {
        proof {
            lemma_take_more(all, i as int);
            assert(all[i as int] == events@[i as int].device->0@);
        }
        if let Some(name) = &events[i].device {
            put_text(&mut out, name.clone());
        }
        i += 1;
    }
    proof {
        lemma_take_all(all);
    }
    out
}

fn pick_concerning<'a>(events: &Vec<&'a KernelEvent>, name: &str) -> (r: Vec<&'a KernelEvent>)
    ensures
        pointees(r@) == kept(pointees(events@), concerns(name@)),
{
    let ghost all = pointees(events@);
    let mut out = no_refs();
    let mut i: usize = 0;
    while i < events.len()
        invariant
            i <= events.len(),
            all == pointees(events@),
            pointees(out@) == kept(all.take(i as int), concerns(name@)),
        decreases events.len() - i,
    {
        proof {
            lemma_take_more(all, i as int);
        }
        if is_text(&events[i].device, name) {
            push_ref(&mut out, events[i]);
        }
        i += 1;
    }
    proof {
        lemma_take_all(all);
    }
    out
}

fn find_socket_for<'a>(recs: &'a Vec<Receptacle<'a>>, name: &str) -> (r: Option<&'a Receptacle<'a>>)
    ensures
        first_of(socket_views(recs@), fast_on(owning_bus(name@))) == (match r {
            Some(x) => Some(x@),
            None => None,
        }),
{
    let ghost all = socket_views(recs@);
    let ghost p = fast_on(owning_bus(name@));
    let bus = bus_of(name);
    let mut i: usize = 0;
    while i < recs.len()
        invariant
            i <= recs.len(),
            all == socket_views(recs@),
            opt_text(bus) == owning_bus(name@),
            p == fast_on(owning_bus(name@)),
            first_of(all.take(i as int), p) is None,
        decreases recs.len() - i,
    {
        proof {
            lemma_take_more(all, i as int);
            assert(all[i as int] == recs@[i as int]@);
        }
        if is_text(&bus, recs[i].fast.hub.sysfs_name.as_str()) {
            proof {
                lemma_first_stays(all, i + 1, p);
            }
            return Some(&recs[i]);
        }
        i += 1;
    }
    proof {
        lemma_take_all(all);
    }
    None
}

fn find_dated<'a>(snap: &Snapshot, events: Vec<&'a KernelEvent>, d: Option<&UsbDevice>) -> (r: Vec<
    &'a KernelEvent,
>)
    ensures
        pointees(r@) == dated_by(*snap, pointees(events@), pointee(d)),
        r@.len() <= events@.len(),
{
    match d {
        Some(x) => {
            let (left, _) = snap.filter_since_attach(events, x);
            left
        },
        None => events,
    }
}

fn find_phantom<'a>(
    snap: &'a Snapshot,
    recs: &Vec<Receptacle>,
    events: &Vec<&'a KernelEvent>,
    name: &str,
) -> (r: Option<Finding>)
    requires
        socket_views(recs@) == sockets(*snap),
        pointees(events@) == phantom_events(*snap),
    ensures
        one(stated_opt(r)) == phantom(*snap)(name@),
{
    let mine = pick_concerning(events, name);
    let ghost all = pointees(mine@);
    let total: usize = mine.len();
    assert(all.len() == total);
    let socket = find_socket_for(recs, name);
    let beside = match socket {
        Some(r) => match &r.slow.port.child {
            Some(c) => snap.device(c.as_str()),
            None => None,
        },
        None => None,
    };
    let left = find_dated(snap, mine, beside);
    let left = find_dated(snap, left, snap.nearest_existing_ancestor(name));
    assert(pointees(left@).len() == left@.len());
    if left.len() == 0 {
        return None;
    }
    let excluded: usize = total - left.len();
    let mut evidence = lines1(fill1(ABSENT_LINE, name));
    if let Some(r) = socket {
        let place = r.where_is();
        let context = match beside {
            Some(d) => {
                let label = d.label();
                fill2(BESIDE, place.as_str(), label.as_str())
            },
            None => fill1(HALF_OF, place.as_str()),
        };
        push_text(&mut evidence, fill1(THIS_IS_LINE, context.as_str()));
    }
    let n = number(left.len() as u64);
    push_text(&mut evidence, fill1(COUNT_LINE, n.as_str()));
    if excluded > 0 {
        let x = number(excluded as u64);
        push_text(&mut evidence, fill1(OLDER_LINE, x.as_str()));
    }
    let mut recent = newest_explained(&left, 3);
    let ghost a = texts(evidence@);
    let ghost b = texts(recent@);
    evidence.append(&mut recent);
    assert(texts(evidence@) =~= a + b);
    let title = match socket {
        Some(r) => {
            let place = r.where_is();
            fill2(SOCKET_TITLE, name, place.as_str())
        },
        None => fill1(PLAIN_TITLE, name),
    };
    let enums = pick_of(&left, EventKind::EnumerationFailure);
    let cables = pick_of(&left, EventKind::CableSuspect);
    assert(pointees(enums@).len() == enums@.len());
    assert(pointees(cables@).len() == cables@.len());
    let detail = if enums.len() == 0 && cables.len() > 0 {
        CABLE_DETAIL
    } else {
        ENUM_DETAIL
    };
    Some(
        finding(
            "DEVICE_FAILED_TO_ENUMERATE",
            Severity::High,
            Confidence::Measured,
            Subject::Device(owned(name)),
            title,
            owned(detail),
            evidence,
            some_text(ADVICE),
        ),
    )
}

/// Findings for devices that appear only in the kernel log.
pub fn phantom_device_rules(snap: &Snapshot) -> (r: Vec<Finding>)
    ensures
        stated(r@) == gathered(phantom_names(*snap), phantom(*snap)),
{
    let events = find_phantom_events(snap);
    proof {
        crate::seqs::lemma_kept(snap.kernel_log.events@, is_phantom(*snap));
        assert forall|i: int| 0 <= i < events.len() implies (
            #[trigger] events[i]).device is Some by {
            assert(pointees(events@)[i] == *events@[i]);
            assert(phantom_events(*snap).contains(pointees(events@)[i]));
        }
    }
    let names = find_names(&events);
    let recs = receptacles(snap);
    let ghost all = phantom_names(*snap);
    let mut out = nothing();
    let mut i: usize = 0;
    while i < names.len()
        invariant
            i <= names.len(),
            all == texts(names@),
            socket_views(recs@) == sockets(*snap),
            pointees(events@) == phantom_events(*snap),
            stated(out@) == gathered(all.take(i as int), phantom(*snap)),
        decreases names.len() - i,
    {
        proof {
            lemma_take_more(all, i as int);
            assert(all[i as int] == names@[i as int]@);
        }
        note(&mut out, find_phantom(snap, &recs, &events, names[i].as_str()));
        i += 1;
    }
    proof {
        lemma_take_all(all);
    }
    out
}

// ---------------------------------------------------------------------------
// laws
// ---------------------------------------------------------------------------

/// A device that is in the tree is never reported as one that never enumerated.
pub proof fn a_present_device_is_no_phantom(snap: Snapshot, name: Seq<char>)
    requires
        snap.named(name) is Some,
    ensures
        !phantom_names(snap).contains(name),
{
    let events = phantom_events(snap);
    crate::seqs::lemma_kept(snap.kernel_log.events@, is_phantom(snap));
    crate::text::lemma_in_order(devices_named(events));
    let names = devices_named(events);
    if names.contains(name) {
        let i = choose|i: int| 0 <= i < names.len() && names[i] == name;
        assert(events.contains(events[i]));
    }
}

} // verus!
