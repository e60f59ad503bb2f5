//! Where things are: the tree of devices, the halves of a receptacle, the owner
//! of a disk, and how quantities are written.

use vstd::prelude::*;
use crate::diag::analysis::analysis;
use crate::diag::laws::{lemma_gathered_any, reports};
use crate::diag::origins::{
    came_from, codes_differ, gets_reported, lemma_in_gathered, phantoms_piece,
};
use crate::diag::phantom::{
    concerns, current_events, devices_named, is_phantom, phantom, phantom_events, phantom_names,
};
use crate::diag::receptacle::{
    at_location, covered, is_fast, is_slow, location_of, locations, sites, sites_of, socket_at,
    sockets, Site, Socket,
};
use crate::diag::rules::lemma_kept_is;
use crate::diag::units::{amps_text, bytes_text, volts_text, watts_text};
use crate::model::{
    About, BlockDevice, Confidence, EventKind, KernelEvent, Severity, Snapshot, Statement,
    UsbDevice,
};
use crate::number::{dec, one_place};
use crate::seqs::{first_of, kept, lemma_first_of};
use crate::snapshot::{is_named, path_above, walked, walked_all};
use crate::text::{filled, in_order, lemma_after_last, lemma_first_char, lemma_in_order, opt_text};

verus! {

// ---------------------------------------------------------------------------
// the tree
// ---------------------------------------------------------------------------

/// Every root and every child of a device is met on the walk, and nothing else.
pub proof fn the_walk_meets_everything(ds: Seq<UsbDevice>, x: UsbDevice)
    ensures
        ds.contains(x) ==> walked_all(ds).contains(x),
        walked_all(ds).contains(x) ==> forall|i: int|
            0 <= i < x.children@.len() ==> walked_all(ds).contains(#[trigger] x.children@[i]),
        walked_all(ds).contains(x) ==> ds.contains(x) || exists|d: UsbDevice| #[trigger]
            walked_all(ds).contains(d) && d.children@.contains(x),
    decreases ds,
{
    if ds.len() > 0 {
        let t = ds.drop_last();
        let d = ds.last();
        let a = walked_all(t);
        let b = walked(d);
        let w = walked_all(ds);
        let below = walked_all(d.children@);
        the_walk_meets_everything(t, x);
        the_walk_meets_everything(d.children@, x);
        assert forall|y: UsbDevice| #[trigger] w.contains(y) <==> a.contains(y) || b.contains(y) by {
            lemma_sum(a, b, y);
        }
        assert forall|y: UsbDevice| #[trigger] b.contains(y) <==> y == d || below.contains(y) by {
            lemma_sum(seq![d], below, y);
            if y == d {
                assert(seq![d][0] == y);
            }
        }
        assert(b.contains(d));
        if ds.contains(x) {
            let i = choose|i: int| 0 <= i < ds.len() && ds[i] == x;
            if i < t.len() {
                assert(t[i] == x);
            }
        }
        if w.contains(x) {
            assert forall|i: int| 0 <= i < x.children@.len() implies w.contains(
                #[trigger] x.children@[i],
            ) by {
                let c = x.children@[i];
                if a.contains(x) {
                    assert(a.contains(c));
                } else if x == d {
                    assert(d.children@.contains(c));
                    the_walk_meets_everything(d.children@, c);
                } else {
                    assert(below.contains(c));
                }
            }
            if !ds.contains(x) {
                if a.contains(x) {
                    if t.contains(x) {
                        let i = choose|i: int| 0 <= i < t.len() && t[i] == x;
                        assert(ds[i] == x);
                    }
                    let e = choose|e: UsbDevice| #[trigger] a.contains(e) && e.children@.contains(x);
                    assert(w.contains(e));
                } else {
                    assert(ds[ds.len() - 1] == d);
                    assert(below.contains(x));
                    if d.children@.contains(x) {
                        assert(w.contains(d));
                    } else {
                        let e = choose|e: UsbDevice| #[trigger]
                            below.contains(e) && e.children@.contains(x);
                        assert(b.contains(e));
                        assert(w.contains(e));
                    }
                }
            }
        }
    }
}

proof fn lemma_sum(a: Seq<UsbDevice>, b: Seq<UsbDevice>, y: UsbDevice)
    ensures
        (a + b).contains(y) <==> a.contains(y) || b.contains(y),
{
    if a.contains(y) {
        let i = choose|i: int| 0 <= i < a.len() && a[i] == y;
        assert((a + b)[i] == y);
    }
    if b.contains(y) {
        let i = choose|i: int| 0 <= i < b.len() && b[i] == y;
        assert((a + b)[a.len() + i] == y);
    }
    if (a + b).contains(y) {
        let i = choose|i: int| 0 <= i < (a + b).len() && (a + b)[i] == y;
        if i < a.len() {
            assert(a[i] == y);
        } else {
            assert(b[i - a.len()] == y);
        }
    }
}

/// A device is found by its name where it is there, and its parent by the name it
/// gives.
pub proof fn a_device_is_found_by_name(snap: Snapshot, name: Seq<char>, d: UsbDevice)
    ensures
        snap.named(name) matches Some(x) ==> snap.all().contains(x) && x.sysfs_name@ == name,
        snap.named(name) is None <==> (forall|i: int|
            0 <= i < snap.all().len() ==> (#[trigger] snap.all()[i]).sysfs_name@ != name),
        d.parent is None ==> snap.parent(d) is None,
        d.parent matches Some(p) ==> snap.parent(d) == snap.named(p@),
{
    lemma_first_of(snap.all(), is_named(name));
    if let Some(x) = snap.named(name) {
        let i = choose|i: int|
            0 <= i < snap.all().len() && x == #[trigger] snap.all()[i] && is_named(name)(
                snap.all()[i],
            ) && (forall|j: int| 0 <= j < i ==> !is_named(name)(#[trigger] snap.all()[j]));
        assert(snap.all()[i] == x);
    }
    if snap.named(name) is None {
        assert forall|i: int| 0 <= i < snap.all().len() implies (
        #[trigger] snap.all()[i]).sysfs_name@ != name by {
            assert(!is_named(name)(snap.all()[i]));
        }
    } else {
        let x = snap.named(name)->0;
        let i = choose|i: int| 0 <= i < snap.all().len() && snap.all()[i] == x;
        assert(snap.all()[i].sysfs_name@ == name);
    }
}

/// A path without its last part is the path above it; above the first part is the
/// root hub of the bus.
pub proof fn the_path_above_lacks_the_last_part(head: Seq<char>, leaf: Seq<char>)
    requires
        forall|k: int| 0 <= k < leaf.len() ==> #[trigger] leaf[k] != '.',
    ensures
        path_above(head + "."@ + leaf) == Some(head),
        !head.contains('-') && !head.contains('.') ==> path_above(head + "-"@ + leaf) == Some(
            filled("usb{}"@, seq![head]),
        ),
{
    reveal_strlit(".");
    reveal_strlit("-");
    let s = head + "."@ + leaf;
    lemma_after_last(s, '.');
    assert(s[head.len() as int] == '.');
    let n = crate::text::after_last(s, '.');
    if n - 1 > head.len() {
        assert(s[n - 1] == leaf[n - 2 - head.len()]);
    }
    assert(n == head.len() + 1);
    assert(s.take(head.len() as int) =~= head);
    if !head.contains('-') && !head.contains('.') {
        let t = head + "-"@ + leaf;
        assert forall|k: int| 0 <= k < t.len() implies #[trigger] t[k] != '.' by {
            if k < head.len() {
                assert(head.contains(head[k]));
            } else if k > head.len() {
                assert(t[k] == leaf[k - head.len() - 1]);
            }
        }
        lemma_after_last(t, '.');
        assert(crate::text::after_last(t, '.') == 0);
        assert forall|k: int| 0 <= k < head.len() implies t[k] != '-' by {
            assert(head.contains(head[k]));
        }
        lemma_first_char(t, '-', head.len() as int);
        assert(t.take(head.len() as int) =~= head);
    }
}

/// What the user says of a disk's medium counts before what the disk says.
pub proof fn the_user_knows_the_medium(snap: Snapshot, b: BlockDevice)
    ensures
        ({
            let said = snap.owner(b) is Some && snap.owner(b)->0.declared is Some && snap.owner(
                b,
            )->0.declared->0.medium is Some;
            &&& said ==> snap.medium(b) == (
                snap.owner(b)->0.declared->0.medium->0,
                crate::kind::KindSource::User,
            )
            &&& !said ==> snap.medium(b) == (b.made_of(), crate::kind::KindSource::Class)
        }),
{
}

// ---------------------------------------------------------------------------
// receptacles
// ---------------------------------------------------------------------------

/// A port of a hub that has a speed and a place.
pub open spec fn is_site(snap: Snapshot, s: Site) -> bool {
    &&& snap.all().contains(s.hub)
    &&& s.hub.ports@.contains(s.port)
    &&& s.port.location is Some
    &&& s.hub.speed is Some
    &&& s.rate == s.hub.speed->0.mbps
}

/// The sites are the placed ports of the hubs that have a speed.
pub proof fn the_sites_are_the_placed_ports(snap: Snapshot, s: Site)
    ensures
        sites(snap).contains(s) <==> is_site(snap, s),
{
    lemma_gathered_any(snap.all(), sites_of(), s);
    if sites(snap).contains(s) {
        let i = choose|i: int|
            0 <= i < snap.all().len() && sites_of()(#[trigger] snap.all()[i]).contains(s);
        let d = snap.all()[i];
        assert(d.speed is Some) by {
            if d.speed is None {
                assert(sites_of()(d).len() == 0);
            }
        }
        let f = crate::diag::receptacle::located(d, d.speed->0.mbps);
        lemma_gathered_any(d.ports@, f, s);
        let j = choose|j: int| 0 <= j < d.ports@.len() && f(#[trigger] d.ports@[j]).contains(s);
        assert(f(d.ports@[j]).len() > 0);
        assert(d.ports@.contains(d.ports@[j]));
        assert(snap.all().contains(d));
    }
    if is_site(snap, s) {
        let i = choose|i: int| 0 <= i < snap.all().len() && snap.all()[i] == s.hub;
        let f = crate::diag::receptacle::located(s.hub, s.rate);
        let j = choose|j: int| 0 <= j < s.hub.ports@.len() && s.hub.ports@[j] == s.port;
        assert(f(s.hub.ports@[j])[0] == s);
        assert(f(s.hub.ports@[j]).contains(s));
        lemma_gathered_any(s.hub.ports@, f, s);
        assert(sites_of()(snap.all()[i]).contains(s));
    }
}

/// A receptacle is a place with two ports, one at 480 Mbps or less and one at
/// 5 Gbps or more; each such place is one, and nothing else is.
pub proof fn a_receptacle_has_two_halves(snap: Snapshot, s: Socket)
    ensures
        sockets(snap).contains(s) <==> {
            &&& sites(snap).contains(s.slow)
            &&& sites(snap).contains(s.fast)
            &&& location_of(s.slow) == s.location
            &&& location_of(s.fast) == s.location
            &&& s.slow.rate.micros <= 480_000_000
            &&& s.fast.rate.micros >= 5_000_000_000
            &&& kept(sites(snap), at_location(s.location)).len() == 2
        },
{
    let all = sites(snap);
    let f = socket_at(all);
    let locs = in_order(locations(all));
    lemma_gathered_any(locs, f, s);
    let g = kept(all, at_location(s.location));
    lemma_kept_is(all, at_location(s.location));
    lemma_first_of(g, is_slow());
    lemma_first_of(g, is_fast());
    lemma_in_order(locations(all));
    if sockets(snap).contains(s) {
        let i = choose|i: int| 0 <= i < locs.len() && f(#[trigger] locs[i]).contains(s);
        assert(f(locs[i]).len() > 0);
        assert(f(locs[i])[0] == s);
        assert(s.location == locs[i]);
        let a = choose|a: int|
            0 <= a < g.len() && s.slow == #[trigger] g[a] && is_slow()(g[a]) && (forall|j: int|
                0 <= j < a ==> !is_slow()(#[trigger] g[j]));
        let b = choose|b: int|
            0 <= b < g.len() && s.fast == #[trigger] g[b] && is_fast()(g[b]) && (forall|j: int|
                0 <= j < b ==> !is_fast()(#[trigger] g[j]));
        assert(g.contains(g[a]) && g.contains(g[b]));
    }
    if all.contains(s.slow) && all.contains(s.fast) && location_of(s.slow) == s.location
        && location_of(s.fast) == s.location && s.slow.rate.micros <= 480_000_000
        && s.fast.rate.micros >= 5_000_000_000 && g.len() == 2 {
        assert(g.contains(s.slow) && g.contains(s.fast));
        let a = choose|a: int| 0 <= a < g.len() && g[a] == s.slow;
        let b = choose|b: int| 0 <= b < g.len() && g[b] == s.fast;
        assert(is_slow()(g[a]) && !is_fast()(g[a]));
        assert(is_fast()(g[b]) && !is_slow()(g[b]));
        assert(a != b);
        assert(first_of(g, is_slow()) == Some(s.slow)) by {
            let x = first_of(g, is_slow())->0;
            let k = choose|k: int|
                0 <= k < g.len() && x == #[trigger] g[k] && is_slow()(g[k]) && (forall|j: int|
                    0 <= j < k ==> !is_slow()(#[trigger] g[j]));
            assert(k == a);
        }
        assert(first_of(g, is_fast()) == Some(s.fast)) by {
            let x = first_of(g, is_fast())->0;
            let k = choose|k: int|
                0 <= k < g.len() && x == #[trigger] g[k] && is_fast()(g[k]) && (forall|j: int|
                    0 <= j < k ==> !is_fast()(#[trigger] g[j]));
            assert(k == b);
        }
        assert(f(s.location)[0] == s);
        assert(f(s.location).contains(s));
        let n = choose|n: int| 0 <= n < all.len() && all[n] == s.slow;
        assert(locations(all)[n] == s.location);
        assert(locations(all).contains(s.location));
        assert(locs.contains(s.location));
        let i = choose|i: int| 0 <= i < locs.len() && locs[i] == s.location;
        assert(f(locs[i]).contains(s));
    }
}

/// Trouble was logged of a device that is not there.
pub open spec fn ghost_event(snap: Snapshot, e: KernelEvent, name: Seq<char>) -> bool {
    &&& snap.kernel_log.events@.contains(e)
    &&& opt_text(e.device) == Some(name)
    &&& snap.named(name) is None
    &&& e.kind == EventKind::EnumerationFailure || e.kind == EventKind::LinkTrainingFailure
        || e.kind == EventKind::CableSuspect
}

pub proof fn lemma_ghost(snap: Snapshot, e: KernelEvent, name: Seq<char>)
    ensures
        kept(phantom_events(snap), concerns(name)).contains(e) <==> ghost_event(snap, e, name),
{
    lemma_kept_is(snap.kernel_log.events@, is_phantom(snap));
    lemma_kept_is(phantom_events(snap), concerns(name));
    assert(phantom_events(snap).contains(e) <==> snap.kernel_log.events@.contains(e)
        && is_phantom(snap)(e));
}

/// A device that failed to enumerate and is not there is reported under its name.
/// It is reported of nothing that is there, and wherever no time tells the event
/// to be an old one and no receptacle's failure covers it.
pub proof fn an_absent_device_is_reported(snap: Snapshot)
    ensures
        forall|x: Statement| #[trigger]
            analysis(snap).contains(x) && x.code == "DEVICE_FAILED_TO_ENUMERATE"@ ==> x.severity
                == Severity::High && x.confidence == Confidence::Measured && exists|
                e: KernelEvent,
                name: Seq<char>,
            | #[trigger] ghost_event(snap, e, name) && x.subject == About::Device(name),
        forall|e: KernelEvent, name: Seq<char>| #[trigger]
            ghost_event(snap, e, name) && snap.uptime_s is None && covered(snap).len() == 0
                ==> reports(snap, "DEVICE_FAILED_TO_ENUMERATE"@, About::Device(name)),
{
    codes_differ();
    phantoms_piece(snap);
    let names = phantom_names(snap);
    let f = phantom(snap);
    assert forall|x: Statement| #[trigger]
        analysis(snap).contains(x) && x.code == "DEVICE_FAILED_TO_ENUMERATE"@ implies x.severity
        == Severity::High && x.confidence == Confidence::Measured && exists|
        e: KernelEvent,
        name: Seq<char>,
    | #[trigger] ghost_event(snap, e, name) && x.subject == About::Device(name) by {
        let y = came_from(snap, x);
        lemma_in_gathered(names, f, y);
        let i = choose|i: int| 0 <= i < names.len() && f(#[trigger] names[i]).contains(y);
        assert(f(names[i]).len() > 0);
        lemma_in_order(devices_named(phantom_events(snap)));
        assert(names.contains(names[i]));
        let s = devices_named(phantom_events(snap));
        let k = choose|k: int| 0 <= k < s.len() && s[k] == names[i];
        let e = phantom_events(snap)[k];
        assert(phantom_events(snap).contains(e));
        lemma_kept_is(snap.kernel_log.events@, is_phantom(snap));
        assert(ghost_event(snap, e, names[i]));
    }
    assert forall|e: KernelEvent, name: Seq<char>| #[trigger]
        ghost_event(snap, e, name) && snap.uptime_s is None && covered(snap).len()
            == 0 implies reports(snap, "DEVICE_FAILED_TO_ENUMERATE"@, About::Device(name)) by {
        lemma_ghost(snap, e, name);
        let now = kept(phantom_events(snap), concerns(name));
        assert(current_events(snap, name) == now);
        assert(now.contains(e));
        lemma_kept_is(phantom_events(snap), concerns(name));
        assert(phantom_events(snap).contains(e));
        let s = devices_named(phantom_events(snap));
        let k = choose|k: int| 0 <= k < phantom_events(snap).len() && phantom_events(snap)[k] == e;
        assert(s[k] == name);
        assert(s.contains(name));
        lemma_in_order(s);
        assert(names.contains(name));
        let i = choose|i: int| 0 <= i < names.len() && names[i] == name;
        let y = f(names[i])[0];
        assert(f(names[i]).contains(y));
        lemma_in_gathered(names, f, y);
        let x = gets_reported(snap, y);
        assert(analysis(snap).contains(x));
    }
}

// ---------------------------------------------------------------------------
// quantities
// ---------------------------------------------------------------------------

/// A whole quantity is written without a fraction.
pub proof fn a_whole_quantity_has_no_fraction(n: u32)
    requires
        n <= 4_000_000,
    ensures
        watts_text((n * 1000) as u32) == filled("{} W"@, seq![dec(n as nat)]),
        volts_text((n * 1000) as u32) == filled("{} V"@, seq![dec(n as nat)]),
        amps_text((n * 1000) as u32) == filled("{} A"@, seq![dec(n as nat)]),
{
    let m = (n * 1000) as u32;
    assert(m as nat % 1000 == 0);
    assert(m as nat / 1000 == n);
}

/// A size is written in the largest unit that it fills.
pub proof fn a_size_is_in_its_unit(b: u64)
    ensures
        b < 1_000 ==> bytes_text(b) == filled("{} B"@, seq![dec(b as nat)]),
        1_000 <= b < 1_000_000 ==> bytes_text(b) == filled(
            "{} kB"@,
            seq![one_place(b as nat, 100)],
        ),
        1_000_000 <= b < 1_000_000_000 ==> bytes_text(b) == filled(
            "{} MB"@,
            seq![one_place(b as nat, 100_000)],
        ),
        1_000_000_000 <= b ==> bytes_text(b) == filled(
            "{} GB"@,
            seq![one_place(b as nat, 100_000_000)],
        ),
{
}

} // verus!
