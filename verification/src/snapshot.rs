//! Finding one's way around a snapshot: the device tree, which device owns a
//! drive, and which logged events are still about what is plugged in now.

use vstd::prelude::*;
use crate::double::Double;
use crate::kind::KindSource;
use crate::model::{
    BlockDevice, HubPort, KernelEvent, Medium, Snapshot, UsbDevice, ROOT_HUB,
};
use crate::path::{components, depth, is_within, within};
use crate::seqs::{
    first_of, gathered, kept, lemma_take_all, lemma_take_more, no_refs, pointee, pointees, push_ref,
};
use crate::text::{
    cut_first, cut_last, fill1, filled, find, found_at, opt_text, owned, rsplit_once, same,
    split_once,
};

verus! {

// ---------------------------------------------------------------------------
// the tree
// ---------------------------------------------------------------------------

/// A device and everything below it, depth first.
pub open spec fn walked(d: UsbDevice) -> Seq<UsbDevice>
    decreases d,
{
    seq![d] + walked_all(d.children@)
}

/// Several devices with everything below them.
pub open spec fn walked_all(ds: Seq<UsbDevice>) -> Seq<UsbDevice>
    decreases ds,
{
    if ds.len() == 0 {
        Seq::empty()
    } else {
        walked_all(ds.drop_last()) + walked(ds.last())
    }
}

impl UsbDevice {
    fn walk<'a>(&'a self, out: &mut Vec<&'a UsbDevice>)
        ensures
            pointees(final(out)@) == pointees(old(out)@) + walked(*self),
        decreases self,
    {
        let ghost before = pointees(out@);
        push_ref(out, self);
        let mut i: usize = 0;
        assert(pointees(out@) =~= before + (seq![*self] + walked_all(self.children@.take(0))));
        while i < self.children.len()
            invariant
                i <= self.children.len(),
                pointees(out@) == before + (seq![*self] + walked_all(
                    self.children@.take(i as int),
                )),
            decreases self.children.len() - i,
        {
            proof {
                lemma_take_more(self.children@, i as int);
            }
            self.children[i].walk(out);
            assert(pointees(out@) =~= before + (seq![*self] + walked_all(
                self.children@.take(i + 1),
            )));
            i += 1;
        }
        proof {
            lemma_take_all(self.children@);
        }
    }
}

/// The device of a name, the first in walking order.
pub open spec fn is_named(name: Seq<char>) -> spec_fn(UsbDevice) -> bool {
    |d: UsbDevice| d.sysfs_name@ == name
}

pub open spec fn is_at(bus: u32, address: u32) -> spec_fn(UsbDevice) -> bool {
    |d: UsbDevice| d.busnum == Some(bus) && d.devnum == Some(address)
}

/// The device above another, if the tree has it.
pub open spec fn parent_in(devs: Seq<UsbDevice>, d: UsbDevice) -> Option<UsbDevice> {
    match d.parent {
        Some(p) => first_of(devs, is_named(p@)),
        None => None,
    }
}

/// The device `k` steps up the parent chain.
pub open spec fn ancestor_at(devs: Seq<UsbDevice>, d: UsbDevice, k: nat) -> Option<UsbDevice>
    decreases k,
{
    if k == 0 {
        Some(d)
    } else {
        match ancestor_at(devs, d, (k - 1) as nat) {
            Some(x) => parent_in(devs, x),
            None => None,
        }
    }
}

pub open spec fn is_device_named(o: Option<UsbDevice>, name: Seq<char>) -> bool {
    o matches Some(x) && x.sysfs_name@ == name
}

/// Whether following parents from `d` comes to a device of that name. A chain
/// with more steps than there are devices has come back on itself.
pub open spec fn hangs_off(devs: Seq<UsbDevice>, d: UsbDevice, name: Seq<char>) -> bool {
    exists|k: nat|
        k <= devs.len() && is_device_named(#[trigger] ancestor_at(devs, d, k), name)
}

pub open spec fn in_subtree(devs: Seq<UsbDevice>, name: Seq<char>) -> spec_fn(UsbDevice) -> bool {
    |d: UsbDevice| hangs_off(devs, d, name)
}

proof fn lemma_chain_ends(devs: Seq<UsbDevice>, d: UsbDevice, k: nat, j: nat)
    requires
        k <= j,
        ancestor_at(devs, d, k) is None,
    ensures
        ancestor_at(devs, d, j) is None,
    decreases j,
{
    if k < j {
        lemma_chain_ends(devs, d, k, (j - 1) as nat);
    }
}

/// The first device of a list that has the name.
fn find_named<'a>(devs: &Vec<&'a UsbDevice>, name: &str) -> (r: Option<&'a UsbDevice>)
    ensures
        pointee(r) == first_of(pointees(devs@), is_named(name@)),
{
    let ghost all = pointees(devs@);
    let mut i: usize = 0;
    while i < devs.len()
        invariant
            i <= devs.len(),
            all == pointees(devs@),
            first_of(all.take(i as int), is_named(name@)) is None,
        decreases devs.len() - i,
    {
        proof {
            lemma_take_more(all, i as int);
        }
        if same(devs[i].sysfs_name.as_str(), name) {
            proof {
                lemma_first_stays(all, i + 1, is_named(name@));
            }
            return Some(devs[i]);
        }
        i += 1;
    }
    proof {
        lemma_take_all(all);
    }
    None
}

/// What is found in a front part is what is found in the whole.
pub proof fn lemma_first_stays<T>(s: Seq<T>, i: int, p: spec_fn(T) -> bool)
    requires
        0 <= i <= s.len(),
        first_of(s.take(i), p) is Some,
    ensures
        first_of(s, p) == first_of(s.take(i), p),
    decreases s.len() - i,
{
    if i < s.len() {
        lemma_take_more(s, i);
        lemma_first_stays(s, i + 1, p);
    } else {
        lemma_take_all(s);
    }
}

fn find_parent<'a>(devs: &Vec<&'a UsbDevice>, d: &UsbDevice) -> (r: Option<&'a UsbDevice>)
    ensures
        pointee(r) == parent_in(pointees(devs@), *d),
{
    match &d.parent {
        Some(p) => find_named(devs, p.as_str()),
        None => None,
    }
}

fn climbs_to<'a>(devs: &Vec<&'a UsbDevice>, d: &'a UsbDevice, name: &str) -> (r: bool)
    ensures
        r == hangs_off(pointees(devs@), *d, name@),
{
    let ghost all = pointees(devs@);
    let mut cur: &UsbDevice = d;
    let mut k: usize = 0;
    loop
        invariant
            k <= devs.len(),
            all == pointees(devs@),
            all.len() == devs.len(),
            ancestor_at(all, *d, k as nat) == Some(*cur),
            forall|j: nat|
                j < k ==> !is_device_named(#[trigger] ancestor_at(all, *d, j), name@),
        decreases devs.len() - k,
    {
        if same(cur.sysfs_name.as_str(), name) {
            assert(is_device_named(ancestor_at(all, *d, k as nat), name@));
            return true;
        }
        let up = find_parent(devs, cur);
        assert(ancestor_at(all, *d, (k + 1) as nat) == parent_in(all, *cur));
        match up {
            Some(next) => {
                if k == devs.len() {
                    return false;
                }
                cur = next;
                k += 1;
            },
            None => {
                proof {
                    assert forall|j: nat|
                        j <= all.len() implies !is_device_named(
                        #[trigger] ancestor_at(all, *d, j),
                        name@,
                    ) by {
                        if j > k {
                            lemma_chain_ends(all, *d, (k + 1) as nat, j);
                        }
                    }
                }
                return false;
            },
        }
    }
}

// ---------------------------------------------------------------------------
// paths of device names
// ---------------------------------------------------------------------------

/// One step up a USB device path: `3-5.2.1`, `3-5.2`, `3-5`, `usb3`, and then
/// nothing.
pub open spec fn path_above(name: Seq<char>) -> Option<Seq<char>> {
    match cut_last(name, '.') {
        Some((head, _)) => Some(head),
        None => match cut_first(name, '-') {
            Some((bus, _)) => Some(filled(ROOT_HUB@, seq![bus])),
            None => None,
        },
    }
}

pub fn parent_path(sysfs_name: &str) -> (r: Option<String>)
    ensures
        opt_text(r) == path_above(sysfs_name@),
{
    match rsplit_once(sysfs_name, '.') {
        Some((head, _)) => Some(head),
        None => match split_once(sysfs_name, '-') {
            Some((bus, _)) => Some(fill1(ROOT_HUB, bus.as_str())),
            None => None,
        },
    }
}

/// A bound on how many steps lead up from a name.
pub open spec fn path_height(name: Seq<char>) -> nat {
    if name.contains('-') {
        name.len() + 4
    } else {
        name.len()
    }
}

proof fn lemma_root_hub_name(bus: Seq<char>)
    ensures
        filled(ROOT_HUB@, seq![bus]) == seq!['u', 's', 'b'] + bus,
{
    reveal_strlit("usb{}");
    let t = ROOT_HUB@;
    let args = seq![bus];
    assert(t =~= seq!['u', 's', 'b', '{', '}']);
    assert(t.skip(1) =~= seq!['s', 'b', '{', '}']);
    assert(t.skip(1).skip(1) =~= seq!['b', '{', '}']);
    assert(t.skip(1).skip(1).skip(1) =~= seq!['{', '}']);
    let u = t.skip(1).skip(1).skip(1);
    assert(u.skip(2) =~= Seq::<char>::empty());
    assert(filled(u.skip(2), args.skip(1)) =~= Seq::<char>::empty());
    assert(filled(u, args) =~= bus);
    assert(filled(t.skip(1).skip(1), args) =~= seq!['b'] + bus);
    assert(filled(t.skip(1), args) =~= seq!['s', 'b'] + bus);
    assert(filled(t, args) =~= seq!['u', 's', 'b'] + bus);
}

/// Every step up is lower, so climbing ends.
pub proof fn climbing_ends(name: Seq<char>)
    ensures
        path_above(name) matches Some(up) ==> path_height(up) < path_height(name),
{
    crate::text::lemma_after_last(name, '.');
    crate::text::lemma_first_char_bound(name, '-');
    match cut_last(name, '.') {
        Some((head, _)) => {
            if head.contains('-') {
                let i = choose|i: int| 0 <= i < head.len() && head[i] == '-';
                assert(name[i] == '-');
            }
        },
        None => match cut_first(name, '-') {
            Some((bus, _)) => {
                lemma_root_hub_name(bus);
                let n = crate::text::first_char(name, '-');
                assert(name[n] == '-');
                let up = seq!['u', 's', 'b'] + bus;
                assert(!up.contains('-')) by {
                    if up.contains('-') {
                        let i = choose|i: int| 0 <= i < up.len() && up[i] == '-';
                        assert(i >= 3);
                        assert(bus[i - 3] == name[i - 3]);
                    }
                }
            },
            None => {},
        },
    }
}

/// The closest thing above a name in the tree that exists.
pub open spec fn existing_above(devs: Seq<UsbDevice>, name: Seq<char>) -> Option<UsbDevice>
    decreases path_height(name),
{
    match path_above(name) {
        None => None,
        Some(up) => {
            proof {
                climbing_ends(name);
            }
            match first_of(devs, is_named(up)) {
                Some(d) => Some(d),
                None => existing_above(devs, up),
            }
        },
    }
}

// ---------------------------------------------------------------------------
// ports and events
// ---------------------------------------------------------------------------

pub open spec fn ports_of() -> spec_fn(UsbDevice) -> Seq<HubPort> {
    |d: UsbDevice| d.ports@
}

pub open spec fn port_named(name: Seq<char>) -> spec_fn(HubPort) -> bool {
    |p: HubPort| p.name@ == name
}

/// The first port of a name in a list.
fn find_port<'a>(ports: &'a Vec<HubPort>, name: &str) -> (r: Option<&'a HubPort>)
    ensures
        pointee(r) == first_of(ports@, port_named(name@)),
{
    let mut i: usize = 0;
    while i < ports.len()
        invariant
            i <= ports.len(),
            first_of(ports@.take(i as int), port_named(name@)) is None,
        decreases ports.len() - i,
    {
        proof {
            lemma_take_more(ports@, i as int);
        }
        if same(ports[i].name.as_str(), name) {
            proof {
                lemma_first_stays(ports@, i + 1, port_named(name@));
            }
            return Some(&ports[i]);
        }
        i += 1;
    }
    proof {
        lemma_take_all(ports@);
    }
    None
}

proof fn lemma_first_concat<T>(a: Seq<T>, b: Seq<T>, p: spec_fn(T) -> bool)
    ensures
        first_of(a + b, p) == (match first_of(a, p) {
            Some(x) => Some(x),
            None => first_of(b, p),
        }),
    decreases b.len(),
{
    if b.len() == 0 {
        assert(a + b =~= a);
    } else {
        assert((a + b).drop_last() =~= a + b.drop_last());
        lemma_first_concat(a, b.drop_last(), p);
    }
}

/// Whether an event was logged no earlier than a time, or carries no time.
pub open spec fn not_before(attached: Double) -> spec_fn(KernelEvent) -> bool {
    |e: KernelEvent| e.monotonic_s matches Some(t) ==> t.at_least(attached)
}

pub open spec fn current_in(snap: Snapshot) -> spec_fn(KernelEvent) -> bool {
    |e: KernelEvent| snap.is_current(e)
}

pub open spec fn below_path(path: Seq<char>) -> spec_fn(BlockDevice) -> bool {
    |b: BlockDevice| within(b.sysfs_path@, path)
}

// ---------------------------------------------------------------------------
// owners
// ---------------------------------------------------------------------------

/// A name as one whole part of a path.
pub const PATH_PART: &'static str = "/{}/";

/// The device whose name stands furthest along a path; of two at the same place
/// the later.
pub open spec fn furthest(devs: Seq<UsbDevice>, path: Seq<char>) -> Option<(int, UsbDevice)>
    decreases devs.len(),
{
    if devs.len() == 0 {
        None
    } else {
        let before = furthest(devs.drop_last(), path);
        match found_at(path, filled(PATH_PART@, seq![devs.last().sysfs_name@])) {
            None => before,
            Some(at) => match before {
                Some((best, d)) => if at >= best {
                    Some((at, devs.last()))
                } else {
                    before
                },
                None => Some((at, devs.last())),
            },
        }
    }
}

/// The device whose path reaches deepest towards a drive; of two equally deep
/// the later.
pub open spec fn deepest(devs: Seq<UsbDevice>, path: Seq<char>) -> Option<UsbDevice>
    decreases devs.len(),
{
    if devs.len() == 0 {
        None
    } else {
        let before = deepest(devs.drop_last(), path);
        if !within(path, devs.last().sysfs_path@) {
            before
        } else {
            match before {
                Some(d) => if components(devs.last().sysfs_path@).len() >= components(
                    d.sysfs_path@,
                ).len() {
                    Some(devs.last())
                } else {
                    before
                },
                None => Some(devs.last()),
            }
        }
    }
}

fn find_deepest<'a>(devs: &Vec<&'a UsbDevice>, path: &str) -> (r: Option<&'a UsbDevice>)
    ensures
        pointee(r) == deepest(pointees(devs@), path@),
{
    let ghost all = pointees(devs@);
    let mut best: Option<&UsbDevice> = None;
    let mut i: usize = 0;
    while i < devs.len()
        invariant
            i <= devs.len(),
            all == pointees(devs@),
            pointee(best) == deepest(all.take(i as int), path@),
        decreases devs.len() - i,
    {
        proof {
            lemma_take_more(all, i as int);
        }
        if is_within(path, devs[i].sysfs_path.as_str()) {
            best = match best {
                Some(d) => if depth(devs[i].sysfs_path.as_str()) >= depth(d.sysfs_path.as_str()) {
                    Some(devs[i])
                } else {
                    Some(d)
                },
                None => Some(devs[i]),
            };
        }
        i += 1;
    }
    proof {
        lemma_take_all(all);
    }
    best
}

/// A device and the drives that are its own.
pub struct Holding {
    pub owner: UsbDevice,
    pub drives: Seq<BlockDevice>,
}

/// A drive put with its owner: behind the owner's others, or as a new entry.
pub open spec fn with_drive(s: Seq<Holding>, owner: UsbDevice, b: BlockDevice) -> Seq<Holding>
    decreases s.len(),
{
    if s.len() == 0 {
        seq![Holding { owner, drives: seq![b] }]
    } else if s[0].owner.sysfs_name@ == owner.sysfs_name@ {
        s.update(0, Holding { owner: s[0].owner, drives: s[0].drives.push(b) })
    } else {
        seq![s[0]] + with_drive(s.skip(1), owner, b)
    }
}

/// Every drive with the device it is plugged into.
pub open spec fn holdings(devs: Seq<UsbDevice>, blocks: Seq<BlockDevice>) -> Seq<Holding>
    decreases blocks.len(),
{
    if blocks.len() == 0 {
        Seq::empty()
    } else {
        match deepest(devs, blocks.last().sysfs_path@) {
            Some(owner) => with_drive(holdings(devs, blocks.drop_last()), owner, blocks.last()),
            None => holdings(devs, blocks.drop_last()),
        }
    }
}

pub open spec fn as_holdings(v: Seq<(&UsbDevice, Vec<&BlockDevice>)>) -> Seq<Holding> {
    Seq::new(v.len(), |i: int| Holding { owner: *v[i].0, drives: pointees(v[i].1@) })
}

proof fn lemma_with_drive(s: Seq<Holding>, owner: UsbDevice, b: BlockDevice, k: int)
    requires
        0 <= k <= s.len(),
        forall|j: int| 0 <= j < k ==> (#[trigger] s[j]).owner.sysfs_name@ != owner.sysfs_name@,
        k < s.len() ==> s[k].owner.sysfs_name@ == owner.sysfs_name@,
    ensures
        with_drive(s, owner, b) == (if k < s.len() {
            s.update(k, Holding { owner: s[k].owner, drives: s[k].drives.push(b) })
        } else {
            s.push(Holding { owner, drives: seq![b] })
        }),
    decreases k,
{
    if k > 0 {
        assert(s[0].owner.sysfs_name@ != owner.sysfs_name@);
        assert forall|j: int| 0 <= j < k - 1 implies (#[trigger] s.skip(1)[j]).owner.sysfs_name@
            != owner.sysfs_name@ by {
            assert(s[j + 1].owner.sysfs_name@ != owner.sysfs_name@);
        }
        lemma_with_drive(s.skip(1), owner, b, k - 1);
        if k < s.len() {
            assert(with_drive(s, owner, b) =~= s.update(
                k,
                Holding { owner: s[k].owner, drives: s[k].drives.push(b) },
            ));
        } else {
            assert(with_drive(s, owner, b) =~= s.push(Holding { owner, drives: seq![b] }));
        }
    } else if s.len() == 0 {
        assert(with_drive(s, owner, b) =~= s.push(Holding { owner, drives: seq![b] }));
    }
}

fn add_drive<'a>(
    owners: &mut Vec<(&'a UsbDevice, Vec<&'a BlockDevice>)>,
    owner: &'a UsbDevice,
    b: &'a BlockDevice,
)
    ensures
        as_holdings(final(owners)@) == with_drive(as_holdings(old(owners)@), *owner, *b),
{
    let ghost before = as_holdings(owners@);
    let mut k: usize = 0;
    while k < owners.len() && !same(owners[k].0.sysfs_name.as_str(), owner.sysfs_name.as_str())
        invariant
            k <= owners.len(),
            before == as_holdings(owners@),
            forall|j: int|
                0 <= j < k ==> (#[trigger] before[j]).owner.sysfs_name@ != owner.sysfs_name@,
        decreases owners.len() - k,
    {
        assert(before[k as int].owner == *owners@[k as int].0);
        k += 1;
    }
    proof {
        if k < owners.len() {
            assert(before[k as int].owner == *owners@[k as int].0);
        }
        lemma_with_drive(before, *owner, *b, k as int);
    }
    if k < owners.len() {
        let mut entry = owners.remove(k);
        push_ref(&mut entry.1, b);
        owners.insert(k, entry);
        assert(as_holdings(owners@) =~= with_drive(before, *owner, *b));
    } else {
        let mut list = no_refs();
        push_ref(&mut list, b);
        assert(pointees(list@) =~= seq![*b]);
        owners.push((owner, list));
        assert(as_holdings(owners@) =~= with_drive(before, *owner, *b));
    }
}

impl Snapshot {
    /// Every USB device on every bus, depth first.
    pub open spec fn all(self) -> Seq<UsbDevice> {
        walked_all(self.buses@)
    }

    /// Depth-first walk of every USB device on every bus.
    pub fn devices(&self) -> (r: Vec<&UsbDevice>)
        ensures
            pointees(r@) == self.all(),
    {
        let mut out = no_refs();
        let mut i: usize = 0;
        while i < self.buses.len()
            invariant
                i <= self.buses.len(),
                pointees(out@) == walked_all(self.buses@.take(i as int)),
            decreases self.buses.len() - i,
        {
            proof {
                lemma_take_more(self.buses@, i as int);
            }
            self.buses[i].walk(&mut out);
            i += 1;
        }
        proof {
            lemma_take_all(self.buses@);
        }
        out
    }

    /// The device at a USB bus address, which is how usbmon names a device.
    pub fn device_at_address(&self, bus: u32, address: u32) -> (r: Option<&UsbDevice>)
        ensures
            pointee(r) == first_of(self.all(), is_at(bus, address)),
    {
        let devs = self.devices();
        let ghost all = pointees(devs@);
        let mut i: usize = 0;
        while i < devs.len()
            invariant
                i <= devs.len(),
                all == pointees(devs@),
                all == self.all(),
                first_of(all.take(i as int), is_at(bus, address)) is None,
            decreases devs.len() - i,
        {
            proof {
                lemma_take_more(all, i as int);
            }
            if let (Some(b), Some(a)) = (devs[i].busnum, devs[i].devnum) {
                if b == bus && a == address {
                    proof {
                        lemma_first_stays(all, i + 1, is_at(bus, address));
                    }
                    return Some(devs[i]);
                }
            }
            i += 1;
        }
        proof {
            lemma_take_all(all);
        }
        None
    }

    /// The device of a kernel name.
    pub open spec fn named(self, name: Seq<char>) -> Option<UsbDevice> {
        first_of(self.all(), is_named(name))
    }

    pub fn device(&self, sysfs_name: &str) -> (r: Option<&UsbDevice>)
        ensures
            pointee(r) == self.named(sysfs_name@),
    {
        let devs = self.devices();
        find_named(&devs, sysfs_name)
    }

    /// The device above another.
    pub open spec fn parent(self, d: UsbDevice) -> Option<UsbDevice> {
        parent_in(self.all(), d)
    }

    pub fn parent_of(&self, d: &UsbDevice) -> (r: Option<&UsbDevice>)
        ensures
            pointee(r) == self.parent(*d),
    {
        let devs = self.devices();
        find_parent(&devs, d)
    }

    /// Every hub port, in walking order.
    pub open spec fn all_ports(self) -> Seq<HubPort> {
        gathered(self.all(), ports_of())
    }

    /// Every hub port, in walking order.
    pub fn hub_ports(&self) -> (r: Vec<&HubPort>)
        ensures
            pointees(r@) == self.all_ports(),
    {
        let devs = self.devices();
        let ghost all = self.all();
        let mut out = no_refs();
        let mut i: usize = 0;
        while i < devs.len()
            invariant
                i <= devs.len(),
                all == pointees(devs@),
                pointees(out@) == gathered(all.take(i as int), ports_of()),
            decreases devs.len() - i,
        {
            proof {
                lemma_take_more(all, i as int);
            }
            let ghost sofar = pointees(out@);
            let ports = &devs[i].ports;
            let mut k: usize = 0;
            assert(sofar + ports@.take(0) =~= sofar);
            while k < ports.len()
                invariant
                    k <= ports.len(),
                    pointees(out@) == sofar + ports@.take(k as int),
                decreases ports.len() - k,
            {
                push_ref(&mut out, &ports[k]);
                assert(sofar + ports@.take(k + 1) =~= (sofar + ports@.take(k as int)).push(
                    ports@[k as int],
                ));
                k += 1;
            }
            proof {
                lemma_take_all(ports@);
            }
            i += 1;
        }
        proof {
            lemma_take_all(all);
        }
        out
    }

    /// The first hub port of a name.
    pub open spec fn hub_port(self, name: Seq<char>) -> Option<HubPort> {
        first_of(self.all_ports(), port_named(name))
    }

    pub fn find_hub_port(&self, name: &str) -> (r: Option<&HubPort>)
        ensures
            pointee(r) == self.hub_port(name@),
    {
        let devs = self.devices();
        let ghost all = self.all();
        let ghost p = port_named(name@);
        let mut i: usize = 0;
        while i < devs.len()
            invariant
                i <= devs.len(),
                all == pointees(devs@),
                all == self.all(),
                p == port_named(name@),
                first_of(gathered(all.take(i as int), ports_of()), p) is None,
            decreases devs.len() - i,
        {
            let ghost sofar = gathered(all.take(i as int), ports_of());
            proof {
                lemma_take_more(all, i as int);
                lemma_first_concat(sofar, devs[i as int].ports@, p);
                assert(gathered(all.take(i + 1), ports_of()) == sofar + devs[i as int].ports@);
            }
            let here = find_port(&devs[i].ports, name);
            if here.is_some() {
                proof {
                    lemma_gathered_stays(all, i + 1, ports_of(), p);
                }
                return here;
            }
            i += 1;
        }
        proof {
            lemma_take_all(all);
        }
        None
    }

    /// An event naming a port is current only if that port still holds something
    /// and that something was there when the event was logged. An event that
    /// names no port, or a port that is not known, is left alone, and so is
    /// everything where there is no time base.
    pub open spec fn is_current(self, ev: KernelEvent) -> bool {
        match (ev.port, self.uptime_s) {
            (Some(name), Some(uptime)) => match self.hub_port(name@) {
                None => true,
                Some(port) => {
                    let child = match port.child {
                        Some(c) => self.named(c@),
                        None => None,
                    };
                    match child {
                        None => false,
                        Some(d) => match (d.attached_at(uptime), ev.monotonic_s) {
                            (Some(attached), Some(t)) => t.at_least(attached),
                            _ => true,
                        },
                    }
                },
            },
            _ => true,
        }
    }

    /// Is this event still about what is plugged in now?
    pub fn event_is_current(&self, ev: &KernelEvent) -> (r: bool)
        ensures
            r == self.is_current(*ev),
    {
        match (&ev.port, self.uptime_s) {
            (Some(name), Some(uptime)) => match self.find_hub_port(name.as_str()) {
                None => true,
                Some(port) => {
                    let child = match &port.child {
                        Some(c) => self.device(c.as_str()),
                        None => None,
                    };
                    match child {
                        None => false,
                        Some(d) => match (d.attached_at_s(uptime), ev.monotonic_s) {
                            (Some(attached), Some(t)) => t.is_at_least(&attached),
                            _ => true,
                        },
                    }
                },
            },
            _ => true,
        }
    }

    /// The closest thing above `sysfs_name` in the tree that exists right now.
    ///
    /// The caller is usually holding a name that is not in the tree: a device
    /// that appears only in the log, and needs something real to date it against.
    pub fn nearest_existing_ancestor(&self, sysfs_name: &str) -> (r: Option<&UsbDevice>)
        ensures
            pointee(r) == existing_above(self.all(), sysfs_name@),
    {
        let mut cur = owned(sysfs_name);
        loop
            invariant
                existing_above(self.all(), cur@) == existing_above(self.all(), sysfs_name@),
            decreases path_height(cur@),
        {
            proof {
                climbing_ends(cur@);
            }
            match parent_path(cur.as_str()) {
                None => {
                    return None;
                },
                Some(up) => {
                    let here = self.device(up.as_str());
                    if here.is_some() {
                        return here;
                    }
                    cur = up;
                },
            }
        }
    }

    /// A device and everything hanging off it.
    pub open spec fn below(self, name: Seq<char>) -> Seq<UsbDevice> {
        kept(self.all(), in_subtree(self.all(), name))
    }

    /// A device and everything hanging off it, by the parent chain: names share
    /// no prefix across a root hub (`usb6` and `6-1`).
    pub fn subtree(&self, sysfs_name: &str) -> (r: Vec<&UsbDevice>)
        ensures
            pointees(r@) == self.below(sysfs_name@),
    {
        let devs = self.devices();
        let ghost all = self.all();
        let ghost p = in_subtree(all, sysfs_name@);
        let mut out = no_refs();
        let mut i: usize = 0;
        while i < devs.len()
            invariant
                i <= devs.len(),
                all == pointees(devs@),
                p == in_subtree(all, sysfs_name@),
                pointees(out@) == kept(all.take(i as int), p),
            decreases devs.len() - i,
        {
            proof {
                lemma_take_more(all, i as int);
            }
            if climbs_to(&devs, devs[i], sysfs_name) {
                push_ref(&mut out, devs[i]);
            }
            i += 1;
        }
        proof {
            lemma_take_all(all);
        }
        out
    }

    /// The USB device a drive hangs off: the one whose name stands furthest
    /// along its path.
    pub open spec fn owner(self, block: BlockDevice) -> Option<UsbDevice> {
        match furthest(self.all(), block.sysfs_path@) {
            Some((_, d)) => Some(d),
            None => None,
        }
    }

    pub fn owner_of(&self, block: &BlockDevice) -> (r: Option<&UsbDevice>)
        ensures
            pointee(r) == self.owner(*block),
    {
        let devs = self.devices();
        let ghost all = self.all();
        let mut best: Option<&UsbDevice> = None;
        let mut best_at: usize = 0;
        let mut i: usize = 0;
        while i < devs.len()
            invariant
                i <= devs.len(),
                all == pointees(devs@),
                match best {
                    Some(d) => furthest(all.take(i as int), block.sysfs_path@) == Some(
                        (best_at as int, *d),
                    ),
                    None => furthest(all.take(i as int), block.sysfs_path@) is None,
                },
            decreases devs.len() - i,
        {
            proof {
                lemma_take_more(all, i as int);
            }
            let part = fill1(PATH_PART, devs[i].sysfs_name.as_str());
            if let Some(at) = find(block.sysfs_path.as_str(), part.as_str()) {
                if best.is_none() || at >= best_at {
                    best = Some(devs[i]);
                    best_at = at;
                }
            }
            i += 1;
        }
        proof {
            lemma_take_all(all);
        }
        best
    }

    /// What a drive is made of, and how well that is known. The bus almost never
    /// says; what a user declared of the owner wins.
    pub open spec fn medium(self, block: BlockDevice) -> (Medium, KindSource) {
        match self.owner(block) {
            Some(d) => match d.declared {
                Some(x) => match x.medium {
                    Some(m) => (m, KindSource::User),
                    None => (block.made_of(), KindSource::Class),
                },
                None => (block.made_of(), KindSource::Class),
            },
            None => (block.made_of(), KindSource::Class),
        }
    }

    pub fn medium_of(&self, block: &BlockDevice) -> (r: (Medium, KindSource))
        ensures
            r == self.medium(*block),
    {
        if let Some(d) = self.owner_of(block) {
            if let Some(x) = &d.declared {
                if let Some(m) = x.medium {
                    return (m, KindSource::User);
                }
            }
        }
        (block.medium(), KindSource::Class)
    }

    /// Of these events, those no earlier than the device's attachment. Without
    /// both timestamps everything is kept.
    pub open spec fn since_attach(self, events: Seq<KernelEvent>, dev: UsbDevice) -> Seq<
        KernelEvent,
    > {
        match self.uptime_s {
            Some(u) => match dev.attached_at(u) {
                Some(attached) => kept(events, not_before(attached)),
                None => events,
            },
            None => events,
        }
    }

    /// Events selected some other way, limited to those since a device attached,
    /// and how many were set aside.
    pub fn filter_since_attach<'a>(&self, events: Vec<&'a KernelEvent>, dev: &UsbDevice) -> (r: (
        Vec<&'a KernelEvent>,
        usize,
    ))
        ensures
            pointees(r.0@) == self.since_attach(pointees(events@), *dev),
            r.1 == events@.len() - r.0@.len(),
    {
        let attached = match self.uptime_s {
            Some(u) => dev.attached_at_s(u),
            None => None,
        };
        match attached {
            None => (events, 0),
            Some(at) => {
                let ghost all = pointees(events@);
                let mut out = no_refs();
                let mut i: usize = 0;
                while i < events.len()
                    invariant
                        i <= events.len(),
                        all == pointees(events@),
                        out.len() <= i,
                        pointees(out@) == kept(all.take(i as int), not_before(at)),
                    decreases events.len() - i,
                {
                    proof {
                        lemma_take_more(all, i as int);
                    }
                    let keep = match events[i].monotonic_s {
                        Some(t) => t.is_at_least(&at),
                        None => true,
                    };
                    if keep {
                        push_ref(&mut out, events[i]);
                    }
                    i += 1;
                }
                proof {
                    lemma_take_all(all);
                }
                let excluded: usize = events.len() - out.len();
                (out, excluded)
            },
        }
    }

    /// The events about a device that are still about what is plugged in now.
    pub open spec fn live_events(self, dev: UsbDevice) -> Seq<KernelEvent> {
        let about = crate::model::about_device(self.kernel_log.events@, dev.sysfs_name@);
        self.since_attach(kept(about, current_in(self)), dev)
    }

    /// Kernel events for a device, limited to those since it attached, and how
    /// many were set aside. A socket outlives its occupants.
    pub fn events_since_attach(&self, dev: &UsbDevice) -> (r: (Vec<&KernelEvent>, usize))
        ensures
            pointees(r.0@) == self.live_events(*dev),
            r.1 == crate::model::about_device(self.kernel_log.events@, dev.sysfs_name@).len()
                - r.0@.len(),
    {
        let all = self.kernel_log.for_device(dev.sysfs_name.as_str());
        let ghost about = pointees(all@);
        let total: usize = all.len();
        let mut live = no_refs();
        let mut i: usize = 0;
        while i < all.len()
            invariant
                i <= all.len(),
                about == pointees(all@),
                live.len() <= i,
                pointees(live@) == kept(about.take(i as int), current_in(*self)),
            decreases all.len() - i,
        {
            proof {
                lemma_take_more(about, i as int);
            }
            if self.event_is_current(all[i]) {
                push_ref(&mut live, all[i]);
            }
            i += 1;
        }
        proof {
            lemma_take_all(about);
        }
        let ghost n = live@.len();
        let (kept_events, _) = self.filter_since_attach(live, dev);
        proof {
            assert(kept_events@.len() <= n);
            assert(about.len() == total);
        }
        let excluded: usize = total - kept_events.len();
        (kept_events, excluded)
    }

    /// Drives reachable through a device, through any hub below it too.
    pub fn storage_on(&self, dev: &UsbDevice) -> (r: Vec<&BlockDevice>)
        ensures
            pointees(r@) == kept(self.block_devices@, below_path(dev.sysfs_path@)),
    {
        let mut out = no_refs();
        let mut i: usize = 0;
        while i < self.block_devices.len()
            invariant
                i <= self.block_devices.len(),
                pointees(out@) == kept(
                    self.block_devices@.take(i as int),
                    below_path(dev.sysfs_path@),
                ),
            decreases self.block_devices.len() - i,
        {
            proof {
                lemma_take_more(self.block_devices@, i as int);
            }
            if is_within(self.block_devices[i].sysfs_path.as_str(), dev.sysfs_path.as_str()) {
                push_ref(&mut out, &self.block_devices[i]);
            }
            i += 1;
        }
        proof {
            lemma_take_all(self.block_devices@);
        }
        out
    }

    /// Each USB device that carries storage, with the drives that are its own.
    pub open spec fn storage(self) -> Seq<Holding> {
        holdings(self.all(), self.block_devices@)
    }

    pub fn storage_devices(&self) -> (r: Vec<(&UsbDevice, Vec<&BlockDevice>)>)
        ensures
            as_holdings(r@) == self.storage(),
    {
        let devs = self.devices();
        let mut owners: Vec<(&UsbDevice, Vec<&BlockDevice>)> = Vec::new();
        let mut i: usize = 0;
        assert(as_holdings(owners@) =~= Seq::<Holding>::empty());
        while i < self.block_devices.len()
            invariant
                i <= self.block_devices.len(),
                pointees(devs@) == self.all(),
                as_holdings(owners@) == holdings(self.all(), self.block_devices@.take(i as int)),
            decreases self.block_devices.len() - i,
        {
            proof {
                lemma_take_more(self.block_devices@, i as int);
            }
            let b = &self.block_devices[i];
            if let Some(owner) = find_deepest(&devs, b.sysfs_path.as_str()) {
                add_drive(&mut owners, owner, b);
            }
            i += 1;
        }
        proof {
            lemma_take_all(self.block_devices@);
        }
        owners
    }
}

proof fn lemma_gathered_stays<T, U>(
    s: Seq<T>,
    i: int,
    f: spec_fn(T) -> Seq<U>,
    p: spec_fn(U) -> bool,
)
    requires
        0 <= i <= s.len(),
        first_of(gathered(s.take(i), f), p) is Some,
    ensures
        first_of(gathered(s, f), p) == first_of(gathered(s.take(i), f), p),
    decreases s.len() - i,
{
    if i < s.len() {
        lemma_take_more(s, i);
        lemma_first_concat(gathered(s.take(i), f), f(s[i]), p);
        lemma_gathered_stays(s, i + 1, f, p);
    } else {
        lemma_take_all(s);
    }
}

// ---------------------------------------------------------------------------
// laws
// ---------------------------------------------------------------------------

/// A drive's owner is a device its path lies under, and none that it also lies
/// under is deeper.
pub proof fn a_drive_belongs_to_the_deepest_device(devs: Seq<UsbDevice>, path: Seq<char>)
    ensures
        deepest(devs, path) is None <==> (forall|i: int|
            0 <= i < devs.len() ==> !within(path, (#[trigger] devs[i]).sysfs_path@)),
        deepest(devs, path) matches Some(d) ==> {
            &&& devs.contains(d)
            &&& within(path, d.sysfs_path@)
            &&& forall|i: int|
                0 <= i < devs.len() && within(path, (#[trigger] devs[i]).sysfs_path@)
                    ==> components(devs[i].sysfs_path@).len() <= components(d.sysfs_path@).len()
        },
    decreases devs.len(),
{
    if devs.len() > 0 {
        let p = devs.drop_last();
        a_drive_belongs_to_the_deepest_device(p, path);
        assert(devs.contains(devs[devs.len() - 1]));
        assert forall|i: int| 0 <= i < p.len() implies p[i] == devs[i] by {}
        if let Some(d) = deepest(p, path) {
            let k = choose|k: int| 0 <= k < p.len() && p[k] == d;
            assert(devs[k] == d);
        }
    }
}

/// A drive stands under the device it is plugged into and under no other; and
/// every drive that a device reaches is listed.
pub proof fn a_drive_is_listed_under_its_owner_only(devs: Seq<UsbDevice>, blocks: Seq<BlockDevice>)
    ensures
        forall|i: int, j: int|
            0 <= i < j < holdings(devs, blocks).len() ==> (#[trigger] holdings(
                devs,
                blocks,
            )[i]).owner.sysfs_name@ != (#[trigger] holdings(devs, blocks)[j]).owner.sysfs_name@,
        forall|i: int, b: BlockDevice|
            0 <= i < holdings(devs, blocks).len() && #[trigger] holdings(
                devs,
                blocks,
            )[i].drives.contains(b) ==> blocks.contains(b) && deepest(devs, b.sysfs_path@) is Some
                && deepest(devs, b.sysfs_path@)->0.sysfs_name@ == holdings(
                devs,
                blocks,
            )[i].owner.sysfs_name@,
        forall|b: BlockDevice| #[trigger]
            blocks.contains(b) && deepest(devs, b.sysfs_path@) is Some ==> exists|i: int|
                0 <= i < holdings(devs, blocks).len() && #[trigger] holdings(
                    devs,
                    blocks,
                )[i].drives.contains(b),
    decreases blocks.len(),
{
    if blocks.len() > 0 {
        let p = blocks.drop_last();
        let x = blocks.last();
        let s = holdings(devs, p);
        let t = holdings(devs, blocks);
        a_drive_is_listed_under_its_owner_only(devs, p);
        assert forall|b: BlockDevice| blocks.contains(b) implies p.contains(b) || b == x by {
            let k = choose|k: int| 0 <= k < blocks.len() && blocks[k] == b;
            if k < p.len() {
                assert(p[k] == b);
            }
        }
        assert forall|b: BlockDevice| p.contains(b) implies blocks.contains(b) by {
            let k = choose|k: int| 0 <= k < p.len() && p[k] == b;
            assert(blocks[k] == b);
        }
        assert(blocks.contains(x)) by {
            assert(blocks[blocks.len() - 1] == x);
        }
        if let Some(owner) = deepest(devs, x.sysfs_path@) {
            let k = lemma_place_of(s, owner);
            lemma_with_drive(s, owner, x, k);
            if k < s.len() {
                let more = s[k].drives.push(x);
                assert(t[k].drives == more);
                assert(more[more.len() - 1] == x);
                assert forall|b: BlockDevice| more.contains(b) <==> s[k].drives.contains(b)
                    || b == x by {
                    if more.contains(b) {
                        let n = choose|n: int| 0 <= n < more.len() && more[n] == b;
                        if n < s[k].drives.len() {
                            assert(s[k].drives[n] == b);
                        }
                    }
                    if s[k].drives.contains(b) {
                        let n = choose|n: int| 0 <= n < s[k].drives.len() && s[k].drives[n] == b;
                        assert(more[n] == b);
                    }
                }
            } else {
                assert(t[k].drives == seq![x]);
                assert(t[k].drives[0] == x);
            }
            assert forall|i: int, b: BlockDevice|
                0 <= i < t.len() && #[trigger] t[i].drives.contains(b) implies blocks.contains(b)
                && deepest(devs, b.sysfs_path@) is Some && deepest(
                devs,
                b.sysfs_path@,
            )->0.sysfs_name@ == t[i].owner.sysfs_name@ by {
                if i == k && b == x {
                } else if i < s.len() {
                    assert(s[i].drives.contains(b));
                } else {
                    let n = choose|n: int| 0 <= n < t[i].drives.len() && t[i].drives[n] == b;
                    assert(t[i].drives == seq![x]);
                }
            }
            assert forall|b: BlockDevice| #[trigger]
                blocks.contains(b) && deepest(devs, b.sysfs_path@) is Some implies exists|i: int|
                0 <= i < t.len() && #[trigger] t[i].drives.contains(b) by {
                if b == x {
                    assert(t[k].drives.contains(b));
                } else {
                    let i = choose|i: int| 0 <= i < s.len() && #[trigger] s[i].drives.contains(b);
                    assert(t[i].drives.contains(b));
                }
            }
        } else {
            assert(t == s);
            assert forall|i: int, b: BlockDevice|
                0 <= i < t.len() && #[trigger] t[i].drives.contains(b) implies blocks.contains(
                b,
            ) by {
                assert(s[i].drives.contains(b));
                assert(p.contains(b));
            }
        }
    }
}

proof fn lemma_place_of(s: Seq<Holding>, owner: UsbDevice) -> (k: int)
    ensures
        0 <= k <= s.len(),
        forall|j: int| 0 <= j < k ==> (#[trigger] s[j]).owner.sysfs_name@ != owner.sysfs_name@,
        k < s.len() ==> s[k].owner.sysfs_name@ == owner.sysfs_name@,
    decreases s.len(),
{
    if s.len() == 0 || s[0].owner.sysfs_name@ == owner.sysfs_name@ {
        0
    } else {
        let k = lemma_place_of(s.skip(1), owner);
        assert forall|j: int| 0 <= j < k + 1 implies (#[trigger] s[j]).owner.sysfs_name@
            != owner.sysfs_name@ by {
            if j > 0 {
                assert(s.skip(1)[j - 1] == s[j]);
            }
        }
        if k < s.skip(1).len() {
            assert(s.skip(1)[k] == s[k + 1]);
        }
        k + 1
    }
}

} // verus!
