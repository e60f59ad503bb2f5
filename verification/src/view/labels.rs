//! What a user said devices are: whether that changed, and how a choice changes
//! what is stored.

use vstd::prelude::*;
use vstd::multiset::Multiset;
use crate::kind::DeviceKind;
use crate::model::{Declaration, Medium, Snapshot, UsbDevice};
use crate::seqs::{kept, lemma_take_all, lemma_take_more, no_refs, pointees};
use crate::text::{copy_opt, fill1, filled, opt_text, same};

verus! {

/// A label as it is applied to a device.
pub struct Label {
    pub device: Seq<char>,
    pub id: Seq<char>,
    pub unit: bool,
    pub kind: Option<DeviceKind>,
    pub medium: Option<Medium>,
    pub note: Option<Seq<char>>,
}

pub open spec fn is_labelled() -> spec_fn(UsbDevice) -> bool {
    |d: UsbDevice| d.declared is Some
}

pub open spec fn label_of(d: UsbDevice) -> Label {
    let x = d.declared->0;
    Label {
        device: d.sysfs_name@,
        id: x.id@,
        unit: x.unit,
        kind: x.kind,
        medium: x.medium,
        note: opt_text(x.note),
    }
}

pub open spec fn labels_of(s: Seq<UsbDevice>) -> Seq<Label> {
    Seq::new(s.len(), |i: int| label_of(s[i]))
}

/// Every label applied in a snapshot.
pub open spec fn labels(snap: Snapshot) -> Multiset<Label> {
    labels_of(kept(snap.all(), is_labelled())).to_multiset()
}

fn labelled(snap: &Snapshot) -> (r: Vec<&UsbDevice>)
    ensures
        pointees(r@) == kept(snap.all(), is_labelled()),
        forall|i: int| 0 <= i < r@.len() ==> (#[trigger] r@[i]).declared is Some,
{
    let devs = snap.devices();
    let ghost all = snap.all();
    let mut out: Vec<&UsbDevice> = no_refs();
    let mut i: usize = 0;
    assert(kept(all.take(0), is_labelled()) =~= Seq::empty());
    while i < devs.len()
        invariant
            i <= devs@.len(),
            all == pointees(devs@),
            pointees(out@) == kept(all.take(i as int), is_labelled()),
            forall|j: int| 0 <= j < out@.len() ==> (#[trigger] out@[j]).declared is Some,
        decreases devs@.len() - i,
    {
        proof {
            lemma_take_more(all, i as int);
        }
        if devs[i].declared.is_some() {
            out.push(devs[i]);
            assert(pointees(out@) =~= kept(all.take(i as int), is_labelled()).push(
                *devs@[i as int],
            ));
        }
        i += 1;
    }
    proof {
        lemma_take_all(all);
    }
    out
}

fn same_kind(a: Option<DeviceKind>, b: Option<DeviceKind>) -> (r: bool)
    ensures
        r == (a == b),
{
    match (a, b) {
        (Some(x), Some(y)) => x == y,
        (None, None) => true,
        _ => false,
    }
}

fn same_medium(a: Option<Medium>, b: Option<Medium>) -> (r: bool)
    ensures
        r == (a == b),
{
    match (a, b) {
        (Some(x), Some(y)) => x == y,
        (None, None) => true,
        _ => false,
    }
}

pub fn same_note(a: &Option<String>, b: &Option<String>) -> (r: bool)
    ensures
        r == (opt_text(*a) == opt_text(*b)),
{
    match (a, b) {
        (Some(x), Some(y)) => same(x.as_str(), y.as_str()),
        (None, None) => true,
        _ => false,
    }
}

fn same_declaration(a: &Declaration, b: &Declaration) -> (r: bool)
    ensures
        r == (a.id@ == b.id@ && a.unit == b.unit && a.kind == b.kind && a.medium == b.medium
            && opt_text(a.note) == opt_text(b.note)),
{
    same(a.id.as_str(), b.id.as_str()) && a.unit == b.unit && same_kind(a.kind, b.kind)
        && same_medium(a.medium, b.medium) && same_note(&a.note, &b.note)
}

fn same_label(a: &UsbDevice, b: &UsbDevice) -> (r: bool)
    requires
        a.declared is Some,
        b.declared is Some,
    ensures
        r == (label_of(*a) == label_of(*b)),
{
    match (&a.declared, &b.declared) {
        (Some(x), Some(y)) => same(a.sysfs_name.as_str(), b.sysfs_name.as_str())
            && same_declaration(x, y),
        _ => false,
    }
}

/// Whether two snapshots apply the same labels to the same devices, in whatever
/// order. A label is no hardware, so no fingerprint tells.
pub fn same_labels(a: &Snapshot, b: &Snapshot) -> (r: bool)
    ensures
        r == (labels(*a) == labels(*b)),
{
    broadcast use {
        vstd::multiset::group_multiset_axioms,
        vstd::seq_lib::group_to_multiset_ensures,
        vstd::multiset::group_multiset_properties,
    };

    let xs = labelled(a);
    let mut ys = labelled(b);
    let ghost sa = labels_of(pointees(xs@));
    let ghost sb = labels_of(pointees(ys@));
    let mut i: usize = 0;
    assert(sa.take(0) =~= Seq::empty());
    assert(sb.to_multiset() =~= sb.to_multiset().add(sa.take(0).to_multiset()));
    while i < xs.len()
        invariant
            i <= xs@.len(),
            sa == labels_of(pointees(xs@)),
            sa.to_multiset() == labels(*a),
            sb.to_multiset() == labels(*b),
            forall|j: int| 0 <= j < xs@.len() ==> (#[trigger] xs@[j]).declared is Some,
            forall|j: int| 0 <= j < ys@.len() ==> (#[trigger] ys@[j]).declared is Some,
            sb.to_multiset() == labels_of(pointees(ys@)).to_multiset().add(
                sa.take(i as int).to_multiset(),
            ),
        decreases xs@.len() - i,
    {
        let x = xs[i];
        let ghost left = labels_of(pointees(ys@));
        let ghost seen = sa.take(i as int);
        let ghost l = label_of(*x);
        assert(sa[i as int] == l);
        assert(sa.take(i + 1) =~= seen.push(l));
        let mut k: usize = 0;
        while k < ys.len() && !same_label(x, ys[k])
            invariant
                k <= ys@.len(),
                x.declared is Some,
                forall|j: int| 0 <= j < ys@.len() ==> (#[trigger] ys@[j]).declared is Some,
                left == labels_of(pointees(ys@)),
                l == label_of(*x),
                forall|j: int| 0 <= j < k ==> #[trigger] left[j] != l,
            decreases ys@.len() - k,
        {
            k += 1;
        }
        if k == ys.len() {
            proof {
                broadcast use {
                    vstd::multiset::group_multiset_axioms,
                    vstd::seq_lib::group_to_multiset_ensures,
                    vstd::multiset::group_multiset_properties,
                };

                assert(!left.contains(l));
                assert(left.to_multiset().count(l) == 0);
                lemma_take_count(sa, i + 1, l);
                assert(sa.take(i + 1).to_multiset() =~= seen.to_multiset().insert(l));
                assert(labels(*a).count(l) > labels(*b).count(l));
            }
            return false;
        }
        let ghost before = ys@;
        ys.remove(k);
        proof {
            broadcast use {
                vstd::multiset::group_multiset_axioms,
                vstd::seq_lib::group_to_multiset_ensures,
                vstd::multiset::group_multiset_properties,
            };

            assert(left[k as int] == l);
            assert(labels_of(pointees(ys@)) =~= left.remove(k as int));
            assert(left.to_multiset() =~= left.remove(k as int).to_multiset().insert(l));
            assert(sa.take(i + 1).to_multiset() =~= seen.to_multiset().insert(l));
            assert(sb.to_multiset() =~= labels_of(pointees(ys@)).to_multiset().add(
                sa.take(i + 1).to_multiset(),
            ));
        }
        i += 1;
    }
    proof {
        lemma_take_all(sa);
        let left = labels_of(pointees(ys@));
        if ys@.len() == 0 {
            assert(left =~= Seq::empty());
            assert(sb.to_multiset() =~= sa.to_multiset());
        } else {
            let l = left[0];
            assert(left.contains(l));
            assert(labels(*b).count(l) > labels(*a).count(l));
        }
    }
    ys.len() == 0
}

proof fn lemma_take_count(s: Seq<Label>, i: int, l: Label)
    requires
        0 <= i <= s.len(),
    ensures
        s.take(i).to_multiset().count(l) <= s.to_multiset().count(l),
    decreases s.len() - i,
{
    broadcast use {
        vstd::multiset::group_multiset_axioms,
        vstd::seq_lib::group_to_multiset_ensures,
    };

    if i < s.len() {
        lemma_take_count(s, i + 1, l);
        assert(s.take(i + 1) =~= s.take(i).push(s[i]));
    } else {
        lemma_take_all(s);
    }
}

/// What is stored about a device.
#[derive(Debug, Clone)]
pub struct Override {
    /// The vendor and product id it applies to.
    pub id: String,
    pub kind: Option<DeviceKind>,
    pub medium: Option<Medium>,
    pub note: Option<String>,
    pub set_at_unix_ms: u64,
}

pub struct OverrideText {
    pub id: Seq<char>,
    pub kind: Option<DeviceKind>,
    pub medium: Option<Medium>,
    pub note: Option<Seq<char>>,
    pub set_at_unix_ms: u64,
}

impl View for Override {
    type V = OverrideText;

    open spec fn view(&self) -> OverrideText {
        OverrideText {
            id: self.id@,
            kind: self.kind,
            medium: self.medium,
            note: opt_text(self.note),
            set_at_unix_ms: self.set_at_unix_ms,
        }
    }
}

/// What a choice does to what is stored.
#[derive(Debug, Clone)]
pub enum Relabel {
    Store(Override),
    Forget,
}

pub enum RelabelText {
    Store(OverrideText),
    Forget,
}

impl View for Relabel {
    type V = RelabelText;

    open spec fn view(&self) -> RelabelText {
        match *self {
            Relabel::Store(o) => RelabelText::Store(o@),
            Relabel::Forget => RelabelText::Forget,
        }
    }
}

pub open spec fn stored_text(o: Option<Override>) -> Option<OverrideText> {
    match o {
        Some(o) => Some(o@),
        None => None,
    }
}

/// Choosing a kind keeps a medium or a note that was set separately, and so does
/// clearing it: those are other assertions. With nothing left to say, the entry
/// goes.
pub open spec fn relabelled(
    stored: Option<OverrideText>,
    id: Seq<char>,
    kind: Option<DeviceKind>,
    now_ms: u64,
) -> RelabelText {
    match kind {
        Some(k) => RelabelText::Store(
            OverrideText {
                id,
                kind: Some(k),
                medium: match stored {
                    Some(o) => o.medium,
                    None => None,
                },
                note: match stored {
                    Some(o) => o.note,
                    None => None,
                },
                set_at_unix_ms: now_ms,
            },
        ),
        None => match stored {
            Some(o) => if o.medium is Some || o.note is Some {
                RelabelText::Store(OverrideText { kind: None, ..o })
            } else {
                RelabelText::Forget
            },
            None => RelabelText::Forget,
        },
    }
}

pub fn relabel(stored: &Option<Override>, id: String, kind: Option<DeviceKind>, now_ms: u64) -> (r:
    Relabel)
    ensures
        r@ == relabelled(stored_text(*stored), id@, kind, now_ms),
{
    match kind {
        Some(k) => {
            let (medium, note) = match stored {
                Some(o) => (o.medium, copy_opt(&o.note)),
                None => (None, None),
            };
            Relabel::Store(
                Override { id, kind: Some(k), medium, note, set_at_unix_ms: now_ms },
            )
        },
        None => match stored {
            Some(o) => if o.medium.is_some() || o.note.is_some() {
                Relabel::Store(
                    Override {
                        id: o.id.clone(),
                        kind: None,
                        medium: o.medium,
                        note: copy_opt(&o.note),
                        set_at_unix_ms: o.set_at_unix_ms,
                    },
                )
            } else {
                Relabel::Forget
            },
            None => Relabel::Forget,
        },
    }
}

pub const CANNOT_LABEL: &'static str = "{} reports no vendor/product id, so it cannot be labelled";

pub const NOT_SAVED: &'static str = "Could not save the label: {}";

/// The id a device's label is stored under: its model's, or why there is none.
pub fn label_id(dev: &UsbDevice) -> (r: Result<String, String>)
    ensures
        match (dev.ids(), r) {
            (Some(id), Ok(t)) => t@ == id,
            (None, Err(why)) => why@ == filled(CANNOT_LABEL@, seq![dev.sysfs_name@]),
            _ => false,
        },
{
    match dev.vid_pid() {
        Some(id) => Ok(id),
        None => Err(fill1(CANNOT_LABEL, dev.sysfs_name.as_str())),
    }
}

/// Setting a kind and clearing it again leaves a separately set medium and note
/// as they were, and no kind.
pub proof fn clearing_a_kind_keeps_the_rest(
    stored: OverrideText,
    id: Seq<char>,
    k: DeviceKind,
    then_ms: u64,
    now_ms: u64,
)
    ensures
        relabelled(Some(stored), id, Some(k), then_ms) matches RelabelText::Store(set)
            && match relabelled(Some(set), id, None, now_ms) {
            RelabelText::Store(o) => o.medium == stored.medium && o.note == stored.note
                && o.kind is None,
            RelabelText::Forget => stored.medium is None && stored.note is None,
        },
{
}

} // verus!
