//! What a pane, a row and a chain say, in terms of what they are about.

use vstd::prelude::*;
use crate::caps::{block_reach, is_disk, port_reach, tried_node, usbfs_node, usbfs_reach, ProbeInfo};
use crate::chain::{widest, Ceiling};
use crate::diag::host::newest_by;
use crate::diag::phantom::{current_events, sibling, socket_for};
use crate::diag::rules::{since_attach_is_since_here, since_here};
use crate::diag::traffic::strengthened;
use crate::diag::units::{best_pdo, contract_words, power_or_zero};
use crate::drm::{printable, socket_of};
use crate::model::{
    About, KernelEvent, KernelLogSource, Outcome, Pdo, PortPowerSupply, Report, Severity, Snapshot,
    Statement,
};
use crate::places::ghost_event;
use crate::root::{name_of, Mode, Root};
use crate::seqs::{first_of, kept};
use crate::snapshot::{below_path, existing_above};
use crate::text::{begins_with, filled, trimmed};
use crate::view::catalogue::{readiness, Remedy};
use crate::view::detail::{answer, leading_verdict, limits, rank_text};
use crate::view::sidebar::{device_fact, host_fact, hub, hub_count, machine_name, plural, port_of};
use crate::view::window::{names_something, title_of};

verus! {

// ---------------------------------------------------------------------------
// panes
// ---------------------------------------------------------------------------

/// A pane answers with its leading verdict, by its outcome and in its words; with
/// none it says that nothing wrong was found.
pub proof fn a_pane_answers_with_its_verdict(r: Report, pane: About)
    ensures
        ({
            let a = answer(r, pane);
            let v = leading_verdict(r.verdicts@, pane);
            &&& v is None ==> a.headline == "Nothing wrong found"@ && a.class == "clear"@
                && a.because.len() == 0
            &&& v matches Some(x) ==> a.headline == x.headline@ && a.because.len()
                == x.because@.len() && (x.outcome == Outcome::Fault ==> a.class == "fault"@
                && a.glyph == "!"@) && (x.outcome == Outcome::Minor ==> a.class == "minor"@
                && a.glyph == "!"@) && (x.outcome == Outcome::Clear ==> a.class == "clear"@
                && a.glyph == "\u{2713}"@)
        }),
{
}

/// What a pane cannot answer: a cable that was not read, a disk that was not
/// timed, a log that was not read, and traffic that was not traced; one line each.
pub proof fn a_pane_owns_to_its_limits(snap: Snapshot, a: About)
    ensures
        ({
            let unread = (a is Port && port_of(snap, a->Port_0) is Some && port_of(
                snap,
                a->Port_0,
            )->0.partner is Some && port_of(snap, a->Port_0)->0.cable is None) || (a is Cable
                && port_of(snap, a->Cable_0) is Some && port_of(snap, a->Cable_0)->0.partner is Some
                && port_of(snap, a->Cable_0)->0.cable is None);
            let untimed = a is Device && snap.named(a->Device_0) is Some && kept(
                snap.block_devices@,
                below_path(snap.named(a->Device_0)->0.sysfs_path@),
            ).len() > 0 && snap.throughput@.len() == 0;
            let unlogged = snap.kernel_log.source == KernelLogSource::Unavailable;
            let untraced = !(snap.capabilities.usbmon@.access is Usable);
            limits(snap, a).len() == (if unread {
                1int
            } else {
                0
            }) + (if untimed {
                1int
            } else {
                0
            }) + (if unlogged {
                1int
            } else {
                0
            }) + (if untraced {
                1int
            } else {
                0
            })
        }),
{
}

/// How bad it is, in words.
pub proof fn a_rank_is_in_words()
    ensures
        rank_text(None) == "nothing fired"@,
        rank_text(Some(Severity::Info)) == "nothing above info"@,
        rank_text(Some(Severity::High)) == filled(
            "worst is {}"@,
            seq![crate::text::lowered("HIGH"@)],
        ),
        rank_text(Some(Severity::Medium)) == filled(
            "worst is {}"@,
            seq![crate::text::lowered("MEDIUM"@)],
        ),
        rank_text(Some(Severity::Low)) == filled(
            "worst is {}"@,
            seq![crate::text::lowered("LOW"@)],
        ),
{
}

/// A subject is there where its port or device is; the machine always is. Its
/// title is its name, and a device's what it is called.
pub proof fn a_subject_is_there_by_name(snap: Snapshot, n: Seq<char>)
    ensures
        names_something(snap, About::Host),
        names_something(snap, About::Port(n)) <==> port_of(snap, n) is Some,
        names_something(snap, About::Cable(n)) <==> port_of(snap, n) is Some,
        names_something(snap, About::Device(n)) <==> snap.named(n) is Some,
        title_of(snap, About::Host) == "This machine"@,
        title_of(snap, About::Port(n)) == n && title_of(snap, About::Cable(n)) == n,
        snap.named(n) matches Some(d) ==> title_of(snap, About::Device(n)) == d.called(),
        snap.named(n) is None ==> title_of(snap, About::Device(n)) == n,
{
}

/// What is said of a device at a glance: its disk, that its hub is empty, its
/// link, or how many hubs it is behind.
pub proof fn a_device_says_what_it_is_for(snap: Snapshot, n: Seq<char>)
    ensures
        snap.named(n) is None ==> device_fact(snap, n) == ""@,
        snap.named(n) matches Some(d) ==> {
            let disks = kept(snap.block_devices@, below_path(d.sysfs_path@));
            &&& disks.len() == 0 && hub(d) && d.children@.len() == 0 ==> device_fact(snap, n)
                == "nothing attached"@
            &&& disks.len() == 0 && !(hub(d) && d.children@.len() == 0) && hub_count(snap, d) == 0
                && d.speed is Some ==> device_fact(snap, n) == d.speed->0.label@
            &&& disks.len() == 0 && !(hub(d) && d.children@.len() == 0) && hub_count(snap, d) == 0
                && d.speed is None ==> device_fact(snap, n) == "attached"@
        },
        plural(1) == ""@,
        forall|k: nat| k != 1 ==> #[trigger] plural(k) == "s"@,
        snap.host.typec_drivers@.len() == 0 ==> host_fact(snap) == "no Type-C driver loaded"@,
{
}

/// A machine is called by its vendor and product, as far as they are known.
pub proof fn a_machine_is_called_as_it_says(snap: Snapshot, otherwise: Seq<char>)
    ensures
        snap.host.sys_vendor is Some && snap.host.product_name is Some ==> machine_name(
            snap,
            otherwise,
        ) == filled(
            "{} {}"@,
            seq![trimmed(snap.host.sys_vendor->0@), trimmed(snap.host.product_name->0@)],
        ),
        snap.host.sys_vendor is None && snap.host.product_name is Some ==> machine_name(
            snap,
            otherwise,
        ) == trimmed(snap.host.product_name->0@),
        snap.host.product_name is None ==> machine_name(snap, otherwise) == otherwise,
{
}

/// Whether a probe is ready, in a word.
pub proof fn readiness_is_in_a_word(p: ProbeInfo, r: Remedy)
    ensures
        !p.implemented ==> readiness(p, r) == "not built yet"@,
        p.implemented && r == Remedy::Nothing ==> readiness(p, r) == "ready"@,
        p.implemented && r == Remedy::Privilege ==> readiness(p, r) == filled(
            crate::view::catalogue::NEEDS@,
            seq!["privilege"@],
        ),
{
}

// ---------------------------------------------------------------------------
// lists
// ---------------------------------------------------------------------------

/// The newest events come first, and no more than are asked for.
pub proof fn the_newest_come_first(
    s: Seq<KernelEvent>,
    n: nat,
    f: spec_fn(KernelEvent) -> Seq<char>,
)
    ensures
        newest_by(s, n, f).len() == (if s.len() < n {
            s.len()
        } else {
            n
        }),
        forall|i: int|
            0 <= i < newest_by(s, n, f).len() ==> #[trigger] newest_by(s, n, f)[i] == f(
                s[s.len() - 1 - i],
            ),
    decreases n,
{
    if n > 0 && s.len() > 0 {
        let t = s.drop_last();
        let r = newest_by(t, (n - 1) as nat, f);
        the_newest_come_first(t, (n - 1) as nat, f);
        assert forall|i: int| 0 <= i < newest_by(s, n, f).len() implies #[trigger] newest_by(
            s,
            n,
            f,
        )[i] == f(s[s.len() - 1 - i]) by {
            if i > 0 {
                assert(newest_by(s, n, f)[i] == r[i - 1]);
                assert(t[t.len() - 1 - (i - 1)] == s[s.len() - 1 - i]);
            }
        }
    }
}

/// The best offer is one of the list, and none of it comes to more.
pub proof fn the_best_offer_is_not_passed(s: Seq<Pdo>)
    ensures
        best_pdo(s) is None <==> s.len() == 0,
        best_pdo(s) matches Some(b) ==> s.contains(b) && forall|i: int|
            0 <= i < s.len() ==> power_or_zero(#[trigger] s[i]) <= power_or_zero(b),
    decreases s.len(),
{
    if s.len() > 0 {
        let t = s.drop_last();
        the_best_offer_is_not_passed(t);
        assert(s[s.len() - 1] == s.last());
        assert forall|i: int| 0 <= i < t.len() implies #[trigger] s[i] == t[i] by {}
        if let Some(b) = best_pdo(t) {
            let i = choose|i: int| 0 <= i < t.len() && t[i] == b;
            assert(s[i] == b);
            assert forall|i: int| 0 <= i < s.len() implies power_or_zero(#[trigger] s[i])
                <= power_or_zero(best_pdo(s)->0) by {
                if i < t.len() {
                    assert(power_or_zero(t[i]) <= power_or_zero(b));
                }
            }
        }
    }
}

/// The widest stage is reached by one of them, and none is wider.
pub proof fn the_widest_is_not_passed(s: Seq<Ceiling>)
    ensures
        forall|i: int|
            0 <= i < s.len() ==> ((#[trigger] s[i]).magnitude() matches Some(m) ==> m.micros
                <= widest(s).micros),
        widest(s).micros == 0 || exists|i: int|
            0 <= i < s.len() && (#[trigger] s[i]).magnitude() == Some(widest(s)),
    decreases s.len(),
{
    if s.len() > 0 {
        let t = s.drop_last();
        the_widest_is_not_passed(t);
        assert(s[s.len() - 1] == s.last());
        assert forall|i: int| 0 <= i < t.len() implies #[trigger] s[i] == t[i] by {}
        assert forall|i: int| 0 <= i < s.len() implies ((#[trigger] s[i]).magnitude() matches Some(
            m,
        ) ==> m.micros <= widest(s).micros) by {
            if i < t.len() {
                assert(t[i].magnitude() == s[i].magnitude());
            }
        }
        if widest(t).micros != 0 {
            let i = choose|i: int|
                0 <= i < t.len() && (#[trigger] t[i]).magnitude() == Some(widest(t));
            assert(s[i].magnitude() == Some(widest(t)));
        }
    }
}

/// A contract is told only where there is one.
pub proof fn a_contract_is_told_where_there_is_one(ps: PortPowerSupply)
    ensures
        contract_words(None) == "unknown"@,
        ps.voltage_now_mv == Some(0u32) || ps.voltage_now_mv is None || ps.current_now_ma == Some(
            0u32,
        ) || ps.current_now_ma is None ==> contract_words(Some(ps)) == "no contract"@,
{
}

// ---------------------------------------------------------------------------
// evidence
// ---------------------------------------------------------------------------

/// Traffic says nothing of a finding that is not about a link.
pub proof fn other_findings_are_left_alone(snap: Snapshot, y: Statement)
    requires
        y.code != "LINK_BELOW_DEVICE_CAPABILITY"@ && y.code != "LINK_SLOW_DESPITE_CAPABLE_CABLE"@
            && y.code != "LINK_SINGLE_LANE"@ && y.code != "DEVICE_RESET_STORM"@,
    ensures
        strengthened(snap, y) == y,
{
}

/// What counts of an absent device is what was logged since its neighbour in the
/// receptacle and the nearest device above it attached.
pub proof fn an_old_failure_is_not_counted(snap: Snapshot, e: KernelEvent, name: Seq<char>)
    ensures
        current_events(snap, name).contains(e) <==> ghost_event(snap, e, name) && (sibling(
            snap,
            socket_for(snap, name),
        ) matches Some(d) ==> since_here(snap, e, d)) && (existing_above(
            snap.all(),
            name,
        ) matches Some(d) ==> since_here(snap, e, d)),
{
    let all = kept(
        crate::diag::phantom::phantom_events(snap),
        crate::diag::phantom::concerns(name),
    );
    crate::places::lemma_ghost(snap, e, name);
    let s = sibling(snap, socket_for(snap, name));
    let mid = crate::diag::phantom::dated_by(snap, all, s);
    if let Some(d) = s {
        since_attach_is_since_here(snap, all, d);
        assert(mid.contains(e) <==> all.contains(e) && since_here(snap, e, d));
    }
    if let Some(d) = existing_above(snap.all(), name) {
        since_attach_is_since_here(snap, mid, d);
        assert(snap.since_attach(mid, d).contains(e) <==> mid.contains(e) && since_here(snap, e, d));
    }
}

// ---------------------------------------------------------------------------
// interfaces
// ---------------------------------------------------------------------------

/// Each interface is tried on a node of its own, in the mode that it is used in;
/// without a node it is unsupported.
pub proof fn an_interface_is_tried_as_it_is_used(root: Root)
    ensures
        usbfs_node(root) is None ==> usbfs_reach(root).access is Unsupported,
        usbfs_node(root) matches Some(n) ==> usbfs_reach(root) == tried_node(
            n,
            root.came_to(n, Mode::Write),
            crate::caps::USBFS_DENIED@,
        ),
        !root.direct_io ==> block_reach(root).access is Unsupported,
        root.direct_io && first_of(root.listing("dev"@), is_disk()) is None ==> block_reach(
            root,
        ).access is Unsupported,
        root.direct_io ==> (first_of(root.listing("dev"@), is_disk()) matches Some(n)
            ==> block_reach(root) == tried_node(
            n,
            root.came_to(n, Mode::Read),
            crate::caps::DISK_DENIED@,
        )),
        crate::caps::port_controls(root).len() == 0 ==> port_reach(root).access is Unsupported,
        crate::caps::port_controls(root).len() > 0 ==> port_reach(root) == tried_node(
            crate::caps::port_controls(root)[0],
            root.came_to(crate::caps::port_controls(root)[0], Mode::Append),
            crate::caps::PORT_DENIED@,
        ),
{
}

/// A byte of a label is printed where it is printable, else as a question mark.
pub proof fn a_label_is_printable(b: u8)
    ensures
        32 <= b <= 126 ==> printable(b) == b as char,
        b < 32 || b > 126 ==> printable(b) == '?',
{
}

/// A connector is what follows the card and a dash, unless it only writes back.
pub proof fn a_connector_follows_its_card(card: Seq<char>, c: Seq<char>)
    requires
        begins_with(card, "card"@),
        !card.contains('-'),
    ensures
        socket_of(card + "-"@ + c) == (if begins_with(c, "Writeback"@) {
            None
        } else {
            Some(c)
        }),
{
    reveal_strlit("-");
    reveal_strlit("card");
    let s = card + "-"@ + c;
    assert(s.subrange(0, 4) =~= card.subrange(0, 4));
    assert forall|k: int| 0 <= k < card.len() implies s[k] != '-' by {
        assert(card.contains(card[k]));
    }
    crate::text::lemma_first_char(s, '-', card.len() as int);
    assert(s.skip(card.len() as int + 1) =~= c);
}

/// A path ends in its name.
pub proof fn a_path_ends_in_its_name(dir: Seq<char>, n: Seq<char>)
    requires
        !n.contains('/'),
    ensures
        name_of(dir + "/"@ + n) == n,
        name_of(n) == n,
{
    reveal_strlit("/");
    let s = dir + "/"@ + n;
    crate::text::lemma_after_last(s, '/');
    crate::text::lemma_after_last(n, '/');
    let k = crate::text::after_last(s, '/');
    assert(s[dir.len() as int] == '/');
    if k - 1 > dir.len() {
        assert(n.contains(n[k - 2 - dir.len()]));
    }
    assert(k == dir.len() + 1);
    assert(s.skip(k) =~= n);
    if crate::text::after_last(n, '/') > 0 {
        assert(n.contains(n[crate::text::after_last(n, '/') - 1]));
    }
}

} // verus!
