//! What is shown, in terms of what was found.

use vstd::prelude::*;
use crate::caps::{Access, ProbeClass, ProbeInfo, Requirement};
use crate::capture::is_typec_driver;
use crate::cycling::{tallied, tallies, Tally};
use crate::diag::rules::lemma_kept_is;
use crate::model::{
    About, Confidence, Finding, Outcome, ReenumerationCycle, Report, Severity, Snapshot, Statement,
    TypecPort, UsbDevice,
};
use crate::monitor::{closed_off, is_round, opened};
use crate::number::{dec, Decimal};
use crate::report::{names_one, the_worst_is_reached_and_not_passed, worst};
use crate::seqs::kept;
use crate::text::{filled, holds_text};
use crate::view::catalogue::{action_of, age, missing, Action, Remedy, Running};
use crate::view::findings::{
    exoneration_row, finding_row, in_pane, shows, the_worst_stands_first, MarkText,
};
use crate::view::options::{asked, int_read, Asked, Size};
use crate::view::settings::Theme;
use crate::view::sidebar::{
    dot_class, flow, hub, leads_somewhere, listed, port_fact, port_of, port_power, verdict_on,
    worst_on,
};
use crate::view::window::{is_news, most_severe, worst_about};

verus! {

// ---------------------------------------------------------------------------
// findings
// ---------------------------------------------------------------------------

/// A finding keeps its words, and is drawn by its severity and its confidence.
pub proof fn a_finding_is_drawn_as_it_is(f: Statement, show: bool)
    ensures
        ({
            let row = finding_row(f, show);
            &&& row.title == f.title
            &&& row.suggestion == f.suggestion
            &&& f.severity == Severity::Critical || f.severity == Severity::High ==> row.mark
                == MarkText::Dot("high"@)
            &&& f.severity == Severity::Medium ==> row.mark == MarkText::Dot("medium"@)
            &&& f.severity == Severity::Low ==> row.mark == MarkText::Dot("low"@)
            &&& f.severity == Severity::Info ==> row.mark == MarkText::Dot("info"@)
            &&& f.confidence == Confidence::Measured ==> row.confidence == "measured"@
                && row.confidence_class == "measured"@ && !row.set_apart
            &&& f.confidence == Confidence::Inferred ==> row.confidence == "inferred"@
                && row.confidence_class == "inferred"@ && !row.set_apart
            &&& f.confidence == Confidence::Heuristic ==> row.confidence == "heuristic"@
                && row.confidence_class == "heuristic"@ && row.set_apart
            &&& row.detail is None <==> f.detail.len() == 0
            &&& row.detail matches Some(d) ==> d == f.detail
            &&& row.evidence is None <==> f.evidence.len() == 0
            &&& row.subject is Some <==> show
        }),
        exoneration_row(f, show).mark is Tick,
        exoneration_row(f, show).title == f.title,
        exoneration_row(f, show).suggestion is None && exoneration_row(f, show).evidence is None,
{
}

/// A pane shows what is about its subject; a port's pane shows its cable too, and
/// no other pane shows anything else.
pub proof fn a_port_shows_its_cable(p: Seq<char>, a: About, b: About)
    ensures
        shows(a, a),
        shows(About::Port(p), About::Cable(p)),
        !shows(About::Cable(p), About::Port(p)),
        shows(a, b) && a != b ==> a is Port && b is Cable && a->Port_0 == b->Cable_0,
{
}

/// The worst that a pane shows.
pub open spec fn worst_shown(r: Report, a: About, s: Severity) -> bool {
    &&& exists|i: int|
        0 <= i < r.findings@.len() && shows(a, (#[trigger] r.findings@[i]).subject@)
            && r.findings@[i].severity == s
    &&& forall|i: int|
        0 <= i < r.findings@.len() && shows(a, (#[trigger] r.findings@[i]).subject@)
            ==> r.findings@[i].severity.weight() <= s.weight()
}

proof fn lemma_worst_shown(r: Report, a: About, s: Severity)
    requires
        worst_shown(r, a, s),
    ensures
        worst_on(r, a) == Some(s),
{
    let k = kept(r.findings@, in_pane(a));
    lemma_kept_is(r.findings@, in_pane(a));
    the_worst_stands_first(k);
    the_worst_is_reached_and_not_passed(k);
    let i = choose|i: int|
        0 <= i < r.findings@.len() && shows(a, (#[trigger] r.findings@[i]).subject@)
            && r.findings@[i].severity == s;
    assert(r.findings@.contains(r.findings@[i]) && in_pane(a)(r.findings@[i]));
    assert(k.contains(r.findings@[i]));
    let j = choose|j: int| 0 <= j < k.len() && k[j] == r.findings@[i];
    assert(k[j].severity.weight() <= worst(k)->0.weight());
    let w = worst(k)->0;
    let m = choose|m: int| 0 <= m < k.len() && (#[trigger] k[m]).severity == w;
    assert(k.contains(k[m]));
    let n = choose|n: int| 0 <= n < r.findings@.len() && r.findings@[n] == k[m];
    assert(r.findings@[n].severity.weight() <= s.weight());
}

/// The dot beside a subject is that of the worst finding on it; green only where
/// nothing is found above a note and a verdict that cites something clears it.
pub proof fn a_dot_is_the_worst(r: Report, a: About, s: Severity)
    requires
        worst_shown(r, a, s),
    ensures
        s == Severity::Critical || s == Severity::High ==> dot_class(r, a) == "high"@,
        s == Severity::Medium ==> dot_class(r, a) == "medium"@,
        s == Severity::Low ==> dot_class(r, a) == "low"@,
        s == Severity::Info ==> dot_class(r, a) == (if verdict_on(r, a) is Some && verdict_on(
            r,
            a,
        )->0.outcome == Outcome::Clear && verdict_on(r, a)->0.because@.len() > 0 {
            "ok"@
        } else {
            "info"@
        }),
{
    lemma_worst_shown(r, a, s);
}

/// Without a finding there is a green dot or none.
pub proof fn no_finding_no_alarm(r: Report, a: About)
    requires
        forall|i: int|
            0 <= i < r.findings@.len() ==> !shows(a, (#[trigger] r.findings@[i]).subject@),
    ensures
        dot_class(r, a) == (if verdict_on(r, a) is Some && verdict_on(r, a)->0.outcome
            == Outcome::Clear && verdict_on(r, a)->0.because@.len() > 0 {
            "ok"@
        } else {
            "none"@
        }),
{
    let k = kept(r.findings@, in_pane(a));
    lemma_kept_is(r.findings@, in_pane(a));
    if k.len() > 0 {
        let i = choose|i: int| 0 <= i < r.findings@.len() && in_pane(a)(#[trigger] r.findings@[i]);
        assert(shows(a, r.findings@[i].subject@));
    }
    the_worst_stands_first(k);
}

/// Only a grave finding that was not there before is news.
pub proof fn only_grave_news_is_news(seen: Seq<(Seq<char>, Seq<char>)>, f: Finding)
    ensures
        is_news(seen)(f) <==> (f.severity == Severity::High || f.severity == Severity::Critical)
            && !seen.contains((f.code@, f.subject@.shown())),
{
}

/// Where every verdict is clear, the window opens on a finding of medium or more,
/// and on the machine where there is none.
pub proof fn a_slight_finding_is_not_opened_on(r: Report)
    requires
        r.verdicts@.len() == 0,
    ensures
        (forall|i: int|
            0 <= i < r.findings@.len() ==> (#[trigger] r.findings@[i]).severity == Severity::Info
                || r.findings@[i].severity == Severity::Low) ==> worst_about(r) == About::Host,
        forall|i: int|
            0 <= i < r.findings@.len() && ((#[trigger] r.findings@[i]).severity == Severity::Medium
                || r.findings@[i].severity == Severity::High || r.findings@[i].severity
                == Severity::Critical) ==> exists|j: int|
                0 <= j < r.findings@.len() && worst_about(r) == (
                #[trigger] r.findings@[j]).subject@ && r.findings@[j].severity.weight()
                    >= r.findings@[i].severity.weight(),
{
    lemma_most_severe(r.findings@);
}

proof fn lemma_most_severe(s: Seq<Finding>)
    ensures
        most_severe(s) is Some <==> s.len() > 0,
        most_severe(s) matches Some(f) ==> (exists|j: int|
            0 <= j < s.len() && #[trigger] s[j] == f),
        most_severe(s) matches Some(f) ==> forall|i: int|
            0 <= i < s.len() ==> (#[trigger] s[i]).severity.weight() <= f.severity.weight(),
    decreases s.len(),
{
    if s.len() > 0 {
        let t = s.drop_last();
        lemma_most_severe(t);
        assert(s[s.len() - 1] == s.last());
        assert forall|i: int| 0 <= i < t.len() implies #[trigger] s[i] == t[i] by {}
        if let Some(f) = most_severe(t) {
            let j = choose|j: int| 0 <= j < t.len() && #[trigger] t[j] == f;
            assert(s[j] == f);
            assert forall|i: int| 0 <= i < s.len() implies (#[trigger] s[i]).severity.weight()
                <= most_severe(s)->0.severity.weight() by {
                if i < t.len() {
                    assert(t[i].severity.weight() <= f.severity.weight());
                }
            }
        }
    }
}

// ---------------------------------------------------------------------------
// the list
// ---------------------------------------------------------------------------

/// A device is listed unless it is a root hub, or a hub on the way to something
/// while hubs are hidden; a hub is one by its class or an interface's.
pub proof fn a_hub_on_the_way_is_hidden(snap: Snapshot, show_hubs: bool, d: UsbDevice)
    ensures
        listed(snap, show_hubs)(d) <==> !d.is_root_hub && !(!show_hubs && hub(d)
            && leads_somewhere(snap, d)),
        hub(d) <==> d.device_class == Some(0x09u8) || exists|i: int|
            0 <= i < d.interfaces@.len() && (#[trigger] d.interfaces@[i]).class == Some(0x09u8),
{
    if d.has_class(0x09) {
        let i = choose|i: int|
            0 <= i < d.interfaces.len() && (#[trigger] d.interfaces[i]).class == Some(0x09u8);
        assert(d.interfaces@[i].class == Some(0x09u8));
    }
    if exists|i: int|
        0 <= i < d.interfaces@.len() && (#[trigger] d.interfaces@[i]).class == Some(0x09u8) {
        let i = choose|i: int|
            0 <= i < d.interfaces@.len() && (#[trigger] d.interfaces@[i]).class == Some(0x09u8);
        assert(d.interfaces[i].class == Some(0x09u8));
    }
}

/// What is said of a port at a glance.
pub proof fn a_port_says_what_is_attached(snap: Snapshot, name: Seq<char>)
    ensures
        port_of(snap, name) matches Some(p) ==> {
            &&& p.partner is None ==> port_fact(snap, name) == "nothing attached"@
            &&& p.partner is Some && p.partner->0.pd_capable() ==> port_fact(snap, name)
                == "attached, speaks PD"@
            &&& p.partner is Some && !p.partner->0.pd_capable() ==> port_fact(snap, name)
                == "attached, does not speak PD"@
        },
        port_of(snap, name) is None ==> port_fact(snap, name) == ""@,
{
}

/// A port's power is its contract's, else what it advertises; it goes out where
/// the port is the source, else in.
pub proof fn a_port_shows_its_contract(p: TypecPort)
    ensures
        p.power_supply is Some && p.power_supply->0.contract_mw() is Some ==> port_power(p)
            == p.power_supply->0.contract_mw(),
        !(p.power_supply is Some && p.power_supply->0.contract_mw() is Some) ==> port_power(p)
            == p.advertised_mw(),
        flow(p) == "out"@ <==> p.sourcing(),
        !p.sourcing() ==> flow(p) == "in"@,
{
    reveal_strlit("out");
    reveal_strlit("in");
    assert("out"@.len() == 3 && "in"@.len() == 2);
}

/// A report that is narrowed keeps what names one of its names, and never the
/// machine's.
pub proof fn a_scope_is_by_name(names: Seq<Seq<char>>, n: Seq<char>)
    ensures
        !names_one(names, About::Host),
        names_one(names, About::Device(n)) <==> names.contains(n),
        names_one(names, About::Port(n)) <==> names.contains(n),
        names_one(names, About::Cable(n)) <==> names.contains(n),
{
}

// ---------------------------------------------------------------------------
// probes
// ---------------------------------------------------------------------------

/// A probe can be run exactly where it is built, does not disrupt, lacks nothing
/// but privilege, and privilege can be asked for; one at a time; and the one that
/// runs can be stopped.
pub proof fn a_probe_runs_for_a_password(
    p: ProbeInfo,
    r: Remedy,
    running: Option<Running>,
    can_escalate: bool,
)
    ensures
        ({
            let a = action_of(p, r, running, can_escalate);
            let mine = running is Some && running->0.name@ == p.name@;
            let may = p.implemented && (p.class == ProbeClass::Passive || p.class
                == ProbeClass::PrivilegedRead) && r == Remedy::Privilege && can_escalate;
            &&& a is Stop <==> mine
            &&& mine ==> a == Action::Stop { asked: running->0.asked_to_stop }
            &&& a is Run <==> !mine && may
            &&& a is Run ==> a == Action::Run { enabled: running is None }
        }),
{
}

/// What a password does not give.
pub proof fn a_missing_thing_is_named(w: Seq<char>, needs: Requirement)
    ensures
        missing(Access::NotLoaded(w), needs) == "a kernel module"@,
        missing(Access::Unsupported(w), Requirement::BlockRead) == "something to run it on"@,
        needs != Requirement::BlockRead ==> missing(Access::Unsupported(w), needs)
            == "a different kernel"@,
        missing(Access::Unknown(w), needs) == "something that could not be determined"@,
{
}

/// How long ago, in the largest whole unit.
pub proof fn an_age_is_in_its_unit(ms: u64)
    ensures
        ms < 2_000 ==> age(ms) == "just now"@,
        2_000 <= ms < 60_000 ==> age(ms) == filled(
            crate::view::catalogue::SECONDS_AGO@,
            seq![dec((ms / 1000) as nat)],
        ),
        60_000 <= ms < 3_600_000 ==> age(ms) == filled(
            crate::view::catalogue::MINUTES_AGO@,
            seq![dec((ms / 60_000) as nat)],
        ),
        3_600_000 <= ms ==> age(ms) == filled(
            crate::view::catalogue::HOURS_AGO@,
            seq![dec((ms / 3_600_000) as nat)],
        ),
{
    assert(ms / 1000 / 60 == ms / 60_000);
    assert(ms / 1000 / 3600 == ms / 3_600_000);
}

// ---------------------------------------------------------------------------
// options
// ---------------------------------------------------------------------------

/// A size option sets its side, and the last one counts; a size is taken from
/// 360 by 420 on.
pub proof fn a_size_option_sets_its_side(
    n: Seq<char>,
    rest: Seq<Seq<char>>,
    width: int,
    height: int,
)
    ensures
        int_read(n) matches Some(v) ==> asked(seq!["--width"@, n] + rest, width, height) == asked(
            rest,
            v,
            height,
        ) && asked(seq!["--height"@, n] + rest, width, height) == asked(rest, width, v),
        int_read(n) is None ==> asked(seq!["--width"@, n] + rest, width, height) is Err && asked(
            seq!["--height"@, n] + rest,
            width,
            height,
        ) is Err,
        asked(seq!["--help"@] + rest, width, height) == Ok::<Asked, Seq<char>>(Asked::Help),
        asked(seq!["-h"@] + rest, width, height) == Ok::<Asked, Seq<char>>(Asked::Help),
        asked(seq!["--version"@] + rest, width, height) == Ok::<Asked, Seq<char>>(Asked::Version),
        asked(seq!["-V"@] + rest, width, height) == Ok::<Asked, Seq<char>>(Asked::Version),
        360 <= width <= i32::MAX && 420
            <= height <= i32::MAX ==> asked(Seq::empty(), width, height) == Ok::<Asked, Seq<char>>(
            Asked::Run(Size { width: width as i32, height: height as i32 }),
        ),
        width < 360 || height < 420
            ==> asked(Seq::empty(), width, height) is Err,
{
    reveal_strlit("--width");
    reveal_strlit("--height");
    reveal_strlit("-h");
    reveal_strlit("--help");
    reveal_strlit("-V");
    reveal_strlit("--version");
    assert("--width"@.len() == 7);
    assert("--height"@.len() == 8);
    assert("-h"@.len() == 2);
    assert("--help"@.len() == 6);
    assert("-V"@.len() == 2);
    assert("--version"@.len() == 9);
    assert("-h"@[1] == 'h');
    assert("-V"@[1] == 'V');
    let a = seq!["--width"@, n] + rest;
    let b = seq!["--height"@, n] + rest;
    assert(a[0] == "--width"@ && a[1] == n && a.skip(2) =~= rest);
    assert(b[0] == "--height"@ && b[1] == n && b.skip(2) =~= rest);
    assert((seq!["--help"@] + rest)[0] == "--help"@);
    assert((seq!["-h"@] + rest)[0] == "-h"@);
    assert((seq!["--version"@] + rest)[0] == "--version"@);
    assert((seq!["-V"@] + rest)[0] == "-V"@);
}

/// The words that themes are stored under.
pub proof fn a_theme_has_its_word()
    ensures
        Theme::System.word() == "system"@,
        Theme::Light.word() == "light"@,
        Theme::Dark.word() == "dark"@,
        Theme::Light.name() == "Light"@,
        Theme::Dark.name() == "Dark"@,
        Theme::System.name() == "Follow the system"@,
{
}

// ---------------------------------------------------------------------------
// captures
// ---------------------------------------------------------------------------

/// The modules that drive Type-C, by their names.
pub proof fn a_typec_module_is_known(m: Seq<char>)
    ensures
        is_typec_driver(m) <==> holds_text(m, "typec"@) || holds_text(m, "ucsi"@) || holds_text(
            m,
            "tcpm"@,
        ) || holds_text(m, "tcpci"@) || holds_text(m, "fusb302"@) || holds_text(m, "pd_"@),
{
}

/// A subsystem is what stands between the brackets.
pub proof fn brackets_are_taken_off(s: Seq<char>)
    requires
        s.len() > 0,
        !is_round(s[0]),
        !is_round(s.last()),
    ensures
        closed_off(opened(seq!['('] + s + seq![')'])) == s,
        closed_off(opened(s)) == s,
{
    let t = seq!['('] + s + seq![')'];
    assert(t.skip(1) =~= s + seq![')']);
    assert((s + seq![')'])[0] == s[0]);
    reveal_with_fuel(opened, 3);
    assert(opened(t) == s + seq![')']);
    assert((s + seq![')']).last() == ')');
    assert((s + seq![')']).drop_last() =~= s);
    reveal_with_fuel(closed_off, 3);
}

/// The cycles of a run came back at more than one rate exactly where the tally
/// has more than one entry.
pub proof fn a_tally_has_an_entry_for_each_rate(s: Seq<ReenumerationCycle>)
    ensures
        forall|i: int|
            0 <= i < s.len() && (#[trigger] s[i]).speed_mbps is Some ==> exists|k: int|
                0 <= k < tallies(s).len() && (#[trigger] tallies(s)[k]).rate == s[i].speed_mbps->0,
        (exists|i: int, j: int|
            0 <= i < s.len() && 0 <= j < s.len() && (#[trigger] s[i]).speed_mbps is Some && (
            #[trigger] s[j]).speed_mbps is Some && s[i].speed_mbps != s[j].speed_mbps) ==> tallies(
            s,
        ).len() > 1,
        forall|m: Decimal|
            (forall|i: int|
                0 <= i < s.len() && (#[trigger] s[i]).speed_mbps is Some ==> s[i].speed_mbps->0
                    == m) ==> (#[trigger] only(tallies(s), m)),
    decreases s.len(),
{
    if s.len() > 0 {
        let t = s.drop_last();
        a_tally_has_an_entry_for_each_rate(t);
        assert(s[s.len() - 1] == s.last());
        assert forall|i: int| 0 <= i < t.len() implies #[trigger] t[i] == s[i] by {}
        if let Some(m) = s.last().speed_mbps {
            lemma_tallied(tallies(t), m);
        }
        assert forall|i: int|
            0 <= i < s.len() && (#[trigger] s[i]).speed_mbps is Some implies exists|k: int|
            0 <= k < tallies(s).len() && (#[trigger] tallies(s)[k]).rate == s[i].speed_mbps->0 by {
            if i < t.len() {
                assert(t[i].speed_mbps is Some);
                let k = choose|k: int|
                    0 <= k < tallies(t).len() && (#[trigger] tallies(t)[k]).rate
                        == t[i].speed_mbps->0;
                if let Some(m) = s.last().speed_mbps {
                    assert(tallies(s) == tallied(tallies(t), m));
                    assert(has_rate(tallies(t), tallies(t)[k].rate));
                    assert(has_rate(tallies(s), tallies(t)[k].rate));
                } else {
                    assert(tallies(s) == tallies(t));
                    assert(tallies(s)[k].rate == s[i].speed_mbps->0);
                }
            } else {
                let m = s.last().speed_mbps->0;
                assert(tallies(s) == tallied(tallies(t), m));
                assert(has_rate(tallied(tallies(t), m), m));
            }
        }
        assert forall|m: Decimal|
            (forall|i: int|
                0 <= i < s.len() && (#[trigger] s[i]).speed_mbps is Some ==> s[i].speed_mbps->0
                    == m) implies (#[trigger] only(tallies(s), m)) by {
            assert forall|i: int|
                0 <= i < t.len() && (#[trigger] t[i]).speed_mbps is Some implies t[i].speed_mbps->0
                == m by {
                assert(s[i].speed_mbps is Some);
            }
            assert(only(tallies(t), m));
        }
    }
    if exists|i: int, j: int|
        0 <= i < s.len() && 0 <= j < s.len() && (#[trigger] s[i]).speed_mbps is Some && (
        #[trigger] s[j]).speed_mbps is Some && s[i].speed_mbps != s[j].speed_mbps {
        let (i, j) = choose|i: int, j: int|
            0 <= i < s.len() && 0 <= j < s.len() && (#[trigger] s[i]).speed_mbps is Some && (
            #[trigger] s[j]).speed_mbps is Some && s[i].speed_mbps != s[j].speed_mbps;
        let k = choose|k: int|
            0 <= k < tallies(s).len() && (#[trigger] tallies(s)[k]).rate == s[i].speed_mbps->0;
        let l = choose|l: int|
            0 <= l < tallies(s).len() && (#[trigger] tallies(s)[l]).rate == s[j].speed_mbps->0;
        assert(k != l);
    }
}

/// No entry, or one of this rate.
pub open spec fn only(s: Seq<Tally>, m: Decimal) -> bool {
    s.len() <= 1 && (s.len() == 1 ==> s[0].rate == m)
}

spec fn has_rate(s: Seq<Tally>, m: Decimal) -> bool {
    exists|k: int| 0 <= k < s.len() && (#[trigger] s[k]).rate == m
}

proof fn lemma_tallied(s: Seq<Tally>, m: Decimal)
    ensures
        forall|r: Decimal| #[trigger] has_rate(tallied(s, m), r) <==> has_rate(s, r) || r == m,
        only(s, m) ==> only(tallied(s, m), m),
    decreases s.len(),
{
    let u = tallied(s, m);
    if s.len() == 0 {
        assert(u[0].rate == m);
    } else {
        let rest = s.skip(1);
        lemma_tallied(rest, m);
        let v = if s[0].rate == m {
            rest
        } else if crate::cycling::slower(m, s[0].rate) {
            s
        } else {
            tallied(rest, m)
        };
        assert(u.skip(1) =~= v);
        assert forall|r: Decimal| #[trigger] has_rate(u, r) <==> has_rate(s, r) || r == m by {
            lemma_split(s, r);
            lemma_split(u, r);
        }
    }
}

proof fn lemma_split(s: Seq<Tally>, r: Decimal)
    requires
        s.len() > 0,
    ensures
        has_rate(s, r) <==> s[0].rate == r || has_rate(s.skip(1), r),
{
    if has_rate(s, r) {
        let k = choose|k: int| 0 <= k < s.len() && (#[trigger] s[k]).rate == r;
        if k > 0 {
            assert(s.skip(1)[k - 1].rate == r);
        }
    }
    if has_rate(s.skip(1), r) {
        let k = choose|k: int| 0 <= k < s.skip(1).len() && (#[trigger] s.skip(1)[k]).rate == r;
        assert(s[k + 1].rate == r);
    }
}

} // verus!
