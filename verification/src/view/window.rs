//! The window: what it has on screen, and what each event does to that.
//!
//! Captures run one at a time, and a view that refreshes on every device event
//! must not read the kernel log on every one: that costs more than everything
//! else put together. A log that is reused makes findings late, never wrong.

use std::collections::hash_map::DefaultHasher;
use vstd::prelude::*;
use vstd::std_specs::hash::DefaultHasherAdditionalSpecFns;
use crate::fingerprint::written;
use crate::kind::DeviceKind;
use crate::model::{
    About, Finding, KernelLog, Report, Severity, Snapshot, Subject, TypecPort, UsbDevice,
    Verdict,
};
use crate::seqs::{first_of, lemma_first_of, lemma_take_all, lemma_take_more, pointee};
use crate::snapshot::lemma_first_stays;
use crate::text::{
    fill2, filled, join, joined, no_texts, opt_text, owned, push_text, same, texts,
};
use crate::view::detail::{gravity, weigh};
use crate::view::labels::{labels, same_labels, same_note};
use crate::view::sidebar::{
    find_port, machine_name, name_machine, place_of, port_of, port_place,
};

verus! {

/// The kinds a user can set, in the order they are offered.
///
/// `Unknown` is not one of them: a label that asserts nothing would still
/// override the class code.
pub const KINDS: [DeviceKind; 14] = [
    DeviceKind::Hub,
    DeviceKind::Keyboard,
    DeviceKind::Mouse,
    DeviceKind::InputDevice,
    DeviceKind::Storage,
    DeviceKind::Audio,
    DeviceKind::Camera,
    DeviceKind::Imaging,
    DeviceKind::Printer,
    DeviceKind::Network,
    DeviceKind::SmartcardReader,
    DeviceKind::Billboard,
    DeviceKind::Wireless,
    DeviceKind::Diagnostic,
];

/// How old a kernel log may be before it is read again.
pub const LOG_REFRESH_MS: u64 = 10_000;

// ---------------------------------------------------------------------------
// where to start
// ---------------------------------------------------------------------------

/// The gravest verdict; of equals, the last.
pub open spec fn gravest(s: Seq<Verdict>) -> Option<Verdict>
    decreases s.len(),
{
    if s.len() == 0 {
        None
    } else {
        match gravest(s.drop_last()) {
            Some(b) if gravity(b.outcome) > gravity(s.last().outcome) => Some(b),
            _ => Some(s.last()),
        }
    }
}

/// The most severe finding; of equals, the last.
pub open spec fn most_severe(s: Seq<Finding>) -> Option<Finding>
    decreases s.len(),
{
    if s.len() == 0 {
        None
    } else {
        match most_severe(s.drop_last()) {
            Some(b) if b.severity.weight() > s.last().severity.weight() => Some(b),
            _ => Some(s.last()),
        }
    }
}

/// The worst thing on the machine: what the window opens on.
pub open spec fn worst_about(r: Report) -> About {
    match gravest(r.verdicts@) {
        Some(v) if !(v.outcome is Clear) => v.subject@,
        _ => match most_severe(r.findings@) {
            Some(f) if f.severity.weight() >= Severity::Medium.weight() => f.subject@,
            _ => About::Host,
        },
    }
}

fn find_gravest(s: &Vec<Verdict>) -> (r: Option<&Verdict>)
    ensures
        pointee(r) == gravest(s@),
{
    let mut best: Option<&Verdict> = None;
    let mut i: usize = 0;
    while i < s.len()
        invariant
            i <= s@.len(),
            pointee(best) == gravest(s@.take(i as int)),
        decreases s@.len() - i,
    {
        proof {
            lemma_take_more(s@, i as int);
        }
        let stays = match best {
            Some(b) => weigh(b.outcome) > weigh(s[i].outcome),
            None => false,
        };
        if !stays {
            best = Some(&s[i]);
        }
        i += 1;
    }
    proof {
        lemma_take_all(s@);
    }
    best
}

fn find_most_severe(s: &Vec<Finding>) -> (r: Option<&Finding>)
    ensures
        pointee(r) == most_severe(s@),
{
    let mut best: Option<&Finding> = None;
    let mut i: usize = 0;
    while i < s.len()
        invariant
            i <= s@.len(),
            pointee(best) == most_severe(s@.take(i as int)),
        decreases s@.len() - i,
    {
        proof {
            lemma_take_more(s@, i as int);
        }
        let stays = match best {
            Some(b) => b.severity.rank() > s[i].severity.rank(),
            None => false,
        };
        if !stays {
            best = Some(&s[i]);
        }
        i += 1;
    }
    proof {
        lemma_take_all(s@);
    }
    best
}

pub fn worst_subject(report: &Report) -> (r: Subject)
    ensures
        r@ == worst_about(*report),
{
    if let Some(v) = find_gravest(&report.verdicts) {
        if weigh(v.outcome) > 0 {
            return v.subject.copy();
        }
    }
    if let Some(f) = find_most_severe(&report.findings) {
        if f.severity.rank() >= Severity::Medium.rank() {
            return f.subject.copy();
        }
    }
    Subject::Host
}

// ---------------------------------------------------------------------------
// news
// ---------------------------------------------------------------------------

/// What a finding is known by: the same code on two ports is two problems.
pub open spec fn key_of(f: Finding) -> (Seq<char>, Seq<char>) {
    (f.code@, f.subject@.shown())
}

pub open spec fn keys_of(s: Seq<Finding>) -> Seq<(Seq<char>, Seq<char>)> {
    Seq::new(s.len(), |i: int| key_of(s[i]))
}

pub open spec fn pairs(v: Seq<(String, String)>) -> Seq<(Seq<char>, Seq<char>)> {
    Seq::new(v.len(), |i: int| (v[i].0@, v[i].1@))
}

fn list_keys(s: &Vec<Finding>) -> (r: Vec<(String, String)>)
    ensures
        pairs(r@) == keys_of(s@),
{
    let mut out: Vec<(String, String)> = Vec::new();
    let mut i: usize = 0;
    while i < s.len()
        invariant
            i <= s@.len(),
            out@.len() == i,
            forall|j: int|
                0 <= j < i ==> ((#[trigger] out@[j]).0@, out@[j].1@) == key_of(s@[j]),
        decreases s@.len() - i,
    {
        out.push((s[i].code.clone(), s[i].subject.display()));
        i += 1;
    }
    assert(pairs(out@) =~= keys_of(s@));
    out
}

fn has_key(v: &Vec<(String, String)>, code: &str, subject: &str) -> (r: bool)
    ensures
        r == pairs(v@).contains((code@, subject@)),
{
    let mut i: usize = 0;
    while i < v.len()
        invariant
            i <= v@.len(),
            forall|j: int| 0 <= j < i ==> (#[trigger] pairs(v@)[j]) != (code@, subject@),
        decreases v@.len() - i,
    {
        assert(pairs(v@)[i as int] == (v@[i as int].0@, v@[i as int].1@));
        if same(v[i].0.as_str(), code) && same(v[i].1.as_str(), subject) {
            return true;
        }
        i += 1;
    }
    false
}

/// A grave finding that was not there before.
pub open spec fn is_news(seen: Seq<(Seq<char>, Seq<char>)>) -> spec_fn(Finding) -> bool {
    |f: Finding| f.severity.weight() >= Severity::High.weight() && !seen.contains(key_of(f))
}

pub const NEWS: &'static str = "{} \u{2014} {}";

/// What is announced of some findings.
pub open spec fn announced(s: Seq<Finding>, seen: Seq<(Seq<char>, Seq<char>)>) -> Option<
    Seq<char>,
> {
    match first_of(s, is_news(seen)) {
        Some(f) => Some(filled(NEWS@, seq![f.subject@.shown(), f.title@])),
        None => None,
    }
}

fn announce(s: &Vec<Finding>, seen: &Vec<(String, String)>) -> (r: Option<String>)
    ensures
        opt_text(r) == announced(s@, pairs(seen@)),
{
    let ghost p = is_news(pairs(seen@));
    let mut i: usize = 0;
    while i < s.len()
        invariant
            i <= s@.len(),
            p == is_news(pairs(seen@)),
            first_of(s@.take(i as int), p) is None,
        decreases s@.len() - i,
    {
        proof {
            lemma_take_more(s@, i as int);
        }
        let f = &s[i];
        let shown = f.subject.display();
        if f.severity.rank() >= Severity::High.rank() && !has_key(
            seen,
            f.code.as_str(),
            shown.as_str(),
        ) {
            proof {
                lemma_first_stays(s@, i + 1, p);
            }
            return Some(fill2(NEWS, shown.as_str(), f.title.as_str()));
        }
        i += 1;
    }
    proof {
        lemma_take_all(s@);
    }
    None
}

// ---------------------------------------------------------------------------
// the window
// ---------------------------------------------------------------------------

/// Whether a report has what a subject names.
pub open spec fn names_something(snap: Snapshot, a: About) -> bool {
    match a {
        About::Host => true,
        About::Port(n) | About::Cable(n) => port_of(snap, n) is Some,
        About::Device(n) => snap.named(n) is Some,
    }
}

pub fn is_present(snap: &Snapshot, s: &Subject) -> (r: bool)
    ensures
        r == names_something(*snap, s@),
{
    match s {
        Subject::Host => true,
        Subject::Port(n) => find_port(snap, n.as_str()).is_some(),
        Subject::Cable(n) => find_port(snap, n.as_str()).is_some(),
        Subject::Device(n) => snap.device(n.as_str()).is_some(),
    }
}

/// What an event asks of whoever runs captures.
#[derive(Debug, Clone, Copy, PartialEq, Eq, Structural)]
pub enum Start {
    Nothing,
    /// Run one, with the log at hand where `reuse` is set. Where it is not, the
    /// log is read now, and its age counts from here.
    Capture { reuse: bool },
}

/// What is on screen, and what is under way.
pub struct Window {
    pub report: Report,
    pub selected: Subject,
    pub show_hubs: bool,
    /// Whether there is an event source.
    pub live: bool,
    pub note: Option<String>,
    /// A capture is in flight; a second one must not be started under it.
    pub capturing: bool,
    /// Something changed while a capture was in flight, so run another.
    pub again: bool,
    /// The log of a capture that was not taken on screen.
    pub spare_log: Option<KernelLog>,
    /// The fingerprint of what is on screen, once a capture has been taken.
    pub fingerprint: Option<u64>,
    /// Findings already seen, so that an arriving fault can be told from a
    /// standing one.
    pub seen: Vec<(String, String)>,
    pub banner: Option<String>,
    /// Changes whenever what is drawn has to be drawn anew.
    pub revision: u64,
}

pub open spec fn print_of(snap: Snapshot) -> u64 {
    DefaultHasher::spec_finish(written(snap.marks()))
}

impl Window {
    /// The newest log read, which a capture may reuse.
    pub open spec fn newest_log(self) -> Option<KernelLog> {
        match self.spare_log {
            Some(l) => Some(l),
            None => if self.fingerprint is Some {
                Some(self.report.snapshot.kernel_log)
            } else {
                None
            },
        }
    }

    pub fn log(&self) -> (r: Option<&KernelLog>)
        ensures
            pointee(r) == self.newest_log(),
    {
        match &self.spare_log {
            Some(l) => Some(l),
            None => if self.fingerprint.is_some() {
                Some(&self.report.snapshot.kernel_log)
            } else {
                None
            },
        }
    }

    /// A window on a first report. Everything in it counts as seen: a fault that
    /// was there from the start did not just happen.
    pub fn new(report: Report) -> (r: Self)
        ensures
            r.report == report,
            r.selected@ == worst_about(report),
            !r.show_hubs && !r.live && r.note is None,
            !r.capturing && !r.again,
            r.newest_log() is None,
            r.fingerprint is None,
            pairs(r.seen@) == keys_of(report.findings@),
            r.banner is None,
            r.revision == 1,
    {
        let selected = worst_subject(&report);
        let seen = list_keys(&report.findings);
        Window {
            report,
            selected,
            show_hubs: false,
            live: false,
            note: None,
            capturing: false,
            again: false,
            spare_log: None,
            fingerprint: None,
            seen,
            banner: None,
            revision: 1,
        }
    }

    /// Everything but what is under way.
    pub open spec fn same_screen(self, other: Window) -> bool {
        &&& self.report == other.report
        &&& self.selected == other.selected
        &&& self.show_hubs == other.show_hubs
        &&& self.live == other.live
        &&& self.note == other.note
        &&& self.fingerprint == other.fingerprint
        &&& self.seen == other.seen
        &&& self.banner == other.banner
        &&& self.revision == other.revision
    }

    /// Asks for a capture. `fresh_log` has the log read in any case.
    pub fn start_capture(&mut self, fresh_log: bool, log_age_ms: u64) -> (r: Start)
        ensures
            final(self).same_screen(*old(self)),
            final(self).spare_log == old(self).spare_log,
            final(self).capturing,
            old(self).capturing ==> r == Start::Nothing && final(self).again,
            !old(self).capturing ==> final(self).again == old(self).again && r == (
            Start::Capture { reuse: !fresh_log && log_age_ms < LOG_REFRESH_MS }),
    {
        if self.capturing {
            self.again = true;
            return Start::Nothing;
        }
        self.capturing = true;
        Start::Capture { reuse: !(fresh_log || log_age_ms >= LOG_REFRESH_MS) }
    }

    /// The event source woke up. A bare tick of the fallback timer is no reason
    /// to read the log.
    pub fn woke(&mut self, events: usize, log_age_ms: u64) -> (r: Start)
        ensures
            final(self).same_screen(*old(self)),
            final(self).spare_log == old(self).spare_log,
            final(self).capturing,
            old(self).capturing ==> r == Start::Nothing && final(self).again,
            !old(self).capturing ==> final(self).again == old(self).again && r == (
            Start::Capture { reuse: events == 0 && log_age_ms < LOG_REFRESH_MS }),
    {
        self.start_capture(events > 0, log_age_ms)
    }

    /// Whether a capture is worth taking on screen: the hardware changed, or a
    /// label did.
    pub open spec fn differs(self, report: Report) -> bool {
        self.fingerprint != Some(print_of(report.snapshot)) || labels(report.snapshot) != labels(
            self.report.snapshot,
        )
    }

    /// Whether this window has taken a report on screen.
    pub open spec fn took(self, before: Window, report: Report) -> bool {
        &&& self.report == report
        &&& self.fingerprint == Some(print_of(report.snapshot))
        &&& opt_text(self.banner) == announced(report.findings@, pairs(before.seen@))
        &&& pairs(self.seen@) == keys_of(report.findings@)
        &&& self.selected@ == (if names_something(report.snapshot, before.selected@) {
            before.selected@
        } else {
            worst_about(report)
        })
        &&& self.revision == before.revision + 1
        &&& self.show_hubs == before.show_hubs
        &&& self.live == before.live
        &&& self.note == before.note
    }

    fn adopt(&mut self, report: Report, fingerprint: u64)
        requires
            old(self).revision < u64::MAX,
            fingerprint == print_of(report.snapshot),
        ensures
            final(self).took(*old(self), report),
            final(self).spare_log is None,
            final(self).capturing == old(self).capturing,
            final(self).again == old(self).again,
    {
        self.fingerprint = Some(fingerprint);
        self.banner = announce(&report.findings, &self.seen);
        self.seen = list_keys(&report.findings);
        self.spare_log = None;
        if !is_present(&report.snapshot, &self.selected) {
            self.selected = worst_subject(&report);
        }
        self.report = report;
        self.revision = self.revision + 1;
    }

    /// A capture came back. It is taken on screen only where it differs, so that
    /// the view stays still while nothing happens; its log is kept either way.
    /// Where something changed meanwhile, another is asked for.
    pub fn captured(&mut self, report: Report, log_age_ms: u64) -> (r: Start)
        requires
            old(self).revision < u64::MAX,
        ensures
            old(self).differs(report) ==> final(self).took(*old(self), report),
            !old(self).differs(report) ==> final(self).same_screen(*old(self)),
            final(self).newest_log() == Some(report.snapshot.kernel_log),
            !final(self).again,
            final(self).capturing == old(self).again,
            r == (if old(self).again {
                Start::Capture { reuse: log_age_ms < LOG_REFRESH_MS }
            } else {
                Start::Nothing
            }),
    {
        self.capturing = false;
        let fingerprint = report.snapshot.fingerprint();
        let known = match self.fingerprint {
            Some(f) => f == fingerprint,
            None => false,
        };
        if !known || !same_labels(&report.snapshot, &self.report.snapshot) {
            self.adopt(report, fingerprint);
        } else {
            self.spare_log = Some(report.snapshot.kernel_log);
        }
        if self.again {
            self.again = false;
            self.start_capture(false, log_age_ms)
        } else {
            Start::Nothing
        }
    }

    /// A probe came back with a report of its own. It is taken on screen as it
    /// is; a capture in flight stays in flight.
    pub fn probed(&mut self, report: Report)
        requires
            old(self).revision < u64::MAX,
        ensures
            final(self).took(*old(self), report),
            final(self).newest_log() == Some(report.snapshot.kernel_log),
            final(self).capturing == old(self).capturing,
            final(self).again == old(self).again,
    {
        let fingerprint = report.snapshot.fingerprint();
        self.adopt(report, fingerprint);
    }

    /// What the event source turned out to be.
    pub fn source(&mut self, live: bool, note: Option<String>)
        ensures
            *final(self) == (if old(self).live == live && opt_text(old(self).note) == opt_text(
                note,
            ) {
                *old(self)
            } else {
                (Window { live, note, ..*old(self) })
            }),
    {
        if self.live != live || !same_note(&self.note, &note) {
            self.live = live;
            self.note = note;
        }
    }

    /// Selects a subject. Drawing anew is due only where it was another.
    pub fn select(&mut self, s: Subject)
        requires
            old(self).revision < u64::MAX,
        ensures
            *final(self) == (if old(self).selected@ == s@ {
                *old(self)
            } else {
                (Window { selected: s, revision: (old(self).revision + 1) as u64, ..*old(self) })
            }),
    {
        if !self.selected.is(&s) {
            self.selected = s;
            self.revision = self.revision + 1;
        }
    }

    pub fn toggle_hubs(&mut self)
        requires
            old(self).revision < u64::MAX,
        ensures
            *final(self) == (Window {
                show_hubs: !old(self).show_hubs,
                revision: (old(self).revision + 1) as u64,
                ..*old(self)
            }),
    {
        self.show_hubs = !self.show_hubs;
        self.revision = self.revision + 1;
    }

    pub fn dismiss_banner(&mut self)
        ensures
            *final(self) == (Window { banner: None, ..*old(self) }),
    {
        self.banner = None;
    }

    /// Says something that is not a finding: what could not be stored, and why.
    pub fn warn(&mut self, text: String)
        ensures
            *final(self) == (Window { banner: Some(text), ..*old(self) }),
    {
        self.banner = Some(text);
    }

    /// The pane's title.
    pub fn title(&self) -> (r: String)
        ensures
            r@ == title_of(self.report.snapshot, self.selected@),
    {
        match &self.selected {
            Subject::Host => owned("This machine"),
            Subject::Port(n) => n.clone(),
            Subject::Cable(n) => n.clone(),
            Subject::Device(n) => match self.report.snapshot.device(n.as_str()) {
                Some(d) => d.label(),
                None => n.clone(),
            },
        }
    }

    /// What is said about where changes are heard of.
    pub fn live_tooltip(&self) -> (r: String)
        ensures
            r@ == (match opt_text(self.note) {
                Some(n) => n,
                None => if self.live {
                    "Updating from udev events"@
                } else {
                    "No event source; polling"@
                },
            }),
    {
        match &self.note {
            Some(n) => n.clone(),
            None => if self.live {
                owned("Updating from udev events")
            } else {
                owned("No event source; polling")
            },
        }
    }

    /// The line below the pane's title.
    pub fn subtitle(&self) -> (r: String)
        ensures
            r@ == subtitle_of(self.report.snapshot, self.selected@),
    {
        let snap = &self.report.snapshot;
        match &self.selected {
            Subject::Host => host_subtitle(snap),
            Subject::Port(n) => port_subtitle(snap, n.as_str()),
            Subject::Cable(n) => port_subtitle(snap, n.as_str()),
            Subject::Device(n) => device_subtitle(snap, n.as_str()),
        }
    }
}

pub open spec fn title_of(snap: Snapshot, a: About) -> Seq<char> {
    match a {
        About::Host => "This machine"@,
        About::Port(n) | About::Cable(n) => n,
        About::Device(n) => match snap.named(n) {
            Some(d) => d.called(),
            None => n,
        },
    }
}

pub open spec fn if_known(o: Option<Seq<char>>) -> Seq<Seq<char>> {
    match o {
        Some(t) => seq![t],
        None => Seq::empty(),
    }
}

pub open spec fn role_shown(p: TypecPort) -> Option<Seq<char>> {
    match p.power_role {
        Some(r) => Some(r.shown()),
        None => None,
    }
}

pub open spec fn port_bits(p: TypecPort) -> Seq<Seq<char>> {
    if_known(place_of(p)) + if_known(role_shown(p))
}

/// A device's kind with where it came from: one that a user set must not look
/// like one that the device declared.
pub open spec fn kind_known(d: UsbDevice) -> Option<Seq<char>> {
    if d.identified().kind == DeviceKind::Unknown {
        None
    } else {
        Some(d.identified().described())
    }
}

pub open spec fn speed_known(d: UsbDevice) -> Option<Seq<char>> {
    match d.speed {
        Some(s) => Some(s.label@),
        None => None,
    }
}

pub open spec fn device_bits(name: Seq<char>, d: UsbDevice) -> Seq<Seq<char>> {
    seq![name] + if_known(kind_known(d)) + if_known(speed_known(d))
}

pub open spec fn subtitle_of(snap: Snapshot, a: About) -> Seq<char> {
    match a {
        About::Host => joined(
            if_known(opt_text(snap.host.sys_vendor)) + if_known(opt_text(snap.host.product_name)),
            " "@,
        ),
        About::Port(n) | About::Cable(n) => match port_of(snap, n) {
            Some(p) => joined(port_bits(p), " \u{00b7} "@),
            None => ""@,
        },
        About::Device(n) => match snap.named(n) {
            Some(d) => joined(device_bits(n, d), " \u{00b7} "@),
            None => n,
        },
    }
}

fn host_subtitle(snap: &Snapshot) -> (r: String)
    ensures
        r@ == subtitle_of(*snap, About::Host),
{
    let mut bits = no_texts();
    if let Some(v) = &snap.host.sys_vendor {
        push_text(&mut bits, v.clone());
    }
    assert(texts(bits@) =~= if_known(opt_text(snap.host.sys_vendor)));
    if let Some(p) = &snap.host.product_name {
        push_text(&mut bits, p.clone());
    }
    assert(texts(bits@) =~= if_known(opt_text(snap.host.sys_vendor)) + if_known(
        opt_text(snap.host.product_name),
    ));
    join(&bits, " ")
}

fn port_subtitle(snap: &Snapshot, name: &str) -> (r: String)
    ensures
        r@ == subtitle_of(*snap, About::Port(name@)),
{
    match find_port(snap, name) {
        Some(p) => {
            let mut bits = no_texts();
            if let Some(place) = port_place(p) {
                push_text(&mut bits, place);
            }
            assert(texts(bits@) =~= if_known(place_of(*p)));
            if let Some(role) = &p.power_role {
                push_text(&mut bits, role.display());
            }
            assert(texts(bits@) =~= port_bits(*p));
            join(&bits, " \u{00b7} ")
        },
        None => owned(""),
    }
}

fn device_subtitle(snap: &Snapshot, name: &str) -> (r: String)
    ensures
        r@ == subtitle_of(*snap, About::Device(name@)),
{
    match snap.device(name) {
        Some(d) => {
            let mut bits = no_texts();
            push_text(&mut bits, owned(name));
            assert(texts(bits@) =~= seq![name@]);
            let kind = d.kind();
            if kind.is_known() {
                push_text(&mut bits, kind.describe());
            }
            assert(texts(bits@) =~= seq![name@] + if_known(kind_known(*d)));
            if let Some(s) = &d.speed {
                push_text(&mut bits, s.label.clone());
            }
            assert(texts(bits@) =~= device_bits(name@, *d));
            join(&bits, " \u{00b7} ")
        },
        None => owned(name),
    }
}

/// The machine in one line.
pub fn host_line(snap: &Snapshot) -> (r: String)
    ensures
        r@ == machine_name(*snap, "this machine"@),
{
    name_machine(snap, "this machine")
}

// ---------------------------------------------------------------------------
// laws
// ---------------------------------------------------------------------------

/// A capture with the same fingerprint and the same labels as what is on screen
/// changes nothing there.
pub proof fn nothing_happening_changes_nothing(w: Window, report: Report)
    requires
        w.fingerprint == Some(print_of(report.snapshot)),
        labels(report.snapshot) == labels(w.report.snapshot),
    ensures
        !w.differs(report),
{
}

/// Only what arrived is announced: findings that were all seen before bring no
/// banner.
pub proof fn a_standing_fault_is_not_announced(
    s: Seq<Finding>,
    seen: Seq<(Seq<char>, Seq<char>)>,
)
    requires
        forall|i: int| 0 <= i < s.len() ==> seen.contains(key_of(#[trigger] s[i])),
    ensures
        announced(s, seen) is None,
{
    lemma_first_of(s, is_news(seen));
}

/// A grave finding that was not seen before is announced.
pub proof fn an_arriving_fault_is_announced(
    s: Seq<Finding>,
    seen: Seq<(Seq<char>, Seq<char>)>,
    i: int,
)
    requires
        0 <= i < s.len(),
        s[i].severity.weight() >= Severity::High.weight(),
        !seen.contains(key_of(s[i])),
    ensures
        announced(s, seen) is Some,
{
    lemma_first_of(s, is_news(seen));
    assert(is_news(seen)(s[i]));
}

/// The window opens on the worst verdict there is, unless all of them are clear.
pub proof fn the_window_opens_on_the_worst(r: Report, i: int)
    requires
        0 <= i < r.verdicts@.len(),
        !(r.verdicts@[i].outcome is Clear),
    ensures
        gravest(r.verdicts@) matches Some(v) && gravity(v.outcome) >= gravity(
            r.verdicts@[i].outcome,
        ) && worst_about(r) == v.subject@,
{
    lemma_gravest(r.verdicts@, i);
}

proof fn lemma_gravest(s: Seq<Verdict>, i: int)
    requires
        0 <= i < s.len(),
    ensures
        gravest(s) matches Some(v) && gravity(v.outcome) >= gravity(s[i].outcome),
    decreases s.len(),
{
    if i < s.len() - 1 {
        assert(s.drop_last()[i] == s[i]);
        lemma_gravest(s.drop_last(), i);
    }
}

} // verus!
