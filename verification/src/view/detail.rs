//! The pane about one subject.
//!
//! It runs from the verdict to what was ruled out, what was found, the chain
//! that supports it, and what cannot be answered. Nothing here composes a
//! sentence about the hardware: a headline is a finding's title and a paragraph
//! is a finding's detail, both word for word. The one exception is the fixed text for
//! a subject no rule fired on, which says that and claims nothing else.

use vstd::prelude::*;
use crate::chain::{data, data_stages, is_chain, power, power_stages, Chain, ChainKind};
use crate::kind::{classified, DeviceKind, KindSource};
use crate::model::{
    About, Declaration, Finding, KernelLogSource, Outcome, Report, Severity, Snapshot,
    Subject, UsbDevice, Verdict,
};
use crate::number::{dec, number};
use crate::report::{the_worst_is_reached_and_not_passed, worst};
use crate::seqs::{
    first_of, kept, lemma_first_of, lemma_take_all, lemma_take_more, pointee, pointees,
};
use crate::snapshot::{below_path, lemma_first_stays};
use crate::text::{
    copy_texts, fill1, fill2, filled, lower, lowered, no_texts, opt_text, owned, push_text, same,
    texts,
};
use crate::view::findings::{
    about, cleared_row, covers, exoneration_row, finding_row, pane_findings, row, shows,
    the_worst_stands_first, Row, RowText,
};
use crate::view::sidebar::{find_port, plural, plural_ending, port_of};
use crate::view::window::KINDS;

verus! {

/// What "nothing fired" is allowed to say. It is no clean bill of health: no
/// rule looking at something is not the same as every rule passing over it.
pub const NOTHING_FIRED: &'static str = "No rule fired for this subject, in either direction. That is weaker than a clean bill of health \u{2014} it means nothing was concluded here, not that everything was checked and passed.";

// ---------------------------------------------------------------------------
// verdict
// ---------------------------------------------------------------------------

pub open spec fn gravity(o: Outcome) -> int {
    match o {
        Outcome::Fault => 2,
        Outcome::Minor => 1,
        Outcome::Clear => 0,
    }
}

pub fn weigh(o: Outcome) -> (r: u8)
    ensures
        r == gravity(o),
{
    match o {
        Outcome::Fault => 2,
        Outcome::Minor => 1,
        Outcome::Clear => 0,
    }
}

/// How much a verdict asks to lead a pane: by its outcome, and among equals the
/// one on the pane's own subject.
pub open spec fn claim_to_lead(v: Verdict, pane: About) -> int {
    2 * gravity(v.outcome) + (if v.subject@ == pane {
        1int
    } else {
        0int
    })
}

/// The verdict a pane leads with; of two with the same claim, the later.
pub open spec fn leading_verdict(s: Seq<Verdict>, pane: About) -> Option<Verdict>
    decreases s.len(),
{
    if s.len() == 0 {
        None
    } else {
        let before = leading_verdict(s.drop_last(), pane);
        if !shows(pane, s.last().subject@) {
            before
        } else {
            match before {
                Some(b) if claim_to_lead(b, pane) > claim_to_lead(s.last(), pane) => before,
                _ => Some(s.last()),
            }
        }
    }
}

fn weigh_claim(v: &Verdict, pane: &Subject) -> (r: u8)
    ensures
        r == claim_to_lead(*v, pane@),
{
    let own: u8 = if v.subject.is(pane) {
        1
    } else {
        0
    };
    2 * weigh(v.outcome) + own
}

/// The verdict a pane should lead with. A port's pane covers its cable too:
/// leading with the port's all-clear while the cable's verdict says that
/// something is wrong would bury the answer.
pub fn worst_verdict<'a>(report: &'a Report, subject: &Subject) -> (r: Option<&'a Verdict>)
    ensures
        pointee(r) == leading_verdict(report.verdicts@, subject@),
{
    let vs = &report.verdicts;
    let mut best: Option<&'a Verdict> = None;
    let mut i: usize = 0;
    while i < vs.len()
        invariant
            i <= vs@.len(),
            *vs == report.verdicts,
            pointee(best) == leading_verdict(vs@.take(i as int), subject@),
        decreases vs@.len() - i,
    {
        proof {
            lemma_take_more(vs@, i as int);
        }
        let v: &'a Verdict = &vs[i];
        if covers(subject, &v.subject) {
            let stays = match best {
                Some(b) => weigh_claim(b, subject) > weigh_claim(v, subject),
                None => false,
            };
            if !stays {
                best = Some(v);
            }
        }
        i += 1;
    }
    proof {
        lemma_take_all(vs@);
    }
    best
}

pub open spec fn titled(pane: About, headline: Seq<char>) -> spec_fn(Finding) -> bool {
    |f: Finding| shows(pane, f.subject@) && f.title@ == headline
}

/// The finding or exoneration a headline was quoted from.
pub open spec fn quotation(r: Report, pane: About, headline: Seq<char>) -> Option<Finding> {
    match first_of(r.findings@, titled(pane, headline)) {
        Some(f) => Some(f),
        None => first_of(r.exonerations@, titled(pane, headline)),
    }
}

fn find_titled<'a>(v: &'a Vec<Finding>, subject: &Subject, headline: &str) -> (r: Option<
    &'a Finding,
>)
    ensures
        pointee(r) == first_of(v@, titled(subject@, headline@)),
{
    let ghost p = titled(subject@, headline@);
    let mut i: usize = 0;
    while i < v.len()
        invariant
            i <= v@.len(),
            p == titled(subject@, headline@),
            first_of(v@.take(i as int), p) is None,
        decreases v@.len() - i,
    {
        proof {
            lemma_take_more(v@, i as int);
        }
        if covers(subject, &v[i].subject) && same(v[i].title.as_str(), headline) {
            proof {
                lemma_first_stays(v@, i + 1, p);
            }
            return Some(&v[i]);
        }
        i += 1;
    }
    proof {
        lemma_take_all(v@);
    }
    None
}

pub fn quoted_from<'a>(report: &'a Report, subject: &Subject, headline: &str) -> (r: Option<
    &'a Finding,
>)
    ensures
        pointee(r) == quotation(*report, subject@, headline@),
{
    match find_titled(&report.findings, subject, headline) {
        Some(f) => Some(f),
        None => find_titled(&report.exonerations, subject, headline),
    }
}

/// The answer at the head of a pane.
#[derive(Debug, Clone)]
pub struct VerdictBlock {
    pub class: &'static str,
    pub glyph: &'static str,
    pub headline: String,
    /// The explanation: the detail of the finding the headline was taken from.
    pub text: Option<String>,
    /// The codes it rests on.
    pub because: Vec<String>,
}

pub struct VerdictText {
    pub class: Seq<char>,
    pub glyph: Seq<char>,
    pub headline: Seq<char>,
    pub text: Option<Seq<char>>,
    pub because: Seq<Seq<char>>,
}

impl View for VerdictBlock {
    type V = VerdictText;

    open spec fn view(&self) -> VerdictText {
        VerdictText {
            class: self.class@,
            glyph: self.glyph@,
            headline: self.headline@,
            text: opt_text(self.text),
            because: texts(self.because@),
        }
    }
}

pub open spec fn outcome_style(o: Outcome) -> Seq<char> {
    match o {
        Outcome::Fault => "fault"@,
        Outcome::Minor => "minor"@,
        Outcome::Clear => "clear"@,
    }
}

pub open spec fn outcome_glyph(o: Outcome) -> Seq<char> {
    match o {
        Outcome::Fault | Outcome::Minor => "!"@,
        Outcome::Clear => "\u{2713}"@,
    }
}

pub open spec fn outcome_of(v: Option<Verdict>) -> Outcome {
    match v {
        Some(v) => v.outcome,
        None => Outcome::Clear,
    }
}

pub open spec fn headline_of(v: Option<Verdict>) -> Seq<char> {
    match v {
        Some(v) => v.headline@,
        None => Verdict::NOTHING_FOUND@,
    }
}

pub open spec fn grounds_of(v: Option<Verdict>) -> Seq<Seq<char>> {
    match v {
        Some(v) => texts(v.because@),
        None => Seq::empty(),
    }
}

/// The detail a verdict's headline was quoted with, where there is one.
pub open spec fn quoted_detail(r: Report, pane: About, v: Option<Verdict>) -> Seq<char> {
    match v {
        Some(v) => match quotation(r, pane, v.headline@) {
            Some(f) => f.detail@,
            None => Seq::empty(),
        },
        None => Seq::empty(),
    }
}

pub open spec fn explanation(r: Report, pane: About, v: Option<Verdict>) -> Option<Seq<char>> {
    if quoted_detail(r, pane, v).len() > 0 {
        Some(quoted_detail(r, pane, v))
    } else if pane_findings(r.findings@, pane).len() == 0 && grounds_of(v).len() == 0 {
        Some(NOTHING_FIRED@)
    } else {
        None
    }
}

pub open spec fn answer(r: Report, pane: About) -> VerdictText {
    let v = leading_verdict(r.verdicts@, pane);
    VerdictText {
        class: outcome_style(outcome_of(v)),
        glyph: outcome_glyph(outcome_of(v)),
        headline: headline_of(v),
        text: explanation(r, pane, v),
        because: grounds_of(v),
    }
}

fn explain<'a>(report: &'a Report, subject: &Subject, v: Option<&Verdict>) -> (r: Option<&'a str>)
    ensures
        match r {
            Some(t) => t@.len() > 0 && t@ == quoted_detail(*report, subject@, pointee(v)),
            None => quoted_detail(*report, subject@, pointee(v)).len() == 0,
        },
{
    match v {
        Some(v) => match quoted_from(report, subject, v.headline.as_str()) {
            Some(f) => if f.detail.as_str().is_empty() {
                None
            } else {
                Some(f.detail.as_str())
            },
            None => None,
        },
        None => None,
    }
}

pub fn verdict_block(report: &Report, subject: &Subject) -> (r: VerdictBlock)
    ensures
        r@ == answer(*report, subject@),
{
    let v = worst_verdict(report, subject);
    let mine = about(&report.findings, subject);
    assert(pointees(mine@).len() == mine@.len());
    let outcome = match v {
        Some(v) => v.outcome,
        None => Outcome::Clear,
    };
    let class = match outcome {
        Outcome::Fault => "fault",
        Outcome::Minor => "minor",
        Outcome::Clear => "clear",
    };
    let glyph = match outcome {
        Outcome::Fault | Outcome::Minor => "!",
        Outcome::Clear => "\u{2713}",
    };
    let headline = match v {
        Some(v) => v.headline.clone(),
        None => owned(Verdict::NOTHING_FOUND),
    };
    let because = match v {
        Some(v) => copy_texts(&v.because),
        None => no_texts(),
    };
    assert(texts(because@).len() == because@.len());
    let text = match explain(report, subject, v) {
        Some(d) => Some(owned(d)),
        None => if mine.len() == 0 && because.len() == 0 {
            Some(owned(NOTHING_FIRED))
        } else {
            None
        },
    };
    VerdictBlock { class, glyph, headline, text, because }
}

// ---------------------------------------------------------------------------
// what this is, and correcting it
// ---------------------------------------------------------------------------

/// The first entry where a kind is chosen: not a kind, but "stop overriding".
pub const AS_DECLARED: &'static str = "as the device says";

pub const YOU_SET_THIS: &'static str = "You set this. The device itself reports {}.";

pub const STORED_AGAINST: &'static str = " Stored against {} ({}).";

pub const IN_QUOTES: &'static str = "\u{201c}{}\u{201d}";

pub const MEDIUM_SET: &'static str = "Medium: {} \u{2014} set by you. The bus does not report this, and the throughput rule uses it as a yardstick.";

/// A device's kind, where it came from, and what can be chosen instead.
#[derive(Debug, Clone)]
pub struct KindCard {
    pub name: &'static str,
    pub source: &'static str,
    pub overridden: bool,
    /// The entry of [`choices`] that is in force.
    pub selected: usize,
    pub lines: Vec<String>,
}

pub struct KindText {
    pub name: Seq<char>,
    pub source: Seq<char>,
    pub overridden: bool,
    pub selected: int,
    pub lines: Seq<Seq<char>>,
}

impl View for KindCard {
    type V = KindText;

    open spec fn view(&self) -> KindText {
        KindText {
            name: self.name@,
            source: self.source@,
            overridden: self.overridden,
            selected: self.selected as int,
            lines: texts(self.lines@),
        }
    }
}

/// Where a kind stands among some, counted from one, or zero.
pub open spec fn entry_of(s: Seq<DeviceKind>, k: DeviceKind) -> int
    decreases s.len(),
{
    if s.len() == 0 {
        0
    } else {
        let before = entry_of(s.drop_last(), k);
        if before > 0 {
            before
        } else if s.last() == k {
            s.len() as int
        } else {
            0
        }
    }
}

proof fn lemma_entry_stays(s: Seq<DeviceKind>, i: int, k: DeviceKind)
    requires
        0 <= i <= s.len(),
        entry_of(s.take(i), k) > 0,
    ensures
        entry_of(s, k) == entry_of(s.take(i), k),
    decreases s.len() - i,
{
    if i < s.len() {
        lemma_take_more(s, i);
        lemma_entry_stays(s, i + 1, k);
    } else {
        lemma_take_all(s);
    }
}

fn find_entry(k: DeviceKind) -> (r: usize)
    ensures
        r == entry_of(KINDS@, k),
{
    let ghost s = KINDS@;
    let mut i: usize = 0;
    while i < 14
        invariant
            i <= 14,
            s == KINDS@,
            s.len() == 14,
            entry_of(s.take(i as int), k) == 0,
        decreases 14 - i,
    {
        proof {
            lemma_take_more(s, i as int);
        }
        if KINDS[i] == k {
            proof {
                lemma_entry_stays(s, i + 1, k);
            }
            return i + 1;
        }
        i += 1;
    }
    proof {
        lemma_take_all(s);
    }
    0
}

pub open spec fn stored_note(d: Option<Declaration>) -> Seq<char> {
    match d {
        Some(d) => filled(STORED_AGAINST@, seq![d.id@, d.scope()]),
        None => Seq::empty(),
    }
}

pub open spec fn override_lines(dev: UsbDevice) -> Seq<Seq<char>> {
    if dev.identified().source == KindSource::User {
        seq![
            filled(YOU_SET_THIS@, seq![classified(dev).kind.name()]) + stored_note(dev.declared),
        ]
    } else {
        Seq::empty()
    }
}

pub open spec fn note_lines(dev: UsbDevice) -> Seq<Seq<char>> {
    match dev.declared {
        Some(d) => match d.note {
            Some(n) => seq![filled(IN_QUOTES@, seq![n@])],
            None => Seq::empty(),
        },
        None => Seq::empty(),
    }
}

pub open spec fn medium_lines(dev: UsbDevice) -> Seq<Seq<char>> {
    match dev.declared {
        Some(d) => match d.medium {
            Some(m) => seq![filled(MEDIUM_SET@, seq![m.name()])],
            None => Seq::empty(),
        },
        None => Seq::empty(),
    }
}

pub open spec fn selected_kind(dev: UsbDevice) -> int {
    if dev.identified().source == KindSource::User {
        entry_of(KINDS@, dev.identified().kind)
    } else {
        0
    }
}

pub open spec fn what_this_is(dev: UsbDevice) -> KindText {
    KindText {
        name: dev.identified().kind.name(),
        source: dev.identified().source.name(),
        overridden: dev.identified().source == KindSource::User,
        selected: selected_kind(dev),
        lines: override_lines(dev) + note_lines(dev) + medium_lines(dev),
    }
}

/// The device's kind, where it came from, and what can be chosen instead. Where
/// a stored correction applies, what the device itself claimed stands next to
/// it: a correction nobody can see is a belief nobody can correct.
pub fn kind_card(dev: &UsbDevice) -> (r: KindCard)
    ensures
        r@ == what_this_is(*dev),
{
    let kind = dev.kind();
    let overridden = kind.source == KindSource::User;
    let selected: usize = if overridden {
        find_entry(kind.kind)
    } else {
        0
    };
    let mut lines = no_texts();
    if overridden {
        let says = dev.declared_kind();
        let mut line = fill1(YOU_SET_THIS, says.kind.label());
        if let Some(d) = &dev.declared {
            let stored = fill2(STORED_AGAINST, d.id.as_str(), d.scope_label());
            line.append(stored.as_str());
        } else {
            assert(line@ + Seq::<char>::empty() =~= line@);
        }
        push_text(&mut lines, line);
    }
    assert(texts(lines@) =~= override_lines(*dev));
    if let Some(d) = &dev.declared {
        if let Some(n) = &d.note {
            push_text(&mut lines, fill1(IN_QUOTES, n.as_str()));
        }
    }
    assert(texts(lines@) =~= override_lines(*dev) + note_lines(*dev));
    if let Some(d) = &dev.declared {
        if let Some(m) = d.medium {
            push_text(&mut lines, fill1(MEDIUM_SET, m.label()));
        }
    }
    assert(texts(lines@) =~= override_lines(*dev) + note_lines(*dev) + medium_lines(*dev));
    KindCard {
        name: kind.kind.label(),
        source: kind.source.label(),
        overridden,
        selected,
        lines,
    }
}

pub open spec fn choice_texts() -> Seq<Seq<char>> {
    Seq::new(
        15,
        |i: int|
            if i == 0 {
                AS_DECLARED@
            } else {
                KINDS[i - 1].name()
            },
    )
}

pub open spec fn words_of(v: Seq<&'static str>) -> Seq<Seq<char>> {
    Seq::new(v.len(), |i: int| v[i]@)
}

/// What a kind is chosen from.
pub fn choices() -> (r: Vec<&'static str>)
    ensures
        words_of(r@) == choice_texts(),
{
    let mut out: Vec<&'static str> = Vec::new();
    out.push(AS_DECLARED);
    let mut i: usize = 0;
    while i < 14
        invariant
            i <= 14,
            out@.len() == i + 1,
            forall|j: int| 0 <= j < out@.len() ==> (#[trigger] out@[j])@ == choice_texts()[j],
        decreases 14 - i,
    {
        let ghost before = out@;
        out.push(KINDS[i].label());
        assert forall|j: int| 0 <= j < out@.len() implies (#[trigger] out@[j])@
            == choice_texts()[j] by {
            if j < before.len() {
                assert(out@[j] == before[j]);
            }
        }
        i += 1;
    }
    assert(words_of(out@) =~= choice_texts());
    out
}

/// What choosing an entry asks for.
#[derive(Debug, Clone, Copy, PartialEq, Eq, Structural)]
pub enum Choice {
    /// The entry that is in force already. Storing it again would only give it a
    /// new date.
    Unchanged,
    /// Stop overriding.
    Clear,
    Take(DeviceKind),
}

pub open spec fn chosen(entry: int, current: int) -> Choice {
    if entry == current {
        Choice::Unchanged
    } else if entry == 0 {
        Choice::Clear
    } else {
        Choice::Take(KINDS@[entry - 1])
    }
}

pub fn choose_kind(entry: usize, current: usize) -> (r: Choice)
    requires
        entry <= 14,
    ensures
        r == chosen(entry as int, current as int),
{
    if entry == current {
        Choice::Unchanged
    } else if entry == 0 {
        Choice::Clear
    } else {
        Choice::Take(KINDS[entry - 1])
    }
}

// ---------------------------------------------------------------------------
// findings
// ---------------------------------------------------------------------------

pub const WORST_IS: &'static str = "worst is {}";

/// How bad it is, in words.
pub open spec fn rank_text(w: Option<Severity>) -> Seq<char> {
    match w {
        None => "nothing fired"@,
        Some(Severity::Info) => "nothing above info"@,
        Some(s) => filled(WORST_IS@, seq![lowered(s.name())]),
    }
}

/// How bad the worst of some findings is.
pub fn rank(mine: &Vec<&Finding>) -> (r: String)
    ensures
        r@ == rank_text(worst(pointees(mine@))),
{
    let ghost all = pointees(mine@);
    let mut gravest: Option<Severity> = None;
    let mut i: usize = 0;
    while i < mine.len()
        invariant
            i <= mine.len(),
            all == pointees(mine@),
            gravest == worst(all.take(i as int)),
        decreases mine.len() - i,
    {
        proof {
            lemma_take_more(all, i as int);
        }
        let s = mine[i].severity;
        gravest = match gravest {
            Some(w) => if w.rank() >= s.rank() {
                Some(w)
            } else {
                Some(s)
            },
            None => Some(s),
        };
        i += 1;
    }
    proof {
        lemma_take_all(all);
    }
    match gravest {
        None => owned("nothing fired"),
        Some(Severity::Info) => owned("nothing above info"),
        Some(s) => {
            let word = lower(s.label());
            fill1(WORST_IS, word.as_str())
        },
    }
}

pub open spec fn rows(v: Seq<Row>) -> Seq<RowText> {
    Seq::new(v.len(), |i: int| v[i]@)
}

pub open spec fn finding_rows(s: Seq<Finding>, tagged: bool) -> Seq<RowText> {
    Seq::new(s.len(), |i: int| finding_row(s[i]@, tagged))
}

pub open spec fn exoneration_rows(s: Seq<Finding>, tagged: bool) -> Seq<RowText> {
    Seq::new(s.len(), |i: int| exoneration_row(s[i]@, tagged))
}

fn list_findings(v: &Vec<&Finding>, tagged: bool) -> (r: Vec<Row>)
    ensures
        rows(r@) == finding_rows(pointees(v@), tagged),
{
    let mut out: Vec<Row> = Vec::new();
    let mut i: usize = 0;
    while i < v.len()
        invariant
            i <= v@.len(),
            out@.len() == i,
            forall|j: int| 0 <= j < i ==> (#[trigger] out@[j])@ == finding_row((*v@[j])@, tagged),
        decreases v@.len() - i,
    {
        out.push(row(v[i], tagged));
        i += 1;
    }
    assert(rows(out@) =~= finding_rows(pointees(v@), tagged));
    out
}

fn list_exonerations(v: &Vec<&Finding>, tagged: bool) -> (r: Vec<Row>)
    ensures
        rows(r@) == exoneration_rows(pointees(v@), tagged),
{
    let mut out: Vec<Row> = Vec::new();
    let mut i: usize = 0;
    while i < v.len()
        invariant
            i <= v@.len(),
            out@.len() == i,
            forall|j: int|
                0 <= j < i ==> (#[trigger] out@[j])@ == exoneration_row((*v@[j])@, tagged),
        decreases v@.len() - i,
    {
        out.push(cleared_row(v[i], tagged));
        i += 1;
    }
    assert(rows(out@) =~= exoneration_rows(pointees(v@), tagged));
    out
}

pub const CHECKS: &'static str = "{} check{} that could have failed";

// ---------------------------------------------------------------------------
// evidence: the chain
// ---------------------------------------------------------------------------

pub const EVIDENCE_OF: &'static str = "Evidence \u{00b7} {}";

pub const MARKED_BY: &'static str = "marked stage comes from {}";

pub const CHAIN_IS_SUPPORT: &'static str = "The chain is shown because a statement above rests on it, not because it is the point.";

pub const DASHED_STAGES: &'static str = "A dashed stage is one this platform cannot report; {} of them here. The chain is shown because a statement above rests on it, not because it is the point.";

/// Whether a chain is the one that supports a pane.
pub open spec fn supports(r: Report, pane: About, c: Option<Chain>) -> bool {
    match pane {
        About::Port(name) | About::Cable(name) => match port_of(r.snapshot, name) {
            Some(p) => match p.partner {
                Some(pt) => if p.sinking() {
                    c matches Some(c) && is_chain(
                        c,
                        ChainKind::Power,
                        About::Port(p.name@),
                        power_stages(p, pt, r.findings@),
                    )
                } else {
                    c is None
                },
                None => c is None,
            },
            None => c is None,
        },
        About::Device(name) => match r.snapshot.named(name) {
            Some(d) => if d.is_root_hub {
                c is None
            } else {
                c matches Some(c) && is_chain(
                    c,
                    ChainKind::Data,
                    About::Device(d.sysfs_name@),
                    data_stages(r.snapshot, d, r.findings@),
                )
            },
            None => c is None,
        },
        About::Host => c is None,
    }
}

/// The chain that supports a pane, where there is one.
pub fn chains(report: &Report, subject: &Subject) -> (r: Option<Chain>)
    ensures
        supports(*report, subject@, r),
{
    match subject {
        Subject::Port(name) => match find_port(&report.snapshot, name.as_str()) {
            Some(p) => power(p, &report.findings),
            None => None,
        },
        Subject::Cable(name) => match find_port(&report.snapshot, name.as_str()) {
            Some(p) => power(p, &report.findings),
            None => None,
        },
        Subject::Device(name) => match report.snapshot.device(name.as_str()) {
            Some(d) => data(&report.snapshot, d, &report.findings),
            None => None,
        },
        Subject::Host => None,
    }
}

/// What stands around a chain.
#[derive(Debug, Clone)]
pub struct ChainCard {
    pub title: String,
    pub note: String,
    /// A dashed bar has to be explained, or it reads as a fault of the drawing.
    pub tail: String,
}

pub open spec fn chain_note(c: Chain) -> Seq<char> {
    match c.limited_by {
        Some(code) => filled(MARKED_BY@, seq![code@]),
        None => "supporting"@,
    }
}

pub open spec fn chain_tail(unknown: nat) -> Seq<char> {
    if unknown > 0 {
        filled(DASHED_STAGES@, seq![dec(unknown)])
    } else {
        CHAIN_IS_SUPPORT@
    }
}

pub fn chain_card(c: &Chain) -> (r: ChainCard)
    ensures
        r.title@ == filled(EVIDENCE_OF@, seq![c.kind.name()]),
        r.note@ == chain_note(*c),
        r.tail@ == chain_tail(
            kept(crate::chain::ceilings(c.stages@), crate::chain::has_no_figure()).len(),
        ),
{
    let note = match &c.limited_by {
        Some(code) => fill1(MARKED_BY, code.as_str()),
        None => owned("supporting"),
    };
    let unknown = c.unknown_stages();
    let tail = if unknown > 0 {
        let count = number(unknown as u64);
        fill1(DASHED_STAGES, count.as_str())
    } else {
        owned(CHAIN_IS_SUPPORT)
    };
    ChainCard { title: fill1(EVIDENCE_OF, c.kind.title()), note, tail }
}

// ---------------------------------------------------------------------------
// what cannot be answered
// ---------------------------------------------------------------------------

pub const NO_CABLE_IDENTITY: &'static str = "This platform does not expose the cable's identity, so nothing here was read off the cable itself. Any statement about what it can carry is deduced from the contract, which cannot tell a cable rated exactly at the contract from one rated higher.";

pub const NO_THROUGHPUT: &'static str = "No throughput was measured. The link rate above is what was negotiated, not what the device achieves \u{2014} `usbdiag probe throughput` measures the difference.";

pub const NO_HISTORY: &'static str = "Reset and error history is unavailable, so anything that happened before now is invisible here: {}.";

pub const NO_LOG_NOTE: &'static str = "the kernel log could not be read";

pub const NO_ERROR_RATES: &'static str = "Transport error rates were not read: {}. Without them a link that works but retries constantly looks the same as one that does not.";

pub open spec fn cable_unread(snap: Snapshot, a: About) -> bool {
    match a {
        About::Port(n) | About::Cable(n) => match port_of(snap, n) {
            Some(p) => p.attached() && p.cable is None,
            None => false,
        },
        _ => false,
    }
}

pub open spec fn throughput_unread(snap: Snapshot, a: About) -> bool {
    match a {
        About::Device(n) => match snap.named(n) {
            Some(d) => kept(snap.block_devices@, below_path(d.sysfs_path@)).len() > 0
                && snap.throughput@.len() == 0,
            None => false,
        },
        _ => false,
    }
}

pub open spec fn log_reason(snap: Snapshot) -> Seq<char> {
    match snap.kernel_log.note {
        Some(n) => n@,
        None => NO_LOG_NOTE@,
    }
}

/// One line where something holds, and none where it does not.
pub open spec fn line_if(b: bool, line: Seq<char>) -> Seq<Seq<char>> {
    if b {
        seq![line]
    } else {
        Seq::empty()
    }
}

/// What is out of reach for a subject. Silence is not an answer: a gap is read as
/// "fine".
pub open spec fn limits(snap: Snapshot, a: About) -> Seq<Seq<char>> {
    line_if(cable_unread(snap, a), NO_CABLE_IDENTITY@) + line_if(
        throughput_unread(snap, a),
        NO_THROUGHPUT@,
    ) + line_if(
        snap.kernel_log.source is Unavailable,
        filled(NO_HISTORY@, seq![log_reason(snap)]),
    ) + line_if(
        !(snap.capabilities.usbmon@.access is Usable),
        filled(NO_ERROR_RATES@, seq![snap.capabilities.usbmon@.access.words()]),
    )
}

fn is_cable_unread(snap: &Snapshot, subject: &Subject) -> (r: bool)
    ensures
        r == cable_unread(*snap, subject@),
{
    let name = match subject {
        Subject::Port(n) => n,
        Subject::Cable(n) => n,
        _ => {
            return false;
        },
    };
    match find_port(snap, name.as_str()) {
        Some(p) => p.is_attached() && p.cable.is_none(),
        None => false,
    }
}

fn is_throughput_unread(snap: &Snapshot, subject: &Subject) -> (r: bool)
    ensures
        r == throughput_unread(*snap, subject@),
{
    if let Subject::Device(n) = subject {
        if let Some(d) = snap.device(n.as_str()) {
            let drives = snap.storage_on(d);
            assert(pointees(drives@).len() == drives@.len());
            return drives.len() > 0 && snap.throughput.len() == 0;
        }
    }
    false
}

pub fn cannot_answer(snap: &Snapshot, subject: &Subject) -> (r: Vec<String>)
    ensures
        texts(r@) == limits(*snap, subject@),
{
    let ghost a = subject@;
    let mut out = no_texts();
    if is_cable_unread(snap, subject) {
        push_text(&mut out, owned(NO_CABLE_IDENTITY));
    }
    let ghost first = line_if(cable_unread(*snap, a), NO_CABLE_IDENTITY@);
    assert(texts(out@) =~= first);
    if is_throughput_unread(snap, subject) {
        push_text(&mut out, owned(NO_THROUGHPUT));
    }
    let ghost second = first + line_if(throughput_unread(*snap, a), NO_THROUGHPUT@);
    assert(texts(out@) =~= second);
    if let KernelLogSource::Unavailable = snap.kernel_log.source {
        let why = match &snap.kernel_log.note {
            Some(n) => n.as_str(),
            None => NO_LOG_NOTE,
        };
        push_text(&mut out, fill1(NO_HISTORY, why));
    }
    let ghost third = second + line_if(
        snap.kernel_log.source is Unavailable,
        filled(NO_HISTORY@, seq![log_reason(*snap)]),
    );
    assert(texts(out@) =~= third);
    if !snap.capabilities.usbmon.is_usable() {
        push_text(&mut out, fill1(NO_ERROR_RATES, snap.capabilities.usbmon.availability.explain()));
    }
    assert(texts(out@) =~= limits(*snap, a));
    out
}

// ---------------------------------------------------------------------------
// the whole of it
// ---------------------------------------------------------------------------

/// Everything in the pane about one subject, from top to bottom.
#[derive(Debug)]
pub struct Pane {
    pub verdict: VerdictBlock,
    pub kind: Option<KindCard>,
    /// How much was ruled out, where anything was.
    pub cleared_note: Option<String>,
    pub cleared: Vec<Row>,
    pub rank: String,
    pub findings: Vec<Row>,
    pub chain: Option<Chain>,
    pub limits: Vec<String>,
    /// Whether the probes are listed last: what may be run is a property of the
    /// machine.
    pub lists_probes: bool,
}

pub open spec fn kind_shown(r: Report, a: About) -> Option<KindText> {
    match a {
        About::Device(n) => match r.snapshot.named(n) {
            Some(d) => Some(what_this_is(d)),
            None => None,
        },
        _ => None,
    }
}

pub open spec fn kind_view(o: Option<KindCard>) -> Option<KindText> {
    match o {
        Some(k) => Some(k@),
        None => None,
    }
}

pub open spec fn cleared_line(n: nat) -> Option<Seq<char>> {
    if n == 0 {
        None
    } else {
        Some(filled(CHECKS@, seq![dec(n), plural(n)]))
    }
}

fn show_kind(report: &Report, subject: &Subject) -> (r: Option<KindCard>)
    ensures
        kind_view(r) == kind_shown(*report, subject@),
{
    if let Subject::Device(n) = subject {
        if let Some(d) = report.snapshot.device(n.as_str()) {
            return Some(kind_card(d));
        }
    }
    None
}

pub fn build(report: &Report, subject: &Subject) -> (r: Pane)
    ensures
        r.verdict@ == answer(*report, subject@),
        kind_view(r.kind) == kind_shown(*report, subject@),
        opt_text(r.cleared_note) == cleared_line(
            pane_findings(report.exonerations@, subject@).len(),
        ),
        rows(r.cleared@) == exoneration_rows(
            pane_findings(report.exonerations@, subject@),
            subject@ is Port,
        ),
        r.rank@ == rank_text(worst(kept(report.findings@, crate::view::findings::in_pane(subject@)))),
        rows(r.findings@) == finding_rows(
            pane_findings(report.findings@, subject@),
            subject@ is Port,
        ),
        supports(*report, subject@, r.chain),
        texts(r.limits@) == limits(report.snapshot, subject@),
        r.lists_probes == (subject@ is Host),
{
    let mine = about(&report.findings, subject);
    let cleared = about(&report.exonerations, subject);
    let ghost s = kept(report.findings@, crate::view::findings::in_pane(subject@));
    proof {
        assert(pointees(mine@).len() == mine@.len());
        assert(pointees(cleared@).len() == cleared@.len());
        let order = pointees(mine@);
        the_worst_stands_first(s);
        the_worst_is_reached_and_not_passed(order);
        if order.len() > 0 {
            let w = worst(order)->0;
            let i = choose|i: int| 0 <= i < order.len() && (#[trigger] order[i]).severity == w;
            assert(order[0].severity.weight() >= order[i].severity.weight());
            assert(order[0].severity.weight() <= w.weight());
        }
    }
    let mixed = match subject {
        Subject::Port(_) => true,
        _ => false,
    };
    let lists_probes = match subject {
        Subject::Host => true,
        _ => false,
    };
    let cleared_note = if cleared.len() == 0 {
        None
    } else {
        let count = number(cleared.len() as u64);
        Some(fill2(CHECKS, count.as_str(), plural_ending(cleared.len())))
    };
    Pane {
        verdict: verdict_block(report, subject),
        kind: show_kind(report, subject),
        cleared_note,
        cleared: list_exonerations(&cleared, mixed),
        rank: rank(&mine),
        findings: list_findings(&mine, mixed),
        chain: chains(report, subject),
        limits: cannot_answer(&report.snapshot, subject),
        lists_probes,
    }
}

// ---------------------------------------------------------------------------
// laws
// ---------------------------------------------------------------------------

/// A pane leads with the worst verdict it covers: no covered verdict has a
/// graver outcome, and the one it leads with is covered itself.
pub proof fn a_pane_leads_with_the_worst(s: Seq<Verdict>, pane: About, i: int)
    requires
        0 <= i < s.len(),
        shows(pane, s[i].subject@),
    ensures
        leading_verdict(s, pane) matches Some(v) && gravity(v.outcome) >= gravity(s[i].outcome)
            && claim_to_lead(v, pane) >= claim_to_lead(s[i], pane) && shows(pane, v.subject@),
    decreases s.len(),
{
    if i < s.len() - 1 {
        assert(s.drop_last()[i] == s[i]);
        a_pane_leads_with_the_worst(s.drop_last(), pane, i);
    } else {
        lemma_leader_is_covered(s.drop_last(), pane);
    }
}

proof fn lemma_leader_is_covered(s: Seq<Verdict>, pane: About)
    ensures
        leading_verdict(s, pane) matches Some(v) ==> shows(pane, v.subject@) && s.contains(v),
    decreases s.len(),
{
    if s.len() > 0 {
        lemma_leader_is_covered(s.drop_last(), pane);
        if let Some(v) = leading_verdict(s.drop_last(), pane) {
            let k = choose|k: int| 0 <= k < s.drop_last().len() && s.drop_last()[k] == v;
            assert(s[k] == v);
        }
        assert(s[s.len() - 1] == s.last());
    }
}

/// No sentence about the hardware is composed: the headline is that of a verdict
/// in the report or the fixed one, and the text below it is the detail of a
/// finding or an exoneration in the report, or the fixed one.
pub proof fn no_sentence_is_composed(r: Report, pane: About)
    ensures
        answer(r, pane).headline == Verdict::NOTHING_FOUND@ || (exists|v: Verdict|
            r.verdicts@.contains(v) && answer(r, pane).headline == #[trigger] v.headline@),
        answer(r, pane).text matches Some(t) ==> t == NOTHING_FIRED@ || (exists|f: Finding|
            (r.findings@.contains(f) || r.exonerations@.contains(f)) && t == (
            #[trigger] f.detail)@),
{
    let v = leading_verdict(r.verdicts@, pane);
    lemma_leader_is_covered(r.verdicts@, pane);
    if let Some(w) = v {
        assert(r.verdicts@.contains(w) && answer(r, pane).headline == w.headline@);
        let p = titled(pane, w.headline@);
        lemma_first_of(r.findings@, p);
        lemma_first_of(r.exonerations@, p);
        if let Some(f) = quotation(r, pane, w.headline@) {
            assert(r.findings@.contains(f) || r.exonerations@.contains(f));
            assert(quoted_detail(r, pane, v) == f.detail@);
        }
    }
}

/// "Nothing fired" is said only where nothing was found for the subject and no
/// verdict on it rests on anything.
pub proof fn nothing_fired_is_not_said_lightly(r: Report, pane: About)
    requires
        quoted_detail(r, pane, leading_verdict(r.verdicts@, pane)) != NOTHING_FIRED@,
        answer(r, pane).text == Some(NOTHING_FIRED@),
    ensures
        pane_findings(r.findings@, pane).len() == 0,
        answer(r, pane).because.len() == 0,
{
}

proof fn lemma_entry(s: Seq<DeviceKind>, k: DeviceKind)
    ensures
        0 <= entry_of(s, k) <= s.len(),
        entry_of(s, k) > 0 ==> s[entry_of(s, k) - 1] == k,
        entry_of(s, k) == 0 <==> !s.contains(k),
    decreases s.len(),
{
    if s.len() > 0 {
        lemma_entry(s.drop_last(), k);
        if s.contains(k) {
            let i = choose|i: int| 0 <= i < s.len() && s[i] == k;
            if i < s.len() - 1 {
                assert(s.drop_last()[i] == k);
            }
        }
        if s.drop_last().contains(k) {
            let i = choose|i: int| 0 <= i < s.drop_last().len() && s.drop_last()[i] == k;
            assert(s[i] == k);
        }
        assert(s[s.len() - 1] == s.last());
    }
}

/// The entry shown as chosen gives back the kind that is in force: choosing it
/// from any other entry sets that kind, and choosing it where it stands changes
/// nothing.
pub proof fn the_chosen_entry_is_the_kind(k: DeviceKind, current: int)
    requires
        k != DeviceKind::Unknown,
    ensures
        1 <= entry_of(KINDS@, k) <= 14,
        current != entry_of(KINDS@, k) ==> chosen(entry_of(KINDS@, k), current) == Choice::Take(k),
        current == entry_of(KINDS@, k) ==> chosen(entry_of(KINDS@, k), current)
            == Choice::Unchanged,
{
    lemma_entry(KINDS@, k);
    let at = match k {
        DeviceKind::Hub => 0int,
        DeviceKind::Keyboard => 1,
        DeviceKind::Mouse => 2,
        DeviceKind::InputDevice => 3,
        DeviceKind::Storage => 4,
        DeviceKind::Audio => 5,
        DeviceKind::Camera => 6,
        DeviceKind::Imaging => 7,
        DeviceKind::Printer => 8,
        DeviceKind::Network => 9,
        DeviceKind::SmartcardReader => 10,
        DeviceKind::Billboard => 11,
        DeviceKind::Wireless => 12,
        _ => 13,
    };
    assert(KINDS@[at] == k);
}

/// Asking what a machine cannot answer never comes up empty while its log cannot
/// be read.
pub proof fn an_unread_log_is_said(snap: Snapshot, a: About)
    requires
        snap.kernel_log.source is Unavailable,
    ensures
        limits(snap, a).contains(filled(NO_HISTORY@, seq![log_reason(snap)])),
{
    let before = line_if(cable_unread(snap, a), NO_CABLE_IDENTITY@) + line_if(
        throughput_unread(snap, a),
        NO_THROUGHPUT@,
    );
    assert(limits(snap, a)[before.len() as int] == filled(NO_HISTORY@, seq![log_reason(snap)]));
}

} // verus!
