//! How a finding reaches the screen.
//!
//! A row always has its title, so a coloured dot never comes without its
//! sentence. It always has its confidence, so that is never collapsed into a
//! colour. And a heuristic finding gets a card of its own kind, not a step down
//! the severity scale.

use vstd::prelude::*;
use crate::model::{About, Confidence, Finding, Severity, Statement, Subject};
use crate::report::worst;
use crate::seqs::{kept, lemma_take_all, lemma_take_more, no_refs, pointees};
use crate::text::{copy_opt, join, joined, opt_text, same, texts};

verus! {

pub open spec fn severity_style(s: Severity) -> Seq<char> {
    match s {
        Severity::Critical | Severity::High => "high"@,
        Severity::Medium => "medium"@,
        Severity::Low => "low"@,
        Severity::Info => "info"@,
    }
}

/// Severity as the class of a dot. Kept apart from confidence on purpose.
pub fn severity_class(s: Severity) -> (r: &'static str)
    ensures
        r@ == severity_style(s),
{
    match s {
        Severity::Critical | Severity::High => "high",
        Severity::Medium => "medium",
        Severity::Low => "low",
        Severity::Info => "info",
    }
}

pub open spec fn confidence_style(c: Confidence) -> Seq<char> {
    match c {
        Confidence::Measured => "measured"@,
        Confidence::Inferred => "inferred"@,
        Confidence::Heuristic => "heuristic"@,
    }
}

pub fn confidence_class(c: Confidence) -> (r: &'static str)
    ensures
        r@ == confidence_style(c),
{
    match c {
        Confidence::Measured => "measured",
        Confidence::Inferred => "inferred",
        Confidence::Heuristic => "heuristic",
    }
}

/// What stands in front of a row.
#[derive(Debug, Clone, Copy)]
pub enum Mark {
    /// A dot, by its class.
    Dot(&'static str),
    /// An exoneration has no severity, so it stands on no scale of faults.
    Tick,
}

pub enum MarkText {
    Dot(Seq<char>),
    Tick,
}

impl View for Mark {
    type V = MarkText;

    open spec fn view(&self) -> MarkText {
        match *self {
            Mark::Dot(c) => MarkText::Dot(c@),
            Mark::Tick => MarkText::Tick,
        }
    }
}

/// One statement, as it appears in a card.
#[derive(Debug, Clone)]
pub struct Row {
    pub mark: Mark,
    pub title: String,
    /// Whom it is about, where the card holds statements about more than one
    /// subject.
    pub subject: Option<String>,
    pub confidence: &'static str,
    pub confidence_class: &'static str,
    /// Whether it stands on a card of its own kind.
    pub set_apart: bool,
    pub detail: Option<String>,
    pub evidence: Option<String>,
    pub suggestion: Option<String>,
}

pub struct RowText {
    pub mark: MarkText,
    pub title: Seq<char>,
    pub subject: Option<Seq<char>>,
    pub confidence: Seq<char>,
    pub confidence_class: Seq<char>,
    pub set_apart: bool,
    pub detail: Option<Seq<char>>,
    pub evidence: Option<Seq<char>>,
    pub suggestion: Option<Seq<char>>,
}

impl View for Row {
    type V = RowText;

    open spec fn view(&self) -> RowText {
        RowText {
            mark: self.mark@,
            title: self.title@,
            subject: opt_text(self.subject),
            confidence: self.confidence@,
            confidence_class: self.confidence_class@,
            set_apart: self.set_apart,
            detail: opt_text(self.detail),
            evidence: opt_text(self.evidence),
            suggestion: opt_text(self.suggestion),
        }
    }
}

/// A text, where there is any.
pub open spec fn unless_empty(s: Seq<char>) -> Option<Seq<char>> {
    if s.len() == 0 {
        None
    } else {
        Some(s)
    }
}

pub open spec fn whom(a: About, show: bool) -> Option<Seq<char>> {
    if show {
        Some(a.shown())
    } else {
        None
    }
}

/// The readings a statement rests on, one to a line.
pub open spec fn evidence_lines(s: Seq<Seq<char>>) -> Option<Seq<char>> {
    if s.len() == 0 {
        None
    } else {
        Some(joined(s, "\n"@))
    }
}

pub open spec fn finding_row(f: Statement, show_subject: bool) -> RowText {
    RowText {
        mark: MarkText::Dot(severity_style(f.severity)),
        title: f.title,
        subject: whom(f.subject, show_subject),
        confidence: f.confidence.name(),
        confidence_class: confidence_style(f.confidence),
        set_apart: f.confidence is Heuristic,
        detail: unless_empty(f.detail),
        evidence: evidence_lines(f.evidence),
        suggestion: f.suggestion,
    }
}

pub open spec fn exoneration_row(f: Statement, show_subject: bool) -> RowText {
    RowText {
        mark: MarkText::Tick,
        title: f.title,
        subject: whom(f.subject, show_subject),
        confidence: f.confidence.name(),
        confidence_class: confidence_style(f.confidence),
        set_apart: false,
        detail: unless_empty(f.detail),
        evidence: None,
        suggestion: None,
    }
}

fn if_any(s: &String) -> (r: Option<String>)
    ensures
        opt_text(r) == unless_empty(s@),
{
    if same(s.as_str(), "") {
        assert(s@.len() == 0) by {
            reveal_strlit("");
        }
        None
    } else {
        assert(s@.len() != 0) by {
            reveal_strlit("");
            if s@.len() == 0 {
                assert(s@ =~= ""@);
            }
        }
        Some(s.clone())
    }
}

fn subject_chip(s: &Subject, show: bool) -> (r: Option<String>)
    ensures
        opt_text(r) == whom(s@, show),
{
    if show {
        Some(s.display())
    } else {
        None
    }
}

/// One finding, as it appears among the findings. `show_subject` is set where
/// the card can hold statements about more than one subject: an untagged
/// accusation of a cable reads as one of its port.
pub fn row(f: &Finding, show_subject: bool) -> (r: Row)
    ensures
        r@ == finding_row(f@, show_subject),
{
    let evidence = if f.evidence.len() == 0 {
        None
    } else {
        Some(join(&f.evidence, "\n"))
    };
    assert(texts(f.evidence@).len() == f.evidence@.len());
    Row {
        mark: Mark::Dot(severity_class(f.severity)),
        title: f.title.clone(),
        subject: subject_chip(&f.subject, show_subject),
        confidence: f.confidence.label(),
        confidence_class: confidence_class(f.confidence),
        set_apart: match f.confidence {
            Confidence::Heuristic => true,
            _ => false,
        },
        detail: if_any(&f.detail),
        evidence,
        suggestion: copy_opt(&f.suggestion),
    }
}

/// One exoneration, as it appears among what was ruled out.
pub fn cleared_row(f: &Finding, show_subject: bool) -> (r: Row)
    ensures
        r@ == exoneration_row(f@, show_subject),
{
    Row {
        mark: Mark::Tick,
        title: f.title.clone(),
        subject: subject_chip(&f.subject, show_subject),
        confidence: f.confidence.label(),
        confidence_class: confidence_class(f.confidence),
        set_apart: false,
        detail: if_any(&f.detail),
        evidence: None,
        suggestion: None,
    }
}

/// Whether a pane about one subject shows statements about another. A cable has
/// no row of its own, so its port's pane carries it.
pub open spec fn shows(pane: About, a: About) -> bool {
    a == pane || (pane matches About::Port(p) && a == About::Cable(p))
}

pub fn covers(pane: &Subject, f: &Subject) -> (r: bool)
    ensures
        r == shows(pane@, f@),
{
    match (pane, f) {
        (Subject::Port(a), Subject::Port(b)) => same(a.as_str(), b.as_str()),
        (Subject::Port(a), Subject::Cable(b)) => same(a.as_str(), b.as_str()),
        (Subject::Device(a), Subject::Device(b)) => same(a.as_str(), b.as_str()),
        (Subject::Cable(a), Subject::Cable(b)) => same(a.as_str(), b.as_str()),
        (Subject::Host, Subject::Host) => true,
        _ => false,
    }
}

pub open spec fn in_pane(pane: About) -> spec_fn(Finding) -> bool {
    |f: Finding| shows(pane, f.subject@)
}

/// One more finding among some, behind those at least as severe.
pub open spec fn placed_by_severity(s: Seq<Finding>, f: Finding) -> Seq<Finding>
    decreases s.len(),
{
    if s.len() == 0 {
        seq![f]
    } else if s.last().severity.weight() >= f.severity.weight() {
        s.push(f)
    } else {
        placed_by_severity(s.drop_last(), f).push(s.last())
    }
}

/// Worst first; those of one severity stay as they were.
pub open spec fn worst_first(s: Seq<Finding>) -> Seq<Finding>
    decreases s.len(),
{
    if s.len() == 0 {
        Seq::empty()
    } else {
        placed_by_severity(worst_first(s.drop_last()), s.last())
    }
}

proof fn lemma_placed(s: Seq<Finding>, f: Finding, k: int)
    requires
        0 <= k <= s.len(),
        forall|j: int| k <= j < s.len() ==> (#[trigger] s[j]).severity.weight() < f.severity.weight(),
        k > 0 ==> s[k - 1].severity.weight() >= f.severity.weight(),
    ensures
        placed_by_severity(s, f) == s.insert(k, f),
    decreases s.len(),
{
    if k == s.len() {
        assert(placed_by_severity(s, f) =~= s.insert(k, f));
    } else {
        assert(s[s.len() - 1].severity.weight() < f.severity.weight());
        lemma_placed(s.drop_last(), f, k);
        assert(placed_by_severity(s, f) =~= s.insert(k, f));
    }
}

/// The findings a pane shows, worst first.
pub open spec fn pane_findings(s: Seq<Finding>, pane: About) -> Seq<Finding> {
    worst_first(kept(s, in_pane(pane)))
}

/// Findings for one subject, worst first.
pub fn about<'a>(findings: &'a Vec<Finding>, subject: &Subject) -> (r: Vec<&'a Finding>)
    ensures
        pointees(r@) == pane_findings(findings@, subject@),
{
    let ghost p = in_pane(subject@);
    let mut out: Vec<&'a Finding> = no_refs();
    let mut i: usize = 0;
    assert(worst_first(kept(findings@.take(0), p)) =~= Seq::empty());
    while i < findings.len()
        invariant
            i <= findings@.len(),
            p == in_pane(subject@),
            pointees(out@) == worst_first(kept(findings@.take(i as int), p)),
        decreases findings@.len() - i,
    {
        proof {
            lemma_take_more(findings@, i as int);
        }
        let f: &'a Finding = &findings[i];
        if covers(subject, &f.subject) {
            let ghost before = pointees(out@);
            let mut k: usize = out.len();
            while k > 0 && out[k - 1].severity.rank() < f.severity.rank()
                invariant
                    k <= out@.len(),
                    before == pointees(out@),
                    forall|j: int|
                        k <= j < before.len() ==> (#[trigger] before[j]).severity.weight()
                            < f.severity.weight(),
                decreases k,
            {
                assert(before[k - 1] == *out@[k - 1]);
                k -= 1;
            }
            proof {
                if k > 0 {
                    assert(before[k - 1] == *out@[k - 1]);
                }
                lemma_placed(before, *f, k as int);
                let all = kept(findings@.take(i + 1), p);
                assert(all.last() == *f);
                assert(all.drop_last() =~= kept(findings@.take(i as int), p));
            }
            out.insert(k, f);
            assert(pointees(out@) =~= before.insert(k as int, *f));
        }
        i += 1;
    }
    proof {
        lemma_take_all(findings@);
    }
    out
}

/// The class of a dot tells severity alone: how sure a finding is does not step
/// it down.
pub proof fn doubt_is_not_a_lower_severity(a: Statement, b: Statement, show: bool)
    requires
        a.severity == b.severity,
    ensures
        finding_row(a, show).mark == finding_row(b, show).mark,
        a.confidence is Heuristic <==> finding_row(a, show).set_apart,
{
}

/// What a port's pane shows is about the port or its cable, and a pane about
/// anything else shows that alone.
pub proof fn a_pane_keeps_to_its_subject(pane: About, a: About)
    requires
        shows(pane, a),
    ensures
        a == pane || (pane is Port && a is Cable && a->Cable_0 == pane->Port_0),
{
}

proof fn lemma_placed_descends(s: Seq<Finding>, f: Finding)
    requires
        forall|i: int, j: int|
            0 <= i <= j < s.len() ==> (#[trigger] s[i]).severity.weight() >= (
            #[trigger] s[j]).severity.weight(),
    ensures
        ({
            let t = placed_by_severity(s, f);
            &&& t.len() == s.len() + 1
            &&& t.to_multiset() =~= s.to_multiset().insert(f)
            &&& forall|i: int, j: int|
                0 <= i <= j < t.len() ==> (#[trigger] t[i]).severity.weight() >= (
                #[trigger] t[j]).severity.weight()
            &&& forall|i: int|
                0 <= i < t.len() ==> ((#[trigger] t[i]) == f || s.contains(t[i]))
        }),
    decreases s.len(),
{
    broadcast use vstd::seq_lib::group_to_multiset_ensures;

    let t = placed_by_severity(s, f);
    if s.len() == 0 {
        assert(t =~= s.push(f));
    } else if s.last().severity.weight() >= f.severity.weight() {
        assert forall|i: int, j: int| 0 <= i <= j < t.len() implies (
        #[trigger] t[i]).severity.weight() >= (#[trigger] t[j]).severity.weight() by {
            if j == s.len() && i < j {
                assert(s[i].severity.weight() >= s[s.len() - 1].severity.weight());
            }
        }
    } else {
        let init = s.drop_last();
        lemma_placed_descends(init, f);
        let u = placed_by_severity(init, f);
        assert(s =~= init.push(s.last()));
        assert(t == u.push(s.last()));
        assert(t.to_multiset() =~= s.to_multiset().insert(f));
        assert forall|i: int| 0 <= i < t.len() implies ((#[trigger] t[i]) == f || s.contains(
            t[i],
        )) by {
            if i < u.len() {
                assert(t[i] == u[i]);
                if u[i] != f {
                    let k = choose|k: int| 0 <= k < init.len() && init[k] == u[i];
                    assert(s[k] == u[i]);
                }
            } else {
                assert(s[s.len() - 1] == t[i]);
            }
        }
        assert forall|i: int, j: int| 0 <= i <= j < t.len() implies (
        #[trigger] t[i]).severity.weight() >= (#[trigger] t[j]).severity.weight() by {
            if j == u.len() && i < j {
                assert(t[i] == u[i]);
                if u[i] != f {
                    let k = choose|k: int| 0 <= k < init.len() && init[k] == u[i];
                    assert(s[k].severity.weight() >= s[s.len() - 1].severity.weight());
                }
            }
        }
    }
}

/// Putting the worst first loses nothing and repeats nothing, and no finding
/// stands before a worse one.
pub proof fn the_worst_stands_first(s: Seq<Finding>)
    ensures
        worst_first(s).to_multiset() == s.to_multiset(),
        forall|i: int, j: int|
            0 <= i <= j < worst_first(s).len() ==> (#[trigger] worst_first(
                s,
            )[i]).severity.weight() >= (#[trigger] worst_first(s)[j]).severity.weight(),
        worst_first(s).len() == s.len(),
        s.len() > 0 ==> worst(s) == Some(worst_first(s)[0].severity),
    decreases s.len(),
{
    broadcast use vstd::seq_lib::group_to_multiset_ensures;

    if s.len() > 0 {
        let init = s.drop_last();
        the_worst_stands_first(init);
        lemma_placed_descends(worst_first(init), s.last());
        assert(s =~= init.push(s.last()));
        let w = worst_first(init);
        if init.len() > 0 {
            lemma_placed_front(w, s.last());
        } else {
            assert(w =~= Seq::empty());
            assert(worst(init) is None);
        }
    } else {
        assert(worst_first(s) =~= s);
    }
}

proof fn lemma_placed_front(s: Seq<Finding>, f: Finding)
    requires
        s.len() > 0,
        forall|i: int, j: int|
            0 <= i <= j < s.len() ==> (#[trigger] s[i]).severity.weight() >= (
            #[trigger] s[j]).severity.weight(),
    ensures
        placed_by_severity(s, f)[0] == (if s[0].severity.weight() >= f.severity.weight() {
            s[0]
        } else {
            f
        }),
    decreases s.len(),
{
    if s.last().severity.weight() >= f.severity.weight() {
        assert(s[0].severity.weight() >= s[s.len() - 1].severity.weight());
    } else if s.len() > 1 {
        lemma_placed_front(s.drop_last(), f);
        lemma_placed_descends(s.drop_last(), f);
    } else {
        assert(placed_by_severity(s.drop_last(), f) =~= seq![f]);
    }
}

} // verus!
