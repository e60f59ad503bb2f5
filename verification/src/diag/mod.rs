//! Diagnostic rules.
//!
//! Each rule compares two or more independently read facts and reports where
//! they disagree. A machine can measure what a link negotiated and what a
//! charger offered, but it cannot measure a cable, so every conclusion about a
//! cable is an inference from a disagreement. Findings carry a confidence and
//! the readings they rest on.
//!
//! Every rule is stated twice: as a function from the readings to a
//! [`Statement`], and as code that is proved to produce exactly that statement.

use vstd::prelude::*;
use crate::model::{Confidence, Finding, Severity, Statement, Subject};
use crate::text::{opt_text, owned, texts};

pub use crate::diag::analysis::{analyze, conf_rank, report};
pub use crate::diag::cable::devices_on_port;
pub use crate::diag::units::{milliamps, volts, watts};

pub mod analysis;
pub mod cable;
pub mod cycle;
pub mod device;
pub mod host;
pub mod laws;
pub mod origins;
pub mod phantom;
pub mod port;
pub mod power;
pub mod promises;
pub mod receptacle;
pub mod rules;
pub mod storage;
pub mod traffic;
pub mod units;
pub mod video;

verus! {

/// The statements of a list of findings.
pub open spec fn stated(v: Seq<Finding>) -> Seq<Statement> {
    Seq::new(v.len(), |i: int| v[i]@)
}

/// The statement of an optional finding.
pub open spec fn stated_opt(o: Option<Finding>) -> Option<Statement> {
    match o {
        Some(f) => Some(f@),
        None => None,
    }
}

/// One statement or none, as a sequence.
pub open spec fn one(o: Option<Statement>) -> Seq<Statement> {
    match o {
        Some(x) => seq![x],
        None => Seq::empty(),
    }
}

/// The statements so far, and one more if there is one.
pub open spec fn noted(s: Seq<Statement>, o: Option<Statement>) -> Seq<Statement> {
    s + one(o)
}

/// Adds a finding, if there is one.
pub fn note(out: &mut Vec<Finding>, f: Option<Finding>)
    ensures
        stated(final(out)@) == noted(stated(old(out)@), stated_opt(f)),
{
    let ghost before = out@;
    if let Some(x) = f {
        out.push(x);
    }
    assert(stated(out@) =~= noted(stated(before), stated_opt(f)));
}

/// No findings yet.
pub fn nothing() -> (r: Vec<Finding>)
    ensures
        stated(r@) == Seq::<Statement>::empty(),
{
    let r: Vec<Finding> = Vec::new();
    assert(stated(r@) =~= Seq::<Statement>::empty());
    r
}

/// Adds findings behind the others.
pub fn extend(out: &mut Vec<Finding>, more: Vec<Finding>)
    ensures
        stated(final(out)@) == stated(old(out)@) + stated(more@),
{
    let ghost before = out@;
    let mut rest = more;
    let ghost tail = rest@;
    out.append(&mut rest);
    assert(stated(out@) =~= stated(before) + stated(tail));
}

/// Puts a finding together.
pub fn finding(
    code: &str,
    severity: Severity,
    confidence: Confidence,
    subject: Subject,
    title: String,
    detail: String,
    evidence: Vec<String>,
    suggestion: Option<String>,
) -> (r: Finding)
    ensures
        r@ == (Statement {
            code: code@,
            severity,
            confidence,
            subject: subject@,
            title: title@,
            detail: detail@,
            evidence: texts(evidence@),
            suggestion: opt_text(suggestion),
        }),
{
    Finding { code: owned(code), severity, confidence, subject, title, detail, evidence, suggestion }
}

pub fn some_text(s: &str) -> (r: Option<String>)
    ensures
        opt_text(r) == Some(s@),
{
    Some(owned(s))
}

pub fn lines1(a: String) -> (r: Vec<String>)
    ensures
        texts(r@) == seq![a@],
{
    let mut v: Vec<String> = Vec::new();
    v.push(a);
    assert(texts(v@) =~= seq![a@]);
    v
}

pub fn lines2(a: String, b: String) -> (r: Vec<String>)
    ensures
        texts(r@) == seq![a@, b@],
{
    let mut v: Vec<String> = Vec::new();
    v.push(a);
    v.push(b);
    assert(texts(v@) =~= seq![a@, b@]);
    v
}

pub fn lines3(a: String, b: String, c: String) -> (r: Vec<String>)
    ensures
        texts(r@) == seq![a@, b@, c@],
{
    let mut v: Vec<String> = Vec::new();
    v.push(a);
    v.push(b);
    v.push(c);
    assert(texts(v@) =~= seq![a@, b@, c@]);
    v
}

pub fn lines4(a: String, b: String, c: String, d: String) -> (r: Vec<String>)
    ensures
        texts(r@) == seq![a@, b@, c@, d@],
{
    let mut v: Vec<String> = Vec::new();
    v.push(a);
    v.push(b);
    v.push(c);
    v.push(d);
    assert(texts(v@) =~= seq![a@, b@, c@, d@]);
    v
}

/// A text, or another where there is none.
pub open spec fn text_or(o: Option<String>, other: Seq<char>) -> Seq<char> {
    match o {
        Some(s) => s@,
        None => other,
    }
}

pub fn or_text<'a>(o: &'a Option<String>, other: &'a str) -> (r: &'a str)
    ensures
        r@ == text_or(*o, other@),
{
    match o {
        Some(s) => s.as_str(),
        None => other,
    }
}

} // verus!
