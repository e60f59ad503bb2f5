//! What the thread that waits for device events says to the window.

use vstd::prelude::*;
use crate::monitor::Source;
use crate::text::{copy_opt, opt_text};

verus! {

/// Fallback poll, for where there is no event source and for state that changes
/// without an event.
pub const FALLBACK_MS: u64 = 2000;

/// How long a burst of events has to be quiet before it is over.
pub const QUIET_MS: u64 = 250;

/// How long a burst is waited out at most.
pub const MAX_COALESCE_MS: u64 = 1500;

#[derive(Debug, Clone, Copy, PartialEq, Eq)]
pub enum In {
    /// Do one blocking wait and report the result. Sent by the thread to itself,
    /// so it goes round without being driven.
    Wait,
}

#[derive(Debug, Clone)]
pub enum Out {
    /// The event source runs, and whoever hears this holds the handle that ends
    /// it. The waiting thread cannot end it: it is inside a wait when the
    /// process exits.
    Started,
    /// What the event source turned out to be.
    Source { live: bool, note: Option<String> },
    /// A wait finished. `events` is how many events were absorbed; 0 means that
    /// the fallback timer expired and nothing happened.
    Woke { events: usize },
}

/// What the thread says, as text.
pub enum Said {
    Started,
    Source { live: bool, note: Option<Seq<char>> },
    Woke { events: usize },
}

impl View for Out {
    type V = Said;

    open spec fn view(&self) -> Said {
        match *self {
            Out::Started => Said::Started,
            Out::Source { live, note } => Said::Source { live, note: opt_text(note) },
            Out::Woke { events } => Said::Woke { events },
        }
    }
}

pub open spec fn said(v: Seq<Out>) -> Seq<Said> {
    Seq::new(v.len(), |i: int| v[i]@)
}

/// What a source is worth to the window.
pub open spec fn source_said(source: Source, note: Option<Seq<char>>) -> Said {
    Said::Source { live: source is Udev, note }
}

fn describe(source: Source, note: &Option<String>) -> (r: Out)
    ensures
        r@ == source_said(source, opt_text(*note)),
{
    let live = match source {
        Source::Udev => true,
        Source::TimerOnly => false,
    };
    Out::Source { live, note: copy_opt(note) }
}

/// What is said when the event source has just been started: the handle first,
/// since every pass after this one is spent inside a wait.
pub fn started(source: Source, note: &Option<String>) -> (r: Vec<Out>)
    ensures
        said(r@) == seq![Said::Started, source_said(source, opt_text(*note))],
{
    let out = vec![Out::Started, describe(source, note)];
    assert(said(out@) =~= seq![Said::Started, source_said(source, opt_text(*note))]);
    out
}

/// What is said after a wait. The source is told again each time: one that was
/// lost has become a timer meanwhile.
pub fn waited(source: Source, note: &Option<String>, events: usize) -> (r: Vec<Out>)
    ensures
        said(r@) == seq![source_said(source, opt_text(*note)), Said::Woke { events }],
{
    let out = vec![describe(source, note), Out::Woke { events }];
    assert(said(out@) =~= seq![source_said(source, opt_text(*note)), Said::Woke { events }]);
    out
}

} // verus!
