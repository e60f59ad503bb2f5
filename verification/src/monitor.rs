//! Change notification, so a live view can wait for something to happen instead
//! of asking over and over.
//!
//! Events come from `udevadm monitor --udev`. Where it cannot be started, or
//! dies, the monitor degrades to a plain timeout and the caller keeps polling.
//!
//! One physical act produces a burst of events. A wait therefore ends only after
//! a quiet period, and there is a cap on how long it keeps absorbing, so that a
//! device that resets forever cannot hold a display still.

use vstd::prelude::*;
use crate::text::{
    after_prefix, cat, chars_of, fill1, filled, no_texts, opt_text, owned, push_text, slice,
    split_whitespace, strip_prefix, texts, words,
};

verus! {

/// The subsystems whose events can change anything that is reported.
pub const SUBSYSTEMS: [&'static str; 5] = ["usb", "typec", "power_supply", "thunderbolt", "block"];

/// Where wake-ups are coming from.
#[derive(Debug, Clone, Copy, PartialEq, Eq, Structural)]
pub enum Source {
    /// Live events via `udevadm monitor`.
    Udev,
    /// No event source; the caller's timeout is the only thing waking it.
    TimerOnly,
}

/// A device event, reduced to the three fields that matter.
#[derive(Debug, Clone, PartialEq, Eq)]
pub struct DeviceEvent {
    /// `add` | `remove` | `change` | `bind` | `unbind` | `move`.
    pub action: String,
    /// Kernel device path.
    pub devpath: String,
    /// `usb`, `typec`, `power_supply`, ...
    pub subsystem: String,
}

/// The outcome of a single wait.
#[derive(Debug, Clone, PartialEq, Eq)]
pub enum Wake {
    Event(DeviceEvent),
    Timeout,
}

// ---------------------------------------------------------------------------
// the event line
// ---------------------------------------------------------------------------

/// An event, as text.
pub struct Uevent {
    pub action: Seq<char>,
    pub devpath: Seq<char>,
    pub subsystem: Seq<char>,
}

pub open spec fn uevent(o: Option<DeviceEvent>) -> Option<Uevent> {
    match o {
        Some(e) => Some(
            Uevent { action: e.action@, devpath: e.devpath@, subsystem: e.subsystem@ },
        ),
        None => None,
    }
}

pub open spec fn is_round(c: char) -> bool {
    c == '(' || c == ')'
}

/// A text without the round brackets it begins with.
pub open spec fn opened(s: Seq<char>) -> Seq<char>
    decreases s.len(),
{
    if s.len() > 0 && is_round(s[0]) {
        opened(s.skip(1))
    } else {
        s
    }
}

/// A text without the round brackets it ends in.
pub open spec fn closed_off(s: Seq<char>) -> Seq<char>
    decreases s.len(),
{
    if s.len() > 0 && is_round(s.last()) {
        closed_off(s.drop_last())
    } else {
        s
    }
}

fn strip_round(s: &str) -> (r: String)
    ensures
        r@ == closed_off(opened(s@)),
{
    let cs = chars_of(s);
    let mut i: usize = 0;
    assert(cs@.skip(0) == s@);
    while i < cs.len() && (cs[i] == '(' || cs[i] == ')')
        invariant
            i <= cs.len(),
            cs@ == s@,
            opened(cs@.skip(i as int)) == opened(s@),
        decreases cs.len() - i,
    {
        assert(cs@.skip(i as int).skip(1) == cs@.skip(i + 1));
        i += 1;
    }
    let ghost inner = cs@.skip(i as int);
    let mut n: usize = cs.len();
    assert(cs@.subrange(i as int, n as int) == inner);
    while n > i && (cs[n - 1] == '(' || cs[n - 1] == ')')
        invariant
            i <= n <= cs.len(),
            closed_off(cs@.subrange(i as int, n as int)) == closed_off(inner),
        decreases n,
    {
        assert(cs@.subrange(i as int, n as int).drop_last() == cs@.subrange(i as int, n - 1));
        assert(cs@.subrange(i as int, n as int).last() == cs@[n - 1]);
        n -= 1;
    }
    assert(n > i ==> cs@.subrange(i as int, n as int).last() == cs@[n - 1]);
    slice(&cs, i, n)
}

/// What follows the tag of an event line.
pub open spec fn after_tag(line: Seq<char>) -> Option<Seq<char>> {
    match after_prefix(line, "UDEV"@) {
        Some(rest) => Some(rest),
        None => after_prefix(line, "KERNEL"@),
    }
}

/// A time in square brackets. It is what tells an event from the banner.
pub open spec fn is_stamp(w: Seq<char>) -> bool {
    w.len() > 0 && w[0] == '[' && w.last() == ']'
}

/// One line of `udevadm monitor`:
/// `UDEV  [64095.234567] add      /devices/.../usb5/5-1 (usb)`.
pub open spec fn event_on(line: Seq<char>) -> Option<Uevent> {
    match after_tag(line) {
        Some(rest) => {
            let ws = words(rest);
            if ws.len() < 4 || !is_stamp(ws[0]) || closed_off(opened(ws[3])).len() == 0 {
                None
            } else {
                Some(
                    Uevent {
                        action: ws[1],
                        devpath: ws[2],
                        subsystem: closed_off(opened(ws[3])),
                    },
                )
            }
        },
        None => None,
    }
}

pub fn parse_line(line: &str) -> (r: Option<DeviceEvent>)
    ensures
        uevent(r) == event_on(line@),
{
    let rest = match strip_prefix(line, "UDEV") {
        Some(s) => s,
        None => match strip_prefix(line, "KERNEL") {
            Some(s) => s,
            None => {
                return None;
            },
        },
    };
    let ws = split_whitespace(rest.as_str());
    assert(texts(ws@).len() == ws@.len());
    if ws.len() < 4 {
        return None;
    }
    assert(texts(ws@)[0] == ws@[0]@);
    assert(texts(ws@)[1] == ws@[1]@);
    assert(texts(ws@)[2] == ws@[2]@);
    assert(texts(ws@)[3] == ws@[3]@);
    let ts = chars_of(ws[0].as_str());
    if ts.len() == 0 || ts[0] != '[' || ts[ts.len() - 1] != ']' {
        return None;
    }
    let subsystem = strip_round(ws[3].as_str());
    let n = chars_of(subsystem.as_str());
    if n.len() == 0 {
        return None;
    }
    Some(DeviceEvent { action: ws[1].clone(), devpath: ws[2].clone(), subsystem })
}

/// The arguments that make `udevadm` watch these subsystems.
pub open spec fn watch_args(subsystems: Seq<Seq<char>>) -> Seq<Seq<char>> {
    seq!["monitor"@, "--udev"@] + Seq::new(
        subsystems.len(),
        |i: int| "--subsystem-match="@ + subsystems[i],
    )
}

pub fn monitor_args(subsystems: &Vec<String>) -> (r: Vec<String>)
    ensures
        texts(r@) == watch_args(texts(subsystems@)),
{
    let ghost all = watch_args(texts(subsystems@));
    let mut out = no_texts();
    push_text(&mut out, owned("monitor"));
    push_text(&mut out, owned("--udev"));
    let mut i: usize = 0;
    assert(texts(out@) =~= all.take(2));
    while i < subsystems.len()
        invariant
            i <= subsystems.len(),
            all == watch_args(texts(subsystems@)),
            all.len() == 2 + subsystems@.len(),
            texts(out@) == all.take(2 + i),
        decreases subsystems.len() - i,
    {
        let a = cat("--subsystem-match=", subsystems[i].as_str());
        assert(a@ == all[2 + i]);
        push_text(&mut out, a);
        assert(all.take(3 + i) =~= all.take(2 + i).push(all[2 + i]));
        i += 1;
    }
    assert(all.take(2 + i) =~= all);
    out
}

// ---------------------------------------------------------------------------
// where events come from
// ---------------------------------------------------------------------------

pub const NO_MONITOR: &'static str =
    "udevadm monitor unavailable ({}); falling back to polling";

pub const STREAM_ENDED: &'static str = "event stream ended; falling back to polling";

/// What a monitor is living off, and why it is not events where it is not.
#[derive(Debug, Clone)]
pub struct Feed {
    pub source: Source,
    pub note: Option<String>,
}

impl Feed {
    /// A feed without events explains itself; one with events has nothing to
    /// explain.
    pub open spec fn explained(self) -> bool {
        self.source == Source::TimerOnly <==> self.note is Some
    }

    /// Starting never fails: without an event source the monitor is a timer.
    pub fn started(error: Option<&str>) -> (r: Self)
        ensures
            r.explained(),
            match error {
                None => r.source == Source::Udev,
                Some(e) => opt_text(r.note) == Some(filled(NO_MONITOR@, seq![e@])),
            },
    {
        match error {
            None => Feed { source: Source::Udev, note: None },
            Some(e) => Feed { source: Source::TimerOnly, note: Some(fill1(NO_MONITOR, e)) },
        }
    }

    /// The event stream ended: say so and carry on as a timer.
    pub fn ended(&mut self)
        ensures
            final(self).explained(),
            final(self).source == Source::TimerOnly,
            opt_text(final(self).note) == Some(STREAM_ENDED@),
    {
        self.source = Source::TimerOnly;
        self.note = Some(owned(STREAM_ENDED));
    }

    pub fn source(&self) -> (r: Source)
        ensures
            r == self.source,
    {
        self.source
    }

    /// Why there is no event source, when there isn't one.
    pub fn note(&self) -> (r: Option<&str>)
        ensures
            match r {
                Some(s) => opt_text(self.note) == Some(s@),
                None => self.note is None,
            },
    {
        match &self.note {
            Some(s) => Some(s.as_str()),
            None => None,
        }
    }
}

// ---------------------------------------------------------------------------
// absorbing a burst
// ---------------------------------------------------------------------------

/// What to do after a wait.
#[derive(Debug, Clone, Copy, PartialEq, Eq, Structural)]
pub enum Settle {
    /// Wait for at most so many milliseconds more.
    Wait(u64),
    /// The burst is over: so many events belong to one repaint.
    Over(usize),
}

pub open spec fn shorter(a: u64, b: u64) -> u64 {
    if a <= b {
        a
    } else {
        b
    }
}

/// Takes in the outcome of a wait. `seen` events were absorbed before it; the
/// burst may go on for `left_ms` more, and ends once `quiet_ms` pass without an
/// event. A first wait that times out is a burst of nothing.
pub fn settle(seen: usize, wake: &Wake, left_ms: u64, quiet_ms: u64) -> (r: Settle)
    requires
        seen < usize::MAX,
    ensures
        r == (match settled(seen as nat, wake is Event, left_ms) {
            Some(n) => Settle::Over(n as usize),
            None => Settle::Wait(shorter(quiet_ms, left_ms)),
        }),
{
    match wake {
        Wake::Timeout => Settle::Over(seen),
        Wake::Event(_) => {
            if left_ms == 0 {
                Settle::Over(seen + 1)
            } else if quiet_ms <= left_ms {
                Settle::Wait(quiet_ms)
            } else {
                Settle::Wait(left_ms)
            }
        },
    }
}

/// What a wait leads to, by whether an event ended it.
pub open spec fn settled(seen: nat, event: bool, left_ms: u64) -> Option<nat> {
    if !event {
        Some(seen)
    } else if left_ms == 0 {
        Some(seen + 1)
    } else {
        None
    }
}

/// However long a storm of events lasts, the burst is over once its time is up;
/// and every event of it is counted.
pub proof fn a_storm_cannot_hold_a_display(seen: nat)
    ensures
        settled(seen, true, 0) == Some(seen + 1),
        forall|left: u64| settled(seen, false, left) == Some(seen),
        settled(0, false, 0) == Some(0nat),
{
}

} // verus!
