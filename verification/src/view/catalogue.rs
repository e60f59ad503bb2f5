//! The probes on the machine's pane: which may be run from there, and what each
//! of the others says instead.
//!
//! A run is offered where privilege is the whole obstacle, the probe needs no
//! target, and there is a program on this machine that may be run as root.

use vstd::prelude::*;
use crate::caps::{
    infos, Access, Availability, Capabilities, ProbeClass, ProbeInfo, Requirement, PROBES,
};
use crate::escalate::{arguments, Helper, Request};
use crate::number::{dec, number};
use crate::seqs::{kept, lemma_take_all, lemma_take_more};
use crate::text::{fill1, fill2, filled, joined, owned, same};

verus! {

/// What stands between a probe and running it.
#[derive(Debug, Clone)]
pub enum Remedy {
    Nothing,
    /// Privilege is the whole obstacle.
    Privilege,
    /// Something a password does not give, by what it is called.
    Other(String),
}

impl Remedy {
    pub open spec fn words(self) -> Seq<char> {
        match self {
            Remedy::Nothing => "nothing"@,
            Remedy::Privilege => "privilege"@,
            Remedy::Other(w) => w@,
        }
    }
}

/// What is missing, by what it is called. The answer to a disk that is not there
/// is to plug one in; any other interface that is not there takes another
/// kernel.
pub open spec fn missing(access: Access, needs: Requirement) -> Seq<char> {
    match access {
        Access::NotLoaded(_) => "a kernel module"@,
        Access::Unsupported(_) => if needs == Requirement::BlockRead {
            "something to run it on"@
        } else {
            "a different kernel"@
        },
        _ => "something that could not be determined"@,
    }
}

impl Capabilities {
    /// What a probe lacks: nothing, a password, or something that no password
    /// gives.
    pub fn remedy(&self, p: &ProbeInfo) -> (r: Remedy)
        ensures
            match self.needed(p.needs) {
                None => r is Nothing,
                Some(i) => match i.access {
                    Access::Usable => r is Nothing,
                    Access::Denied(_) => r is Privilege,
                    _ => r is Other && r.words() == missing(i.access, p.needs),
                },
            },
    {
        let iface = match p.needs {
            Requirement::Nothing => {
                return Remedy::Nothing;
            },
            Requirement::Usbmon => &self.usbmon,
            Requirement::Usbfs => &self.usbfs,
            Requirement::BlockRead => &self.block_read,
            Requirement::PortControl => &self.port_control,
        };
        match &iface.availability {
            Availability::Usable => Remedy::Nothing,
            Availability::Denied(_) => Remedy::Privilege,
            Availability::NotLoaded(_) => Remedy::Other(owned("a kernel module")),
            Availability::Unsupported(_) => if p.needs == Requirement::BlockRead {
                Remedy::Other(owned("something to run it on"))
            } else {
                Remedy::Other(owned("a different kernel"))
            },
            Availability::Unknown(_) => Remedy::Other(
                owned("something that could not be determined"),
            ),
        }
    }
}

/// Whether root is the whole answer for a probe, and it can be run without
/// naming a device. Whether there is a way to run it is another question.
pub open spec fn may_be_offered(p: ProbeInfo, r: Remedy) -> bool {
    p.implemented && p.class != ProbeClass::Disruptive && r is Privilege
}

pub fn offerable(p: &ProbeInfo, remedy: &Remedy) -> (r: bool)
    ensures
        r == may_be_offered(*p, *remedy),
{
    let privilege = match remedy {
        Remedy::Privilege => true,
        _ => false,
    };
    p.implemented && p.class != ProbeClass::Disruptive && privilege
}

pub const NEEDS: &'static str = "needs {}";

pub open spec fn readiness(p: ProbeInfo, r: Remedy) -> Seq<char> {
    if !p.implemented {
        "not built yet"@
    } else {
        match r {
            Remedy::Nothing => "ready"@,
            _ => filled(NEEDS@, seq![r.words()]),
        }
    }
}

pub open spec fn readiness_style(p: ProbeInfo, r: Remedy) -> Seq<char> {
    if p.implemented && r is Nothing {
        "ready"@
    } else {
        "blocked"@
    }
}

/// What a probe still needs, in words, and the class of the chip that says so.
/// "Not built yet" comes first: a probe that does not exist cannot be blocked.
pub fn state(p: &ProbeInfo, remedy: &Remedy) -> (r: (String, &'static str))
    ensures
        r.0@ == readiness(*p, *remedy),
        r.1@ == readiness_style(*p, *remedy),
{
    if !p.implemented {
        return (owned("not built yet"), "blocked");
    }
    match remedy {
        Remedy::Nothing => (owned("ready"), "ready"),
        Remedy::Privilege => (fill1(NEEDS, "privilege"), "blocked"),
        Remedy::Other(w) => (fill1(NEEDS, w.as_str()), "blocked"),
    }
}

pub open spec fn class_style(c: ProbeClass) -> Seq<char> {
    match c {
        ProbeClass::Passive => "measured"@,
        ProbeClass::PrivilegedRead => "inferred"@,
        ProbeClass::Disruptive => "heuristic"@,
    }
}

/// The class of a chip, from the palette of confidence and not of severity: a
/// disruptive probe is no fault, it is a stronger kind of action.
pub fn class_css(c: ProbeClass) -> (r: &'static str)
    ensures
        r@ == class_style(c),
{
    match c {
        ProbeClass::Passive => "measured",
        ProbeClass::PrivilegedRead => "inferred",
        ProbeClass::Disruptive => "heuristic",
    }
}

pub const SECONDS_AGO: &'static str = "{}s ago";

pub const MINUTES_AGO: &'static str = "{}m ago";

pub const HOURS_AGO: &'static str = "{}h ago";

pub open spec fn age(ms: u64) -> Seq<char> {
    let secs = ms / 1000;
    if secs < 2 {
        "just now"@
    } else if secs < 60 {
        filled(SECONDS_AGO@, seq![dec(secs as nat)])
    } else if secs < 3600 {
        filled(MINUTES_AGO@, seq![dec((secs / 60) as nat)])
    } else {
        filled(HOURS_AGO@, seq![dec((secs / 3600) as nat)])
    }
}

/// How long ago something was measured, rounded: only whether it still describes
/// what is on screen is the point.
pub fn ago(ms: u64) -> (r: String)
    ensures
        r@ == age(ms),
{
    let secs: u64 = ms / 1000;
    if secs < 2 {
        owned("just now")
    } else if secs < 60 {
        let n = number(secs);
        fill1(SECONDS_AGO, n.as_str())
    } else if secs < 3600 {
        let n = number(secs / 60);
        fill1(MINUTES_AGO, n.as_str())
    } else {
        let n = number(secs / 3600);
        fill1(HOURS_AGO, n.as_str())
    }
}

pub open spec fn runs_here(c: Capabilities) -> spec_fn(ProbeInfo) -> bool {
    |p: ProbeInfo| p.implemented && c.blocked(p) is None
}

pub const READY_OF: &'static str = "{} of {} can run here";

/// How many of the probes can run as things stand.
pub fn ready_line(caps: &Capabilities) -> (r: String)
    ensures
        r@ == filled(READY_OF@, seq![dec(kept(infos(), runs_here(*caps)).len()), dec(5)]),
{
    let ghost all = infos();
    let ghost f = runs_here(*caps);
    let mut n: u64 = 0;
    let mut i: usize = 0;
    assert(kept(all.take(0), f) =~= Seq::empty());
    while i < 5
        invariant
            i <= 5,
            n <= i,
            all == infos(),
            all.len() == 5,
            f == runs_here(*caps),
            n == kept(all.take(i as int), f).len(),
        decreases 5 - i,
    {
        proof {
            lemma_take_more(all, i as int);
        }
        let p = PROBES[i].info();
        if p.implemented && caps.blocker(&p).is_none() {
            n += 1;
        }
        i += 1;
    }
    proof {
        lemma_take_all(all);
    }
    let ready = number(n);
    let total = number(5);
    fill2(READY_OF, ready.as_str(), total.as_str())
}

pub const CAN_RUN: &'static str = "A probe that only lacks privilege can be run from here: you are asked for your password, and only that one probe runs as root. The app never does.";

pub const NOTHING_TO_RUN: &'static str = "Nothing below can be started from here \u{2014} each row says what stands in its way.";

pub const NOT_FROM_HERE: &'static str = "One of these needs only privilege, and could be run from here \u{2014} but not from this install:";

pub const ONLY_READS: &'static str = "This viewer only reads, and nothing below can be started from here either \u{2014} each row says what stands in its way. `usbdiag probe NAME` runs one from a terminal.";

pub open spec fn introduction(can_escalate: bool, offers: bool) -> Seq<char> {
    if can_escalate && offers {
        CAN_RUN@
    } else if can_escalate {
        NOTHING_TO_RUN@
    } else if offers {
        NOT_FROM_HERE@
    } else {
        ONLY_READS@
    }
}

/// What stands above the list: each case says only what is true of itself.
pub fn intro(can_escalate: bool, offers: bool) -> (r: &'static str)
    ensures
        r@ == introduction(can_escalate, offers),
{
    match (can_escalate, offers) {
        (true, true) => CAN_RUN,
        (true, false) => NOTHING_TO_RUN,
        (false, true) => NOT_FROM_HERE,
        (false, false) => ONLY_READS,
    }
}

/// Whether the reason that nothing can be run as root is worth saying: only
/// where somebody could act on it.
pub fn says_why_not(can_escalate: bool, offers: bool) -> (r: bool)
    ensures
        r == (!can_escalate && offers),
{
    !can_escalate && offers
}

pub const NEEDS_A_TARGET: &'static str = "Cycling a port has to be aimed at one device, so it is not offered from a panel about the machine: `usbdiag probe {} --target NAME`.";

/// Why a probe that is ready has no button, where that is so.
pub fn target_note(p: &ProbeInfo) -> (r: Option<String>)
    ensures
        crate::text::opt_text(r) == (if p.implemented && p.class == ProbeClass::Disruptive {
            Some(filled(NEEDS_A_TARGET@, seq![p.name@]))
        } else {
            None
        }),
{
    if p.implemented && p.class == ProbeClass::Disruptive {
        Some(fill1(NEEDS_A_TARGET, p.name))
    } else {
        None
    }
}

/// The probe that runs now, and whether it was asked to stop.
#[derive(Debug, Clone)]
pub struct Running {
    pub name: String,
    pub asked_to_stop: bool,
}

/// The button on a probe's row.
#[derive(Debug, Clone, Copy, PartialEq, Eq, Structural)]
pub enum Action {
    Absent,
    /// Stopping is asking: nobody without privilege can end a root process. Once
    /// asked, the button goes quiet.
    Stop { asked: bool },
    /// One at a time: two at once would race on the same bus.
    Run { enabled: bool },
}

pub open spec fn action_of(
    p: ProbeInfo,
    r: Remedy,
    running: Option<Running>,
    can_escalate: bool,
) -> Action {
    match running {
        Some(now) if now.name@ == p.name@ => Action::Stop { asked: now.asked_to_stop },
        _ => if may_be_offered(p, r) && can_escalate {
            Action::Run { enabled: running is None }
        } else {
            Action::Absent
        },
    }
}

pub fn action(p: &ProbeInfo, remedy: &Remedy, running: &Option<Running>, can_escalate: bool) -> (r:
    Action)
    ensures
        r == action_of(*p, *remedy, *running, can_escalate),
{
    if let Some(now) = running {
        if same(now.name.as_str(), p.name) {
            return Action::Stop { asked: now.asked_to_stop };
        }
    }
    if offerable(p, remedy) && can_escalate {
        Action::Run { enabled: running.is_none() }
    } else {
        Action::Absent
    }
}

/// How long an escalated run measures: long enough to see traffic on an idle
/// bus, short enough to sit through.
pub const WINDOW_MS: u64 = 5000;

/// The request behind the button. Never a target, and never a consent beyond the
/// password: what needs either is not offered.
pub fn request_for(p: &ProbeInfo, cycles: u32) -> (r: Request)
    ensures
        r.name@ == p.name@,
        r.target is None,
        r.window_ms == WINDOW_MS,
        r.cycles == cycles,
        !r.consented,
        !r.accepts_disruption,
{
    Request {
        name: owned(p.name),
        target: None,
        window_ms: WINDOW_MS,
        cycles,
        consented: false,
        accepts_disruption: false,
    }
}

pub const RUN_AS_ROOT: &'static str = "Run {} as root?";

pub const WHAT_RUNS: &'static str = "{}\n\nYou will be asked for your password, and this is what runs:\n\n{}";

/// What a helper runs for a request.
pub open spec fn command_shown(helper: Helper, req: Request) -> Seq<char> {
    joined(seq![helper.asker(), helper.program()] + arguments(req), " "@)
}

/// What is asked before a probe is run as root: the password prompt that follows
/// says who is asked, never what is about to happen.
pub fn confirmation(what_it_does: &str, helper: &Helper, req: &Request) -> (r: (String, String))
    ensures
        r.0@ == filled(RUN_AS_ROOT@, seq![req.name@]),
        r.1@ == filled(WHAT_RUNS@, seq![what_it_does@, command_shown(*helper, *req)]),
{
    let heading = fill1(RUN_AS_ROOT, req.name.as_str());
    let line = helper.command_line(req);
    (heading, fill2(WHAT_RUNS, what_it_does, line.as_str()))
}

/// A disruptive probe never gets a button that runs it: it has to be aimed at
/// one device.
pub proof fn a_disruptive_probe_is_never_offered(
    p: ProbeInfo,
    r: Remedy,
    running: Option<Running>,
    can_escalate: bool,
)
    requires
        p.class == ProbeClass::Disruptive,
    ensures
        !(action_of(p, r, running, can_escalate) is Run),
{
}

/// Nothing can be started while a probe runs.
pub proof fn one_probe_runs_at_a_time(p: ProbeInfo, r: Remedy, running: Running, can_escalate: bool)
    ensures
        action_of(p, r, Some(running), can_escalate) matches Action::Run { enabled } ==> !enabled,
{
}

/// A password is asked for only where it is all that is missing.
pub proof fn a_password_is_never_asked_in_vain(
    p: ProbeInfo,
    r: Remedy,
    running: Option<Running>,
    can_escalate: bool,
)
    requires
        action_of(p, r, running, can_escalate) is Run,
    ensures
        r is Privilege,
        can_escalate,
        p.implemented,
{
}

} // verus!
