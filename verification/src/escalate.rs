//! Running one probe as root, for a front end that has no privilege and wants
//! none.
//!
//! A privileged probe is a subprocess: one `pkexec usbdiag probe ... --json` per
//! run, whose entire result is a single document on its output. Consent travels
//! as the flags that carry it, and the child decides everything again as root.
//!
//! Root must not run a program that anything running as the user can rewrite
//! first. So the helper has to be owned by root and writable by nobody else, and
//! so has every directory above it, or escalation is refused with a reason.
//!
//! The answer is what the child printed. It exits non-zero when it *found*
//! something, so the exit code only explains the absence of an answer.

use vstd::prelude::*;
use crate::caps::{called, infos, probe, ProbeClass, ProbeInfo, Requirement};
use crate::model::Report;
use crate::number::{dec, number, integer, dec_int};
use crate::seqs::{first_of, lemma_take_all, lemma_take_more};
use crate::snapshot::lemma_first_stays;
use crate::text::{
    cat, chars_of, cut_last, fill1, fill2, filled, join, joined, no_texts, opt_text, owned,
    push_text, rsplit_once, same, texts, trim, trimmed,
};

verus! {

/// The command that asks for root, as absolute paths: what a search path names
/// is not for this process to delegate.
pub const AUTH_TOOL: [&'static str; 2] = ["/usr/bin/pkexec", "/bin/pkexec"];

/// Where a system-installed `usbdiag` lives.
pub const SYSTEM_PATHS: [&'static str; 2] = ["/usr/local/bin/usbdiag", "/usr/bin/usbdiag"];

/// The polkit action that turns one prompt per probe into one per session.
pub const POLKIT_ACTION: &'static str = "com.iboalali.usbdiag.probe";

pub const NOT_FOUND: &'static str = "no usbdiag command to run — looked for {}";

pub const NOT_TRUSTED: &'static str =
    "{} will not be run as root: {}. Root must not execute a file that anything running as \
        you can rewrite first — install usbdiag system-wide, to /usr/local/bin, and probes can \
        be run from here";

pub const NO_AUTH_TOOL: &'static str =
    "pkexec is not installed, so there is no way to ask for root from a window — run the \
        probe from a terminal instead";

pub const NOT_AUTHORISED: &'static str = "the request was not authorised";

pub const NOT_STARTED: &'static str = "usbdiag could not be started: {}";

pub const SAID_NOTHING: &'static str = "usbdiag exited {} without saying anything";

pub const KILLED: &'static str = "usbdiag was killed before it answered";

pub const UNRESOLVED: &'static str = "it cannot be resolved: {}";

pub const UNREADABLE: &'static str = "{} cannot be read: {}";

pub const NOT_ROOTS: &'static str = "{} is owned by uid {} rather than by root";

pub const WRITABLE: &'static str = "{} can be written by other users (mode {})";

/// Why no probe can be escalated here. Every variant names what would fix it.
#[derive(Debug, Clone)]
pub enum Unavailable {
    /// No `usbdiag` was found at all.
    NotFound { looked_in: Vec<String> },
    /// One was found, and running it as root would be unsafe.
    NotTrusted { path: String, why: String },
    /// Nothing to ask with.
    NoAuthTool,
}

/// Why no probe can be escalated, as text.
pub enum Obstacle {
    NotFound { looked_in: Seq<Seq<char>> },
    NotTrusted { path: Seq<char>, why: Seq<char> },
    NoAuthTool,
}

impl View for Unavailable {
    type V = Obstacle;

    open spec fn view(&self) -> Obstacle {
        match *self {
            Unavailable::NotFound { looked_in } => Obstacle::NotFound {
                looked_in: texts(looked_in@),
            },
            Unavailable::NotTrusted { path, why } => Obstacle::NotTrusted {
                path: path@,
                why: why@,
            },
            Unavailable::NoAuthTool => Obstacle::NoAuthTool,
        }
    }
}

impl Obstacle {
    pub open spec fn words(self) -> Seq<char> {
        match self {
            Obstacle::NotFound { looked_in } => filled(
                NOT_FOUND@,
                seq![joined(looked_in, ", "@)],
            ),
            Obstacle::NotTrusted { path, why } => filled(NOT_TRUSTED@, seq![path, why]),
            Obstacle::NoAuthTool => NO_AUTH_TOOL@,
        }
    }
}

impl Unavailable {
    pub fn message(&self) -> (r: String)
        ensures
            r@ == self@.words(),
    {
        match self {
            Unavailable::NotFound { looked_in } => {
                let list = join(looked_in, ", ");
                fill1(NOT_FOUND, list.as_str())
            },
            Unavailable::NotTrusted { path, why } => fill2(
                NOT_TRUSTED,
                path.as_str(),
                why.as_str(),
            ),
            Unavailable::NoAuthTool => owned(NO_AUTH_TOOL),
        }
    }
}

// ---------------------------------------------------------------------------
// the disk
// ---------------------------------------------------------------------------

/// Who owns a file, and who may do what to it.
#[derive(Debug, Clone, Copy, PartialEq, Eq, Structural)]
pub struct Meta {
    pub uid: u32,
    pub mode: u32,
    pub is_file: bool,
}

/// What asking about a path gave.
#[derive(Debug)]
pub struct Stat {
    pub path: String,
    pub read: Result<Meta, String>,
}

/// Where a path leads once its links are followed.
#[derive(Debug)]
pub struct Link {
    pub path: String,
    pub leads: Result<String, String>,
}

/// What was asked of the filesystem, and what it answered.
#[derive(Debug)]
pub struct Disk {
    pub stats: Vec<Stat>,
    pub links: Vec<Link>,
}

/// What is said of a path nobody asked about.
pub const NOT_READ: &'static str = "not read";

pub open spec fn stat_of(path: Seq<char>) -> spec_fn(Stat) -> bool {
    |s: Stat| s.path@ == path
}

pub open spec fn link_of(path: Seq<char>) -> spec_fn(Link) -> bool {
    |l: Link| l.path@ == path
}

impl Disk {
    pub open spec fn meta(self, path: Seq<char>) -> Result<Meta, Seq<char>> {
        match first_of(self.stats@, stat_of(path)) {
            Some(s) => match s.read {
                Ok(m) => Ok(m),
                Err(e) => Err(e@),
            },
            None => Err(NOT_READ@),
        }
    }

    pub open spec fn leads_to(self, path: Seq<char>) -> Result<Seq<char>, Seq<char>> {
        match first_of(self.links@, link_of(path)) {
            Some(l) => match l.leads {
                Ok(r) => Ok(r@),
                Err(e) => Err(e@),
            },
            None => Err(NOT_READ@),
        }
    }

    pub fn metadata(&self, path: &str) -> (r: Result<Meta, String>)
        ensures
            match r {
                Ok(m) => self.meta(path@) == Ok::<Meta, Seq<char>>(m),
                Err(e) => self.meta(path@) == Err::<Meta, Seq<char>>(e@),
            },
    {
        let ghost p = stat_of(path@);
        let mut i: usize = 0;
        while i < self.stats.len()
            invariant
                i <= self.stats.len(),
                p == stat_of(path@),
                first_of(self.stats@.take(i as int), p) is None,
            decreases self.stats.len() - i,
        {
            proof {
                lemma_take_more(self.stats@, i as int);
            }
            if same(self.stats[i].path.as_str(), path) {
                proof {
                    lemma_first_stays(self.stats@, i + 1, p);
                }
                return match &self.stats[i].read {
                    Ok(m) => Ok(*m),
                    Err(e) => Err(e.clone()),
                };
            }
            i += 1;
        }
        proof {
            lemma_take_all(self.stats@);
        }
        Err(owned(NOT_READ))
    }

    pub fn canonicalize(&self, path: &str) -> (r: Result<String, String>)
        ensures
            match r {
                Ok(t) => self.leads_to(path@) == Ok::<Seq<char>, Seq<char>>(t@),
                Err(e) => self.leads_to(path@) == Err::<Seq<char>, Seq<char>>(e@),
            },
    {
        let ghost p = link_of(path@);
        let mut i: usize = 0;
        while i < self.links.len()
            invariant
                i <= self.links.len(),
                p == link_of(path@),
                first_of(self.links@.take(i as int), p) is None,
            decreases self.links.len() - i,
        {
            proof {
                lemma_take_more(self.links@, i as int);
            }
            if same(self.links[i].path.as_str(), path) {
                proof {
                    lemma_first_stays(self.links@, i + 1, p);
                }
                return match &self.links[i].leads {
                    Ok(t) => Ok(t.clone()),
                    Err(e) => Err(e.clone()),
                };
            }
            i += 1;
        }
        proof {
            lemma_take_all(self.links@);
        }
        Err(owned(NOT_READ))
    }

    pub open spec fn executable(self, path: Seq<char>) -> bool {
        match self.meta(path) {
            Ok(m) => m.is_file && m.mode & 0o111u32 != 0,
            Err(_) => false,
        }
    }

    pub fn is_executable_file(&self, path: &str) -> (r: bool)
        ensures
            r == self.executable(path@),
    {
        match self.metadata(path) {
            Ok(m) => m.is_file && m.mode & 0o111u32 != 0,
            Err(_) => false,
        }
    }
}

// ---------------------------------------------------------------------------
// the ownership walk
// ---------------------------------------------------------------------------

pub open spec fn octal_char(d: nat) -> char {
    (48 + d) as char
}

/// A number below 4096 as four octal digits.
pub open spec fn octal(n: nat) -> Seq<char> {
    seq![octal_char(n / 512 % 8), octal_char(n / 64 % 8), octal_char(n / 8 % 8), octal_char(n % 8)]
}

fn octal_text(n: u32) -> (r: String)
    ensures
        r@ == octal(n as nat),
{
    let mut out = String::new();
    let a: u8 = (n / 512 % 8) as u8;
    let b: u8 = (n / 64 % 8) as u8;
    let c: u8 = (n / 8 % 8) as u8;
    let d: u8 = (n % 8) as u8;
    out.push((48 + a) as char);
    out.push((48 + b) as char);
    out.push((48 + c) as char);
    out.push((48 + d) as char);
    assert(out@ =~= octal(n as nat));
    out
}

/// What is wrong with one component of a path: it is not root's, or somebody
/// else can write it. A directory that anyone can write is refused even where
/// the sticky bit would make it safe.
pub open spec fn fault_of(path: Seq<char>, uid: u32, mode: u32) -> Option<Seq<char>> {
    if uid != 0 {
        Some(filled(NOT_ROOTS@, seq![path, dec(uid as nat)]))
    } else if mode & 0o022u32 != 0 {
        Some(filled(WRITABLE@, seq![path, octal((mode & 0o7777u32) as nat)]))
    } else {
        None
    }
}

pub fn fault(path: &str, uid: u32, mode: u32) -> (r: Option<String>)
    ensures
        opt_text(r) == fault_of(path@, uid, mode),
{
    if uid != 0 {
        let n = number(uid as u64);
        return Some(fill2(NOT_ROOTS, path, n.as_str()));
    }
    if mode & 0o022u32 != 0 {
        let m = octal_text(mode & 0o7777u32);
        return Some(fill2(WRITABLE, path, m.as_str()));
    }
    None
}

/// The directory above a path; above the root there is nothing.
pub open spec fn above(path: Seq<char>) -> Option<Seq<char>> {
    if path.len() <= 1 {
        None
    } else {
        match cut_last(path, '/') {
            Some((dir, _)) => if dir.len() == 0 {
                Some("/"@)
            } else {
                Some(dir)
            },
            None => None,
        }
    }
}

proof fn lemma_above_is_shorter(path: Seq<char>)
    ensures
        above(path) matches Some(dir) ==> dir.len() < path.len(),
{
    reveal_strlit("/");
    crate::text::lemma_after_last(path, '/');
}

/// A path and every directory above it.
pub open spec fn ancestors(path: Seq<char>) -> Seq<Seq<char>>
    decreases path.len(),
    via ancestors_decreases
{
    match above(path) {
        Some(dir) => seq![path] + ancestors(dir),
        None => seq![path],
    }
}

#[via_fn]
proof fn ancestors_decreases(path: Seq<char>) {
    lemma_above_is_shorter(path);
}

fn parent(path: &str) -> (r: Option<String>)
    ensures
        opt_text(r) == above(path@),
{
    let cs = chars_of(path);
    if cs.len() <= 1 {
        return None;
    }
    match rsplit_once(path, '/') {
        Some((dir, _)) => {
            let d = chars_of(dir.as_str());
            if d.len() == 0 {
                Some(owned("/"))
            } else {
                Some(dir)
            }
        },
        None => None,
    }
}

/// What is wrong with one step of the walk.
pub open spec fn step_fault(disk: Disk, step: Seq<char>) -> Option<Seq<char>> {
    match disk.meta(step) {
        Ok(m) => fault_of(step, m.uid, m.mode),
        Err(e) => Some(filled(UNREADABLE@, seq![step, e])),
    }
}

/// The first thing wrong with any of these steps.
pub open spec fn first_fault(disk: Disk, steps: Seq<Seq<char>>) -> Option<Seq<char>>
    decreases steps.len(),
{
    if steps.len() == 0 {
        None
    } else {
        match step_fault(disk, steps[0]) {
            Some(why) => Some(why),
            None => first_fault(disk, steps.skip(1)),
        }
    }
}

fn find_step_fault(disk: &Disk, step: &str) -> (r: Option<String>)
    ensures
        opt_text(r) == step_fault(*disk, step@),
{
    match disk.metadata(step) {
        Ok(m) => fault(step, m.uid, m.mode),
        Err(e) => Some(fill2(UNREADABLE, step, e.as_str())),
    }
}

fn find_fault(disk: &Disk, path: &str) -> (r: Option<String>)
    ensures
        opt_text(r) == first_fault(*disk, ancestors(path@)),
    decreases path@.len(),
{
    proof {
        lemma_above_is_shorter(path@);
    }
    assert(ancestors(path@)[0] == path@);
    if let Some(why) = find_step_fault(disk, path) {
        return Some(why);
    }
    match parent(path) {
        Some(dir) => {
            assert(ancestors(path@).skip(1) =~= ancestors(dir@));
            find_fault(disk, dir.as_str())
        },
        None => {
            assert(ancestors(path@).skip(1) =~= Seq::<Seq<char>>::empty());
            assert(first_fault(*disk, ancestors(path@).skip(1)) is None);
            None
        },
    }
}

/// The whole walk: the file a path leads to, and every directory above it.
/// Replacing a directory replaces everything under it.
pub open spec fn vetted(disk: Disk, path: Seq<char>) -> Result<Seq<char>, Obstacle> {
    match disk.leads_to(path) {
        Ok(target) => match first_fault(disk, ancestors(target)) {
            Some(why) => Err(Obstacle::NotTrusted { path: target, why }),
            None => Ok(target),
        },
        Err(e) => Err(Obstacle::NotTrusted { path, why: filled(UNRESOLVED@, seq![e]) }),
    }
}

pub fn vet(disk: &Disk, path: &str) -> (r: Result<String, Unavailable>)
    ensures
        match r {
            Ok(t) => vetted(*disk, path@) == Ok::<Seq<char>, Obstacle>(t@),
            Err(e) => vetted(*disk, path@) == Err::<Seq<char>, Obstacle>(e@),
        },
{
    let target = match disk.canonicalize(path) {
        Ok(t) => t,
        Err(e) => {
            return Err(
                Unavailable::NotTrusted { path: owned(path), why: fill1(UNRESOLVED, e.as_str()) },
            );
        },
    };
    match find_fault(disk, target.as_str()) {
        Some(why) => Err(Unavailable::NotTrusted { path: target, why }),
        None => Ok(target),
    }
}

// ---------------------------------------------------------------------------
// the helper
// ---------------------------------------------------------------------------

pub open spec fn auth_tools() -> Seq<Seq<char>> {
    Seq::new(AUTH_TOOL@.len(), |i: int| AUTH_TOOL@[i]@)
}

pub open spec fn runs(disk: Disk) -> spec_fn(Seq<char>) -> bool {
    |p: Seq<char>| disk.executable(p)
}

/// The first command that can ask for root.
pub fn auth_tool(disk: &Disk) -> (r: Option<String>)
    ensures
        opt_text(r) == first_of(auth_tools(), runs(*disk)),
{
    let ghost p = runs(*disk);
    let mut i: usize = 0;
    while i < 2
        invariant
            i <= 2,
            p == runs(*disk),
            auth_tools().len() == 2,
            first_of(auth_tools().take(i as int), p) is None,
        decreases 2 - i,
    {
        proof {
            lemma_take_more(auth_tools(), i as int);
        }
        let tool: &str = AUTH_TOOL[i];
        assert(auth_tools()[i as int] == tool@);
        if disk.is_executable_file(tool) {
            proof {
                lemma_first_stays(auth_tools(), i + 1, p);
            }
            return Some(owned(tool));
        }
        i += 1;
    }
    proof {
        lemma_take_all(auth_tools());
    }
    None
}

/// A `usbdiag` beside a program.
pub open spec fn beside(exe: Seq<char>) -> Option<Seq<char>> {
    match cut_last(exe, '/') {
        Some((dir, _)) => Some(dir + "/usbdiag"@),
        None => None,
    }
}

/// Where to look: beside the running program first, so that a pair installed
/// together stays together; then where a system install puts it.
pub open spec fn places(exe: Option<Seq<char>>) -> Seq<Seq<char>> {
    let system = seq![SYSTEM_PATHS@[0]@, SYSTEM_PATHS@[1]@];
    match exe {
        Some(e) => match beside(e) {
            Some(p) => if p == SYSTEM_PATHS@[0]@ {
                system
            } else {
                seq![p] + system
            },
            None => system,
        },
        None => system,
    }
}

pub fn candidates(exe: Option<&str>) -> (r: Vec<String>)
    ensures
        texts(r@) == places(
            match exe {
                Some(e) => Some(e@),
                None => None,
            },
        ),
{
    let mut out = no_texts();
    if let Some(e) = exe {
        if let Some((dir, _)) = rsplit_once(e, '/') {
            let sibling = cat(dir.as_str(), "/usbdiag");
            if !same(sibling.as_str(), SYSTEM_PATHS[0]) {
                push_text(&mut out, sibling);
            }
        }
    }
    let ghost before = texts(out@);
    push_text(&mut out, owned(SYSTEM_PATHS[0]));
    push_text(&mut out, owned(SYSTEM_PATHS[1]));
    assert(texts(out@) =~= before + seq![SYSTEM_PATHS@[0]@, SYSTEM_PATHS@[1]@]);
    out
}

/// The first candidate that can be run and passes the walk.
pub open spec fn first_safe(disk: Disk, s: Seq<Seq<char>>) -> Option<Seq<char>>
    decreases s.len(),
{
    if s.len() == 0 {
        None
    } else if disk.executable(s[0]) && vetted(disk, s[0]) is Ok {
        Some(vetted(disk, s[0])->Ok_0)
    } else {
        first_safe(disk, s.skip(1))
    }
}

/// The first reason that a candidate was refused.
pub open spec fn first_refusal(disk: Disk, s: Seq<Seq<char>>) -> Option<Obstacle>
    decreases s.len(),
{
    if s.len() == 0 {
        None
    } else if disk.executable(s[0]) && vetted(disk, s[0]) is Err {
        Some(vetted(disk, s[0])->Err_0)
    } else {
        first_refusal(disk, s.skip(1))
    }
}

/// A `usbdiag` this process is willing to run as root. There is no way to make
/// one but [`Helper::find`].
#[derive(Debug, Clone)]
pub struct Helper {
    path: String,
    auth: String,
}

impl Helper {
    pub closed spec fn program(self) -> Seq<char> {
        self.path@
    }

    pub closed spec fn asker(self) -> Seq<char> {
        self.auth@
    }

    /// Finds a helper safe to escalate, or says why there is none. The reason
    /// given is the first one, and a candidate that is refused never hides a
    /// later one that is safe.
    pub fn find(disk: &Disk, looked_in: Vec<String>) -> (r: Result<Helper, Unavailable>)
        ensures
            match (first_of(auth_tools(), runs(*disk)), first_safe(*disk, texts(looked_in@))) {
                (None, _) => r is Err && r->Err_0@ == Obstacle::NoAuthTool,
                (Some(a), Some(p)) => r is Ok && r->Ok_0.program() == p && r->Ok_0.asker() == a,
                (Some(a), None) => r is Err && r->Err_0@ == (match first_refusal(
                    *disk,
                    texts(looked_in@),
                ) {
                    Some(o) => o,
                    None => Obstacle::NotFound { looked_in: texts(looked_in@) },
                }),
            },
    {
        let auth = match auth_tool(disk) {
            Some(a) => a,
            None => {
                return Err(Unavailable::NoAuthTool);
            },
        };
        let ghost all = texts(looked_in@);
        let mut refused: Option<Unavailable> = None;
        let mut i: usize = 0;
        assert(all.skip(0) =~= all);
        while i < looked_in.len()
            invariant
                i <= looked_in.len(),
                all == texts(looked_in@),
                first_of(auth_tools(), runs(*disk)) == Some(auth@),
                first_safe(*disk, all) == first_safe(*disk, all.skip(i as int)),
                match refused {
                    Some(o) => first_refusal(*disk, all) == Some(o@),
                    None => first_refusal(*disk, all) == first_refusal(*disk, all.skip(i as int)),
                },
            decreases looked_in.len() - i,
        {
            assert(all.skip(i as int)[0] == looked_in@[i as int]@);
            assert(all.skip(i as int).skip(1) =~= all.skip(i + 1));
            if disk.is_executable_file(looked_in[i].as_str()) {
                match vet(disk, looked_in[i].as_str()) {
                    Ok(target) => {
                        return Ok(Helper { path: target, auth });
                    },
                    Err(e) => {
                        if refused.is_none() {
                            refused = Some(e);
                        }
                    },
                }
            }
            i += 1;
        }
        match refused {
            Some(o) => Err(o),
            None => Err(Unavailable::NotFound { looked_in }),
        }
    }

    pub fn path(&self) -> (r: &str)
        ensures
            r@ == self.program(),
    {
        self.path.as_str()
    }

    /// The command that asks for root.
    pub fn auth(&self) -> (r: &str)
        ensures
            r@ == self.asker(),
    {
        self.auth.as_str()
    }

    /// Exactly what will be run, for a dialog to show before it is.
    pub fn command_line(&self, req: &Request) -> (r: String)
        ensures
            r@ == joined(seq![self.asker(), self.program()] + arguments(*req), " "@),
    {
        let mut parts = no_texts();
        push_text(&mut parts, self.auth.clone());
        push_text(&mut parts, self.path.clone());
        let mut rest = probe_args(req);
        let ghost front = parts@;
        let ghost back = rest@;
        parts.append(&mut rest);
        assert(texts(parts@) =~= seq![self.asker(), self.program()] + arguments(*req)) by {
            assert(texts(front) =~= seq![self.asker(), self.program()]);
            assert(texts(parts@) =~= texts(front) + texts(back));
        }
        join(&parts, " ")
    }
}

// ---------------------------------------------------------------------------
// the command line
// ---------------------------------------------------------------------------

/// A probe somebody asked for.
#[derive(Debug, Clone)]
pub struct Request {
    pub name: String,
    pub target: Option<String>,
    pub window_ms: u64,
    pub cycles: u32,
    pub consented: bool,
    pub accepts_disruption: bool,
}

impl ProbeInfo {
    /// A probe that watches for a while.
    pub open spec fn windowed(self) -> bool {
        self.class == ProbeClass::PrivilegedRead
    }

    pub fn takes_a_window(&self) -> (r: bool)
        ensures
            r == self.windowed(),
    {
        self.class == ProbeClass::PrivilegedRead
    }

    /// A probe that repeats something.
    pub open spec fn cyclic(self) -> bool {
        self.needs == Requirement::PortControl
    }

    pub fn takes_cycles(&self) -> (r: bool)
        ensures
            r == self.cyclic(),
    {
        self.needs == Requirement::PortControl
    }
}

pub open spec fn target_part(req: Request) -> Seq<Seq<char>> {
    match req.target {
        Some(t) => seq!["--target"@, t@],
        None => Seq::empty(),
    }
}

/// Every knob is sent only where it means something.
pub open spec fn knob_part(req: Request) -> Seq<Seq<char>> {
    match first_of(infos(), called(req.name@)) {
        Some(p) => (if p.windowed() {
            seq!["--duration"@, dec(req.window_ms as nat)]
        } else {
            Seq::empty()
        }) + (if p.cyclic() {
            seq!["--cycles"@, dec(req.cycles as nat)]
        } else {
            Seq::empty()
        }),
        None => Seq::empty(),
    }
}

/// Consent is carried by the flags that mean it, and by nothing else.
pub open spec fn consent_part(req: Request) -> Seq<Seq<char>> {
    (if req.consented {
        seq!["--yes"@]
    } else {
        Seq::empty()
    }) + (if req.accepts_disruption {
        seq!["--force"@]
    } else {
        Seq::empty()
    })
}

pub open spec fn arguments(req: Request) -> Seq<Seq<char>> {
    seq!["probe"@, req.name@] + target_part(req) + knob_part(req) + consent_part(req)
        + seq!["--json"@, "--stop-on-eof"@]
}

fn push_knobs(req: &Request, out: &mut Vec<String>)
    ensures
        texts(final(out)@) == texts(old(out)@) + knob_part(*req),
{
    let ghost before = texts(out@);
    if let Some(p) = probe(req.name.as_str()) {
        if p.takes_a_window() {
            push_text(out, owned("--duration"));
            push_text(out, number(req.window_ms));
        }
        if p.takes_cycles() {
            push_text(out, owned("--cycles"));
            push_text(out, number(req.cycles as u64));
        }
    }
    assert(texts(out@) =~= before + knob_part(*req));
}

fn push_consent(req: &Request, out: &mut Vec<String>)
    ensures
        texts(final(out)@) == texts(old(out)@) + consent_part(*req),
{
    let ghost before = texts(out@);
    if req.consented {
        push_text(out, owned("--yes"));
    }
    if req.accepts_disruption {
        push_text(out, owned("--force"));
    }
    assert(texts(out@) =~= before + consent_part(*req));
}

/// The command line for a request.
pub fn probe_args(req: &Request) -> (r: Vec<String>)
    ensures
        texts(r@) == arguments(*req),
{
    let mut out = no_texts();
    push_text(&mut out, owned("probe"));
    push_text(&mut out, req.name.clone());
    if let Some(t) = &req.target {
        push_text(&mut out, owned("--target"));
        push_text(&mut out, t.clone());
    }
    assert(texts(out@) =~= seq!["probe"@, req.name@] + target_part(*req));
    push_knobs(req, &mut out);
    push_consent(req, &mut out);
    let ghost before = texts(out@);
    push_text(&mut out, owned("--json"));
    push_text(&mut out, owned("--stop-on-eof"));
    assert(texts(out@) =~= before + seq!["--json"@, "--stop-on-eof"@]);
    out
}

// ---------------------------------------------------------------------------
// the answer
// ---------------------------------------------------------------------------

/// A refusal read back from a child.
#[derive(Debug, Clone)]
pub struct Refused {
    pub code: String,
    pub message: String,
    pub recoverable: bool,
}

/// What came back.
#[derive(Debug)]
pub enum Outcome {
    /// It ran, and this is what it found.
    Ran(Box<Report>),
    /// It declined, as root.
    Refused(Refused),
    /// The prompt was dismissed, the password was wrong, or this user may not
    /// become root. Only the tool that asked knows which.
    NotAuthorised(String),
    /// Something else went wrong, described as well as it can be.
    Failed(String),
}

/// What came back, as text.
pub enum Heard {
    Ran(Report),
    Refused(Refused),
    NotAuthorised(Seq<char>),
    Failed(Seq<char>),
}

impl View for Outcome {
    type V = Heard;

    open spec fn view(&self) -> Heard {
        match *self {
            Outcome::Ran(x) => Heard::Ran(*x),
            Outcome::Refused(x) => Heard::Refused(x),
            Outcome::NotAuthorised(why) => Heard::NotAuthorised(why@),
            Outcome::Failed(why) => Heard::Failed(why@),
        }
    }
}

/// What is said where the child printed no answer. The tool that asks for root
/// exits 126 where it was not authorised and 127 where it could not start the
/// child.
pub open spec fn silence(said: Seq<char>, code: Option<i32>) -> Heard {
    if code == Some(126i32) {
        Heard::NotAuthorised(
            if said.len() == 0 {
                NOT_AUTHORISED@
            } else {
                said
            },
        )
    } else if code == Some(127i32) {
        Heard::Failed(filled(NOT_STARTED@, seq![said]))
    } else if said.len() > 0 {
        Heard::Failed(said)
    } else {
        match code {
            Some(c) => Heard::Failed(filled(SAID_NOTHING@, seq![dec_int(c as int)])),
            None => Heard::Failed(KILLED@),
        }
    }
}

/// The report or the refusal that a child printed, and only then what it
/// complained of and how it ended.
pub open spec fn heard(
    report: Option<Report>,
    refused: Option<Refused>,
    stderr: Seq<char>,
    code: Option<i32>,
) -> Heard {
    match (report, refused) {
        (Some(x), _) => Heard::Ran(x),
        (None, Some(x)) => Heard::Refused(x),
        (None, None) => silence(trimmed(stderr), code),
    }
}

/// Makes sense of what a child left behind.
pub fn interpret(
    report: Option<Report>,
    refused: Option<Refused>,
    stderr: &str,
    code: Option<i32>,
) -> (r: Outcome)
    ensures
        r@ == heard(report, refused, stderr@, code),
{
    if let Some(x) = report {
        return Outcome::Ran(Box::new(x));
    }
    if let Some(x) = refused {
        return Outcome::Refused(x);
    }
    let said = trim(stderr);
    let n = chars_of(said.as_str());
    let quiet = n.len() == 0;
    match code {
        Some(c) => {
            if c == 126 {
                Outcome::NotAuthorised(
                    if quiet {
                        owned(NOT_AUTHORISED)
                    } else {
                        said
                    },
                )
            } else if c == 127 {
                Outcome::Failed(fill1(NOT_STARTED, said.as_str()))
            } else if !quiet {
                Outcome::Failed(said)
            } else {
                let t = integer(c as i64);
                Outcome::Failed(fill1(SAID_NOTHING, t.as_str()))
            }
        },
        None => if !quiet {
            Outcome::Failed(said)
        } else {
            Outcome::Failed(owned(KILLED))
        },
    }
}

// ---------------------------------------------------------------------------
// laws
// ---------------------------------------------------------------------------

proof fn lemma_no_fault(disk: Disk, steps: Seq<Seq<char>>, i: int)
    requires
        first_fault(disk, steps) is None,
        0 <= i < steps.len(),
    ensures
        step_fault(disk, steps[i]) is None,
    decreases steps.len(),
{
    if i > 0 {
        lemma_no_fault(disk, steps.skip(1), i - 1);
    }
}

/// A program passes the walk only where root owns it and every directory above
/// it, and nobody else can write any of them.
pub proof fn every_step_of_a_vetted_path_is_roots(disk: Disk, path: Seq<char>, i: int)
    requires
        vetted(disk, path) is Ok,
        0 <= i < ancestors(vetted(disk, path)->Ok_0).len(),
    ensures
        disk.meta(ancestors(vetted(disk, path)->Ok_0)[i]) matches Ok(m) && m.uid == 0 && m.mode
            & 0o022u32 == 0,
{
    lemma_no_fault(disk, ancestors(vetted(disk, path)->Ok_0), i);
}

/// The walk goes all the way up: its last step is the root, for any absolute
/// path.
pub proof fn the_walk_reaches_the_root(path: Seq<char>)
    requires
        path.len() > 0,
        path[0] == '/',
    ensures
        ancestors(path).len() > 0,
        ancestors(path)[0] == path,
        ancestors(path).last() == "/"@,
    decreases path.len(),
{
    reveal_strlit("/");
    lemma_above_is_shorter(path);
    crate::text::lemma_after_last(path, '/');
    match above(path) {
        Some(dir) => {
            if dir.len() > 0 {
                assert(dir[0] == '/') by {
                    if let Some((d, _)) = cut_last(path, '/') {
                        if d.len() > 0 {
                            assert(d[0] == path[0]);
                        }
                    }
                }
                the_walk_reaches_the_root(dir);
            }
            assert((seq![path] + ancestors(dir)).last() == ancestors(dir).last());
        },
        None => {
            if path.len() > 1 {
                lemma_holds_slash(path);
            }
            assert(path =~= "/"@);
        },
    }
}

proof fn lemma_holds_slash(path: Seq<char>)
    requires
        path.len() > 1,
        path[0] == '/',
    ensures
        cut_last(path, '/') is Some,
    decreases path.len(),
{
    if path.last() != '/' && path.len() > 2 {
        assert(path.drop_last()[0] == '/');
        lemma_holds_slash(path.drop_last());
    } else if path.last() != '/' {
        assert(path.drop_last().last() == '/');
        assert(crate::text::after_last(path.drop_last(), '/') == 1);
    }
}

/// What is found was a candidate that can be run and passed the walk.
pub proof fn a_found_helper_was_vetted(disk: Disk, s: Seq<Seq<char>>)
    requires
        first_safe(disk, s) is Some,
    ensures
        exists|i: int|
            0 <= i < s.len() && disk.executable(#[trigger] s[i]) && vetted(disk, s[i]) == Ok::<
                Seq<char>,
                Obstacle,
            >(first_safe(disk, s)->0),
    decreases s.len(),
{
    if disk.executable(s[0]) && vetted(disk, s[0]) is Ok {
        assert(disk.executable(s[0]));
    } else {
        a_found_helper_was_vetted(disk, s.skip(1));
        let j = choose|j: int|
            0 <= j < s.skip(1).len() && disk.executable(#[trigger] s.skip(1)[j]) && vetted(
                disk,
                s.skip(1)[j],
            ) == Ok::<Seq<char>, Obstacle>(first_safe(disk, s)->0);
        assert(s[j + 1] == s.skip(1)[j]);
    }
}

/// An answer is an answer whatever the exit code, and whatever was complained
/// of: a child that found something exits non-zero.
pub proof fn the_exit_code_never_hides_an_answer(
    report: Option<Report>,
    refused: Option<Refused>,
    stderr: Seq<char>,
    code: Option<i32>,
)
    requires
        report is Some || refused is Some,
    ensures
        heard(report, refused, stderr, code) == (match report {
            Some(x) => Heard::Ran(x),
            None => Heard::Refused(refused->0),
        }),
{
}

/// Without an answer, a prompt that was dismissed is told apart from a run that
/// broke.
pub proof fn a_dismissed_prompt_is_no_broken_run(stderr: Seq<char>, code: Option<i32>)
    ensures
        heard(None, None, stderr, code) is NotAuthorised <==> code == Some(126i32),
        heard(None, None, stderr, code) is Failed <==> code != Some(126i32),
{
}

proof fn lemma_starts_with_digit(n: nat)
    ensures
        dec(n).len() > 0,
        dec(n)[0] != '-',
    decreases n,
{
    if n >= 10 {
        lemma_starts_with_digit(n / 10);
    }
}

proof fn lemma_holds(a: Seq<Seq<char>>, b: Seq<Seq<char>>, x: Seq<char>)
    ensures
        (a + b).contains(x) <==> a.contains(x) || b.contains(x),
{
    if a.contains(x) {
        let i = choose|i: int| 0 <= i < a.len() && a[i] == x;
        assert((a + b)[i] == x);
    }
    if b.contains(x) {
        let i = choose|i: int| 0 <= i < b.len() && b[i] == x;
        assert((a + b)[a.len() + i] == x);
    }
}

proof fn lemma_flag(req: Request, flag: Seq<char>)
    requires
        flag == "--yes"@ || flag == "--force"@,
        req.name@ != flag,
        req.target matches Some(t) ==> t@ != flag,
    ensures
        arguments(req).contains(flag) <==> consent_part(req).contains(flag),
{
    reveal_strlit("--yes");
    reveal_strlit("--force");
    reveal_strlit("probe");
    reveal_strlit("--target");
    reveal_strlit("--duration");
    reveal_strlit("--cycles");
    reveal_strlit("--json");
    reveal_strlit("--stop-on-eof");
    lemma_starts_with_digit(req.window_ms as nat);
    lemma_starts_with_digit(req.cycles as nat);
    assert(flag[0] == '-');
    let a = seq!["probe"@, req.name@];
    let b = target_part(req);
    let c = knob_part(req);
    let d = consent_part(req);
    let e = seq!["--json"@, "--stop-on-eof"@];
    assert("probe"@[0] == 'p');
    assert(flag.len() == 5 || flag.len() == 7);
    assert("--target"@.len() == 8);
    assert("--duration"@.len() == 10);
    assert("--cycles"@.len() == 8);
    assert("--json"@.len() == 6);
    assert("--stop-on-eof"@.len() == 13);
    assert(!a.contains(flag));
    assert(!b.contains(flag));
    assert forall|i: int| 0 <= i < c.len() implies c[i] != flag by {
        let by_number = dec(req.window_ms as nat);
        assert(c[i] == "--duration"@ || c[i] == by_number || c[i] == "--cycles"@ || c[i] == dec(
            req.cycles as nat,
        ));
    }
    assert(!e.contains(flag));
    lemma_holds(a, b, flag);
    lemma_holds(a + b, c, flag);
    lemma_holds(a + b + c, d, flag);
    lemma_holds(a + b + c + d, e, flag);
}

/// Consent reaches the child exactly where it was given: a front end that has
/// not been given it cannot pass it on.
pub proof fn consent_reaches_the_child_only_where_given(req: Request)
    requires
        req.name@ != "--yes"@ && req.name@ != "--force"@,
        req.target matches Some(t) ==> t@ != "--yes"@ && t@ != "--force"@,
    ensures
        arguments(req).contains("--yes"@) <==> req.consented,
        arguments(req).contains("--force"@) <==> req.accepts_disruption,
{
    reveal_strlit("--yes");
    reveal_strlit("--force");
    lemma_flag(req, "--yes"@);
    lemma_flag(req, "--force"@);
    let d = consent_part(req);
    if req.consented {
        assert(d[0] == "--yes"@);
    }
    if req.accepts_disruption {
        assert(d[d.len() - 1] == "--force"@);
    }
    assert("--yes"@.len() != "--force"@.len());
}

} // verus!
