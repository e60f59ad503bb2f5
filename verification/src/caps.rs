//! What this process is allowed to do.
//!
//! Some questions cannot be answered by reading: a marginal cable usually
//! negotiates full speed and fails only under load. Answering those needs
//! privileged interfaces, and some of them change the state of the bus. This
//! module says what is reachable before anything is attempted.
//!
//! Detection goes by attempt, not by arithmetic: being root is neither necessary
//! nor sufficient for any particular access. The ways to be unavailable are kept
//! apart because the remedies differ: load a module, gain a privilege, rebuild a
//! kernel, or nothing at all.

use vstd::prelude::*;
use crate::number::{parse_number, parsed};
use crate::root::{name_of, file_name, Mode, Opened, Outcome, Root};
use crate::seqs::{first_of, gathered, kept, lemma_take_all, lemma_take_more};
use crate::snapshot::lemma_first_stays;
use crate::text::{
    after_prefix, begins_with, cat, chars_of, contains, digit, fill1, fill2, fill3, filled,
    holds_text, is_digit, lines, lines_of, no_texts, opt_text, owned, push_text, same,
    split_whitespace, starts_with, strip_prefix, texts, words,
};

verus! {

// ---------------------------------------------------------------------------
// availability
// ---------------------------------------------------------------------------

/// Whether an interface can be used, and if not, why not.
#[derive(Debug, Clone, PartialEq, Eq)]
pub enum Availability {
    /// Present, and this process can use it.
    Usable,
    /// Present, but this process may not use it. Fix: privilege.
    Denied(String),
    /// The kernel supports it but the module is not loaded. Fix: `modprobe`.
    NotLoaded(String),
    /// This kernel was not built with it. Fix: a different kernel.
    Unsupported(String),
    /// Cannot be determined. Fix: unknown, which is the point.
    Unknown(String),
}

/// An availability, as text.
pub enum Access {
    Usable,
    Denied(Seq<char>),
    NotLoaded(Seq<char>),
    Unsupported(Seq<char>),
    Unknown(Seq<char>),
}

impl View for Availability {
    type V = Access;

    open spec fn view(&self) -> Access {
        match *self {
            Availability::Usable => Access::Usable,
            Availability::Denied(w) => Access::Denied(w@),
            Availability::NotLoaded(w) => Access::NotLoaded(w@),
            Availability::Unsupported(w) => Access::Unsupported(w@),
            Availability::Unknown(w) => Access::Unknown(w@),
        }
    }
}

impl Access {
    pub open spec fn words(self) -> Seq<char> {
        match self {
            Access::Usable => "available"@,
            Access::Denied(w) | Access::NotLoaded(w) | Access::Unsupported(w) | Access::Unknown(
                w,
            ) => w,
        }
    }
}

impl Availability {
    pub fn is_usable(&self) -> (r: bool)
        ensures
            r == (self@ is Usable),
    {
        match self {
            Availability::Usable => true,
            _ => false,
        }
    }

    /// One short phrase, for a status line or a finding's evidence.
    pub fn explain(&self) -> (r: &str)
        ensures
            r@ == self@.words(),
    {
        match self {
            Availability::Usable => "available",
            Availability::Denied(w) => w.as_str(),
            Availability::NotLoaded(w) => w.as_str(),
            Availability::Unsupported(w) => w.as_str(),
            Availability::Unknown(w) => w.as_str(),
        }
    }
}

/// A privileged kernel interface, and where it was looked for.
#[derive(Debug, Clone)]
pub struct Interface {
    pub availability: Availability,
    /// The path that was tested, when one was found at all.
    pub path: Option<String>,
}

/// An interface, as text.
pub struct Reach {
    pub access: Access,
    pub path: Option<Seq<char>>,
}

impl View for Interface {
    type V = Reach;

    open spec fn view(&self) -> Reach {
        Reach { access: self.availability@, path: opt_text(self.path) }
    }
}

impl Interface {
    pub fn new(availability: Availability, path: Option<String>) -> (r: Self)
        ensures
            r == (Interface { availability, path }),
    {
        Interface { availability, path }
    }

    pub fn is_usable(&self) -> (r: bool)
        ensures
            r == (self@.access is Usable),
    {
        self.availability.is_usable()
    }
}

/// What this process may do.
#[derive(Debug, Clone)]
pub struct Capabilities {
    /// Effective user, for context only: no decision is made from it.
    pub effective_uid: Option<u32>,
    /// The kernel's URB tracer: every transfer with its completion status.
    pub usbmon: Interface,
    /// usbfs device nodes, the only way to issue transfers from userspace.
    pub usbfs: Interface,
    /// Raw block device nodes, opened with direct I/O.
    pub block_read: Interface,
    /// A hub port's `disable` attribute.
    pub port_control: Interface,
}

pub const NOT_PROBED: &'static str = "not probed";

pub open spec fn not_probed() -> Reach {
    Reach { access: Access::Unknown(NOT_PROBED@), path: None }
}

pub fn unprobed() -> (r: Interface)
    ensures
        r@ == not_probed(),
{
    Interface::new(Availability::Unknown(owned(NOT_PROBED)), None)
}

impl Default for Capabilities {
    fn default() -> (r: Self)
        ensures
            r.effective_uid is None,
            r.usbmon@ == not_probed(),
            r.usbfs@ == not_probed(),
            r.block_read@ == not_probed(),
            r.port_control@ == not_probed(),
    {
        Capabilities {
            effective_uid: None,
            usbmon: unprobed(),
            usbfs: unprobed(),
            block_read: unprobed(),
            port_control: unprobed(),
        }
    }
}

// ---------------------------------------------------------------------------
// the probes
// ---------------------------------------------------------------------------

/// What a probe does to the system.
#[derive(Debug, Clone, Copy, PartialEq, Eq, Structural)]
pub enum ProbeClass {
    /// Reads only, needs no privilege. Runs by default.
    Passive,
    /// Needs privilege, but changes nothing on the bus.
    PrivilegedRead,
    /// Takes a device away from its driver or off the bus. Never runs without
    /// explicit consent.
    Disruptive,
}

impl ProbeClass {
    pub open spec fn name(self) -> Seq<char> {
        match self {
            ProbeClass::Passive => "passive"@,
            ProbeClass::PrivilegedRead => "privileged, read-only"@,
            ProbeClass::Disruptive => "disruptive"@,
        }
    }

    pub fn label(&self) -> (r: &'static str)
        ensures
            r@ == self.name(),
    {
        match self {
            ProbeClass::Passive => "passive",
            ProbeClass::PrivilegedRead => "privileged, read-only",
            ProbeClass::Disruptive => "disruptive",
        }
    }

    /// May this run without the user asking for it by name?
    pub fn runs_by_default(&self) -> (r: bool)
        ensures
            r == (*self == ProbeClass::Passive),
    {
        match self {
            ProbeClass::Passive => true,
            _ => false,
        }
    }
}

#[derive(Debug, Clone, Copy, PartialEq, Eq, Structural)]
pub enum Requirement {
    Nothing,
    Usbmon,
    Usbfs,
    BlockRead,
    PortControl,
}

impl Requirement {
    pub open spec fn name(self) -> Seq<char> {
        match self {
            Requirement::Nothing => "nothing"@,
            Requirement::Usbmon => "usbmon"@,
            Requirement::Usbfs => "usbfs write access"@,
            Requirement::BlockRead => "read access to raw disks"@,
            Requirement::PortControl => "write access to hub port controls"@,
        }
    }

    pub fn label(&self) -> (r: &'static str)
        ensures
            r@ == self.name(),
    {
        match self {
            Requirement::Nothing => "nothing",
            Requirement::Usbmon => "usbmon",
            Requirement::Usbfs => "usbfs write access",
            Requirement::BlockRead => "read access to raw disks",
            Requirement::PortControl => "write access to hub port controls",
        }
    }
}

#[derive(Debug, Clone, Copy)]
pub struct ProbeInfo {
    pub name: &'static str,
    pub class: ProbeClass,
    pub needs: Requirement,
    /// Whether the code behind it exists yet.
    pub implemented: bool,
    pub summary: &'static str,
}

/// The probes there are.
#[derive(Debug, Clone, Copy, PartialEq, Eq, Structural)]
pub enum Probe {
    Snapshot,
    StorageSample,
    UrbErrors,
    Throughput,
    Reenumerate,
}

/// Every probe, implemented or not, so that a gap is visible.
pub const PROBES: [Probe; 5] = [
    Probe::Snapshot,
    Probe::StorageSample,
    Probe::UrbErrors,
    Probe::Throughput,
    Probe::Reenumerate,
];

pub const SNAPSHOT_SUMMARY: &'static str =
    "Read sysfs, the kernel log and DRM. Everything the default run does.";

pub const SAMPLE_SUMMARY: &'static str =
    "Two reads of /sys/block/*/stat over a window, for live throughput.";

pub const URB_SUMMARY: &'static str =
    "Count URB completion errors per device over a window. Observes behaviour rather than \
        negotiated state, so it is the one probe that can move a cable finding from inferred \
        to measured.";

pub const THROUGHPUT_SUMMARY: &'static str =
    "Read a USB disk flat out with direct I/O and compare what it achieves against what the \
        link and the medium allow. Reads only: nothing is written, no driver is detached, and \
        the device stays on the bus.";

pub const REENUMERATE_SUMMARY: &'static str =
    "Cycle the hub port repeatedly and record the distribution of negotiated speeds. The \
        only way to catch a link that works most of the time. Takes the device off the bus and \
        back on again, once per cycle.";

impl Probe {
    pub open spec fn described(self) -> ProbeInfo {
        match self {
            Probe::Snapshot => ProbeInfo {
                name: "snapshot",
                class: ProbeClass::Passive,
                needs: Requirement::Nothing,
                implemented: true,
                summary: SNAPSHOT_SUMMARY,
            },
            Probe::StorageSample => ProbeInfo {
                name: "storage-sample",
                class: ProbeClass::Passive,
                needs: Requirement::Nothing,
                implemented: true,
                summary: SAMPLE_SUMMARY,
            },
            Probe::UrbErrors => ProbeInfo {
                name: "urb-errors",
                class: ProbeClass::PrivilegedRead,
                needs: Requirement::Usbmon,
                implemented: true,
                summary: URB_SUMMARY,
            },
            Probe::Throughput => ProbeInfo {
                name: "throughput",
                class: ProbeClass::PrivilegedRead,
                needs: Requirement::BlockRead,
                implemented: true,
                summary: THROUGHPUT_SUMMARY,
            },
            Probe::Reenumerate => ProbeInfo {
                name: "reenumerate",
                class: ProbeClass::Disruptive,
                needs: Requirement::PortControl,
                implemented: true,
                summary: REENUMERATE_SUMMARY,
            },
        }
    }

    pub fn info(&self) -> (r: ProbeInfo)
        ensures
            r == self.described(),
    {
        match self {
            Probe::Snapshot => ProbeInfo {
                name: "snapshot",
                class: ProbeClass::Passive,
                needs: Requirement::Nothing,
                implemented: true,
                summary: SNAPSHOT_SUMMARY,
            },
            Probe::StorageSample => ProbeInfo {
                name: "storage-sample",
                class: ProbeClass::Passive,
                needs: Requirement::Nothing,
                implemented: true,
                summary: SAMPLE_SUMMARY,
            },
            Probe::UrbErrors => ProbeInfo {
                name: "urb-errors",
                class: ProbeClass::PrivilegedRead,
                needs: Requirement::Usbmon,
                implemented: true,
                summary: URB_SUMMARY,
            },
            Probe::Throughput => ProbeInfo {
                name: "throughput",
                class: ProbeClass::PrivilegedRead,
                needs: Requirement::BlockRead,
                implemented: true,
                summary: THROUGHPUT_SUMMARY,
            },
            Probe::Reenumerate => ProbeInfo {
                name: "reenumerate",
                class: ProbeClass::Disruptive,
                needs: Requirement::PortControl,
                implemented: true,
                summary: REENUMERATE_SUMMARY,
            },
        }
    }
}

pub open spec fn infos() -> Seq<ProbeInfo> {
    Seq::new(PROBES@.len(), |i: int| PROBES@[i].described())
}

pub open spec fn called(name: Seq<char>) -> spec_fn(ProbeInfo) -> bool {
    |p: ProbeInfo| p.name@ == name
}

/// A probe by its name.
pub fn probe(name: &str) -> (r: Option<ProbeInfo>)
    ensures
        r == first_of(infos(), called(name@)),
{
    let ghost p = called(name@);
    let mut i: usize = 0;
    while i < 5
        invariant
            i <= 5,
            p == called(name@),
            infos().len() == 5,
            first_of(infos().take(i as int), p) is None,
        decreases 5 - i,
    {
        proof {
            lemma_take_more(infos(), i as int);
        }
        let info = PROBES[i].info();
        assert(infos()[i as int] == info);
        if same(info.name, name) {
            proof {
                lemma_first_stays(infos(), i + 1, p);
            }
            return Some(info);
        }
        i += 1;
    }
    proof {
        lemma_take_all(infos());
    }
    None
}

pub const BLOCKER: &'static str = "{} needs {}: {}";

impl Capabilities {
    pub fn is_root(&self) -> (r: bool)
        ensures
            r == (self.effective_uid == Some(0u32)),
    {
        match self.effective_uid {
            Some(u) => u == 0,
            None => false,
        }
    }

    /// The interface a probe needs.
    pub open spec fn needed(self, needs: Requirement) -> Option<Reach> {
        match needs {
            Requirement::Nothing => None,
            Requirement::Usbmon => Some(self.usbmon@),
            Requirement::Usbfs => Some(self.usbfs@),
            Requirement::BlockRead => Some(self.block_read@),
            Requirement::PortControl => Some(self.port_control@),
        }
    }

    /// Why a probe cannot run now, or none if it can.
    pub open spec fn blocked(self, probe: ProbeInfo) -> Option<Seq<char>> {
        match self.needed(probe.needs) {
            Some(i) => if i.access is Usable {
                None
            } else {
                Some(filled(BLOCKER@, seq![probe.name@, probe.needs.name(), i.access.words()]))
            },
            None => None,
        }
    }

    pub fn blocker(&self, probe: &ProbeInfo) -> (r: Option<String>)
        ensures
            opt_text(r) == self.blocked(*probe),
    {
        let iface = match probe.needs {
            Requirement::Nothing => {
                return None;
            },
            Requirement::Usbmon => &self.usbmon,
            Requirement::Usbfs => &self.usbfs,
            Requirement::BlockRead => &self.block_read,
            Requirement::PortControl => &self.port_control,
        };
        if iface.is_usable() {
            return None;
        }
        Some(fill3(BLOCKER, probe.name, probe.needs.label(), iface.availability.explain()))
    }

    pub open spec fn allows(self) -> spec_fn(ProbeInfo) -> bool {
        |p: ProbeInfo| self.blocked(p) is None
    }

    /// Everything this machine's interfaces allow, so a front end can offer
    /// exactly that. Consent and targeting are decided later.
    pub fn runnable(&self) -> (r: Vec<ProbeInfo>)
        ensures
            r@ == kept(infos(), self.allows()),
    {
        let ghost p = self.allows();
        let mut out: Vec<ProbeInfo> = Vec::new();
        let mut i: usize = 0;
        while i < 5
            invariant
                i <= 5,
                p == self.allows(),
                infos().len() == 5,
                out@ == kept(infos().take(i as int), p),
            decreases 5 - i,
        {
            proof {
                lemma_take_more(infos(), i as int);
            }
            let info = PROBES[i].info();
            assert(infos()[i as int] == info);
            if self.blocker(&info).is_none() {
                out.push(info);
            }
            i += 1;
        }
        proof {
            lemma_take_all(infos());
        }
        out
    }
}

// ---------------------------------------------------------------------------
// detection
// ---------------------------------------------------------------------------

/// What follows a prefix on the first line that has it.
pub open spec fn line_after(ls: Seq<Seq<char>>, prefix: Seq<char>) -> Option<Seq<char>>
    decreases ls.len(),
{
    if ls.len() == 0 {
        None
    } else {
        match after_prefix(ls[0], prefix) {
            Some(rest) => Some(rest),
            None => line_after(ls.skip(1), prefix),
        }
    }
}

fn find_line_after(ls: &Vec<String>, prefix: &str) -> (r: Option<String>)
    ensures
        opt_text(r) == line_after(texts(ls@), prefix@),
{
    let ghost all = texts(ls@);
    let mut i: usize = 0;
    assert(all.skip(0) =~= all);
    while i < ls.len()
        invariant
            i <= ls.len(),
            all == texts(ls@),
            line_after(all, prefix@) == line_after(all.skip(i as int), prefix@),
        decreases ls.len() - i,
    {
        assert(all.skip(i as int)[0] == ls@[i as int]@);
        assert(all.skip(i as int).skip(1) =~= all.skip(i + 1));
        if let Some(rest) = strip_prefix(ls[i].as_str(), prefix) {
            return Some(rest);
        }
        i += 1;
    }
    None
}

/// The second number of a `Uid:` line: real, effective, saved, filesystem.
pub open spec fn effective_uid(status: Seq<char>) -> Option<nat> {
    match line_after(lines_of(status), "Uid:"@) {
        Some(rest) => if words(rest).len() > 1 {
            parsed(words(rest)[1], u32::MAX as nat)
        } else {
            None
        },
        None => None,
    }
}

pub open spec fn uid_in(root: Root) -> Option<nat> {
    match root.says("proc/self/status"@) {
        Some(s) => effective_uid(s),
        None => None,
    }
}

pub open spec fn as_nat(o: Option<u32>) -> Option<nat> {
    match o {
        Some(n) => Some(n as nat),
        None => None,
    }
}

/// The effective user, from `proc/self/status`.
pub fn read_effective_uid(root: &Root) -> (r: Option<u32>)
    ensures
        as_nat(r) == uid_in(*root),
{
    let status = match root.read_str("proc/self/status") {
        Some(s) => s,
        None => {
            return None;
        },
    };
    let ls = lines(status.as_str());
    let rest = match find_line_after(&ls, "Uid:") {
        Some(s) => s,
        None => {
            return None;
        },
    };
    let ws = split_whitespace(rest.as_str());
    assert(texts(ws@).len() == ws@.len());
    if ws.len() <= 1 {
        return None;
    }
    assert(texts(ws@)[1] == ws@[1]@);
    match parse_number(ws[1].as_str(), u32::MAX as u64) {
        Some(n) => Some(n as u32),
        None => None,
    }
}

/// The first word of some line is `name`.
pub open spec fn lists_module(modules: Seq<char>, name: Seq<char>) -> bool {
    exists|i: int|
        0 <= i < lines_of(modules).len() && first_word_is(#[trigger] lines_of(modules)[i], name)
}

pub open spec fn first_word_is(line: Seq<char>, name: Seq<char>) -> bool {
    words(line).len() > 0 && words(line)[0] == name
}

/// Whether `proc/modules` lists a module.
pub fn module_loaded(root: &Root, name: &str) -> (r: bool)
    ensures
        r == (root.says("proc/modules"@) matches Some(m) && lists_module(m, name@)),
{
    let modules = match root.read_str("proc/modules") {
        Some(m) => m,
        None => {
            return false;
        },
    };
    let ls = lines(modules.as_str());
    let ghost all = lines_of(modules@);
    let mut i: usize = 0;
    while i < ls.len()
        invariant
            i <= ls.len(),
            all == texts(ls@),
            all == lines_of(modules@),
            root.says("proc/modules"@) == Some(modules@),
            forall|j: int| 0 <= j < i ==> !first_word_is(#[trigger] all[j], name@),
        decreases ls.len() - i,
    {
        assert(all[i as int] == ls@[i as int]@);
        let ws = split_whitespace(ls[i].as_str());
        assert(texts(ws@).len() == ws@.len());
        if ws.len() > 0 {
            assert(texts(ws@)[0] == ws@[0]@);
            if same(ws[0].as_str(), name) {
                assert(first_word_is(lines_of(modules@)[i as int], name@));
                return true;
            }
        }
        i += 1;
    }
    assert forall|i: int| 0 <= i < lines_of(modules@).len() implies !first_word_is(
        #[trigger] lines_of(modules@)[i],
        name@,
    ) by {
        assert(all[i] == lines_of(modules@)[i]);
    }
    false
}

/// The first character of a kernel option's value: `y` or `m`.
pub open spec fn option_value(config: Seq<char>, key: Seq<char>) -> Option<char> {
    match line_after(lines_of(config), key + "="@) {
        Some(v) => if v.len() > 0 {
            Some(v[0])
        } else {
            None
        },
        None => None,
    }
}

pub open spec fn config_value(root: Root, key: Seq<char>) -> Option<char> {
    match root.says("proc/sys/kernel/osrelease"@) {
        Some(release) => match root.says("boot/config-"@ + release) {
            Some(config) => option_value(config, key),
            None => None,
        },
        None => None,
    }
}

/// A kernel option's value, where `boot/config-<release>` can be read.
pub fn kernel_config_value(root: &Root, key: &str) -> (r: Option<char>)
    ensures
        r == config_value(*root, key@),
{
    let release = match root.read_str("proc/sys/kernel/osrelease") {
        Some(s) => s,
        None => {
            return None;
        },
    };
    let path = cat("boot/config-", release.as_str());
    let config = match root.read_str(path.as_str()) {
        Some(s) => s,
        None => {
            return None;
        },
    };
    let ls = lines(config.as_str());
    let prefix = cat(key, "=");
    match find_line_after(&ls, prefix.as_str()) {
        Some(v) => {
            let cs = chars_of(v.as_str());
            if cs.len() > 0 {
                Some(cs[0])
            } else {
                None
            }
        },
        None => None,
    }
}

pub open spec fn named_like(word: Seq<char>) -> spec_fn(Seq<char>) -> bool {
    |p: Seq<char>| begins_with(name_of(p), word)
}

/// `dev/usbmon<N>`: the binary stream. It is never read here, but that it is
/// there proves that the module is loaded.
pub fn binary_nodes(root: &Root) -> (r: Vec<String>)
    ensures
        texts(r@) == kept(root.listing("dev"@), named_like("usbmon"@)),
{
    let all = root.list_dir("dev");
    let ghost seen = texts(all@);
    let mut out = no_texts();
    let mut i: usize = 0;
    while i < all.len()
        invariant
            i <= all.len(),
            seen == texts(all@),
            texts(out@) == kept(seen.take(i as int), named_like("usbmon"@)),
        decreases all.len() - i,
    {
        proof {
            lemma_take_more(seen, i as int);
        }
        let n = file_name(all[i].as_str());
        if starts_with(n.as_str(), "usbmon") {
            push_text(&mut out, all[i].clone());
        }
        i += 1;
    }
    proof {
        lemma_take_all(seen);
    }
    out
}

/// The all-buses text stream.
pub const TEXT_API: &'static str = "sys/kernel/debug/usb/usbmon/0u";

pub const USBMON_DENIED: &'static str =
    "usbmon is loaded, but {} cannot be opened by this process — debugfs is mode 0700, so \
        reading the URB stream needs root";

pub const USBMON_NO_STREAM: &'static str =
    "the usbmon module is loaded but its text stream was not found — debugfs may not be \
        mounted at /sys/kernel/debug";

pub const USBMON_NOT_LOADED: &'static str =
    "the kernel supports usbmon but the module is not loaded — 'sudo modprobe usbmon' loads \
        it{}";

pub const STILL_NEEDS_ROOT: &'static str = ", though reading its stream will still need root";

pub const USBMON_BUILTIN_DENIED: &'static str =
    "usbmon is built into this kernel, but /sys/kernel/debug is not readable by this \
        process — reading the URB stream needs root";

pub const USBMON_BUILTIN_NO_STREAM: &'static str =
    "usbmon is built into this kernel but no text stream was found — debugfs may not be \
        mounted";

pub const USBMON_ODD_CONFIG: &'static str =
    "the kernel configuration reports usbmon in a form this tool does not recognise";

pub const USBMON_UNDETERMINED: &'static str =
    "/sys/kernel/debug is not readable and the kernel configuration could not be checked, \
        so usbmon support is undetermined without privilege";

pub const USBMON_UNSUPPORTED: &'static str =
    "this kernel was not built with CONFIG_USB_MON, so URB tracing is unavailable at any \
        privilege level";

pub const NO_USBFS: &'static str =
    "no usbfs device nodes under /dev/bus/usb — usbfs is not mounted, so userspace cannot \
        issue transfers";

pub const USBFS_DENIED: &'static str =
    "{} is not writable by this process — usbfs nodes are root-only on a stock system, and \
        group membership does not change that";

pub const OPEN_FAILED: &'static str = "{}: {}";

pub const NO_DIRECT_IO: &'static str =
    "O_DIRECT's value is not known for this architecture, and reading without it would \
        measure the page cache rather than the link";

pub const NO_DISKS: &'static str =
    "no raw disk nodes under /dev — there is nothing whose throughput could be measured";

pub const DISK_DENIED: &'static str =
    "{} is not readable by this process — raw disks are root:disk mode 0660, so this needs \
        root or membership of the disk group";

pub const NO_PORT_CONTROL: &'static str =
    "no hub port exposes a 'disable' attribute — this kernel cannot switch a port off from \
        userspace, so link stability cannot be tested";

pub const PORT_DENIED: &'static str =
    "{} is not writable by this process — hub port controls are root-only";

/// A path from the root, as it is shown.
pub open spec fn shown(path: Seq<char>) -> Seq<char> {
    "/"@ + path
}

fn show(path: &str) -> (r: String)
    ensures
        r@ == shown(path@),
{
    cat("/", path)
}

/// The module is there: it is listed, or one of its nodes is.
pub open spec fn usbmon_loaded(root: Root) -> bool {
    (root.says("proc/modules"@) matches Some(m) && lists_module(m, "usbmon"@)) || kept(
        root.listing("dev"@),
        named_like("usbmon"@),
    ).len() > 0
}

/// What is said where the module is not loaded, which depends on how the kernel
/// was built.
pub open spec fn usbmon_absent(configured: Option<char>, blocked: bool) -> Access {
    match configured {
        Some(c) => if c == 'm' {
            Access::NotLoaded(
                filled(
                    USBMON_NOT_LOADED@,
                    seq![
                        if blocked {
                            STILL_NEEDS_ROOT@
                        } else {
                            ""@
                        },
                    ],
                ),
            )
        } else if c == 'y' && blocked {
            Access::Denied(USBMON_BUILTIN_DENIED@)
        } else if c == 'y' {
            Access::Unknown(USBMON_BUILTIN_NO_STREAM@)
        } else {
            Access::Unknown(USBMON_ODD_CONFIG@)
        },
        None => if blocked {
            Access::Unknown(USBMON_UNDETERMINED@)
        } else {
            Access::Unsupported(USBMON_UNSUPPORTED@)
        },
    }
}

/// Whether URBs can be traced. Only the text stream counts as usable. A refusal
/// proves nothing about the stream: debugfs is closed to ordinary users, so the
/// directory refuses whether or not the file is there.
pub open spec fn usbmon_reach(root: Root) -> Reach {
    let came = root.came_to(TEXT_API@, Mode::Read);
    let blocked = came is Denied;
    if came is Yes {
        Reach { access: Access::Usable, path: Some(shown(TEXT_API@)) }
    } else if usbmon_loaded(root) && blocked {
        Reach {
            access: Access::Denied(filled(USBMON_DENIED@, seq![shown(TEXT_API@)])),
            path: Some(shown(TEXT_API@)),
        }
    } else if usbmon_loaded(root) {
        Reach { access: Access::Unknown(USBMON_NO_STREAM@), path: None }
    } else {
        Reach {
            access: usbmon_absent(config_value(root, "CONFIG_USB_MON"@), blocked),
            path: None,
        }
    }
}

fn explain_absent(configured: Option<char>, blocked: bool) -> (r: Availability)
    ensures
        r@ == usbmon_absent(configured, blocked),
{
    match configured {
        Some(c) => if c == 'm' {
            let rest: &str = if blocked {
                STILL_NEEDS_ROOT
            } else {
                ""
            };
            Availability::NotLoaded(fill1(USBMON_NOT_LOADED, rest))
        } else if c == 'y' && blocked {
            Availability::Denied(owned(USBMON_BUILTIN_DENIED))
        } else if c == 'y' {
            Availability::Unknown(owned(USBMON_BUILTIN_NO_STREAM))
        } else {
            Availability::Unknown(owned(USBMON_ODD_CONFIG))
        },
        None => if blocked {
            Availability::Unknown(owned(USBMON_UNDETERMINED))
        } else {
            Availability::Unsupported(owned(USBMON_UNSUPPORTED))
        },
    }
}

pub fn detect_usbmon(root: &Root) -> (r: Interface)
    ensures
        r@ == usbmon_reach(*root),
{
    let text = show(TEXT_API);
    let blocked = match root.open(TEXT_API, Mode::Read) {
        Opened::Yes => {
            return Interface::new(Availability::Usable, Some(text));
        },
        Opened::Denied => true,
        Opened::Failed(_) => false,
    };
    let nodes = binary_nodes(root);
    assert(texts(nodes@).len() == nodes@.len());
    let loaded = module_loaded(root, "usbmon") || nodes.len() > 0;
    if loaded {
        if blocked {
            let why = fill1(USBMON_DENIED, text.as_str());
            return Interface::new(Availability::Denied(why), Some(text));
        }
        return Interface::new(Availability::Unknown(owned(USBMON_NO_STREAM)), None);
    }
    let configured = kernel_config_value(root, "CONFIG_USB_MON");
    Interface::new(explain_absent(configured, blocked), None)
}

/// What an attempt on a node says about the interface behind it.
pub open spec fn tried_node(node: Seq<char>, came: Outcome, denied: Seq<char>) -> Reach {
    match came {
        Outcome::Yes => Reach { access: Access::Usable, path: Some(shown(node)) },
        Outcome::Denied => Reach {
            access: Access::Denied(filled(denied, seq![shown(node)])),
            path: Some(shown(node)),
        },
        Outcome::Failed(e) => Reach {
            access: Access::Denied(filled(OPEN_FAILED@, seq![shown(node), e])),
            path: Some(shown(node)),
        },
    }
}

fn try_node(root: &Root, node: &str, mode: Mode, denied: &str) -> (r: Interface)
    ensures
        r@ == tried_node(node@, root.came_to(node@, mode), denied@),
{
    let path = show(node);
    match root.open(node, mode) {
        Opened::Yes => Interface::new(Availability::Usable, Some(path)),
        Opened::Denied => {
            let why = fill1(denied, path.as_str());
            Interface::new(Availability::Denied(why), Some(path))
        },
        Opened::Failed(e) => {
            let why = fill2(OPEN_FAILED, path.as_str(), e.as_str());
            Interface::new(Availability::Denied(why), Some(path))
        },
    }
}

pub open spec fn has_first_device(root: Root) -> spec_fn(Seq<char>) -> bool {
    |b: Seq<char>| root.has(b + "/001"@)
}

/// The first root hub node: `dev/bus/usb/<bus>/001`.
pub open spec fn usbfs_node(root: Root) -> Option<Seq<char>> {
    match first_of(root.listing("dev/bus/usb"@), has_first_device(root)) {
        Some(b) => Some(b + "/001"@),
        None => None,
    }
}

pub fn usbfs_probe_node(root: &Root) -> (r: Option<String>)
    ensures
        opt_text(r) == usbfs_node(*root),
{
    let buses = root.list_dir("dev/bus/usb");
    let ghost all = texts(buses@);
    let ghost p = has_first_device(*root);
    let mut i: usize = 0;
    while i < buses.len()
        invariant
            i <= buses.len(),
            all == texts(buses@),
            all == root.listing("dev/bus/usb"@),
            p == has_first_device(*root),
            first_of(all.take(i as int), p) is None,
        decreases buses.len() - i,
    {
        proof {
            lemma_take_more(all, i as int);
        }
        let node = cat(buses[i].as_str(), "/001");
        if root.is_there(node.as_str()) {
            proof {
                lemma_first_stays(all, i + 1, p);
            }
            return Some(node);
        }
        i += 1;
    }
    proof {
        lemma_take_all(all);
    }
    None
}

pub open spec fn usbfs_reach(root: Root) -> Reach {
    match usbfs_node(root) {
        Some(n) => tried_node(n, root.came_to(n, Mode::Write), USBFS_DENIED@),
        None => Reach { access: Access::Unsupported(NO_USBFS@), path: None },
    }
}

/// Whether a usbfs node can be opened for writing. A root hub is the safest
/// thing to touch.
pub fn detect_usbfs(root: &Root) -> (r: Interface)
    ensures
        r@ == usbfs_reach(*root),
{
    match usbfs_probe_node(root) {
        Some(n) => try_node(root, n.as_str(), Mode::Write, USBFS_DENIED),
        None => Interface::new(Availability::Unsupported(owned(NO_USBFS)), None),
    }
}

/// A whole disk: `sda`, not `sda1`.
pub open spec fn disk_name(n: Seq<char>) -> bool {
    begins_with(n, "sd"@) && n.len() > 2 && !is_digit(n.last())
}

pub open spec fn is_disk() -> spec_fn(Seq<char>) -> bool {
    |p: Seq<char>| disk_name(name_of(p))
}

fn is_disk_name(n: &str) -> (r: bool)
    ensures
        r == disk_name(n@),
{
    let cs = chars_of(n);
    starts_with(n, "sd") && cs.len() > 2 && !digit(cs[cs.len() - 1])
}

/// The first whole disk under `dev`.
pub fn first_disk_node(root: &Root) -> (r: Option<String>)
    ensures
        opt_text(r) == first_of(root.listing("dev"@), is_disk()),
{
    let nodes = root.list_dir("dev");
    let ghost all = texts(nodes@);
    let mut i: usize = 0;
    while i < nodes.len()
        invariant
            i <= nodes.len(),
            all == texts(nodes@),
            all == root.listing("dev"@),
            first_of(all.take(i as int), is_disk()) is None,
        decreases nodes.len() - i,
    {
        proof {
            lemma_take_more(all, i as int);
        }
        let n = file_name(nodes[i].as_str());
        if is_disk_name(n.as_str()) {
            proof {
                lemma_first_stays(all, i + 1, is_disk());
            }
            return Some(nodes[i].clone());
        }
        i += 1;
    }
    proof {
        lemma_take_all(all);
    }
    None
}

pub open spec fn block_reach(root: Root) -> Reach {
    if !root.direct_io {
        Reach { access: Access::Unsupported(NO_DIRECT_IO@), path: None }
    } else {
        match first_of(root.listing("dev"@), is_disk()) {
            Some(n) => tried_node(n, root.came_to(n, Mode::Read), DISK_DENIED@),
            None => Reach { access: Access::Unsupported(NO_DISKS@), path: None },
        }
    }
}

/// Whether a raw disk can be read directly. Without the flag for direct I/O the
/// page cache would be measured, and no privilege changes that.
pub fn detect_block_read(root: &Root) -> (r: Interface)
    ensures
        r@ == block_reach(*root),
{
    if !root.direct_io {
        return Interface::new(Availability::Unsupported(owned(NO_DIRECT_IO)), None);
    }
    match first_disk_node(root) {
        Some(n) => try_node(root, n.as_str(), Mode::Read, DISK_DENIED),
        None => Interface::new(Availability::Unsupported(owned(NO_DISKS)), None),
    }
}

pub open spec fn can_disable(root: Root) -> spec_fn(Seq<char>) -> Seq<Seq<char>> {
    |port: Seq<char>|
        if holds_text(name_of(port), "-port"@) && root.has(port + "/disable"@) {
            seq![port + "/disable"@]
        } else {
            Seq::empty()
        }
}

/// The controls below one hub interface.
pub open spec fn interface_controls(root: Root) -> spec_fn(Seq<char>) -> Seq<Seq<char>> {
    |iface: Seq<char>|
        if holds_text(name_of(iface), ":"@) {
            gathered(root.listing(iface), can_disable(root))
        } else {
            Seq::empty()
        }
}

/// The controls below one device.
pub open spec fn device_controls(root: Root) -> spec_fn(Seq<char>) -> Seq<Seq<char>> {
    |dev: Seq<char>| gathered(root.listing(dev), interface_controls(root))
}

/// Every port control, by device, interface and port.
pub open spec fn port_controls(root: Root) -> Seq<Seq<char>> {
    gathered(root.listing("sys/bus/usb/devices"@), device_controls(root))
}

fn add_port_controls(root: &Root, iface: &str, out: &mut Vec<String>)
    ensures
        texts(final(out)@) == texts(old(out)@) + gathered(root.listing(iface@), can_disable(*root)),
{
    let ports = root.list_dir(iface);
    let ghost all = texts(ports@);
    let ghost before = texts(out@);
    let ghost f = can_disable(*root);
    let mut i: usize = 0;
    assert(before + gathered(all.take(0), f) =~= before);
    while i < ports.len()
        invariant
            i <= ports.len(),
            all == texts(ports@),
            f == can_disable(*root),
            texts(out@) == before + gathered(all.take(i as int), f),
        decreases ports.len() - i,
    {
        proof {
            lemma_take_more(all, i as int);
        }
        let n = file_name(ports[i].as_str());
        let node = cat(ports[i].as_str(), "/disable");
        if contains(n.as_str(), "-port") && root.is_there(node.as_str()) {
            push_text(out, node);
        }
        assert(texts(out@) =~= before + gathered(all.take(i + 1), f));
        i += 1;
    }
    proof {
        lemma_take_all(all);
    }
}

fn add_interface_controls(root: &Root, dev: &str, out: &mut Vec<String>)
    ensures
        texts(final(out)@) == texts(old(out)@) + gathered(
            root.listing(dev@),
            interface_controls(*root),
        ),
{
    let ifaces = root.list_dir(dev);
    let ghost all = texts(ifaces@);
    let ghost before = texts(out@);
    let ghost f = interface_controls(*root);
    let mut i: usize = 0;
    assert(before + gathered(all.take(0), f) =~= before);
    while i < ifaces.len()
        invariant
            i <= ifaces.len(),
            all == texts(ifaces@),
            f == interface_controls(*root),
            texts(out@) == before + gathered(all.take(i as int), f),
        decreases ifaces.len() - i,
    {
        proof {
            lemma_take_more(all, i as int);
        }
        let n = file_name(ifaces[i].as_str());
        if contains(n.as_str(), ":") {
            add_port_controls(root, ifaces[i].as_str(), out);
        }
        assert(texts(out@) =~= before + gathered(all.take(i + 1), f));
        i += 1;
    }
    proof {
        lemma_take_all(all);
    }
}

pub open spec fn first_text(s: Seq<Seq<char>>) -> Option<Seq<char>> {
    if s.len() > 0 {
        Some(s[0])
    } else {
        None
    }
}

/// The first port `disable` control. Only its writability is of interest.
pub fn first_port_disable(root: &Root) -> (r: Option<String>)
    ensures
        opt_text(r) == first_text(port_controls(*root)),
{
    let devices = root.list_dir("sys/bus/usb/devices");
    let ghost all = texts(devices@);
    let ghost f = device_controls(*root);
    let mut out = no_texts();
    let mut i: usize = 0;
    while i < devices.len()
        invariant
            i <= devices.len(),
            all == texts(devices@),
            f == device_controls(*root),
            texts(out@) == gathered(all.take(i as int), f),
        decreases devices.len() - i,
    {
        proof {
            lemma_take_more(all, i as int);
        }
        add_interface_controls(root, devices[i].as_str(), &mut out);
        i += 1;
    }
    proof {
        lemma_take_all(all);
        assert(texts(out@).len() == out@.len());
    }
    if out.len() > 0 {
        assert(texts(out@)[0] == out@[0]@);
        Some(out[0].clone())
    } else {
        None
    }
}

pub open spec fn port_reach(root: Root) -> Reach {
    match first_text(port_controls(root)) {
        Some(n) => tried_node(n, root.came_to(n, Mode::Append), PORT_DENIED@),
        None => Reach { access: Access::Unsupported(NO_PORT_CONTROL@), path: None },
    }
}

/// Whether a hub port's `disable` control can be written. Tried by opening for
/// append and never by writing: a write would cycle the port.
pub fn detect_port_control(root: &Root) -> (r: Interface)
    ensures
        r@ == port_reach(*root),
{
    match first_port_disable(root) {
        Some(n) => try_node(root, n.as_str(), Mode::Append, PORT_DENIED),
        None => Interface::new(Availability::Unsupported(owned(NO_PORT_CONTROL)), None),
    }
}

/// Everything a process may do, from what it found.
pub fn detect_in(root: &Root) -> (r: Capabilities)
    ensures
        as_nat(r.effective_uid) == uid_in(*root),
        r.usbmon@ == usbmon_reach(*root),
        r.usbfs@ == usbfs_reach(*root),
        r.block_read@ == block_reach(*root),
        r.port_control@ == port_reach(*root),
{
    Capabilities {
        effective_uid: read_effective_uid(root),
        usbmon: detect_usbmon(root),
        usbfs: detect_usbfs(root),
        block_read: detect_block_read(root),
        port_control: detect_port_control(root),
    }
}

// ---------------------------------------------------------------------------
// laws
// ---------------------------------------------------------------------------

/// Passive probes are never gated, whatever the machine allows; every other
/// probe needs an interface.
pub proof fn passive_probes_are_never_blocked(caps: Capabilities, i: int)
    requires
        0 <= i < infos().len(),
    ensures
        infos()[i].class == ProbeClass::Passive <==> infos()[i].needs == Requirement::Nothing,
        infos()[i].class == ProbeClass::Passive ==> caps.blocked(infos()[i]) is None,
        infos()[i].class == ProbeClass::Passive ==> kept(infos(), caps.allows()).contains(
            infos()[i],
        ),
{
    crate::seqs::lemma_kept(infos(), caps.allows());
    assert(infos().contains(infos()[i]));
}

/// A probe is offered exactly where nothing blocks it.
pub proof fn only_unblocked_probes_are_offered(caps: Capabilities, p: ProbeInfo)
    ensures
        kept(infos(), caps.allows()).contains(p) <==> infos().contains(p) && caps.blocked(p)
            is None,
{
    crate::seqs::lemma_kept(infos(), caps.allows());
}

/// What a probe is blocked by rests on the one interface it needs: no other
/// interface unlocks it.
pub proof fn an_interface_unlocks_only_its_probes(a: Capabilities, b: Capabilities, p: ProbeInfo)
    requires
        a.needed(p.needs) == b.needed(p.needs),
    ensures
        a.blocked(p) == b.blocked(p),
        a.allows()(p) == b.allows()(p),
{
}

/// An interface that was opened is usable, whatever the configuration says; and
/// one that was not is never called usable.
pub proof fn only_an_opened_stream_is_usable(root: Root)
    ensures
        usbmon_reach(root).access is Usable <==> root.came_to(TEXT_API@, Mode::Read) is Yes,
{
}

/// A refusal alone proves nothing: where the module is not known to be loaded,
/// no path is reported.
pub proof fn a_refusal_is_no_proof(root: Root)
    requires
        root.came_to(TEXT_API@, Mode::Read) is Denied,
        !usbmon_loaded(root),
    ensures
        usbmon_reach(root).path is None,
        !(usbmon_reach(root).access is Usable),
{
}

} // verus!
