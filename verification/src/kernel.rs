//! The kernel ring buffer, filtered down to USB events that matter.
//!
//! sysfs reports the state a link settled into; the ring buffer records the
//! fights it had getting there. Three sources are tried in order: `/dev/kmsg`,
//! `journalctl -k -b 0`, and `dmesg`. Reading them is the caller's part: this
//! module says which to try next and what to make of the text.

use vstd::prelude::*;
use crate::double::{parse_double, Double};
use crate::model::{EventKind, KernelEvent, KernelLog, KernelLogSource, Severity};
use crate::number::{
    dec, dec_fixed, digits_between, digits_value, is_number, number, parse_number, parsed,
    push_fixed,
};
use crate::seqs::{gathered, lemma_take_all, lemma_take_more};
use crate::text::{
    all_digits, begins_with, cat, chars_of, contains, copy_opt, cut_first, cut_last, cut_text,
    digit, digits_only, fill1, filled, find, first_char, first_occurs, found_at, holds_text,
    is_digit, join, joined, lemma_first_char, lines, lines_of, lower, lowered, occurs_at, opt_text,
        owned, pad_start, padded, pieces, position,
    push_text, rsplit_once, same, slice, split, split_once, split_once_at, split_whitespace,
    starts_with, strip_prefix, stripped_end, stripped_start, texts, trim, trim_end_matches,
    trim_start_matches, trimmed, words,
};

verus! {

/// Guard against an endless loop if the ring buffer keeps being overwritten.
pub const MAX_RECORDS: usize = 200_000;

#[derive(Debug, Clone, Copy)]
pub struct Options {
    /// Keep lines that matched no known pattern.
    pub include_unclassified: bool,
    /// Cap on retained events, newest kept. 0 means unlimited.
    pub limit: usize,
}

impl Default for Options {
    fn default() -> (r: Self)
        ensures
            r == (Options { include_unclassified: false, limit: 4000 }),
    {
        Options { include_unclassified: false, limit: 4000 }
    }
}

/// A log line, whatever it was read from: display timestamp, seconds since boot,
/// and the message.
pub type Line = (Option<String>, Option<Double>, String);

/// A log line, as text.
pub struct Entry {
    pub timestamp: Option<Seq<char>>,
    pub monotonic: Option<Double>,
    pub text: Seq<char>,
}

pub open spec fn entry(l: Line) -> Entry {
    Entry { timestamp: opt_text(l.0), monotonic: l.1, text: l.2@ }
}

pub open spec fn entries(v: Seq<Line>) -> Seq<Entry> {
    Seq::new(v.len(), |i: int| entry(v[i]))
}

pub open spec fn entry_opt(o: Option<Line>) -> Option<Entry> {
    match o {
        Some(l) => Some(entry(l)),
        None => None,
    }
}

/// A classified event, as text.
pub struct Event {
    pub kind: EventKind,
    pub severity: Severity,
    pub device: Option<Seq<char>>,
    pub port: Option<Seq<char>>,
    pub timestamp: Option<Seq<char>>,
    pub monotonic: Option<Double>,
    pub text: Seq<char>,
    pub errno: Option<i32>,
}

pub open spec fn event(e: KernelEvent) -> Event {
    Event {
        kind: e.kind,
        severity: e.severity,
        device: opt_text(e.device),
        port: opt_text(e.port),
        timestamp: opt_text(e.timestamp),
        monotonic: e.monotonic_s,
        text: e.text@,
        errno: e.errno,
    }
}

pub open spec fn events(v: Seq<KernelEvent>) -> Seq<Event> {
    Seq::new(v.len(), |i: int| event(v[i]))
}

// ---------------------------------------------------------------------------
// reading a line
// ---------------------------------------------------------------------------

/// A time since boot, as `/dev/kmsg` readers print it: `[    98.765432]`.
pub open spec fn stamp(usec: nat) -> Seq<char> {
    "["@ + padded(dec(usec / 1_000_000), 6) + "."@ + dec_fixed(usec % 1_000_000, 6) + "]"@
}

fn stamp_text(usec: u64) -> (r: String)
    ensures
        r@ == stamp(usec as nat),
{
    let secs = number(usec / 1_000_000);
    let lead = pad_start(secs.as_str(), 6);
    let a = cat("[", lead.as_str());
    let mut out = cat(a.as_str(), ".");
    push_fixed(&mut out, usec % 1_000_000, 6);
    cat(out.as_str(), "]")
}

/// The message of a record: its first line, trimmed, if anything is left.
pub open spec fn record_text(rest: Seq<char>) -> Option<Seq<char>> {
    let ls = lines_of(rest);
    if ls.len() == 0 || trimmed(ls[0]).len() == 0 {
        None
    } else {
        Some(trimmed(ls[0]))
    }
}

/// The third field of a record's head, in microseconds.
pub open spec fn record_time(meta: Seq<char>) -> Option<nat> {
    let fields = pieces(meta, ',');
    if fields.len() <= 2 {
        None
    } else {
        parsed(fields[2], u64::MAX as nat)
    }
}

/// `<prio>,<seq>,<usec_since_boot>,<flags>[,..];<message>`. Continuation lines
/// are left out.
pub open spec fn kmsg_entry(record: Seq<char>) -> Option<Entry> {
    match cut_first(record, ';') {
        Some((meta, rest)) => match (record_text(rest), record_time(meta)) {
            (Some(text), Some(usec)) => Some(
                Entry {
                    timestamp: Some(stamp(usec)),
                    monotonic: Some(Double::whole(usec).over(1_000_000)),
                    text,
                },
            ),
            _ => None,
        },
        None => None,
    }
}

pub fn parse_kmsg_record(record: &str) -> (r: Option<Line>)
    ensures
        entry_opt(r) == kmsg_entry(record@),
{
    let (meta, rest) = match split_once(record, ';') {
        Some(p) => p,
        None => {
            return None;
        },
    };
    let ls = lines(rest.as_str());
    assert(texts(ls@).len() == ls@.len());
    if ls.len() == 0 {
        return None;
    }
    assert(texts(ls@)[0] == ls@[0]@);
    let text = trim(ls[0].as_str());
    let n = chars_of(text.as_str());
    if n.len() == 0 {
        return None;
    }
    let fields = split(meta.as_str(), ',');
    assert(texts(fields@).len() == fields@.len());
    if fields.len() <= 2 {
        return None;
    }
    assert(texts(fields@)[2] == fields@[2]@);
    match parse_number(fields[2].as_str(), u64::MAX) {
        Some(usec) => Some(
            (Some(stamp_text(usec)), Some(Double::quotient(usec, 1_000_000)), text),
        ),
        None => None,
    }
}

/// The timestamp of a journal line's head, without the host name that follows.
pub open spec fn head_stamp(head: Seq<char>) -> Seq<char> {
    match cut_last(head, ' ') {
        Some((ts, _)) => trimmed(ts),
        None => trimmed(head),
    }
}

pub open spec fn stamp_seconds(stamp: Seq<char>) -> Option<Double> {
    Double::parsed(trimmed(stripped_end(stripped_start(stamp, '['), ']')))
}

/// `[62786.165344] hostname kernel: usb 3-4: reset ...`
pub open spec fn journal_entry(line: Seq<char>) -> Option<Entry> {
    match cut_text(line, " kernel: "@) {
        Some((head, text)) => if trimmed(text).len() == 0 {
            None
        } else {
            Some(
                Entry {
                    timestamp: Some(head_stamp(head)),
                    monotonic: stamp_seconds(head_stamp(head)),
                    text: trimmed(text),
                },
            )
        },
        None => None,
    }
}

pub fn parse_journal_line(line: &str) -> (r: Option<Line>)
    ensures
        entry_opt(r) == journal_entry(line@),
{
    let (head, rest) = match split_once_at(line, " kernel: ") {
        Some(p) => p,
        None => {
            return None;
        },
    };
    let text = trim(rest.as_str());
    let n = chars_of(text.as_str());
    if n.len() == 0 {
        return None;
    }
    let timestamp = match rsplit_once(head.as_str(), ' ') {
        Some((ts, _)) => trim(ts.as_str()),
        None => trim(head.as_str()),
    };
    let a = trim_start_matches(timestamp.as_str(), '[');
    let b = trim_end_matches(a.as_str(), ']');
    let c = trim(b.as_str());
    let monotonic = parse_double(c.as_str());
    Some((Some(timestamp), monotonic, text))
}

pub const IN_SQUARE: &'static str = "[{}]";

/// The two parts of a line that opens with a bracketed time.
pub open spec fn stamped(line: Seq<char>) -> Option<(Seq<char>, Seq<char>)> {
    match after_bracket(line) {
        Some(rest) => cut_first(rest, ']'),
        None => None,
    }
}

pub open spec fn after_bracket(line: Seq<char>) -> Option<Seq<char>> {
    crate::text::after_prefix(line, "["@)
}

/// `[ 1234.567890] usb 3-4: reset ...`, or a bare message.
pub open spec fn dmesg_entry(line: Seq<char>) -> Option<Entry> {
    match stamped(line) {
        Some((ts, text)) => if trimmed(text).len() == 0 {
            None
        } else {
            Some(
                Entry {
                    timestamp: Some(filled(IN_SQUARE@, seq![trimmed(ts)])),
                    monotonic: Double::parsed(trimmed(ts)),
                    text: trimmed(text),
                },
            )
        },
        None => if trimmed(line).len() == 0 {
            None
        } else {
            Some(Entry { timestamp: None, monotonic: None, text: trimmed(line) })
        },
    }
}

pub fn parse_dmesg_line(line: &str) -> (r: Option<Line>)
    ensures
        entry_opt(r) == dmesg_entry(line@),
{
    if let Some(rest) = strip_prefix(line, "[") {
        if let Some((ts, body)) = split_once(rest.as_str(), ']') {
            let text = trim(body.as_str());
            let n = chars_of(text.as_str());
            if n.len() == 0 {
                return None;
            }
            let t = trim(ts.as_str());
            let monotonic = parse_double(t.as_str());
            return Some((Some(fill1(IN_SQUARE, t.as_str())), monotonic, text));
        }
    }
    let text = trim(line);
    let n = chars_of(text.as_str());
    if n.len() == 0 {
        None
    } else {
        Some((None, None, text))
    }
}

// ---------------------------------------------------------------------------
// reading a source
// ---------------------------------------------------------------------------

pub open spec fn one_entry(o: Option<Entry>) -> Seq<Entry> {
    match o {
        Some(e) => seq![e],
        None => Seq::empty(),
    }
}

pub open spec fn journal_part() -> spec_fn(Seq<char>) -> Seq<Entry> {
    |l: Seq<char>| one_entry(journal_entry(l))
}

pub open spec fn dmesg_part() -> spec_fn(Seq<char>) -> Seq<Entry> {
    |l: Seq<char>| one_entry(dmesg_entry(l))
}

fn push_line(out: &mut Vec<Line>, l: Option<Line>)
    ensures
        entries(final(out)@) == entries(old(out)@) + one_entry(entry_opt(l)),
{
    let ghost before = out@;
    if let Some(x) = l {
        out.push(x);
    }
    assert(entries(out@) =~= entries(before) + one_entry(entry_opt(l)));
}

/// Every line that `journalctl` printed.
pub fn journal_lines(text: &str) -> (r: Vec<Line>)
    ensures
        entries(r@) == gathered(lines_of(text@), journal_part()),
{
    let ls = lines(text);
    let ghost all = texts(ls@);
    let mut out: Vec<Line> = Vec::new();
    let mut i: usize = 0;
    assert(entries(out@) =~= Seq::<Entry>::empty());
    while i < ls.len()
        invariant
            i <= ls.len(),
            all == texts(ls@),
            entries(out@) == gathered(all.take(i as int), journal_part()),
        decreases ls.len() - i,
    {
        proof {
            lemma_take_more(all, i as int);
        }
        push_line(&mut out, parse_journal_line(ls[i].as_str()));
        i += 1;
    }
    proof {
        lemma_take_all(all);
    }
    out
}

/// Every line that `dmesg` printed.
pub fn dmesg_lines(text: &str) -> (r: Vec<Line>)
    ensures
        entries(r@) == gathered(lines_of(text@), dmesg_part()),
{
    let ls = lines(text);
    let ghost all = texts(ls@);
    let mut out: Vec<Line> = Vec::new();
    let mut i: usize = 0;
    assert(entries(out@) =~= Seq::<Entry>::empty());
    while i < ls.len()
        invariant
            i <= ls.len(),
            all == texts(ls@),
            entries(out@) == gathered(all.take(i as int), dmesg_part()),
        decreases ls.len() - i,
    {
        proof {
            lemma_take_more(all, i as int);
        }
        push_line(&mut out, parse_dmesg_line(ls[i].as_str()));
        i += 1;
    }
    proof {
        lemma_take_all(all);
    }
    out
}

/// What one read of `/dev/kmsg` came to.
#[derive(Debug, Clone)]
pub enum KmsgRead {
    /// Nothing more.
    End,
    Record(String),
    /// The buffer is drained.
    Drained,
    /// Records were overwritten while reading; the next read resumes.
    Overwritten,
    Failed(String),
}

/// What to do after a read.
#[derive(Debug, Clone)]
pub enum KmsgNext {
    Read,
    Stop,
    Fail(String),
}

/// Takes one read in. A failure counts only where nothing was read before it.
pub fn kmsg_step(out: &mut Vec<Line>, read: KmsgRead) -> (next: KmsgNext)
    ensures
        match read {
            KmsgRead::Record(s) => next is Read && entries(final(out)@) == entries(old(out)@)
                + one_entry(kmsg_entry(s@)),
            KmsgRead::Overwritten => next is Read && final(out)@ == old(out)@,
            KmsgRead::End | KmsgRead::Drained => next is Stop && final(out)@ == old(out)@,
            KmsgRead::Failed(e) => final(out)@ == old(out)@ && (if old(out)@.len() == 0 {
                next == KmsgNext::Fail(e)
            } else {
                next is Stop
            }),
        },
{
    match read {
        KmsgRead::Record(s) => {
            push_line(out, parse_kmsg_record(s.as_str()));
            KmsgNext::Read
        },
        KmsgRead::Overwritten => KmsgNext::Read,
        KmsgRead::End => KmsgNext::Stop,
        KmsgRead::Drained => KmsgNext::Stop,
        KmsgRead::Failed(e) => if out.len() == 0 {
            KmsgNext::Fail(e)
        } else {
            KmsgNext::Stop
        },
    }
}

// ---------------------------------------------------------------------------
// classification
// ---------------------------------------------------------------------------

/// A line about USB or Type-C.
pub open spec fn concerns_usb(text: Seq<char>) -> bool {
    let l = lowered(text);
    begins_with(l, "usb "@) || begins_with(l, "usb-storage"@) || begins_with(l, "hub "@)
        || begins_with(l, "xhci"@) || begins_with(l, "ehci"@) || begins_with(l, "uas "@)
        || begins_with(l, "typec"@) || begins_with(l, "ucsi"@) || begins_with(l, "tcpm"@)
        || holds_text(l, "usb cable"@) || holds_text(l, "usb device"@)
}

pub fn is_usb_related(text: &str) -> (r: bool)
    ensures
        r == concerns_usb(text@),
{
    let low = lower(text);
    let l = low.as_str();
    starts_with(l, "usb ") || starts_with(l, "usb-storage") || starts_with(l, "hub ")
        || starts_with(l, "xhci") || starts_with(l, "ehci") || starts_with(l, "uas ")
        || starts_with(l, "typec") || starts_with(l, "ucsi") || starts_with(l, "tcpm")
        || contains(l, "usb cable") || contains(l, "usb device")
}

pub open spec fn says_enumeration_failed(l: Seq<char>) -> bool {
    holds_text(l, "device descriptor read"@) || holds_text(l, "unable to enumerate usb device"@)
        || holds_text(l, "device not accepting address"@) || holds_text(
        l,
        "device not responding to setup address"@,
    ) || holds_text(l, "no response for device descriptor"@) || holds_text(
        l,
        "can't read configurations"@,
    )
}

pub open spec fn says_controller_failed(l: Seq<char>) -> bool {
    holds_text(l, "host controller not responding"@) || holds_text(l, "hc died"@) || holds_text(
        l,
        "host not responding"@,
    ) || holds_text(l, "host system error"@) || holds_text(l, "assume dead"@)
}

pub open spec fn says_training_failed(l: Seq<char>) -> bool {
    holds_text(l, "connect-debounce failed"@) || holds_text(l, "cannot enable"@) || holds_text(
        l,
        "link is stuck"@,
    ) || holds_text(l, "warm reset"@)
}

/// What kind of event a line, in lower case, is about. The kernel's own blame of
/// a cable comes before everything, and a failed enumeration before the resets
/// it also logs.
pub open spec fn kind_of(l: Seq<char>) -> EventKind {
    if holds_text(l, "maybe the usb cable is bad"@) {
        EventKind::CableSuspect
    } else if says_enumeration_failed(l) {
        EventKind::EnumerationFailure
    } else if holds_text(l, "over-current"@) || holds_text(l, "overcurrent"@) {
        EventKind::OverCurrent
    } else if holds_text(l, "insufficient available bus power"@) || holds_text(
        l,
        "not enough power"@,
    ) {
        EventKind::InsufficientPower
    } else if holds_text(l, "no bandwidth for new device"@) || holds_text(
        l,
        "not enough bandwidth"@,
    ) {
        EventKind::InsufficientBandwidth
    } else if says_controller_failed(l) {
        EventKind::HostControllerFailure
    } else if says_training_failed(l) {
        EventKind::LinkTrainingFailure
    } else if holds_text(l, "reset"@) && holds_text(l, "usb device"@) {
        EventKind::DeviceReset
    } else if holds_text(l, "new "@) && holds_text(l, "usb device number"@) {
        EventKind::DeviceEnumerating
    } else if holds_text(l, "usb disconnect"@) {
        EventKind::Disconnect
    } else if begins_with(l, "typec"@) || begins_with(l, "ucsi"@) || begins_with(l, "tcpm"@) {
        EventKind::TypecEvent
    } else {
        EventKind::Other
    }
}

fn find_kind(l: &str) -> (r: EventKind)
    ensures
        r == kind_of(l@),
{
    if contains(l, "maybe the usb cable is bad") {
        EventKind::CableSuspect
    } else if contains(l, "device descriptor read") || contains(l, "unable to enumerate usb device")
        || contains(l, "device not accepting address") || contains(
        l,
        "device not responding to setup address",
    ) || contains(l, "no response for device descriptor") || contains(
        l,
        "can't read configurations",
    ) {
        EventKind::EnumerationFailure
    } else if contains(l, "over-current") || contains(l, "overcurrent") {
        EventKind::OverCurrent
    } else if contains(l, "insufficient available bus power") || contains(l, "not enough power") {
        EventKind::InsufficientPower
    } else if contains(l, "no bandwidth for new device") || contains(l, "not enough bandwidth") {
        EventKind::InsufficientBandwidth
    } else if contains(l, "host controller not responding") || contains(l, "hc died") || contains(
        l,
        "host not responding",
    ) || contains(l, "host system error") || contains(l, "assume dead") {
        EventKind::HostControllerFailure
    } else if contains(l, "connect-debounce failed") || contains(l, "cannot enable") || contains(
        l,
        "link is stuck",
    ) || contains(l, "warm reset") {
        EventKind::LinkTrainingFailure
    } else if contains(l, "reset") && contains(l, "usb device") {
        EventKind::DeviceReset
    } else if contains(l, "new ") && contains(l, "usb device number") {
        EventKind::DeviceEnumerating
    } else if contains(l, "usb disconnect") {
        EventKind::Disconnect
    } else if starts_with(l, "typec") || starts_with(l, "ucsi") || starts_with(l, "tcpm") {
        EventKind::TypecEvent
    } else {
        EventKind::Other
    }
}

/// What stands before the first colon and space: who the line is about.
pub open spec fn about_part(text: Seq<char>) -> Seq<char> {
    match cut_text(text, ": "@) {
        Some((head, _)) => head,
        None => text,
    }
}

/// Maps a message to an event kind, the device it concerns and the port it
/// names.
pub fn classify(text: &str) -> (r: (EventKind, Option<String>, Option<String>))
    ensures
        r.0 == kind_of(lowered(text@)),
        opt_text(r.1) == device_in(about_part(text@)),
        opt_text(r.2) == port_in(about_part(text@)),
{
    let low = lower(text);
    let prefix = match split_once_at(text, ": ") {
        Some((head, _)) => head,
        None => owned(text),
    };
    let device = extract_device(prefix.as_str());
    let port = extract_port(prefix.as_str());
    (find_kind(low.as_str()), device, port)
}

/// The last word of a prefix.
pub open spec fn last_word(prefix: Seq<char>) -> Option<Seq<char>> {
    let ws = words(prefix);
    if ws.len() == 0 {
        None
    } else {
        Some(ws.last())
    }
}

fn find_last_word(prefix: &str) -> (r: Option<String>)
    ensures
        opt_text(r) == last_word(prefix@),
{
    let mut ws = split_whitespace(prefix);
    assert(texts(ws@).len() == ws@.len());
    if ws.len() == 0 {
        None
    } else {
        assert(texts(ws@).last() == ws@.last()@);
        ws.pop()
    }
}

/// A token without its interface (`3-5:1.0`) and port (`3-4-port2`) suffixes.
pub open spec fn bare_token(token: Seq<char>) -> Seq<char> {
    let t = token.take(first_char(token, ':'));
    match found_at(t, "-port"@) {
        Some(i) => t.take(i),
        None => t,
    }
}

/// Digits and dots, and at least one of them.
pub open spec fn is_route(s: Seq<char>) -> bool {
    s.len() > 0 && forall|i: int| 0 <= i < s.len() ==> is_digit(#[trigger] s[i]) || s[i] == '.'
}

fn route_only(s: &str) -> (r: bool)
    ensures
        r == is_route(s@),
{
    let cs = chars_of(s);
    if cs.len() == 0 {
        return false;
    }
    let mut i: usize = 0;
    while i < cs.len()
        invariant
            i <= cs.len(),
            cs@ == s@,
            forall|k: int| 0 <= k < i ==> is_digit(#[trigger] s@[k]) || s@[k] == '.',
        decreases cs.len() - i,
    {
        if !digit(cs[i]) && cs[i] != '.' {
            assert(!(is_digit(s@[i as int]) || s@[i as int] == '.'));
            return false;
        }
        i += 1;
    }
    true
}

/// The device that a bare token names. `3-0` is the root hub's own interface,
/// and is named as its bus.
pub open spec fn device_named(t: Seq<char>) -> Option<Seq<char>> {
    if begins_with(t, "usb"@) && all_digits(t.skip(3)) {
        Some(t)
    } else {
        match cut_first(t, '-') {
            Some((bus, path)) => if !is_number(bus) || !is_route(path) {
                None
            } else if path == "0"@ {
                Some("usb"@ + bus)
            } else {
                Some(t)
            },
            None => None,
        }
    }
}

/// The USB device a prefix is about: `usb 3-4` gives `3-4`, `usb-storage
/// 3-5:1.0` gives `3-5`, `hub 3-0:1.0` gives `usb3`.
pub open spec fn device_in(prefix: Seq<char>) -> Option<Seq<char>> {
    match last_word(prefix) {
        Some(w) => device_named(bare_token(w)),
        None => None,
    }
}

fn find_bare_token(token: &str) -> (r: String)
    ensures
        r@ == bare_token(token@),
{
    let cs = chars_of(token);
    let n: usize = position(&cs, 0, ':');
    proof {
        assert(cs@.skip(0) == token@);
        assert(cs@.subrange(0, n as int) == token@.take(n as int));
    }
    let t = slice(&cs, 0, n);
    match find(t.as_str(), "-port") {
        Some(i) => {
            let ts = chars_of(t.as_str());
            assert(occurs_at(t@, "-port"@, i as int));
            assert(ts@.subrange(0, i as int) == t@.take(i as int));
            slice(&ts, 0, i)
        },
        None => t,
    }
}

fn find_device_named(t: &str) -> (r: Option<String>)
    ensures
        opt_text(r) == device_named(t@),
{
    proof {
        reveal_strlit("usb");
    }
    if let Some(rest) = strip_prefix(t, "usb") {
        if digits_only(rest.as_str()) {
            return Some(owned(t));
        }
    }
    let (bus, path) = match split_once(t, '-') {
        Some(p) => p,
        None => {
            return None;
        },
    };
    let b = chars_of(bus.as_str());
    if b.len() == 0 || !digits_only(bus.as_str()) || !route_only(path.as_str()) {
        return None;
    }
    if same(path.as_str(), "0") {
        return Some(cat("usb", bus.as_str()));
    }
    Some(owned(t))
}

pub fn extract_device(prefix: &str) -> (r: Option<String>)
    ensures
        opt_text(r) == device_in(prefix@),
{
    match find_last_word(prefix) {
        Some(w) => {
            let t = find_bare_token(w.as_str());
            find_device_named(t.as_str())
        },
        None => None,
    }
}

/// The hub port a prefix names: `usb usb6-port1` gives `usb6-port1`. A port is a
/// place that outlives its occupants.
pub open spec fn port_in(prefix: Seq<char>) -> Option<Seq<char>> {
    match last_word(prefix) {
        Some(w) => if holds_text(w, "-port"@) {
            Some(w)
        } else {
            None
        },
        None => None,
    }
}

pub fn extract_port(prefix: &str) -> (r: Option<String>)
    ensures
        opt_text(r) == port_in(prefix@),
{
    match find_last_word(prefix) {
        Some(w) => if contains(w.as_str(), "-port") {
            Some(w)
        } else {
            None
        },
        None => None,
    }
}

/// How many digits a text begins with.
pub open spec fn digit_run(s: Seq<char>) -> int
    decreases s.len(),
{
    if s.len() == 0 || !is_digit(s[0]) {
        0
    } else {
        1 + digit_run(s.skip(1))
    }
}

proof fn lemma_digit_run(s: Seq<char>, n: int)
    requires
        0 <= n <= s.len(),
        forall|k: int| 0 <= k < n ==> is_digit(#[trigger] s[k]),
        n < s.len() ==> !is_digit(s[n]),
    ensures
        digit_run(s) == n,
    decreases n,
{
    if n > 0 {
        assert(is_digit(s[0]));
        assert forall|k: int| 0 <= k < n - 1 implies is_digit(#[trigger] s.skip(1)[k]) by {
            assert(is_digit(s[k + 1]));
        }
        lemma_digit_run(s.skip(1), n - 1);
    }
}

/// The negative errno of a message: `..., error -110` gives -110.
pub open spec fn errno_in(text: Seq<char>) -> Option<i32> {
    match cut_text(text, "error -"@) {
        Some((_, rest)) => {
            let digits = rest.take(digit_run(rest));
            if digits.len() == 0 || digits_value(digits) > i32::MAX {
                None
            } else {
                Some((0 - digits_value(digits)) as i32)
            }
        },
        None => None,
    }
}

pub fn extract_errno(text: &str) -> (r: Option<i32>)
    ensures
        r == errno_in(text@),
{
    let rest = match split_once_at(text, "error -") {
        Some((_, rest)) => rest,
        None => {
            return None;
        },
    };
    let cs = chars_of(rest.as_str());
    let mut n: usize = 0;
    while n < cs.len() && digit(cs[n])
        invariant
            n <= cs.len(),
            cs@ == rest@,
            forall|k: int| 0 <= k < n ==> is_digit(#[trigger] rest@[k]),
        decreases cs.len() - n,
    {
        n += 1;
    }
    proof {
        lemma_digit_run(rest@, n as int);
        assert(cs@.subrange(0, n as int) == rest@.take(n as int));
        assert forall|k: int| 0 <= k < n implies is_digit(#[trigger] rest@.take(n as int)[k]) by {
            assert(is_digit(rest@[k]));
        }
    }
    match digits_between(&cs, 0, n, i32::MAX as u64) {
        Some(v) => Some(0 - (v as i32)),
        None => None,
    }
}

/// How much a single event of a kind weighs. One reset is normal; the rules
/// escalate on repetition.
pub open spec fn weight_of(kind: EventKind) -> Severity {
    match kind {
        EventKind::CableSuspect | EventKind::EnumerationFailure | EventKind::OverCurrent
        | EventKind::HostControllerFailure => Severity::High,
        EventKind::LinkTrainingFailure | EventKind::InsufficientPower
        | EventKind::InsufficientBandwidth => Severity::Medium,
        EventKind::DeviceReset => Severity::Low,
        EventKind::Disconnect | EventKind::TypecEvent | EventKind::DeviceEnumerating
        | EventKind::Other => Severity::Info,
    }
}

pub fn severity_of(kind: EventKind) -> (r: Severity)
    ensures
        r == weight_of(kind),
{
    match kind {
        EventKind::CableSuspect => Severity::High,
        EventKind::EnumerationFailure => Severity::High,
        EventKind::OverCurrent => Severity::High,
        EventKind::HostControllerFailure => Severity::High,
        EventKind::LinkTrainingFailure => Severity::Medium,
        EventKind::InsufficientPower => Severity::Medium,
        EventKind::InsufficientBandwidth => Severity::Medium,
        EventKind::DeviceReset => Severity::Low,
        EventKind::Disconnect => Severity::Info,
        EventKind::TypecEvent => Severity::Info,
        EventKind::DeviceEnumerating => Severity::Info,
        EventKind::Other => Severity::Info,
    }
}

// ---------------------------------------------------------------------------
// the log
// ---------------------------------------------------------------------------

/// The event a line gives. A line that is not about USB gives none, and one of
/// no known kind only where such lines are wanted.
pub open spec fn event_of(unclassified: bool) -> spec_fn(Entry) -> Seq<Event> {
    |l: Entry|
        if !concerns_usb(l.text) || (kind_of(lowered(l.text)) == EventKind::Other
            && !unclassified) {
            Seq::empty()
        } else {
            seq![
                Event {
                    kind: kind_of(lowered(l.text)),
                    severity: weight_of(kind_of(lowered(l.text))),
                    device: device_in(about_part(l.text)),
                    port: port_in(about_part(l.text)),
                    timestamp: l.timestamp,
                    monotonic: l.monotonic,
                    text: l.text,
                    errno: errno_in(l.text),
                },
            ]
        }
}

/// The newest of a list, at most so many; all of them where the limit is 0.
pub open spec fn newest_of(s: Seq<Event>, limit: nat) -> Seq<Event> {
    if limit > 0 && s.len() > limit {
        s.skip(s.len() - limit)
    } else {
        s
    }
}

/// The events of a log.
pub open spec fn log_events(s: Seq<Entry>, opts: Options) -> Seq<Event> {
    newest_of(gathered(s, event_of(opts.include_unclassified)), opts.limit as nat)
}

fn make_event(l: &Line, unclassified: bool) -> (r: Option<KernelEvent>)
    ensures
        match r {
            Some(e) => event_of(unclassified)(entry(*l)) == seq![event(e)],
            None => event_of(unclassified)(entry(*l)).len() == 0,
        },
{
    if !is_usb_related(l.2.as_str()) {
        return None;
    }
    let (kind, device, port) = classify(l.2.as_str());
    if kind == EventKind::Other && !unclassified {
        return None;
    }
    let errno = extract_errno(l.2.as_str());
    let monotonic_s = l.1;
    let timestamp = copy_opt(&l.0);
    let text = l.2.clone();
    Some(
        KernelEvent {
            severity: severity_of(kind),
            kind,
            device,
            port,
            errno,
            monotonic_s,
            timestamp,
            text,
        },
    )
}

/// Classifies lines and keeps the events.
pub fn build(source: KernelLogSource, lines: Vec<Line>, opts: Options, note: Option<String>) -> (r:
    KernelLog)
    ensures
        r.source == source,
        r.note == note,
        events(r.events@) == log_events(entries(lines@), opts),
{
    let ghost all = entries(lines@);
    let ghost f = event_of(opts.include_unclassified);
    let mut out: Vec<KernelEvent> = Vec::new();
    let mut i: usize = 0;
    assert(events(out@) =~= Seq::<Event>::empty());
    while i < lines.len()
        invariant
            i <= lines.len(),
            all == entries(lines@),
            f == event_of(opts.include_unclassified),
            events(out@) == gathered(all.take(i as int), f),
        decreases lines.len() - i,
    {
        let ghost made = out@;
        proof {
            lemma_take_more(all, i as int);
            assert(all[i as int] == entry(lines@[i as int]));
        }
        match make_event(&lines[i], opts.include_unclassified) {
            Some(e) => {
                out.push(e);
                assert(events(out@) =~= events(made) + seq![event(e)]);
            },
            None => {
                assert(events(out@) =~= events(made) + f(all[i as int]));
            },
        }
        i += 1;
    }
    proof {
        lemma_take_all(all);
        assert(events(out@).len() == out@.len());
    }
    if opts.limit > 0 && out.len() > opts.limit {
        let from: usize = out.len() - opts.limit;
        let ghost full = out@;
        let kept = out.split_off(from);
        assert(kept@ =~= full.skip(from as int));
        assert(events(kept@) =~= events(full).skip(from as int));
        return KernelLog { source, note, events: kept };
    }
    KernelLog { source, note, events: out }
}

// ---------------------------------------------------------------------------
// which source
// ---------------------------------------------------------------------------

pub const KMSG_FAILED: &'static str = "/dev/kmsg: {}";

pub const VIA_JOURNAL: &'static str = "read via journalctl ({}); run as root for /dev/kmsg";

pub const JOURNAL_FAILED: &'static str = "journalctl: {}";

pub const VIA_DMESG: &'static str = "read via dmesg ({})";

pub const DMESG_FAILED: &'static str = "dmesg: {}";

pub const NO_SOURCE: &'static str =
    "no kernel log source available: {}. Reset/enumeration history will be missing; re-run \
        with sudo or add your user to the systemd-journal group.";

/// How far a collection has come: what to read next, and what failed before it.
pub struct Collecting {
    pub source: KernelLogSource,
    pub notes: Vec<String>,
}

/// What a source's answer leads to.
pub enum Progress {
    Done(KernelLog),
    Next(Collecting),
}

impl Collecting {
    /// The kernel's own device comes first.
    pub fn start() -> (r: Self)
        ensures
            r.source == KernelLogSource::DevKmsg,
            r.notes@.len() == 0,
    {
        Collecting { source: KernelLogSource::DevKmsg, notes: Vec::new() }
    }

    /// What a log read from this source has to say about how it was read.
    pub open spec fn remark(self) -> Option<Seq<char>> {
        match self.source {
            KernelLogSource::DevKmsg | KernelLogSource::Unavailable => None,
            KernelLogSource::Journalctl => Some(
                filled(VIA_JOURNAL@, seq![joined(texts(self.notes@), ", "@)]),
            ),
            KernelLogSource::Dmesg => Some(
                filled(VIA_DMESG@, seq![joined(texts(self.notes@), ", "@)]),
            ),
        }
    }

    /// The source to try after this one.
    pub open spec fn fallback(self) -> KernelLogSource {
        match self.source {
            KernelLogSource::DevKmsg => KernelLogSource::Journalctl,
            KernelLogSource::Journalctl => KernelLogSource::Dmesg,
            KernelLogSource::Dmesg | KernelLogSource::Unavailable => KernelLogSource::Unavailable,
        }
    }

    pub open spec fn complaint(self, error: Seq<char>) -> Seq<char> {
        match self.source {
            KernelLogSource::DevKmsg => filled(KMSG_FAILED@, seq![error]),
            KernelLogSource::Journalctl => filled(JOURNAL_FAILED@, seq![error]),
            KernelLogSource::Dmesg | KernelLogSource::Unavailable => filled(
                DMESG_FAILED@,
                seq![error],
            ),
        }
    }

    fn remark_text(&self) -> (r: Option<String>)
        ensures
            opt_text(r) == self.remark(),
    {
        match self.source {
            KernelLogSource::DevKmsg => None,
            KernelLogSource::Unavailable => None,
            KernelLogSource::Journalctl => {
                let list = join(&self.notes, ", ");
                Some(fill1(VIA_JOURNAL, list.as_str()))
            },
            KernelLogSource::Dmesg => {
                let list = join(&self.notes, ", ");
                Some(fill1(VIA_DMESG, list.as_str()))
            },
        }
    }

    fn complaint_text(&self, error: &str) -> (r: String)
        ensures
            r@ == self.complaint(error@),
    {
        match self.source {
            KernelLogSource::DevKmsg => fill1(KMSG_FAILED, error),
            KernelLogSource::Journalctl => fill1(JOURNAL_FAILED, error),
            KernelLogSource::Dmesg => fill1(DMESG_FAILED, error),
            KernelLogSource::Unavailable => fill1(DMESG_FAILED, error),
        }
    }

    /// Takes in what the source gave. Lines make a log; an error sends the
    /// caller to the next source, and after the last there is none.
    pub fn answer(self, opts: Options, given: Result<Vec<Line>, String>) -> (r: Progress)
        ensures
            match given {
                Ok(lines) => r matches Progress::Done(log) && log.source == self.source
                    && opt_text(log.note) == self.remark() && events(log.events@) == log_events(
                    entries(lines@),
                    opts,
                ),
                Err(e) => ({
                    let notes = texts(self.notes@).push(self.complaint(e@));
                    if self.fallback() == KernelLogSource::Unavailable {
                        r matches Progress::Done(log) && log.source == KernelLogSource::Unavailable
                            && opt_text(log.note) == Some(
                            filled(NO_SOURCE@, seq![joined(notes, "; "@)]),
                        ) && log.events@.len() == 0
                    } else {
                        r matches Progress::Next(c) && c.source == self.fallback() && texts(
                            c.notes@,
                        ) == notes
                    }
                }),
            },
    {
        match given {
            Ok(lines) => {
                let note = self.remark_text();
                Progress::Done(build(self.source, lines, opts, note))
            },
            Err(e) => {
                let line = self.complaint_text(e.as_str());
                let mut notes = self.notes;
                push_text(&mut notes, line);
                match self.source {
                    KernelLogSource::DevKmsg => Progress::Next(
                        Collecting { source: KernelLogSource::Journalctl, notes },
                    ),
                    KernelLogSource::Journalctl => Progress::Next(
                        Collecting { source: KernelLogSource::Dmesg, notes },
                    ),
                    _ => {
                        let list = join(&notes, "; ");
                        Progress::Done(KernelLog::unavailable(fill1(NO_SOURCE, list.as_str())))
                    },
                }
            },
        }
    }
}

// ---------------------------------------------------------------------------
// laws
// ---------------------------------------------------------------------------

/// Where the kernel itself blames the cable, nothing else in the line changes
/// that.
pub proof fn cable_blame_wins(text: Seq<char>)
    requires
        holds_text(lowered(text), "maybe the usb cable is bad"@),
    ensures
        kind_of(lowered(text)) == EventKind::CableSuspect,
        weight_of(kind_of(lowered(text))) == Severity::High,
{
}

/// A failed enumeration is never taken for the resets it also logs.
pub proof fn an_enumeration_failure_is_no_reset(text: Seq<char>)
    requires
        says_enumeration_failed(lowered(text)),
    ensures
        kind_of(lowered(text)) != EventKind::DeviceReset,
{
}

/// A limit keeps the newest events and no more than it allows.
pub proof fn a_limit_keeps_the_newest(s: Seq<Event>, limit: nat)
    requires
        limit > 0,
    ensures
        newest_of(s, limit).len() <= limit,
        newest_of(s, limit).len() == s.len() || newest_of(s, limit).len() == limit,
        s.len() > 0 ==> newest_of(s, limit).len() > 0 && newest_of(s, limit).last() == s.last(),
        newest_of(s, limit).is_suffix_of(s),
{
    assert(s.skip(s.len() - newest_of(s, limit).len()) =~= newest_of(s, limit));
}

/// Every event is about USB, and carries the severity of its kind.
pub proof fn only_usb_lines_become_events(l: Entry, unclassified: bool)
    ensures
        event_of(unclassified)(l).len() > 0 ==> concerns_usb(l.text) && event_of(
            unclassified,
        )(l)[0].severity == weight_of(event_of(unclassified)(l)[0].kind),
        !unclassified && event_of(unclassified)(l).len() > 0 ==> event_of(unclassified)(l)[0].kind
            != EventKind::Other,
        event_of(unclassified)(l).len() <= 1,
{
}

/// After the last source there is no other, and no source comes round again.
pub proof fn the_sources_run_out(c: Collecting)
    ensures
        source_rank(c.fallback()) > source_rank(c.source) || c.source
            == KernelLogSource::Unavailable,
{
}

/// The order in which sources are tried.
pub open spec fn source_rank(s: KernelLogSource) -> int {
    match s {
        KernelLogSource::DevKmsg => 0,
        KernelLogSource::Journalctl => 1,
        KernelLogSource::Dmesg => 2,
        KernelLogSource::Unavailable => 3,
    }
}

/// A line with a known phrase is of the phrase's kind, or of one that takes
/// precedence over it.
pub proof fn a_phrase_decides_the_kind(text: Seq<char>)
    ensures
        ({
            let l = lowered(text);
            let k = kind_of(l);
            &&& holds_text(l, "maybe the usb cable is bad"@) ==> k == EventKind::CableSuspect
            &&& holds_text(l, "device descriptor read"@) ==> k == EventKind::CableSuspect || k
                == EventKind::EnumerationFailure
            &&& holds_text(l, "unable to enumerate usb device"@) ==> k == EventKind::CableSuspect
                || k == EventKind::EnumerationFailure
            &&& holds_text(l, "device not accepting address"@) ==> k == EventKind::CableSuspect || k
                == EventKind::EnumerationFailure
            &&& holds_text(l, "device not responding to setup address"@) ==> k
                == EventKind::CableSuspect || k == EventKind::EnumerationFailure
            &&& holds_text(l, "no response for device descriptor"@) ==> k == EventKind::CableSuspect
                || k == EventKind::EnumerationFailure
            &&& holds_text(l, "can't read configurations"@) ==> k == EventKind::CableSuspect || k
                == EventKind::EnumerationFailure
            &&& holds_text(l, "over-current"@) ==> k == EventKind::CableSuspect || k
                == EventKind::EnumerationFailure || k == EventKind::OverCurrent
            &&& holds_text(l, "overcurrent"@) ==> k == EventKind::CableSuspect || k
                == EventKind::EnumerationFailure || k == EventKind::OverCurrent
            &&& holds_text(l, "insufficient available bus power"@) ==> k == EventKind::CableSuspect
                || k == EventKind::EnumerationFailure || k == EventKind::OverCurrent || k
                == EventKind::InsufficientPower
            &&& holds_text(l, "not enough power"@) ==> k == EventKind::CableSuspect || k
                == EventKind::EnumerationFailure || k == EventKind::OverCurrent || k
                == EventKind::InsufficientPower
            &&& holds_text(l, "no bandwidth for new device"@) ==> k == EventKind::CableSuspect || k
                == EventKind::EnumerationFailure || k == EventKind::OverCurrent || k
                == EventKind::InsufficientPower || k == EventKind::InsufficientBandwidth
            &&& holds_text(l, "not enough bandwidth"@) ==> k == EventKind::CableSuspect || k
                == EventKind::EnumerationFailure || k == EventKind::OverCurrent || k
                == EventKind::InsufficientPower || k == EventKind::InsufficientBandwidth
            &&& holds_text(l, "host controller not responding"@) ==> k == EventKind::CableSuspect
                || k == EventKind::EnumerationFailure || k == EventKind::OverCurrent || k
                == EventKind::InsufficientPower || k == EventKind::InsufficientBandwidth || k
                == EventKind::HostControllerFailure
            &&& holds_text(l, "hc died"@) ==> k == EventKind::CableSuspect || k
                == EventKind::EnumerationFailure || k == EventKind::OverCurrent || k
                == EventKind::InsufficientPower || k == EventKind::InsufficientBandwidth || k
                == EventKind::HostControllerFailure
            &&& holds_text(l, "host not responding"@) ==> k == EventKind::CableSuspect || k
                == EventKind::EnumerationFailure || k == EventKind::OverCurrent || k
                == EventKind::InsufficientPower || k == EventKind::InsufficientBandwidth || k
                == EventKind::HostControllerFailure
            &&& holds_text(l, "host system error"@) ==> k == EventKind::CableSuspect || k
                == EventKind::EnumerationFailure || k == EventKind::OverCurrent || k
                == EventKind::InsufficientPower || k == EventKind::InsufficientBandwidth || k
                == EventKind::HostControllerFailure
            &&& holds_text(l, "assume dead"@) ==> k == EventKind::CableSuspect || k
                == EventKind::EnumerationFailure || k == EventKind::OverCurrent || k
                == EventKind::InsufficientPower || k == EventKind::InsufficientBandwidth || k
                == EventKind::HostControllerFailure
            &&& holds_text(l, "connect-debounce failed"@) ==> k == EventKind::CableSuspect || k
                == EventKind::EnumerationFailure || k == EventKind::OverCurrent || k
                == EventKind::InsufficientPower || k == EventKind::InsufficientBandwidth || k
                == EventKind::HostControllerFailure || k == EventKind::LinkTrainingFailure
            &&& holds_text(l, "cannot enable"@) ==> k == EventKind::CableSuspect || k
                == EventKind::EnumerationFailure || k == EventKind::OverCurrent || k
                == EventKind::InsufficientPower || k == EventKind::InsufficientBandwidth || k
                == EventKind::HostControllerFailure || k == EventKind::LinkTrainingFailure
            &&& holds_text(l, "link is stuck"@) ==> k == EventKind::CableSuspect || k
                == EventKind::EnumerationFailure || k == EventKind::OverCurrent || k
                == EventKind::InsufficientPower || k == EventKind::InsufficientBandwidth || k
                == EventKind::HostControllerFailure || k == EventKind::LinkTrainingFailure
            &&& holds_text(l, "warm reset"@) ==> k == EventKind::CableSuspect || k
                == EventKind::EnumerationFailure || k == EventKind::OverCurrent || k
                == EventKind::InsufficientPower || k == EventKind::InsufficientBandwidth || k
                == EventKind::HostControllerFailure || k == EventKind::LinkTrainingFailure
            &&& holds_text(l, "reset"@) && holds_text(l, "usb device"@) ==> k
                == EventKind::CableSuspect || k == EventKind::EnumerationFailure || k
                == EventKind::OverCurrent || k == EventKind::InsufficientPower || k
                == EventKind::InsufficientBandwidth || k == EventKind::HostControllerFailure || k
                == EventKind::LinkTrainingFailure || k == EventKind::DeviceReset
            &&& holds_text(l, "new "@) && holds_text(l, "usb device number"@) ==> k
                == EventKind::CableSuspect || k == EventKind::EnumerationFailure || k
                == EventKind::OverCurrent || k == EventKind::InsufficientPower || k
                == EventKind::InsufficientBandwidth || k == EventKind::HostControllerFailure || k
                == EventKind::LinkTrainingFailure || k == EventKind::DeviceReset || k
                == EventKind::DeviceEnumerating
            &&& holds_text(l, "usb disconnect"@) ==> k == EventKind::CableSuspect || k
                == EventKind::EnumerationFailure || k == EventKind::OverCurrent || k
                == EventKind::InsufficientPower || k == EventKind::InsufficientBandwidth || k
                == EventKind::HostControllerFailure || k == EventKind::LinkTrainingFailure || k
                == EventKind::DeviceReset || k == EventKind::DeviceEnumerating || k
                == EventKind::Disconnect
            &&& begins_with(l, "typec"@) ==> k != EventKind::Other
            &&& begins_with(l, "ucsi"@) ==> k != EventKind::Other
            &&& begins_with(l, "tcpm"@) ==> k != EventKind::Other
        }),
{
}

/// A line is of a kind only for one of the kind's own phrases.
pub proof fn a_kind_needs_its_phrase(text: Seq<char>)
    ensures
        ({
            let l = lowered(text);
            let k = kind_of(l);
            &&& k == EventKind::CableSuspect ==> holds_text(l, "maybe the usb cable is bad"@)
            &&& k == EventKind::EnumerationFailure ==> holds_text(l, "device descriptor read"@)
                || holds_text(l, "unable to enumerate usb device"@)
                || holds_text(l, "device not accepting address"@)
                || holds_text(l, "device not responding to setup address"@)
                || holds_text(l, "no response for device descriptor"@)
                || holds_text(l, "can't read configurations"@)
            &&& k == EventKind::OverCurrent ==> holds_text(l, "over-current"@)
                || holds_text(l, "overcurrent"@)
            &&& k == EventKind::InsufficientPower
                ==> holds_text(l, "insufficient available bus power"@)
                || holds_text(l, "not enough power"@)
            &&& k == EventKind::InsufficientBandwidth
                ==> holds_text(l, "no bandwidth for new device"@)
                || holds_text(l, "not enough bandwidth"@)
            &&& k == EventKind::HostControllerFailure
                ==> holds_text(l, "host controller not responding"@) || holds_text(l, "hc died"@)
                || holds_text(l, "host not responding"@) || holds_text(l, "host system error"@)
                || holds_text(l, "assume dead"@)
            &&& k == EventKind::LinkTrainingFailure ==> holds_text(l, "connect-debounce failed"@)
                || holds_text(l, "cannot enable"@) || holds_text(l, "link is stuck"@)
                || holds_text(l, "warm reset"@)
            &&& k == EventKind::DeviceReset ==> holds_text(l, "reset"@)
                && holds_text(l, "usb device"@)
            &&& k == EventKind::DeviceEnumerating ==> holds_text(l, "new "@)
                && holds_text(l, "usb device number"@)
            &&& k == EventKind::Disconnect ==> holds_text(l, "usb disconnect"@)
            &&& k == EventKind::TypecEvent ==> begins_with(l, "typec"@) || begins_with(l, "ucsi"@)
                || begins_with(l, "tcpm"@)
        }),
{
}

/// A line that tells of a failed enumeration is one, unless the kernel blames
/// the cable in it.
pub proof fn a_failed_enumeration_is_one(text: Seq<char>)
    requires
        holds_text(lowered(text), "device descriptor read"@)
            || holds_text(lowered(text), "unable to enumerate usb device"@)
            || holds_text(lowered(text), "device not accepting address"@)
            || holds_text(lowered(text), "device not responding to setup address"@)
            || holds_text(lowered(text), "no response for device descriptor"@)
            || holds_text(lowered(text), "can't read configurations"@),
        !holds_text(lowered(text), "maybe the usb cable is bad"@),
    ensures
        kind_of(lowered(text)) == EventKind::EnumerationFailure,
{
    a_phrase_decides_the_kind(text);
    a_kind_needs_its_phrase(text);
}

/// A line makes an event where it is about USB and of a known kind, or of any
/// kind where all are wanted. The event keeps the line's text and times, and
/// weighs what its kind does.
pub proof fn a_usb_line_makes_one_event(l: Entry, unclassified: bool)
    ensures
        ({
            let low = lowered(l.text);
            let usb = begins_with(low, "usb "@) || begins_with(low, "usb-storage"@)
                || begins_with(low, "hub "@) || begins_with(low, "xhci"@)
                || begins_with(low, "ehci"@) || begins_with(low, "uas "@)
                || begins_with(low, "typec"@) || begins_with(low, "ucsi"@)
                || begins_with(low, "tcpm"@) || holds_text(low, "usb cable"@)
                || holds_text(low, "usb device"@);
            let e = event_of(unclassified)(l);
            &&& e.len() == 1 <==> usb && (unclassified || kind_of(low) != EventKind::Other)
            &&& e.len() != 1 ==> e.len() == 0
            &&& e.len() == 1 ==> {
                &&& e[0].kind == kind_of(low)
                &&& e[0].text == l.text
                &&& e[0].timestamp == l.timestamp
                &&& e[0].monotonic == l.monotonic
                &&& e[0].errno == errno_in(l.text)
                &&& e[0].device == device_in(about_part(l.text))
                &&& e[0].port == port_in(about_part(l.text))
                &&& e[0].severity == Severity::High <==> (e[0].kind == EventKind::CableSuspect
                    || e[0].kind == EventKind::EnumerationFailure || e[0].kind
                    == EventKind::OverCurrent || e[0].kind == EventKind::HostControllerFailure)
                &&& e[0].severity == Severity::Medium <==> (e[0].kind
                    == EventKind::LinkTrainingFailure || e[0].kind == EventKind::InsufficientPower
                    || e[0].kind == EventKind::InsufficientBandwidth)
                &&& e[0].severity == Severity::Low <==> e[0].kind == EventKind::DeviceReset
                &&& e[0].severity == Severity::Info <==> (e[0].kind == EventKind::Disconnect
                    || e[0].kind == EventKind::TypecEvent || e[0].kind
                    == EventKind::DeviceEnumerating || e[0].kind == EventKind::Other)
            }
        }),
{
}

/// No event is lost or moved but by the limit: a log of two parts has the events
/// of the first and after them those of the second.
pub proof fn a_log_is_read_in_order(a: Seq<Entry>, b: Seq<Entry>, unclassified: bool)
    ensures
        ({
            let o = Options { include_unclassified: unclassified, limit: 0 };
            log_events(a + b, o) == log_events(a, o) + log_events(b, o)
        }),
    decreases b.len(),
{
    let o = Options { include_unclassified: unclassified, limit: 0 };
    if b.len() == 0 {
        assert(a + b =~= a);
        assert(log_events(b, o) =~= Seq::<Event>::empty());
        assert(log_events(a, o) + log_events(b, o) =~= log_events(a, o));
    } else {
        a_log_is_read_in_order(a, b.drop_last(), unclassified);
        assert((a + b).drop_last() =~= a + b.drop_last());
        assert(log_events(a + b, o) =~= log_events(a, o) + log_events(b, o));
    }
}

/// A device is named by its bus and route; an interface or a port behind it
/// changes nothing, and the root hub's own interface is named as its bus.
pub proof fn a_device_is_named_by_its_route(w: Seq<char>, bus: Seq<char>, path: Seq<char>)
    requires
        w == bus + "-"@ + path,
        bus.len() > 0,
        all_digits(bus),
        path.len() > 0,
        forall|i: int| 0 <= i < path.len() ==> is_digit(#[trigger] path[i]) || path[i] == '.',
    ensures
        device_named(w) == (if path == "0"@ {
            Some("usb"@ + bus)
        } else {
            Some(w)
        }),
        bare_token(w) == w,
{
    reveal_strlit("-");
    reveal_strlit("usb");
    reveal_strlit("-port");
    assert(is_digit(bus[0]));
    assert(w[0] == bus[0]);
    assert(!begins_with(w, "usb"@)) by {
        if begins_with(w, "usb"@) {
            assert("usb"@[0] == 'u');
            assert(w.take(3)[0] == w[0]);
        }
    }
    assert forall|i: int| 0 <= i < w.len() implies #[trigger] w[i] == '-' || is_digit(w[i]) || w[i]
        == '.' by {
        if i < bus.len() {
            assert(is_digit(bus[i]));
        } else if i > bus.len() {
            assert(w[i] == path[i - bus.len() - 1]);
        }
    }
    lemma_dash(bus, path);
    lemma_no_colon(w);
    assert(w.take(w.len() as int) =~= w);
    if let Some(i) = found_at(w, "-port"@) {
        lemma_found_at(w, "-port"@);
        assert(occurs_at(w, "-port"@, i));
        assert(w.subrange(i, i + 5)[1] == w[i + 1]);
        assert("-port"@[1] == 'p');
        assert(w[i + 1] == 'p');
    }
}

proof fn lemma_dash(bus: Seq<char>, path: Seq<char>)
    requires
        all_digits(bus),
    ensures
        cut_first(bus + "-"@ + path, '-') == Some((bus, path)),
{
    reveal_strlit("-");
    let w = bus + "-"@ + path;
    lemma_first_char(w, '-', bus.len() as int);
    assert(w.take(bus.len() as int) =~= bus);
    assert(w.skip(bus.len() as int + 1) =~= path);
}

proof fn lemma_no_colon(w: Seq<char>)
    requires
        forall|i: int| 0 <= i < w.len() ==> #[trigger] w[i] != ':',
    ensures
        first_char(w, ':') == w.len(),
{
    lemma_first_char(w, ':', w.len() as int);
}

proof fn lemma_found_at(s: Seq<char>, p: Seq<char>)
    ensures
        found_at(s, p) matches Some(i) ==> first_occurs(s, p, i),
{
    if holds_text(s, p) {
        let i = choose|i: int| occurs_at(s, p, i);
        lemma_first_occurs(s, p, i);
    }
}

proof fn lemma_first_occurs(s: Seq<char>, p: Seq<char>, i: int)
    requires
        occurs_at(s, p, i),
    ensures
        exists|k: int| first_occurs(s, p, k),
    decreases i,
{
    if exists|j: int| 0 <= j < i && occurs_at(s, p, j) {
        let j = choose|j: int| 0 <= j < i && occurs_at(s, p, j);
        lemma_first_occurs(s, p, j);
    } else {
        assert(first_occurs(s, p, i));
    }
}

/// An interface suffix does not change what a token names.
pub proof fn an_interface_is_its_device(t: Seq<char>, rest: Seq<char>)
    requires
        forall|i: int| 0 <= i < t.len() ==> #[trigger] t[i] != ':',
    ensures
        bare_token(t + ":"@ + rest) == bare_token(t),
{
    reveal_strlit(":");
    let w = t + ":"@ + rest;
    assert forall|i: int| 0 <= i < t.len() implies #[trigger] w[i] != ':' by {
        assert(w[i] == t[i]);
    }
    lemma_first_char(w, ':', t.len() as int);
    lemma_first_char(t, ':', t.len() as int);
    assert(w.take(t.len() as int) =~= t);
    assert(t.take(t.len() as int) =~= t);
}

/// A port suffix names the port, and leaves the device or bus before it.
pub proof fn a_port_is_named_whole(prefix: Seq<char>, w: Seq<char>)
    requires
        words(prefix).len() > 0,
        words(prefix).last() == w,
    ensures
        port_in(prefix) == (if holds_text(w, "-port"@) {
            Some(w)
        } else {
            None
        }),
        device_in(prefix) == device_named(bare_token(w)),
        !holds_text(bare_token(w), "-port"@),
        bare_token(w).is_prefix_of(w),
{
    let t = w.take(first_char(w, ':'));
    crate::text::lemma_first_char_bound(w, ':');
    lemma_found_at(t, "-port"@);
    assert(t =~= w.subrange(0, t.len() as int));
    if let Some(i) = found_at(t, "-port"@) {
        let b = t.take(i);
        reveal_strlit("-port");
        assert(b =~= w.subrange(0, b.len() as int));
        if holds_text(b, "-port"@) {
            let k = choose|k: int| occurs_at(b, "-port"@, k);
            assert(t.subrange(k, k + 5) =~= b.subrange(k, k + 5));
            assert(occurs_at(t, "-port"@, k));
        }
    }
}

/// The digits after the first `error -` are the errno, negated.
pub proof fn an_errno_is_read_back(before: Seq<char>, digits: Seq<char>, after: Seq<char>)
    requires
        cut_text(before + "error -"@ + digits + after, "error -"@)
            == Some((before, digits + after)),
        digits.len() > 0,
        all_digits(digits),
        after.len() > 0 ==> !is_digit(after[0]),
    ensures
        errno_in(before + "error -"@ + digits + after) == (if digits_value(digits) <= i32::MAX {
            Some((0 - digits_value(digits)) as i32)
        } else {
            None
        }),
{
    let rest = digits + after;
    assert forall|k: int| 0 <= k < digits.len() implies is_digit(#[trigger] rest[k]) by {
        assert(is_digit(digits[k]));
    }
    lemma_digit_run(rest, digits.len() as int);
    assert(rest.take(digits.len() as int) =~= digits);
}

} // verus!
