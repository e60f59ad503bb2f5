//! Rules about alternate modes and the links that carry them.

use vstd::prelude::*;
use crate::diag::port::SVID_DISPLAYPORT;
use crate::diag::{
    finding, lines2, note, nothing, one, or_text, some_text, stated, stated_opt, text_or,
};
use crate::model::{
    About, AltMode, Confidence, DisplayConnector, Finding, Partner, Retimer, Severity, Snapshot,
    Statement, Subject, ThunderboltRouter, ThunderboltTopology, TypecPort, UsbDevice,
};
use crate::number::{dec, hex4, hex_fixed, number};
use crate::seqs::{
    first_of, gathered, kept, lemma_take_all, lemma_take_more, no_refs, pointees, push_ref,
};
use crate::snapshot::lemma_first_stays;
use crate::text::{
    fill1, fill2, fill3, fill4, filled, join, joined, no_texts, owned, push_text, texts,
};

verus! {

/// The USB Billboard class: a device's own report that a mode was not entered.
pub const CLASS_BILLBOARD: u8 = 0x11;

pub const NO_OUTPUT_TITLE: &'static str =
    "{} entered DisplayPort Alt Mode but no DisplayPort output is live";

pub const SOME_DEVICE: &'static str = "The attached device";

pub const NO_OUTPUT_DETAIL: &'static str =
    "The attached device negotiated DisplayPort Alternate Mode, so both ends agreed to \
        carry video. The graphics driver still sees nothing on any of its {} DisplayPort \
        outputs. The usual cause is the cable: DisplayPort needs the high-speed pairs, and a \
        charge-only or USB 2.0-era USB-C cable has none of them, while still carrying power \
        and enough USB data to look fine.";

pub const SVID_LINE: &'static str = "{} reports SVID ff01 (DisplayPort) active";

pub const CONNECTORS_LINE: &'static str = "DisplayPort connectors, all disconnected: {}";

pub const NO_OUTPUT_ADVICE: &'static str =
    "Try a cable rated for USB 3.2 or Thunderbolt. If the display is behind a hub or dock, \
        connect it directly to tell the cable and the dock apart.";

pub const BILLBOARD_LINE: &'static str = "{} exposes interface class 0x11 (billboard)";

pub const IDENTITY_LINE: &'static str = "{}:{} at {}";

pub const WORKING_LINE: &'static str =
    "a DisplayPort output is connected and being driven, so DisplayPort Alt Mode is working \
        despite this report";

pub const NO_DISPLAY_LINE: &'static str =
    "no external display is connected on any output, so there may simply be nothing for it \
        to drive";

pub const DISPLAY_LINE: &'static str =
    "an external display is connected, so something was available to drive";

pub const BILLBOARD_TITLE: &'static str = "{} reports an Alternate Mode it could not enter";

pub const WORKING_DETAIL: &'static str =
    "A USB Billboard device is meant to announce that an Alternate Mode was not entered — \
        but a DisplayPort output on this machine is connected and being driven, so the mode \
        plainly did work. Some adapters expose the Billboard interface permanently instead of \
        only on failure, and this appears to be one of them. Nothing here is wrong; it is \
        reported only so the interface is not mistaken for a fault later.";

pub const IDLE_DETAIL: &'static str =
    "A USB Billboard device exists to announce that an Alternate Mode — DisplayPort, \
        Thunderbolt, or a vendor mode — was not entered. Nothing is connected to any display \
        output on this machine, so the most likely explanation is the ordinary one: a video \
        adapter with an empty socket has nothing to drive and does not enter the mode. It \
        reports the same way whether it declined for that reason or tried and failed, so this \
        is worth re-reading once a display is attached.";

pub const FAILED_DETAIL: &'static str =
    "A USB Billboard device exists only to announce a failure: the attached USB-C device \
        requested an Alternate Mode — DisplayPort, Thunderbolt, or a vendor mode — and the \
        negotiation did not succeed, so it fell back to presenting this instead. Common causes \
        are a cable without the required wiring, a port that does not support the mode, or a \
        link that could not train. The specific modes it wanted live in a Billboard capability \
        descriptor, which sysfs does not expose.";

pub const IDLE_ADVICE: &'static str =
    "Nothing to do unless you expected a picture. Attach a display and look again: if this \
        is still reported with one connected, the mode genuinely failed.";

pub const FAILED_ADVICE: &'static str =
    "If you expected video or a docking mode from this device, the cable is the usual cause \
        — it must carry the SuperSpeed pairs, not just power and USB 2.0.";

pub const RETIMER_LINE: &'static str = "{}: vendor {} device {} firmware {}";

pub const RETIMERS_ARE: &'static str =
    "retimers are the signal-conditioning silicon inside an active cable";

pub const ACTIVE_TITLE: &'static str = "Active cable detected — {} retimer(s), firmware {}";

pub const ACTIVE_DETAIL: &'static str =
    "The kernel enumerated retimers on this link. Retimers only exist inside active cables, \
        which are required to be e-marked, so this is genuine cable identity read from the \
        cable's own silicon rather than inferred. This path is independent of PD SOP', so it \
        works even where platform firmware never reports a cable e-marker.";

pub const LANE_TITLE: &'static str = "{} is a generation {} router but linked with one lane";

pub const LANE_DETAIL: &'static str =
    "A generation 4 router supports 40 Gbps over two lanes. Running on one lane halves the \
        available bandwidth, and the usual cause is a cable that is not rated for the full \
        link — Thunderbolt 4 and USB4 40 Gbps need a certified cable, and passive ones are \
        only rated to 0.8 m.";

pub const LANES_LINE: &'static str = "tx_lanes={} rx_lanes={}";

pub const SPEEDS_LINE: &'static str = "rx {} / tx {}";

pub const LANE_ADVICE: &'static str =
    "Use a certified Thunderbolt 4 or USB4 40 Gbps cable, keeping passive cables under 0.8 \
        m.";

// ---------------------------------------------------------------------------
// displays
// ---------------------------------------------------------------------------

pub open spec fn outward_dp() -> spec_fn(DisplayConnector) -> bool {
    |d: DisplayConnector| d.displayport() && !d.internal()
}

/// The DisplayPort outputs that something could be plugged into.
pub open spec fn dp_outputs(snap: Snapshot) -> Seq<DisplayConnector> {
    kept(snap.displays@, outward_dp())
}

pub open spec fn is_live() -> spec_fn(DisplayConnector) -> bool {
    |d: DisplayConnector| d.connected()
}

pub open spec fn connector_names(s: Seq<DisplayConnector>) -> Seq<Seq<char>> {
    Seq::new(s.len(), |i: int| s[i].connector@)
}

/// DisplayPort as a mode in use. A mode that a port merely claims is no evidence:
/// some claim it with only a charger attached.
pub open spec fn dp_active() -> spec_fn(AltMode) -> bool {
    |m: AltMode| m.svid == Some(SVID_DISPLAYPORT) && m.active == Some(true)
}

pub open spec fn no_output(outputs: Seq<DisplayConnector>) -> spec_fn(TypecPort) -> Seq<Statement> {
    |port: TypecPort|
        match port.partner {
            Some(p) => if first_of(p.alt_modes@, dp_active()) is Some {
                seq![no_output_statement(port, p, outputs)]
            } else {
                Seq::empty()
            },
            None => Seq::empty(),
        }
}

pub open spec fn no_output_statement(
    port: TypecPort,
    p: Partner,
    outputs: Seq<DisplayConnector>,
) -> Statement {
    Statement {
        code: "DP_ALT_MODE_NO_OUTPUT"@,
        severity: Severity::Medium,
        confidence: Confidence::Inferred,
        subject: About::Port(port.name@),
        title: filled(NO_OUTPUT_TITLE@, seq![text_or(p.kind, SOME_DEVICE@)]),
        detail: filled(NO_OUTPUT_DETAIL@, seq![dec(outputs.len())]),
        evidence: seq![
            filled(SVID_LINE@, seq![p.sysfs_name@]),
            filled(CONNECTORS_LINE@, seq![joined(connector_names(outputs), ", "@)]),
        ],
        suggestion: Some(NO_OUTPUT_ADVICE@),
    }
}

/// DisplayPort negotiated, yet the graphics driver sees no DisplayPort output.
/// The machine must have such an output, and none of them may be live.
pub open spec fn display_statements(snap: Snapshot) -> Seq<Statement> {
    let outputs = dp_outputs(snap);
    if outputs.len() == 0 || first_of(outputs, is_live()) is Some {
        Seq::empty()
    } else {
        gathered(snap.ports@, no_output(outputs))
    }
}

fn find_outputs(snap: &Snapshot) -> (r: Vec<&DisplayConnector>)
    ensures
        pointees(r@) == dp_outputs(*snap),
{
    let mut out: Vec<&DisplayConnector> = no_refs();
    let mut i: usize = 0;
    while i < snap.displays.len()
        invariant
            i <= snap.displays.len(),
            pointees(out@) == kept(snap.displays@.take(i as int), outward_dp()),
        decreases snap.displays.len() - i,
    {
        proof {
            lemma_take_more(snap.displays@, i as int);
        }
        let d = &snap.displays[i];
        if d.is_displayport() && !d.is_internal() {
            push_ref(&mut out, d);
        }
        i += 1;
    }
    proof {
        lemma_take_all(snap.displays@);
    }
    out
}

fn any_live(v: &Vec<&DisplayConnector>) -> (r: bool)
    ensures
        r == (first_of(pointees(v@), is_live()) is Some),
{
    let ghost all = pointees(v@);
    let mut i: usize = 0;
    while i < v.len()
        invariant
            i <= v.len(),
            all == pointees(v@),
            first_of(all.take(i as int), is_live()) is None,
        decreases v.len() - i,
    {
        proof {
            lemma_take_more(all, i as int);
        }
        if v[i].is_connected() {
            proof {
                lemma_first_stays(all, i + 1, is_live());
            }
            return true;
        }
        i += 1;
    }
    proof {
        lemma_take_all(all);
    }
    false
}

fn has_dp_active(v: &Vec<AltMode>) -> (r: bool)
    ensures
        r == (first_of(v@, dp_active()) is Some),
{
    let mut i: usize = 0;
    while i < v.len()
        invariant
            i <= v.len(),
            first_of(v@.take(i as int), dp_active()) is None,
        decreases v.len() - i,
    {
        proof {
            lemma_take_more(v@, i as int);
        }
        let dp = match v[i].svid {
            Some(s) => s == SVID_DISPLAYPORT,
            None => false,
        };
        let on = match v[i].active {
            Some(a) => a,
            None => false,
        };
        if dp && on {
            proof {
                lemma_first_stays(v@, i + 1, dp_active());
            }
            return true;
        }
        i += 1;
    }
    proof {
        lemma_take_all(v@);
    }
    false
}

fn list_connectors(v: &Vec<&DisplayConnector>) -> (r: Vec<String>)
    ensures
        texts(r@) == connector_names(pointees(v@)),
{
    let ghost names = connector_names(pointees(v@));
    let mut out = no_texts();
    let mut i: usize = 0;
    assert(texts(out@) =~= names.take(0));
    while i < v.len()
        invariant
            i <= v.len(),
            names == connector_names(pointees(v@)),
            texts(out@) == names.take(i as int),
        decreases v.len() - i,
    {
        push_text(&mut out, v[i].connector.clone());
        assert(names.take(i + 1) =~= names.take(i as int).push(names[i as int]));
        i += 1;
    }
    assert(names.take(i as int) =~= names);
    out
}

fn find_no_output(port: &TypecPort, outputs: &Vec<&DisplayConnector>) -> (r: Option<Finding>)
    ensures
        one(stated_opt(r)) == no_output(pointees(outputs@))(*port),
{
    let p = match &port.partner {
        Some(p) => p,
        None => {
            return None;
        },
    };
    if !has_dp_active(&p.alt_modes) {
        return None;
    }
    let n = number(outputs.len() as u64);
    let names = list_connectors(outputs);
    let list = join(&names, ", ");
    assert(pointees(outputs@).len() == outputs@.len());
    Some(
        finding(
            "DP_ALT_MODE_NO_OUTPUT",
            Severity::Medium,
            Confidence::Inferred,
            Subject::Port(port.name.clone()),
            fill1(NO_OUTPUT_TITLE, or_text(&p.kind, SOME_DEVICE)),
            fill1(NO_OUTPUT_DETAIL, n.as_str()),
            lines2(
                fill1(SVID_LINE, p.sysfs_name.as_str()),
                fill1(CONNECTORS_LINE, list.as_str()),
            ),
            some_text(NO_OUTPUT_ADVICE),
        ),
    )
}

pub fn display_rules(snap: &Snapshot) -> (r: Vec<Finding>)
    ensures
        stated(r@) == display_statements(*snap),
{
    let mut out = nothing();
    let outputs = find_outputs(snap);
    assert(pointees(outputs@).len() == outputs@.len());
    if outputs.len() == 0 || any_live(&outputs) {
        return out;
    }
    let ghost f = no_output(pointees(outputs@));
    let mut i: usize = 0;
    while i < snap.ports.len()
        invariant
            i <= snap.ports.len(),
            f == no_output(pointees(outputs@)),
            stated(out@) == gathered(snap.ports@.take(i as int), f),
        decreases snap.ports.len() - i,
    {
        proof {
            lemma_take_more(snap.ports@, i as int);
        }
        note(&mut out, find_no_output(&snap.ports[i], &outputs));
        i += 1;
    }
    proof {
        lemma_take_all(snap.ports@);
    }
    out
}

// ---------------------------------------------------------------------------
// billboards
// ---------------------------------------------------------------------------

/// What the graphics driver says about a mode that was reported as failed.
#[derive(Clone, Copy, Debug, PartialEq, Eq, Structural)]
pub enum Picture {
    /// A DisplayPort output is being driven: the mode works, whatever is said.
    Working,
    /// Nothing is connected to any output: there is nothing to drive.
    Idle,
    /// An external display is connected.
    Wanted,
    /// The machine has no readable outputs.
    Unknown,
}

pub open spec fn outside_live() -> spec_fn(DisplayConnector) -> bool {
    |d: DisplayConnector| !d.internal() && d.connected()
}

pub open spec fn dp_lit() -> spec_fn(DisplayConnector) -> bool {
    |d: DisplayConnector| d.displayport() && !d.internal() && d.lit()
}

pub open spec fn picture(s: Seq<DisplayConnector>) -> Picture {
    if first_of(s, dp_lit()) is Some {
        Picture::Working
    } else if first_of(s, outside_live()) is Some {
        Picture::Wanted
    } else if s.len() > 0 {
        Picture::Idle
    } else {
        Picture::Unknown
    }
}

fn has_dp_lit(v: &Vec<DisplayConnector>) -> (r: bool)
    ensures
        r == (first_of(v@, dp_lit()) is Some),
{
    let mut i: usize = 0;
    while i < v.len()
        invariant
            i <= v.len(),
            first_of(v@.take(i as int), dp_lit()) is None,
        decreases v.len() - i,
    {
        proof {
            lemma_take_more(v@, i as int);
        }
        if v[i].is_displayport() && !v[i].is_internal() && v[i].is_lit() {
            proof {
                lemma_first_stays(v@, i + 1, dp_lit());
            }
            return true;
        }
        i += 1;
    }
    proof {
        lemma_take_all(v@);
    }
    false
}

fn has_outside_live(v: &Vec<DisplayConnector>) -> (r: bool)
    ensures
        r == (first_of(v@, outside_live()) is Some),
{
    let mut i: usize = 0;
    while i < v.len()
        invariant
            i <= v.len(),
            first_of(v@.take(i as int), outside_live()) is None,
        decreases v.len() - i,
    {
        proof {
            lemma_take_more(v@, i as int);
        }
        if !v[i].is_internal() && v[i].is_connected() {
            proof {
                lemma_first_stays(v@, i + 1, outside_live());
            }
            return true;
        }
        i += 1;
    }
    proof {
        lemma_take_all(v@);
    }
    false
}

fn find_picture(v: &Vec<DisplayConnector>) -> (r: Picture)
    ensures
        r == picture(v@),
{
    if has_dp_lit(v) {
        Picture::Working
    } else if has_outside_live(v) {
        Picture::Wanted
    } else if v.len() > 0 {
        Picture::Idle
    } else {
        Picture::Unknown
    }
}

pub open spec fn ids_or_empty(d: UsbDevice) -> Seq<char> {
    match d.ids() {
        Some(s) => s,
        None => Seq::empty(),
    }
}

pub open spec fn rate_or_empty(d: UsbDevice) -> Seq<char> {
    match d.speed {
        Some(s) => s.brief(),
        None => Seq::empty(),
    }
}

pub open spec fn billboard_evidence(d: UsbDevice, p: Picture) -> Seq<Seq<char>> {
    let base = seq![
        filled(BILLBOARD_LINE@, seq![d.sysfs_name@]),
        filled(
            IDENTITY_LINE@,
            seq![ids_or_empty(d), text_or(d.usb_version, "?"@), rate_or_empty(d)],
        ),
    ];
    match p {
        Picture::Working => base.push(WORKING_LINE@),
        Picture::Idle => base.push(NO_DISPLAY_LINE@),
        Picture::Wanted => base.push(DISPLAY_LINE@),
        Picture::Unknown => base,
    }
}

pub open spec fn billboard_severity(p: Picture) -> Severity {
    match p {
        Picture::Working => Severity::Info,
        Picture::Idle => Severity::Low,
        Picture::Wanted | Picture::Unknown => Severity::Medium,
    }
}

/// A device that says a mode was not entered. Judged by what the displays show:
/// a video adapter with an empty socket says the same as one that failed, and
/// some say it while they are driving a screen.
pub open spec fn billboard(p: Picture) -> spec_fn(UsbDevice) -> Seq<Statement> {
    |d: UsbDevice|
        if d.has_class(CLASS_BILLBOARD) {
            seq![
                Statement {
                    code: "BILLBOARD_ALT_MODE_FAILED"@,
                    severity: billboard_severity(p),
                    confidence: Confidence::Measured,
                    subject: About::Device(d.sysfs_name@),
                    title: filled(BILLBOARD_TITLE@, seq![d.called()]),
                    detail: match p {
                        Picture::Working => WORKING_DETAIL@,
                        Picture::Idle => IDLE_DETAIL@,
                        Picture::Wanted | Picture::Unknown => FAILED_DETAIL@,
                    },
                    evidence: billboard_evidence(d, p),
                    suggestion: match p {
                        Picture::Working => None,
                        Picture::Idle => Some(IDLE_ADVICE@),
                        Picture::Wanted | Picture::Unknown => Some(FAILED_ADVICE@),
                    },
                },
            ]
        } else {
            Seq::empty()
        }
}

fn state_billboard_evidence(d: &UsbDevice, p: Picture) -> (r: Vec<String>)
    ensures
        texts(r@) == billboard_evidence(*d, p),
{
    let ids = match d.vid_pid() {
        Some(s) => s,
        None => String::new(),
    };
    let rate = match &d.speed {
        Some(s) => s.short(),
        None => String::new(),
    };
    assert(ids@ =~= ids_or_empty(*d));
    assert(rate@ =~= rate_or_empty(*d));
    let mut out = lines2(
        fill1(BILLBOARD_LINE, d.sysfs_name.as_str()),
        fill3(IDENTITY_LINE, ids.as_str(), or_text(&d.usb_version, "?"), rate.as_str()),
    );
    match p {
        Picture::Working => push_text(&mut out, owned(WORKING_LINE)),
        Picture::Idle => push_text(&mut out, owned(NO_DISPLAY_LINE)),
        Picture::Wanted => push_text(&mut out, owned(DISPLAY_LINE)),
        Picture::Unknown => {},
    }
    out
}

fn find_billboard(p: Picture, d: &UsbDevice) -> (r: Option<Finding>)
    ensures
        one(stated_opt(r)) == billboard(p)(*d),
{
    if !d.has_interface_class(CLASS_BILLBOARD) {
        return None;
    }
    let label = d.label();
    let evidence = state_billboard_evidence(d, p);
    let subject = Subject::Device(d.sysfs_name.clone());
    let title = fill1(BILLBOARD_TITLE, label.as_str());
    let (severity, detail, suggestion) = match p {
        Picture::Working => (Severity::Info, WORKING_DETAIL, None),
        Picture::Idle => (Severity::Low, IDLE_DETAIL, some_text(IDLE_ADVICE)),
        Picture::Wanted | Picture::Unknown => (
            Severity::Medium,
            FAILED_DETAIL,
            some_text(FAILED_ADVICE),
        ),
    };
    Some(
        finding(
            "BILLBOARD_ALT_MODE_FAILED",
            severity,
            Confidence::Measured,
            subject,
            title,
            owned(detail),
            evidence,
            suggestion,
        ),
    )
}

pub fn billboard_rules(snap: &Snapshot) -> (r: Vec<Finding>)
    ensures
        stated(r@) == gathered(snap.all(), billboard(picture(snap.displays@))),
{
    let p = find_picture(&snap.displays);
    let devs = snap.devices();
    let ghost all = snap.all();
    let ghost f = billboard(p);
    let mut out = nothing();
    let mut i: usize = 0;
    while i < devs.len()
        invariant
            i <= devs.len(),
            all == pointees(devs@),
            f == billboard(p),
            stated(out@) == gathered(all.take(i as int), f),
        decreases devs.len() - i,
    {
        proof {
            lemma_take_more(all, i as int);
        }
        note(&mut out, find_billboard(p, devs[i]));
        i += 1;
    }
    proof {
        lemma_take_all(all);
    }
    out
}

// ---------------------------------------------------------------------------
// Thunderbolt and USB4
// ---------------------------------------------------------------------------

pub open spec fn id_or_unknown(v: Option<u16>) -> Seq<char> {
    match v {
        Some(n) => hex_fixed(n as nat, 4),
        None => "?"@,
    }
}

fn id_words(v: Option<u16>) -> (r: String)
    ensures
        r@ == id_or_unknown(v),
{
    match v {
        Some(n) => hex4(n),
        None => owned("?"),
    }
}

pub open spec fn retimer_line(r: Retimer) -> Seq<char> {
    filled(
        RETIMER_LINE@,
        seq![
            r.name@,
            id_or_unknown(r.vendor),
            id_or_unknown(r.device),
            text_or(r.nvm_version, "?"@),
        ],
    )
}

pub open spec fn retimer_lines(s: Seq<Retimer>) -> Seq<Seq<char>> {
    Seq::new(s.len(), |i: int| retimer_line(s[i]))
}

/// The first firmware version that any retimer reports.
pub open spec fn firmware(s: Seq<Retimer>) -> Seq<char>
    decreases s.len(),
{
    if s.len() == 0 {
        "unknown"@
    } else {
        match s[0].nvm_version {
            Some(v) => v@,
            None => firmware(s.skip(1)),
        }
    }
}

/// Retimers exist only inside an active cable, so that they are there *is* the
/// identification.
pub open spec fn active_cable(tb: ThunderboltTopology) -> Option<Statement> {
    if tb.active_cable() {
        Some(
            Statement {
                code: "ACTIVE_CABLE_PRESENT"@,
                severity: Severity::Info,
                confidence: Confidence::Measured,
                subject: About::Cable("thunderbolt"@),
                title: filled(
                    ACTIVE_TITLE@,
                    seq![dec(tb.retimers@.len()), firmware(tb.retimers@)],
                ),
                detail: ACTIVE_DETAIL@,
                evidence: retimer_lines(tb.retimers@).push(RETIMERS_ARE@),
                suggestion: None,
            },
        )
    } else {
        None
    }
}

fn state_retimers(v: &Vec<Retimer>) -> (r: Vec<String>)
    ensures
        texts(r@) == retimer_lines(v@),
{
    let ghost lines = retimer_lines(v@);
    let mut out = no_texts();
    let mut i: usize = 0;
    assert(texts(out@) =~= lines.take(0));
    while i < v.len()
        invariant
            i <= v.len(),
            lines == retimer_lines(v@),
            texts(out@) == lines.take(i as int),
        decreases v.len() - i,
    {
        let t = &v[i];
        let a = id_words(t.vendor);
        let b = id_words(t.device);
        let line = fill4(
            RETIMER_LINE,
            t.name.as_str(),
            a.as_str(),
            b.as_str(),
            or_text(&t.nvm_version, "?"),
        );
        assert(line@ == lines[i as int]);
        push_text(&mut out, line);
        assert(lines.take(i + 1) =~= lines.take(i as int).push(lines[i as int]));
        i += 1;
    }
    assert(lines.take(i as int) =~= lines);
    out
}

fn find_firmware<'a>(v: &'a Vec<Retimer>) -> (r: &'a str)
    ensures
        r@ == firmware(v@),
{
    let mut i: usize = 0;
    assert(v@.skip(0) =~= v@);
    while i < v.len()
        invariant
            i <= v.len(),
            firmware(v@) == firmware(v@.skip(i as int)),
        decreases v.len() - i,
    {
        assert(v@.skip(i as int)[0] == v@[i as int]);
        assert(v@.skip(i as int).skip(1) =~= v@.skip(i + 1));
        if let Some(s) = &v[i].nvm_version {
            return s.as_str();
        }
        i += 1;
    }
    "unknown"
}

fn find_active_cable(tb: &ThunderboltTopology) -> (r: Option<Finding>)
    ensures
        stated_opt(r) == active_cable(*tb),
{
    if !tb.has_active_cable() {
        return None;
    }
    let mut evidence = state_retimers(&tb.retimers);
    push_text(&mut evidence, owned(RETIMERS_ARE));
    let n = number(tb.retimers.len() as u64);
    Some(
        finding(
            "ACTIVE_CABLE_PRESENT",
            Severity::Info,
            Confidence::Measured,
            Subject::Cable(owned("thunderbolt")),
            fill2(ACTIVE_TITLE, n.as_str(), find_firmware(&tb.retimers)),
            owned(ACTIVE_DETAIL),
            evidence,
            None,
        ),
    )
}

pub open spec fn count_or_zero(v: Option<u32>) -> Seq<char> {
    match v {
        Some(n) => dec(n as nat),
        None => dec(0),
    }
}

fn count_words(v: Option<u32>) -> (r: String)
    ensures
        r@ == count_or_zero(v),
{
    match v {
        Some(n) => number(n as u64),
        None => number(0),
    }
}

/// A generation 4 router that linked with one lane.
pub open spec fn one_lane() -> spec_fn(ThunderboltRouter) -> Seq<Statement> {
    |r: ThunderboltRouter|
        match r.generation {
            Some(gen) => if gen >= 4 && r.tx_lanes == Some(1u32) {
                seq![
                    Statement {
                        code: "USB4_LINK_BELOW_CAPABILITY"@,
                        severity: Severity::Medium,
                        confidence: Confidence::Inferred,
                        subject: About::Device(r.name@),
                        title: filled(LANE_TITLE@, seq![r.called(), dec(gen as nat)]),
                        detail: LANE_DETAIL@,
                        evidence: seq![
                            filled(
                                LANES_LINE@,
                                seq![count_or_zero(r.tx_lanes), count_or_zero(r.rx_lanes)],
                            ),
                            filled(
                                SPEEDS_LINE@,
                                seq![text_or(r.rx_speed, "?"@), text_or(r.tx_speed, "?"@)],
                            ),
                        ],
                        suggestion: Some(LANE_ADVICE@),
                    },
                ]
            } else {
                Seq::empty()
            },
            None => Seq::empty(),
        }
}

fn find_one_lane(r: &ThunderboltRouter) -> (f: Option<Finding>)
    ensures
        one(stated_opt(f)) == one_lane()(*r),
{
    let gen: u32 = match r.generation {
        Some(g) => g,
        None => {
            return None;
        },
    };
    let short = match r.tx_lanes {
        Some(n) => n == 1,
        None => false,
    };
    if gen < 4 || !short {
        return None;
    }
    let label = r.label();
    let g = number(gen as u64);
    let tx = count_words(r.tx_lanes);
    let rx = count_words(r.rx_lanes);
    Some(
        finding(
            "USB4_LINK_BELOW_CAPABILITY",
            Severity::Medium,
            Confidence::Inferred,
            Subject::Device(r.name.clone()),
            fill2(LANE_TITLE, label.as_str(), g.as_str()),
            owned(LANE_DETAIL),
            lines2(
                fill2(LANES_LINE, tx.as_str(), rx.as_str()),
                fill2(SPEEDS_LINE, or_text(&r.rx_speed, "?"), or_text(&r.tx_speed, "?")),
            ),
            some_text(LANE_ADVICE),
        ),
    )
}

pub open spec fn thunderbolt_statements(tb: ThunderboltTopology) -> Seq<Statement> {
    one(active_cable(tb)) + gathered(
        crate::model::attached_routers(tb.routers@),
        one_lane(),
    )
}

/// USB4 and Thunderbolt, with the one form of cable identity that works where
/// firmware reports no e-marker.
pub fn thunderbolt_rules(snap: &Snapshot) -> (r: Vec<Finding>)
    ensures
        stated(r@) == thunderbolt_statements(snap.thunderbolt),
{
    let tb = &snap.thunderbolt;
    let mut out = nothing();
    note(&mut out, find_active_cable(tb));
    let ghost base = one(active_cable(*tb));
    let routers = tb.attached();
    let ghost all = pointees(routers@);
    let mut i: usize = 0;
    assert(stated(out@) =~= base + gathered(all.take(0), one_lane()));
    while i < routers.len()
        invariant
            i <= routers.len(),
            all == pointees(routers@),
            stated(out@) == base + gathered(all.take(i as int), one_lane()),
        decreases routers.len() - i,
    {
        proof {
            lemma_take_more(all, i as int);
        }
        note(&mut out, find_one_lane(routers[i]));
        assert(stated(out@) =~= base + gathered(all.take(i + 1), one_lane()));
        i += 1;
    }
    proof {
        lemma_take_all(all);
    }
    out
}

// ---------------------------------------------------------------------------
// laws
// ---------------------------------------------------------------------------

/// A live DisplayPort output silences the rule about missing output.
pub proof fn a_live_output_is_never_missing(snap: Snapshot)
    requires
        first_of(dp_outputs(snap), is_live()) is Some,
    ensures
        display_statements(snap).len() == 0,
{
}

/// A machine without a DisplayPort output is never told that none is live.
pub proof fn no_outputs_says_nothing(snap: Snapshot)
    requires
        dp_outputs(snap).len() == 0,
    ensures
        display_statements(snap).len() == 0,
{
}

/// A billboard never contradicts a picture on the screen, and says less where
/// there was nothing to drive.
pub proof fn a_working_picture_is_no_fault(d: UsbDevice)
    ensures
        forall|i: int|
            0 <= i < billboard(Picture::Working)(d).len() ==> (#[trigger] billboard(
                Picture::Working,
            )(d)[i]).severity == Severity::Info,
        billboard_severity(Picture::Idle).weight() < billboard_severity(Picture::Wanted).weight(),
{
}

} // verus!
