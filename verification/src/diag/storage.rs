//! Rules about drives: what they read at, and what their commands came to.

use vstd::prelude::*;
use crate::diag::units::{bytes_human, bytes_per_second, bytes_text, rate_bytes};
use crate::diag::{
    finding, lines1, lines3, note, nothing, one, some_text, stated, stated_opt,
};
use crate::kind::{DeviceKind, Kind, KindSource};
use crate::model::{
    sustained, About, BlockDevice, Confidence, Finding, LinkSpeed, Medium, ScsiDelta, Severity,
    Snapshot, Statement, Subject, ThroughputSample, UsbDevice,
};
use crate::number::{dec, number, seconds, seconds_text, Decimal};
use crate::seqs::{first_of, gathered, lemma_take_all, lemma_take_more, pointees};
use crate::snapshot::{as_holdings, lemma_first_stays, Holding};
use crate::text::{fill1, fill2, fill3, fill4, filled, owned, push_text, same};

verus! {

pub const SPINNING_BECAUSE: &'static str = "a spinning disk should sustain around {}/s";

pub const SUPERSPEED_BECAUSE: &'static str =
    "no storage device negotiates SuperSpeed and then reads slower than a USB 2.0 link \
        would have allowed, whatever it is made of";

pub const SLOW_TITLE: &'static str = "{} reads at {}/s on a link that allows {}/s";

pub const SLOW_DETAIL: &'static str =
    "This is a measured sequential read straight from the device with the page cache \
        bypassed, so it is what the path actually carries rather than what it negotiated. {}. \
        A link that trains at full speed and then delivers a fraction of it is the signature \
        of a physical path retrying heavily — a damaged or out-of-spec cable, a worn \
        connector, or a hub short of power. A genuinely slow drive is the other explanation, \
        and only substitution tells the two apart.";

pub const READ_LINE: &'static str = "{} read in {}s = {}/s";

pub const LINK_LINE: &'static str = "link negotiated {} ({})";

pub const MEDIUM_CITED_LINE: &'static str = "medium: {} — {}";

pub const MEDIUM_LINE: &'static str = "medium: {}";

pub const SLOW_ADVICE: &'static str =
    "Measure the same drive again on a different cable, then on a different port. A number \
        that improves with the cable convicts the cable; one that follows the drive everywhere \
        is the drive.";

pub const FAILED_TITLE: &'static str = "{} stopped answering {} into a sequential read";

pub const FAILED_DETAIL: &'static str =
    "The device served part of the read and then returned an error. That is a fault in the \
        path or the medium, not a configuration problem: a healthy drive on a healthy cable \
        reads from end to end without complaint.";

pub const FAILED_ADVICE: &'static str =
    "Check the kernel log for the I/O error behind this, and re-run on another cable. If it \
        fails at the same offset every time, the medium is failing; if the offset moves, \
        suspect the path.";

pub const TIMEOUT_TITLE: &'static str = "{} stopped answering {} command(s) while being watched";

pub const ERRORS_TITLE: &'static str = "{} failed {} of {} commands while being watched";

pub const WINDOW_LINE: &'static str = "over {}s: {} requests, {} errors, {} timeouts";

pub const CUMULATIVE_LINE: &'static str =
    "cumulative since attach: iorequest {} ioerr {} iotmo {} — a small non-zero ioerr is \
        normal, it counts discovery probes too";

pub const SCSI_DETAIL: &'static str =
    "These are the SCSI layer's own counters, not the USB bus's, and they moved during the \
        sampling window rather than at discovery. Commands that fail or time out on a drive \
        that enumerated cleanly point at the path rather than the negotiation — a marginal \
        cable, a worn connector, or a hub short of power. A failing drive is the other \
        explanation.";

pub const SCSI_ADVICE: &'static str =
    "Sample again on a different cable. Counters that stay clean convict the cable; \
        counters that follow the drive convict the drive.";

// ---------------------------------------------------------------------------
// a drive and its device
// ---------------------------------------------------------------------------

pub open spec fn disk_named(name: Seq<char>) -> spec_fn(BlockDevice) -> bool {
    |b: BlockDevice| b.name@ == name
}

/// The device a disk hangs off, together with the disk itself.
pub open spec fn disk_in(s: Seq<Holding>, name: Seq<char>) -> Option<(UsbDevice, BlockDevice)>
    decreases s.len(),
{
    if s.len() == 0 {
        None
    } else {
        match disk_in(s.drop_last(), name) {
            Some(x) => Some(x),
            None => match first_of(s.last().drives, disk_named(name)) {
                Some(b) => Some((s.last().owner, b)),
                None => None,
            },
        }
    }
}

pub open spec fn pair_value(o: Option<(&UsbDevice, &BlockDevice)>) -> Option<
    (UsbDevice, BlockDevice),
> {
    match o {
        Some((d, b)) => Some((*d, *b)),
        None => None,
    }
}

proof fn lemma_disk_stays(s: Seq<Holding>, i: int, name: Seq<char>)
    requires
        0 <= i <= s.len(),
        disk_in(s.take(i), name) is Some,
    ensures
        disk_in(s, name) == disk_in(s.take(i), name),
    decreases s.len() - i,
{
    if i < s.len() {
        lemma_take_more(s, i);
        lemma_disk_stays(s, i + 1, name);
    } else {
        lemma_take_all(s);
    }
}

pub fn storage_pair<'a>(snap: &'a Snapshot, disk: &str) -> (r: Option<
    (&'a UsbDevice, &'a BlockDevice),
>)
    ensures
        pair_value(r) == disk_in(snap.storage(), disk@),
{
    let held = snap.storage_devices();
    let ghost all = snap.storage();
    let mut i: usize = 0;
    while i < held.len()
        invariant
            i <= held.len(),
            all == as_holdings(held@),
            all == snap.storage(),
            disk_in(all.take(i as int), disk@) is None,
        decreases held.len() - i,
    {
        proof {
            lemma_take_more(all, i as int);
        }
        let drives = &held[i].1;
        let ghost mine = pointees(drives@);
        assert(all[i as int].drives == mine);
        assert(all[i as int].owner == *held@[i as int].0);
        let mut k: usize = 0;
        while k < drives.len()
            invariant
                k <= drives.len(),
                i < held.len(),
                all == as_holdings(held@),
                all == snap.storage(),
                mine == pointees(drives@),
                all[i as int].drives == mine,
                all[i as int].owner == *held@[i as int].0,
                all.take(i + 1).drop_last() == all.take(i as int),
                all.take(i + 1).last() == all[i as int],
                all.take(i + 1).len() == i + 1,
                disk_in(all.take(i as int), disk@) is None,
                first_of(mine.take(k as int), disk_named(disk@)) is None,
            decreases drives.len() - k,
        {
            proof {
                lemma_take_more(mine, k as int);
            }
            if same(drives[k].name.as_str(), disk) {
                proof {
                    lemma_first_stays(mine, k + 1, disk_named(disk@));
                    lemma_disk_stays(all, i + 1, disk@);
                }
                return Some((held[i].0, drives[k]));
            }
            k += 1;
        }
        proof {
            lemma_take_all(mine);
        }
        i += 1;
    }
    proof {
        lemma_take_all(all);
    }
    None
}

// ---------------------------------------------------------------------------
// throughput
// ---------------------------------------------------------------------------

pub open spec fn half(d: Decimal) -> Decimal {
    Decimal { micros: d.micros / 2 }
}

pub open spec fn smaller(a: Decimal, b: Decimal) -> Decimal {
    if a.micros <= b.micros {
        a
    } else {
        b
    }
}

/// The rate below which no medium explains the number, and why. A spinning disk
/// is held against half of what its platter or its link gives; an unknown medium
/// on a faster link against plain USB 2.0; an unknown medium on a USB 2.0 link
/// against nothing, since a slow flash drive looks just like a bad cable there.
pub open spec fn floor_of(medium: Medium, link: Decimal) -> Option<(Decimal, Seq<char>)> {
    match medium.ceiling() {
        Some(media) => Some(
            (half(smaller(media, link)), filled(SPINNING_BECAUSE@, seq![rate_bytes(media)])),
        ),
        None => if link.micros > Decimal::of(40_000_000).micros {
            Some((Decimal::of(40_000_000), SUPERSPEED_BECAUSE@))
        } else {
            None
        },
    }
}

fn find_floor(medium: Medium, link: Decimal) -> (r: Option<(Decimal, String)>)
    ensures
        match r {
            Some((d, t)) => floor_of(medium, link) == Some((d, t@)),
            None => floor_of(medium, link) is None,
        },
{
    match medium.practical_ceiling_bps() {
        Some(media) => {
            let m: u64 = if media.micros <= link.micros {
                media.micros
            } else {
                link.micros
            };
            let t = bytes_per_second(media);
            Some((Decimal { micros: m / 2 }, fill1(SPINNING_BECAUSE, t.as_str())))
        },
        None => {
            let usb2 = Decimal::whole(40_000_000);
            if link.micros > usb2.micros {
                Some((usb2, owned(SUPERSPEED_BECAUSE)))
            } else {
                None
            }
        },
    }
}

/// The medium, with where the fact came from when a user supplied it.
pub open spec fn medium_words(dev: UsbDevice, m: (Medium, KindSource)) -> Seq<char> {
    match dev.declared {
        Some(d) => if m.1 == KindSource::User {
            filled(MEDIUM_CITED_LINE@, seq![m.0.name(), d.citation()])
        } else {
            filled(MEDIUM_LINE@, seq![m.0.name()])
        },
        None => filled(MEDIUM_LINE@, seq![m.0.name()]),
    }
}

fn find_medium_words(dev: &UsbDevice, m: (Medium, KindSource)) -> (r: String)
    ensures
        r@ == medium_words(*dev, m),
{
    if let Some(d) = &dev.declared {
        if m.1 == KindSource::User {
            let c = d.cite();
            return fill2(MEDIUM_CITED_LINE, m.0.label(), c.as_str());
        }
    }
    fill1(MEDIUM_LINE, m.0.label())
}

/// The strongest confidence a finding may claim that used this medium.
pub open spec fn medium_cap(source: KindSource) -> Confidence {
    (Kind { kind: DeviceKind::Storage, source }).capped(Confidence::Measured)
}

pub open spec fn slow_statement(
    sample: ThroughputSample,
    dev: UsbDevice,
    speed: LinkSpeed,
    medium: (Medium, KindSource),
    achieved: Decimal,
    because: Seq<char>,
) -> Statement {
    Statement {
        code: "THROUGHPUT_FAR_BELOW_LINK"@,
        severity: Severity::Medium,
        confidence: medium_cap(medium.1),
        subject: About::Device(dev.sysfs_name@),
        title: filled(
            SLOW_TITLE@,
            seq![sample.device@, rate_bytes(achieved), rate_bytes(sustained(speed.mbps))],
        ),
        detail: filled(SLOW_DETAIL@, seq![because]),
        evidence: seq![
            filled(
                READ_LINE@,
                seq![
                    bytes_text(sample.bytes_read),
                    seconds(sample.elapsed_ms),
                    rate_bytes(achieved),
                ],
            ),
            filled(LINK_LINE@, seq![speed.label@, dev.sysfs_name@]),
            medium_words(dev, medium),
        ],
        suggestion: Some(SLOW_ADVICE@),
    }
}

fn state_slow(
    sample: &ThroughputSample,
    dev: &UsbDevice,
    speed: &LinkSpeed,
    medium: (Medium, KindSource),
    achieved: Decimal,
    because: &str,
) -> (r: Finding)
    ensures
        r@ == slow_statement(*sample, *dev, *speed, medium, achieved, because@),
{
    let got = bytes_per_second(achieved);
    let link = bytes_per_second(speed.practical_bps());
    let total = bytes_human(sample.bytes_read);
    let secs = seconds_text(sample.elapsed_ms);
    let basis = Kind { kind: DeviceKind::Storage, source: medium.1 };
    finding(
        "THROUGHPUT_FAR_BELOW_LINK",
        Severity::Medium,
        basis.cap(Confidence::Measured),
        Subject::Device(dev.sysfs_name.clone()),
        fill3(SLOW_TITLE, sample.device.as_str(), got.as_str(), link.as_str()),
        fill1(SLOW_DETAIL, because),
        lines3(
            fill3(READ_LINE, total.as_str(), secs.as_str(), got.as_str()),
            fill2(LINK_LINE, speed.label.as_str(), dev.sysfs_name.as_str()),
            find_medium_words(dev, medium),
        ),
        some_text(SLOW_ADVICE),
    )
}

/// A measured rate, judged: only where it is not contended, the drive is known,
/// its link is known, and no medium explains the number.
pub open spec fn judged(snap: Snapshot, sample: ThroughputSample) -> Option<Statement> {
    if sample.contended() {
        None
    } else {
        match (sample.bytes_per_second, disk_in(snap.storage(), sample.device@)) {
            (Some(achieved), Some((dev, block))) => match dev.speed {
                Some(speed) => match floor_of(snap.medium(block).0, sustained(speed.mbps)) {
                    Some((floor, because)) => if achieved.micros < floor.micros {
                        Some(
                            slow_statement(
                                sample,
                                dev,
                                speed,
                                snap.medium(block),
                                achieved,
                                because,
                            ),
                        )
                    } else {
                        None
                    },
                    None => None,
                },
                None => None,
            },
            _ => None,
        }
    }
}

fn judge(snap: &Snapshot, sample: &ThroughputSample) -> (r: Option<Finding>)
    ensures
        stated_opt(r) == judged(*snap, *sample),
{
    if sample.was_contended() {
        return None;
    }
    match (sample.bytes_per_second, storage_pair(snap, sample.device.as_str())) {
        (Some(achieved), Some((dev, block))) => match &dev.speed {
            Some(speed) => {
                let medium = snap.medium_of(block);
                match find_floor(medium.0, speed.practical_bps()) {
                    Some((floor, because)) => {
                        if achieved.micros < floor.micros {
                            Some(
                                state_slow(
                                    sample,
                                    dev,
                                    speed,
                                    medium,
                                    achieved,
                                    because.as_str(),
                                ),
                            )
                        } else {
                            None
                        }
                    },
                    None => None,
                }
            },
            None => None,
        },
        _ => None,
    }
}

/// A read that began and then failed.
pub open spec fn read_failed(snap: Snapshot, sample: ThroughputSample, err: Seq<char>) -> Statement {
    Statement {
        code: "STORAGE_READ_FAILED"@,
        severity: Severity::High,
        confidence: Confidence::Measured,
        subject: match disk_in(snap.storage(), sample.device@) {
            Some((d, _)) => About::Device(d.sysfs_name@),
            None => About::Host,
        },
        title: filled(FAILED_TITLE@, seq![sample.device@, bytes_text(sample.bytes_read)]),
        detail: FAILED_DETAIL@,
        evidence: seq![err],
        suggestion: Some(FAILED_ADVICE@),
    }
}

pub fn read_error_finding(snap: &Snapshot, sample: &ThroughputSample, err: &str) -> (r: Finding)
    ensures
        r@ == read_failed(*snap, *sample, err@),
{
    let subject = match storage_pair(snap, sample.device.as_str()) {
        Some((d, _)) => Subject::Device(d.sysfs_name.clone()),
        None => Subject::Host,
    };
    let n = bytes_human(sample.bytes_read);
    finding(
        "STORAGE_READ_FAILED",
        Severity::High,
        Confidence::Measured,
        subject,
        fill2(FAILED_TITLE, sample.device.as_str(), n.as_str()),
        owned(FAILED_DETAIL),
        lines1(owned(err)),
        some_text(FAILED_ADVICE),
    )
}

/// One sample. A read that could not start is usually a permission and says
/// nothing; one that stopped partway is a symptom.
pub open spec fn sample_statements(snap: Snapshot) -> spec_fn(ThroughputSample) -> Seq<Statement> {
    |sample: ThroughputSample|
        match sample.error {
            Some(err) => if sample.bytes_read > 0 {
                seq![read_failed(snap, sample, err@)]
            } else {
                Seq::empty()
            },
            None => one(judged(snap, sample)),
        }
}

fn find_sample(snap: &Snapshot, sample: &ThroughputSample) -> (r: Option<Finding>)
    ensures
        one(stated_opt(r)) == sample_statements(*snap)(*sample),
{
    match &sample.error {
        Some(err) => if sample.bytes_read > 0 {
            Some(read_error_finding(snap, sample, err.as_str()))
        } else {
            None
        },
        None => judge(snap, sample),
    }
}

pub fn throughput_rules(snap: &Snapshot) -> (r: Vec<Finding>)
    ensures
        stated(r@) == gathered(snap.throughput@, sample_statements(*snap)),
{
    let mut out = nothing();
    let ghost f = sample_statements(*snap);
    let mut i: usize = 0;
    while i < snap.throughput.len()
        invariant
            i <= snap.throughput.len(),
            f == sample_statements(*snap),
            stated(out@) == gathered(snap.throughput@.take(i as int), f),
        decreases snap.throughput.len() - i,
    {
        proof {
            lemma_take_more(snap.throughput@, i as int);
        }
        note(&mut out, find_sample(snap, &snap.throughput[i]));
        i += 1;
    }
    proof {
        lemma_take_all(snap.throughput@);
    }
    out
}

// ---------------------------------------------------------------------------
// SCSI commands
// ---------------------------------------------------------------------------

/// How bad a window was. A timeout is a command that never came back; errors
/// count by their rate; errors without any traffic mean nothing.
pub open spec fn scsi_severity(d: ScsiDelta) -> Option<Severity> {
    if d.timeouts > 0 {
        Some(Severity::High)
    } else {
        match d.rate() {
            Some(r) => if r.at_least(1, 100) {
                Some(Severity::Medium)
            } else if d.errors > 0 {
                Some(Severity::Low)
            } else {
                None
            },
            None => None,
        }
    }
}

fn find_scsi_severity(d: &ScsiDelta) -> (r: Option<Severity>)
    ensures
        r == scsi_severity(*d),
{
    if d.timeouts > 0 {
        return Some(Severity::High);
    }
    match d.error_rate() {
        Some(r) => if r.is_at_least(1, 100) {
            Some(Severity::Medium)
        } else if d.errors > 0 {
            Some(Severity::Low)
        } else {
            None
        },
        None => None,
    }
}

pub open spec fn scsi_evidence(block: BlockDevice, d: ScsiDelta) -> Seq<Seq<char>> {
    let base = seq![
        filled(
            WINDOW_LINE@,
            seq![
                seconds(d.window_ms),
                dec(d.requests as nat),
                dec(d.errors as nat),
                dec(d.timeouts as nat),
            ],
        ),
    ];
    match block.scsi {
        Some(c) => base.push(
            filled(
                CUMULATIVE_LINE@,
                seq![
                    dec(c.iorequest_cnt as nat),
                    dec(c.ioerr_cnt as nat),
                    dec(c.iotmo_cnt as nat),
                ],
            ),
        ),
        None => base,
    }
}

pub open spec fn scsi_statement(
    owner: UsbDevice,
    block: BlockDevice,
    d: ScsiDelta,
    severity: Severity,
) -> Statement {
    Statement {
        code: "STORAGE_IO_ERRORS"@,
        severity,
        confidence: Confidence::Measured,
        subject: About::Device(owner.sysfs_name@),
        title: if d.timeouts > 0 {
            filled(TIMEOUT_TITLE@, seq![block.called(), dec(d.timeouts as nat)])
        } else {
            filled(
                ERRORS_TITLE@,
                seq![block.called(), dec(d.errors as nat), dec(d.requests as nat)],
            )
        },
        detail: SCSI_DETAIL@,
        evidence: scsi_evidence(block, d),
        suggestion: Some(SCSI_ADVICE@),
    }
}

/// One drive. Only what moved during a sampled window is judged: the absolute
/// counters count discovery probes too.
pub open spec fn scsi_errors(owner: UsbDevice) -> spec_fn(BlockDevice) -> Seq<Statement> {
    |block: BlockDevice|
        match block.scsi_delta {
            Some(d) => match scsi_severity(d) {
                Some(s) => if d.clean() {
                    Seq::empty()
                } else {
                    seq![scsi_statement(owner, block, d, s)]
                },
                None => Seq::empty(),
            },
            None => Seq::empty(),
        }
}

fn find_scsi_errors(owner: &UsbDevice, block: &BlockDevice) -> (r: Option<Finding>)
    ensures
        one(stated_opt(r)) == scsi_errors(*owner)(*block),
{
    let d = match &block.scsi_delta {
        Some(d) => d,
        None => {
            return None;
        },
    };
    if d.is_clean() {
        return None;
    }
    let severity = match find_scsi_severity(d) {
        Some(s) => s,
        None => {
            return None;
        },
    };
    let name = block.label();
    let requests = number(d.requests);
    let errors = number(d.errors);
    let timeouts = number(d.timeouts);
    let secs = seconds_text(d.window_ms);
    let title = if d.timeouts > 0 {
        fill2(TIMEOUT_TITLE, name.as_str(), timeouts.as_str())
    } else {
        fill3(ERRORS_TITLE, name.as_str(), errors.as_str(), requests.as_str())
    };
    let mut evidence = lines1(
        fill4(WINDOW_LINE, secs.as_str(), requests.as_str(), errors.as_str(), timeouts.as_str()),
    );
    if let Some(c) = &block.scsi {
        let a = number(c.iorequest_cnt);
        let b = number(c.ioerr_cnt);
        let t = number(c.iotmo_cnt);
        push_text(&mut evidence, fill3(CUMULATIVE_LINE, a.as_str(), b.as_str(), t.as_str()));
    }
    Some(
        finding(
            "STORAGE_IO_ERRORS",
            severity,
            Confidence::Measured,
            Subject::Device(owner.sysfs_name.clone()),
            title,
            owned(SCSI_DETAIL),
            evidence,
            some_text(SCSI_ADVICE),
        ),
    )
}

/// The drives of one device.
pub open spec fn scsi_holding() -> spec_fn(Holding) -> Seq<Statement> {
    |h: Holding| gathered(h.drives, scsi_errors(h.owner))
}

pub fn scsi_error_rules(snap: &Snapshot) -> (r: Vec<Finding>)
    ensures
        stated(r@) == gathered(snap.storage(), scsi_holding()),
{
    let held = snap.storage_devices();
    let ghost all = snap.storage();
    let mut out = nothing();
    let mut i: usize = 0;
    while i < held.len()
        invariant
            i <= held.len(),
            all == as_holdings(held@),
            stated(out@) == gathered(all.take(i as int), scsi_holding()),
        decreases held.len() - i,
    {
        proof {
            lemma_take_more(all, i as int);
        }
        let owner = held[i].0;
        let drives = &held[i].1;
        let ghost mine = pointees(drives@);
        let ghost f = scsi_errors(*owner);
        let ghost sofar = stated(out@);
        assert(all[i as int].drives == mine);
        assert(all[i as int].owner == *owner);
        let mut k: usize = 0;
        assert(sofar + gathered(mine.take(0), f) =~= sofar);
        while k < drives.len()
            invariant
                k <= drives.len(),
                mine == pointees(drives@),
                f == scsi_errors(*owner),
                stated(out@) == sofar + gathered(mine.take(k as int), f),
            decreases drives.len() - k,
        {
            proof {
                lemma_take_more(mine, k as int);
            }
            note(&mut out, find_scsi_errors(owner, drives[k]));
            assert(stated(out@) =~= sofar + gathered(mine.take(k + 1), f));
            k += 1;
        }
        proof {
            lemma_take_all(mine);
        }
        i += 1;
    }
    proof {
        lemma_take_all(all);
    }
    out
}

// ---------------------------------------------------------------------------
// laws
// ---------------------------------------------------------------------------

/// A contended measurement is shown and never judged.
pub proof fn a_contended_sample_is_never_judged(snap: Snapshot, sample: ThroughputSample)
    requires
        sample.contended(),
    ensures
        judged(snap, sample) is None,
{
}

/// A drive of unknown medium on a USB 2.0 link is never judged.
pub proof fn a_usb2_link_with_an_unknown_medium_is_never_judged(
    snap: Snapshot,
    sample: ThroughputSample,
)
    requires
        disk_in(snap.storage(), sample.device@) matches Some((d, b)) && d.linked_slow()
            && snap.medium(b).0.ceiling() is None,
    ensures
        judged(snap, sample) is None,
{
}

/// A finding that used a declared medium is never called measured.
pub proof fn a_declared_medium_is_never_measured(snap: Snapshot, sample: ThroughputSample)
    requires
        disk_in(snap.storage(), sample.device@) matches Some((d, b)) && snap.medium(b).1
            == KindSource::User,
    ensures
        judged(snap, sample) matches Some(s) ==> s.confidence == Confidence::Inferred,
{
}

/// A clean window says nothing, and neither do errors without traffic.
pub proof fn a_quiet_window_says_nothing(owner: UsbDevice, block: BlockDevice)
    requires
        block.scsi_delta matches Some(d) && (d.clean() || (d.requests == 0 && d.timeouts == 0)),
    ensures
        scsi_errors(owner)(block).len() == 0,
{
}

/// Without a sampled window nothing is said, whatever the counters stand at.
pub proof fn the_absolute_counters_are_not_judged(owner: UsbDevice, block: BlockDevice)
    requires
        block.scsi_delta is None,
    ensures
        scsi_errors(owner)(block).len() == 0,
{
}

} // verus!
