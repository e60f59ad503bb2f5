//! Block devices, their I/O counters, and what is in use.
//!
//! The counters turn "the link negotiated 480 Mbps" into "you are moving
//! 34 MB/s". A block device whose canonical path lies under a USB device's path
//! is attached through it.
//!
//! The second half stands between a disruptive probe and someone's data: it
//! follows every mounted filesystem and swap area down to the disks below, since
//! an encrypted volume shares no name with the stick it is on.

use vstd::prelude::*;
use crate::model::{BlockDevice, BlockStats, ScsiCounters, ScsiDelta, Throughput};
use crate::number::{parse_number, parsed, Decimal};
use crate::order::{lemma_placed_by, placed_by, sorted_by};
use crate::path::{is_within, within};
use crate::root::{file_name, name_of};
use crate::seqs::{
    first_of, gathered, kept, lemma_take_all, lemma_take_more, no_refs, pointee, pointees,
    push_ref,
};
use crate::snapshot::lemma_first_stays;
use crate::text::{
    begins_with, chars_of, copy_opt, fill1, fill2, filled, in_order, less, lines, lines_of,
    no_texts, opt_text, owned, push_text, put_text, same, split_whitespace, starts_with, text_less,
    texts, words,
};

verus! {

/// Counters and sizes are in units of 512 bytes, whatever the device's own block
/// size.
pub const STAT_SECTOR_BYTES: u64 = 512;

// ---------------------------------------------------------------------------
// counters
// ---------------------------------------------------------------------------

/// A field of a `stat` line; what is not a number counts as 0.
pub open spec fn field(w: Seq<char>) -> nat {
    match parsed(w, u64::MAX as nat) {
        Some(n) => n,
        None => 0,
    }
}

fn read_field(w: &str) -> (r: u64)
    ensures
        r == field(w@),
{
    match parse_number(w, u64::MAX) {
        Some(n) => n,
        None => 0,
    }
}

/// `reads merged sectors_read ms_reading writes merged sectors_written
/// ms_writing in_flight ...`. Newer kernels report more fields; the first nine
/// have never moved.
pub open spec fn counters(raw: Seq<char>, at: u64) -> Option<BlockStats> {
    let f = words(raw);
    if f.len() < 9 {
        None
    } else {
        Some(
            BlockStats {
                read_ios: field(f[0]) as u64,
                sectors_read: field(f[2]) as u64,
                ms_reading: field(f[3]) as u64,
                write_ios: field(f[4]) as u64,
                sectors_written: field(f[6]) as u64,
                ms_writing: field(f[7]) as u64,
                ios_in_flight: field(f[8]) as u64,
                sampled_at_unix_ms: at,
            },
        )
    }
}

/// The counters of a `stat` line read at a given time.
pub fn stats_at(raw: &str, sampled_at_unix_ms: u64) -> (r: Option<BlockStats>)
    ensures
        r == counters(raw@, sampled_at_unix_ms),
{
    let f = split_whitespace(raw);
    assert(texts(f@).len() == f@.len());
    if f.len() < 9 {
        return None;
    }
    assert(texts(f@)[0] == f@[0]@);
    assert(texts(f@)[2] == f@[2]@);
    assert(texts(f@)[3] == f@[3]@);
    assert(texts(f@)[4] == f@[4]@);
    assert(texts(f@)[6] == f@[6]@);
    assert(texts(f@)[7] == f@[7]@);
    assert(texts(f@)[8] == f@[8]@);
    Some(
        BlockStats {
            read_ios: read_field(f[0].as_str()),
            sectors_read: read_field(f[2].as_str()),
            ms_reading: read_field(f[3].as_str()),
            write_ios: read_field(f[4].as_str()),
            sectors_written: read_field(f[6].as_str()),
            ms_writing: read_field(f[7].as_str()),
            ios_in_flight: read_field(f[8].as_str()),
            sampled_at_unix_ms,
        },
    )
}

/// Sectors over a time, in bytes per second; the largest decimal where it is
/// beyond that.
pub open spec fn rate_of(sectors: u64, ms: u64) -> Decimal {
    let micros = sectors * 512 * 1_000_000_000 / ms as int;
    if micros > u64::MAX {
        Decimal { micros: u64::MAX }
    } else {
        Decimal { micros: micros as u64 }
    }
}

fn compute_rate(sectors: u64, ms: u64) -> (r: Decimal)
    requires
        ms > 0,
    ensures
        r == rate_of(sectors, ms),
{
    let all: u128 = sectors as u128 * 512 * 1_000_000_000;
    let micros: u128 = all / ms as u128;
    if micros > u64::MAX as u128 {
        Decimal { micros: u64::MAX }
    } else {
        Decimal { micros: micros as u64 }
    }
}

pub open spec fn advanced(now: u64, before: u64) -> u64 {
    if now >= before {
        (now - before) as u64
    } else {
        0
    }
}

/// Sectors in bytes, or the largest number where that is beyond it.
pub open spec fn sector_bytes(n: u64) -> u64 {
    if n * 512 > u64::MAX {
        u64::MAX
    } else {
        (n * 512) as u64
    }
}

fn bytes_in(n: u64) -> (r: u64)
    ensures
        r == sector_bytes(n),
{
    match n.checked_mul(STAT_SECTOR_BYTES) {
        Some(b) => b,
        None => u64::MAX,
    }
}

impl BlockStats {
    /// The rate between two samples, or none where time did not advance. A
    /// counter that went back moved nothing.
    pub open spec fn since(self, earlier: BlockStats) -> Option<Throughput> {
        if self.sampled_at_unix_ms > earlier.sampled_at_unix_ms {
            let ms = (self.sampled_at_unix_ms - earlier.sampled_at_unix_ms) as u64;
            Some(
                Throughput {
                    read_bps: rate_of(advanced(self.sectors_read, earlier.sectors_read), ms),
                    write_bps: rate_of(
                        advanced(self.sectors_written, earlier.sectors_written),
                        ms,
                    ),
                    interval_ms: ms,
                },
            )
        } else {
            None
        }
    }

    pub fn delta(&self, earlier: &BlockStats) -> (r: Option<Throughput>)
        ensures
            r == self.since(*earlier),
    {
        if self.sampled_at_unix_ms <= earlier.sampled_at_unix_ms {
            return None;
        }
        let ms: u64 = self.sampled_at_unix_ms - earlier.sampled_at_unix_ms;
        Some(
            Throughput {
                read_bps: compute_rate(
                    self.sectors_read.saturating_sub(earlier.sectors_read),
                    ms,
                ),
                write_bps: compute_rate(
                    self.sectors_written.saturating_sub(earlier.sectors_written),
                    ms,
                ),
                interval_ms: ms,
            },
        )
    }

    pub fn total_read_bytes(&self) -> (r: u64)
        ensures
            r == sector_bytes(self.sectors_read),
    {
        bytes_in(self.sectors_read)
    }

    pub fn total_written_bytes(&self) -> (r: u64)
        ensures
            r == sector_bytes(self.sectors_written),
    {
        bytes_in(self.sectors_written)
    }
}

// ---------------------------------------------------------------------------
// reading
// ---------------------------------------------------------------------------

/// What was read of one entry under `/sys/block`.
#[derive(Debug, Clone)]
pub struct Attributes {
    pub name: String,
    /// The canonical path, where it could be resolved.
    pub sysfs_path: Option<String>,
    pub model: Option<String>,
    pub vendor: Option<String>,
    pub size_sectors: Option<u64>,
    pub rotational: Option<bool>,
    pub removable: Option<bool>,
    pub stat: Option<String>,
    pub sampled_at_unix_ms: u64,
}

/// A device nobody plugged in.
pub open spec fn is_virtual(name: Seq<char>) -> bool {
    begins_with(name, "loop"@) || begins_with(name, "ram"@) || begins_with(name, "zram"@)
        || begins_with(name, "dm-"@) || begins_with(name, "md"@)
}

fn virtual_name(name: &str) -> (r: bool)
    ensures
        r == is_virtual(name@),
{
    starts_with(name, "loop") || starts_with(name, "ram") || starts_with(name, "zram")
        || starts_with(name, "dm-") || starts_with(name, "md")
}

/// A drive, as text.
pub struct Drive {
    pub name: Seq<char>,
    pub path: Seq<char>,
    pub model: Option<Seq<char>>,
    pub vendor: Option<Seq<char>>,
    pub size_bytes: Option<u64>,
    pub rotational: Option<bool>,
    pub removable: Option<bool>,
    pub stats: Option<BlockStats>,
    pub throughput: Option<Throughput>,
    pub scsi: Option<ScsiCounters>,
    pub scsi_delta: Option<ScsiDelta>,
}

pub open spec fn drive(b: BlockDevice) -> Drive {
    Drive {
        name: b.name@,
        path: b.sysfs_path@,
        model: opt_text(b.model),
        vendor: opt_text(b.vendor),
        size_bytes: b.size_bytes,
        rotational: b.rotational,
        removable: b.removable,
        stats: b.stats,
        throughput: b.throughput,
        scsi: b.scsi,
        scsi_delta: b.scsi_delta,
    }
}

pub open spec fn drives(v: Seq<BlockDevice>) -> Seq<Drive> {
    Seq::new(v.len(), |i: int| drive(v[i]))
}

pub open spec fn drive_name() -> spec_fn(Drive) -> Seq<char> {
    |d: Drive| d.name
}

/// A size in bytes, unless it does not fit. An unread size is 0.
pub open spec fn size_of_sectors(n: Option<u64>) -> Option<u64> {
    match n {
        Some(s) => if s * 512 <= u64::MAX {
            Some((s * 512) as u64)
        } else {
            None
        },
        None => Some(0u64),
    }
}

pub open spec fn stat_of(a: Attributes) -> Option<BlockStats> {
    match a.stat {
        Some(s) => counters(s@, a.sampled_at_unix_ms),
        None => None,
    }
}

/// The drive of an entry, where it is one.
pub open spec fn drive_of() -> spec_fn(Attributes) -> Seq<Drive> {
    |a: Attributes|
        match a.sysfs_path {
            Some(p) => if is_virtual(a.name@) {
                Seq::empty()
            } else {
                seq![
                    Drive {
                        name: a.name@,
                        path: p@,
                        model: opt_text(a.model),
                        vendor: opt_text(a.vendor),
                        size_bytes: size_of_sectors(a.size_sectors),
                        rotational: a.rotational,
                        removable: a.removable,
                        stats: stat_of(a),
                        throughput: None,
                        scsi: None,
                        scsi_delta: None,
                    },
                ]
            },
            None => Seq::empty(),
        }
}

fn make_drive(a: &Attributes) -> (r: Option<BlockDevice>)
    ensures
        match r {
            Some(b) => drive_of()(*a) == seq![drive(b)],
            None => drive_of()(*a).len() == 0,
        },
{
    if virtual_name(a.name.as_str()) {
        return None;
    }
    let path = match &a.sysfs_path {
        Some(p) => p.clone(),
        None => {
            return None;
        },
    };
    let sectors: u64 = match a.size_sectors {
        Some(n) => n,
        None => 0,
    };
    let stats = match &a.stat {
        Some(s) => stats_at(s.as_str(), a.sampled_at_unix_ms),
        None => None,
    };
    Some(
        BlockDevice {
            name: a.name.clone(),
            sysfs_path: path,
            model: copy_opt(&a.model),
            vendor: copy_opt(&a.vendor),
            size_bytes: sectors.checked_mul(STAT_SECTOR_BYTES),
            rotational: a.rotational,
            removable: a.removable,
            stats,
            throughput: None,
            scsi: None,
            scsi_delta: None,
        },
    )
}

fn place_drive(v: &mut Vec<BlockDevice>, x: BlockDevice)
    ensures
        drives(final(v)@) == placed_by(drives(old(v)@), drive(x), drive_name()),
{
    let ghost before = drives(v@);
    let ghost key = drive_name();
    let mut k: usize = 0;
    while k < v.len() && !less(x.name.as_str(), v[k].name.as_str())
        invariant
            k <= v.len(),
            before == drives(v@),
            key == drive_name(),
            forall|j: int| 0 <= j < k ==> !text_less(key(drive(x)), key(#[trigger] before[j])),
        decreases v.len() - k,
    {
        assert(before[k as int] == drive(v@[k as int]));
        k += 1;
    }
    proof {
        if k < v.len() {
            assert(before[k as int] == drive(v@[k as int]));
        }
        lemma_placed_by(before, drive(x), key, k as int);
    }
    v.insert(k, x);
    assert(drives(v@) =~= before.insert(k as int, drive(x)));
}

/// Every real drive among the entries, in order of its name.
pub fn read_from(entries: &Vec<Attributes>) -> (r: Vec<BlockDevice>)
    ensures
        drives(r@) == sorted_by(gathered(entries@, drive_of()), drive_name()),
{
    let ghost f = drive_of();
    let mut out: Vec<BlockDevice> = Vec::new();
    let mut i: usize = 0;
    assert(drives(out@) =~= Seq::<Drive>::empty());
    while i < entries.len()
        invariant
            i <= entries.len(),
            f == drive_of(),
            drives(out@) == sorted_by(gathered(entries@.take(i as int), f), drive_name()),
        decreases entries.len() - i,
    {
        let ghost sofar = gathered(entries@.take(i as int), f);
        proof {
            lemma_take_more(entries@, i as int);
        }
        match make_drive(&entries[i]) {
            Some(x) => {
                proof {
                    let more = sofar + f(entries@[i as int]);
                    assert(more.drop_last() =~= sofar);
                    assert(more.last() == drive(x));
                }
                place_drive(&mut out, x);
            },
            None => {
                assert(sofar + f(entries@[i as int]) =~= sofar);
            },
        }
        i += 1;
    }
    proof {
        lemma_take_all(entries@);
    }
    out
}

pub open spec fn drive_called(name: Seq<char>) -> spec_fn(BlockDevice) -> bool {
    |b: BlockDevice| b.name@ == name
}

/// The rate of a drive since an earlier reading of all of them. A drive that was
/// not there before keeps what it has.
pub open spec fn measured(first: Seq<BlockDevice>, b: BlockDevice) -> Option<Throughput> {
    match first_of(first, drive_called(b.name@)) {
        Some(p) => match (b.stats, p.stats) {
            (Some(now), Some(before)) => now.since(before),
            _ => None,
        },
        None => b.throughput,
    }
}

fn measure(first: &Vec<BlockDevice>, b: &BlockDevice) -> (r: Option<Throughput>)
    ensures
        r == measured(first@, *b),
{
    let ghost p = drive_called(b.name@);
    let mut i: usize = 0;
    while i < first.len()
        invariant
            i <= first.len(),
            p == drive_called(b.name@),
            first_of(first@.take(i as int), p) is None,
        decreases first.len() - i,
    {
        proof {
            lemma_take_more(first@, i as int);
        }
        if same(first[i].name.as_str(), b.name.as_str()) {
            proof {
                lemma_first_stays(first@, i + 1, p);
            }
            return match (&b.stats, &first[i].stats) {
                (Some(now), Some(before)) => now.delta(before),
                _ => None,
            };
        }
        i += 1;
    }
    proof {
        lemma_take_all(first@);
    }
    b.throughput
}

pub open spec fn with_rate(b: BlockDevice, t: Option<Throughput>) -> BlockDevice {
    BlockDevice { throughput: t, ..b }
}

/// Two readings, made into one with live rates.
pub fn sample(first: &Vec<BlockDevice>, second: Vec<BlockDevice>) -> (r: Vec<BlockDevice>)
    ensures
        r@.len() == second@.len(),
        forall|i: int|
            0 <= i < r@.len() ==> #[trigger] r@[i] == with_rate(
                second@[i],
                measured(first@, second@[i]),
            ),
{
    let ghost all = second@;
    let mut rest = second;
    let n: usize = rest.len();
    let mut out: Vec<BlockDevice> = Vec::new();
    let mut i: usize = 0;
    assert(rest@ =~= all.skip(0));
    while i < n
        invariant
            i <= n,
            all.len() == n,
            rest@ == all.skip(i as int),
            out@.len() == i,
            forall|k: int|
                0 <= k < i ==> #[trigger] out@[k] == with_rate(all[k], measured(first@, all[k])),
        decreases n - i,
    {
        let mut b = rest.remove(0);
        assert(rest@ =~= all.skip(i + 1));
        b.throughput = measure(first, &b);
        out.push(b);
        i += 1;
    }
    out
}

pub open spec fn lies_under(path: Seq<char>) -> spec_fn(BlockDevice) -> bool {
    |b: BlockDevice| within(b.sysfs_path@, path)
}

/// The drives attached through a USB device.
pub fn attached_to<'a>(blocks: &'a Vec<BlockDevice>, usb_path: &str) -> (r: Vec<&'a BlockDevice>)
    ensures
        pointees(r@) == kept(blocks@, lies_under(usb_path@)),
{
    let ghost p = lies_under(usb_path@);
    let mut out: Vec<&BlockDevice> = no_refs();
    let mut i: usize = 0;
    while i < blocks.len()
        invariant
            i <= blocks.len(),
            p == lies_under(usb_path@),
            pointees(out@) == kept(blocks@.take(i as int), p),
        decreases blocks.len() - i,
    {
        proof {
            lemma_take_more(blocks@, i as int);
        }
        if is_within(blocks[i].sysfs_path.as_str(), usb_path) {
            push_ref(&mut out, &blocks[i]);
        }
        i += 1;
    }
    proof {
        lemma_take_all(blocks@);
    }
    out
}

// ---------------------------------------------------------------------------
// what is in use
// ---------------------------------------------------------------------------

/// A reason a disk may not be taken off the bus.
#[derive(Debug, Clone, PartialEq, Eq)]
pub struct Hold {
    /// The kernel name of the thing in use: usually a partition, sometimes a
    /// device stacked above one.
    pub via: String,
    pub kind: HoldKind,
}

#[derive(Debug, Clone, PartialEq, Eq)]
pub enum HoldKind {
    Mounted(String),
    Swap,
}

/// A use, as text.
pub enum Use {
    Mounted(Seq<char>),
    Swap,
}

/// A hold, as text.
pub struct Grip {
    pub via: Seq<char>,
    pub kind: Use,
}

impl View for HoldKind {
    type V = Use;

    open spec fn view(&self) -> Use {
        match *self {
            HoldKind::Mounted(at) => Use::Mounted(at@),
            HoldKind::Swap => Use::Swap,
        }
    }
}

impl View for Hold {
    type V = Grip;

    open spec fn view(&self) -> Grip {
        Grip { via: self.via@, kind: self.kind@ }
    }
}

pub open spec fn grips(v: Seq<Hold>) -> Seq<Grip> {
    Seq::new(v.len(), |i: int| v[i]@)
}

pub const MOUNTED_AT: &'static str = "{} is mounted at {}";

pub const USED_AS_SWAP: &'static str = "{} is in use as swap";

impl HoldKind {
    fn copy(&self) -> (r: HoldKind)
        ensures
            r@ == self@,
    {
        match self {
            HoldKind::Mounted(at) => HoldKind::Mounted(at.clone()),
            HoldKind::Swap => HoldKind::Swap,
        }
    }
}

impl Hold {
    pub open spec fn words(self) -> Seq<char> {
        match self.kind {
            HoldKind::Mounted(at) => filled(MOUNTED_AT@, seq![self.via@, at@]),
            HoldKind::Swap => filled(USED_AS_SWAP@, seq![self.via@]),
        }
    }

    /// One clause, for a refusal message.
    pub fn describe(&self) -> (r: String)
        ensures
            r@ == self.words(),
    {
        match &self.kind {
            HoldKind::Mounted(at) => fill2(MOUNTED_AT, self.via.as_str(), at.as_str()),
            HoldKind::Swap => fill1(USED_AS_SWAP, self.via.as_str()),
        }
    }

    fn is(&self, other: &Hold) -> (r: bool)
        ensures
            r == (self@ == other@),
    {
        if !same(self.via.as_str(), other.via.as_str()) {
            return false;
        }
        match (&self.kind, &other.kind) {
            (HoldKind::Mounted(a), HoldKind::Mounted(b)) => same(a.as_str(), b.as_str()),
            (HoldKind::Swap, HoldKind::Swap) => true,
            _ => false,
        }
    }
}

pub open spec fn is_octal(c: char) -> bool {
    '0' <= c <= '7'
}

pub open spec fn octal_value(c: char) -> int {
    c as int - 48
}

/// The byte that three characters spell in octal. A plus sign may stand for the
/// first digit.
pub open spec fn octal_byte(a: char, b: char, c: char) -> Option<int> {
    if !is_octal(b) || !is_octal(c) {
        None
    } else if a == '+' {
        Some(8 * octal_value(b) + octal_value(c))
    } else if '0' <= a <= '3' {
        Some(64 * octal_value(a) + 8 * octal_value(b) + octal_value(c))
    } else {
        None
    }
}

fn read_octal(a: char, b: char, c: char) -> (r: Option<u8>)
    ensures
        match r {
            Some(v) => octal_byte(a, b, c) == Some(v as int),
            None => octal_byte(a, b, c) is None,
        },
{
    if !('0' <= b && b <= '7') || !('0' <= c && c <= '7') {
        return None;
    }
    let y: u8 = b as u8 - 48;
    let z: u8 = c as u8 - 48;
    if a == '+' {
        return Some(8 * y + z);
    }
    if '0' <= a && a <= '3' {
        let x: u8 = a as u8 - 48;
        return Some(64 * x + 8 * y + z);
    }
    None
}

/// White space in a mount point is written as a backslash and three octal
/// digits.
pub open spec fn unescaped(s: Seq<char>) -> Seq<char>
    decreases s.len(),
{
    if s.len() == 0 {
        Seq::empty()
    } else if s[0] == '\\' && s.len() >= 4 && octal_byte(s[1], s[2], s[3]) is Some {
        seq![octal_byte(s[1], s[2], s[3])->0 as char] + unescaped(s.skip(4))
    } else {
        seq![s[0]] + unescaped(s.skip(1))
    }
}

pub fn unescape(s: &str) -> (r: String)
    ensures
        r@ == unescaped(s@),
{
    let cs = chars_of(s);
    let mut out = String::new();
    let mut i: usize = 0;
    assert(cs@.skip(0) == s@);
    assert(out@ + unescaped(s@) =~= unescaped(s@));
    while i < cs.len()
        invariant
            i <= cs.len(),
            cs@ == s@,
            out@ + unescaped(cs@.skip(i as int)) == unescaped(s@),
        decreases cs.len() - i,
    {
        let ghost rest = cs@.skip(i as int);
        let ghost sofar = out@;
        let c = cs[i];
        assert(rest[0] == c);
        let coded: Option<u8> = if c == '\\' && cs.len() - i >= 4 {
            assert(rest[1] == cs@[i + 1]);
            assert(rest[2] == cs@[i + 2]);
            assert(rest[3] == cs@[i + 3]);
            read_octal(cs[i + 1], cs[i + 2], cs[i + 3])
        } else {
            None
        };
        match coded {
            Some(b) => {
                out.push(b as char);
                assert(rest.skip(4) == cs@.skip(i + 4));
                i += 4;
            },
            None => {
                out.push(c);
                assert(rest.skip(1) == cs@.skip(i + 1));
                i += 1;
            },
        }
        assert(out@ + unescaped(cs@.skip(i as int)) =~= sofar + unescaped(rest));
    }
    assert(unescaped(cs@.skip(i as int)) =~= Seq::<char>::empty());
    assert(out@ =~= unescaped(s@));
    out
}

/// A device node and what it is used for.
pub struct Used {
    pub node: Seq<char>,
    pub kind: Use,
}

pub open spec fn uses(v: Seq<(String, HoldKind)>) -> Seq<Used> {
    Seq::new(v.len(), |i: int| Used { node: v[i].0@, kind: v[i].1@ })
}

/// A line of `/proc/self/mounts`. A source that is no device node cannot be a
/// disk.
pub open spec fn mount_line() -> spec_fn(Seq<char>) -> Seq<Used> {
    |l: Seq<char>|
        if words(l).len() >= 2 && begins_with(words(l)[0], "/dev/"@) {
            seq![Used { node: words(l)[0], kind: Use::Mounted(unescaped(words(l)[1])) }]
        } else {
            Seq::empty()
        }
}

/// A line of `/proc/swaps`.
pub open spec fn swap_line() -> spec_fn(Seq<char>) -> Seq<Used> {
    |l: Seq<char>|
        if words(l).len() >= 1 && begins_with(words(l)[0], "/dev/"@) {
            seq![Used { node: words(l)[0], kind: Use::Swap }]
        } else {
            Seq::empty()
        }
}

/// Lines without the first, which is a header.
pub open spec fn below_header(ls: Seq<Seq<char>>) -> Seq<Seq<char>> {
    if ls.len() > 0 {
        ls.skip(1)
    } else {
        ls
    }
}

pub open spec fn mount_uses(o: Option<String>) -> Seq<Used> {
    match o {
        Some(t) => gathered(lines_of(t@), mount_line()),
        None => Seq::empty(),
    }
}

pub open spec fn swap_uses(o: Option<String>) -> Seq<Used> {
    match o {
        Some(t) => gathered(below_header(lines_of(t@)), swap_line()),
        None => Seq::empty(),
    }
}

fn add_use(out: &mut Vec<(String, HoldKind)>, node: String, kind: HoldKind)
    ensures
        uses(final(out)@) == uses(old(out)@).push(Used { node: node@, kind: kind@ }),
{
    let ghost before = out@;
    out.push((node, kind));
    assert(uses(out@) =~= uses(before).push(Used { node: node@, kind: kind@ }));
}

fn add_mounts(out: &mut Vec<(String, HoldKind)>, text: &str)
    ensures
        uses(final(out)@) == uses(old(out)@) + gathered(lines_of(text@), mount_line()),
{
    let ls = lines(text);
    let ghost all = texts(ls@);
    let ghost before = uses(out@);
    let ghost f = mount_line();
    let mut i: usize = 0;
    assert(before + gathered(all.take(0), f) =~= before);
    while i < ls.len()
        invariant
            i <= ls.len(),
            all == texts(ls@),
            f == mount_line(),
            uses(out@) == before + gathered(all.take(i as int), f),
        decreases ls.len() - i,
    {
        proof {
            lemma_take_more(all, i as int);
        }
        let ws = split_whitespace(ls[i].as_str());
        assert(texts(ws@).len() == ws@.len());
        if ws.len() >= 2 {
            assert(texts(ws@)[0] == ws@[0]@);
            assert(texts(ws@)[1] == ws@[1]@);
            if starts_with(ws[0].as_str(), "/dev/") {
                add_use(out, ws[0].clone(), HoldKind::Mounted(unescape(ws[1].as_str())));
            }
        }
        assert(uses(out@) =~= before + gathered(all.take(i + 1), f));
        i += 1;
    }
    proof {
        lemma_take_all(all);
    }
}

fn add_swaps(out: &mut Vec<(String, HoldKind)>, text: &str)
    ensures
        uses(final(out)@) == uses(old(out)@) + gathered(
            below_header(lines_of(text@)),
            swap_line(),
        ),
{
    let ls = lines(text);
    let ghost all = below_header(texts(ls@));
    let ghost before = uses(out@);
    let ghost f = swap_line();
    let mut i: usize = 1;
    assert(texts(ls@).len() == ls@.len());
    assert(before + gathered(all.take(0), f) =~= before);
    if ls.len() == 0 {
        assert(all.take(0) =~= all);
        return;
    }
    while i < ls.len()
        invariant
            1 <= i <= ls.len(),
            all == below_header(texts(ls@)),
            texts(ls@).len() == ls@.len(),
            f == swap_line(),
            uses(out@) == before + gathered(all.take(i - 1), f),
        decreases ls.len() - i,
    {
        proof {
            lemma_take_more(all, i - 1);
            assert(all[i - 1] == ls@[i as int]@);
        }
        let ws = split_whitespace(ls[i].as_str());
        assert(texts(ws@).len() == ws@.len());
        if ws.len() >= 1 {
            assert(texts(ws@)[0] == ws@[0]@);
            if starts_with(ws[0].as_str(), "/dev/") {
                add_use(out, ws[0].clone(), HoldKind::Swap);
            }
        }
        assert(uses(out@) =~= before + gathered(all.take(i as int), f));
        i += 1;
    }
    proof {
        lemma_take_all(all);
    }
}

/// What the kernel says of one block device.
#[derive(Debug, Clone)]
pub struct BlockNode {
    pub name: String,
    /// The devices it is stacked on.
    pub slaves: Vec<String>,
    pub is_partition: bool,
    /// The directory its canonical path is in: its path, or its name alone.
    pub parent: Option<String>,
}

/// A device node and the path behind it.
#[derive(Debug, Clone)]
pub struct Alias {
    pub node: String,
    pub path: String,
}

/// Everything that says what is in use, read at one moment.
#[derive(Debug, Clone)]
pub struct Stack {
    /// `/proc/self/mounts`.
    pub mounts: Option<String>,
    /// `/proc/swaps`.
    pub swaps: Option<String>,
    /// Where device nodes lead once links are followed.
    pub aliases: Vec<Alias>,
    /// `/sys/class/block`.
    pub nodes: Vec<BlockNode>,
}

pub open spec fn alias_of(node: Seq<char>) -> spec_fn(Alias) -> bool {
    |a: Alias| a.node@ == node
}

pub open spec fn node_called(name: Seq<char>) -> spec_fn(BlockNode) -> bool {
    |n: BlockNode| n.name@ == name
}

/// The device nodes named by mounts and swaps.
pub fn in_use_nodes(stack: &Stack) -> (r: Vec<(String, HoldKind)>)
    ensures
        uses(r@) == mount_uses(stack.mounts) + swap_uses(stack.swaps),
{
    let mut out: Vec<(String, HoldKind)> = Vec::new();
    assert(uses(out@) =~= Seq::<Used>::empty());
    if let Some(t) = &stack.mounts {
        add_mounts(&mut out, t.as_str());
    }
    assert(uses(out@) =~= mount_uses(stack.mounts));
    if let Some(t) = &stack.swaps {
        add_swaps(&mut out, t.as_str());
    }
    assert(uses(out@) =~= mount_uses(stack.mounts) + swap_uses(stack.swaps));
    out
}

impl Stack {
    pub open spec fn in_use(self) -> Seq<Used> {
        mount_uses(self.mounts) + swap_uses(self.swaps)
    }

    /// The path behind a node.
    pub open spec fn behind(self, node: Seq<char>) -> Seq<char> {
        match first_of(self.aliases@, alias_of(node)) {
            Some(a) => a.path@,
            None => node,
        }
    }

    /// The kernel name of a node, if it has one.
    pub open spec fn name_behind(self, node: Seq<char>) -> Option<Seq<char>> {
        let n = name_of(self.behind(node));
        if n.len() == 0 {
            None
        } else {
            Some(n)
        }
    }

    pub open spec fn slaves(self, name: Seq<char>) -> Seq<Seq<char>> {
        match first_of(self.nodes@, node_called(name)) {
            Some(n) => texts(n.slaves@),
            None => Seq::empty(),
        }
    }

    /// The whole disk that a partition is on: the name of the directory that
    /// contains it.
    pub open spec fn whole_disk(self, name: Seq<char>) -> Option<Seq<char>> {
        match first_of(self.nodes@, node_called(name)) {
            Some(n) => match n.parent {
                Some(p) => {
                    let disk = name_of(p@);
                    if n.is_partition && disk.len() > 0 && disk != "block"@ {
                        Some(disk)
                    } else {
                        None
                    }
                },
                None => None,
            },
            None => None,
        }
    }

    /// The disks below a device: those below its members where it is stacked,
    /// the disk it is on where it is a partition, itself otherwise. A stack that
    /// is nested deeper than any real one is taken as it is.
    pub open spec fn disks_below(self, name: Seq<char>, depth: nat) -> Seq<Seq<char>>
        decreases 19 - 2 * depth, 0nat,
    {
        if depth > 8 {
            seq![name]
        } else if self.slaves(name).len() > 0 {
            in_order(self.disks_below_all(self.slaves(name), depth))
        } else {
            match self.whole_disk(name) {
                Some(d) => seq![d],
                None => seq![name],
            }
        }
    }

    pub open spec fn disks_below_all(self, names: Seq<Seq<char>>, depth: nat) -> Seq<Seq<char>>
        decreases 18 - 2 * depth, names.len(),
    {
        if names.len() == 0 || depth > 8 {
            Seq::empty()
        } else {
            self.disks_below_all(names.drop_last(), depth) + self.disks_below(
                names.last(),
                depth + 1,
            )
        }
    }

    fn find_alias(&self, node: &str) -> (r: Option<&Alias>)
        ensures
            pointee(r) == first_of(self.aliases@, alias_of(node@)),
    {
        let ghost p = alias_of(node@);
        let mut i: usize = 0;
        while i < self.aliases.len()
            invariant
                i <= self.aliases.len(),
                p == alias_of(node@),
                first_of(self.aliases@.take(i as int), p) is None,
            decreases self.aliases.len() - i,
        {
            proof {
                lemma_take_more(self.aliases@, i as int);
            }
            if same(self.aliases[i].node.as_str(), node) {
                proof {
                    lemma_first_stays(self.aliases@, i + 1, p);
                }
                return Some(&self.aliases[i]);
            }
            i += 1;
        }
        proof {
            lemma_take_all(self.aliases@);
        }
        None
    }

    fn find_node(&self, name: &str) -> (r: Option<&BlockNode>)
        ensures
            pointee(r) == first_of(self.nodes@, node_called(name@)),
    {
        let ghost p = node_called(name@);
        let mut i: usize = 0;
        while i < self.nodes.len()
            invariant
                i <= self.nodes.len(),
                p == node_called(name@),
                first_of(self.nodes@.take(i as int), p) is None,
            decreases self.nodes.len() - i,
        {
            proof {
                lemma_take_more(self.nodes@, i as int);
            }
            if same(self.nodes[i].name.as_str(), name) {
                proof {
                    lemma_first_stays(self.nodes@, i + 1, p);
                }
                return Some(&self.nodes[i]);
            }
            i += 1;
        }
        proof {
            lemma_take_all(self.nodes@);
        }
        None
    }
}

/// The kernel name behind a device node: a mount source is often a link.
pub fn kernel_name(stack: &Stack, node: &str) -> (r: Option<String>)
    ensures
        opt_text(r) == stack.name_behind(node@),
{
    let name = match stack.find_alias(node) {
        Some(a) => file_name(a.path.as_str()),
        None => file_name(node),
    };
    let cs = chars_of(name.as_str());
    if cs.len() == 0 {
        None
    } else {
        Some(name)
    }
}

fn put_all(v: &mut Vec<String>, more: Vec<String>, Ghost(so): Ghost<Seq<Seq<char>>>)
    requires
        texts(old(v)@) == in_order(so),
    ensures
        texts(final(v)@) == in_order(so + texts(more@)),
{
    let ghost extra = texts(more@);
    let mut i: usize = 0;
    assert(so + extra.take(0) =~= so);
    while i < more.len()
        invariant
            i <= more.len(),
            extra == texts(more@),
            texts(v@) == in_order(so + extra.take(i as int)),
        decreases more.len() - i,
    {
        proof {
            lemma_take_more(extra, i as int);
            let t = so + extra.take(i + 1);
            assert(t.drop_last() =~= so + extra.take(i as int));
            assert(t.last() == extra[i as int]);
        }
        put_text(v, more[i].clone());
        i += 1;
    }
    assert(so + extra.take(i as int) =~= so + extra);
}

/// The physical disks below a device.
pub fn base_disks(stack: &Stack, name: &str, depth: u8) -> (r: Vec<String>)
    ensures
        texts(r@) == stack.disks_below(name@, depth as nat),
    decreases 255 - depth,
{
    let mut out = no_texts();
    if depth > 8 {
        push_text(&mut out, owned(name));
        assert(texts(out@) =~= seq![name@]);
        return out;
    }
    if let Some(n) = stack.find_node(name) {
        let ghost members = texts(n.slaves@);
        assert(members.len() == n.slaves@.len());
        if n.slaves.len() > 0 {
            let mut i: usize = 0;
            assert(texts(out@) =~= Seq::<Seq<char>>::empty());
            while i < n.slaves.len()
                invariant
                    i <= n.slaves.len(),
                    depth <= 8,
                    members == texts(n.slaves@),
                    texts(out@) == in_order(
                        stack.disks_below_all(members.take(i as int), depth as nat),
                    ),
                decreases n.slaves.len() - i,
            {
                proof {
                    lemma_take_more(members, i as int);
                }
                let more = base_disks(stack, n.slaves[i].as_str(), depth + 1);
                let ghost so = stack.disks_below_all(members.take(i as int), depth as nat);
                put_all(&mut out, more, Ghost(so));
                i += 1;
            }
            proof {
                lemma_take_all(members);
            }
            return out;
        }
        if n.is_partition {
            if let Some(p) = &n.parent {
                let disk = file_name(p.as_str());
                let cs = chars_of(disk.as_str());
                if cs.len() > 0 && !same(disk.as_str(), "block") {
                    let ghost whole = disk@;
                    push_text(&mut out, disk);
                    assert(texts(out@) =~= seq![whole]);
                    return out;
                }
            }
        }
    }
    push_text(&mut out, owned(name));
    assert(texts(out@) =~= seq![name@]);
    out
}

// ---------------------------------------------------------------------------
// holders
// ---------------------------------------------------------------------------

/// A disk and the reasons it is in use.
#[derive(Debug, Clone)]
pub struct Held {
    pub disk: String,
    pub holds: Vec<Hold>,
}

/// A held disk, as text.
pub struct Keep {
    pub disk: Seq<char>,
    pub holds: Seq<Grip>,
}

pub open spec fn keeps(v: Seq<Held>) -> Seq<Keep> {
    Seq::new(v.len(), |i: int| Keep { disk: v[i].disk@, holds: grips(v[i].holds@) })
}

/// A reason added, once.
pub open spec fn with_grip(s: Seq<Grip>, g: Grip) -> Seq<Grip> {
    if s.contains(g) {
        s
    } else {
        s.push(g)
    }
}

/// One more reason for a disk, with disks in order of their names.
pub open spec fn with_keep(s: Seq<Keep>, disk: Seq<char>, g: Grip) -> Seq<Keep>
    decreases s.len(),
{
    if s.len() == 0 {
        seq![Keep { disk, holds: seq![g] }]
    } else if s[0].disk == disk {
        seq![Keep { disk, holds: with_grip(s[0].holds, g) }] + s.skip(1)
    } else if text_less(disk, s[0].disk) {
        seq![Keep { disk, holds: seq![g] }] + s
    } else {
        seq![s[0]] + with_keep(s.skip(1), disk, g)
    }
}

pub open spec fn with_keeps(s: Seq<Keep>, disks: Seq<Seq<char>>, g: Grip) -> Seq<Keep>
    decreases disks.len(),
{
    if disks.len() == 0 {
        s
    } else {
        with_keep(with_keeps(s, disks.drop_last(), g), disks.last(), g)
    }
}

/// Every disk that these uses hold.
pub open spec fn held_by_uses(stack: Stack, us: Seq<Used>) -> Seq<Keep>
    decreases us.len(),
{
    if us.len() == 0 {
        Seq::empty()
    } else {
        let before = held_by_uses(stack, us.drop_last());
        match stack.name_behind(us.last().node) {
            Some(name) => with_keeps(
                before,
                stack.disks_below(name, 0),
                Grip { via: name, kind: us.last().kind },
            ),
            None => before,
        }
    }
}

proof fn lemma_with_keep(s: Seq<Keep>, disk: Seq<char>, g: Grip, k: int)
    requires
        0 <= k <= s.len(),
        forall|j: int| 0 <= j < k ==> (#[trigger] s[j]).disk != disk && !text_less(disk, s[j].disk),
        k < s.len() ==> s[k].disk == disk || text_less(disk, s[k].disk),
    ensures
        with_keep(s, disk, g) == (if k < s.len() && s[k].disk == disk {
            s.update(k, Keep { disk, holds: with_grip(s[k].holds, g) })
        } else {
            s.insert(k, Keep { disk, holds: seq![g] })
        }),
    decreases k,
{
    if k > 0 {
        assert(s[0].disk != disk && !text_less(disk, s[0].disk));
        assert forall|j: int| 0 <= j < k - 1 implies (#[trigger] s.skip(1)[j]).disk != disk
            && !text_less(disk, s.skip(1)[j].disk) by {
            assert(s[j + 1].disk != disk && !text_less(disk, s[j + 1].disk));
        }
        lemma_with_keep(s.skip(1), disk, g, k - 1);
        if k < s.len() && s[k].disk == disk {
            assert(with_keep(s, disk, g) =~= s.update(
                k,
                Keep { disk, holds: with_grip(s[k].holds, g) },
            ));
        } else {
            assert(with_keep(s, disk, g) =~= s.insert(k, Keep { disk, holds: seq![g] }));
        }
    } else if s.len() > 0 && s[0].disk == disk {
        assert(with_keep(s, disk, g) =~= s.update(
            0,
            Keep { disk, holds: with_grip(s[0].holds, g) },
        ));
    } else {
        assert(with_keep(s, disk, g) =~= s.insert(0, Keep { disk, holds: seq![g] }));
    }
}

fn has_hold(v: &Vec<Hold>, h: &Hold) -> (r: bool)
    ensures
        r == grips(v@).contains(h@),
{
    let ghost all = grips(v@);
    let mut i: usize = 0;
    while i < v.len()
        invariant
            i <= v.len(),
            all == grips(v@),
            forall|j: int| 0 <= j < i ==> (#[trigger] all[j]) != h@,
        decreases v.len() - i,
    {
        assert(all[i as int] == v@[i as int]@);
        if v[i].is(h) {
            assert(all[i as int] == h@);
            return true;
        }
        i += 1;
    }
    assert forall|j: int| 0 <= j < all.len() implies all[j] != h@ by {
        assert(all[j] != h@);
    }
    false
}

fn add_hold(v: &mut Vec<Held>, disk: &str, h: Hold)
    ensures
        keeps(final(v)@) == with_keep(keeps(old(v)@), disk@, h@),
{
    let ghost before = keeps(v@);
    let mut k: usize = 0;
    while k < v.len() && !same(v[k].disk.as_str(), disk) && !less(disk, v[k].disk.as_str())
        invariant
            k <= v.len(),
            before == keeps(v@),
            forall|j: int|
                0 <= j < k ==> (#[trigger] before[j]).disk != disk@ && !text_less(
                    disk@,
                    before[j].disk,
                ),
        decreases v.len() - k,
    {
        assert(before[k as int].disk == v@[k as int].disk@);
        k += 1;
    }
    proof {
        if k < v.len() {
            assert(before[k as int].disk == v@[k as int].disk@);
        }
        lemma_with_keep(before, disk@, h@, k as int);
    }
    if k < v.len() && same(v[k].disk.as_str(), disk) {
        let mut entry = v.remove(k);
        let ghost had = grips(entry.holds@);
        if !has_hold(&entry.holds, &h) {
            let ghost old_holds = entry.holds@;
            entry.holds.push(h);
            assert(grips(entry.holds@) =~= grips(old_holds).push(h@));
        }
        assert(grips(entry.holds@) == with_grip(had, h@));
        v.insert(k, entry);
        assert(keeps(v@) =~= before.update(
            k as int,
            Keep { disk: disk@, holds: with_grip(before[k as int].holds, h@) },
        ));
    } else {
        let mut holds: Vec<Hold> = Vec::new();
        holds.push(h);
        assert(grips(holds@) =~= seq![h@]);
        v.insert(k, Held { disk: owned(disk), holds });
        assert(keeps(v@) =~= before.insert(k as int, Keep { disk: disk@, holds: seq![h@] }));
    }
}

/// Every disk that backs a mounted filesystem or an active swap area, with the
/// reasons why, in order of their names.
pub fn holders_in(stack: &Stack) -> (r: Vec<Held>)
    ensures
        keeps(r@) == held_by_uses(*stack, stack.in_use()),
{
    let nodes = in_use_nodes(stack);
    let ghost all = uses(nodes@);
    let mut out: Vec<Held> = Vec::new();
    let mut i: usize = 0;
    assert(keeps(out@) =~= Seq::<Keep>::empty());
    while i < nodes.len()
        invariant
            i <= nodes.len(),
            all == uses(nodes@),
            keeps(out@) == held_by_uses(*stack, all.take(i as int)),
        decreases nodes.len() - i,
    {
        proof {
            lemma_take_more(all, i as int);
        }
        if let Some(name) = kernel_name(stack, nodes[i].0.as_str()) {
            let disks = base_disks(stack, name.as_str(), 0);
            let ghost below = texts(disks@);
            let ghost before = keeps(out@);
            let ghost g = Grip { via: name@, kind: nodes@[i as int].1@ };
            let mut k: usize = 0;
            while k < disks.len()
                invariant
                    k <= disks.len(),
                    i < nodes.len(),
                    below == texts(disks@),
                    g == (Grip { via: name@, kind: nodes@[i as int].1@ }),
                    keeps(out@) == with_keeps(before, below.take(k as int), g),
                decreases disks.len() - k,
            {
                proof {
                    lemma_take_more(below, k as int);
                }
                let h = Hold { via: name.clone(), kind: nodes[i].1.copy() };
                add_hold(&mut out, disks[k].as_str(), h);
                k += 1;
            }
            proof {
                lemma_take_all(below);
            }
        }
        i += 1;
    }
    proof {
        lemma_take_all(all);
    }
    out
}

// ---------------------------------------------------------------------------
// laws
// ---------------------------------------------------------------------------

/// Some entry holds the disk for that reason.
pub open spec fn holds_for(s: Seq<Keep>, disk: Seq<char>, g: Grip) -> bool {
    exists|i: int| 0 <= i < s.len() && (#[trigger] s[i]).disk == disk && s[i].holds.contains(g)
}

proof fn lemma_keep_is_added(s: Seq<Keep>, disk: Seq<char>, g: Grip)
    ensures
        holds_for(with_keep(s, disk, g), disk, g),
    decreases s.len(),
{
    let r = with_keep(s, disk, g);
    if s.len() == 0 {
        assert(r[0].holds[0] == g);
        assert(r[0].disk == disk && r[0].holds.contains(g));
    } else if s[0].disk == disk {
        if !s[0].holds.contains(g) {
            assert(s[0].holds.push(g)[s[0].holds.len() as int] == g);
        }
        assert(r[0].disk == disk && r[0].holds.contains(g));
    } else if text_less(disk, s[0].disk) {
        assert(r[0].holds[0] == g);
        assert(r[0].disk == disk && r[0].holds.contains(g));
    } else {
        lemma_keep_is_added(s.skip(1), disk, g);
        let t = with_keep(s.skip(1), disk, g);
        let i = choose|i: int|
            0 <= i < t.len() && (#[trigger] t[i]).disk == disk && t[i].holds.contains(g);
        assert(r[i + 1] == t[i]);
    }
}

proof fn lemma_keep_stays(s: Seq<Keep>, disk: Seq<char>, g: Grip, d: Seq<char>, h: Grip)
    requires
        holds_for(s, d, h),
    ensures
        holds_for(with_keep(s, disk, g), d, h),
    decreases s.len(),
{
    let r = with_keep(s, disk, g);
    let i = choose|i: int|
        0 <= i < s.len() && (#[trigger] s[i]).disk == d && s[i].holds.contains(h);
    if s[0].disk == disk {
        if i == 0 {
            if !s[0].holds.contains(g) {
                let m = choose|m: int| 0 <= m < s[0].holds.len() && s[0].holds[m] == h;
                assert(s[0].holds.push(g)[m] == h);
            }
            assert(r[0].disk == d && r[0].holds.contains(h));
        } else {
            assert(r[i] == s[i]);
        }
    } else if text_less(disk, s[0].disk) {
        assert(r[i + 1] == s[i]);
    } else if i == 0 {
        assert(r[0] == s[0]);
    } else {
        assert(s.skip(1)[i - 1] == s[i]);
        lemma_keep_stays(s.skip(1), disk, g, d, h);
        let t = with_keep(s.skip(1), disk, g);
        let j = choose|j: int|
            0 <= j < t.len() && (#[trigger] t[j]).disk == d && t[j].holds.contains(h);
        assert(r[j + 1] == t[j]);
    }
}

proof fn lemma_keeps_stay(s: Seq<Keep>, disks: Seq<Seq<char>>, g: Grip, d: Seq<char>, h: Grip)
    requires
        holds_for(s, d, h),
    ensures
        holds_for(with_keeps(s, disks, g), d, h),
    decreases disks.len(),
{
    if disks.len() > 0 {
        lemma_keeps_stay(s, disks.drop_last(), g, d, h);
        lemma_keep_stays(with_keeps(s, disks.drop_last(), g), disks.last(), g, d, h);
    }
}

proof fn lemma_keeps_are_added(s: Seq<Keep>, disks: Seq<Seq<char>>, g: Grip, i: int)
    requires
        0 <= i < disks.len(),
    ensures
        holds_for(with_keeps(s, disks, g), disks[i], g),
    decreases disks.len(),
{
    let t = with_keeps(s, disks.drop_last(), g);
    if i == disks.len() - 1 {
        lemma_keep_is_added(t, disks[i], g);
    } else {
        assert(disks.drop_last()[i] == disks[i]);
        lemma_keeps_are_added(s, disks.drop_last(), g, i);
        lemma_keep_stays(t, disks.last(), g, disks[i], g);
    }
}

/// Nothing in use is missed: every disk below a mounted node or a swap area is
/// held, for that reason, however deep the stack between them.
pub proof fn every_disk_in_use_is_held(stack: Stack, us: Seq<Used>, i: int, k: int)
    requires
        0 <= i < us.len(),
        stack.name_behind(us[i].node) is Some,
        0 <= k < stack.disks_below(stack.name_behind(us[i].node)->0, 0).len(),
    ensures
        holds_for(
            held_by_uses(stack, us),
            stack.disks_below(stack.name_behind(us[i].node)->0, 0)[k],
            Grip { via: stack.name_behind(us[i].node)->0, kind: us[i].kind },
        ),
    decreases us.len(),
{
    let name = stack.name_behind(us[i].node)->0;
    let disk = stack.disks_below(name, 0)[k];
    let g = Grip { via: name, kind: us[i].kind };
    let before = held_by_uses(stack, us.drop_last());
    if i == us.len() - 1 {
        lemma_keeps_are_added(before, stack.disks_below(name, 0), g, k);
    } else {
        assert(us.drop_last()[i] == us[i]);
        every_disk_in_use_is_held(stack, us.drop_last(), i, k);
        if let Some(other) = stack.name_behind(us.last().node) {
            lemma_keeps_stay(
                before,
                stack.disks_below(other, 0),
                Grip { via: other, kind: us.last().kind },
                disk,
                g,
            );
        }
    }
}

/// Some use is the reason: its node leads to the holder, and the disk is below
/// it.
pub open spec fn is_reason(stack: Stack, us: Seq<Used>, disk: Seq<char>, g: Grip, i: int) -> bool {
    0 <= i < us.len() && stack.name_behind(us[i].node) == Some(g.via) && us[i].kind == g.kind
        && stack.disks_below(g.via, 0).contains(disk)
}

proof fn lemma_keep_came_from(s: Seq<Keep>, disk: Seq<char>, g: Grip, d: Seq<char>, h: Grip)
    requires
        holds_for(with_keep(s, disk, g), d, h),
    ensures
        holds_for(s, d, h) || (d == disk && h == g),
    decreases s.len(),
{
    let r = with_keep(s, disk, g);
    let i = choose|i: int|
        0 <= i < r.len() && (#[trigger] r[i]).disk == d && r[i].holds.contains(h);
    if s.len() == 0 {
        assert(r[i].holds == seq![g]);
    } else if s[0].disk == disk {
        if i == 0 {
            if h != g {
                if !s[0].holds.contains(g) {
                    let m = choose|m: int|
                        0 <= m < s[0].holds.push(g).len() && s[0].holds.push(g)[m] == h;
                    assert(s[0].holds[m] == h);
                }
                assert(s[0].holds.contains(h));
            }
        } else {
            assert(r[i] == s[i]);
        }
    } else if text_less(disk, s[0].disk) {
        if i == 0 {
            assert(r[0].holds == seq![g]);
        } else {
            assert(r[i] == s[i - 1]);
        }
    } else if i == 0 {
        assert(r[0] == s[0]);
    } else {
        let t = with_keep(s.skip(1), disk, g);
        assert(t[i - 1] == r[i]);
        lemma_keep_came_from(s.skip(1), disk, g, d, h);
        if holds_for(s.skip(1), d, h) {
            let j = choose|j: int|
                0 <= j < s.skip(1).len() && (#[trigger] s.skip(1)[j]).disk == d && s.skip(
                    1,
                )[j].holds.contains(h);
            assert(s[j + 1] == s.skip(1)[j]);
        }
    }
}

proof fn lemma_keeps_came_from(
    s: Seq<Keep>,
    disks: Seq<Seq<char>>,
    g: Grip,
    d: Seq<char>,
    h: Grip,
)
    requires
        holds_for(with_keeps(s, disks, g), d, h),
    ensures
        holds_for(s, d, h) || (disks.contains(d) && h == g),
    decreases disks.len(),
{
    if disks.len() > 0 {
        let t = with_keeps(s, disks.drop_last(), g);
        lemma_keep_came_from(t, disks.last(), g, d, h);
        if holds_for(t, d, h) {
            lemma_keeps_came_from(s, disks.drop_last(), g, d, h);
            if disks.drop_last().contains(d) {
                let j = choose|j: int| 0 <= j < disks.drop_last().len() && disks.drop_last()[j] == d;
                assert(disks[j] == d);
            }
        } else {
            assert(disks[disks.len() - 1] == d);
        }
    }
}

/// Nothing idle is held: a disk is held only for something that is mounted or
/// swapped to above it.
pub proof fn a_held_disk_is_in_use(stack: Stack, us: Seq<Used>, disk: Seq<char>, g: Grip)
    requires
        holds_for(held_by_uses(stack, us), disk, g),
    ensures
        exists|i: int| #[trigger] is_reason(stack, us, disk, g, i),
    decreases us.len(),
{
    if us.len() > 0 {
        let before = held_by_uses(stack, us.drop_last());
        match stack.name_behind(us.last().node) {
            Some(name) => {
                lemma_keeps_came_from(
                    before,
                    stack.disks_below(name, 0),
                    Grip { via: name, kind: us.last().kind },
                    disk,
                    g,
                );
            },
            None => {},
        }
        if holds_for(before, disk, g) {
            a_held_disk_is_in_use(stack, us.drop_last(), disk, g);
            let i = choose|i: int| #[trigger] is_reason(stack, us.drop_last(), disk, g, i);
            assert(is_reason(stack, us, disk, g, i));
        } else {
            assert(is_reason(stack, us, disk, g, us.len() - 1));
        }
    }
}

/// Rates are never made of time that did not pass.
pub proof fn time_has_to_pass(now: BlockStats, before: BlockStats)
    ensures
        now.sampled_at_unix_ms <= before.sampled_at_unix_ms ==> now.since(before) is None,
        now.since(now) is None,
{
}

} // verus!
