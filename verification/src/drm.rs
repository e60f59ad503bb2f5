//! Display outputs, from `/sys/class/drm`.
//!
//! DisplayPort Alternate Mode is a USB-C feature, and `/sys/class/typec` can
//! describe only the negotiation. Whether a picture came out the other end is in
//! DRM, where a connector either reads `connected` or does not.

use vstd::prelude::*;
use crate::model::{DisplayConnector, DisplayIdentity, DisplayMode};
use crate::number::{dec, number, Ratio};
use crate::order::{lemma_placed_by, placed_by, sorted_by};
use crate::seqs::{gathered, lemma_take_all, lemma_take_more};
use crate::text::{
    begins_with, cat, chars_of, cut_first, less, lines, lines_of, no_texts, opt_text, owned,
    same, split_once, starts_with, text_less, texts, trim, trimmed,
};

verus! {

/// The base EDID block. Extension blocks follow in units of the same size.
pub const EDID_BLOCK: usize = 128;

pub open spec fn edid_header() -> Seq<u8> {
    seq![0x00u8, 0xff, 0xff, 0xff, 0xff, 0xff, 0xff, 0x00]
}

/// Where the four descriptors of the base block begin.
pub open spec fn descriptor_at(k: int) -> int {
    54 + 18 * k
}

// ---------------------------------------------------------------------------
// the identity
// ---------------------------------------------------------------------------

/// A display's identity, as text.
pub struct Screen {
    pub manufacturer: Option<Seq<char>>,
    pub manufacturer_name: Option<Seq<char>>,
    pub product_code: Option<u16>,
    pub serial: Option<u32>,
    pub year: Option<u32>,
    pub edid_version: Option<Seq<char>>,
    pub name: Option<Seq<char>>,
    pub serial_text: Option<Seq<char>>,
    pub preferred_mode: Option<DisplayMode>,
}

pub open spec fn screen(d: DisplayIdentity) -> Screen {
    Screen {
        manufacturer: opt_text(d.manufacturer),
        manufacturer_name: opt_text(d.manufacturer_name),
        product_code: d.product_code,
        serial: d.serial,
        year: d.year,
        edid_version: opt_text(d.edid_version),
        name: opt_text(d.name),
        serial_text: opt_text(d.serial_text),
        preferred_mode: d.preferred_mode,
    }
}

pub open spec fn screen_opt(o: Option<DisplayIdentity>) -> Option<Screen> {
    match o {
        Some(d) => Some(screen(d)),
        None => None,
    }
}

/// One letter of a manufacturer code: five bits, `A` is 1.
pub open spec fn letter(n: nat) -> char {
    (64 + n) as char
}

/// The three-letter manufacturer code packed into sixteen bits.
pub open spec fn pnp_code(v: u16) -> Seq<char> {
    seq![
        letter(v as nat / 1024 % 32),
        letter(v as nat / 32 % 32),
        letter(v as nat % 32),
    ]
}

pub fn pnp_id(v: u16) -> (r: String)
    ensures
        r@ == pnp_code(v),
{
    let a: u8 = (v / 1024 % 32) as u8;
    let b: u8 = (v / 32 % 32) as u8;
    let c: u8 = (v % 32) as u8;
    let mut out = String::new();
    out.push((64 + a) as char);
    out.push((64 + b) as char);
    out.push((64 + c) as char);
    assert(out@ =~= pnp_code(v));
    out
}

/// Names for the codes likely to turn up on a laptop or a desk. The code itself
/// is always reported.
pub open spec fn vendor_of(code: Seq<char>) -> Option<Seq<char>> {
    if code == "AAA"@ {
        Some("Avolites"@)
    } else if code == "ACI"@ {
        Some("Asus"@)
    } else if code == "ACR"@ {
        Some("Acer"@)
    } else if code == "AOC"@ {
        Some("AOC"@)
    } else if code == "APP"@ {
        Some("Apple"@)
    } else if code == "AUO"@ {
        Some("AU Optronics"@)
    } else if code == "BNQ"@ {
        Some("BenQ"@)
    } else if code == "BOE"@ {
        Some("BOE"@)
    } else if code == "CMN"@ {
        Some("Chi Mei"@)
    } else if code == "DEL"@ {
        Some("Dell"@)
    } else if code == "GSM"@ {
        Some("LG"@)
    } else if code == "HWP"@ {
        Some("HP"@)
    } else if code == "IVM"@ {
        Some("Iiyama"@)
    } else if code == "LEN"@ {
        Some("Lenovo"@)
    } else if code == "LGD"@ {
        Some("LG Display"@)
    } else if code == "MSI"@ {
        Some("MSI"@)
    } else if code == "NCP"@ {
        Some("Nec"@)
    } else if code == "PHL"@ {
        Some("Philips"@)
    } else if code == "SAM"@ {
        Some("Samsung"@)
    } else if code == "SDC"@ {
        Some("Samsung Display"@)
    } else if code == "SHP"@ {
        Some("Sharp"@)
    } else if code == "VSC"@ {
        Some("ViewSonic"@)
    } else {
        None
    }
}

pub fn pnp_vendor(code: &str) -> (r: Option<&'static str>)
    ensures
        match r {
            Some(s) => vendor_of(code@) == Some(s@),
            None => vendor_of(code@) is None,
        },
{
    if same(code, "AAA") {
        Some("Avolites")
    } else if same(code, "ACI") {
        Some("Asus")
    } else if same(code, "ACR") {
        Some("Acer")
    } else if same(code, "AOC") {
        Some("AOC")
    } else if same(code, "APP") {
        Some("Apple")
    } else if same(code, "AUO") {
        Some("AU Optronics")
    } else if same(code, "BNQ") {
        Some("BenQ")
    } else if same(code, "BOE") {
        Some("BOE")
    } else if same(code, "CMN") {
        Some("Chi Mei")
    } else if same(code, "DEL") {
        Some("Dell")
    } else if same(code, "GSM") {
        Some("LG")
    } else if same(code, "HWP") {
        Some("HP")
    } else if same(code, "IVM") {
        Some("Iiyama")
    } else if same(code, "LEN") {
        Some("Lenovo")
    } else if same(code, "LGD") {
        Some("LG Display")
    } else if same(code, "MSI") {
        Some("MSI")
    } else if same(code, "NCP") {
        Some("Nec")
    } else if same(code, "PHL") {
        Some("Philips")
    } else if same(code, "SAM") {
        Some("Samsung")
    } else if same(code, "SDC") {
        Some("Samsung Display")
    } else if same(code, "SHP") {
        Some("Sharp")
    } else if same(code, "VSC") {
        Some("ViewSonic")
    } else {
        None
    }
}

/// A byte of descriptor text; anything but printable ASCII is a question mark.
pub open spec fn printable(b: u8) -> char {
    if 0x20 <= b <= 0x7e {
        b as char
    } else {
        '?'
    }
}

/// The position of the line feed that ends descriptor text, or its length.
pub open spec fn text_end(b: Seq<u8>) -> int
    decreases b.len(),
{
    if b.len() == 0 || b[0] == 0x0a {
        0
    } else {
        1 + text_end(b.skip(1))
    }
}

pub open spec fn printed(b: Seq<u8>) -> Seq<char> {
    Seq::new(b.len(), |i: int| printable(b[i]))
}

/// Descriptor text is padded with a line feed and then spaces.
pub open spec fn label_in(b: Seq<u8>) -> Option<Seq<char>> {
    let t = trimmed(printed(b.take(text_end(b))));
    if t.len() == 0 {
        None
    } else {
        Some(t)
    }
}

proof fn lemma_text_end(b: Seq<u8>, n: int)
    requires
        0 <= n <= b.len(),
        forall|k: int| 0 <= k < n ==> #[trigger] b[k] != 0x0a,
        n < b.len() ==> b[n] == 0x0a,
    ensures
        text_end(b) == n,
    decreases n,
{
    if n > 0 {
        assert(b[0] != 0x0a);
        assert forall|k: int| 0 <= k < n - 1 implies #[trigger] b.skip(1)[k] != 0x0a by {
            assert(b[k + 1] != 0x0a);
        }
        lemma_text_end(b.skip(1), n - 1);
    }
}

fn descriptor_text(raw: &[u8], from: usize, to: usize) -> (r: Option<String>)
    requires
        from <= to <= raw@.len(),
    ensures
        opt_text(r) == label_in(raw@.subrange(from as int, to as int)),
{
    let ghost b = raw@.subrange(from as int, to as int);
    let mut out = String::new();
    let mut i: usize = from;
    while i < to && raw[i] != 0x0a
        invariant
            from <= i <= to <= raw@.len(),
            b == raw@.subrange(from as int, to as int),
            forall|k: int| 0 <= k < i - from ==> #[trigger] b[k] != 0x0a,
            out@ == printed(b.take(i - from)),
        decreases to - i,
    {
        let c: u8 = raw[i];
        assert(b[i - from] == c);
        if 0x20 <= c && c <= 0x7e {
            out.push(c as char);
        } else {
            out.push('?');
        }
        assert(printed(b.take(i - from + 1)) =~= printed(b.take(i - from)).push(printable(c)));
        i += 1;
    }
    proof {
        if i < to {
            assert(b[i - from] == raw@[i as int]);
        }
        lemma_text_end(b, i - from);
    }
    let t = trim(out.as_str());
    let n = chars_of(t.as_str());
    if n.len() == 0 {
        None
    } else {
        Some(t)
    }
}

/// A twelve-bit count: eight bits of its own, and four in a shared byte.
pub open spec fn high_count(shared: u8, low: u8) -> nat {
    (shared as nat / 16) * 256 + low as nat
}

pub open spec fn low_count(shared: u8, low: u8) -> nat {
    (shared as nat % 16) * 256 + low as nat
}

/// A detailed timing. The refresh rate is the pixel clock over all the pixels of
/// a frame, blanking included.
pub open spec fn timing(d: Seq<u8>) -> Option<DisplayMode> {
    let khz = (d[0] as nat + 256 * d[1] as nat) * 10;
    let width = high_count(d[4], d[2]);
    let height = high_count(d[7], d[5]);
    let across = width + low_count(d[4], d[3]);
    let down = height + low_count(d[7], d[6]);
    if khz == 0 || width == 0 || height == 0 {
        None
    } else {
        Some(
            DisplayMode {
                width: width as u32,
                height: height as u32,
                refresh_hz: Ratio { num: (khz * 1000) as u64, den: (across * down) as u64 },
                pixel_clock_khz: khz as u32,
            },
        )
    }
}

fn detailed_timing(raw: &[u8], at: usize) -> (r: Option<DisplayMode>)
    requires
        at + 18 <= raw@.len(),
    ensures
        r == timing(raw@.subrange(at as int, at + 18)),
        r matches Some(m) ==> m.refresh_hz.den > 0,
{
    let ghost d = raw@.subrange(at as int, at + 18);
    let khz: u32 = (raw[at] as u32 + 256 * raw[at + 1] as u32) * 10;
    let width: u32 = (raw[at + 4] as u32 / 16) * 256 + raw[at + 2] as u32;
    let height: u32 = (raw[at + 7] as u32 / 16) * 256 + raw[at + 5] as u32;
    let across: u32 = width + (raw[at + 4] as u32 % 16) * 256 + raw[at + 3] as u32;
    let down: u32 = height + (raw[at + 7] as u32 % 16) * 256 + raw[at + 6] as u32;
    proof {
        assert(d[0] == raw@[at as int]);
        assert(d[1] == raw@[at + 1]);
        assert(d[2] == raw@[at + 2]);
        assert(d[3] == raw@[at + 3]);
        assert(d[4] == raw@[at + 4]);
        assert(d[5] == raw@[at + 5]);
        assert(d[6] == raw@[at + 6]);
        assert(d[7] == raw@[at + 7]);
    }
    if khz == 0 || width == 0 || height == 0 {
        return None;
    }
    proof {
        assert(0 < across * down <= 10_000 * 10_000) by (nonlinear_arith)
            requires
                0 < across <= 10_000,
                0 < down <= 10_000,
        ;
    }
    Some(
        DisplayMode {
            width,
            height,
            refresh_hz: Ratio { num: khz as u64 * 1000, den: across as u64 * down as u64 },
            pixel_clock_khz: khz,
        },
    )
}

/// What the descriptors of a block say, taken in order.
pub struct Described {
    pub name: Option<Seq<char>>,
    pub serial: Option<Seq<char>>,
    pub mode: Option<DisplayMode>,
}

/// One descriptor more. Two zero bytes in front mark text; anything else is a
/// timing, and the first timing is the preferred one.
pub open spec fn described_by(so: Described, d: Seq<u8>) -> Described {
    if d[0] == 0 && d[1] == 0 {
        if d[3] == 0xfc {
            Described { name: label_in(d.subrange(5, 18)), ..so }
        } else if d[3] == 0xff {
            Described { serial: label_in(d.subrange(5, 18)), ..so }
        } else {
            so
        }
    } else if so.mode is None {
        Described { mode: timing(d), ..so }
    } else {
        so
    }
}

pub open spec fn descriptors(base: Seq<u8>, k: nat) -> Described
    decreases k,
{
    if k == 0 {
        Described { name: None, serial: None, mode: None }
    } else {
        described_by(
            descriptors(base, (k - 1) as nat),
            base.subrange(descriptor_at(k - 1), descriptor_at(k - 1) + 18),
        )
    }
}

pub open spec fn byte_sum(s: Seq<u8>) -> nat
    decreases s.len(),
{
    if s.len() == 0 {
        0
    } else {
        byte_sum(s.drop_last()) + s.last() as nat
    }
}

/// A valid base block: the header, and bytes that sum to zero. Without the sum
/// a corrupt read would be reported as a monitor.
pub open spec fn valid_edid(raw: Seq<u8>) -> bool {
    raw.len() >= 128 && raw.take(8) == edid_header() && byte_sum(raw.take(128)) % 256 == 0
}

pub open spec fn edid_screen(raw: Seq<u8>) -> Screen {
    let d = descriptors(raw, 4);
    let code = pnp_code((raw[8] as nat * 256 + raw[9] as nat) as u16);
    Screen {
        manufacturer: Some(code),
        manufacturer_name: vendor_of(code),
        product_code: Some((raw[10] as nat + 256 * raw[11] as nat) as u16),
        serial: Some(
            (raw[12] as nat + 256 * raw[13] as nat + 65_536 * raw[14] as nat + 16_777_216
                * raw[15] as nat) as u32,
        ),
        year: if raw[17] > 0 {
            Some((1990 + raw[17]) as u32)
        } else {
            None
        },
        edid_version: Some(dec(raw[18] as nat) + "."@ + dec(raw[19] as nat)),
        name: d.name,
        serial_text: d.serial,
        preferred_mode: d.mode,
    }
}

/// The parts of an EDID that identify a display, if it is a valid one.
pub open spec fn decoded_edid(raw: Seq<u8>) -> Option<Screen> {
    if valid_edid(raw) {
        Some(edid_screen(raw))
    } else {
        None
    }
}

fn has_header(raw: &[u8]) -> (r: bool)
    requires
        raw@.len() >= 128,
    ensures
        r == (raw@.take(8) == edid_header()),
{
    let mut i: usize = 1;
    let ghost h = edid_header();
    if raw[0] != 0 || raw[7] != 0 {
        assert(raw@.take(8)[0] == raw@[0]);
        assert(raw@.take(8)[7] == raw@[7]);
        assert(h[0] == 0 && h[7] == 0);
        return false;
    }
    while i < 7
        invariant
            1 <= i <= 7,
            h == edid_header(),
            raw@.len() >= 128,
            raw@[0] == 0,
            raw@[7] == 0,
            forall|k: int| 1 <= k < i ==> #[trigger] raw@[k] == 0xff,
        decreases 7 - i,
    {
        if raw[i] != 0xff {
            assert(raw@.take(8)[i as int] == raw@[i as int]);
            assert(h[i as int] == 0xff);
            return false;
        }
        i += 1;
    }
    assert(raw@.take(8) =~= h) by {
        assert forall|k: int| 0 <= k < 8 implies raw@.take(8)[k] == h[k] by {
            if 1 <= k < 7 {
                assert(raw@[k] == 0xff);
            }
        }
    }
    true
}

fn sums_to_zero(raw: &[u8]) -> (r: bool)
    requires
        raw@.len() >= 128,
    ensures
        r == (byte_sum(raw@.take(128)) % 256 == 0),
{
    let ghost base = raw@.take(128);
    let mut sum: u32 = 0;
    let mut i: usize = 0;
    while i < 128
        invariant
            i <= 128,
            raw@.len() >= 128,
            base == raw@.take(128),
            sum == byte_sum(base.take(i as int)),
            sum <= 255 * i,
        decreases 128 - i,
    {
        proof {
            lemma_take_more(base, i as int);
        }
        sum = sum + raw[i] as u32;
        i += 1;
    }
    proof {
        lemma_take_all(base);
    }
    sum % 256 == 0
}

/// Reads the descriptors into an identity.
fn read_descriptors(raw: &[u8], id: DisplayIdentity) -> (r: DisplayIdentity)
    requires
        raw@.len() >= 128,
        id.name is None,
        id.serial_text is None,
        id.preferred_mode is None,
    ensures
        screen(r) == (Screen {
            name: descriptors(raw@, 4).name,
            serial_text: descriptors(raw@, 4).serial,
            preferred_mode: descriptors(raw@, 4).mode,
            ..screen(id)
        }),
{
    let ghost before = screen(id);
    let mut out = id;
    let mut k: usize = 0;
    assert(screen(out) == (Screen {
        name: descriptors(raw@, 0).name,
        serial_text: descriptors(raw@, 0).serial,
        preferred_mode: descriptors(raw@, 0).mode,
        ..before
    }));
    while k < 4
        invariant
            k <= 4,
            raw@.len() >= 128,
            screen(out) == (Screen {
                name: descriptors(raw@, k as nat).name,
                serial_text: descriptors(raw@, k as nat).serial,
                preferred_mode: descriptors(raw@, k as nat).mode,
                ..before
            }),
        decreases 4 - k,
    {
        let at: usize = 54 + 18 * k;
        let ghost d = raw@.subrange(at as int, at + 18);
        proof {
            assert(d[0] == raw@[at as int]);
            assert(d[1] == raw@[at + 1]);
            assert(d[3] == raw@[at + 3]);
            assert(d.subrange(5, 18) =~= raw@.subrange(at + 5, at + 18));
            assert(descriptor_at(k as int) == at);
            assert(descriptors(raw@, (k + 1) as nat) == described_by(
                descriptors(raw@, k as nat),
                d,
            ));
        }
        if raw[at] == 0 && raw[at + 1] == 0 {
            if raw[at + 3] == 0xfc {
                out.name = descriptor_text(raw, at + 5, at + 18);
            } else if raw[at + 3] == 0xff {
                out.serial_text = descriptor_text(raw, at + 5, at + 18);
            }
        } else if out.preferred_mode.is_none() {
            out.preferred_mode = detailed_timing(raw, at);
        }
        k += 1;
    }
    out
}

pub fn decode_edid(raw: &[u8]) -> (r: Option<DisplayIdentity>)
    ensures
        screen_opt(r) == decoded_edid(raw@),
{
    if raw.len() < EDID_BLOCK {
        return None;
    }
    if !has_header(raw) || !sums_to_zero(raw) {
        return None;
    }
    let packed: u16 = raw[8] as u16 * 256 + raw[9] as u16;
    let code = pnp_id(packed);
    let vendor = match pnp_vendor(code.as_str()) {
        Some(s) => Some(owned(s)),
        None => None,
    };
    let product: u16 = raw[10] as u16 + 256 * raw[11] as u16;
    let serial: u32 = raw[12] as u32 + 256 * raw[13] as u32 + 65_536 * raw[14] as u32 + 16_777_216
        * raw[15] as u32;
    let major = number(raw[18] as u64);
    let minor = number(raw[19] as u64);
    let dotted = cat(major.as_str(), ".");
    let version = cat(dotted.as_str(), minor.as_str());
    let year: Option<u32> = if raw[17] > 0 {
        Some(1990 + raw[17] as u32)
    } else {
        None
    };
    let id = DisplayIdentity {
        manufacturer: Some(code),
        manufacturer_name: vendor,
        product_code: Some(product),
        serial: Some(serial),
        year,
        edid_version: Some(version),
        name: None,
        serial_text: None,
        preferred_mode: None,
    };
    Some(read_descriptors(raw, id))
}

// ---------------------------------------------------------------------------
// connectors
// ---------------------------------------------------------------------------

/// What was read of one entry under `/sys/class/drm`.
#[derive(Debug, Clone)]
pub struct Attributes {
    pub name: String,
    pub connector_id: Option<u32>,
    pub status: Option<String>,
    pub enabled: Option<bool>,
    pub dpms: Option<String>,
    pub modes: Option<String>,
    pub edid: Option<Vec<u8>>,
}

/// The socket an entry names: `card1-HDMI-A-1` names `HDMI-A-1`. A card itself
/// is none, and neither is a writeback sink, which nobody can plug into.
pub open spec fn socket_of(name: Seq<char>) -> Option<Seq<char>> {
    if begins_with(name, "card"@) {
        match cut_first(name, '-') {
            Some((_, c)) => if begins_with(c, "Writeback"@) {
                None
            } else {
                Some(c)
            },
            None => None,
        }
    } else {
        None
    }
}

fn find_socket(name: &str) -> (r: Option<String>)
    ensures
        opt_text(r) == socket_of(name@),
{
    if !starts_with(name, "card") {
        return None;
    }
    match split_once(name, '-') {
        Some((_, c)) => if starts_with(c.as_str(), "Writeback") {
            None
        } else {
            Some(c)
        },
        None => None,
    }
}

/// A connector, as text.
pub struct Output {
    pub name: Seq<char>,
    pub connector: Seq<char>,
    pub connector_id: Option<u32>,
    pub status: Option<Seq<char>>,
    pub enabled: Option<bool>,
    pub dpms: Option<Seq<char>>,
    pub modes: Seq<Seq<char>>,
    pub display: Option<Screen>,
}

pub open spec fn output(d: DisplayConnector) -> Output {
    Output {
        name: d.name@,
        connector: d.connector@,
        connector_id: d.connector_id,
        status: opt_text(d.status),
        enabled: d.enabled,
        dpms: opt_text(d.dpms),
        modes: texts(d.modes@),
        display: screen_opt(d.display),
    }
}

pub open spec fn outputs(v: Seq<DisplayConnector>) -> Seq<Output> {
    Seq::new(v.len(), |i: int| output(v[i]))
}

pub open spec fn output_name() -> spec_fn(Output) -> Seq<char> {
    |o: Output| o.name
}

pub open spec fn mode_lines(o: Option<String>) -> Seq<Seq<char>> {
    match o {
        Some(m) => lines_of(m@),
        None => Seq::empty(),
    }
}

pub open spec fn identity_in(o: Option<Vec<u8>>) -> Option<Screen> {
    match o {
        Some(b) => decoded_edid(b@),
        None => None,
    }
}

/// The connector of an entry, where it is one.
pub open spec fn connector_of() -> spec_fn(Attributes) -> Seq<Output> {
    |a: Attributes|
        match socket_of(a.name@) {
            Some(c) => seq![
                Output {
                    name: a.name@,
                    connector: c,
                    connector_id: a.connector_id,
                    status: opt_text(a.status),
                    enabled: a.enabled,
                    dpms: opt_text(a.dpms),
                    modes: mode_lines(a.modes),
                    display: identity_in(a.edid),
                },
            ],
            None => Seq::empty(),
        }
}

fn place_output(v: &mut Vec<DisplayConnector>, x: DisplayConnector)
    ensures
        outputs(final(v)@) == placed_by(outputs(old(v)@), output(x), output_name()),
{
    let ghost before = outputs(v@);
    let ghost key = output_name();
    let mut k: usize = 0;
    while k < v.len() && !less(x.name.as_str(), v[k].name.as_str())
        invariant
            k <= v.len(),
            before == outputs(v@),
            key == output_name(),
            forall|j: int| 0 <= j < k ==> !text_less(key(output(x)), key(#[trigger] before[j])),
        decreases v.len() - k,
    {
        assert(before[k as int] == output(v@[k as int]));
        k += 1;
    }
    proof {
        if k < v.len() {
            assert(before[k as int] == output(v@[k as int]));
        }
        lemma_placed_by(before, output(x), key, k as int);
    }
    v.insert(k, x);
    assert(outputs(v@) =~= before.insert(k as int, output(x)));
}

/// Every connector among the entries, in order of its name.
pub fn read_from(entries: &Vec<Attributes>) -> (r: Vec<DisplayConnector>)
    ensures
        outputs(r@) == sorted_by(gathered(entries@, connector_of()), output_name()),
{
    let ghost f = connector_of();
    let mut out: Vec<DisplayConnector> = Vec::new();
    let mut i: usize = 0;
    assert(outputs(out@) =~= Seq::<Output>::empty());
    while i < entries.len()
        invariant
            i <= entries.len(),
            f == connector_of(),
            outputs(out@) == sorted_by(gathered(entries@.take(i as int), f), output_name()),
        decreases entries.len() - i,
    {
        let ghost sofar = gathered(entries@.take(i as int), f);
        proof {
            lemma_take_more(entries@, i as int);
        }
        let a = &entries[i];
        if let Some(connector) = find_socket(a.name.as_str()) {
            let modes = match &a.modes {
                Some(m) => lines(m.as_str()),
                None => no_texts(),
            };
            let display = match &a.edid {
                Some(b) => decode_edid(b.as_slice()),
                None => None,
            };
            let x = DisplayConnector {
                name: a.name.clone(),
                connector,
                connector_id: a.connector_id,
                status: crate::text::copy_opt(&a.status),
                enabled: a.enabled,
                dpms: crate::text::copy_opt(&a.dpms),
                modes,
                display,
            };
            proof {
                let more = sofar + f(*a);
                assert(more.drop_last() =~= sofar);
                assert(more.last() == output(x));
            }
            place_output(&mut out, x);
        } else {
            assert(sofar + f(*a) =~= sofar);
        }
        i += 1;
    }
    proof {
        lemma_take_all(entries@);
    }
    out
}

// ---------------------------------------------------------------------------
// laws
// ---------------------------------------------------------------------------

/// A block that is short, has no header or does not sum to zero yields nothing.
pub proof fn a_corrupt_block_yields_no_monitor(raw: Seq<u8>)
    requires
        raw.len() < 128 || raw.take(8) != edid_header() || byte_sum(raw.take(128)) % 256 != 0,
    ensures
        decoded_edid(raw) is None,
{
}

/// A preferred mode has a refresh rate that can be shown.
pub proof fn a_timing_has_a_rate(d: Seq<u8>)
    requires
        d.len() == 18,
        timing(d) is Some,
    ensures
        timing(d)->0.refresh_hz.den > 0,
        timing(d)->0.width > 0,
        timing(d)->0.height > 0,
{
    let width = high_count(d[4], d[2]);
    let height = high_count(d[7], d[5]);
    let across = width + low_count(d[4], d[3]);
    let down = height + low_count(d[7], d[6]);
    assert(0 < across * down <= 10_000 * 10_000) by (nonlinear_arith)
        requires
            0 < across <= 10_000,
            0 < down <= 10_000,
    ;
}

} // verus!
