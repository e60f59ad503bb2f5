//! What a watcher compares to decide whether anything changed.
//!
//! A fingerprint is a hash over a list of marks, one for each reading that
//! counts. It covers topology, port and contract state, batteries, displays,
//! USB4 routers, and how many kernel events have been logged.
//!
//! What moves on its own would keep a display from ever holding still. So
//! capture time and uptime are left out, and I/O counters and throughput; and
//! battery draw counts in steps of half a watt.

use std::collections::hash_map::DefaultHasher;
use std::hash::Hasher;
use vstd::prelude::*;
use vstd::bytes::{spec_u64_to_le_bytes, u64_to_le_bytes};
use vstd::std_specs::hash::DefaultHasherAdditionalSpecFns;
use vstd::string::StrSliceExecFns;
use vstd::utf8::encode_utf8;
use crate::double::Double;
use crate::model::{
    AltMode, Battery, BlockDevice, Cable, DisplayConnector, HubPort, KernelLog, KernelLogSource,
    Partner, Pdo, PdoKind, PdoRole, PortPowerSupply, PowerDelivery, Retimer, RoleField, Snapshot,
    ThunderboltRouter, TypecPort, UsbDevice, UsbInterface,
};
use crate::number::Decimal;
use crate::seqs::{gathered, lemma_take_all, lemma_take_more, pointees};
use crate::snapshot::{walked, walked_all};
use crate::text::opt_text;

verus! {

// ---------------------------------------------------------------------------
// marks
// ---------------------------------------------------------------------------

/// One reading that counts.
pub enum Mark {
    Missing,
    Flag(bool),
    Number(u64),
    Text(Seq<char>),
}

/// A mark as it is hashed: what it is, then what it holds.
pub open spec fn bytes_of(m: Mark) -> Seq<u8> {
    match m {
        Mark::Missing => seq![0u8],
        Mark::Flag(b) => seq![
            1u8,
            if b {
                1u8
            } else {
                0u8
            },
        ],
        Mark::Number(n) => seq![2u8] + spec_u64_to_le_bytes(n),
        Mark::Text(s) => seq![3u8] + encode_utf8(s),
    }
}

pub open spec fn written(s: Seq<Mark>) -> Seq<Seq<u8>> {
    Seq::new(s.len(), |i: int| bytes_of(s[i]))
}

pub open spec fn text_mark(o: Option<String>) -> Mark {
    match o {
        Some(s) => Mark::Text(s@),
        None => Mark::Missing,
    }
}

pub open spec fn raw_mark(o: Option<RoleField>) -> Mark {
    match o {
        Some(f) => Mark::Text(f.raw@),
        None => Mark::Missing,
    }
}

pub open spec fn number_mark(o: Option<u32>) -> Mark {
    match o {
        Some(n) => Mark::Number(n as u64),
        None => Mark::Missing,
    }
}

pub open spec fn size_mark(o: Option<u64>) -> Mark {
    match o {
        Some(n) => Mark::Number(n),
        None => Mark::Missing,
    }
}

pub open spec fn id_mark(o: Option<u16>) -> Mark {
    match o {
        Some(n) => Mark::Number(n as u64),
        None => Mark::Missing,
    }
}

pub open spec fn class_mark(o: Option<u8>) -> Mark {
    match o {
        Some(n) => Mark::Number(n as u64),
        None => Mark::Missing,
    }
}

pub open spec fn flag_mark(o: Option<bool>) -> Mark {
    match o {
        Some(b) => Mark::Flag(b),
        None => Mark::Missing,
    }
}

pub open spec fn seconds_mark(o: Option<Double>) -> Mark {
    match o {
        Some(d) => Mark::Number(d.bits),
        None => Mark::Missing,
    }
}

/// A hash in progress, and the marks that went into it.
struct Print {
    hasher: DefaultHasher,
    done: Ghost<Seq<Mark>>,
}

impl Print {
    closed spec fn marks(self) -> Seq<Mark> {
        self.done@
    }

    /// The hash covers exactly the marks.
    closed spec fn wf(self) -> bool {
        self.hasher@ == written(self.done@)
    }

    fn start() -> (r: Self)
        ensures
            r.wf(),
            r.marks() == Seq::<Mark>::empty(),
    {
        let r = Print { hasher: DefaultHasher::new(), done: Ghost(Seq::empty()) };
        assert(r.hasher@ =~= written(r.done@));
        r
    }

    fn finish(&self) -> (r: u64)
        requires
            self.wf(),
        ensures
            r == DefaultHasher::spec_finish(written(self.marks())),
    {
        self.hasher.finish()
    }

    fn missing(&mut self)
        requires
            old(self).wf(),
        ensures
            final(self).wf(),
            final(self).marks() == old(self).marks().push(Mark::Missing),
    {
        let ghost before = self.done@;
        let mut b: Vec<u8> = Vec::new();
        b.push(0);
        self.hasher.write(b.as_slice());
        self.done = Ghost(before.push(Mark::Missing));
        assert(b@ =~= bytes_of(Mark::Missing));
        assert(self.hasher@ =~= written(self.done@));
    }

    fn flag(&mut self, v: bool)
        requires
            old(self).wf(),
        ensures
            final(self).wf(),
            final(self).marks() == old(self).marks().push(Mark::Flag(v)),
    {
        let ghost before = self.done@;
        let mut b: Vec<u8> = Vec::new();
        b.push(1);
        b.push(
            if v {
                1
            } else {
                0
            },
        );
        self.hasher.write(b.as_slice());
        self.done = Ghost(before.push(Mark::Flag(v)));
        assert(b@ =~= bytes_of(Mark::Flag(v)));
        assert(self.hasher@ =~= written(self.done@));
    }

    fn number(&mut self, n: u64)
        requires
            old(self).wf(),
        ensures
            final(self).wf(),
            final(self).marks() == old(self).marks().push(Mark::Number(n)),
    {
        let ghost before = self.done@;
        let mut b: Vec<u8> = Vec::new();
        b.push(2);
        let mut rest = u64_to_le_bytes(n);
        b.append(&mut rest);
        self.hasher.write(b.as_slice());
        self.done = Ghost(before.push(Mark::Number(n)));
        assert(b@ =~= bytes_of(Mark::Number(n)));
        assert(self.hasher@ =~= written(self.done@));
    }

    fn text(&mut self, s: &str)
        requires
            old(self).wf(),
        ensures
            final(self).wf(),
            final(self).marks() == old(self).marks().push(Mark::Text(s@)),
    {
        let ghost before = self.done@;
        let mut b: Vec<u8> = Vec::new();
        b.push(3);
        let mut rest = s.as_bytes_vec();
        b.append(&mut rest);
        self.hasher.write(b.as_slice());
        self.done = Ghost(before.push(Mark::Text(s@)));
        assert(b@ =~= bytes_of(Mark::Text(s@)));
        assert(self.hasher@ =~= written(self.done@));
    }

    fn opt_text(&mut self, o: &Option<String>)
        requires
            old(self).wf(),
        ensures
            final(self).wf(),
            final(self).marks() == old(self).marks().push(text_mark(*o)),
    {
        match o {
            Some(x) => self.text(x.as_str()),
            None => self.missing(),
        }
    }

    fn opt_raw(&mut self, o: &Option<RoleField>)
        requires
            old(self).wf(),
        ensures
            final(self).wf(),
            final(self).marks() == old(self).marks().push(raw_mark(*o)),
    {
        match o {
            Some(x) => self.text(x.raw.as_str()),
            None => self.missing(),
        }
    }

    fn opt_number(&mut self, o: Option<u32>)
        requires
            old(self).wf(),
        ensures
            final(self).wf(),
            final(self).marks() == old(self).marks().push(number_mark(o)),
    {
        match o {
            Some(x) => self.number(x as u64),
            None => self.missing(),
        }
    }

    fn opt_size(&mut self, o: Option<u64>)
        requires
            old(self).wf(),
        ensures
            final(self).wf(),
            final(self).marks() == old(self).marks().push(size_mark(o)),
    {
        match o {
            Some(x) => self.number(x),
            None => self.missing(),
        }
    }

    fn opt_id(&mut self, o: Option<u16>)
        requires
            old(self).wf(),
        ensures
            final(self).wf(),
            final(self).marks() == old(self).marks().push(id_mark(o)),
    {
        match o {
            Some(x) => self.number(x as u64),
            None => self.missing(),
        }
    }

    fn opt_class(&mut self, o: Option<u8>)
        requires
            old(self).wf(),
        ensures
            final(self).wf(),
            final(self).marks() == old(self).marks().push(class_mark(o)),
    {
        match o {
            Some(x) => self.number(x as u64),
            None => self.missing(),
        }
    }

    fn opt_flag(&mut self, o: Option<bool>)
        requires
            old(self).wf(),
        ensures
            final(self).wf(),
            final(self).marks() == old(self).marks().push(flag_mark(o)),
    {
        match o {
            Some(x) => self.flag(x),
            None => self.missing(),
        }
    }

    fn opt_seconds(&mut self, o: Option<Double>)
        requires
            old(self).wf(),
        ensures
            final(self).wf(),
            final(self).marks() == old(self).marks().push(seconds_mark(o)),
    {
        match o {
            Some(x) => self.number(x.bits),
            None => self.missing(),
        }
    }
}

// ---------------------------------------------------------------------------
// devices
// ---------------------------------------------------------------------------

/// A hub port and what hangs off it.
pub open spec fn hub_port_marks() -> spec_fn(HubPort) -> Seq<Mark> {
    |p: HubPort| seq![
        Mark::Text(p.name@),
        text_mark(p.state),
        text_mark(p.child),
        number_mark(p.over_current_count),
    ]
}

fn hash_hub_port(p: &HubPort, h: &mut Print)
    requires
        old(h).wf(),
    ensures
        final(h).wf(),
        final(h).marks() == old(h).marks() + hub_port_marks()(*p),
{
    let ghost before = h.marks();
    h.text(p.name.as_str());
    h.opt_text(&p.state);
    h.opt_text(&p.child);
    h.opt_number(p.over_current_count);
    assert(h.marks() =~= before + hub_port_marks()(*p));
}

fn hash_hub_ports(v: &Vec<HubPort>, h: &mut Print)
    requires
        old(h).wf(),
    ensures
        final(h).wf(),
        final(h).marks() == old(h).marks() + gathered(v@, hub_port_marks()),
{
    let ghost before = h.marks();
    let mut i: usize = 0;
    assert(h.marks() =~= before + gathered(v@.take(0), hub_port_marks()));
    while i < v.len()
        invariant
            i <= v.len(),
            h.wf(),
            h.marks() == before + gathered(v@.take(i as int), hub_port_marks()),
        decreases v.len() - i,
    {
        proof {
            lemma_take_more(v@, i as int);
        }
        hash_hub_port(&v[i], h);
        assert(h.marks() =~= before + gathered(v@.take(i + 1), hub_port_marks()));
        i += 1;
    }
    proof {
        lemma_take_all(v@);
    }
}

/// An interface and what drives it.
pub open spec fn interface_marks() -> spec_fn(UsbInterface) -> Seq<Mark> {
    |i: UsbInterface| seq![
        Mark::Text(i.sysfs_name@),
        class_mark(i.class),
        text_mark(i.driver),
    ]
}

fn hash_interface(i: &UsbInterface, h: &mut Print)
    requires
        old(h).wf(),
    ensures
        final(h).wf(),
        final(h).marks() == old(h).marks() + interface_marks()(*i),
{
    let ghost before = h.marks();
    h.text(i.sysfs_name.as_str());
    h.opt_class(i.class);
    h.opt_text(&i.driver);
    assert(h.marks() =~= before + interface_marks()(*i));
}

fn hash_interfaces(v: &Vec<UsbInterface>, h: &mut Print)
    requires
        old(h).wf(),
    ensures
        final(h).wf(),
        final(h).marks() == old(h).marks() + gathered(v@, interface_marks()),
{
    let ghost before = h.marks();
    let mut i: usize = 0;
    assert(h.marks() =~= before + gathered(v@.take(0), interface_marks()));
    while i < v.len()
        invariant
            i <= v.len(),
            h.wf(),
            h.marks() == before + gathered(v@.take(i as int), interface_marks()),
        decreases v.len() - i,
    {
        proof {
            lemma_take_more(v@, i as int);
        }
        hash_interface(&v[i], h);
        assert(h.marks() =~= before + gathered(v@.take(i + 1), interface_marks()));
        i += 1;
    }
    proof {
        lemma_take_all(v@);
    }
}

pub open spec fn rate_mark(d: UsbDevice) -> Mark {
    match d.speed {
        Some(s) => Mark::Number(s.mbps.micros),
        None => Mark::Missing,
    }
}

/// A device itself, without the devices below it.
pub open spec fn device_marks() -> spec_fn(UsbDevice) -> Seq<Mark> {
    |d: UsbDevice| seq![
        Mark::Text(d.sysfs_name@),
        id_mark(d.id_vendor),
        id_mark(d.id_product),
        text_mark(d.serial),
        text_mark(d.usb_version),
        number_mark(d.rx_lanes),
        number_mark(d.tx_lanes),
        rate_mark(d),
        number_mark(d.max_power_ma),
        flag_mark(d.self_powered),
        flag_mark(d.authorized),
        text_mark(d.power_control),
    ] + gathered(d.ports@, hub_port_marks()) + gathered(
        d.interfaces@,
        interface_marks(),
    )
}

fn hash_device(d: &UsbDevice, h: &mut Print)
    requires
        old(h).wf(),
    ensures
        final(h).wf(),
        final(h).marks() == old(h).marks() + device_marks()(*d),
{
    let ghost before = h.marks();
    h.text(d.sysfs_name.as_str());
    h.opt_id(d.id_vendor);
    h.opt_id(d.id_product);
    h.opt_text(&d.serial);
    h.opt_text(&d.usb_version);
    h.opt_number(d.rx_lanes);
    h.opt_number(d.tx_lanes);
    match &d.speed {
        Some(s) => h.number(s.mbps.micros),
        None => h.missing(),
    }
    h.opt_number(d.max_power_ma);
    h.opt_flag(d.self_powered);
    h.opt_flag(d.authorized);
    h.opt_text(&d.power_control);
    hash_hub_ports(&d.ports, h);
    hash_interfaces(&d.interfaces, h);
    assert(h.marks() =~= before + device_marks()(*d));
}

// ---------------------------------------------------------------------------
// ports
// ---------------------------------------------------------------------------

pub open spec fn pdo_kind_number(k: PdoKind) -> u64 {
    match k {
        PdoKind::FixedSupply => 0,
        PdoKind::Battery => 1,
        PdoKind::VariableSupply => 2,
        PdoKind::ProgrammableSupply => 3,
        PdoKind::Unknown => 4,
    }
}

pub open spec fn pdo_role_number(k: PdoRole) -> u64 {
    match k {
        PdoRole::Source => 0,
        PdoRole::Sink => 1,
    }
}

fn kind_number(k: PdoKind) -> (r: u64)
    ensures
        r == pdo_kind_number(k),
{
    match k {
        PdoKind::FixedSupply => 0,
        PdoKind::Battery => 1,
        PdoKind::VariableSupply => 2,
        PdoKind::ProgrammableSupply => 3,
        PdoKind::Unknown => 4,
    }
}

fn role_number(k: PdoRole) -> (r: u64)
    ensures
        r == pdo_role_number(k),
{
    match k {
        PdoRole::Source => 0,
        PdoRole::Sink => 1,
    }
}

/// One offer or wish.
pub open spec fn pdo_marks() -> spec_fn(Pdo) -> Seq<Mark> {
    |p: Pdo| seq![
        Mark::Number(p.index as u64),
        Mark::Number(pdo_kind_number(p.kind)),
        Mark::Number(pdo_role_number(p.role)),
        number_mark(p.voltage_mv),
        number_mark(p.current_ma),
        number_mark(p.min_voltage_mv),
        number_mark(p.max_voltage_mv),
        number_mark(p.power_mw_field),
    ]
}

fn hash_pdo(p: &Pdo, h: &mut Print)
    requires
        old(h).wf(),
    ensures
        final(h).wf(),
        final(h).marks() == old(h).marks() + pdo_marks()(*p),
{
    let ghost before = h.marks();
    h.number(p.index as u64);
    h.number(kind_number(p.kind));
    h.number(role_number(p.role));
    h.opt_number(p.voltage_mv);
    h.opt_number(p.current_ma);
    h.opt_number(p.min_voltage_mv);
    h.opt_number(p.max_voltage_mv);
    h.opt_number(p.power_mw_field);
    assert(h.marks() =~= before + pdo_marks()(*p));
}

fn hash_pdos(v: &Vec<Pdo>, h: &mut Print)
    requires
        old(h).wf(),
    ensures
        final(h).wf(),
        final(h).marks() == old(h).marks() + gathered(v@, pdo_marks()),
{
    let ghost before = h.marks();
    let mut i: usize = 0;
    assert(h.marks() =~= before + gathered(v@.take(0), pdo_marks()));
    while i < v.len()
        invariant
            i <= v.len(),
            h.wf(),
            h.marks() == before + gathered(v@.take(i as int), pdo_marks()),
        decreases v.len() - i,
    {
        proof {
            lemma_take_more(v@, i as int);
        }
        hash_pdo(&v[i], h);
        assert(h.marks() =~= before + gathered(v@.take(i + 1), pdo_marks()));
        i += 1;
    }
    proof {
        lemma_take_all(v@);
    }
}

/// What a source offers and a sink wishes for.
pub open spec fn pd_marks() -> spec_fn(PowerDelivery) -> Seq<Mark> {
    |pd: PowerDelivery| seq![
        Mark::Text(pd.name@),
        text_mark(pd.revision),
    ] + gathered(pd.source_capabilities@, pdo_marks()) + gathered(
        pd.sink_capabilities@,
        pdo_marks(),
    )
}

fn hash_pd(pd: &PowerDelivery, h: &mut Print)
    requires
        old(h).wf(),
    ensures
        final(h).wf(),
        final(h).marks() == old(h).marks() + pd_marks()(*pd),
{
    let ghost before = h.marks();
    h.text(pd.name.as_str());
    h.opt_text(&pd.revision);
    hash_pdos(&pd.source_capabilities, h);
    hash_pdos(&pd.sink_capabilities, h);
    assert(h.marks() =~= before + pd_marks()(*pd));
}

fn hash_pds(v: &Vec<PowerDelivery>, h: &mut Print)
    requires
        old(h).wf(),
    ensures
        final(h).wf(),
        final(h).marks() == old(h).marks() + gathered(v@, pd_marks()),
{
    let ghost before = h.marks();
    let mut i: usize = 0;
    assert(h.marks() =~= before + gathered(v@.take(0), pd_marks()));
    while i < v.len()
        invariant
            i <= v.len(),
            h.wf(),
            h.marks() == before + gathered(v@.take(i as int), pd_marks()),
        decreases v.len() - i,
    {
        proof {
            lemma_take_more(v@, i as int);
        }
        hash_pd(&v[i], h);
        assert(h.marks() =~= before + gathered(v@.take(i + 1), pd_marks()));
        i += 1;
    }
    proof {
        lemma_take_all(v@);
    }
}

/// An alternate mode and whether it is in use.
pub open spec fn alt_mode_marks() -> spec_fn(AltMode) -> Seq<Mark> {
    |m: AltMode| seq![
        Mark::Text(m.sysfs_name@),
        flag_mark(m.active),
    ]
}

fn hash_alt_mode(m: &AltMode, h: &mut Print)
    requires
        old(h).wf(),
    ensures
        final(h).wf(),
        final(h).marks() == old(h).marks() + alt_mode_marks()(*m),
{
    let ghost before = h.marks();
    h.text(m.sysfs_name.as_str());
    h.opt_flag(m.active);
    assert(h.marks() =~= before + alt_mode_marks()(*m));
}

fn hash_alt_modes(v: &Vec<AltMode>, h: &mut Print)
    requires
        old(h).wf(),
    ensures
        final(h).wf(),
        final(h).marks() == old(h).marks() + gathered(v@, alt_mode_marks()),
{
    let ghost before = h.marks();
    let mut i: usize = 0;
    assert(h.marks() =~= before + gathered(v@.take(0), alt_mode_marks()));
    while i < v.len()
        invariant
            i <= v.len(),
            h.wf(),
            h.marks() == before + gathered(v@.take(i as int), alt_mode_marks()),
        decreases v.len() - i,
    {
        proof {
            lemma_take_more(v@, i as int);
        }
        hash_alt_mode(&v[i], h);
        assert(h.marks() =~= before + gathered(v@.take(i + 1), alt_mode_marks()));
        i += 1;
    }
    proof {
        lemma_take_all(v@);
    }
}

/// The capabilities behind an optional object.
pub open spec fn pd_part(o: Option<PowerDelivery>) -> Seq<Mark> {
    match o {
        Some(pd) => pd_marks()(pd),
        None => Seq::empty(),
    }
}

fn hash_pd_part(o: &Option<PowerDelivery>, h: &mut Print)
    requires
        old(h).wf(),
    ensures
        final(h).wf(),
        final(h).marks() == old(h).marks() + pd_part(*o),
{
    let ghost before = h.marks();
    if let Some(pd) = o {
        hash_pd(pd, h);
    }
    assert(h.marks() =~= before + pd_part(*o));
}

pub open spec fn vendor_mark(p: Partner) -> Mark {
    match p.identity {
        Some(i) => id_mark(i.decoded.vendor_id),
        None => Mark::Missing,
    }
}

pub open spec fn product_mark(p: Partner) -> Mark {
    match p.identity {
        Some(i) => id_mark(i.decoded.product_id),
        None => Mark::Missing,
    }
}

/// What is attached to a port.
pub open spec fn partner_marks() -> spec_fn(Partner) -> Seq<Mark> {
    |p: Partner| seq![
        Mark::Flag(true),
        text_mark(p.kind),
        flag_mark(p.supports_pd),
        text_mark(p.accessory_mode),
        text_mark(p.pd_revision),
        Mark::Flag(p.identity is Some),
        vendor_mark(p),
        product_mark(p),
    ] + gathered(p.alt_modes@, alt_mode_marks()) + pd_part(p.pd)
}

fn hash_partner(p: &Partner, h: &mut Print)
    requires
        old(h).wf(),
    ensures
        final(h).wf(),
        final(h).marks() == old(h).marks() + partner_marks()(*p),
{
    let ghost before = h.marks();
    h.flag(true);
    h.opt_text(&p.kind);
    h.opt_flag(p.supports_pd);
    h.opt_text(&p.accessory_mode);
    h.opt_text(&p.pd_revision);
    match &p.identity {
        Some(i) => {
            h.flag(true);
            h.opt_id(i.decoded.vendor_id);
            h.opt_id(i.decoded.product_id);
        },
        None => {
            h.flag(false);
            h.missing();
            h.missing();
        },
    }
    hash_alt_modes(&p.alt_modes, h);
    hash_pd_part(&p.pd, h);
    assert(h.marks() =~= before + partner_marks()(*p));
}

/// The first word of a cable's identity, as far as there is one.
pub open spec fn header_mark(c: Cable) -> Mark {
    match c.identity {
        Some(i) => match i.id_header {
            Some(v) => Mark::Number(v.raw as u64),
            None => Mark::Missing,
        },
        None => Mark::Missing,
    }
}

/// The cable a port reports.
pub open spec fn cable_marks() -> spec_fn(Cable) -> Seq<Mark> {
    |c: Cable| seq![
        Mark::Flag(true),
        text_mark(c.kind),
        text_mark(c.plug_type),
        text_mark(c.pd_revision),
        Mark::Flag(c.identity is Some),
        header_mark(c),
    ]
}

fn hash_cable(c: &Cable, h: &mut Print)
    requires
        old(h).wf(),
    ensures
        final(h).wf(),
        final(h).marks() == old(h).marks() + cable_marks()(*c),
{
    let ghost before = h.marks();
    h.flag(true);
    h.opt_text(&c.kind);
    h.opt_text(&c.plug_type);
    h.opt_text(&c.pd_revision);
    match &c.identity {
        Some(i) => {
            h.flag(true);
            match i.id_header {
                Some(v) => h.number(v.raw as u64),
                None => h.missing(),
            }
        },
        None => {
            h.flag(false);
            h.missing();
        },
    }
    assert(h.marks() =~= before + cable_marks()(*c));
}

/// The contract in effect.
pub open spec fn supply_marks() -> spec_fn(PortPowerSupply) -> Seq<Mark> {
    |ps: PortPowerSupply| seq![
        Mark::Text(ps.name@),
        flag_mark(ps.online),
        number_mark(ps.voltage_now_mv),
        number_mark(ps.current_now_ma),
        number_mark(ps.voltage_min_mv),
        number_mark(ps.voltage_max_mv),
        number_mark(ps.current_max_ma),
        raw_mark(ps.usb_type),
    ]
}

fn hash_supply(ps: &PortPowerSupply, h: &mut Print)
    requires
        old(h).wf(),
    ensures
        final(h).wf(),
        final(h).marks() == old(h).marks() + supply_marks()(*ps),
{
    let ghost before = h.marks();
    h.text(ps.name.as_str());
    h.opt_flag(ps.online);
    h.opt_number(ps.voltage_now_mv);
    h.opt_number(ps.current_now_ma);
    h.opt_number(ps.voltage_min_mv);
    h.opt_number(ps.voltage_max_mv);
    h.opt_number(ps.current_max_ma);
    h.opt_raw(&ps.usb_type);
    assert(h.marks() =~= before + supply_marks()(*ps));
}

pub open spec fn partner_part(p: TypecPort) -> Seq<Mark> {
    match p.partner {
        Some(x) => partner_marks()(x),
        None => seq![Mark::Flag(false)],
    }
}

pub open spec fn cable_part(p: TypecPort) -> Seq<Mark> {
    match p.cable {
        Some(x) => cable_marks()(x),
        None => seq![Mark::Flag(false)],
    }
}

pub open spec fn supply_part(p: TypecPort) -> Seq<Mark> {
    match p.power_supply {
        Some(x) => supply_marks()(x),
        None => Seq::empty(),
    }
}

fn hash_attached(p: &TypecPort, h: &mut Print)
    requires
        old(h).wf(),
    ensures
        final(h).wf(),
        final(h).marks() == old(h).marks() + partner_part(*p) + cable_part(*p),
{
    let ghost before = h.marks();
    match &p.partner {
        Some(x) => hash_partner(x, h),
        None => h.flag(false),
    }
    assert(h.marks() =~= before + partner_part(*p));
    match &p.cable {
        Some(x) => hash_cable(x, h),
        None => h.flag(false),
    }
    assert(h.marks() =~= before + partner_part(*p) + cable_part(*p));
}

fn hash_supply_part(p: &TypecPort, h: &mut Print)
    requires
        old(h).wf(),
    ensures
        final(h).wf(),
        final(h).marks() == old(h).marks() + supply_part(*p),
{
    let ghost before = h.marks();
    if let Some(x) = &p.power_supply {
        hash_supply(x, h);
    }
    assert(h.marks() =~= before + supply_part(*p));
}

/// A port's own state, without what is attached to it.
pub open spec fn role_marks(p: TypecPort) -> Seq<Mark> {
    seq![
        Mark::Text(p.name@),
        text_mark(p.power_operation_mode),
        flag_mark(p.vconn_source),
        text_mark(p.orientation),
        raw_mark(p.data_role),
        raw_mark(p.power_role),
        raw_mark(p.port_type),
        raw_mark(p.usb_capability),
        text_mark(p.pd_revision),
        text_mark(p.typec_revision),
    ]
}

/// A port: its roles, what is attached, and the contract.
pub open spec fn port_marks() -> spec_fn(TypecPort) -> Seq<Mark> {
    |p: TypecPort| role_marks(p) + gathered(p.alt_modes@, alt_mode_marks()) + partner_part(p)
        + cable_part(p) + pd_part(p.local_pd) + supply_part(p)
}

fn hash_port(p: &TypecPort, h: &mut Print)
    requires
        old(h).wf(),
    ensures
        final(h).wf(),
        final(h).marks() == old(h).marks() + port_marks()(*p),
{
    let ghost before = h.marks();
    h.text(p.name.as_str());
    h.opt_text(&p.power_operation_mode);
    h.opt_flag(p.vconn_source);
    h.opt_text(&p.orientation);
    h.opt_raw(&p.data_role);
    h.opt_raw(&p.power_role);
    h.opt_raw(&p.port_type);
    h.opt_raw(&p.usb_capability);
    h.opt_text(&p.pd_revision);
    h.opt_text(&p.typec_revision);
    assert(h.marks() =~= before + role_marks(*p));
    hash_alt_modes(&p.alt_modes, h);
    hash_attached(p, h);
    hash_pd_part(&p.local_pd, h);
    hash_supply_part(p, h);
    assert(h.marks() =~= before + port_marks()(*p));
}

fn hash_ports(v: &Vec<TypecPort>, h: &mut Print)
    requires
        old(h).wf(),
    ensures
        final(h).wf(),
        final(h).marks() == old(h).marks() + gathered(v@, port_marks()),
{
    let ghost before = h.marks();
    let mut i: usize = 0;
    assert(h.marks() =~= before + gathered(v@.take(0), port_marks()));
    while i < v.len()
        invariant
            i <= v.len(),
            h.wf(),
            h.marks() == before + gathered(v@.take(i as int), port_marks()),
        decreases v.len() - i,
    {
        proof {
            lemma_take_more(v@, i as int);
        }
        hash_port(&v[i], h);
        assert(h.marks() =~= before + gathered(v@.take(i + 1), port_marks()));
        i += 1;
    }
    proof {
        lemma_take_all(v@);
    }
}

// ---------------------------------------------------------------------------
// everything else
// ---------------------------------------------------------------------------

/// A drive and what it is, not its counters.
pub open spec fn block_marks() -> spec_fn(BlockDevice) -> Seq<Mark> {
    |b: BlockDevice| seq![
        Mark::Text(b.name@),
        Mark::Text(b.sysfs_path@),
        size_mark(b.size_bytes),
        flag_mark(b.rotational),
    ]
}

fn hash_block(b: &BlockDevice, h: &mut Print)
    requires
        old(h).wf(),
    ensures
        final(h).wf(),
        final(h).marks() == old(h).marks() + block_marks()(*b),
{
    let ghost before = h.marks();
    h.text(b.name.as_str());
    h.text(b.sysfs_path.as_str());
    h.opt_size(b.size_bytes);
    h.opt_flag(b.rotational);
    assert(h.marks() =~= before + block_marks()(*b));
}

fn hash_blocks(v: &Vec<BlockDevice>, h: &mut Print)
    requires
        old(h).wf(),
    ensures
        final(h).wf(),
        final(h).marks() == old(h).marks() + gathered(v@, block_marks()),
{
    let ghost before = h.marks();
    let mut i: usize = 0;
    assert(h.marks() =~= before + gathered(v@.take(0), block_marks()));
    while i < v.len()
        invariant
            i <= v.len(),
            h.wf(),
            h.marks() == before + gathered(v@.take(i as int), block_marks()),
        decreases v.len() - i,
    {
        proof {
            lemma_take_more(v@, i as int);
        }
        hash_block(&v[i], h);
        assert(h.marks() =~= before + gathered(v@.take(i + 1), block_marks()));
        i += 1;
    }
    proof {
        lemma_take_all(v@);
    }
}

/// A power in steps of half a watt, to the nearest.
pub open spec fn half_watts(d: Decimal) -> u64 {
    ((d.micros + 250_000) / 500_000) as u64
}

pub open spec fn draw_mark(b: Battery) -> Mark {
    match b.power_now_w {
        Some(p) => Mark::Number(half_watts(p)),
        None => Mark::Missing,
    }
}

fn to_half_watts(d: Decimal) -> (r: u64)
    ensures
        r == half_watts(d),
{
    let whole: u64 = d.micros / 500_000;
    let left: u64 = d.micros % 500_000;
    if left >= 250_000 {
        whole + 1
    } else {
        whole
    }
}

/// A battery and which way it is going.
pub open spec fn battery_marks() -> spec_fn(Battery) -> Seq<Mark> {
    |b: Battery| seq![
        Mark::Text(b.name@),
        text_mark(b.status),
        number_mark(b.capacity_pct),
        draw_mark(b),
    ]
}

fn hash_battery(b: &Battery, h: &mut Print)
    requires
        old(h).wf(),
    ensures
        final(h).wf(),
        final(h).marks() == old(h).marks() + battery_marks()(*b),
{
    let ghost before = h.marks();
    h.text(b.name.as_str());
    h.opt_text(&b.status);
    h.opt_number(b.capacity_pct);
    match b.power_now_w {
        Some(p) => h.number(to_half_watts(p)),
        None => h.missing(),
    }
    assert(h.marks() =~= before + battery_marks()(*b));
}

fn hash_batteries(v: &Vec<Battery>, h: &mut Print)
    requires
        old(h).wf(),
    ensures
        final(h).wf(),
        final(h).marks() == old(h).marks() + gathered(v@, battery_marks()),
{
    let ghost before = h.marks();
    let mut i: usize = 0;
    assert(h.marks() =~= before + gathered(v@.take(0), battery_marks()));
    while i < v.len()
        invariant
            i <= v.len(),
            h.wf(),
            h.marks() == before + gathered(v@.take(i as int), battery_marks()),
        decreases v.len() - i,
    {
        proof {
            lemma_take_more(v@, i as int);
        }
        hash_battery(&v[i], h);
        assert(h.marks() =~= before + gathered(v@.take(i + 1), battery_marks()));
        i += 1;
    }
    proof {
        lemma_take_all(v@);
    }
}

pub open spec fn screen_marks(d: DisplayConnector) -> Seq<Mark> {
    match d.display {
        Some(i) => seq![
            Mark::Flag(true),
            text_mark(i.manufacturer),
            id_mark(i.product_code),
            number_mark(i.serial),
        ],
        None => seq![Mark::Flag(false)],
    }
}

/// An output and the screen on it.
pub open spec fn display_marks() -> spec_fn(DisplayConnector) -> Seq<Mark> {
    |d: DisplayConnector| seq![
        Mark::Text(d.name@),
        text_mark(d.status),
        flag_mark(d.enabled),
        text_mark(d.dpms),
        Mark::Number(d.modes@.len() as u64),
    ] + screen_marks(d)
}

fn hash_display(d: &DisplayConnector, h: &mut Print)
    requires
        old(h).wf(),
    ensures
        final(h).wf(),
        final(h).marks() == old(h).marks() + display_marks()(*d),
{
    let ghost before = h.marks();
    h.text(d.name.as_str());
    h.opt_text(&d.status);
    h.opt_flag(d.enabled);
    h.opt_text(&d.dpms);
    h.number(d.modes.len() as u64);
    match &d.display {
        Some(i) => {
            h.flag(true);
            h.opt_text(&i.manufacturer);
            h.opt_id(i.product_code);
            h.opt_number(i.serial);
        },
        None => h.flag(false),
    }
    assert(h.marks() =~= before + display_marks()(*d));
}

fn hash_displays(v: &Vec<DisplayConnector>, h: &mut Print)
    requires
        old(h).wf(),
    ensures
        final(h).wf(),
        final(h).marks() == old(h).marks() + gathered(v@, display_marks()),
{
    let ghost before = h.marks();
    let mut i: usize = 0;
    assert(h.marks() =~= before + gathered(v@.take(0), display_marks()));
    while i < v.len()
        invariant
            i <= v.len(),
            h.wf(),
            h.marks() == before + gathered(v@.take(i as int), display_marks()),
        decreases v.len() - i,
    {
        proof {
            lemma_take_more(v@, i as int);
        }
        hash_display(&v[i], h);
        assert(h.marks() =~= before + gathered(v@.take(i + 1), display_marks()));
        i += 1;
    }
    proof {
        lemma_take_all(v@);
    }
}

/// A router and its link.
pub open spec fn router_marks() -> spec_fn(ThunderboltRouter) -> Seq<Mark> {
    |r: ThunderboltRouter| seq![
        Mark::Text(r.name@),
        Mark::Flag(r.is_host),
        text_mark(r.tx_speed),
        text_mark(r.rx_speed),
        number_mark(r.tx_lanes),
        number_mark(r.rx_lanes),
        flag_mark(r.authorized),
        text_mark(r.nvm_version),
    ]
}

fn hash_router(r: &ThunderboltRouter, h: &mut Print)
    requires
        old(h).wf(),
    ensures
        final(h).wf(),
        final(h).marks() == old(h).marks() + router_marks()(*r),
{
    let ghost before = h.marks();
    h.text(r.name.as_str());
    h.flag(r.is_host);
    h.opt_text(&r.tx_speed);
    h.opt_text(&r.rx_speed);
    h.opt_number(r.tx_lanes);
    h.opt_number(r.rx_lanes);
    h.opt_flag(r.authorized);
    h.opt_text(&r.nvm_version);
    assert(h.marks() =~= before + router_marks()(*r));
}

fn hash_routers(v: &Vec<ThunderboltRouter>, h: &mut Print)
    requires
        old(h).wf(),
    ensures
        final(h).wf(),
        final(h).marks() == old(h).marks() + gathered(v@, router_marks()),
{
    let ghost before = h.marks();
    let mut i: usize = 0;
    assert(h.marks() =~= before + gathered(v@.take(0), router_marks()));
    while i < v.len()
        invariant
            i <= v.len(),
            h.wf(),
            h.marks() == before + gathered(v@.take(i as int), router_marks()),
        decreases v.len() - i,
    {
        proof {
            lemma_take_more(v@, i as int);
        }
        hash_router(&v[i], h);
        assert(h.marks() =~= before + gathered(v@.take(i + 1), router_marks()));
        i += 1;
    }
    proof {
        lemma_take_all(v@);
    }
}

/// A retimer and its firmware.
pub open spec fn retimer_marks() -> spec_fn(Retimer) -> Seq<Mark> {
    |r: Retimer| seq![
        Mark::Text(r.name@),
        text_mark(r.nvm_version),
    ]
}

fn hash_retimer(r: &Retimer, h: &mut Print)
    requires
        old(h).wf(),
    ensures
        final(h).wf(),
        final(h).marks() == old(h).marks() + retimer_marks()(*r),
{
    let ghost before = h.marks();
    h.text(r.name.as_str());
    h.opt_text(&r.nvm_version);
    assert(h.marks() =~= before + retimer_marks()(*r));
}

fn hash_retimers(v: &Vec<Retimer>, h: &mut Print)
    requires
        old(h).wf(),
    ensures
        final(h).wf(),
        final(h).marks() == old(h).marks() + gathered(v@, retimer_marks()),
{
    let ghost before = h.marks();
    let mut i: usize = 0;
    assert(h.marks() =~= before + gathered(v@.take(0), retimer_marks()));
    while i < v.len()
        invariant
            i <= v.len(),
            h.wf(),
            h.marks() == before + gathered(v@.take(i as int), retimer_marks()),
        decreases v.len() - i,
    {
        proof {
            lemma_take_more(v@, i as int);
        }
        hash_retimer(&v[i], h);
        assert(h.marks() =~= before + gathered(v@.take(i + 1), retimer_marks()));
        i += 1;
    }
    proof {
        lemma_take_all(v@);
    }
}

pub open spec fn source_number(s: KernelLogSource) -> u64 {
    match s {
        KernelLogSource::DevKmsg => 0,
        KernelLogSource::Journalctl => 1,
        KernelLogSource::Dmesg => 2,
        KernelLogSource::Unavailable => 3,
    }
}

fn number_source(s: KernelLogSource) -> (r: u64)
    ensures
        r == source_number(s),
{
    match s {
        KernelLogSource::DevKmsg => 0,
        KernelLogSource::Journalctl => 1,
        KernelLogSource::Dmesg => 2,
        KernelLogSource::Unavailable => 3,
    }
}

/// How many events there are, and the newest: enough to catch a fresh one.
pub open spec fn log_marks(log: KernelLog) -> Seq<Mark> {
    let base = seq![Mark::Number(source_number(log.source)),
        Mark::Number(log.events@.len() as u64)];
    if log.events@.len() > 0 {
        base + seq![Mark::Text(log.events@.last().text@),
            seconds_mark(log.events@.last().monotonic_s)]
    } else {
        base
    }
}

fn hash_log(log: &KernelLog, h: &mut Print)
    requires
        old(h).wf(),
    ensures
        final(h).wf(),
        final(h).marks() == old(h).marks() + log_marks(*log),
{
    let ghost before = h.marks();
    h.number(number_source(log.source));
    let n: usize = log.events.len();
    h.number(n as u64);
    if n > 0 {
        h.text(log.events[n - 1].text.as_str());
        h.opt_seconds(log.events[n - 1].monotonic_s);
    }
    assert(h.marks() =~= before + log_marks(*log));
}

fn hash_devices(v: &Vec<&UsbDevice>, h: &mut Print)
    requires
        old(h).wf(),
    ensures
        final(h).wf(),
        final(h).marks() == old(h).marks() + gathered(pointees(v@), device_marks()),
{
    let ghost all = pointees(v@);
    let ghost before = h.marks();
    let mut i: usize = 0;
    assert(h.marks() =~= before + gathered(all.take(0), device_marks()));
    while i < v.len()
        invariant
            i <= v.len(),
            all == pointees(v@),
            h.wf(),
            h.marks() == before + gathered(all.take(i as int), device_marks()),
        decreases v.len() - i,
    {
        proof {
            lemma_take_more(all, i as int);
        }
        hash_device(v[i], h);
        assert(h.marks() =~= before + gathered(all.take(i + 1), device_marks()));
        i += 1;
    }
    proof {
        lemma_take_all(all);
    }
}

impl Snapshot {
    /// Everything that counts about the hardware.
    pub open spec fn hardware_marks(self) -> Seq<Mark> {
        gathered(self.all(), device_marks()) + gathered(self.ports@, port_marks()) + gathered(
            self.orphan_pd@,
            pd_marks(),
        ) + gathered(self.block_devices@, block_marks()) + gathered(
            self.batteries@,
            battery_marks(),
        ) + seq![flag_mark(self.mains_online)] + gathered(self.displays@, display_marks())
            + gathered(self.thunderbolt.routers@, router_marks()) + gathered(
            self.thunderbolt.retimers@,
            retimer_marks(),
        )
    }

    /// Everything that counts.
    pub open spec fn marks(self) -> Seq<Mark> {
        self.hardware_marks() + log_marks(self.kernel_log)
    }

    /// A hash of the state that matters for display, ignoring what changes on
    /// its own. Two snapshots with the same fingerprint need no repaint.
    pub fn fingerprint(&self) -> (r: u64)
        ensures
            r == DefaultHasher::spec_finish(written(self.marks())),
    {
        let mut h = Print::start();
        let devs = self.devices();
        hash_devices(&devs, &mut h);
        assert(h.marks() =~= gathered(self.all(), device_marks()));
        hash_ports(&self.ports, &mut h);
        hash_pds(&self.orphan_pd, &mut h);
        hash_blocks(&self.block_devices, &mut h);
        hash_batteries(&self.batteries, &mut h);
        let ghost before = h.marks();
        h.opt_flag(self.mains_online);
        assert(h.marks() =~= before + seq![flag_mark(self.mains_online)]);
        hash_displays(&self.displays, &mut h);
        hash_routers(&self.thunderbolt.routers, &mut h);
        hash_retimers(&self.thunderbolt.retimers, &mut h);
        assert(h.marks() =~= self.hardware_marks());
        hash_log(&self.kernel_log, &mut h);
        h.finish()
    }
}

// ---------------------------------------------------------------------------
// laws
// ---------------------------------------------------------------------------

spec fn tag_of(m: Mark) -> u8 {
    match m {
        Mark::Missing => 0,
        Mark::Flag(_) => 1,
        Mark::Number(_) => 2,
        Mark::Text(_) => 3,
    }
}

/// Different marks are hashed as different bytes.
pub proof fn different_marks_are_written_differently(a: Mark, b: Mark)
    requires
        bytes_of(a) == bytes_of(b),
    ensures
        a == b,
{
    assert(bytes_of(a)[0] == tag_of(a));
    assert(bytes_of(b)[0] == tag_of(b));
    if let (Mark::Flag(x), Mark::Flag(y)) = (a, b) {
        assert(bytes_of(a)[1] == (if x {
            1u8
        } else {
            0u8
        }));
        assert(bytes_of(b)[1] == (if y {
            1u8
        } else {
            0u8
        }));
    }
    if let (Mark::Number(x), Mark::Number(y)) = (a, b) {
        assert(bytes_of(a).skip(1) =~= spec_u64_to_le_bytes(x));
        assert(bytes_of(b).skip(1) =~= spec_u64_to_le_bytes(y));
        vstd::bytes::lemma_auto_spec_u64_to_from_le_bytes();
        assert(vstd::bytes::spec_u64_from_le_bytes(spec_u64_to_le_bytes(x)) == x);
        assert(vstd::bytes::spec_u64_from_le_bytes(spec_u64_to_le_bytes(y)) == y);
    }
    if let (Mark::Text(x), Mark::Text(y)) = (a, b) {
        assert(bytes_of(a).skip(1) =~= encode_utf8(x));
        assert(bytes_of(b).skip(1) =~= encode_utf8(y));
        vstd::utf8::encode_utf8_decode_utf8(x);
        vstd::utf8::encode_utf8_decode_utf8(y);
    }
}

/// Two lists of marks that differ are hashed as different bytes.
pub proof fn different_lists_are_written_differently(a: Seq<Mark>, b: Seq<Mark>)
    requires
        written(a) == written(b),
    ensures
        a == b,
{
    assert(written(a).len() == a.len());
    assert(written(b).len() == b.len());
    assert forall|i: int| 0 <= i < a.len() implies a[i] == b[i] by {
        assert(written(a)[i] == bytes_of(a[i]));
        assert(written(b)[i] == bytes_of(b[i]));
        different_marks_are_written_differently(a[i], b[i]);
    }
    assert(a =~= b);
}

/// The same drives, whatever their counters stand at.
pub open spec fn same_drives(a: Seq<BlockDevice>, b: Seq<BlockDevice>) -> bool {
    a.len() == b.len() && forall|i: int|
        0 <= i < a.len() ==> (#[trigger] a[i]).name@ == b[i].name@ && a[i].sysfs_path@
            == b[i].sysfs_path@ && a[i].size_bytes == b[i].size_bytes && a[i].rotational
            == b[i].rotational
}

proof fn lemma_same_drives(a: Seq<BlockDevice>, b: Seq<BlockDevice>)
    requires
        same_drives(a, b),
    ensures
        gathered(a, block_marks()) == gathered(b, block_marks()),
    decreases a.len(),
{
    if a.len() > 0 {
        let n = a.len() - 1;
        assert(a[n].name@ == b[n].name@);
        assert forall|i: int| 0 <= i < n implies (#[trigger] a.drop_last()[i]).name@
            == b.drop_last()[i].name@ && a.drop_last()[i].sysfs_path@
            == b.drop_last()[i].sysfs_path@ && a.drop_last()[i].size_bytes
            == b.drop_last()[i].size_bytes && a.drop_last()[i].rotational
            == b.drop_last()[i].rotational by {
            assert(a[i].name@ == b[i].name@);
        }
        lemma_same_drives(a.drop_last(), b.drop_last());
        assert(block_marks()(a.last()) =~= block_marks()(b.last()));
    } else {
        assert(a =~= b);
    }
}

/// The same devices in the same order, whatever their counters and durations
/// stand at.
pub open spec fn same_devices(a: Seq<UsbDevice>, b: Seq<UsbDevice>) -> bool {
    a.len() == b.len() && forall|i: int| #![trigger a[i], b[i]]
        0 <= i < a.len() ==> same_device(a[i], b[i])
}

pub open spec fn same_device(d: UsbDevice, e: UsbDevice) -> bool {
    &&& d.sysfs_name@ == e.sysfs_name@
    &&& d.id_vendor == e.id_vendor
    &&& d.id_product == e.id_product
    &&& opt_text(d.serial) == opt_text(e.serial)
    &&& opt_text(d.usb_version) == opt_text(e.usb_version)
    &&& d.speed == e.speed
    &&& d.rx_lanes == e.rx_lanes
    &&& d.tx_lanes == e.tx_lanes
    &&& d.max_power_ma == e.max_power_ma
    &&& d.self_powered == e.self_powered
    &&& d.authorized == e.authorized
    &&& opt_text(d.power_control) == opt_text(e.power_control)
    &&& d.ports == e.ports
    &&& d.interfaces == e.interfaces
}

proof fn lemma_same_devices(a: Seq<UsbDevice>, b: Seq<UsbDevice>)
    requires
        same_devices(a, b),
    ensures
        gathered(a, device_marks()) == gathered(b, device_marks()),
    decreases a.len(),
{
    if a.len() > 0 {
        let n = a.len() - 1;
        assert(same_device(a[n], b[n]));
        assert forall|i: int| #![trigger a.drop_last()[i], b.drop_last()[i]]
            0 <= i < n implies same_device(a.drop_last()[i], b.drop_last()[i]) by {
            assert(same_device(a[i], b[i]));
        }
        lemma_same_devices(a.drop_last(), b.drop_last());
        assert(device_marks()(a.last()) =~= device_marks()(b.last()));
    } else {
        assert(a =~= b);
    }
}

/// The same batteries in the same state, drawing the same to the nearest half
/// watt.
pub open spec fn same_batteries(a: Seq<Battery>, b: Seq<Battery>) -> bool {
    a.len() == b.len() && forall|i: int| #![trigger a[i], b[i]]
        0 <= i < a.len() ==> same_battery(a[i], b[i])
}

pub open spec fn same_battery(a: Battery, b: Battery) -> bool {
    &&& a.name@ == b.name@
    &&& opt_text(a.status) == opt_text(b.status)
    &&& a.capacity_pct == b.capacity_pct
    &&& draw_mark(a) == draw_mark(b)
}

proof fn lemma_same_batteries(a: Seq<Battery>, b: Seq<Battery>)
    requires
        same_batteries(a, b),
    ensures
        gathered(a, battery_marks()) == gathered(b, battery_marks()),
    decreases a.len(),
{
    if a.len() > 0 {
        let n = a.len() - 1;
        assert(same_battery(a[n], b[n]));
        assert forall|i: int| #![trigger a.drop_last()[i], b.drop_last()[i]]
            0 <= i < n implies same_battery(a.drop_last()[i], b.drop_last()[i]) by {
            assert(same_battery(a[i], b[i]));
        }
        lemma_same_batteries(a.drop_last(), b.drop_last());
        assert(battery_marks()(a.last()) =~= battery_marks()(b.last()));
    } else {
        assert(a =~= b);
    }
}

/// Time passing, a busy disk and a wandering battery change nothing that is
/// hashed: two snapshots of the same hardware and log have the same marks,
/// whenever they were taken, wherever their counters stand and whatever was
/// measured meanwhile.
pub proof fn time_and_traffic_do_not_count(a: Snapshot, b: Snapshot)
    requires
        same_devices(a.all(), b.all()),
        a.ports == b.ports,
        a.orphan_pd == b.orphan_pd,
        same_drives(a.block_devices@, b.block_devices@),
        same_batteries(a.batteries@, b.batteries@),
        a.mains_online == b.mains_online,
        a.displays == b.displays,
        a.thunderbolt == b.thunderbolt,
        a.kernel_log == b.kernel_log,
    ensures
        a.marks() == b.marks(),
{
    lemma_same_drives(a.block_devices@, b.block_devices@);
    lemma_same_devices(a.all(), b.all());
    lemma_same_batteries(a.batteries@, b.batteries@);
}

/// A logged event is noticed even where nothing else changed.
pub proof fn a_new_event_counts(a: Snapshot, b: Snapshot)
    requires
        a.hardware_marks() == b.hardware_marks(),
        a.kernel_log.events@.len() != b.kernel_log.events@.len(),
        a.kernel_log.events@.len() <= u64::MAX,
        b.kernel_log.events@.len() <= u64::MAX,
    ensures
        a.marks() != b.marks(),
{
    let n = a.hardware_marks().len() as int;
    assert(a.marks()[n + 1] == log_marks(a.kernel_log)[1]);
    assert(b.marks()[n + 1] == log_marks(b.kernel_log)[1]);
}

proof fn lemma_gathered_cat<T>(a: Seq<T>, b: Seq<T>, f: spec_fn(T) -> Seq<Mark>)
    ensures
        gathered(a + b, f) == gathered(a, f) + gathered(b, f),
    decreases b.len(),
{
    if b.len() > 0 {
        lemma_gathered_cat(a, b.drop_last(), f);
        assert((a + b).drop_last() =~= a + b.drop_last());
        assert((a + b).last() == b.last());
        assert(gathered(a + b, f) =~= gathered(a, f) + gathered(b, f));
    } else {
        assert(a + b =~= a);
        assert(gathered(a + b, f) =~= gathered(a, f) + gathered(b, f));
    }
}

proof fn lemma_gathered_one(d: UsbDevice)
    ensures
        gathered(seq![d], device_marks()) == device_marks()(d),
{
    assert(seq![d].drop_last() =~= Seq::<UsbDevice>::empty());
    assert(seq![d].last() == d);
    assert(gathered(Seq::<UsbDevice>::empty(), device_marks()) =~= Seq::<Mark>::empty());
    assert(gathered(seq![d], device_marks()) =~= device_marks()(d));
}

proof fn lemma_pushed(s: Seq<UsbDevice>, d: UsbDevice)
    ensures
        gathered(walked_all(s.push(d)), device_marks()).len() == gathered(
            walked_all(s),
            device_marks(),
        ).len() + gathered(walked(d), device_marks()).len(),
        gathered(walked(d), device_marks()).len() > 0,
{
    assert(s.push(d).drop_last() =~= s);
    lemma_gathered_cat(walked_all(s), walked(d), device_marks());
    lemma_gathered_cat(seq![d], walked_all(d.children@), device_marks());
    lemma_gathered_one(d);
}

/// A device that is plugged in is noticed: it adds to what is hashed.
pub proof fn a_new_device_counts(a: Snapshot, b: Snapshot, d: UsbDevice)
    requires
        b.buses@ == a.buses@.push(d),
        a.ports == b.ports,
        a.orphan_pd == b.orphan_pd,
        same_drives(a.block_devices@, b.block_devices@),
        a.batteries == b.batteries,
        a.mains_online == b.mains_online,
        a.displays == b.displays,
        a.thunderbolt == b.thunderbolt,
        a.kernel_log == b.kernel_log,
    ensures
        a.marks() != b.marks(),
{
    lemma_pushed(a.buses@, d);
    lemma_same_drives(a.block_devices@, b.block_devices@);
    assert(a.marks().len() < b.marks().len());
}

proof fn lemma_own_kept(a: UsbDevice, b: UsbDevice)
    requires
        a.sysfs_name@ == b.sysfs_name@,
        a.ports == b.ports,
        a.interfaces == b.interfaces,
    ensures
        device_marks()(a).len() == device_marks()(b).len(),
{
}

/// So is one that is plugged into a hub that was there.
pub proof fn a_new_child_counts(a: Snapshot, b: Snapshot, i: int, hub: UsbDevice, d: UsbDevice)
    requires
        0 <= i < a.buses@.len(),
        b.buses@ == a.buses@.update(i, hub),
        hub.sysfs_name@ == a.buses@[i].sysfs_name@,
        hub.ports == a.buses@[i].ports,
        hub.interfaces == a.buses@[i].interfaces,
        hub.children@ == a.buses@[i].children@.push(d),
        a.ports == b.ports,
        a.orphan_pd == b.orphan_pd,
        same_drives(a.block_devices@, b.block_devices@),
        a.batteries == b.batteries,
        a.mains_online == b.mains_online,
        a.displays == b.displays,
        a.thunderbolt == b.thunderbolt,
        a.kernel_log == b.kernel_log,
    ensures
        a.marks() != b.marks(),
{
    let old_hub = a.buses@[i];
    lemma_own_kept(old_hub, hub);
    lemma_pushed(old_hub.children@, d);
    lemma_gathered_cat(seq![hub], walked_all(hub.children@), device_marks());
    lemma_gathered_cat(seq![old_hub], walked_all(old_hub.children@), device_marks());
    lemma_gathered_one(hub);
    lemma_gathered_one(old_hub);
    assert(gathered(walked(hub), device_marks()).len() > gathered(
        walked(old_hub),
        device_marks(),
    ).len());
    lemma_walked_update(a.buses@, i, hub);
    lemma_same_drives(a.block_devices@, b.block_devices@);
    assert(a.marks().len() < b.marks().len());
}

proof fn lemma_walked_update(s: Seq<UsbDevice>, i: int, d: UsbDevice)
    requires
        0 <= i < s.len(),
    ensures
        gathered(walked_all(s.update(i, d)), device_marks()).len() == gathered(
            walked_all(s),
            device_marks(),
        ).len() - gathered(walked(s[i]), device_marks()).len() + gathered(
            walked(d),
            device_marks(),
        ).len(),
    decreases s.len(),
{
    let u = s.update(i, d);
    lemma_gathered_cat(walked_all(s.drop_last()), walked(s.last()), device_marks());
    lemma_gathered_cat(walked_all(u.drop_last()), walked(u.last()), device_marks());
    if i < s.len() - 1 {
        lemma_walked_update(s.drop_last(), i, d);
        assert(u.drop_last() =~= s.drop_last().update(i, d));
    } else {
        assert(u.drop_last() =~= s.drop_last());
    }
}

/// Capabilities that belong to no port count too.
pub proof fn an_orphan_capability_counts(a: Snapshot, b: Snapshot, pd: PowerDelivery)
    requires
        b.orphan_pd@ == a.orphan_pd@.push(pd),
        a.buses == b.buses,
        a.ports == b.ports,
        same_drives(a.block_devices@, b.block_devices@),
        a.batteries == b.batteries,
        a.mains_online == b.mains_online,
        a.displays == b.displays,
        a.thunderbolt == b.thunderbolt,
        a.kernel_log == b.kernel_log,
    ensures
        a.marks() != b.marks(),
{
    assert(b.orphan_pd@.drop_last() =~= a.orphan_pd@);
    lemma_same_drives(a.block_devices@, b.block_devices@);
    assert(a.marks().len() < b.marks().len());
}

proof fn lemma_gathered_at<T>(s: Seq<T>, i: int, f: spec_fn(T) -> Seq<Mark>)
    requires
        0 <= i < s.len(),
    ensures
        gathered(s, f) == gathered(s.take(i), f) + f(s[i]) + gathered(s.skip(i + 1), f),
{
    lemma_take_more(s, i);
    lemma_gathered_cat(s.take(i + 1), s.skip(i + 1), f);
    assert(s.take(i + 1) + s.skip(i + 1) =~= s);
    assert(s.take(i + 1).drop_last() =~= s.take(i));
}

/// A contract that is negotiated anew is noticed, though the same things are
/// attached.
pub proof fn a_new_contract_counts(a: Snapshot, b: Snapshot, i: int)
    requires
        0 <= i < a.ports@.len(),
        b.ports@ == a.ports@.update(i, b.ports@[i]),
        a.ports@[i].power_supply matches Some(old_ps) && b.ports@[i].power_supply matches Some(
            new_ps,
        ) && (old_ps.voltage_now_mv != new_ps.voltage_now_mv || old_ps.current_now_ma
            != new_ps.current_now_ma),
        role_marks(a.ports@[i]) == role_marks(b.ports@[i]),
        a.ports@[i].alt_modes == b.ports@[i].alt_modes,
        a.ports@[i].partner == b.ports@[i].partner,
        a.ports@[i].cable == b.ports@[i].cable,
        a.ports@[i].local_pd == b.ports@[i].local_pd,
        a.buses == b.buses,
    ensures
        a.marks() != b.marks(),
{
    assert(b.ports@.take(i) =~= a.ports@.take(i));
    assert(before_supply(a.ports@[i]) == before_supply(b.ports@[i]));
    lemma_supply_at(a, i);
    lemma_supply_at(b, i);
}

/// What stands before a port's contract.
spec fn before_supply(p: TypecPort) -> Seq<Mark> {
    role_marks(p) + gathered(p.alt_modes@, alt_mode_marks()) + partner_part(p) + cable_part(p)
        + pd_part(p.local_pd)
}

/// Where the contract of a port is written.
spec fn supply_place(s: Snapshot, i: int) -> int {
    gathered(s.all(), device_marks()).len() + gathered(s.ports@.take(i), port_marks()).len()
        + before_supply(s.ports@[i]).len() as int
}

proof fn lemma_supply_at(s: Snapshot, i: int)
    requires
        0 <= i < s.ports@.len(),
        s.ports@[i].power_supply is Some,
    ensures
        s.marks()[supply_place(s, i) + 2] == number_mark(
            s.ports@[i].power_supply->0.voltage_now_mv,
        ),
        s.marks()[supply_place(s, i) + 3] == number_mark(
            s.ports@[i].power_supply->0.current_now_ma,
        ),
{
    let p = s.ports@[i];
    let x = supply_marks()(p.power_supply->0);
    let devs = gathered(s.all(), device_marks());
    let ahead = gathered(s.ports@.take(i), port_marks());
    let more = gathered(s.ports@.skip(i + 1), port_marks());
    lemma_gathered_at(s.ports@, i, port_marks());
    assert(port_marks()(p) =~= before_supply(p) + x);
    let n = supply_place(s, i);
    assert(first_marks(s) =~= devs + ahead + before_supply(p) + x + more);
    assert(x[2] == number_mark(p.power_supply->0.voltage_now_mv));
    assert(x[3] == number_mark(p.power_supply->0.current_now_ma));
    lemma_middle(devs + ahead + before_supply(p), x, more, 2);
    lemma_middle(devs + ahead + before_supply(p), x, more, 3);
    lemma_first_marks(s, n + 2);
    lemma_first_marks(s, n + 3);
}

proof fn lemma_middle(a: Seq<Mark>, b: Seq<Mark>, c: Seq<Mark>, k: int)
    requires
        0 <= k < b.len(),
    ensures
        (a + b + c)[a.len() + k] == b[k],
{
}

spec fn first_marks(s: Snapshot) -> Seq<Mark> {
    gathered(s.all(), device_marks()) + gathered(s.ports@, port_marks())
}

proof fn lemma_first_marks(s: Snapshot, k: int)
    requires
        0 <= k < first_marks(s).len(),
    ensures
        s.marks()[k] == first_marks(s)[k],
{
}

/// A role as it was read.
pub open spec fn raw_text(o: Option<RoleField>) -> Option<Seq<char>> {
    match o {
        Some(f) => Some(f.raw@),
        None => None,
    }
}

pub open spec fn header_of(c: Cable) -> Option<u32> {
    match c.identity {
        Some(i) => match i.id_header {
            Some(v) => Some(v.raw),
            None => None,
        },
        None => None,
    }
}

proof fn lemma_part_differs(pre: Seq<Mark>, m: Seq<Mark>, n: Seq<Mark>, post: Seq<Mark>)
    requires
        m != n,
    ensures
        pre + m + post != pre + n + post,
{
    let s = pre + m + post;
    let t = pre + n + post;
    if s == t {
        assert(s.len() == pre.len() + m.len() + post.len());
        assert(t.len() == pre.len() + n.len() + post.len());
        assert(s.subrange(pre.len() as int, (pre.len() + m.len()) as int) =~= m);
        assert(t.subrange(pre.len() as int, (pre.len() + m.len()) as int) =~= n);
    }
}

proof fn lemma_element_differs<T>(s: Seq<T>, i: int, y: T, f: spec_fn(T) -> Seq<Mark>)
    requires
        0 <= i < s.len(),
        f(s[i]) != f(y),
    ensures
        gathered(s, f) != gathered(s.update(i, y), f),
{
    let u = s.update(i, y);
    lemma_gathered_at(s, i, f);
    lemma_gathered_at(u, i, f);
    assert(u.take(i) =~= s.take(i));
    assert(u.skip(i + 1) =~= s.skip(i + 1));
    lemma_part_differs(gathered(s.take(i), f), f(s[i]), f(y), gathered(s.skip(i + 1), f));
}

/// What a hub port shows.
pub open spec fn same_hub_port(x: HubPort, y: HubPort) -> bool {
    &&& x.name@ == y.name@
    &&& opt_text(x.state) == opt_text(y.state)
    &&& opt_text(x.child) == opt_text(y.child)
    &&& x.over_current_count == y.over_current_count
}

proof fn lemma_hub_port(x: HubPort, y: HubPort)
    requires
        hub_port_marks()(x) == hub_port_marks()(y),
    ensures
        same_hub_port(x, y),
{
    let m = hub_port_marks()(x);
    let n = hub_port_marks()(y);
    assert(m[0] == n[0]);
    assert(m[1] == n[1]);
    assert(m[2] == n[2]);
    assert(m[3] == n[3]);
}

/// What an interface shows.
pub open spec fn same_interface(x: UsbInterface, y: UsbInterface) -> bool {
    &&& x.sysfs_name@ == y.sysfs_name@
    &&& x.class == y.class
    &&& opt_text(x.driver) == opt_text(y.driver)
}

proof fn lemma_interface(x: UsbInterface, y: UsbInterface)
    requires
        interface_marks()(x) == interface_marks()(y),
    ensures
        same_interface(x, y),
{
    let m = interface_marks()(x);
    let n = interface_marks()(y);
    assert(m[0] == n[0]);
    assert(m[1] == n[1]);
    assert(m[2] == n[2]);
}

/// What a power offer shows.
pub open spec fn same_pdo(x: Pdo, y: Pdo) -> bool {
    &&& x.index == y.index
    &&& x.kind == y.kind
    &&& x.role == y.role
    &&& x.voltage_mv == y.voltage_mv
    &&& x.current_ma == y.current_ma
    &&& x.min_voltage_mv == y.min_voltage_mv
    &&& x.max_voltage_mv == y.max_voltage_mv
    &&& x.power_mw_field == y.power_mw_field
}

proof fn lemma_pdo(x: Pdo, y: Pdo)
    requires
        pdo_marks()(x) == pdo_marks()(y),
    ensures
        same_pdo(x, y),
{
    let m = pdo_marks()(x);
    let n = pdo_marks()(y);
    assert(m[0] == n[0]);
    assert(m[1] == n[1]);
    assert(m[2] == n[2]);
    assert(m[3] == n[3]);
    assert(m[4] == n[4]);
    assert(m[5] == n[5]);
    assert(m[6] == n[6]);
    assert(m[7] == n[7]);
}

/// What an alternate mode shows.
pub open spec fn same_alt_mode(x: AltMode, y: AltMode) -> bool {
    &&& x.sysfs_name@ == y.sysfs_name@
    &&& x.active == y.active
}

proof fn lemma_alt_mode(x: AltMode, y: AltMode)
    requires
        alt_mode_marks()(x) == alt_mode_marks()(y),
    ensures
        same_alt_mode(x, y),
{
    let m = alt_mode_marks()(x);
    let n = alt_mode_marks()(y);
    assert(m[0] == n[0]);
    assert(m[1] == n[1]);
}

/// What a port's supply shows.
pub open spec fn same_supply(x: PortPowerSupply, y: PortPowerSupply) -> bool {
    &&& x.name@ == y.name@
    &&& x.online == y.online
    &&& x.voltage_now_mv == y.voltage_now_mv
    &&& x.current_now_ma == y.current_now_ma
    &&& x.voltage_min_mv == y.voltage_min_mv
    &&& x.voltage_max_mv == y.voltage_max_mv
    &&& x.current_max_ma == y.current_max_ma
    &&& raw_text(x.usb_type) == raw_text(y.usb_type)
}

proof fn lemma_supply(x: PortPowerSupply, y: PortPowerSupply)
    requires
        supply_marks()(x) == supply_marks()(y),
    ensures
        same_supply(x, y),
{
    let m = supply_marks()(x);
    let n = supply_marks()(y);
    assert(m[0] == n[0]);
    assert(m[1] == n[1]);
    assert(m[2] == n[2]);
    assert(m[3] == n[3]);
    assert(m[4] == n[4]);
    assert(m[5] == n[5]);
    assert(m[6] == n[6]);
    assert(m[7] == n[7]);
}

/// What a cable shows.
pub open spec fn same_cable(x: Cable, y: Cable) -> bool {
    &&& opt_text(x.kind) == opt_text(y.kind)
    &&& opt_text(x.plug_type) == opt_text(y.plug_type)
    &&& opt_text(x.pd_revision) == opt_text(y.pd_revision)
    &&& (x.identity is Some <==> y.identity is Some)
    &&& header_of(x) == header_of(y)
}

proof fn lemma_cable(x: Cable, y: Cable)
    requires
        cable_marks()(x) == cable_marks()(y),
    ensures
        same_cable(x, y),
{
    let m = cable_marks()(x);
    let n = cable_marks()(y);
    assert(m[0] == n[0]);
    assert(m[1] == n[1]);
    assert(m[2] == n[2]);
    assert(m[3] == n[3]);
    assert(m[4] == n[4]);
    assert(m[5] == n[5]);
}

/// What a drive shows.
pub open spec fn same_block(x: BlockDevice, y: BlockDevice) -> bool {
    &&& x.name@ == y.name@
    &&& x.sysfs_path@ == y.sysfs_path@
    &&& x.size_bytes == y.size_bytes
    &&& x.rotational == y.rotational
}

proof fn lemma_block(x: BlockDevice, y: BlockDevice)
    requires
        block_marks()(x) == block_marks()(y),
    ensures
        same_block(x, y),
{
    let m = block_marks()(x);
    let n = block_marks()(y);
    assert(m[0] == n[0]);
    assert(m[1] == n[1]);
    assert(m[2] == n[2]);
    assert(m[3] == n[3]);
}

/// What a router shows.
pub open spec fn same_router(x: ThunderboltRouter, y: ThunderboltRouter) -> bool {
    &&& x.name@ == y.name@
    &&& x.is_host == y.is_host
    &&& opt_text(x.tx_speed) == opt_text(y.tx_speed)
    &&& opt_text(x.rx_speed) == opt_text(y.rx_speed)
    &&& x.tx_lanes == y.tx_lanes
    &&& x.rx_lanes == y.rx_lanes
    &&& x.authorized == y.authorized
    &&& opt_text(x.nvm_version) == opt_text(y.nvm_version)
}

proof fn lemma_router(x: ThunderboltRouter, y: ThunderboltRouter)
    requires
        router_marks()(x) == router_marks()(y),
    ensures
        same_router(x, y),
{
    let m = router_marks()(x);
    let n = router_marks()(y);
    assert(m[0] == n[0]);
    assert(m[1] == n[1]);
    assert(m[2] == n[2]);
    assert(m[3] == n[3]);
    assert(m[4] == n[4]);
    assert(m[5] == n[5]);
    assert(m[6] == n[6]);
    assert(m[7] == n[7]);
}

/// What a retimer shows.
pub open spec fn same_retimer(x: Retimer, y: Retimer) -> bool {
    &&& x.name@ == y.name@
    &&& opt_text(x.nvm_version) == opt_text(y.nvm_version)
}

proof fn lemma_retimer(x: Retimer, y: Retimer)
    requires
        retimer_marks()(x) == retimer_marks()(y),
    ensures
        same_retimer(x, y),
{
    let m = retimer_marks()(x);
    let n = retimer_marks()(y);
    assert(m[0] == n[0]);
    assert(m[1] == n[1]);
}

/// What a connector shows, and the monitor on it.
pub open spec fn same_display(x: DisplayConnector, y: DisplayConnector) -> bool {
    &&& x.name@ == y.name@
    &&& opt_text(x.status) == opt_text(y.status)
    &&& x.enabled == y.enabled
    &&& opt_text(x.dpms) == opt_text(y.dpms)
    &&& x.modes@.len() == y.modes@.len()
    &&& (x.display is Some <==> y.display is Some)
    &&& x.display is Some && y.display is Some ==> {
        &&& opt_text(x.display->0.manufacturer) == opt_text(y.display->0.manufacturer)
        &&& x.display->0.product_code == y.display->0.product_code
        &&& x.display->0.serial == y.display->0.serial
    }
}

proof fn lemma_display(x: DisplayConnector, y: DisplayConnector)
    requires
        display_marks()(x) == display_marks()(y),
        x.modes@.len() <= u64::MAX,
        y.modes@.len() <= u64::MAX,
    ensures
        same_display(x, y),
{
    let m = display_marks()(x);
    let n = display_marks()(y);
    assert(m[0] == n[0]);
    assert(m[1] == n[1]);
    assert(m[2] == n[2]);
    assert(m[3] == n[3]);
    assert(m[4] == n[4]);
    assert(m[5] == n[5]);
    assert(m[5] == screen_marks(x)[0]);
    assert(n[5] == screen_marks(y)[0]);
    if x.display is Some {
        assert(m[6] == n[6] && m[6] == screen_marks(x)[1] && n[6] == screen_marks(y)[1]);
        assert(m[7] == n[7] && m[7] == screen_marks(x)[2] && n[7] == screen_marks(y)[2]);
        assert(m[8] == n[8] && m[8] == screen_marks(x)[3] && n[8] == screen_marks(y)[3]);
    }
}

/// What a battery shows; its draw counts to the nearest half watt.
pub open spec fn battery_alike(x: Battery, y: Battery) -> bool {
    &&& x.name@ == y.name@
    &&& opt_text(x.status) == opt_text(y.status)
    &&& x.capacity_pct == y.capacity_pct
    &&& (x.power_now_w is Some <==> y.power_now_w is Some)
    &&& x.power_now_w is Some && y.power_now_w is Some ==> -500_000 < x.power_now_w->0.micros
        - y.power_now_w->0.micros < 500_000
}

proof fn lemma_battery(x: Battery, y: Battery)
    requires
        battery_marks()(x) == battery_marks()(y),
        x.power_now_w matches Some(p) ==> p.micros < 1_000_000_000_000,
        y.power_now_w matches Some(p) ==> p.micros < 1_000_000_000_000,
    ensures
        battery_alike(x, y),
{
    let m = battery_marks()(x);
    let n = battery_marks()(y);
    assert(m[0] == n[0]);
    assert(m[1] == n[1]);
    assert(m[2] == n[2]);
    assert(m[3] == n[3]);
}

/// What a device shows of itself.
pub open spec fn device_alike(x: UsbDevice, y: UsbDevice) -> bool {
    &&& x.sysfs_name@ == y.sysfs_name@
    &&& x.id_vendor == y.id_vendor
    &&& x.id_product == y.id_product
    &&& opt_text(x.serial) == opt_text(y.serial)
    &&& opt_text(x.usb_version) == opt_text(y.usb_version)
    &&& x.rx_lanes == y.rx_lanes
    &&& x.tx_lanes == y.tx_lanes
    &&& (x.speed is Some <==> y.speed is Some)
    &&& x.speed is Some && y.speed is Some ==> x.speed->0.mbps == y.speed->0.mbps
    &&& x.max_power_ma == y.max_power_ma
    &&& x.self_powered == y.self_powered
    &&& x.authorized == y.authorized
    &&& opt_text(x.power_control) == opt_text(y.power_control)
}

proof fn lemma_device(x: UsbDevice, y: UsbDevice)
    requires
        device_marks()(x) == device_marks()(y),
    ensures
        device_alike(x, y),
        x.interfaces@ == y.interfaces@ ==> gathered(x.ports@, hub_port_marks()) == gathered(
            y.ports@,
            hub_port_marks(),
        ),
        x.ports@ == y.ports@ ==> gathered(x.interfaces@, interface_marks()) == gathered(
            y.interfaces@,
            interface_marks(),
        ),
{
    let m = device_marks()(x);
    let n = device_marks()(y);

    assert(m[0] == Mark::Text(x.sysfs_name@) && n[0] == Mark::Text(y.sysfs_name@));
    assert(m[1] == id_mark(x.id_vendor) && n[1] == id_mark(y.id_vendor));
    assert(m[2] == id_mark(x.id_product) && n[2] == id_mark(y.id_product));
    assert(m[3] == text_mark(x.serial) && n[3] == text_mark(y.serial));
    assert(m[4] == text_mark(x.usb_version) && n[4] == text_mark(y.usb_version));
    assert(m[5] == number_mark(x.rx_lanes) && n[5] == number_mark(y.rx_lanes));
    assert(m[6] == number_mark(x.tx_lanes) && n[6] == number_mark(y.tx_lanes));
    assert(m[7] == rate_mark(x) && n[7] == rate_mark(y));
    assert(m[8] == number_mark(x.max_power_ma) && n[8] == number_mark(y.max_power_ma));
    assert(m[9] == flag_mark(x.self_powered) && n[9] == flag_mark(y.self_powered));
    assert(m[10] == flag_mark(x.authorized) && n[10] == flag_mark(y.authorized));
    assert(m[11] == text_mark(x.power_control) && n[11] == text_mark(y.power_control));
    let gx = gathered(x.ports@, hub_port_marks());
    let gy = gathered(y.ports@, hub_port_marks());
    let ix = gathered(x.interfaces@, interface_marks());
    let iy = gathered(y.interfaces@, interface_marks());
    assert(m.skip(12) =~= gx + ix);
    assert(n.skip(12) =~= gy + iy);
    assert(m.take(12) =~= n.take(12));
    if x.interfaces@ == y.interfaces@ && gx != gy {
        lemma_part_differs(m.take(12), gx, gy, ix);
        assert(m =~= m.take(12) + gx + ix);
        assert(n =~= m.take(12) + gy + ix);
    }
    if x.ports@ == y.ports@ && ix != iy {
        lemma_part_differs(m.take(12) + gx, ix, iy, Seq::<Mark>::empty());
        assert(m =~= m.take(12) + gx + ix + Seq::<Mark>::empty());
        assert(n =~= m.take(12) + gx + iy + Seq::<Mark>::empty());
    }
}

/// What a port shows of itself.
pub open spec fn port_alike(x: TypecPort, y: TypecPort) -> bool {
    &&& x.name@ == y.name@
    &&& opt_text(x.power_operation_mode) == opt_text(y.power_operation_mode)
    &&& x.vconn_source == y.vconn_source
    &&& opt_text(x.orientation) == opt_text(y.orientation)
    &&& raw_text(x.data_role) == raw_text(y.data_role)
    &&& raw_text(x.power_role) == raw_text(y.power_role)
    &&& raw_text(x.port_type) == raw_text(y.port_type)
    &&& raw_text(x.usb_capability) == raw_text(y.usb_capability)
    &&& opt_text(x.pd_revision) == opt_text(y.pd_revision)
    &&& opt_text(x.typec_revision) == opt_text(y.typec_revision)
}

proof fn lemma_port(x: TypecPort, y: TypecPort)
    requires
        port_marks()(x) == port_marks()(y),
    ensures
        port_alike(x, y),
        role_marks(x) == role_marks(y),
{
    let m = role_marks(x);
    let n = role_marks(y);
    lemma_role_first(x);
    lemma_role_first(y);

    assert(m[0] == n[0]);
    assert(m[1] == n[1]);
    assert(m[2] == n[2]);
    assert(m[3] == n[3]);
    assert(m[4] == n[4]);
    assert(m[5] == n[5]);
    assert(m[6] == n[6]);
    assert(m[7] == n[7]);
    assert(m[8] == n[8]);
    assert(m[9] == n[9]);
}

proof fn lemma_role_first(x: TypecPort)
    ensures
        role_marks(x).len() == 10,
        port_marks()(x).take(10) == role_marks(x),
{
    let a = gathered(x.alt_modes@, alt_mode_marks());
    let rest = a + partner_part(x) + cable_part(x) + pd_part(x.local_pd) + supply_part(x);
    assert(port_marks()(x) =~= role_marks(x) + rest);
    assert((role_marks(x) + rest).take(10) =~= role_marks(x));
}

/// What an attached partner shows of itself.
pub open spec fn partner_alike(x: Partner, y: Partner) -> bool {
    &&& opt_text(x.kind) == opt_text(y.kind)
    &&& x.supports_pd == y.supports_pd
    &&& opt_text(x.accessory_mode) == opt_text(y.accessory_mode)
    &&& opt_text(x.pd_revision) == opt_text(y.pd_revision)
    &&& (x.identity is Some <==> y.identity is Some)
    &&& x.identity is Some && y.identity is Some ==> x.identity->0.decoded.vendor_id
        == y.identity->0.decoded.vendor_id && x.identity->0.decoded.product_id
        == y.identity->0.decoded.product_id
}

proof fn lemma_partner(x: Partner, y: Partner)
    requires
        partner_marks()(x) == partner_marks()(y),
    ensures
        partner_alike(x, y),
{
    let m = partner_marks()(x);
    let n = partner_marks()(y);

    assert(m[0] == Mark::Flag(true) && n[0] == Mark::Flag(true));
    assert(m[1] == text_mark(x.kind) && n[1] == text_mark(y.kind));
    assert(m[2] == flag_mark(x.supports_pd) && n[2] == flag_mark(y.supports_pd));
    assert(m[3] == text_mark(x.accessory_mode) && n[3] == text_mark(y.accessory_mode));
    assert(m[4] == text_mark(x.pd_revision) && n[4] == text_mark(y.pd_revision));
    assert(m[5] == Mark::Flag(x.identity is Some) && n[5] == Mark::Flag(y.identity is Some));
    assert(m[6] == vendor_mark(x) && n[6] == vendor_mark(y));
    assert(m[7] == product_mark(x) && n[7] == product_mark(y));
}

/// The parts of what is hashed, in order.
spec fn parts(s: Snapshot) -> Seq<Seq<Mark>> {
    seq![
        gathered(s.all(), device_marks()),
        gathered(s.ports@, port_marks()),
        gathered(s.orphan_pd@, pd_marks()),
        gathered(s.block_devices@, block_marks()),
        gathered(s.batteries@, battery_marks()),
        seq![flag_mark(s.mains_online)],
        gathered(s.displays@, display_marks()),
        gathered(s.thunderbolt.routers@, router_marks()),
        gathered(s.thunderbolt.retimers@, retimer_marks()),
        log_marks(s.kernel_log),
    ]
}

proof fn lemma_one_part(a: Snapshot, b: Snapshot, k: int)
    requires
        0 <= k < 10,
        forall|j: int| 0 <= j < 10 && j != k ==> #[trigger] parts(a)[j] == parts(b)[j],
        parts(a)[k] != parts(b)[k],
    ensures
        a.marks() != b.marks(),
{
    let p = parts(a);
    let q = parts(b);
    let e = |m: Seq<Mark>| m;
    lemma_parts(a);
    lemma_parts(b);
    lemma_gathered_at(p, k, e);
    lemma_gathered_at(q, k, e);
    assert(p.take(k) =~= q.take(k));
    let ps = p.skip(k + 1);
    let qs = q.skip(k + 1);
    assert forall|i: int| 0 <= i < ps.len() implies #[trigger] ps[i] == qs[i] by {
        assert(p[i + k + 1] == q[i + k + 1]);
    }
    assert(ps =~= qs);
    lemma_part_differs(gathered(p.take(k), e), p[k], q[k], gathered(p.skip(k + 1), e));
}

proof fn lemma_parts(s: Snapshot)
    ensures
        s.marks() == gathered(parts(s), |m: Seq<Mark>| m),
{
    let p = parts(s);
    let e = |m: Seq<Mark>| m;
    reveal_with_fuel(gathered, 11);

    let p9 = p.drop_last();
    let p8 = p9.drop_last();
    let p7 = p8.drop_last();
    let p6 = p7.drop_last();
    let p5 = p6.drop_last();
    let p4 = p5.drop_last();
    let p3 = p4.drop_last();
    let p2 = p3.drop_last();
    let p1 = p2.drop_last();
    let p0 = p1.drop_last();
    assert(p0.len() == 0);
    assert(gathered(p, e) =~= s.marks());
}

/// A connector that is switched, or whose monitor changes, is noticed.
pub proof fn a_changed_display_counts(a: Snapshot, b: Snapshot, i: int, y: DisplayConnector)
    requires
        b == (Snapshot { displays: b.displays, ..a }),
        0 <= i < a.displays@.len(),
        b.displays@ == a.displays@.update(i, y),
        !same_display(a.displays@[i], y),
        a.displays@[i].modes@.len() <= u64::MAX,
        y.modes@.len() <= u64::MAX,
    ensures
        a.marks() != b.marks(),
{
    if display_marks()(a.displays@[i]) == display_marks()(y) {
        lemma_display(a.displays@[i], y);
    }
    lemma_element_differs(a.displays@, i, y, display_marks());
    lemma_one_part(a, b, 6);
}

/// A drive of another name, place, size or make is noticed.
pub proof fn a_changed_drive_counts(a: Snapshot, b: Snapshot, i: int, y: BlockDevice)
    requires
        b == (Snapshot { block_devices: b.block_devices, ..a }),
        0 <= i < a.block_devices@.len(),
        b.block_devices@ == a.block_devices@.update(i, y),
        !same_block(a.block_devices@[i], y),
    ensures
        a.marks() != b.marks(),
{
    if block_marks()(a.block_devices@[i]) == block_marks()(y) {
        lemma_block(a.block_devices@[i], y);
    }
    lemma_element_differs(a.block_devices@, i, y, block_marks());
    lemma_one_part(a, b, 3);
}

/// A battery that turns, or draws half a watt more, is noticed.
pub proof fn a_changed_battery_counts(a: Snapshot, b: Snapshot, i: int, y: Battery)
    requires
        b == (Snapshot { batteries: b.batteries, ..a }),
        0 <= i < a.batteries@.len(),
        b.batteries@ == a.batteries@.update(i, y),
        !battery_alike(a.batteries@[i], y),
        a.batteries@[i].power_now_w matches Some(p) ==> p.micros < 1_000_000_000_000,
        y.power_now_w matches Some(p) ==> p.micros < 1_000_000_000_000,
    ensures
        a.marks() != b.marks(),
{
    if battery_marks()(a.batteries@[i]) == battery_marks()(y) {
        lemma_battery(a.batteries@[i], y);
    }
    lemma_element_differs(a.batteries@, i, y, battery_marks());
    lemma_one_part(a, b, 4);
}

/// A router that links otherwise is noticed.
pub proof fn a_changed_router_counts(a: Snapshot, b: Snapshot, i: int, y: ThunderboltRouter)
    requires
        b == (Snapshot { thunderbolt: b.thunderbolt, ..a }),
        a.thunderbolt.retimers == b.thunderbolt.retimers,
        0 <= i < a.thunderbolt.routers@.len(),
        b.thunderbolt.routers@ == a.thunderbolt.routers@.update(i, y),
        !same_router(a.thunderbolt.routers@[i], y),
    ensures
        a.marks() != b.marks(),
{
    if router_marks()(a.thunderbolt.routers@[i]) == router_marks()(y) {
        lemma_router(a.thunderbolt.routers@[i], y);
    }
    lemma_element_differs(a.thunderbolt.routers@, i, y, router_marks());
    lemma_one_part(a, b, 7);
}

/// A retimer with other firmware is noticed.
pub proof fn a_changed_retimer_counts(a: Snapshot, b: Snapshot, i: int, y: Retimer)
    requires
        b == (Snapshot { thunderbolt: b.thunderbolt, ..a }),
        a.thunderbolt.routers == b.thunderbolt.routers,
        0 <= i < a.thunderbolt.retimers@.len(),
        b.thunderbolt.retimers@ == a.thunderbolt.retimers@.update(i, y),
        !same_retimer(a.thunderbolt.retimers@[i], y),
    ensures
        a.marks() != b.marks(),
{
    if retimer_marks()(a.thunderbolt.retimers@[i]) == retimer_marks()(y) {
        lemma_retimer(a.thunderbolt.retimers@[i], y);
    }
    lemma_element_differs(a.thunderbolt.retimers@, i, y, retimer_marks());
    lemma_one_part(a, b, 8);
}

/// A port in another role or mode is noticed.
pub proof fn a_changed_port_counts(a: Snapshot, b: Snapshot, i: int, y: TypecPort)
    requires
        b == (Snapshot { ports: b.ports, ..a }),
        0 <= i < a.ports@.len(),
        b.ports@ == a.ports@.update(i, y),
        !port_alike(a.ports@[i], y),
    ensures
        a.marks() != b.marks(),
{
    if port_marks()(a.ports@[i]) == port_marks()(y) {
        lemma_port(a.ports@[i], y);
    }
    lemma_element_differs(a.ports@, i, y, port_marks());
    lemma_one_part(a, b, 1);
}

/// The mains going or coming is noticed.
pub proof fn the_mains_count(a: Snapshot, b: Snapshot)
    requires
        b == (Snapshot { mains_online: b.mains_online, ..a }),
        a.mains_online != b.mains_online,
    ensures
        a.marks() != b.marks(),
{
    assert(parts(a)[5][0] == flag_mark(a.mains_online));
    assert(parts(b)[5][0] == flag_mark(b.mains_online));
    lemma_one_part(a, b, 5);
}

/// Another log, or another last line in it, is noticed.
pub proof fn another_log_counts(a: Snapshot, b: Snapshot)
    requires
        b == (Snapshot { kernel_log: b.kernel_log, ..a }),
        a.kernel_log.events@.len() <= u64::MAX,
        b.kernel_log.events@.len() <= u64::MAX,
        a.kernel_log.source != b.kernel_log.source || a.kernel_log.events@.len()
            != b.kernel_log.events@.len() || (a.kernel_log.events@.len() > 0 && (
        a.kernel_log.events@.last().text@ != b.kernel_log.events@.last().text@
            || a.kernel_log.events@.last().monotonic_s
            != b.kernel_log.events@.last().monotonic_s)),
    ensures
        a.marks() != b.marks(),
{
    let m = log_marks(a.kernel_log);
    let n = log_marks(b.kernel_log);
    if m == n {
        assert(m[0] == n[0]);
        assert(m[1] == n[1]);
        if a.kernel_log.events@.len() > 0 {
            assert(m[2] == n[2]);
            assert(m[3] == n[3]);
            lemma_seconds(a.kernel_log.events@.last().monotonic_s,
                b.kernel_log.events@.last().monotonic_s);
        }
    }
    lemma_one_part(a, b, 9);
}

proof fn lemma_seconds(x: Option<Double>, y: Option<Double>)
    requires
        seconds_mark(x) == seconds_mark(y),
    ensures
        x == y,
{
}

/// The walks of two snapshots agree but for one device.
spec fn one_device(a: Snapshot, b: Snapshot, k: int) -> bool {
    &&& b == (Snapshot { buses: b.buses, ..a })
    &&& 0 <= k < a.all().len()
    &&& a.all().len() == b.all().len()
    &&& forall|j: int| #![trigger a.all()[j], b.all()[j]]
        0 <= j < a.all().len() && j != k ==> same_device(a.all()[j], b.all()[j])
}

proof fn lemma_one_device(a: Snapshot, b: Snapshot, k: int)
    requires
        one_device(a, b, k),
        device_marks()(a.all()[k]) != device_marks()(b.all()[k]),
    ensures
        a.marks() != b.marks(),
{
    let s = a.all();
    let t = b.all();
    lemma_gathered_at(s, k, device_marks());
    lemma_gathered_at(t, k, device_marks());
    assert forall|i: int| #![trigger s.take(k)[i], t.take(k)[i]]
        0 <= i < s.take(k).len() implies same_device(s.take(k)[i], t.take(k)[i]) by {
        assert(same_device(s[i], t[i]));
    }
    lemma_same_devices(s.take(k), t.take(k));
    assert forall|i: int| #![trigger s.skip(k + 1)[i], t.skip(k + 1)[i]]
        0 <= i < s.skip(k + 1).len() implies same_device(s.skip(k + 1)[i], t.skip(k + 1)[i]) by {
        assert(same_device(s[i + k + 1], t[i + k + 1]));
    }
    lemma_same_devices(s.skip(k + 1), t.skip(k + 1));
    lemma_part_differs(
        gathered(s.take(k), device_marks()),
        device_marks()(s[k]),
        device_marks()(t[k]),
        gathered(s.skip(k + 1), device_marks()),
    );
    lemma_one_part(a, b, 0);
}

/// A device that links, identifies or powers itself otherwise is noticed.
pub proof fn a_changed_device_counts(a: Snapshot, b: Snapshot, k: int)
    requires
        b == (Snapshot { buses: b.buses, ..a }),
        0 <= k < a.all().len(),
        a.all().len() == b.all().len(),
        forall|j: int| #![trigger a.all()[j], b.all()[j]]
            0 <= j < a.all().len() && j != k ==> same_device(a.all()[j], b.all()[j]),
        !device_alike(a.all()[k], b.all()[k]),
    ensures
        a.marks() != b.marks(),
{
    if device_marks()(a.all()[k]) == device_marks()(b.all()[k]) {
        lemma_device(a.all()[k], b.all()[k]);
    }
    lemma_one_device(a, b, k);
}

/// A hub port that changes its state, its occupant or its count is noticed.
pub proof fn a_changed_hub_port_counts(a: Snapshot, b: Snapshot, k: int, i: int, y: HubPort)
    requires
        b == (Snapshot { buses: b.buses, ..a }),
        0 <= k < a.all().len(),
        a.all().len() == b.all().len(),
        forall|j: int| #![trigger a.all()[j], b.all()[j]]
            0 <= j < a.all().len() && j != k ==> same_device(a.all()[j], b.all()[j]),
        0 <= i < a.all()[k].ports@.len(),
        b.all()[k].ports@ == a.all()[k].ports@.update(i, y),
        b.all()[k].interfaces@ == a.all()[k].interfaces@,
        !same_hub_port(a.all()[k].ports@[i], y),
    ensures
        a.marks() != b.marks(),
{
    let d = a.all()[k];
    if hub_port_marks()(d.ports@[i]) == hub_port_marks()(y) {
        lemma_hub_port(d.ports@[i], y);
    }
    lemma_element_differs(d.ports@, i, y, hub_port_marks());
    if device_marks()(d) == device_marks()(b.all()[k]) {
        lemma_device(d, b.all()[k]);
    }
    lemma_one_device(a, b, k);
}

/// An interface of another class or driver is noticed.
pub proof fn a_changed_interface_counts(
    a: Snapshot,
    b: Snapshot,
    k: int,
    i: int,
    y: UsbInterface,
)
    requires
        b == (Snapshot { buses: b.buses, ..a }),
        0 <= k < a.all().len(),
        a.all().len() == b.all().len(),
        forall|j: int| #![trigger a.all()[j], b.all()[j]]
            0 <= j < a.all().len() && j != k ==> same_device(a.all()[j], b.all()[j]),
        b.all()[k].ports@ == a.all()[k].ports@,
        0 <= i < a.all()[k].interfaces@.len(),
        b.all()[k].interfaces@ == a.all()[k].interfaces@.update(i, y),
        !same_interface(a.all()[k].interfaces@[i], y),
    ensures
        a.marks() != b.marks(),
{
    let d = a.all()[k];
    if interface_marks()(d.interfaces@[i]) == interface_marks()(y) {
        lemma_interface(d.interfaces@[i], y);
    }
    lemma_element_differs(d.interfaces@, i, y, interface_marks());
    if device_marks()(d) == device_marks()(b.all()[k]) {
        lemma_device(d, b.all()[k]);
    }
    lemma_one_device(a, b, k);
}

/// One offer of a list is another, or the capabilities carry another name.
pub open spec fn offers_differ(x: PowerDelivery, y: PowerDelivery) -> bool {
    ||| x.name@ != y.name@
    ||| opt_text(x.revision) != opt_text(y.revision)
    ||| (x.sink_capabilities@ == y.sink_capabilities@ && one_differs(
        x.source_capabilities@,
        y.source_capabilities@,
    ))
    ||| (x.source_capabilities@ == y.source_capabilities@ && one_differs(
        x.sink_capabilities@,
        y.sink_capabilities@,
    ))
}

pub open spec fn one_differs(s: Seq<Pdo>, t: Seq<Pdo>) -> bool {
    exists|i: int|
        0 <= i < s.len() && s.len() == t.len() && t == s.update(i, #[trigger] t[i]) && !same_pdo(
            s[i],
            t[i],
        )
}

proof fn lemma_one_differs(s: Seq<Pdo>, t: Seq<Pdo>)
    requires
        one_differs(s, t),
    ensures
        gathered(s, pdo_marks()) != gathered(t, pdo_marks()),
{
    let i = choose|i: int|
        0 <= i < s.len() && s.len() == t.len() && t == s.update(i, #[trigger] t[i]) && !same_pdo(
            s[i],
            t[i],
        );
    if pdo_marks()(s[i]) == pdo_marks()(t[i]) {
        lemma_pdo(s[i], t[i]);
    }
    lemma_element_differs(s, i, t[i], pdo_marks());
}

proof fn lemma_offers_differ(x: PowerDelivery, y: PowerDelivery)
    requires
        offers_differ(x, y),
    ensures
        pd_marks()(x) != pd_marks()(y),
{
    let m = pd_marks()(x);
    let n = pd_marks()(y);
    if m == n {
        assert(m[0] == n[0]);
        assert(m[1] == n[1]);
        let a = gathered(x.source_capabilities@, pdo_marks());
        let b = gathered(y.source_capabilities@, pdo_marks());
        let c = gathered(x.sink_capabilities@, pdo_marks());
        let d = gathered(y.sink_capabilities@, pdo_marks());
        let h = m.take(2);
        assert(h =~= n.take(2));
        if x.sink_capabilities@ == y.sink_capabilities@ && one_differs(
            x.source_capabilities@,
            y.source_capabilities@,
        ) {
            lemma_one_differs(x.source_capabilities@, y.source_capabilities@);
            lemma_part_differs(h, a, b, c);
            assert(m =~= h + a + c);
            assert(n =~= h + b + c);
        } else {
            lemma_one_differs(x.sink_capabilities@, y.sink_capabilities@);
            let none = Seq::<Mark>::empty();
            lemma_part_differs(h + a, c, d, none);
            assert(m =~= h + a + c + none);
            assert(n =~= h + a + d + none);
        }
    }
}

/// A changed offer among the capabilities of no port is noticed.
pub proof fn a_changed_orphan_counts(a: Snapshot, b: Snapshot, i: int, y: PowerDelivery)
    requires
        b == (Snapshot { orphan_pd: b.orphan_pd, ..a }),
        0 <= i < a.orphan_pd@.len(),
        b.orphan_pd@ == a.orphan_pd@.update(i, y),
        offers_differ(a.orphan_pd@[i], y),
    ensures
        a.marks() != b.marks(),
{
    lemma_offers_differ(a.orphan_pd@[i], y);
    lemma_element_differs(a.orphan_pd@, i, y, pd_marks());
    lemma_one_part(a, b, 2);
}

/// The parts of what a port shows, in order.
spec fn port_parts(p: TypecPort) -> Seq<Seq<Mark>> {
    seq![
        role_marks(p),
        gathered(p.alt_modes@, alt_mode_marks()),
        partner_part(p),
        cable_part(p),
        pd_part(p.local_pd),
        supply_part(p),
    ]
}

proof fn lemma_port_parts(p: TypecPort)
    ensures
        port_marks()(p) == gathered(port_parts(p), |m: Seq<Mark>| m),
{
    let s = port_parts(p);
    let e = |m: Seq<Mark>| m;
    reveal_with_fuel(gathered, 7);
    let p5 = s.drop_last();
    let p4 = p5.drop_last();
    let p3 = p4.drop_last();
    let p2 = p3.drop_last();
    let p1 = p2.drop_last();
    let p0 = p1.drop_last();
    assert(p0.len() == 0);
    assert(gathered(s, e) =~= port_marks()(p));
}

proof fn lemma_one_port(a: Snapshot, b: Snapshot, i: int, y: TypecPort, k: int)
    requires
        b == (Snapshot { ports: b.ports, ..a }),
        0 <= i < a.ports@.len(),
        b.ports@ == a.ports@.update(i, y),
        0 <= k < 6,
        forall|j: int|
            0 <= j < 6 && j != k ==> #[trigger] port_parts(a.ports@[i])[j] == port_parts(y)[j],
        port_parts(a.ports@[i])[k] != port_parts(y)[k],
    ensures
        a.marks() != b.marks(),
{
    let p = port_parts(a.ports@[i]);
    let q = port_parts(y);
    let e = |m: Seq<Mark>| m;
    lemma_port_parts(a.ports@[i]);
    lemma_port_parts(y);
    lemma_gathered_at(p, k, e);
    lemma_gathered_at(q, k, e);
    assert(p.take(k) =~= q.take(k));
    let ps = p.skip(k + 1);
    let qs = q.skip(k + 1);
    assert forall|j: int| 0 <= j < ps.len() implies #[trigger] ps[j] == qs[j] by {
        assert(p[j + k + 1] == q[j + k + 1]);
    }
    assert(ps =~= qs);
    lemma_part_differs(gathered(p.take(k), e), p[k], q[k], gathered(p.skip(k + 1), e));
    lemma_element_differs(a.ports@, i, y, port_marks());
    lemma_one_part(a, b, 1);
}

/// A port's alternate mode that is entered or left is noticed.
pub proof fn a_changed_mode_counts(
    a: Snapshot,
    b: Snapshot,
    i: int,
    y: TypecPort,
    j: int,
    m: AltMode,
)
    requires
        b == (Snapshot { ports: b.ports, ..a }),
        0 <= i < a.ports@.len(),
        b.ports@ == a.ports@.update(i, y),
        y == (TypecPort { alt_modes: y.alt_modes, ..a.ports@[i] }),
        0 <= j < a.ports@[i].alt_modes@.len(),
        y.alt_modes@ == a.ports@[i].alt_modes@.update(j, m),
        !same_alt_mode(a.ports@[i].alt_modes@[j], m),
    ensures
        a.marks() != b.marks(),
{
    let s = a.ports@[i].alt_modes@;
    if alt_mode_marks()(s[j]) == alt_mode_marks()(m) {
        lemma_alt_mode(s[j], m);
    }
    lemma_element_differs(s, j, m, alt_mode_marks());
    lemma_one_port(a, b, i, y, 1);
}

/// So is something that is attached to it, taken away, or another thing than
/// before: another kind, another answer about PD, another identity, another
/// mode or other offers.
pub open spec fn partners_differ(x: Option<Partner>, y: Option<Partner>) -> bool {
    ||| x is Some && y is None
    ||| x is None && y is Some
    ||| (x is Some && y is Some && (!partner_alike(x->0, y->0) || (x->0.pd == y->0.pd && exists|
        j: int,
    |
        0 <= j < x->0.alt_modes@.len() && x->0.alt_modes@.len() == y->0.alt_modes@.len()
            && y->0.alt_modes@ == x->0.alt_modes@.update(j, #[trigger] y->0.alt_modes@[j])
            && !same_alt_mode(x->0.alt_modes@[j], y->0.alt_modes@[j])) || (x->0.alt_modes
        == y->0.alt_modes && capabilities_differ(x->0.pd, y->0.pd))))
}

pub open spec fn capabilities_differ(x: Option<PowerDelivery>, y: Option<PowerDelivery>) -> bool {
    ||| x is Some && y is None
    ||| x is None && y is Some
    ||| (x is Some && y is Some && offers_differ(x->0, y->0))
}

proof fn lemma_capabilities(x: Option<PowerDelivery>, y: Option<PowerDelivery>)
    requires
        capabilities_differ(x, y),
    ensures
        pd_part(x) != pd_part(y),
{
    if let Some(p) = x {
        assert(pd_marks()(p).len() >= 2);
    }
    if let Some(p) = y {
        assert(pd_marks()(p).len() >= 2);
    }
    if x is Some && y is Some {
        lemma_offers_differ(x->0, y->0);
    }
}

pub proof fn a_changed_partner_counts(a: Snapshot, b: Snapshot, i: int, y: TypecPort)
    requires
        b == (Snapshot { ports: b.ports, ..a }),
        0 <= i < a.ports@.len(),
        b.ports@ == a.ports@.update(i, y),
        y == (TypecPort { partner: y.partner, ..a.ports@[i] }),
        partners_differ(a.ports@[i].partner, y.partner),
    ensures
        a.marks() != b.marks(),
{
    let x = a.ports@[i];
    let m = partner_part(x);
    let n = partner_part(y);
    if m == n {
        assert(m[0] == n[0]);
        assert(x.partner is Some && y.partner is Some);
        let p = x.partner->0;
        let q = y.partner->0;
        lemma_partner(p, q);
        let h = m.take(8);
        let g = gathered(p.alt_modes@, alt_mode_marks());
        let k = gathered(q.alt_modes@, alt_mode_marks());
        assert(h =~= n.take(8));
        assert(m =~= h + g + pd_part(p.pd));
        assert(n =~= h + k + pd_part(q.pd));
        if p.alt_modes == q.alt_modes && capabilities_differ(p.pd, q.pd) {
            lemma_capabilities(p.pd, q.pd);
            let none = Seq::<Mark>::empty();
            lemma_part_differs(h + g, pd_part(p.pd), pd_part(q.pd), none);
            assert(m =~= h + g + pd_part(p.pd) + none);
            assert(n =~= h + g + pd_part(q.pd) + none);
        } else {
            let j = choose|j: int|
                0 <= j < p.alt_modes@.len() && p.alt_modes@.len() == q.alt_modes@.len()
                    && q.alt_modes@ == p.alt_modes@.update(j, #[trigger] q.alt_modes@[j])
                    && !same_alt_mode(p.alt_modes@[j], q.alt_modes@[j]);
            if alt_mode_marks()(p.alt_modes@[j]) == alt_mode_marks()(q.alt_modes@[j]) {
                lemma_alt_mode(p.alt_modes@[j], q.alt_modes@[j]);
            }
            lemma_element_differs(p.alt_modes@, j, q.alt_modes@[j], alt_mode_marks());
            lemma_part_differs(h, g, k, pd_part(p.pd));
        }
    }
    lemma_one_port(a, b, i, y, 2);
}

/// A cable that comes, goes or is another one is noticed.
pub proof fn a_changed_cable_counts(a: Snapshot, b: Snapshot, i: int, y: TypecPort)
    requires
        b == (Snapshot { ports: b.ports, ..a }),
        0 <= i < a.ports@.len(),
        b.ports@ == a.ports@.update(i, y),
        y == (TypecPort { cable: y.cable, ..a.ports@[i] }),
        (a.ports@[i].cable is Some <==> y.cable is None) || (a.ports@[i].cable is Some
            && !same_cable(
            a.ports@[i].cable->0,
            y.cable->0,
        )),
    ensures
        a.marks() != b.marks(),
{
    let m = cable_part(a.ports@[i]);
    let n = cable_part(y);
    if m == n {
        assert(m[0] == n[0]);
        lemma_cable(a.ports@[i].cable->0, y.cable->0);
    }
    lemma_one_port(a, b, i, y, 3);
}

/// Other capabilities of the port itself are noticed.
pub proof fn a_changed_capability_counts(a: Snapshot, b: Snapshot, i: int, y: TypecPort)
    requires
        b == (Snapshot { ports: b.ports, ..a }),
        0 <= i < a.ports@.len(),
        b.ports@ == a.ports@.update(i, y),
        y == (TypecPort { local_pd: y.local_pd, ..a.ports@[i] }),
        capabilities_differ(a.ports@[i].local_pd, y.local_pd),
    ensures
        a.marks() != b.marks(),
{
    lemma_capabilities(a.ports@[i].local_pd, y.local_pd);
    lemma_one_port(a, b, i, y, 4);
}

/// A supply that comes, goes, switches or limits otherwise is noticed.
pub proof fn a_changed_supply_counts(a: Snapshot, b: Snapshot, i: int, y: TypecPort)
    requires
        b == (Snapshot { ports: b.ports, ..a }),
        0 <= i < a.ports@.len(),
        b.ports@ == a.ports@.update(i, y),
        y == (TypecPort { power_supply: y.power_supply, ..a.ports@[i] }),
        (a.ports@[i].power_supply is Some <==> y.power_supply is None) || (
        a.ports@[i].power_supply is Some && !same_supply(
            a.ports@[i].power_supply->0,
            y.power_supply->0,
        )),
    ensures
        a.marks() != b.marks(),
{
    let m = supply_part(a.ports@[i]);
    let n = supply_part(y);
    if m == n {
        assert(m.len() == n.len());
        lemma_supply(a.ports@[i].power_supply->0, y.power_supply->0);
    }
    lemma_one_port(a, b, i, y, 5);
}

} // verus!
