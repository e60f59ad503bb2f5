//! The data model: one complete read of a machine's USB state, and what was
//! concluded from it.
//!
//! Everything is owned data, so a [`Snapshot`] can be moved across threads,
//! cached, or compared with a later one. Almost every field is an `Option`:
//! which attributes exist depends on the kernel, the Type-C driver and the
//! firmware, and absent is the normal case.

use vstd::prelude::*;
use crate::caps::Capabilities;
use crate::double::Double;
use crate::kind::{classified, classify, DeviceKind, Kind, KindSource};
use crate::seqs::pointees;
use crate::number::{
    dec, dec_int, hex4, hex_fixed, hex_value, integer, lemma_hex_fixed, number, parse_hex,
    parsed_hex, push_hex, round_div, rounded,
    scaled, shortest, shortest_text, Decimal, Ratio,
};
use crate::tally::{by_number, Endpoints, StatusCounts};
use crate::text::{
    all_digits, begins_with, contains, copy_opt, cut_first, digits_only, fill1, fill2, fill3, fill4,
    filled, holds_text, is_text, join, joined, lower, lowered, no_texts, opt_text, owned, push_text,
    same, same_ignoring_case, split_once, split_whitespace, starts_with, strip_prefix, texts, trim,
    trimmed, words,
};

verus! {

// ---------------------------------------------------------------------------
// the snapshot
// ---------------------------------------------------------------------------

/// One complete read of the system's USB state.
#[derive(Debug, Clone, Default)]
pub struct Snapshot {
    pub captured_at_unix_ms: u64,
    pub host: Host,
    /// What this process is allowed to do.
    pub capabilities: Capabilities,
    /// Root hubs, each with its device tree in `children`.
    pub buses: Vec<UsbDevice>,
    pub ports: Vec<TypecPort>,
    /// USB4 / Thunderbolt routers and active-cable retimers.
    pub thunderbolt: ThunderboltTopology,
    /// Block devices, for mapping storage back to the USB device carrying it.
    pub block_devices: Vec<BlockDevice>,
    /// Batteries, so an attached supply can be judged on whether it keeps up.
    pub batteries: Vec<Battery>,
    /// Display outputs, so a DisplayPort Alt Mode claim can be checked against
    /// whether a picture came out.
    pub displays: Vec<DisplayConnector>,
    pub mains_online: Option<bool>,
    /// Seconds since boot at capture time.
    pub uptime_s: Option<Double>,
    /// PD objects not reachable from a port.
    pub orphan_pd: Vec<PowerDelivery>,
    /// URB accounting, present only when the privileged usbmon probe ran.
    pub urb_traffic: Option<UrbTraffic>,
    /// Measured read rates, present only when the throughput probe ran.
    pub throughput: Vec<ThroughputSample>,
    /// Port-cycling results, present only when the re-enumeration probe ran.
    pub reenumeration: Option<ReenumerationRun>,
    pub kernel_log: KernelLog,
}

#[derive(Debug, Clone, Default)]
pub struct Host {
    pub kernel_release: Option<String>,
    pub product_name: Option<String>,
    pub sys_vendor: Option<String>,
    /// Type-C backends seen in `/proc/modules`.
    pub typec_drivers: Vec<String>,
}

// ---------------------------------------------------------------------------
// USB devices
// ---------------------------------------------------------------------------

#[derive(Debug, Default)]
pub struct UsbDevice {
    /// Kernel name, e.g. `usb3` for a root hub or `3-5.1` for a device.
    pub sysfs_name: String,
    pub sysfs_path: String,
    pub is_root_hub: bool,
    pub parent: Option<String>,
    pub busnum: Option<u32>,
    pub devnum: Option<u32>,
    pub id_vendor: Option<u16>,
    pub id_product: Option<u16>,
    pub manufacturer: Option<String>,
    pub product: Option<String>,
    pub serial: Option<String>,
    /// `version` attribute, e.g. "3.20": what this device claims to support.
    pub usb_version: Option<String>,
    /// `usb_version` as a number.
    pub usb_version_num: Option<Decimal>,
    /// The link rate negotiated at enumeration.
    pub speed: Option<LinkSpeed>,
    pub rx_lanes: Option<u32>,
    pub tx_lanes: Option<u32>,
    /// `bMaxPower` in mA.
    pub max_power_ma: Option<u32>,
    pub self_powered: Option<bool>,
    pub remote_wakeup: Option<bool>,
    pub device_class: Option<u8>,
    pub max_children: Option<u32>,
    pub removable: Option<String>,
    pub authorized: Option<bool>,
    /// Cumulative URBs submitted to this device.
    pub urbnum: Option<u64>,
    /// Runtime-PM accounting, in milliseconds.
    pub active_duration_ms: Option<u64>,
    pub connected_duration_ms: Option<u64>,
    pub runtime_suspended_ms: Option<u64>,
    /// `auto` (runtime PM may suspend it) or `on` (kept awake).
    pub power_control: Option<String>,
    pub autosuspend_delay_ms: Option<i64>,
    pub interfaces: Vec<UsbInterface>,
    /// Downstream ports, for hubs and root hubs.
    pub ports: Vec<HubPort>,
    pub children: Vec<UsbDevice>,
    /// A stored correction the user made about this device, if one matched.
    pub declared: Option<Declaration>,
}

impl UsbDevice {
    /// The same device, reading for reading, and the same of every device below
    /// it.
    pub open spec fn same_tree(self, other: UsbDevice) -> bool
        decreases self,
    {
        &&& self.sysfs_name@ == other.sysfs_name@
        &&& self.sysfs_path@ == other.sysfs_path@
        &&& self.is_root_hub == other.is_root_hub
        &&& opt_text(self.parent) == opt_text(other.parent)
        &&& self.busnum == other.busnum
        &&& self.devnum == other.devnum
        &&& self.id_vendor == other.id_vendor
        &&& self.id_product == other.id_product
        &&& opt_text(self.manufacturer) == opt_text(other.manufacturer)
        &&& opt_text(self.product) == opt_text(other.product)
        &&& opt_text(self.serial) == opt_text(other.serial)
        &&& opt_text(self.usb_version) == opt_text(other.usb_version)
        &&& self.usb_version_num == other.usb_version_num
        &&& self.speed == other.speed
        &&& self.rx_lanes == other.rx_lanes
        &&& self.tx_lanes == other.tx_lanes
        &&& self.max_power_ma == other.max_power_ma
        &&& self.self_powered == other.self_powered
        &&& self.remote_wakeup == other.remote_wakeup
        &&& self.device_class == other.device_class
        &&& self.max_children == other.max_children
        &&& opt_text(self.removable) == opt_text(other.removable)
        &&& self.authorized == other.authorized
        &&& self.urbnum == other.urbnum
        &&& self.active_duration_ms == other.active_duration_ms
        &&& self.connected_duration_ms == other.connected_duration_ms
        &&& self.runtime_suspended_ms == other.runtime_suspended_ms
        &&& opt_text(self.power_control) == opt_text(other.power_control)
        &&& self.autosuspend_delay_ms == other.autosuspend_delay_ms
        &&& self.interfaces@ == other.interfaces@
        &&& self.ports@ == other.ports@
        &&& self.declared == other.declared
        &&& self.children@.len() == other.children@.len()
        &&& forall|i: int|
            0 <= i < self.children@.len() ==> (#[trigger] self.children@[i]).same_tree(
                other.children@[i],
            )
    }
}

impl Clone for UsbDevice {
    fn clone(&self) -> (r: Self)
        ensures
            self.same_tree(r),
        decreases self,
    {
        let mut children: Vec<UsbDevice> = Vec::new();
        let mut i: usize = 0;
        while i < self.children.len()
            invariant
                i <= self.children.len(),
                children.len() == i,
                forall|k: int|
                    0 <= k < i ==> (#[trigger] self.children@[k]).same_tree(children@[k]),
            decreases self.children.len() - i,
        {
            children.push(self.children[i].clone());
            i += 1;
        }
        let mut interfaces: Vec<UsbInterface> = Vec::new();
        let mut j: usize = 0;
        while j < self.interfaces.len()
            invariant
                j <= self.interfaces.len(),
                interfaces@ == self.interfaces@.take(j as int),
            decreases self.interfaces.len() - j,
        {
            interfaces.push(self.interfaces[j].clone());
            j += 1;
        }
        let mut ports: Vec<HubPort> = Vec::new();
        let mut k: usize = 0;
        while k < self.ports.len()
            invariant
                k <= self.ports.len(),
                ports@ == self.ports@.take(k as int),
            decreases self.ports.len() - k,
        {
            ports.push(self.ports[k].clone());
            k += 1;
        }
        proof {
            assert(self.interfaces@.take(j as int) =~= self.interfaces@);
            assert(self.ports@.take(k as int) =~= self.ports@);
        }
        UsbDevice {
            sysfs_name: self.sysfs_name.clone(),
            sysfs_path: self.sysfs_path.clone(),
            is_root_hub: self.is_root_hub,
            parent: self.parent.clone(),
            busnum: self.busnum,
            devnum: self.devnum,
            id_vendor: self.id_vendor,
            id_product: self.id_product,
            manufacturer: self.manufacturer.clone(),
            product: self.product.clone(),
            serial: self.serial.clone(),
            usb_version: self.usb_version.clone(),
            usb_version_num: self.usb_version_num,
            speed: self.speed.clone(),
            rx_lanes: self.rx_lanes,
            tx_lanes: self.tx_lanes,
            max_power_ma: self.max_power_ma,
            self_powered: self.self_powered,
            remote_wakeup: self.remote_wakeup,
            device_class: self.device_class,
            max_children: self.max_children,
            removable: self.removable.clone(),
            authorized: self.authorized,
            urbnum: self.urbnum,
            active_duration_ms: self.active_duration_ms,
            connected_duration_ms: self.connected_duration_ms,
            runtime_suspended_ms: self.runtime_suspended_ms,
            power_control: self.power_control.clone(),
            autosuspend_delay_ms: self.autosuspend_delay_ms,
            interfaces,
            ports,
            children,
            declared: self.declared.clone(),
        }
    }
}

/// What a user declared about a device, as it was matched to one.
#[derive(Debug, Default)]
pub struct Declaration {
    /// The vendor and product id it is stored against.
    pub id: String,
    /// Whether it is about this one unit rather than its model.
    pub unit: bool,
    pub kind: Option<DeviceKind>,
    pub medium: Option<Medium>,
    pub note: Option<String>,
}

impl Clone for Declaration {
    fn clone(&self) -> (r: Self)
        ensures
            r == *self,
    {
        Declaration {
            id: self.id.clone(),
            unit: self.unit,
            kind: self.kind,
            medium: self.medium,
            note: self.note.clone(),
        }
    }
}

/// Where a declared fact came from.
pub const CITATION: &'static str = "declared by you for {} ({})";

impl Declaration {
    /// Which things a declaration covers.
    pub open spec fn scope(self) -> Seq<char> {
        if self.unit {
            "this unit"@
        } else {
            "this model"@
        }
    }

    pub fn scope_label(&self) -> (r: &'static str)
        ensures
            r@ == self.scope(),
    {
        if self.unit {
            "this unit"
        } else {
            "this model"
        }
    }

    /// The line a finding resting on a declaration cites.
    pub open spec fn citation(self) -> Seq<char> {
        filled(CITATION@, seq![self.id@, self.scope()])
    }

    pub fn cite(&self) -> (r: String)
        ensures
            r@ == self.citation(),
    {
        fill2(CITATION, self.id.as_str(), self.scope_label())
    }
}

/// A pair of words with a space between.
pub const TWO_WORDS: &'static str = "{} {}";

/// A vendor and product id.
pub const ID_PAIR: &'static str = "{}:{}";

impl UsbDevice {
    /// Vendor and product id, as `0bda:8153`.
    pub open spec fn ids(self) -> Option<Seq<char>> {
        match (self.id_vendor, self.id_product) {
            (Some(v), Some(p)) => Some(
                filled(ID_PAIR@, seq![hex_fixed(v as nat, 4), hex_fixed(p as nat, 4)]),
            ),
            _ => None,
        }
    }

    pub fn vid_pid(&self) -> (r: Option<String>)
        ensures
            opt_text(r) == self.ids(),
    {
        match (self.id_vendor, self.id_product) {
            (Some(v), Some(p)) => {
                let a = hex4(v);
                let b = hex4(p);
                Some(fill2(ID_PAIR, a.as_str(), b.as_str()))
            },
            _ => None,
        }
    }

    /// What to call the device: its own strings, else its ids, else its name.
    pub open spec fn called(self) -> Seq<char> {
        match (self.manufacturer, self.product) {
            (Some(m), Some(p)) => filled(TWO_WORDS@, seq![m@, p@]),
            (None, Some(p)) => p@,
            (Some(m), None) => m@,
            (None, None) => match self.ids() {
                Some(t) => t,
                None => self.sysfs_name@,
            },
        }
    }

    pub fn label(&self) -> (r: String)
        ensures
            r@ == self.called(),
    {
        match (&self.manufacturer, &self.product) {
            (Some(m), Some(p)) => fill2(TWO_WORDS, m.as_str(), p.as_str()),
            (None, Some(p)) => p.clone(),
            (Some(m), None) => m.clone(),
            (None, None) => match self.vid_pid() {
                Some(t) => t,
                None => self.sysfs_name.clone(),
            },
        }
    }

    /// The device's own descriptors claim SuperSpeed or better.
    ///
    /// A USB 3 device that has fallen back to USB 2.0 reports `2.10` and stops
    /// claiming USB 3, so this cannot detect a fallback by itself.
    pub open spec fn says_superspeed(self) -> bool {
        self.usb_version_num matches Some(v) && v.micros >= 3_000_000
    }

    pub fn claims_superspeed(&self) -> (r: bool)
        ensures
            r == self.says_superspeed(),
    {
        match self.usb_version_num {
            Some(v) => v.micros >= 3_000_000,
            None => false,
        }
    }

    /// The negotiated link is USB 2.0 or slower.
    pub open spec fn linked_slow(self) -> bool {
        self.speed matches Some(s) && s.mbps.micros <= 480_000_000
    }

    pub fn linked_below_superspeed(&self) -> (r: bool)
        ensures
            r == self.linked_slow(),
    {
        match &self.speed {
            Some(s) => s.mbps.micros <= 480_000_000,
            None => false,
        }
    }

    /// The compact link rate, or nothing where none was read.
    pub open spec fn rate_text(self) -> Seq<char> {
        match self.speed {
            Some(s) => s.brief(),
            None => Seq::empty(),
        }
    }

    pub fn rate(&self) -> (r: String)
        ensures
            r@ == self.rate_text(),
    {
        match &self.speed {
            Some(s) => s.short(),
            None => String::new(),
        }
    }

    /// What this device is. A user's correction wins over the class codes.
    pub open spec fn identified(self) -> Kind {
        match self.declared {
            Some(d) => match d.kind {
                Some(k) => Kind { kind: k, source: KindSource::User },
                None => classified(self),
            },
            None => classified(self),
        }
    }

    pub fn kind(&self) -> (r: Kind)
        ensures
            r == self.identified(),
    {
        if let Some(d) = &self.declared {
            if let Some(k) = d.kind {
                return Kind { kind: k, source: KindSource::User };
            }
        }
        classify(self)
    }

    /// What the device itself says it is, ignoring any correction.
    pub fn declared_kind(&self) -> (r: Kind)
        ensures
            r == classified(*self),
    {
        classify(self)
    }

    /// Any interface reports this USB class code.
    pub open spec fn has_class(self, class: u8) -> bool {
        exists|i: int|
            0 <= i < self.interfaces.len() && (#[trigger] self.interfaces[i]).class == Some(class)
    }

    pub fn has_interface_class(&self, class: u8) -> (r: bool)
        ensures
            r == self.has_class(class),
    {
        let mut i: usize = 0;
        while i < self.interfaces.len()
            invariant
                i <= self.interfaces.len(),
                forall|k: int|
                    0 <= k < i ==> (#[trigger] self.interfaces[k]).class != Some(class),
            decreases self.interfaces.len() - i,
        {
            if let Some(c) = self.interfaces[i].class {
                if c == class {
                    return true;
                }
            }
            i += 1;
        }
        false
    }

    /// Soldered down or on an internal header, so no cable is involved.
    /// `unknown` is treated as external.
    pub open spec fn internal(self) -> bool {
        opt_text(self.removable) == Some("fixed"@)
    }

    pub fn is_internal(&self) -> (r: bool)
        ensures
            r == self.internal(),
    {
        is_text(&self.removable, "fixed")
    }

    /// Seconds since boot at which this device attached, never before boot.
    pub open spec fn attached_at(self, uptime: Double) -> Option<Double> {
        match self.connected_duration_ms {
            Some(ms) => Some(uptime.since(Double::whole(ms as nat).over(1000))),
            None => None,
        }
    }

    pub fn attached_at_s(&self, uptime_s: Double) -> (r: Option<Double>)
        ensures
            r == self.attached_at(uptime_s),
    {
        match self.connected_duration_ms {
            Some(ms) => Some(uptime_s.time_since(&Double::quotient(ms, 1000))),
            None => None,
        }
    }

    /// The part of connected time spent runtime-suspended, at most all of it.
    pub open spec fn suspended_part(self) -> Option<Ratio> {
        match (self.connected_duration_ms, self.runtime_suspended_ms) {
            (Some(c), Some(s)) => if c == 0 {
                None
            } else if s > c {
                Some(Ratio { num: c, den: c })
            } else {
                Some(Ratio { num: s, den: c })
            },
            _ => None,
        }
    }

    pub fn suspend_ratio(&self) -> (r: Option<Ratio>)
        ensures
            r == self.suspended_part(),
    {
        match (self.connected_duration_ms, self.runtime_suspended_ms) {
            (Some(c), Some(s)) => if c == 0 {
                None
            } else if s > c {
                Some(Ratio { num: c, den: c })
            } else {
                Some(Ratio { num: s, den: c })
            },
            _ => None,
        }
    }

    /// Runtime power management is free to suspend this device and is doing so
    /// more than nine tenths of the time.
    pub open spec fn churns(self) -> bool {
        &&& opt_text(self.power_control) == Some("auto"@)
        &&& self.suspended_part() matches Some(r) && r.more_than(9, 10)
    }

    pub fn autosuspend_churn(&self) -> (r: bool)
        ensures
            r == self.churns(),
    {
        if !is_text(&self.power_control, "auto") {
            return false;
        }
        match self.suspend_ratio() {
            Some(r) => r.is_more_than(9, 10),
            None => false,
        }
    }
}

/// A downstream port on a hub or root hub.
#[derive(Debug, Default)]
pub struct HubPort {
    /// e.g. `usb3-port5` or `3-5-port1`.
    pub name: String,
    pub number: Option<u32>,
    pub state: Option<String>,
    /// `hotplug` | `hardwired` | `not used`.
    pub connect_type: Option<String>,
    /// Hardware over-current trip counter.
    pub over_current_count: Option<u32>,
    /// ACPI `_PLD` group/token. Ports sharing a value are the same receptacle.
    pub location: Option<String>,
    pub physical_location: Option<PhysicalLocation>,
    /// Type-C port this receptacle belongs to, when firmware provides the link.
    pub connector: Option<String>,
    /// `sysfs_name` of the device currently attached here.
    pub child: Option<String>,
}

impl Clone for HubPort {
    fn clone(&self) -> (r: Self)
        ensures
            r == *self,
    {
        HubPort {
            name: self.name.clone(),
            number: self.number,
            state: self.state.clone(),
            connect_type: self.connect_type.clone(),
            over_current_count: self.over_current_count,
            location: self.location.clone(),
            physical_location: self.physical_location.clone(),
            connector: self.connector.clone(),
            child: self.child.clone(),
        }
    }
}

/// Where a receptacle physically is, from ACPI `_PLD`.
#[derive(Debug, Default, PartialEq, Eq)]
pub struct PhysicalLocation {
    pub panel: Option<String>,
    pub vertical_position: Option<String>,
    pub horizontal_position: Option<String>,
    pub dock: Option<bool>,
    pub lid: Option<bool>,
}

impl Clone for PhysicalLocation {
    fn clone(&self) -> (r: Self)
        ensures
            r == *self,
    {
        PhysicalLocation {
            panel: self.panel.clone(),
            vertical_position: self.vertical_position.clone(),
            horizontal_position: self.horizontal_position.clone(),
            dock: self.dock,
            lid: self.lid,
        }
    }
}

/// The panel a receptacle is on.
pub const ON_PANEL: &'static str = "{} panel";

/// The place on that panel.
pub const IN_BRACKETS: &'static str = "({})";

impl PhysicalLocation {
    pub open spec fn says_nothing(self) -> bool {
        self.panel is None && self.vertical_position is None && self.horizontal_position is None
            && self.dock is None && self.lid is None
    }

    pub fn is_empty(&self) -> (r: bool)
        ensures
            r == self.says_nothing(),
    {
        self.panel.is_none() && self.vertical_position.is_none()
            && self.horizontal_position.is_none() && self.dock.is_none() && self.lid.is_none()
    }

    /// The vertical and horizontal words that are present, in that order.
    pub open spec fn position(self) -> Seq<Seq<char>> {
        let v = match self.vertical_position {
            Some(s) => Seq::empty().push(s@),
            None => Seq::empty(),
        };
        match self.horizontal_position {
            Some(s) => v.push(s@),
            None => v,
        }
    }

    /// The parts of the short form.
    pub open spec fn parts(self) -> Seq<Seq<char>> {
        let a = match self.panel {
            Some(p) => Seq::empty().push(filled(ON_PANEL@, seq![p@])),
            None => Seq::empty(),
        };
        let b = if self.position().len() > 0 {
            a.push(filled(IN_BRACKETS@, seq![joined(self.position(), "/"@)]))
        } else {
            a
        };
        let c = if self.dock == Some(true) {
            b.push("on dock"@)
        } else {
            b
        };
        if self.lid == Some(true) {
            c.push("on lid"@)
        } else {
            c
        }
    }

    /// Short human form, e.g. `left panel (center/left)`.
    pub open spec fn short(self) -> Seq<char> {
        joined(self.parts(), " "@)
    }

    pub fn display(&self) -> (r: String)
        ensures
            r@ == self.short(),
    {
        let mut parts = no_texts();
        if let Some(p) = &self.panel {
            push_text(&mut parts, fill1(ON_PANEL, p.as_str()));
        }
        let mut pos = no_texts();
        if let Some(v) = &self.vertical_position {
            push_text(&mut pos, v.clone());
        }
        if let Some(h) = &self.horizontal_position {
            push_text(&mut pos, h.clone());
        }
        if pos.len() > 0 {
            let inner = join(&pos, "/");
            push_text(&mut parts, fill1(IN_BRACKETS, inner.as_str()));
        }
        if let Some(true) = self.dock {
            push_text(&mut parts, owned("on dock"));
        }
        if let Some(true) = self.lid {
            push_text(&mut parts, owned("on lid"));
        }
        join(&parts, " ")
    }
}

#[derive(Debug, Default)]
pub struct UsbInterface {
    pub sysfs_name: String,
    pub number: Option<u32>,
    pub class: Option<u8>,
    pub subclass: Option<u8>,
    pub protocol: Option<u8>,
    pub driver: Option<String>,
    pub description: Option<String>,
}

impl Clone for UsbInterface {
    fn clone(&self) -> (r: Self)
        ensures
            r == *self,
    {
        UsbInterface {
            sysfs_name: self.sysfs_name.clone(),
            number: self.number,
            class: self.class,
            subclass: self.subclass,
            protocol: self.protocol,
            driver: self.driver.clone(),
            description: self.description.clone(),
        }
    }
}

/// A negotiated link rate, kept as a number plus its marketing name.
#[derive(Debug, PartialEq)]
pub struct LinkSpeed {
    pub mbps: Decimal,
    pub class: SpeedClass,
    /// Human label, e.g. "SuperSpeed+ 10 Gbps (USB 3.2 Gen 2x1)".
    pub label: String,
}

impl Clone for LinkSpeed {
    fn clone(&self) -> (r: Self)
        ensures
            r == *self,
    {
        LinkSpeed {
            mbps: self.mbps,
            class: self.class,
            label: self.label.clone(),
        }
    }
}

#[derive(Debug, Clone, Copy, PartialEq, Eq, Structural)]
pub enum SpeedClass {
    Low,
    Full,
    High,
    SuperSpeed,
    SuperSpeedPlus10,
    SuperSpeedPlus20,
    Usb4,
}

impl SpeedClass {
    /// The class a rate falls into.
    pub open spec fn of(mbps: Decimal) -> SpeedClass {
        if mbps.micros < 2_000_000 {
            SpeedClass::Low
        } else if mbps.micros < 20_000_000 {
            SpeedClass::Full
        } else if mbps.micros < 1_000_000_000 {
            SpeedClass::High
        } else if mbps.micros < 7_000_000_000 {
            SpeedClass::SuperSpeed
        } else if mbps.micros < 15_000_000_000 {
            SpeedClass::SuperSpeedPlus10
        } else if mbps.micros < 30_000_000_000 {
            SpeedClass::SuperSpeedPlus20
        } else {
            SpeedClass::Usb4
        }
    }

    pub open spec fn name(self) -> Seq<char> {
        match self {
            SpeedClass::Low => "Low-Speed 1.5 Mbps (USB 1.0)"@,
            SpeedClass::Full => "Full-Speed 12 Mbps (USB 1.1)"@,
            SpeedClass::High => "High-Speed 480 Mbps (USB 2.0)"@,
            SpeedClass::SuperSpeed => "SuperSpeed 5 Gbps (USB 3.2 Gen 1x1)"@,
            SpeedClass::SuperSpeedPlus10 => "SuperSpeed+ 10 Gbps (USB 3.2 Gen 2x1)"@,
            SpeedClass::SuperSpeedPlus20 => "SuperSpeed+ 20 Gbps (USB 3.2 Gen 2x2)"@,
            SpeedClass::Usb4 => "USB4 40 Gbps"@,
        }
    }

    fn label(&self) -> (r: &'static str)
        ensures
            r@ == self.name(),
    {
        match self {
            SpeedClass::Low => "Low-Speed 1.5 Mbps (USB 1.0)",
            SpeedClass::Full => "Full-Speed 12 Mbps (USB 1.1)",
            SpeedClass::High => "High-Speed 480 Mbps (USB 2.0)",
            SpeedClass::SuperSpeed => "SuperSpeed 5 Gbps (USB 3.2 Gen 1x1)",
            SpeedClass::SuperSpeedPlus10 => "SuperSpeed+ 10 Gbps (USB 3.2 Gen 2x1)",
            SpeedClass::SuperSpeedPlus20 => "SuperSpeed+ 20 Gbps (USB 3.2 Gen 2x2)",
            SpeedClass::Usb4 => "USB4 40 Gbps",
        }
    }
}

/// A rate as tree output shows it: gigabits from 1000 Mbit/s on.
pub open spec fn brief_rate(mbps: Decimal) -> Seq<char> {
    if mbps.micros >= 1_000_000_000 {
        shortest(mbps.micros as nat / 1_000_000_000, mbps.micros as nat % 1_000_000_000, 9).push('G')
    } else {
        mbps.text().push('M')
    }
}

impl LinkSpeed {
    /// Realistic sustained bytes per second for this link rate.
    pub fn practical_bps(&self) -> (r: Decimal)
        ensures
            r == sustained(self.mbps),
    {
        practical_bps(self.mbps)
    }

    pub fn from_mbps(mbps: Decimal) -> (r: Self)
        ensures
            r.mbps == mbps,
            r.class == SpeedClass::of(mbps),
            r.label@ == SpeedClass::of(mbps).name(),
    {
        let m: u64 = mbps.micros;
        let class = if m < 2_000_000 {
            SpeedClass::Low
        } else if m < 20_000_000 {
            SpeedClass::Full
        } else if m < 1_000_000_000 {
            SpeedClass::High
        } else if m < 7_000_000_000 {
            SpeedClass::SuperSpeed
        } else if m < 15_000_000_000 {
            SpeedClass::SuperSpeedPlus10
        } else if m < 30_000_000_000 {
            SpeedClass::SuperSpeedPlus20
        } else {
            SpeedClass::Usb4
        };
        LinkSpeed { mbps, class, label: owned(class.label()) }
    }

    /// Compact form for tree output, e.g. "480M".
    pub open spec fn brief(self) -> Seq<char> {
        brief_rate(self.mbps)
    }

    pub fn short(&self) -> (r: String)
        ensures
            r@ == self.brief(),
    {
        brief_rate_text(self.mbps)
    }
}

pub fn brief_rate_text(mbps: Decimal) -> (r: String)
    ensures
        r@ == brief_rate(mbps),
{
    if mbps.micros >= 1_000_000_000 {
        let mut s = shortest_text(mbps.micros / 1_000_000_000, mbps.micros % 1_000_000_000, 9);
        s.push('G');
        s
    } else {
        let mut s = mbps.display();
        s.push('M');
        s
    }
}

/// What a link rate sustains after protocol overhead, in bytes per second.
pub open spec fn sustained(mbps: Decimal) -> Decimal {
    let n: nat = if mbps.micros <= 12_000_000 {
        1_000_000
    } else if mbps.micros <= 480_000_000 {
        40_000_000
    } else if mbps.micros <= 5_000_000_000 {
        450_000_000
    } else if mbps.micros <= 10_000_000_000 {
        950_000_000
    } else if mbps.micros <= 20_000_000_000 {
        1_900_000_000
    } else {
        3_500_000_000
    };
    Decimal::of(n)
}

/// As [`LinkSpeed::practical_bps`], for a bare rate.
pub fn practical_bps(mbps: Decimal) -> (r: Decimal)
    ensures
        r == sustained(mbps),
{
    let m: u64 = mbps.micros;
    if m <= 12_000_000 {
        Decimal::whole(1_000_000)
    } else if m <= 480_000_000 {
        Decimal::whole(40_000_000)
    } else if m <= 5_000_000_000 {
        Decimal::whole(450_000_000)
    } else if m <= 10_000_000_000 {
        Decimal::whole(950_000_000)
    } else if m <= 20_000_000_000 {
        Decimal::whole(1_900_000_000)
    } else {
        Decimal::whole(3_500_000_000)
    }
}

// ---------------------------------------------------------------------------
// Type-C
// ---------------------------------------------------------------------------

#[derive(Debug, Clone, Default)]
pub struct TypecPort {
    pub name: String,
    pub index: u32,
    pub sysfs_path: String,
    pub data_role: Option<RoleField>,
    pub power_role: Option<RoleField>,
    pub preferred_role: Option<String>,
    pub port_type: Option<RoleField>,
    /// `default` | `1.5A` | `3.0A` | `usb_power_delivery`
    pub power_operation_mode: Option<String>,
    pub usb_capability: Option<RoleField>,
    pub vconn_source: Option<bool>,
    pub orientation: Option<String>,
    pub pd_revision: Option<String>,
    pub typec_revision: Option<String>,
    pub supported_accessory_modes: Vec<String>,
    pub physical_location: Option<PhysicalLocation>,
    pub alt_modes: Vec<AltMode>,
    /// The local port's own PD capabilities.
    pub local_pd: Option<PowerDelivery>,
    /// Present only while something is attached.
    pub partner: Option<Partner>,
    /// Present only when the cable has an e-marker and the driver reports it.
    pub cable: Option<Cable>,
    pub plugs: Vec<Plug>,
    /// Live electrical state of the negotiated contract.
    pub power_supply: Option<PortPowerSupply>,
}

/// Whether a role field's current value reads `word`, whatever its case.
pub open spec fn role_is(f: Option<RoleField>, word: Seq<char>) -> bool {
    f matches Some(r) && r.current matches Some(c) && lowered(c@) == lowered(word)
}

fn role_reads(f: &Option<RoleField>, word: &str) -> (r: bool)
    ensures
        r == role_is(*f, word@),
{
    match f {
        Some(role) => match &role.current {
            Some(c) => same_ignoring_case(c.as_str(), word),
            None => false,
        },
        None => false,
    }
}

impl TypecPort {
    pub open spec fn attached(self) -> bool {
        self.partner is Some
    }

    pub fn is_attached(&self) -> (r: bool)
        ensures
            r == self.attached(),
    {
        self.partner.is_some()
    }

    pub open spec fn contracted(self) -> bool {
        opt_text(self.power_operation_mode) == Some("usb_power_delivery"@)
    }

    pub fn pd_contract_active(&self) -> (r: bool)
        ensures
            r == self.contracted(),
    {
        is_text(&self.power_operation_mode, "usb_power_delivery")
    }

    /// This machine is supplying power to the attached device.
    pub open spec fn sourcing(self) -> bool {
        role_is(self.power_role, "source"@)
    }

    pub fn is_sourcing(&self) -> (r: bool)
        ensures
            r == self.sourcing(),
    {
        role_reads(&self.power_role, "source")
    }

    /// This machine is drawing power from the attached device.
    pub open spec fn sinking(self) -> bool {
        role_is(self.power_role, "sink"@)
    }

    pub fn is_sinking(&self) -> (r: bool)
        ensures
            r == self.sinking(),
    {
        role_reads(&self.power_role, "sink")
    }

    /// Power ceiling implied by the Type-C current advertisement, in mW. `None`
    /// under a PD contract, which supersedes it.
    pub open spec fn advertised_mw(self) -> Option<u32> {
        if opt_text(self.power_operation_mode) == Some("default"@) {
            Some(4_500u32)
        } else if opt_text(self.power_operation_mode) == Some("1.5A"@) {
            Some(7_500u32)
        } else if opt_text(self.power_operation_mode) == Some("3.0A"@) {
            Some(15_000u32)
        } else {
            None
        }
    }

    pub fn typec_advertised_ceiling_mw(&self) -> (r: Option<u32>)
        ensures
            r == self.advertised_mw(),
    {
        if is_text(&self.power_operation_mode, "default") {
            Some(4_500)
        } else if is_text(&self.power_operation_mode, "1.5A") {
            Some(7_500)
        } else if is_text(&self.power_operation_mode, "3.0A") {
            Some(15_000)
        } else {
            None
        }
    }

    /// Some supported value of the USB capability names USB 3.
    pub open spec fn usb3_capable(self) -> bool {
        self.usb_capability matches Some(c) && exists|i: int|
            0 <= i < c.supported.len() && holds_text((#[trigger] c.supported[i])@, "usb3"@)
    }

    /// Does this port support SuperSpeed data at all?
    pub fn supports_usb3(&self) -> (r: bool)
        ensures
            r == self.usb3_capable(),
    {
        match &self.usb_capability {
            Some(c) => {
                let mut i: usize = 0;
                while i < c.supported.len()
                    invariant
                        i <= c.supported.len(),
                        self.usb_capability == Some(*c),
                        forall|k: int|
                            0 <= k < i ==> !holds_text((#[trigger] c.supported[k])@, "usb3"@),
                    decreases c.supported.len() - i,
                {
                    if contains(c.supported[i].as_str(), "usb3") {
                        assert(holds_text(c.supported[i as int]@, "usb3"@));
                        return true;
                    }
                    i += 1;
                }
                false
            },
            None => false,
        }
    }
}

/// A sysfs field of the form `host [device]`: a list of supported values with
/// the active one in brackets.
#[derive(Debug, Clone, Default, PartialEq, Eq)]
pub struct RoleField {
    pub current: Option<String>,
    pub supported: Vec<String>,
    pub raw: String,
}

/// The word inside a bracketed token.
pub open spec fn bracketed(tok: Seq<char>) -> Option<Seq<char>> {
    if tok.len() >= 2 && tok[0] == '[' && tok.last() == ']' {
        Some(tok.subrange(1, tok.len() - 1))
    } else {
        None
    }
}

/// The tokens without their brackets.
pub open spec fn unbracketed(toks: Seq<Seq<char>>) -> Seq<Seq<char>> {
    Seq::new(
        toks.len(),
        |i: int|
            match bracketed(toks[i]) {
                Some(t) => t,
                None => toks[i],
            },
    )
}

/// The last bracketed token, if there is one.
pub open spec fn last_bracketed(toks: Seq<Seq<char>>) -> Option<Seq<char>>
    decreases toks.len(),
{
    if toks.len() == 0 {
        None
    } else {
        match bracketed(toks.last()) {
            Some(t) => Some(t),
            None => last_bracketed(toks.drop_last()),
        }
    }
}

fn unbracket(tok: &String) -> (r: Option<String>)
    ensures
        opt_text(r) == bracketed(tok@),
{
    let cs = crate::text::chars_of(tok.as_str());
    if cs.len() >= 2 && cs[0] == '[' && cs[cs.len() - 1] == ']' {
        Some(crate::text::slice(&cs, 1, cs.len() - 1))
    } else {
        None
    }
}

impl RoleField {
    /// What the active value is. A field with a single unbracketed value is
    /// itself the current value.
    pub open spec fn active(raw: Seq<char>) -> Option<Seq<char>> {
        match last_bracketed(words(raw)) {
            Some(t) => Some(t),
            None => if words(raw).len() == 1 {
                Some(words(raw)[0])
            } else {
                None
            },
        }
    }

    pub fn parse(raw: &str) -> (r: Self)
        ensures
            opt_text(r.current) == RoleField::active(raw@),
            texts(r.supported@) == unbracketed(words(raw@)),
            r.raw@ == raw@,
    {
        let toks = split_whitespace(raw);
        let mut supported = no_texts();
        let mut current: Option<String> = None;
        let mut i: usize = 0;
        let ghost ws = words(raw@);
        assert(unbracketed(ws.take(0)) =~= Seq::<Seq<char>>::empty());
        while i < toks.len()
            invariant
                i <= toks.len(),
                texts(toks@) == ws,
                texts(supported@) == unbracketed(ws.take(i as int)),
                opt_text(current) == last_bracketed(ws.take(i as int)),
            decreases toks.len() - i,
        {
            proof {
                assert(ws[i as int] == toks[i as int]@);
                assert(ws.take(i + 1).drop_last() == ws.take(i as int));
                assert(ws.take(i + 1).last() == toks[i as int]@);
            }
            match unbracket(&toks[i]) {
                Some(inner) => {
                    current = Some(inner.clone());
                    push_text(&mut supported, inner);
                },
                None => {
                    push_text(&mut supported, toks[i].clone());
                },
            }
            assert(texts(supported@) =~= unbracketed(ws.take(i + 1)));
            i += 1;
        }
        assert(ws.take(i as int) == ws);
        if current.is_none() && supported.len() == 1 {
            assert(texts(supported@)[0] == supported[0]@);
            assert(ws.drop_last() =~= Seq::<Seq<char>>::empty());
            current = Some(supported[0].clone());
        }
        RoleField { current, supported, raw: owned(raw) }
    }

    pub open spec fn shown(self) -> Seq<char> {
        match self.current {
            Some(c) => c@,
            None => self.raw@,
        }
    }

    pub fn display(&self) -> (r: String)
        ensures
            r@ == self.shown(),
    {
        match &self.current {
            Some(c) => c.clone(),
            None => self.raw.clone(),
        }
    }
}

#[derive(Debug, Clone, Default)]
pub struct AltMode {
    pub sysfs_name: String,
    pub svid: Option<u16>,
    pub svid_name: Option<String>,
    pub mode: Option<u32>,
    pub vdo: Option<Vdo>,
    pub active: Option<bool>,
    pub description: Option<String>,
}

#[derive(Debug, Clone, Default)]
pub struct Partner {
    pub sysfs_name: String,
    /// `type` attribute. Frequently absent.
    pub kind: Option<String>,
    pub supports_pd: Option<bool>,
    /// `accessory_mode` when it is anything other than `none`.
    pub accessory_mode: Option<String>,
    pub pd_revision: Option<String>,
    pub num_alt_modes: Option<i64>,
    pub identity: Option<Identity>,
    pub alt_modes: Vec<AltMode>,
    /// The attached device's PD capabilities, when it speaks PD.
    pub pd: Option<PowerDelivery>,
}

impl Partner {
    pub open spec fn pd_capable(self) -> bool {
        self.supports_pd == Some(true)
    }

    /// True only when the attached device actually speaks Power Delivery.
    pub fn speaks_pd(&self) -> (r: bool)
        ensures
            r == self.pd_capable(),
    {
        match self.supports_pd {
            Some(b) => b,
            None => false,
        }
    }

    /// PD revision worth showing. Drivers report `0.0` for a device that does
    /// not speak PD at all.
    pub fn pd_revision_display(&self) -> (r: Option<&str>)
        ensures
            match r {
                Some(t) => opt_text(self.pd_revision) == Some(t@) && !begins_with(t@, "0."@) && t@
                    != "0"@,
                None => self.pd_revision is None || begins_with(self.pd_revision->0@, "0."@)
                    || self.pd_revision->0@ == "0"@,
            },
    {
        match &self.pd_revision {
            Some(t) => if !starts_with(t.as_str(), "0.") && !same(t.as_str(), "0") {
                Some(t.as_str())
            } else {
                None
            },
            None => None,
        }
    }
}

/// The cable itself, as reported over SOP' communication.
#[derive(Debug, Clone, Default)]
pub struct Cable {
    pub sysfs_name: String,
    /// `active` | `passive`
    pub kind: Option<String>,
    /// `type-a` | `type-b` | `type-c` | `captive`
    pub plug_type: Option<String>,
    pub pd_revision: Option<String>,
    pub identity: Option<Identity>,
}

#[derive(Debug, Clone, Default)]
pub struct Plug {
    pub sysfs_name: String,
    pub num_alt_modes: Option<i64>,
    pub alt_modes: Vec<AltMode>,
}

/// The Discover Identity response: raw VDOs plus a best-effort decode.
#[derive(Debug, Clone, Default)]
pub struct Identity {
    pub id_header: Option<Vdo>,
    pub cert_stat: Option<Vdo>,
    pub product: Option<Vdo>,
    pub product_type_vdo1: Option<Vdo>,
    pub product_type_vdo2: Option<Vdo>,
    pub product_type_vdo3: Option<Vdo>,
    pub decoded: IdentityDecoded,
}

/// Decoded identity fields. The raw VDOs stay authoritative.
#[derive(Debug, Clone, Default)]
pub struct IdentityDecoded {
    pub vendor_id: Option<u16>,
    pub product_id: Option<u16>,
    pub bcd_device: Option<u16>,
    pub xid: Option<u32>,
    pub product_type: Option<String>,
    pub modal_operation: Option<bool>,
    pub connector_type: Option<String>,
    /// Cable-only: highest data rate the cable is built for.
    pub cable_max_speed: Option<String>,
    /// Cable-only: VBUS current the cable is rated for, in mA.
    pub cable_current_ma: Option<u32>,
    /// Cable-only: max VBUS voltage in mV.
    pub cable_max_voltage_mv: Option<u32>,
    pub cable_latency: Option<String>,
    pub cable_plug_type: Option<String>,
    pub cable_termination: Option<String>,
    pub hw_version: Option<u8>,
    pub fw_version: Option<u8>,
    /// Partner-only: highest data rate the attached device supports.
    pub partner_max_speed: Option<String>,
    pub partner_device_capability: Option<Vec<String>>,
}

/// A 32-bit Vendor Defined Object, kept raw and ready to print.
#[derive(Debug, Clone, Copy, PartialEq, Eq, Structural)]
pub struct Vdo {
    pub raw: u32,
    pub hex: HexU32,
}

impl Vdo {
    pub fn new(raw: u32) -> (r: Self)
        ensures
            r == (Vdo { raw, hex: HexU32(raw) }),
    {
        Vdo { raw, hex: HexU32(raw) }
    }
}

/// A 32-bit number written as `0x0123abcd`.
#[derive(Debug, Clone, Copy, PartialEq, Eq, Structural)]
pub struct HexU32(pub u32);

impl HexU32 {
    pub open spec fn text(self) -> Seq<char> {
        "0x"@ + hex_fixed(self.0 as nat, 8)
    }

    pub fn display(&self) -> (r: String)
        ensures
            r@ == self.text(),
    {
        let mut s = owned("0x");
        push_hex(&mut s, self.0, 8);
        s
    }

    /// The text without any `0x` in front of it, then without any `0X`.
    pub open spec fn bare(s: Seq<char>) -> Seq<char> {
        strip_all(strip_all(s, "0x"@), "0X"@)
    }

    /// Reads what [`HexU32::display`] writes, and the same without the prefix.
    pub fn parse(s: &str) -> (r: Option<HexU32>)
        ensures
            match r {
                Some(h) => parsed_hex(HexU32::bare(s@)) == Some(h.0 as nat),
                None => parsed_hex(HexU32::bare(s@)) is None,
            },
    {
        proof {
            reveal_strlit("0x");
            reveal_strlit("0X");
        }
        let a = strip_all_of(s, "0x");
        let b = strip_all_of(a.as_str(), "0X");
        match parse_hex(b.as_str()) {
            Some(v) => Some(HexU32(v)),
            None => None,
        }
    }
}

/// A text with a prefix taken off as often as it stands there.
pub open spec fn strip_all(s: Seq<char>, p: Seq<char>) -> Seq<char>
    decreases s.len(),
{
    if p.len() > 0 && begins_with(s, p) {
        strip_all(s.skip(p.len() as int), p)
    } else {
        s
    }
}

/// A word that was written is read back as it was.
pub proof fn a_written_word_is_read_back(h: HexU32)
    ensures
        parsed_hex(HexU32::bare(h.text())) == Some(h.0 as nat),
{
    reveal_strlit("0x");
    reveal_strlit("0X");
    let digits = hex_fixed(h.0 as nat, 8);
    lemma_hex_fixed(h.0 as nat, 8);
    assert(vstd::arithmetic::power::pow(16, 8) == 0x1_0000_0000) by {
        reveal_with_fuel(vstd::arithmetic::power::pow, 9);
    }
    assert(hex_value(digits[0]) is Some);
    assert(hex_value(digits[1]) is Some);
    assert(begins_with(h.text(), "0x"@)) by {
        assert(h.text().take(2) =~= "0x"@);
    }
    assert(h.text().skip(2) =~= digits);
    assert(!begins_with(digits, "0x"@)) by {
        assert(digits.take(2)[1] != "0x"@[1]);
    }
    assert(!begins_with(digits, "0X"@)) by {
        assert(digits.take(2)[1] != "0X"@[1]);
    }
    reveal_with_fuel(strip_all, 3);
    assert(HexU32::bare(h.text()) == digits);
}

fn strip_all_of(s: &str, p: &str) -> (r: String)
    requires
        p@.len() > 0,
    ensures
        r@ == strip_all(s@, p@),
    decreases s@.len(),
{
    match strip_prefix(s, p) {
        Some(rest) => strip_all_of(rest.as_str(), p),
        None => owned(s),
    }
}

// ---------------------------------------------------------------------------
// Power Delivery
// ---------------------------------------------------------------------------

#[derive(Debug, Clone, Default)]
pub struct PowerDelivery {
    pub name: String,
    pub revision: Option<String>,
    pub source_capabilities: Vec<Pdo>,
    pub sink_capabilities: Vec<Pdo>,
}

/// The largest power that any of the objects states.
pub open spec fn most_power(s: Seq<Pdo>) -> Option<u32>
    decreases s.len(),
{
    if s.len() == 0 {
        None
    } else {
        match (most_power(s.drop_last()), s.last().power()) {
            (Some(a), Some(b)) => if b >= a {
                Some(b)
            } else {
                Some(a)
            },
            (None, b) => b,
            (a, None) => a,
        }
    }
}

fn max_power(v: &Vec<Pdo>) -> (r: Option<u32>)
    ensures
        r == most_power(v@),
{
    let mut best: Option<u32> = None;
    let mut i: usize = 0;
    while i < v.len()
        invariant
            i <= v.len(),
            best == most_power(v@.take(i as int)),
        decreases v.len() - i,
    {
        assert(v@.take(i + 1).drop_last() == v@.take(i as int));
        let p = v[i].power_mw();
        best = match (best, p) {
            (Some(a), Some(b)) => if b >= a {
                Some(b)
            } else {
                Some(a)
            },
            (None, b) => b,
            (a, None) => a,
        };
        i += 1;
    }
    assert(v@.take(i as int) == v@);
    best
}

impl PowerDelivery {
    /// Highest power any single source PDO can deliver, in mW.
    pub fn max_source_power_mw(&self) -> (r: Option<u32>)
        ensures
            r == most_power(self.source_capabilities@),
    {
        max_power(&self.source_capabilities)
    }

    /// Highest power the sink asks for across its PDOs, in mW.
    pub fn max_sink_power_mw(&self) -> (r: Option<u32>)
        ensures
            r == most_power(self.sink_capabilities@),
    {
        max_power(&self.sink_capabilities)
    }
}

/// A Power Data Object: one entry in a source's offers or a sink's wishes.
#[derive(Debug, Clone)]
pub struct Pdo {
    pub index: u32,
    pub kind: PdoKind,
    pub role: PdoRole,
    /// Fixed supply voltage, or `None` for ranged supplies.
    pub voltage_mv: Option<u32>,
    pub min_voltage_mv: Option<u32>,
    pub max_voltage_mv: Option<u32>,
    /// Source PDOs report `maximum_current`, sink PDOs `operational_current`.
    pub current_ma: Option<u32>,
    pub power_mw_field: Option<u32>,
    /// Named flags; the first entry under a name counts.
    pub flags: Vec<(String, bool)>,
    pub peak_current: Option<u32>,
    pub fast_role_swap_current: Option<u32>,
}

/// The flag of a programmable supply limited by the charger's own rating.
pub const PPS_POWER_LIMITED: &'static str = "pps_power_limited";

/// The first flag of that name, `false` where there is none.
pub open spec fn flag_set(flags: Seq<(String, bool)>, name: Seq<char>) -> bool
    decreases flags.len(),
{
    if flags.len() == 0 {
        false
    } else if flags[0].0@ == name {
        flags[0].1
    } else {
        flag_set(flags.skip(1), name)
    }
}

/// Millivolts and milliamps multiplied out to milliwatts, in thirty-two bits.
pub open spec fn product_mw(mv: u32, ma: u32) -> u32 {
    ((mv * ma) / 1000) as u32
}

#[verifier::truncate]
fn power_product(mv: u32, ma: u32) -> (r: u32)
    ensures
        r == product_mw(mv, ma),
{
    proof {
        assert(0 <= mv * ma <= 0xffff_ffff * 0xffff_ffff) by (nonlinear_arith)
            requires
                0 <= mv <= 0xffff_ffff,
                0 <= ma <= 0xffff_ffff,
        ;
    }
    let p: u64 = mv as u64 * ma as u64;
    let q: u64 = p / 1000;
    #[verifier::truncate]
    (q as u32)
}

/// `3.25V`, or `?V` where it was not read.
pub open spec fn unit_text(v: Option<u32>, unit: char) -> Seq<char> {
    match v {
        Some(n) => shortest(n as nat / 1000, n as nat % 1000, 3).push(unit),
        None => seq!['?', unit],
    }
}

fn in_unit(v: Option<u32>, unit: char) -> (r: String)
    ensures
        r@ == unit_text(v, unit),
{
    match v {
        Some(n) => {
            let mut s = shortest_text((n / 1000) as u64, (n % 1000) as u64, 3);
            s.push(unit);
            s
        },
        None => {
            let mut s = String::new();
            s.push('?');
            s.push(unit);
            assert(s@ =~= seq!['?', unit]);
            s
        },
    }
}

fn fmt_mv(mv: Option<u32>) -> (r: String)
    ensures
        r@ == unit_text(mv, 'V'),
{
    in_unit(mv, 'V')
}

fn fmt_ma(ma: Option<u32>) -> (r: String)
    ensures
        r@ == unit_text(ma, 'A'),
{
    in_unit(ma, 'A')
}

pub const PDO_POWER: &'static str = " ({} W)";

pub const PDO_FIXED: &'static str = "{} @ {}{}";

pub const PDO_BATTERY: &'static str = "{}-{} battery{}";

pub const PDO_VARIABLE: &'static str = "{}-{} @ {}{}";

pub const PDO_PPS: &'static str = "{}-{} PPS @ {}{}";

impl Pdo {
    pub open spec fn limited(self) -> bool {
        flag_set(self.flags@, PPS_POWER_LIMITED@)
    }

    /// True for a PPS object whose real ceiling is the charger's own rating.
    pub fn is_power_limited(&self) -> (r: bool)
        ensures
            r == self.limited(),
    {
        let mut i: usize = 0;
        assert(self.flags@.skip(0) == self.flags@);
        while i < self.flags.len()
            invariant
                i <= self.flags.len(),
                flag_set(self.flags@.skip(i as int), PPS_POWER_LIMITED@) == self.limited(),
            decreases self.flags.len() - i,
        {
            if same(self.flags[i].0.as_str(), PPS_POWER_LIMITED) {
                return self.flags[i].1;
            }
            assert(self.flags@.skip(i as int).skip(1) == self.flags@.skip(i + 1));
            i += 1;
        }
        false
    }

    /// Deliverable power in mW, or `None` when it cannot be derived.
    ///
    /// A power-limited PPS object has none: a 100 W charger advertises PPS as
    /// 3.3-21 V at 5 A, which multiplies out to 105 W it cannot deliver.
    pub open spec fn power(self) -> Option<u32> {
        if self.power_mw_field is Some {
            self.power_mw_field
        } else if self.kind == PdoKind::ProgrammableSupply && self.limited() {
            None
        } else {
            let v = if self.voltage_mv is Some {
                self.voltage_mv
            } else {
                self.max_voltage_mv
            };
            match (v, self.current_ma) {
                (Some(mv), Some(ma)) => Some(product_mw(mv, ma)),
                _ => None,
            }
        }
    }

    pub fn power_mw(&self) -> (r: Option<u32>)
        ensures
            r == self.power(),
    {
        if let Some(p) = self.power_mw_field {
            return Some(p);
        }
        if self.kind == PdoKind::ProgrammableSupply && self.is_power_limited() {
            return None;
        }
        let v: Option<u32> = match self.voltage_mv {
            Some(mv) => Some(mv),
            None => self.max_voltage_mv,
        };
        match (v, self.current_ma) {
            (Some(mv), Some(ma)) => Some(power_product(mv, ma)),
            _ => None,
        }
    }

    /// The power in whole watts, in brackets.
    pub open spec fn power_note(self) -> Seq<char> {
        match self.power() {
            Some(mw) => filled(PDO_POWER@, seq![dec(rounded(mw as nat, 1000, 0))]),
            None => Seq::empty(),
        }
    }

    pub open spec fn described(self) -> Seq<char> {
        let mv = unit_text(self.voltage_mv, 'V');
        let lo = unit_text(self.min_voltage_mv, 'V');
        let hi = unit_text(self.max_voltage_mv, 'V');
        let ma = unit_text(self.current_ma, 'A');
        match self.kind {
            PdoKind::FixedSupply => filled(PDO_FIXED@, seq![mv, ma, self.power_note()]),
            PdoKind::Battery => filled(PDO_BATTERY@, seq![lo, hi, self.power_note()]),
            PdoKind::VariableSupply => filled(PDO_VARIABLE@, seq![lo, hi, ma, self.power_note()]),
            PdoKind::ProgrammableSupply => filled(
                PDO_PPS@,
                seq![
                    lo,
                    hi,
                    ma,
                    if self.limited() {
                        " (power-limited)"@
                    } else {
                        self.power_note()
                    },
                ],
            ),
            PdoKind::Unknown => "unknown PDO"@,
        }
    }

    pub fn describe(&self) -> (r: String)
        ensures
            r@ == self.described(),
    {
        let power = match self.power_mw() {
            Some(mw) => {
                let w: u64 = round_div(mw as u64, 1000, 0);
                let t = number(w);
                fill1(PDO_POWER, t.as_str())
            },
            None => String::new(),
        };
        let mv = fmt_mv(self.voltage_mv);
        let lo = fmt_mv(self.min_voltage_mv);
        let hi = fmt_mv(self.max_voltage_mv);
        let ma = fmt_ma(self.current_ma);
        match self.kind {
            PdoKind::FixedSupply => fill3(PDO_FIXED, mv.as_str(), ma.as_str(), power.as_str()),
            PdoKind::Battery => fill3(PDO_BATTERY, lo.as_str(), hi.as_str(), power.as_str()),
            PdoKind::VariableSupply => fill4(
                PDO_VARIABLE,
                lo.as_str(),
                hi.as_str(),
                ma.as_str(),
                power.as_str(),
            ),
            PdoKind::ProgrammableSupply => {
                if self.is_power_limited() {
                    fill4(PDO_PPS, lo.as_str(), hi.as_str(), ma.as_str(), " (power-limited)")
                } else {
                    fill4(PDO_PPS, lo.as_str(), hi.as_str(), ma.as_str(), power.as_str())
                }
            },
            PdoKind::Unknown => owned("unknown PDO"),
        }
    }
}

#[derive(Debug, Clone, Copy, PartialEq, Eq, Hash, Structural)]
pub enum PdoKind {
    FixedSupply,
    Battery,
    VariableSupply,
    ProgrammableSupply,
    Unknown,
}

impl PdoKind {
    pub fn from_sysfs(s: &str) -> (r: Self)
        ensures
            r == (if s@ == "fixed_supply"@ {
                PdoKind::FixedSupply
            } else if s@ == "battery"@ {
                PdoKind::Battery
            } else if s@ == "variable_supply"@ {
                PdoKind::VariableSupply
            } else if s@ == "programmable_supply"@ {
                PdoKind::ProgrammableSupply
            } else {
                PdoKind::Unknown
            }),
    {
        if same(s, "fixed_supply") {
            PdoKind::FixedSupply
        } else if same(s, "battery") {
            PdoKind::Battery
        } else if same(s, "variable_supply") {
            PdoKind::VariableSupply
        } else if same(s, "programmable_supply") {
            PdoKind::ProgrammableSupply
        } else {
            PdoKind::Unknown
        }
    }
}

#[derive(Debug, Clone, Copy, PartialEq, Eq, Hash, Structural)]
pub enum PdoRole {
    Source,
    Sink,
}

/// The negotiated contract, from `/sys/class/power_supply/<psy>`.
///
/// `voltage_now` and `current_now` describe the selected PDO: the contract in
/// effect. The `*_min` and `*_max` fields describe a capability range across the
/// advertised PDOs and must never be treated as a cap.
#[derive(Debug, Clone, Default)]
pub struct PortPowerSupply {
    pub name: String,
    pub online: Option<bool>,
    pub voltage_now_mv: Option<u32>,
    pub current_now_ma: Option<u32>,
    pub voltage_min_mv: Option<u32>,
    pub voltage_max_mv: Option<u32>,
    pub current_max_ma: Option<u32>,
    /// `usb_type` field, e.g. `C [PD] PD_PPS`.
    pub usb_type: Option<RoleField>,
}

/// A reading that is present and not zero.
pub open spec fn nonzero(v: Option<u32>) -> Option<u32> {
    match v {
        Some(n) if n > 0 => Some(n),
        _ => None,
    }
}

fn positive(v: Option<u32>) -> (r: Option<u32>)
    ensures
        r == nonzero(v),
{
    match v {
        Some(n) => if n > 0 {
            Some(n)
        } else {
            None
        },
        None => None,
    }
}

impl PortPowerSupply {
    pub open spec fn contract_mw(self) -> Option<u32> {
        match (nonzero(self.voltage_now_mv), nonzero(self.current_now_ma)) {
            (Some(v), Some(i)) => Some(product_mw(v, i)),
            _ => None,
        }
    }

    /// Power the negotiated contract permits, in mW.
    pub fn contract_power_mw(&self) -> (r: Option<u32>)
        ensures
            r == self.contract_mw(),
    {
        match (self.contract_voltage_mv(), self.contract_current_ma()) {
            (Some(v), Some(i)) => Some(power_product(v, i)),
            _ => None,
        }
    }

    pub fn contract_voltage_mv(&self) -> (r: Option<u32>)
        ensures
            r == nonzero(self.voltage_now_mv),
    {
        positive(self.voltage_now_mv)
    }

    pub fn contract_current_ma(&self) -> (r: Option<u32>)
        ensures
            r == nonzero(self.current_now_ma),
    {
        positive(self.current_now_ma)
    }

    /// The advertised voltage range, when the endpoints are self-consistent.
    pub fn voltage_range_mv(&self) -> (r: Option<(u32, u32)>)
        ensures
            r == (match (self.voltage_min_mv, self.voltage_max_mv) {
                (Some(lo), Some(hi)) => if lo > 0 && hi >= lo {
                    Some((lo, hi))
                } else {
                    None
                },
                _ => None,
            }),
    {
        match (self.voltage_min_mv, self.voltage_max_mv) {
            (Some(lo), Some(hi)) => if lo > 0 && hi >= lo {
                Some((lo, hi))
            } else {
                None
            },
            _ => None,
        }
    }

    /// Whether this node describes power actually arriving.
    pub fn is_drawing_power(&self) -> (r: bool)
        ensures
            r == (self.online == Some(true) && nonzero(self.voltage_now_mv) is Some),
    {
        match self.online {
            Some(true) => positive(self.voltage_now_mv).is_some(),
            _ => false,
        }
    }

    pub open spec fn above_3a(self) -> bool {
        nonzero(self.current_now_ma) matches Some(i) && i > 3000
    }

    /// The contract exceeds 3 A, which is permitted only over a 5 A cable.
    pub fn contract_requires_5a_cable(&self) -> (r: bool)
        ensures
            r == self.above_3a(),
    {
        match self.contract_current_ma() {
            Some(i) => i > 3000,
            None => false,
        }
    }
}

// ---------------------------------------------------------------------------
// storage
// ---------------------------------------------------------------------------

/// A block device and its I/O counters.
#[derive(Debug, Clone, Default)]
pub struct BlockDevice {
    pub name: String,
    /// Canonical sysfs path. A block device under a USB device's path is
    /// attached through it.
    pub sysfs_path: String,
    pub model: Option<String>,
    pub vendor: Option<String>,
    pub size_bytes: Option<u64>,
    /// `true` for spinning media.
    pub rotational: Option<bool>,
    pub removable: Option<bool>,
    pub stats: Option<BlockStats>,
    /// Live rate, present only when the caller sampled over a time window.
    pub throughput: Option<Throughput>,
    /// SCSI command counters since the disk was attached.
    pub scsi: Option<ScsiCounters>,
    /// What those counters did over a sampled window.
    pub scsi_delta: Option<ScsiDelta>,
}

/// Whether any component of a path begins with `word`.
pub open spec fn some_component_begins(path: Seq<char>, word: Seq<char>) -> bool {
    exists|i: int|
        0 <= i < crate::path::components(path).len() && begins_with(
            #[trigger] crate::path::components(path)[i],
            word,
        )
}

impl BlockDevice {
    pub open spec fn called(self) -> Seq<char> {
        match self.model {
            Some(m) => match self.vendor {
                Some(v) => if trimmed(v@).len() > 0 {
                    filled(TWO_WORDS@, seq![trimmed(v@), trimmed(m@)])
                } else {
                    trimmed(m@)
                },
                None => trimmed(m@),
            },
            None => self.name@,
        }
    }

    pub fn label(&self) -> (r: String)
        ensures
            r@ == self.called(),
    {
        match &self.model {
            Some(m) => {
                let m2 = trim(m.as_str());
                match &self.vendor {
                    Some(v) => {
                        let v2 = trim(v.as_str());
                        if !v2.as_str().is_empty() {
                            fill2(TWO_WORDS, v2.as_str(), m2.as_str())
                        } else {
                            m2
                        }
                    },
                    None => m2,
                }
            },
            None => self.name.clone(),
        }
    }

    pub open spec fn over_usb(self) -> bool {
        some_component_begins(self.sysfs_path@, "usb"@)
    }

    /// Reached through a USB controller, per its canonical sysfs path.
    pub fn is_usb_attached(&self) -> (r: bool)
        ensures
            r == self.over_usb(),
    {
        let parts = crate::path::components_of(self.sysfs_path.as_str());
        let mut i: usize = 0;
        while i < parts.len()
            invariant
                i <= parts.len(),
                texts(parts@) == crate::path::components(self.sysfs_path@),
                forall|k: int|
                    0 <= k < i ==> !begins_with(
                        #[trigger] crate::path::components(self.sysfs_path@)[k],
                        "usb"@,
                    ),
            decreases parts.len() - i,
        {
            assert(texts(parts@)[i as int] == parts[i as int]@);
            if starts_with(parts[i].as_str(), "usb") {
                return true;
            }
            i += 1;
        }
        false
    }

    /// What the drive is made of, as far as can honestly be told.
    ///
    /// Over USB a set `rotational` flag means only that nobody said: bridges
    /// rarely report it and the kernel then defaults it to 1.
    pub open spec fn made_of(self) -> Medium {
        match self.rotational {
            Some(true) => if self.over_usb() {
                Medium::Unknown
            } else {
                Medium::Rotating
            },
            Some(false) => Medium::SolidState,
            None => Medium::Unknown,
        }
    }

    pub fn medium(&self) -> (r: Medium)
        ensures
            r == self.made_of(),
    {
        match self.rotational {
            Some(true) => if self.is_usb_attached() {
                Medium::Unknown
            } else {
                Medium::Rotating
            },
            Some(false) => Medium::SolidState,
            None => Medium::Unknown,
        }
    }

    /// Practical sustained ceiling for this medium, when the medium is known.
    pub fn media_ceiling_bps(&self) -> (r: Option<Decimal>)
        ensures
            r == self.made_of().ceiling(),
    {
        let m = self.medium();
        m.practical_ceiling_bps()
    }
}

/// SCSI command counters, cumulative since the disk was attached.
#[derive(Debug, Clone, Copy, Default, PartialEq, Eq)]
pub struct ScsiCounters {
    pub iorequest_cnt: u64,
    pub iodone_cnt: u64,
    pub ioerr_cnt: u64,
    pub iotmo_cnt: u64,
    pub sampled_at_unix_ms: u64,
}

/// What the SCSI counters did between two samples.
#[derive(Debug, Clone, Copy, Default, PartialEq, Eq)]
pub struct ScsiDelta {
    pub requests: u64,
    pub errors: u64,
    pub timeouts: u64,
    pub window_ms: u64,
}

impl ScsiCounters {
    /// Counters only climb, so any that went back means the disk changed.
    pub open spec fn since(self, before: ScsiCounters) -> Option<ScsiDelta> {
        if self.iorequest_cnt >= before.iorequest_cnt && self.ioerr_cnt >= before.ioerr_cnt
            && self.iotmo_cnt >= before.iotmo_cnt && self.sampled_at_unix_ms
            >= before.sampled_at_unix_ms {
            Some(
                ScsiDelta {
                    requests: (self.iorequest_cnt - before.iorequest_cnt) as u64,
                    errors: (self.ioerr_cnt - before.ioerr_cnt) as u64,
                    timeouts: (self.iotmo_cnt - before.iotmo_cnt) as u64,
                    window_ms: (self.sampled_at_unix_ms - before.sampled_at_unix_ms) as u64,
                },
            )
        } else {
            None
        }
    }

    pub fn delta(&self, before: &ScsiCounters) -> (r: Option<ScsiDelta>)
        ensures
            r == self.since(*before),
    {
        if self.iorequest_cnt >= before.iorequest_cnt && self.ioerr_cnt >= before.ioerr_cnt
            && self.iotmo_cnt >= before.iotmo_cnt && self.sampled_at_unix_ms
            >= before.sampled_at_unix_ms {
            Some(
                ScsiDelta {
                    requests: self.iorequest_cnt - before.iorequest_cnt,
                    errors: self.ioerr_cnt - before.ioerr_cnt,
                    timeouts: self.iotmo_cnt - before.iotmo_cnt,
                    window_ms: self.sampled_at_unix_ms - before.sampled_at_unix_ms,
                },
            )
        } else {
            None
        }
    }
}

impl ScsiDelta {
    pub open spec fn clean(self) -> bool {
        self.errors == 0 && self.timeouts == 0
    }

    pub fn is_clean(&self) -> (r: bool)
        ensures
            r == self.clean(),
    {
        self.errors == 0 && self.timeouts == 0
    }

    /// Errors as a part of requests; an idle window has no rate.
    pub open spec fn rate(self) -> Option<Ratio> {
        if self.requests > 0 {
            Some(Ratio { num: self.errors, den: self.requests })
        } else {
            None
        }
    }

    pub fn error_rate(&self) -> (r: Option<Ratio>)
        ensures
            r == self.rate(),
    {
        if self.requests > 0 {
            Some(Ratio { num: self.errors, den: self.requests })
        } else {
            None
        }
    }
}

/// One measured read of a block device.
#[derive(Debug, Clone, Default)]
pub struct ThroughputSample {
    pub device: String,
    pub bytes_read: u64,
    pub elapsed_ms: u64,
    /// `None` when nothing could be read at all.
    pub bytes_per_second: Option<Decimal>,
    /// Bytes the device served to something else during the window.
    pub contended_bytes: Option<u64>,
    /// Set when the read stopped early.
    pub error: Option<String>,
}

impl ThroughputSample {
    /// More than a few megabytes went to something else meanwhile.
    pub open spec fn contended(self) -> bool {
        self.contended_bytes matches Some(b) && b > 4_000_000
    }

    pub fn was_contended(&self) -> (r: bool)
        ensures
            r == self.contended(),
    {
        match self.contended_bytes {
            Some(b) => b > 4_000_000,
            None => false,
        }
    }
}

/// The result of cycling a hub port repeatedly.
#[derive(Debug, Clone, Default)]
pub struct ReenumerationRun {
    pub device: String,
    /// Short port name, e.g. `usb4-port1`.
    pub port: String,
    pub port_path: String,
    pub requested_cycles: usize,
    pub cycles: Vec<ReenumerationCycle>,
    /// Set when the run could not start at all.
    pub error: Option<String>,
}

#[derive(Debug, Clone, Default)]
pub struct ReenumerationCycle {
    pub index: usize,
    pub returned: bool,
    pub returned_after_ms: u64,
    pub speed_mbps: Option<Decimal>,
    pub rx_lanes: Option<u32>,
    pub tx_lanes: Option<u32>,
    pub error: Option<String>,
}

#[derive(Debug, Clone, Copy, PartialEq, Eq, Structural)]
pub enum Medium {
    Rotating,
    SolidState,
    /// Not determinable: the usual case for anything behind a USB bridge.
    Unknown,
}

impl Medium {
    /// About 120 MB/s, a generous figure for a 2.5" 5400 rpm drive. Solid state
    /// is limited by the bus rather than by physics.
    pub open spec fn ceiling(self) -> Option<Decimal> {
        if self == Medium::Rotating {
            Some(Decimal::of(120_000_000))
        } else {
            None
        }
    }

    pub fn practical_ceiling_bps(&self) -> (r: Option<Decimal>)
        ensures
            r == self.ceiling(),
    {
        match self {
            Medium::Rotating => Some(Decimal::whole(120_000_000)),
            _ => None,
        }
    }

    pub open spec fn name(self) -> Seq<char> {
        match self {
            Medium::Rotating => "spinning disk"@,
            Medium::SolidState => "solid state"@,
            Medium::Unknown => "medium not reported"@,
        }
    }

    pub fn label(&self) -> (r: &'static str)
        ensures
            r@ == self.name(),
    {
        match self {
            Medium::Rotating => "spinning disk",
            Medium::SolidState => "solid state",
            Medium::Unknown => "medium not reported",
        }
    }
}

/// Cumulative I/O counters from `/sys/block/*/stat`.
#[derive(Debug, Clone, Copy, PartialEq, Eq)]
pub struct BlockStats {
    pub read_ios: u64,
    pub sectors_read: u64,
    pub ms_reading: u64,
    pub write_ios: u64,
    pub sectors_written: u64,
    pub ms_writing: u64,
    pub ios_in_flight: u64,
    pub sampled_at_unix_ms: u64,
}

/// A measured transfer rate over a known interval.
#[derive(Debug, Clone, Copy, PartialEq, Eq)]
pub struct Throughput {
    pub read_bps: Decimal,
    pub write_bps: Decimal,
    pub interval_ms: u64,
}

impl Throughput {
    /// Both directions together, or the largest decimal where it is beyond that.
    pub open spec fn total(self) -> Decimal {
        if self.read_bps.micros + self.write_bps.micros <= u64::MAX {
            Decimal { micros: (self.read_bps.micros + self.write_bps.micros) as u64 }
        } else {
            Decimal { micros: u64::MAX }
        }
    }

    pub fn total_bps(&self) -> (r: Decimal)
        ensures
            r == self.total(),
    {
        Decimal { micros: self.read_bps.micros.saturating_add(self.write_bps.micros) }
    }

    pub fn is_idle(&self) -> (r: bool)
        ensures
            r == (self.total().micros < 1_024_000_000),
    {
        self.total_bps().micros < 1_024_000_000
    }
}

// ---------------------------------------------------------------------------
// batteries
// ---------------------------------------------------------------------------

/// A battery: what is happening, where the PD contract says what is permitted.
#[derive(Debug, Clone, Default)]
pub struct Battery {
    pub name: String,
    /// `Charging` | `Discharging` | `Full` | `Not charging` | `Unknown`.
    pub status: Option<String>,
    pub capacity_pct: Option<u32>,
    pub energy_now_wh: Option<Decimal>,
    pub energy_full_wh: Option<Decimal>,
    pub energy_full_design_wh: Option<Decimal>,
    /// The direction comes from `status`.
    pub power_now_w: Option<Decimal>,
    pub voltage_now_v: Option<Decimal>,
    pub cycle_count: Option<u32>,
}

impl Battery {
    /// Capacity retained, as a part of the design capacity.
    pub open spec fn health(self) -> Option<Ratio> {
        match (self.energy_full_wh, self.energy_full_design_wh) {
            (Some(f), Some(d)) => if d.micros > 0 {
                Some(Ratio { num: f.micros, den: d.micros })
            } else {
                None
            },
            _ => None,
        }
    }

    /// Capacity retained versus design; a hundred times the ratio is the
    /// percentage.
    pub fn health_pct(&self) -> (r: Option<Ratio>)
        ensures
            r == self.health(),
    {
        match (self.energy_full_wh, self.energy_full_design_wh) {
            (Some(f), Some(d)) => if d.micros > 0 {
                Some(Ratio { num: f.micros, den: d.micros })
            } else {
                None
            },
            _ => None,
        }
    }

    pub open spec fn charging(self) -> bool {
        opt_text(self.status) == Some("Charging"@)
    }

    pub fn is_charging(&self) -> (r: bool)
        ensures
            r == self.charging(),
    {
        is_text(&self.status, "Charging")
    }

    pub open spec fn discharging(self) -> bool {
        opt_text(self.status) == Some("Discharging"@)
    }

    pub fn is_discharging(&self) -> (r: bool)
        ensures
            r == self.discharging(),
    {
        is_text(&self.status, "Discharging")
    }

    /// Energy still needed to reach full, in Wh.
    pub open spec fn deficit(self) -> Option<Decimal> {
        match (self.energy_full_wh, self.energy_now_wh) {
            (Some(f), Some(n)) => Some(f.less_by(n)),
            _ => None,
        }
    }

    pub fn deficit_wh(&self) -> (r: Option<Decimal>)
        ensures
            r == self.deficit(),
    {
        match (self.energy_full_wh, self.energy_now_wh) {
            (Some(f), Some(n)) => Some(f.minus(&n)),
            _ => None,
        }
    }

    /// Hours to full at the current rate, while it is gaining more than 0.1 W.
    pub open spec fn eta(self) -> Option<Ratio> {
        match (self.power_now_w, self.deficit()) {
            (Some(p), Some(d)) => if p.micros > 100_000 && self.charging() {
                Some(Ratio { num: d.micros, den: p.micros })
            } else {
                None
            },
            _ => None,
        }
    }

    pub fn hours_to_full(&self) -> (r: Option<Ratio>)
        ensures
            r == self.eta(),
    {
        match (self.power_now_w, self.deficit_wh()) {
            (Some(p), Some(d)) => if p.micros > 100_000 && self.is_charging() {
                Some(Ratio { num: d.micros, den: p.micros })
            } else {
                None
            },
            _ => None,
        }
    }

    /// Mains power is present and the battery is still not gaining.
    ///
    /// `status` alone is not trusted: a pack can read `Charging` with no flow.
    pub open spec fn losing(self, mains_online: bool) -> bool {
        mains_online && (self.discharging() || (self.charging() && self.power_now_w == Some(
            Decimal { micros: 0 },
        )))
    }

    pub fn not_keeping_up(&self, mains_online: bool) -> (r: bool)
        ensures
            r == self.losing(mains_online),
    {
        if !mains_online {
            return false;
        }
        if self.is_discharging() {
            return true;
        }
        if !self.is_charging() {
            return false;
        }
        match self.power_now_w {
            Some(p) => p.micros == 0,
            None => false,
        }
    }
}

// ---------------------------------------------------------------------------
// Thunderbolt / USB4
// ---------------------------------------------------------------------------

/// USB4 and Thunderbolt state from `/sys/bus/thunderbolt`.
#[derive(Debug, Clone, Default)]
pub struct ThunderboltTopology {
    pub domains: Vec<ThunderboltDomain>,
    pub routers: Vec<ThunderboltRouter>,
    /// Retimers are the signal-conditioning silicon inside an active cable.
    pub retimers: Vec<Retimer>,
}

/// The routers of attached devices, in order.
pub open spec fn attached_routers(s: Seq<ThunderboltRouter>) -> Seq<ThunderboltRouter>
    decreases s.len(),
{
    if s.len() == 0 {
        Seq::empty()
    } else if s.last().is_host {
        attached_routers(s.drop_last())
    } else {
        attached_routers(s.drop_last()).push(s.last())
    }
}

impl ThunderboltTopology {
    pub fn is_empty(&self) -> (r: bool)
        ensures
            r == (self.domains@.len() == 0 && self.routers@.len() == 0 && self.retimers@.len() == 0),
    {
        self.domains.is_empty() && self.routers.is_empty() && self.retimers.is_empty()
    }

    pub open spec fn active_cable(self) -> bool {
        self.retimers@.len() > 0
    }

    /// An active cable is attached: retimers only exist inside one.
    pub fn has_active_cable(&self) -> (r: bool)
        ensures
            r == self.active_cable(),
    {
        !self.retimers.is_empty()
    }

    /// Routers other than the host, i.e. attached devices.
    pub fn attached(&self) -> (r: Vec<&ThunderboltRouter>)
        ensures
            pointees(r@) == attached_routers(self.routers@),
    {
        let mut out: Vec<&ThunderboltRouter> = Vec::new();
        let mut i: usize = 0;
        assert(pointees(out@) =~= Seq::<ThunderboltRouter>::empty());
        while i < self.routers.len()
            invariant
                i <= self.routers.len(),
                pointees(out@) == attached_routers(self.routers@.take(i as int)),
            decreases self.routers.len() - i,
        {
            assert(self.routers@.take(i + 1).drop_last() == self.routers@.take(i as int));
            if !self.routers[i].is_host {
                let ghost before = out@;
                out.push(&self.routers[i]);
                assert(pointees(out@) =~= pointees(before).push(self.routers@[i as int]));
            }
            i += 1;
        }
        assert(self.routers@.take(i as int) == self.routers@);
        out
    }
}

#[derive(Debug, Clone, Default)]
pub struct ThunderboltDomain {
    pub name: String,
    /// The authorization policy for attached devices.
    pub security: Option<String>,
    pub iommu_dma_protection: Option<bool>,
    pub deauthorization: Option<bool>,
}

#[derive(Debug, Clone, Default)]
pub struct ThunderboltRouter {
    /// e.g. `0-0` for a host router, `0-1` for the first attached device.
    pub name: String,
    pub is_host: bool,
    pub generation: Option<u32>,
    pub usb4_version: Option<String>,
    pub vendor_name: Option<String>,
    pub device_name: Option<String>,
    pub unique_id: Option<String>,
    pub authorized: Option<bool>,
    pub rx_speed: Option<String>,
    pub tx_speed: Option<String>,
    pub rx_lanes: Option<u32>,
    pub tx_lanes: Option<u32>,
    pub nvm_version: Option<String>,
    pub usb4_ports: Vec<String>,
}

impl ThunderboltRouter {
    pub open spec fn called(self) -> Seq<char> {
        match (self.vendor_name, self.device_name) {
            (Some(v), Some(d)) => filled(TWO_WORDS@, seq![v@, d@]),
            (None, Some(d)) => d@,
            (Some(v), None) => v@,
            (None, None) => if self.is_host {
                "host router"@
            } else {
                self.name@
            },
        }
    }

    pub fn label(&self) -> (r: String)
        ensures
            r@ == self.called(),
    {
        match (&self.vendor_name, &self.device_name) {
            (Some(v), Some(d)) => fill2(TWO_WORDS, v.as_str(), d.as_str()),
            (None, Some(d)) => d.clone(),
            (Some(v), None) => v.clone(),
            (None, None) => if self.is_host {
                owned("host router")
            } else {
                self.name.clone()
            },
        }
    }
}

/// Active-cable silicon. Its NVM version is the cable's own firmware version.
#[derive(Debug, Clone, Default)]
pub struct Retimer {
    /// `<domain>-<route>:<port>.<index>`, e.g. `0-0:1.1`.
    pub name: String,
    pub vendor: Option<u16>,
    pub device: Option<u16>,
    pub nvm_version: Option<String>,
    pub nvm_authenticate: Option<String>,
}

// ---------------------------------------------------------------------------
// URB traffic
// ---------------------------------------------------------------------------

/// What a URB completion status means.
#[derive(Debug, Clone, Copy, PartialEq, Eq, Hash, Structural)]
pub enum UrbStatusClass {
    Success,
    /// The link failed to carry the packet: CRC, babble, timeout, no response.
    Transport,
    /// The device answered "no": a stall.
    Protocol,
    /// The driver unlinked the URB. Routine.
    Cancelled,
    Other,
}

/// URB traffic observed over a window.
#[derive(Debug, Clone, Default)]
pub struct UrbTraffic {
    pub window_ms: u64,
    pub devices: Vec<UrbStats>,
    pub lines_read: u64,
    /// Lines the parser did not recognise.
    pub unparsed: usize,
    pub source: Option<String>,
}

/// The sum of the completions.
pub open spec fn completions_in(s: Seq<UrbStats>) -> nat
    decreases s.len(),
{
    if s.len() == 0 {
        0
    } else {
        completions_in(s.drop_last()) + s.last().completions as nat
    }
}

proof fn lemma_completions_grow(s: Seq<UrbStats>, i: int)
    requires
        0 <= i <= s.len(),
    ensures
        completions_in(s.take(i)) <= completions_in(s),
    decreases s.len() - i,
{
    if i < s.len() {
        lemma_completions_grow(s, i + 1);
        assert(s.take(i + 1).drop_last() == s.take(i));
    } else {
        assert(s.take(i) == s);
    }
}

impl UrbTraffic {
    pub open spec fn is_at(d: UrbStats, bus: u32, address: u32) -> bool {
        d.bus == bus && d.device_address == address
    }

    /// The first entry for a bus address.
    pub fn for_address(&self, bus: u32, device_address: u32) -> (r: Option<&UrbStats>)
        ensures
            match r {
                Some(d) => exists|i: int|
                    0 <= i < self.devices.len() && *d == #[trigger] self.devices[i]
                        && UrbTraffic::is_at(self.devices[i], bus, device_address) && (forall|j: int|
                        0 <= j < i ==> !UrbTraffic::is_at(
                            #[trigger] self.devices[j],
                            bus,
                            device_address,
                        )),
                None => forall|i: int|
                    0 <= i < self.devices.len() ==> !UrbTraffic::is_at(
                        #[trigger] self.devices[i],
                        bus,
                        device_address,
                    ),
            },
    {
        let mut i: usize = 0;
        while i < self.devices.len()
            invariant
                i <= self.devices.len(),
                forall|k: int|
                    0 <= k < i ==> !UrbTraffic::is_at(
                        #[trigger] self.devices[k],
                        bus,
                        device_address,
                    ),
            decreases self.devices.len() - i,
        {
            if self.devices[i].bus == bus && self.devices[i].device_address == device_address {
                return Some(&self.devices[i]);
            }
            i += 1;
        }
        None
    }

    /// All completions together.
    pub fn total_completions(&self) -> (r: u64)
        requires
            completions_in(self.devices@) <= u64::MAX,
        ensures
            r == completions_in(self.devices@),
    {
        let mut sum: u64 = 0;
        let mut i: usize = 0;
        while i < self.devices.len()
            invariant
                i <= self.devices.len(),
                sum == completions_in(self.devices@.take(i as int)),
                completions_in(self.devices@) <= u64::MAX,
            decreases self.devices.len() - i,
        {
            proof {
                assert(self.devices@.take(i + 1).drop_last() == self.devices@.take(i as int));
                lemma_completions_grow(self.devices@, i + 1);
            }
            sum = sum + self.devices[i].completions;
            i += 1;
        }
        assert(self.devices@.take(i as int) == self.devices@);
        sum
    }
}

/// Per-device URB accounting.
#[derive(Debug, Clone, Default)]
pub struct UrbStats {
    pub bus: u32,
    /// The USB address, matching `devnum` in sysfs.
    pub device_address: u32,
    pub completions: u64,
    pub bytes: u64,
    /// The class that implicates the physical link.
    pub transport_errors: u64,
    /// Endpoints on which a transport error occurred, lowest first.
    pub transport_endpoints: Endpoints,
    /// Stalls. Routine on endpoint 0.
    pub protocol_errors: u64,
    /// Stalls on a bulk or interrupt endpoint.
    pub non_control_stalls: u64,
    /// Driver-initiated unlinks.
    pub cancellations: u64,
    pub other: u64,
    /// Every status seen, with its count, lowest status first.
    pub by_status: StatusCounts,
}

/// A status and how often it came.
pub const STATUS_COUNT: &'static str = "{} x{}";

/// A status, its meaning and how often it came.
pub const STATUS_MEANING_COUNT: &'static str = "{} {} x{}";

/// One line of the breakdown.
pub open spec fn status_line(s: (i32, u64)) -> Seq<char> {
    match meaning_of(s.0) {
        Some(m) => filled(
            STATUS_MEANING_COUNT@,
            seq![dec_int(s.0 as int), m, dec(s.1 as nat)],
        ),
        None => filled(STATUS_COUNT@, seq![dec_int(s.0 as int), dec(s.1 as nat)]),
    }
}

/// Put in behind everything that came at least as often.
pub open spec fn insert_by_count(s: Seq<(i32, u64)>, x: (i32, u64)) -> Seq<(i32, u64)>
    decreases s.len(),
{
    if s.len() == 0 || s.last().1 >= x.1 {
        s.push(x)
    } else {
        insert_by_count(s.drop_last(), x).push(s.last())
    }
}

/// The statuses other than success, the most frequent first; equally frequent
/// ones keep their order.
pub open spec fn errors_by_count(s: Seq<(i32, u64)>) -> Seq<(i32, u64)>
    decreases s.len(),
{
    if s.len() == 0 {
        Seq::empty()
    } else if s.last().0 == 0 {
        errors_by_count(s.drop_last())
    } else {
        insert_by_count(errors_by_count(s.drop_last()), s.last())
    }
}

/// The breakdown runs from the most frequent status down, and where two came
/// equally often the lower one stands first.
pub proof fn the_most_frequent_status_comes_first(s: Seq<(i32, u64)>)
    requires
        by_number(s),
    ensures
        forall|i: int, j: int|
            0 <= i < j < errors_by_count(s).len() ==> (#[trigger] errors_by_count(s)[i]).1 > (
            #[trigger] errors_by_count(s)[j]).1 || (errors_by_count(s)[i].1 == errors_by_count(
                s,
            )[j].1 && errors_by_count(s)[i].0 < errors_by_count(s)[j].0),
        forall|i: int|
            0 <= i < errors_by_count(s).len() ==> s.contains(#[trigger] errors_by_count(s)[i])
                && errors_by_count(s)[i].0 != 0,
    decreases s.len(),
{
    if s.len() > 0 {
        let p = s.drop_last();
        let x = s.last();
        let t = errors_by_count(p);
        assert forall|i: int, j: int| 0 <= i < j < p.len() implies (#[trigger] p[i]).0 < (
        #[trigger] p[j]).0 by {
            assert(s[i].0 < s[j].0);
        }
        the_most_frequent_status_comes_first(p);
        assert(s.contains(x)) by {
            assert(s[s.len() - 1] == x);
        }
        assert forall|i: int| 0 <= i < t.len() implies s.contains(#[trigger] t[i]) && t[i].0
            < x.0 by {
            assert(p.contains(t[i]));
            let n = choose|n: int| 0 <= n < p.len() && p[n] == t[i];
            assert(s[n] == t[i]);
            assert(s[n].0 < s[s.len() - 1].0);
        }
        if x.0 != 0 {
            let k = lemma_count_place(t, x);
            lemma_insert_by_count(t, x, k);
        }
    }
}

proof fn lemma_count_place(s: Seq<(i32, u64)>, x: (i32, u64)) -> (k: int)
    requires
        forall|i: int, j: int| 0 <= i < j < s.len() ==> (#[trigger] s[i]).1 >= (#[trigger] s[j]).1,
    ensures
        0 <= k <= s.len(),
        forall|i: int| k <= i < s.len() ==> (#[trigger] s[i]).1 < x.1,
        forall|i: int| 0 <= i < k ==> (#[trigger] s[i]).1 >= x.1,
    decreases s.len(),
{
    if s.len() == 0 || s.last().1 >= x.1 {
        s.len() as int
    } else {
        let p = s.drop_last();
        assert forall|i: int, j: int| 0 <= i < j < p.len() implies (#[trigger] p[i]).1 >= (
        #[trigger] p[j]).1 by {
            assert(s[i].1 >= s[j].1);
        }
        let k = lemma_count_place(p, x);
        assert forall|i: int| k <= i < s.len() implies (#[trigger] s[i]).1 < x.1 by {
            if i < p.len() {
                assert(p[i].1 < x.1);
            }
        }
        assert forall|i: int| 0 <= i < k implies (#[trigger] s[i]).1 >= x.1 by {
            assert(p[i].1 >= x.1);
        }
        k
    }
}

proof fn lemma_insert_by_count(s: Seq<(i32, u64)>, x: (i32, u64), k: int)
    requires
        0 <= k <= s.len(),
        forall|i: int| k <= i < s.len() ==> (#[trigger] s[i]).1 < x.1,
        k > 0 ==> s[k - 1].1 >= x.1,
    ensures
        insert_by_count(s, x) == s.insert(k, x),
    decreases s.len(),
{
    if s.len() == 0 || s.last().1 >= x.1 {
        if s.len() > 0 && k < s.len() {
            assert(s[s.len() - 1].1 < x.1);
        }
        assert(s.insert(k, x) =~= s.push(x));
    } else {
        assert(k < s.len()) by {
            if k == s.len() {
                assert(s[k - 1].1 >= x.1);
            }
        }
        assert forall|i: int| k <= i < s.drop_last().len() implies (#[trigger] s.drop_last()[i]).1
            < x.1 by {
            assert(s[i].1 < x.1);
        }
        lemma_insert_by_count(s.drop_last(), x, k);
        assert(s.insert(k, x) =~= s.drop_last().insert(k, x).push(s.last()));
    }
}

impl UrbStats {
    /// Transport errors as a part of completions; an idle device has no rate.
    pub open spec fn error_part(self) -> Option<Ratio> {
        if self.completions > 0 {
            Some(Ratio { num: self.transport_errors, den: self.completions })
        } else {
            None
        }
    }

    pub fn transport_error_rate(&self) -> (r: Option<Ratio>)
        ensures
            r == self.error_part(),
    {
        if self.completions > 0 {
            Some(Ratio { num: self.transport_errors, den: self.completions })
        } else {
            None
        }
    }

    /// Bytes per second over a window.
    pub fn throughput_bps(&self, window_ms: u64) -> (r: Option<Decimal>)
        ensures
            match r {
                Some(v) => window_ms > 0 && v.micros as nat == scaled(
                    self.bytes as nat,
                    window_ms as nat,
                    1_000_000_000,
                ),
                None => window_ms == 0,
            },
    {
        if window_ms > 0 {
            let micros: u64 = crate::number::scale_to_nearest(
                self.bytes,
                window_ms,
                1_000_000_000,
            );
            Some(Decimal { micros })
        } else {
            None
        }
    }

    /// The statuses that matter, worst first, as `errno x count` text.
    pub open spec fn breakdown(self) -> Seq<Seq<char>> {
        let s = errors_by_count(self.by_status@);
        Seq::new(s.len(), |i: int| status_line(s[i]))
    }

    pub fn error_breakdown(&self) -> (r: Vec<String>)
        ensures
            texts(r@) == self.breakdown(),
    {
        let all = self.by_status.entries();
        let mut sorted: Vec<(i32, u64)> = Vec::new();
        let mut i: usize = 0;
        while i < all.len()
            invariant
                i <= all.len(),
                sorted@ == errors_by_count(all@.take(i as int)),
            decreases all.len() - i,
        {
            assert(all@.take(i + 1).drop_last() == all@.take(i as int));
            let x: (i32, u64) = all[i];
            if x.0 != 0 {
                let mut k: usize = sorted.len();
                while k > 0 && sorted[k - 1].1 < x.1
                    invariant
                        k <= sorted.len(),
                        forall|j: int| k <= j < sorted.len() ==> (#[trigger] sorted[j]).1 < x.1,
                    decreases k,
                {
                    k -= 1;
                }
                proof {
                    lemma_insert_by_count(sorted@, x, k as int);
                }
                sorted.insert(k, x);
            }
            i += 1;
        }
        assert(all@.take(i as int) == all@);
        let mut out = no_texts();
        let mut j: usize = 0;
        while j < sorted.len()
            invariant
                j <= sorted.len(),
                sorted@ == errors_by_count(self.by_status@),
                texts(out@) == self.breakdown().take(j as int),
            decreases sorted.len() - j,
        {
            let s = integer(sorted[j].0 as i64);
            let c = number(sorted[j].1);
            let line = match errno_meaning(sorted[j].0) {
                Some(m) => fill3(STATUS_MEANING_COUNT, s.as_str(), m, c.as_str()),
                None => fill2(STATUS_COUNT, s.as_str(), c.as_str()),
            };
            push_text(&mut out, line);
            j += 1;
            assert(self.breakdown().take(j as int) =~= self.breakdown().take(j - 1).push(
                status_line(sorted@[j - 1]),
            ));
        }
        assert(self.breakdown().take(j as int) =~= self.breakdown());
        out
    }
}

// ---------------------------------------------------------------------------
// displays
// ---------------------------------------------------------------------------

/// A display output, from `/sys/class/drm`.
#[derive(Debug, Clone, Default)]
pub struct DisplayConnector {
    /// Full sysfs name, e.g. `card1-HDMI-A-1`.
    pub name: String,
    /// Just the socket, e.g. `HDMI-A-1`, `DP-3`, `eDP-1`.
    pub connector: String,
    pub connector_id: Option<u32>,
    /// `connected` | `disconnected` | `unknown`.
    pub status: Option<String>,
    /// Whether the kernel has this output in its active configuration.
    pub enabled: Option<bool>,
    /// `On` | `Off` | `Standby` | `Suspend`.
    pub dpms: Option<String>,
    /// Modes the kernel is willing to drive, preferred first.
    pub modes: Vec<String>,
    /// Decoded EDID, when the display provided a valid one.
    pub display: Option<DisplayIdentity>,
}

impl DisplayConnector {
    pub open spec fn connected(self) -> bool {
        opt_text(self.status) == Some("connected"@)
    }

    pub fn is_connected(&self) -> (r: bool)
        ensures
            r == self.connected(),
    {
        is_text(&self.status, "connected")
    }

    /// Connected and being driven. A sleeping monitor still reads `connected`.
    pub open spec fn lit(self) -> bool {
        self.connected() && self.enabled == Some(true) && opt_text(self.dpms) != Some("Off"@)
    }

    pub fn is_lit(&self) -> (r: bool)
        ensures
            r == self.lit(),
    {
        if !self.is_connected() {
            return false;
        }
        match self.enabled {
            Some(true) => !is_text(&self.dpms, "Off"),
            _ => false,
        }
    }

    pub open spec fn internal(self) -> bool {
        begins_with(self.connector@, "eDP"@) || begins_with(self.connector@, "LVDS"@)
    }

    /// True for the built-in panel.
    pub fn is_internal(&self) -> (r: bool)
        ensures
            r == self.internal(),
    {
        starts_with(self.connector.as_str(), "eDP") || starts_with(self.connector.as_str(), "LVDS")
    }

    pub open spec fn displayport(self) -> bool {
        begins_with(self.connector@, "DP"@) || begins_with(self.connector@, "DisplayPort"@)
    }

    /// True for a DisplayPort output, including those a USB-C port drives.
    pub fn is_displayport(&self) -> (r: bool)
        ensures
            r == self.displayport(),
    {
        starts_with(self.connector.as_str(), "DP") || starts_with(
            self.connector.as_str(),
            "DisplayPort",
        )
    }

    /// The monitor's own name where it gave one, otherwise the socket.
    pub open spec fn called(self) -> Seq<char> {
        match self.display {
            Some(d) => match d.called() {
                Some(n) => n,
                None => self.connector@,
            },
            None => self.connector@,
        }
    }

    pub fn label(&self) -> (r: String)
        ensures
            r@ == self.called(),
    {
        if let Some(d) = &self.display {
            if let Some(n) = d.label() {
                return n;
            }
        }
        self.connector.clone()
    }
}

/// What a display says about itself in its EDID.
#[derive(Debug, Clone, Default)]
pub struct DisplayIdentity {
    /// Three-letter PNP code, e.g. `GSM`.
    pub manufacturer: Option<String>,
    /// The name behind the code, for the common ones.
    pub manufacturer_name: Option<String>,
    pub product_code: Option<u16>,
    pub serial: Option<u32>,
    pub year: Option<u32>,
    pub edid_version: Option<String>,
    /// The monitor's own product name.
    pub name: Option<String>,
    /// Serial as text.
    pub serial_text: Option<String>,
    /// The first detailed timing, which the standard defines as preferred.
    pub preferred_mode: Option<DisplayMode>,
}

impl DisplayIdentity {
    /// Best available human name: the product name, else the vendor, else the
    /// raw PNP code.
    pub open spec fn called(self) -> Option<Seq<char>> {
        if self.name is Some {
            opt_text(self.name)
        } else if self.manufacturer_name is Some {
            opt_text(self.manufacturer_name)
        } else {
            opt_text(self.manufacturer)
        }
    }

    pub fn label(&self) -> (r: Option<String>)
        ensures
            opt_text(r) == self.called(),
    {
        if self.name.is_some() {
            copy_opt(&self.name)
        } else if self.manufacturer_name.is_some() {
            copy_opt(&self.manufacturer_name)
        } else {
            copy_opt(&self.manufacturer)
        }
    }
}

#[derive(Debug, Clone, Copy, PartialEq, Eq)]
pub struct DisplayMode {
    pub width: u32,
    pub height: u32,
    /// Pixels per second over pixels per frame.
    pub refresh_hz: Ratio,
    pub pixel_clock_khz: u32,
}

/// A mode on one line.
pub const MODE_LINE: &'static str = "{}x{} @ {} Hz";

impl DisplayMode {
    pub fn describe(&self) -> (r: String)
        requires
            self.refresh_hz.den > 0,
        ensures
            r@ == filled(
                MODE_LINE@,
                seq![
                    dec(self.width as nat),
                    dec(self.height as nat),
                    dec(scaled(self.refresh_hz.num as nat, self.refresh_hz.den as nat, 1)),
                ],
            ),
    {
        let w = number(self.width as u64);
        let h = number(self.height as u64);
        let hz = number(
            crate::number::scale_to_nearest(self.refresh_hz.num, self.refresh_hz.den, 1),
        );
        fill3(MODE_LINE, w.as_str(), h.as_str(), hz.as_str())
    }
}

// ---------------------------------------------------------------------------
// kernel log
// ---------------------------------------------------------------------------

#[derive(Debug, Clone, Default)]
pub struct KernelLog {
    pub source: KernelLogSource,
    /// Why the log could not be read, when it couldn't.
    pub note: Option<String>,
    pub events: Vec<KernelEvent>,
}

/// How many events are of a kind.
pub open spec fn kind_count(s: Seq<KernelEvent>, kind: EventKind) -> nat
    decreases s.len(),
{
    if s.len() == 0 {
        0
    } else if s.last().kind == kind {
        kind_count(s.drop_last(), kind) + 1
    } else {
        kind_count(s.drop_last(), kind)
    }
}

/// The events about one device path, in order.
pub open spec fn about_device(s: Seq<KernelEvent>, dev: Seq<char>) -> Seq<KernelEvent>
    decreases s.len(),
{
    if s.len() == 0 {
        Seq::empty()
    } else if opt_text(s.last().device) == Some(dev) {
        about_device(s.drop_last(), dev).push(s.last())
    } else {
        about_device(s.drop_last(), dev)
    }
}

impl KernelLog {
    pub fn unavailable(note: String) -> (r: Self)
        ensures
            r.source == KernelLogSource::Unavailable,
            r.note == Some(note),
            r.events@.len() == 0,
    {
        KernelLog { source: KernelLogSource::Unavailable, note: Some(note), events: Vec::new() }
    }

    /// Events attributable to one USB device path, e.g. `3-4`.
    pub fn for_device(&self, dev: &str) -> (r: Vec<&KernelEvent>)
        ensures
            pointees(r@) == about_device(self.events@, dev@),
    {
        let mut out: Vec<&KernelEvent> = Vec::new();
        let mut i: usize = 0;
        assert(pointees(out@) =~= Seq::<KernelEvent>::empty());
        while i < self.events.len()
            invariant
                i <= self.events.len(),
                pointees(out@) == about_device(self.events@.take(i as int), dev@),
            decreases self.events.len() - i,
        {
            assert(self.events@.take(i + 1).drop_last() == self.events@.take(i as int));
            if is_text(&self.events[i].device, dev) {
                let ghost before = out@;
                out.push(&self.events[i]);
                assert(pointees(out@) =~= pointees(before).push(self.events@[i as int]));
            }
            i += 1;
        }
        assert(self.events@.take(i as int) == self.events@);
        out
    }

    pub fn count_kind(&self, kind: EventKind) -> (r: usize)
        ensures
            r == kind_count(self.events@, kind),
    {
        let mut n: usize = 0;
        let mut i: usize = 0;
        while i < self.events.len()
            invariant
                i <= self.events.len(),
                n <= i,
                n == kind_count(self.events@.take(i as int), kind),
            decreases self.events.len() - i,
        {
            assert(self.events@.take(i + 1).drop_last() == self.events@.take(i as int));
            if self.events[i].kind == kind {
                n += 1;
            }
            i += 1;
        }
        assert(self.events@.take(i as int) == self.events@);
        n
    }
}

#[derive(Debug, Clone, Copy, PartialEq, Eq, Hash, Structural)]
pub enum KernelLogSource {
    DevKmsg,
    Journalctl,
    Dmesg,
    /// Also the default: no log read means no log source.
    Unavailable,
}

impl Default for KernelLogSource {
    fn default() -> (r: Self)
        ensures
            r == KernelLogSource::Unavailable,
    {
        KernelLogSource::Unavailable
    }
}

#[derive(Debug, Clone)]
pub struct KernelEvent {
    pub kind: EventKind,
    pub severity: Severity,
    /// Device the line is about, normalized to a USB path like `3-4`.
    pub device: Option<String>,
    /// Hub port the line names, e.g. `usb6-port1`.
    pub port: Option<String>,
    pub timestamp: Option<String>,
    /// Seconds since boot.
    pub monotonic_s: Option<Double>,
    pub text: String,
    /// Negative errno parsed out of the message.
    pub errno: Option<i32>,
}

/// The root hub a bus number names.
pub const ROOT_HUB: &'static str = "usb{}";

/// Bus owning a USB device path: `6-1` -> `usb6`, `usb6` -> `usb6`.
pub open spec fn owning_bus(device: Seq<char>) -> Option<Seq<char>> {
    match crate::text::after_prefix(device, "usb"@) {
        Some(rest) => if all_digits(rest) {
            Some(device)
        } else {
            None
        },
        None => {
            let num = match cut_first(device, '-') {
                Some((head, _)) => head,
                None => device,
            };
            if num.len() > 0 && all_digits(num) {
                Some(filled(ROOT_HUB@, seq![num]))
            } else {
                None
            }
        },
    }
}

pub fn bus_of(device: &str) -> (r: Option<String>)
    ensures
        opt_text(r) == owning_bus(device@),
{
    match strip_prefix(device, "usb") {
        Some(rest) => if digits_only(rest.as_str()) {
            Some(owned(device))
        } else {
            None
        },
        None => {
            let num = match split_once(device, '-') {
                Some((head, _)) => head,
                None => owned(device),
            };
            if !num.as_str().is_empty() && digits_only(num.as_str()) {
                Some(fill1(ROOT_HUB, num.as_str()))
            } else {
                None
            }
        },
    }
}

impl KernelEvent {
    pub open spec fn on_bus(self) -> Option<Seq<char>> {
        match self.device {
            Some(d) => owning_bus(d@),
            None => None,
        }
    }

    /// Bus name owning this event's device.
    pub fn bus(&self) -> (r: Option<String>)
        ensures
            opt_text(r) == self.on_bus(),
    {
        match &self.device {
            Some(d) => bus_of(d.as_str()),
            None => None,
        }
    }

    /// This line reports a SuperSpeed link training successfully.
    pub open spec fn trained(self) -> bool {
        self.kind == EventKind::DeviceEnumerating && holds_text(
            lowered(self.text@),
            "superspeed"@,
        )
    }

    pub fn is_superspeed_train(&self) -> (r: bool)
        ensures
            r == self.trained(),
    {
        if self.kind != EventKind::DeviceEnumerating {
            return false;
        }
        let t = lower(self.text.as_str());
        contains(t.as_str(), "superspeed")
    }
}

/// Plain-language meaning of a USB errno.
pub open spec fn meaning_of(code: i32) -> Option<Seq<char>> {
    if code == -110 {
        Some("ETIMEDOUT — the device never answered"@)
    } else if code == -71 {
        Some("EPROTO — protocol error, typically signal integrity"@)
    } else if code == -84 {
        Some("EILSEQ — CRC or framing error, typically signal integrity"@)
    } else if code == -32 {
        Some("EPIPE — the endpoint stalled"@)
    } else if code == -62 {
        Some("ETIME — the transfer timed out"@)
    } else if code == -75 {
        Some("EOVERFLOW — babble, more data than the endpoint expected"@)
    } else if code == -19 {
        Some("ENODEV — the device vanished mid-operation"@)
    } else if code == -22 {
        Some("EINVAL — the kernel rejected the request"@)
    } else {
        None
    }
}

pub fn errno_meaning(code: i32) -> (r: Option<&'static str>)
    ensures
        match r {
            Some(t) => meaning_of(code) == Some(t@),
            None => meaning_of(code) is None,
        },
{
    if code == -110 {
        Some("ETIMEDOUT — the device never answered")
    } else if code == -71 {
        Some("EPROTO — protocol error, typically signal integrity")
    } else if code == -84 {
        Some("EILSEQ — CRC or framing error, typically signal integrity")
    } else if code == -32 {
        Some("EPIPE — the endpoint stalled")
    } else if code == -62 {
        Some("ETIME — the transfer timed out")
    } else if code == -75 {
        Some("EOVERFLOW — babble, more data than the endpoint expected")
    } else if code == -19 {
        Some("ENODEV — the device vanished mid-operation")
    } else if code == -22 {
        Some("EINVAL — the kernel rejected the request")
    } else {
        None
    }
}

#[derive(Debug, Clone, Copy, PartialEq, Eq, Structural)]
pub enum EventKind {
    /// Descriptor read failed, address not accepted, enumeration gave up.
    EnumerationFailure,
    /// Kernel re-reset an already-working device.
    DeviceReset,
    /// A link trained and the kernel began enumerating.
    DeviceEnumerating,
    /// Kernel explicitly blamed the cable.
    CableSuspect,
    /// A SuperSpeed link failed to train and fell back.
    LinkTrainingFailure,
    OverCurrent,
    InsufficientPower,
    InsufficientBandwidth,
    HostControllerFailure,
    Disconnect,
    TypecEvent,
    Other,
}

// ---------------------------------------------------------------------------
// findings
// ---------------------------------------------------------------------------

/// Ordered weakest to strongest.
#[derive(Debug, Clone, Copy, PartialEq, Eq, PartialOrd, Ord, Structural)]
pub enum Severity {
    Info,
    Low,
    Medium,
    High,
    Critical,
}

impl Severity {
    /// The place in the order, weakest first.
    pub open spec fn weight(self) -> int {
        match self {
            Severity::Info => 0,
            Severity::Low => 1,
            Severity::Medium => 2,
            Severity::High => 3,
            Severity::Critical => 4,
        }
    }

    pub fn rank(&self) -> (r: u8)
        ensures
            r as int == self.weight(),
    {
        match self {
            Severity::Info => 0,
            Severity::Low => 1,
            Severity::Medium => 2,
            Severity::High => 3,
            Severity::Critical => 4,
        }
    }

    pub open spec fn name(self) -> Seq<char> {
        match self {
            Severity::Info => "INFO"@,
            Severity::Low => "LOW"@,
            Severity::Medium => "MEDIUM"@,
            Severity::High => "HIGH"@,
            Severity::Critical => "CRITICAL"@,
        }
    }

    pub fn label(&self) -> (r: &'static str)
        ensures
            r@ == self.name(),
    {
        match self {
            Severity::Info => "INFO",
            Severity::Low => "LOW",
            Severity::Medium => "MEDIUM",
            Severity::High => "HIGH",
            Severity::Critical => "CRITICAL",
        }
    }
}

/// How much to trust a finding.
#[derive(Debug, Clone, Copy, PartialEq, Eq, Structural)]
pub enum Confidence {
    /// Read directly from a register or descriptor.
    Measured,
    /// Deduced from two measured facts that disagree.
    Inferred,
    /// Pattern match on symptoms; could have another cause.
    Heuristic,
}

impl Confidence {
    /// How strong a claim this is, weakest first.
    pub open spec fn strength(self) -> int {
        match self {
            Confidence::Measured => 2,
            Confidence::Inferred => 1,
            Confidence::Heuristic => 0,
        }
    }

    pub open spec fn name(self) -> Seq<char> {
        match self {
            Confidence::Measured => "measured"@,
            Confidence::Inferred => "inferred"@,
            Confidence::Heuristic => "heuristic"@,
        }
    }

    pub fn label(&self) -> (r: &'static str)
        ensures
            r@ == self.name(),
    {
        match self {
            Confidence::Measured => "measured",
            Confidence::Inferred => "inferred",
            Confidence::Heuristic => "heuristic",
        }
    }
}

#[derive(Debug, Clone)]
pub struct Finding {
    /// Stable machine-readable id, e.g. `LINK_BELOW_DEVICE_CAPABILITY`.
    pub code: String,
    pub severity: Severity,
    pub confidence: Confidence,
    pub subject: Subject,
    pub title: String,
    pub detail: String,
    /// The specific readings this conclusion rests on.
    pub evidence: Vec<String>,
    pub suggestion: Option<String>,
}

#[derive(Debug, Clone, PartialEq, Eq)]
pub enum Subject {
    Host,
    Port(String),
    Device(String),
    Cable(String),
}

/// A subject, as text.
pub enum About {
    Host,
    Port(Seq<char>),
    Device(Seq<char>),
    Cable(Seq<char>),
}

/// A finding, as text.
pub struct Statement {
    pub code: Seq<char>,
    pub severity: Severity,
    pub confidence: Confidence,
    pub subject: About,
    pub title: Seq<char>,
    pub detail: Seq<char>,
    pub evidence: Seq<Seq<char>>,
    pub suggestion: Option<Seq<char>>,
}

impl View for Subject {
    type V = About;

    open spec fn view(&self) -> About {
        match *self {
            Subject::Host => About::Host,
            Subject::Port(p) => About::Port(p@),
            Subject::Device(d) => About::Device(d@),
            Subject::Cable(p) => About::Cable(p@),
        }
    }
}

impl View for Finding {
    type V = Statement;

    open spec fn view(&self) -> Statement {
        Statement {
            code: self.code@,
            severity: self.severity,
            confidence: self.confidence,
            subject: self.subject@,
            title: self.title@,
            detail: self.detail@,
            evidence: texts(self.evidence@),
            suggestion: opt_text(self.suggestion),
        }
    }
}

/// The name of a port's cable.
pub const CABLE_OF: &'static str = "{} cable";

impl About {
    pub open spec fn shown(self) -> Seq<char> {
        match self {
            About::Host => "host"@,
            About::Port(p) => p,
            About::Device(d) => d,
            About::Cable(p) => filled(CABLE_OF@, seq![p]),
        }
    }
}

impl Subject {
    pub fn display(&self) -> (r: String)
        ensures
            r@ == self@.shown(),
    {
        match self {
            Subject::Host => owned("host"),
            Subject::Port(p) => p.clone(),
            Subject::Device(d) => d.clone(),
            Subject::Cable(p) => fill1(CABLE_OF, p.as_str()),
        }
    }

    /// Whether two subjects are the same.
    pub fn is(&self, other: &Subject) -> (r: bool)
        ensures
            r == (self@ == other@),
    {
        match (self, other) {
            (Subject::Host, Subject::Host) => true,
            (Subject::Port(a), Subject::Port(b)) => same(a.as_str(), b.as_str()),
            (Subject::Device(a), Subject::Device(b)) => same(a.as_str(), b.as_str()),
            (Subject::Cable(a), Subject::Cable(b)) => same(a.as_str(), b.as_str()),
            _ => false,
        }
    }

    pub fn copy(&self) -> (r: Subject)
        ensures
            r == *self,
    {
        match self {
            Subject::Host => Subject::Host,
            Subject::Port(p) => Subject::Port(p.clone()),
            Subject::Device(d) => Subject::Device(d.clone()),
            Subject::Cable(p) => Subject::Cable(p.clone()),
        }
    }
}

/// A one-sentence answer for one subject: a finding's own title, or the fixed
/// sentence for nothing found.
#[derive(Debug, Clone, PartialEq, Eq)]
pub struct Verdict {
    pub subject: Subject,
    pub outcome: Outcome,
    pub headline: String,
    /// Codes of the findings and exonerations this rests on. Empty means the
    /// subject was examined and nothing fired either way.
    pub because: Vec<String>,
}

impl Verdict {
    pub const NOTHING_FOUND: &'static str = "Nothing wrong found";
}

#[derive(Debug, Clone, Copy, PartialEq, Eq, Structural)]
pub enum Outcome {
    /// Medium or worse. Something here needs attention.
    Fault,
    /// Low. Something is slightly off but not worth acting on.
    Minor,
    /// Nothing fired, or nothing above Info did.
    Clear,
}

/// A snapshot plus its analysis: what a front end binds to.
#[derive(Debug, Clone)]
pub struct Report {
    pub snapshot: Snapshot,
    pub findings: Vec<Finding>,
    /// Statements that a specific thing is not the problem. A separate list, so
    /// that one can never be counted as a fault.
    pub exonerations: Vec<Finding>,
    pub verdicts: Vec<Verdict>,
}

} // verus!
