//! What a device is, so an observation can be read in context.
//!
//! What a device is changes what a reading means: 12 Mbps is correct for a
//! keyboard and a fault for an external SSD. The taxonomy is therefore an input
//! to the rules, and it carries rules of its own.
//!
//! A guess may quieten a rule; it may never start one. [`Kind::grounds`] gives a
//! kind only when the device's own descriptors or the user said so, and
//! [`Kind::cap`] weakens the confidence of a finding that rests on it.

use vstd::prelude::*;
use crate::model::{Confidence, UsbDevice, UsbInterface};
use crate::text::{fill2, filled};

verus! {

/// What a device is for. Coarser than the USB class list on purpose.
#[derive(Debug, Clone, Copy, PartialEq, Eq, Hash, Structural)]
pub enum DeviceKind {
    Hub,
    Keyboard,
    Mouse,
    /// A human-interface device that is neither keyboard nor mouse.
    InputDevice,
    Storage,
    Audio,
    /// A webcam or other video-class device.
    Camera,
    /// Still-image class: scanners, and cameras in PTP mode.
    Imaging,
    Printer,
    Network,
    SmartcardReader,
    /// A device whose only job is to announce that an Alternate Mode was not
    /// entered. Never what someone plugged in; always a symptom.
    Billboard,
    /// A wireless radio.
    Wireless,
    Diagnostic,
    Unknown,
}

impl Default for DeviceKind {
    fn default() -> (r: Self)
        ensures
            r == DeviceKind::Unknown,
    {
        DeviceKind::Unknown
    }
}

impl DeviceKind {
    /// Every kind, so a caller that must cover them all cannot miss one.
    pub const ALL: [DeviceKind; 15] = [
        DeviceKind::Hub,
        DeviceKind::Keyboard,
        DeviceKind::Mouse,
        DeviceKind::InputDevice,
        DeviceKind::Storage,
        DeviceKind::Audio,
        DeviceKind::Camera,
        DeviceKind::Imaging,
        DeviceKind::Printer,
        DeviceKind::Network,
        DeviceKind::SmartcardReader,
        DeviceKind::Billboard,
        DeviceKind::Wireless,
        DeviceKind::Diagnostic,
        DeviceKind::Unknown,
    ];

    /// User-facing name, lower case so it reads inside a sentence.
    pub open spec fn name(self) -> Seq<char> {
        match self {
            DeviceKind::Hub => "hub"@,
            DeviceKind::Keyboard => "keyboard"@,
            DeviceKind::Mouse => "mouse"@,
            DeviceKind::InputDevice => "input device"@,
            DeviceKind::Storage => "storage"@,
            DeviceKind::Audio => "audio device"@,
            DeviceKind::Camera => "camera"@,
            DeviceKind::Imaging => "scanner or camera"@,
            DeviceKind::Printer => "printer"@,
            DeviceKind::Network => "network adapter"@,
            DeviceKind::SmartcardReader => "smart-card reader"@,
            DeviceKind::Billboard => "alt-mode billboard"@,
            DeviceKind::Wireless => "wireless radio"@,
            DeviceKind::Diagnostic => "diagnostic device"@,
            DeviceKind::Unknown => "unrecognised device"@,
        }
    }

    pub fn label(&self) -> (r: &'static str)
        ensures
            r@ == self.name(),
    {
        match self {
            DeviceKind::Hub => "hub",
            DeviceKind::Keyboard => "keyboard",
            DeviceKind::Mouse => "mouse",
            DeviceKind::InputDevice => "input device",
            DeviceKind::Storage => "storage",
            DeviceKind::Audio => "audio device",
            DeviceKind::Camera => "camera",
            DeviceKind::Imaging => "scanner or camera",
            DeviceKind::Printer => "printer",
            DeviceKind::Network => "network adapter",
            DeviceKind::SmartcardReader => "smart-card reader",
            DeviceKind::Billboard => "alt-mode billboard",
            DeviceKind::Wireless => "wireless radio",
            DeviceKind::Diagnostic => "diagnostic device",
            DeviceKind::Unknown => "unrecognised device",
        }
    }

    /// The same name in title case, for somewhere it stands on its own.
    ///
    /// Spelled out rather than derived, because title case is not a string
    /// operation: *Scanner or Camera* keeps `or` lower.
    pub open spec fn heading(self) -> Seq<char> {
        match self {
            DeviceKind::Hub => "Hub"@,
            DeviceKind::Keyboard => "Keyboard"@,
            DeviceKind::Mouse => "Mouse"@,
            DeviceKind::InputDevice => "Input Device"@,
            DeviceKind::Storage => "Storage"@,
            DeviceKind::Audio => "Audio Device"@,
            DeviceKind::Camera => "Camera"@,
            DeviceKind::Imaging => "Scanner or Camera"@,
            DeviceKind::Printer => "Printer"@,
            DeviceKind::Network => "Network Adapter"@,
            DeviceKind::SmartcardReader => "Smart-Card Reader"@,
            DeviceKind::Billboard => "Alt-Mode Billboard"@,
            DeviceKind::Wireless => "Wireless Radio"@,
            DeviceKind::Diagnostic => "Diagnostic Device"@,
            DeviceKind::Unknown => "Unrecognised Device"@,
        }
    }

    pub fn title(&self) -> (r: &'static str)
        ensures
            r@ == self.heading(),
    {
        match self {
            DeviceKind::Hub => "Hub",
            DeviceKind::Keyboard => "Keyboard",
            DeviceKind::Mouse => "Mouse",
            DeviceKind::InputDevice => "Input Device",
            DeviceKind::Storage => "Storage",
            DeviceKind::Audio => "Audio Device",
            DeviceKind::Camera => "Camera",
            DeviceKind::Imaging => "Scanner or Camera",
            DeviceKind::Printer => "Printer",
            DeviceKind::Network => "Network Adapter",
            DeviceKind::SmartcardReader => "Smart-Card Reader",
            DeviceKind::Billboard => "Alt-Mode Billboard",
            DeviceKind::Wireless => "Wireless Radio",
            DeviceKind::Diagnostic => "Diagnostic Device",
            DeviceKind::Unknown => "Unrecognised Device",
        }
    }

    /// The kind a USB class code names, where it names one a person would
    /// recognise. `None` for the codes that decline to answer.
    pub fn from_class(code: u8) -> (r: Option<DeviceKind>)
        ensures
            r == class_names(code),
    {
        from_class_code(code)
    }

    /// True when the device carries a data payload whose speed is worth judging.
    pub fn speed_matters(&self) -> (r: bool)
        ensures
            r == (*self == DeviceKind::Storage || *self == DeviceKind::Camera || *self
                == DeviceKind::Network),
    {
        matches!(self, DeviceKind::Storage | DeviceKind::Camera | DeviceKind::Network)
    }
}

/// Where a [`Kind`] came from: provenance, which is not the same as certainty.
#[derive(Debug, Clone, Copy, PartialEq, Eq, Hash, Structural)]
pub enum KindSource {
    /// Read off `bDeviceClass` / `bInterfaceClass`. The device asserts it.
    Class,
    /// Pattern-matched from a product string. A guess.
    Heuristic,
    /// The user said so.
    User,
}

impl Default for KindSource {
    fn default() -> (r: Self)
        ensures
            r == KindSource::Class,
    {
        KindSource::Class
    }
}

impl KindSource {
    pub open spec fn name(self) -> Seq<char> {
        match self {
            KindSource::Class => "declared by the device"@,
            KindSource::Heuristic => "guessed from its name"@,
            KindSource::User => "set by you"@,
        }
    }

    pub fn label(&self) -> (r: &'static str)
        ensures
            r@ == self.name(),
    {
        match self {
            KindSource::Class => "declared by the device",
            KindSource::Heuristic => "guessed from its name",
            KindSource::User => "set by you",
        }
    }

    /// May a rule treat a kind from this source as grounds for a new finding?
    pub open spec fn evidence(self) -> bool {
        self != KindSource::Heuristic
    }

    pub fn is_evidence(&self) -> (r: bool)
        ensures
            r == self.evidence(),
    {
        matches!(self, KindSource::Class | KindSource::User)
    }

    /// The strongest confidence a finding resting on this may claim. A
    /// declaration is not a measurement however true it is.
    pub open spec fn strongest(self) -> Confidence {
        match self {
            KindSource::Class => Confidence::Measured,
            KindSource::User => Confidence::Inferred,
            KindSource::Heuristic => Confidence::Heuristic,
        }
    }

    pub fn confidence_cap(&self) -> (r: Confidence)
        ensures
            r == self.strongest(),
    {
        match self {
            KindSource::Class => Confidence::Measured,
            KindSource::User => Confidence::Inferred,
            KindSource::Heuristic => Confidence::Heuristic,
        }
    }
}

/// A classification, with its provenance attached so the two cannot drift.
#[derive(Debug, Clone, Copy, PartialEq, Eq, Structural)]
pub struct Kind {
    pub kind: DeviceKind,
    pub source: KindSource,
}

impl Default for Kind {
    fn default() -> (r: Self)
        ensures
            r == (Kind { kind: DeviceKind::Unknown, source: KindSource::Class }),
    {
        Kind { kind: DeviceKind::Unknown, source: KindSource::Class }
    }
}

/// A kind and where it came from.
pub const KIND_LINE: &'static str = "{} \u{00b7} {}";

impl Kind {
    pub fn class(kind: DeviceKind) -> (r: Self)
        ensures
            r == (Kind { kind, source: KindSource::Class }),
    {
        Kind { kind, source: KindSource::Class }
    }

    /// The kind a rule may use as grounds for a new finding.
    pub open spec fn basis(self) -> Option<DeviceKind> {
        if self.source.evidence() && self.kind != DeviceKind::Unknown {
            Some(self.kind)
        } else {
            None
        }
    }

    pub fn grounds(&self) -> (r: Option<DeviceKind>)
        ensures
            r == self.basis(),
    {
        if self.source.is_evidence() && self.kind != DeviceKind::Unknown {
            Some(self.kind)
        } else {
            None
        }
    }

    /// `want`, weakened if this kind's provenance cannot support it: the weaker
    /// of the two.
    pub open spec fn capped(self, want: Confidence) -> Confidence {
        if want.strength() <= self.source.strongest().strength() {
            want
        } else {
            self.source.strongest()
        }
    }

    pub fn cap(&self, want: Confidence) -> (r: Confidence)
        ensures
            r == self.capped(want),
    {
        match (self.source.confidence_cap(), want) {
            (Confidence::Measured, w) => w,
            (Confidence::Inferred, Confidence::Measured) => Confidence::Inferred,
            (Confidence::Inferred, w) => w,
            (Confidence::Heuristic, _) => Confidence::Heuristic,
        }
    }

    /// Is this a definite answer, from any source?
    pub fn is_known(&self) -> (r: bool)
        ensures
            r == (self.kind != DeviceKind::Unknown),
    {
        self.kind != DeviceKind::Unknown
    }

    /// `camera · guessed from its name`
    pub open spec fn described(self) -> Seq<char> {
        filled(KIND_LINE@, seq![self.kind.name(), self.source.name()])
    }

    pub fn describe(&self) -> (r: String)
        ensures
            r@ == self.described(),
    {
        fill2(KIND_LINE, self.kind.label(), self.source.label())
    }

    /// `Camera · guessed from its name`, for a caption under a heading.
    pub fn caption(&self) -> (r: String)
        ensures
            r@ == filled(KIND_LINE@, seq![self.kind.heading(), self.source.name()]),
    {
        fill2(KIND_LINE, self.kind.title(), self.source.label())
    }
}

// ---------------------------------------------------------------------------
// classification
// ---------------------------------------------------------------------------

pub const CLASS_HID: u8 = 0x03;

/// What a class code names. The codes `0x00` (see the interfaces), `0xef`,
/// `0xfe` and `0xff` decline to answer, as does any code not listed.
pub open spec fn class_names(code: u8) -> Option<DeviceKind> {
    if code == 0x01 || code == 0x10 {
        Some(DeviceKind::Audio)
    } else if code == 0x02 || code == 0x0a {
        Some(DeviceKind::Network)
    } else if code == 0x03 {
        Some(DeviceKind::InputDevice)
    } else if code == 0x06 {
        Some(DeviceKind::Imaging)
    } else if code == 0x07 {
        Some(DeviceKind::Printer)
    } else if code == 0x08 {
        Some(DeviceKind::Storage)
    } else if code == 0x09 {
        Some(DeviceKind::Hub)
    } else if code == 0x0b {
        Some(DeviceKind::SmartcardReader)
    } else if code == 0x0e {
        Some(DeviceKind::Camera)
    } else if code == 0x11 {
        Some(DeviceKind::Billboard)
    } else if code == 0xdc {
        Some(DeviceKind::Diagnostic)
    } else if code == 0xe0 {
        Some(DeviceKind::Wireless)
    } else {
        None
    }
}

fn from_class_code(code: u8) -> (r: Option<DeviceKind>)
    ensures
        r == class_names(code),
{
    match code {
        0x01 | 0x10 => Some(DeviceKind::Audio),
        0x02 | 0x0a => Some(DeviceKind::Network),
        0x03 => Some(DeviceKind::InputDevice),
        0x06 => Some(DeviceKind::Imaging),
        0x07 => Some(DeviceKind::Printer),
        0x08 => Some(DeviceKind::Storage),
        0x09 => Some(DeviceKind::Hub),
        0x0b => Some(DeviceKind::SmartcardReader),
        0x0e => Some(DeviceKind::Camera),
        0x11 => Some(DeviceKind::Billboard),
        0xdc => Some(DeviceKind::Diagnostic),
        0xe0 => Some(DeviceKind::Wireless),
        _ => None,
    }
}

/// The tie-break order for a composite device: lower wins.
///
/// Storage outranks everything but a hub because its readings carry the most
/// diagnostic weight; `InputDevice` is last of the real answers because it is
/// what HID falls back to when the protocol byte says nothing.
pub open spec fn precedence(k: DeviceKind) -> int {
    match k {
        DeviceKind::Hub => 0,
        DeviceKind::Storage => 1,
        DeviceKind::Camera => 2,
        DeviceKind::Imaging => 3,
        DeviceKind::Printer => 4,
        DeviceKind::SmartcardReader => 5,
        DeviceKind::Billboard => 6,
        DeviceKind::Network => 7,
        DeviceKind::Audio => 8,
        DeviceKind::Keyboard => 9,
        DeviceKind::Mouse => 10,
        DeviceKind::Wireless => 11,
        DeviceKind::Diagnostic => 12,
        DeviceKind::InputDevice => 13,
        DeviceKind::Unknown => 14,
    }
}

pub fn rank(k: &DeviceKind) -> (r: u8)
    ensures
        r as int == precedence(*k),
{
    match k {
        DeviceKind::Hub => 0,
        DeviceKind::Storage => 1,
        DeviceKind::Camera => 2,
        DeviceKind::Imaging => 3,
        DeviceKind::Printer => 4,
        DeviceKind::SmartcardReader => 5,
        DeviceKind::Billboard => 6,
        DeviceKind::Network => 7,
        DeviceKind::Audio => 8,
        DeviceKind::Keyboard => 9,
        DeviceKind::Mouse => 10,
        DeviceKind::Wireless => 11,
        DeviceKind::Diagnostic => 12,
        DeviceKind::InputDevice => 13,
        DeviceKind::Unknown => 14,
    }
}

/// What one interface says. HID says it in the protocol byte, but only for
/// boot-protocol interfaces.
pub open spec fn interface_names(i: UsbInterface) -> Option<DeviceKind> {
    match i.class {
        None => None,
        Some(class) => if class == CLASS_HID {
            if i.protocol == Some(1u8) {
                Some(DeviceKind::Keyboard)
            } else if i.protocol == Some(2u8) {
                Some(DeviceKind::Mouse)
            } else {
                Some(DeviceKind::InputDevice)
            }
        } else {
            class_names(class)
        },
    }
}

fn one_interface(i: &UsbInterface) -> (r: Option<DeviceKind>)
    ensures
        r == interface_names(*i),
{
    match i.class {
        None => None,
        Some(class) => if class == CLASS_HID {
            match i.protocol {
                Some(1) => Some(DeviceKind::Keyboard),
                Some(2) => Some(DeviceKind::Mouse),
                _ => Some(DeviceKind::InputDevice),
            }
        } else {
            from_class_code(class)
        },
    }
}

/// The kind of highest precedence that any of the interfaces names.
pub open spec fn best_interface(s: Seq<UsbInterface>) -> Option<DeviceKind>
    decreases s.len(),
{
    if s.len() == 0 {
        None
    } else {
        match (best_interface(s.drop_last()), interface_names(s.last())) {
            (Some(a), Some(b)) => if precedence(b) < precedence(a) {
                Some(b)
            } else {
                Some(a)
            },
            (None, b) => b,
            (a, None) => a,
        }
    }
}

/// The best answer across a composite device's interfaces.
pub fn interface_kind(dev: &UsbDevice) -> (r: Option<DeviceKind>)
    ensures
        r == best_interface(dev.interfaces@),
{
    let mut best: Option<DeviceKind> = None;
    let mut i: usize = 0;
    while i < dev.interfaces.len()
        invariant
            i <= dev.interfaces.len(),
            best == best_interface(dev.interfaces@.take(i as int)),
        decreases dev.interfaces.len() - i,
    {
        let next = one_interface(&dev.interfaces[i]);
        proof {
            assert(dev.interfaces@.take(i + 1).drop_last() == dev.interfaces@.take(i as int));
        }
        best = match (best, next) {
            (Some(a), Some(b)) => if rank(&b) < rank(&a) {
                Some(b)
            } else {
                Some(a)
            },
            (None, b) => b,
            (a, None) => a,
        };
        i += 1;
    }
    assert(dev.interfaces@.take(i as int) == dev.interfaces@);
    best
}

/// What the class codes say a device is.
pub open spec fn classified(dev: UsbDevice) -> Kind {
    let by_class = match dev.device_class {
        Some(c) => class_names(c),
        None => None,
    };
    let kind = if dev.is_root_hub {
        DeviceKind::Hub
    } else {
        match (by_class, best_interface(dev.interfaces@)) {
            (Some(k), _) => k,
            (None, Some(k)) => k,
            (None, None) => DeviceKind::Unknown,
        }
    };
    Kind { kind, source: KindSource::Class }
}

/// Classify a device from its class codes.
///
/// `bDeviceClass` is consulted first but is usually `0x00`, so most devices are
/// decided by their interface list.
pub fn classify(dev: &UsbDevice) -> (r: Kind)
    ensures
        r == classified(*dev),
{
    if dev.is_root_hub {
        return Kind::class(DeviceKind::Hub);
    }
    if let Some(c) = dev.device_class {
        if let Some(k) = from_class_code(c) {
            return Kind::class(k);
        }
    }
    match interface_kind(dev) {
        Some(k) => Kind::class(k),
        None => Kind::default(),
    }
}

// ---------------------------------------------------------------------------
// laws
// ---------------------------------------------------------------------------

/// A guess is never grounds for a finding, and neither is an unknown kind.
pub proof fn a_guess_never_starts_a_rule(k: Kind)
    ensures
        k.source == KindSource::Heuristic ==> k.basis() is None,
        k.kind == DeviceKind::Unknown ==> k.basis() is None,
        k.basis() matches Some(g) ==> g == k.kind && k.source != KindSource::Heuristic,
{
}

/// Capping never strengthens a claim, never lets one exceed what its source
/// supports, and leaves a claim within that bound alone. What a user set is
/// never called a measurement.
pub proof fn a_cap_only_weakens(k: Kind, want: Confidence)
    ensures
        k.capped(want).strength() <= want.strength(),
        k.capped(want).strength() <= k.source.strongest().strength(),
        want.strength() <= k.source.strongest().strength() ==> k.capped(want) == want,
        k.source == KindSource::User ==> k.capped(want) != Confidence::Measured,
        k.source == KindSource::Heuristic ==> k.capped(want) == Confidence::Heuristic,
{
}

/// No two kinds share a precedence, so the best interface is never a tie
/// between different kinds.
pub proof fn precedence_is_strict(a: DeviceKind, b: DeviceKind)
    ensures
        precedence(a) == precedence(b) ==> a == b,
        0 <= precedence(a) <= 14,
{
}

/// The best interface answer is named by one of the interfaces and none of them
/// names one that outranks it.
pub proof fn best_interface_is_least(s: Seq<UsbInterface>)
    ensures
        best_interface(s) is None <==> (forall|i: int|
            0 <= i < s.len() ==> interface_names(#[trigger] s[i]) is None),
        best_interface(s) matches Some(k) ==> {
            &&& exists|i: int| 0 <= i < s.len() && interface_names(#[trigger] s[i]) == Some(k)
            &&& forall|i: int|
                0 <= i < s.len() && interface_names(#[trigger] s[i]) is Some ==> precedence(k)
                    <= precedence(interface_names(s[i])->0)
        },
    decreases s.len(),
{
    if s.len() > 0 {
        let p = s.drop_last();
        best_interface_is_least(p);
        assert(forall|i: int| 0 <= i < p.len() ==> p[i] == s[i]);
        assert(s[s.len() - 1] == s.last());
        if best_interface(p) is Some {
            let i = choose|i: int|
                0 <= i < p.len() && interface_names(#[trigger] p[i]) == best_interface(p);
            assert(interface_names(s[i]) == best_interface(p));
        }
    }
}

/// The order in which interfaces are enumerated does not decide the answer.
pub proof fn interface_order_does_not_matter(a: Seq<UsbInterface>, b: Seq<UsbInterface>)
    requires
        forall|i: int| 0 <= i < a.len() ==> b.contains(#[trigger] a[i]),
        forall|i: int| 0 <= i < b.len() ==> a.contains(#[trigger] b[i]),
    ensures
        best_interface(a) == best_interface(b),
{
    best_interface_is_least(a);
    best_interface_is_least(b);
    if best_interface(a) is Some {
        let i = choose|i: int|
            0 <= i < a.len() && interface_names(#[trigger] a[i]) == best_interface(a);
        let j = choose|j: int| 0 <= j < b.len() && b[j] == a[i];
        assert(b.contains(a[i]));
        assert(interface_names(b[j]) is Some);
    }
    if best_interface(b) is Some {
        let i = choose|i: int|
            0 <= i < b.len() && interface_names(#[trigger] b[i]) == best_interface(b);
        let j = choose|j: int| 0 <= j < a.len() && a[j] == b[i];
        assert(a.contains(b[i]));
        assert(interface_names(a[j]) is Some);
    }
    if best_interface(a) is Some && best_interface(b) is Some {
        precedence_is_strict(best_interface(a)->0, best_interface(b)->0);
    }
}

/// A title is its label with capitals: the same words, nothing but case apart.
pub proof fn a_title_is_its_label(k: DeviceKind)
    ensures
        crate::text::lowered(k.heading()) == k.name(),
{
    reveal_strlit("hub");
    reveal_strlit("Hub");
    reveal_strlit("keyboard");
    reveal_strlit("Keyboard");
    reveal_strlit("mouse");
    reveal_strlit("Mouse");
    reveal_strlit("input device");
    reveal_strlit("Input Device");
    reveal_strlit("storage");
    reveal_strlit("Storage");
    reveal_strlit("audio device");
    reveal_strlit("Audio Device");
    reveal_strlit("camera");
    reveal_strlit("Camera");
    reveal_strlit("scanner or camera");
    reveal_strlit("Scanner or Camera");
    reveal_strlit("printer");
    reveal_strlit("Printer");
    reveal_strlit("network adapter");
    reveal_strlit("Network Adapter");
    reveal_strlit("smart-card reader");
    reveal_strlit("Smart-Card Reader");
    reveal_strlit("alt-mode billboard");
    reveal_strlit("Alt-Mode Billboard");
    reveal_strlit("wireless radio");
    reveal_strlit("Wireless Radio");
    reveal_strlit("diagnostic device");
    reveal_strlit("Diagnostic Device");
    reveal_strlit("unrecognised device");
    reveal_strlit("Unrecognised Device");
    assert(crate::text::lowered(k.heading()) =~= k.name());
}

/// The device class leaves the answer to the interfaces.
pub open spec fn undecided(dev: UsbDevice) -> bool {
    !dev.is_root_hub && (dev.device_class matches Some(c) ==> !(seq![
        0x01u8, 0x02u8, 0x03u8, 0x06u8, 0x07u8, 0x08u8, 0x09u8, 0x0au8, 0x0bu8, 0x0eu8, 0x10u8,
            0x11u8, 0xdcu8, 0xe0u8,
    ]).contains(c))
}

/// Some interface has this class.
pub open spec fn has_class(dev: UsbDevice, code: u8) -> bool {
    exists|i: int| 0 <= i < dev.interfaces@.len() && (#[trigger] dev.interfaces@[i]).class
        == Some(code)
}

/// Some interface is a human-interface one of this protocol.
pub open spec fn has_hid(dev: UsbDevice, protocol: u8) -> bool {
    exists|i: int|
        0 <= i < dev.interfaces@.len() && (#[trigger] dev.interfaces@[i]).class == Some(0x03u8)
            && dev.interfaces@[i].protocol == Some(protocol)
}

/// The class that a device gives for itself decides what it is; a root hub is a
/// hub whatever it says.
pub proof fn the_device_class_decides(dev: UsbDevice)
    ensures
        classified(dev).source == KindSource::Class,
        dev.is_root_hub ==> classified(dev).kind == DeviceKind::Hub,
        !dev.is_root_hub ==> {
            &&& dev.device_class == Some(0x01u8) ==> classified(dev).kind == DeviceKind::Audio
            &&& dev.device_class == Some(0x02u8) ==> classified(dev).kind == DeviceKind::Network
            &&& dev.device_class == Some(0x03u8) ==> classified(dev).kind == DeviceKind::InputDevice
            &&& dev.device_class == Some(0x06u8) ==> classified(dev).kind == DeviceKind::Imaging
            &&& dev.device_class == Some(0x07u8) ==> classified(dev).kind == DeviceKind::Printer
            &&& dev.device_class == Some(0x08u8) ==> classified(dev).kind == DeviceKind::Storage
            &&& dev.device_class == Some(0x09u8) ==> classified(dev).kind == DeviceKind::Hub
            &&& dev.device_class == Some(0x0au8) ==> classified(dev).kind == DeviceKind::Network
            &&& dev.device_class == Some(0x0bu8) ==> classified(dev).kind
                == DeviceKind::SmartcardReader
            &&& dev.device_class == Some(0x0eu8) ==> classified(dev).kind == DeviceKind::Camera
            &&& dev.device_class == Some(0x10u8) ==> classified(dev).kind == DeviceKind::Audio
            &&& dev.device_class == Some(0x11u8) ==> classified(dev).kind == DeviceKind::Billboard
            &&& dev.device_class == Some(0xdcu8) ==> classified(dev).kind == DeviceKind::Diagnostic
            &&& dev.device_class == Some(0xe0u8) ==> classified(dev).kind == DeviceKind::Wireless
        },
{
}

/// Where the device class leaves it open, a lone interface decides.
pub proof fn a_lone_interface_decides(dev: UsbDevice)
    requires
        undecided(dev),
        dev.interfaces@.len() == 1,
    ensures
        ({
            let i = dev.interfaces@[0];
            let k = classified(dev).kind;
            &&& i.class == Some(0x01u8) ==> k == DeviceKind::Audio
            &&& i.class == Some(0x02u8) ==> k == DeviceKind::Network
            &&& i.class == Some(0x03u8) && i.protocol == Some(1u8) ==> k == DeviceKind::Keyboard
            &&& i.class == Some(0x03u8) && i.protocol == Some(2u8) ==> k == DeviceKind::Mouse
            &&& i.class == Some(0x03u8) && i.protocol != Some(1u8) && i.protocol != Some(2u8) ==> k
                == DeviceKind::InputDevice
            &&& i.class == Some(0x06u8) ==> k == DeviceKind::Imaging
            &&& i.class == Some(0x07u8) ==> k == DeviceKind::Printer
            &&& i.class == Some(0x08u8) ==> k == DeviceKind::Storage
            &&& i.class == Some(0x09u8) ==> k == DeviceKind::Hub
            &&& i.class == Some(0x0au8) ==> k == DeviceKind::Network
            &&& i.class == Some(0x0bu8) ==> k == DeviceKind::SmartcardReader
            &&& i.class == Some(0x0eu8) ==> k == DeviceKind::Camera
            &&& i.class == Some(0x10u8) ==> k == DeviceKind::Audio
            &&& i.class == Some(0x11u8) ==> k == DeviceKind::Billboard
            &&& i.class == Some(0xdcu8) ==> k == DeviceKind::Diagnostic
            &&& i.class == Some(0xe0u8) ==> k == DeviceKind::Wireless
            &&& (i.class matches Some(c) ==> !(seq![
                0x01u8, 0x02u8, 0x03u8, 0x06u8, 0x07u8, 0x08u8, 0x09u8, 0x0au8, 0x0bu8, 0x0eu8,
                    0x10u8, 0x11u8, 0xdcu8, 0xe0u8,
            ]).contains(c)) ==> k == DeviceKind::Unknown
        }),
{
    lemma_undecided(dev);
    best_interface_is_least(dev.interfaces@);
    let s = dev.interfaces@;
    assert(interface_names(s[0]) == best_interface(s));
    lemma_table();
}

/// The codes of the table are the only ones that name a kind.
proof fn lemma_table()
    ensures
        forall|c: u8| #[trigger] class_names(c) is Some <==> (seq![
            0x01u8, 0x02u8, 0x03u8, 0x06u8, 0x07u8, 0x08u8, 0x09u8, 0x0au8, 0x0bu8, 0x0eu8, 0x10u8,
                0x11u8, 0xdcu8, 0xe0u8,
        ]).contains(c),
{
    let t = seq![0x01u8, 0x02u8, 0x03u8, 0x06u8, 0x07u8, 0x08u8, 0x09u8, 0x0au8, 0x0bu8, 0x0eu8,
        0x10u8, 0x11u8, 0xdcu8, 0xe0u8];

    assert(t[0] == 0x01);
    assert(t[1] == 0x02);
    assert(t[2] == 0x03);
    assert(t[3] == 0x06);
    assert(t[4] == 0x07);
    assert(t[5] == 0x08);
    assert(t[6] == 0x09);
    assert(t[7] == 0x0a);
    assert(t[8] == 0x0b);
    assert(t[9] == 0x0e);
    assert(t[10] == 0x10);
    assert(t[11] == 0x11);
    assert(t[12] == 0xdc);
    assert(t[13] == 0xe0);
    assert forall|c: u8| #[trigger] class_names(c) is Some <==> t.contains(c) by {
        if t.contains(c) {
            let i = choose|i: int| 0 <= i < t.len() && t[i] == c;
        }
    }
}

proof fn lemma_undecided(dev: UsbDevice)
    requires
        undecided(dev),
    ensures
        classified(dev).kind == (match best_interface(dev.interfaces@) {
            Some(k) => k,
            None => DeviceKind::Unknown,
        }),
{
    lemma_table();
    if let Some(c) = dev.device_class {
        assert(class_names(c) is None);
    }
}

/// Of several interfaces the one that says most of the device decides: an
/// interface of a class gives the class's kind, or one that says more.
pub proof fn the_telling_interface_decides(dev: UsbDevice)
    requires
        undecided(dev),
    ensures
        ({
            let k = classified(dev).kind;
            &&& has_class(dev, 0x09u8) ==> k == DeviceKind::Hub
            &&& has_class(dev, 0x08u8) ==> k == DeviceKind::Hub || k == DeviceKind::Storage
            &&& has_class(dev, 0x0eu8) ==> k == DeviceKind::Hub || k == DeviceKind::Storage || k
                == DeviceKind::Camera
            &&& has_class(dev, 0x06u8) ==> k == DeviceKind::Hub || k == DeviceKind::Storage || k
                == DeviceKind::Camera || k == DeviceKind::Imaging
            &&& has_class(dev, 0x07u8) ==> k == DeviceKind::Hub || k == DeviceKind::Storage || k
                == DeviceKind::Camera || k == DeviceKind::Imaging || k == DeviceKind::Printer
            &&& has_class(dev, 0x0bu8) ==> k == DeviceKind::Hub || k == DeviceKind::Storage || k
                == DeviceKind::Camera || k == DeviceKind::Imaging || k == DeviceKind::Printer || k
                == DeviceKind::SmartcardReader
            &&& has_class(dev, 0x11u8) ==> k == DeviceKind::Hub || k == DeviceKind::Storage || k
                == DeviceKind::Camera || k == DeviceKind::Imaging || k == DeviceKind::Printer || k
                == DeviceKind::SmartcardReader || k == DeviceKind::Billboard
            &&& has_class(dev, 0x02u8) ==> k == DeviceKind::Hub || k == DeviceKind::Storage || k
                == DeviceKind::Camera || k == DeviceKind::Imaging || k == DeviceKind::Printer || k
                == DeviceKind::SmartcardReader || k == DeviceKind::Billboard || k
                == DeviceKind::Network
            &&& has_class(dev, 0x0au8) ==> k == DeviceKind::Hub || k == DeviceKind::Storage || k
                == DeviceKind::Camera || k == DeviceKind::Imaging || k == DeviceKind::Printer || k
                == DeviceKind::SmartcardReader || k == DeviceKind::Billboard || k
                == DeviceKind::Network
            &&& has_class(dev, 0x01u8) ==> k == DeviceKind::Hub || k == DeviceKind::Storage || k
                == DeviceKind::Camera || k == DeviceKind::Imaging || k == DeviceKind::Printer || k
                == DeviceKind::SmartcardReader || k == DeviceKind::Billboard || k
                == DeviceKind::Network || k == DeviceKind::Audio
            &&& has_class(dev, 0x10u8) ==> k == DeviceKind::Hub || k == DeviceKind::Storage || k
                == DeviceKind::Camera || k == DeviceKind::Imaging || k == DeviceKind::Printer || k
                == DeviceKind::SmartcardReader || k == DeviceKind::Billboard || k
                == DeviceKind::Network || k == DeviceKind::Audio
            &&& has_hid(dev, 1u8) ==> k == DeviceKind::Hub || k == DeviceKind::Storage || k
                == DeviceKind::Camera || k == DeviceKind::Imaging || k == DeviceKind::Printer || k
                == DeviceKind::SmartcardReader || k == DeviceKind::Billboard || k
                == DeviceKind::Network || k == DeviceKind::Audio || k == DeviceKind::Keyboard
            &&& has_hid(dev, 2u8) ==> k == DeviceKind::Hub || k == DeviceKind::Storage || k
                == DeviceKind::Camera || k == DeviceKind::Imaging || k == DeviceKind::Printer || k
                == DeviceKind::SmartcardReader || k == DeviceKind::Billboard || k
                == DeviceKind::Network || k == DeviceKind::Audio || k == DeviceKind::Keyboard || k
                == DeviceKind::Mouse
            &&& has_class(dev, 0xe0u8) ==> k == DeviceKind::Hub || k == DeviceKind::Storage || k
                == DeviceKind::Camera || k == DeviceKind::Imaging || k == DeviceKind::Printer || k
                == DeviceKind::SmartcardReader || k == DeviceKind::Billboard || k
                == DeviceKind::Network || k == DeviceKind::Audio || k == DeviceKind::Keyboard || k
                == DeviceKind::Mouse || k == DeviceKind::Wireless
            &&& has_class(dev, 0xdcu8) ==> k == DeviceKind::Hub || k == DeviceKind::Storage || k
                == DeviceKind::Camera || k == DeviceKind::Imaging || k == DeviceKind::Printer || k
                == DeviceKind::SmartcardReader || k == DeviceKind::Billboard || k
                == DeviceKind::Network || k == DeviceKind::Audio || k == DeviceKind::Keyboard || k
                == DeviceKind::Mouse || k == DeviceKind::Wireless || k == DeviceKind::Diagnostic
            &&& has_class(dev, 0x03u8) ==> k == DeviceKind::Hub || k == DeviceKind::Storage || k
                == DeviceKind::Camera || k == DeviceKind::Imaging || k == DeviceKind::Printer || k
                == DeviceKind::SmartcardReader || k == DeviceKind::Billboard || k
                == DeviceKind::Network || k == DeviceKind::Audio || k == DeviceKind::Keyboard || k
                == DeviceKind::Mouse || k == DeviceKind::Wireless || k == DeviceKind::Diagnostic
                || k == DeviceKind::InputDevice
        }),
{
    lemma_undecided(dev);
    best_interface_is_least(dev.interfaces@);
    let s = dev.interfaces@;

    if has_class(dev, 0x09u8) {
        let i = choose|i: int| 0 <= i < s.len() && (#[trigger] s[i]).class == Some(0x09u8);
        assert(interface_names(s[i]) is Some);
    }
    if has_class(dev, 0x08u8) {
        let i = choose|i: int| 0 <= i < s.len() && (#[trigger] s[i]).class == Some(0x08u8);
        assert(interface_names(s[i]) is Some);
    }
    if has_class(dev, 0x0eu8) {
        let i = choose|i: int| 0 <= i < s.len() && (#[trigger] s[i]).class == Some(0x0eu8);
        assert(interface_names(s[i]) is Some);
    }
    if has_class(dev, 0x06u8) {
        let i = choose|i: int| 0 <= i < s.len() && (#[trigger] s[i]).class == Some(0x06u8);
        assert(interface_names(s[i]) is Some);
    }
    if has_class(dev, 0x07u8) {
        let i = choose|i: int| 0 <= i < s.len() && (#[trigger] s[i]).class == Some(0x07u8);
        assert(interface_names(s[i]) is Some);
    }
    if has_class(dev, 0x0bu8) {
        let i = choose|i: int| 0 <= i < s.len() && (#[trigger] s[i]).class == Some(0x0bu8);
        assert(interface_names(s[i]) is Some);
    }
    if has_class(dev, 0x11u8) {
        let i = choose|i: int| 0 <= i < s.len() && (#[trigger] s[i]).class == Some(0x11u8);
        assert(interface_names(s[i]) is Some);
    }
    if has_class(dev, 0x02u8) {
        let i = choose|i: int| 0 <= i < s.len() && (#[trigger] s[i]).class == Some(0x02u8);
        assert(interface_names(s[i]) is Some);
    }
    if has_class(dev, 0x0au8) {
        let i = choose|i: int| 0 <= i < s.len() && (#[trigger] s[i]).class == Some(0x0au8);
        assert(interface_names(s[i]) is Some);
    }
    if has_class(dev, 0x01u8) {
        let i = choose|i: int| 0 <= i < s.len() && (#[trigger] s[i]).class == Some(0x01u8);
        assert(interface_names(s[i]) is Some);
    }
    if has_class(dev, 0x10u8) {
        let i = choose|i: int| 0 <= i < s.len() && (#[trigger] s[i]).class == Some(0x10u8);
        assert(interface_names(s[i]) is Some);
    }
    if has_hid(dev, 1u8) {
        let i = choose|i: int| 0 <= i < s.len() && (#[trigger] s[i]).class == Some(0x03u8)
            && s[i].protocol == Some(1u8);
        assert(interface_names(s[i]) is Some);
    }
    if has_hid(dev, 2u8) {
        let i = choose|i: int| 0 <= i < s.len() && (#[trigger] s[i]).class == Some(0x03u8)
            && s[i].protocol == Some(2u8);
        assert(interface_names(s[i]) is Some);
    }
    if has_class(dev, 0xe0u8) {
        let i = choose|i: int| 0 <= i < s.len() && (#[trigger] s[i]).class == Some(0xe0u8);
        assert(interface_names(s[i]) is Some);
    }
    if has_class(dev, 0xdcu8) {
        let i = choose|i: int| 0 <= i < s.len() && (#[trigger] s[i]).class == Some(0xdcu8);
        assert(interface_names(s[i]) is Some);
    }
    if has_class(dev, 0x03u8) {
        let i = choose|i: int| 0 <= i < s.len() && (#[trigger] s[i]).class == Some(0x03u8);
        assert(interface_names(s[i]) is Some);
    }
}

/// A device is of a kind by its class only if its device class or one of its
/// interfaces says so.
pub proof fn a_kind_is_declared(dev: UsbDevice)
    requires
        !dev.is_root_hub,
    ensures
        ({
            let k = classified(dev).kind;
            &&& k == DeviceKind::Hub ==> dev.device_class == Some(0x09u8) || has_class(dev, 0x09u8)
            &&& k == DeviceKind::Storage ==> dev.device_class == Some(0x08u8)
                || has_class(dev, 0x08u8)
            &&& k == DeviceKind::Camera ==> dev.device_class == Some(0x0eu8)
                || has_class(dev, 0x0eu8)
            &&& k == DeviceKind::Imaging ==> dev.device_class == Some(0x06u8)
                || has_class(dev, 0x06u8)
            &&& k == DeviceKind::Printer ==> dev.device_class == Some(0x07u8)
                || has_class(dev, 0x07u8)
            &&& k == DeviceKind::SmartcardReader ==> dev.device_class == Some(0x0bu8)
                || has_class(dev, 0x0bu8)
            &&& k == DeviceKind::Billboard ==> dev.device_class == Some(0x11u8)
                || has_class(dev, 0x11u8)
            &&& k == DeviceKind::Network ==> dev.device_class == Some(0x02u8)
                || has_class(dev, 0x02u8) || dev.device_class == Some(0x0au8)
                || has_class(dev, 0x0au8)
            &&& k == DeviceKind::Audio ==> dev.device_class == Some(0x01u8)
                || has_class(dev, 0x01u8) || dev.device_class == Some(0x10u8)
                || has_class(dev, 0x10u8)
            &&& k == DeviceKind::Keyboard ==> has_hid(dev, 1u8)
            &&& k == DeviceKind::Mouse ==> has_hid(dev, 2u8)
            &&& k == DeviceKind::Wireless ==> dev.device_class == Some(0xe0u8)
                || has_class(dev, 0xe0u8)
            &&& k == DeviceKind::Diagnostic ==> dev.device_class == Some(0xdcu8)
                || has_class(dev, 0xdcu8)
            &&& k == DeviceKind::InputDevice ==> dev.device_class == Some(0x03u8)
                || has_class(dev, 0x03u8)
        }),
{
    best_interface_is_least(dev.interfaces@);
    let s = dev.interfaces@;
    if let Some(k) = best_interface(s) {
        let i = choose|i: int| 0 <= i < s.len() && interface_names(#[trigger] s[i]) == Some(k);
        assert(interface_names(s[i]) == Some(k));
        assert(s[i].class is Some);
    }
}

} // verus!
