use usb_probe::kind::{classify, rank, DeviceKind, Kind, KindSource};
use usb_probe::model::{Confidence, LinkSpeed, UsbDevice, UsbInterface};
use usb_probe::number::Decimal;

fn dec(v: f64) -> Decimal {
    Decimal { micros: (v * 1e6).round() as u64 }
}

fn device(name: &str, version: &str, mbps: f64, parent: Option<&str>) -> UsbDevice {
    UsbDevice {
        sysfs_name: name.into(),
        sysfs_path: format!("/sys/devices/test/{name}"),
        parent: parent.map(String::from),
        usb_version: Some(version.trim().into()),
        usb_version_num: version.trim().parse().ok().map(dec),
        speed: Some(LinkSpeed::from_mbps(dec(mbps))),
        rx_lanes: Some(1),
        tx_lanes: Some(1),
        ..UsbDevice::default()
    }
}

fn root_hub_version(name: &str, mbps: f64, version: &str) -> UsbDevice {
    UsbDevice {
        is_root_hub: true,
        device_class: Some(0x09),
        ..device(name, version, mbps, None)
    }
}

fn root_hub(name: &str, mbps: f64) -> UsbDevice {
    root_hub_version(name, mbps, if mbps >= 5000.0 { " 3.10" } else { " 2.00" })
}

fn iface(class: u8, protocol: Option<u8>) -> UsbInterface {
    UsbInterface {
        sysfs_name: "x:1.0".into(),
        number: Some(0),
        class: Some(class),
        subclass: Some(0),
        protocol,
        driver: None,
        description: None,
    }
}

fn with(ifaces: Vec<UsbInterface>) -> UsbDevice {
    let mut d = device("1-1", "2.00", 480.0, Some("usb1"));
    d.interfaces = ifaces;
    d
}

#[test]
fn a_title_is_its_label_with_capitals() {
    for k in DeviceKind::ALL {
        let (label, title) = (k.label(), k.title());
        assert_eq!(
            title.to_lowercase(),
            label,
            "{k:?}: title {title:?} is not the same words as label {label:?}"
        );
        assert!(
            title.starts_with(|c: char| c.is_uppercase()),
            "{k:?}: {title:?} does not start with a capital"
        );
        // Sentence-cased instead of title-cased is the likely slip, so name
        // it: every word carries a capital unless it is a word title case
        // leaves alone.
        for word in title.split(' ') {
            let minor = matches!(word, "or" | "and" | "the" | "a" | "of");
            assert_eq!(
                !minor,
                word.starts_with(|c: char| c.is_uppercase()),
                "{k:?}: {word:?} in {title:?}"
            );
        }
    }
}

#[test]
fn a_root_hub_is_a_hub() {
    let hub = root_hub("usb1", 5000.0);
    assert_eq!(classify(&hub).kind, DeviceKind::Hub);
}

#[test]
fn the_device_class_wins_when_it_says_anything() {
    let mut d = with(vec![iface(0x08, None)]);
    d.device_class = Some(0x09);
    assert_eq!(classify(&d).kind, DeviceKind::Hub);
}

#[test]
fn a_per_interface_device_class_defers_to_the_interfaces() {
    let mut d = with(vec![iface(0x08, None)]);
    d.device_class = Some(0x00);
    assert_eq!(classify(&d).kind, DeviceKind::Storage);
}

#[test]
fn miscellaneous_over_vendor_specific_is_a_shrug() {
    let mut d = with(vec![iface(0xff, None)]);
    d.device_class = Some(0xef);
    let k = classify(&d);
    assert_eq!(k.kind, DeviceKind::Unknown);
    assert!(!k.is_known());
    assert_eq!(k.grounds(), None);
}

#[test]
fn hid_reads_its_kind_off_the_protocol_byte() {
    assert_eq!(
        classify(&with(vec![iface(0x03, Some(1))])).kind,
        DeviceKind::Keyboard
    );
    assert_eq!(
        classify(&with(vec![iface(0x03, Some(2))])).kind,
        DeviceKind::Mouse
    );
}

#[test]
fn hid_without_a_boot_protocol_stays_generic() {
    assert_eq!(
        classify(&with(vec![iface(0x03, Some(0))])).kind,
        DeviceKind::InputDevice
    );
}

#[test]
fn a_composite_device_is_named_by_its_most_specific_interface() {
    let d = with(vec![
        iface(0x01, None),       // audio
        iface(0x0e, None),       // video
        iface(0x03, Some(0)),    // HID controls
    ]);
    assert_eq!(classify(&d).kind, DeviceKind::Camera);
}

#[test]
fn the_ranking_is_independent_of_enumeration_order() {
    let a = with(vec![iface(0x0e, None), iface(0x01, None)]);
    let b = with(vec![iface(0x01, None), iface(0x0e, None)]);
    assert_eq!(classify(&a).kind, classify(&b).kind);
}

#[test]
fn a_device_with_no_interfaces_is_unknown() {
    assert_eq!(classify(&with(vec![])).kind, DeviceKind::Unknown);
}

#[test]
fn a_guess_is_never_grounds_for_a_finding() {
    let guessed = Kind {
        kind: DeviceKind::Storage,
        source: KindSource::Heuristic,
    };
    assert_eq!(guessed.grounds(), None);
    assert!(guessed.is_known(), "it is still shown, and may still quieten");
}

#[test]
fn a_user_override_is_grounds_but_never_measured() {
    let declared = Kind {
        kind: DeviceKind::Storage,
        source: KindSource::User,
    };
    assert_eq!(declared.grounds(), Some(DeviceKind::Storage));
    assert_eq!(declared.cap(Confidence::Measured), Confidence::Inferred);
    // It does not *raise* a weaker claim either.
    assert_eq!(declared.cap(Confidence::Heuristic), Confidence::Heuristic);
}

#[test]
fn a_class_derived_kind_may_claim_a_measurement() {
    let k = Kind::class(DeviceKind::Storage);
    assert_eq!(k.cap(Confidence::Measured), Confidence::Measured);
}

#[test]
fn a_guess_caps_everything_to_heuristic() {
    let guessed = Kind {
        kind: DeviceKind::Storage,
        source: KindSource::Heuristic,
    };
    assert_eq!(guessed.cap(Confidence::Measured), Confidence::Heuristic);
}

#[test]
fn an_asserted_kind_is_grounds_for_a_finding() {
    let k = Kind::class(DeviceKind::Storage);
    assert_eq!(k.grounds(), Some(DeviceKind::Storage));
}

#[test]
fn unknown_is_not_grounds_even_when_asserted() {
    assert_eq!(Kind::class(DeviceKind::Unknown).grounds(), None);
}

#[test]
fn only_the_kinds_whose_speed_is_worth_judging_say_so() {
    assert!(DeviceKind::Storage.speed_matters());
    assert!(DeviceKind::Camera.speed_matters());
    assert!(!DeviceKind::Keyboard.speed_matters());
    assert!(!DeviceKind::Hub.speed_matters());
    assert!(!DeviceKind::Unknown.speed_matters());
}

#[test]
fn every_kind_has_a_label_and_a_rank() {
    let all = [
        DeviceKind::Hub,
        DeviceKind::Keyboard,
        DeviceKind::Mouse,
        DeviceKind::InputDevice,
        DeviceKind::Storage,
        DeviceKind::Audio,
        DeviceKind::Camera,
        DeviceKind::Imaging,
        DeviceKind::Printer,
        DeviceKind::Network,
        DeviceKind::SmartcardReader,
        DeviceKind::Billboard,
        DeviceKind::Wireless,
        DeviceKind::Diagnostic,
        DeviceKind::Unknown,
    ];
    let mut ranks: Vec<u8> = all.iter().map(rank).collect();
    ranks.sort_unstable();
    ranks.dedup();
    assert_eq!(ranks.len(), all.len(), "two kinds share a rank");
    assert!(all.iter().all(|k| !k.label().is_empty()));
}
