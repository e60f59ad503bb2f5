use usb_probe::drm::{decode_edid, pnp_id, pnp_vendor, read_from, Attributes};

/// The base block of an LG UltraGear, as the monitor emits it.
const ULTRAGEAR: [u8; 128] = [
    0x00, 0xff, 0xff, 0xff, 0xff, 0xff, 0xff, 0x00, 0x1e, 0x6d, 0x65, 0x77,
    0x94, 0xd7, 0x01, 0x00, 0x04, 0x1f, 0x01, 0x03, 0x80, 0x46, 0x27, 0x78,
    0xea, 0xcd, 0xb4, 0xa5, 0x56, 0x50, 0xa1, 0x27, 0x13, 0x50, 0x54, 0x21,
    0x08, 0x00, 0xd1, 0xc0, 0x61, 0x40, 0x01, 0x01, 0x01, 0x01, 0x01, 0x01,
    0x01, 0x01, 0x01, 0x01, 0x01, 0x01, 0x6f, 0xc2, 0x00, 0xa0, 0xa0, 0xa0,
    0x55, 0x50, 0x30, 0x20, 0x35, 0x00, 0xb9, 0x88, 0x21, 0x00, 0x00, 0x1a,
    0x00, 0x00, 0x00, 0xfd, 0x00, 0x30, 0x90, 0x1e, 0xfa, 0x41, 0x00, 0x0a,
    0x20, 0x20, 0x20, 0x20, 0x20, 0x20, 0x00, 0x00, 0x00, 0xfc, 0x00, 0x4c,
    0x47, 0x20, 0x55, 0x4c, 0x54, 0x52, 0x41, 0x47, 0x45, 0x41, 0x52, 0x0a,
    0x00, 0x00, 0x00, 0xff, 0x00, 0x31, 0x30, 0x34, 0x4e, 0x54, 0x4a, 0x4a,
    0x33, 0x4a, 0x37, 0x32, 0x34, 0x0a, 0x01, 0x25,
];

#[test]
fn decodes_a_real_monitor() {
    let id = decode_edid(&ULTRAGEAR).expect("valid base block");
    assert_eq!(id.manufacturer.as_deref(), Some("GSM"));
    assert_eq!(id.manufacturer_name.as_deref(), Some("LG"));
    assert_eq!(id.product_code, Some(0x7765));
    assert_eq!(id.year, Some(2021));
    assert_eq!(id.edid_version.as_deref(), Some("1.3"));
    assert_eq!(id.name.as_deref(), Some("LG ULTRAGEAR"));
    assert_eq!(id.serial_text.as_deref(), Some("104NTJJ3J724"));

    let m = id.preferred_mode.expect("a preferred timing");
    assert_eq!((m.width, m.height), (2560, 1440));
    assert_eq!(m.pixel_clock_khz, 497_750);
    let hz = m.refresh_hz.num as f64 / m.refresh_hz.den as f64;
    assert!((hz - 120.0).abs() < 0.1, "expected ~120 Hz, got {hz}");
    assert_eq!(m.describe(), "2560x1440 @ 120 Hz");
}

#[test]
fn rejects_empty_and_corrupt_edid() {
    assert!(decode_edid(&[]).is_none());
    assert!(decode_edid(&[0u8; 128]).is_none(), "no header");

    let mut broken = ULTRAGEAR;
    broken[60] ^= 0xff; // inside the preferred timing, so the checksum fails
    assert!(
        decode_edid(&broken).is_none(),
        "a bad checksum must not yield a monitor name"
    );
}

fn entry(name: &str) -> Attributes {
    Attributes {
        name: name.into(),
        connector_id: None,
        status: None,
        enabled: None,
        dpms: None,
        modes: None,
        edid: None,
    }
}

#[test]
fn reads_connectors_and_skips_what_is_not_one() {
    let mut entries = vec![
        Attributes {
            connector_id: Some(108),
            status: Some("connected".into()),
            enabled: Some(true),
            dpms: Some("On".into()),
            modes: Some("2560x1440\n1920x1080\n".into()),
            edid: Some(ULTRAGEAR.to_vec()),
            ..entry("card1-HDMI-A-1")
        },
        Attributes {
            status: Some("disconnected".into()),
            enabled: Some(false),
            modes: Some(String::new()),
            edid: Some(Vec::new()),
            ..entry("card1-DP-1")
        },
    ];
    // None of these are connectors.
    for other in ["card1", "renderD128", "card1-Writeback-1", "version"] {
        entries.push(entry(other));
    }

    let c = read_from(&entries);
    assert_eq!(c.len(), 2, "got {:?}", c.iter().map(|c| &c.name).collect::<Vec<_>>());

    assert_eq!(c[0].name, "card1-DP-1");
    assert!(!c[0].is_connected());
    assert!(c[0].display.is_none());

    let h = &c[1];
    assert_eq!(h.connector, "HDMI-A-1");
    assert_eq!(h.connector_id, Some(108));
    assert!(h.is_connected() && h.is_lit());
    assert_eq!(h.modes.len(), 2);
    assert_eq!(h.label(), "LG ULTRAGEAR");
}

#[test]
fn connected_is_not_the_same_as_lit() {
    let read = read_from(&vec![Attributes {
        status: Some("connected".into()),
        enabled: Some(false),
        dpms: Some("Off".into()),
        ..entry("card1-HDMI-A-1")
    }]);
    assert!(read[0].is_connected());
    assert!(!read[0].is_lit());
}

#[test]
fn a_maker_is_three_letters_of_five_bits() {
    assert_eq!(pnp_id(0x1e6d), "GSM");
    assert_eq!(pnp_vendor("DEL"), Some("Dell"));
    assert_eq!(pnp_vendor("ZZZ"), None);
}
