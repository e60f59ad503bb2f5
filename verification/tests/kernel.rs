use usb_probe::kernel::{
    build, classify, extract_device, is_usb_related, parse_dmesg_line, parse_journal_line,
    parse_kmsg_record, severity_of, Line, Options,
};
use usb_probe::model::{EventKind, KernelLogSource, Severity};

#[test]
fn parses_kmsg_record() {
    let rec = "6,1234,98765432,-;usb 3-4: reset full-speed USB device number 2 using xhci_hcd\n";
    let (ts, mono, text) = parse_kmsg_record(rec).unwrap();
    assert_eq!(ts.as_deref(), Some("[    98.765432]"));
    assert!((f64::from_bits(mono.unwrap().bits) - 98.765432).abs() < 1e-6);
    assert!(text.starts_with("usb 3-4: reset"));
}

#[test]
fn parses_journal_line() {
    let line = "[62786.165344] host-with-a-long-name kernel: usb 3-4: reset full-speed USB device number 2 using xhci_hcd";
    let (ts, mono, text) = parse_journal_line(line).unwrap();
    assert_eq!(ts.as_deref(), Some("[62786.165344]"));
    assert!((f64::from_bits(mono.unwrap().bits) - 62786.165344).abs() < 1e-6, "monotonic base is what dates events");
    assert_eq!(
        text,
        "usb 3-4: reset full-speed USB device number 2 using xhci_hcd"
    );
}

#[test]
fn parses_dmesg_line() {
    let (ts, mono, text) =
        parse_dmesg_line("[   12.345678] usb 1-1: USB disconnect, device number 2").unwrap();
    assert_eq!(ts.as_deref(), Some("[12.345678]"));
    assert!((f64::from_bits(mono.unwrap().bits) - 12.345678).abs() < 1e-6);
    assert!(text.contains("USB disconnect"));
}

#[test]
fn extracts_device_paths() {
    assert_eq!(extract_device("usb 3-4"), Some("3-4".into()));
    assert_eq!(extract_device("usb 3-5.1"), Some("3-5.1".into()));
    assert_eq!(extract_device("usb 3-4-port2"), Some("3-4".into()));
    assert_eq!(extract_device("usb-storage 3-5:1.0"), Some("3-5".into()));
    assert_eq!(extract_device("hub 3-0:1.0"), Some("usb3".into()));
    assert_eq!(extract_device("usb usb3"), Some("usb3".into()));
    assert_eq!(extract_device("xhci_hcd 0000"), None);
}

#[test]
fn classifies_the_reset_storm_seen_on_this_machine() {
    let (kind, dev, _port) = classify("usb 3-4: reset full-speed USB device number 2 using xhci_hcd");
    assert_eq!(kind, EventKind::DeviceReset);
    assert_eq!(dev.as_deref(), Some("3-4"));
    assert_eq!(severity_of(kind), Severity::Low);
}

#[test]
fn classifies_enumeration_failure_before_reset() {
    let (kind, dev, _port) = classify("usb 2-1: device descriptor read/64, error -71");
    assert_eq!(kind, EventKind::EnumerationFailure);
    assert_eq!(dev.as_deref(), Some("2-1"));
}

#[test]
fn classifies_explicit_cable_blame() {
    let (kind, _, _) = classify(
        "usb usb2-port1: Cannot enable. Maybe the USB cable is bad?",
    );
    assert_eq!(kind, EventKind::CableSuspect);
    assert_eq!(severity_of(kind), Severity::High);
}

#[test]
fn classifies_host_controller_death() {
    let (kind, dev, _port) =
        classify("xhci_hcd 0000:c4:00.4: xHCI host controller not responding, assume dead");
    assert_eq!(kind, EventKind::HostControllerFailure);
    assert_eq!(dev, None);
}

#[test]
fn classifies_power_and_bandwidth_limits() {
    assert_eq!(
        classify("usb 1-1: rejected 1 configuration due to insufficient available bus power").0,
        EventKind::InsufficientPower
    );
    assert_eq!(
        classify("usb 2-1: Not enough bandwidth for new device state").0,
        EventKind::InsufficientBandwidth
    );
}

#[test]
fn ignores_unrelated_lines() {
    assert!(!is_usb_related("wlp194s0: associated"));
    assert!(is_usb_related("usb 3-4: reset"));
    assert!(is_usb_related("ucsi_acpi USBC000:00: PPM init failed"));
}

#[test]
fn unclassified_lines_are_dropped_by_default() {
    let lines = vec![
        (None, None, "usb 3-4: SerialNumber: ABC123".to_string()),
        (None, None, "usb 3-4: reset full-speed USB device number 2".to_string()),
    ];
    let log = build(KernelLogSource::Dmesg, lines.clone(), Options::default(), None);
    assert_eq!(log.events.len(), 1);

    let raw = build(
        KernelLogSource::Dmesg,
        lines,
        Options {
            include_unclassified: true,
            limit: 0,
        },
        None,
    );
    assert_eq!(raw.events.len(), 2);
}

#[test]
fn limit_keeps_the_newest_events() {
    let lines: Vec<Line> = (0..10)
        .map(|i| (None, None, format!("usb 3-{i}: reset full-speed USB device number {i}")))
        .collect();
    let log = build(
        KernelLogSource::Dmesg,
        lines,
        Options {
            include_unclassified: false,
            limit: 3,
        },
        None,
    );
    assert_eq!(log.events.len(), 3);
    assert_eq!(log.events[2].device.as_deref(), Some("3-9"));
}
