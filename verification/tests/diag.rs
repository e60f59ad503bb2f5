use usb_probe::diag::{analyze, milliamps, volts, watts};
use usb_probe::double::Double;
use usb_probe::model::{
    AltMode, Battery, BlockDevice, Cable, Confidence, Declaration, DisplayConnector, EventKind,
    Finding, Host, HubPort, Identity, IdentityDecoded, KernelEvent, KernelLog, KernelLogSource,
    LinkSpeed, Medium, Partner, Pdo, PdoKind, PdoRole, PortPowerSupply, PowerDelivery,
    ReenumerationCycle, ReenumerationRun, RoleField, ScsiCounters, ScsiDelta, Severity, Snapshot,
    Subject, ThroughputSample, TypecPort, UrbStats, UrbTraffic, UsbDevice, UsbInterface,
};
use usb_probe::number::{Decimal, Ratio};

fn dec(v: f64) -> Decimal {
    Decimal { micros: (v * 1e6).round() as u64 }
}

fn secs(v: f64) -> Double {
    Double { bits: v.to_bits() }
}

fn ratio(r: Ratio) -> f64 {
    r.num as f64 / r.den as f64
}

fn empty_snapshot() -> Snapshot {
    Snapshot {
        captured_at_unix_ms: 1_000,
        host: Host {
            kernel_release: Some("6.17.0-test".into()),
            product_name: Some("Laptop 16".into()),
            sys_vendor: Some("Maker".into()),
            typec_drivers: vec!["ucsi_acpi".into()],
        },
        kernel_log: KernelLog {
            source: KernelLogSource::DevKmsg,
            note: None,
            events: Vec::new(),
        },
        ..Snapshot::default()
    }
}

fn device(name: &str, version: &str, mbps: f64, parent: Option<&str>) -> UsbDevice {
    UsbDevice {
        sysfs_name: name.into(),
        sysfs_path: format!("/sys/devices/test/{name}"),
        parent: parent.map(String::from),
        usb_version: Some(version.trim().into()),
        usb_version_num: version.trim().parse().ok().map(dec),
        speed: Some(LinkSpeed::from_mbps(dec(mbps))),
        rx_lanes: Some(1),
        tx_lanes: Some(1),
        ..UsbDevice::default()
    }
}

fn root_hub_version(name: &str, mbps: f64, version: &str) -> UsbDevice {
    UsbDevice {
        is_root_hub: true,
        device_class: Some(0x09),
        ..device(name, version, mbps, None)
    }
}

fn root_hub(name: &str, mbps: f64) -> UsbDevice {
    root_hub_version(name, mbps, if mbps >= 5000.0 { " 3.10" } else { " 2.00" })
}

fn device_with_class(name: &str, version: &str, mbps: f64, parent: Option<&str>, class: u8) -> UsbDevice {
    UsbDevice {
        device_class: Some(0x00),
        interfaces: vec![UsbInterface {
            sysfs_name: format!("{name}:1.0"),
            number: Some(0),
            class: Some(class),
            subclass: Some(0),
            protocol: Some(0),
            driver: None,
            description: None,
        }],
        ..device(name, version, mbps, parent)
    }
}

fn device_at(name: &str, mbps: f64, parent: Option<&str>, bus: u32, address: u32) -> UsbDevice {
    UsbDevice {
        busnum: Some(bus),
        devnum: Some(address),
        ..device(name, if mbps >= 5000.0 { " 3.20" } else { " 2.00" }, mbps, parent)
    }
}

fn billboard_device(name: &str, parent: Option<&str>) -> UsbDevice {
    device_with_class(name, " 2.00", 12.0, parent, 0x11)
}

fn with_runtime_pm(mut dev: UsbDevice, control: &str, suspended: f64, delay_ms: i64) -> UsbDevice {
    let connected = 44_280_000u64;
    let asleep = (connected as f64 * suspended) as u64;
    dev.connected_duration_ms = Some(connected);
    dev.runtime_suspended_ms = Some(asleep);
    dev.active_duration_ms = Some(connected - asleep);
    dev.power_control = Some(control.into());
    dev.autosuspend_delay_ms = Some(delay_ms);
    dev
}

fn attached_ago(mut dev: UsbDevice, seconds: f64) -> UsbDevice {
    dev.connected_duration_ms = Some((seconds * 1000.0) as u64);
    dev
}

fn hub_port(name: &str, over_current: u32) -> HubPort {
    HubPort {
        name: name.into(),
        number: Some(1),
        state: Some("configured".into()),
        connect_type: Some("hotplug".into()),
        over_current_count: Some(over_current),
        ..HubPort::default()
    }
}

fn receptacle(location: &str, slow_child: Option<&str>, fast_child: Option<&str>) -> (UsbDevice, UsbDevice) {
    let mut slow = root_hub("usb5", 480.0);
    let mut fast = root_hub("usb6", 10_000.0);
    for (hub, port, child) in [
        (&mut slow, "usb5-port1", slow_child),
        (&mut fast, "usb6-port1", fast_child),
    ] {
        let mut p = hub_port(port, 0);
        p.location = Some(location.into());
        p.child = child.map(String::from);
        hub.ports.push(p);
    }
    (slow, fast)
}

fn events_of(lines: Vec<(Option<f64>, String)>) -> Vec<KernelEvent> {
    let lines = lines
        .into_iter()
        .map(|(at, text)| (at.map(|t| format!("[{t:.6}]")), at.map(secs), text))
        .collect();
    let opts = usb_probe::kernel::Options { include_unclassified: false, limit: 0 };
    usb_probe::kernel::build(KernelLogSource::DevKmsg, lines, opts, None).events
}

fn reset_log(dev: &str, times: usize) -> KernelLog {
    let line = format!("usb {dev}: reset full-speed USB device number 2 using xhci_hcd");
    KernelLog {
        source: KernelLogSource::DevKmsg,
        note: None,
        events: events_of(vec![(None, line); times]),
    }
}

fn ss_uplink_failure_events(bus: u32, retries: usize, trained: bool) -> Vec<KernelEvent> {
    let mut lines = Vec::new();
    if trained {
        lines.push((
            None,
            format!("usb {bus}-1: new SuperSpeed Plus Gen 2x1 USB device number 2 using xhci_hcd"),
        ));
    }
    for _ in 0..retries {
        lines.push((
            None,
            format!("usb usb{bus}-port1: Cannot enable. Maybe the USB cable is bad?"),
        ));
    }
    lines.push((None, format!("usb {bus}-1: device descriptor read/8, error -110")));
    events_of(lines)
}

fn phantom_failure_events(dev: &str, from: f64) -> Vec<KernelEvent> {
    events_of(vec![
        (Some(from), format!("usb {dev}: device descriptor read/64, error -71")),
        (Some(from + 1.0), format!("usb {dev}: device descriptor read/64, error -71")),
        (Some(from + 2.0), format!("usb {dev}: device not accepting address 5, error -71")),
    ])
}

fn urb_stats(bus: u32, address: u32, completions: u64, errors: u64) -> UrbStats {
    let mut stats = UrbStats {
        bus,
        device_address: address,
        completions,
        bytes: completions * 512,
        transport_errors: errors,
        ..UrbStats::default()
    };
    if errors > 0 {
        stats.by_status.insert(-71, errors);
        stats.transport_endpoints.insert(1);
    }
    stats.by_status.insert(0, completions - errors);
    stats
}

fn urb_traffic(window_ms: u64, devices: Vec<UrbStats>) -> UrbTraffic {
    UrbTraffic {
        window_ms,
        lines_read: devices.iter().map(|d| d.completions).sum(),
        devices,
        unparsed: 0,
        source: Some("/sys/kernel/debug/usb/usbmon/0u".into()),
    }
}

fn partner_alt_mode(svid: u16, active: bool) -> AltMode {
    AltMode {
        sysfs_name: "port0-partner.0".into(),
        svid: Some(svid),
        mode: Some(1),
        active: Some(active),
        ..AltMode::default()
    }
}

fn connector(name: &str, status: &str, lit: bool) -> DisplayConnector {
    DisplayConnector {
        name: format!("card1-{name}"),
        connector: name.into(),
        status: Some(status.into()),
        enabled: Some(lit),
        dpms: Some(if lit { "On" } else { "Off" }.into()),
        ..DisplayConnector::default()
    }
}

fn fixed(index: u32, role: PdoRole, mv: u32, ma: u32) -> Pdo {
    Pdo {
        index,
        kind: PdoKind::FixedSupply,
        role,
        voltage_mv: Some(mv),
        min_voltage_mv: None,
        max_voltage_mv: None,
        current_ma: Some(ma),
        power_mw_field: None,
        flags: Vec::new(),
        peak_current: None,
        fast_role_swap_current: None,
    }
}

fn programmable(index: u32, min_mv: u32, max_mv: u32, ma: u32, limited: bool) -> Pdo {
    Pdo {
        kind: PdoKind::ProgrammableSupply,
        voltage_mv: None,
        min_voltage_mv: Some(min_mv),
        max_voltage_mv: Some(max_mv),
        flags: vec![("pps_power_limited".into(), limited)],
        ..fixed(index, PdoRole::Source, 0, ma)
    }
}

fn sink_of_100w() -> PowerDelivery {
    PowerDelivery {
        name: "pd0".into(),
        revision: Some("3.0".into()),
        source_capabilities: vec![fixed(1, PdoRole::Source, 5_000, 3_000)],
        sink_capabilities: vec![
            fixed(1, PdoRole::Sink, 5_000, 3_000),
            fixed(2, PdoRole::Sink, 20_000, 5_000),
        ],
    }
}

fn idle_port() -> TypecPort {
    TypecPort {
        name: "port0".into(),
        sysfs_path: "/sys/class/typec/port0".into(),
        data_role: Some(RoleField::parse("[host] device")),
        power_role: Some(RoleField::parse("source [sink]")),
        port_type: Some(RoleField::parse("[dual] source sink")),
        power_operation_mode: Some("default".into()),
        local_pd: Some(sink_of_100w()),
        ..TypecPort::default()
    }
}

fn contract(mv: u32, ma: u32, ma_max: u32) -> PortPowerSupply {
    PortPowerSupply {
        name: "ucsi-source-psy-USBC000:001".into(),
        online: Some(true),
        voltage_now_mv: Some(mv),
        current_now_ma: Some(ma),
        voltage_min_mv: Some(5_000),
        voltage_max_mv: Some(21_000),
        current_max_ma: Some(ma_max),
        usb_type: Some(RoleField::parse("C [PD] PD_PPS")),
    }
}

fn charger_port(source: Vec<Pdo>, supply: PortPowerSupply) -> TypecPort {
    TypecPort {
        power_operation_mode: Some("usb_power_delivery".into()),
        pd_revision: Some("3.0".into()),
        partner: Some(Partner {
            sysfs_name: "port0-partner".into(),
            supports_pd: Some(true),
            pd_revision: Some("3.0".into()),
            pd: Some(PowerDelivery {
                name: "pd1".into(),
                revision: Some("3.0".into()),
                source_capabilities: source,
                sink_capabilities: Vec::new(),
            }),
            ..Partner::default()
        }),
        power_supply: Some(supply),
        ..idle_port()
    }
}

fn charging_port(offer_mw: u32, cable_ma: Option<u32>, mv: u32, ma: u32) -> TypecPort {
    let source = vec![
        fixed(1, PdoRole::Source, 5_000, 3_000),
        fixed(2, PdoRole::Source, 20_000, offer_mw / 20),
    ];
    TypecPort {
        cable: cable_ma.map(|rated| Cable {
            sysfs_name: "port0-cable".into(),
            kind: Some("passive".into()),
            plug_type: Some("type-c".into()),
            pd_revision: Some("3.0".into()),
            identity: Some(Identity {
                decoded: IdentityDecoded {
                    cable_current_ma: Some(rated),
                    cable_max_voltage_mv: Some(20_000),
                    ..IdentityDecoded::default()
                },
                ..Identity::default()
            }),
        }),
        ..charger_port(source, contract(mv, ma, ma))
    }
}

fn laptop_charger_port_100w() -> TypecPort {
    let source = vec![
        fixed(1, PdoRole::Source, 5_000, 3_000),
        fixed(2, PdoRole::Source, 9_000, 3_000),
        fixed(3, PdoRole::Source, 15_000, 3_000),
        fixed(4, PdoRole::Source, 20_000, 5_000),
        programmable(5, 3_300, 21_000, 5_000, true),
    ];
    charger_port(source, contract(20_000, 5_000, 5_000))
}

fn official_charger_port_65w() -> TypecPort {
    let source = vec![
        fixed(1, PdoRole::Source, 5_000, 3_000),
        fixed(2, PdoRole::Source, 9_000, 3_000),
        fixed(3, PdoRole::Source, 15_000, 3_000),
        fixed(4, PdoRole::Source, 20_000, 3_250),
        programmable(5, 3_300, 21_000, 3_000, false),
    ];
    charger_port(source, contract(20_000, 3_250, 5_720))
}

fn silent_partner() -> Partner {
    Partner {
        sysfs_name: "port0-partner".into(),
        supports_pd: Some(false),
        ..Partner::default()
    }
}

fn sourcing_port_non_pd() -> TypecPort {
    TypecPort {
        power_role: Some(RoleField::parse("[source] sink")),
        partner: Some(silent_partner()),
        ..idle_port()
    }
}

fn sinking_port_no_pd(mode: &str) -> TypecPort {
    TypecPort {
        power_operation_mode: Some(mode.into()),
        partner: Some(silent_partner()),
        ..idle_port()
    }
}

fn codes(f: &[Finding]) -> Vec<&str> {
    f.iter().map(|x| x.code.as_str()).collect()
}

fn measured(mbps: f64, rotational: Option<bool>, bps: f64) -> Snapshot {
    let mut snap = empty_snapshot();
    let mut bus = root_hub("usb4", mbps);
    let mut dev = device("4-1", " 3.20", mbps, Some("usb4"));
    dev.sysfs_path = String::from("/sys/devices/pci/usb4/4-1");
    bus.children.push(dev);
    snap.buses.push(bus);
    snap.block_devices.push(BlockDevice {
        name: "sdb".into(),
        sysfs_path: String::from("/sys/devices/pci/usb4/4-1/host1/block/sdb"),
        model: None,
        vendor: None,
        size_bytes: Some(64_000_000_000),
        rotational,
        removable: Some(true),
        stats: None,
        throughput: None,
        scsi: None,
        scsi_delta: None,
    });
    snap.throughput.push(ThroughputSample {
        device: "sdb".into(),
        bytes_read: (bps * 3.0) as u64,
        elapsed_ms: 3000,
        bytes_per_second: Some(dec(bps)),
        contended_bytes: Some(0),
        error: None,
    });
    snap
}

fn cycled(speeds: &[Option<f64>]) -> Snapshot {
    let mut snap = empty_snapshot();
    let mut bus = root_hub("usb4", 5000.0);
    bus.children
        .push(device("4-1", " 3.20", 5000.0, Some("usb4")));
    snap.buses.push(bus);
    snap.reenumeration = Some(ReenumerationRun {
        device: "4-1".into(),
        port: "usb4-port1".into(),
        port_path: "/sys/devices/usb4/4-0:1.0/usb4-port1".into(),
        requested_cycles: speeds.len(),
        error: None,
        cycles: speeds
            .iter()
            .enumerate()
            .map(|(index, mbps)| ReenumerationCycle {
                index,
                returned: mbps.is_some(),
                returned_after_ms: 400,
                speed_mbps: mbps.map(dec),
                rx_lanes: Some(1),
                tx_lanes: Some(1),
                error: mbps.is_none().then(|| "did not come back".into()),
            })
            .collect(),
    });
    snap
}

#[test]
fn a_stable_link_produces_an_informational_result_not_silence() {
    let f = analyze(&cycled(&[Some(5000.0); 20]));
    let hit = f
        .iter()
        .find(|x| x.code == "LINK_STABLE_UNDER_CYCLING")
        .unwrap_or_else(|| panic!("{:?}", codes(&f)));
    assert_eq!(hit.severity, Severity::Info);
    assert!(hit.title.contains("all 20 attempts"), "{}", hit.title);
    // Info must not claim more than it can: cycling cannot clear a cable.
    assert!(hit.detail.contains("does not prove"), "{}", hit.detail);
    assert!(hit.suggestion.is_none(), "nothing to suggest about a pass");
    assert!(!codes(&f).contains(&"LINK_INTERMITTENT"));
}

#[test]
fn a_link_that_sometimes_falls_back_is_caught() {
    let mut speeds = vec![Some(5000.0); 17];
    speeds.extend([Some(480.0); 3]);
    let f = analyze(&cycled(&speeds));

    let hit = f.iter().find(|x| x.code == "LINK_INTERMITTENT").unwrap();
    assert_eq!(hit.severity, Severity::Medium);
    assert_eq!(hit.confidence, Confidence::Measured);
    assert!(hit.title.contains("only 17 of 20"), "{}", hit.title);
    // The distribution is the evidence, and both rates must appear.
    let ev = hit.evidence.join(" | ");
    assert!(ev.contains("17 of 20 cycles trained at 5G"), "{ev}");
    assert!(ev.contains("3 of 20 cycles trained at 480M"), "{ev}");
    assert!(!codes(&f).contains(&"LINK_STABLE_UNDER_CYCLING"));
}

#[test]
fn a_device_that_vanishes_is_more_serious_than_one_that_downshifts() {
    let mut speeds = vec![Some(5000.0); 18];
    speeds.extend([None, None]);
    let f = analyze(&cycled(&speeds));

    let hit = f.iter().find(|x| x.code == "LINK_INTERMITTENT").unwrap();
    assert_eq!(hit.severity, Severity::High);
    assert!(
        hit.title.contains("failed to re-appear on 2 of 20"),
        "{}",
        hit.title
    );
    assert!(hit
        .evidence
        .iter()
        .any(|e| e.contains("did not come back at all")));
}

#[test]
fn a_single_cycle_is_never_called_intermittent() {
    for speed in [Some(5000.0), Some(480.0)] {
        let snap = cycled(&[speed]);
        assert!(!snap.reenumeration.as_ref().unwrap().is_intermittent());
        assert!(!codes(&analyze(&snap)).contains(&"LINK_INTERMITTENT"));
    }
}

#[test]
fn an_ordinary_drive_well_under_its_link_rate_is_not_accused() {
    // 110 MB/s on a 5 Gbps link: 24% of the link, and completely normal.
    let f = analyze(&measured(5000.0, None, 110e6));
    assert!(!codes(&f).contains(&"THROUGHPUT_FAR_BELOW_LINK"), "{:?}", codes(&f));

    // 45 MB/s: poor, still above what High-Speed would have given, still
    // explainable by a cheap drive. No accusation.
    let f = analyze(&measured(5000.0, None, 45e6));
    assert!(!codes(&f).contains(&"THROUGHPUT_FAR_BELOW_LINK"), "{:?}", codes(&f));
}

#[test]
fn a_superspeed_link_slower_than_usb2_is_reported() {
    let f = analyze(&measured(5000.0, None, 18e6));
    let hit = f
        .iter()
        .find(|x| x.code == "THROUGHPUT_FAR_BELOW_LINK")
        .unwrap_or_else(|| panic!("{:?}", codes(&f)));
    assert_eq!(hit.confidence, Confidence::Measured);
    assert_eq!(hit.subject, Subject::Device("4-1".into()));
    assert!(hit.title.contains("18.0 MB/s"), "{}", hit.title);
    // The suggestion must point at the only test that settles it.
    assert!(hit.suggestion.as_ref().unwrap().contains("different cable"));
}

#[test]
fn a_high_speed_link_with_an_unknown_medium_is_never_judged() {
    for bps in [30e6, 8e6, 2e6] {
        let f = analyze(&measured(480.0, None, bps));
        assert!(
            !codes(&f).contains(&"THROUGHPUT_FAR_BELOW_LINK"),
            "{bps} B/s judged on a 480 Mbps link: {:?}",
            codes(&f)
        );
    }
}

#[test]
fn a_known_spinning_disk_is_judged_against_its_platter() {
    // 100 MB/s from a rotating disk is healthy, though it is only 22% of
    // the 5 Gbps link. `rotational: Some(true)` alone would be ignored over
    // USB, so this uses the internal-disk path to get a known medium.
    let mut snap = measured(5000.0, Some(true), 100e6);
    snap.block_devices[0].sysfs_path = "/sys/devices/pci/ata1/host1/block/sdb".into();
    assert_eq!(snap.block_devices[0].medium(), Medium::Rotating);
    // Attribution is by path, so the disk is no longer behind the USB
    // device and there is nothing to judge — which is the honest answer for
    // a SATA disk in a USB report.
    assert!(!codes(&analyze(&snap)).contains(&"THROUGHPUT_FAR_BELOW_LINK"));
}

fn scsi(requests: u64, errors: u64, timeouts: u64) -> Snapshot {
    let mut snap = empty_snapshot();
    let mut bus = root_hub("usb4", 5000.0);
    let mut dev = device("4-1", " 3.20", 5000.0, Some("usb4"));
    dev.sysfs_path = String::from("/sys/devices/pci/usb4/4-1");
    bus.children.push(dev);
    snap.buses.push(bus);
    snap.block_devices.push(BlockDevice {
        name: "sdb".into(),
        sysfs_path: String::from("/sys/devices/pci/usb4/4-1/host1/block/sdb"),
        model: Some("Ultra".into()),
        vendor: Some("SanDisk".into()),
        size_bytes: Some(64_000_000_000),
        rotational: None,
        removable: Some(true),
        stats: None,
        throughput: None,
        // The real baseline from this machine: two errors from discovery.
        scsi: Some(ScsiCounters {
            iorequest_cnt: 0x243,
            iodone_cnt: 0x243,
            ioerr_cnt: 2,
            iotmo_cnt: 0,
            sampled_at_unix_ms: 1000,
        }),
        scsi_delta: Some(ScsiDelta {
            requests,
            errors,
            timeouts,
            window_ms: 3000,
        }),
    });
    snap
}

#[test]
fn the_discovery_baseline_is_never_an_accusation() {
    let snap = scsi(4000, 0, 0);
    assert_eq!(snap.block_devices[0].scsi.unwrap().ioerr_cnt, 2);
    assert!(!codes(&analyze(&snap)).contains(&"STORAGE_IO_ERRORS"));
}

#[test]
fn an_unsampled_capture_never_fires_the_rule() {
    let mut snap = scsi(0, 0, 0);
    snap.block_devices[0].scsi_delta = None;
    snap.block_devices[0].scsi = Some(ScsiCounters {
        iorequest_cnt: 100_000,
        iodone_cnt: 90_000,
        ioerr_cnt: 9_000,
        iotmo_cnt: 500,
        sampled_at_unix_ms: 1000,
    });
    assert!(!codes(&analyze(&snap)).contains(&"STORAGE_IO_ERRORS"));
}

#[test]
fn a_timeout_in_the_window_is_high() {
    let f = analyze(&scsi(500, 0, 1));
    let hit = f
        .iter()
        .find(|x| x.code == "STORAGE_IO_ERRORS")
        .unwrap_or_else(|| panic!("{:?}", codes(&f)));
    assert_eq!(hit.severity, Severity::High);
    assert_eq!(hit.subject, Subject::Device("4-1".into()));
    assert!(hit.title.contains("stopped answering"), "{}", hit.title);
}

#[test]
fn the_error_rate_decides_between_low_and_medium() {
    // 5 of 5000 = 0.1%: real, but ordinary.
    let low = analyze(&scsi(5000, 5, 0));
    assert_eq!(
        low.iter().find(|x| x.code == "STORAGE_IO_ERRORS").unwrap().severity,
        Severity::Low
    );
    // 100 of 5000 = 2%: worth acting on.
    let med = analyze(&scsi(5000, 100, 0));
    assert_eq!(
        med.iter().find(|x| x.code == "STORAGE_IO_ERRORS").unwrap().severity,
        Severity::Medium
    );
}

#[test]
fn errors_without_traffic_are_not_judged() {
    assert!(!codes(&analyze(&scsi(0, 3, 0))).contains(&"STORAGE_IO_ERRORS"));
    // ...but a timeout is a timeout whether or not we saw the traffic.
    assert!(codes(&analyze(&scsi(0, 0, 1))).contains(&"STORAGE_IO_ERRORS"));
}

#[test]
fn a_clean_window_says_nothing() {
    assert!(!codes(&analyze(&scsi(20_000, 0, 0))).contains(&"STORAGE_IO_ERRORS"));
}

#[test]
fn the_evidence_says_a_small_nonzero_baseline_is_normal() {
    let f = analyze(&scsi(5000, 100, 0));
    let hit = f.iter().find(|x| x.code == "STORAGE_IO_ERRORS").unwrap();
    assert!(
        hit.evidence.iter().any(|e| e.contains("discovery probes")),
        "{:?}",
        hit.evidence
    );
    // And it must not be confused with the usbmon-derived rule.
    assert!(!codes(&f).contains(&"LINK_ERROR_RATE"));
}

#[test]
fn counters_going_backwards_produce_no_delta() {
    let before = ScsiCounters {
        iorequest_cnt: 5000,
        iodone_cnt: 5000,
        ioerr_cnt: 10,
        iotmo_cnt: 1,
        sampled_at_unix_ms: 1000,
    };
    let after = ScsiCounters {
        iorequest_cnt: 12,
        iodone_cnt: 12,
        ioerr_cnt: 2,
        iotmo_cnt: 0,
        sampled_at_unix_ms: 4000,
    };
    assert_eq!(after.delta(&before), None);
}

#[test]
fn a_delta_reports_its_rate_only_when_there_was_traffic() {
    let d = ScsiDelta {
        requests: 200,
        errors: 4,
        timeouts: 0,
        window_ms: 3000,
    };
    assert_eq!(d.error_rate().map(ratio), Some(0.02));
    assert!(!d.is_clean());

    let idle = ScsiDelta::default();
    assert_eq!(idle.error_rate(), None);
    assert!(idle.is_clean());
}

#[test]
fn a_declared_spinning_disk_gives_the_rule_a_yardstick_it_could_not_read() {
    // 8 MB/s on a High-Speed link: silence, because a cheap flash drive and
    // a bad cable are indistinguishable at these rates.
    let mut snap = measured(480.0, None, 8e6);
    assert!(!codes(&analyze(&snap)).contains(&"THROUGHPUT_FAR_BELOW_LINK"));

    // The user says it is a spinning disk. 8 MB/s from a platter that
    // should sustain ~120 MB/s is now unambiguous.
    snap.buses[0].children[0].declared = Some(Declaration {
        id: "1234:5678".into(),
        unit: false,
        kind: None,
        medium: Some(Medium::Rotating),
        note: None,
    });
    let f = analyze(&snap);
    let hit = f
        .iter()
        .find(|x| x.code == "THROUGHPUT_FAR_BELOW_LINK")
        .unwrap_or_else(|| panic!("{:?}", codes(&f)));

    // A declaration is better evidence than the bus could give and is still
    // not a measurement.
    assert_eq!(hit.confidence, Confidence::Inferred);
    assert!(
        hit.evidence.iter().any(|e| e.contains("declared by you")),
        "the finding must say where the fact came from: {:?}",
        hit.evidence
    );
    assert!(
        hit.evidence.iter().any(|e| e.contains("1234:5678")),
        "and name the label so it can be found and deleted: {:?}",
        hit.evidence
    );
}

#[test]
fn a_declared_spinning_disk_reading_at_platter_speed_is_not_accused() {
    let mut snap = measured(480.0, None, 40e6);
    snap.buses[0].children[0].declared = Some(Declaration {
        id: "1234:5678".into(),
        unit: false,
        kind: None,
        medium: Some(Medium::Rotating),
        note: None,
    });
    // The link itself only allows ~40 MB/s, so the floor is the link, not
    // the platter, and 40 MB/s clears it.
    assert!(!codes(&analyze(&snap)).contains(&"THROUGHPUT_FAR_BELOW_LINK"));
}

#[test]
fn a_contended_measurement_is_never_judged() {
    let mut snap = measured(5000.0, None, 6e6);
    // Uncontended, this would fire.
    assert!(codes(&analyze(&snap)).contains(&"THROUGHPUT_FAR_BELOW_LINK"));

    snap.throughput[0].contended_bytes = Some(500_000_000);
    assert!(snap.throughput[0].was_contended());
    assert!(
        !codes(&analyze(&snap)).contains(&"THROUGHPUT_FAR_BELOW_LINK"),
        "someone else was reading the disk"
    );
}

#[test]
fn a_read_that_dies_partway_is_a_finding_but_one_that_never_started_is_not() {
    let mut snap = measured(5000.0, None, 400e6);
    snap.throughput[0].error = Some("read failed at offset 4194304: Input/output error".into());
    snap.throughput[0].bytes_read = 4_194_304;
    let f = analyze(&snap);
    let hit = f.iter().find(|x| x.code == "STORAGE_READ_FAILED").unwrap();
    assert_eq!(hit.severity, Severity::High);
    assert!(hit.evidence[0].contains("Input/output error"));

    // Nothing read at all: permission, not hardware.
    snap.throughput[0].bytes_read = 0;
    snap.throughput[0].error = Some("Permission denied (os error 13)".into());
    assert!(!codes(&analyze(&snap)).contains(&"STORAGE_READ_FAILED"));
}

#[test]
fn flags_superspeed_device_on_a_usb2_link() {
    let mut snap = empty_snapshot();
    let mut hub = root_hub("usb2", 10000.0);
    hub.children.push(device("2-1", " 3.20", 480.0, Some("usb2")));
    snap.buses.push(hub);

    let f = analyze(&snap);
    let hit = f
        .iter()
        .find(|x| x.code == "LINK_BELOW_DEVICE_CAPABILITY")
        .expect("downshift must be reported");
    assert_eq!(hit.severity, Severity::High);
    assert_eq!(hit.confidence, Confidence::Inferred);
    assert!(hit.suggestion.as_deref().unwrap().contains("cable"));
}

#[test]
fn blames_the_upstream_hub_rather_than_the_cable() {
    let mut snap = empty_snapshot();
    let mut hub = root_hub("usb2", 10000.0);
    let mut mid = device("2-1", " 2.10", 480.0, Some("usb2"));
    mid.children
        .push(device("2-1.1", " 3.20", 480.0, Some("2-1")));
    hub.children.push(mid);
    snap.buses.push(hub);

    let f = analyze(&snap);
    let hit = f
        .iter()
        .find(|x| {
            x.code == "LINK_BELOW_DEVICE_CAPABILITY"
                && x.subject == Subject::Device("2-1.1".into())
        })
        .unwrap();
    // Downgraded, because a USB 2.0 hub upstream fully explains it.
    assert_eq!(hit.severity, Severity::Medium);
    assert!(hit.detail.contains("upstream link is itself USB 2.0"));
}

#[test]
fn usb2_device_on_usb2_link_is_not_a_finding() {
    let mut snap = empty_snapshot();
    let mut hub = root_hub("usb1", 480.0);
    hub.children
        .push(device("1-1", " 2.10", 480.0, Some("usb1")));
    snap.buses.push(hub);
    assert!(!codes(&analyze(&snap)).contains(&"LINK_BELOW_DEVICE_CAPABILITY"));
}

#[test]
fn root_hubs_are_exempt_from_link_rules() {
    let mut snap = empty_snapshot();
    // A USB 3.1 root hub reporting 480 would otherwise look like a downshift.
    snap.buses.push(root_hub_version("usb2", 480.0, " 3.10"));
    assert!(!codes(&analyze(&snap)).contains(&"LINK_BELOW_DEVICE_CAPABILITY"));
}

#[test]
fn internal_devices_are_not_blamed_on_cables() {
    let mut snap = empty_snapshot();
    let mut hub = root_hub("usb3", 480.0);
    let mut dev = device("3-4", " 2.00", 12.0, Some("usb3"));
    dev.removable = Some("fixed".into());
    hub.children.push(dev);
    snap.buses.push(hub);
    snap.kernel_log = reset_log("3-4", 21);

    let f = analyze(&snap);
    let hit = f.iter().find(|x| x.code == "DEVICE_RESET_STORM").unwrap();
    assert_eq!(hit.severity, Severity::Low, "21 resets on an internal device is routine");
    assert!(hit.detail.contains("internal device"));
    assert!(
        !hit.suggestion.as_deref().unwrap_or("").contains("another cable"),
        "must not advise swapping a nonexistent cable"
    );
}

#[test]
fn internal_device_link_downshift_does_not_blame_a_cable() {
    let mut snap = empty_snapshot();
    let mut hub = root_hub("usb2", 10000.0);
    let mut dev = device("2-1", " 3.20", 480.0, Some("usb2"));
    dev.removable = Some("fixed".into());
    hub.children.push(dev);
    snap.buses.push(hub);

    let hit = analyze(&snap)
        .into_iter()
        .find(|x| x.code == "LINK_BELOW_DEVICE_CAPABILITY")
        .unwrap();
    assert_eq!(hit.severity, Severity::Low);
    assert!(hit.detail.contains("no cable to swap"));
}

#[test]
fn autosuspend_churn_explains_a_reset_storm_as_measured() {
    let mut snap = empty_snapshot();
    let mut hub = root_hub("usb3", 480.0);
    let dev = with_runtime_pm(
        device("3-4", " 2.00", 12.0, Some("usb3")),
        "auto",
        0.998,
        2000,
    );
    hub.children.push(dev);
    snap.buses.push(hub);
    snap.kernel_log = reset_log("3-4", 21);

    let hit = analyze(&snap)
        .into_iter()
        .find(|x| x.code == "DEVICE_RESET_STORM")
        .unwrap();
    assert_eq!(hit.severity, Severity::Low);
    assert_eq!(
        hit.confidence,
        Confidence::Measured,
        "the accounting proves the cause rather than guessing it"
    );
    assert!(hit.detail.contains("99.8%"));
    assert!(hit.detail.contains("2000 ms"));
    assert!(hit.evidence.iter().any(|e| e.contains("control=auto")));
}

#[test]
fn resets_without_autosuspend_remain_suspicious() {
    let mut snap = empty_snapshot();
    let mut hub = root_hub("usb3", 480.0);
    // control=on and never suspended, like the Bluetooth radio.
    let dev = with_runtime_pm(
        device("3-9", " 2.10", 480.0, Some("usb3")),
        "on",
        0.0,
        2000,
    );
    hub.children.push(dev);
    snap.buses.push(hub);
    snap.kernel_log = reset_log("3-9", 21);

    let hit = analyze(&snap)
        .into_iter()
        .find(|x| x.code == "DEVICE_RESET_STORM")
        .unwrap();
    assert_eq!(hit.severity, Severity::High);
    assert!(hit.detail.contains("marginal connection"));
}

#[test]
fn measured_churn_outranks_the_internal_device_heuristic() {
    let mut snap = empty_snapshot();
    let mut hub = root_hub("usb3", 480.0);
    let mut dev = with_runtime_pm(
        device("3-4", " 2.00", 12.0, Some("usb3")),
        "auto",
        0.998,
        2000,
    );
    dev.removable = Some("fixed".into());
    hub.children.push(dev);
    snap.buses.push(hub);
    snap.kernel_log = reset_log("3-4", 21);

    let hit = analyze(&snap)
        .into_iter()
        .find(|x| x.code == "DEVICE_RESET_STORM")
        .unwrap();
    assert_eq!(hit.confidence, Confidence::Measured);
    assert!(hit.detail.contains("Runtime power management accounts for this"));
}

#[test]
fn suspend_ratio_handles_missing_and_zero_values() {
    let d = device("3-1", " 2.00", 480.0, None);
    assert!(d.suspend_ratio().is_none(), "no accounting read");
    assert!(!d.autosuspend_churn());

    let mut d = with_runtime_pm(device("3-1", " 2.00", 480.0, None), "auto", 0.5, 2000);
    assert!((ratio(d.suspend_ratio().unwrap()) - 0.5).abs() < 0.01);
    assert!(!d.autosuspend_churn(), "50% is not churn");

    d.connected_duration_ms = Some(0);
    assert!(d.suspend_ratio().is_none(), "must not divide by zero");
}

#[test]
fn escalates_on_repeated_resets() {
    let mut snap = empty_snapshot();
    snap.buses.push({
        let mut h = root_hub("usb3", 480.0);
        // Explicitly removable, so the internal-device branch is not taken.
        let mut d = device("3-4", " 1.10", 12.0, Some("usb3"));
        d.removable = Some("removable".into());
        h.children.push(d);
        h
    });

    snap.kernel_log = reset_log("3-4", 4);
    let f = analyze(&snap);
    let hit = f.iter().find(|x| x.code == "DEVICE_RESET_STORM").unwrap();
    assert_eq!(hit.severity, Severity::Medium);

    snap.kernel_log = reset_log("3-4", 14);
    let f = analyze(&snap);
    let hit = f.iter().find(|x| x.code == "DEVICE_RESET_STORM").unwrap();
    assert_eq!(hit.severity, Severity::High);
    assert!(hit.title.contains("14 times"));

    // Below the threshold, resets are noise.
    snap.kernel_log = reset_log("3-4", 2);
    assert!(!codes(&analyze(&snap)).contains(&"DEVICE_RESET_STORM"));
}

#[test]
fn reports_a_3a_cable_capping_a_100w_charger() {
    let mut snap = empty_snapshot();
    snap.ports.push(charging_port(
        /* offer_mw */ 100_000,
        /* cable_current_ma */ Some(3000),
        /* contract_v */ 20_000,
        /* contract_i */ 3000,
    ));
    let f = analyze(&snap);
    let hit = f.iter().find(|x| x.code == "CABLE_CURRENT_LIMIT").unwrap();
    assert_eq!(hit.confidence, Confidence::Measured);
    assert!(hit.title.contains("60 W"));
    assert!(matches!(hit.subject, Subject::Cable(_)));
}

#[test]
fn a_5a_cable_on_a_100w_charger_is_clean() {
    let mut snap = empty_snapshot();
    snap.ports
        .push(charging_port(100_000, Some(5000), 20_000, 5000));
    let f = analyze(&snap);
    assert!(!codes(&f).contains(&"CABLE_CURRENT_LIMIT"));
    assert!(!codes(&f).contains(&"PD_CONTRACT_BELOW_OFFER"));
}

#[test]
fn reports_contract_far_below_offer() {
    let mut snap = empty_snapshot();
    // 100 W offered, 15 W taken.
    snap.ports
        .push(charging_port(100_000, Some(3000), 5000, 3000));
    let f = analyze(&snap);
    let hit = f
        .iter()
        .find(|x| x.code == "PD_CONTRACT_BELOW_OFFER")
        .unwrap();
    assert!(hit.title.contains("100 W"));
    assert!(hit.evidence.iter().any(|e| e.contains("cable")));
}

#[test]
fn missing_emarker_is_reported_as_info_only() {
    let mut snap = empty_snapshot();
    snap.ports.push(charging_port(60_000, None, 20_000, 3000));
    let f = analyze(&snap);
    let hit = f.iter().find(|x| x.code == "CABLE_NOT_EMARKED").unwrap();
    assert_eq!(hit.severity, Severity::Info);
    assert_eq!(hit.confidence, Confidence::Heuristic);
}

#[test]
fn sourcing_to_a_non_pd_device_is_explained_not_alarmed() {
    let mut snap = empty_snapshot();
    snap.ports.push(sourcing_port_non_pd());
    let f = analyze(&snap);

    let hit = f.iter().find(|x| x.code == "PARTNER_NO_PD").unwrap();
    assert_eq!(hit.severity, Severity::Info);
    assert_eq!(hit.confidence, Confidence::Measured);
    assert!(hit.title.contains("5 V only"));
    assert!(hit.detail.contains("CC resistor"), "should say why");

    // The cable's rating cannot matter at 5 V for a non-PD device.
    assert!(!codes(&f).contains(&"CABLE_NOT_EMARKED"));
    // Sink-side power comparisons are meaningless while sourcing.
    assert!(!codes(&f).contains(&"PD_CONTRACT_BELOW_OFFER"));
    assert!(!codes(&f).contains(&"PD_SOURCE_BELOW_SINK_CAPABILITY"));
    assert!(!codes(&f).contains(&"PD_NO_CONTRACT"));
    assert!(
        f.iter().all(|x| x.severity <= Severity::Info),
        "a working watch charger must not produce warnings"
    );
}

#[test]
fn a_fully_negotiated_100w_charger_is_clean() {
    let mut snap = empty_snapshot();
    let port = laptop_charger_port_100w();

    // The power-limited PPS APDO must not inflate the advertised maximum.
    let pd = port.partner.as_ref().unwrap().pd.as_ref().unwrap();
    assert_eq!(
        pd.max_source_power_mw(),
        Some(100_000),
        "power-limited PPS must not count as 105 W"
    );
    // The contract is now x now, not max x max.
    assert_eq!(
        port.power_supply.as_ref().unwrap().contract_power_mw(),
        Some(100_000)
    );

    snap.ports.push(port);
    let f = analyze(&snap);
    assert!(
        !codes(&f).contains(&"PD_CONTRACT_BELOW_OFFER"),
        "a full-power contract must not be reported as short: {:?}",
        codes(&f)
    );
    assert!(!codes(&f).contains(&"PD_NO_CONTRACT"));
    assert!(!codes(&f).contains(&"PD_SOURCE_BELOW_SINK_CAPABILITY"));
    assert!(
        f.iter().all(|x| x.severity <= Severity::Info),
        "healthy charging must not warn: {:?}",
        f.iter().map(|x| (&x.code, x.severity)).collect::<Vec<_>>()
    );
}

#[test]
fn a_5a_contract_proves_the_cable_is_emarked() {
    let mut snap = empty_snapshot();
    snap.ports.push(laptop_charger_port_100w());
    let f = analyze(&snap);

    let hit = f
        .iter()
        .find(|x| x.code == "CABLE_EMARKER_NOT_REPORTED")
        .expect("a >3 A contract with no cable node must be explained");
    assert_eq!(hit.confidence, Confidence::Inferred);
    assert_eq!(hit.severity, Severity::Info);
    assert!(hit.title.contains("5 A"));
    // Must not claim the cable is limiting anything.
    assert!(!codes(&f).contains(&"CABLE_NOT_EMARKED"));
    assert!(!codes(&f).contains(&"CABLE_CURRENT_LIMIT"));
}

#[test]
fn a_fully_negotiated_65w_charger_is_clean_and_does_not_overclaim() {
    let mut snap = empty_snapshot();
    let port = official_charger_port_65w();

    let pd = port.partner.as_ref().unwrap().pd.as_ref().unwrap();
    assert_eq!(
        pd.max_source_power_mw(),
        Some(65_000),
        "the 63 W PPS must not displace the 65 W fixed rail"
    );
    assert_eq!(
        port.power_supply.as_ref().unwrap().contract_power_mw(),
        Some(65_000),
        "contract is now x now, despite current_max reading 5.72 A"
    );

    snap.ports.push(port);
    let f = analyze(&snap);
    assert!(!codes(&f).contains(&"PD_CONTRACT_BELOW_OFFER"));

    let cable = f
        .iter()
        .find(|x| x.code == "CABLE_EMARKER_NOT_REPORTED")
        .unwrap();
    assert!(
        cable.title.contains("3.25 A") && !cable.title.contains("5 A rated"),
        "must not claim a 5 A e-marker at 3.25 A: {}",
        cable.title
    );
    assert!(
        cable.detail.contains("captive"),
        "must offer the captive-cable explanation"
    );

    // A 65 W supply on a 100 W-capable port is worth noting, at Low.
    let gap = f
        .iter()
        .find(|x| x.code == "PD_SOURCE_BELOW_SINK_CAPABILITY")
        .unwrap();
    assert_eq!(gap.severity, Severity::Low);
    assert!(gap.title.contains("65 W") && gap.title.contains("100 W"));
}

#[test]
fn a_5a_contract_is_stated_as_proof() {
    let mut snap = empty_snapshot();
    snap.ports.push(laptop_charger_port_100w());
    let cable = analyze(&snap)
        .into_iter()
        .find(|x| x.code == "CABLE_EMARKER_NOT_REPORTED")
        .unwrap();
    assert!(cable.title.contains("5 A rated"), "{}", cable.title);
    assert!(!cable.detail.contains("captive"));
}

#[test]
fn unmarked_cable_is_reported_when_drawing_power() {
    let mut snap = empty_snapshot();
    snap.ports.push(charging_port(100_000, None, 20_000, 3000));
    assert!(codes(&analyze(&snap)).contains(&"CABLE_NOT_EMARKED"));
}

#[test]
fn pd_capable_partner_without_a_contract_is_caught() {
    let mut snap = empty_snapshot();
    let mut port = charging_port(100_000, Some(5000), 5000, 500);
    port.power_operation_mode = Some("default".into());
    snap.ports.push(port);

    let hit = analyze(&snap)
        .into_iter()
        .find(|x| x.code == "PD_NO_CONTRACT")
        .expect("PD-capable partner with no contract must be reported");
    assert_eq!(hit.severity, Severity::Medium);
}

#[test]
fn detects_a_storage_device_stranded_on_the_usb2_half() {
    let mut snap = empty_snapshot();
    let (mut slow, fast) = receptacle("0x80000001", Some("5-1"), None);
    slow.children
        .push(device_with_class("5-1", " 2.10", 480.0, Some("usb5"), 0x08));
    snap.buses.push(slow);
    snap.buses.push(fast);

    let f = analyze(&snap);
    let hit = f.iter().find(|x| x.code == "SS_HALF_IDLE").unwrap();
    assert_eq!(hit.severity, Severity::Medium);
    assert_eq!(hit.confidence, Confidence::Heuristic);
    assert!(hit.evidence.iter().any(|e| e.contains("0x80000001")));
    assert!(
        hit.evidence.iter().any(|e| e.contains("in fallback also does")),
        "must record that the descriptors cannot settle it"
    );

    // The descriptor-based rule stays silent, which is the whole point.
    assert!(!codes(&f).contains(&"LINK_BELOW_DEVICE_CAPABILITY"));
}

#[test]
fn does_not_fire_for_a_non_storage_device_on_the_usb2_half() {
    let mut snap = empty_snapshot();
    let (mut slow, fast) = receptacle("0x80000001", Some("5-1"), None);
    // 0x03 = HID.
    slow.children
        .push(device_with_class("5-1", " 2.00", 12.0, Some("usb5"), 0x03));
    snap.buses.push(slow);
    snap.buses.push(fast);
    assert!(!codes(&analyze(&snap)).contains(&"SS_HALF_IDLE"));
}

#[test]
fn does_not_fire_when_storage_is_on_the_superspeed_half() {
    let mut snap = empty_snapshot();
    let (slow, mut fast) = receptacle("0x80000001", None, Some("6-1"));
    fast.children
        .push(device_with_class("6-1", " 3.00", 5000.0, Some("usb6"), 0x08));
    snap.buses.push(slow);
    snap.buses.push(fast);
    assert!(!codes(&analyze(&snap)).contains(&"SS_HALF_IDLE"));
}

#[test]
fn rejects_the_firmware_catch_all_location_group() {
    let mut snap = empty_snapshot();
    let (mut slow, fast) = receptacle("0x80000008", Some("5-1"), None);
    slow.children
        .push(device_with_class("5-1", " 2.10", 480.0, Some("usb5"), 0x08));
    // A third port sharing the token makes the group ambiguous.
    let mut extra = root_hub("usb7", 480.0);
    extra.ports.push(hub_port("usb7-port1", 0));
    extra.ports[0].location = Some("0x80000008".into());
    snap.buses.push(slow);
    snap.buses.push(fast);
    snap.buses.push(extra);
    assert!(!codes(&analyze(&snap)).contains(&"SS_HALF_IDLE"));
}

#[test]
fn does_not_fire_on_a_receptacle_with_no_superspeed_half() {
    let mut snap = empty_snapshot();
    // Two USB 2.0 ports sharing a token: no SuperSpeed to be missing.
    let mut a = root_hub("usb5", 480.0);
    let mut b = root_hub("usb7", 480.0);
    a.ports.push(hub_port("usb5-port1", 0));
    a.ports[0].location = Some("0x80000000".into());
    a.ports[0].child = Some("5-1".into());
    b.ports.push(hub_port("usb7-port1", 0));
    b.ports[0].location = Some("0x80000000".into());
    b.ports[0].child = None;
    a.children
        .push(device_with_class("5-1", " 2.10", 480.0, Some("usb5"), 0x08));
    snap.buses.push(a);
    snap.buses.push(b);
    assert!(!codes(&analyze(&snap)).contains(&"SS_HALF_IDLE"));
}

#[test]
fn a_superspeed_half_that_trained_then_failed_reads_as_defective() {
    let mut snap = empty_snapshot();
    let (mut slow, fast) = receptacle("0x80000001", Some("5-1"), None);
    // A hub, not storage — SS_HALF_IDLE would ignore this entirely.
    slow.children
        .push(device_with_class("5-1", " 2.10", 480.0, Some("usb5"), 0x09));
    snap.buses.push(slow);
    snap.buses.push(fast);
    snap.kernel_log.events = ss_uplink_failure_events(6, 85, true);

    let f = analyze(&snap);
    let hit = f.iter().find(|x| x.code == "SS_HALF_FAILED").unwrap();
    assert_eq!(hit.severity, Severity::High);
    assert_eq!(hit.confidence, Confidence::Inferred);
    assert!(
        hit.title.contains("likely defective"),
        "trained-then-failed means the wiring exists: {}",
        hit.title
    );
    assert!(hit.detail.contains("intermittent"));
    // Advice must cover a captive uplink, which cannot be swapped.
    assert!(hit.suggestion.as_deref().unwrap().contains("built-in cable"));
    // The errno is the diagnosis, so it must be spelled out.
    assert!(hit.evidence.iter().any(|e| e.contains("ETIMEDOUT")));
    // 85 "Cannot enable" retries plus the -110 descriptor timeout, all of
    // which are errors on that bus.
    assert!(hit.evidence.iter().any(|e| e.contains("86 error event")));
}

#[test]
fn a_superspeed_half_that_never_trained_reads_as_wrong_cable() {
    let mut snap = empty_snapshot();
    let (mut slow, fast) = receptacle("0x80000001", Some("5-1"), None);
    slow.children
        .push(device_with_class("5-1", " 2.10", 480.0, Some("usb5"), 0x08));
    snap.buses.push(slow);
    snap.buses.push(fast);
    snap.kernel_log.events = ss_uplink_failure_events(6, 12, false);

    let hit = analyze(&snap)
        .into_iter()
        .find(|x| x.code == "SS_HALF_FAILED")
        .unwrap();
    assert!(hit.title.contains("no SuperSpeed wiring"), "{}", hit.title);
    assert!(!hit.detail.contains("intermittent"));
    assert!(hit.suggestion.as_deref().unwrap().contains("Replace the cable"));
}

#[test]
fn ss_half_failed_supersedes_ss_half_idle() {
    let mut snap = empty_snapshot();
    let (mut slow, fast) = receptacle("0x80000001", Some("5-1"), None);
    slow.children
        .push(device_with_class("5-1", " 2.10", 480.0, Some("usb5"), 0x08));
    snap.buses.push(slow);
    snap.buses.push(fast);
    snap.kernel_log.events = ss_uplink_failure_events(6, 85, true);

    let f = analyze(&snap);
    assert!(codes(&f).contains(&"SS_HALF_FAILED"));
    assert!(!codes(&f).contains(&"SS_HALF_IDLE"));
}

#[test]
fn errors_predating_the_current_occupant_are_not_charged_to_it() {
    let mut snap = empty_snapshot();
    snap.uptime_s = Some(secs(64_095.0));

    let (mut slow, fast) = receptacle("0x80000001", Some("5-1"), None);
    // Attached 82 s ago, long after the errors below.
    let mut phone = device_with_class("5-1", " 2.10", 480.0, Some("usb5"), 0x06);
    phone.connected_duration_ms = Some(82_000);
    phone.product = Some("Pixel 9 Pro XL".into());
    slow.children.push(phone);
    snap.buses.push(slow);
    snap.buses.push(fast);

    // The previous occupant's failures, ~1200 s before the phone arrived.
    let mut events = ss_uplink_failure_events(6, 85, true);
    for (i, e) in events.iter_mut().enumerate() {
        e.monotonic_s = Some(secs(62_700.0 + i as f64));
    }
    snap.kernel_log.events = events;

    let f = analyze(&snap);
    assert!(
        !codes(&f).contains(&"SS_HALF_FAILED"),
        "stale errors must not implicate the current device: {:?}",
        codes(&f)
    );
    assert!(!codes(&f).contains(&"KERNEL_BLAMED_CABLE"));
    assert!(!codes(&f).contains(&"DEVICE_FAILED_TO_ENUMERATE"));
}

#[test]
fn errors_after_the_device_attached_are_still_reported() {
    let mut snap = empty_snapshot();
    snap.uptime_s = Some(secs(64_095.0));

    let (mut slow, fast) = receptacle("0x80000001", Some("5-1"), None);
    // Attached two hours ago, well before the errors.
    let mut hub = device_with_class("5-1", " 2.10", 480.0, Some("usb5"), 0x09);
    hub.connected_duration_ms = Some(7_200_000);
    slow.children.push(hub);
    snap.buses.push(slow);
    snap.buses.push(fast);

    let mut events = ss_uplink_failure_events(6, 85, true);
    for (i, e) in events.iter_mut().enumerate() {
        e.monotonic_s = Some(secs(62_700.0 + i as f64));
    }
    snap.kernel_log.events = events;

    let hit = analyze(&snap)
        .into_iter()
        .find(|x| x.code == "SS_HALF_FAILED")
        .expect("errors during this device's attachment are its own");
    assert!(hit.title.contains("likely defective"));
}

#[test]
fn missing_timestamps_keep_the_evidence() {
    let mut snap = empty_snapshot();
    snap.uptime_s = None;
    let (mut slow, fast) = receptacle("0x80000001", Some("5-1"), None);
    slow.children
        .push(device_with_class("5-1", " 2.10", 480.0, Some("usb5"), 0x09));
    snap.buses.push(slow);
    snap.buses.push(fast);
    snap.kernel_log.events = ss_uplink_failure_events(6, 85, true);
    assert!(codes(&analyze(&snap)).contains(&"SS_HALF_FAILED"));
}

#[test]
fn stale_errors_on_an_empty_socket_do_not_fire() {
    let mut snap = empty_snapshot();
    let (slow, fast) = receptacle("0x80000001", None, None);
    snap.buses.push(slow);
    snap.buses.push(fast);
    snap.kernel_log.events = ss_uplink_failure_events(6, 85, true);
    assert!(!codes(&analyze(&snap)).contains(&"SS_HALF_FAILED"));
}

#[test]
fn reports_a_device_that_never_reached_sysfs() {
    let mut snap = empty_snapshot();
    let (slow, fast) = receptacle("0x80000001", None, None);
    snap.buses.push(slow);
    snap.buses.push(fast);
    snap.kernel_log.events = ss_uplink_failure_events(6, 3, true);

    let hit = analyze(&snap)
        .into_iter()
        .find(|x| x.code == "DEVICE_FAILED_TO_ENUMERATE")
        .expect("6-1 is in the log but not the tree");
    assert_eq!(hit.severity, Severity::High);
    assert_eq!(hit.subject, Subject::Device("6-1".into()));
    // Must locate it physically rather than print a bare device path.
    assert!(
        hit.title.contains("SuperSpeed half"),
        "bare device paths are not actionable: {}",
        hit.title
    );
    assert!(hit.evidence.iter().any(|e| e.contains("ETIMEDOUT")));
}

#[test]
fn a_phantom_is_not_charged_to_the_device_now_above_it() {
    let mut snap = empty_snapshot();
    snap.uptime_s = Some(secs(65_700.0));

    let mut bus = root_hub("usb6", 10_000.0);
    // The webcam arrived 102 s ago, i.e. at 65598 s.
    bus.children.push(attached_ago(
        device("6-1", " 3.20", 5000.0, Some("usb6")),
        102.0,
    ));
    snap.buses.push(bus);
    snap.kernel_log.events = phantom_failure_events("6-1.2", 62_776.0);

    let f = analyze(&snap);
    assert!(
        !codes(&f).contains(&"DEVICE_FAILED_TO_ENUMERATE"),
        "events predating the current occupant of 6-1 are not about it: {:?}",
        codes(&f)
    );
}

#[test]
fn a_phantom_below_a_device_that_was_already_there_is_reported() {
    let mut snap = empty_snapshot();
    snap.uptime_s = Some(secs(65_700.0));

    let mut bus = root_hub("usb6", 10_000.0);
    // The hub has been there for an hour; the failures are two minutes old.
    bus.children.push(attached_ago(
        device("6-1", " 3.20", 5000.0, Some("usb6")),
        3600.0,
    ));
    snap.buses.push(bus);
    snap.kernel_log.events = phantom_failure_events("6-1.2", 65_580.0);

    let hit = analyze(&snap)
        .into_iter()
        .find(|x| x.code == "DEVICE_FAILED_TO_ENUMERATE")
        .expect("6-1.2 failed while 6-1 was already attached");
    assert_eq!(hit.severity, Severity::High);
    assert!(hit.evidence.iter().any(|e| e.contains("EPROTO")));
}

fn snapshot_with_traffic(errors: u64, completions: u64) -> Snapshot {
    let mut snap = empty_snapshot();
    let mut bus = root_hub("usb2", 10_000.0);
    bus.children
        .push(device_at("2-1", 5000.0, Some("usb2"), 2, 4));
    snap.buses.push(bus);
    snap.urb_traffic = Some(urb_traffic(
        5000,
        vec![urb_stats(2, 4, completions, errors)],
    ));
    snap
}

#[test]
fn reports_a_measured_transport_error_rate() {
    let snap = snapshot_with_traffic(40, 1000);
    let hit = analyze(&snap)
        .into_iter()
        .find(|f| f.code == "LINK_ERROR_RATE")
        .expect("4% of transfers failing");
    assert_eq!(hit.severity, Severity::High, "4% is not a warning");
    assert_eq!(hit.confidence, Confidence::Measured);
    assert_eq!(hit.subject, Subject::Device("2-1".into()));
    assert!(hit.evidence.iter().any(|e| e.contains("EPROTO")));
    // The advice must be the cheapest test first.
    assert!(hit.suggestion.as_ref().unwrap().contains("cable"));
}

#[test]
fn a_low_but_real_error_rate_is_medium_not_high() {
    let snap = snapshot_with_traffic(5, 1000);
    let hit = analyze(&snap)
        .into_iter()
        .find(|f| f.code == "LINK_ERROR_RATE")
        .expect("0.5% is still elevated");
    assert_eq!(hit.severity, Severity::Medium);
}

#[test]
fn a_clean_or_tiny_sample_says_nothing() {
    for (errors, completions) in [(0, 5000), (2, 5000), (2, 3)] {
        let snap = snapshot_with_traffic(errors, completions);
        assert!(
            !codes(&analyze(&snap)).contains(&"LINK_ERROR_RATE"),
            "{errors} errors in {completions} completions must not fire"
        );
    }
}

#[test]
fn cancellations_and_stalls_never_produce_a_finding() {
    let mut snap = snapshot_with_traffic(0, 2000);
    if let Some(t) = snap.urb_traffic.as_mut() {
        t.devices[0].cancellations = 1500;
        t.devices[0].protocol_errors = 400;
        t.devices[0].by_status.insert(-2, 1500);
        t.devices[0].by_status.insert(-32, 400);
    }
    assert!(!codes(&analyze(&snap)).contains(&"LINK_ERROR_RATE"));
}

#[test]
fn errors_corroborate_without_overclaiming_confidence() {
    let mut snap = empty_snapshot();
    let mut bus = root_hub("usb3", 480.0);
    let mut dev = device_at("3-1", 12.0, Some("usb3"), 3, 7);
    dev = with_runtime_pm(dev, "on", 0.0, 2000);
    bus.children.push(dev);
    snap.buses.push(bus);
    snap.kernel_log = reset_log("3-1", 12);
    snap.urb_traffic = Some(urb_traffic(5000, vec![urb_stats(3, 7, 900, 20)]));

    let f = analyze(&snap);
    let storm = f
        .iter()
        .find(|x| x.code == "DEVICE_RESET_STORM")
        .expect("12 resets with power management ruled out");
    assert!(
        storm.evidence.iter().any(|e| e.contains("corroborated")),
        "{:?}",
        storm.evidence
    );
    // Heuristic -> Inferred, and no further: the errors are measured, but
    // blaming the cable for them is still a deduction.
    assert_eq!(storm.confidence, Confidence::Inferred);

    // Without the traffic the same snapshot yields only a heuristic, which
    // is what makes the upgrade above meaningful rather than incidental.
    let mut bare = snap.clone();
    bare.urb_traffic = None;
    let plain = analyze(&bare)
        .into_iter()
        .find(|x| x.code == "DEVICE_RESET_STORM")
        .unwrap();
    assert_eq!(plain.confidence, Confidence::Heuristic);
    assert!(!plain.evidence.iter().any(|e| e.contains("corroborated")));
}

#[test]
fn no_traffic_sampled_means_no_finding_either_way() {
    let mut snap = empty_snapshot();
    snap.buses.push(root_hub("usb2", 10_000.0));
    assert!(snap.urb_traffic.is_none());
    assert!(!codes(&analyze(&snap)).contains(&"LINK_ERROR_RATE"));
}

#[test]
fn reports_dp_alt_mode_that_produced_no_picture() {
    let mut snap = empty_snapshot();
    let mut port = charging_port(100_000, Some(5000), 20_000, 5000);
    if let Some(p) = port.partner.as_mut() {
        p.alt_modes.push(partner_alt_mode(0xff01, true));
    }
    snap.ports.push(port);
    snap.displays = vec![
        connector("eDP-1", "connected", true),
        connector("DP-1", "disconnected", false),
        connector("DP-2", "disconnected", false),
    ];

    let hit = analyze(&snap)
        .into_iter()
        .find(|f| f.code == "DP_ALT_MODE_NO_OUTPUT")
        .expect("DP mode entered, no DP output live");
    assert_eq!(hit.severity, Severity::Medium);
    assert_eq!(hit.confidence, Confidence::Inferred);
    assert!(hit.evidence.iter().any(|e| e.contains("DP-1, DP-2")));
}

#[test]
fn a_ports_own_alt_mode_list_does_not_accuse_anything() {
    let mut snap = empty_snapshot();
    let mut port = charging_port(100_000, Some(5000), 20_000, 5000);
    // The port claims it; the attached charger reports no modes at all.
    port.alt_modes.push(partner_alt_mode(0xff01, true));
    snap.ports.push(port);
    snap.displays = vec![
        connector("eDP-1", "connected", true),
        connector("DP-1", "disconnected", false),
    ];

    assert!(!codes(&analyze(&snap)).contains(&"DP_ALT_MODE_NO_OUTPUT"));
}

#[test]
fn a_live_displayport_output_settles_the_question() {
    let mut snap = empty_snapshot();
    let mut port = charging_port(100_000, Some(5000), 20_000, 5000);
    if let Some(p) = port.partner.as_mut() {
        p.alt_modes.push(partner_alt_mode(0xff01, true));
    }
    snap.ports.push(port);
    snap.displays = vec![connector("DP-1", "connected", true)];

    assert!(!codes(&analyze(&snap)).contains(&"DP_ALT_MODE_NO_OUTPUT"));
}

#[test]
fn no_displayport_output_and_no_drm_stay_quiet() {
    let mut base = empty_snapshot();
    let mut port = charging_port(100_000, Some(5000), 20_000, 5000);
    if let Some(p) = port.partner.as_mut() {
        p.alt_modes.push(partner_alt_mode(0xff01, true));
    }
    base.ports.push(port);

    let mut hdmi_only = base.clone();
    hdmi_only.displays = vec![connector("HDMI-A-1", "disconnected", false)];
    assert!(!codes(&analyze(&hdmi_only)).contains(&"DP_ALT_MODE_NO_OUTPUT"));

    // displays empty = /sys/class/drm was not readable.
    assert!(!codes(&analyze(&base)).contains(&"DP_ALT_MODE_NO_OUTPUT"));
}

#[test]
fn ss_half_failed_absorbs_the_narrower_findings_for_its_bus() {
    let mut snap = empty_snapshot();
    let (mut slow, fast) = receptacle("0x80000001", Some("5-1"), None);
    slow.children
        .push(device_with_class("5-1", " 2.10", 480.0, Some("usb5"), 0x09));
    snap.buses.push(slow);
    snap.buses.push(fast);
    snap.kernel_log.events = ss_uplink_failure_events(6, 85, true);

    let f = analyze(&snap);
    assert!(codes(&f).contains(&"SS_HALF_FAILED"));
    for absorbed in [
        "KERNEL_BLAMED_CABLE",
        "ENUMERATION_FAILURE",
        "DEVICE_FAILED_TO_ENUMERATE",
    ] {
        assert!(
            !codes(&f).contains(&absorbed),
            "{absorbed} duplicates SS_HALF_FAILED for the same bus"
        );
    }
    assert_eq!(
        f.iter().filter(|x| x.severity >= Severity::High).count(),
        1,
        "one fault, one High finding: {:?}",
        codes(&f)
    );
}

#[test]
fn absorption_does_not_swallow_other_buses() {
    let mut snap = empty_snapshot();
    let (mut slow, fast) = receptacle("0x80000001", Some("5-1"), None);
    slow.children
        .push(device_with_class("5-1", " 2.10", 480.0, Some("usb5"), 0x09));
    snap.buses.push(slow);
    snap.buses.push(fast);

    let mut other = root_hub("usb3", 480.0);
    other
        .children
        .push(device("3-4", " 2.00", 12.0, Some("usb3")));
    snap.buses.push(other);

    snap.kernel_log.events = ss_uplink_failure_events(6, 85, true);
    snap.kernel_log.events.push(KernelEvent {
        kind: EventKind::EnumerationFailure,
        severity: Severity::High,
        device: Some("3-4".into()),
        port: None,
        monotonic_s: None,
        errno: Some(-71),
        timestamp: None,
        text: "usb 3-4: device descriptor read/64, error -71".into(),
    });

    let f = analyze(&snap);
    assert!(codes(&f).contains(&"SS_HALF_FAILED"));
    assert!(
        codes(&f).contains(&"ENUMERATION_FAILURE"),
        "bus 3's fault is unrelated and must survive"
    );
}

#[test]
fn an_intermittent_link_that_recovered_is_described_in_the_right_tense() {
    let mut snap = empty_snapshot();
    let (mut slow, mut fast) = receptacle("0x80000001", Some("5-1"), Some("6-1"));
    slow.children
        .push(device_with_class("5-1", " 2.10", 480.0, Some("usb5"), 0x09));
    // The SuperSpeed half came back up, as the real hub did on reconnection.
    fast.children
        .push(device_with_class("6-1", " 3.20", 10_000.0, Some("usb6"), 0x09));
    snap.buses.push(slow);
    snap.buses.push(fast);
    snap.kernel_log.events = ss_uplink_failure_events(6, 85, true);

    let hit = analyze(&snap)
        .into_iter()
        .find(|x| x.code == "SS_HALF_FAILED")
        .unwrap();
    assert!(
        hit.title.contains("up now") && hit.title.contains("intermittent"),
        "must not claim a working link is down: {}",
        hit.title
    );
    assert!(hit.title.contains("86 times"));
    assert!(hit.evidence.iter().any(|e| e.contains("up right now")));
}

#[test]
fn single_lane_hubs_are_not_reported() {
    let mut snap = empty_snapshot();
    let mut bus = root_hub("usb6", 10_000.0);
    bus.children
        .push(device_with_class("6-1", " 3.20", 10_000.0, Some("usb6"), 0x09));
    snap.buses.push(bus);
    assert!(!codes(&analyze(&snap)).contains(&"LINK_SINGLE_LANE"));
}

#[test]
fn present_devices_are_not_reported_as_phantoms() {
    let mut snap = empty_snapshot();
    let mut hub = root_hub("usb3", 480.0);
    let mut d = device("3-4", " 2.00", 12.0, Some("usb3"));
    d.removable = Some("removable".into());
    hub.children.push(d);
    snap.buses.push(hub);
    snap.kernel_log.events.push(KernelEvent {
        kind: EventKind::EnumerationFailure,
        severity: Severity::High,
        device: Some("3-4".into()),
        port: None,
        monotonic_s: None,
        errno: Some(-71),
        timestamp: None,
        text: "usb 3-4: device descriptor read/64, error -71".into(),
    });

    let f = analyze(&snap);
    assert!(!codes(&f).contains(&"DEVICE_FAILED_TO_ENUMERATE"));
    assert!(codes(&f).contains(&"ENUMERATION_FAILURE"));
}

#[test]
fn reports_a_billboard_device_as_a_failed_alt_mode() {
    let mut snap = empty_snapshot();
    let mut hub = root_hub("usb5", 480.0);
    hub.children.push(billboard_device("5-1.5", Some("usb5")));
    snap.buses.push(hub);

    let hit = analyze(&snap)
        .into_iter()
        .find(|x| x.code == "BILLBOARD_ALT_MODE_FAILED")
        .unwrap();
    assert_eq!(hit.severity, Severity::Medium);
    assert_eq!(hit.confidence, Confidence::Measured);
    assert!(hit.detail.contains("Alternate Mode"));
    assert!(hit.evidence.iter().any(|e| e.contains("0x11")));
}

#[test]
fn an_adapter_with_nothing_attached_is_not_a_fault() {
    let mut snap = empty_snapshot();
    let mut hub = root_hub("usb5", 480.0);
    hub.children.push(billboard_device("5-1.2", Some("usb5")));
    snap.buses.push(hub);
    snap.displays = vec![
        connector("eDP-1", "connected", true),
        connector("DP-1", "disconnected", false),
        connector("HDMI-A-1", "disconnected", false),
    ];

    let hit = analyze(&snap)
        .into_iter()
        .find(|x| x.code == "BILLBOARD_ALT_MODE_FAILED")
        .unwrap();
    assert_eq!(hit.severity, Severity::Low, "an empty socket is not a fault");
    assert!(
        hit.evidence.iter().any(|e| e.contains("nothing for it to drive")),
        "{:?}",
        hit.evidence
    );
    // The advice must not send someone hunting for a cable that is not there.
    let advice = hit.suggestion.as_deref().unwrap();
    assert!(!advice.contains("cable"), "{advice}");
    assert!(advice.contains("Attach a display"), "{advice}");
}

#[test]
fn a_billboard_with_a_display_attached_is_still_a_fault() {
    let mut snap = empty_snapshot();
    let mut hub = root_hub("usb5", 480.0);
    hub.children.push(billboard_device("5-1.2", Some("usb5")));
    snap.buses.push(hub);
    snap.displays = vec![
        connector("eDP-1", "connected", true),
        connector("HDMI-A-1", "connected", true),
    ];

    let hit = analyze(&snap)
        .into_iter()
        .find(|x| x.code == "BILLBOARD_ALT_MODE_FAILED")
        .unwrap();
    assert_eq!(hit.severity, Severity::Medium);
    assert!(hit.suggestion.as_deref().unwrap().contains("cable"));
}

#[test]
fn a_billboard_cannot_outrank_a_working_displayport_output() {
    let mut snap = empty_snapshot();
    let mut hub = root_hub("usb5", 480.0);
    hub.children.push(billboard_device("5-1.2", Some("usb5")));
    snap.buses.push(hub);
    snap.displays = vec![
        connector("eDP-1", "connected", true),
        connector("DP-1", "connected", true),
    ];

    let hit = analyze(&snap)
        .into_iter()
        .find(|x| x.code == "BILLBOARD_ALT_MODE_FAILED")
        .unwrap();
    assert_eq!(hit.severity, Severity::Info);
    assert!(hit.suggestion.is_none(), "there is nothing to suggest");
    assert!(
        hit.evidence.iter().any(|e| e.contains("is working despite")),
        "{:?}",
        hit.evidence
    );

    // A connected-but-dark DisplayPort output is not proof of anything, so
    // the benefit of the doubt does not extend to it.
    snap.displays[1] = connector("DP-1", "connected", false);
    let hit = analyze(&snap)
        .into_iter()
        .find(|x| x.code == "BILLBOARD_ALT_MODE_FAILED")
        .unwrap();
    assert_eq!(hit.severity, Severity::Medium);
}

#[test]
fn ordinary_devices_are_not_billboards() {
    let mut snap = empty_snapshot();
    let mut hub = root_hub("usb5", 480.0);
    hub.children
        .push(device_with_class("5-1", " 2.10", 480.0, Some("usb5"), 0x08));
    snap.buses.push(hub);
    assert!(!codes(&analyze(&snap)).contains(&"BILLBOARD_ALT_MODE_FAILED"));
}

#[test]
fn reports_an_underpowered_sink_and_suppresses_the_info_variant() {
    let mut snap = empty_snapshot();
    snap.ports.push(sinking_port_no_pd("3.0A"));
    let f = analyze(&snap);

    let hit = f
        .iter()
        .find(|x| x.code == "SINK_UNDERPOWERED_NO_PD")
        .unwrap();
    assert_eq!(hit.severity, Severity::Medium);
    assert_eq!(hit.confidence, Confidence::Measured);
    assert!(hit.title.contains("15 W") && hit.title.contains("100 W"));
    assert!(
        hit.detail.contains("CC line"),
        "must name the failed-cable cause, which looks identical from sysfs"
    );
    assert!(
        !codes(&f).contains(&"PARTNER_NO_PD"),
        "the Info variant must not also fire"
    );
}

#[test]
fn underpowered_sink_scales_with_the_advertised_ceiling() {
    for (mode, watts) in [("default", "4.5 W"), ("1.5A", "7.5 W"), ("3.0A", "15 W")] {
        let mut snap = empty_snapshot();
        snap.ports.push(sinking_port_no_pd(mode));
        let hit = analyze(&snap)
            .into_iter()
            .find(|x| x.code == "SINK_UNDERPOWERED_NO_PD")
            .unwrap_or_else(|| panic!("no finding for mode {mode}"));
        assert!(hit.title.contains(watts), "mode {mode}: {}", hit.title);
    }
}

#[test]
fn sourcing_is_never_an_underpowered_sink() {
    let mut snap = empty_snapshot();
    snap.ports.push(sourcing_port_non_pd());
    let f = analyze(&snap);
    assert!(!codes(&f).contains(&"SINK_UNDERPOWERED_NO_PD"));
    assert!(codes(&f).contains(&"PARTNER_NO_PD"));
}

#[test]
fn a_pd_capable_partner_is_left_to_pd_no_contract() {
    let mut snap = empty_snapshot();
    let mut port = sinking_port_no_pd("3.0A");
    port.partner.as_mut().unwrap().supports_pd = Some(true);
    snap.ports.push(port);
    let f = analyze(&snap);
    assert!(codes(&f).contains(&"PD_NO_CONTRACT"));
    assert!(!codes(&f).contains(&"SINK_UNDERPOWERED_NO_PD"));
}

#[test]
fn a_negotiated_contract_is_never_underpowered() {
    let mut snap = empty_snapshot();
    snap.ports.push(official_charger_port_65w());
    assert!(!codes(&analyze(&snap)).contains(&"SINK_UNDERPOWERED_NO_PD"));
}

fn battery(status: &str, power_w: f64, pct: u32) -> Battery {
    Battery {
        name: "BAT0".into(),
        status: Some(status.into()),
        capacity_pct: Some(pct),
        energy_now_wh: Some(dec(19.2)),
        energy_full_wh: Some(dec(77.2)),
        energy_full_design_wh: Some(dec(86.0)),
        power_now_w: Some(dec(power_w)),
        voltage_now_v: Some(dec(15.2)),
        cycle_count: Some(133),
    }
}

#[test]
fn charging_with_zero_flow_on_mains_is_reported() {
    let mut snap = empty_snapshot();
    snap.mains_online = Some(true);
    snap.batteries.push(battery("Charging", 0.0, 25));

    let hit = analyze(&snap)
        .into_iter()
        .find(|x| x.code == "BATTERY_DRAINING_ON_AC")
        .unwrap();
    assert_eq!(hit.severity, Severity::Medium);
    assert_eq!(hit.confidence, Confidence::Measured);
    assert!(hit.detail.contains("not a contradiction"));
}

#[test]
fn discharging_on_mains_is_reported() {
    let mut snap = empty_snapshot();
    snap.mains_online = Some(true);
    snap.batteries.push(battery("Discharging", 12.0, 25));
    assert!(codes(&analyze(&snap)).contains(&"BATTERY_DRAINING_ON_AC"));
}

#[test]
fn discharging_off_mains_is_not_a_finding() {
    let mut snap = empty_snapshot();
    snap.mains_online = Some(false);
    snap.batteries.push(battery("Discharging", 12.0, 25));
    assert!(!codes(&analyze(&snap)).contains(&"BATTERY_DRAINING_ON_AC"));
}

#[test]
fn a_battery_that_is_gaining_is_not_a_finding() {
    let mut snap = empty_snapshot();
    snap.mains_online = Some(true);
    snap.batteries.push(battery("Charging", 20.1, 25));
    assert!(!codes(&analyze(&snap)).contains(&"BATTERY_DRAINING_ON_AC"));
}

#[test]
fn the_power_gap_escalates_when_the_battery_is_losing() {
    let mut snap = empty_snapshot();
    snap.mains_online = Some(true);
    snap.ports.push(official_charger_port_65w());

    let quiet = analyze(&snap)
        .into_iter()
        .find(|x| x.code == "PD_SOURCE_BELOW_SINK_CAPABILITY")
        .unwrap();
    assert_eq!(quiet.severity, Severity::Low);
    assert!(quiet.detail.contains("Not a fault"));

    snap.batteries.push(battery("Charging", 0.0, 25));
    let loud = analyze(&snap)
        .into_iter()
        .find(|x| x.code == "PD_SOURCE_BELOW_SINK_CAPABILITY")
        .unwrap();
    assert_eq!(loud.severity, Severity::Medium);
    assert!(loud.detail.contains("running down while plugged in"));
}

#[test]
fn battery_health_and_eta_are_derived_correctly() {
    let b = battery("Charging", 20.0, 25);
    // 77.2 of 86.0 Wh design.
    assert!((100.0 * ratio(b.health_pct().unwrap()) - 89.77).abs() < 0.1);
    // (77.2 - 19.2) / 20 W = 2.9 h.
    assert!((ratio(b.hours_to_full().unwrap()) - 2.9).abs() < 0.05);
    // Not charging -> no ETA.
    let d = battery("Discharging", 20.0, 25);
    assert!(d.hours_to_full().is_none());
}

#[test]
fn unattached_port_yields_no_port_findings() {
    let mut snap = empty_snapshot();
    snap.ports.push(idle_port());
    let f = analyze(&snap);
    assert!(f.iter().all(|x| !matches!(x.subject, Subject::Port(_))));
    assert!(f.iter().all(|x| !matches!(x.subject, Subject::Cable(_))));
}

#[test]
fn over_current_counter_is_reported_as_measured() {
    let mut snap = empty_snapshot();
    let mut hub = root_hub("usb1", 480.0);
    hub.ports.push(hub_port("usb1-port1", 2));
    snap.buses.push(hub);
    let f = analyze(&snap);
    let hit = f
        .iter()
        .find(|x| x.code == "PORT_OVER_CURRENT_COUNT")
        .unwrap();
    assert_eq!(hit.severity, Severity::High);
    assert_eq!(hit.confidence, Confidence::Measured);
}

#[test]
fn findings_are_sorted_strongest_first() {
    let mut snap = empty_snapshot();
    let mut hub = root_hub("usb2", 10000.0);
    hub.children.push(device("2-1", " 3.20", 480.0, Some("usb2")));
    hub.ports.push(hub_port("usb2-port1", 1));
    snap.buses.push(hub);
    snap.ports.push(charging_port(100_000, None, 5000, 3000));

    let f = analyze(&snap);
    let sev: Vec<Severity> = f.iter().map(|x| x.severity).collect();
    let mut sorted = sev.clone();
    sorted.sort_by(|a, b| b.cmp(a));
    assert_eq!(sev, sorted, "findings must be ordered by descending severity");
}

#[test]
fn every_bus_fault_event_produces_a_finding() {
    for (kind, expected) in [
        (EventKind::OverCurrent, "BUS_OVER_CURRENT"),
        (EventKind::InsufficientPower, "BUS_POWER_INSUFFICIENT"),
        (EventKind::InsufficientBandwidth, "BUS_BANDWIDTH_INSUFFICIENT"),
    ] {
        let mut snap = empty_snapshot();
        snap.kernel_log.events.push(KernelEvent {
            kind,
            severity: Severity::Medium,
            device: Some("1-1".into()),
            port: None,
            monotonic_s: None,
            errno: None,
            timestamp: None,
            text: "usb 1-1: synthetic fault".into(),
        });
        assert!(
            codes(&analyze(&snap)).contains(&expected),
            "{kind:?} produced no {expected} finding"
        );
    }
}

#[test]
fn missing_kernel_log_is_surfaced_not_hidden() {
    let mut snap = empty_snapshot();
    snap.kernel_log = KernelLog::unavailable("permission denied".into());
    let f = analyze(&snap);
    assert!(codes(&f).contains(&"KERNEL_LOG_UNAVAILABLE"));
}

#[test]
fn power_formatters_round_sensibly() {
    assert_eq!(watts(100_000), "100 W");
    assert_eq!(watts(65_000), "65 W");
    assert_eq!(watts(7_500), "7.5 W");
    assert_eq!(volts(20_000), "20 V");
    assert_eq!(volts(3_300), "3.3 V");
    assert_eq!(milliamps(3000), "3 A");
    assert_eq!(milliamps(2250), "2.25 A");
}
