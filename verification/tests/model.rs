use usb_probe::double::Double;
use usb_probe::model::{
    BlockDevice, BlockStats, Cable, Confidence, Finding, Host, Identity, IdentityDecoded,
    KernelEvent, KernelLog, KernelLogSource, LinkSpeed, Medium, Outcome, Partner, Pdo, PdoKind,
    PdoRole, PortPowerSupply, PowerDelivery, Report, RoleField, Severity, Snapshot, Subject,
    Throughput, TypecPort, UrbStats, UrbTraffic, UsbDevice, Verdict,
};
use usb_probe::number::Decimal;

fn dec(v: f64) -> Decimal {
    Decimal { micros: (v * 1e6).round() as u64 }
}

fn secs(v: f64) -> Double {
    Double { bits: v.to_bits() }
}

fn empty_snapshot() -> Snapshot {
    Snapshot {
        captured_at_unix_ms: 1_000,
        host: Host {
            kernel_release: Some("6.17.0-test".into()),
            product_name: Some("Laptop 16".into()),
            sys_vendor: Some("Maker".into()),
            typec_drivers: vec!["ucsi_acpi".into()],
        },
        kernel_log: KernelLog {
            source: KernelLogSource::DevKmsg,
            note: None,
            events: Vec::new(),
        },
        ..Snapshot::default()
    }
}

fn device(name: &str, version: &str, mbps: f64, parent: Option<&str>) -> UsbDevice {
    UsbDevice {
        sysfs_name: name.into(),
        sysfs_path: format!("/sys/devices/test/{name}"),
        parent: parent.map(String::from),
        usb_version: Some(version.trim().into()),
        usb_version_num: version.trim().parse().ok().map(dec),
        speed: Some(LinkSpeed::from_mbps(dec(mbps))),
        rx_lanes: Some(1),
        tx_lanes: Some(1),
        ..UsbDevice::default()
    }
}

fn root_hub_version(name: &str, mbps: f64, version: &str) -> UsbDevice {
    UsbDevice {
        is_root_hub: true,
        device_class: Some(0x09),
        ..device(name, version, mbps, None)
    }
}

fn root_hub(name: &str, mbps: f64) -> UsbDevice {
    root_hub_version(name, mbps, if mbps >= 5000.0 { " 3.10" } else { " 2.00" })
}

fn device_at(name: &str, mbps: f64, parent: Option<&str>, bus: u32, address: u32) -> UsbDevice {
    UsbDevice {
        busnum: Some(bus),
        devnum: Some(address),
        ..device(name, if mbps >= 5000.0 { " 3.20" } else { " 2.00" }, mbps, parent)
    }
}

fn events_of(lines: Vec<(Option<f64>, String)>) -> Vec<KernelEvent> {
    let lines = lines
        .into_iter()
        .map(|(at, text)| (at.map(|t| format!("[{t:.6}]")), at.map(secs), text))
        .collect();
    let opts = usb_probe::kernel::Options { include_unclassified: false, limit: 0 };
    usb_probe::kernel::build(KernelLogSource::DevKmsg, lines, opts, None).events
}

fn reset_log(dev: &str, times: usize) -> KernelLog {
    let line = format!("usb {dev}: reset full-speed USB device number 2 using xhci_hcd");
    KernelLog {
        source: KernelLogSource::DevKmsg,
        note: None,
        events: events_of(vec![(None, line); times]),
    }
}

fn urb_stats(bus: u32, address: u32, completions: u64, errors: u64) -> UrbStats {
    let mut stats = UrbStats {
        bus,
        device_address: address,
        completions,
        bytes: completions * 512,
        transport_errors: errors,
        ..UrbStats::default()
    };
    if errors > 0 {
        stats.by_status.insert(-71, errors);
        stats.transport_endpoints.insert(1);
    }
    stats.by_status.insert(0, completions - errors);
    stats
}

fn urb_traffic(window_ms: u64, devices: Vec<UrbStats>) -> UrbTraffic {
    UrbTraffic {
        window_ms,
        lines_read: devices.iter().map(|d| d.completions).sum(),
        devices,
        unparsed: 0,
        source: Some("/sys/kernel/debug/usb/usbmon/0u".into()),
    }
}

fn fixed(index: u32, role: PdoRole, mv: u32, ma: u32) -> Pdo {
    Pdo {
        index,
        kind: PdoKind::FixedSupply,
        role,
        voltage_mv: Some(mv),
        min_voltage_mv: None,
        max_voltage_mv: None,
        current_ma: Some(ma),
        power_mw_field: None,
        flags: Vec::new(),
        peak_current: None,
        fast_role_swap_current: None,
    }
}

fn sink_of_100w() -> PowerDelivery {
    PowerDelivery {
        name: "pd0".into(),
        revision: Some("3.0".into()),
        source_capabilities: vec![fixed(1, PdoRole::Source, 5_000, 3_000)],
        sink_capabilities: vec![
            fixed(1, PdoRole::Sink, 5_000, 3_000),
            fixed(2, PdoRole::Sink, 20_000, 5_000),
        ],
    }
}

fn idle_port() -> TypecPort {
    TypecPort {
        name: "port0".into(),
        sysfs_path: "/sys/class/typec/port0".into(),
        data_role: Some(RoleField::parse("[host] device")),
        power_role: Some(RoleField::parse("source [sink]")),
        port_type: Some(RoleField::parse("[dual] source sink")),
        power_operation_mode: Some("default".into()),
        local_pd: Some(sink_of_100w()),
        ..TypecPort::default()
    }
}

fn contract(mv: u32, ma: u32, ma_max: u32) -> PortPowerSupply {
    PortPowerSupply {
        name: "ucsi-source-psy-USBC000:001".into(),
        online: Some(true),
        voltage_now_mv: Some(mv),
        current_now_ma: Some(ma),
        voltage_min_mv: Some(5_000),
        voltage_max_mv: Some(21_000),
        current_max_ma: Some(ma_max),
        usb_type: Some(RoleField::parse("C [PD] PD_PPS")),
    }
}

fn charger_port(source: Vec<Pdo>, supply: PortPowerSupply) -> TypecPort {
    TypecPort {
        power_operation_mode: Some("usb_power_delivery".into()),
        pd_revision: Some("3.0".into()),
        partner: Some(Partner {
            sysfs_name: "port0-partner".into(),
            supports_pd: Some(true),
            pd_revision: Some("3.0".into()),
            pd: Some(PowerDelivery {
                name: "pd1".into(),
                revision: Some("3.0".into()),
                source_capabilities: source,
                sink_capabilities: Vec::new(),
            }),
            ..Partner::default()
        }),
        power_supply: Some(supply),
        ..idle_port()
    }
}

fn charging_port(offer_mw: u32, cable_ma: Option<u32>, mv: u32, ma: u32) -> TypecPort {
    let source = vec![
        fixed(1, PdoRole::Source, 5_000, 3_000),
        fixed(2, PdoRole::Source, 20_000, offer_mw / 20),
    ];
    TypecPort {
        cable: cable_ma.map(|rated| Cable {
            sysfs_name: "port0-cable".into(),
            kind: Some("passive".into()),
            plug_type: Some("type-c".into()),
            pd_revision: Some("3.0".into()),
            identity: Some(Identity {
                decoded: IdentityDecoded {
                    cable_current_ma: Some(rated),
                    cable_max_voltage_mv: Some(20_000),
                    ..IdentityDecoded::default()
                },
                ..Identity::default()
            }),
        }),
        ..charger_port(source, contract(mv, ma, ma))
    }
}

#[test]
fn a_disk_is_owned_by_the_deepest_device_in_its_path() {
    let mut snap = empty_snapshot();
    let mut bus = root_hub("usb4", 5000.0);
    bus.children
        .push(device("4-1", "3.00", 5000.0, Some("usb4")));
    snap.buses.push(bus);
    snap.block_devices.push(BlockDevice {
        name: "sdb".into(),
        sysfs_path: "/sys/devices/pci/usb4/4-1/host1/block/sdb".into(),
        model: None,
        vendor: None,
        size_bytes: None,
        rotational: None,
        removable: Some(true),
        stats: None,
        throughput: None,
        scsi: None,
        scsi_delta: None,
    });
    let owner = snap.owner_of(&snap.block_devices[0]).expect("an owner");
    assert_eq!(owner.sysfs_name, "4-1");
}

#[test]
fn fingerprint_ignores_time_and_io_counters() {
    let mut a = empty_snapshot();
    a.buses.push(root_hub("usb1", 5000.0));
    a.block_devices.push(BlockDevice {
        name: "sdb".into(),
        sysfs_path: String::from("/sys/devices/test/usb1/block/sdb"),
        model: None,
        vendor: None,
        size_bytes: Some(1_000_000),
        rotational: Some(false),
        removable: Some(true),
        stats: None,
        throughput: None,
        scsi: None,
        scsi_delta: None,
    });

    let mut b = a.clone();
    b.captured_at_unix_ms = 99_999;
    b.uptime_s = Some(secs(1234.5));
    b.block_devices[0].stats = Some(BlockStats {
        read_ios: 10,
        sectors_read: 5_000_000,
        ms_reading: 40,
        write_ios: 2,
        sectors_written: 900,
        ms_writing: 3,
        ios_in_flight: 1,
        sampled_at_unix_ms: 99_999,
    });
    b.block_devices[0].throughput = Some(Throughput {
        read_bps: dec(4.5e8),
        write_bps: dec(0.0),
        interval_ms: 1000,
    });

    assert_eq!(a.fingerprint(), b.fingerprint());
}

#[test]
fn fingerprint_changes_when_something_is_plugged_in() {
    let mut a = empty_snapshot();
    a.buses.push(root_hub("usb1", 5000.0));
    let before = a.fingerprint();

    a.buses[0]
        .children
        .push(device("1-1", "3.20", 5000.0, Some("usb1")));
    assert_ne!(before, a.fingerprint(), "a new device must be noticed");
}

#[test]
fn fingerprint_changes_when_the_contract_changes() {
    let mut a = empty_snapshot();
    a.ports.push(charging_port(100_000, Some(5000), 20_000, 3000));
    let before = a.fingerprint();

    // Same charger, renegotiated down to 15 V.
    if let Some(ps) = a.ports[0].power_supply.as_mut() {
        ps.voltage_now_mv = Some(15_000);
    }
    assert_ne!(before, a.fingerprint(), "a new contract must be noticed");
}

#[test]
fn fingerprint_changes_when_the_kernel_logs_something_new() {
    let mut a = empty_snapshot();
    a.buses.push(root_hub("usb1", 5000.0));
    let before = a.fingerprint();

    a.kernel_log = reset_log("1-1", 3);
    assert_ne!(before, a.fingerprint());
}

#[test]
fn the_ancestor_walk_climbs_to_the_root_hub_and_stops() {
    let mut snap = empty_snapshot();
    let mut bus = root_hub("usb6", 10_000.0);
    bus.children
        .push(device("6-1", " 3.20", 5000.0, Some("usb6")));
    snap.buses.push(bus);

    let name = |d: Option<&UsbDevice>| d.map(|d| d.sysfs_name.clone());

    // 6-1 is in the tree, so it answers for everything beneath it.
    assert_eq!(
        name(snap.nearest_existing_ancestor("6-1.2")),
        Some("6-1".to_string())
    );
    assert_eq!(
        name(snap.nearest_existing_ancestor("6-1.2.4")),
        Some("6-1".to_string())
    );
    // 6-2 was never there, so the walk carries on up to the root hub.
    assert_eq!(
        name(snap.nearest_existing_ancestor("6-2.1")),
        Some("usb6".to_string())
    );
    // A root hub has no parent, and an unknown bus has no ancestor at all —
    // both must terminate rather than loop.
    assert!(snap.nearest_existing_ancestor("usb6").is_none());
    assert!(snap.nearest_existing_ancestor("9-1").is_none());
}

fn block_at(name: &str, path: &str, rotational: Option<bool>) -> BlockDevice {
    BlockDevice {
        name: name.into(),
        sysfs_path: String::from(path),
        model: None,
        vendor: None,
        size_bytes: Some(62_000_000_000),
        rotational,
        removable: Some(true),
        stats: None,
        throughput: None,
        scsi: None,
        scsi_delta: None,
    }
}

#[test]
fn a_drive_belongs_to_the_device_it_is_plugged_into_only() {
    let mut snap = empty_snapshot();
    let mut bus = root_hub("usb5", 10_000.0);
    bus.sysfs_path = String::from("/sys/devices/pci/usb5");
    let mut hub = device("5-1", " 2.10", 480.0, Some("usb5"));
    hub.sysfs_path = String::from("/sys/devices/pci/usb5/5-1");
    let mut stick = device("5-1.1", " 2.10", 480.0, Some("5-1"));
    stick.sysfs_path = String::from("/sys/devices/pci/usb5/5-1/5-1.1");
    hub.children.push(stick);
    bus.children.push(hub);
    snap.buses.push(bus);
    snap.block_devices.push(block_at(
        "sdb",
        "/sys/devices/pci/usb5/5-1/5-1.1/host2/block/sdb",
        Some(true),
    ));

    let owned = snap.storage_devices();
    assert_eq!(owned.len(), 1, "one drive, one owner");
    assert_eq!(owned[0].0.sysfs_name, "5-1.1");
    assert_eq!(owned[0].0.speed.as_ref().unwrap().mbps, dec(480.0));

    // The broader question still has its answer, for anyone asking what is
    // behind a hub.
    assert_eq!(snap.storage_on(snap.device("5-1").unwrap()).len(), 1);
    assert_eq!(snap.storage_on(snap.device("usb5").unwrap()).len(), 1);
}

#[test]
fn a_subtree_reaches_devices_nested_under_a_root_hub() {
    let mut snap = empty_snapshot();
    let mut bus = root_hub("usb5", 10_000.0);
    let mut hub = device("5-1", " 2.10", 480.0, Some("usb5"));
    hub.children
        .push(device("5-1.1", " 2.10", 480.0, Some("5-1")));
    hub.children
        .push(device("5-1.2", " 2.00", 12.0, Some("5-1")));
    bus.children.push(hub);
    snap.buses.push(bus);
    // A second bus that must never be swept in by mistake.
    snap.buses.push(root_hub("usb4", 10_000.0));

    let names = |n: &str| -> Vec<String> {
        let mut v: Vec<String> = snap
            .subtree(n)
            .iter()
            .map(|d| d.sysfs_name.clone())
            .collect();
        v.sort();
        v
    };
    assert_eq!(names("usb5"), ["5-1", "5-1.1", "5-1.2", "usb5"]);
    assert_eq!(names("5-1"), ["5-1", "5-1.1", "5-1.2"]);
    assert_eq!(names("5-1.1"), ["5-1.1"], "a leaf is its own subtree");
    assert_eq!(names("usb4"), ["usb4"]);
    assert!(names("6-1").is_empty());
}

#[test]
fn scoping_a_report_keeps_only_what_is_under_the_target() {
    let mut snap = empty_snapshot();
    let mut bus = root_hub("usb5", 10_000.0);
    let mut hub = device_at("5-1", 480.0, Some("usb5"), 5, 2);
    hub.children
        .push(device_at("5-1.1", 480.0, Some("5-1"), 5, 3));
    bus.children.push(hub);
    snap.buses.push(bus);
    snap.buses
        .push(device_at("4-1", 5000.0, None, 4, 2));
    snap.urb_traffic = Some(urb_traffic(
        1000,
        vec![
            urb_stats(5, 3, 500, 9),
            urb_stats(4, 2, 500, 4),
        ],
    ));

    let finding = |subject: Subject| Finding {
        code: "X".into(),
        severity: Severity::Medium,
        confidence: Confidence::Inferred,
        subject,
        title: "t".into(),
        detail: "d".into(),
        evidence: vec![],
        suggestion: None,
    };
    let report = Report {
        snapshot: snap,
        findings: vec![
            finding(Subject::Device("5-1.1".into())),
            finding(Subject::Device("4-1".into())),
            finding(Subject::Host),
        ],
        exonerations: vec![
            finding(Subject::Device("5-1.1".into())),
            finding(Subject::Device("4-1".into())),
        ],
        verdicts: vec![
            Verdict {
                subject: Subject::Device("5-1.1".into()),
                outcome: Outcome::Clear,
                headline: Verdict::NOTHING_FOUND.into(),
                because: vec![],
            },
            Verdict {
                subject: Subject::Device("4-1".into()),
                outcome: Outcome::Clear,
                headline: Verdict::NOTHING_FOUND.into(),
                because: vec![],
            },
        ],
    }
    .scoped_to("5-1");

    assert_eq!(report.findings.len(), 1);
    assert_eq!(report.findings[0].subject, Subject::Device("5-1.1".into()));
    let devices = &report.snapshot.urb_traffic.as_ref().unwrap().devices;
    assert_eq!(devices.len(), 1);
    assert_eq!((devices[0].bus, devices[0].device_address), (5, 3));
    // The tree is untouched: what was watched is not what is shown.
    assert!(report.snapshot.device("4-1").is_some());
}

#[test]
fn rotational_is_not_trusted_over_usb() {
    let usb = block_at("sda", "/sys/devices/pci/usb4/4-1/host1/block/sda", Some(true));
    assert!(usb.is_usb_attached());
    assert_eq!(usb.medium(), Medium::Unknown);
    assert_eq!(usb.media_ceiling_bps(), None, "no ceiling from a guess");

    // A bridge that does answer is believed, because answering wrongly is
    // not a failure mode of that page.
    let ssd = block_at("sdc", "/sys/devices/pci/usb4/4-2/host1/block/sdc", Some(false));
    assert_eq!(ssd.medium(), Medium::SolidState);

    // Internal SATA has no such problem.
    let sata = block_at("sdd", "/sys/devices/pci/ata1/host3/block/sdd", Some(true));
    assert!(!sata.is_usb_attached());
    assert_eq!(sata.medium(), Medium::Rotating);
    assert_eq!(sata.media_ceiling_bps(), Some(dec(120e6)));
}

#[test]
fn fingerprint_covers_orphan_pd() {
    let mut a = empty_snapshot();
    let before = a.fingerprint();
    a.orphan_pd.push(PowerDelivery {
        name: "pd9".into(),
        revision: Some("3.0".into()),
        source_capabilities: Vec::new(),
        sink_capabilities: Vec::new(),
    });
    assert_ne!(before, a.fingerprint());
}
