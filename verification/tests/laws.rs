use usb_probe::block::stats_at;
use usb_probe::cancel::{rest, Rest};
use usb_probe::chain::{power, stage_for, ChainKind, StageKey};
use usb_probe::diag::units::contract_desc;
use usb_probe::diag::{analyze, conf_rank, report};
use usb_probe::double::{parse_double, Double};
use usb_probe::kernel::{
    build, classify, dmesg_lines, journal_lines, kmsg_step, parse_kmsg_record, Collecting, KmsgNext,
    KmsgRead, Options, Progress,
};
use usb_probe::kind::{DeviceKind, Kind};
use usb_probe::model::errno_meaning;
use usb_probe::model::{
    Battery, Cable, Confidence, Declaration, EventKind, Finding, HexU32, Host, HubPort, Identity,
    IdentityDecoded, KernelEvent, KernelLog, KernelLogSource, LinkSpeed, Partner, Pdo, PdoKind,
    PdoRole, PortPowerSupply, PowerDelivery, ReenumerationCycle, ReenumerationRun, RoleField,
    Snapshot, Subject, Throughput, TypecPort, UrbStats, UrbTraffic, UsbDevice, UsbInterface,
};
use usb_probe::number::{Decimal, Ratio};
use usb_probe::snapshot::parent_path;
use usb_probe::tally::{Endpoints, StatusCounts};
use usb_probe::text::{fill1, fill2, less};

fn dec(v: f64) -> Decimal {
    Decimal { micros: (v * 1e6).round() as u64 }
}

fn secs(v: f64) -> Double {
    Double { bits: v.to_bits() }
}

fn ratio(r: Ratio) -> f64 {
    r.num as f64 / r.den as f64
}

fn empty_snapshot() -> Snapshot {
    Snapshot {
        captured_at_unix_ms: 1_000,
        host: Host {
            kernel_release: Some("6.17.0-test".into()),
            product_name: Some("Laptop 16".into()),
            sys_vendor: Some("Maker".into()),
            typec_drivers: vec!["ucsi_acpi".into()],
        },
        kernel_log: KernelLog {
            source: KernelLogSource::DevKmsg,
            note: None,
            events: Vec::new(),
        },
        ..Snapshot::default()
    }
}

fn device(name: &str, version: &str, mbps: f64, parent: Option<&str>) -> UsbDevice {
    UsbDevice {
        sysfs_name: name.into(),
        sysfs_path: format!("/sys/devices/test/{name}"),
        parent: parent.map(String::from),
        usb_version: Some(version.trim().into()),
        usb_version_num: version.trim().parse().ok().map(dec),
        speed: Some(LinkSpeed::from_mbps(dec(mbps))),
        rx_lanes: Some(1),
        tx_lanes: Some(1),
        ..UsbDevice::default()
    }
}

fn root_hub_version(name: &str, mbps: f64, version: &str) -> UsbDevice {
    UsbDevice {
        is_root_hub: true,
        device_class: Some(0x09),
        ..device(name, version, mbps, None)
    }
}

fn root_hub(name: &str, mbps: f64) -> UsbDevice {
    root_hub_version(name, mbps, if mbps >= 5000.0 { " 3.10" } else { " 2.00" })
}

fn device_with_class(name: &str, version: &str, mbps: f64, parent: Option<&str>, class: u8) -> UsbDevice {
    UsbDevice {
        device_class: Some(0x00),
        interfaces: vec![UsbInterface {
            sysfs_name: format!("{name}:1.0"),
            number: Some(0),
            class: Some(class),
            subclass: Some(0),
            protocol: Some(0),
            driver: None,
            description: None,
        }],
        ..device(name, version, mbps, parent)
    }
}

fn hub_port(name: &str, over_current: u32) -> HubPort {
    HubPort {
        name: name.into(),
        number: Some(1),
        state: Some("configured".into()),
        connect_type: Some("hotplug".into()),
        over_current_count: Some(over_current),
        ..HubPort::default()
    }
}

fn receptacle(location: &str, slow_child: Option<&str>, fast_child: Option<&str>) -> (UsbDevice, UsbDevice) {
    let mut slow = root_hub("usb5", 480.0);
    let mut fast = root_hub("usb6", 10_000.0);
    for (hub, port, child) in [
        (&mut slow, "usb5-port1", slow_child),
        (&mut fast, "usb6-port1", fast_child),
    ] {
        let mut p = hub_port(port, 0);
        p.location = Some(location.into());
        p.child = child.map(String::from);
        hub.ports.push(p);
    }
    (slow, fast)
}

fn events_of(lines: Vec<(Option<f64>, String)>) -> Vec<KernelEvent> {
    let lines = lines
        .into_iter()
        .map(|(at, text)| (at.map(|t| format!("[{t:.6}]")), at.map(secs), text))
        .collect();
    let opts = usb_probe::kernel::Options { include_unclassified: false, limit: 0 };
    usb_probe::kernel::build(KernelLogSource::DevKmsg, lines, opts, None).events
}

fn reset_log(dev: &str, times: usize) -> KernelLog {
    let line = format!("usb {dev}: reset full-speed USB device number 2 using xhci_hcd");
    KernelLog {
        source: KernelLogSource::DevKmsg,
        note: None,
        events: events_of(vec![(None, line); times]),
    }
}

fn urb_stats(bus: u32, address: u32, completions: u64, errors: u64) -> UrbStats {
    let mut stats = UrbStats {
        bus,
        device_address: address,
        completions,
        bytes: completions * 512,
        transport_errors: errors,
        ..UrbStats::default()
    };
    if errors > 0 {
        stats.by_status.insert(-71, errors);
        stats.transport_endpoints.insert(1);
    }
    stats.by_status.insert(0, completions - errors);
    stats
}

fn urb_traffic(window_ms: u64, devices: Vec<UrbStats>) -> UrbTraffic {
    UrbTraffic {
        window_ms,
        lines_read: devices.iter().map(|d| d.completions).sum(),
        devices,
        unparsed: 0,
        source: Some("/sys/kernel/debug/usb/usbmon/0u".into()),
    }
}

fn fixed(index: u32, role: PdoRole, mv: u32, ma: u32) -> Pdo {
    Pdo {
        index,
        kind: PdoKind::FixedSupply,
        role,
        voltage_mv: Some(mv),
        min_voltage_mv: None,
        max_voltage_mv: None,
        current_ma: Some(ma),
        power_mw_field: None,
        flags: Vec::new(),
        peak_current: None,
        fast_role_swap_current: None,
    }
}

fn programmable(index: u32, min_mv: u32, max_mv: u32, ma: u32, limited: bool) -> Pdo {
    Pdo {
        kind: PdoKind::ProgrammableSupply,
        voltage_mv: None,
        min_voltage_mv: Some(min_mv),
        max_voltage_mv: Some(max_mv),
        flags: vec![("pps_power_limited".into(), limited)],
        ..fixed(index, PdoRole::Source, 0, ma)
    }
}

fn sink_of_100w() -> PowerDelivery {
    PowerDelivery {
        name: "pd0".into(),
        revision: Some("3.0".into()),
        source_capabilities: vec![fixed(1, PdoRole::Source, 5_000, 3_000)],
        sink_capabilities: vec![
            fixed(1, PdoRole::Sink, 5_000, 3_000),
            fixed(2, PdoRole::Sink, 20_000, 5_000),
        ],
    }
}

fn idle_port() -> TypecPort {
    TypecPort {
        name: "port0".into(),
        sysfs_path: "/sys/class/typec/port0".into(),
        data_role: Some(RoleField::parse("[host] device")),
        power_role: Some(RoleField::parse("source [sink]")),
        port_type: Some(RoleField::parse("[dual] source sink")),
        power_operation_mode: Some("default".into()),
        local_pd: Some(sink_of_100w()),
        ..TypecPort::default()
    }
}

fn contract(mv: u32, ma: u32, ma_max: u32) -> PortPowerSupply {
    PortPowerSupply {
        name: "ucsi-source-psy-USBC000:001".into(),
        online: Some(true),
        voltage_now_mv: Some(mv),
        current_now_ma: Some(ma),
        voltage_min_mv: Some(5_000),
        voltage_max_mv: Some(21_000),
        current_max_ma: Some(ma_max),
        usb_type: Some(RoleField::parse("C [PD] PD_PPS")),
    }
}

fn charger_port(source: Vec<Pdo>, supply: PortPowerSupply) -> TypecPort {
    TypecPort {
        power_operation_mode: Some("usb_power_delivery".into()),
        pd_revision: Some("3.0".into()),
        partner: Some(Partner {
            sysfs_name: "port0-partner".into(),
            supports_pd: Some(true),
            pd_revision: Some("3.0".into()),
            pd: Some(PowerDelivery {
                name: "pd1".into(),
                revision: Some("3.0".into()),
                source_capabilities: source,
                sink_capabilities: Vec::new(),
            }),
            ..Partner::default()
        }),
        power_supply: Some(supply),
        ..idle_port()
    }
}

fn charging_port(offer_mw: u32, cable_ma: Option<u32>, mv: u32, ma: u32) -> TypecPort {
    let source = vec![
        fixed(1, PdoRole::Source, 5_000, 3_000),
        fixed(2, PdoRole::Source, 20_000, offer_mw / 20),
    ];
    TypecPort {
        cable: cable_ma.map(|rated| Cable {
            sysfs_name: "port0-cable".into(),
            kind: Some("passive".into()),
            plug_type: Some("type-c".into()),
            pd_revision: Some("3.0".into()),
            identity: Some(Identity {
                decoded: IdentityDecoded {
                    cable_current_ma: Some(rated),
                    cable_max_voltage_mv: Some(20_000),
                    ..IdentityDecoded::default()
                },
                ..Identity::default()
            }),
        }),
        ..charger_port(source, contract(mv, ma, ma))
    }
}

fn laptop_charger_port_100w() -> TypecPort {
    let source = vec![
        fixed(1, PdoRole::Source, 5_000, 3_000),
        fixed(2, PdoRole::Source, 9_000, 3_000),
        fixed(3, PdoRole::Source, 15_000, 3_000),
        fixed(4, PdoRole::Source, 20_000, 5_000),
        programmable(5, 3_300, 21_000, 5_000, true),
    ];
    charger_port(source, contract(20_000, 5_000, 5_000))
}

fn codes(f: &[Finding]) -> Vec<&str> {
    f.iter().map(|x| x.code.as_str()).collect()
}

fn run(speeds: &[Option<f64>]) -> ReenumerationRun {
    ReenumerationRun {
        device: "4-1".into(),
        port: "usb4-port1".into(),
        requested_cycles: speeds.len(),
        cycles: speeds
            .iter()
            .enumerate()
            .map(|(index, s)| ReenumerationCycle {
                index,
                returned: s.is_some(),
                speed_mbps: s.map(dec),
                ..ReenumerationCycle::default()
            })
            .collect(),
        ..ReenumerationRun::default()
    }
}

#[test]
fn every_cycle_returns_or_is_lost() {
    let r = run(&[Some(5000.0), None, Some(480.0), Some(5000.0), None]);
    assert_eq!(r.successes(), 3);
    assert_eq!(r.failures(), 2);
    assert_eq!(r.successes() + r.failures(), r.cycles.len());
}

#[test]
fn the_fastest_rate_bounds_every_rate() {
    let r = run(&[Some(480.0), Some(5000.0), None, Some(12.0)]);
    assert_eq!(r.best_mbps(), Some(dec(5000.0)));
    assert_eq!(run(&[None, None]).best_mbps(), None);
}

#[test]
fn speeds_are_counted_slowest_first() {
    let r = run(&[Some(5000.0), Some(480.0), Some(5000.0), Some(10_000.0)]);
    assert_eq!(
        r.speed_distribution(),
        vec![("480M".to_string(), 1), ("5G".to_string(), 2), ("10G".to_string(), 1)]
    );
    assert!(r.is_intermittent());
}

#[test]
fn climbing_a_path_ends() {
    let mut name = "6-1.2.4".to_string();
    let mut steps = Vec::new();
    while let Some(up) = parent_path(&name) {
        steps.push(up.clone());
        name = up;
    }
    assert_eq!(steps, vec!["6-1.2", "6-1", "usb6"]);
    assert_eq!(parent_path("usb6"), None);
}

#[test]
fn a_severity_is_reached_and_not_passed() {
    let mut snap = empty_snapshot();
    snap.ports.push(charging_port(100_000, Some(3000), 20_000, 3000));
    let r = report(snap, Vec::new(), Vec::new());
    let worst = r.worst_severity().unwrap();
    assert!(r.findings.iter().all(|f| f.severity <= worst));
    assert!(r.findings.iter().any(|f| f.severity == worst));
    assert_eq!(report(Snapshot::default(), Vec::new(), Vec::new()).verdict_for(&Subject::Host), None);
}

#[test]
fn arranging_puts_the_surest_of_one_severity_first() {
    let mut snap = empty_snapshot();
    snap.ports.push(laptop_charger_port_100w());
    snap.kernel_log = KernelLog::unavailable("permission denied".into());
    let f = analyze(&snap);
    for w in f.windows(2) {
        assert!(
            w[0].severity > w[1].severity
                || (w[0].severity == w[1].severity
                    && conf_rank(w[0].confidence) <= conf_rank(w[1].confidence)),
            "{:?}",
            codes(&f)
        );
    }
}

#[test]
fn a_confidence_has_its_rank() {
    assert!(conf_rank(Confidence::Measured) < conf_rank(Confidence::Inferred));
    assert!(conf_rank(Confidence::Inferred) < conf_rank(Confidence::Heuristic));
}

#[test]
fn a_new_child_below_a_hub_changes_the_fingerprint() {
    let mut snap = empty_snapshot();
    let mut bus = root_hub("usb5", 480.0);
    bus.children.push(device("5-1", "2.10", 480.0, Some("usb5")));
    snap.buses.push(bus);
    let before = snap.fingerprint();
    snap.buses[0].children[0].children.push(device("5-1.1", "2.00", 12.0, Some("5-1")));
    assert_ne!(before, snap.fingerprint());
}

#[test]
fn a_fingerprint_is_the_same_each_time() {
    let mut snap = empty_snapshot();
    snap.ports.push(charging_port(100_000, Some(5000), 20_000, 5000));
    assert_eq!(snap.fingerprint(), snap.clone().fingerprint());
}

#[test]
fn the_sources_of_a_log_are_tried_in_turn() {
    let opts = usb_probe::kernel::Options::default();
    let line = (None, None, "usb 3-4: reset full-speed USB device number 2".to_string());

    match Collecting::start().answer(opts, Ok(vec![line.clone()])) {
        Progress::Done(log) => {
            assert_eq!(log.source, KernelLogSource::DevKmsg);
            assert_eq!(log.events.len(), 1);
        }
        Progress::Next(_) => panic!("a log that was read is the answer"),
    }

    let mut at = Collecting::start();
    let mut sources = vec![at.source];
    let log = loop {
        match at.answer(opts, Err("Operation not permitted".into())) {
            Progress::Done(log) => break log,
            Progress::Next(next) => {
                at = next;
                sources.push(at.source);
            }
        }
    };
    assert_eq!(
        sources,
        vec![KernelLogSource::DevKmsg, KernelLogSource::Journalctl, KernelLogSource::Dmesg]
    );
    assert_eq!(log.source, KernelLogSource::Unavailable);
    assert!(log.note.unwrap().contains("Operation not permitted"));
}

#[test]
fn the_kernel_blaming_the_cable_outranks_what_else_a_line_says() {
    let (kind, _, port) =
        classify("usb usb2-port1: Cannot enable. Maybe the USB cable is bad? error -110");
    assert_eq!(kind, EventKind::CableSuspect);
    assert_eq!(port.as_deref(), Some("usb2-port1"));
}

#[test]
fn a_number_is_written_in_its_shortest_form() {
    for (micros, text) in [
        (480_000_000, "480"),
        (1_500_000, "1.5"),
        (1, "0.000001"),
        (0, "0"),
        (62_786_165_344, "62786.165344"),
    ] {
        assert_eq!(Decimal { micros }.display(), text);
    }
}

#[test]
fn a_hex_word_reads_back_the_way_it_is_written() {
    for raw in [0u32, 0x2108_2042, u32::MAX] {
        let text = HexU32(raw).display();
        assert_eq!(text.len(), 10);
        assert_eq!(HexU32::parse(&text), Some(HexU32(raw)));
    }
    assert_eq!(HexU32::parse("0xnope"), None);
}

#[test]
fn a_role_field_knows_its_choice() {
    let r = RoleField::parse("source [sink]");
    assert_eq!(r.current.as_deref(), Some("sink"));
    assert_eq!(r.supported, vec!["source", "sink"]);
    assert_eq!(r.display(), "sink");
    assert_eq!(RoleField::parse("a b").display(), "a b");
}

#[test]
fn a_pdo_is_described_in_its_own_terms() {
    assert_eq!(fixed(1, PdoRole::Source, 20_000, 3_250).describe(), "20V @ 3.25A (65 W)");
    assert_eq!(fixed(1, PdoRole::Source, 20_000, 3_250).power_mw(), Some(65_000));
    assert_eq!(programmable(5, 3_300, 21_000, 5_000, true).power_mw(), None);
    assert_eq!(programmable(5, 3_300, 21_000, 3_000, false).power_mw(), Some(63_000));
}

#[test]
fn a_battery_without_its_figures_says_nothing() {
    let b = Battery::default();
    assert_eq!(b.health_pct(), None);
    assert_eq!(b.hours_to_full(), None);
    assert!(!b.not_keeping_up(true));
    let b = Battery {
        energy_now_wh: Some(dec(19.2)),
        energy_full_wh: Some(dec(77.2)),
        energy_full_design_wh: Some(dec(86.0)),
        ..Battery::default()
    };
    assert_eq!(b.deficit_wh(), Some(dec(58.0)));
    assert!((ratio(b.health_pct().unwrap()) - 0.8977).abs() < 0.001);
}

#[test]
fn an_error_number_has_its_meaning() {
    assert!(errno_meaning(-110).unwrap().contains("ETIMEDOUT"));
    assert!(errno_meaning(-71).unwrap().contains("EPROTO"));
    assert_eq!(errno_meaning(-1_000), None);
}

#[test]
fn texts_are_ordered_as_strings_are() {
    for (a, b) in [("5-1", "5-1.1"), ("sda", "sdb"), ("", "a"), ("usb10", "usb2")] {
        assert!(less(a, b));
        assert!(!less(b, a));
        assert!(!less(a, a));
    }
}

#[test]
fn a_template_is_filled_from_left_to_right() {
    assert_eq!(fill2("{} of {}", "3", "20"), "3 of 20");
    assert_eq!(fill1("[{}]", "\u{2713}"), "[\u{2713}]");
}

#[test]
fn a_code_marks_the_stage_it_speaks_of() {
    assert_eq!(
        stage_for("CABLE_CURRENT_LIMIT"),
        Some((ChainKind::Power, StageKey::Cable))
    );
    assert_eq!(stage_for("SOMETHING_NEW"), None);
}

#[test]
fn traffic_adds_up() {
    let t = urb_traffic(2_000, vec![urb_stats(5, 3, 500, 9), urb_stats(4, 2, 250, 0)]);
    assert_eq!(t.total_completions(), 750);
    let s = t.for_address(5, 3).unwrap();
    assert_eq!(s.throughput_bps(2_000), Some(dec(128_000.0)));
    assert_eq!(s.throughput_bps(0), None);
    assert_eq!(ratio(s.transport_error_rate().unwrap()), 0.018);
    assert!(s.error_breakdown()[0].contains("x9"), "{:?}", s.error_breakdown());
    assert!(t.for_address(9, 9).is_none());
}

#[test]
fn a_voltage_range_has_two_ends() {
    let mut ps = contract(20_000, 5_000, 5_000);
    assert_eq!(ps.voltage_range_mv(), Some((5_000, 21_000)));
    ps.voltage_min_mv = Some(0);
    assert_eq!(ps.voltage_range_mv(), None);
    assert_eq!(ps.contract_power_mw(), Some(100_000));
    assert!(ps.contract_requires_5a_cable());
}

#[test]
fn events_are_counted_by_kind() {
    let log = reset_log("3-4", 5);
    assert_eq!(log.count_kind(EventKind::DeviceReset), 5);
    assert_eq!(log.count_kind(EventKind::OverCurrent), 0);
    assert_eq!(log.for_device("3-4").len(), 5);
    assert!(log.for_device("3-5").is_empty());
}

#[test]
fn a_class_code_names_a_kind() {
    assert_eq!(DeviceKind::from_class(0x08), Some(DeviceKind::Storage));
    assert_eq!(DeviceKind::from_class(0x00), None);
    assert_eq!(Kind::class(DeviceKind::Camera).caption(), "Camera \u{b7} declared by the device");
    assert_eq!(Kind::class(DeviceKind::Camera).describe(), "camera \u{b7} declared by the device");
}

#[test]
fn a_pdo_kind_is_read_off_its_name() {
    assert_eq!(PdoKind::from_sysfs("programmable_supply"), PdoKind::ProgrammableSupply);
    assert_eq!(PdoKind::from_sysfs("perpetual_motion"), PdoKind::Unknown);
}

#[test]
fn a_little_traffic_is_idle() {
    let t = |bps: f64| Throughput { read_bps: dec(bps), write_bps: dec(0.0), interval_ms: 1_000 };
    assert!(t(1_023.0).is_idle());
    assert!(!t(1_024.0).is_idle());
}

#[test]
fn a_log_is_read_line_by_line() {
    let lines = journal_lines(
        "[1.5] host kernel: usb 3-4: reset\nnot a record\n[2.5] host kernel: hub 3-0:1.0: x\n",
    );
    assert_eq!(lines.len(), 2);
    assert_eq!(lines[0].2, "usb 3-4: reset");
    assert_eq!(lines[1].1, Some(secs(2.5)));
    assert_eq!(dmesg_lines("[    1.5] usb 1-1: x\n\nplain\n").len(), 2);
}

#[test]
fn a_failed_read_counts_only_where_nothing_was_read() {
    let mut out = Vec::new();
    assert!(matches!(
        kmsg_step(&mut out, KmsgRead::Failed("denied".into())),
        KmsgNext::Fail(e) if e == "denied"
    ));
    let record = "6,1,2000000,-;usb 3-4: reset full-speed USB device\n".to_string();
    assert!(matches!(kmsg_step(&mut out, KmsgRead::Record(record)), KmsgNext::Read));
    assert!(matches!(kmsg_step(&mut out, KmsgRead::Overwritten), KmsgNext::Read));
    assert!(matches!(kmsg_step(&mut out, KmsgRead::Failed("denied".into())), KmsgNext::Stop));
    assert!(matches!(kmsg_step(&mut out, KmsgRead::Drained), KmsgNext::Stop));
    assert!(matches!(kmsg_step(&mut out, KmsgRead::End), KmsgNext::Stop));
    assert_eq!(out.len(), 1);
}

#[test]
fn a_wait_notices_a_stop_within_a_slice() {
    assert_eq!(rest(false, 30_000), Rest::Nap(50));
    assert_eq!(rest(false, 20), Rest::Nap(20));
    assert_eq!(rest(false, 0), Rest::Done);
    assert_eq!(rest(true, 30_000), Rest::Stopped);
}

#[test]
fn written_bytes_are_sectors() {
    let s = stats_at("1 0 2 0 3 0 4 0 0", 1).unwrap();
    assert_eq!((s.total_read_bytes(), s.total_written_bytes()), (1_024, 2_048));
}


fn faulty() -> Snapshot {
    let mut snap = empty_snapshot();
    snap.buses = vec![root_hub("usb3", 480.0), device("3-1", "3.20", 480.0, Some("usb3"))];
    snap.ports = vec![charging_port(100_000, Some(3000), 20_000, 3000)];
    snap.kernel_log.events = events_of(vec![
        (Some(1.0), "usb usb3-port1: over-current condition".to_string()),
        (Some(2.0), "usb 3-1: device descriptor read/64, error -110".to_string()),
        (Some(3.0), "usb 3-1: rejected 1 configuration due to insufficient available bus power".to_string()),
    ]);
    snap
}

#[test]
fn every_finding_rests_on_readings() {
    let snap = faulty();
    let found = analyze(&snap);
    assert!(found.len() >= 3, "{:?}", codes(&found));
    for f in &found {
        assert!(!f.evidence.is_empty(), "{}", f.code);
    }
}

#[test]
fn a_cable_is_measured_only_by_its_e_marker() {
    let snap = faulty();
    let found = analyze(&snap);
    let measured: Vec<&Finding> = found
        .iter()
        .filter(|f| matches!(f.subject, Subject::Cable { .. }) && f.confidence == Confidence::Measured)
        .collect();
    assert!(!measured.is_empty(), "{:?}", codes(&found));
    assert!(snap.ports[0].cable.as_ref().unwrap().identity.is_some());
    let mut unmarked = faulty();
    unmarked.ports[0].cable = None;
    assert!(analyze(&unmarked)
        .iter()
        .all(|f| !matches!(f.subject, Subject::Cable { .. }) || f.confidence != Confidence::Measured));
}

#[test]
fn a_fault_on_a_bus_is_always_reported() {
    let found = analyze(&faulty());
    assert!(codes(&found).contains(&"BUS_OVER_CURRENT"));
    assert!(codes(&found).contains(&"BUS_POWER_INSUFFICIENT"));
    let mut unread = faulty();
    unread.kernel_log = KernelLog { source: KernelLogSource::Unavailable, ..KernelLog::default() };
    assert!(codes(&analyze(&unread)).contains(&"KERNEL_LOG_UNAVAILABLE"));
}


#[test]
fn counters_and_drift_keep_the_fingerprint() {
    let mut a = empty_snapshot();
    a.buses = vec![root_hub("usb3", 480.0), device("3-1", "2.00", 480.0, Some("usb3"))];
    a.batteries = vec![Battery {
        name: "BAT0".into(),
        status: Some("Charging".into()),
        capacity_pct: Some(80),
        power_now_w: Some(dec(10.1)),
        ..Battery::default()
    }];
    let mut b = a.clone();
    b.buses[1].urbnum = Some(12_345);
    b.buses[1].connected_duration_ms = Some(99);
    b.batteries[0].power_now_w = Some(dec(10.2));
    b.batteries[0].voltage_now_v = Some(dec(12.0));
    assert_eq!(a.fingerprint(), b.fingerprint());
    b.batteries[0].power_now_w = Some(dec(10.3));
    assert_ne!(a.fingerprint(), b.fingerprint());
}

#[test]
fn a_clone_is_the_same_tree() {
    let mut hub = root_hub("usb3", 480.0);
    hub.children = vec![device("3-1", "2.00", 480.0, Some("usb3"))];
    let copy = hub.clone();
    assert_eq!(copy.sysfs_name, hub.sysfs_name);
    assert_eq!(copy.children.len(), 1);
    assert_eq!(copy.children[0].sysfs_name, "3-1");
    assert_eq!(copy.children[0].parent.as_deref(), Some("usb3"));
    assert_eq!(copy.children[0].speed, hub.children[0].speed);
    assert!(copy.speed.is_some());
    assert_eq!(format!("{copy:?}"), format!("{hub:?}"));
}

#[test]
fn a_percentage_is_what_the_double_prints() {
    let check = |num: u64, den: u64| {
        let pct = num as f64 / den as f64 * 100.0;
        let r = Ratio { num, den };
        assert_eq!(r.percent_text(), format!("{pct:.1}"), "{num}/{den}");
        assert_eq!(r.fine_percent_text(), format!("{pct:.2}"), "{num}/{den}");
    };
    for den in [1, 3, 7, 50, 64, 200, 400, 2_000, 4_000] {
        for num in 0..=den {
            check(num, den);
        }
    }
    for num in (1..20_000).step_by(2) {
        check(num, 20_000);
        check(num, 40_000);
    }
    check(1989, 2000);
    check(203, 20_000);
    check(300, 1);
    check(u64::MAX, 1);
    check(1, u64::MAX);
    check(u64::MAX, u64::MAX - 1);
    check((1 << 60) + 12_345, (1 << 61) + 987);
    assert_eq!(Ratio { num: 1989, den: 2000 }.percent_text(), "99.5");
    assert_eq!(Ratio { num: 203, den: 20_000 }.fine_percent_text(), "1.01");
}

/// Numbers that look random and are the same on every run.
fn scramble(seed: &mut u64) -> u64 {
    *seed = seed.wrapping_mul(6_364_136_223_846_793_005).wrapping_add(1_442_695_040_888_963_407);
    *seed ^ (*seed >> 29)
}

#[test]
fn every_form_of_a_numeral_is_read() {
    let agree = |t: &str| {
        let want: Option<f64> = t.parse().ok();
        assert_eq!(parse_double(t).map(|d| d.bits), want.map(f64::to_bits), "{t}");
    };
    for text in [
        ".5", "5.", "+1.5", "1.5e3", "1.5E+3", "25e-1", "0012.50", "1e0", "-0.0", "1e-9", "6.5e-6",
        "00.000001", "123456e-3", "62786.165344", "0.1234567", "-5.0", "-62786.165344", "-.5e-1",
        "inf", "-inf", "+INF", "Infinity", "-iNfInItY", "1e308", "1.8e308", "1e309", "-1e309",
        "1e400", "4e-324", "2e-324", "3e-324", "2.2250738585072011e-308", "2.2250738585072014e-308",
        "179769313486231580793728971405301e276", "9007199254740993", "9007199254740992.5",
        "9007199254740993.000000000000000000000000000000000000000001", "0.30000000000000004",
        "1e99999999999999999999999999", "1e-99999999999999999999999999", "0e99999999999999999999",
        "99999999999999999999999999", "0e-500", "",
        ".", "+", "-", "e5", "1e", "1e+", "1.2.3", "1 2", "0x10", "--1", "+-1", ".e1", "infinit",
        "in", "nano", "five", "1_000", " 1", "1 ",
    ] {
        agree(text);
    }
    for text in ["nan", "NaN", "+nan", "-NAN"] {
        assert!(f64::from_bits(parse_double(text).unwrap().bits).is_nan(), "{text}");
    }
    let mut seed: u64 = 7;
    for _ in 0..400 {
        let a = scramble(&mut seed);
        let b = scramble(&mut seed) % 1_000_000_000;
        let e = (scramble(&mut seed) % 680) as i64 - 345;
        agree(&format!("{}.{b:09}", a % 1_000_000));
        agree(&format!("{a}.{b}e{e}"));
        agree(&format!("-0.{a}e{e}"));
        agree(&format!("{}", f64::from_bits(a & !(1 << 62))));
    }
}

#[test]
fn attach_times_are_what_doubles_make_of_them() {
    let mut dev = device("1-1", "2.00", 480.0, Some("usb1"));
    dev.connected_duration_ms = None;
    assert_eq!(dev.attached_at_s(secs(5.0)), None);
    let mut agree = |uptime: f64, ms: u64| {
        dev.connected_duration_ms = Some(ms);
        let want = (uptime - ms as f64 / 1000.0).max(0.0);
        let got = dev.attached_at_s(secs(uptime)).unwrap();
        assert_eq!(f64::from_bits(got.bits), want, "{uptime} less {ms} ms");
    };
    for uptime in [
        0.0, -0.0, 100.3, 65_700.25, 1e-320, 1e300, -3.5, f64::INFINITY, f64::NEG_INFINITY, f64::NAN,
    ] {
        for ms in [0, 1, 100, 82_000, 65_700_250, u64::MAX] {
            agree(uptime, ms);
        }
    }
    let mut seed: u64 = 11;
    for _ in 0..400 {
        let hundredths = scramble(&mut seed) % 100_000_000;
        agree(hundredths as f64 / 100.0, scramble(&mut seed) % (hundredths * 10 + 1));
        agree(f64::from_bits(scramble(&mut seed)), scramble(&mut seed));
    }
    let (_, time, _) = parse_kmsg_record("6,1,62786165344,-;usb 3-4: reset").unwrap();
    assert_eq!(time, Some(secs(62_786_165_344u64 as f64 / 1e6)));
    let (_, time, _) = parse_kmsg_record("6,1,18446744073709551615,-;usb 3-4: reset").unwrap();
    assert_eq!(time, Some(secs(u64::MAX as f64 / 1e6)));
}

#[test]
fn doubles_are_ordered_like_their_values() {
    let all = [
        f64::NEG_INFINITY, -1e300, -2.5, -1e-320, -0.0, 0.0, 5e-324, 1e-320, 2.5, 2.6, 1e300,
        f64::INFINITY, f64::NAN,
    ];
    for a in all {
        for b in all {
            assert_eq!(secs(a).is_at_least(&secs(b)), a >= b, "{a} and {b}");
        }
    }
}

#[test]
fn a_time_before_boot_is_before_every_device() {
    let mut snap = empty_snapshot();
    snap.uptime_s = Some(secs(50.0));
    let mut dev = device("3-4", "2.00", 480.0, Some("usb3"));
    dev.connected_duration_ms = Some(90_000);
    let text: Vec<String> = ["-5.0", "nan", "0.0", "inf", "never"]
        .iter()
        .enumerate()
        .map(|(n, t)| format!("[{t}] box kernel: usb 3-4: reset high-speed USB device number {n}"))
        .collect();
    let lines = journal_lines(&text.join("\n"));
    let log = build(KernelLogSource::Journalctl, lines, Options::default(), None);
    let times: Vec<Option<u64>> = log.events.iter().map(|e| e.monotonic_s.map(|t| t.bits)).collect();
    assert_eq!(times[0], Some((-5.0f64).to_bits()));
    assert_eq!(times[4], None);
    let (kept, dropped) = snap.filter_since_attach(log.events.iter().collect(), &dev);
    let numbers: Vec<char> = kept.iter().map(|e| e.text.chars().last().unwrap()).collect();
    assert_eq!(numbers, vec!['2', '3', '4']);
    assert_eq!(dropped, 2);
}

#[test]
fn a_contract_is_described_by_what_was_selected() {
    let ps = PortPowerSupply {
        voltage_now_mv: Some(20_000),
        current_now_ma: Some(3_250),
        current_max_ma: Some(5_720),
        ..PortPowerSupply::default()
    };
    assert_eq!(contract_desc(&Some(ps)), "20 V at up to 3.25 A (65 W)");
    let idle = PortPowerSupply {
        voltage_now_mv: Some(5_000),
        current_max_ma: Some(3_000),
        ..PortPowerSupply::default()
    };
    assert_eq!(contract_desc(&Some(idle)), "no contract");
    assert_eq!(contract_desc(&None), "unknown");
}

#[test]
fn the_power_chain_is_built_only_while_sinking() {
    let mut port = laptop_charger_port_100w();
    let none: Vec<Finding> = Vec::new();
    assert_eq!(power(&port, &none).unwrap().stages.len(), 4);
    port.power_role = None;
    assert!(power(&port, &none).is_none());
    port.power_role = Some(RoleField::parse("[source] sink"));
    assert!(power(&port, &none).is_none());
}

#[test]
fn what_came_up_is_held_in_order_and_once() {
    let mut e = Endpoints::new();
    for n in [3, 1, 2, 3, 1] {
        e.insert(n);
    }
    assert_eq!(e.entries(), &vec![1, 2, 3]);
    assert_eq!(e.len(), 3);
    assert_eq!(e.clone().entries(), e.entries());
    let mut c = StatusCounts::new();
    for (status, count) in [(0, 9), (-71, 2), (-110, 2), (-71, 4), (-84, 2)] {
        c.insert(status, count);
    }
    assert_eq!(c.entries(), &vec![(-110, 2), (-84, 2), (-71, 4), (0, 9)]);
    let stats = UrbStats { by_status: c, ..UrbStats::default() };
    let lines = stats.error_breakdown();
    assert_eq!(lines.len(), 3);
    assert!(lines[0].starts_with("-71 ") && lines[0].ends_with(" x4"), "{lines:?}");
    assert!(lines[1].starts_with("-110 "), "{lines:?}");
    assert!(lines[2].starts_with("-84 "), "{lines:?}");
}

/// A device of no particular class, called storage by the user.
fn called_storage(mut dev: UsbDevice) -> UsbDevice {
    dev.declared = Some(Declaration {
        id: "0bc2:ab28".into(),
        kind: Some(DeviceKind::Storage),
        ..Declaration::default()
    });
    dev
}

#[test]
fn a_declared_kind_is_capped_and_cited() {
    let mut bus = root_hub("usb4", 10_000.0);
    bus.children.push(called_storage(device_with_class("4-1", " 3.20", 10_000.0, Some("usb4"), 0xff)));
    bus.children.push(device_with_class("4-2", " 3.20", 10_000.0, Some("usb4"), 0x08));
    let mut snap = empty_snapshot();
    snap.buses.push(bus);
    let f = analyze(&snap);
    let on = |name: &str| {
        f.iter()
            .find(|x| x.code == "LINK_SINGLE_LANE" && x.subject == Subject::Device(name.into()))
            .unwrap()
    };
    assert_eq!(on("4-1").confidence, Confidence::Inferred);
    assert_eq!(
        on("4-1").evidence,
        vec![
            "tx_lanes=1 rx_lanes=1 version=3.20",
            "kind: storage — declared by you for 0bc2:ab28 (this model)",
        ]
    );
    assert_eq!(on("4-2").confidence, Confidence::Measured);
    assert_eq!(on("4-2").evidence.len(), 1);

    let (mut slow, fast) = receptacle("0x80000001", Some("5-1"), None);
    slow.children.push(called_storage(device_with_class("5-1", " 2.10", 480.0, Some("usb5"), 0xff)));
    let mut snap = empty_snapshot();
    snap.buses.push(slow);
    snap.buses.push(fast);
    let f = analyze(&snap);
    let idle = f.iter().find(|x| x.code == "SS_HALF_IDLE").unwrap();
    assert_eq!(idle.confidence, Confidence::Heuristic);
    assert_eq!(
        idle.evidence.last().map(String::as_str),
        Some("kind: storage — declared by you for 0bc2:ab28 (this model)")
    );
}
