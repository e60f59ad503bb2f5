use usb_probe::chain::{data, power, rate, StageKey};
use usb_probe::model::{
    Cable, Confidence, Finding, Host, Identity, IdentityDecoded, KernelLog, KernelLogSource,
    LinkSpeed, Medium, Partner, Pdo, PdoKind, PdoRole, PortPowerSupply, PowerDelivery, RoleField,
    Severity, Snapshot, Subject, TypecPort, UsbDevice,
};
use usb_probe::number::{Decimal, Ratio};

fn dec(v: f64) -> Decimal {
    Decimal { micros: (v * 1e6).round() as u64 }
}

fn ratio(r: Ratio) -> f64 {
    r.num as f64 / r.den as f64
}

fn empty_snapshot() -> Snapshot {
    Snapshot {
        captured_at_unix_ms: 1_000,
        host: Host {
            kernel_release: Some("6.17.0-test".into()),
            product_name: Some("Laptop 16".into()),
            sys_vendor: Some("Maker".into()),
            typec_drivers: vec!["ucsi_acpi".into()],
        },
        kernel_log: KernelLog {
            source: KernelLogSource::DevKmsg,
            note: None,
            events: Vec::new(),
        },
        ..Snapshot::default()
    }
}

fn device(name: &str, version: &str, mbps: f64, parent: Option<&str>) -> UsbDevice {
    UsbDevice {
        sysfs_name: name.into(),
        sysfs_path: format!("/sys/devices/test/{name}"),
        parent: parent.map(String::from),
        usb_version: Some(version.trim().into()),
        usb_version_num: version.trim().parse().ok().map(dec),
        speed: Some(LinkSpeed::from_mbps(dec(mbps))),
        rx_lanes: Some(1),
        tx_lanes: Some(1),
        ..UsbDevice::default()
    }
}

fn root_hub_version(name: &str, mbps: f64, version: &str) -> UsbDevice {
    UsbDevice {
        is_root_hub: true,
        device_class: Some(0x09),
        ..device(name, version, mbps, None)
    }
}

fn root_hub(name: &str, mbps: f64) -> UsbDevice {
    root_hub_version(name, mbps, if mbps >= 5000.0 { " 3.10" } else { " 2.00" })
}

fn fixed(index: u32, role: PdoRole, mv: u32, ma: u32) -> Pdo {
    Pdo {
        index,
        kind: PdoKind::FixedSupply,
        role,
        voltage_mv: Some(mv),
        min_voltage_mv: None,
        max_voltage_mv: None,
        current_ma: Some(ma),
        power_mw_field: None,
        flags: Vec::new(),
        peak_current: None,
        fast_role_swap_current: None,
    }
}

fn programmable(index: u32, min_mv: u32, max_mv: u32, ma: u32, limited: bool) -> Pdo {
    Pdo {
        kind: PdoKind::ProgrammableSupply,
        voltage_mv: None,
        min_voltage_mv: Some(min_mv),
        max_voltage_mv: Some(max_mv),
        flags: vec![("pps_power_limited".into(), limited)],
        ..fixed(index, PdoRole::Source, 0, ma)
    }
}

fn sink_of_100w() -> PowerDelivery {
    PowerDelivery {
        name: "pd0".into(),
        revision: Some("3.0".into()),
        source_capabilities: vec![fixed(1, PdoRole::Source, 5_000, 3_000)],
        sink_capabilities: vec![
            fixed(1, PdoRole::Sink, 5_000, 3_000),
            fixed(2, PdoRole::Sink, 20_000, 5_000),
        ],
    }
}

fn idle_port() -> TypecPort {
    TypecPort {
        name: "port0".into(),
        sysfs_path: "/sys/class/typec/port0".into(),
        data_role: Some(RoleField::parse("[host] device")),
        power_role: Some(RoleField::parse("source [sink]")),
        port_type: Some(RoleField::parse("[dual] source sink")),
        power_operation_mode: Some("default".into()),
        local_pd: Some(sink_of_100w()),
        ..TypecPort::default()
    }
}

fn contract(mv: u32, ma: u32, ma_max: u32) -> PortPowerSupply {
    PortPowerSupply {
        name: "ucsi-source-psy-USBC000:001".into(),
        online: Some(true),
        voltage_now_mv: Some(mv),
        current_now_ma: Some(ma),
        voltage_min_mv: Some(5_000),
        voltage_max_mv: Some(21_000),
        current_max_ma: Some(ma_max),
        usb_type: Some(RoleField::parse("C [PD] PD_PPS")),
    }
}

fn charger_port(source: Vec<Pdo>, supply: PortPowerSupply) -> TypecPort {
    TypecPort {
        power_operation_mode: Some("usb_power_delivery".into()),
        pd_revision: Some("3.0".into()),
        partner: Some(Partner {
            sysfs_name: "port0-partner".into(),
            supports_pd: Some(true),
            pd_revision: Some("3.0".into()),
            pd: Some(PowerDelivery {
                name: "pd1".into(),
                revision: Some("3.0".into()),
                source_capabilities: source,
                sink_capabilities: Vec::new(),
            }),
            ..Partner::default()
        }),
        power_supply: Some(supply),
        ..idle_port()
    }
}

fn charging_port(offer_mw: u32, cable_ma: Option<u32>, mv: u32, ma: u32) -> TypecPort {
    let source = vec![
        fixed(1, PdoRole::Source, 5_000, 3_000),
        fixed(2, PdoRole::Source, 20_000, offer_mw / 20),
    ];
    TypecPort {
        cable: cable_ma.map(|rated| Cable {
            sysfs_name: "port0-cable".into(),
            kind: Some("passive".into()),
            plug_type: Some("type-c".into()),
            pd_revision: Some("3.0".into()),
            identity: Some(Identity {
                decoded: IdentityDecoded {
                    cable_current_ma: Some(rated),
                    cable_max_voltage_mv: Some(20_000),
                    ..IdentityDecoded::default()
                },
                ..Identity::default()
            }),
        }),
        ..charger_port(source, contract(mv, ma, ma))
    }
}

fn laptop_charger_port_100w() -> TypecPort {
    let source = vec![
        fixed(1, PdoRole::Source, 5_000, 3_000),
        fixed(2, PdoRole::Source, 9_000, 3_000),
        fixed(3, PdoRole::Source, 15_000, 3_000),
        fixed(4, PdoRole::Source, 20_000, 5_000),
        programmable(5, 3_300, 21_000, 5_000, true),
    ];
    charger_port(source, contract(20_000, 5_000, 5_000))
}

fn silent_partner() -> Partner {
    Partner {
        sysfs_name: "port0-partner".into(),
        supports_pd: Some(false),
        ..Partner::default()
    }
}

fn sourcing_port_non_pd() -> TypecPort {
    TypecPort {
        power_role: Some(RoleField::parse("[source] sink")),
        partner: Some(silent_partner()),
        ..idle_port()
    }
}

fn finding(code: &str, severity: Severity, subject: Subject) -> Finding {
    Finding {
        code: code.into(),
        severity,
        confidence: Confidence::Measured,
        subject,
        title: code.into(),
        detail: String::new(),
        evidence: Vec::new(),
        suggestion: None,
    }
}

#[test]
fn a_power_chain_has_four_stages_in_order() {
    let port = laptop_charger_port_100w();
    let c = power(&port, &vec![]).expect("attached");
    let keys: Vec<StageKey> = c.stages.iter().map(|s| s.key).collect();
    assert_eq!(
        keys,
        vec![
            StageKey::Offer,
            StageKey::Cable,
            StageKey::Agreed,
            StageKey::Achieved
        ]
    );
}

#[test]
fn a_full_contract_marks_nothing() {
    let port = laptop_charger_port_100w();
    let c = power(&port, &vec![]).expect("attached");
    assert_eq!(c.limited_by, None);
    assert!(c.stages.iter().all(|s| s.marked_by.is_none()));
}

#[test]
fn a_cable_finding_marks_the_cable_stage() {
    let port = laptop_charger_port_100w();
    let f = finding(
        "CABLE_CURRENT_LIMIT",
        Severity::Medium,
        Subject::Cable(port.name.clone()),
    );
    let c = power(&port, &vec![f.clone()]).expect("attached");
    assert_eq!(c.limited_by.as_deref(), Some("CABLE_CURRENT_LIMIT"));
    let cable = c.stages.iter().find(|s| s.key == StageKey::Cable).unwrap();
    assert_eq!(cable.marked_by.as_deref(), Some("CABLE_CURRENT_LIMIT"));
}

#[test]
fn an_info_finding_never_marks_a_stage() {
    let port = laptop_charger_port_100w();
    let f = finding(
        "CABLE_CURRENT_LIMIT",
        Severity::Info,
        Subject::Cable(port.name.clone()),
    );
    let c = power(&port, &vec![f]).expect("attached");
    assert_eq!(c.limited_by, None);
}

#[test]
fn a_finding_about_another_port_is_ignored() {
    let port = laptop_charger_port_100w();
    let f = finding(
        "CABLE_CURRENT_LIMIT",
        Severity::High,
        Subject::Cable("port9".into()),
    );
    let c = power(&port, &vec![f]).expect("attached");
    assert_eq!(c.limited_by, None);
}

#[test]
fn an_unmapped_code_marks_nothing() {
    let port = laptop_charger_port_100w();
    let f = finding(
        "SOMETHING_NEW",
        Severity::Critical,
        Subject::Port(port.name.clone()),
    );
    let c = power(&port, &vec![f]).expect("attached");
    assert_eq!(c.limited_by, None);
}

#[test]
fn an_idle_port_has_no_power_chain() {
    assert!(power(&idle_port(), &vec![]).is_none());
}

#[test]
fn a_sourcing_port_has_no_power_chain() {
    assert!(power(&sourcing_port_non_pd(), &vec![]).is_none());
}

#[test]
fn the_cable_stage_converts_amps_to_watts_at_the_contract_voltage() {
    // 20 V at 5 A contract, so the >3 A inference gives a 5 A cable.
    let port = charging_port(100_000, Some(5000), 20_000, 5000);
    let c = power(&port, &vec![]).expect("attached");
    let cable = c.stages.iter().find(|s| s.key == StageKey::Cable).unwrap();
    assert_eq!(cable.watts_mw, Some(100_000));
    assert_eq!(cable.value, "5 A");
}

#[test]
fn a_three_amp_contract_leaves_the_cable_unknown() {
    let port = charging_port(60_000, None, 20_000, 3000);
    let c = power(&port, &vec![]).expect("attached");
    let cable = c.stages.iter().find(|s| s.key == StageKey::Cable).unwrap();
    assert_eq!(cable.watts_mw, None);
    assert_eq!(cable.value, "unknown");
    assert_eq!(c.unknown_stages(), 1);
}

#[test]
fn an_emarked_three_amp_cable_caps_a_hundred_watt_charger() {
    let port = charging_port(100_000, Some(3000), 20_000, 3000);
    let c = power(&port, &vec![]).expect("attached");
    let cable = c.stages.iter().find(|s| s.key == StageKey::Cable).unwrap();
    assert_eq!(cable.watts_mw, Some(60_000));
    assert!(cable.sub.starts_with("e-marker read"), "{}", cable.sub);
    assert!(ratio(cable.fraction(c.max()).unwrap()) < 0.7);
}

#[test]
fn bars_are_scaled_against_the_widest_known_stage() {
    let port = laptop_charger_port_100w();
    let c = power(&port, &vec![]).expect("attached");
    let max = c.max();
    assert!(max.micros > 0);
    for s in &c.stages {
        if let Some(f) = s.fraction(max).map(ratio) {
            assert!((0.0..=1.0).contains(&f), "{} -> {f}", s.cap);
        }
    }
}

#[test]
fn a_root_hub_has_no_data_chain() {
    let mut snap = empty_snapshot();
    snap.buses.push(root_hub("usb1", 5000.0));
    let hub = snap.buses[0].clone();
    assert!(data(&snap, &hub, &vec![]).is_none());
}

#[test]
fn an_ambiguous_bcd_usb_gets_no_bar() {
    let mut snap = empty_snapshot();
    let mut hub = root_hub("usb6", 10_000.0);
    hub.children.push(device("6-1", "3.10", 5000.0, Some("usb6")));
    snap.buses.push(hub);
    let dev = snap.device("6-1").unwrap().clone();
    let c = data(&snap, &dev, &vec![]).expect("not a root hub");
    let claim = c.stages.iter().find(|s| s.key == StageKey::Offer).unwrap();
    assert_eq!(claim.mbps, None);
    assert_eq!(claim.value, "USB 3.10");
}

#[test]
fn a_usb_30_claim_is_worth_five_gigabits() {
    let mut snap = empty_snapshot();
    let mut hub = root_hub("usb4", 10_000.0);
    hub.children.push(device("4-1", "3.00", 5000.0, Some("usb4")));
    snap.buses.push(hub);
    let dev = snap.device("4-1").unwrap().clone();
    let c = data(&snap, &dev, &vec![]).expect("not a root hub");
    let claim = c.stages.iter().find(|s| s.key == StageKey::Offer).unwrap();
    assert_eq!(claim.mbps, Some(dec(5_000.0)));
}

#[test]
fn the_path_stage_is_the_narrowest_hop_upstream() {
    let mut snap = empty_snapshot();
    let mut root = root_hub("usb6", 10_000.0);
    let mut hub = device("6-1", "2.10", 480.0, Some("usb6"));
    hub.children
        .push(device("6-1.2", "3.00", 480.0, Some("6-1")));
    root.children.push(hub);
    snap.buses.push(root);
    let dev = snap.device("6-1.2").unwrap().clone();
    let c = data(&snap, &dev, &vec![]).expect("not a root hub");
    let path = c.stages.iter().find(|s| s.key == StageKey::Agreed).unwrap();
    assert_eq!(path.mbps, Some(dec(480.0)));
    assert!(path.sub.contains("6-1"), "{}", path.sub);
}

#[test]
fn a_slow_link_finding_marks_the_link_stage() {
    let mut snap = empty_snapshot();
    let mut root = root_hub("usb4", 10_000.0);
    root.children
        .push(device("4-1", "3.00", 480.0, Some("usb4")));
    snap.buses.push(root);
    let dev = snap.device("4-1").unwrap().clone();
    let f = finding(
        "SS_HALF_IDLE",
        Severity::Medium,
        Subject::Device("4-1".into()),
    );
    let c = data(&snap, &dev, &vec![f]).expect("not a root hub");
    assert_eq!(c.limited_by.as_deref(), Some("SS_HALF_IDLE"));
    let link = c
        .stages
        .iter()
        .find(|s| s.key == StageKey::Achieved)
        .unwrap();
    assert_eq!(link.marked_by.as_deref(), Some("SS_HALF_IDLE"));
}

#[test]
fn a_power_code_cannot_mark_a_data_stage() {
    let mut snap = empty_snapshot();
    let mut root = root_hub("usb4", 10_000.0);
    root.children
        .push(device("4-1", "3.00", 5000.0, Some("usb4")));
    snap.buses.push(root);
    let dev = snap.device("4-1").unwrap().clone();
    let f = finding(
        "CABLE_CURRENT_LIMIT",
        Severity::High,
        Subject::Device("4-1".into()),
    );
    let c = data(&snap, &dev, &vec![f]).expect("not a root hub");
    assert_eq!(c.limited_by, None);
}

#[test]
fn rates_read_the_way_people_say_them() {
    assert_eq!(rate(dec(480.0)), "480 Mbps");
    assert_eq!(rate(dec(5000.0)), "5 Gbps");
    assert_eq!(rate(dec(10_000.0)), "10 Gbps");
    assert_eq!(rate(dec(1.5)), "1.5 Mbps");
}
