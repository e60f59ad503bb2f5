use usb_probe::caps::Capabilities;
use usb_probe::capture::{capture_with_log, read_uptime_s, Readings};
use usb_probe::diag::analyze;
use usb_probe::double::Double;
use usb_probe::model::{
    Cable, HexU32, Identity, IdentityDecoded, KernelEvent, KernelLog, KernelLogSource, LinkSpeed,
    Partner, Pdo, PdoKind, PdoRole, PortPowerSupply, PowerDelivery, RoleField, TypecPort, UsbDevice,
    Vdo,
};
use usb_probe::number::Decimal;

fn dec(v: f64) -> Decimal {
    Decimal { micros: (v * 1e6).round() as u64 }
}

fn secs(v: f64) -> Double {
    Double { bits: v.to_bits() }
}

fn device(name: &str, version: &str, mbps: f64, parent: Option<&str>) -> UsbDevice {
    UsbDevice {
        sysfs_name: name.into(),
        sysfs_path: format!("/sys/devices/test/{name}"),
        parent: parent.map(String::from),
        usb_version: Some(version.trim().into()),
        usb_version_num: version.trim().parse().ok().map(dec),
        speed: Some(LinkSpeed::from_mbps(dec(mbps))),
        rx_lanes: Some(1),
        tx_lanes: Some(1),
        ..UsbDevice::default()
    }
}

fn root_hub_version(name: &str, mbps: f64, version: &str) -> UsbDevice {
    UsbDevice {
        is_root_hub: true,
        device_class: Some(0x09),
        ..device(name, version, mbps, None)
    }
}

fn root_hub(name: &str, mbps: f64) -> UsbDevice {
    root_hub_version(name, mbps, if mbps >= 5000.0 { " 3.10" } else { " 2.00" })
}

fn events_of(lines: Vec<(Option<f64>, String)>) -> Vec<KernelEvent> {
    let lines = lines
        .into_iter()
        .map(|(at, text)| (at.map(|t| format!("[{t:.6}]")), at.map(secs), text))
        .collect();
    let opts = usb_probe::kernel::Options { include_unclassified: false, limit: 0 };
    usb_probe::kernel::build(KernelLogSource::DevKmsg, lines, opts, None).events
}

fn reset_log(dev: &str, times: usize) -> KernelLog {
    let line = format!("usb {dev}: reset full-speed USB device number 2 using xhci_hcd");
    KernelLog {
        source: KernelLogSource::DevKmsg,
        note: None,
        events: events_of(vec![(None, line); times]),
    }
}

fn fixed(index: u32, role: PdoRole, mv: u32, ma: u32) -> Pdo {
    Pdo {
        index,
        kind: PdoKind::FixedSupply,
        role,
        voltage_mv: Some(mv),
        min_voltage_mv: None,
        max_voltage_mv: None,
        current_ma: Some(ma),
        power_mw_field: None,
        flags: Vec::new(),
        peak_current: None,
        fast_role_swap_current: None,
    }
}

fn sink_of_100w() -> PowerDelivery {
    PowerDelivery {
        name: "pd0".into(),
        revision: Some("3.0".into()),
        source_capabilities: vec![fixed(1, PdoRole::Source, 5_000, 3_000)],
        sink_capabilities: vec![
            fixed(1, PdoRole::Sink, 5_000, 3_000),
            fixed(2, PdoRole::Sink, 20_000, 5_000),
        ],
    }
}

fn idle_port() -> TypecPort {
    TypecPort {
        name: "port0".into(),
        sysfs_path: "/sys/class/typec/port0".into(),
        data_role: Some(RoleField::parse("[host] device")),
        power_role: Some(RoleField::parse("source [sink]")),
        port_type: Some(RoleField::parse("[dual] source sink")),
        power_operation_mode: Some("default".into()),
        local_pd: Some(sink_of_100w()),
        ..TypecPort::default()
    }
}

fn contract(mv: u32, ma: u32, ma_max: u32) -> PortPowerSupply {
    PortPowerSupply {
        name: "ucsi-source-psy-USBC000:001".into(),
        online: Some(true),
        voltage_now_mv: Some(mv),
        current_now_ma: Some(ma),
        voltage_min_mv: Some(5_000),
        voltage_max_mv: Some(21_000),
        current_max_ma: Some(ma_max),
        usb_type: Some(RoleField::parse("C [PD] PD_PPS")),
    }
}

fn charger_port(source: Vec<Pdo>, supply: PortPowerSupply) -> TypecPort {
    TypecPort {
        power_operation_mode: Some("usb_power_delivery".into()),
        pd_revision: Some("3.0".into()),
        partner: Some(Partner {
            sysfs_name: "port0-partner".into(),
            supports_pd: Some(true),
            pd_revision: Some("3.0".into()),
            pd: Some(PowerDelivery {
                name: "pd1".into(),
                revision: Some("3.0".into()),
                source_capabilities: source,
                sink_capabilities: Vec::new(),
            }),
            ..Partner::default()
        }),
        power_supply: Some(supply),
        ..idle_port()
    }
}

fn charging_port(offer_mw: u32, cable_ma: Option<u32>, mv: u32, ma: u32) -> TypecPort {
    let source = vec![
        fixed(1, PdoRole::Source, 5_000, 3_000),
        fixed(2, PdoRole::Source, 20_000, offer_mw / 20),
    ];
    TypecPort {
        cable: cable_ma.map(|rated| Cable {
            sysfs_name: "port0-cable".into(),
            kind: Some("passive".into()),
            plug_type: Some("type-c".into()),
            pd_revision: Some("3.0".into()),
            identity: Some(Identity {
                decoded: IdentityDecoded {
                    cable_current_ma: Some(rated),
                    cable_max_voltage_mv: Some(20_000),
                    ..IdentityDecoded::default()
                },
                ..Identity::default()
            }),
        }),
        ..charger_port(source, contract(mv, ma, ma))
    }
}

fn readings() -> Readings {
    Readings {
        captured_at_unix_ms: 1_000,
        kernel_release: Some("6.17.0-test".into()),
        product_name: None,
        sys_vendor: None,
        modules: Some("ucsi_acpi 16384 0 - Live\nroles 12288 1 - Live\next4 1 0 - Live\n".into()),
        uptime: Some("65700.25 1234.5\n".into()),
        capabilities: Capabilities::default(),
        buses: vec![root_hub("usb1", 480.0)],
        ports: Vec::new(),
        thunderbolt: Default::default(),
        block_devices: Vec::new(),
        batteries: Vec::new(),
        displays: Vec::new(),
        mains_online: Some(true),
        pd: Vec::new(),
        kernel_log: reset_log("1-1", 2),
    }
}

#[test]
fn a_supplied_kernel_log_is_used_as_is() {
    let supplied = KernelLog {
        source: KernelLogSource::Dmesg,
        note: Some("supplied by the caller".into()),
        events: Vec::new(),
    };
    let snap = capture_with_log(readings(), Some(supplied));
    assert_eq!(snap.kernel_log.source, KernelLogSource::Dmesg);
    assert_eq!(snap.kernel_log.note.as_deref(), Some("supplied by the caller"));
    assert!(snap.kernel_log.events.is_empty());
}

#[test]
fn capture_on_the_host_does_not_panic() {
    let snap = capture_with_log(readings(), None);
    let _ = analyze(&snap);
    assert!(snap.buses.iter().all(|b| b.is_root_hub));
    assert_eq!(snap.kernel_log.events.len(), 2);
    assert_eq!(snap.uptime_s, Some(secs(65700.25)));
    assert_eq!(snap.host.typec_drivers, vec!["ucsi_acpi"]);
}

#[test]
fn vdo_serializes_as_hex_string() {
    let v = Vdo::new(0x2108_2042);
    let json = serde_json::to_string(&v.hex.display()).unwrap();
    assert!(json.contains("\"0x21082042\""), "got {json}");
    let back: String = serde_json::from_str(&json).unwrap();
    assert_eq!(HexU32::parse(&back), Some(HexU32(0x2108_2042)));
}

#[test]
fn an_object_no_port_refers_to_is_kept() {
    let pd = |name: &str| {
        (
            name.to_string(),
            PowerDelivery { name: name.into(), ..PowerDelivery::default() },
        )
    };
    let mut port = charging_port(100_000, Some(5000), 20_000, 5000);
    port.local_pd = Some(pd("pd0").1);
    let snap = capture_with_log(
        Readings { ports: vec![port], pd: vec![pd("pd0"), pd("pd1"), pd("pd9")], ..readings() },
        None,
    );
    let names: Vec<&str> = snap.orphan_pd.iter().map(|p| p.name.as_str()).collect();
    assert_eq!(names, vec!["pd9"]);
}

#[test]
fn an_uptime_that_cannot_be_read_is_none() {
    assert_eq!(read_uptime_s(&None), None);
    assert_eq!(read_uptime_s(&Some("soon".into())), None);
    assert_eq!(read_uptime_s(&Some("12.5 3".into())), Some(secs(12.5)));
}
