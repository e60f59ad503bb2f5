use usb_probe::caps::{probe, Availability, Capabilities, ProbeClass, ProbeInfo};
use usb_probe::escalate::{candidates, probe_args, Disk, Helper, Link, Meta, Stat};
use usb_probe::kind::DeviceKind;
use usb_probe::model::PhysicalLocation;
use usb_probe::model::{
    BlockDevice, Cable, Confidence, Declaration, Finding, Host, Identity, IdentityDecoded,
    KernelLog, KernelLogSource, LinkSpeed, Medium, Outcome, Partner, Pdo, PdoKind, PdoRole,
    PortPowerSupply, PowerDelivery, Report, RoleField, Severity, Snapshot, Subject, TypecPort,
    UsbDevice, UsbInterface, Verdict,
};
use usb_probe::monitor::Source;
use usb_probe::number::Decimal;
use usb_probe::view::catalogue::{
    action, ago, class_css, confirmation, intro, ready_line, request_for, says_why_not, state,
    target_note, Action, Remedy, Running,
};
use usb_probe::view::detail::{
    self, cannot_answer, chain_card, chains, choices, choose_kind, kind_card, quoted_from, rank,
    verdict_block, worst_verdict, Choice, AS_DECLARED, NOTHING_FIRED,
};
use usb_probe::view::findings::{
    about, cleared_row, confidence_class, covers, row, severity_class, Mark,
};
use usb_probe::view::labels::{label_id, relabel, same_labels, Override, Relabel};
use usb_probe::view::options::{parse, Asked, Size};
use usb_probe::view::sidebar::{
    self, fact, has_real_descendant, hops, host_name, is_hub, port_meta, port_name, reason, shown,
    Entry,
};
use usb_probe::view::typeset::{content_height, fit, wrap};
use usb_probe::view::watch::{started, waited, Out};
use usb_probe::view::window::{host_line, is_present, worst_subject, Start, Window, KINDS};

fn dec(v: f64) -> Decimal {
    Decimal { micros: (v * 1e6).round() as u64 }
}

fn empty_snapshot() -> Snapshot {
    Snapshot {
        captured_at_unix_ms: 1_000,
        host: Host {
            kernel_release: Some("6.17.0-test".into()),
            product_name: Some("Laptop 16".into()),
            sys_vendor: Some("Maker".into()),
            typec_drivers: vec!["ucsi_acpi".into()],
        },
        kernel_log: KernelLog {
            source: KernelLogSource::DevKmsg,
            note: None,
            events: Vec::new(),
        },
        ..Snapshot::default()
    }
}

fn device(name: &str, version: &str, mbps: f64, parent: Option<&str>) -> UsbDevice {
    UsbDevice {
        sysfs_name: name.into(),
        sysfs_path: format!("/sys/devices/test/{name}"),
        parent: parent.map(String::from),
        usb_version: Some(version.trim().into()),
        usb_version_num: version.trim().parse().ok().map(dec),
        speed: Some(LinkSpeed::from_mbps(dec(mbps))),
        rx_lanes: Some(1),
        tx_lanes: Some(1),
        ..UsbDevice::default()
    }
}

fn root_hub_version(name: &str, mbps: f64, version: &str) -> UsbDevice {
    UsbDevice {
        is_root_hub: true,
        device_class: Some(0x09),
        ..device(name, version, mbps, None)
    }
}

fn root_hub(name: &str, mbps: f64) -> UsbDevice {
    root_hub_version(name, mbps, if mbps >= 5000.0 { " 3.10" } else { " 2.00" })
}

fn device_with_class(name: &str, version: &str, mbps: f64, parent: Option<&str>, class: u8) -> UsbDevice {
    UsbDevice {
        device_class: Some(0x00),
        interfaces: vec![UsbInterface {
            sysfs_name: format!("{name}:1.0"),
            number: Some(0),
            class: Some(class),
            subclass: Some(0),
            protocol: Some(0),
            driver: None,
            description: None,
        }],
        ..device(name, version, mbps, parent)
    }
}

fn fixed(index: u32, role: PdoRole, mv: u32, ma: u32) -> Pdo {
    Pdo {
        index,
        kind: PdoKind::FixedSupply,
        role,
        voltage_mv: Some(mv),
        min_voltage_mv: None,
        max_voltage_mv: None,
        current_ma: Some(ma),
        power_mw_field: None,
        flags: Vec::new(),
        peak_current: None,
        fast_role_swap_current: None,
    }
}

fn sink_of_100w() -> PowerDelivery {
    PowerDelivery {
        name: "pd0".into(),
        revision: Some("3.0".into()),
        source_capabilities: vec![fixed(1, PdoRole::Source, 5_000, 3_000)],
        sink_capabilities: vec![
            fixed(1, PdoRole::Sink, 5_000, 3_000),
            fixed(2, PdoRole::Sink, 20_000, 5_000),
        ],
    }
}

fn idle_port() -> TypecPort {
    TypecPort {
        name: "port0".into(),
        sysfs_path: "/sys/class/typec/port0".into(),
        data_role: Some(RoleField::parse("[host] device")),
        power_role: Some(RoleField::parse("source [sink]")),
        port_type: Some(RoleField::parse("[dual] source sink")),
        power_operation_mode: Some("default".into()),
        local_pd: Some(sink_of_100w()),
        ..TypecPort::default()
    }
}

fn contract(mv: u32, ma: u32, ma_max: u32) -> PortPowerSupply {
    PortPowerSupply {
        name: "ucsi-source-psy-USBC000:001".into(),
        online: Some(true),
        voltage_now_mv: Some(mv),
        current_now_ma: Some(ma),
        voltage_min_mv: Some(5_000),
        voltage_max_mv: Some(21_000),
        current_max_ma: Some(ma_max),
        usb_type: Some(RoleField::parse("C [PD] PD_PPS")),
    }
}

fn charger_port(source: Vec<Pdo>, supply: PortPowerSupply) -> TypecPort {
    TypecPort {
        power_operation_mode: Some("usb_power_delivery".into()),
        pd_revision: Some("3.0".into()),
        partner: Some(Partner {
            sysfs_name: "port0-partner".into(),
            supports_pd: Some(true),
            pd_revision: Some("3.0".into()),
            pd: Some(PowerDelivery {
                name: "pd1".into(),
                revision: Some("3.0".into()),
                source_capabilities: source,
                sink_capabilities: Vec::new(),
            }),
            ..Partner::default()
        }),
        power_supply: Some(supply),
        ..idle_port()
    }
}

fn charging_port(offer_mw: u32, cable_ma: Option<u32>, mv: u32, ma: u32) -> TypecPort {
    let source = vec![
        fixed(1, PdoRole::Source, 5_000, 3_000),
        fixed(2, PdoRole::Source, 20_000, offer_mw / 20),
    ];
    TypecPort {
        cable: cable_ma.map(|rated| Cable {
            sysfs_name: "port0-cable".into(),
            kind: Some("passive".into()),
            plug_type: Some("type-c".into()),
            pd_revision: Some("3.0".into()),
            identity: Some(Identity {
                decoded: IdentityDecoded {
                    cable_current_ma: Some(rated),
                    cable_max_voltage_mv: Some(20_000),
                    ..IdentityDecoded::default()
                },
                ..Identity::default()
            }),
        }),
        ..charger_port(source, contract(mv, ma, ma))
    }
}

fn silent_partner() -> Partner {
    Partner {
        sysfs_name: "port0-partner".into(),
        supports_pd: Some(false),
        ..Partner::default()
    }
}

fn sourcing_port_non_pd() -> TypecPort {
    TypecPort {
        power_role: Some(RoleField::parse("[source] sink")),
        partner: Some(silent_partner()),
        ..idle_port()
    }
}

fn sinking_port_no_pd(mode: &str) -> TypecPort {
    TypecPort {
        power_operation_mode: Some(mode.into()),
        partner: Some(silent_partner()),
        ..idle_port()
    }
}

fn finding(code: &str, severity: Severity, confidence: Confidence, subject: Subject) -> Finding {
    Finding {
        code: code.into(),
        severity,
        confidence,
        subject,
        title: format!("{code} title"),
        detail: format!("{code} detail"),
        evidence: vec!["one".into(), "two".into()],
        suggestion: Some("try this".into()),
    }
}

fn verdict(subject: Subject, outcome: Outcome, headline: &str, because: &[&str]) -> Verdict {
    Verdict {
        subject,
        outcome,
        headline: headline.into(),
        because: because.iter().map(|c| c.to_string()).collect(),
    }
}

fn a_report() -> Report {
    let mut snap = empty_snapshot();
    snap.ports.push(charging_port(100_000, Some(3000), 20_000, 3000));
    let mut bus = root_hub("usb5", 480.0);
    let mut hub = device_with_class("5-1", "2.10", 480.0, Some("usb5"), 0x09);
    hub.children.push(device_with_class("5-1.1", "2.00", 480.0, Some("5-1"), 0x08));
    bus.children.push(hub);
    snap.buses.push(bus);
    snap.buses.push(root_hub("usb6", 10_000.0));
    Report { snapshot: snap, findings: Vec::new(), exonerations: Vec::new(), verdicts: Vec::new() }
}

fn port() -> Subject {
    Subject::Port("port0".into())
}

fn cable() -> Subject {
    Subject::Cable("port0".into())
}

fn stick() -> Subject {
    Subject::Device("5-1.1".into())
}

// findings

#[test]
fn a_row_carries_its_sentence_and_its_confidence() {
    let f = finding("X", Severity::High, Confidence::Heuristic, cable());
    let r = row(&f, true);
    assert!(matches!(r.mark, Mark::Dot("high")));
    assert_eq!(r.title, "X title");
    assert_eq!(r.subject.as_deref(), Some("port0 cable"));
    assert_eq!(r.confidence_class, "heuristic");
    assert!(r.set_apart, "a different kind of card, not a lower severity");
    assert_eq!(r.evidence.as_deref(), Some("one\ntwo"));
    assert_eq!(r.suggestion.as_deref(), Some("try this"));

    let sure = finding("X", Severity::High, Confidence::Measured, cable());
    assert!(matches!(row(&sure, false).mark, Mark::Dot("high")));
    assert!(!row(&sure, false).set_apart);
    assert!(row(&sure, false).subject.is_none());
}

#[test]
fn an_exoneration_stands_on_no_scale_of_faults() {
    let f = finding("OK", Severity::Info, Confidence::Measured, port());
    let r = cleared_row(&f, false);
    assert!(matches!(r.mark, Mark::Tick));
    assert!(r.evidence.is_none() && r.suggestion.is_none());
    assert_eq!(r.detail.as_deref(), Some("OK detail"));
}

#[test]
fn a_ports_pane_carries_its_cable_and_nothing_else() {
    assert!(covers(&port(), &port()));
    assert!(covers(&port(), &cable()));
    assert!(!covers(&cable(), &port()));
    assert!(!covers(&port(), &Subject::Cable("port1".into())));
    assert!(!covers(&Subject::Host, &port()));
    assert!(covers(&Subject::Host, &Subject::Host));
    assert!(!covers(&Subject::Device("a".into()), &Subject::Port("a".into())));
}

#[test]
fn a_pane_lists_the_worst_first_and_keeps_the_order_of_equals() {
    let all = vec![
        finding("A", Severity::Low, Confidence::Measured, port()),
        finding("B", Severity::High, Confidence::Measured, cable()),
        finding("C", Severity::Low, Confidence::Measured, port()),
        finding("D", Severity::Critical, Confidence::Measured, stick()),
        finding("E", Severity::High, Confidence::Measured, port()),
    ];
    let codes: Vec<&str> = about(&all, &port()).iter().map(|f| f.code.as_str()).collect();
    assert_eq!(codes, vec!["B", "E", "A", "C"]);
    assert!(about(&all, &Subject::Host).is_empty());
}

#[test]
fn classes_follow_severity_and_confidence() {
    let by_severity: Vec<&str> = [
        Severity::Critical,
        Severity::High,
        Severity::Medium,
        Severity::Low,
        Severity::Info,
    ]
    .map(severity_class)
    .to_vec();
    assert_eq!(by_severity, vec!["high", "high", "medium", "low", "info"]);
    assert_eq!(confidence_class(Confidence::Inferred), "inferred");
}

// sidebar

#[test]
fn a_hub_on_the_way_collapses_into_a_count() {
    let r = a_report();
    let snap = &r.snapshot;
    let bus = &snap.buses[0];
    let names = |show: bool| -> Vec<String> {
        shown(snap, bus, show).iter().map(|d| d.sysfs_name.clone()).collect()
    };
    assert_eq!(names(false), vec!["5-1.1"]);
    assert_eq!(names(true), vec!["5-1", "5-1.1"]);
    assert_eq!(hops(snap, snap.device("5-1.1").unwrap()), 1);
    assert_eq!(hops(snap, snap.device("5-1").unwrap()), 0);
    assert!(has_real_descendant(snap, snap.device("5-1").unwrap()));
    assert_eq!(fact(snap, &stick()), "via 1 hub");
}

#[test]
fn a_hub_with_nothing_behind_it_is_the_device() {
    let mut r = a_report();
    r.snapshot.buses[0].children[0].children.clear();
    let snap = &r.snapshot;
    assert_eq!(shown(snap, &snap.buses[0], false).len(), 1);
    assert!(is_hub(snap.device("5-1").unwrap()));
    assert_eq!(fact(snap, &Subject::Device("5-1".into())), "nothing attached");
}

#[test]
fn a_fact_is_plain() {
    let mut r = a_report();
    assert_eq!(fact(&r.snapshot, &Subject::Host), "Type-C via ucsi_acpi");
    assert_eq!(fact(&r.snapshot, &port()), "attached, speaks PD");
    assert_eq!(fact(&r.snapshot, &cable()), "attached, speaks PD");
    assert_eq!(fact(&r.snapshot, &Subject::Port("port9".into())), "");
    r.snapshot.host.typec_drivers.clear();
    assert_eq!(fact(&r.snapshot, &Subject::Host), "no Type-C driver loaded");
    r.snapshot.ports[0] = sinking_port_no_pd("3.0A");
    assert_eq!(fact(&r.snapshot, &port()), "attached, does not speak PD");
    r.snapshot.ports[0] = idle_port();
    assert_eq!(fact(&r.snapshot, &port()), "nothing attached");
    r.snapshot.block_devices.push(BlockDevice {
        name: "sdb".into(),
        sysfs_path: "/sys/devices/test/5-1.1/host1/block/sdb".into(),
        model: Some("Ultra".into()),
        vendor: Some("SanDisk".into()),
        ..BlockDevice::default()
    });
    assert_eq!(fact(&r.snapshot, &stick()), "storage \u{b7} SanDisk Ultra");
}

#[test]
fn green_is_only_for_a_verdict_that_cites_something() {
    let mut r = a_report();
    assert_eq!(reason(&r, &port()), ("attached, speaks PD".to_string(), "none"));

    r.verdicts = vec![verdict(port(), Outcome::Clear, "All well", &[])];
    assert_eq!(reason(&r, &port()), ("attached, speaks PD".to_string(), "none"));

    r.verdicts = vec![verdict(port(), Outcome::Clear, "All well", &["PD_FULL"])];
    assert_eq!(reason(&r, &port()), ("All well".to_string(), "ok"));

    r.findings = vec![finding("X", Severity::Low, Confidence::Measured, cable())];
    assert_eq!(reason(&r, &port()), ("All well".to_string(), "low"));

    r.findings = vec![finding("X", Severity::Info, Confidence::Measured, cable())];
    r.verdicts.clear();
    assert_eq!(reason(&r, &port()).1, "info");
}

#[test]
fn a_port_shows_power_only_while_something_is_attached() {
    assert_eq!(port_meta(&charging_port(100_000, Some(3000), 20_000, 3000)), "60 W in");
    assert_eq!(port_meta(&idle_port()), "");
    assert_eq!(port_meta(&sourcing_port_non_pd()), "4.5 W out");
    let mut p = idle_port();
    assert_eq!(port_name(&p), "port0");
    p.physical_location = Some(PhysicalLocation {
        panel: Some("left".into()),
        ..PhysicalLocation::default()
    });
    assert_eq!(port_name(&p), "port0  \u{b7} left panel");
}

#[test]
fn the_sidebar_runs_from_the_machine_to_its_devices() {
    let r = a_report();
    let e = sidebar::build(&r, &stick(), false);
    let titles: Vec<&str> = e
        .iter()
        .filter_map(|x| match x {
            Entry::Heading { title, .. } => Some(*title),
            _ => None,
        })
        .collect();
    assert_eq!(titles, vec!["SYSTEM", "USB-C PORTS", "DEVICES"]);
    let rows: Vec<(String, bool)> = e
        .iter()
        .filter_map(|x| match x {
            Entry::Row { subject, selected, .. } => Some((subject.display(), *selected)),
            _ => None,
        })
        .collect();
    assert_eq!(
        rows,
        vec![("host".into(), false), ("port0".into(), false), ("5-1.1".into(), true)]
    );
    assert!(e.iter().any(|x| matches!(x, Entry::Bus { name, .. } if name == "usb5")));
    assert!(
        matches!(e.last().unwrap(), Entry::Note(n) if n == "1 controller with nothing attached")
    );
    assert!(e.iter().any(|x| matches!(x, Entry::Heading { toggle: Some("show hubs"), .. })));
}

#[test]
fn a_machine_is_called_by_its_name() {
    let mut r = a_report();
    assert_eq!(host_name(&r.snapshot), "Maker Laptop 16");
    r.snapshot.host.sys_vendor = None;
    assert_eq!(host_name(&r.snapshot), "Laptop 16");
    r.snapshot.host.product_name = None;
    assert_eq!(host_name(&r.snapshot), "This machine");
    assert_eq!(host_line(&r.snapshot), "this machine");
}

// detail

#[test]
fn a_pane_leads_with_the_worst_verdict_it_covers() {
    let mut r = a_report();
    r.verdicts = vec![
        verdict(cable(), Outcome::Fault, "The cable caps it", &["CABLE_CURRENT_LIMIT"]),
        verdict(port(), Outcome::Clear, "Nothing wrong found", &[]),
        verdict(stick(), Outcome::Fault, "Slow", &["X"]),
    ];
    assert_eq!(worst_verdict(&r, &port()).unwrap().headline, "The cable caps it");
    assert!(worst_verdict(&r, &Subject::Host).is_none());
    // Ties go to the subject the pane is about.
    r.verdicts[0].outcome = Outcome::Clear;
    assert_eq!(worst_verdict(&r, &port()).unwrap().subject, port());
}

#[test]
fn a_headline_is_explained_in_its_findings_own_words() {
    let mut r = a_report();
    r.findings = vec![finding("CAP", Severity::Medium, Confidence::Measured, cable())];
    r.verdicts = vec![verdict(cable(), Outcome::Fault, "CAP title", &["CAP"])];
    let b = verdict_block(&r, &port());
    assert_eq!((b.class, b.glyph), ("fault", "!"));
    assert_eq!(b.headline, "CAP title");
    assert_eq!(b.text.as_deref(), Some("CAP detail"));
    assert_eq!(b.because, vec!["CAP"]);
    assert_eq!(quoted_from(&r, &port(), "CAP title").unwrap().code, "CAP");
    assert!(quoted_from(&r, &port(), "Another").is_none());

    let silent = verdict_block(&r, &stick());
    assert_eq!((silent.class, silent.glyph), ("clear", "\u{2713}"));
    assert_eq!(silent.headline, Verdict::NOTHING_FOUND);
    assert_eq!(silent.text.as_deref(), Some(NOTHING_FIRED));
}

#[test]
fn how_bad_it_is_is_said_in_words() {
    let say = |s: &[Severity]| {
        let all: Vec<Finding> = s
            .iter()
            .map(|s| finding("X", *s, Confidence::Measured, port()))
            .collect();
        rank(&about(&all, &port()))
    };
    assert_eq!(say(&[]), "nothing fired");
    assert_eq!(say(&[Severity::Info]), "nothing above info");
    assert_eq!(say(&[Severity::Low, Severity::High]), "worst is high");
    let low = finding("X", Severity::Low, Confidence::Measured, port());
    let high = finding("X", Severity::High, Confidence::Measured, port());
    assert_eq!(rank(&vec![&low, &high]), rank(&vec![&high, &low]));
}

#[test]
fn a_kind_shows_where_it_came_from() {
    let mut d = device_with_class("5-1.1", "2.00", 480.0, Some("5-1"), 0x08);
    let k = kind_card(&d);
    assert_eq!((k.name, k.source), ("storage", "declared by the device"));
    assert!(!k.overridden && k.selected == 0 && k.lines.is_empty());

    d.declared = Some(Declaration {
        id: "1234:5678".into(),
        unit: false,
        kind: Some(DeviceKind::Camera),
        medium: Some(Medium::Rotating),
        note: Some("on the shelf".into()),
    });
    let k = kind_card(&d);
    assert_eq!((k.name, k.source), ("camera", "set by you"));
    assert!(k.overridden);
    assert_eq!(choices()[k.selected], "camera");
    assert_eq!(
        k.lines[0],
        "You set this. The device itself reports storage. Stored against 1234:5678 (this model)."
    );
    assert_eq!(k.lines[1], "\u{201c}on the shelf\u{201d}");
    assert!(k.lines[2].starts_with("Medium: spinning disk"));
}

#[test]
fn choosing_what_is_in_force_changes_nothing() {
    assert_eq!(choices().len(), 15);
    assert_eq!(choices()[0], AS_DECLARED);
    assert_eq!(choose_kind(3, 3), Choice::Unchanged);
    assert_eq!(choose_kind(0, 3), Choice::Clear);
    assert_eq!(choose_kind(1, 0), Choice::Take(DeviceKind::Hub));
    assert_eq!(choose_kind(14, 0), Choice::Take(DeviceKind::Diagnostic));
    assert!(!KINDS.contains(&DeviceKind::Unknown));
}

#[test]
fn a_chain_is_explained() {
    let mut r = a_report();
    let c = chains(&r, &port()).unwrap();
    let card = chain_card(&c);
    assert_eq!(card.note, "supporting");
    assert_eq!(card.title, format!("Evidence \u{b7} {}", c.kind.title()));
    r.findings = vec![finding("CABLE_CURRENT_LIMIT", Severity::Medium, Confidence::Measured, cable())];
    let card = chain_card(&chains(&r, &port()).unwrap());
    assert_eq!(card.note, "marked stage comes from CABLE_CURRENT_LIMIT");
    let data = chain_card(&chains(&r, &stick()).unwrap());
    assert!(data.tail.starts_with("A dashed stage"), "{}", data.tail);
    assert!(chains(&r, &Subject::Host).is_none());
}

#[test]
fn silence_is_not_an_answer() {
    let mut r = a_report();
    let lines = cannot_answer(&r.snapshot, &Subject::Host);
    assert_eq!(lines.len(), 1, "usbmon was not probed: {lines:?}");
    assert!(lines[0].starts_with("Transport error rates were not read:"));

    r.snapshot.ports[0].cable = None;
    assert_eq!(cannot_answer(&r.snapshot, &port()).len(), 2);
    r.snapshot.kernel_log = KernelLog::unavailable("permission denied".into());
    let lines = cannot_answer(&r.snapshot, &port());
    assert!(lines.iter().any(|l| l.ends_with("invisible here: permission denied.")));
    r.snapshot.kernel_log.note = None;
    assert!(cannot_answer(&r.snapshot, &port())[1].contains("could not be read"));

    r.snapshot.block_devices.push(BlockDevice {
        name: "sdb".into(),
        sysfs_path: "/sys/devices/test/5-1.1/host1/block/sdb".into(),
        ..BlockDevice::default()
    });
    assert!(cannot_answer(&r.snapshot, &stick())[0].starts_with("No throughput was measured."));
}

#[test]
fn a_pane_holds_what_it_should() {
    let mut r = a_report();
    r.findings = vec![finding("F", Severity::Medium, Confidence::Measured, cable())];
    r.exonerations = vec![finding("E", Severity::Info, Confidence::Measured, port())];
    let p = detail::build(&r, &port());
    assert_eq!(p.rank, "worst is medium");
    assert_eq!(p.cleared_note.as_deref(), Some("1 check that could have failed"));
    assert_eq!(p.findings[0].subject.as_deref(), Some("port0 cable"));
    assert!(p.chain.is_some() && p.kind.is_none() && !p.lists_probes);
    let p = detail::build(&r, &stick());
    assert!(p.kind.is_some() && p.findings.is_empty() && p.cleared_note.is_none());
    assert!(detail::build(&r, &Subject::Host).lists_probes);
}

// window

#[test]
fn a_window_opens_on_the_worst() {
    let mut r = a_report();
    assert_eq!(worst_subject(&r), Subject::Host);
    r.findings = vec![
        finding("A", Severity::Medium, Confidence::Measured, port()),
        finding("B", Severity::Low, Confidence::Measured, stick()),
    ];
    assert_eq!(worst_subject(&r), port());
    r.verdicts = vec![
        verdict(stick(), Outcome::Minor, "slow", &["B"]),
        verdict(port(), Outcome::Clear, "fine", &["A"]),
    ];
    assert_eq!(worst_subject(&r), stick());
}

#[test]
fn a_probe_does_not_end_a_capture_in_flight() {
    let mut w = Window::new(a_report());
    assert_ne!(w.start_capture(false, 0), Start::Nothing);
    let before = w.revision;
    w.probed(a_report());
    assert!(w.capturing && !w.again);
    assert_eq!(w.revision, before + 1);
    assert!(w.log().is_some());
    assert_eq!(w.start_capture(false, 0), Start::Nothing);
    assert!(w.again);
}

#[test]
fn one_capture_runs_at_a_time() {
    let mut w = Window::new(a_report());
    assert_eq!(w.woke(0, 3_000), Start::Capture { reuse: true });
    assert_eq!(w.woke(2, 3_000), Start::Nothing, "one is in flight");
    assert!(w.again);
    // What came meanwhile is not lost.
    assert_eq!(w.captured(a_report(), 3_000), Start::Capture { reuse: true });
    assert!(w.capturing && !w.again);
    assert_eq!(w.captured(a_report(), 3_000), Start::Nothing);
    assert!(!w.capturing);
    assert_eq!(w.start_capture(true, 0), Start::Capture { reuse: false });
    w.captured(a_report(), 0);
    assert_eq!(w.woke(0, 10_000), Start::Capture { reuse: false }, "the log has aged");
}

#[test]
fn nothing_happening_leaves_the_screen_alone() {
    let mut w = Window::new(a_report());
    assert!(w.log().is_none());
    w.captured(a_report(), 0);
    let drawn = w.revision;
    let mut later = a_report();
    later.snapshot.captured_at_unix_ms = 99_999;
    later.snapshot.kernel_log.note = Some("read later".into());
    w.captured(later, 0);
    assert_eq!(w.revision, drawn);
    assert_eq!(w.log().unwrap().note.as_deref(), Some("read later"));

    // A label is no hardware, and still shows.
    let mut labelled = a_report();
    labelled.snapshot.buses[0].children[0].declared = Some(Declaration {
        id: "1234:5678".into(),
        ..Declaration::default()
    });
    w.captured(labelled, 0);
    assert_eq!(w.revision, drawn + 1);
}

#[test]
fn only_an_arriving_fault_is_announced() {
    let mut first = a_report();
    first.findings = vec![finding("OLD", Severity::High, Confidence::Measured, port())];
    let mut w = Window::new(first.clone());
    assert!(w.banner.is_none());
    w.captured(first.clone(), 0);
    assert!(w.banner.is_none(), "it was there from the start");

    let mut second = first.clone();
    second.findings.push(finding("LOW", Severity::Medium, Confidence::Measured, stick()));
    second.findings.push(finding("NEW", Severity::High, Confidence::Measured, cable()));
    second.snapshot.buses.pop();
    w.captured(second, 0);
    assert_eq!(w.banner.as_deref(), Some("port0 cable \u{2014} NEW title"));
    w.dismiss_banner();
    assert!(w.banner.is_none());
}

#[test]
fn a_selection_that_went_away_is_replaced() {
    let mut w = Window::new(a_report());
    let drawn = w.revision;
    w.select(stick());
    w.select(stick());
    assert_eq!(w.revision, drawn + 1);
    assert_eq!(w.title(), "5-1.1");
    let mut gone = a_report();
    gone.snapshot.buses[0].children.clear();
    assert!(is_present(&w.report.snapshot, &stick()));
    assert!(!is_present(&gone.snapshot, &stick()));
    w.captured(gone, 0);
    assert_eq!(w.selected, Subject::Host);
    w.toggle_hubs();
    assert!(w.show_hubs);
}

#[test]
fn titles_say_what_is_selected() {
    let mut w = Window::new(a_report());
    assert_eq!((w.title(), w.subtitle()), ("This machine".into(), "Maker Laptop 16".into()));
    w.select(port());
    assert_eq!((w.title(), w.subtitle()), ("port0".into(), "sink".into()));
    w.select(stick());
    assert!(w.subtitle().starts_with("5-1.1 \u{b7} storage \u{b7} declared by the device \u{b7} "));
    w.select(Subject::Device("9-9".into()));
    assert_eq!((w.title(), w.subtitle()), ("9-9".into(), "9-9".into()));
    assert_eq!(w.live_tooltip(), "No event source; polling");
    w.source(true, None);
    assert_eq!(w.live_tooltip(), "Updating from udev events");
    w.source(false, Some("gone".into()));
    assert_eq!(w.live_tooltip(), "gone");
}

// labels

#[test]
fn labels_are_compared_in_whatever_order() {
    let mut a = a_report().snapshot;
    let mut b = a_report().snapshot;
    assert!(same_labels(&a, &b));
    let label = |id: &str| Some(Declaration { id: id.into(), ..Declaration::default() });
    a.buses[0].children[0].declared = label("1:1");
    assert!(!same_labels(&a, &b));
    b.buses[0].children[0].declared = label("1:2");
    assert!(!same_labels(&a, &b));
    b.buses[0].children[0].declared = label("1:1");
    assert!(same_labels(&a, &b));
    a.buses[1].declared = label("3:3");
    b.buses[1].declared = label("3:3");
    b.buses.swap(0, 1);
    assert!(same_labels(&a, &b));
}

#[test]
fn clearing_a_kind_keeps_a_medium_or_a_note() {
    let set = match relabel(&None, "1:1".into(), Some(DeviceKind::Storage), 7) {
        Relabel::Store(o) => o,
        Relabel::Forget => panic!("a choice is stored"),
    };
    assert_eq!((set.kind, set.set_at_unix_ms), (Some(DeviceKind::Storage), 7));
    assert!(matches!(relabel(&Some(set.clone()), "1:1".into(), None, 9), Relabel::Forget));

    let noted = Override { note: Some("mine".into()), ..set };
    match relabel(&Some(noted), "1:1".into(), None, 9) {
        Relabel::Store(o) => {
            assert_eq!(o.kind, None);
            assert_eq!(o.note.as_deref(), Some("mine"));
            assert_eq!(o.set_at_unix_ms, 7);
        }
        Relabel::Forget => panic!("a note is another assertion"),
    }
    assert!(matches!(relabel(&None, "1:1".into(), None, 9), Relabel::Forget));
}

#[test]
fn a_device_without_ids_cannot_be_labelled() {
    let mut d = device("5-1", "2.00", 480.0, None);
    assert_eq!(
        label_id(&d).unwrap_err(),
        "5-1 reports no vendor/product id, so it cannot be labelled"
    );
    d.id_vendor = Some(0x1234);
    d.id_product = Some(0x5678);
    assert_eq!(label_id(&d).unwrap(), "1234:5678");
}

// options

fn args(a: &[&str]) -> Vec<String> {
    std::iter::once("usbdiag-gui").chain(a.iter().copied()).map(String::from).collect()
}

#[test]
fn options_are_read_in_turn() {
    assert_eq!(parse(&args(&[])), Ok(Asked::Run(Size { width: 1120, height: 760 })));
    assert_eq!(
        parse(&args(&["--width", "400", "--height", "+500"])),
        Ok(Asked::Run(Size { width: 400, height: 500 }))
    );
    assert_eq!(parse(&args(&["--width", "400", "-h"])), Ok(Asked::Help));
    assert_eq!(parse(&args(&["--version"])), Ok(Asked::Version));
    assert_eq!(parse(&Vec::new()), Ok(Asked::Run(Size { width: 1120, height: 760 })));
}

#[test]
fn each_wrong_option_says_what_is_wrong() {
    assert_eq!(parse(&args(&["--width"])), Err("--width needs a number".into()));
    assert_eq!(parse(&args(&["--height", "tall"])), Err("--height needs a number".into()));
    assert_eq!(parse(&args(&["--width", "2147483648"])), Err("--width needs a number".into()));
    assert_eq!(parse(&args(&["--full"])), Err("unknown option: --full".into()));
    let small = Err("--width/--height are below the window's minimum (360x420)".to_string());
    assert_eq!(parse(&args(&["--width", "359"])), small);
    assert_eq!(parse(&args(&["--height", "-500"])), small);
    assert_eq!(parse(&args(&["--width", "-2147483648"])), small);
    assert_eq!(
        parse(&args(&["--width", "360", "--height", "420"])),
        Ok(Asked::Run(Size { width: 360, height: 420 }))
    );
}

// catalogue

#[test]
fn a_button_appears_only_where_a_password_is_the_whole_answer() {
    let urb = probe("urb-errors").unwrap();
    let cycle = probe("reenumerate").unwrap();
    let module = Remedy::Other("a kernel module".into());
    assert_eq!(action(&urb, &Remedy::Privilege, &None, true), Action::Run { enabled: true });
    assert_eq!(action(&urb, &Remedy::Privilege, &None, false), Action::Absent);
    assert_eq!(action(&urb, &module, &None, true), Action::Absent);
    assert_eq!(action(&cycle, &Remedy::Privilege, &None, true), Action::Absent);
    let now = Some(Running { name: "throughput".into(), asked_to_stop: false });
    assert_eq!(action(&urb, &Remedy::Privilege, &now, true), Action::Run { enabled: false });
    let now = Some(Running { name: "urb-errors".into(), asked_to_stop: true });
    assert_eq!(action(&urb, &module, &now, false), Action::Stop { asked: true });
}

#[test]
fn only_a_refusal_is_answered_by_a_password() {
    let urb = probe("urb-errors").unwrap();
    let disk = probe("throughput").unwrap();
    let mut caps = Capabilities::default();
    let needs = |caps: &Capabilities, p: &ProbeInfo| state(p, &caps.remedy(p)).0;
    assert_eq!(needs(&caps, &probe("snapshot").unwrap()), "ready");
    assert_eq!(needs(&caps, &urb), "needs something that could not be determined");
    caps.usbmon.availability = Availability::Denied("root only".into());
    assert!(matches!(caps.remedy(&urb), Remedy::Privilege));
    caps.usbmon.availability = Availability::NotLoaded("modprobe usbmon".into());
    assert_eq!(needs(&caps, &urb), "needs a kernel module");
    caps.usbmon.availability = Availability::Unsupported("not built".into());
    assert_eq!(needs(&caps, &urb), "needs a different kernel");
    caps.block_read.availability = Availability::Unsupported("no disks".into());
    assert_eq!(needs(&caps, &disk), "needs something to run it on");
    caps.usbmon.availability = Availability::Usable;
    assert!(matches!(caps.remedy(&urb), Remedy::Nothing));
}

#[test]
fn a_row_names_what_is_missing() {
    let urb = probe("urb-errors").unwrap();
    assert_eq!(state(&urb, &Remedy::Nothing), ("ready".into(), "ready"));
    assert_eq!(state(&urb, &Remedy::Privilege), ("needs privilege".into(), "blocked"));
    assert_eq!(
        state(&urb, &Remedy::Other("a kernel module".into())),
        ("needs a kernel module".into(), "blocked")
    );
    let unbuilt = ProbeInfo { implemented: false, ..urb };
    assert_eq!(state(&unbuilt, &Remedy::Nothing), ("not built yet".into(), "blocked"));
    assert!(target_note(&urb).is_none());
    assert!(target_note(&probe("reenumerate").unwrap()).unwrap().contains("probe reenumerate --target"));
    assert_eq!(ready_line(&Capabilities::default()), "2 of 5 can run here");
    assert_eq!(class_css(ProbeClass::Disruptive), "heuristic");
}

#[test]
fn each_case_says_only_what_is_true_of_itself() {
    let all = [intro(true, true), intro(true, false), intro(false, true), intro(false, false)];
    for (i, a) in all.iter().enumerate() {
        for b in &all[i + 1..] {
            assert_ne!(a, b);
        }
    }
    assert!(says_why_not(false, true));
    assert!(!says_why_not(false, false));
}

#[test]
fn ages_are_rounded() {
    for (ms, text) in [
        (0, "just now"),
        (1_999, "just now"),
        (2_000, "2s ago"),
        (59_999, "59s ago"),
        (60_000, "1m ago"),
        (3_599_999, "59m ago"),
        (7_200_000, "2h ago"),
    ] {
        assert_eq!(ago(ms), text);
    }
}

#[test]
fn a_request_from_the_panel_has_no_target_and_no_consent() {
    let r = request_for(&probe("urb-errors").unwrap(), 20);
    assert_eq!(
        probe_args(&r),
        vec!["probe", "urb-errors", "--duration", "5000", "--json", "--stop-on-eof"]
    );
}

#[test]
fn what_is_about_to_happen_is_said_before_the_password() {
    let mut d = Disk { stats: Vec::new(), links: Vec::new() };
    for (path, mode) in [
        ("/", 0o40755),
        ("/usr", 0o40755),
        ("/usr/bin", 0o40755),
        ("/usr/bin/usbdiag", 0o100755),
        ("/usr/bin/pkexec", 0o100755),
    ] {
        d.stats.push(Stat {
            path: path.into(),
            read: Ok(Meta { uid: 0, mode, is_file: mode == 0o100755 }),
        });
        d.links.push(Link { path: path.into(), leads: Ok(path.into()) });
    }
    let h = Helper::find(&d, candidates(None)).unwrap();
    let (heading, body) =
        confirmation("It counts errors.", &h, &request_for(&probe("urb-errors").unwrap(), 20));
    assert_eq!(heading, "Run urb-errors as root?");
    assert!(body.starts_with("It counts errors.\n\nYou will be asked"));
    assert!(body.ends_with("/usr/bin/usbdiag probe urb-errors --duration 5000 --json --stop-on-eof"));
}

// watch

#[test]
fn the_handle_is_handed_over_before_anything_else() {
    let said = started(Source::Udev, &None);
    assert!(matches!(said[0], Out::Started));
    assert!(matches!(&said[1], Out::Source { live: true, note: None }));
    let said = waited(Source::TimerOnly, &Some("lost".into()), 3);
    assert!(matches!(&said[0], Out::Source { live: false, note: Some(n) } if n == "lost"));
    assert!(matches!(said[1], Out::Woke { events: 3 }));
}

// typeset

#[test]
fn a_chain_has_two_shapes() {
    assert_eq!(content_height(4, true, 560), 116);
    assert_eq!(content_height(4, false, 560), 102);
    assert_eq!(content_height(4, true, 559), 204);
}

#[test]
fn a_text_that_does_not_fit_says_so() {
    assert_eq!(fit("charger", true, &vec![false; 7]), "charger");
    let prefixes = vec![true, true, true, false, false, false, false];
    assert_eq!(fit("charger", false, &prefixes), "cha\u{2026}");
    assert_eq!(fit("charger", false, &vec![false; 7]), "\u{2026}");
}

#[test]
fn wrapping_drops_no_word() {
    // Four words; two to a line.
    let table: Vec<Vec<bool>> = (0..4usize)
        .map(|i| (1..=4 - i).map(|n| n <= 2).collect())
        .collect();
    let spans: Vec<(usize, usize, bool)> =
        wrap(&table, 2).iter().map(|s| (s.from, s.to, s.cut)).collect();
    assert_eq!(spans, vec![(0, 2, false), (2, 4, false)]);
    let spans: Vec<(usize, usize, bool)> =
        wrap(&table, 1).iter().map(|s| (s.from, s.to, s.cut)).collect();
    assert_eq!(spans, vec![(0, 4, true)]);
    assert!(wrap(&table, 0).is_empty());
    // A word that is too long for a line stands on one all the same.
    assert_eq!(wrap(&vec![vec![false]], 2).len(), 1);
}
