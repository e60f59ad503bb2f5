use usb_probe::caps::{
    detect_in, first_disk_node, probe, read_effective_uid, Availability, Capabilities, Interface,
    ProbeClass, Requirement, PROBES,
};
use usb_probe::root::{Attempt, Mode, Opened, Place, Root};

const TEXT_STREAM: &str = "sys/kernel/debug/usb/usbmon/0u";

fn dir(root: &mut Root, path: &str) {
    root.places.push(Place { path: path.into(), text: None });
}

fn file(root: &mut Root, path: &str, text: &str) {
    root.places.push(Place { path: path.into(), text: Some(text.into()) });
    for mode in [Mode::Read, Mode::Write, Mode::Append] {
        root.attempts.push(Attempt { path: path.into(), mode, outcome: Opened::Yes });
    }
}

fn bare_root() -> Root {
    Root { places: Vec::new(), attempts: Vec::new(), direct_io: true }
}

fn fake_root(config: Option<&str>, modules: &str) -> Root {
    let mut root = bare_root();
    dir(&mut root, "dev/bus/usb/001");
    file(
        &mut root,
        "proc/self/status",
        "Name:\tusbdiag\nUid:\t1000\t1000\t1000\t1000\nGid:\t1000\t1000\t1000\t1000\n",
    );
    file(&mut root, "proc/sys/kernel/osrelease", "6.17.0-test\n");
    file(&mut root, "proc/modules", modules);
    if let Some(c) = config {
        file(&mut root, "boot/config-6.17.0-test", c);
    }
    root
}

fn names(caps: &Capabilities) -> Vec<&'static str> {
    caps.runnable().iter().map(|p| p.name).collect()
}

#[test]
fn reads_the_effective_uid_not_the_real_one() {
    let mut root = bare_root();
    // Real 1000, effective 0: what a setuid binary looks like.
    file(
        &mut root,
        "proc/self/status",
        "Uid:\t1000\t0\t0\t1000\nGid:\t1000\t1000\t1000\t1000\n",
    );
    assert_eq!(read_effective_uid(&root), Some(0));
}

#[test]
fn a_module_that_is_not_loaded_is_not_the_same_as_unsupported() {
    let root = fake_root(Some("CONFIG_USB_MON=m\n"), "ext4 1000000 0 - Live\n");
    let caps = detect_in(&root);
    assert!(
        matches!(caps.usbmon.availability, Availability::NotLoaded(_)),
        "{:?}",
        caps.usbmon
    );
    assert!(caps.usbmon.availability.explain().contains("modprobe"));
    assert!(!caps.is_root());
}

#[test]
fn a_kernel_without_usbmon_is_reported_as_unsupported() {
    let root = fake_root(Some("CONFIG_DEBUG_FS=y\n"), "");
    let caps = detect_in(&root);
    assert!(
        matches!(caps.usbmon.availability, Availability::Unsupported(_)),
        "{:?}",
        caps.usbmon
    );
    // No amount of privilege fixes this, and the text must not suggest it.
    assert!(caps.usbmon.availability.explain().contains("any privilege"));
}

#[test]
fn an_openable_interface_is_usable_whatever_the_config_says() {
    let mut root = fake_root(None, "");
    file(&mut root, TEXT_STREAM, "");

    let caps = detect_in(&root);
    assert_eq!(caps.usbmon.availability, Availability::Usable);
    assert_eq!(caps.usbmon.path.as_deref(), Some("/sys/kernel/debug/usb/usbmon/0u"));
}

#[test]
fn permission_denied_on_debugfs_is_not_proof_the_stream_exists() {
    let mut root = fake_root(Some("CONFIG_USB_MON=m\n"), "");
    root.attempts.push(Attempt {
        path: TEXT_STREAM.into(),
        mode: Mode::Read,
        outcome: Opened::Denied,
    });

    let caps = detect_in(&root);
    // The module is not loaded, so that is the answer: not "denied", and
    // certainly not a claim about a file nobody could see.
    assert!(
        matches!(caps.usbmon.availability, Availability::NotLoaded(_)),
        "{:?}",
        caps.usbmon
    );
    let why = caps.usbmon.availability.explain();
    assert!(why.contains("modprobe"), "{why}");
    assert!(why.contains("still need root"), "both barriers named: {why}");
    assert!(caps.usbmon.path.is_none(), "no path was ever confirmed");

    // With the module loaded, the same refusal means something definite.
    file(&mut root, "dev/usbmon0", "");
    let caps = detect_in(&root);
    assert!(
        matches!(caps.usbmon.availability, Availability::Denied(_)),
        "{:?}",
        caps.usbmon
    );
    assert!(caps.usbmon.availability.explain().contains("needs root"));
}

#[test]
fn a_binary_node_alone_is_not_usable() {
    let mut root = fake_root(Some("CONFIG_USB_MON=m\n"), "");
    file(&mut root, "dev/usbmon0", "");

    let caps = detect_in(&root);
    assert!(!caps.usbmon.is_usable());
    assert!(
        matches!(caps.usbmon.availability, Availability::Unknown(_)),
        "loaded but no text stream: {:?}",
        caps.usbmon
    );
    assert!(caps.usbmon.availability.explain().contains("debugfs"));
}

#[test]
fn missing_usbfs_nodes_are_unsupported_not_denied() {
    let root = fake_root(Some("CONFIG_USB_MON=m\n"), "");
    let caps = detect_in(&root);
    assert!(
        matches!(caps.usbfs.availability, Availability::Unsupported(_)),
        "{:?}",
        caps.usbfs
    );
}

#[test]
fn each_interface_unlocks_only_the_probes_that_need_it() {
    let mut root = fake_root(None, "");
    file(&mut root, "dev/bus/usb/001/001", "");

    let caps = detect_in(&root);
    assert_eq!(caps.usbfs.availability, Availability::Usable);

    // usbfs unlocks nothing on its own: throughput reads raw disks and
    // reenumerate writes a hub port control.
    let n = names(&caps);
    assert!(!n.contains(&"throughput"), "{n:?}");
    assert!(!n.contains(&"reenumerate"), "{n:?}");
    assert!(!n.contains(&"urb-errors"), "{n:?}");

    // A readable disk unlocks exactly one of them.
    file(&mut root, "dev/sda", "");
    let caps = detect_in(&root);
    assert_eq!(caps.block_read.availability, Availability::Usable);
    let n = names(&caps);
    assert!(n.contains(&"throughput"), "{n:?}");
    assert!(!n.contains(&"reenumerate"), "{n:?}");

    // And a writable port control unlocks the other.
    let port = "sys/bus/usb/devices/usb1/1-0:1.0/usb1-port1";
    dir(&mut root, "sys/bus/usb/devices/usb1");
    dir(&mut root, "sys/bus/usb/devices/usb1/1-0:1.0");
    dir(&mut root, port);
    file(&mut root, &format!("{port}/disable"), "0\n");
    let caps = detect_in(&root);
    assert_eq!(caps.port_control.availability, Availability::Usable);
    let n = names(&caps);
    assert!(n.contains(&"reenumerate"), "{n:?}");
    assert!(!n.contains(&"urb-errors"), "{n:?}");
}

#[test]
fn disk_detection_skips_partitions() {
    let mut root = fake_root(None, "");
    for n in ["sda1", "sdb", "sda"] {
        file(&mut root, &format!("dev/{n}"), "");
    }
    assert_eq!(first_disk_node(&root).as_deref(), Some("dev/sda"));
}

#[test]
fn passive_probes_run_with_no_capabilities_at_all() {
    let caps = Capabilities::default();
    assert_eq!(names(&caps), vec!["snapshot", "storage-sample"]);

    for p in PROBES {
        let p = p.info();
        assert_eq!(
            p.class.runs_by_default(),
            p.class == ProbeClass::Passive,
            "{} must not run by default",
            p.name
        );
        // Anything that needs an interface must be classified beyond passive.
        if p.needs != Requirement::Nothing {
            assert_ne!(p.class, ProbeClass::Passive, "{}", p.name);
        }
    }
}

#[test]
fn a_blocker_names_the_probe_the_interface_and_the_reason() {
    let caps = Capabilities {
        effective_uid: Some(1000),
        usbmon: Interface::new(Availability::NotLoaded("module not loaded".into()), None),
        usbfs: Interface::new(Availability::Usable, None),
        block_read: Interface::new(Availability::Usable, None),
        port_control: Interface::new(Availability::Usable, None),
    };
    let why = caps.blocker(&probe("urb-errors").unwrap()).unwrap();
    assert!(why.contains("urb-errors") && why.contains("usbmon"), "{why}");
    assert!(why.contains("module not loaded"), "{why}");
    assert_eq!(why, "urb-errors needs usbmon: module not loaded");
    assert!(caps.blocker(&probe("throughput").unwrap()).is_none());
    assert!(caps.blocker(&probe("snapshot").unwrap()).is_none());
}

#[test]
fn detecting_on_the_host_does_not_panic() {
    let caps = detect_in(&fake_root(None, ""));
    assert!(caps.effective_uid.is_some(), "the status file is readable");
    // The passive probes are always available and nothing else may be assumed.
    assert!(!caps.runnable().is_empty());
}

#[test]
fn an_unknown_probe_is_none() {
    assert!(probe("smoke-test").is_none());
    assert_eq!(probe("reenumerate").unwrap().class, ProbeClass::Disruptive);
}

#[test]
fn a_failed_open_says_how_it_failed() {
    let mut root = fake_root(None, "");
    dir(&mut root, "dev/sda");
    root.attempts.push(Attempt {
        path: "dev/sda".into(),
        mode: Mode::Read,
        outcome: Opened::Failed("Device or resource busy".into()),
    });
    let caps = detect_in(&root);
    let why = caps.block_read.availability.explain();
    assert!(why.contains("/dev/sda") && why.contains("Device or resource busy"), "{why}");
}

#[test]
fn without_direct_io_no_disk_can_be_measured() {
    let mut root = fake_root(None, "");
    file(&mut root, "dev/sda", "");
    root.direct_io = false;
    assert!(matches!(
        detect_in(&root).block_read.availability,
        Availability::Unsupported(_)
    ));
}
