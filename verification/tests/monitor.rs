use usb_probe::monitor::{
    monitor_args, parse_line, settle, DeviceEvent, Feed, Settle, Source, Wake, SUBSYSTEMS,
};

#[test]
fn parses_a_udev_event_line() {
    let ev = parse_line(
        "UDEV  [64095.123456] add      /devices/pci0000:00/0000:00:14.0/usb5/5-1 (usb)",
    )
    .expect("should parse");
    assert_eq!(ev.action, "add");
    assert_eq!(ev.devpath, "/devices/pci0000:00/0000:00:14.0/usb5/5-1");
    assert_eq!(ev.subsystem, "usb");

    let ev = parse_line("KERNEL[12.5] change   /devices/platform/USBC000:00/typec/port0 (typec)")
        .expect("should parse");
    assert_eq!(ev.action, "change");
    assert_eq!(ev.subsystem, "typec");
}

#[test]
fn ignores_non_event_lines() {
    assert!(parse_line("monitor will print the received events for:").is_none());
    assert!(parse_line("UDEV - the event which udev sends out after rule processing").is_none());
    assert!(parse_line("").is_none());
    assert!(parse_line("UDEV").is_none());
    assert!(parse_line("UDEV  [1.0] add").is_none());
}

/// Absorbs a stream the way a monitor does, where every event comes after `gap_ms`.
fn absorb(wakes: Vec<Wake>, gap_ms: u64, quiet_ms: u64, max_ms: u64) -> usize {
    let mut seen = 0;
    let mut left = max_ms;
    for wake in wakes {
        match settle(seen, &wake, left, quiet_ms) {
            Settle::Over(n) => return n,
            Settle::Wait(ms) => {
                seen += 1;
                if ms <= gap_ms {
                    return match settle(seen, &Wake::Timeout, left, quiet_ms) {
                        Settle::Over(n) => n,
                        Settle::Wait(_) => unreachable!(),
                    };
                }
                left = left.saturating_sub(gap_ms);
            }
        }
    }
    seen
}

#[test]
fn a_burst_of_events_coalesces_into_one_wake_up() {
    let stream = "monitor will print the received events for:\n\
         UDEV  [1.100] add      /devices/pci0000:00/usb5/5-1 (usb)\n\
         UDEV  [1.140] change   /devices/platform/USBC000:00/typec/port0 (typec)\n\
         UDEV  [1.190] change   /devices/platform/USBC000:00/typec/port0 (typec)\n";
    let mut wakes: Vec<Wake> = stream.lines().filter_map(parse_line).map(Wake::Event).collect();
    assert_eq!(wakes.len(), 3);
    wakes.push(Wake::Timeout);
    assert_eq!(absorb(wakes, 0, 50, 500), 3, "all three events belong to one repaint");

    // The stream has ended: the next wait times out, and says why.
    let mut feed = Feed::started(None);
    assert_eq!(feed.source(), Source::Udev);
    assert!(feed.note().is_none());
    feed.ended();
    assert_eq!(settle(0, &Wake::Timeout, 200, 20), Settle::Over(0));
    assert_eq!(feed.source(), Source::TimerOnly);
    assert!(feed.note().is_some(), "the downgrade must explain itself");
}

#[test]
fn start_always_yields_a_usable_monitor() {
    for error in [None, Some("No such file or directory (os error 2)")] {
        let feed = Feed::started(error);
        match feed.source() {
            Source::Udev => assert!(feed.note().is_none()),
            Source::TimerOnly => {
                assert!(feed.note().is_some(), "a fallback must explain itself");
                assert!(feed.note().unwrap().contains("os error 2"));
            }
        }
    }
}

#[test]
fn a_storm_ends_when_its_time_is_up() {
    let event = || {
        Wake::Event(DeviceEvent {
            action: "change".into(),
            devpath: "/devices/x".into(),
            subsystem: "usb".into(),
        })
    };
    let storm: Vec<Wake> = (0..1000).map(|_| event()).collect();
    // Every 10 ms, never quiet for 50, at most 500 in all.
    assert_eq!(absorb(storm, 10, 50, 500), 50);
}

#[test]
fn every_subsystem_is_asked_for() {
    let args = monitor_args(&SUBSYSTEMS.iter().map(|s| s.to_string()).collect());
    assert_eq!(args[0], "monitor");
    for s in SUBSYSTEMS {
        assert!(args.iter().any(|a| a.contains(s)), "{args:?}");
    }
}
