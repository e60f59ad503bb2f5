use usb_probe::diag::report;
use usb_probe::escalate::{
    candidates, fault, interpret, probe_args, vet, Disk, Helper, Link, Meta, Outcome, Refused,
    Request, Stat, Unavailable, POLKIT_ACTION, SYSTEM_PATHS,
};
use usb_probe::model::{Report, Snapshot};

const FILE: u32 = 0o100755;
const DIR: u32 = 0o40755;

fn disk() -> Disk {
    Disk { stats: Vec::new(), links: Vec::new() }
}

fn put(d: &mut Disk, path: &str, uid: u32, mode: u32) {
    d.stats.push(Stat {
        path: path.into(),
        read: Ok(Meta { uid, mode, is_file: mode & 0o170000 == 0o100000 }),
    });
    d.links.push(Link { path: path.into(), leads: Ok(path.into()) });
}

/// A machine on which every step to a path is root's own.
fn system_disk(path: &str) -> Disk {
    let mut d = disk();
    put(&mut d, "/", 0, DIR);
    let steps: Vec<&str> = path.split('/').filter(|s| !s.is_empty()).collect();
    let mut at = String::new();
    for (i, step) in steps.iter().enumerate() {
        at.push('/');
        at.push_str(step);
        put(&mut d, &at, 0, if i + 1 == steps.len() { FILE } else { DIR });
    }
    d
}

fn request(name: &str, window_ms: u64) -> Request {
    Request {
        name: name.into(),
        target: None,
        window_ms,
        cycles: 20,
        consented: false,
        accepts_disruption: false,
    }
}

#[test]
fn a_binary_the_user_can_rewrite_is_never_run_as_root() {
    let mut d = system_disk("/home/me/.local/bin/usbdiag");
    for s in &mut d.stats {
        if s.path.starts_with("/home/me") {
            if let Ok(m) = &mut s.read {
                m.uid = 1000;
            }
        }
    }

    let e = vet(&d, "/home/me/.local/bin/usbdiag").unwrap_err();
    let m = e.message();
    assert!(m.contains("owned by uid"), "{m}");
    assert!(m.contains("will not be run as root"), "{m}");
    // And it points at the fix rather than just refusing.
    assert!(m.contains("/usr/local/bin"), "{m}");
}

#[test]
fn a_root_owned_system_path_passes_the_same_walk() {
    let d = system_disk("/usr/bin/env");
    let real = vet(&d, "/usr/bin/env").unwrap_or_else(|e| panic!("{}", e.message()));
    assert!(real.starts_with('/'));
    assert!(d.is_executable_file(&real));
}

#[test]
fn the_ownership_rule_is_exactly_root_and_unwritable() {
    let p = "/usr/local/bin/usbdiag";
    assert_eq!(fault(p, 0, 0o100755), None);
    assert_eq!(fault(p, 0, 0o104755), None, "setuid is not our business here");
    assert!(fault(p, 1000, 0o100755).is_some(), "not root's");
    assert!(fault(p, 0, 0o100775).is_some(), "group-writable");
    assert!(fault(p, 0, 0o100757).is_some(), "world-writable");
    assert!(fault(p, 0, 0o41777).is_some(), "a sticky directory is still refused");
}

#[test]
fn consent_reaches_the_child_only_when_it_was_given() {
    let bare = Request { target: Some("6-1.2".into()), ..request("reenumerate", 4000) };
    let args = probe_args(&bare);
    assert!(!args.contains(&"--yes".to_string()));
    assert!(!args.contains(&"--force".to_string()));

    // Always, because the caller cannot signal a root child and the report
    // has to be machine-readable to be any use.
    assert!(args.contains(&"--json".to_string()));
    assert!(args.contains(&"--stop-on-eof".to_string()));

    // Cycles for the probe that cycles; no window, because it has none.
    assert!(args.contains(&"--cycles".to_string()));
    assert!(!args.contains(&"--duration".to_string()));

    let asked = Request { consented: true, accepts_disruption: true, ..bare };
    let args = probe_args(&asked);
    assert!(args.contains(&"--yes".to_string()));
    assert!(args.contains(&"--force".to_string()));
}

#[test]
fn a_windowed_probe_is_told_how_long_and_nothing_else() {
    let args = probe_args(&request("throughput", 4500));
    assert_eq!(
        args,
        vec!["probe", "throughput", "--duration", "4500", "--json", "--stop-on-eof"]
    );
}

#[test]
fn there_is_always_an_answer_about_this_machine() {
    let mut with_helper = system_disk("/usr/local/bin/usbdiag");
    put(&mut with_helper, "/usr/bin/pkexec", 0, FILE);
    let mut without_helper = disk();
    put(&mut without_helper, "/usr/bin/pkexec", 0, FILE);
    for d in [with_helper, without_helper, disk()] {
        match Helper::find(&d, candidates(Some("/home/me/target/debug/usbdiag-gui"))) {
            Ok(h) => {
                assert!(h.path().starts_with('/'));
                let line = h.command_line(&request("urb-errors", 3000));
                assert!(line.contains("pkexec"), "{line}");
                assert!(line.ends_with("--json --stop-on-eof"), "{line}");
            }
            Err(e) => {
                let m = e.message();
                assert!(!m.is_empty());
                // Each reason names either where it looked or what was wrong
                // with what it found.
                assert!(
                    m.contains("usbdiag") || m.contains("pkexec"),
                    "says what it is about: {m}"
                );
            }
        }
    }
}

#[test]
fn each_reason_is_told_apart() {
    let looked = candidates(None);
    assert_eq!(looked, SYSTEM_PATHS.to_vec());
    assert!(matches!(
        Helper::find(&disk(), looked.clone()).unwrap_err(),
        Unavailable::NoAuthTool
    ));

    let mut d = disk();
    put(&mut d, "/usr/bin/pkexec", 0, FILE);
    assert!(matches!(
        Helper::find(&d, looked.clone()).unwrap_err(),
        Unavailable::NotFound { .. }
    ));

    let mut d = system_disk("/usr/local/bin/usbdiag");
    put(&mut d, "/usr/bin/pkexec", 0, FILE);
    if let Ok(m) = &mut d.stats[3].read {
        m.mode = 0o40775;
    }
    match Helper::find(&d, looked).unwrap_err() {
        Unavailable::NotTrusted { path, why } => {
            assert_eq!(path, "/usr/local/bin/usbdiag");
            assert!(why.contains("/usr/local/bin"), "{why}");
        }
        other => panic!("{other:?}"),
    }
}

#[test]
fn a_refused_helper_does_not_hide_a_safe_one() {
    let mut d = system_disk("/usr/bin/usbdiag");
    put(&mut d, "/usr/bin/pkexec", 0, FILE);
    put(&mut d, "/home/me/usbdiag", 1000, FILE);
    let h = Helper::find(&d, candidates(Some("/home/me/usbdiag-gui"))).unwrap();
    assert_eq!(h.path(), "/usr/bin/usbdiag");
    assert_eq!(h.auth(), "/usr/bin/pkexec");
    assert_eq!(
        h.command_line(&request("urb-errors", 3000)),
        "/usr/bin/pkexec /usr/bin/usbdiag probe urb-errors --duration 3000 --json --stop-on-eof"
    );
}

#[test]
fn the_action_is_named_after_the_program() {
    assert!(POLKIT_ACTION.contains("usbdiag"));
}

fn a_report() -> Report {
    report(Snapshot::default(), Vec::new(), Vec::new())
}

#[test]
fn a_report_is_a_result_even_when_the_command_exited_nonzero() {
    for code in [Some(0), Some(1), None] {
        match interpret(Some(a_report()), None, "", code) {
            Outcome::Ran(_) => {}
            other => panic!("{code:?} gave {other:?}"),
        }
    }
}

#[test]
fn a_refusal_comes_back_as_a_refusal() {
    let refusal = Refused {
        code: "in_use".into(),
        recoverable: false,
        message: "refusing to run a disruptive probe on 6-1: sdb1 is mounted at /media/x".into(),
    };
    match interpret(None, Some(refusal), "", Some(2)) {
        Outcome::Refused(r) => {
            assert_eq!(r.code, "in_use");
            assert!(!r.recoverable);
            assert!(r.message.contains("/media/x"));
        }
        other => panic!("{other:?}"),
    }
}

#[test]
fn a_dismissed_prompt_is_told_apart_from_a_broken_run() {
    match interpret(
        None,
        None,
        "Error executing command as another user: Request dismissed",
        Some(126),
    ) {
        Outcome::NotAuthorised(why) => assert!(why.contains("dismissed"), "{why}"),
        other => panic!("{other:?}"),
    }
    // Nothing said at all still says something.
    assert!(matches!(interpret(None, None, "", Some(126)), Outcome::NotAuthorised(_)));

    match interpret(None, None, "no such file", Some(127)) {
        Outcome::Failed(why) => assert!(why.contains("could not be started"), "{why}"),
        other => panic!("{other:?}"),
    }
    assert!(matches!(interpret(None, None, "", Some(3)), Outcome::Failed(_)));
}
