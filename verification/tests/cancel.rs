use usb_probe::cancel::Cancel;

#[test]
fn a_plain_token_never_stops() {
    let c = Cancel::never();
    assert!(!c.stopped());
    assert!(!c.stopped(), "and asking twice does not change it");
}

#[test]
fn every_clone_watches_the_same_flag() {
    let a = Cancel::never();
    let b = a.clone();
    assert!(!b.stopped());
    a.stop();
    assert!(b.stopped(), "a probe holding a clone must see the stop");
}

#[test]
fn stopping_is_idempotent() {
    let c = Cancel::never();
    c.stop();
    c.stop();
    assert!(c.stopped());
}
