use cmd_relay::Registry;

#[test]
fn fresh_sessions_are_active() {
    let mut r = Registry::new();
    let a = r.register();
    let b = r.register();
    assert_ne!(a, b);
    assert!(!r.is_stopped(a));
    assert!(!r.is_stopped(b));
}

#[test]
fn unknown_slot_counts_as_stopped() {
    let r = Registry::new();
    assert!(r.is_stopped(0));
    assert!(r.is_stopped(17));
}

#[test]
fn deregister_stops_only_that_session() {
    let mut r = Registry::new();
    let a = r.register();
    let b = r.register();
    r.deregister(a);
    assert!(r.is_stopped(a));
    assert!(!r.is_stopped(b));
    // deregistering a slot that never existed is harmless
    r.deregister(999);
    assert!(!r.is_stopped(b));
}

#[test]
fn abort_all_stops_every_active_session() {
    let mut r = Registry::new();
    let a = r.register();
    let b = r.register();
    let c = r.register();
    // one session already ended on its own: no active execution behind it
    r.deregister(b);
    r.abort_all();
    assert!(r.is_stopped(a));
    assert!(r.is_stopped(b));
    assert!(r.is_stopped(c));
}

#[test]
fn abort_all_on_empty_registry_is_harmless() {
    let mut r = Registry::new();
    r.abort_all();
    assert!(r.is_stopped(0));
}

#[test]
fn sessions_registered_after_abort_all_are_active() {
    let mut r = Registry::new();
    r.register();
    r.abort_all();
    let later = r.register();
    assert!(!r.is_stopped(later));
}
