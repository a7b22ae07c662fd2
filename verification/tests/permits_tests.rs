use botcore::permits::PermitGate;

#[test]
fn unit_bound_serializes_tasks() {
    let mut gate = PermitGate::new(1);
    // The first task takes the only permit.
    assert!(gate.try_acquire());
    // A second task cannot start while the first holds it.
    assert!(!gate.try_acquire());
    assert!(!gate.try_acquire());
    // Only after the first task's permit is back may the second begin.
    gate.release();
    assert!(gate.try_acquire());
}

#[test]
fn bound_caps_concurrency() {
    let mut gate = PermitGate::new(3);
    assert!(gate.try_acquire());
    assert!(gate.try_acquire());
    assert!(gate.try_acquire());
    assert!(!gate.try_acquire());
    gate.release();
    assert!(gate.try_acquire());
    assert!(!gate.try_acquire());
}

#[test]
fn zero_bound_admits_nobody() {
    let mut gate = PermitGate::new(0);
    assert!(!gate.try_acquire());
}

#[test]
fn release_frees_in_any_order() {
    let mut gate = PermitGate::new(2);
    assert!(gate.try_acquire());
    assert!(gate.try_acquire());
    gate.release();
    gate.release();
    assert!(gate.try_acquire());
}
