use dify_agent_runtime::gate::SnapshotGate;

#[test]
fn one_snapshot_at_a_time() {
    let gate = SnapshotGate::new();
    let first = gate.try_lock();
    assert!(first.is_some());
    assert!(gate.try_lock().is_none());
    drop(first);
    assert!(gate.try_lock().is_some());
}
