use integ::saturation::{ExtractFrom, HookAction, SnapshotLog};

#[test]
fn hook_stops_on_unsoundness() {
    assert_eq!(SnapshotLog::<u32>::on_iteration(false), HookAction::Snapshot);
    assert_eq!(SnapshotLog::<u32>::on_iteration(true), HookAction::Stop);
}

#[test]
fn extraction_source() {
    let mut log: SnapshotLog<u32> = SnapshotLog::new();
    assert_eq!(log.extract_from(false), ExtractFrom::FinalGraph);
    assert_eq!(log.extract_from(true), ExtractFrom::NoSnapshot);
    log.record(1);
    log.record(2);
    assert_eq!(log.last, Some(2));
    assert_eq!(log.extract_from(true), ExtractFrom::LastSnapshot);
    assert_eq!(log.extract_from(false), ExtractFrom::FinalGraph);
}
