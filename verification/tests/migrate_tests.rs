use vote_service::migrate::MigrationLog;

#[test]
fn a_fresh_database_applies_everything_in_order() {
    let available: Vec<u64> = vec![20230101, 20230215, 20230903];
    let mut log = MigrationLog::new();
    let applied_now = log.run_all(&available);
    assert_eq!(applied_now, vec![20230101, 20230215, 20230903]);
    assert_eq!(log.applied, vec![20230101, 20230215, 20230903]);
}

#[test]
fn a_second_pass_applies_nothing() {
    let available: Vec<u64> = vec![20230101, 20230215, 20230903];
    let mut log = MigrationLog::new();
    log.run_all(&available);
    let second = log.run_all(&available);
    assert_eq!(second.len(), 0);
    assert_eq!(log.applied, vec![20230101, 20230215, 20230903]);
}

#[test]
fn only_unapplied_versions_are_pending_in_ascending_order() {
    let mut log = MigrationLog::new();
    log.applied.push(20230215);
    let available: Vec<u64> = vec![20230101, 20230215, 20230903];
    let pending = log.pending(&available);
    assert_eq!(pending, vec![20230101, 20230903]);
    assert!(log.is_applied(20230215));
    assert!(!log.is_applied(20230101));
}

#[test]
fn a_partial_record_resumes_where_it_stopped() {
    let mut log = MigrationLog::new();
    log.applied.push(20230101);
    let available: Vec<u64> = vec![20230101, 20230215, 20230903];
    let applied_now = log.run_all(&available);
    assert_eq!(applied_now, vec![20230215, 20230903]);
    assert_eq!(log.applied, vec![20230101, 20230215, 20230903]);
}
