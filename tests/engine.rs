use schema_migrate::history::History;
use schema_migrate::migration::{AppliedMigration, MigrateError, Migration, MigrationSet};
use schema_migrate::plan::{first_checksum_mismatch, pending, revert_plan, same_bytes, unknown_versions};
use schema_migrate::runner::{Action, Direction, Event, Runner, Stage};

fn mig(version: i64, description: &str, checksum: u8, down: bool) -> Migration {
    Migration::new(
        version,
        description.to_string(),
        vec![checksum, checksum + 1],
        format!("-- up {}", version),
        if down { Some(format!("-- down {}", version)) } else { None },
        false,
    )
}

fn catalog(list: Vec<Migration>) -> MigrationSet {
    match MigrationSet::new(list) {
        Ok(s) => s,
        Err(e) => panic!("catalog refused: {:?}", e),
    }
}

fn row(version: i64, checksum: Vec<u8>) -> AppliedMigration {
    AppliedMigration { version, checksum, applied_at: 0, execution_time_ms: 1 }
}

fn versions(rows: &[AppliedMigration]) -> Vec<i64> {
    rows.iter().map(|r| r.version).collect()
}

/// Drives `runner` against the in-memory history; the script of `fail_at`
/// fails. Every executed step is logged.
fn drive(h: &mut History, runner: &mut Runner, owner: u64, fail_at: Option<i64>, log: &mut Vec<String>) -> Result<usize, MigrateError> {
    let mut event = Event::Begin;
    loop {
        event = match runner.step(event) {
            Action::Lock | Action::WaitThenLock => {
                if h.try_lock(owner) {
                    Event::LockAcquired
                } else {
                    Event::LockBusy
                }
            }
            Action::EnsureTable => Event::TableReady,
            Action::QueryDirty => Event::DirtyVersion(h.dirty_version()),
            Action::ListApplied => Event::AppliedList(h.list_applied_migrations()),
            Action::Apply(i) => {
                let m = runner.migrations().get(i);
                log.push(format!("up {}", m.version));
                let outcome = if fail_at == Some(m.version) { Err("syntax error".to_string()) } else { Ok(3) };
                match h.apply(m, outcome, 100) {
                    Ok(ms) => Event::StepDone(ms),
                    Err(MigrateError::Execution(_, c)) => Event::StepFailed(c),
                    Err(e) => Event::BackendFailed(format!("{:?}", e)),
                }
            }
            Action::Revert(i) => {
                let m = runner.migrations().get(i);
                log.push(format!("down {}", m.version));
                let outcome = if fail_at == Some(m.version) { Err("syntax error".to_string()) } else { Ok(2) };
                match h.revert(m, outcome) {
                    Ok(ms) => Event::StepDone(ms),
                    Err(MigrateError::Execution(_, c)) => Event::StepFailed(c),
                    Err(e) => Event::BackendFailed(format!("{:?}", e)),
                }
            }
            Action::Unlock => {
                h.unlock(owner);
                Event::Unlocked
            }
            Action::Finish(r) => return r,
        };
    }
}

fn three() -> Vec<Migration> {
    vec![mig(3, "three", 30, true), mig(1, "one", 10, true), mig(2, "two", 20, true)]
}

#[test]
fn catalog_sorts_descriptors() {
    let s = catalog(three());
    assert_eq!(s.len(), 3);
    assert_eq!(s.get(0).version, 1);
    assert_eq!(s.get(1).version, 2);
    assert_eq!(s.get(2).version, 3);
    assert_eq!(s.find(2), Some(1));
    assert_eq!(s.find(9), None);
}

#[test]
fn catalog_refuses_duplicate_version() {
    let r = MigrationSet::new(vec![mig(1, "a", 1, true), mig(2, "b", 2, true), mig(1, "c", 3, true)]);
    assert!(matches!(r, Err(MigrateError::DuplicateVersion(1))));
}

#[test]
fn empty_catalog_is_accepted() {
    let s = catalog(vec![]);
    assert_eq!(s.len(), 0);
}

#[test]
fn reversibility_follows_down_script() {
    assert!(mig(1, "a", 1, true).is_reversible());
    assert!(!mig(1, "a", 1, false).is_reversible());
}

#[test]
fn plans_from_history() {
    let s = catalog(three());
    let rows = vec![row(2, vec![20, 21]), row(7, vec![1])];
    assert_eq!(pending(&s, &rows), vec![0, 2]);
    assert_eq!(unknown_versions(&s, &rows), vec![7]);
    assert_eq!(first_checksum_mismatch(&s, &rows), None);
    let all = vec![row(1, vec![10, 11]), row(2, vec![20, 21]), row(3, vec![30, 31])];
    assert_eq!(revert_plan(&s, &all, 1), vec![2, 1]);
    assert_eq!(revert_plan(&s, &all, 0), vec![2, 1, 0]);
    assert_eq!(revert_plan(&s, &all, 3), Vec::<usize>::new());
}

#[test]
fn first_mismatch_in_history_order() {
    let s = catalog(three());
    let rows = vec![row(1, vec![10, 11]), row(2, vec![0]), row(3, vec![0])];
    assert_eq!(first_checksum_mismatch(&s, &rows), Some(2));
}

#[test]
fn byte_comparison() {
    assert!(same_bytes(&vec![1, 2], &vec![1, 2]));
    assert!(!same_bytes(&vec![1, 2], &vec![1, 3]));
    assert!(!same_bytes(&vec![1], &vec![1, 2]));
}

#[test]
fn history_records_apply_and_revert() {
    let mut h = History::new();
    assert_eq!(h.version(), None);
    let m2 = mig(2, "two", 20, true);
    let m1 = mig(1, "one", 10, true);
    assert_eq!(h.apply(&m2, Ok(4), 10), Ok(4));
    assert_eq!(h.apply(&m1, Ok(5), 11), Ok(5));
    let rows = h.list_applied_migrations();
    assert_eq!(versions(&rows), vec![1, 2]);
    assert_eq!(rows[0].checksum, vec![10, 11]);
    assert_eq!(rows[0].execution_time_ms, 5);
    assert_eq!(h.version(), Some((2, false)));
    assert_eq!(h.validate(&m1), Ok(()));
    assert_eq!(h.validate(&mig(1, "one", 99, true)), Err(MigrateError::ChecksumMismatch(1)));
    assert_eq!(h.validate(&mig(5, "five", 99, true)), Ok(()));
    assert_eq!(h.revert(&m2, Ok(1)), Ok(1));
    assert_eq!(versions(&h.list_applied_migrations()), vec![1]);
    assert_eq!(h.revert(&mig(1, "one", 10, false), Ok(1)), Err(MigrateError::NoRevertScript(1)));
    assert_eq!(versions(&h.list_applied_migrations()), vec![1]);
}

#[test]
fn history_failed_revert_sets_dirty() {
    let mut h = History::new();
    let m = mig(1, "one", 10, true);
    assert_eq!(h.apply(&m, Ok(1), 0), Ok(1));
    assert_eq!(h.revert(&m, Err("boom".to_string())), Err(MigrateError::Execution(1, "boom".to_string())));
    assert_eq!(h.dirty_version(), Some(1));
    assert_eq!(h.version(), Some((1, true)));
    assert_eq!(h.revert(&m, Ok(1)), Ok(1));
    assert_eq!(h.dirty_version(), None);
    assert_eq!(h.version(), None);
}

#[test]
fn lock_is_exclusive() {
    let mut h = History::new();
    assert!(h.try_lock(1));
    assert!(!h.try_lock(2));
    assert!(!h.try_lock(1));
    h.unlock(2);
    assert!(!h.try_lock(2));
    h.unlock(1);
    assert!(h.try_lock(2));
}

#[test]
fn full_apply_records_catalog_in_order() {
    let mut h = History::new();
    let mut r = Runner::new(catalog(three()), Direction::Up, true, 3);
    let mut log = Vec::new();
    assert_eq!(drive(&mut h, &mut r, 1, None, &mut log), Ok(3));
    assert_eq!(log, vec!["up 1", "up 2", "up 3"]);
    let rows = h.list_applied_migrations();
    assert_eq!(versions(&rows), vec![1, 2, 3]);
    assert_eq!(rows[0].checksum, vec![10, 11]);
    assert_eq!(rows[1].checksum, vec![20, 21]);
    assert_eq!(rows[2].checksum, vec![30, 31]);
    assert_eq!(h.version(), Some((3, false)));
    assert!(h.try_lock(9));
}

#[test]
fn apply_fills_gaps_in_history() {
    let mut h = History::new();
    assert_eq!(h.apply(&mig(2, "two", 20, true), Ok(1), 0), Ok(1));
    let mut r = Runner::new(catalog(three()), Direction::Up, true, 3);
    let mut log = Vec::new();
    assert_eq!(drive(&mut h, &mut r, 1, None, &mut log), Ok(2));
    assert_eq!(log, vec!["up 1", "up 3"]);
    assert_eq!(versions(&h.list_applied_migrations()), vec![1, 2, 3]);
}

#[test]
fn second_apply_run_is_noop() {
    let mut h = History::new();
    let mut log = Vec::new();
    let mut r = Runner::new(catalog(three()), Direction::Up, true, 3);
    assert_eq!(drive(&mut h, &mut r, 1, None, &mut log), Ok(3));
    let before = h.list_applied_migrations();
    let mut again = Runner::new(catalog(three()), Direction::Up, true, 3);
    let mut log2 = Vec::new();
    assert_eq!(drive(&mut h, &mut again, 1, None, &mut log2), Ok(0));
    assert!(log2.is_empty());
    assert_eq!(h.list_applied_migrations(), before);
    assert_eq!(again.current_stage(), Stage::Done);
}

#[test]
fn revert_then_reapply_restores_history() {
    let mut h = History::new();
    let mut log = Vec::new();
    let mut r = Runner::new(catalog(three()), Direction::Up, true, 3);
    assert_eq!(drive(&mut h, &mut r, 1, None, &mut log), Ok(3));
    let before = h.list_applied_migrations();
    let mut down = Runner::new(catalog(three()), Direction::Down(2), true, 3);
    assert_eq!(drive(&mut h, &mut down, 1, None, &mut log), Ok(1));
    assert_eq!(versions(&h.list_applied_migrations()), vec![1, 2]);
    let mut up = Runner::new(catalog(three()), Direction::Up, true, 3);
    assert_eq!(drive(&mut h, &mut up, 1, None, &mut log), Ok(1));
    let after = h.list_applied_migrations();
    assert_eq!(versions(&after), versions(&before));
    assert_eq!(after[2].checksum, before[2].checksum);
    assert_eq!(h.dirty_version(), None);
}

#[test]
fn failed_script_leaves_dirty_and_blocks_next_run() {
    let mut h = History::new();
    let mut log = Vec::new();
    let mut r = Runner::new(catalog(three()), Direction::Up, true, 3);
    assert_eq!(
        drive(&mut h, &mut r, 1, Some(2), &mut log),
        Err(MigrateError::Execution(2, "syntax error".to_string()))
    );
    assert_eq!(log, vec!["up 1", "up 2"]);
    assert_eq!(h.version(), Some((2, true)));
    assert_eq!(h.dirty_version(), Some(2));
    let mut next = Runner::new(catalog(three()), Direction::Up, true, 3);
    let mut log2 = Vec::new();
    assert_eq!(drive(&mut h, &mut next, 1, None, &mut log2), Err(MigrateError::DirtyDatabase(2)));
    assert!(log2.is_empty());
    assert!(h.try_lock(5));
}

#[test]
fn altered_checksum_stops_run_before_pending() {
    let mut h = History::new();
    let mut log = Vec::new();
    let mut r = Runner::new(catalog(vec![mig(1, "one", 10, true)]), Direction::Up, true, 3);
    assert_eq!(drive(&mut h, &mut r, 1, None, &mut log), Ok(1));
    let mut rows = h.list_applied_migrations();
    rows[0].checksum = vec![0, 0];
    let mut next = Runner::new(catalog(three()), Direction::Up, true, 3);
    assert!(matches!(next.step(Event::Begin), Action::Lock));
    assert!(matches!(next.step(Event::LockAcquired), Action::EnsureTable));
    assert!(matches!(next.step(Event::TableReady), Action::QueryDirty));
    assert!(matches!(next.step(Event::DirtyVersion(None)), Action::ListApplied));
    assert!(matches!(next.step(Event::AppliedList(rows)), Action::Unlock));
    match next.step(Event::Unlocked) {
        Action::Finish(r) => assert_eq!(r, Err(MigrateError::ChecksumMismatch(1))),
        _ => panic!("run did not finish"),
    }
}

#[test]
fn edited_descriptor_is_reported_as_drift() {
    let mut h = History::new();
    let mut log = Vec::new();
    let mut r = Runner::new(catalog(three()), Direction::Up, true, 3);
    assert_eq!(drive(&mut h, &mut r, 1, None, &mut log), Ok(3));
    let edited = vec![mig(1, "one", 10, true), mig(2, "two", 77, true), mig(3, "three", 30, true), mig(4, "four", 40, true)];
    let mut next = Runner::new(catalog(edited), Direction::Up, true, 3);
    let mut log2 = Vec::new();
    assert_eq!(drive(&mut h, &mut next, 1, None, &mut log2), Err(MigrateError::ChecksumMismatch(2)));
    assert!(log2.is_empty());
}

#[test]
fn concurrent_runner_waits_then_times_out() {
    let mut h = History::new();
    assert!(h.try_lock(1));
    let mut other = Runner::new(catalog(three()), Direction::Up, true, 2);
    let mut log = Vec::new();
    assert_eq!(drive(&mut h, &mut other, 2, None, &mut log), Err(MigrateError::LockTimeout));
    assert!(log.is_empty());
    assert_eq!(h.version(), None);
    h.unlock(1);
    let mut retry = Runner::new(catalog(three()), Direction::Up, true, 2);
    assert_eq!(drive(&mut h, &mut retry, 2, None, &mut log), Ok(3));
}

#[test]
fn lock_busy_then_acquired() {
    let mut r = Runner::new(catalog(three()), Direction::Up, true, 3);
    assert!(matches!(r.step(Event::Begin), Action::Lock));
    assert!(matches!(r.step(Event::LockBusy), Action::WaitThenLock));
    assert!(matches!(r.step(Event::LockBusy), Action::WaitThenLock));
    assert!(matches!(r.step(Event::LockAcquired), Action::EnsureTable));
    assert_eq!(r.current_stage(), Stage::PreparingTable);
}

#[test]
fn create_then_add_column_scenario() {
    let set = vec![mig(1, "create table", 1, true), mig(2, "add column", 2, true)];
    let mut h = History::new();
    let mut log = Vec::new();
    let mut up = Runner::new(catalog(set), Direction::Up, true, 1);
    assert_eq!(drive(&mut h, &mut up, 1, None, &mut log), Ok(2));
    assert_eq!(versions(&h.list_applied_migrations()), vec![1, 2]);
    let set = vec![mig(1, "create table", 1, true), mig(2, "add column", 2, true)];
    let mut down = Runner::new(catalog(set), Direction::Down(0), true, 1);
    assert_eq!(drive(&mut h, &mut down, 1, None, &mut log), Ok(2));
    assert_eq!(log, vec!["up 1", "up 2", "down 2", "down 1"]);
    assert!(h.list_applied_migrations().is_empty());
}

#[test]
fn irreversible_migration_stops_revert() {
    let set = vec![mig(1, "one", 1, true), mig(2, "two", 2, false), mig(3, "three", 3, true)];
    let mut h = History::new();
    let mut log = Vec::new();
    let mut up = Runner::new(catalog(set), Direction::Up, true, 1);
    assert_eq!(drive(&mut h, &mut up, 1, None, &mut log), Ok(3));
    let set = vec![mig(1, "one", 1, true), mig(2, "two", 2, false), mig(3, "three", 3, true)];
    let mut down = Runner::new(catalog(set), Direction::Down(0), true, 1);
    assert_eq!(drive(&mut h, &mut down, 1, None, &mut log), Err(MigrateError::NoRevertScript(2)));
    assert_eq!(versions(&h.list_applied_migrations()), vec![1, 2]);
    assert!(h.try_lock(4));
}

#[test]
fn unknown_history_version_strict_and_lenient() {
    let mut h = History::new();
    assert_eq!(h.apply(&mig(9, "gone", 9, true), Ok(1), 0), Ok(1));
    let mut log = Vec::new();
    let mut strict = Runner::new(catalog(three()), Direction::Up, true, 1);
    assert_eq!(drive(&mut h, &mut strict, 1, None, &mut log), Err(MigrateError::VersionMismatch(9)));
    assert!(log.is_empty());
    let mut lenient = Runner::new(catalog(three()), Direction::Up, false, 1);
    assert_eq!(drive(&mut h, &mut lenient, 1, None, &mut log), Ok(3));
    assert_eq!(lenient.unknown_applied(), &vec![9]);
    assert_eq!(versions(&h.list_applied_migrations()), vec![1, 2, 3, 9]);
}

#[test]
fn backend_failure_releases_lock() {
    let mut r = Runner::new(catalog(three()), Direction::Up, true, 1);
    assert!(matches!(r.step(Event::Begin), Action::Lock));
    assert!(matches!(r.step(Event::LockAcquired), Action::EnsureTable));
    assert!(matches!(r.step(Event::BackendFailed("denied".to_string())), Action::Unlock));
    match r.step(Event::Unlocked) {
        Action::Finish(res) => assert_eq!(res, Err(MigrateError::Backend("denied".to_string()))),
        _ => panic!("run did not finish"),
    }
}

#[test]
fn backend_failure_while_locking_finishes() {
    let mut r = Runner::new(catalog(three()), Direction::Up, true, 1);
    assert!(matches!(r.step(Event::Begin), Action::Lock));
    match r.step(Event::BackendFailed("refused".to_string())) {
        Action::Finish(res) => assert_eq!(res, Err(MigrateError::Backend("refused".to_string()))),
        _ => panic!("run did not finish"),
    }
}

#[test]
fn unexpected_event_is_refused() {
    let mut r = Runner::new(catalog(three()), Direction::Up, true, 1);
    match r.step(Event::TableReady) {
        Action::Finish(res) => assert_eq!(res, Err(MigrateError::UnexpectedEvent)),
        _ => panic!("run did not finish"),
    }
    let mut r = Runner::new(catalog(three()), Direction::Up, true, 1);
    assert!(matches!(r.step(Event::Begin), Action::Lock));
    assert!(matches!(r.step(Event::LockAcquired), Action::EnsureTable));
    assert!(matches!(r.step(Event::StepDone(1)), Action::Unlock));
    match r.step(Event::Unlocked) {
        Action::Finish(res) => assert_eq!(res, Err(MigrateError::UnexpectedEvent)),
        _ => panic!("run did not finish"),
    }
}
