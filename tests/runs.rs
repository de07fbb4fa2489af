use migrate_core::migrator::{AppliedMigration, MigrateError, OutOfOrderPolicy};
use migrate_core::resolve::{resolve, MigrationSet, SourceFile};
use migrate_core::run::{Action, Direction, Event, Phase, Run, RunError};
use migrate_core::types::Config;

fn set_of(files: &[(&str, &str)]) -> MigrationSet {
    let sources: Vec<SourceFile> = files
        .iter()
        .map(|(n, s)| SourceFile { name: n.to_string(), sql: s.to_string() })
        .collect();
    let cfg = Config {
        migrations_dir: None,
        table_name: None,
        create_schemas: Vec::new(),
        ignored_chars: Vec::new(),
        allow_missing_down: false,
        no_tx_versions: Vec::new(),
    };
    resolve(&sources, &cfg).unwrap()
}

fn to_history(run_set: &[(i64, Vec<u8>)]) -> Vec<AppliedMigration> {
    run_set.iter().map(|(v, c)| AppliedMigration { version: *v, checksum: c.clone() }).collect()
}

fn open_run(set: MigrationSet, direction: Direction) -> Run {
    let mut run = Run::new(set, direction);
    assert_eq!(run.start(), Action::AcquireLock);
    assert_eq!(run.step(Event::LockAcquired), Action::EnsureHistory);
    assert_eq!(run.step(Event::HistoryReady), Action::LoadHistory);
    run
}

#[test]
fn run_applies_in_order_then_releases() {
    let set = set_of(&[("1_a.sql", "A"), ("2_b.sql", "B")]);
    let mut run = open_run(set, Direction::Up { target: None, policy: OutOfOrderPolicy::Reject });
    assert_eq!(run.step(Event::HistoryLoaded { applied: Vec::new() }), Action::Apply { index: 0 });
    assert_eq!(run.step(Event::StepDone), Action::Apply { index: 1 });
    assert_eq!(run.step(Event::StepDone), Action::ReleaseLock);
    assert_eq!(run.last_done(), Some(2));
    assert_eq!(run.step(Event::LockReleased), Action::Finished);
    assert_eq!(run.phase(), Phase::Done);
    assert_eq!(run.error(), None);
}

#[test]
fn run_with_nothing_pending() {
    let set = set_of(&[("1_a.sql", "A")]);
    let checksum = set.migrations()[0].checksum.clone();
    let mut run = open_run(set, Direction::Up { target: None, policy: OutOfOrderPolicy::Reject });
    let applied = to_history(&[(1, checksum)]);
    assert_eq!(run.step(Event::HistoryLoaded { applied }), Action::ReleaseLock);
    assert_eq!(run.step(Event::LockReleased), Action::Finished);
    assert_eq!(run.error(), None);
    assert_eq!(run.last_done(), Some(1));
}

#[test]
fn run_first_step_failure_reports_history() {
    let set = set_of(&[("1_a.sql", "A"), ("2_b.sql", "B")]);
    let applied = to_history(&[(1, set.migrations()[0].checksum.clone())]);
    let mut run = open_run(set, Direction::Up { target: None, policy: OutOfOrderPolicy::Reject });
    assert_eq!(run.last_done(), None);
    assert_eq!(run.step(Event::HistoryLoaded { applied }), Action::Apply { index: 1 });
    assert_eq!(run.last_done(), Some(1));
    assert_eq!(run.step(Event::StepFailed), Action::ReleaseLock);
    assert_eq!(run.error(), Some(RunError::Execution { version: 2 }));
    assert_eq!(run.last_done(), Some(1));
    assert_eq!(run.step(Event::LockReleased), Action::Finished);
    assert_eq!(run.last_done(), Some(1));
}

#[test]
fn run_drift_releases_without_executing() {
    let set = set_of(&[("1_a.sql", "A"), ("2_b.sql", "B")]);
    let mut run = open_run(set, Direction::Up { target: None, policy: OutOfOrderPolicy::Skip });
    let applied = to_history(&[(1, vec![0u8; 48])]);
    assert_eq!(run.step(Event::HistoryLoaded { applied }), Action::ReleaseLock);
    assert_eq!(
        run.error(),
        Some(RunError::Plan { error: MigrateError::ChecksumMismatch { version: 1 } })
    );
    assert_eq!(run.step(Event::LockReleased), Action::Finished);
}

#[test]
fn run_step_failure_stops() {
    let set = set_of(&[("1_a.sql", "A"), ("2_b.sql", "B"), ("3_c.sql", "C")]);
    let mut run = open_run(set, Direction::Up { target: None, policy: OutOfOrderPolicy::Reject });
    assert_eq!(run.step(Event::HistoryLoaded { applied: Vec::new() }), Action::Apply { index: 0 });
    assert_eq!(run.step(Event::StepDone), Action::Apply { index: 1 });
    assert_eq!(run.step(Event::StepFailed), Action::ReleaseLock);
    assert_eq!(run.error(), Some(RunError::Execution { version: 2 }));
    assert_eq!(run.last_done(), Some(1));
}

#[test]
fn run_lock_timeout() {
    let set = set_of(&[("1_a.sql", "A")]);
    let mut run = Run::new(set, Direction::Up { target: None, policy: OutOfOrderPolicy::Reject });
    run.start();
    assert!(run.accepts_event(&Event::LockTimedOut));
    assert!(!run.accepts_event(&Event::StepDone));
    assert_eq!(run.step(Event::LockTimedOut), Action::Finished);
    assert_eq!(run.error(), Some(RunError::LockTimeout));
}

#[test]
fn run_history_init_failure() {
    let set = set_of(&[("1_a.sql", "A")]);
    let mut run = Run::new(set, Direction::Up { target: None, policy: OutOfOrderPolicy::Reject });
    run.start();
    assert_eq!(run.step(Event::LockAcquired), Action::EnsureHistory);
    assert_eq!(run.step(Event::HistoryInitFailed), Action::ReleaseLock);
    assert_eq!(run.error(), Some(RunError::HistoryInit));
}

#[test]
fn run_corrupt_history() {
    let set = set_of(&[("1_a.sql", "A")]);
    let mut run = open_run(set, Direction::Up { target: None, policy: OutOfOrderPolicy::Reject });
    let applied = to_history(&[(1, vec![1]), (1, vec![2])]);
    assert_eq!(run.step(Event::HistoryLoaded { applied }), Action::ReleaseLock);
    assert_eq!(run.error(), Some(RunError::CorruptHistory));
}

#[test]
fn run_reverts_latest_first() {
    let set = set_of(&[
        ("1_a.up.sql", "A"),
        ("1_a.down.sql", "undo A"),
        ("2_b.up.sql", "B"),
        ("2_b.down.sql", "undo B"),
    ]);
    let applied = to_history(&[
        (1, set.migrations()[0].checksum.clone()),
        (2, set.migrations()[2].checksum.clone()),
    ]);
    let mut run = open_run(set, Direction::Down { down_to: 0 });
    assert_eq!(run.step(Event::HistoryLoaded { applied }), Action::Revert { index: 3 });
    assert_eq!(run.step(Event::StepDone), Action::Revert { index: 1 });
    assert_eq!(run.step(Event::StepDone), Action::ReleaseLock);
    assert_eq!(run.last_done(), Some(1));
}

#[test]
fn dry_run_lists_without_running() {
    let set = set_of(&[("1_a.sql", "A"), ("2_b.sql", "B"), ("3_c.sql", "C")]);
    let applied = to_history(&[(1, set.migrations()[0].checksum.clone())]);
    let up = migrate_core::run::dry_run(
        &set,
        &applied,
        Direction::Up { target: Some(2), policy: OutOfOrderPolicy::Reject },
    );
    assert_eq!(up, Ok(vec![1]));
    let down = migrate_core::run::dry_run(&set, &applied, Direction::Down { down_to: 0 });
    assert_eq!(down, Err(MigrateError::NoDownScript { version: 1 }));
}
