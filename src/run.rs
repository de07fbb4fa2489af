//! The run of a migration: the decisions between locking the history,
//! loading it, executing each planned script and releasing the lock. The
//! caller performs each action and reports what happened as an event.

use vstd::prelude::*;

use crate::migrator::{
    down_ok, drifted, has_down, has_drift, highest_applied, history_map, history_unique,
    max_applied, out_of_order, pending_down, pending_up, plan_down, plan_up, up_ok,
    AppliedMigration, MigrateError, OutOfOrderPolicy,
};
use crate::resolve::MigrationSet;
use crate::types::MigrationView;

verus! {

/// Which way a run migrates.
#[derive(Clone, Copy, Debug, PartialEq, Eq, Structural)]
pub enum Direction {
    /// Apply pending migrations up to `target`, or all of them.
    Up { target: Option<i64>, policy: OutOfOrderPolicy },
    /// Revert applied migrations above `down_to`.
    Down { down_to: i64 },
}

/// Where a run stands.
#[derive(Clone, Copy, Debug, PartialEq, Eq, Structural)]
pub enum Phase {
    Idle,
    /// Waiting for the advisory lock.
    Locking,
    /// Waiting for the schemas and the history table to exist.
    Ensuring,
    /// Waiting for the history rows.
    Loading,
    /// Waiting for the current script to finish.
    Running,
    /// Waiting for the lock to be released.
    Releasing,
    Done,
}

/// What the caller does next.
#[derive(Clone, Copy, Debug, PartialEq, Eq, Structural)]
pub enum Action {
    AcquireLock,
    /// Create the configured schemas and the history table, where absent.
    EnsureHistory,
    LoadHistory,
    /// Run the forward script at this position of the set and record its row,
    /// in one transaction unless the script is marked to run outside one.
    Apply { index: usize },
    /// Run the backward script at this position of the set and delete its row.
    Revert { index: usize },
    ReleaseLock,
    /// The run is over.
    Finished,
}

/// What the caller reports.
#[derive(Clone, Debug)]
pub enum Event {
    LockAcquired,
    /// The lock could not be had within the configured wait.
    LockTimedOut,
    HistoryReady,
    HistoryInitFailed,
    HistoryLoaded { applied: Vec<AppliedMigration> },
    /// The current script ran and its history row was written or deleted.
    StepDone,
    /// The current script failed; its own transaction, if any, rolled back.
    StepFailed,
    LockReleased,
}

/// Why a run failed.
#[derive(Clone, Copy, Debug, PartialEq, Eq, Structural)]
pub enum RunError {
    LockTimeout,
    HistoryInit,
    /// The history holds a version twice.
    CorruptHistory,
    Plan { error: MigrateError },
    /// The script of this version failed.
    Execution { version: i64 },
}

/// Whether `e` is an event that can follow the action taken in `phase`.
pub open spec fn accepts(phase: Phase, e: Event) -> bool {
    match phase {
        Phase::Locking => e is LockAcquired || e is LockTimedOut,
        Phase::Ensuring => e is HistoryReady || e is HistoryInitFailed,
        Phase::Loading => e is HistoryLoaded,
        Phase::Running => e is StepDone || e is StepFailed,
        Phase::Releasing => e is LockReleased,
        _ => false,
    }
}

/// The action that carries out step `index` of a run in direction `d`.
pub open spec fn step_action(d: Direction, index: usize) -> Action {
    match d {
        Direction::Up { .. } => Action::Apply { index },
        Direction::Down { .. } => Action::Revert { index },
    }
}

/// `plan` is exactly what `d` calls for on `set` given the history `hist`.
pub open spec fn plan_fits(set: Seq<MigrationView>, hist: Map<i64, Seq<u8>>, d: Direction, plan: Seq<usize>) -> bool {
    match d {
        Direction::Up { target, policy } => {
            &&& forall|k: int| 0 <= k < plan.len() ==> pending_up(set, hist, target, #[trigger] plan[k] as int)
            &&& forall|k1: int, k2: int| 0 <= k1 < k2 < plan.len() ==> plan[k1] < plan[k2]
            &&& forall|i: int| pending_up(set, hist, target, i) ==> plan.contains(i as usize)
        },
        Direction::Down { down_to } => {
            &&& forall|k: int| 0 <= k < plan.len() ==> pending_down(set, hist, down_to, #[trigger] plan[k] as int)
            &&& forall|k1: int, k2: int| 0 <= k1 < k2 < plan.len() ==> plan[k1] > plan[k2]
            &&& forall|i: int| pending_down(set, hist, down_to, i) ==> plan.contains(i as usize)
        },
    }
}

/// The run may go ahead on the history `hist`.
pub open spec fn plan_ok(set: Seq<MigrationView>, hist: Map<i64, Seq<u8>>, d: Direction) -> bool {
    match d {
        Direction::Up { policy, .. } => up_ok(set, hist, policy),
        Direction::Down { down_to } => down_ok(set, hist, down_to),
    }
}

/// `e` is an error that planning a run in direction `d` can give on `set`
/// and the history `hist`: each names a version that causes it.
pub open spec fn plan_error_fits(set: Seq<MigrationView>, hist: Map<i64, Seq<u8>>, d: Direction, e: MigrateError) -> bool {
    &&& has_drift(set, hist) ==> e is ChecksumMismatch
    &&& match e {
        MigrateError::ChecksumMismatch { version } => exists|i: int| drifted(set, hist, i) && set[i].version == version,
        MigrateError::OutOfOrder { version } => d is Up && exists|i: int| out_of_order(set, hist, i) && set[i].version == version,
        MigrateError::NoDownScript { version } => d is Down && hist.contains_key(version)
            && version > d->down_to && !has_down(set, version),
    }
}

/// What a run decides once the history has been loaded: `applied` is the
/// history, `after` the run afterwards, `a` the next action.
pub open spec fn after_load(set: Seq<MigrationView>, d: Direction, applied: Seq<AppliedMigration>, after: Run, a: Action) -> bool {
    let hist = history_map(applied);
    &&& after.last_done_of() == highest_applied(hist)
    &&& if !history_unique(applied) {
        &&& a == Action::ReleaseLock
        &&& after.phase_of() == Phase::Releasing
        &&& after.error_of() == Some(RunError::CorruptHistory)
    } else if !plan_ok(set, hist, d) {
        &&& a == Action::ReleaseLock
        &&& after.phase_of() == Phase::Releasing
        &&& after.error_of() is Some
        &&& after.error_of()->0 is Plan
        &&& plan_error_fits(set, hist, d, after.error_of()->0->Plan_error)
    } else {
        &&& plan_fits(set, hist, d, after.plan_of())
        &&& after.next_of() == 0
        &&& after.error_of() is None
        &&& after.plan_of().len() == 0 ==> a == Action::ReleaseLock && after.phase_of() == Phase::Releasing
        &&& after.plan_of().len() > 0 ==> a == step_action(d, after.plan_of()[0]) && after.phase_of() == Phase::Running
    }
}

/// The positions of the scripts that a run in direction `d` would execute on
/// the history `applied`, in order, without executing or recording anything.
pub fn dry_run(set: &MigrationSet, applied: &Vec<AppliedMigration>, d: Direction) -> (r: Result<
    Vec<usize>,
    MigrateError,
>)
    requires
        history_unique(applied@),
    ensures
        r is Ok <==> plan_ok(set@, history_map(applied@), d),
        r is Err ==> plan_error_fits(set@, history_map(applied@), d, r->Err_0),
        r is Ok ==> plan_fits(set@, history_map(applied@), d, r->Ok_0@),
{
    match d {
        Direction::Up { target, policy } => plan_up(set, applied, target, policy),
        Direction::Down { down_to } => plan_down(set, applied, down_to),
    }
}

/// A checksum mismatch on an applied migration halts the run as soon as the
/// history is loaded: the next action releases the lock, no script is run,
/// and the run reports the mismatch.
pub proof fn lemma_drift_halts_run(
    set: Seq<MigrationView>,
    d: Direction,
    applied: Seq<AppliedMigration>,
    after: Run,
    a: Action,
)
    requires
        history_unique(applied),
        has_drift(set, history_map(applied)),
        after_load(set, d, applied, after, a),
    ensures
        a == Action::ReleaseLock,
        after.phase_of() == Phase::Releasing,
        after.error_of() matches Some(RunError::Plan { error: MigrateError::ChecksumMismatch { .. } }),
{
}

fn make_step_action(d: Direction, index: usize) -> (r: Action)
    ensures
        r == step_action(d, index),
{
    match d {
        Direction::Up { .. } => Action::Apply { index },
        Direction::Down { .. } => Action::Revert { index },
    }
}

fn versions_unique(applied: &Vec<AppliedMigration>) -> (r: bool)
    ensures
        r == history_unique(applied@),
{
    let mut i: usize = 0;
    while i < applied.len()
        invariant
            i <= applied@.len(),
            forall|x: int, y: int| 0 <= x < i && 0 <= y < applied@.len() && x != y ==> applied@[x].version != applied@[y].version,
        decreases applied.len() - i,
    {
        let mut j: usize = 0;
        while j < applied.len()
            invariant
                i < applied@.len(),
                j <= applied@.len(),
                forall|x: int, y: int| 0 <= x < i && 0 <= y < applied@.len() && x != y ==> applied@[x].version != applied@[y].version,
                forall|y: int| 0 <= y < j && y != i ==> applied@[i as int].version != applied@[y].version,
            decreases applied.len() - j,
        {
            if j != i && applied[i].version == applied[j].version {
                return false;
            }
            j = j + 1;
        }
        i = i + 1;
    }
    true
}

/// One run of the engine over a validated set.
pub struct Run {
    set: MigrationSet,
    direction: Direction,
    phase: Phase,
    plan: Vec<usize>,
    next: usize,
    error: Option<RunError>,
    last_done: Option<i64>,
}

impl Run {
    pub closed spec fn wf(&self) -> bool {
        &&& self.next <= self.plan@.len()
        &&& forall|k: int| 0 <= k < self.plan@.len() ==> #[trigger] self.plan@[k] < self.set@.len()
        &&& self.phase is Running ==> self.next < self.plan@.len()
        &&& !(self.phase is Releasing || self.phase is Done) ==> self.error is None
    }

    pub closed spec fn set_of(&self) -> Seq<MigrationView> {
        self.set@
    }

    pub closed spec fn direction_of(&self) -> Direction {
        self.direction
    }

    pub closed spec fn phase_of(&self) -> Phase {
        self.phase
    }

    pub closed spec fn plan_of(&self) -> Seq<usize> {
        self.plan@
    }

    /// How many steps of the plan have completed.
    pub closed spec fn next_of(&self) -> nat {
        self.next as nat
    }

    pub closed spec fn error_of(&self) -> Option<RunError> {
        self.error
    }

    pub closed spec fn last_done_of(&self) -> Option<i64> {
        self.last_done
    }

    /// A run of `direction` over `set`, not started.
    pub fn new(set: MigrationSet, direction: Direction) -> (r: Run)
        ensures
            r.wf(),
            r.set_of() == set@,
            r.direction_of() == direction,
            r.phase_of() == Phase::Idle,
            r.error_of() is None,
            r.last_done_of() is None,
    {
        Run {
            set,
            direction,
            phase: Phase::Idle,
            plan: Vec::new(),
            next: 0,
            error: None,
            last_done: None,
        }
    }

    /// Starts the run: the first thing to do is to take the lock.
    pub fn start(&mut self) -> (a: Action)
        requires
            old(self).wf(),
            old(self).phase_of() == Phase::Idle,
        ensures
            final(self).wf(),
            a == Action::AcquireLock,
            final(self).phase_of() == Phase::Locking,
            final(self).last_done_of() == old(self).last_done_of(),
            final(self).set_of() == old(self).set_of(),
            final(self).direction_of() == old(self).direction_of(),
            final(self).error_of() == old(self).error_of(),
    {
        self.phase = Phase::Locking;
        Action::AcquireLock
    }

    pub fn phase(&self) -> (r: Phase)
        ensures
            r == self.phase_of(),
    {
        self.phase
    }

    /// Why the run failed, if it did.
    pub fn error(&self) -> (r: Option<RunError>)
        ensures
            r == self.error_of(),
    {
        self.error
    }

    /// How far the run got: the version of the last script that completed in
    /// this run or, before one has, the latest version in the loaded history.
    pub fn last_done(&self) -> (r: Option<i64>)
        ensures
            r == self.last_done_of(),
    {
        self.last_done
    }

    /// Whether `e` can follow the action last handed out.
    pub fn accepts_event(&self, e: &Event) -> (r: bool)
        ensures
            r == accepts(self.phase_of(), *e),
    {
        match self.phase {
            Phase::Locking => matches!(e, Event::LockAcquired) || matches!(e, Event::LockTimedOut),
            Phase::Ensuring => matches!(e, Event::HistoryReady) || matches!(e, Event::HistoryInitFailed),
            Phase::Loading => matches!(e, Event::HistoryLoaded { .. }),
            Phase::Running => matches!(e, Event::StepDone) || matches!(e, Event::StepFailed),
            Phase::Releasing => matches!(e, Event::LockReleased),
            _ => false,
        }
    }
    /// Takes the outcome of the last action and decides the next one. A
    /// failure after the lock was taken always releases it before the run
    /// ends; once a run has failed it executes no further script.
    pub fn step(&mut self, event: Event) -> (a: Action)
        requires
            old(self).wf(),
            accepts(old(self).phase_of(), event),
        ensures
            final(self).wf(),
            final(self).set_of() == old(self).set_of(),
            final(self).direction_of() == old(self).direction_of(),
            a is Apply || a is Revert ==> final(self).phase_of() == Phase::Running
                && final(self).error_of() is None,
            old(self).error_of() is Some ==> !(a is Apply || a is Revert),
            !(old(self).phase_of() is Loading) && !(old(self).phase_of() is Running && event is StepDone)
                ==> final(self).last_done_of() == old(self).last_done_of(),
            old(self).phase_of() is Locking && event is LockAcquired ==> a == Action::EnsureHistory
                && final(self).phase_of() == Phase::Ensuring && final(self).error_of() == old(self).error_of(),
            old(self).phase_of() is Locking && event is LockTimedOut ==> a == Action::Finished
                && final(self).phase_of() == Phase::Done && final(self).error_of() == Some(RunError::LockTimeout),
            old(self).phase_of() is Ensuring && event is HistoryReady ==> a == Action::LoadHistory
                && final(self).phase_of() == Phase::Loading && final(self).error_of() == old(self).error_of(),
            old(self).phase_of() is Ensuring && event is HistoryInitFailed ==> a == Action::ReleaseLock
                && final(self).phase_of() == Phase::Releasing && final(self).error_of() == Some(RunError::HistoryInit),
            old(self).phase_of() is Loading ==> after_load(
                old(self).set_of(),
                old(self).direction_of(),
                event->HistoryLoaded_applied@,
                *final(self),
                a,
            ),
            old(self).phase_of() is Running ==> final(self).plan_of() == old(self).plan_of(),
            old(self).phase_of() is Running && event is StepDone ==> {
                &&& final(self).next_of() == old(self).next_of() + 1
                &&& final(self).last_done_of() == Some(
                    old(self).set_of()[old(self).plan_of()[old(self).next_of() as int] as int].version,
                )
                &&& final(self).error_of() == old(self).error_of()
                &&& final(self).next_of() < final(self).plan_of().len() ==> a == step_action(
                    old(self).direction_of(),
                    final(self).plan_of()[final(self).next_of() as int],
                ) && final(self).phase_of() == Phase::Running
                &&& final(self).next_of() == final(self).plan_of().len() ==> a == Action::ReleaseLock
                    && final(self).phase_of() == Phase::Releasing
            },
            old(self).phase_of() is Running && event is StepFailed ==> {
                &&& a == Action::ReleaseLock
                &&& final(self).phase_of() == Phase::Releasing
                &&& final(self).last_done_of() == old(self).last_done_of()
                &&& final(self).error_of() == Some(
                    RunError::Execution {
                        version: old(self).set_of()[old(self).plan_of()[old(self).next_of() as int] as int].version,
                    },
                )
            },
            old(self).phase_of() is Releasing ==> a == Action::Finished && final(self).phase_of()
                == Phase::Done && final(self).error_of() == old(self).error_of()
                && final(self).last_done_of() == old(self).last_done_of(),
    {
        match self.phase {
            Phase::Locking => {
                if matches!(event, Event::LockAcquired) {
                    self.phase = Phase::Ensuring;
                    Action::EnsureHistory
                } else {
                    self.phase = Phase::Done;
                    self.error = Some(RunError::LockTimeout);
                    Action::Finished
                }
            },
            Phase::Ensuring => {
                if matches!(event, Event::HistoryReady) {
                    self.phase = Phase::Loading;
                    Action::LoadHistory
                } else {
                    self.phase = Phase::Releasing;
                    self.error = Some(RunError::HistoryInit);
                    Action::ReleaseLock
                }
            },
            Phase::Loading => {
                let applied = match event {
                    Event::HistoryLoaded { applied } => applied,
                    _ => {
                        return Action::Finished;
                    },
                };
                self.last_done = max_applied(&applied);
                if !versions_unique(&applied) {
                    self.phase = Phase::Releasing;
                    self.error = Some(RunError::CorruptHistory);
                    return Action::ReleaseLock;
                }
                let planned = match self.direction {
                    Direction::Up { target, policy } => plan_up(&self.set, &applied, target, policy),
                    Direction::Down { down_to } => plan_down(&self.set, &applied, down_to),
                };
                match planned {
                    Err(e) => {
                        self.phase = Phase::Releasing;
                        self.error = Some(RunError::Plan { error: e });
                        Action::ReleaseLock
                    },
                    Ok(plan) => {
                        self.plan = plan;
                        self.next = 0;
                        if self.plan.len() == 0 {
                            self.phase = Phase::Releasing;
                            Action::ReleaseLock
                        } else {
                            self.phase = Phase::Running;
                            make_step_action(self.direction, self.plan[0])
                        }
                    },
                }
            },
            Phase::Running => {
                let len = self.plan.len();
                let index = self.plan[self.next];
                let version = self.set.migrations()[index].version;
                assert(version == self.set@[index as int].version);
                if matches!(event, Event::StepDone) {
                    self.last_done = Some(version);
                    self.next = self.next + 1;
                    if self.next < self.plan.len() {
                        make_step_action(self.direction, self.plan[self.next])
                    } else {
                        self.phase = Phase::Releasing;
                        Action::ReleaseLock
                    }
                } else {
                    self.phase = Phase::Releasing;
                    self.error = Some(RunError::Execution { version });
                    Action::ReleaseLock
                }
            },
            _ => {
                self.phase = Phase::Done;
                Action::Finished
            },
        }
    }
}

} // verus!
