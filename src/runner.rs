use vstd::prelude::*;
use crate::migration::{AppliedMigration, MigrateError, Migration, MigrationSet};
use crate::plan::{any_drift, first_checksum_mismatch, first_drift, pending, pending_of, revert_of, revert_plan, unknown_of, unknown_versions};

verus! {

/// Which way a run moves the schema.
#[derive(Clone, Copy, Debug, PartialEq, Eq)]
pub enum Direction {
    /// Apply every pending migration.
    Up,
    /// Revert every applied migration above the target version.
    Down(i64),
}

/// Where a run stands.
#[derive(Clone, Copy, Debug, PartialEq, Eq)]
pub enum Stage {
    Idle,
    Locking,
    PreparingTable,
    CheckingDirty,
    Listing,
    Executing,
    Unlocking,
    Done,
}

/// What the backend reported for the last action.
pub enum Event {
    /// Starts the run.
    Begin,
    LockAcquired,
    /// The lock is held by another runner.
    LockBusy,
    TableReady,
    DirtyVersion(Option<i64>),
    AppliedList(Vec<AppliedMigration>),
    /// The last apply or revert succeeded after this many milliseconds.
    StepDone(u64),
    /// The script of the last apply or revert failed.
    StepFailed(String),
    /// Connectivity or privilege failure.
    BackendFailed(String),
    /// The lock was released, or releasing it failed softly.
    Unlocked,
}

/// What the driver must do next.
pub enum Action {
    Lock,
    /// Wait out the backoff, then try the lock again.
    WaitThenLock,
    EnsureTable,
    QueryDirty,
    ListApplied,
    /// Apply the descriptor at this position of the catalog.
    Apply(usize),
    /// Revert the descriptor at this position of the catalog.
    Revert(usize),
    Unlock,
    /// The run is over: the number of migrations executed, or the error.
    Finish(Result<usize, MigrateError>),
}

/// The migrations a run executes, in order.
pub open spec fn plan_for(set: Seq<Migration>, direction: Direction, rows: Seq<AppliedMigration>) -> Seq<usize> {
    match direction {
        Direction::Up => pending_of(set, rows, set.len() as int),
        Direction::Down(target) => revert_of(set, rows, target, 0),
    }
}

/// The state and action after deciding on step `pos` of `plan`: execute it,
/// or, past its end or at an irreversible migration, release the lock.
pub open spec fn advanced(
    set: Seq<Migration>,
    direction: Direction,
    plan: Seq<usize>,
    pos: int,
    stage: Stage,
    failure: Option<MigrateError>,
    a: Action,
) -> bool {
    if pos >= plan.len() {
        stage == Stage::Unlocking && failure is None && a == Action::Unlock
    } else if direction is Up {
        stage == Stage::Executing && failure is None && a == Action::Apply(plan[pos])
    } else if set[plan[pos] as int].script_down is None {
        &&& stage == Stage::Unlocking
        &&& failure == Some(MigrateError::NoRevertScript(set[plan[pos] as int].version))
        &&& a == Action::Unlock
    } else {
        stage == Stage::Executing && failure is None && a == Action::Revert(plan[pos])
    }
}

/// The lock is held in this stage.
pub open spec fn holds_lock(stage: Stage) -> bool {
    stage == Stage::PreparingTable || stage == Stage::CheckingDirty || stage == Stage::Listing
        || stage == Stage::Executing
}

/// The event is one that the stage waits for.
pub open spec fn expected(stage: Stage, event: Event) -> bool {
    match stage {
        Stage::Idle => event is Begin,
        Stage::Locking => event is LockAcquired || event is LockBusy || event is BackendFailed,
        Stage::PreparingTable => event is TableReady || event is BackendFailed,
        Stage::CheckingDirty => event is DirtyVersion || event is BackendFailed,
        Stage::Listing => event is AppliedList || event is BackendFailed,
        Stage::Executing => event is StepDone || event is StepFailed || event is BackendFailed,
        Stage::Unlocking => true,
        Stage::Done => false,
    }
}

/// Decides each step of one migration run; a driver performs the actions
/// against a backend and reports each outcome as an event.
pub struct Runner {
    set: MigrationSet,
    direction: Direction,
    strict: bool,
    max_lock_attempts: u64,
    lock_attempts: u64,
    stage: Stage,
    plan: Vec<usize>,
    pos: usize,
    unknown: Vec<i64>,
    failure: Option<MigrateError>,
}

impl Runner {
    pub closed spec fn set(&self) -> Seq<Migration> {
        self.set@
    }

    pub closed spec fn direction(&self) -> Direction {
        self.direction
    }

    pub closed spec fn strict(&self) -> bool {
        self.strict
    }

    pub closed spec fn max_lock_attempts(&self) -> u64 {
        self.max_lock_attempts
    }

    pub closed spec fn lock_attempts(&self) -> u64 {
        self.lock_attempts
    }

    pub closed spec fn stage(&self) -> Stage {
        self.stage
    }

    pub closed spec fn plan(&self) -> Seq<usize> {
        self.plan@
    }

    pub closed spec fn pos(&self) -> int {
        self.pos as int
    }

    pub closed spec fn unknown(&self) -> Seq<i64> {
        self.unknown@
    }

    pub closed spec fn failure(&self) -> Option<MigrateError> {
        self.failure
    }

    pub closed spec fn wf(&self) -> bool {
        &&& self.set.wf()
        &&& self.max_lock_attempts >= 1
        &&& self.lock_attempts <= self.max_lock_attempts
        &&& forall|i: int| 0 <= i < self.plan@.len() ==> self.plan@[i] < self.set@.len()
        &&& self.pos <= self.plan@.len()
        &&& self.stage == Stage::Executing ==> self.pos < self.plan@.len()
    }

    /// A runner that has not started. `strict` makes history versions that no
    /// descriptor has fatal; `max_lock_attempts` bounds the tries for the lock.
    pub fn new(set: MigrationSet, direction: Direction, strict: bool, max_lock_attempts: u64) -> (r: Runner)
        requires
            set.wf(),
            max_lock_attempts >= 1,
        ensures
            r.wf(),
            r.set() == set@,
            r.direction() == direction,
            r.strict() == strict,
            r.max_lock_attempts() == max_lock_attempts,
            r.lock_attempts() == 0,
            r.stage() == Stage::Idle,
            r.plan().len() == 0,
            r.pos() == 0,
            r.failure() is None,
    {
        Runner {
            set,
            direction,
            strict,
            max_lock_attempts,
            lock_attempts: 0,
            stage: Stage::Idle,
            plan: Vec::new(),
            pos: 0,
            unknown: Vec::new(),
            failure: None,
        }
    }

    /// The catalog the run works from.
    pub fn migrations(&self) -> (r: &MigrationSet)
        ensures
            r@ == self.set(),
            self.wf() ==> r.wf(),
    {
        &self.set
    }

    /// Versions of the history that no descriptor has, once listed.
    pub fn unknown_applied(&self) -> (r: &Vec<i64>)
        ensures
            r@ == self.unknown(),
    {
        &self.unknown
    }

    /// The current stage.
    pub fn current_stage(&self) -> (r: Stage)
        ensures
            r == self.stage(),
    {
        self.stage
    }

    /// Releases the lock after `e`, which the run then reports.
    fn abort(&mut self, e: MigrateError) -> (a: Action)
        requires
            old(self).wf(),
        ensures
            final(self).wf(),
            a == Action::Unlock,
            final(self).stage() == Stage::Unlocking,
            final(self).failure() == Some(e),
            final(self).plan() == old(self).plan(),
            final(self).pos() == old(self).pos(),
            final(self).unknown() == old(self).unknown(),
            final(self).lock_attempts() == old(self).lock_attempts(),
            final(self).set() == old(self).set(),
            final(self).direction() == old(self).direction(),
            final(self).strict() == old(self).strict(),
            final(self).max_lock_attempts() == old(self).max_lock_attempts(),
    {
        self.stage = Stage::Unlocking;
        self.failure = Some(e);
        Action::Unlock
    }

    /// Moves to step `next` of the plan and decides on it.
    fn advance(&mut self, next: usize) -> (a: Action)
        requires
            old(self).wf(),
            next <= old(self).plan().len(),
        ensures
            final(self).wf(),
            advanced(old(self).set(), old(self).direction(), old(self).plan(), next as int,
                final(self).stage(), final(self).failure(), a),
            final(self).plan() == old(self).plan(),
            final(self).pos() == next,
            final(self).unknown() == old(self).unknown(),
            final(self).lock_attempts() == old(self).lock_attempts(),
            final(self).set() == old(self).set(),
            final(self).direction() == old(self).direction(),
            final(self).strict() == old(self).strict(),
            final(self).max_lock_attempts() == old(self).max_lock_attempts(),
    {
        self.pos = next;
        if self.pos >= self.plan.len() {
            self.stage = Stage::Unlocking;
            self.failure = None;
            return Action::Unlock;
        }
        let i = self.plan[self.pos];
        match self.direction {
            Direction::Up => {
                self.stage = Stage::Executing;
                self.failure = None;
                Action::Apply(i)
            },
            Direction::Down(_) => {
                let m = self.set.get(i);
                if m.is_reversible() {
                    self.stage = Stage::Executing;
                    self.failure = None;
                    Action::Revert(i)
                } else {
                    let v = m.version;
                    self.abort(MigrateError::NoRevertScript(v))
                }
            },
        }
    }

    /// Takes the backend's report on the last action and decides the next
    /// one. The lock, once acquired, is released on every path before the
    /// run finishes.
    #[verifier::rlimit(40)]
    pub fn step(&mut self, event: Event) -> (a: Action)
        requires
            old(self).wf(),
        ensures
            final(self).wf(),
            final(self).set() == old(self).set(),
            final(self).direction() == old(self).direction(),
            final(self).strict() == old(self).strict(),
            final(self).max_lock_attempts() == old(self).max_lock_attempts(),
            old(self).stage() == Stage::Idle && event is Begin ==> {
                &&& a == Action::Lock
                &&& final(self).stage() == Stage::Locking
                &&& final(self).lock_attempts() == 1
            },
            old(self).stage() == Stage::Locking && event is LockAcquired ==> {
                &&& a == Action::EnsureTable
                &&& final(self).stage() == Stage::PreparingTable
            },
            old(self).stage() == Stage::Locking && event is LockBusy ==> if old(self).lock_attempts() < old(self).max_lock_attempts() {
                &&& a == Action::WaitThenLock
                &&& final(self).stage() == Stage::Locking
                &&& final(self).lock_attempts() == old(self).lock_attempts() + 1
            } else {
                &&& a == Action::Finish(Err(MigrateError::LockTimeout))
                &&& final(self).stage() == Stage::Done
            },
            old(self).stage() == Stage::Locking ==> (event matches Event::BackendFailed(c) ==> {
                &&& a == Action::Finish(Err(MigrateError::Backend(c)))
                &&& final(self).stage() == Stage::Done
            }),
            old(self).stage() == Stage::PreparingTable && event is TableReady ==> {
                &&& a == Action::QueryDirty
                &&& final(self).stage() == Stage::CheckingDirty
            },
            old(self).stage() == Stage::CheckingDirty ==> (event matches Event::DirtyVersion(d) ==> match d {
                None => a == Action::ListApplied && final(self).stage() == Stage::Listing,
                Some(v) => {
                    &&& a == Action::Unlock
                    &&& final(self).stage() == Stage::Unlocking
                    &&& final(self).failure() == Some(MigrateError::DirtyDatabase(v))
                },
            }),
            old(self).stage() == Stage::Listing ==> (event matches Event::AppliedList(rows) ==> {
                &&& final(self).unknown() == unknown_of(old(self).set(), rows@)
                &&& if any_drift(old(self).set(), rows@) {
                    &&& a == Action::Unlock
                    &&& final(self).stage() == Stage::Unlocking
                    &&& final(self).failure() matches Some(MigrateError::ChecksumMismatch(v))
                    &&& first_drift(old(self).set(), rows@, v)
                } else if old(self).strict() && unknown_of(old(self).set(), rows@).len() > 0 {
                    &&& a == Action::Unlock
                    &&& final(self).stage() == Stage::Unlocking
                    &&& final(self).failure() == Some(MigrateError::VersionMismatch(unknown_of(old(self).set(), rows@)[0]))
                } else {
                    &&& final(self).plan() == plan_for(old(self).set(), old(self).direction(), rows@)
                    &&& final(self).pos() == 0
                    &&& advanced(old(self).set(), old(self).direction(), final(self).plan(), 0,
                        final(self).stage(), final(self).failure(), a)
                }
            }),
            old(self).stage() == Stage::Executing && event is StepDone ==> {
                &&& final(self).plan() == old(self).plan()
                &&& final(self).pos() == old(self).pos() + 1
                &&& advanced(old(self).set(), old(self).direction(), old(self).plan(), old(self).pos() + 1,
                    final(self).stage(), final(self).failure(), a)
            },
            old(self).stage() == Stage::Executing ==> (event matches Event::StepFailed(c) ==> {
                &&& a == Action::Unlock
                &&& final(self).stage() == Stage::Unlocking
                &&& final(self).failure() == Some(MigrateError::Execution(
                    old(self).set()[old(self).plan()[old(self).pos()] as int].version, c))
            }),
            holds_lock(old(self).stage()) ==> (event matches Event::BackendFailed(c) ==> {
                &&& a == Action::Unlock
                &&& final(self).stage() == Stage::Unlocking
                &&& final(self).failure() == Some(MigrateError::Backend(c))
            }),
            old(self).stage() == Stage::Unlocking ==> {
                &&& final(self).stage() == Stage::Done
                &&& a == Action::Finish(match old(self).failure() {
                    None => Ok(old(self).pos() as usize),
                    Some(e) => Err(e),
                })
            },
            !expected(old(self).stage(), event) ==> if holds_lock(old(self).stage()) {
                &&& a == Action::Unlock
                &&& final(self).stage() == Stage::Unlocking
                &&& final(self).failure() == Some(MigrateError::UnexpectedEvent)
            } else {
                &&& a == Action::Finish(Err(MigrateError::UnexpectedEvent))
                &&& final(self).stage() == Stage::Done
            },
    {
        match self.stage {
            Stage::Idle => match event {
                Event::Begin => {
                    self.stage = Stage::Locking;
                    self.lock_attempts = 1;
                    Action::Lock
                },
                _ => {
                    self.stage = Stage::Done;
                    Action::Finish(Err(MigrateError::UnexpectedEvent))
                },
            },
            Stage::Locking => match event {
                Event::LockAcquired => {
                    self.stage = Stage::PreparingTable;
                    Action::EnsureTable
                },
                Event::LockBusy => {
                    if self.lock_attempts < self.max_lock_attempts {
                        self.lock_attempts = self.lock_attempts + 1;
                        Action::WaitThenLock
                    } else {
                        self.stage = Stage::Done;
                        Action::Finish(Err(MigrateError::LockTimeout))
                    }
                },
                Event::BackendFailed(c) => {
                    self.stage = Stage::Done;
                    Action::Finish(Err(MigrateError::Backend(c)))
                },
                _ => {
                    self.stage = Stage::Done;
                    Action::Finish(Err(MigrateError::UnexpectedEvent))
                },
            },
            Stage::PreparingTable => match event {
                Event::TableReady => {
                    self.stage = Stage::CheckingDirty;
                    Action::QueryDirty
                },
                Event::BackendFailed(c) => self.abort(MigrateError::Backend(c)),
                _ => self.abort(MigrateError::UnexpectedEvent),
            },
            Stage::CheckingDirty => match event {
                Event::DirtyVersion(None) => {
                    self.stage = Stage::Listing;
                    Action::ListApplied
                },
                Event::DirtyVersion(Some(v)) => self.abort(MigrateError::DirtyDatabase(v)),
                Event::BackendFailed(c) => self.abort(MigrateError::Backend(c)),
                _ => self.abort(MigrateError::UnexpectedEvent),
            },
            Stage::Listing => match event {
                Event::AppliedList(rows) => self.reconcile(rows),
                Event::BackendFailed(c) => self.abort(MigrateError::Backend(c)),
                _ => self.abort(MigrateError::UnexpectedEvent),
            },
            Stage::Executing => match event {
                Event::StepDone(_) => {
                    // The length of a `Vec` fits in `usize`.
                    let _n = self.plan.len();
                    self.advance(self.pos + 1)
                },
                Event::StepFailed(c) => {
                    let v = self.set.get(self.plan[self.pos]).version;
                    self.abort(MigrateError::Execution(v, c))
                },
                Event::BackendFailed(c) => self.abort(MigrateError::Backend(c)),
                _ => self.abort(MigrateError::UnexpectedEvent),
            },
            Stage::Unlocking => {
                self.stage = Stage::Done;
                match self.failure.take() {
                    None => Action::Finish(Ok(self.pos)),
                    Some(e) => Action::Finish(Err(e)),
                }
            },
            Stage::Done => Action::Finish(Err(MigrateError::UnexpectedEvent)),
        }
    }

    /// Checks the listed history against the catalog and plans the run.
    fn reconcile(&mut self, rows: Vec<AppliedMigration>) -> (a: Action)
        requires
            old(self).wf(),
            old(self).stage() == Stage::Listing,
        ensures
            final(self).wf(),
            final(self).set() == old(self).set(),
            final(self).direction() == old(self).direction(),
            final(self).strict() == old(self).strict(),
            final(self).max_lock_attempts() == old(self).max_lock_attempts(),
            final(self).unknown() == unknown_of(old(self).set(), rows@),
            if any_drift(old(self).set(), rows@) {
                &&& a == Action::Unlock
                &&& final(self).stage() == Stage::Unlocking
                &&& final(self).failure() matches Some(MigrateError::ChecksumMismatch(v))
                &&& first_drift(old(self).set(), rows@, v)
            } else if old(self).strict() && unknown_of(old(self).set(), rows@).len() > 0 {
                &&& a == Action::Unlock
                &&& final(self).stage() == Stage::Unlocking
                &&& final(self).failure() == Some(MigrateError::VersionMismatch(unknown_of(old(self).set(), rows@)[0]))
            } else {
                &&& final(self).plan() == plan_for(old(self).set(), old(self).direction(), rows@)
                &&& final(self).pos() == 0
                &&& advanced(old(self).set(), old(self).direction(), final(self).plan(), 0,
                    final(self).stage(), final(self).failure(), a)
            },
    {
        self.unknown = unknown_versions(&self.set, &rows);
        if let Some(v) = first_checksum_mismatch(&self.set, &rows) {
            return self.abort(MigrateError::ChecksumMismatch(v));
        }
        if self.strict && self.unknown.len() > 0 {
            let v = self.unknown[0];
            return self.abort(MigrateError::VersionMismatch(v));
        }
        let plan = match self.direction {
            Direction::Up => pending(&self.set, &rows),
            Direction::Down(target) => revert_plan(&self.set, &rows, target),
        };
        proof {
            lemma_plan_in_range(self.set@, self.direction, rows@);
        }
        assert(plan@ == plan_for(self.set@, self.direction, rows@));
        self.plan = plan;
        self.pos = 0;
        assert(self.set.wf());
        assert(forall|i: int| 0 <= i < self.plan@.len() ==> self.plan@[i] < self.set@.len());
        assert(self.wf());
        self.advance(0)
    }
}

/// Every position of a plan is a position of the catalog.
proof fn lemma_plan_in_range(set: Seq<Migration>, direction: Direction, rows: Seq<AppliedMigration>)
    requires
        set.len() <= usize::MAX,
    ensures
        forall|i: int| 0 <= i < plan_for(set, direction, rows).len() ==> plan_for(set, direction, rows)[i] < set.len(),
{
    match direction {
        Direction::Up => lemma_pending_in_range(set, rows, set.len() as int),
        Direction::Down(t) => lemma_revert_in_range(set, rows, t, 0),
    }
}

proof fn lemma_pending_in_range(set: Seq<Migration>, rows: Seq<AppliedMigration>, n: int)
    requires
        n <= set.len() <= usize::MAX,
    ensures
        forall|i: int| 0 <= i < pending_of(set, rows, n).len() ==> pending_of(set, rows, n)[i] < set.len(),
    decreases n,
{
    if n > 0 {
        lemma_pending_in_range(set, rows, n - 1);
        let prev = pending_of(set, rows, n - 1);
        assert(pending_of(set, rows, n) == if crate::plan::rows_have(rows, set[n - 1].version) {
            prev
        } else {
            prev.push((n - 1) as usize)
        });
    }
}

proof fn lemma_revert_in_range(set: Seq<Migration>, rows: Seq<AppliedMigration>, t: i64, lo: int)
    requires
        set.len() <= usize::MAX,
    ensures
        forall|i: int| 0 <= i < revert_of(set, rows, t, lo).len() ==> revert_of(set, rows, t, lo)[i] < set.len(),
    decreases set.len() - lo,
{
    if lo < set.len() && lo >= 0 {
        lemma_revert_in_range(set, rows, t, lo + 1);
        let rest = revert_of(set, rows, t, lo + 1);
        assert(revert_of(set, rows, t, lo) == if set[lo].version > t && crate::plan::rows_have(rows, set[lo].version) {
            rest.push(lo as usize)
        } else {
            rest
        });
    }
}

} // verus!
