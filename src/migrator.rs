//! Deciding what a run does: which migrations to apply or revert, given the
//! validated set and the history of what the database has already run.

use vstd::prelude::*;

use crate::resolve::{lacks_pair, migration_views, set_wf, MigrationSet};
use crate::types::{Migration, MigrationView};

verus! {

/// A row of the history table: a version that has run, and its checksum then.
#[derive(Clone, Debug)]
pub struct AppliedMigration {
    pub version: i64,
    pub checksum: Vec<u8>,
}

/// Migrating forward to `target` (rejecting out-of-order migrations), then
/// reverting to `down_to`, then migrating forward to `target` again gives back
/// the history that the first forward run left, provided the history held
/// nothing beyond `target` before it.
pub proof fn lemma_up_revert_up(
    set: Seq<MigrationView>,
    hist: Map<i64, Seq<u8>>,
    down_to: i64,
    target: i64,
)
    requires
        set_wf(set),
        up_ok(set, hist, OutOfOrderPolicy::Reject),
        forall|w: i64| #[trigger] hist.contains_key(w) ==> w <= target,
        down_ok(set, after_up(set, hist, Some(target)), down_to),
    ensures
        up_ok(set, after_down(after_up(set, hist, Some(target)), down_to), OutOfOrderPolicy::Reject),
        after_up(set, after_down(after_up(set, hist, Some(target)), down_to), Some(target))
            == after_up(set, hist, Some(target)),
{
    let h = after_up(set, hist, Some(target));
    assert forall|w: i64| #[trigger] h.contains_key(w) implies within(w, Some(target)) by {
        if !hist.contains_key(w) {
            let j = choose|j: int| pending_up(set, hist, Some(target), j) && set[j].version == w;
        }
    }
    assert forall|i: int| 0 <= i < set.len() && (#[trigger] set[i]).migration_type.spec_is_up()
        && within(set[i].version, Some(target)) implies h.contains_key(set[i].version) by {
        if !hist.contains_key(set[i].version) {
            assert(!out_of_order(set, hist, i));
            assert(pending_up(set, hist, Some(target), i));
        }
    }
    lemma_revert_then_reapply(set, h, down_to, Some(target), OutOfOrderPolicy::Reject);
}

fn copy_bytes(v: &Vec<u8>) -> (r: Vec<u8>)
    ensures
        r@ == v@,
{
    let mut r: Vec<u8> = Vec::new();
    let mut i: usize = 0;
    while i < v.len()
        invariant
            i <= v@.len(),
            r@ == v@.take(i as int),
        decreases v.len() - i,
    {
        r.push(v[i]);
        i = i + 1;
        assert(r@ =~= v@.take(i as int));
    }
    assert(v@.take(i as int) =~= v@);
    r
}

impl AppliedMigration {
    /// The history row that applying `m` records.
    pub fn of(m: &Migration) -> (r: AppliedMigration)
        ensures
            r.version == m.version,
            r.checksum@ == m.checksum@,
    {
        AppliedMigration { version: m.version, checksum: copy_bytes(&m.checksum) }
    }
}

/// What to do with a migration that is not applied while a later one is.
#[derive(Clone, Copy, Debug, PartialEq, Eq, Structural)]
pub enum OutOfOrderPolicy {
    /// Fail the run.
    Reject,
    /// Leave it unapplied and go on.
    Skip,
}

/// Why a run cannot go ahead.
#[derive(Clone, Copy, Debug, PartialEq, Eq, Structural)]
pub enum MigrateError {
    /// An applied migration's script has changed since it ran.
    ChecksumMismatch { version: i64 },
    /// A migration is not applied while a later one is.
    OutOfOrder { version: i64 },
    /// An applied version that is to be reverted has no backward script.
    NoDownScript { version: i64 },
}

/// No version occurs twice in the history (it is the table's primary key).
pub open spec fn history_unique(s: Seq<AppliedMigration>) -> bool {
    forall|i: int, j: int| 0 <= i < s.len() && 0 <= j < s.len() && i != j ==> s[i].version != s[j].version
}

/// The history as a map from applied version to the checksum recorded for it.
pub open spec fn history_map(s: Seq<AppliedMigration>) -> Map<i64, Seq<u8>> {
    Map::new(
        |v: i64| exists|i: int| 0 <= i < s.len() && s[i].version == v,
        |v: i64| s[choose|i: int| 0 <= i < s.len() && s[i].version == v].checksum@,
    )
}

/// The `i`-th migration has run, and its script has changed since.
pub open spec fn drifted(set: Seq<MigrationView>, hist: Map<i64, Seq<u8>>, i: int) -> bool {
    &&& 0 <= i < set.len()
    &&& set[i].migration_type.spec_is_up()
    &&& hist.contains_key(set[i].version)
    &&& hist[set[i].version] != set[i].checksum
}

pub open spec fn has_drift(set: Seq<MigrationView>, hist: Map<i64, Seq<u8>>) -> bool {
    exists|i: int| drifted(set, hist, i)
}

/// Some version later than `v` has been applied.
pub open spec fn applied_after(hist: Map<i64, Seq<u8>>, v: i64) -> bool {
    exists|w: i64| #[trigger] hist.contains_key(w) && w > v
}

/// The `i`-th migration is forward, not applied, and a later version is.
pub open spec fn out_of_order(set: Seq<MigrationView>, hist: Map<i64, Seq<u8>>, i: int) -> bool {
    &&& 0 <= i < set.len()
    &&& set[i].migration_type.spec_is_up()
    &&& !hist.contains_key(set[i].version)
    &&& applied_after(hist, set[i].version)
}

pub open spec fn within(v: i64, target: Option<i64>) -> bool {
    target is None || v <= target->0
}

/// The `i`-th migration is one that migrating forward up to `target` applies.
pub open spec fn pending_up(
    set: Seq<MigrationView>,
    hist: Map<i64, Seq<u8>>,
    target: Option<i64>,
    i: int,
) -> bool {
    &&& 0 <= i < set.len()
    &&& set[i].migration_type.spec_is_up()
    &&& !hist.contains_key(set[i].version)
    &&& !applied_after(hist, set[i].version)
    &&& within(set[i].version, target)
}

/// Migrating forward may go ahead: no drift, and, where the policy says so,
/// nothing out of order.
pub open spec fn up_ok(set: Seq<MigrationView>, hist: Map<i64, Seq<u8>>, policy: OutOfOrderPolicy) -> bool {
    &&& !has_drift(set, hist)
    &&& policy is Reject ==> !(exists|i: int| out_of_order(set, hist, i))
}

/// The `i`-th migration is the backward script of an applied version above `target`.
pub open spec fn pending_down(set: Seq<MigrationView>, hist: Map<i64, Seq<u8>>, target: i64, i: int) -> bool {
    &&& 0 <= i < set.len()
    &&& set[i].migration_type is ReversibleDown
    &&& hist.contains_key(set[i].version)
    &&& set[i].version > target
}

/// The set has a backward script for version `v`.
pub open spec fn has_down(set: Seq<MigrationView>, v: i64) -> bool {
    exists|i: int| 0 <= i < set.len() && (#[trigger] set[i]).migration_type is ReversibleDown && set[i].version == v
}

/// Reverting to `target` may go ahead: no drift, and every applied version
/// above `target` has a backward script.
pub open spec fn down_ok(set: Seq<MigrationView>, hist: Map<i64, Seq<u8>>, target: i64) -> bool {
    &&& !has_drift(set, hist)
    &&& forall|v: i64| #[trigger] hist.contains_key(v) && v > target ==> has_down(set, v)
}

/// The history after a forward run up to `target` has applied every pending migration.
pub open spec fn after_up(set: Seq<MigrationView>, hist: Map<i64, Seq<u8>>, target: Option<i64>) -> Map<
    i64,
    Seq<u8>,
> {
    Map::new(
        |v: i64| hist.contains_key(v) || exists|i: int| pending_up(set, hist, target, i) && set[i].version == v,
        |v: i64|
            if hist.contains_key(v) {
                hist[v]
            } else {
                set[choose|i: int| pending_up(set, hist, target, i) && set[i].version == v].checksum
            },
    )
}

/// The history after reverting to `target`: the rows above it are gone.
pub open spec fn after_down(hist: Map<i64, Seq<u8>>, target: i64) -> Map<i64, Seq<u8>> {
    Map::new(|v: i64| hist.contains_key(v) && v <= target, |v: i64| hist[v])
}

/// Running a forward migration twice in a row is idempotent: once a run has
/// applied what was pending, a second run to the same target may go ahead,
/// and has nothing left to apply.
pub proof fn lemma_up_idempotent(
    set: Seq<MigrationView>,
    hist: Map<i64, Seq<u8>>,
    target: Option<i64>,
    policy: OutOfOrderPolicy,
)
    requires
        set_wf(set),
        up_ok(set, hist, policy),
    ensures
        up_ok(set, after_up(set, hist, target), policy),
        forall|i: int| !pending_up(set, after_up(set, hist, target), target, i),
{
    let h1 = after_up(set, hist, target);
    assert forall|i: int| !drifted(set, h1, i) by {
        if drifted(set, h1, i) {
            let v = set[i].version;
            if !hist.contains_key(v) {
                let j = choose|j: int| pending_up(set, hist, target, j) && set[j].version == v;
                if i < j {
                    assert(set[i].key_lt(set[j]));
                } else if j < i {
                    assert(set[j].key_lt(set[i]));
                }
            } else {
                assert(drifted(set, hist, i));
            }
        }
    }
    assert forall|i: int| out_of_order(set, h1, i) implies !(policy is Reject) && out_of_order(set, hist, i) by {
        let v = set[i].version;
        let w = choose|w: i64| #[trigger] h1.contains_key(w) && w > v;
        if !applied_after(hist, v) {
            assert(!pending_up(set, hist, target, i));
            if !hist.contains_key(w) {
                let j = choose|j: int| pending_up(set, hist, target, j) && set[j].version == w;
            } else {
                assert(applied_after(hist, v));
            }
        }
        assert(out_of_order(set, hist, i));
    }
    assert forall|i: int| !pending_up(set, h1, target, i) by {
        if pending_up(set, h1, target, i) {
            let v = set[i].version;
            assert(!pending_up(set, hist, target, i));
            if applied_after(hist, v) {
                let w = choose|w: i64| #[trigger] hist.contains_key(w) && w > v;
                assert(h1.contains_key(w));
            }
        }
    }
}

/// Reverting to `down_to` and then migrating forward again to the target that
/// the history had reached gives back the same history (modulo timestamps, which
/// it does not record). The history has reached `target` when every forward
/// migration up to it is applied and no applied version lies beyond it.
pub proof fn lemma_revert_then_reapply(
    set: Seq<MigrationView>,
    hist: Map<i64, Seq<u8>>,
    down_to: i64,
    target: Option<i64>,
    policy: OutOfOrderPolicy,
)
    requires
        set_wf(set),
        down_ok(set, hist, down_to),
        forall|w: i64| #[trigger] hist.contains_key(w) ==> within(w, target),
        forall|i: int| 0 <= i < set.len() && (#[trigger] set[i]).migration_type.spec_is_up() && within(set[i].version, target)
            ==> hist.contains_key(set[i].version),
    ensures
        up_ok(set, after_down(hist, down_to), policy),
        after_up(set, after_down(hist, down_to), target) == hist,
{
    let hd = after_down(hist, down_to);
    assert forall|i: int| !drifted(set, hd, i) by {
        if drifted(set, hd, i) {
            assert(drifted(set, hist, i));
        }
    }
    assert forall|i: int| !out_of_order(set, hd, i) by {
        if out_of_order(set, hd, i) {
            let v = set[i].version;
            let w = choose|w: i64| #[trigger] hd.contains_key(w) && w > v;
            assert(hist.contains_key(w));
        }
    }
    let h1 = after_up(set, hd, target);
    assert forall|v: i64| h1.contains_key(v) <==> hist.contains_key(v) by {
        if hist.contains_key(v) && v > down_to {
            assert(has_down(set, v));
            let d = choose|d: int| 0 <= d < set.len() && (#[trigger] set[d]).migration_type is ReversibleDown && set[d].version == v;
            assert(!lacks_pair(set.to_set(), set[d], true));
            let u = choose|u: MigrationView| #[trigger] set.to_set().contains(u) && u.migration_type is ReversibleUp && u.version == v;
            let iu = choose|iu: int| 0 <= iu < set.len() && set[iu] == u;
            assert(!applied_after(hd, v));
            assert(pending_up(set, hd, target, iu));
        }
        if h1.contains_key(v) && !hd.contains_key(v) {
            let j = choose|j: int| pending_up(set, hd, target, j) && set[j].version == v;
        }
    }
    assert(h1 =~= hist) by {
        assert forall|v: i64| #[trigger] h1.contains_key(v) implies h1[v] == hist[v] by {
            if !hd.contains_key(v) {
                let j = choose|j: int| pending_up(set, hd, target, j) && set[j].version == v;
                assert(!drifted(set, hist, j));
            }
        }
    }
}

fn bytes_eq(a: &Vec<u8>, b: &Vec<u8>) -> (r: bool)
    ensures
        r == (a@ == b@),
{
    if a.len() != b.len() {
        return false;
    }
    let mut i: usize = 0;
    while i < a.len()
        invariant
            a@.len() == b@.len(),
            i <= a@.len(),
            forall|j: int| 0 <= j < i ==> a@[j] == b@[j],
        decreases a.len() - i,
    {
        if a[i] != b[i] {
            return false;
        }
        i = i + 1;
    }
    assert(a@ =~= b@);
    true
}

proof fn lemma_history_at(s: Seq<AppliedMigration>, k: int)
    requires
        history_unique(s),
        0 <= k < s.len(),
    ensures
        history_map(s).contains_key(s[k].version),
        history_map(s)[s[k].version] == s[k].checksum@,
{
    let v = s[k].version;
    let i = choose|i: int| 0 <= i < s.len() && s[i].version == v;
    assert(i == k);
}

/// The history row of version `v`, if it has run.
fn find_applied(applied: &Vec<AppliedMigration>, v: i64) -> (r: Option<usize>)
    requires
        history_unique(applied@),
    ensures
        r is None ==> !history_map(applied@).contains_key(v),
        r is Some ==> r->0 < applied@.len() && applied@[r->0 as int].version == v
            && history_map(applied@).contains_key(v)
            && history_map(applied@)[v] == applied@[r->0 as int].checksum@,
{
    let mut i: usize = 0;
    while i < applied.len()
        invariant
            i <= applied@.len(),
            history_unique(applied@),
            forall|j: int| 0 <= j < i ==> applied@[j].version != v,
        decreases applied.len() - i,
    {
        if applied[i].version == v {
            proof {
                lemma_history_at(applied@, i as int);
            }
            return Some(i);
        }
        i = i + 1;
    }
    None
}

/// `v` is the latest applied version.
pub open spec fn is_highest(hist: Map<i64, Seq<u8>>, v: i64) -> bool {
    hist.contains_key(v) && forall|w: i64| #[trigger] hist.contains_key(w) ==> w <= v
}

/// The latest applied version, if any has run.
pub open spec fn highest_applied(hist: Map<i64, Seq<u8>>) -> Option<i64> {
    if exists|v: i64| is_highest(hist, v) {
        Some(choose|v: i64| is_highest(hist, v))
    } else {
        None
    }
}

/// The latest applied version, if any has run.
pub(crate) fn max_applied(applied: &Vec<AppliedMigration>) -> (r: Option<i64>)
    ensures
        r is None ==> forall|w: i64| !history_map(applied@).contains_key(w),
        r is Some ==> history_map(applied@).contains_key(r->0) && forall|w: i64|
            #[trigger] history_map(applied@).contains_key(w) ==> w <= r->0,
        r == highest_applied(history_map(applied@)),
{
    let mut best: Option<i64> = None;
    let mut i: usize = 0;
    while i < applied.len()
        invariant
            i <= applied@.len(),
            best is None ==> i == 0,
            best is Some ==> exists|j: int| 0 <= j < i && applied@[j].version == best->0,
            best is Some ==> forall|j: int| 0 <= j < i ==> applied@[j].version <= best->0,
        decreases applied.len() - i,
    {
        let v = applied[i].version;
        match best {
            None => {
                best = Some(v);
            },
            Some(b) => {
                if v > b {
                    best = Some(v);
                }
            },
        }
        i = i + 1;
    }
    proof {
        let hist = history_map(applied@);
        if best is Some {
            assert(is_highest(hist, best->0));
            let c = choose|v: i64| is_highest(hist, v);
            assert(hist.contains_key(c) && hist.contains_key(best->0));
        } else {
            assert(!(exists|v: i64| is_highest(hist, v)));
        }
    }
    best
}

/// The version of a forward migration that has run and whose script has
/// changed since, if there is one.
fn find_drift(migrations: &Vec<Migration>, applied: &Vec<AppliedMigration>) -> (r: Option<i64>)
    requires
        history_unique(applied@),
    ensures
        r is None <==> !has_drift(migration_views(migrations@), history_map(applied@)),
        r is Some ==> exists|i: int| drifted(migration_views(migrations@), history_map(applied@), i)
            && migrations@[i].version == r->0,
{
    let ghost set = migration_views(migrations@);
    let ghost hist = history_map(applied@);
    let mut i: usize = 0;
    while i < migrations.len()
        invariant
            i <= migrations@.len(),
            set == migration_views(migrations@),
            hist == history_map(applied@),
            history_unique(applied@),
            forall|j: int| 0 <= j < i ==> !drifted(set, hist, j),
        decreases migrations.len() - i,
    {
        let m = &migrations[i];
        assert(set[i as int] == m@);
        if m.migration_type.is_up() {
            match find_applied(applied, m.version) {
                Some(k) => {
                    if !bytes_eq(&applied[k].checksum, &m.checksum) {
                        assert(drifted(set, hist, i as int));
                        return Some(m.version);
                    }
                },
                None => {},
            }
        }
        i = i + 1;
    }
    None
}

/// Plans a forward run up to `target` (or to the end): the positions in the
/// set of the migrations to apply, in ascending order. Fails on drift, and on a
/// migration out of order where the policy rejects those.
pub fn plan_up(
    set: &MigrationSet,
    applied: &Vec<AppliedMigration>,
    target: Option<i64>,
    policy: OutOfOrderPolicy,
) -> (r: Result<Vec<usize>, MigrateError>)
    requires
        history_unique(applied@),
    ensures
        r is Ok <==> up_ok(set@, history_map(applied@), policy),
        has_drift(set@, history_map(applied@)) ==> r matches Err(MigrateError::ChecksumMismatch { .. }),
        r matches Err(MigrateError::ChecksumMismatch { version }) ==> exists|i: int|
            drifted(set@, history_map(applied@), i) && set@[i].version == version,
        r matches Err(MigrateError::OutOfOrder { version }) ==> exists|i: int|
            out_of_order(set@, history_map(applied@), i) && set@[i].version == version,
        !(r matches Err(MigrateError::NoDownScript { .. })),
        r is Ok ==> forall|k: int| 0 <= k < r->Ok_0@.len() ==> pending_up(
            set@,
            history_map(applied@),
            target,
            #[trigger] r->Ok_0@[k] as int,
        ),
        r is Ok ==> forall|k1: int, k2: int| 0 <= k1 < k2 < r->Ok_0@.len() ==> r->Ok_0@[k1] < r->Ok_0@[k2],
        r is Ok ==> forall|i: int| pending_up(set@, history_map(applied@), target, i) ==> r->Ok_0@.contains(i as usize),
{
    let migrations = set.migrations();
    let ghost sv = set@;
    let ghost hist = history_map(applied@);
    match find_drift(migrations, applied) {
        Some(v) => {
            return Err(MigrateError::ChecksumMismatch { version: v });
        },
        None => {},
    }
    let latest = max_applied(applied);
    let mut steps: Vec<usize> = Vec::new();
    let mut i: usize = 0;
    while i < migrations.len()
        invariant
            i <= migrations@.len(),
            sv == migration_views(migrations@),
            sv == set@,
            hist == history_map(applied@),
            history_unique(applied@),
            !has_drift(sv, hist),
            latest is None ==> forall|w: i64| !hist.contains_key(w),
            latest is Some ==> hist.contains_key(latest->0) && forall|w: i64| #[trigger] hist.contains_key(w) ==> w <= latest->0,
            policy is Reject ==> forall|j: int| 0 <= j < i ==> !out_of_order(sv, hist, j),
            forall|k: int| 0 <= k < steps@.len() ==> pending_up(sv, hist, target, #[trigger] steps@[k] as int) && steps@[k] < i,
            forall|k1: int, k2: int| 0 <= k1 < k2 < steps@.len() ==> steps@[k1] < steps@[k2],
            forall|j: int| 0 <= j < i && pending_up(sv, hist, target, j) ==> steps@.contains(j as usize),
        decreases migrations.len() - i,
    {
        let m = &migrations[i];
        assert(sv[i as int] == m@);
        if m.migration_type.is_up() {
            if find_applied(applied, m.version).is_none() {
                let later = match latest {
                    Some(l) => l > m.version,
                    None => false,
                };
                assert(later == applied_after(hist, m.version));
                if later {
                    assert(out_of_order(sv, hist, i as int));
                    if matches!(policy, OutOfOrderPolicy::Reject) {
                        return Err(MigrateError::OutOfOrder { version: m.version });
                    }
                } else {
                    let inside = match target {
                        Some(t) => m.version <= t,
                        None => true,
                    };
                    if inside {
                        let ghost old_steps = steps@;
                        steps.push(i);
                        assert(steps@[steps@.len() - 1] == i);
                        assert forall|j: int| 0 <= j < i + 1 && pending_up(sv, hist, target, j) implies steps@.contains(j as usize) by {
                            if j == i as int {
                                assert(steps@[steps@.len() - 1] == j as usize);
                            } else {
                                assert(old_steps.contains(j as usize));
                                let k = choose|k: int| 0 <= k < old_steps.len() && old_steps[k] == j as usize;
                                assert(steps@[k] == j as usize);
                            }
                        }
                    }
                }
            }
        }
        i = i + 1;
    }
    Ok(steps)
}

/// The backward script of version `v`, if the set has one.
fn find_down(migrations: &Vec<Migration>, v: i64) -> (r: Option<usize>)
    ensures
        r is None ==> !has_down(migration_views(migrations@), v),
        r is Some ==> r->0 < migrations@.len() && migrations@[r->0 as int].version == v
            && migrations@[r->0 as int].migration_type is ReversibleDown,
{
    let ghost sv = migration_views(migrations@);
    let mut i: usize = 0;
    while i < migrations.len()
        invariant
            i <= migrations@.len(),
            sv == migration_views(migrations@),
            forall|j: int| 0 <= j < i ==> !(sv[j].migration_type is ReversibleDown && sv[j].version == v),
        decreases migrations.len() - i,
    {
        let m = &migrations[i];
        assert(sv[i as int] == m@);
        if m.migration_type.is_down() && m.version == v {
            return Some(i);
        }
        i = i + 1;
    }
    None
}

/// Plans a revert down to `target`: the positions in the set of the backward
/// scripts to run, latest version first. Fails on drift, and when an applied
/// version above `target` has no backward script.
pub fn plan_down(set: &MigrationSet, applied: &Vec<AppliedMigration>, target: i64) -> (r: Result<
    Vec<usize>,
    MigrateError,
>)
    requires
        history_unique(applied@),
    ensures
        r is Ok <==> down_ok(set@, history_map(applied@), target),
        has_drift(set@, history_map(applied@)) ==> r matches Err(MigrateError::ChecksumMismatch { .. }),
        r matches Err(MigrateError::ChecksumMismatch { version }) ==> exists|i: int|
            drifted(set@, history_map(applied@), i) && set@[i].version == version,
        r matches Err(MigrateError::NoDownScript { version }) ==> history_map(applied@).contains_key(version)
            && version > target && !has_down(set@, version),
        !(r matches Err(MigrateError::OutOfOrder { .. })),
        r is Ok ==> forall|k: int| 0 <= k < r->Ok_0@.len() ==> pending_down(
            set@,
            history_map(applied@),
            target,
            #[trigger] r->Ok_0@[k] as int,
        ),
        r is Ok ==> forall|k1: int, k2: int| 0 <= k1 < k2 < r->Ok_0@.len() ==> r->Ok_0@[k1] > r->Ok_0@[k2],
        r is Ok ==> forall|i: int| pending_down(set@, history_map(applied@), target, i) ==> r->Ok_0@.contains(i as usize),
{
    let migrations = set.migrations();
    let ghost sv = set@;
    let ghost hist = history_map(applied@);
    match find_drift(migrations, applied) {
        Some(v) => {
            return Err(MigrateError::ChecksumMismatch { version: v });
        },
        None => {},
    }
    let mut a: usize = 0;
    while a < applied.len()
        invariant
            a <= applied@.len(),
            sv == migration_views(migrations@),
            sv == set@,
            hist == history_map(applied@),
            history_unique(applied@),
            !has_drift(sv, hist),
            forall|j: int| 0 <= j < a && applied@[j].version > target ==> has_down(sv, #[trigger] applied@[j].version),
        decreases applied.len() - a,
    {
        let v = applied[a].version;
        if v > target {
            match find_down(migrations, v) {
                None => {
                    proof {
                        lemma_history_at(applied@, a as int);
                    }
                    return Err(MigrateError::NoDownScript { version: v });
                },
                Some(d) => {
                    assert(sv[d as int].version == v);
                },
            }
        }
        a = a + 1;
    }
    assert forall|v: i64| #[trigger] hist.contains_key(v) && v > target implies has_down(sv, v) by {
        let j = choose|j: int| 0 <= j < applied@.len() && applied@[j].version == v;
    }
    let mut steps: Vec<usize> = Vec::new();
    let mut i: usize = migrations.len();
    while i > 0
        invariant
            i <= migrations@.len(),
            sv == migration_views(migrations@),
            sv == set@,
            hist == history_map(applied@),
            history_unique(applied@),
            forall|k: int| 0 <= k < steps@.len() ==> pending_down(sv, hist, target, #[trigger] steps@[k] as int) && steps@[k] >= i,
            forall|k1: int, k2: int| 0 <= k1 < k2 < steps@.len() ==> steps@[k1] > steps@[k2],
            forall|j: int| i <= j < sv.len() && pending_down(sv, hist, target, j) ==> steps@.contains(j as usize),
        decreases i,
    {
        i = i - 1;
        let m = &migrations[i];
        assert(sv[i as int] == m@);
        if m.migration_type.is_down() && m.version > target && find_applied(applied, m.version).is_some() {
            let ghost old_steps = steps@;
            steps.push(i);
            assert(steps@[steps@.len() - 1] == i);
            assert forall|j: int| i <= j < sv.len() && pending_down(sv, hist, target, j) implies steps@.contains(j as usize) by {
                if j == i as int {
                    assert(steps@[steps@.len() - 1] == j as usize);
                } else {
                    assert(old_steps.contains(j as usize));
                    let k = choose|k: int| 0 <= k < old_steps.len() && old_steps[k] == j as usize;
                    assert(steps@[k] == j as usize);
                }
            }
        }
    }
    Ok(steps)
}

} // verus!
