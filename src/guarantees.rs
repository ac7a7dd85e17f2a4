use vstd::prelude::*;
use crate::history::{
    apply_failed, applied_ok, checksum_map, is_max_key, lock_step, reverted_ok, rows_ascending, unlock_step,
    HistoryState,
};
use crate::migration::{set_has, strictly_ascending, AppliedMigration, Migration};
use crate::plan::{any_drift, drifted, pending_of, revert_of, rows_have, unknown_of};
use crate::runner::{plan_for, Direction};

verus! {

/// Recorded checksum of each descriptor among the first `n`.
pub open spec fn prefix_map(set: Seq<Migration>, n: int) -> Map<i64, Seq<u8>>
    decreases n,
{
    if n <= 0 {
        Map::empty()
    } else {
        prefix_map(set, n - 1).insert(set[n - 1].version, set[n - 1].checksum@)
    }
}

/// The history that applying the whole catalog records.
pub open spec fn catalog_map(set: Seq<Migration>) -> Map<i64, Seq<u8>> {
    prefix_map(set, set.len() as int)
}

/// The state after applying, successfully and in order, the descriptors at
/// the positions of `plan`.
pub open spec fn applied_all(h: HistoryState, set: Seq<Migration>, plan: Seq<usize>) -> HistoryState
    decreases plan.len(),
{
    if plan.len() == 0 {
        h
    } else {
        applied_ok(applied_all(h, set, plan.drop_last()), set[plan.last() as int])
    }
}

/// Reverting a migration and applying it again leaves the history as it was,
/// the row back with the same checksum.
pub proof fn lemma_revert_then_apply(h: HistoryState, m: Migration)
    requires
        h.rows.contains_key(m.version),
        h.rows[m.version] == m.checksum@,
        h.dirty != Some(m.version),
    ensures
        applied_ok(reverted_ok(h, m), m) == h,
{
    assert(h.rows.remove(m.version).insert(m.version, m.checksum@) =~= h.rows);
}

/// A failed apply of a migration above every recorded version leaves that
/// version as the highest recorded one, marked dirty.
pub proof fn lemma_failed_apply_is_dirty(h: HistoryState, m: Migration)
    requires
        forall|w: i64| h.rows.contains_key(w) ==> w < m.version,
    ensures
        is_max_key(apply_failed(h, m).rows, m.version),
        apply_failed(h, m).dirty == Some(m.version),
{
}

/// A history row whose checksum differs from its descriptor's is found
/// before anything is planned.
pub proof fn lemma_altered_checksum_detected(set: Seq<Migration>, rows: Seq<AppliedMigration>, i: int, j: int)
    requires
        0 <= i < rows.len(),
        0 <= j < set.len(),
        rows[i].version == set[j].version,
        rows[i].checksum@ != set[j].checksum@,
    ensures
        any_drift(set, rows),
{
    assert(drifted(set, rows, i));
}

/// Of two runners asking for the lock one after the other, at most one gets
/// it; the second gets it once the first has released it.
pub proof fn lemma_lock_excludes(h: HistoryState, a: u64, b: u64)
    requires
        a != b,
    ensures
        !(lock_step(h, a).1 && lock_step(lock_step(h, a).0, b).1),
        lock_step(h, a).1 ==> lock_step(unlock_step(lock_step(h, a).0, a), b).1,
{
}

proof fn lemma_prefix_map(set: Seq<Migration>, n: int)
    requires
        strictly_ascending(set),
        0 <= n <= set.len(),
    ensures
        forall|v: i64| prefix_map(set, n).contains_key(v) <==> exists|k: int| 0 <= k < n && set[k].version == v,
        forall|k: int| 0 <= k < n ==> prefix_map(set, n)[#[trigger] set[k].version] == set[k].checksum@,
    decreases n,
{
    if n > 0 {
        lemma_prefix_map(set, n - 1);
        assert(prefix_map(set, n) == prefix_map(set, n - 1).insert(set[n - 1].version, set[n - 1].checksum@));
        assert forall|k: int| 0 <= k < n implies prefix_map(set, n)[#[trigger] set[k].version] == set[k].checksum@ by {
            if k < n - 1 {
                assert(set[k].version < set[n - 1].version);
            }
        }
        assert forall|v: i64| prefix_map(set, n).contains_key(v) implies exists|k: int| 0 <= k < n && set[k].version == v by {
            if v != set[n - 1].version {
                assert(prefix_map(set, n - 1).contains_key(v));
                let k = choose|k: int| 0 <= k < n - 1 && set[k].version == v;
                assert(0 <= k < n && set[k].version == v);
            } else {
                assert(0 <= n - 1 < n && set[n - 1].version == v);
            }
        }
    }
}

/// The recorded checksum of a row whose descriptor has not drifted is the
/// descriptor's.
proof fn lemma_row_matches(set: Seq<Migration>, rows: Seq<AppliedMigration>, i: int, k: int)
    requires
        rows_ascending(rows),
        0 <= i < rows.len(),
        0 <= k < set.len(),
        set[k].version == rows[i].version,
        !any_drift(set, rows),
    ensures
        checksum_map(rows).contains_key(set[k].version),
        checksum_map(rows)[set[k].version] == set[k].checksum@,
{
    crate::history::lemma_row_lookup(rows, i);
    if set[k].checksum@ != rows[i].checksum@ {
        assert(drifted(set, rows, i));
    }
}

proof fn lemma_pending_ascending(set: Seq<Migration>, rows: Seq<AppliedMigration>, n: int)
    requires
        0 <= n <= set.len() <= usize::MAX,
    ensures
        forall|a: int| 0 <= a < pending_of(set, rows, n).len() ==> pending_of(set, rows, n)[a] < n,
        forall|a: int, b: int| 0 <= a < b < pending_of(set, rows, n).len() ==>
            pending_of(set, rows, n)[a] < pending_of(set, rows, n)[b],
    decreases n,
{
    if n > 0 {
        lemma_pending_ascending(set, rows, n - 1);
        let prev = pending_of(set, rows, n - 1);
        if !rows_have(rows, set[n - 1].version) {
            assert(pending_of(set, rows, n) == prev.push((n - 1) as usize));
        } else {
            assert(pending_of(set, rows, n) == prev);
        }
    }
}

proof fn lemma_applied_prefix(h: HistoryState, set: Seq<Migration>, rows: Seq<AppliedMigration>, n: int)
    requires
        strictly_ascending(set),
        0 <= n <= set.len() <= usize::MAX,
        rows_ascending(rows),
        h.rows == checksum_map(rows),
        !any_drift(set, rows),
    ensures
        applied_all(h, set, pending_of(set, rows, n)).rows == h.rows.union_prefer_right(prefix_map(set, n)),
    decreases n,
{
    if n == 0 {
        assert(h.rows.union_prefer_right(prefix_map(set, 0)) =~= h.rows);
    } else {
        lemma_applied_prefix(h, set, rows, n - 1);
        lemma_prefix_map(set, n - 1);
        let prev = pending_of(set, rows, n - 1);
        let m = set[n - 1];
        let before = h.rows.union_prefer_right(prefix_map(set, n - 1));
        if rows_have(rows, m.version) {
            let i = choose|i: int| 0 <= i < rows.len() && rows[i].version == m.version;
            lemma_row_matches(set, rows, i, n - 1);
            assert forall|k: int| 0 <= k < n - 1 implies set[k].version != m.version by {
                assert(set[k].version < m.version);
            }
            assert(before =~= h.rows.union_prefer_right(prefix_map(set, n)));
        } else {
            assert(pending_of(set, rows, n) == prev.push((n - 1) as usize));
            assert(pending_of(set, rows, n).drop_last() == prev);
            assert(before.insert(m.version, m.checksum@) =~= h.rows.union_prefer_right(prefix_map(set, n)));
        }
    }
}

/// A full apply run on a history that holds only catalog versions, with
/// their recorded checksums, applies the pending migrations in ascending
/// version order and leaves exactly the catalog recorded, each version with
/// its descriptor's checksum.
pub proof fn lemma_full_apply(h: HistoryState, set: Seq<Migration>, rows: Seq<AppliedMigration>)
    requires
        strictly_ascending(set),
        set.len() <= usize::MAX,
        rows_ascending(rows),
        h.rows == checksum_map(rows),
        forall|i: int| 0 <= i < rows.len() ==> set_has(set, #[trigger] rows[i].version),
        !any_drift(set, rows),
    ensures
        forall|a: int, b: int| 0 <= a < b < plan_for(set, Direction::Up, rows).len() ==>
            set[plan_for(set, Direction::Up, rows)[a] as int].version
                < set[plan_for(set, Direction::Up, rows)[b] as int].version,
        applied_all(h, set, plan_for(set, Direction::Up, rows)).rows == catalog_map(set),
{
    let n = set.len() as int;
    lemma_pending_ascending(set, rows, n);
    lemma_applied_prefix(h, set, rows, n);
    lemma_prefix_map(set, n);
    assert forall|v: i64| h.rows.contains_key(v) implies prefix_map(set, n).contains_key(v)
        && h.rows[v] == prefix_map(set, n)[v] by {
        let i = choose|i: int| 0 <= i < rows.len() && rows[i].version == v;
        assert(set_has(set, rows[i].version));
        let k = choose|k: int| 0 <= k < set.len() && set[k].version == v;
        lemma_row_matches(set, rows, i, k);
    }
    assert(h.rows.union_prefer_right(prefix_map(set, n)) =~= prefix_map(set, n));
}

proof fn lemma_nothing_unknown(set: Seq<Migration>, rows: Seq<AppliedMigration>)
    requires
        forall|i: int| 0 <= i < rows.len() ==> set_has(set, #[trigger] rows[i].version),
    ensures
        unknown_of(set, rows).len() == 0,
    decreases rows.len(),
{
    if rows.len() > 0 {
        let r = rows.drop_last();
        assert forall|i: int| 0 <= i < r.len() implies set_has(set, #[trigger] r[i].version) by {
            assert(r[i] == rows[i]);
        }
        lemma_nothing_unknown(set, r);
        assert(set_has(set, rows[rows.len() - 1].version));
    }
}

proof fn lemma_nothing_pending(set: Seq<Migration>, rows: Seq<AppliedMigration>, n: int)
    requires
        0 <= n <= set.len(),
        forall|k: int| 0 <= k < set.len() ==> rows_have(rows, #[trigger] set[k].version),
    ensures
        pending_of(set, rows, n).len() == 0,
    decreases n,
{
    if n > 0 {
        lemma_nothing_pending(set, rows, n - 1);
        assert(rows_have(rows, set[n - 1].version));
    }
}

/// Once the history records exactly the catalog, a further apply run finds
/// no drift, no unknown version and nothing to apply: it changes nothing.
pub proof fn lemma_second_run_noop(set: Seq<Migration>, rows: Seq<AppliedMigration>)
    requires
        strictly_ascending(set),
        rows_ascending(rows),
        checksum_map(rows) == catalog_map(set),
    ensures
        !any_drift(set, rows),
        unknown_of(set, rows).len() == 0,
        plan_for(set, Direction::Up, rows).len() == 0,
{
    let n = set.len() as int;
    lemma_prefix_map(set, n);
    assert forall|i: int| 0 <= i < rows.len() implies !drifted(set, rows, i) by {
        crate::history::lemma_row_lookup(rows, i);
        let v = rows[i].version;
        let k = choose|k: int| 0 <= k < n && set[k].version == v;
        assert forall|j: int| 0 <= j < set.len() && set[j].version == v implies set[j].checksum@ == rows[i].checksum@ by {
            if j < k {
                assert(set[j].version < set[k].version);
            } else if j > k {
                assert(set[k].version < set[j].version);
            }
        }
    }
    assert forall|i: int| 0 <= i < rows.len() implies set_has(set, #[trigger] rows[i].version) by {
        crate::history::lemma_row_lookup(rows, i);
        let k = choose|k: int| 0 <= k < n && set[k].version == rows[i].version;
    }
    lemma_nothing_unknown(set, rows);
    assert forall|k: int| 0 <= k < set.len() implies rows_have(rows, #[trigger] set[k].version) by {
        assert(catalog_map(set).contains_key(set[k].version));
    }
    lemma_nothing_pending(set, rows, n);
}

proof fn lemma_revert_from(set: Seq<Migration>, rows: Seq<AppliedMigration>, t: i64, lo: int)
    requires
        strictly_ascending(set),
        0 <= lo <= set.len() <= usize::MAX,
    ensures
        forall|a: int| 0 <= a < revert_of(set, rows, t, lo).len() ==> {
            &&& lo <= #[trigger] revert_of(set, rows, t, lo)[a] < set.len()
            &&& set[revert_of(set, rows, t, lo)[a] as int].version > t
            &&& rows_have(rows, set[revert_of(set, rows, t, lo)[a] as int].version)
        },
        forall|a: int, b: int| 0 <= a < b < revert_of(set, rows, t, lo).len() ==>
            revert_of(set, rows, t, lo)[a] > revert_of(set, rows, t, lo)[b],
        forall|k: int| lo <= k < set.len() && set[k].version > t && rows_have(rows, set[k].version) ==>
            revert_of(set, rows, t, lo).contains(k as usize),
    decreases set.len() - lo,
{
    if lo < set.len() {
        lemma_revert_from(set, rows, t, lo + 1);
        let rest = revert_of(set, rows, t, lo + 1);
        if set[lo].version > t && rows_have(rows, set[lo].version) {
            assert(revert_of(set, rows, t, lo) == rest.push(lo as usize));
            assert(rest.push(lo as usize)[rest.len() as int] == lo as usize);
        } else {
            assert(revert_of(set, rows, t, lo) == rest);
        }
        let r = revert_of(set, rows, t, lo);
        assert forall|k: int| lo <= k < set.len() && set[k].version > t && rows_have(rows, set[k].version)
            implies r.contains(k as usize) by {
            if k > lo {
                let a = choose|a: int| 0 <= a < rest.len() && rest[a] == k as usize;
                assert(r[a] == k as usize);
            } else {
                assert(r[rest.len() as int] == k as usize);
            }
        }
    }
}

/// A revert run to `target` reverts exactly the applied catalog migrations
/// above `target`, highest version first.
pub proof fn lemma_revert_order(set: Seq<Migration>, rows: Seq<AppliedMigration>, target: i64)
    requires
        strictly_ascending(set),
        set.len() <= usize::MAX,
    ensures
        forall|a: int, b: int| 0 <= a < b < plan_for(set, Direction::Down(target), rows).len() ==>
            set[plan_for(set, Direction::Down(target), rows)[a] as int].version
                > set[plan_for(set, Direction::Down(target), rows)[b] as int].version,
        forall|a: int| 0 <= a < plan_for(set, Direction::Down(target), rows).len() ==> {
            &&& set[#[trigger] plan_for(set, Direction::Down(target), rows)[a] as int].version > target
            &&& rows_have(rows, set[plan_for(set, Direction::Down(target), rows)[a] as int].version)
        },
        forall|k: int| 0 <= k < set.len() && set[k].version > target && rows_have(rows, set[k].version) ==>
            plan_for(set, Direction::Down(target), rows).contains(k as usize),
{
    lemma_revert_from(set, rows, target, 0);
    let p = plan_for(set, Direction::Down(target), rows);
    assert forall|a: int, b: int| 0 <= a < b < p.len() implies set[p[a] as int].version > set[p[b] as int].version by {
        assert(0 <= p[a] < set.len());
        assert(0 <= p[b] < set.len());
    }
}

} // verus!

