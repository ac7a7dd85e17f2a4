use vstd::prelude::*;
use crate::migration::{AppliedMigration, Migration, MigrationSet, set_has};

verus! {

/// Some row of the history has version `v`.
pub open spec fn rows_have(rows: Seq<AppliedMigration>, v: i64) -> bool {
    exists|i: int| 0 <= i < rows.len() && rows[i].version == v
}

/// Row `i` has a descriptor whose checksum differs from the recorded one.
pub open spec fn drifted(set: Seq<Migration>, rows: Seq<AppliedMigration>, i: int) -> bool {
    exists|j: int|
        0 <= j < set.len() && set[j].version == rows[i].version && set[j].checksum@ != rows[i].checksum@
}

/// `v` is the version of the first drifted row.
pub open spec fn first_drift(set: Seq<Migration>, rows: Seq<AppliedMigration>, v: i64) -> bool {
    exists|i: int|
        0 <= i < rows.len() && drifted(set, rows, i) && rows[i].version == v
            && forall|k: int| 0 <= k < i ==> !drifted(set, rows, k)
}

/// Some row of the history has drifted from its descriptor.
pub open spec fn any_drift(set: Seq<Migration>, rows: Seq<AppliedMigration>) -> bool {
    exists|i: int| 0 <= i < rows.len() && drifted(set, rows, i)
}

/// Versions of the history that no descriptor has, in history order.
pub open spec fn unknown_of(set: Seq<Migration>, rows: Seq<AppliedMigration>) -> Seq<i64>
    decreases rows.len(),
{
    if rows.len() == 0 {
        seq![]
    } else {
        let prev = unknown_of(set, rows.drop_last());
        if set_has(set, rows.last().version) {
            prev
        } else {
            prev.push(rows.last().version)
        }
    }
}

/// Positions among the first `n` descriptors whose version the history lacks,
/// ascending.
pub open spec fn pending_of(set: Seq<Migration>, rows: Seq<AppliedMigration>, n: int) -> Seq<usize>
    decreases n,
{
    if n <= 0 {
        seq![]
    } else {
        let prev = pending_of(set, rows, n - 1);
        if rows_have(rows, set[n - 1].version) {
            prev
        } else {
            prev.push((n - 1) as usize)
        }
    }
}

/// Positions, from `lo` up, of applied descriptors above `target`, descending.
pub open spec fn revert_of(set: Seq<Migration>, rows: Seq<AppliedMigration>, target: i64, lo: int) -> Seq<usize>
    decreases set.len() - lo,
{
    if lo >= set.len() || lo < 0 {
        seq![]
    } else {
        let rest = revert_of(set, rows, target, lo + 1);
        if set[lo].version > target && rows_have(rows, set[lo].version) {
            rest.push(lo as usize)
        } else {
            rest
        }
    }
}

/// Byte sequences are equal.
pub fn same_bytes(a: &Vec<u8>, b: &Vec<u8>) -> (r: bool)
    ensures
        r == (a@ == b@),
{
    if a.len() != b.len() {
        return false;
    }
    let mut i: usize = 0;
    while i < a.len()
        invariant
            a@.len() == b@.len(),
            i <= a@.len(),
            forall|k: int| 0 <= k < i ==> a@[k] == b@[k],
        decreases a@.len() - i,
    {
        if a[i] != b[i] {
            return false;
        }
        i = i + 1;
    }
    assert(a@ =~= b@);
    true
}

/// Whether the history holds version `v`.
pub fn has_version(rows: &Vec<AppliedMigration>, v: i64) -> (r: bool)
    ensures
        r == rows_have(rows@, v),
{
    let mut i: usize = 0;
    while i < rows.len()
        invariant
            i <= rows@.len(),
            forall|k: int| 0 <= k < i ==> rows@[k].version != v,
        decreases rows@.len() - i,
    {
        if rows[i].version == v {
            return true;
        }
        i = i + 1;
    }
    false
}

/// The version of the first history row whose recorded checksum differs
/// from its descriptor's, if any.
pub fn first_checksum_mismatch(set: &MigrationSet, rows: &Vec<AppliedMigration>) -> (r: Option<i64>)
    requires
        set.wf(),
    ensures
        r is None <==> !any_drift(set@, rows@),
        r matches Some(v) ==> first_drift(set@, rows@, v),
{
    let mut i: usize = 0;
    while i < rows.len()
        invariant
            set.wf(),
            i <= rows@.len(),
            forall|k: int| 0 <= k < i ==> !drifted(set@, rows@, k),
        decreases rows@.len() - i,
    {
        let row = &rows[i];
        match set.find(row.version) {
            Some(j) => {
                if !same_bytes(&set.get(j).checksum, &row.checksum) {
                    assert(drifted(set@, rows@, i as int));
                    return Some(row.version);
                }
                proof {
                    assert forall|j2: int| 0 <= j2 < set@.len() && set@[j2].version == rows@[i as int].version
                        implies set@[j2].checksum@ == rows@[i as int].checksum@ by {
                        if j2 < j {
                            assert(set@[j2].version < set@[j as int].version);
                        } else if j2 > j {
                            assert(set@[j as int].version < set@[j2].version);
                        }
                    }
                }
            },
            None => {},
        }
        i = i + 1;
    }
    None
}

/// Versions recorded in the history that no descriptor has, in history order.
pub fn unknown_versions(set: &MigrationSet, rows: &Vec<AppliedMigration>) -> (r: Vec<i64>)
    ensures
        r@ == unknown_of(set@, rows@),
{
    let mut out: Vec<i64> = Vec::new();
    let mut i: usize = 0;
    while i < rows.len()
        invariant
            i <= rows@.len(),
            out@ == unknown_of(set@, rows@.subrange(0, i as int)),
        decreases rows@.len() - i,
    {
        assert(rows@.subrange(0, i + 1).drop_last() =~= rows@.subrange(0, i as int));
        if set.find(rows[i].version).is_none() {
            out.push(rows[i].version);
        }
        i = i + 1;
    }
    assert(rows@.subrange(0, rows@.len() as int) =~= rows@);
    out
}

/// Positions of the descriptors that the history lacks, ascending.
pub fn pending(set: &MigrationSet, rows: &Vec<AppliedMigration>) -> (r: Vec<usize>)
    ensures
        r@ == pending_of(set@, rows@, set@.len() as int),
{
    let mut out: Vec<usize> = Vec::new();
    let mut i: usize = 0;
    while i < set.len()
        invariant
            i <= set@.len(),
            out@ == pending_of(set@, rows@, i as int),
        decreases set@.len() - i,
    {
        if !has_version(rows, set.get(i).version) {
            out.push(i);
        }
        i = i + 1;
    }
    out
}

/// Positions of the applied descriptors whose version is above `target`,
/// descending: the order in which they are reverted.
pub fn revert_plan(set: &MigrationSet, rows: &Vec<AppliedMigration>, target: i64) -> (r: Vec<usize>)
    ensures
        r@ == revert_of(set@, rows@, target, 0),
{
    let mut out: Vec<usize> = Vec::new();
    let mut i: usize = set.len();
    while i > 0
        invariant
            i <= set@.len(),
            out@ == revert_of(set@, rows@, target, i as int),
        decreases i,
    {
        i = i - 1;
        let m = set.get(i);
        if m.version > target && has_version(rows, m.version) {
            out.push(i);
        }
    }
    out
}

} // verus!
