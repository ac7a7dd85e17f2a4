use vstd::prelude::*;
use crate::migration::{AppliedMigration, MigrateError, Migration};
use crate::plan::rows_have;

verus! {

/// History rows ordered by strictly increasing version.
pub open spec fn rows_ascending(rows: Seq<AppliedMigration>) -> bool {
    forall|i: int, j: int| 0 <= i < j < rows.len() ==> rows[i].version < rows[j].version
}

/// Position of a row with version `v`.
pub open spec fn row_index(rows: Seq<AppliedMigration>, v: i64) -> int {
    choose|i: int| 0 <= i < rows.len() && rows[i].version == v
}

/// The recorded checksum of each version in the history.
pub open spec fn checksum_map(rows: Seq<AppliedMigration>) -> Map<i64, Seq<u8>> {
    Map::new(|v: i64| rows_have(rows, v), |v: i64| rows[row_index(rows, v)].checksum@)
}

/// What the durable migration state holds: recorded checksums by version,
/// the dirty marker, and the holder of the advisory lock.
pub struct HistoryState {
    pub rows: Map<i64, Seq<u8>>,
    pub dirty: Option<i64>,
    pub owner: Option<u64>,
}

/// The state after a successful apply of `m`.
pub open spec fn applied_ok(h: HistoryState, m: Migration) -> HistoryState {
    HistoryState {
        rows: h.rows.insert(m.version, m.checksum@),
        dirty: if h.dirty == Some(m.version) { None } else { h.dirty },
        owner: h.owner,
    }
}

/// The state after the script of `m` failed during apply: the row is kept
/// and the dirty marker set at its version.
pub open spec fn apply_failed(h: HistoryState, m: Migration) -> HistoryState {
    HistoryState { rows: h.rows.insert(m.version, m.checksum@), dirty: Some(m.version), owner: h.owner }
}

/// The state after a successful revert of `m`.
pub open spec fn reverted_ok(h: HistoryState, m: Migration) -> HistoryState {
    HistoryState {
        rows: h.rows.remove(m.version),
        dirty: if h.dirty == Some(m.version) { None } else { h.dirty },
        owner: h.owner,
    }
}

/// The state after the down script of `m` failed.
pub open spec fn revert_failed(h: HistoryState, m: Migration) -> HistoryState {
    HistoryState { rows: h.rows, dirty: Some(m.version), owner: h.owner }
}

/// The state after `owner` tries to take the lock, and whether it got it.
pub open spec fn lock_step(h: HistoryState, owner: u64) -> (HistoryState, bool) {
    if h.owner is None {
        (HistoryState { rows: h.rows, dirty: h.dirty, owner: Some(owner) }, true)
    } else {
        (h, false)
    }
}

/// The state after `owner` releases the lock; a no-op for anyone else.
pub open spec fn unlock_step(h: HistoryState, owner: u64) -> HistoryState {
    if h.owner == Some(owner) {
        HistoryState { rows: h.rows, dirty: h.dirty, owner: None }
    } else {
        h
    }
}

/// The highest recorded version.
pub open spec fn is_max_key(rows: Map<i64, Seq<u8>>, v: i64) -> bool {
    rows.contains_key(v) && forall|w: i64| rows.contains_key(w) ==> w <= v
}

pub proof fn lemma_row_lookup(rows: Seq<AppliedMigration>, i: int)
    requires
        rows_ascending(rows),
        0 <= i < rows.len(),
    ensures
        checksum_map(rows).contains_key(rows[i].version),
        checksum_map(rows)[rows[i].version] == rows[i].checksum@,
{
    let v = rows[i].version;
    assert(rows_have(rows, v));
    let k = row_index(rows, v);
    if k < i {
        assert(rows[k].version < rows[i].version);
    } else if k > i {
        assert(rows[i].version < rows[k].version);
    }
}

proof fn lemma_map_insert(old_rows: Seq<AppliedMigration>, rows: Seq<AppliedMigration>, p: int)
    requires
        rows_ascending(old_rows),
        rows_ascending(rows),
        0 <= p <= old_rows.len(),
        rows == old_rows.insert(p, rows[p]),
    ensures
        checksum_map(rows) == checksum_map(old_rows).insert(rows[p].version, rows[p].checksum@),
{
    let r = rows[p];
    let a = checksum_map(rows);
    let b = checksum_map(old_rows).insert(r.version, r.checksum@);
    assert forall|v: i64| a.contains_key(v) <==> b.contains_key(v) by {
        if rows_have(rows, v) {
            let i = choose|i: int| 0 <= i < rows.len() && rows[i].version == v;
            if i < p {
                assert(old_rows[i].version == v);
            } else if i > p {
                assert(old_rows[i - 1].version == v);
            }
        }
        if rows_have(old_rows, v) {
            let i = choose|i: int| 0 <= i < old_rows.len() && old_rows[i].version == v;
            if i < p {
                assert(rows[i].version == v);
            } else {
                assert(rows[i + 1].version == v);
            }
        }
        if v == r.version {
            assert(rows[p].version == v);
        }
    }
    assert forall|v: i64| a.contains_key(v) implies a[v] == b[v] by {
        let i = choose|i: int| 0 <= i < rows.len() && rows[i].version == v;
        lemma_row_lookup(rows, i);
        if i < p {
            assert(old_rows[i] == rows[i]);
            lemma_row_lookup(old_rows, i);
        } else if i > p {
            assert(old_rows[i - 1] == rows[i]);
            lemma_row_lookup(old_rows, i - 1);
        }
    }
    assert(a =~= b);
}

proof fn lemma_map_remove(old_rows: Seq<AppliedMigration>, rows: Seq<AppliedMigration>, p: int)
    requires
        rows_ascending(old_rows),
        0 <= p < old_rows.len(),
        rows == old_rows.remove(p),
    ensures
        rows_ascending(rows),
        checksum_map(rows) == checksum_map(old_rows).remove(old_rows[p].version),
{
    assert forall|i: int, j: int| 0 <= i < j < rows.len() implies rows[i].version < rows[j].version by {
        if j < p {
        } else if i < p {
            assert(rows[j] == old_rows[j + 1]);
        } else {
            assert(rows[i] == old_rows[i + 1] && rows[j] == old_rows[j + 1]);
        }
    }
    let w = old_rows[p].version;
    let a = checksum_map(rows);
    let b = checksum_map(old_rows).remove(w);
    assert forall|v: i64| a.contains_key(v) <==> b.contains_key(v) by {
        if rows_have(rows, v) {
            let i = choose|i: int| 0 <= i < rows.len() && rows[i].version == v;
            if i < p {
                assert(old_rows[i].version == v);
                assert(old_rows[i].version < w);
            } else {
                assert(old_rows[i + 1].version == v);
                assert(w < old_rows[i + 1].version);
            }
        }
        if rows_have(old_rows, v) && v != w {
            let i = choose|i: int| 0 <= i < old_rows.len() && old_rows[i].version == v;
            if i < p {
                assert(rows[i].version == v);
            } else {
                assert(i != p);
                assert(rows[i - 1].version == v);
            }
        }
    }
    assert forall|v: i64| a.contains_key(v) implies a[v] == b[v] by {
        let i = choose|i: int| 0 <= i < rows.len() && rows[i].version == v;
        lemma_row_lookup(rows, i);
        if i < p {
            lemma_row_lookup(old_rows, i);
        } else {
            lemma_row_lookup(old_rows, i + 1);
        }
    }
    assert(a =~= b);
}

/// Copy of a byte sequence.
fn copy_bytes(b: &Vec<u8>) -> (r: Vec<u8>)
    ensures
        r@ == b@,
{
    let mut out: Vec<u8> = Vec::new();
    let mut i: usize = 0;
    while i < b.len()
        invariant
            i <= b@.len(),
            out@ == b@.subrange(0, i as int),
        decreases b@.len() - i,
    {
        out.push(b[i]);
        i = i + 1;
    }
    assert(out@ =~= b@);
    out
}

/// An in-memory migration history: the durable table, the dirty marker and
/// the advisory lock of one database.
pub struct History {
    rows: Vec<AppliedMigration>,
    dirty: Option<i64>,
    owner: Option<u64>,
}

impl History {
    pub closed spec fn view(&self) -> HistoryState {
        HistoryState { rows: checksum_map(self.rows@), dirty: self.dirty, owner: self.owner }
    }

    pub closed spec fn wf(&self) -> bool {
        rows_ascending(self.rows@)
    }

    /// An empty history, unlocked and clean.
    pub fn new() -> (r: History)
        ensures
            r.wf(),
            r.view().rows == Map::<i64, Seq<u8>>::empty(),
            r.view().dirty is None,
            r.view().owner is None,
    {
        let r = History { rows: Vec::new(), dirty: None, owner: None };
        assert(checksum_map(r.rows@) =~= Map::<i64, Seq<u8>>::empty());
        r
    }

    /// Tries to take the advisory lock for `owner`; it is not re-entrant.
    pub fn try_lock(&mut self, owner: u64) -> (r: bool)
        requires
            old(self).wf(),
        ensures
            final(self).wf(),
            (final(self).view(), r) == lock_step(old(self).view(), owner),
    {
        if self.owner.is_none() {
            self.owner = Some(owner);
            true
        } else {
            false
        }
    }

    /// Releases the lock if `owner` holds it; otherwise nothing happens.
    pub fn unlock(&mut self, owner: u64)
        requires
            old(self).wf(),
        ensures
            final(self).wf(),
            final(self).view() == unlock_step(old(self).view(), owner),
    {
        if self.owner == Some(owner) {
            self.owner = None;
        }
    }

    /// The version left incomplete by an earlier run, if any.
    pub fn dirty_version(&self) -> (r: Option<i64>)
        ensures
            r == self.view().dirty,
    {
        self.dirty
    }

    /// The highest recorded version, and whether it is the dirty one.
    pub fn version(&self) -> (r: Option<(i64, bool)>)
        requires
            self.wf(),
        ensures
            r is None <==> self.view().rows.is_empty(),
            r matches Some((v, d)) ==> is_max_key(self.view().rows, v) && d == (self.view().dirty == Some(v)),
    {
        let n = self.rows.len();
        if n == 0 {
            assert(self.view().rows =~= Map::<i64, Seq<u8>>::empty());
            None
        } else {
            let v = self.rows[n - 1].version;
            proof {
                lemma_row_lookup(self.rows@, n - 1);
                assert forall|w: i64| self.view().rows.contains_key(w) implies w <= v by {
                    let i = choose|i: int| 0 <= i < self.rows@.len() && self.rows@[i].version == w;
                    if i < n - 1 {
                        assert(self.rows@[i].version < self.rows@[n - 1].version);
                    }
                }
                assert(self.view().rows.contains_key(v));
            }
            Some((v, self.dirty == Some(v)))
        }
    }

    /// All rows, ordered by ascending version.
    pub fn list_applied_migrations(&self) -> (r: Vec<AppliedMigration>)
        requires
            self.wf(),
        ensures
            rows_ascending(r@),
            checksum_map(r@) == self.view().rows,
    {
        let mut out: Vec<AppliedMigration> = Vec::new();
        let mut i: usize = 0;
        while i < self.rows.len()
            invariant
                i <= self.rows@.len(),
                out@.len() == i,
                forall|k: int| 0 <= k < i ==> (#[trigger] out@[k]).version == self.rows@[k].version
                    && out@[k].checksum@ == self.rows@[k].checksum@,
            decreases self.rows@.len() - i,
        {
            let row = &self.rows[i];
            out.push(AppliedMigration {
                version: row.version,
                checksum: copy_bytes(&row.checksum),
                applied_at: row.applied_at,
                execution_time_ms: row.execution_time_ms,
            });
            i = i + 1;
        }
        proof {
            let a = checksum_map(out@);
            let b = checksum_map(self.rows@);
            assert(rows_ascending(out@));
            assert forall|v: i64| a.contains_key(v) <==> b.contains_key(v) by {
                if rows_have(out@, v) {
                    let k = choose|k: int| 0 <= k < out@.len() && out@[k].version == v;
                    assert(self.rows@[k].version == v);
                }
                if rows_have(self.rows@, v) {
                    let k = choose|k: int| 0 <= k < self.rows@.len() && self.rows@[k].version == v;
                    assert(out@[k].version == v);
                }
            }
            assert forall|v: i64| a.contains_key(v) implies a[v] == b[v] by {
                let k = choose|k: int| 0 <= k < out@.len() && out@[k].version == v;
                lemma_row_lookup(out@, k);
                lemma_row_lookup(self.rows@, k);
            }
            assert(a =~= b);
        }
        out
    }

    /// Compares the checksum of `m` with the one recorded for its version.
    pub fn validate(&self, m: &Migration) -> (r: Result<(), MigrateError>)
        requires
            self.wf(),
        ensures
            r is Ok <==> (self.view().rows.contains_key(m.version) ==> self.view().rows[m.version] == m.checksum@),
            r matches Err(e) ==> e == MigrateError::ChecksumMismatch(m.version),
    {
        let mut i: usize = 0;
        while i < self.rows.len()
            invariant
                self.wf(),
                i <= self.rows@.len(),
                forall|k: int| 0 <= k < i ==> self.rows@[k].version != m.version,
            decreases self.rows@.len() - i,
        {
            if self.rows[i].version == m.version {
                proof {
                    lemma_row_lookup(self.rows@, i as int);
                }
                if crate::plan::same_bytes(&self.rows[i].checksum, &m.checksum) {
                    return Ok(());
                } else {
                    return Err(MigrateError::ChecksumMismatch(m.version));
                }
            }
            i = i + 1;
        }
        Ok(())
    }

    /// Records the outcome of running the up script of `m`, which the
    /// history does not hold yet: the elapsed milliseconds, or the failure.
    /// Either way a row is recorded; a failure also sets the dirty marker.
    pub fn apply(&mut self, m: &Migration, outcome: Result<u64, String>, applied_at: i64) -> (r: Result<u64, MigrateError>)
        requires
            old(self).wf(),
            !old(self).view().rows.contains_key(m.version),
        ensures
            final(self).wf(),
            outcome matches Ok(ms) ==> r == Ok::<u64, MigrateError>(ms) && final(self).view() == applied_ok(old(self).view(), *m),
            outcome matches Err(c) ==> r == Err::<u64, MigrateError>(MigrateError::Execution(m.version, c))
                && final(self).view() == apply_failed(old(self).view(), *m),
    {
        let p = self.position(m.version);
        let ghost old_rows = self.rows@;
        proof {
            if p < self.rows@.len() && self.rows@[p as int].version == m.version {
                lemma_row_lookup(self.rows@, p as int);
            }
        }
        let elapsed = match &outcome {
            Ok(ms) => *ms,
            Err(_) => 0,
        };
        let row = AppliedMigration {
            version: m.version,
            checksum: copy_bytes(&m.checksum),
            applied_at,
            execution_time_ms: elapsed,
        };
        self.rows.insert(p, row);
        proof {
            assert forall|i: int, j: int| 0 <= i < j < self.rows@.len() implies
                self.rows@[i].version < self.rows@[j].version by {
                if j < p {
                } else if j == p {
                } else if i < p {
                    assert(self.rows@[j] == old_rows[j - 1]);
                } else if i == p {
                    assert(self.rows@[j] == old_rows[j - 1]);
                    assert(old_rows[j - 1].version != m.version);
                } else {
                    assert(self.rows@[i] == old_rows[i - 1] && self.rows@[j] == old_rows[j - 1]);
                }
            }
            assert(self.rows@ == old_rows.insert(p as int, self.rows@[p as int]));
            lemma_map_insert(old_rows, self.rows@, p as int);
        }
        match outcome {
            Ok(ms) => {
                if self.dirty == Some(m.version) {
                    self.dirty = None;
                }
                Ok(ms)
            },
            Err(c) => {
                self.dirty = Some(m.version);
                Err(MigrateError::Execution(m.version, c))
            },
        }
    }

    /// Records the outcome of running the down script of `m`: on success its
    /// row is removed and a dirty marker at its version cleared; on failure
    /// the dirty marker is set. An irreversible migration changes nothing.
    pub fn revert(&mut self, m: &Migration, outcome: Result<u64, String>) -> (r: Result<u64, MigrateError>)
        requires
            old(self).wf(),
        ensures
            final(self).wf(),
            m.script_down is None ==> r == Err::<u64, MigrateError>(MigrateError::NoRevertScript(m.version))
                && final(self).view() == old(self).view(),
            m.script_down is Some ==> {
                &&& outcome matches Ok(ms) ==> r == Ok::<u64, MigrateError>(ms)
                    && final(self).view() == reverted_ok(old(self).view(), *m)
                &&& outcome matches Err(c) ==> r == Err::<u64, MigrateError>(MigrateError::Execution(m.version, c))
                    && final(self).view() == revert_failed(old(self).view(), *m)
            },
    {
        if m.script_down.is_none() {
            return Err(MigrateError::NoRevertScript(m.version));
        }
        match outcome {
            Ok(ms) => {
                let p = self.position(m.version);
                if p < self.rows.len() && self.rows[p].version == m.version {
                    let ghost old_rows = self.rows@;
                    self.rows.remove(p);
                    proof {
                        lemma_map_remove(old_rows, self.rows@, p as int);
                    }
                } else {
                    proof {
                        assert forall|k: int| 0 <= k < self.rows@.len() implies self.rows@[k].version != m.version by {
                            if k > p {
                                assert(self.rows@[p as int].version < self.rows@[k].version);
                            }
                        }
                        assert(checksum_map(self.rows@) =~= checksum_map(self.rows@).remove(m.version));
                    }
                }
                if self.dirty == Some(m.version) {
                    self.dirty = None;
                }
                Ok(ms)
            },
            Err(c) => {
                self.dirty = Some(m.version);
                Err(MigrateError::Execution(m.version, c))
            },
        }
    }

    /// Position at which a row of version `v` stands or would be inserted.
    fn position(&self, v: i64) -> (p: usize)
        requires
            self.wf(),
        ensures
            p <= self.rows@.len(),
            forall|k: int| 0 <= k < p ==> self.rows@[k].version < v,
            forall|k: int| p <= k < self.rows@.len() ==> self.rows@[k].version >= v,
    {
        let mut p: usize = 0;
        while p < self.rows.len() && self.rows[p].version < v
            invariant
                self.wf(),
                p <= self.rows@.len(),
                forall|k: int| 0 <= k < p ==> self.rows@[k].version < v,
            decreases self.rows@.len() - p,
        {
            p = p + 1;
        }
        proof {
            assert forall|k: int| p <= k < self.rows@.len() implies self.rows@[k].version >= v by {
                if k > p {
                    assert(self.rows@[p as int].version < self.rows@[k].version);
                }
            }
        }
        p
    }
}

} // verus!
