use vstd::prelude::*;

verus! {

/// A versioned, checksummed unit of schema change.
#[derive(Debug, PartialEq, Eq)]
pub struct Migration {
    pub version: i64,
    pub description: String,
    /// Content hash of `script_up`.
    pub checksum: Vec<u8>,
    pub script_up: String,
    /// Absent when the migration cannot be reverted.
    pub script_down: Option<String>,
    /// Run outside a transactional wrapper.
    pub no_transaction: bool,
}

/// A row of the durable migration history.
#[derive(Debug, PartialEq, Eq)]
pub struct AppliedMigration {
    pub version: i64,
    /// Checksum recorded when the migration was applied.
    pub checksum: Vec<u8>,
    /// Timestamp of the application, in seconds.
    pub applied_at: i64,
    pub execution_time_ms: u64,
}

/// Errors of the migration engine.
#[derive(Debug, PartialEq, Eq)]
pub enum MigrateError {
    /// Connectivity or privilege failure reported by the backend.
    Backend(String),
    /// The advisory lock was not acquired within the wait policy.
    LockTimeout,
    /// A prior run left this version incomplete.
    DirtyDatabase(i64),
    /// The recorded checksum of this version differs from its descriptor.
    ChecksumMismatch(i64),
    /// The history holds this version, which no descriptor has.
    VersionMismatch(i64),
    /// Revert was requested for an irreversible migration.
    NoRevertScript(i64),
    /// The script of this version failed.
    Execution(i64, String),
    /// Two descriptors share this version.
    DuplicateVersion(i64),
    /// The driver reported an event that does not fit the current step.
    UnexpectedEvent,
}

impl Migration {
    pub fn new(
        version: i64,
        description: String,
        checksum: Vec<u8>,
        script_up: String,
        script_down: Option<String>,
        no_transaction: bool,
    ) -> (r: Migration)
        ensures
            r.version == version,
            r.description == description,
            r.checksum@ == checksum@,
            r.script_up == script_up,
            r.script_down == script_down,
            r.no_transaction == no_transaction,
    {
        Migration { version, description, checksum, script_up, script_down, no_transaction }
    }

    /// Whether the migration has a revert script.
    pub fn is_reversible(&self) -> (r: bool)
        ensures
            r == self.script_down.is_some(),
    {
        self.script_down.is_some()
    }
}

/// Versions strictly increase along the sequence.
pub open spec fn strictly_ascending(s: Seq<Migration>) -> bool {
    forall|i: int, j: int| 0 <= i < j < s.len() ==> s[i].version < s[j].version
}

/// No two descriptors share a version.
pub open spec fn distinct_versions(s: Seq<Migration>) -> bool {
    forall|i: int, j: int| 0 <= i < s.len() && 0 <= j < s.len() && i != j ==> s[i].version != s[j].version
}

/// Some two descriptors share version `v`.
pub open spec fn duplicated(s: Seq<Migration>, v: i64) -> bool {
    exists|i: int, j: int|
        0 <= i < s.len() && 0 <= j < s.len() && i != j && s[i].version == v && s[j].version == v
}

/// Some descriptor has version `v`.
pub open spec fn set_has(s: Seq<Migration>, v: i64) -> bool {
    exists|i: int| 0 <= i < s.len() && s[i].version == v
}

/// Every element of `sorted` is one of `orig[lo..]`, and every one of
/// `orig[lo..]` is in `sorted`.
spec fn covers(sorted: Seq<Migration>, orig: Seq<Migration>, lo: int) -> bool {
    &&& forall|k: int| 0 <= k < sorted.len() ==>
        exists|a: int| lo <= a < orig.len() && #[trigger] sorted[k] == orig[a]
    &&& forall|a: int| lo <= a < orig.len() ==>
        exists|k: int| 0 <= k < sorted.len() && sorted[k] == #[trigger] orig[a]
}

/// The versions of `orig[lo..]` are pairwise distinct.
spec fn distinct_from(orig: Seq<Migration>, lo: int) -> bool {
    forall|a: int, b: int| lo <= a < orig.len() && lo <= b < orig.len() && a != b
        ==> orig[a].version != orig[b].version
}

proof fn lemma_duplicate_found(sorted: Seq<Migration>, orig: Seq<Migration>, ri: int, p: int)
    requires
        0 <= ri < orig.len(),
        0 <= p < sorted.len(),
        covers(sorted, orig, ri + 1),
        sorted[p].version == orig[ri].version,
    ensures
        duplicated(orig, orig[ri].version),
        !distinct_versions(orig),
{
    let a = choose|a: int| ri + 1 <= a < orig.len() && sorted[p] == orig[a];
    assert(orig[a].version == orig[ri].version);
}

#[verifier::rlimit(40)]
proof fn lemma_fresh_version(sorted: Seq<Migration>, orig: Seq<Migration>, ri: int, p: int)
    requires
        0 <= ri < orig.len(),
        0 <= p <= sorted.len(),
        strictly_ascending(sorted),
        covers(sorted, orig, ri + 1),
        distinct_from(orig, ri + 1),
        forall|k: int| 0 <= k < p ==> sorted[k].version < orig[ri].version,
        p == sorted.len() || sorted[p].version > orig[ri].version,
    ensures
        strictly_ascending(sorted.insert(p, orig[ri])),
        distinct_from(orig, ri),
{
    let m = orig[ri];
    assert forall|k: int| p <= k < sorted.len() implies m.version < sorted[k].version by {
        if k > p {
            assert(sorted[p].version < sorted[k].version);
        }
    }
    assert forall|a: int| ri < a < orig.len() implies orig[a].version != m.version by {
        let k = choose|k: int| 0 <= k < sorted.len() && sorted[k] == orig[a];
        if k < p {
            assert(sorted[k].version < m.version);
        }
    }
    let n = sorted.insert(p, m);
    assert forall|i: int, j: int| 0 <= i < j < n.len() implies n[i].version < n[j].version by {
        if j < p {
            assert(n[i] == sorted[i] && n[j] == sorted[j]);
        } else if j == p {
            assert(n[i] == sorted[i]);
        } else if i < p {
            assert(n[i] == sorted[i] && n[j] == sorted[j - 1]);
        } else if i == p {
            assert(n[j] == sorted[j - 1]);
        } else {
            assert(n[i] == sorted[i - 1] && n[j] == sorted[j - 1]);
        }
    }
}

proof fn lemma_insert_covers(old_sorted: Seq<Migration>, sorted: Seq<Migration>, orig: Seq<Migration>, ri: int, p: int)
    requires
        0 <= ri < orig.len(),
        0 <= p <= old_sorted.len(),
        covers(old_sorted, orig, ri + 1),
        sorted == old_sorted.insert(p, orig[ri]),
    ensures
        covers(sorted, orig, ri),
{
    assert forall|k: int| 0 <= k < sorted.len() implies
        exists|a: int| ri <= a < orig.len() && #[trigger] sorted[k] == orig[a] by {
        if k < p {
            assert(sorted[k] == old_sorted[k]);
        } else if k == p {
            assert(sorted[k] == orig[ri]);
        } else {
            assert(sorted[k] == old_sorted[k - 1]);
        }
    }
    assert forall|a: int| ri <= a < orig.len() implies
        exists|k: int| 0 <= k < sorted.len() && sorted[k] == #[trigger] orig[a] by {
        if a == ri {
            assert(sorted[p] == orig[a]);
        } else {
            let k = choose|k: int| 0 <= k < old_sorted.len() && old_sorted[k] == orig[a];
            if k < p {
                assert(sorted[k] == orig[a]);
            } else {
                assert(sorted[k + 1] == orig[a]);
            }
        }
    }
}

proof fn lemma_covers_contains(sorted: Seq<Migration>, orig: Seq<Migration>)
    requires
        covers(sorted, orig, 0),
    ensures
        forall|i: int| 0 <= i < sorted.len() ==> orig.contains(#[trigger] sorted[i]),
        forall|i: int| 0 <= i < orig.len() ==> sorted.contains(#[trigger] orig[i]),
{
    assert forall|i: int| 0 <= i < sorted.len() implies orig.contains(#[trigger] sorted[i]) by {
        let a = choose|a: int| 0 <= a < orig.len() && sorted[i] == orig[a];
    }
    assert forall|i: int| 0 <= i < orig.len() implies sorted.contains(#[trigger] orig[i]) by {
        let k = choose|k: int| 0 <= k < sorted.len() && sorted[k] == orig[i];
    }
}

/// The catalog of known migrations, ordered by ascending version.
pub struct MigrationSet {
    migrations: Vec<Migration>,
}

impl View for MigrationSet {
    type V = Seq<Migration>;

    closed spec fn view(&self) -> Seq<Migration> {
        self.migrations@
    }
}

impl MigrationSet {
    pub open spec fn wf(&self) -> bool {
        &&& strictly_ascending(self@)
        &&& self@.len() <= usize::MAX
    }

    /// Builds the catalog from descriptors in any order: they come out sorted
    /// by version; two descriptors with one version are refused.
    pub fn new(descriptors: Vec<Migration>) -> (r: Result<MigrationSet, MigrateError>)
        ensures
            r is Ok <==> distinct_versions(descriptors@),
            r matches Ok(s) ==> {
                &&& s.wf()
                &&& s@.len() == descriptors@.len()
                &&& forall|i: int| 0 <= i < s@.len() ==> descriptors@.contains(#[trigger] s@[i])
                &&& forall|i: int| 0 <= i < descriptors@.len() ==> s@.contains(#[trigger] descriptors@[i])
            },
            r matches Err(e) ==> (e matches MigrateError::DuplicateVersion(v) && duplicated(descriptors@, v)),
    {
        let ghost orig = descriptors@;
        let mut rest = descriptors;
        let mut sorted: Vec<Migration> = Vec::new();
        while rest.len() > 0
            invariant
                orig == descriptors@,
                rest@ == orig.subrange(0, rest@.len() as int),
                strictly_ascending(sorted@),
                sorted@.len() + rest@.len() == orig.len(),
                covers(sorted@, orig, rest@.len() as int),
                distinct_from(orig, rest@.len() as int),
            decreases rest@.len(),
        {
            let m = rest.pop().unwrap();
            let ghost ri = rest@.len() as int;
            assert(m == orig[ri]);
            let mut p: usize = 0;
            while p < sorted.len() && sorted[p].version < m.version
                invariant
                    p <= sorted@.len(),
                    forall|k: int| 0 <= k < p ==> sorted@[k].version < m.version,
                decreases sorted@.len() - p,
            {
                p = p + 1;
            }
            if p < sorted.len() && sorted[p].version == m.version {
                let v = m.version;
                proof {
                    lemma_duplicate_found(sorted@, orig, ri, p as int);
                }
                return Err(MigrateError::DuplicateVersion(v));
            }
            proof {
                lemma_fresh_version(sorted@, orig, ri, p as int);
            }
            let ghost old_sorted = sorted@;
            sorted.insert(p, m);
            proof {
                lemma_insert_covers(old_sorted, sorted@, orig, ri, p as int);
            }
        }
        proof {
            assert(orig.subrange(0, 0) =~= rest@);
            lemma_covers_contains(sorted@, orig);
        }
        // The length of a `Vec` fits in `usize`.
        let _n = sorted.len();
        Ok(MigrationSet { migrations: sorted })
    }

    pub fn len(&self) -> (r: usize)
        ensures
            r == self@.len(),
    {
        self.migrations.len()
    }

    /// The descriptor at position `i`, in ascending version order.
    pub fn get(&self, i: usize) -> (r: &Migration)
        requires
            i < self@.len(),
        ensures
            *r == self@[i as int],
    {
        &self.migrations[i]
    }

    /// Position of the descriptor with version `v`, if any.
    pub fn find(&self, v: i64) -> (r: Option<usize>)
        ensures
            r is None <==> !set_has(self@, v),
            r matches Some(i) ==> i < self@.len() && self@[i as int].version == v,
    {
        let mut i: usize = 0;
        while i < self.migrations.len()
            invariant
                i <= self@.len(),
                forall|k: int| 0 <= k < i ==> self@[k].version != v,
            decreases self@.len() - i,
        {
            if self.migrations[i].version == v {
                return Some(i);
            }
            i = i + 1;
        }
        None
    }
}

} // verus!
