//! Snapshot and environment types.
//!
//! Environments are named sets of snapshot pointers: a map from
//! (dag id, task id) to snapshot id. Forking copies the pointers, promoting
//! overwrites the target's pointers, and a diff lists what differs.

use vstd::prelude::*;
use crate::clock::now_millis;
use crate::pyparse::{find_first, first_index};
use crate::text::{chars_of, copy_range, push_str, str_eq, string_of};

verus! {

/// The key of a snapshot pointer: (dag id, task id).
pub type SnapshotKey = (Seq<char>, Seq<char>);

/// One snapshot pointer of an environment.
#[derive(Debug, Clone)]
pub struct SnapshotEntry {
    pub dag_id: String,
    pub task_id: String,
    pub snapshot_id: String,
}

pub open spec fn entry_key(e: SnapshotEntry) -> SnapshotKey {
    (e.dag_id@, e.task_id@)
}

/// The snapshot pointers of an environment: at most one per
/// (dag id, task id).
#[derive(Debug)]
pub struct SnapshotMap {
    entries: Vec<SnapshotEntry>,
}

pub open spec fn keys_unique(s: Seq<SnapshotEntry>) -> bool {
    forall|i: int, j: int|
        0 <= i < s.len() && 0 <= j < s.len() && i != j ==> entry_key(s[i]) != entry_key(s[j])
}

pub open spec fn has_key(s: Seq<SnapshotEntry>, k: SnapshotKey) -> bool {
    exists|i: int| 0 <= i < s.len() && entry_key(s[i]) == k
}

/// The map that a sequence of pointers with distinct keys stands for.
pub open spec fn entries_map(s: Seq<SnapshotEntry>) -> Map<SnapshotKey, Seq<char>> {
    Map::new(
        |k: SnapshotKey| has_key(s, k),
        |k: SnapshotKey| s[choose|i: int| 0 <= i < s.len() && entry_key(s[i]) == k].snapshot_id@,
    )
}

proof fn lemma_entries_map_at(s: Seq<SnapshotEntry>, i: int)
    requires
        keys_unique(s),
        0 <= i < s.len(),
    ensures
        entries_map(s).contains_key(entry_key(s[i])),
        entries_map(s)[entry_key(s[i])] == s[i].snapshot_id@,
{
    let k = entry_key(s[i]);
    assert(has_key(s, k));
    let j = choose|j: int| 0 <= j < s.len() && entry_key(s[j]) == k;
    assert(j == i);
}

impl SnapshotMap {
    #[verifier::type_invariant]
    spec fn inv(self) -> bool {
        keys_unique(self.entries@)
    }

    /// The pointers as a map.
    pub closed spec fn map(self) -> Map<SnapshotKey, Seq<char>> {
        entries_map(self.entries@)
    }

    /// An empty pointer map.
    pub fn new() -> (m: Self)
        ensures
            m.map() == Map::<SnapshotKey, Seq<char>>::empty(),
    {
        let m = SnapshotMap { entries: Vec::new() };
        assert(m.map() =~= Map::<SnapshotKey, Seq<char>>::empty());
        m
    }

    fn find(&self, dag_id: &str, task_id: &str) -> (r: Option<usize>)
        ensures
            match r {
                Some(i) => i < self.entries@.len() && entry_key(self.entries@[i as int]) == (
                    dag_id@,
                    task_id@,
                ),
                None => !has_key(self.entries@, (dag_id@, task_id@)),
            },
    {
        let mut i: usize = 0;
        while i < self.entries.len()
            invariant
                i <= self.entries@.len(),
                forall|j: int| 0 <= j < i ==> entry_key(self.entries@[j]) != (dag_id@, task_id@),
            decreases self.entries.len() - i,
        {
            let e = &self.entries[i];
            if str_eq(e.dag_id.as_str(), dag_id) && str_eq(e.task_id.as_str(), task_id) {
                return Some(i);
            }
            i = i + 1;
        }
        None
    }

    /// The snapshot the pointer for (dag id, task id) names, if any.
    pub fn get(&self, dag_id: &str, task_id: &str) -> (r: Option<String>)
        ensures
            match r {
                Some(s) => self.map().contains_key((dag_id@, task_id@)) && s@ == self.map()[(
                    dag_id@,
                    task_id@,
                )],
                None => !self.map().contains_key((dag_id@, task_id@)),
            },
    {
        proof {
            use_type_invariant(self);
        }
        match self.find(dag_id, task_id) {
            Some(i) => {
                proof {
                    lemma_entries_map_at(self.entries@, i as int);
                }
                Some(self.entries[i].snapshot_id.clone())
            },
            None => None,
        }
    }

    /// Whether a pointer for (dag id, task id) exists.
    pub fn contains_key(&self, dag_id: &str, task_id: &str) -> (b: bool)
        ensures
            b == self.map().contains_key((dag_id@, task_id@)),
    {
        proof {
            use_type_invariant(self);
        }
        match self.find(dag_id, task_id) {
            Some(i) => {
                proof {
                    lemma_entries_map_at(self.entries@, i as int);
                }
                true
            },
            None => false,
        }
    }

    /// Point (dag id, task id) at a snapshot; returns the snapshot it pointed
    /// at before, if any.
    pub fn insert(&mut self, dag_id: String, task_id: String, snapshot_id: String) -> (r: Option<
        String,
    >)
        ensures
            final(self).map() == old(self).map().insert((dag_id@, task_id@), snapshot_id@),
            match r {
                Some(s) => old(self).map().contains_key((dag_id@, task_id@)) && s@ == old(
                    self,
                ).map()[(dag_id@, task_id@)],
                None => !old(self).map().contains_key((dag_id@, task_id@)),
            },
    {
        proof {
            use_type_invariant(&*self);
        }
        let ghost old_entries = self.entries@;
        let ghost k = (dag_id@, task_id@);
        match self.find(dag_id.as_str(), task_id.as_str()) {
            Some(i) => {
                let prev = self.entries[i].snapshot_id.clone();
                proof {
                    lemma_entries_map_at(old_entries, i as int);
                }
                let e = SnapshotEntry { dag_id, task_id, snapshot_id };
                let mut entries: Vec<SnapshotEntry> = Vec::new();
                std::mem::swap(&mut entries, &mut self.entries);
                entries.set(i, e);
                proof {
                    assert(keys_unique(entries@));
                }
                self.entries = entries;
                proof {
                    assert forall|kk: SnapshotKey| #[trigger]
                        self.map().contains_key(kk) == entries_map(old_entries).insert(
                            k,
                            snapshot_id@,
                        ).contains_key(kk) by {
                        if kk == k {
                            assert(entry_key(self.entries@[i as int]) == kk);
                        }
                        if has_key(old_entries, kk) {
                            let j = choose|j: int| 0 <= j < old_entries.len() && entry_key(old_entries[j]) == kk;
                            if j != i {
                                assert(entry_key(self.entries@[j]) == kk);
                            }
                        }
                        if has_key(self.entries@, kk) {
                            let j = choose|j: int| 0 <= j < self.entries@.len() && entry_key(self.entries@[j]) == kk;
                            if j != i {
                                assert(entry_key(old_entries[j]) == kk);
                            }
                        }
                    }
                    assert forall|kk: SnapshotKey| self.map().contains_key(kk) implies #[trigger] self.map()[kk] == entries_map(
                        old_entries,
                    ).insert(k, snapshot_id@)[kk] by {
                        let j = choose|j: int| 0 <= j < self.entries@.len() && entry_key(self.entries@[j]) == kk;
                        lemma_entries_map_at(self.entries@, j);
                        if j != i {
                            lemma_entries_map_at(old_entries, j);
                        }
                    }
                    assert(self.map() =~= entries_map(old_entries).insert(k, snapshot_id@));
                }
                Some(prev)
            },
            None => {
                let e = SnapshotEntry { dag_id, task_id, snapshot_id };
                let mut entries: Vec<SnapshotEntry> = Vec::new();
                std::mem::swap(&mut entries, &mut self.entries);
                entries.push(e);
                proof {
                    assert(keys_unique(entries@)) by {
                        assert forall|a: int, b: int|
                            0 <= a < entries@.len() && 0 <= b < entries@.len() && a != b implies entry_key(entries@[a])
                            != entry_key(entries@[b]) by {
                            if a == old_entries.len() {
                                assert(entry_key(entries@[b]) == entry_key(old_entries[b]));
                            } else if b == old_entries.len() {
                                assert(entry_key(entries@[a]) == entry_key(old_entries[a]));
                            } else {
                                assert(entries@[a] == old_entries[a]);
                                assert(entries@[b] == old_entries[b]);
                            }
                        }
                    }
                }
                self.entries = entries;
                proof {
                    assert forall|kk: SnapshotKey| #[trigger]
                        self.map().contains_key(kk) == entries_map(old_entries).insert(k, snapshot_id@).contains_key(kk) by {
                        if has_key(old_entries, kk) {
                            let j = choose|j: int| 0 <= j < old_entries.len() && entry_key(old_entries[j]) == kk;
                            assert(entry_key(self.entries@[j]) == kk);
                        }
                        if kk == k {
                            assert(entry_key(self.entries@[old_entries.len() as int]) == kk);
                        }
                        if has_key(self.entries@, kk) {
                            let j = choose|j: int| 0 <= j < self.entries@.len() && entry_key(self.entries@[j]) == kk;
                            if j < old_entries.len() {
                                assert(entry_key(old_entries[j]) == kk);
                            }
                        }
                    }
                    assert forall|kk: SnapshotKey| self.map().contains_key(kk) implies #[trigger] self.map()[kk] == entries_map(
                        old_entries,
                    ).insert(k, snapshot_id@)[kk] by {
                        let j = choose|j: int| 0 <= j < self.entries@.len() && entry_key(self.entries@[j]) == kk;
                        lemma_entries_map_at(self.entries@, j);
                        if j < old_entries.len() {
                            lemma_entries_map_at(old_entries, j);
                        }
                    }
                    assert(self.map() =~= entries_map(old_entries).insert(k, snapshot_id@));
                }
                None
            },
        }
    }
}

/// Pointers missing from `b`: keys of `a` that `b` lacks.
pub open spec fn removed_keys(
    a: Map<SnapshotKey, Seq<char>>,
    b: Map<SnapshotKey, Seq<char>>,
) -> Set<SnapshotKey> {
    a.dom().filter(|k: SnapshotKey| !b.contains_key(k))
}

/// Pointers new in `b`: keys of `b` that `a` lacks.
pub open spec fn added_keys(
    a: Map<SnapshotKey, Seq<char>>,
    b: Map<SnapshotKey, Seq<char>>,
) -> Set<SnapshotKey> {
    b.dom().filter(|k: SnapshotKey| !a.contains_key(k))
}

/// Pointers that `a` and `b` both hold but aim at different snapshots.
pub open spec fn changed_keys(
    a: Map<SnapshotKey, Seq<char>>,
    b: Map<SnapshotKey, Seq<char>>,
) -> Set<SnapshotKey> {
    a.dom().filter(|k: SnapshotKey| b.contains_key(k) && b[k] != a[k])
}

/// How many pointers differ between `a` and `b`.
pub open spec fn diff_size(a: Map<SnapshotKey, Seq<char>>, b: Map<SnapshotKey, Seq<char>>) -> nat {
    removed_keys(a, b).len() + changed_keys(a, b).len() + added_keys(a, b).len()
}

proof fn lemma_map_push(s: Seq<SnapshotEntry>, e: SnapshotEntry)
    requires
        keys_unique(s.push(e)),
    ensures
        keys_unique(s),
        !entries_map(s).contains_key(entry_key(e)),
        entries_map(s.push(e)).dom() =~= entries_map(s).dom().insert(entry_key(e)),
{
    let t = s.push(e);
    assert(keys_unique(s)) by {
        assert forall|i: int, j: int| 0 <= i < s.len() && 0 <= j < s.len() && i != j implies entry_key(s[i])
            != entry_key(s[j]) by {
            assert(t[i] == s[i] && t[j] == s[j]);
        }
    }
    if has_key(s, entry_key(e)) {
        let j = choose|j: int| 0 <= j < s.len() && entry_key(s[j]) == entry_key(e);
        assert(t[j] == s[j]);
        assert(t[s.len() as int] == e);
    }
    assert forall|k: SnapshotKey| has_key(t, k) == (has_key(s, k) || k == entry_key(e)) by {
        if has_key(s, k) {
            let j = choose|j: int| 0 <= j < s.len() && entry_key(s[j]) == k;
            assert(t[j] == s[j]);
        }
        if k == entry_key(e) {
            assert(t[s.len() as int] == e);
        }
        if has_key(t, k) {
            let j = choose|j: int| 0 <= j < t.len() && entry_key(t[j]) == k;
            if j < s.len() {
                assert(t[j] == s[j]);
            }
        }
    }
}

/// Counting the pointers whose key satisfies `p` counts the keys of the map
/// that satisfy `p`.
proof fn lemma_count_keys(s: Seq<SnapshotEntry>, p: spec_fn(SnapshotKey) -> bool)
    requires
        keys_unique(s),
    ensures
        entries_map(s).dom().finite(),
        entries_map(s).dom().filter(p).finite(),
        s.filter(|e: SnapshotEntry| p(entry_key(e))).len() == entries_map(s).dom().filter(p).len(),
    decreases s.len(),
{
    let pe = |e: SnapshotEntry| p(entry_key(e));
    if s.len() == 0 {
        assert(entries_map(s).dom() =~= Set::empty());
        assert(entries_map(s).dom().filter(p) =~= Set::empty());
        assert(s.filter(pe) =~= Seq::empty());
    } else {
        let s0 = s.drop_last();
        let e = s.last();
        assert(s0.push(e) =~= s);
        lemma_map_push(s0, e);
        lemma_count_keys(s0, p);
        s0.lemma_filter_len_push(pe, e);
        let d0 = entries_map(s0).dom();
        assert(entries_map(s).dom() =~= d0.insert(entry_key(e)));
        if p(entry_key(e)) {
            assert(entries_map(s).dom().filter(p) =~= d0.filter(p).insert(entry_key(e)));
        } else {
            assert(entries_map(s).dom().filter(p) =~= d0.filter(p));
        }
    }
}

proof fn lemma_filter_all<A>(s: Seq<A>, p: spec_fn(A) -> bool)
    requires
        forall|x: A| #[trigger] p(x),
    ensures
        s.filter(p).len() == s.len(),
    decreases s.len(),
{
    if s.len() == 0 {
        assert(s.filter(p) =~= Seq::empty());
    } else {
        let s0 = s.drop_last();
        assert(s0.push(s.last()) =~= s);
        lemma_filter_all(s0, p);
        s0.lemma_filter_len_push(p, s.last());
    }
}

proof fn lemma_filter_split<A>(s: Seq<A>, p: spec_fn(A) -> bool, q: spec_fn(A) -> bool)
    requires
        forall|x: A| !(#[trigger] p(x) && q(x)),
    ensures
        s.filter(|x: A| p(x) || q(x)).len() == s.filter(p).len() + s.filter(q).len(),
    decreases s.len(),
{
    let pq = |x: A| p(x) || q(x);
    if s.len() == 0 {
        assert(s.filter(pq) =~= Seq::empty());
        assert(s.filter(p) =~= Seq::empty());
        assert(s.filter(q) =~= Seq::empty());
    } else {
        let s0 = s.drop_last();
        assert(s0.push(s.last()) =~= s);
        lemma_filter_split(s0, p, q);
        s0.lemma_filter_len_push(pq, s.last());
        s0.lemma_filter_len_push(p, s.last());
        s0.lemma_filter_len_push(q, s.last());
    }
}

proof fn lemma_map_len(s: Seq<SnapshotEntry>)
    requires
        keys_unique(s),
    ensures
        entries_map(s).dom().finite(),
        entries_map(s).len() == s.len(),
{
    let t = |k: SnapshotKey| true;
    lemma_count_keys(s, t);
    lemma_filter_all(s, |e: SnapshotEntry| t(entry_key(e)));
    assert(entries_map(s).dom().filter(t) =~= entries_map(s).dom());
}

impl SnapshotMap {
    /// Number of pointers.
    pub fn len(&self) -> (n: usize)
        ensures
            self.map().dom().finite(),
            n == self.map().len(),
    {
        proof {
            use_type_invariant(self);
            let t = |k: SnapshotKey| true;
            lemma_count_keys(self.entries@, t);
            lemma_filter_all(self.entries@, |e: SnapshotEntry| t(entry_key(e)));
            assert(self.map().dom().filter(|k: SnapshotKey| true) =~= self.map().dom());
        }
        self.entries.len()
    }

    /// Drop the pointer for (dag id, task id); returns the snapshot it named.
    pub fn remove(&mut self, dag_id: &str, task_id: &str) -> (r: Option<String>)
        ensures
            final(self).map() == old(self).map().remove((dag_id@, task_id@)),
            match r {
                Some(s) => old(self).map().contains_key((dag_id@, task_id@)) && s@ == old(
                    self,
                ).map()[(dag_id@, task_id@)],
                None => !old(self).map().contains_key((dag_id@, task_id@)),
            },
    {
        proof {
            use_type_invariant(&*self);
        }
        let ghost old_entries = self.entries@;
        let ghost k = (dag_id@, task_id@);
        match self.find(dag_id, task_id) {
            Some(i) => {
                proof {
                    lemma_entries_map_at(old_entries, i as int);
                }
                let mut entries: Vec<SnapshotEntry> = Vec::new();
                std::mem::swap(&mut entries, &mut self.entries);
                let e = entries.remove(i);
                proof {
                    assert forall|a: int, b: int|
                        0 <= a < entries@.len() && 0 <= b < entries@.len() && a != b implies entry_key(
                        entries@[a],
                    ) != entry_key(entries@[b]) by {
                        let a0 = if a < i { a } else { a + 1 };
                        let b0 = if b < i { b } else { b + 1 };
                        assert(entries@[a] == old_entries[a0]);
                        assert(entries@[b] == old_entries[b0]);
                    }
                }
                self.entries = entries;
                proof {
                    let ne = self.entries@;
                    assert forall|kk: SnapshotKey| #[trigger]
                        self.map().contains_key(kk) == entries_map(old_entries).remove(k).contains_key(kk) by {
                        if has_key(ne, kk) {
                            let j = choose|j: int| 0 <= j < ne.len() && entry_key(ne[j]) == kk;
                            let j0 = if j < i { j } else { j + 1 };
                            assert(ne[j] == old_entries[j0]);
                        }
                        if has_key(old_entries, kk) && kk != k {
                            let j = choose|j: int| 0 <= j < old_entries.len() && entry_key(old_entries[j]) == kk;
                            let j1 = if j < i { j } else { j - 1 };
                            assert(ne[j1] == old_entries[j]);
                        }
                    }
                    assert forall|kk: SnapshotKey| self.map().contains_key(kk) implies #[trigger] self.map()[kk]
                        == entries_map(old_entries).remove(k)[kk] by {
                        let j = choose|j: int| 0 <= j < ne.len() && entry_key(ne[j]) == kk;
                        let j0 = if j < i { j } else { j + 1 };
                        assert(ne[j] == old_entries[j0]);
                        lemma_entries_map_at(ne, j);
                        lemma_entries_map_at(old_entries, j0);
                    }
                    assert(self.map() =~= entries_map(old_entries).remove(k));
                }
                Some(e.snapshot_id)
            },
            None => {
                proof {
                    assert(entries_map(old_entries).remove(k) =~= entries_map(old_entries));
                }
                None
            },
        }
    }

    /// A copy of the pointers.
    pub fn copy(&self) -> (r: Self)
        ensures
            r.map() == self.map(),
    {
        proof {
            use_type_invariant(self);
        }
        let mut entries: Vec<SnapshotEntry> = Vec::new();
        let mut i: usize = 0;
        while i < self.entries.len()
            invariant
                i <= self.entries@.len(),
                entries@ == self.entries@.take(i as int),
            decreases self.entries.len() - i,
        {
            let e = &self.entries[i];
            entries.push(
                SnapshotEntry {
                    dag_id: e.dag_id.clone(),
                    task_id: e.task_id.clone(),
                    snapshot_id: e.snapshot_id.clone(),
                },
            );
            proof {
                assert(self.entries@.take(i + 1) =~= self.entries@.take(i as int).push(self.entries@[i as int]));
            }
            i = i + 1;
        }
        proof {
            assert(self.entries@.take(self.entries.len() as int) =~= self.entries@);
        }
        SnapshotMap { entries }
    }
}

/// Gates on promotions targeting an environment.
#[derive(Debug, Clone)]
pub struct PromotionPolicy {
    /// When set, only promotions from this source are allowed.
    pub require_source: Option<String>,
    /// When set, the source's newest snapshot must be at least this old.
    pub min_age_secs: Option<u64>,
}

impl PromotionPolicy {
    /// The policy that imposes nothing.
    pub fn none() -> (p: Self)
        ensures
            p.require_source is None,
            p.min_age_secs is None,
    {
        PromotionPolicy { require_source: None, min_age_secs: None }
    }

    /// Whether the policy imposes nothing.
    pub fn is_empty(&self) -> (b: bool)
        ensures
            b == (self.require_source is None && self.min_age_secs is None),
    {
        self.require_source.is_none() && self.min_age_secs.is_none()
    }
}

impl Default for PromotionPolicy {
    fn default() -> (p: Self)
        ensures
            p.require_source is None,
            p.min_age_secs is None,
    {
        PromotionPolicy::none()
    }
}

/// A virtual environment: a named set of snapshot pointers.
#[derive(Debug)]
pub struct Environment {
    pub id: String,
    pub snapshot_map: SnapshotMap,
    /// When the environment was last modified, in milliseconds since the epoch.
    pub updated_at_ms: i64,
    pub based_on: Option<String>,
    pub current_version: u32,
    pub promotion_policy: PromotionPolicy,
}

/// A pointer that one environment has and the other lacks.
#[derive(Debug, Clone)]
pub struct EnvDiffEntry {
    pub dag_id: String,
    pub task_id: String,
    pub snapshot_id: String,
}

/// A pointer both environments hold, aimed at different snapshots.
#[derive(Debug, Clone)]
pub struct EnvDiffChange {
    pub dag_id: String,
    pub task_id: String,
    pub old_snapshot_id: String,
    pub new_snapshot_id: String,
}

/// Structured diff between two environments.
#[derive(Debug, Clone)]
pub struct EnvironmentDiff {
    pub added: Vec<EnvDiffEntry>,
    pub removed: Vec<EnvDiffEntry>,
    pub changed: Vec<EnvDiffChange>,
}

pub open spec fn diff_entry_key(e: EnvDiffEntry) -> SnapshotKey {
    (e.dag_id@, e.task_id@)
}

pub open spec fn diff_change_key(c: EnvDiffChange) -> SnapshotKey {
    (c.dag_id@, c.task_id@)
}

/// `v` lists each key of `keys` exactly once, with the snapshot `m` holds for it.
pub open spec fn lists_entries(
    v: Seq<EnvDiffEntry>,
    keys: Set<SnapshotKey>,
    m: Map<SnapshotKey, Seq<char>>,
) -> bool {
    &&& v.len() == keys.len()
    &&& forall|i: int|
        0 <= i < v.len() ==> keys.contains(diff_entry_key(#[trigger] v[i])) && v[i].snapshot_id@
            == m[diff_entry_key(v[i])]
    &&& forall|i: int, j: int|
        0 <= i < v.len() && 0 <= j < v.len() && i != j ==> diff_entry_key(v[i]) != diff_entry_key(
            v[j],
        )
    &&& forall|k: SnapshotKey|
        keys.contains(k) ==> exists|i: int| 0 <= i < v.len() && #[trigger] diff_entry_key(v[i]) == k
}

/// `v` lists each key of `keys` exactly once, with the snapshots of `a` and `b`.
pub open spec fn lists_changes(
    v: Seq<EnvDiffChange>,
    keys: Set<SnapshotKey>,
    a: Map<SnapshotKey, Seq<char>>,
    b: Map<SnapshotKey, Seq<char>>,
) -> bool {
    &&& v.len() == keys.len()
    &&& forall|i: int|
        0 <= i < v.len() ==> keys.contains(diff_change_key(#[trigger] v[i])) && v[i].old_snapshot_id@
            == a[diff_change_key(v[i])] && v[i].new_snapshot_id@ == b[diff_change_key(v[i])]
    &&& forall|i: int, j: int|
        0 <= i < v.len() && 0 <= j < v.len() && i != j ==> diff_change_key(v[i]) != diff_change_key(
            v[j],
        )
    &&& forall|k: SnapshotKey|
        keys.contains(k) ==> exists|i: int| 0 <= i < v.len() && #[trigger] diff_change_key(v[i]) == k
}

/// `d` is the diff from `a` (left) to `b` (right).
pub open spec fn describes_diff(
    d: EnvironmentDiff,
    a: Map<SnapshotKey, Seq<char>>,
    b: Map<SnapshotKey, Seq<char>>,
) -> bool {
    &&& lists_entries(d.added@, added_keys(a, b), b)
    &&& lists_entries(d.removed@, removed_keys(a, b), a)
    &&& lists_changes(d.changed@, changed_keys(a, b), a, b)
}

impl EnvironmentDiff {
    /// Total number of differing entries.
    pub fn total(&self) -> (n: usize)
        requires
            self.added@.len() + self.removed@.len() + self.changed@.len() <= usize::MAX,
        ensures
            n == self.added@.len() + self.removed@.len() + self.changed@.len(),
    {
        self.added.len() + self.removed.len() + self.changed.len()
    }

    /// True when there are no differences.
    pub fn is_empty(&self) -> (b: bool)
        requires
            self.added@.len() + self.removed@.len() + self.changed@.len() <= usize::MAX,
        ensures
            b == (self.added@.len() + self.removed@.len() + self.changed@.len() == 0),
    {
        self.total() == 0
    }
}

impl Environment {
    /// A new empty environment.
    pub fn new(id: String) -> (e: Self)
        ensures
            e.id == id,
            e.snapshot_map.map() == Map::<SnapshotKey, Seq<char>>::empty(),
            e.based_on is None,
            e.current_version == 0,
            e.promotion_policy.require_source is None,
            e.promotion_policy.min_age_secs is None,
    {
        Environment {
            id,
            snapshot_map: SnapshotMap::new(),
            updated_at_ms: now_millis(),
            based_on: None,
            current_version: 0,
            promotion_policy: PromotionPolicy::none(),
        }
    }

    /// A new environment with the same snapshot pointers, based on this one.
    /// Policies are not inherited.
    pub fn fork(&self, new_id: String) -> (e: Self)
        ensures
            e.id == new_id,
            e.snapshot_map.map() == self.snapshot_map.map(),
            e.based_on == Some(self.id),
            e.current_version == 0,
            e.promotion_policy.require_source is None,
            e.promotion_policy.min_age_secs is None,
    {
        Environment {
            id: new_id,
            snapshot_map: self.snapshot_map.copy(),
            updated_at_ms: now_millis(),
            based_on: Some(self.id.clone()),
            current_version: 0,
            promotion_policy: PromotionPolicy::none(),
        }
    }

    /// Promote this environment into another: overwrite the target's pointers.
    pub fn promote_into(&self, target: &mut Environment)
        ensures
            final(target).snapshot_map.map() == self.snapshot_map.map(),
            final(target).id == old(target).id,
            final(target).based_on == old(target).based_on,
            final(target).current_version == old(target).current_version,
            final(target).promotion_policy == old(target).promotion_policy,
    {
        target.snapshot_map = self.snapshot_map.copy();
        target.updated_at_ms = now_millis();
    }

    /// Count how many snapshot pointers differ between this and another
    /// environment.
    pub fn diff_count(&self, other: &Environment) -> (n: usize)
        requires
            self.snapshot_map.map().len() + other.snapshot_map.map().len() <= usize::MAX,
        ensures
            n == diff_size(self.snapshot_map.map(), other.snapshot_map.map()),
    {
        let a = &self.snapshot_map;
        let b = &other.snapshot_map;
        proof {
            use_type_invariant(a);
            use_type_invariant(b);
        }
        let ghost am = a.map();
        let ghost bm = b.map();
        proof {
            lemma_map_len(a.entries@);
            lemma_map_len(b.entries@);
        }
        let ghost pr = |k: SnapshotKey| !bm.contains_key(k);
        let ghost pc = |k: SnapshotKey| bm.contains_key(k) && bm[k] != am[k];
        let ghost pa = |k: SnapshotKey| !am.contains_key(k);
        let ghost per = |e: SnapshotEntry| pr(entry_key(e));
        let ghost pec = |e: SnapshotEntry| pc(entry_key(e));
        let ghost pea = |e: SnapshotEntry| pa(entry_key(e));
        let ghost pe = |e: SnapshotEntry| per(e) || pec(e);
        let mut n: usize = 0;
        let mut i: usize = 0;
        while i < a.entries.len()
            invariant
                keys_unique(a.entries@),
                am == entries_map(a.entries@),
                bm == b.map(),
                pe == (|e: SnapshotEntry| per(e) || pec(e)),
                per == (|e: SnapshotEntry| pr(entry_key(e))),
                pec == (|e: SnapshotEntry| pc(entry_key(e))),
                pr == (|k: SnapshotKey| !bm.contains_key(k)),
                pc == (|k: SnapshotKey| bm.contains_key(k) && bm[k] != am[k]),
                i <= a.entries@.len(),
                n == a.entries@.take(i as int).filter(pe).len(),
            decreases a.entries.len() - i,
        {
            let e = &a.entries[i];
            proof {
                lemma_entries_map_at(a.entries@, i as int);
                assert(a.entries@.take(i + 1) =~= a.entries@.take(i as int).push(a.entries@[i as int]));
                a.entries@.take(i as int).lemma_filter_len_push(pe, a.entries@[i as int]);
                assert(a.entries@.take(i as int).filter(pe).len() <= i) by {
                    a.entries@.take(i as int).lemma_filter_len(pe);
                }
            }
            match b.get(e.dag_id.as_str(), e.task_id.as_str()) {
                Some(x) => {
                    if x != e.snapshot_id {
                        n = n + 1;
                    }
                },
                None => {
                    n = n + 1;
                },
            }
            i = i + 1;
        }
        let mut j: usize = 0;
        let ghost n1 = n;
        proof {
            assert(a.entries@.take(a.entries@.len() as int) =~= a.entries@);
            lemma_filter_split(a.entries@, per, pec);
            lemma_count_keys(a.entries@, pr);
            lemma_count_keys(a.entries@, pc);
            assert(a.entries@.filter(per) =~= a.entries@.filter(|e: SnapshotEntry| pr(entry_key(e))));
            assert(a.entries@.filter(pec) =~= a.entries@.filter(|e: SnapshotEntry| pc(entry_key(e))));
            assert(am.dom().filter(pr) =~= removed_keys(am, bm));
            assert(am.dom().filter(pc) =~= changed_keys(am, bm));
            assert(n1 <= a.entries@.len()) by {
                a.entries@.lemma_filter_len(pe);
            }
        }
        while j < b.entries.len()
            invariant
                keys_unique(b.entries@),
                am == a.map(),
                bm == entries_map(b.entries@),
                pea == (|e: SnapshotEntry| pa(entry_key(e))),
                pa == (|k: SnapshotKey| !am.contains_key(k)),
                j <= b.entries@.len(),
                n1 <= a.entries@.len(),
                a.entries@.len() + b.entries@.len() <= usize::MAX,
                n == n1 + b.entries@.take(j as int).filter(pea).len(),
            decreases b.entries.len() - j,
        {
            let e = &b.entries[j];
            proof {
                assert(b.entries@.take(j + 1) =~= b.entries@.take(j as int).push(b.entries@[j as int]));
                b.entries@.take(j as int).lemma_filter_len_push(pea, b.entries@[j as int]);
                assert(b.entries@.take(j as int).filter(pea).len() <= j) by {
                    b.entries@.take(j as int).lemma_filter_len(pea);
                }
            }
            if !a.contains_key(e.dag_id.as_str(), e.task_id.as_str()) {
                n = n + 1;
            }
            j = j + 1;
        }
        proof {
            assert(b.entries@.take(b.entries@.len() as int) =~= b.entries@);
            lemma_count_keys(b.entries@, pa);
            assert(b.entries@.filter(pea) =~= b.entries@.filter(|e: SnapshotEntry| pa(entry_key(e))));
            assert(bm.dom().filter(pa) =~= added_keys(am, bm));
        }
        n
    }
}

/// The pointers of `src` whose key `other` lacks.
fn missing_from(src: &SnapshotMap, other: &SnapshotMap) -> (v: Vec<EnvDiffEntry>)
    ensures
        lists_entries(v@, removed_keys(src.map(), other.map()), src.map()),
{
    proof {
        use_type_invariant(src);
        use_type_invariant(other);
    }
    let ghost am = src.map();
    let ghost bm = other.map();
    let ghost ae = src.entries@;
    let ghost pr = |k: SnapshotKey| !bm.contains_key(k);
    let ghost per = |e: SnapshotEntry| pr(entry_key(e));
    let mut out: Vec<EnvDiffEntry> = Vec::new();
    let ghost mut from: Seq<int> = Seq::empty();
    let mut i: usize = 0;
    while i < src.entries.len()
        invariant
            ae == src.entries@,
            keys_unique(ae),
            am == entries_map(ae),
            bm == other.map(),
            per == (|e: SnapshotEntry| pr(entry_key(e))),
            pr == (|k: SnapshotKey| !bm.contains_key(k)),
            i <= ae.len(),
            out@.len() == ae.take(i as int).filter(per).len(),
            from.len() == out@.len(),
            forall|r: int|
                0 <= r < from.len() ==> 0 <= #[trigger] from[r] < i && entry_key(ae[from[r]])
                    == diff_entry_key(out@[r]) && per(ae[from[r]]) && out@[r].snapshot_id@
                    == ae[from[r]].snapshot_id@,
            forall|r: int, q: int| 0 <= r < q < from.len() ==> from[r] < from[q],
            forall|j: int|
                0 <= j < i && per(ae[j]) ==> exists|r: int| 0 <= r < from.len() && #[trigger] from[r] == j,
        decreases ae.len() - i,
    {
        let e = &src.entries[i];
        proof {
            assert(ae.take(i + 1) =~= ae.take(i as int).push(ae[i as int]));
            ae.take(i as int).lemma_filter_len_push(per, ae[i as int]);
        }
        if !other.contains_key(e.dag_id.as_str(), e.task_id.as_str()) {
            out.push(
                EnvDiffEntry {
                    dag_id: e.dag_id.clone(),
                    task_id: e.task_id.clone(),
                    snapshot_id: e.snapshot_id.clone(),
                },
            );
            proof {
                let old_from = from;
                from = from.push(i as int);
                assert forall|j: int| 0 <= j < i + 1 && per(ae[j]) implies exists|r: int|
                    0 <= r < from.len() && #[trigger] from[r] == j by {
                    if j < i {
                        let r = choose|r: int| 0 <= r < old_from.len() && #[trigger] old_from[r] == j;
                        assert(from[r] == j);
                    } else {
                        assert(from[from.len() - 1] == j);
                    }
                }
            }
        }
        i = i + 1;
    }
    proof {
        assert(ae.take(ae.len() as int) =~= ae);
        lemma_count_keys(ae, pr);
        assert(ae.filter(per) =~= ae.filter(|e: SnapshotEntry| pr(entry_key(e))));
        assert(am.dom().filter(pr) =~= removed_keys(am, bm));
        assert forall|r: int| 0 <= r < out@.len() implies removed_keys(am, bm).contains(
            diff_entry_key(#[trigger] out@[r]),
        ) && out@[r].snapshot_id@ == am[diff_entry_key(out@[r])] by {
            assert(0 <= from[r] < ae.len());
            lemma_entries_map_at(ae, from[r]);
        }
        assert forall|r: int, q: int|
            0 <= r < out@.len() && 0 <= q < out@.len() && r != q implies diff_entry_key(out@[r])
            != diff_entry_key(out@[q]) by {
            assert(from[r] != from[q]) by {
                if r < q {
                    assert(from[r] < from[q]);
                } else {
                    assert(from[q] < from[r]);
                }
            }
            assert(0 <= from[r] < ae.len());
            assert(0 <= from[q] < ae.len());
        }
        assert forall|k: SnapshotKey| removed_keys(am, bm).contains(k) implies exists|r: int|
            0 <= r < out@.len() && #[trigger] diff_entry_key(out@[r]) == k by {
            let x = choose|x: int| 0 <= x < ae.len() && entry_key(ae[x]) == k;
            assert(per(ae[x]));
            let r = choose|r: int| 0 <= r < from.len() && #[trigger] from[r] == x;
            assert(diff_entry_key(out@[r]) == k);
        }
    }
    out
}

/// The pointers that `a` and `b` both hold with different snapshots.
fn changed_between(a: &SnapshotMap, b: &SnapshotMap) -> (v: Vec<EnvDiffChange>)
    ensures
        lists_changes(v@, changed_keys(a.map(), b.map()), a.map(), b.map()),
{
    proof {
        use_type_invariant(a);
        use_type_invariant(b);
    }
    let ghost am = a.map();
    let ghost bm = b.map();
    let ghost ae = a.entries@;
    let ghost pc = |k: SnapshotKey| bm.contains_key(k) && bm[k] != am[k];
    let ghost pec = |e: SnapshotEntry| pc(entry_key(e));
    let mut out: Vec<EnvDiffChange> = Vec::new();
    let ghost mut from: Seq<int> = Seq::empty();
    let mut i: usize = 0;
    while i < a.entries.len()
        invariant
            ae == a.entries@,
            keys_unique(ae),
            am == entries_map(ae),
            bm == b.map(),
            pec == (|e: SnapshotEntry| pc(entry_key(e))),
            pc == (|k: SnapshotKey| bm.contains_key(k) && bm[k] != am[k]),
            i <= ae.len(),
            out@.len() == ae.take(i as int).filter(pec).len(),
            from.len() == out@.len(),
            forall|r: int|
                0 <= r < from.len() ==> 0 <= #[trigger] from[r] < i && entry_key(ae[from[r]])
                    == diff_change_key(out@[r]) && pec(ae[from[r]]) && out@[r].old_snapshot_id@
                    == ae[from[r]].snapshot_id@ && out@[r].new_snapshot_id@ == bm[entry_key(
                    ae[from[r]],
                )],
            forall|r: int, q: int| 0 <= r < q < from.len() ==> from[r] < from[q],
            forall|j: int|
                0 <= j < i && pec(ae[j]) ==> exists|r: int| 0 <= r < from.len() && #[trigger] from[r] == j,
        decreases ae.len() - i,
    {
        let e = &a.entries[i];
        proof {
            lemma_entries_map_at(ae, i as int);
            assert(ae.take(i + 1) =~= ae.take(i as int).push(ae[i as int]));
            ae.take(i as int).lemma_filter_len_push(pec, ae[i as int]);
        }
        match b.get(e.dag_id.as_str(), e.task_id.as_str()) {
            Some(x) => {
                if x != e.snapshot_id {
                    out.push(
                        EnvDiffChange {
                            dag_id: e.dag_id.clone(),
                            task_id: e.task_id.clone(),
                            old_snapshot_id: e.snapshot_id.clone(),
                            new_snapshot_id: x,
                        },
                    );
                    proof {
                        let old_from = from;
                        from = from.push(i as int);
                        assert forall|j: int| 0 <= j < i + 1 && pec(ae[j]) implies exists|r: int|
                            0 <= r < from.len() && #[trigger] from[r] == j by {
                            if j < i {
                                let r = choose|r: int| 0 <= r < old_from.len() && #[trigger] old_from[r] == j;
                                assert(from[r] == j);
                            } else {
                                assert(from[from.len() - 1] == j);
                            }
                        }
                    }
                }
            },
            None => {},
        }
        i = i + 1;
    }
    proof {
        assert(ae.take(ae.len() as int) =~= ae);
        lemma_count_keys(ae, pc);
        assert(ae.filter(pec) =~= ae.filter(|e: SnapshotEntry| pc(entry_key(e))));
        assert(am.dom().filter(pc) =~= changed_keys(am, bm));
        assert forall|r: int| 0 <= r < out@.len() implies changed_keys(am, bm).contains(
            diff_change_key(#[trigger] out@[r]),
        ) && out@[r].old_snapshot_id@ == am[diff_change_key(out@[r])]
            && out@[r].new_snapshot_id@ == bm[diff_change_key(out@[r])] by {
            assert(0 <= from[r] < ae.len());
            lemma_entries_map_at(ae, from[r]);
        }
        assert forall|r: int, q: int|
            0 <= r < out@.len() && 0 <= q < out@.len() && r != q implies diff_change_key(out@[r])
            != diff_change_key(out@[q]) by {
            assert(from[r] != from[q]) by {
                if r < q {
                    assert(from[r] < from[q]);
                } else {
                    assert(from[q] < from[r]);
                }
            }
            assert(0 <= from[r] < ae.len());
            assert(0 <= from[q] < ae.len());
        }
        assert forall|k: SnapshotKey| changed_keys(am, bm).contains(k) implies exists|r: int|
            0 <= r < out@.len() && #[trigger] diff_change_key(out@[r]) == k by {
            let x = choose|x: int| 0 <= x < ae.len() && entry_key(ae[x]) == k;
            lemma_entries_map_at(ae, x);
            assert(pec(ae[x]));
            let r = choose|r: int| 0 <= r < from.len() && #[trigger] from[r] == x;
            assert(diff_change_key(out@[r]) == k);
        }
    }
    out
}

impl Environment {
    /// Structured diff between this environment (left) and another (right):
    /// `added` holds the pointers only the right has, `removed` those only
    /// the left has, `changed` those both hold with different snapshots.
    pub fn diff(&self, other: &Environment) -> (d: EnvironmentDiff)
        ensures
            describes_diff(d, self.snapshot_map.map(), other.snapshot_map.map()),
    {
        let removed = missing_from(&self.snapshot_map, &other.snapshot_map);
        let changed = changed_between(&self.snapshot_map, &other.snapshot_map);
        let added = missing_from(&other.snapshot_map, &self.snapshot_map);
        proof {
            let am = self.snapshot_map.map();
            let bm = other.snapshot_map.map();
            assert(removed_keys(bm, am) =~= added_keys(am, bm));
        }
        EnvironmentDiff { added, removed, changed }
    }
}

/// Law: the diff lists exactly as many entries as `diff_count` counts.
pub proof fn law_diff_total_is_diff_count(
    d: EnvironmentDiff,
    a: Map<SnapshotKey, Seq<char>>,
    b: Map<SnapshotKey, Seq<char>>,
)
    requires
        describes_diff(d, a, b),
    ensures
        d.added@.len() + d.removed@.len() + d.changed@.len() == diff_size(a, b),
{
}

/// Law: two pointer maps differ in no pointer exactly when they are equal;
/// in particular a fork, and a promotion target, have an empty diff with
/// their source.
pub proof fn law_no_diff_iff_equal(a: Map<SnapshotKey, Seq<char>>, b: Map<SnapshotKey, Seq<char>>)
    requires
        a.dom().finite(),
        b.dom().finite(),
    ensures
        (diff_size(a, b) == 0) <==> (a == b),
{
    if a == b {
        assert(removed_keys(a, b) =~= Set::empty());
        assert(changed_keys(a, b) =~= Set::empty());
        assert(added_keys(a, b) =~= Set::empty());
    }
    if diff_size(a, b) == 0 {
        vstd::set_lib::lemma_set_subset_finite(a.dom(), removed_keys(a, b));
        vstd::set_lib::lemma_set_subset_finite(a.dom(), changed_keys(a, b));
        vstd::set_lib::lemma_set_subset_finite(b.dom(), added_keys(a, b));
        removed_keys(a, b).lemma_len0_is_empty();
        changed_keys(a, b).lemma_len0_is_empty();
        added_keys(a, b).lemma_len0_is_empty();
        assert forall|k: SnapshotKey| a.contains_key(k) == b.contains_key(k) by {
            if a.contains_key(k) && !b.contains_key(k) {
                assert(removed_keys(a, b).contains(k));
            }
            if b.contains_key(k) && !a.contains_key(k) {
                assert(added_keys(a, b).contains(k));
            }
        }
        assert forall|k: SnapshotKey| a.contains_key(k) implies a[k] == b[k] by {
            if a[k] != b[k] {
                assert(changed_keys(a, b).contains(k));
            }
        }
        assert(a =~= b);
    }
}

/// Law: the diff from `a` to `b` mirrors the diff from `b` to `a`: what one
/// adds the other removes, and both change the same pointers.
pub proof fn law_diff_mirrors(a: Map<SnapshotKey, Seq<char>>, b: Map<SnapshotKey, Seq<char>>)
    ensures
        added_keys(a, b) == removed_keys(b, a),
        removed_keys(a, b) == added_keys(b, a),
        changed_keys(a, b) == changed_keys(b, a),
        diff_size(a, b) == diff_size(b, a),
{
    assert(added_keys(a, b) =~= removed_keys(b, a));
    assert(removed_keys(a, b) =~= added_keys(b, a));
    assert(changed_keys(a, b) =~= changed_keys(b, a));
}

/// Why a history version of an environment was captured.
#[derive(Debug, Clone, PartialEq, Eq)]
pub enum EnvHistoryReason {
    /// Another environment was promoted into this one.
    Promotion { from: String },
    /// This environment was rolled back to an earlier version.
    Rollback { from_version: u32 },
    /// Captured before a plan was applied, so that the apply can be undone.
    Apply { plan_id: String },
    /// Captured on request.
    Manual,
}

impl EnvHistoryReason {
    /// A copy with the same values.
    pub fn copy(&self) -> (r: Self)
        ensures
            r == *self,
    {
        match self {
            EnvHistoryReason::Promotion { from } => EnvHistoryReason::Promotion { from: from.clone() },
            EnvHistoryReason::Rollback { from_version } => EnvHistoryReason::Rollback { from_version: *from_version },
            EnvHistoryReason::Apply { plan_id } => EnvHistoryReason::Apply { plan_id: plan_id.clone() },
            EnvHistoryReason::Manual => EnvHistoryReason::Manual,
        }
    }
}

/// An environment's snapshot pointers as they were before a promotion or
/// rollback changed them. The capture time is in milliseconds since the
/// epoch.
#[derive(Debug)]
pub struct EnvSnapshotMapVersion {
    pub version: u32,
    pub env_id: String,
    pub captured_at_ms: i64,
    pub reason: EnvHistoryReason,
    pub snapshot_map: SnapshotMap,
}

/// A history version without its pointers, for listings.
#[derive(Debug, Clone)]
pub struct EnvHistorySummary {
    pub version: u32,
    pub env_id: String,
    pub captured_at_ms: i64,
    pub reason: EnvHistoryReason,
    pub snapshot_count: usize,
}

impl EnvSnapshotMapVersion {
    /// The version's summary: everything but the pointers, and how many
    /// there are.
    pub fn summary(&self) -> (r: EnvHistorySummary)
        ensures
            r.version == self.version,
            r.env_id == self.env_id,
            r.captured_at_ms == self.captured_at_ms,
            r.reason == self.reason,
            r.snapshot_count == self.snapshot_map.map().len(),
    {
        EnvHistorySummary {
            version: self.version,
            env_id: self.env_id.clone(),
            captured_at_ms: self.captured_at_ms,
            reason: self.reason.copy(),
            snapshot_count: self.snapshot_map.len(),
        }
    }
}

/// The text that stands for a (dag id, task id) key where a snapshot map is
/// stored: `dag/task`.
pub open spec fn stored_key(dag_id: Seq<char>, task_id: Seq<char>) -> Seq<char> {
    dag_id + "/"@ + task_id
}

/// The (dag id, task id) key a stored text stands for: the text split at
/// its first `/`; `None` for a text without `/`.
pub open spec fn read_key(key: Seq<char>) -> Option<SnapshotKey> {
    match first_index(key, '/') {
        Some(i) => Some((key.take(i), key.skip(i + 1))),
        None => None,
    }
}

/// The stored text of a key (see `stored_key`).
pub fn stored_key_text(dag_id: &str, task_id: &str) -> (r: String)
    ensures
        r@ == stored_key(dag_id@, task_id@),
{
    let mut out = chars_of(dag_id);
    out.push('/');
    push_str(&mut out, task_id);
    assert(out@ =~= dag_id@ + "/"@ + task_id@) by {
        reveal_strlit("/");
    }
    string_of(out.as_slice())
}

/// The key a stored text stands for (see `read_key`).
pub fn split_stored_key(key: &str) -> (r: Option<(String, String)>)
    ensures
        match read_key(key@) {
            Some(k) => r matches Some(p) && p.0@ == k.0 && p.1@ == k.1,
            None => r is None,
        },
{
    let c = chars_of(key);
    match find_first(c.as_slice(), '/') {
        Some(i) => {
            let n = c.len();
            let d = copy_range(c.as_slice(), 0, i);
            let t = copy_range(c.as_slice(), i + 1, n);
            assert(c@.subrange(0, i as int) =~= c@.take(i as int));
            assert(c@.subrange(i + 1, n as int) =~= c@.skip(i + 1));
            Some((string_of(d.as_slice()), string_of(t.as_slice())))
        },
        None => None,
    }
}

/// Reading back the stored text of a key gives the key, when the dag id
/// holds no `/`.
pub proof fn law_stored_key_round_trip(dag_id: Seq<char>, task_id: Seq<char>)
    requires
        !dag_id.contains('/'),
    ensures
        read_key(stored_key(dag_id, task_id)) == Some((dag_id, task_id)),
{
    let s = stored_key(dag_id, task_id);
    let n = dag_id.len() as int;
    assert("/"@ =~= seq!['/']) by {
        reveal_strlit("/");
    }
    assert(s[n] == '/');
    assert forall|j: int| 0 <= j < n implies s[j] != '/' by {
        assert(s[j] == dag_id[j]);
    }
    let w = choose|i: int| 0 <= i < s.len() && s[i] == '/' && forall|j: int| 0 <= j < i ==> s[j] != '/';
    assert(0 <= w < s.len() && s[w] == '/' && forall|j: int| 0 <= j < w ==> s[j] != '/');
    if w < n {
        assert(s[w] != '/');
    } else if w > n {
        assert(s[n] != '/');
    }
    assert(s.take(n) =~= dag_id);
    assert(s.skip(n + 1) =~= task_id);
}

} // verus!
