//! A store for the coordinator's dispatched assignments, keyed by
//! assignment id, so that a coordinator can find again the work it had
//! sent out.

use vstd::prelude::*;
use crate::proto_types::{TaskAssignment, TaskContext, TaskSpec};
use crate::text::str_eq;

verus! {

/// A dispatched assignment, kept until the task reaches a terminal state.
#[derive(Debug, Clone)]
pub struct PersistedAssignment {
    pub assignment: TaskAssignment,
    /// The worker it was sent to.
    pub worker_id: String,
    /// The pool the task was submitted to.
    pub pool: String,
}

/// Two task specs hold the same values.
pub open spec fn same_spec(a: TaskSpec, b: TaskSpec) -> bool {
    &&& a.task_type == b.task_type
    &&& a.script == b.script
    &&& a.connection == b.connection
    &&& a.query == b.query
    &&& a.command == b.command
    &&& a.args@ == b.args@
    &&& a.timeout_secs == b.timeout_secs
    &&& a.resources == b.resources
}

/// Two task contexts hold the same values.
pub open spec fn same_context(a: TaskContext, b: TaskContext) -> bool {
    &&& a.dag_id == b.dag_id
    &&& a.run_id == b.run_id
    &&& a.task_id == b.task_id
    &&& a.attempt == b.attempt
    &&& a.logical_date_epoch_ms == b.logical_date_epoch_ms
    &&& a.environment == b.environment
    &&& a.params@ == b.params@
}

/// Two assignments hold the same values.
pub open spec fn same_assignment(a: TaskAssignment, b: TaskAssignment) -> bool {
    &&& a.assignment_id == b.assignment_id
    &&& a.dag_id == b.dag_id
    &&& a.run_id == b.run_id
    &&& a.task_id == b.task_id
    &&& a.attempt == b.attempt
    &&& same_spec(a.spec, b.spec)
    &&& same_context(a.context, b.context)
    &&& a.deadline_epoch_ms == b.deadline_epoch_ms
}

/// Two stored entries hold the same values.
pub open spec fn same_entry(a: PersistedAssignment, b: PersistedAssignment) -> bool {
    &&& same_assignment(a.assignment, b.assignment)
    &&& a.worker_id == b.worker_id
    &&& a.pool == b.pool
}

/// The id an entry is stored under.
pub open spec fn key_of(e: PersistedAssignment) -> Seq<char> {
    e.assignment.assignment_id@
}

/// An entry with id `k` is stored.
pub open spec fn stores(s: Seq<PersistedAssignment>, k: Seq<char>) -> bool {
    exists|i: int| 0 <= i < s.len() && key_of(s[i]) == k
}

/// Where the entry with id `k` is.
pub open spec fn store_pos(s: Seq<PersistedAssignment>, k: Seq<char>) -> int {
    choose|i: int| 0 <= i < s.len() && key_of(s[i]) == k
}

/// No two entries share an id.
pub open spec fn keys_distinct(s: Seq<PersistedAssignment>) -> bool {
    forall|i: int, j: int| 0 <= i < j < s.len() ==> key_of(#[trigger] s[i]) != key_of(#[trigger] s[j])
}

/// The entries after `e` is recorded: one with its id is overwritten in
/// place, else it is added last.
pub open spec fn record_step(s: Seq<PersistedAssignment>, e: PersistedAssignment) -> Seq<PersistedAssignment> {
    if stores(s, key_of(e)) {
        s.update(store_pos(s, key_of(e)), e)
    } else {
        s.push(e)
    }
}

/// The entries after the one with id `k` is removed.
pub open spec fn remove_step(s: Seq<PersistedAssignment>, k: Seq<char>) -> Seq<PersistedAssignment> {
    if stores(s, k) {
        s.remove(store_pos(s, k))
    } else {
        s
    }
}

impl TaskSpec {
    /// A copy with the same values.
    pub fn copy(&self) -> (r: Self)
        ensures
            same_spec(r, *self),
    {
        TaskSpec {
            task_type: self.task_type,
            script: self.script.clone(),
            connection: self.connection.clone(),
            query: self.query.clone(),
            command: self.command.clone(),
            args: copy_strings(&self.args),
            timeout_secs: self.timeout_secs,
            resources: self.resources,
        }
    }
}

impl TaskContext {
    /// A copy with the same values.
    pub fn copy(&self) -> (r: Self)
        ensures
            same_context(r, *self),
    {
        TaskContext {
            dag_id: self.dag_id.clone(),
            run_id: self.run_id.clone(),
            task_id: self.task_id.clone(),
            attempt: self.attempt,
            logical_date_epoch_ms: self.logical_date_epoch_ms,
            environment: self.environment.clone(),
            params: self.params.clone(),
        }
    }
}

impl TaskAssignment {
    /// A copy with the same values.
    pub fn copy(&self) -> (r: Self)
        ensures
            same_assignment(r, *self),
    {
        TaskAssignment {
            assignment_id: self.assignment_id.clone(),
            dag_id: self.dag_id.clone(),
            run_id: self.run_id.clone(),
            task_id: self.task_id.clone(),
            attempt: self.attempt,
            spec: self.spec.copy(),
            context: self.context.copy(),
            deadline_epoch_ms: self.deadline_epoch_ms,
        }
    }
}

impl PersistedAssignment {
    /// A copy with the same values.
    pub fn copy(&self) -> (r: Self)
        ensures
            same_entry(r, *self),
    {
        PersistedAssignment {
            assignment: self.assignment.copy(),
            worker_id: self.worker_id.clone(),
            pool: self.pool.clone(),
        }
    }
}

fn copy_strings(v: &Vec<String>) -> (r: Vec<String>)
    ensures
        r@ == v@,
{
    let mut r: Vec<String> = Vec::new();
    let mut i: usize = 0;
    while i < v.len()
        invariant
            i <= v@.len(),
            r@ == v@.take(i as int),
        decreases v.len() - i,
    {
        r.push(v[i].clone());
        assert(r@ =~= v@.take(i + 1));
        i = i + 1;
    }
    assert(v@.take(i as int) =~= v@);
    r
}

/// Keeping of dispatched assignments, keyed by assignment id.
pub trait AssignmentStore {
    /// Records (or overwrites) a dispatched assignment.
    fn record(&mut self, entry: &PersistedAssignment);

    /// Forgets an assignment that reached a terminal state.
    fn remove(&mut self, assignment_id: &str);

    /// Every stored assignment.
    fn load_all(&self) -> Vec<PersistedAssignment>;
}

/// A store held in memory: nothing survives the process.
pub struct InMemoryAssignmentStore {
    entries: Vec<PersistedAssignment>,
}

impl InMemoryAssignmentStore {
    #[verifier::type_invariant]
    spec fn keyed(self) -> bool {
        keys_distinct(self.entries@)
    }

    /// The stored entries, in the order their ids were first recorded.
    pub closed spec fn model(self) -> Seq<PersistedAssignment> {
        self.entries@
    }

    /// An empty store.
    pub fn new() -> (s: Self)
        ensures
            s.model() == Seq::<PersistedAssignment>::empty(),
            keys_distinct(s.model()),
    {
        InMemoryAssignmentStore { entries: Vec::new() }
    }

    fn find(&self, assignment_id: &str) -> (r: Option<usize>)
        ensures
            match r {
                Some(i) => i < self.model().len() && stores(self.model(), assignment_id@) && store_pos(
                    self.model(),
                    assignment_id@,
                ) == i,
                None => !stores(self.model(), assignment_id@),
            },
    {
        proof {
            use_type_invariant(self);
        }
        let ghost s = self.entries@;
        let mut i: usize = 0;
        while i < self.entries.len()
            invariant
                s == self.entries@,
                keys_distinct(s),
                i <= s.len(),
                forall|k: int| 0 <= k < i ==> key_of(#[trigger] s[k]) != assignment_id@,
            decreases self.entries.len() - i,
        {
            if str_eq(self.entries[i].assignment.assignment_id.as_str(), assignment_id) {
                proof {
                    let c = store_pos(s, assignment_id@);
                    assert(key_of(s[i as int]) == assignment_id@);
                    if c != i {
                        assert(key_of(s[c]) == assignment_id@);
                        if c < i {
                            assert(key_of(s[c]) != key_of(s[i as int]));
                        } else {
                            assert(key_of(s[i as int]) != key_of(s[c]));
                        }
                    }
                }
                return Some(i);
            }
            i = i + 1;
        }
        None
    }

    /// Records (or overwrites) a dispatched assignment.
    pub fn record(&mut self, entry: &PersistedAssignment)
        ensures
            ({
                let s = old(self).model();
                let e = final(self).model();
                &&& e.len() == record_step(s, *entry).len()
                &&& forall|i: int|
                    0 <= i < e.len() ==> same_entry(#[trigger] e[i], record_step(s, *entry)[i])
            }),
            keys_distinct(final(self).model()),
    {
        proof {
            use_type_invariant(&*self);
        }
        let ghost s = self.entries@;
        let e = entry.copy();
        let ghost ev = e;
        let found = self.find(entry.assignment.assignment_id.as_str());
        let mut all: Vec<PersistedAssignment> = Vec::new();
        std::mem::swap(&mut all, &mut self.entries);
        match found {
            Some(i) => {
                all.set(i, e);
                assert(all@ =~= s.update(i as int, ev));
                proof {
                    assert forall|x: int, y: int| 0 <= x < y < all@.len() implies key_of(#[trigger] all@[x])
                        != key_of(#[trigger] all@[y]) by {
                        if x != i && y != i {
                            assert(key_of(s[x]) != key_of(s[y]));
                        } else if x == i {
                            assert(key_of(s[i as int]) != key_of(s[y]));
                        } else {
                            assert(key_of(s[x]) != key_of(s[i as int]));
                        }
                    }
                }
            },
            None => {
                all.push(e);
                assert(all@ =~= s.push(ev));
                proof {
                    assert forall|x: int, y: int| 0 <= x < y < all@.len() implies key_of(#[trigger] all@[x])
                        != key_of(#[trigger] all@[y]) by {
                        if y == s.len() {
                            assert(key_of(s[x]) != key_of(ev));
                        } else {
                            assert(key_of(s[x]) != key_of(s[y]));
                        }
                    }
                }
            },
        }
        self.entries = all;
        proof {
            let e2 = self.entries@;
            let r = record_step(s, *entry);
            assert forall|j: int| 0 <= j < e2.len() implies same_entry(#[trigger] e2[j], r[j]) by {
                if e2[j] != r[j] {
                    assert(e2[j] == ev);
                }
            }
            use_type_invariant(&*self);
        }
    }

    /// Forgets an assignment; an unknown id changes nothing.
    pub fn remove(&mut self, assignment_id: &str)
        ensures
            final(self).model() == remove_step(old(self).model(), assignment_id@),
            keys_distinct(final(self).model()),
    {
        proof {
            use_type_invariant(&*self);
        }
        let ghost s = self.entries@;
        if let Some(i) = self.find(assignment_id) {
            let mut all: Vec<PersistedAssignment> = Vec::new();
            std::mem::swap(&mut all, &mut self.entries);
            let _gone = all.remove(i);
            assert(all@ =~= s.remove(i as int));
            proof {
                assert forall|x: int, y: int| 0 <= x < y < all@.len() implies key_of(#[trigger] all@[x])
                    != key_of(#[trigger] all@[y]) by {
                    let fx = if x < i { x } else { x + 1 };
                    let fy = if y < i { y } else { y + 1 };
                    assert(all@[x] == s[fx] && all@[y] == s[fy]);
                    assert(key_of(s[fx]) != key_of(s[fy]));
                }
            }
            self.entries = all;
        }
        proof {
            use_type_invariant(&*self);
        }
    }

    /// Every stored assignment, in the order their ids were first recorded.
    pub fn load_all(&self) -> (r: Vec<PersistedAssignment>)
        ensures
            r@.len() == self.model().len(),
            forall|i: int| 0 <= i < r@.len() ==> same_entry(#[trigger] r@[i], self.model()[i]),
            keys_distinct(self.model()),
    {
        proof {
            use_type_invariant(self);
        }
        let mut r: Vec<PersistedAssignment> = Vec::new();
        let mut i: usize = 0;
        while i < self.entries.len()
            invariant
                i <= self.entries@.len(),
                r@.len() == i,
                forall|k: int| 0 <= k < i ==> same_entry(#[trigger] r@[k], self.entries@[k]),
            decreases self.entries.len() - i,
        {
            r.push(self.entries[i].copy());
            i = i + 1;
        }
        r
    }
}

impl AssignmentStore for InMemoryAssignmentStore {
    fn record(&mut self, entry: &PersistedAssignment)
        ensures
            ({
                let s = old(self).model();
                let e = final(self).model();
                &&& e.len() == record_step(s, *entry).len()
                &&& forall|i: int|
                    0 <= i < e.len() ==> same_entry(#[trigger] e[i], record_step(s, *entry)[i])
            }),
            keys_distinct(final(self).model()),
    {
        InMemoryAssignmentStore::record(self, entry)
    }

    fn remove(&mut self, assignment_id: &str)
        ensures
            final(self).model() == remove_step(old(self).model(), assignment_id@),
            keys_distinct(final(self).model()),
    {
        InMemoryAssignmentStore::remove(self, assignment_id)
    }

    fn load_all(&self) -> (r: Vec<PersistedAssignment>)
        ensures
            r@.len() == self.model().len(),
            forall|i: int| 0 <= i < r@.len() ==> same_entry(#[trigger] r@[i], self.model()[i]),
            keys_distinct(self.model()),
    {
        InMemoryAssignmentStore::load_all(self)
    }
}

/// Recording is keyed by assignment id: recording an entry twice stores it
/// once, and recording another with the same id overwrites it in place.
pub proof fn law_record_overwrites_by_id(s: Seq<PersistedAssignment>, e: PersistedAssignment, f: PersistedAssignment)
    requires
        keys_distinct(s),
        key_of(e) == key_of(f),
    ensures
        record_step(record_step(s, e), f).len() == record_step(s, e).len(),
        record_step(record_step(s, e), f) == record_step(s, f),
{
    let s1 = record_step(s, e);
    let k = key_of(e);
    if stores(s, k) {
        let c = store_pos(s, k);
        assert(s1[c] == e);
        assert(stores(s1, k));
        let c1 = store_pos(s1, k);
        if c1 != c {
            assert(key_of(s1[c1]) == k);
            assert(s1[c1] == s[c1]);
            if c1 < c {
                assert(key_of(s[c1]) != key_of(s[c]));
            } else {
                assert(key_of(s[c]) != key_of(s[c1]));
            }
        }
        assert(s1.update(c1, f) =~= s.update(c, f));
    } else {
        assert(s1[s.len() as int] == e);
        assert(stores(s1, k));
        let c1 = store_pos(s1, k);
        if c1 < s.len() {
            assert(s1[c1] == s[c1]);
        }
        assert(s1.update(c1, f) =~= s.push(f));
    }
}

/// Removing an id that is not stored changes nothing, and a removed id is
/// no longer stored.
pub proof fn law_remove_forgets(s: Seq<PersistedAssignment>, k: Seq<char>)
    requires
        keys_distinct(s),
    ensures
        !stores(s, k) ==> remove_step(s, k) == s,
        !stores(remove_step(s, k), k),
{
    if stores(s, k) {
        let c = store_pos(s, k);
        let r = s.remove(c);
        if stores(r, k) {
            let j = choose|j: int| 0 <= j < r.len() && key_of(r[j]) == k;
            let fj = if j < c { j } else { j + 1 };
            assert(r[j] == s[fj]);
            if fj < c {
                assert(key_of(s[fj]) != key_of(s[c]));
            } else {
                assert(key_of(s[c]) != key_of(s[fj]));
            }
        }
    }
}

} // verus!
