//! The coordinator's registry of workers: health tracking and task routing.
//!
//! The coordinator keeps every connected worker, tracks its health through
//! heartbeats, and picks workers for tasks by capacity, pool affinity and
//! load.

use vstd::prelude::*;
use std::collections::HashMap;
use crate::clock::now_millis;
use crate::proto_types::{ClusterHealth, ClusterStatusResponse, RegisterRequest, WorkerHeartbeat, WorkerState, WorkerStatus};
use crate::text::{clone_strings, owned, str_eq, views};

verus! {

/// Milliseconds without a heartbeat after which a worker is disconnected.
pub const HEARTBEAT_TIMEOUT_MS: i64 = 30_000;

/// Milliseconds without a heartbeat after which a worker is dead.
pub const DEAD_TIMEOUT_MS: i64 = 120_000;

/// What the coordinator keeps of a registered worker. Load figures are in
/// thousandths of a percent; times in milliseconds since the epoch.
#[derive(Debug)]
pub struct WorkerEntry {
    pub worker_id: String,
    pub hostname: String,
    pub capacity: u32,
    pub pool_affinity: Vec<String>,
    pub labels: HashMap<String, String>,
    pub version: String,
    pub state: WorkerState,
    pub active_tasks: u32,
    pub registered_at_ms: i64,
    pub last_heartbeat_ms: i64,
    pub cpu_milli_percent: u64,
    pub memory_milli_percent: u64,
    pub disk_milli_percent: u64,
    pub running_assignments: Vec<String>,
    pub tasks_completed: u64,
    pub tasks_failed: u64,
}

/// A worker entry over plain values.
pub struct WorkerModel {
    pub id: Seq<char>,
    pub hostname: Seq<char>,
    pub capacity: u32,
    pub affinity: Seq<Seq<char>>,
    pub labels: Map<String, String>,
    pub version: Seq<char>,
    pub state: WorkerState,
    pub active: u32,
    pub registered_at: i64,
    pub last_heartbeat: i64,
    pub cpu: u64,
    pub memory: u64,
    pub disk: u64,
    pub running: Seq<Seq<char>>,
    pub completed: u64,
    pub failed: u64,
}

impl WorkerEntry {
    pub open spec fn model(&self) -> WorkerModel {
        WorkerModel {
            id: self.worker_id@,
            hostname: self.hostname@,
            capacity: self.capacity,
            affinity: views(self.pool_affinity@),
            labels: self.labels@,
            version: self.version@,
            state: self.state,
            active: self.active_tasks,
            registered_at: self.registered_at_ms,
            last_heartbeat: self.last_heartbeat_ms,
            cpu: self.cpu_milli_percent,
            memory: self.memory_milli_percent,
            disk: self.disk_milli_percent,
            running: views(self.running_assignments@),
            completed: self.tasks_completed,
            failed: self.tasks_failed,
        }
    }
}

/// The entry a first registration creates at time `now`.
pub open spec fn registered(req: RegisterRequest, now: i64) -> WorkerModel {
    WorkerModel {
        id: req.worker_id@,
        hostname: req.hostname@,
        capacity: req.capacity,
        affinity: views(req.pool_affinity@),
        labels: req.labels@,
        version: req.version@,
        state: WorkerState::Active,
        active: 0,
        registered_at: now,
        last_heartbeat: now,
        cpu: 0,
        memory: 0,
        disk: 0,
        running: Seq::empty(),
        completed: 0,
        failed: 0,
    }
}

/// Free slots: capacity not in use, never below zero.
pub open spec fn slots(w: WorkerModel) -> nat {
    if w.capacity >= w.active {
        (w.capacity - w.active) as nat
    } else {
        0
    }
}

/// Whether a worker with this affinity takes tasks of `pool`: with no
/// affinity only the default pool (named `default` or empty), else a pool
/// it lists or any pool when it lists `*`.
pub open spec fn handles_pool(affinity: Seq<Seq<char>>, pool: Seq<char>) -> bool {
    if affinity.len() == 0 {
        pool == "default"@ || pool.len() == 0
    } else {
        exists|i: int| 0 <= i < affinity.len() && (affinity[i] == pool || affinity[i] == "*"@)
    }
}

/// Healthy and with a free slot.
pub open spec fn available(w: WorkerModel) -> bool {
    w.state == WorkerState::Active && slots(w) > 0
}

/// The entry after a heartbeat at time `now`: the reported load and
/// assignments, and a disconnected worker back to active.
pub open spec fn after_heartbeat(w: WorkerModel, hb: WorkerHeartbeat, now: i64) -> WorkerModel {
    WorkerModel {
        last_heartbeat: now,
        active: hb.active_tasks,
        cpu: hb.cpu_milli_percent,
        memory: hb.memory_milli_percent,
        disk: hb.disk_milli_percent,
        running: views(hb.running_assignments@),
        state: if w.state == WorkerState::Disconnected {
            WorkerState::Active
        } else {
            w.state
        },
        ..w
    }
}

impl WorkerEntry {
    /// A new entry for a registering worker, registered at `now_ms`.
    pub fn from_registration_at(req: &RegisterRequest, now_ms: i64) -> (e: Self)
        ensures
            e.model() == registered(*req, now_ms),
    {
        let e = WorkerEntry {
            worker_id: req.worker_id.clone(),
            hostname: req.hostname.clone(),
            capacity: req.capacity,
            pool_affinity: clone_strings(&req.pool_affinity),
            labels: req.labels.clone(),
            version: req.version.clone(),
            state: WorkerState::Active,
            active_tasks: 0,
            registered_at_ms: now_ms,
            last_heartbeat_ms: now_ms,
            cpu_milli_percent: 0,
            memory_milli_percent: 0,
            disk_milli_percent: 0,
            running_assignments: Vec::new(),
            tasks_completed: 0,
            tasks_failed: 0,
        };
        assert(views(e.running_assignments@) =~= Seq::<Seq<char>>::empty());
        e
    }

    /// A new entry for a registering worker, registered now.
    pub fn from_registration(req: &RegisterRequest) -> (e: Self)
        ensures
            e.model() == registered(*req, e.registered_at_ms),
    {
        WorkerEntry::from_registration_at(req, now_millis())
    }

    /// Slots not in use.
    pub fn available_slots(&self) -> (n: u32)
        ensures
            n == slots(self.model()),
    {
        self.capacity.saturating_sub(self.active_tasks)
    }

    /// Whether this worker takes tasks of the given pool.
    pub fn can_handle_pool(&self, pool: &str) -> (b: bool)
        ensures
            b == handles_pool(self.model().affinity, pool@),
            self.model().affinity.len() > 0 ==> (b <==> (self.model().affinity.contains(pool@)
                || self.model().affinity.contains("*"@))),
    {
        proof {
            law_affinity_lists_pools(self.model().affinity, pool@);
        }
        if self.pool_affinity.len() == 0 {
            return str_eq(pool, "default") || pool.is_empty();
        }
        let mut i: usize = 0;
        while i < self.pool_affinity.len()
            invariant
                i <= self.pool_affinity@.len(),
                forall|j: int|
                    0 <= j < i ==> !(#[trigger] self.pool_affinity@[j]@ == pool@
                        || self.pool_affinity@[j]@ == "*"@),
            decreases self.pool_affinity.len() - i,
        {
            assert(views(self.pool_affinity@)[i as int] == self.pool_affinity@[i as int]@);
            if str_eq(self.pool_affinity[i].as_str(), pool) || str_eq(
                self.pool_affinity[i].as_str(),
                "*",
            ) {
                assert(views(self.pool_affinity@)[i as int] == self.pool_affinity@[i as int]@);
                return true;
            }
            i = i + 1;
        }
        proof {
            let a = views(self.pool_affinity@);
            assert forall|j: int| 0 <= j < a.len() implies !(a[j] == pool@ || a[j] == "*"@) by {
                assert(a[j] == self.pool_affinity@[j]@);
            }
        }
        false
    }

    /// Whether this worker is healthy and can take work.
    pub fn is_available(&self) -> (b: bool)
        ensures
            b == available(self.model()),
    {
        self.state == WorkerState::Active && self.available_slots() > 0
    }

    /// Takes a heartbeat received at `now_ms`.
    pub fn apply_heartbeat_at(&mut self, hb: &WorkerHeartbeat, now_ms: i64)
        ensures
            final(self).model() == after_heartbeat(old(self).model(), *hb, now_ms),
    {
        self.last_heartbeat_ms = now_ms;
        self.active_tasks = hb.active_tasks;
        self.cpu_milli_percent = hb.cpu_milli_percent;
        self.memory_milli_percent = hb.memory_milli_percent;
        self.disk_milli_percent = hb.disk_milli_percent;
        self.running_assignments = clone_strings(&hb.running_assignments);
        if self.state == WorkerState::Disconnected {
            self.state = WorkerState::Active;
        }
    }

    /// Takes a heartbeat received now.
    pub fn apply_heartbeat(&mut self, hb: &WorkerHeartbeat)
        ensures
            final(self).model() == after_heartbeat(old(self).model(), *hb, final(self).last_heartbeat_ms),
    {
        self.apply_heartbeat_at(hb, now_millis());
    }

    /// The entry as the API reports it.
    pub fn to_status(&self) -> (s: WorkerStatus)
        ensures
            s.worker_id@ == self.worker_id@,
            s.hostname@ == self.hostname@,
            s.state == self.state,
            s.capacity == self.capacity,
            s.active_tasks == self.active_tasks,
            views(s.pool_affinity@) == views(self.pool_affinity@),
            s.last_heartbeat_ms == self.last_heartbeat_ms,
            s.cpu_milli_percent == self.cpu_milli_percent,
            s.memory_milli_percent == self.memory_milli_percent,
            s.labels@ == self.labels@,
            s.registered_at_ms == self.registered_at_ms,
            s.tasks_completed == self.tasks_completed,
            s.tasks_failed == self.tasks_failed,
    {
        WorkerStatus {
            worker_id: self.worker_id.clone(),
            hostname: self.hostname.clone(),
            state: self.state,
            capacity: self.capacity,
            active_tasks: self.active_tasks,
            pool_affinity: clone_strings(&self.pool_affinity),
            last_heartbeat_ms: self.last_heartbeat_ms,
            cpu_milli_percent: self.cpu_milli_percent,
            memory_milli_percent: self.memory_milli_percent,
            labels: self.labels.clone(),
            registered_at_ms: self.registered_at_ms,
            tasks_completed: self.tasks_completed,
            tasks_failed: self.tasks_failed,
        }
    }
}


/// How the pool picks a worker for a task.
#[derive(Debug, Clone, Copy, PartialEq, Eq, Structural)]
pub enum RoutingStrategy {
    /// The worker with the most free slots (spreads load); ties go to the
    /// lower CPU load.
    LeastLoaded,
    /// The worker with the fewest free slots (packs tightly).
    BinPack,
    /// Each available worker in turn.
    RoundRobin,
}

impl Default for RoutingStrategy {
    fn default() -> (s: Self)
        ensures
            s == RoutingStrategy::LeastLoaded,
    {
        RoutingStrategy::LeastLoaded
    }
}

/// The pool over plain values: the workers in registration order, the
/// assignments (assignment id, worker id) in the order they were made, the
/// strategy, and the round-robin position.
pub struct PoolModel {
    pub workers: Seq<WorkerModel>,
    pub assignments: Seq<(Seq<char>, Seq<char>)>,
    pub strategy: RoutingStrategy,
    pub next_index: nat,
}

pub open spec fn entry_models(v: Seq<WorkerEntry>) -> Seq<WorkerModel> {
    v.map_values(|e: WorkerEntry| e.model())
}

pub open spec fn pair_models(v: Seq<(String, String)>) -> Seq<(Seq<char>, Seq<char>)> {
    v.map_values(|p: (String, String)| (p.0@, p.1@))
}

/// No two workers share an id.
pub open spec fn worker_ids_distinct(ws: Seq<WorkerModel>) -> bool {
    forall|i: int, j: int| 0 <= i < j < ws.len() ==> #[trigger] ws[i].id != #[trigger] ws[j].id
}

/// No two assignments share an id.
pub open spec fn assignment_ids_distinct(a: Seq<(Seq<char>, Seq<char>)>) -> bool {
    forall|i: int, j: int| 0 <= i < j < a.len() ==> #[trigger] a[i].0 != #[trigger] a[j].0
}

pub open spec fn has_worker(ws: Seq<WorkerModel>, id: Seq<char>) -> bool {
    exists|i: int| 0 <= i < ws.len() && ws[i].id == id
}

/// The position of the worker with this id (meaningful when there is one).
pub open spec fn worker_pos(ws: Seq<WorkerModel>, id: Seq<char>) -> int {
    choose|i: int| 0 <= i < ws.len() && ws[i].id == id
}

pub open spec fn has_assignment(a: Seq<(Seq<char>, Seq<char>)>, id: Seq<char>) -> bool {
    exists|i: int| 0 <= i < a.len() && a[i].0 == id
}

/// The position of the assignment with this id (meaningful when there is one).
pub open spec fn assignment_pos(a: Seq<(Seq<char>, Seq<char>)>, id: Seq<char>) -> int {
    choose|i: int| 0 <= i < a.len() && a[i].0 == id
}

proof fn lemma_worker_pos(ws: Seq<WorkerModel>, id: Seq<char>, i: int)
    requires
        worker_ids_distinct(ws),
        0 <= i < ws.len(),
        ws[i].id == id,
    ensures
        has_worker(ws, id),
        worker_pos(ws, id) == i,
{
    let c = worker_pos(ws, id);
    if c != i {
        if c < i {
            assert(ws[c].id != ws[i].id);
        } else {
            assert(ws[i].id != ws[c].id);
        }
    }
}

pub(crate) proof fn lemma_assignment_pos(a: Seq<(Seq<char>, Seq<char>)>, id: Seq<char>, i: int)
    requires
        assignment_ids_distinct(a),
        0 <= i < a.len(),
        a[i].0 == id,
    ensures
        has_assignment(a, id),
        assignment_pos(a, id) == i,
{
    let c = assignment_pos(a, id);
    if c != i {
        if c < i {
            assert(a[c].0 != a[i].0);
        } else {
            assert(a[i].0 != a[c].0);
        }
    }
}

/// The workers after a registration at time `now`: a new id is appended;
/// a known one comes back active with the new capacity and pools.
pub open spec fn register_step(ws: Seq<WorkerModel>, req: RegisterRequest, now: i64) -> Seq<
    WorkerModel,
> {
    if has_worker(ws, req.worker_id@) {
        let i = worker_pos(ws, req.worker_id@);
        ws.update(
            i,
            WorkerModel {
                state: WorkerState::Active,
                capacity: req.capacity,
                affinity: views(req.pool_affinity@),
                last_heartbeat: now,
                ..ws[i]
            },
        )
    } else {
        ws.push(registered(req, now))
    }
}

/// The workers after a heartbeat at time `now` (unknown senders are ignored).
pub open spec fn heartbeat_step(ws: Seq<WorkerModel>, hb: WorkerHeartbeat, now: i64) -> Seq<
    WorkerModel,
> {
    if has_worker(ws, hb.worker_id@) {
        let i = worker_pos(ws, hb.worker_id@);
        ws.update(i, after_heartbeat(ws[i], hb, now))
    } else {
        ws
    }
}

/// The workers after draining one: it stops taking new work.
pub open spec fn drain_step(ws: Seq<WorkerModel>, id: Seq<char>) -> Seq<WorkerModel> {
    if has_worker(ws, id) {
        let i = worker_pos(ws, id);
        ws.update(i, WorkerModel { state: WorkerState::Draining, ..ws[i] })
    } else {
        ws
    }
}

/// How many workers are in the active state.
pub open spec fn count_active(ws: Seq<WorkerModel>) -> nat
    decreases ws.len(),
{
    if ws.len() == 0 {
        0
    } else {
        count_active(ws.drop_last()) + (if ws.last().state == WorkerState::Active {
            1nat
        } else {
            0nat
        })
    }
}

/// Free slots summed over the active workers.
pub open spec fn sum_active_slots(ws: Seq<WorkerModel>) -> nat
    decreases ws.len(),
{
    if ws.len() == 0 {
        0
    } else {
        sum_active_slots(ws.drop_last()) + (if ws.last().state == WorkerState::Active {
            slots(ws.last())
        } else {
            0nat
        })
    }
}

/// Running tasks summed over all workers.
pub open spec fn sum_running(ws: Seq<WorkerModel>) -> nat
    decreases ws.len(),
{
    if ws.len() == 0 {
        0
    } else {
        sum_running(ws.drop_last()) + ws.last().active as nat
    }
}

/// Cluster health from the count of active workers and of all workers.
pub open spec fn health_of(active: nat, total: nat) -> ClusterHealth {
    if total == 0 {
        ClusterHealth::Unhealthy
    } else if active == total {
        ClusterHealth::Healthy
    } else if active > 0 {
        ClusterHealth::Degraded
    } else {
        ClusterHealth::Unhealthy
    }
}

/// The registry of connected workers, and the routing of tasks to them.
pub struct WorkerPool {
    workers: Vec<WorkerEntry>,
    strategy: RoutingStrategy,
    round_robin_idx: usize,
    assignments: Vec<(String, String)>,
}

impl WorkerPool {
    /// The pool's workers have distinct ids, its assignments distinct ids,
    /// and its round-robin position is below `usize::MAX`.
    #[verifier::type_invariant]
    pub closed spec fn wf(self) -> bool {
        &&& worker_ids_distinct(self.model().workers)
        &&& assignment_ids_distinct(self.model().assignments)
        &&& self.model().next_index < usize::MAX
    }

    /// What the type invariant says of the model: distinct worker ids and
    /// distinct assignment ids.
    pub proof fn lemma_wf(p: WorkerPool)
        requires
            p.wf(),
        ensures
            worker_ids_distinct(p.model().workers),
            assignment_ids_distinct(p.model().assignments),
    {
    }

    pub closed spec fn model(self) -> PoolModel {
        PoolModel {
            workers: entry_models(self.workers@),
            assignments: pair_models(self.assignments@),
            strategy: self.strategy,
            next_index: self.round_robin_idx as nat,
        }
    }

    /// An empty pool that routes by `strategy`.
    pub fn new(strategy: RoutingStrategy) -> (p: Self)
        ensures
            p.model().workers == Seq::<WorkerModel>::empty(),
            p.model().assignments == Seq::<(Seq<char>, Seq<char>)>::empty(),
            p.model().strategy == strategy,
            p.model().next_index == 0,
    {
        let p = WorkerPool {
            workers: Vec::new(),
            strategy,
            round_robin_idx: 0,
            assignments: Vec::new(),
        };
        assert(entry_models(p.workers@) =~= Seq::<WorkerModel>::empty());
        assert(pair_models(p.assignments@) =~= Seq::<(Seq<char>, Seq<char>)>::empty());
        p
    }

    fn find_worker(&self, id: &str) -> (r: Option<usize>)
        ensures
            match r {
                Some(i) => i < self.model().workers.len() && worker_pos(self.model().workers, id@) == i
                    && has_worker(self.model().workers, id@),
                None => !has_worker(self.model().workers, id@),
            },
    {
        proof {
            use_type_invariant(self);
        }
        let ghost ws = entry_models(self.workers@);
        let mut i: usize = 0;
        while i < self.workers.len()
            invariant
                i <= self.workers@.len(),
                ws == entry_models(self.workers@),
                worker_ids_distinct(ws),
                forall|j: int| 0 <= j < i ==> #[trigger] ws[j].id != id@,
            decreases self.workers.len() - i,
        {
            assert(ws[i as int].id == self.workers@[i as int].worker_id@);
            if str_eq(self.workers[i].worker_id.as_str(), id) {
                proof {
                    lemma_worker_pos(ws, id@, i as int);
                }
                return Some(i);
            }
            i = i + 1;
        }
        None
    }

    fn find_assignment(&self, id: &str) -> (r: Option<usize>)
        ensures
            match r {
                Some(i) => i < self.model().assignments.len() && assignment_pos(
                    self.model().assignments,
                    id@,
                ) == i && has_assignment(self.model().assignments, id@),
                None => !has_assignment(self.model().assignments, id@),
            },
    {
        proof {
            use_type_invariant(self);
        }
        let ghost a = pair_models(self.assignments@);
        let mut i: usize = 0;
        while i < self.assignments.len()
            invariant
                i <= self.assignments@.len(),
                a == pair_models(self.assignments@),
                assignment_ids_distinct(a),
                forall|j: int| 0 <= j < i ==> #[trigger] a[j].0 != id@,
            decreases self.assignments.len() - i,
        {
            assert(a[i as int].0 == self.assignments@[i as int].0@);
            if str_eq(self.assignments[i].0.as_str(), id) {
                proof {
                    lemma_assignment_pos(a, id@, i as int);
                }
                return Some(i);
            }
            i = i + 1;
        }
        None
    }

    /// Registers a worker at time `now_ms`; `true` for a new worker, `false`
    /// for a re-registration.
    pub fn register_at(&mut self, req: &RegisterRequest, now_ms: i64) -> (is_new: bool)
        ensures
            is_new == !has_worker(old(self).model().workers, req.worker_id@),
            final(self).model().workers == register_step(old(self).model().workers, *req, now_ms),
            final(self).model().assignments == old(self).model().assignments,
            final(self).model().strategy == old(self).model().strategy,
            final(self).model().next_index == old(self).model().next_index,
    {
        proof {
            use_type_invariant(&*self);
        }
        let ghost ws = entry_models(self.workers@);
        match self.find_worker(req.worker_id.as_str()) {
            None => {
                let e = WorkerEntry::from_registration_at(req, now_ms);
                let mut all: Vec<WorkerEntry> = Vec::new();
                std::mem::swap(&mut all, &mut self.workers);
                all.push(e);
                proof {
                    assert(entry_models(all@) =~= ws.push(registered(*req, now_ms)));
                    lemma_push_keeps_ids(ws, registered(*req, now_ms));
                }
                self.workers = all;
                true
            },
            Some(i) => {
                let pools = clone_strings(&req.pool_affinity);
                let mut all: Vec<WorkerEntry> = Vec::new();
                std::mem::swap(&mut all, &mut self.workers);
                all[i].state = WorkerState::Active;
                all[i].capacity = req.capacity;
                all[i].pool_affinity = pools;
                all[i].last_heartbeat_ms = now_ms;
                proof {
                    let nw = WorkerModel {
                        state: WorkerState::Active,
                        capacity: req.capacity,
                        affinity: views(req.pool_affinity@),
                        last_heartbeat: now_ms,
                        ..ws[i as int]
                    };
                    assert(entry_models(all@) =~= ws.update(i as int, nw));
                    lemma_update_keeps_ids(ws, i as int, nw);
                }
                self.workers = all;
                false
            },
        }
    }

    /// Registers a worker now; `true` for a new worker.
    pub fn register(&mut self, req: &RegisterRequest) -> (is_new: bool)
        ensures
            is_new == !has_worker(old(self).model().workers, req.worker_id@),
            exists|now: i64|
                final(self).model().workers == register_step(old(self).model().workers, *req, now),
            final(self).model().assignments == old(self).model().assignments,
            final(self).model().strategy == old(self).model().strategy,
            final(self).model().next_index == old(self).model().next_index,
    {
        let now = now_millis();
        self.register_at(req, now)
    }

    /// Takes a heartbeat received at `now_ms`; one from an unknown worker is
    /// ignored.
    pub fn heartbeat_at(&mut self, hb: &WorkerHeartbeat, now_ms: i64)
        ensures
            final(self).model().workers == heartbeat_step(old(self).model().workers, *hb, now_ms),
            final(self).model().assignments == old(self).model().assignments,
            final(self).model().strategy == old(self).model().strategy,
            final(self).model().next_index == old(self).model().next_index,
    {
        proof {
            use_type_invariant(&*self);
        }
        let ghost ws = entry_models(self.workers@);
        if let Some(i) = self.find_worker(hb.worker_id.as_str()) {
            let mut all: Vec<WorkerEntry> = Vec::new();
            std::mem::swap(&mut all, &mut self.workers);
            all[i].apply_heartbeat_at(hb, now_ms);
            proof {
                assert(entry_models(all@) =~= ws.update(
                    i as int,
                    after_heartbeat(ws[i as int], *hb, now_ms),
                ));
                lemma_update_keeps_ids(ws, i as int, after_heartbeat(ws[i as int], *hb, now_ms));
            }
            self.workers = all;
        }
    }

    /// Takes a heartbeat received now.
    pub fn heartbeat(&mut self, hb: &WorkerHeartbeat)
        ensures
            exists|now: i64|
                final(self).model().workers == heartbeat_step(old(self).model().workers, *hb, now),
            final(self).model().assignments == old(self).model().assignments,
            final(self).model().strategy == old(self).model().strategy,
            final(self).model().next_index == old(self).model().next_index,
    {
        let now = now_millis();
        self.heartbeat_at(hb, now)
    }

    /// Marks a worker as draining: it finishes its tasks and takes no new
    /// ones. The reason is for the log only.
    pub fn drain_worker(&mut self, worker_id: &str, reason: &str)
        ensures
            final(self).model().workers == drain_step(old(self).model().workers, worker_id@),
            final(self).model().assignments == old(self).model().assignments,
            final(self).model().strategy == old(self).model().strategy,
            final(self).model().next_index == old(self).model().next_index,
    {
        proof {
            use_type_invariant(&*self);
        }
        let ghost ws = entry_models(self.workers@);
        if let Some(i) = self.find_worker(worker_id) {
            let mut all: Vec<WorkerEntry> = Vec::new();
            std::mem::swap(&mut all, &mut self.workers);
            all[i].state = WorkerState::Draining;
            proof {
                let nw = WorkerModel { state: WorkerState::Draining, ..ws[i as int] };
                assert(entry_models(all@) =~= ws.update(i as int, nw));
                lemma_update_keeps_ids(ws, i as int, nw);
            }
            self.workers = all;
        }
    }

    /// The worker an assignment was sent to.
    pub fn get_assignment_worker(&self, assignment_id: &str) -> (r: Option<String>)
        ensures
            match r {
                Some(w) => has_assignment(self.model().assignments, assignment_id@) && w@
                    == self.model().assignments[assignment_pos(
                    self.model().assignments,
                    assignment_id@,
                )].1,
                None => !has_assignment(self.model().assignments, assignment_id@),
            },
    {
        match self.find_assignment(assignment_id) {
            Some(i) => Some(self.assignments[i].1.clone()),
            None => None,
        }
    }

    /// Number of registered workers, in any state.
    pub fn total_workers(&self) -> (n: usize)
        ensures
            n == self.model().workers.len(),
    {
        self.workers.len()
    }

    /// Number of workers in the active state.
    pub fn active_workers(&self) -> (n: usize)
        ensures
            n == count_active(self.model().workers),
    {
        let ghost ws = entry_models(self.workers@);
        let mut n: usize = 0;
        let mut i: usize = 0;
        while i < self.workers.len()
            invariant
                i <= self.workers@.len(),
                ws == entry_models(self.workers@),
                n == count_active(ws.take(i as int)),
                n <= i,
            decreases self.workers.len() - i,
        {
            assert(ws.take(i + 1).drop_last() =~= ws.take(i as int));
            if self.workers[i].state == WorkerState::Active {
                n = n + 1;
            }
            i = i + 1;
        }
        assert(ws.take(i as int) =~= ws);
        n
    }

    /// Free slots summed over the active workers.
    pub fn total_available_slots(&self) -> (n: u32)
        requires
            sum_active_slots(self.model().workers) <= u32::MAX,
        ensures
            n == sum_active_slots(self.model().workers),
    {
        let ghost ws = entry_models(self.workers@);
        let mut n: u32 = 0;
        let mut i: usize = 0;
        while i < self.workers.len()
            invariant
                i <= self.workers@.len(),
                ws == entry_models(self.workers@),
                n == sum_active_slots(ws.take(i as int)),
                sum_active_slots(ws) <= u32::MAX,
            decreases self.workers.len() - i,
        {
            assert(ws.take(i + 1).drop_last() =~= ws.take(i as int));
            proof {
                lemma_sum_active_slots_prefix(ws, i + 1);
            }
            if self.workers[i].state == WorkerState::Active {
                n = n + self.workers[i].available_slots();
            }
            i = i + 1;
        }
        assert(ws.take(i as int) =~= ws);
        n
    }

    /// Running tasks summed over all workers.
    pub fn total_running_tasks(&self) -> (n: u32)
        requires
            sum_running(self.model().workers) <= u32::MAX,
        ensures
            n == sum_running(self.model().workers),
    {
        let ghost ws = entry_models(self.workers@);
        let mut n: u32 = 0;
        let mut i: usize = 0;
        while i < self.workers.len()
            invariant
                i <= self.workers@.len(),
                ws == entry_models(self.workers@),
                n == sum_running(ws.take(i as int)),
                sum_running(ws) <= u32::MAX,
            decreases self.workers.len() - i,
        {
            assert(ws.take(i + 1).drop_last() =~= ws.take(i as int));
            proof {
                lemma_sum_running_prefix(ws, i + 1);
            }
            n = n + self.workers[i].active_tasks;
            i = i + 1;
        }
        assert(ws.take(i as int) =~= ws);
        n
    }

    /// Every worker as the API reports it, in registration order.
    pub fn list_workers(&self) -> (r: Vec<WorkerStatus>)
        ensures
            r@.len() == self.model().workers.len(),
            forall|i: int|
                0 <= i < r@.len() ==> #[trigger] status_of(r@[i]) == status_model(self.model().workers[i]),
    {
        let ghost ws = entry_models(self.workers@);
        let mut r: Vec<WorkerStatus> = Vec::new();
        let mut i: usize = 0;
        while i < self.workers.len()
            invariant
                i <= self.workers@.len(),
                ws == entry_models(self.workers@),
                r@.len() == i,
                forall|j: int| 0 <= j < i ==> #[trigger] status_of(r@[j]) == status_model(ws[j]),
            decreases self.workers.len() - i,
        {
            let st = self.workers[i].to_status();
            r.push(st);
            i = i + 1;
        }
        r
    }

    /// The report on the whole cluster; runs and queue are the coordinator's
    /// to fill in.
    pub fn cluster_status(&self, uptime_secs: u64) -> (c: ClusterStatusResponse)
        requires
            sum_running(self.model().workers) <= u32::MAX,
        ensures
            c.health == health_of(count_active(self.model().workers), self.model().workers.len()),
            c.workers@.len() == self.model().workers.len(),
            forall|i: int|
                0 <= i < c.workers@.len() ==> #[trigger] status_of(c.workers@[i]) == status_model(
                    self.model().workers[i],
                ),
            c.active_runs == 0,
            c.running_tasks == sum_running(self.model().workers),
            c.queued_tasks == 0,
            c.uptime_secs == uptime_secs,
    {
        let workers = self.list_workers();
        let active = self.active_workers();
        let total = self.total_workers();
        let health = if total == 0 {
            ClusterHealth::Unhealthy
        } else if active == total {
            ClusterHealth::Healthy
        } else if active > 0 {
            ClusterHealth::Degraded
        } else {
            ClusterHealth::Unhealthy
        };
        ClusterStatusResponse {
            health,
            workers,
            active_runs: 0,
            running_tasks: self.total_running_tasks(),
            queued_tasks: 0,
            uptime_secs,
        }
    }
}

/// What the API reports of a worker, over plain values.
pub struct StatusModel {
    pub worker_id: Seq<char>,
    pub hostname: Seq<char>,
    pub state: WorkerState,
    pub capacity: u32,
    pub active_tasks: u32,
    pub pool_affinity: Seq<Seq<char>>,
    pub last_heartbeat_ms: i64,
    pub cpu_milli_percent: u64,
    pub memory_milli_percent: u64,
    pub labels: Map<String, String>,
    pub registered_at_ms: i64,
    pub tasks_completed: u64,
    pub tasks_failed: u64,
}

pub open spec fn status_of(s: WorkerStatus) -> StatusModel {
    StatusModel {
        worker_id: s.worker_id@,
        hostname: s.hostname@,
        state: s.state,
        capacity: s.capacity,
        active_tasks: s.active_tasks,
        pool_affinity: views(s.pool_affinity@),
        last_heartbeat_ms: s.last_heartbeat_ms,
        cpu_milli_percent: s.cpu_milli_percent,
        memory_milli_percent: s.memory_milli_percent,
        labels: s.labels@,
        registered_at_ms: s.registered_at_ms,
        tasks_completed: s.tasks_completed,
        tasks_failed: s.tasks_failed,
    }
}

/// The report of a worker entry.
pub open spec fn status_model(w: WorkerModel) -> StatusModel {
    StatusModel {
        worker_id: w.id,
        hostname: w.hostname,
        state: w.state,
        capacity: w.capacity,
        active_tasks: w.active,
        pool_affinity: w.affinity,
        last_heartbeat_ms: w.last_heartbeat,
        cpu_milli_percent: w.cpu,
        memory_milli_percent: w.memory,
        labels: w.labels,
        registered_at_ms: w.registered_at,
        tasks_completed: w.completed,
        tasks_failed: w.failed,
    }
}

proof fn lemma_update_keeps_ids(ws: Seq<WorkerModel>, i: int, w: WorkerModel)
    requires
        worker_ids_distinct(ws),
        0 <= i < ws.len(),
        w.id == ws[i].id,
    ensures
        worker_ids_distinct(ws.update(i, w)),
{
    let n = ws.update(i, w);
    assert forall|a: int, b: int| 0 <= a < b < n.len() implies #[trigger] n[a].id != #[trigger] n[b].id by {
        assert(n[a].id == ws[a].id);
        assert(n[b].id == ws[b].id);
    }
}

proof fn lemma_push_keeps_ids(ws: Seq<WorkerModel>, w: WorkerModel)
    requires
        worker_ids_distinct(ws),
        !has_worker(ws, w.id),
    ensures
        worker_ids_distinct(ws.push(w)),
{
    let n = ws.push(w);
    assert forall|a: int, b: int| 0 <= a < b < n.len() implies #[trigger] n[a].id != #[trigger] n[b].id by {
        if b == ws.len() {
            assert(n[a] == ws[a]);
        } else {
            assert(n[a] == ws[a] && n[b] == ws[b]);
        }
    }
}

proof fn lemma_sum_active_slots_prefix(ws: Seq<WorkerModel>, k: int)
    requires
        0 <= k <= ws.len(),
    ensures
        sum_active_slots(ws.take(k)) <= sum_active_slots(ws),
    decreases ws.len() - k,
{
    if k < ws.len() {
        lemma_sum_active_slots_prefix(ws, k + 1);
        assert(ws.take(k + 1).drop_last() =~= ws.take(k));
    } else {
        assert(ws.take(k) =~= ws);
    }
}

proof fn lemma_sum_running_prefix(ws: Seq<WorkerModel>, k: int)
    requires
        0 <= k <= ws.len(),
    ensures
        sum_running(ws.take(k)) <= sum_running(ws),
    decreases ws.len() - k,
{
    if k < ws.len() {
        lemma_sum_running_prefix(ws, k + 1);
        assert(ws.take(k + 1).drop_last() =~= ws.take(k));
    } else {
        assert(ws.take(k) =~= ws);
    }
}


/// A worker that can take a task of `pool`.
pub open spec fn is_candidate(w: WorkerModel, pool: Seq<char>) -> bool {
    available(w) && handles_pool(w.affinity, pool)
}

/// Least-loaded order: more free slots, then lower CPU load.
pub open spec fn ll_greater(a: WorkerModel, b: WorkerModel) -> bool {
    slots(a) > slots(b) || (slots(a) == slots(b) && a.cpu < b.cpu)
}

/// How many workers can take a task of `pool`.
pub open spec fn count_candidates(ws: Seq<WorkerModel>, pool: Seq<char>) -> nat
    decreases ws.len(),
{
    if ws.len() == 0 {
        0
    } else {
        count_candidates(ws.drop_last(), pool) + (if is_candidate(ws.last(), pool) {
            1nat
        } else {
            0nat
        })
    }
}

/// Worker `i` is the least-loaded pick: no candidate beats it, and every
/// later candidate is beaten by it (the last of the best ones is taken).
pub open spec fn least_loaded_pick(ws: Seq<WorkerModel>, pool: Seq<char>, i: int) -> bool {
    &&& 0 <= i < ws.len()
    &&& is_candidate(ws[i], pool)
    &&& forall|j: int|
        0 <= j < i && is_candidate(#[trigger] ws[j], pool) ==> !ll_greater(ws[j], ws[i])
    &&& forall|j: int|
        i < j < ws.len() && is_candidate(#[trigger] ws[j], pool) ==> ll_greater(ws[i], ws[j])
}

/// Worker `i` is the bin-pack pick: the first candidate with the fewest
/// free slots.
pub open spec fn bin_pack_pick(ws: Seq<WorkerModel>, pool: Seq<char>, i: int) -> bool {
    &&& 0 <= i < ws.len()
    &&& is_candidate(ws[i], pool)
    &&& forall|j: int|
        0 <= j < i && is_candidate(#[trigger] ws[j], pool) ==> slots(ws[j]) > slots(ws[i])
    &&& forall|j: int|
        i < j < ws.len() && is_candidate(#[trigger] ws[j], pool) ==> slots(ws[j]) >= slots(ws[i])
}

/// Worker `i` is the candidate numbered `k` (from zero).
pub open spec fn round_robin_pick(ws: Seq<WorkerModel>, pool: Seq<char>, i: int, k: nat) -> bool {
    &&& 0 <= i < ws.len()
    &&& is_candidate(ws[i], pool)
    &&& count_candidates(ws.take(i), pool) == k
}

/// Worker `i` is the pick of `strategy` when the round-robin position is
/// `next`.
pub open spec fn picked(
    ws: Seq<WorkerModel>,
    pool: Seq<char>,
    strategy: RoutingStrategy,
    next: nat,
    i: int,
) -> bool {
    match strategy {
        RoutingStrategy::LeastLoaded => least_loaded_pick(ws, pool, i),
        RoutingStrategy::BinPack => bin_pack_pick(ws, pool, i),
        RoutingStrategy::RoundRobin => round_robin_pick(
            ws,
            pool,
            i,
            next % count_candidates(ws, pool),
        ),
    }
}

/// The workers after an assignment is sent to `wid`: one more running task.
pub open spec fn assign_workers(ws: Seq<WorkerModel>, aid: Seq<char>, wid: Seq<char>) -> Seq<
    WorkerModel,
> {
    if has_worker(ws, wid) {
        let i = worker_pos(ws, wid);
        ws.update(
            i,
            WorkerModel { active: (ws[i].active + 1) as u32, running: ws[i].running.push(aid), ..ws[i] },
        )
    } else {
        ws
    }
}

/// The assignments after `aid` is sent to `wid` (a known id moves).
pub open spec fn assign_pairs(a: Seq<(Seq<char>, Seq<char>)>, aid: Seq<char>, wid: Seq<char>) -> Seq<
    (Seq<char>, Seq<char>),
> {
    if has_assignment(a, aid) {
        a.update(assignment_pos(a, aid), (aid, wid))
    } else {
        a.push((aid, wid))
    }
}

/// The texts of `s` other than `x`, in order.
pub open spec fn without(s: Seq<Seq<char>>, x: Seq<char>) -> Seq<Seq<char>>
    decreases s.len(),
{
    if s.len() == 0 {
        s
    } else if s.last() == x {
        without(s.drop_last(), x)
    } else {
        without(s.drop_last(), x).push(s.last())
    }
}

/// The worker an assignment belongs to, when both are known.
pub open spec fn completes_on(ws: Seq<WorkerModel>, a: Seq<(Seq<char>, Seq<char>)>, aid: Seq<char>) -> bool {
    has_assignment(a, aid) && has_worker(ws, a[assignment_pos(a, aid)].1)
}

/// The workers after assignment `aid` completes: its worker runs one task
/// fewer (never below zero), drops it from its list, and counts it as
/// completed or failed.
pub open spec fn complete_workers(
    ws: Seq<WorkerModel>,
    a: Seq<(Seq<char>, Seq<char>)>,
    aid: Seq<char>,
    success: bool,
) -> Seq<WorkerModel> {
    if completes_on(ws, a, aid) {
        let i = worker_pos(ws, a[assignment_pos(a, aid)].1);
        let w = ws[i];
        ws.update(
            i,
            WorkerModel {
                active: if w.active > 0 {
                    (w.active - 1) as u32
                } else {
                    0
                },
                running: without(w.running, aid),
                completed: if success {
                    (w.completed + 1) as u64
                } else {
                    w.completed
                },
                failed: if success {
                    w.failed
                } else {
                    (w.failed + 1) as u64
                },
                ..w
            },
        )
    } else {
        ws
    }
}

/// The assignments after `aid` completes: it is forgotten.
pub open spec fn complete_pairs(a: Seq<(Seq<char>, Seq<char>)>, aid: Seq<char>) -> Seq<
    (Seq<char>, Seq<char>),
> {
    if has_assignment(a, aid) {
        a.remove(assignment_pos(a, aid))
    } else {
        a
    }
}

/// The assignments that do not belong to worker `wid`, in order.
pub open spec fn drop_worker_pairs(a: Seq<(Seq<char>, Seq<char>)>, wid: Seq<char>) -> Seq<
    (Seq<char>, Seq<char>),
>
    decreases a.len(),
{
    if a.len() == 0 {
        a
    } else if a.last().1 == wid {
        drop_worker_pairs(a.drop_last(), wid)
    } else {
        drop_worker_pairs(a.drop_last(), wid).push(a.last())
    }
}

/// The workers after one is removed.
pub open spec fn remove_workers(ws: Seq<WorkerModel>, wid: Seq<char>) -> Seq<WorkerModel> {
    if has_worker(ws, wid) {
        ws.remove(worker_pos(ws, wid))
    } else {
        ws
    }
}

/// The state a worker moves to at time `now`: after the dead timeout
/// without a heartbeat an active, draining or disconnected worker is dead;
/// after the heartbeat timeout an active one is disconnected.
pub open spec fn next_state(w: WorkerModel, now: i64) -> WorkerState {
    let elapsed = now - w.last_heartbeat;
    match w.state {
        WorkerState::Active | WorkerState::Draining => if elapsed > DEAD_TIMEOUT_MS {
            WorkerState::Dead
        } else if elapsed > HEARTBEAT_TIMEOUT_MS && w.state != WorkerState::Draining {
            WorkerState::Disconnected
        } else {
            w.state
        },
        WorkerState::Disconnected => if elapsed > DEAD_TIMEOUT_MS {
            WorkerState::Dead
        } else {
            WorkerState::Disconnected
        },
        _ => w.state,
    }
}

/// The workers after a health check at time `now`.
pub open spec fn health_workers(ws: Seq<WorkerModel>, now: i64) -> Seq<WorkerModel> {
    ws.map_values(|w: WorkerModel| WorkerModel { state: next_state(w, now), ..w })
}

/// A worker the health check at `now` declares dead.
pub open spec fn dies_at(w: WorkerModel, now: i64) -> bool {
    w.state != WorkerState::Dead && next_state(w, now) == WorkerState::Dead
}

/// The ids of the workers the health check at `now` declares dead, in order.
pub open spec fn newly_dead(ws: Seq<WorkerModel>, now: i64) -> Seq<Seq<char>>
    decreases ws.len(),
{
    if ws.len() == 0 {
        Seq::empty()
    } else if dies_at(ws.last(), now) {
        newly_dead(ws.drop_last(), now).push(ws.last().id)
    } else {
        newly_dead(ws.drop_last(), now)
    }
}

/// The ids of the assignments that belong to one of the `dead` workers.
pub open spec fn orphans(a: Seq<(Seq<char>, Seq<char>)>, dead: Seq<Seq<char>>) -> Seq<Seq<char>>
    decreases a.len(),
{
    if a.len() == 0 {
        Seq::empty()
    } else if dead.contains(a.last().1) {
        orphans(a.drop_last(), dead).push(a.last().0)
    } else {
        orphans(a.drop_last(), dead)
    }
}


impl WorkerPool {
    fn is_candidate_at(&self, i: usize, pool: &str) -> (b: bool)
        requires
            i < self.model().workers.len(),
        ensures
            b == is_candidate(self.model().workers[i as int], pool@),
    {
        self.workers[i].is_available() && self.workers[i].can_handle_pool(pool)
    }

    fn pick_least_loaded(&self, pool: &str) -> (r: Option<usize>)
        ensures
            match r {
                Some(i) => least_loaded_pick(self.model().workers, pool@, i as int),
                None => forall|j: int|
                    0 <= j < self.model().workers.len() ==> !is_candidate(
                        #[trigger] self.model().workers[j],
                        pool@,
                    ),
            },
    {
        let ghost ws = self.model().workers;
        let mut best: Option<usize> = None;
        let mut i: usize = 0;
        while i < self.workers.len()
            invariant
                ws == self.model().workers,
                i <= ws.len(),
                match best {
                    Some(b) => {
                        &&& b < i
                        &&& is_candidate(ws[b as int], pool@)
                        &&& forall|j: int|
                            0 <= j < b && is_candidate(#[trigger] ws[j], pool@) ==> !ll_greater(
                                ws[j],
                                ws[b as int],
                            )
                        &&& forall|j: int|
                            b < j < i && is_candidate(#[trigger] ws[j], pool@) ==> ll_greater(
                                ws[b as int],
                                ws[j],
                            )
                    },
                    None => forall|j: int| 0 <= j < i ==> !is_candidate(#[trigger] ws[j], pool@),
                },
            decreases self.workers.len() - i,
        {
            if self.is_candidate_at(i, pool) {
                match best {
                    None => {
                        best = Some(i);
                    },
                    Some(b) => {
                        let sb = self.workers[b].available_slots();
                        let si = self.workers[i].available_slots();
                        let keep = sb > si || (sb == si && self.workers[b].cpu_milli_percent
                            < self.workers[i].cpu_milli_percent);
                        if !keep {
                            best = Some(i);
                        }
                    },
                }
            }
            i = i + 1;
        }
        best
    }

    fn pick_bin_pack(&self, pool: &str) -> (r: Option<usize>)
        ensures
            match r {
                Some(i) => bin_pack_pick(self.model().workers, pool@, i as int),
                None => forall|j: int|
                    0 <= j < self.model().workers.len() ==> !is_candidate(
                        #[trigger] self.model().workers[j],
                        pool@,
                    ),
            },
    {
        let ghost ws = self.model().workers;
        let mut best: Option<usize> = None;
        let mut i: usize = 0;
        while i < self.workers.len()
            invariant
                ws == self.model().workers,
                i <= ws.len(),
                match best {
                    Some(b) => {
                        &&& b < i
                        &&& is_candidate(ws[b as int], pool@)
                        &&& forall|j: int|
                            0 <= j < b && is_candidate(#[trigger] ws[j], pool@) ==> slots(ws[j])
                                > slots(ws[b as int])
                        &&& forall|j: int|
                            b < j < i && is_candidate(#[trigger] ws[j], pool@) ==> slots(ws[j])
                                >= slots(ws[b as int])
                    },
                    None => forall|j: int| 0 <= j < i ==> !is_candidate(#[trigger] ws[j], pool@),
                },
            decreases self.workers.len() - i,
        {
            if self.is_candidate_at(i, pool) {
                match best {
                    None => {
                        best = Some(i);
                    },
                    Some(b) => {
                        if self.workers[i].available_slots() < self.workers[b].available_slots() {
                            best = Some(i);
                        }
                    },
                }
            }
            i = i + 1;
        }
        best
    }

    fn count_candidates_exec(&self, pool: &str) -> (n: usize)
        ensures
            n == count_candidates(self.model().workers, pool@),
    {
        let ghost ws = self.model().workers;
        let mut n: usize = 0;
        let mut i: usize = 0;
        while i < self.workers.len()
            invariant
                ws == self.model().workers,
                i <= ws.len(),
                n == count_candidates(ws.take(i as int), pool@),
                n <= i,
            decreases self.workers.len() - i,
        {
            assert(ws.take(i + 1).drop_last() =~= ws.take(i as int));
            if self.is_candidate_at(i, pool) {
                n = n + 1;
            }
            i = i + 1;
        }
        assert(ws.take(i as int) =~= ws);
        n
    }

    fn pick_round_robin(&self, pool: &str, k: usize) -> (r: usize)
        requires
            k < count_candidates(self.model().workers, pool@),
        ensures
            round_robin_pick(self.model().workers, pool@, r as int, k as nat),
    {
        let ghost ws = self.model().workers;
        let mut seen: usize = 0;
        let mut i: usize = 0;
        while i < self.workers.len()
            invariant
                ws == self.model().workers,
                i <= ws.len(),
                seen == count_candidates(ws.take(i as int), pool@),
                seen <= k,
                k < count_candidates(ws, pool@),
            decreases self.workers.len() - i,
        {
            assert(ws.take(i + 1).drop_last() =~= ws.take(i as int));
            if self.is_candidate_at(i, pool) {
                if seen == k {
                    return i;
                }
                seen = seen + 1;
            }
            i = i + 1;
        }
        assert(ws.take(i as int) =~= ws);
        0
    }

    /// Picks a worker for a task of `pool` by the pool's strategy; `None`
    /// when no worker is available for it. Round robin moves on to the next
    /// candidate.
    pub fn select_worker(&mut self, pool: &str) -> (r: Option<String>)
        ensures
            r is None <==> count_candidates(old(self).model().workers, pool@) == 0,
            match r {
                Some(id) => exists|i: int|
                    picked(
                        old(self).model().workers,
                        pool@,
                        old(self).model().strategy,
                        old(self).model().next_index,
                        i,
                    ) && #[trigger] old(self).model().workers[i].id == id@,
                None => true,
            },
            final(self).model().workers == old(self).model().workers,
            final(self).model().assignments == old(self).model().assignments,
            final(self).model().strategy == old(self).model().strategy,
            final(self).model().next_index == if old(self).model().strategy
                == RoutingStrategy::RoundRobin && count_candidates(
                old(self).model().workers,
                pool@,
            ) > 0 {
                (old(self).model().next_index + 1) % count_candidates(
                    old(self).model().workers,
                    pool@,
                )
            } else {
                old(self).model().next_index
            },
    {
        proof {
            use_type_invariant(&*self);
        }
        let ghost ws = self.model().workers;
        let count = self.count_candidates_exec(pool);
        if count == 0 {
            return None;
        }
        let pick: usize = match self.strategy {
            RoutingStrategy::LeastLoaded => match self.pick_least_loaded(pool) {
                Some(i) => i,
                None => {
                    proof {
                        lemma_no_candidates(ws, pool@);
                    }
                    return None;
                },
            },
            RoutingStrategy::BinPack => match self.pick_bin_pack(pool) {
                Some(i) => i,
                None => {
                    proof {
                        lemma_no_candidates(ws, pool@);
                    }
                    return None;
                },
            },
            RoutingStrategy::RoundRobin => {
                let k = self.round_robin_idx % count;
                let i = self.pick_round_robin(pool, k);
                self.round_robin_idx = (self.round_robin_idx + 1) % count;
                i
            },
        };
        let id = self.workers[pick].worker_id.clone();
        assert(ws[pick as int].id == id@);
        Some(id)
    }
}

proof fn lemma_no_candidates(ws: Seq<WorkerModel>, pool: Seq<char>)
    requires
        forall|j: int| 0 <= j < ws.len() ==> !is_candidate(#[trigger] ws[j], pool),
    ensures
        count_candidates(ws, pool) == 0,
    decreases ws.len(),
{
    if ws.len() > 0 {
        assert forall|j: int| 0 <= j < ws.drop_last().len() implies !is_candidate(
            #[trigger] ws.drop_last()[j],
            pool,
        ) by {
            assert(ws.drop_last()[j] == ws[j]);
        }
        lemma_no_candidates(ws.drop_last(), pool);
        assert(!is_candidate(ws[ws.len() - 1], pool));
    }
}


/// The counters of the worker an assignment completes on have room.
pub open spec fn complete_fits(
    ws: Seq<WorkerModel>,
    a: Seq<(Seq<char>, Seq<char>)>,
    aid: Seq<char>,
) -> bool {
    completes_on(ws, a, aid) ==> {
        let w = ws[worker_pos(ws, a[assignment_pos(a, aid)].1)];
        w.completed < u64::MAX && w.failed < u64::MAX
    }
}

pub(crate) proof fn lemma_pair_update_keeps_ids(a: Seq<(Seq<char>, Seq<char>)>, i: int, p: (Seq<char>, Seq<char>))
    requires
        assignment_ids_distinct(a),
        0 <= i < a.len(),
        p.0 == a[i].0,
    ensures
        assignment_ids_distinct(a.update(i, p)),
{
    let n = a.update(i, p);
    assert forall|x: int, y: int| 0 <= x < y < n.len() implies #[trigger] n[x].0 != #[trigger] n[y].0 by {
        assert(n[x].0 == a[x].0);
        assert(n[y].0 == a[y].0);
    }
}

pub(crate) proof fn lemma_pair_push_keeps_ids(a: Seq<(Seq<char>, Seq<char>)>, p: (Seq<char>, Seq<char>))
    requires
        assignment_ids_distinct(a),
        !has_assignment(a, p.0),
    ensures
        assignment_ids_distinct(a.push(p)),
{
    let n = a.push(p);
    assert forall|x: int, y: int| 0 <= x < y < n.len() implies #[trigger] n[x].0 != #[trigger] n[y].0 by {
        if y == a.len() {
            assert(n[x] == a[x]);
        } else {
            assert(n[x] == a[x] && n[y] == a[y]);
        }
    }
}

pub(crate) proof fn lemma_pair_remove_keeps_ids(a: Seq<(Seq<char>, Seq<char>)>, i: int)
    requires
        assignment_ids_distinct(a),
        0 <= i < a.len(),
    ensures
        assignment_ids_distinct(a.remove(i)),
{
    let n = a.remove(i);
    assert forall|x: int, y: int| 0 <= x < y < n.len() implies #[trigger] n[x].0 != #[trigger] n[y].0 by {
        let xx = if x < i { x } else { x + 1 };
        let yy = if y < i { y } else { y + 1 };
        assert(n[x] == a[xx] && n[y] == a[yy]);
    }
}

proof fn lemma_worker_remove_keeps_ids(ws: Seq<WorkerModel>, i: int)
    requires
        worker_ids_distinct(ws),
        0 <= i < ws.len(),
    ensures
        worker_ids_distinct(ws.remove(i)),
{
    let n = ws.remove(i);
    assert forall|x: int, y: int| 0 <= x < y < n.len() implies #[trigger] n[x].id != #[trigger] n[y].id by {
        let xx = if x < i { x } else { x + 1 };
        let yy = if y < i { y } else { y + 1 };
        assert(n[x] == ws[xx] && n[y] == ws[yy]);
    }
}

/// The texts of `v` other than `x`.
pub(crate) fn strings_without(v: &Vec<String>, x: &str) -> (r: Vec<String>)
    ensures
        views(r@) == without(views(v@), x@),
{
    let mut r: Vec<String> = Vec::new();
    let mut i: usize = 0;
    proof {
        assert(views(v@).take(0) =~= Seq::<Seq<char>>::empty());
        assert(views(r@) =~= Seq::<Seq<char>>::empty());
    }
    while i < v.len()
        invariant
            i <= v@.len(),
            views(r@) == without(views(v@).take(i as int), x@),
        decreases v.len() - i,
    {
        let ghost before = views(r@);
        assert(views(v@).take(i + 1).drop_last() =~= views(v@).take(i as int));
        assert(views(v@).take(i + 1).last() == v@[i as int]@);
        if !str_eq(v[i].as_str(), x) {
            r.push(v[i].clone());
            assert(views(r@) =~= before.push(v@[i as int]@));
        }
        i = i + 1;
    }
    assert(views(v@).take(i as int) =~= views(v@));
    r
}

/// The pairs of `a` whose worker is not `wid`.
fn pairs_without_worker(a: &Vec<(String, String)>, wid: &str) -> (r: Vec<(String, String)>)
    ensures
        pair_models(r@) == drop_worker_pairs(pair_models(a@), wid@),
{
    let mut r: Vec<(String, String)> = Vec::new();
    let mut i: usize = 0;
    proof {
        assert(pair_models(a@).take(0) =~= Seq::<(Seq<char>, Seq<char>)>::empty());
        assert(pair_models(r@) =~= Seq::<(Seq<char>, Seq<char>)>::empty());
    }
    while i < a.len()
        invariant
            i <= a@.len(),
            pair_models(r@) == drop_worker_pairs(pair_models(a@).take(i as int), wid@),
        decreases a.len() - i,
    {
        let ghost before = pair_models(r@);
        assert(pair_models(a@).take(i + 1).drop_last() =~= pair_models(a@).take(i as int));
        assert(pair_models(a@).take(i + 1).last() == (a@[i as int].0@, a@[i as int].1@));
        if !str_eq(a[i].1.as_str(), wid) {
            r.push((a[i].0.clone(), a[i].1.clone()));
            assert(pair_models(r@) =~= before.push((a@[i as int].0@, a@[i as int].1@)));
        }
        i = i + 1;
    }
    assert(pair_models(a@).take(i as int) =~= pair_models(a@));
    r
}

proof fn lemma_drop_worker_pairs_subset(a: Seq<(Seq<char>, Seq<char>)>, wid: Seq<char>)
    ensures
        forall|k: int|
            0 <= k < drop_worker_pairs(a, wid).len() ==> exists|j: int|
                0 <= j < a.len() && #[trigger] drop_worker_pairs(a, wid)[k] == a[j],
        forall|k: int|
            0 <= k < drop_worker_pairs(a, wid).len() ==> (#[trigger] drop_worker_pairs(a, wid)[k]).1
                != wid,
        assignment_ids_distinct(a) ==> assignment_ids_distinct(drop_worker_pairs(a, wid)),
    decreases a.len(),
{
    if a.len() > 0 {
        lemma_drop_worker_pairs_subset(a.drop_last(), wid);
        let d = drop_worker_pairs(a.drop_last(), wid);
        assert forall|k: int| 0 <= k < d.len() implies exists|j: int|
            0 <= j < a.len() && #[trigger] d[k] == a[j] by {
            let j = choose|j: int| 0 <= j < a.drop_last().len() && d[k] == a.drop_last()[j];
            assert(a.drop_last()[j] == a[j]);
        }
        if assignment_ids_distinct(a) {
            assert(assignment_ids_distinct(a.drop_last())) by {
                assert forall|x: int, y: int|
                    0 <= x < y < a.drop_last().len() implies #[trigger] a.drop_last()[x].0
                    != #[trigger] a.drop_last()[y].0 by {
                    assert(a.drop_last()[x] == a[x] && a.drop_last()[y] == a[y]);
                }
            }
            if a.last().1 != wid {
                let n = d.push(a.last());
                assert forall|x: int, y: int| 0 <= x < y < n.len() implies #[trigger] n[x].0
                    != #[trigger] n[y].0 by {
                    if y == d.len() {
                        let j = choose|j: int| 0 <= j < a.len() && d[x] == a[j];
                        assert(j < a.len() - 1) by {
                            let jj = choose|jj: int|
                                0 <= jj < a.drop_last().len() && d[x] == a.drop_last()[jj];
                            assert(a.drop_last()[jj] == a[jj]);
                            if j == a.len() - 1 {
                                assert(a[jj].0 != a[j].0);
                            }
                        }
                        assert(a[j].0 != a[a.len() - 1].0);
                    }
                }
            }
        }
    }
}

impl WorkerPool {
    /// Records that an assignment was sent to a worker: the assignment now
    /// belongs to it, and a known worker runs one more task.
    pub fn assign_task(&mut self, assignment_id: &str, worker_id: &str)
        requires
            has_worker(old(self).model().workers, worker_id@) ==> old(self).model().workers[worker_pos(
                old(self).model().workers,
                worker_id@,
            )].active < u32::MAX,
        ensures
            final(self).model().workers == assign_workers(
                old(self).model().workers,
                assignment_id@,
                worker_id@,
            ),
            final(self).model().assignments == assign_pairs(
                old(self).model().assignments,
                assignment_id@,
                worker_id@,
            ),
            final(self).model().strategy == old(self).model().strategy,
            final(self).model().next_index == old(self).model().next_index,
    {
        proof {
            use_type_invariant(&*self);
        }
        let ghost ws = self.model().workers;
        let ghost a = self.model().assignments;
        let pair = (owned(assignment_id), owned(worker_id));
        match self.find_assignment(assignment_id) {
            Some(j) => {
                let mut all: Vec<(String, String)> = Vec::new();
                std::mem::swap(&mut all, &mut self.assignments);
                all.set(j, pair);
                proof {
                    assert(pair_models(all@) =~= a.update(j as int, (assignment_id@, worker_id@)));
                    lemma_pair_update_keeps_ids(a, j as int, (assignment_id@, worker_id@));
                }
                self.assignments = all;
            },
            None => {
                let mut all: Vec<(String, String)> = Vec::new();
                std::mem::swap(&mut all, &mut self.assignments);
                all.push(pair);
                proof {
                    assert(pair_models(all@) =~= a.push((assignment_id@, worker_id@)));
                    lemma_pair_push_keeps_ids(a, (assignment_id@, worker_id@));
                }
                self.assignments = all;
            },
        }
        if let Some(i) = self.find_worker(worker_id) {
            let mut all: Vec<WorkerEntry> = Vec::new();
            std::mem::swap(&mut all, &mut self.workers);
            all[i].active_tasks = all[i].active_tasks + 1;
            all[i].running_assignments.push(owned(assignment_id));
            proof {
                let nw = WorkerModel {
                    active: (ws[i as int].active + 1) as u32,
                    running: ws[i as int].running.push(assignment_id@),
                    ..ws[i as int]
                };
                assert(views(all@[i as int].running_assignments@) =~= ws[i as int].running.push(
                    assignment_id@,
                ));
                assert(entry_models(all@) =~= ws.update(i as int, nw));
                lemma_update_keeps_ids(ws, i as int, nw);
            }
            self.workers = all;
        }
    }

    /// Records that an assignment finished, successfully or not: it is
    /// forgotten, and its worker runs one task fewer and counts it.
    pub fn complete_task(&mut self, assignment_id: &str, success: bool)
        requires
            complete_fits(old(self).model().workers, old(self).model().assignments, assignment_id@),
        ensures
            final(self).model().workers == complete_workers(
                old(self).model().workers,
                old(self).model().assignments,
                assignment_id@,
                success,
            ),
            final(self).model().assignments == complete_pairs(
                old(self).model().assignments,
                assignment_id@,
            ),
            final(self).model().strategy == old(self).model().strategy,
            final(self).model().next_index == old(self).model().next_index,
    {
        proof {
            use_type_invariant(&*self);
        }
        let ghost ws = self.model().workers;
        let ghost a = self.model().assignments;
        let j = match self.find_assignment(assignment_id) {
            Some(j) => j,
            None => {
                return;
            },
        };
        let mut all_pairs: Vec<(String, String)> = Vec::new();
        std::mem::swap(&mut all_pairs, &mut self.assignments);
        let (_, worker_id) = all_pairs.remove(j);
        proof {
            assert(worker_id@ == a[j as int].1);
            assert(pair_models(all_pairs@) =~= a.remove(j as int));
            lemma_pair_remove_keeps_ids(a, j as int);
        }
        self.assignments = all_pairs;
        if let Some(i) = self.find_worker(worker_id.as_str()) {
            let mut all: Vec<WorkerEntry> = Vec::new();
            std::mem::swap(&mut all, &mut self.workers);
            let running = strings_without(&all[i].running_assignments, assignment_id);
            all[i].active_tasks = all[i].active_tasks.saturating_sub(1);
            all[i].running_assignments = running;
            if success {
                all[i].tasks_completed = all[i].tasks_completed + 1;
            } else {
                all[i].tasks_failed = all[i].tasks_failed + 1;
            }
            proof {
                let w = ws[i as int];
                let nw = WorkerModel {
                    active: if w.active > 0 {
                        (w.active - 1) as u32
                    } else {
                        0
                    },
                    running: without(w.running, assignment_id@),
                    completed: if success {
                        (w.completed + 1) as u64
                    } else {
                        w.completed
                    },
                    failed: if success {
                        w.failed
                    } else {
                        (w.failed + 1) as u64
                    },
                    ..w
                };
                assert(entry_models(all@) =~= ws.update(i as int, nw));
                lemma_update_keeps_ids(ws, i as int, nw);
            }
            self.workers = all;
        }
    }

    /// Removes a worker, and every assignment that belongs to it.
    pub fn remove_worker(&mut self, worker_id: &str)
        ensures
            final(self).model().workers == remove_workers(old(self).model().workers, worker_id@),
            final(self).model().assignments == drop_worker_pairs(
                old(self).model().assignments,
                worker_id@,
            ),
            final(self).model().strategy == old(self).model().strategy,
            final(self).model().next_index == old(self).model().next_index,
    {
        proof {
            use_type_invariant(&*self);
        }
        let ghost ws = self.model().workers;
        let ghost a = self.model().assignments;
        if let Some(i) = self.find_worker(worker_id) {
            let mut all: Vec<WorkerEntry> = Vec::new();
            std::mem::swap(&mut all, &mut self.workers);
            let _removed = all.remove(i);
            proof {
                assert(entry_models(all@) =~= ws.remove(i as int));
                lemma_worker_remove_keeps_ids(ws, i as int);
            }
            self.workers = all;
        }
        let kept = pairs_without_worker(&self.assignments, worker_id);
        proof {
            lemma_drop_worker_pairs_subset(a, worker_id@);
        }
        self.assignments = kept;
    }

    /// Moves every worker on by the time since its last heartbeat, at time
    /// `now_ms`; returns the ids of the workers it declared dead (their
    /// tasks need another worker).
    pub fn check_health_at(&mut self, now_ms: i64) -> (dead: Vec<String>)
        ensures
            final(self).model().workers == health_workers(old(self).model().workers, now_ms),
            views(dead@) == newly_dead(old(self).model().workers, now_ms),
            final(self).model().assignments == old(self).model().assignments,
            final(self).model().strategy == old(self).model().strategy,
            final(self).model().next_index == old(self).model().next_index,
    {
        proof {
            use_type_invariant(&*self);
        }
        let ghost ws = self.model().workers;
        let mut all: Vec<WorkerEntry> = Vec::new();
        std::mem::swap(&mut all, &mut self.workers);
        let mut dead: Vec<String> = Vec::new();
        let mut i: usize = 0;
        proof {
            assert(ws.take(0) =~= Seq::<WorkerModel>::empty());
            assert(views(dead@) =~= Seq::<Seq<char>>::empty());
        }
        while i < all.len()
            invariant
                i <= all@.len() == ws.len(),
                forall|j: int|
                    0 <= j < i ==> #[trigger] entry_models(all@)[j] == (WorkerModel {
                        state: next_state(ws[j], now_ms),
                        ..ws[j]
                    }),
                forall|j: int| i <= j < all@.len() ==> #[trigger] entry_models(all@)[j] == ws[j],
                views(dead@) == newly_dead(ws.take(i as int), now_ms),
            decreases all.len() - i,
        {
            assert(ws.take(i + 1).drop_last() =~= ws.take(i as int));
            assert(entry_models(all@)[i as int] == ws[i as int]);
            let elapsed: i128 = now_ms as i128 - all[i].last_heartbeat_ms as i128;
            let st = all[i].state;
            let next = match st {
                WorkerState::Active | WorkerState::Draining => if elapsed > 120_000 {
                    WorkerState::Dead
                } else if elapsed > 30_000 && st != WorkerState::Draining {
                    WorkerState::Disconnected
                } else {
                    st
                },
                WorkerState::Disconnected => if elapsed > 120_000 {
                    WorkerState::Dead
                } else {
                    WorkerState::Disconnected
                },
                _ => st,
            };
            assert(next == next_state(ws[i as int], now_ms));
            let ghost before = views(dead@);
            if st != WorkerState::Dead && next == WorkerState::Dead {
                dead.push(all[i].worker_id.clone());
                assert(views(dead@) =~= before.push(ws[i as int].id));
            }
            let ghost prev = all@;
            all[i].state = next;
            proof {
                assert forall|j: int| 0 <= j < all@.len() && j != i implies all@[j] == prev[j] by {}
                assert(entry_models(all@)[i as int] == (WorkerModel {
                    state: next_state(ws[i as int], now_ms),
                    ..ws[i as int]
                }));
                assert forall|j: int| 0 <= j < all@.len() && j != i implies #[trigger] entry_models(
                    all@,
                )[j] == entry_models(prev)[j] by {}
            }
            i = i + 1;
        }
        proof {
            assert(ws.take(i as int) =~= ws);
            assert(entry_models(all@) =~= health_workers(ws, now_ms));
            assert(worker_ids_distinct(entry_models(all@))) by {
                assert forall|x: int, y: int| 0 <= x < y < ws.len() implies #[trigger] entry_models(
                    all@,
                )[x].id != #[trigger] entry_models(all@)[y].id by {
                    assert(ws[x].id != ws[y].id);
                }
            }
        }
        self.workers = all;
        dead
    }

    /// Runs a health check now (see `check_health_at`).
    pub fn check_health(&mut self) -> (dead: Vec<String>)
        ensures
            exists|now: i64|
                final(self).model().workers == health_workers(old(self).model().workers, now)
                    && views(dead@) == newly_dead(old(self).model().workers, now),
            final(self).model().assignments == old(self).model().assignments,
            final(self).model().strategy == old(self).model().strategy,
            final(self).model().next_index == old(self).model().next_index,
    {
        let now = now_millis();
        self.check_health_at(now)
    }

    /// The assignments that belong to one of the given dead workers.
    pub fn orphaned_assignments(&self, dead_worker_ids: &[String]) -> (r: Vec<String>)
        ensures
            views(r@) == orphans(self.model().assignments, views(dead_worker_ids@)),
    {
        let ghost a = self.model().assignments;
        let ghost d = views(dead_worker_ids@);
        let mut r: Vec<String> = Vec::new();
        let mut i: usize = 0;
        proof {
            assert(a.take(0) =~= Seq::<(Seq<char>, Seq<char>)>::empty());
            assert(views(r@) =~= Seq::<Seq<char>>::empty());
        }
        while i < self.assignments.len()
            invariant
                a == self.model().assignments,
                d == views(dead_worker_ids@),
                i <= a.len(),
                views(r@) == orphans(a.take(i as int), d),
            decreases self.assignments.len() - i,
        {
            assert(a.take(i + 1).drop_last() =~= a.take(i as int));
            assert(a[i as int] == (self.assignments@[i as int].0@, self.assignments@[i as int].1@));
            let mut found = false;
            let mut k: usize = 0;
            while k < dead_worker_ids.len()
                invariant
                    k <= dead_worker_ids@.len(),
                    d == views(dead_worker_ids@),
                    i < self.assignments@.len(),
                    found <==> exists|m: int| 0 <= m < k && d[m] == self.assignments@[i as int].1@,
                decreases dead_worker_ids.len() - k,
            {
                assert(d[k as int] == dead_worker_ids@[k as int]@);
                if str_eq(dead_worker_ids[k].as_str(), self.assignments[i].1.as_str()) {
                    found = true;
                }
                k = k + 1;
            }
            proof {
                if found {
                    let m = choose|m: int| 0 <= m < k && d[m] == self.assignments@[i as int].1@;
                    assert(d.contains(a[i as int].1));
                } else {
                    assert(!d.contains(a[i as int].1));
                }
            }
            let ghost before = views(r@);
            if found {
                r.push(self.assignments[i].0.clone());
                assert(views(r@) =~= before.push(a[i as int].0));
            }
            i = i + 1;
        }
        assert(a.take(i as int) =~= a);
        r
    }
}


proof fn lemma_without_absent(s: Seq<Seq<char>>, x: Seq<char>)
    requires
        !s.contains(x),
    ensures
        without(s, x) == s,
    decreases s.len(),
{
    if s.len() > 0 {
        assert(!s.drop_last().contains(x)) by {
            if s.drop_last().contains(x) {
                let k = choose|k: int| 0 <= k < s.drop_last().len() && s.drop_last()[k] == x;
                assert(s[k] == x);
            }
        }
        lemma_without_absent(s.drop_last(), x);
        assert(s.last() != x) by {
            assert(s[s.len() - 1] == s.last());
        }
        assert(s.drop_last().push(s.last()) =~= s);
    }
}

/// Completing an assignment undoes sending it: when `aid` was not yet
/// assigned and its worker `wid` was not running it, sending it to `wid`
/// and then completing it leaves the assignments as they were, and the
/// worker as it was except for the one more completed (or failed) task.
pub proof fn law_complete_undoes_assign(
    ws: Seq<WorkerModel>,
    a: Seq<(Seq<char>, Seq<char>)>,
    aid: Seq<char>,
    wid: Seq<char>,
    success: bool,
)
    requires
        worker_ids_distinct(ws),
        assignment_ids_distinct(a),
        has_worker(ws, wid),
        !has_assignment(a, aid),
        !ws[worker_pos(ws, wid)].running.contains(aid),
        ws[worker_pos(ws, wid)].active < u32::MAX,
    ensures
        complete_pairs(assign_pairs(a, aid, wid), aid) == a,
        ({
            let i = worker_pos(ws, wid);
            let w = ws[i];
            complete_workers(assign_workers(ws, aid, wid), assign_pairs(a, aid, wid), aid, success)
                == ws.update(
                i,
                WorkerModel {
                    completed: if success {
                        (w.completed + 1) as u64
                    } else {
                        w.completed
                    },
                    failed: if success {
                        w.failed
                    } else {
                        (w.failed + 1) as u64
                    },
                    ..w
                },
            )
        }),
{
    let i = worker_pos(ws, wid);
    let w = ws[i];
    let a1 = assign_pairs(a, aid, wid);
    assert(a1 == a.push((aid, wid)));
    lemma_pair_push_keeps_ids(a, (aid, wid));
    lemma_assignment_pos(a1, aid, a.len() as int);
    assert(a1.remove(a.len() as int) =~= a);
    let nw = WorkerModel { active: (w.active + 1) as u32, running: w.running.push(aid), ..w };
    let w1 = assign_workers(ws, aid, wid);
    assert(w1 == ws.update(i, nw));
    lemma_update_keeps_ids(ws, i, nw);
    lemma_worker_pos(w1, wid, i);
    assert(completes_on(w1, a1, aid));
    assert(without(w.running.push(aid), aid) == without(w.running, aid)) by {
        assert(w.running.push(aid).drop_last() =~= w.running);
    }
    lemma_without_absent(w.running, aid);
    assert(ws.update(i, nw).update(i, WorkerModel {
        active: w.active,
        running: w.running,
        completed: if success {
            (w.completed + 1) as u64
        } else {
            w.completed
        },
        failed: if success {
            w.failed
        } else {
            (w.failed + 1) as u64
        },
        ..nw
    }) =~= ws.update(
        i,
        WorkerModel {
            completed: if success {
                (w.completed + 1) as u64
            } else {
                w.completed
            },
            failed: if success {
                w.failed
            } else {
                (w.failed + 1) as u64
            },
            ..w
        },
    ));
}

/// A removed worker is gone and owns no assignment any more.
pub proof fn law_removed_worker_owns_nothing(
    ws: Seq<WorkerModel>,
    a: Seq<(Seq<char>, Seq<char>)>,
    wid: Seq<char>,
)
    requires
        worker_ids_distinct(ws),
    ensures
        !has_worker(remove_workers(ws, wid), wid),
        forall|k: int|
            0 <= k < drop_worker_pairs(a, wid).len() ==> (#[trigger] drop_worker_pairs(a, wid)[k]).1
                != wid,
{
    lemma_drop_worker_pairs_subset(a, wid);
    if has_worker(ws, wid) {
        let i = worker_pos(ws, wid);
        let r = ws.remove(i);
        if has_worker(r, wid) {
            let k = choose|k: int| 0 <= k < r.len() && r[k].id == wid;
            let kk = if k < i { k } else { k + 1 };
            assert(r[k] == ws[kk]);
            if kk < i {
                assert(ws[kk].id != ws[i].id);
            } else {
                assert(ws[i].id != ws[kk].id);
            }
        }
    }
}

/// Some worker has this id and is dead after the health check at `now`.
pub open spec fn dead_after_check(ws: Seq<WorkerModel>, now: i64, id: Seq<char>) -> bool {
    exists|j: int|
        0 <= j < ws.len() && ws[j].id == id && health_workers(ws, now)[j].state == WorkerState::Dead
}

/// The workers a health check declares dead are dead after it.
pub proof fn law_declared_dead_are_dead(ws: Seq<WorkerModel>, now: i64)
    ensures
        forall|k: int|
            0 <= k < newly_dead(ws, now).len() ==> dead_after_check(
                ws,
                now,
                #[trigger] newly_dead(ws, now)[k],
            ),
    decreases ws.len(),
{
    if ws.len() > 0 {
        let p = ws.drop_last();
        law_declared_dead_are_dead(p, now);
        let d = newly_dead(p, now);
        assert forall|k: int| 0 <= k < newly_dead(ws, now).len() implies dead_after_check(
            ws,
            now,
            #[trigger] newly_dead(ws, now)[k],
        ) by {
            if k < d.len() {
                assert(newly_dead(ws, now)[k] == d[k]);
                assert(dead_after_check(p, now, d[k]));
                let j = choose|j: int|
                    0 <= j < p.len() && p[j].id == d[k] && health_workers(p, now)[j].state
                        == WorkerState::Dead;
                assert(p[j] == ws[j]);
                assert(health_workers(ws, now)[j].state == WorkerState::Dead);
            } else {
                let j = ws.len() - 1;
                assert(ws[j] == ws.last());
                assert(health_workers(ws, now)[j].state == WorkerState::Dead);
            }
        }
    } else {
        assert(newly_dead(ws, now).len() == 0);
    }
}


/// A picked worker is the one with its id, and it has room for one more
/// task.
pub proof fn lemma_picked_has_room(
    ws: Seq<WorkerModel>,
    pool: Seq<char>,
    strategy: RoutingStrategy,
    next: nat,
    i: int,
)
    requires
        worker_ids_distinct(ws),
        picked(ws, pool, strategy, next, i),
    ensures
        0 <= i < ws.len(),
        is_candidate(ws[i], pool),
        has_worker(ws, ws[i].id),
        worker_pos(ws, ws[i].id) == i,
        ws[i].active < u32::MAX,
{
    lemma_worker_pos(ws, ws[i].id, i);
}

/// A worker that lists pools takes a task of a pool exactly when that pool,
/// or `*`, is among them, wherever it stands in the list; a worker that
/// lists none takes only the default pool.
pub proof fn law_affinity_lists_pools(affinity: Seq<Seq<char>>, pool: Seq<char>)
    ensures
        affinity.len() > 0 ==> (handles_pool(affinity, pool) <==> (affinity.contains(pool) || affinity.contains(
            "*"@,
        ))),
        affinity.len() == 0 ==> (handles_pool(affinity, pool) <==> (pool == "default"@ || pool.len() == 0)),
{
    if affinity.len() > 0 {
        if handles_pool(affinity, pool) {
            let i = choose|i: int| 0 <= i < affinity.len() && (affinity[i] == pool || affinity[i] == "*"@);
            if affinity[i] == pool {
                assert(affinity.contains(pool));
            } else {
                assert(affinity.contains("*"@));
            }
        }
        if affinity.contains(pool) {
            let i = choose|i: int| 0 <= i < affinity.len() && affinity[i] == pool;
            assert(0 <= i < affinity.len() && (affinity[i] == pool || affinity[i] == "*"@));
        }
        if affinity.contains("*"@) {
            let i = choose|i: int| 0 <= i < affinity.len() && affinity[i] == "*"@;
            assert(0 <= i < affinity.len() && (affinity[i] == pool || affinity[i] == "*"@));
        }
    }
}

/// An available worker that lists a pool, at any position of its affinity,
/// is a candidate for it: selection for that pool finds some worker.
pub proof fn law_listing_worker_is_candidate(ws: Seq<WorkerModel>, pool: Seq<char>, i: int)
    requires
        0 <= i < ws.len(),
        available(ws[i]),
        ws[i].affinity.contains(pool),
    ensures
        is_candidate(ws[i], pool),
        count_candidates(ws, pool) > 0,
    decreases ws.len(),
{
    law_affinity_lists_pools(ws[i].affinity, pool);
    assert(ws[i].affinity.len() > 0);
    if i < ws.len() - 1 {
        assert(ws.drop_last()[i] == ws[i]);
        law_listing_worker_is_candidate(ws.drop_last(), pool, i);
    }
}

} // verus!
