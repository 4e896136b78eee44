//! The coordinator: it keeps the worker pool, the queue of tasks waiting for
//! a worker and the tasks running on one, and decides every move between
//! them. Sending on worker channels, the clock and logging are the caller's.

use vstd::prelude::*;
use crate::clock::now_millis;
use crate::distributed::{effective_pool, CoordinatorConfig};
use crate::proto_types::{
    ClusterStatusResponse, CoordinatorDirective, RegisterRequest, TaskAssignment, TaskLogEntry,
    TaskOutcome, TaskResult, WorkerHeartbeat,
};
use crate::text::{owned, str_eq, views};
use crate::worker_pool::{
    assign_pairs, assign_workers, complete_fits, complete_pairs, complete_workers,
    count_candidates, drop_worker_pairs, heartbeat_step, lemma_picked_has_room,
    newly_dead, orphans, picked, register_step, remove_workers, strings_without, health_workers,
    pair_models, sum_running, without, PoolModel, RoutingStrategy, WorkerPool,
};

verus! {

/// A task waiting for a worker, and the pool it waits for.
#[derive(Debug)]
pub struct PendingTask {
    pub assignment: TaskAssignment,
    pub pool: String,
}

/// A task sent to a worker.
#[derive(Debug)]
pub struct InflightTask {
    pub assignment: TaskAssignment,
    pub worker_id: String,
    pub pool: String,
}

/// What became of a submitted task.
#[derive(Debug, Clone, PartialEq, Eq)]
pub enum SubmitOutcome {
    /// Sent to this worker.
    Dispatched(String),
    /// Queued until a worker is free.
    Queued,
    /// Dropped: no worker was free and the queue was full.
    Dropped,
}

/// A queued task over plain values: the assignment and its pool.
pub type Queued = (TaskAssignment, Seq<char>);

/// A running task over plain values: the assignment, its worker and pool.
pub type Running = (TaskAssignment, Seq<char>, Seq<char>);

pub open spec fn pending_view(v: Seq<PendingTask>) -> Seq<Queued> {
    v.map_values(|p: PendingTask| (p.assignment, p.pool@))
}

pub open spec fn inflight_view(v: Seq<InflightTask>) -> Seq<Running> {
    v.map_values(|t: InflightTask| (t.assignment, t.worker_id@, t.pool@))
}

pub open spec fn log_view(v: Seq<(String, Vec<TaskLogEntry>)>) -> Seq<(Seq<char>, Seq<TaskLogEntry>)> {
    v.map_values(|e: (String, Vec<TaskLogEntry>)| (e.0@, e.1@))
}

/// Some running task has assignment id `aid`.
pub open spec fn runs(f: Seq<Running>, aid: Seq<char>) -> bool {
    exists|i: int| 0 <= i < f.len() && f[i].0.assignment_id@ == aid
}

/// The first position of a running task with assignment id `aid`.
pub open spec fn run_pos(f: Seq<Running>, aid: Seq<char>) -> int {
    choose|i: int|
        0 <= i < f.len() && f[i].0.assignment_id@ == aid && forall|k: int|
            0 <= k < i ==> f[k].0.assignment_id@ != aid
}

/// The running tasks after `a` starts on `wid` (one with its id is replaced).
pub open spec fn inflight_insert(f: Seq<Running>, a: TaskAssignment, wid: Seq<char>, pool: Seq<char>) -> Seq<
    Running,
> {
    if runs(f, a.assignment_id@) {
        f.update(run_pos(f, a.assignment_id@), (a, wid, pool))
    } else {
        f.push((a, wid, pool))
    }
}

/// No two running tasks share an assignment id.
pub open spec fn inflight_ids_distinct(f: Seq<Running>) -> bool {
    forall|i: int, j: int|
        0 <= i < j < f.len() ==> #[trigger] f[i].0.assignment_id@ != #[trigger] f[j].0.assignment_id@
}

/// The running tasks without `aid`.
pub open spec fn inflight_remove(f: Seq<Running>, aid: Seq<char>) -> Seq<Running> {
    if runs(f, aid) {
        f.remove(run_pos(f, aid))
    } else {
        f
    }
}

/// A running task goes back to the front of the queue, for its pool.
pub open spec fn requeue(st: (Seq<Running>, Seq<Queued>), aid: Seq<char>) -> (Seq<Running>, Seq<Queued>) {
    if runs(st.0, aid) {
        let t = st.0[run_pos(st.0, aid)];
        (st.0.remove(run_pos(st.0, aid)), seq![(t.0, t.2)] + st.1)
    } else {
        st
    }
}

/// `requeue` of each id in turn.
pub open spec fn requeue_all(st: (Seq<Running>, Seq<Queued>), aids: Seq<Seq<char>>) -> (
    Seq<Running>,
    Seq<Queued>,
)
    decreases aids.len(),
{
    if aids.len() == 0 {
        st
    } else {
        requeue(requeue_all(st, aids.drop_last()), aids.last())
    }
}

/// The ids of the running tasks whose worker has no channel, in order.
pub open spec fn stranded(f: Seq<Running>, channels: Seq<Seq<char>>) -> Seq<Seq<char>>
    decreases f.len(),
{
    if f.len() == 0 {
        Seq::empty()
    } else if channels.contains(f.last().1) {
        stranded(f.drop_last(), channels)
    } else {
        stranded(f.drop_last(), channels).push(f.last().0.assignment_id@)
    }
}

/// The channels after worker `wid` registers.
pub open spec fn add_channel(ch: Seq<Seq<char>>, wid: Seq<char>) -> Seq<Seq<char>> {
    if ch.contains(wid) {
        ch
    } else {
        ch.push(wid)
    }
}

/// The logs of assignment `aid`, oldest first.
pub open spec fn logs_of(l: Seq<(Seq<char>, Seq<TaskLogEntry>)>, aid: Seq<char>) -> Seq<TaskLogEntry> {
    if exists|i: int| 0 <= i < l.len() && l[i].0 == aid {
        l[log_pos(l, aid)].1
    } else {
        Seq::empty()
    }
}

/// The first position of the logs of `aid`.
pub open spec fn log_pos(l: Seq<(Seq<char>, Seq<TaskLogEntry>)>, aid: Seq<char>) -> int {
    choose|i: int| 0 <= i < l.len() && l[i].0 == aid && forall|k: int| 0 <= k < i ==> l[k].0 != aid
}

/// The logs after `e` arrives.
pub open spec fn log_append(l: Seq<(Seq<char>, Seq<TaskLogEntry>)>, e: TaskLogEntry) -> Seq<
    (Seq<char>, Seq<TaskLogEntry>),
> {
    let aid = e.assignment_id@;
    if exists|i: int| 0 <= i < l.len() && l[i].0 == aid {
        l.update(log_pos(l, aid), (aid, l[log_pos(l, aid)].1.push(e)))
    } else {
        l.push((aid, seq![e]))
    }
}

/// The coordinator over plain values.
pub struct CoordinatorModel {
    pub pool: PoolModel,
    pub pending: Seq<Queued>,
    pub inflight: Seq<Running>,
    pub channels: Seq<Seq<char>>,
    pub logs: Seq<(Seq<char>, Seq<TaskLogEntry>)>,
    pub max_queue_size: nat,
}

/// The round-robin position after a selection for `pool`.
pub open spec fn select_next(m: PoolModel, pool: Seq<char>) -> nat {
    if m.strategy == RoutingStrategy::RoundRobin && count_candidates(m.workers, pool) > 0 {
        (m.next_index + 1) % count_candidates(m.workers, pool)
    } else {
        m.next_index
    }
}

/// What submitting `assignment` to `pool` did, from `m` to `after`: sent to
/// the worker the routing strategy picks in the pool (`default` when the
/// pool is empty) when one is free, else queued, or dropped when the queue
/// is full.
pub open spec fn submit_outcome(
    m: CoordinatorModel,
    after: CoordinatorModel,
    assignment: TaskAssignment,
    pool: Seq<char>,
    r: SubmitOutcome,
) -> bool {
    let p = if pool.len() == 0 { "default"@ } else { pool };
    let aid = assignment.assignment_id@;
    &&& (r is Dispatched) <==> count_candidates(m.pool.workers, p) > 0
    &&& match r {
        SubmitOutcome::Dispatched(w) => {
            &&& exists|i: int|
                picked(m.pool.workers, p, m.pool.strategy, m.pool.next_index, i)
                    && #[trigger] m.pool.workers[i].id == w@
            &&& after == (CoordinatorModel {
                pool: PoolModel {
                    workers: assign_workers(m.pool.workers, aid, w@),
                    assignments: assign_pairs(m.pool.assignments, aid, w@),
                    strategy: m.pool.strategy,
                    next_index: select_next(m.pool, p),
                },
                inflight: inflight_insert(m.inflight, assignment, w@, p),
                ..m
            })
        },
        SubmitOutcome::Queued => {
            &&& m.pending.len() < m.max_queue_size
            &&& after == (CoordinatorModel { pending: m.pending.push((assignment, p)), ..m })
        },
        SubmitOutcome::Dropped => {
            &&& m.pending.len() >= m.max_queue_size
            &&& after == m
        },
    }
}

/// The front task of the queue goes to worker `wid`.
pub open spec fn dispatch_front(m: CoordinatorModel, wid: Seq<char>) -> CoordinatorModel {
    let a = m.pending[0].0;
    let pool = m.pending[0].1;
    let aid = a.assignment_id@;
    CoordinatorModel {
        pool: PoolModel {
            workers: assign_workers(m.pool.workers, aid, wid),
            assignments: assign_pairs(m.pool.assignments, aid, wid),
            strategy: m.pool.strategy,
            next_index: select_next(m.pool, pool),
        },
        pending: m.pending.drop_first(),
        inflight: inflight_insert(m.inflight, a, wid, pool),
        ..m
    }
}

/// The coordinator after the queued tasks of `sent` went, front first, to
/// their workers.
pub open spec fn drain_after(m: CoordinatorModel, sent: Seq<(Seq<char>, Seq<char>)>) -> CoordinatorModel
    decreases sent.len(),
{
    if sent.len() == 0 {
        m
    } else {
        dispatch_front(drain_after(m, sent.drop_last()), sent.last().1)
    }
}

/// Each step of `sent` took the front task of the queue to the worker the
/// routing strategy picks for its pool.
pub open spec fn drain_ok(m: CoordinatorModel, sent: Seq<(Seq<char>, Seq<char>)>) -> bool
    decreases sent.len(),
{
    if sent.len() == 0 {
        true
    } else {
        let k = drain_after(m, sent.drop_last());
        &&& drain_ok(m, sent.drop_last())
        &&& k.pending.len() > 0
        &&& sent.last().0 == k.pending[0].0.assignment_id@
        &&& exists|i: int|
            picked(k.pool.workers, k.pending[0].1, k.pool.strategy, k.pool.next_index, i)
                && #[trigger] k.pool.workers[i].id == sent.last().1
    }
}

/// `after` is `before` with its queue drained as far as workers are free:
/// the tasks of `sent` went out front first, and the task left in front, if
/// any, finds no free worker.
pub open spec fn drained(before: CoordinatorModel, after: CoordinatorModel, sent: Seq<(Seq<char>, Seq<char>)>) -> bool {
    &&& drain_ok(before, sent)
    &&& after == drain_after(before, sent)
    &&& after.pending.len() > 0 ==> count_candidates(after.pool.workers, after.pending[0].1) == 0
}

/// The pool and channels after each worker of `dead` is removed in turn.
pub open spec fn drop_all(p: PoolModel, ch: Seq<Seq<char>>, dead: Seq<Seq<char>>) -> (PoolModel, Seq<Seq<char>>)
    decreases dead.len(),
{
    if dead.len() == 0 {
        (p, ch)
    } else {
        let r = drop_all(p, ch, dead.drop_last());
        let w = dead.last();
        (
            PoolModel {
                workers: remove_workers(r.0.workers, w),
                assignments: drop_worker_pairs(r.0.assignments, w),
                ..r.0
            },
            without(r.1, w),
        )
    }
}

/// The coordinator after the workers of `dead` are dropped: their tasks go
/// back to the front of the queue, then the workers and their channels go,
/// then every task still running on a worker without a channel goes back
/// too.
pub open spec fn after_losing(m: CoordinatorModel, dead: Seq<Seq<char>>) -> CoordinatorModel {
    let st1 = requeue_all((m.inflight, m.pending), orphans(m.pool.assignments, dead));
    let d = drop_all(m.pool, m.channels, dead);
    let st2 = requeue_all(st1, stranded(st1.0, d.1));
    CoordinatorModel { pool: d.0, pending: st2.1, inflight: st2.0, channels: d.1, ..m }
}

/// The coordinator as a health check at time `now` leaves it, before the
/// queue is drained.
pub open spec fn health_step(m: CoordinatorModel, now: i64) -> CoordinatorModel {
    let checked = CoordinatorModel {
        pool: PoolModel { workers: health_workers(m.pool.workers, now), ..m.pool },
        ..m
    };
    after_losing(checked, newly_dead(m.pool.workers, now))
}


/// The running tasks, keyed by assignment id.
pub struct InflightTable {
    tasks: Vec<InflightTask>,
}

impl InflightTable {
    #[verifier::type_invariant]
    spec fn keyed(self) -> bool {
        inflight_ids_distinct(inflight_view(self.tasks@))
    }

    pub closed spec fn model(self) -> Seq<Running> {
        inflight_view(self.tasks@)
    }

    fn new() -> (t: Self)
        ensures
            t.model() == Seq::<Running>::empty(),
    {
        let t = InflightTable { tasks: Vec::new() };
        assert(inflight_view(t.tasks@) =~= Seq::<Running>::empty());
        t
    }

    /// How many tasks run; no two share an assignment id.
    pub fn len(&self) -> (n: usize)
        ensures
            n == self.model().len(),
            inflight_ids_distinct(self.model()),
    {
        proof {
            use_type_invariant(self);
        }
        self.tasks.len()
    }

    fn get(&self, i: usize) -> (t: &InflightTask)
        requires
            i < self.model().len(),
        ensures
            (t.assignment, t.worker_id@, t.pool@) == self.model()[i as int],
    {
        &self.tasks[i]
    }

    fn find(&self, aid: &str) -> (r: Option<usize>)
        ensures
            match r {
                Some(i) => i < self.model().len() && runs(self.model(), aid@) && run_pos(self.model(), aid@) == i,
                None => !runs(self.model(), aid@),
            },
    {
        let ghost f = inflight_view(self.tasks@);
        let mut i: usize = 0;
        while i < self.tasks.len()
            invariant
                f == inflight_view(self.tasks@),
                i <= f.len(),
                forall|k: int| 0 <= k < i ==> #[trigger] f[k].0.assignment_id@ != aid@,
            decreases self.tasks.len() - i,
        {
            assert(f[i as int].0 == self.tasks@[i as int].assignment);
            if str_eq(self.tasks[i].assignment.assignment_id.as_str(), aid) {
                proof {
                    assert(0 <= i < f.len() && f[i as int].0.assignment_id@ == aid@);
                    let c = run_pos(f, aid@);
                    if c < i {
                        assert(f[c].0.assignment_id@ != aid@);
                    } else if c > i {
                        assert(f[i as int].0.assignment_id@ != aid@);
                    }
                }
                return Some(i);
            }
            i = i + 1;
        }
        None
    }

    /// Records that `assignment` now runs on `wid`.
    fn insert(&mut self, assignment: TaskAssignment, wid: String, pool: String)
        ensures
            final(self).model() == inflight_insert(old(self).model(), assignment, wid@, pool@),
    {
        proof {
            use_type_invariant(&*self);
        }
        let ghost f = inflight_view(self.tasks@);
        let ghost a = assignment;
        let found = self.find(assignment.assignment_id.as_str());
        proof {
            lemma_insert_keeps_ids_distinct(f, a, wid@, pool@);
        }
        let t = InflightTask { assignment, worker_id: wid, pool };
        let mut all: Vec<InflightTask> = Vec::new();
        std::mem::swap(&mut all, &mut self.tasks);
        match found {
            Some(i) => {
                all.set(i, t);
                assert(inflight_view(all@) =~= f.update(i as int, (a, wid@, pool@)));
            },
            None => {
                all.push(t);
                assert(inflight_view(all@) =~= f.push((a, wid@, pool@)));
            },
        }
        self.tasks = all;
    }

    /// Forgets that `aid` runs, handing back what was recorded of it.
    #[verifier::rlimit(50)]
    fn remove(&mut self, aid: &str) -> (r: Option<InflightTask>)
        ensures
            final(self).model() == inflight_remove(old(self).model(), aid@),
            match r {
                Some(t) => runs(old(self).model(), aid@) && (t.assignment, t.worker_id@, t.pool@)
                    == old(self).model()[run_pos(old(self).model(), aid@)],
                None => !runs(old(self).model(), aid@),
            },
    {
        proof {
            use_type_invariant(&*self);
        }
        let ghost f = inflight_view(self.tasks@);
        match self.find(aid) {
            Some(i) => {
                proof {
                    lemma_remove_keeps_ids_distinct(f, i as int);
                }
                let mut all: Vec<InflightTask> = Vec::new();
                std::mem::swap(&mut all, &mut self.tasks);
                let ghost before = all@;
                let t = all.remove(i);
                proof {
                    assert(t == before[i as int]);
                    assert(f[i as int] == (t.assignment, t.worker_id@, t.pool@));
                    assert(inflight_view(all@) =~= f.remove(i as int));
                }
                self.tasks = all;
                Some(t)
            },
            None => None,
        }
    }
}

/// The coordinator's bookkeeping.
pub struct Coordinator {
    config: CoordinatorConfig,
    pool: WorkerPool,
    pending: Vec<PendingTask>,
    inflight: InflightTable,
    channels: Vec<String>,
    task_logs: Vec<(String, Vec<TaskLogEntry>)>,
}

impl Coordinator {
    pub closed spec fn model(self) -> CoordinatorModel {
        CoordinatorModel {
            pool: self.pool.model(),
            pending: pending_view(self.pending@),
            inflight: self.inflight.model(),
            channels: views(self.channels@),
            logs: log_view(self.task_logs@),
            max_queue_size: self.config.max_queue_size as nat,
        }
    }

    /// A coordinator with no workers and no tasks.
    pub fn new(config: CoordinatorConfig) -> (c: Self)
        ensures
            c.model().pool.workers.len() == 0,
            c.model().pool.assignments.len() == 0,
            c.model().pool.strategy == config.routing_strategy,
            c.model().pool.next_index == 0,
            c.model().pending.len() == 0,
            c.model().inflight.len() == 0,
            c.model().channels.len() == 0,
            c.model().logs.len() == 0,
            c.model().max_queue_size == config.max_queue_size,
    {
        let c = Coordinator {
            pool: WorkerPool::new(config.routing_strategy),
            pending: Vec::new(),
            inflight: InflightTable::new(),
            channels: Vec::new(),
            task_logs: Vec::new(),
            config,
        };
        assert(pending_view(c.pending@) =~= Seq::<Queued>::empty());
        assert(views(c.channels@) =~= Seq::<Seq<char>>::empty());
        assert(log_view(c.task_logs@) =~= Seq::<(Seq<char>, Seq<TaskLogEntry>)>::empty());
        c
    }

    /// The worker pool.
    pub fn worker_pool(&self) -> (p: &WorkerPool)
        ensures
            p.model() == self.model().pool,
    {
        &self.pool
    }

    /// Tasks waiting for a worker.
    pub fn pending_count(&self) -> (n: usize)
        ensures
            n == self.model().pending.len(),
    {
        self.pending.len()
    }

    /// Tasks running on workers, each under its own assignment id.
    pub fn inflight_count(&self) -> (n: usize)
        ensures
            n == self.model().inflight.len(),
            inflight_ids_distinct(self.model().inflight),
    {
        self.inflight.len()
    }
    /// The assignment running as `aid`, for the caller to send to its worker.
    pub fn inflight_assignment(&self, aid: &str) -> (r: Option<&TaskAssignment>)
        ensures
            match r {
                Some(a) => runs(self.model().inflight, aid@) && *a == self.model().inflight[run_pos(
                    self.model().inflight,
                    aid@,
                )].0,
                None => !runs(self.model().inflight, aid@),
            },
    {
        match self.inflight.find(aid) {
            Some(i) => Some(&self.inflight.get(i).assignment),
            None => None,
        }
    }

    /// Puts a running task back at the front of the queue, to go to another
    /// worker; an unknown id changes nothing.
    fn reassign_task(&mut self, assignment_id: &str)
        ensures
            ({
                let st = requeue((old(self).model().inflight, old(self).model().pending), assignment_id@);
                final(self).model() == (CoordinatorModel {
                    inflight: st.0,
                    pending: st.1,
                    ..old(self).model()
                })
            }),
    {
        if let Some(t) = self.inflight.remove(assignment_id) {
            let ghost before = pending_view(self.pending@);
            let ghost a = t.assignment;
            let ghost pl = t.pool@;
            self.pending.insert(0, PendingTask { assignment: t.assignment, pool: t.pool });
            assert(pending_view(self.pending@) =~= seq![(a, pl)] + before);
        }
    }

    /// Registers a worker at time `now_ms` (see `WorkerPool::register_at`)
    /// and opens its channel.
    pub fn register_worker_at(&mut self, req: &RegisterRequest, now_ms: i64)
        ensures
            final(self).model() == (CoordinatorModel {
                pool: PoolModel {
                    workers: register_step(old(self).model().pool.workers, *req, now_ms),
                    ..old(self).model().pool
                },
                channels: add_channel(old(self).model().channels, req.worker_id@),
                ..old(self).model()
            }),
    {
        self.pool.register_at(req, now_ms);
        let ghost ch = views(self.channels@);
        let mut found = false;
        let mut i: usize = 0;
        while i < self.channels.len()
            invariant
                ch == views(self.channels@),
                i <= ch.len(),
                found <==> exists|k: int| 0 <= k < i && ch[k] == req.worker_id@,
            decreases self.channels.len() - i,
        {
            assert(ch[i as int] == self.channels@[i as int]@);
            if str_eq(self.channels[i].as_str(), req.worker_id.as_str()) {
                found = true;
            }
            i = i + 1;
        }
        if !found {
            self.channels.push(req.worker_id.clone());
            assert(views(self.channels@) =~= ch.push(req.worker_id@));
        }
    }

    /// Registers a worker now (see `register_worker_at`).
    pub fn register_worker(&mut self, req: &RegisterRequest)
        ensures
            exists|now: i64|
                final(self).model() == (CoordinatorModel {
                    pool: PoolModel {
                        workers: #[trigger] register_step(old(self).model().pool.workers, *req, now),
                        ..old(self).model().pool
                    },
                    channels: add_channel(old(self).model().channels, req.worker_id@),
                    ..old(self).model()
                }),
    {
        let now = now_millis();
        self.register_worker_at(req, now);
    }

    /// Takes a heartbeat received at `now_ms` and acknowledges it with that
    /// time.
    pub fn handle_heartbeat_at(&mut self, hb: &WorkerHeartbeat, now_ms: i64) -> (d: CoordinatorDirective)
        ensures
            final(self).model() == (CoordinatorModel {
                pool: PoolModel {
                    workers: heartbeat_step(old(self).model().pool.workers, *hb, now_ms),
                    ..old(self).model().pool
                },
                ..old(self).model()
            }),
            d == (CoordinatorDirective::HeartbeatAck { timestamp_ms: now_ms }),
    {
        self.pool.heartbeat_at(hb, now_ms);
        CoordinatorDirective::HeartbeatAck { timestamp_ms: now_ms }
    }

    /// Takes a heartbeat now (see `handle_heartbeat_at`).
    pub fn handle_heartbeat(&mut self, hb: &WorkerHeartbeat) -> (d: CoordinatorDirective)
        ensures
            exists|now: i64|
                final(self).model() == (CoordinatorModel {
                    pool: PoolModel {
                        workers: #[trigger] heartbeat_step(old(self).model().pool.workers, *hb, now),
                        ..old(self).model().pool
                    },
                    ..old(self).model()
                }) && d == (CoordinatorDirective::HeartbeatAck { timestamp_ms: now }),
    {
        let now = now_millis();
        self.handle_heartbeat_at(hb, now)
    }
    /// Submits a task: sent to a worker of its pool (`default` when the pool
    /// is empty) when one is free, else queued, or dropped when the queue is
    /// full.
    pub fn submit_task(&mut self, assignment: TaskAssignment, pool: &str) -> (r: SubmitOutcome)
        ensures
            submit_outcome(old(self).model(), final(self).model(), assignment, pool@, r),
    {
        let pool_name = effective_pool(pool);
        proof {
            use_type_invariant(&self.pool);
            WorkerPool::lemma_wf(self.pool);
        }
        let ghost m = self.model();
        match self.pool.select_worker(pool_name.as_str()) {
            Some(w) => {
                proof {
                    let i = choose|i: int|
                        picked(m.pool.workers, pool_name@, m.pool.strategy, m.pool.next_index, i)
                            && #[trigger] m.pool.workers[i].id == w@;
                    lemma_picked_has_room(m.pool.workers, pool_name@, m.pool.strategy, m.pool.next_index, i);
                }
                self.pool.assign_task(assignment.assignment_id.as_str(), w.as_str());
                self.inflight.insert(assignment, w.clone(), pool_name);
                SubmitOutcome::Dispatched(w)
            },
            None => {
                if self.pending.len() >= self.config.max_queue_size {
                    return SubmitOutcome::Dropped;
                }
                let ghost before = pending_view(self.pending@);
                let ghost a = assignment;
                let ghost pl = pool_name@;
                self.pending.push(PendingTask { assignment, pool: pool_name });
                assert(pending_view(self.pending@) =~= before.push((a, pl)));
                SubmitOutcome::Queued
            },
        }
    }

    /// Sends queued tasks to free workers, front first, until the front task
    /// finds none; returns each task sent (assignment id, worker id), in
    /// order.
    fn drain_pending_queue(&mut self) -> (sent: Vec<(String, String)>)
        ensures
            drained(old(self).model(), final(self).model(), pair_models(sent@)),
    {
        let ghost m0 = self.model();
        let mut sent: Vec<(String, String)> = Vec::new();
        let mut stopped = false;
        assert(pair_models(sent@) =~= Seq::<(Seq<char>, Seq<char>)>::empty());
        while self.pending.len() > 0 && !stopped
            invariant
                drain_ok(m0, pair_models(sent@)),
                self.model() == drain_after(m0, pair_models(sent@)),
                stopped ==> self.model().pending.len() > 0 && count_candidates(
                    self.model().pool.workers,
                    self.model().pending[0].1,
                ) == 0,
            decreases self.pending@.len(), if stopped { 0int } else { 1int },
        {
            proof {
                use_type_invariant(&self.pool);
                WorkerPool::lemma_wf(self.pool);
            }
            let ghost m = self.model();
            let ghost sv = pair_models(sent@);
            assert(m.pending[0] == (self.pending@[0].assignment, self.pending@[0].pool@));
            match self.pool.select_worker(self.pending[0].pool.as_str()) {
                Some(w) => {
                    proof {
                        let j = choose|j: int|
                            picked(m.pool.workers, m.pending[0].1, m.pool.strategy, m.pool.next_index, j)
                                && #[trigger] m.pool.workers[j].id == w@;
                        lemma_picked_has_room(m.pool.workers, m.pending[0].1, m.pool.strategy, m.pool.next_index, j);
                    }
                    let ghost pend = self.pending@;
                    let t = self.pending.remove(0);
                    proof {
                        assert(t == pend[0]);
                        assert(pending_view(self.pending@) =~= m.pending.drop_first());
                    }
                    let aid = t.assignment.assignment_id.clone();
                    self.pool.assign_task(aid.as_str(), w.as_str());
                    self.inflight.insert(t.assignment, w.clone(), t.pool);
                    sent.push((aid, w));
                    proof {
                        assert(pair_models(sent@).drop_last() =~= sv);
                        assert(self.model() == dispatch_front(m, pair_models(sent@).last().1));
                    }
                },
                None => {
                    stopped = true;
                },
            }
        }
        sent
    }

    /// Records a worker's report: the pool counts the task as completed or
    /// failed, it stops running, and the queue is drained into the room it
    /// left; returns the tasks sent.
    pub fn handle_result(&mut self, result: &TaskResult) -> (sent: Vec<(String, String)>)
        requires
            complete_fits(old(self).model().pool.workers, old(self).model().pool.assignments, result.assignment_id@),
        ensures
            ({
                let m = old(self).model();
                let aid = result.assignment_id@;
                let success = result.outcome == TaskOutcome::Success;
                let m1 = CoordinatorModel {
                    pool: PoolModel {
                        workers: complete_workers(m.pool.workers, m.pool.assignments, aid, success),
                        assignments: complete_pairs(m.pool.assignments, aid),
                        ..m.pool
                    },
                    inflight: inflight_remove(m.inflight, aid),
                    ..m
                };
                drained(m1, final(self).model(), pair_models(sent@))
            }),
    {
        let success = result.outcome == TaskOutcome::Success;
        self.pool.complete_task(result.assignment_id.as_str(), success);
        let _ = self.inflight.remove(result.assignment_id.as_str());
        self.drain_pending_queue()
    }
    fn find_log(&self, aid: &str) -> (r: Option<usize>)
        ensures
            match r {
                Some(i) => i < self.model().logs.len() && self.model().logs[i as int].0 == aid@ && (exists|k: int|
                    0 <= k < self.model().logs.len() && self.model().logs[k].0 == aid@) && log_pos(
                    self.model().logs,
                    aid@,
                ) == i,
                None => !exists|k: int| 0 <= k < self.model().logs.len() && self.model().logs[k].0 == aid@,
            },
    {
        let ghost l = log_view(self.task_logs@);
        let mut i: usize = 0;
        while i < self.task_logs.len()
            invariant
                l == log_view(self.task_logs@),
                i <= l.len(),
                forall|k: int| 0 <= k < i ==> #[trigger] l[k].0 != aid@,
            decreases self.task_logs.len() - i,
        {
            assert(l[i as int].0 == self.task_logs@[i as int].0@);
            if str_eq(self.task_logs[i].0.as_str(), aid) {
                proof {
                    let c = log_pos(l, aid@);
                    assert(0 <= i < l.len() && l[i as int].0 == aid@);
                    if c < i {
                        assert(l[c].0 != aid@);
                    } else if c > i {
                        assert(l[i as int].0 != aid@);
                    }
                }
                return Some(i);
            }
            i = i + 1;
        }
        None
    }

    /// Keeps a log line a worker forwarded.
    #[verifier::rlimit(50)]
    pub fn handle_log_entry(&mut self, entry: TaskLogEntry)
        ensures
            final(self).model() == (CoordinatorModel {
                logs: log_append(old(self).model().logs, entry),
                ..old(self).model()
            }),
    {
        let ghost l = log_view(self.task_logs@);
        let ghost e = entry;
        match self.find_log(entry.assignment_id.as_str()) {
            Some(i) => {
                let mut all: Vec<(String, Vec<TaskLogEntry>)> = Vec::new();
                std::mem::swap(&mut all, &mut self.task_logs);
                let ghost before = all@;
                let (key, mut lines) = all.remove(i);
                assert(key@ == l[i as int].0 && lines@ == l[i as int].1) by {
                    assert(before[i as int] == (key, lines));
                }
                lines.push(entry);
                all.insert(i, (key, lines));
                assert(log_view(all@) =~= l.update(i as int, (l[i as int].0, l[i as int].1.push(e))));
                assert(l[i as int].0 == e.assignment_id@);
                assert(log_view(all@) == log_append(l, e));
                self.task_logs = all;
            },
            None => {
                let key = entry.assignment_id.clone();
                let mut lines: Vec<TaskLogEntry> = Vec::new();
                lines.push(entry);
                self.task_logs.push((key, lines));
                assert(log_view(self.task_logs@) =~= l.push((e.assignment_id@, seq![e])));
                assert(log_view(self.task_logs@) == log_append(l, e));
            },
        }
    }

    /// The log lines kept for an assignment, oldest first.
    pub fn get_logs(&self, assignment_id: &str) -> (r: Vec<TaskLogEntry>)
        ensures
            r@ == logs_of(self.model().logs, assignment_id@),
    {
        match self.find_log(assignment_id) {
            Some(i) => {
                let lines = &self.task_logs[i].1;
                assert(lines@ == self.model().logs[i as int].1);
                let mut r: Vec<TaskLogEntry> = Vec::new();
                let mut j: usize = 0;
                while j < lines.len()
                    invariant
                        j <= lines@.len(),
                        r@ == lines@.take(j as int),
                    decreases lines.len() - j,
                {
                    r.push(lines[j].copy());
                    assert(r@ =~= lines@.take(j + 1));
                    j = j + 1;
                }
                assert(lines@.take(lines@.len() as int) =~= lines@);
                r
            },
            None => Vec::new(),
        }
    }

    /// The report on the cluster, with the tasks running and the uptime the
    /// caller measured.
    pub fn cluster_status(&self, uptime_secs: u64) -> (c: ClusterStatusResponse)
        requires
            sum_running(self.model().pool.workers) <= u32::MAX,
        ensures
            c.health == crate::worker_pool::health_of(
                crate::worker_pool::count_active(self.model().pool.workers),
                self.model().pool.workers.len(),
            ),
            c.workers@.len() == self.model().pool.workers.len(),
            forall|i: int|
                0 <= i < c.workers@.len() ==> #[trigger] crate::worker_pool::status_of(c.workers@[i])
                    == crate::worker_pool::status_model(self.model().pool.workers[i]),
            c.active_runs == 0,
            c.running_tasks == self.model().inflight.len() as u32,
            c.queued_tasks == 0,
            c.uptime_secs == uptime_secs,
    {
        let mut status = self.pool.cluster_status(uptime_secs);
        status.running_tasks = self.inflight.len() as u32;
        status
    }
    /// Puts each of the running tasks `aids` back at the front of the queue,
    /// in turn.
    fn requeue_each(&mut self, aids: &Vec<String>)
        ensures
            ({
                let st = requeue_all((old(self).model().inflight, old(self).model().pending), views(aids@));
                final(self).model() == (CoordinatorModel { inflight: st.0, pending: st.1, ..old(self).model() })
            }),
    {
        let ghost m = self.model();
        let ghost ids = views(aids@);
        let mut i: usize = 0;
        assert(ids.take(0) =~= Seq::<Seq<char>>::empty());
        while i < aids.len()
            invariant
                ids == views(aids@),
                i <= ids.len(),
                ({
                    let st = requeue_all((m.inflight, m.pending), ids.take(i as int));
                    self.model() == (CoordinatorModel { inflight: st.0, pending: st.1, ..m })
                }),
            decreases aids.len() - i,
        {
            self.reassign_task(aids[i].as_str());
            assert(ids.take(i + 1).drop_last() =~= ids.take(i as int));
            i = i + 1;
        }
        assert(ids.take(i as int) =~= ids);
    }

    /// Whether worker `wid` has a channel.
    fn has_channel(&self, wid: &str) -> (b: bool)
        ensures
            b == self.model().channels.contains(wid@),
    {
        let ghost ch = views(self.channels@);
        let mut i: usize = 0;
        while i < self.channels.len()
            invariant
                ch == views(self.channels@),
                i <= ch.len(),
                forall|k: int| 0 <= k < i ==> #[trigger] ch[k] != wid@,
            decreases self.channels.len() - i,
        {
            assert(ch[i as int] == self.channels@[i as int]@);
            if str_eq(self.channels[i].as_str(), wid) {
                return true;
            }
            i = i + 1;
        }
        false
    }

    /// The ids of the running tasks whose worker has no channel.
    fn stranded_ids(&self) -> (r: Vec<String>)
        ensures
            views(r@) == stranded(self.model().inflight, self.model().channels),
    {
        let ghost f = self.model().inflight;
        let ghost ch = self.model().channels;
        let mut r: Vec<String> = Vec::new();
        let mut i: usize = 0;
        assert(f.take(0) =~= Seq::<Running>::empty());
        assert(views(r@) =~= Seq::<Seq<char>>::empty());
        while i < self.inflight.len()
            invariant
                f == self.model().inflight,
                ch == self.model().channels,
                i <= f.len(),
                views(r@) == stranded(f.take(i as int), ch),
            decreases f.len() - i,
        {
            assert(f.take(i + 1).drop_last() =~= f.take(i as int));
            assert(f.take(i + 1).last() == f[i as int]);
            let t = self.inflight.get(i);
            if !self.has_channel(t.worker_id.as_str()) {
                let ghost before = views(r@);
                r.push(t.assignment.assignment_id.clone());
                assert(views(r@) =~= before.push(f[i as int].0.assignment_id@));
            }
            i = i + 1;
        }
        assert(f.take(i as int) =~= f);
        r
    }

    /// Removes each worker of `dead` and its channel, in turn.
    fn drop_dead_workers(&mut self, dead: &Vec<String>)
        ensures
            ({
                let d = drop_all(old(self).model().pool, old(self).model().channels, views(dead@));
                final(self).model() == (CoordinatorModel { pool: d.0, channels: d.1, ..old(self).model() })
            }),
    {
        let ghost m = self.model();
        let ghost ids = views(dead@);
        let mut i: usize = 0;
        assert(ids.take(0) =~= Seq::<Seq<char>>::empty());
        while i < dead.len()
            invariant
                ids == views(dead@),
                i <= ids.len(),
                ({
                    let d = drop_all(m.pool, m.channels, ids.take(i as int));
                    self.model() == (CoordinatorModel { pool: d.0, channels: d.1, ..m })
                }),
            decreases dead.len() - i,
        {
            let kept = strings_without(&self.channels, dead[i].as_str());
            self.channels = kept;
            self.pool.remove_worker(dead[i].as_str());
            assert(ids.take(i + 1).drop_last() =~= ids.take(i as int));
            i = i + 1;
        }
        assert(ids.take(i as int) =~= ids);
    }

    /// Puts every running task whose worker has no channel back at the front
    /// of the queue.
    fn reconcile_orphaned_inflight(&mut self)
        ensures
            ({
                let m = old(self).model();
                let st = requeue_all((m.inflight, m.pending), stranded(m.inflight, m.channels));
                final(self).model() == (CoordinatorModel { inflight: st.0, pending: st.1, ..m })
            }),
    {
        let ids = self.stranded_ids();
        self.requeue_each(&ids);
    }

    /// Drops the workers in `dead` (their tasks back to the front of the
    /// queue, their channels closed) and requeues the tasks left running on
    /// a worker without a channel.
    fn lose_workers(&mut self, dead: &Vec<String>)
        ensures
            final(self).model() == after_losing(old(self).model(), views(dead@)),
    {
        if dead.len() > 0 {
            let orph = self.pool.orphaned_assignments(dead.as_slice());
            self.requeue_each(&orph);
            self.drop_dead_workers(dead);
        } else {
            proof {
                lemma_no_orphans(self.model().pool.assignments);
                assert(views(dead@) =~= Seq::<Seq<char>>::empty());
            }
        }
        self.reconcile_orphaned_inflight();
    }

    /// Runs a health check at time `now_ms`: workers silent too long are
    /// declared dead and dropped, their tasks and any stranded on a worker
    /// without a channel go back to the front of the queue, and the queue is
    /// drained; returns the tasks sent.
    pub fn health_check_at(&mut self, now_ms: i64) -> (sent: Vec<(String, String)>)
        ensures
            drained(health_step(old(self).model(), now_ms), final(self).model(), pair_models(sent@)),
    {
        let dead = self.pool.check_health_at(now_ms);
        self.lose_workers(&dead);
        self.drain_pending_queue()
    }

    /// Runs a health check now (see `health_check_at`).
    pub fn health_check(&mut self) -> (sent: Vec<(String, String)>)
        ensures
            exists|now: i64|
                drained(#[trigger] health_step(old(self).model(), now), final(self).model(), pair_models(sent@)),
    {
        let now = now_millis();
        self.health_check_at(now)
    }

    /// A worker's stream dropped: its tasks go back to the front of the
    /// queue at once, the worker and its channel go, and the queue is
    /// drained; returns the tasks sent.
    pub fn handle_worker_disconnect(&mut self, worker_id: &str) -> (sent: Vec<(String, String)>)
        ensures
            ({
                let m = old(self).model();
                let st = requeue_all((m.inflight, m.pending), orphans(m.pool.assignments, seq![worker_id@]));
                let d = drop_all(m.pool, m.channels, seq![worker_id@]);
                let mid = CoordinatorModel { pool: d.0, channels: d.1, inflight: st.0, pending: st.1, ..m };
                drained(mid, final(self).model(), pair_models(sent@))
            }),
    {
        let mut ids: Vec<String> = Vec::new();
        ids.push(owned(worker_id));
        assert(views(ids@) =~= seq![worker_id@]);
        let orph = self.pool.orphaned_assignments(ids.as_slice());
        self.requeue_each(&orph);
        self.drop_dead_workers(&ids);
        self.drain_pending_queue()
    }
}

/// With no dead workers there are no orphans.
proof fn lemma_no_orphans(a: Seq<(Seq<char>, Seq<char>)>)
    ensures
        orphans(a, Seq::empty()) == Seq::<Seq<char>>::empty(),
    decreases a.len(),
{
    if a.len() > 0 {
        lemma_no_orphans(a.drop_last());
    }
}

/// Draining the queue takes tasks from its front, in order: the tasks sent
/// are the first ones queued, and the rest stay queued in their order.
pub proof fn law_drain_takes_queue_front(m: CoordinatorModel, sent: Seq<(Seq<char>, Seq<char>)>)
    requires
        drain_ok(m, sent),
    ensures
        sent.len() <= m.pending.len(),
        drain_after(m, sent).pending == m.pending.skip(sent.len() as int),
        forall|k: int| 0 <= k < sent.len() ==> #[trigger] sent[k].0 == m.pending[k].0.assignment_id@,
    decreases sent.len(),
{
    if sent.len() == 0 {
        assert(m.pending.skip(0) =~= m.pending);
    } else {
        let prev = sent.drop_last();
        law_drain_takes_queue_front(m, prev);
        let n = sent.len() - 1;
        let k = drain_after(m, prev);
        assert(k.pending[0] == m.pending[n]);
        assert(k.pending.drop_first() =~= m.pending.skip(sent.len() as int));
        assert forall|j: int| 0 <= j < sent.len() implies #[trigger] sent[j].0 == m.pending[j].0.assignment_id@ by {
            if j < n {
                assert(prev[j] == sent[j]);
            }
        }
    }
}

proof fn lemma_insert_keeps_ids_distinct(f: Seq<Running>, a: TaskAssignment, wid: Seq<char>, pool: Seq<char>)
    requires
        inflight_ids_distinct(f),
    ensures
        inflight_ids_distinct(inflight_insert(f, a, wid, pool)),
{
    let g = inflight_insert(f, a, wid, pool);
    if runs(f, a.assignment_id@) {
        let c = run_pos(f, a.assignment_id@);
        assert forall|i: int, j: int| 0 <= i < j < g.len() implies #[trigger] g[i].0.assignment_id@
            != #[trigger] g[j].0.assignment_id@ by {
            if i != c && j != c {
                assert(f[i].0.assignment_id@ != f[j].0.assignment_id@);
            } else if i == c {
                assert(f[c].0.assignment_id@ != f[j].0.assignment_id@);
            } else {
                assert(f[i].0.assignment_id@ != f[c].0.assignment_id@);
            }
        }
    } else {
        assert forall|i: int, j: int| 0 <= i < j < g.len() implies #[trigger] g[i].0.assignment_id@
            != #[trigger] g[j].0.assignment_id@ by {
            if j == f.len() {
                assert(f[i].0.assignment_id@ != a.assignment_id@);
            } else {
                assert(f[i].0.assignment_id@ != f[j].0.assignment_id@);
            }
        }
    }
}

proof fn lemma_remove_keeps_ids_distinct(f: Seq<Running>, k: int)
    requires
        inflight_ids_distinct(f),
        0 <= k < f.len(),
    ensures
        inflight_ids_distinct(f.remove(k)),
{
    let g = f.remove(k);
    assert forall|i: int, j: int| 0 <= i < j < g.len() implies #[trigger] g[i].0.assignment_id@
        != #[trigger] g[j].0.assignment_id@ by {
        let fi = if i < k { i } else { i + 1 };
        let fj = if j < k { j } else { j + 1 };
        assert(g[i] == f[fi] && g[j] == f[fj]);
        assert(f[fi].0.assignment_id@ != f[fj].0.assignment_id@);
    }
}

/// The running tasks whose worker has a channel, in order.
pub open spec fn kept(f: Seq<Running>, channels: Seq<Seq<char>>) -> Seq<Running>
    decreases f.len(),
{
    if f.len() == 0 {
        f
    } else if channels.contains(f.last().1) {
        kept(f.drop_last(), channels).push(f.last())
    } else {
        kept(f.drop_last(), channels)
    }
}

/// `inflight_remove` of each id in turn.
pub open spec fn remove_all(f: Seq<Running>, aids: Seq<Seq<char>>) -> Seq<Running>
    decreases aids.len(),
{
    if aids.len() == 0 {
        f
    } else {
        inflight_remove(remove_all(f, aids.drop_last()), aids.last())
    }
}

proof fn lemma_requeue_all_running(st: (Seq<Running>, Seq<Queued>), aids: Seq<Seq<char>>)
    ensures
        requeue_all(st, aids).0 == remove_all(st.0, aids),
    decreases aids.len(),
{
    if aids.len() > 0 {
        lemma_requeue_all_running(st, aids.drop_last());
    }
}

/// A running id has a first position.
proof fn lemma_run_pos(f: Seq<Running>, aid: Seq<char>)
    requires
        runs(f, aid),
    ensures
        0 <= run_pos(f, aid) < f.len(),
        f[run_pos(f, aid)].0.assignment_id@ == aid,
        forall|k: int| 0 <= k < run_pos(f, aid) ==> #[trigger] f[k].0.assignment_id@ != aid,
    decreases f.len(),
{
    let c = first_run(f, aid);
    assert(0 <= c < f.len() && f[c].0.assignment_id@ == aid && forall|k: int|
        0 <= k < c ==> #[trigger] f[k].0.assignment_id@ != aid);
}

/// The first position of `aid`, found by induction.
proof fn first_run(f: Seq<Running>, aid: Seq<char>) -> (c: int)
    requires
        runs(f, aid),
    ensures
        0 <= c < f.len(),
        f[c].0.assignment_id@ == aid,
        forall|k: int| 0 <= k < c ==> #[trigger] f[k].0.assignment_id@ != aid,
    decreases f.len(),
{
    let g = f.drop_last();
    if runs(g, aid) {
        let c = first_run(g, aid);
        assert(f[c] == g[c]);
        assert forall|k: int| 0 <= k < c implies #[trigger] f[k].0.assignment_id@ != aid by {
            assert(f[k] == g[k]);
        }
        c
    } else {
        let c = f.len() - 1;
        let w = choose|i: int| 0 <= i < f.len() && f[i].0.assignment_id@ == aid;
        if w < c {
            assert(g[w] == f[w]);
        }
        assert forall|k: int| 0 <= k < c implies #[trigger] f[k].0.assignment_id@ != aid by {
            assert(f[k] == g[k]);
            if f[k].0.assignment_id@ == aid {
                assert(runs(g, aid));
            }
        }
        c
    }
}

/// Removing an id other than that of the last task commutes with adding it.
proof fn lemma_remove_before_push(f: Seq<Running>, x: Running, aid: Seq<char>)
    requires
        aid != x.0.assignment_id@,
    ensures
        inflight_remove(f.push(x), aid) == inflight_remove(f, aid).push(x),
{
    let g = f.push(x);
    if runs(f, aid) {
        lemma_run_pos(f, aid);
        let c0 = run_pos(f, aid);
        assert(g[c0] == f[c0]);
        assert(runs(g, aid));
        lemma_run_pos(g, aid);
        let c1 = run_pos(g, aid);
        if c1 < c0 {
            assert(g[c1] == f[c1]);
        } else if c1 > c0 {
            assert(g[c0].0.assignment_id@ == aid);
        }
        assert(g.remove(c0) =~= f.remove(c0).push(x));
    } else {
        assert(!runs(g, aid)) by {
            if runs(g, aid) {
                let w = choose|i: int| 0 <= i < g.len() && g[i].0.assignment_id@ == aid;
                assert(w < f.len());
                assert(g[w] == f[w]);
            }
        }
    }
}

proof fn lemma_remove_all_before_push(f: Seq<Running>, x: Running, aids: Seq<Seq<char>>)
    requires
        forall|k: int| 0 <= k < aids.len() ==> #[trigger] aids[k] != x.0.assignment_id@,
    ensures
        remove_all(f.push(x), aids) == remove_all(f, aids).push(x),
    decreases aids.len(),
{
    if aids.len() > 0 {
        let prev = aids.drop_last();
        assert forall|k: int| 0 <= k < prev.len() implies #[trigger] prev[k] != x.0.assignment_id@ by {
            assert(prev[k] == aids[k]);
        }
        lemma_remove_all_before_push(f, x, prev);
        assert(aids.last() == aids[aids.len() - 1]);
        lemma_remove_before_push(remove_all(f, prev), x, aids.last());
    }
}

proof fn lemma_stranded_ids_run(g: Seq<Running>, ch: Seq<Seq<char>>)
    ensures
        forall|k: int|
            0 <= k < stranded(g, ch).len() ==> exists|i: int|
                0 <= i < g.len() && #[trigger] stranded(g, ch)[k] == g[i].0.assignment_id@,
    decreases g.len(),
{
    if g.len() > 0 {
        let h = g.drop_last();
        lemma_stranded_ids_run(h, ch);
        assert forall|k: int| 0 <= k < stranded(g, ch).len() implies exists|i: int|
            0 <= i < g.len() && #[trigger] stranded(g, ch)[k] == g[i].0.assignment_id@ by {
            if k < stranded(h, ch).len() {
                let i = choose|i: int| 0 <= i < h.len() && stranded(h, ch)[k] == h[i].0.assignment_id@;
                assert(h[i] == g[i]);
            } else {
                assert(g[g.len() - 1] == g.last());
            }
        }
    }
}

proof fn lemma_kept_from(g: Seq<Running>, ch: Seq<Seq<char>>)
    ensures
        forall|k: int| 0 <= k < kept(g, ch).len() ==> exists|i: int| 0 <= i < g.len() && #[trigger] kept(g, ch)[k] == g[i],
    decreases g.len(),
{
    if g.len() > 0 {
        let h = g.drop_last();
        lemma_kept_from(h, ch);
        assert forall|k: int| 0 <= k < kept(g, ch).len() implies exists|i: int|
            0 <= i < g.len() && #[trigger] kept(g, ch)[k] == g[i] by {
            if k < kept(h, ch).len() {
                let i = choose|i: int| 0 <= i < h.len() && kept(h, ch)[k] == h[i];
                assert(h[i] == g[i]);
            } else {
                assert(g[g.len() - 1] == g.last());
            }
        }
    }
}

proof fn lemma_requeue_stranded_keeps_rest(f: Seq<Running>, ch: Seq<Seq<char>>)
    requires
        inflight_ids_distinct(f),
    ensures
        remove_all(f, stranded(f, ch)) == kept(f, ch),
    decreases f.len(),
{
    if f.len() > 0 {
        let g = f.drop_last();
        let x = f.last();
        assert(f =~= g.push(x));
        assert(inflight_ids_distinct(g)) by {
            assert forall|i: int, j: int| 0 <= i < j < g.len() implies #[trigger] g[i].0.assignment_id@
                != #[trigger] g[j].0.assignment_id@ by {
                assert(g[i] == f[i] && g[j] == f[j]);
            }
        }
        lemma_requeue_stranded_keeps_rest(g, ch);
        assert forall|i: int| 0 <= i < g.len() implies #[trigger] g[i].0.assignment_id@ != x.0.assignment_id@ by {
            assert(g[i] == f[i] && x == f[f.len() - 1]);
        }
        let sg = stranded(g, ch);
        lemma_stranded_ids_run(g, ch);
        assert forall|k: int| 0 <= k < sg.len() implies #[trigger] sg[k] != x.0.assignment_id@ by {
            let i = choose|i: int| 0 <= i < g.len() && sg[k] == g[i].0.assignment_id@;
            assert(g[i].0.assignment_id@ != x.0.assignment_id@);
        }
        lemma_remove_all_before_push(g, x, sg);
        if !ch.contains(x.1) {
            let a = x.0.assignment_id@;
            let kg = kept(g, ch);
            let h = kg.push(x);
            assert(stranded(f, ch).drop_last() =~= sg);
            assert(stranded(f, ch).last() == a);
            lemma_kept_from(g, ch);
            assert(runs(h, a)) by {
                assert(h[h.len() - 1] == x);
            }
            lemma_run_pos(h, a);
            let c = run_pos(h, a);
            assert(c == kg.len()) by {
                if c < kg.len() {
                    let i = choose|i: int| 0 <= i < g.len() && kg[c] == g[i];
                    assert(h[c] == kg[c]);
                }
            }
            assert(h.remove(c) =~= kg);
        }
    }
}

proof fn lemma_kept_has_none_stranded(f: Seq<Running>, ch: Seq<Seq<char>>)
    ensures
        stranded(kept(f, ch), ch) == Seq::<Seq<char>>::empty(),
    decreases f.len(),
{
    if f.len() > 0 {
        let g = f.drop_last();
        lemma_kept_has_none_stranded(g, ch);
        if ch.contains(f.last().1) {
            let k = kept(f, ch);
            assert(k.drop_last() =~= kept(g, ch));
        }
    }
}

/// Reconciling is idempotent: requeuing the tasks stranded on workers
/// without a channel leaves every other task running as it was and none
/// stranded, so a second pass changes nothing.
pub proof fn law_reconcile_idempotent(f: Seq<Running>, p: Seq<Queued>, ch: Seq<Seq<char>>)
    requires
        inflight_ids_distinct(f),
    ensures
        ({
            let st = requeue_all((f, p), stranded(f, ch));
            &&& st.0 == kept(f, ch)
            &&& stranded(st.0, ch) == Seq::<Seq<char>>::empty()
            &&& requeue_all(st, stranded(st.0, ch)) == st
        }),
{
    lemma_requeue_all_running((f, p), stranded(f, ch));
    lemma_requeue_stranded_keeps_rest(f, ch);
    lemma_kept_has_none_stranded(f, ch);
}

} // verus!
