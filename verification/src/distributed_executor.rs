//! The scheduler's side of distributed execution: dispatch requests become
//! assignments submitted to the coordinator. Assignment ids, the clock and
//! the result channel are the caller's.

use vstd::prelude::*;
use std::collections::HashMap;
use crate::coordinator::{submit_outcome, Coordinator, CoordinatorModel, SubmitOutcome};
use crate::distributed::{CoordinatorConfig, DistributedExecutorConfig};
use crate::proto_types::{
    ClusterStatusResponse, ResourceLimits, TaskAssignment, TaskContext, TaskSpec, TaskType,
};
use crate::clock::now_millis;
use crate::worker_pool::{count_active, health_of, status_model, status_of, sum_running};

verus! {

/// `uuid::Uuid::new_v4` written as text (`Uuid`'s `Display`): a fresh
/// random id. Nothing is stated of it: it is random.
#[verifier::external_body]
fn new_assignment_id() -> (id: String) {
    uuid::Uuid::new_v4().to_string()
}

/// A task the scheduler wants run on a worker. The logical date is in
/// milliseconds since the epoch.
#[derive(Debug, Clone)]
pub struct DispatchRequest {
    pub dag_id: String,
    pub run_id: String,
    pub task_id: String,
    pub attempt: u32,
    pub task_type: TaskType,
    pub script: String,
    pub connection: String,
    pub query: String,
    pub command: String,
    pub args: Vec<String>,
    pub timeout_secs: u64,
    pub pool: String,
    pub logical_date_ms: i64,
    pub environment: String,
    pub params: HashMap<String, String>,
    pub resources: ResourceLimits,
}

impl CoordinatorConfig {
    /// A copy with the same values.
    pub fn copy(&self) -> (c: Self)
        ensures
            c == *self,
    {
        CoordinatorConfig {
            bind_addr: self.bind_addr.clone(),
            health_check_interval_secs: self.health_check_interval_secs,
            routing_strategy: self.routing_strategy,
            max_queue_size: self.max_queue_size,
            task_timeout_secs: self.task_timeout_secs,
            tls_cert_path: match &self.tls_cert_path {
                Some(p) => Some(p.clone()),
                None => None,
            },
            tls_key_path: match &self.tls_key_path {
                Some(p) => Some(p.clone()),
                None => None,
            },
        }
    }
}

impl Coordinator {
    /// The assignment for one attempt of a task, under the id given, due
    /// `timeout_secs` after `now_ms`.
    pub fn create_assignment_at(
        assignment_id: String,
        now_ms: i64,
        dag_id: String,
        run_id: String,
        task_id: String,
        attempt: u32,
        spec: TaskSpec,
        context: TaskContext,
        timeout_secs: u64,
    ) -> (a: TaskAssignment)
        requires
            timeout_secs * 1000 <= i64::MAX,
            i64::MIN <= now_ms + timeout_secs * 1000 <= i64::MAX,
        ensures
            a.assignment_id == assignment_id,
            a.dag_id == dag_id,
            a.run_id == run_id,
            a.task_id == task_id,
            a.attempt == attempt,
            a.spec == spec,
            a.context == context,
            a.deadline_epoch_ms == now_ms + timeout_secs * 1000,
    {
        let window: i64 = (timeout_secs as i64) * 1000;
        TaskAssignment {
            assignment_id,
            dag_id,
            run_id,
            task_id,
            attempt,
            spec,
            context,
            deadline_epoch_ms: now_ms + window,
        }
    }

    /// The assignment for one attempt of a task, under a fresh random id,
    /// due `timeout_secs` from now (its deadline less the timeout is the
    /// clock's reading, an `i64`); `None` when that deadline does not fit in
    /// an `i64` of milliseconds at the clock's reading.
    pub fn create_assignment(
        &self,
        dag_id: &str,
        run_id: &str,
        task_id: &str,
        attempt: u32,
        spec: TaskSpec,
        context: TaskContext,
        timeout_secs: u64,
    ) -> (r: Option<TaskAssignment>)
        ensures
            match r {
                Some(a) => {
                    &&& a.dag_id@ == dag_id@
                    &&& a.run_id@ == run_id@
                    &&& a.task_id@ == task_id@
                    &&& a.attempt == attempt
                    &&& a.spec == spec
                    &&& a.context == context
                    &&& i64::MIN <= a.deadline_epoch_ms - timeout_secs * 1000
                },
                None => timeout_secs > 0,
            },
    {
        let now_ms = now_millis();
        if timeout_secs > 9_223_372_036_854_775 {
            return None;
        }
        let window: i64 = (timeout_secs * 1000) as i64;
        if now_ms > i64::MAX - window {
            return None;
        }
        let id = new_assignment_id();
        Some(
            Coordinator::create_assignment_at(
                id,
                now_ms,
                dag_id.to_string(),
                run_id.to_string(),
                task_id.to_string(),
                attempt,
                spec,
                context,
                timeout_secs,
            ),
        )
    }
}

/// The task spec a dispatch request gives: its fields, with the default
/// timeout when it sets none.
pub open spec fn spec_of(req: DispatchRequest, default_timeout_secs: u64) -> TaskSpec {
    TaskSpec {
        task_type: req.task_type,
        script: req.script,
        connection: req.connection,
        query: req.query,
        command: req.command,
        args: req.args,
        timeout_secs: if req.timeout_secs > 0 {
            req.timeout_secs
        } else {
            default_timeout_secs
        },
        resources: req.resources,
    }
}

/// The run context a dispatch request gives.
pub open spec fn context_of(req: DispatchRequest) -> TaskContext {
    TaskContext {
        dag_id: req.dag_id,
        run_id: req.run_id,
        task_id: req.task_id,
        attempt: req.attempt,
        logical_date_epoch_ms: req.logical_date_ms,
        environment: req.environment,
        params: req.params,
    }
}

/// What dispatching `req` as assignment `assignment_id` at `now_ms` does:
/// the assignment carries the request's spec (the default timeout when it
/// sets none) and context, is due when its timeout runs out, and is
/// submitted to the request's pool (see `submit_outcome`).
pub open spec fn dispatched(
    before: CoordinatorModel,
    after: CoordinatorModel,
    default_timeout: u64,
    req: DispatchRequest,
    assignment_id: String,
    now_ms: i64,
    r: SubmitOutcome,
) -> bool {
    let spec = spec_of(req, default_timeout);
    let a = TaskAssignment {
        assignment_id: assignment_id,
        dag_id: req.dag_id,
        run_id: req.run_id,
        task_id: req.task_id,
        attempt: req.attempt,
        spec: spec,
        context: context_of(req),
        deadline_epoch_ms: (now_ms + spec.timeout_secs * 1000) as i64,
    };
    submit_outcome(before, after, a, req.pool@, r)
}

/// `dispatched`, at some instant that an `i64` of milliseconds holds.
pub open spec fn dispatched_at_some_time(
    before: CoordinatorModel,
    after: CoordinatorModel,
    default_timeout: u64,
    req: DispatchRequest,
    assignment_id: String,
    r: SubmitOutcome,
) -> bool {
    exists|now_ms: i64| #[trigger] dispatched(before, after, default_timeout, req, assignment_id, now_ms, r)
}

/// A deadline `timeout_secs` after `now_ms` does not fit in an `i64` of
/// milliseconds.
pub open spec fn deadline_overflows(timeout_secs: u64, now_ms: i64) -> bool {
    timeout_secs > 9_223_372_036_854_775 || now_ms > i64::MAX - timeout_secs * 1000
}

/// Distributed execution through a coordinator.
pub struct DistributedExecutor {
    config: DistributedExecutorConfig,
    coordinator: Coordinator,
}

impl DistributedExecutor {
    pub closed spec fn default_timeout(self) -> u64 {
        self.config.default_timeout_secs
    }

    pub closed spec fn model(self) -> CoordinatorModel {
        self.coordinator.model()
    }

    /// An executor with a fresh coordinator.
    pub fn new(config: DistributedExecutorConfig) -> (e: Self)
        ensures
            e.default_timeout() == config.default_timeout_secs,
            e.model().pool.workers.len() == 0,
            e.model().pool.assignments.len() == 0,
            e.model().pool.strategy == config.coordinator.routing_strategy,
            e.model().pending.len() == 0,
            e.model().inflight.len() == 0,
            e.model().max_queue_size == config.coordinator.max_queue_size,
    {
        let coordinator = Coordinator::new(config.coordinator.copy());
        DistributedExecutor { config, coordinator }
    }

    /// The coordinator.
    pub fn coordinator(&self) -> (c: &Coordinator)
        ensures
            c.model() == self.model(),
    {
        &self.coordinator
    }

    /// The coordinator, to hand it worker traffic.
    pub fn coordinator_mut(&mut self) -> (c: &mut Coordinator)
        ensures
            c.model() == old(self).model(),
            final(self).model() == final(c).model(),
            final(self).default_timeout() == old(self).default_timeout(),
    {
        &mut self.coordinator
    }

    /// Dispatches a request as assignment `assignment_id`, created at
    /// `now_ms`: the assignment carries the request's spec (default timeout
    /// when it sets none) and context, is due when its timeout runs out, and
    /// is submitted to the request's pool (`default` when empty).
    pub fn dispatch_at(&mut self, req: DispatchRequest, assignment_id: String, now_ms: i64) -> (r: SubmitOutcome)
        requires
            ({
                let t = spec_of(req, old(self).default_timeout()).timeout_secs;
                &&& t * 1000 <= i64::MAX
                &&& i64::MIN <= now_ms + t * 1000 <= i64::MAX
            }),
        ensures
            final(self).default_timeout() == old(self).default_timeout(),
            dispatched(old(self).model(), final(self).model(), old(self).default_timeout(), req, assignment_id, now_ms, r),
    {
        let timeout_secs = if req.timeout_secs > 0 {
            req.timeout_secs
        } else {
            self.config.default_timeout_secs
        };
        let dag_id = req.dag_id.clone();
        let run_id = req.run_id.clone();
        let task_id = req.task_id.clone();
        let spec = TaskSpec {
            task_type: req.task_type,
            script: req.script,
            connection: req.connection,
            query: req.query,
            command: req.command,
            args: req.args,
            timeout_secs,
            resources: req.resources,
        };
        let context = TaskContext {
            dag_id: req.dag_id,
            run_id: req.run_id,
            task_id: req.task_id,
            attempt: req.attempt,
            logical_date_epoch_ms: req.logical_date_ms,
            environment: req.environment,
            params: req.params,
        };
        let assignment = Coordinator::create_assignment_at(
            assignment_id,
            now_ms,
            dag_id,
            run_id,
            task_id,
            req.attempt,
            spec,
            context,
            timeout_secs,
        );
        self.coordinator.submit_task(assignment, req.pool.as_str())
    }

    /// Dispatches a request as assignment `assignment_id` at `now_ms`, as
    /// `dispatch_at` does, when the deadline fits in an `i64` of
    /// milliseconds; `None`, with nothing changed, when it does not.
    pub fn dispatch_checked_at(&mut self, req: DispatchRequest, assignment_id: String, now_ms: i64) -> (r: Option<SubmitOutcome>)
        ensures
            final(self).default_timeout() == old(self).default_timeout(),
            r is None <==> deadline_overflows(spec_of(req, old(self).default_timeout()).timeout_secs, now_ms),
            r is None ==> final(self).model() == old(self).model(),
            r matches Some(o) ==> dispatched(
                old(self).model(),
                final(self).model(),
                old(self).default_timeout(),
                req,
                assignment_id,
                now_ms,
                o,
            ),
    {
        let timeout_secs = if req.timeout_secs > 0 {
            req.timeout_secs
        } else {
            self.config.default_timeout_secs
        };
        if timeout_secs > 9_223_372_036_854_775 {
            return None;
        }
        let window: i64 = (timeout_secs * 1000) as i64;
        if now_ms > i64::MAX - window {
            return None;
        }
        Some(self.dispatch_at(req, assignment_id, now_ms))
    }

    /// Dispatches a request under a fresh random assignment id, created now
    /// (see `dispatched`), and gives the id with the outcome; `None`, with
    /// nothing changed, when the deadline does not fit in an `i64` of
    /// milliseconds at the clock's reading (see `dispatch_checked_at`).
    pub fn dispatch(&mut self, req: DispatchRequest) -> (r: Option<(String, SubmitOutcome)>)
        ensures
            final(self).default_timeout() == old(self).default_timeout(),
            r matches Some(p) ==> dispatched_at_some_time(
                old(self).model(),
                final(self).model(),
                old(self).default_timeout(),
                req,
                p.0,
                p.1,
            ),
            r is None ==> final(self).model() == old(self).model() && exists|now_ms: i64|
                #[trigger] deadline_overflows(spec_of(req, old(self).default_timeout()).timeout_secs, now_ms),
            r is None ==> spec_of(req, old(self).default_timeout()).timeout_secs > 0,
    {
        let now_ms = now_millis();
        let id = new_assignment_id();
        match self.dispatch_checked_at(req, id.clone(), now_ms) {
            Some(outcome) => {
                assert(dispatched(old(self).model(), self.model(), old(self).default_timeout(), req, id, now_ms, outcome));
                Some((id, outcome))
            },
            None => None,
        }
    }

    /// The coordinator's report on the cluster (see
    /// `Coordinator::cluster_status`).
    pub fn cluster_status(&self, uptime_secs: u64) -> (c: ClusterStatusResponse)
        requires
            sum_running(self.model().pool.workers) <= u32::MAX,
        ensures
            c.health == health_of(count_active(self.model().pool.workers), self.model().pool.workers.len()),
            c.workers@.len() == self.model().pool.workers.len(),
            forall|i: int|
                0 <= i < c.workers@.len() ==> #[trigger] status_of(c.workers@[i]) == status_model(
                    self.model().pool.workers[i],
                ),
            c.running_tasks == self.model().inflight.len() as u32,
            c.uptime_secs == uptime_secs,
    {
        self.coordinator.cluster_status(uptime_secs)
    }

    /// Tasks waiting for a worker.
    pub fn pending_count(&self) -> (n: usize)
        ensures
            n == self.model().pending.len(),
    {
        self.coordinator.pending_count()
    }

    /// Tasks running on workers.
    pub fn inflight_count(&self) -> (n: usize)
        ensures
            n == self.model().inflight.len(),
    {
        self.coordinator.inflight_count()
    }
}

} // verus!
