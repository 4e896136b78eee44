//! The events of the append-only event log. Times are milliseconds since
//! the epoch.

use vstd::prelude::*;
use crate::clock::now_millis;

verus! {

#[verifier::external_type_specification]
#[verifier::external_body]
pub struct ExUuid(uuid::Uuid);

/// `Clone` of `uuid::Uuid`, which derives `Clone` and `Copy`: the clone is
/// the same id.
pub assume_specification[<uuid::Uuid as std::clone::Clone>::clone](u: &uuid::Uuid) -> (r: uuid::Uuid)
    ensures
        r == *u,
;

/// `uuid::Uuid::new_v4`: a fresh random id. Nothing is stated of it.
#[verifier::external_body]
fn new_event_id() -> (id: uuid::Uuid) {
    uuid::Uuid::new_v4()
}

/// How a DAG run ended.
#[derive(Debug, Clone, Copy, PartialEq, Eq, Structural)]
pub enum RunStatus {
    Success,
    Failed,
    Cancelled,
}

/// One entry of the event log.
#[derive(Debug, Clone)]
pub struct Event {
    /// Unique id.
    pub id: uuid::Uuid,
    /// Position in the log; rises by one per event.
    pub sequence: u64,
    /// When it happened.
    pub timestamp_ms: i64,
    pub kind: EventKind,
}

/// What happened.
#[derive(Debug, Clone)]
#[allow(inconsistent_fields)]
pub enum EventKind {
    DagRunCreated {
        dag_id: String,
        run_id: String,
        logical_date_ms: i64,
        environment: String,
        triggered_by: String,
    },
    DagRunCompleted { dag_id: String, run_id: String, status: RunStatus, duration_ms: u64 },
    TaskQueued {
        dag_id: String,
        run_id: String,
        task_id: String,
        priority: i32,
        pool: Option<String>,
        snapshot_fingerprint: Option<String>,
    },
    TaskStarted {
        dag_id: String,
        run_id: String,
        task_id: String,
        worker_id: String,
        attempt: u32,
        pid: Option<u32>,
    },
    TaskCompleted {
        dag_id: String,
        run_id: String,
        task_id: String,
        duration_ms: u64,
        snapshot_id: Option<String>,
    },
    TaskFailed {
        dag_id: String,
        run_id: String,
        task_id: String,
        error: String,
        traceback: Option<String>,
        attempt: u32,
    },
    TaskRetrying { dag_id: String, run_id: String, task_id: String, attempt: u32, next_retry_at_ms: i64 },
    TaskSkipped { dag_id: String, run_id: String, task_id: String, reason: String },
    /// A security-relevant authentication event: `auth_failed`,
    /// `permission_denied`, `key_created` or `key_revoked`.
    AuthAudit { action: String, key_id: Option<String>, detail: String },
    SnapshotCreated { snapshot_id: String, fingerprint: String, dag_id: String, task_id: String },
    EnvironmentCreated { env_name: String, based_on: Option<String> },
    EnvironmentPromoted { source_env: String, target_env: String, snapshot_changes: u32 },
    /// Rolled back to the given sequence number.
    EnvironmentRolledBack { env_name: String, rolled_back_to: u64 },
    PlanCreated { plan_id: String, environment: String, changes_count: u32, breaking_changes: u32 },
    PlanApplied { plan_id: String, environment: String, tasks_executed: u32, tasks_skipped: u32 },
}

impl Event {
    /// A new event of the kind, at the log position `sequence`, with a
    /// fresh random id, stamped now.
    pub fn new(sequence: u64, kind: EventKind) -> (e: Event)
        ensures
            e.sequence == sequence,
            e.kind == kind,
    {
        Event { id: new_event_id(), sequence, timestamp_ms: now_millis(), kind }
    }
}

} // verus!
