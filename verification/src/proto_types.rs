//! The messages of the coordinator–worker protocol, as plain Rust types.

use vstd::prelude::*;
use std::collections::HashMap;
use crate::text::owned;

verus! {

/// Lifecycle state of a worker.
#[derive(Debug, Clone, Copy, PartialEq, Eq, Structural)]
pub enum WorkerState {
    Unspecified,
    Active,
    Draining,
    Disconnected,
    Dead,
}

/// Overall health of the cluster.
#[derive(Debug, Clone, Copy, PartialEq, Eq, Structural)]
pub enum ClusterHealth {
    Unspecified,
    Healthy,
    Degraded,
    Unhealthy,
}

/// The kind of task a worker runs.
#[derive(Debug, Clone, Copy, PartialEq, Eq, Structural)]
pub enum TaskType {
    Unspecified,
    Python,
    Bash,
    Sql,
    Sensor,
    Executable,
}

/// How a task ended on a worker.
#[derive(Debug, Clone, Copy, PartialEq, Eq, Structural)]
pub enum TaskOutcome {
    Unspecified,
    Success,
    Failed,
    Retry,
    Skipped,
}

/// Severity of a task log entry sent by a worker.
#[derive(Debug, Clone, Copy, PartialEq, Eq, Structural)]
pub enum LogLevel {
    Unspecified,
    Debug,
    Info,
    Warn,
    Error,
}

/// Reply to a request that carries no data: whether it succeeded, and why not.
#[derive(Debug, Clone)]
pub struct Ack {
    pub success: bool,
    pub message: String,
}

impl Ack {
    /// A successful reply with an empty message.
    pub fn ok() -> (a: Ack)
        ensures
            a.success,
            a.message@ == Seq::<char>::empty(),
    {
        Ack { success: true, message: String::new() }
    }

    /// A failed reply carrying the message.
    pub fn error(message: &str) -> (a: Ack)
        ensures
            !a.success,
            a.message@ == message@,
    {
        Ack { success: false, message: owned(message) }
    }
}

/// A worker's registration with the coordinator.
#[derive(Debug, Clone)]
pub struct RegisterRequest {
    pub worker_id: String,
    pub hostname: String,
    pub capacity: u32,
    pub pool_affinity: Vec<String>,
    pub labels: HashMap<String, String>,
    pub version: String,
    pub health_port: u32,
}

/// A worker's periodic heartbeat. Load figures are in thousandths of a
/// percent.
#[derive(Debug, Clone)]
pub struct WorkerHeartbeat {
    pub worker_id: String,
    pub active_tasks: u32,
    pub cpu_milli_percent: u64,
    pub memory_milli_percent: u64,
    pub disk_milli_percent: u64,
    pub running_assignments: Vec<String>,
    pub timestamp_ms: i64,
}

/// What the coordinator reports of one worker. Load figures are in
/// thousandths of a percent.
#[derive(Debug, Clone)]
pub struct WorkerStatus {
    pub worker_id: String,
    pub hostname: String,
    pub state: WorkerState,
    pub capacity: u32,
    pub active_tasks: u32,
    pub pool_affinity: Vec<String>,
    pub last_heartbeat_ms: i64,
    pub cpu_milli_percent: u64,
    pub memory_milli_percent: u64,
    pub labels: HashMap<String, String>,
    pub registered_at_ms: i64,
    pub tasks_completed: u64,
    pub tasks_failed: u64,
}

/// The coordinator's report on the whole cluster.
#[derive(Debug, Clone)]
pub struct ClusterStatusResponse {
    pub health: ClusterHealth,
    pub workers: Vec<WorkerStatus>,
    pub active_runs: u32,
    pub running_tasks: u32,
    pub queued_tasks: u32,
    pub uptime_secs: u64,
}

/// An instruction from the coordinator to a worker.
#[derive(Debug, Clone)]
pub enum CoordinatorDirective {
    CancelTask { assignment_id: String, reason: String },
    Drain { reason: String, grace_period_secs: u32 },
    HeartbeatAck { timestamp_ms: i64 },
}

/// Resource limits a task runs under.
#[derive(Debug, Clone, Copy, PartialEq, Eq, Structural)]
pub struct ResourceLimits {
    pub cpu_millicores: u32,
    pub memory_mb: u32,
}

impl Default for ResourceLimits {
    /// No limits set: both figures zero.
    fn default() -> (r: Self)
        ensures
            r.cpu_millicores == 0,
            r.memory_mb == 0,
    {
        ResourceLimits { cpu_millicores: 0, memory_mb: 0 }
    }
}

/// What a worker is to run.
#[derive(Debug, Clone)]
pub struct TaskSpec {
    pub task_type: TaskType,
    pub script: String,
    pub connection: String,
    pub query: String,
    pub command: String,
    pub args: Vec<String>,
    pub timeout_secs: u64,
    pub resources: ResourceLimits,
}

/// The run a task belongs to, as the worker sees it.
#[derive(Debug, Clone)]
pub struct TaskContext {
    pub dag_id: String,
    pub run_id: String,
    pub task_id: String,
    pub attempt: u32,
    pub logical_date_epoch_ms: i64,
    pub environment: String,
    pub params: HashMap<String, String>,
}

/// One attempt of a task, sent to a worker.
#[derive(Debug, Clone)]
pub struct TaskAssignment {
    pub assignment_id: String,
    pub dag_id: String,
    pub run_id: String,
    pub task_id: String,
    pub attempt: u32,
    pub spec: TaskSpec,
    pub context: TaskContext,
    pub deadline_epoch_ms: i64,
}

/// A worker's report on an assignment. Each metric is kept as the decimal
/// text the task printed.
#[derive(Debug, Clone)]
pub struct TaskResult {
    pub assignment_id: String,
    pub worker_id: String,
    pub dag_id: String,
    pub run_id: String,
    pub task_id: String,
    pub attempt: u32,
    pub outcome: TaskOutcome,
    pub exit_code: i32,
    pub duration_ms: u64,
    pub xcom_json: String,
    pub error: String,
    pub metrics: HashMap<String, String>,
}

/// A log line a worker forwards for an assignment.
#[derive(Debug, Clone)]
pub struct TaskLogEntry {
    pub assignment_id: String,
    pub worker_id: String,
    pub level: LogLevel,
    pub message: String,
    pub timestamp_ms: i64,
    pub metadata_json: String,
}

impl TaskLogEntry {
    /// A field-by-field copy.
    pub fn copy(&self) -> (r: Self)
        ensures
            r == *self,
    {
        TaskLogEntry {
            assignment_id: self.assignment_id.clone(),
            worker_id: self.worker_id.clone(),
            level: self.level,
            message: self.message.clone(),
            timestamp_ms: self.timestamp_ms,
            metadata_json: self.metadata_json.clone(),
        }
    }
}

} // verus!
