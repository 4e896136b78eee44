//! The DAG and task data model.

use vstd::prelude::*;
use crate::incremental::IncrementalConfig;

verus! {

/// How a task dependency is expressed.
#[derive(Debug, Clone, Copy, PartialEq, Eq, Structural)]
pub enum DependencyType {
    /// Task must complete successfully before this one starts.
    ExecutionOrder,
    /// Consumes the data its upstream task publishes.
    DataFlow,
}

/// A dependency of a task on another task of the same DAG.
#[derive(Debug, Clone)]
pub struct TaskDependency {
    pub task_id: String,
    pub dependency_type: DependencyType,
}

/// The type of work a task performs.
#[derive(Debug, Clone)]
pub enum TaskType {
    Python { module: String, function: String },
    Bash { command: String },
    Sql { connection: String, query: String, target: Option<String> },
    Sensor { sensor_type: String, poke_interval: Option<String> },
    Executable { command: String, args: Vec<String> },
}

/// The stable kind label of a task type.
pub open spec fn kind_label(t: TaskType) -> Seq<char> {
    match t {
        TaskType::Python { .. } => "python"@,
        TaskType::Bash { .. } => "bash"@,
        TaskType::Sql { .. } => "sql"@,
        TaskType::Sensor { .. } => "sensor"@,
        TaskType::Executable { .. } => "executable"@,
    }
}

impl TaskType {
    /// Stable task kind label for logs, traces, and metrics.
    pub fn kind(&self) -> (k: &'static str)
        ensures
            k@ == kind_label(*self),
    {
        match self {
            TaskType::Python { .. } => "python",
            TaskType::Bash { .. } => "bash",
            TaskType::Sql { .. } => "sql",
            TaskType::Sensor { .. } => "sensor",
            TaskType::Executable { .. } => "executable",
        }
    }
}

/// Declared resource limits for a task.
#[derive(Debug, Clone, Copy, PartialEq, Eq, Structural)]
pub struct ResourceLimits {
    pub cpu_millicores: Option<u32>,
    pub memory_mb: Option<u32>,
}

impl Default for ResourceLimits {
    fn default() -> (r: Self)
        ensures
            r.cpu_millicores is None,
            r.memory_mb is None,
    {
        ResourceLimits { cpu_millicores: None, memory_mb: None }
    }
}

/// When a task becomes eligible to run.
#[derive(Debug, Clone, Copy, PartialEq, Eq, Structural)]
pub enum TriggerRule {
    AllSuccess,
    AllDone,
    OneSuccess,
    OneFailed,
    NoDeps,
}

impl Default for TriggerRule {
    fn default() -> (r: Self)
        ensures
            r == TriggerRule::AllSuccess,
    {
        TriggerRule::AllSuccess
    }
}

/// A named resource pool with a slot limit.
#[derive(Debug, Clone)]
pub struct Pool {
    pub name: String,
    pub slots: u32,
    pub description: Option<String>,
}

/// A column within a [`Dataset`].
#[derive(Debug, Clone)]
pub struct ColumnSpec {
    pub name: String,
    pub dtype: Option<String>,
}

impl ColumnSpec {
    pub fn new(name: String) -> (c: Self)
        ensures
            c.name == name,
            c.dtype is None,
    {
        ColumnSpec { name, dtype: None }
    }
}

/// A named collection of columns produced or consumed by a task.
#[derive(Debug, Clone)]
pub struct Dataset {
    pub name: String,
    pub columns: Vec<ColumnSpec>,
    pub anonymous: bool,
}

/// Whether a flag is off (serialisation skips such flags).
pub fn is_false(b: &bool) -> (r: bool)
    ensures
        r == !*b,
{
    !*b
}

impl Dataset {
    pub fn new(name: String, columns: Vec<ColumnSpec>) -> (d: Self)
        ensures
            d.name == name,
            d.columns == columns,
            !d.anonymous,
    {
        Dataset { name, columns, anonymous: false }
    }

    /// An anonymous dataset keyed on a task id.
    pub fn anonymous(task_id: String) -> (d: Self)
        ensures
            d.name == task_id,
            d.columns@.len() == 0,
            d.anonymous,
    {
        Dataset { name: task_id, columns: Vec::new(), anonymous: true }
    }
}

/// Whether a DAG catches up on missed cron runs unless told otherwise.
pub fn default_catchup() -> (b: bool)
    ensures
        b,
{
    true
}

/// A single task within a DAG.
#[derive(Debug, Clone)]
pub struct Task {
    pub id: String,
    pub task_type: TaskType,
    pub dependencies: Vec<TaskDependency>,
    pub retries: u32,
    pub retry_delay: Option<String>,
    pub source_hash: Option<String>,
    pub pool: Option<String>,
    pub timeout: Option<String>,
    pub priority: i32,
    pub resources: ResourceLimits,
    pub trigger_rule: TriggerRule,
    pub incremental: Option<IncrementalConfig>,
    pub inputs: Vec<Dataset>,
    pub outputs: Vec<Dataset>,
}

/// A complete DAG definition, as emitted by the compiler. Tasks are kept in
/// their declaration order; their ids are distinct.
#[derive(Debug, Clone)]
pub struct Dag {
    pub id: String,
    pub description: Option<String>,
    pub schedule: Option<String>,
    pub tags: Vec<String>,
    pub max_active_runs: u32,
    pub on_failure: Option<String>,
    pub tasks: Vec<Task>,
    pub execution_order: Vec<String>,
    pub source_file: String,
    /// When this DAG definition was compiled, in milliseconds since the epoch.
    pub compiled_at_ms: i64,
    pub catchup: bool,
    pub max_catchup_runs: Option<u32>,
    pub lineage_strict: bool,
}

} // verus!
