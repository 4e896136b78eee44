//! The errors the library reports.

use vstd::prelude::*;
use crate::text::{decimal, push_decimal, push_signed_decimal, push_str, signed_decimal, string_of};

verus! {

/// Every error the compiler, executor and distributed layer can report.
#[derive(Debug, Clone)]
pub enum ConduitError {
    ParseError { file: String, message: String },
    CycleDetected { cycle: String },
    UnknownTaskRef { dag_id: String, task_id: String },
    DuplicateTaskId { dag_id: String, task_id: String },
    EventStoreError(String),
    SnapshotNotFound(String),
    EnvironmentNotFound(String),
    SchedulerError(String),
    TaskExecutionFailed { task_id: String, exit_code: i32 },
    TaskTimeout { task_id: String, timeout_secs: u64 },
    ExecutionError(String),
    ProtocolError(String),
    ConfigError(String),
    FileNotFound(String),
}


/// The message of an error, as it is displayed.
pub open spec fn error_text(e: ConduitError) -> Seq<char> {
    match e {
        ConduitError::ParseError { file, message } => "parse error in "@ + file@ + ": "@ + message@,
        ConduitError::CycleDetected { cycle } => "cycle detected in DAG: "@ + cycle@,
        ConduitError::UnknownTaskRef { dag_id, task_id } => "unknown task reference '"@ + task_id@
            + "' in DAG '"@ + dag_id@ + "'"@,
        ConduitError::DuplicateTaskId { dag_id, task_id } => "duplicate task ID '"@ + task_id@
            + "' in DAG '"@ + dag_id@ + "'"@,
        ConduitError::EventStoreError(m) => "event store error: "@ + m@,
        ConduitError::SnapshotNotFound(m) => "snapshot not found: "@ + m@,
        ConduitError::EnvironmentNotFound(m) => "environment not found: "@ + m@,
        ConduitError::SchedulerError(m) => "scheduler error: "@ + m@,
        ConduitError::TaskExecutionFailed { task_id, exit_code } => "task execution failed: "@
            + task_id@ + " (exit code "@ + signed_decimal(exit_code as int) + ")"@,
        ConduitError::TaskTimeout { task_id, timeout_secs } => "task timed out: "@ + task_id@
            + " after "@ + decimal(timeout_secs as nat) + "s"@,
        ConduitError::ExecutionError(m) => "execution error: "@ + m@,
        ConduitError::ProtocolError(m) => "protocol error: "@ + m@,
        ConduitError::ConfigError(m) => "configuration error: "@ + m@,
        ConduitError::FileNotFound(m) => "file not found: "@ + m@,
    }
}

impl ConduitError {
    /// The error's message, as it is displayed.
    pub fn to_string(&self) -> (s: String)
        ensures
            s@ == error_text(*self),
    {
        let mut v: Vec<char> = Vec::new();
        match self {
            ConduitError::ParseError { file, message } => {
                push_str(&mut v, "parse error in ");
                push_str(&mut v, file.as_str());
                push_str(&mut v, ": ");
                push_str(&mut v, message.as_str());
            },
            ConduitError::CycleDetected { cycle } => {
                push_str(&mut v, "cycle detected in DAG: ");
                push_str(&mut v, cycle.as_str());
            },
            ConduitError::UnknownTaskRef { dag_id, task_id } => {
                push_str(&mut v, "unknown task reference '");
                push_str(&mut v, task_id.as_str());
                push_str(&mut v, "' in DAG '");
                push_str(&mut v, dag_id.as_str());
                push_str(&mut v, "'");
            },
            ConduitError::DuplicateTaskId { dag_id, task_id } => {
                push_str(&mut v, "duplicate task ID '");
                push_str(&mut v, task_id.as_str());
                push_str(&mut v, "' in DAG '");
                push_str(&mut v, dag_id.as_str());
                push_str(&mut v, "'");
            },
            ConduitError::EventStoreError(m) => {
                push_str(&mut v, "event store error: ");
                push_str(&mut v, m.as_str());
            },
            ConduitError::SnapshotNotFound(m) => {
                push_str(&mut v, "snapshot not found: ");
                push_str(&mut v, m.as_str());
            },
            ConduitError::EnvironmentNotFound(m) => {
                push_str(&mut v, "environment not found: ");
                push_str(&mut v, m.as_str());
            },
            ConduitError::SchedulerError(m) => {
                push_str(&mut v, "scheduler error: ");
                push_str(&mut v, m.as_str());
            },
            ConduitError::TaskExecutionFailed { task_id, exit_code } => {
                push_str(&mut v, "task execution failed: ");
                push_str(&mut v, task_id.as_str());
                push_str(&mut v, " (exit code ");
                push_signed_decimal(&mut v, *exit_code as i64);
                push_str(&mut v, ")");
            },
            ConduitError::TaskTimeout { task_id, timeout_secs } => {
                push_str(&mut v, "task timed out: ");
                push_str(&mut v, task_id.as_str());
                push_str(&mut v, " after ");
                push_decimal(&mut v, *timeout_secs);
                push_str(&mut v, "s");
            },
            ConduitError::ExecutionError(m) => {
                push_str(&mut v, "execution error: ");
                push_str(&mut v, m.as_str());
            },
            ConduitError::ProtocolError(m) => {
                push_str(&mut v, "protocol error: ");
                push_str(&mut v, m.as_str());
            },
            ConduitError::ConfigError(m) => {
                push_str(&mut v, "configuration error: ");
                push_str(&mut v, m.as_str());
            },
            ConduitError::FileNotFound(m) => {
                push_str(&mut v, "file not found: ");
                push_str(&mut v, m.as_str());
            },
        }
        assert(v@ =~= error_text(*self));
        string_of(v.as_slice())
    }
}

} // verus!
