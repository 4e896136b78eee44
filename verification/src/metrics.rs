//! The label sets of the orchestrator's metrics.

use vstd::prelude::*;

verus! {

/// DAG runs by DAG and final status.
#[derive(Clone, Debug, Hash, PartialEq, Eq)]
pub struct DagStatusLabels {
    pub dag_id: String,
    pub status: String,
}

/// Per-DAG figures.
#[derive(Clone, Debug, Hash, PartialEq, Eq)]
pub struct DagLabels {
    pub dag_id: String,
}

/// Per-task figures.
#[derive(Clone, Debug, Hash, PartialEq, Eq)]
pub struct TaskLabels {
    pub dag_id: String,
    pub task_id: String,
}

/// Task lifecycle events by DAG, task and status.
#[derive(Clone, Debug, Hash, PartialEq, Eq)]
pub struct TaskStatusLabels {
    pub dag_id: String,
    pub task_id: String,
    pub status: String,
}

/// Totals by status.
#[derive(Clone, Debug, Hash, PartialEq, Eq)]
pub struct StatusLabels {
    pub status: String,
}

/// Scheduler events by type.
#[derive(Clone, Debug, Hash, PartialEq, Eq)]
pub struct EventLabels {
    pub event_type: String,
}

} // verus!
