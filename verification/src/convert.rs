//! The wire numbers of the protocol's enums, both ways.
//!
//! Each enum is sent as an `i32`: its variants in declaration order from
//! zero. A number that names no variant reads as `Unspecified`.

use vstd::prelude::*;
use crate::proto_types::{ClusterHealth, LogLevel, TaskOutcome, TaskType, WorkerState};

verus! {

pub open spec fn task_type_number(t: TaskType) -> i32 {
    match t {
        TaskType::Unspecified => 0,
        TaskType::Python => 1,
        TaskType::Bash => 2,
        TaskType::Sql => 3,
        TaskType::Sensor => 4,
        TaskType::Executable => 5,
    }
}

pub open spec fn task_type_of(v: i32) -> TaskType {
    if v == 1 {
        TaskType::Python
    } else if v == 2 {
        TaskType::Bash
    } else if v == 3 {
        TaskType::Sql
    } else if v == 4 {
        TaskType::Sensor
    } else if v == 5 {
        TaskType::Executable
    } else {
        TaskType::Unspecified
    }
}

pub fn task_type_to_i32(tt: TaskType) -> (v: i32)
    ensures
        v == task_type_number(tt),
{
    match tt {
        TaskType::Unspecified => 0,
        TaskType::Python => 1,
        TaskType::Bash => 2,
        TaskType::Sql => 3,
        TaskType::Sensor => 4,
        TaskType::Executable => 5,
    }
}

pub fn task_type_from_i32(v: i32) -> (tt: TaskType)
    ensures
        tt == task_type_of(v),
{
    match v {
        1 => TaskType::Python,
        2 => TaskType::Bash,
        3 => TaskType::Sql,
        4 => TaskType::Sensor,
        5 => TaskType::Executable,
        _ => TaskType::Unspecified,
    }
}

pub open spec fn task_outcome_number(o: TaskOutcome) -> i32 {
    match o {
        TaskOutcome::Unspecified => 0,
        TaskOutcome::Success => 1,
        TaskOutcome::Failed => 2,
        TaskOutcome::Retry => 3,
        TaskOutcome::Skipped => 4,
    }
}

pub open spec fn task_outcome_of(v: i32) -> TaskOutcome {
    if v == 1 {
        TaskOutcome::Success
    } else if v == 2 {
        TaskOutcome::Failed
    } else if v == 3 {
        TaskOutcome::Retry
    } else if v == 4 {
        TaskOutcome::Skipped
    } else {
        TaskOutcome::Unspecified
    }
}

pub fn task_outcome_to_i32(o: TaskOutcome) -> (v: i32)
    ensures
        v == task_outcome_number(o),
{
    match o {
        TaskOutcome::Unspecified => 0,
        TaskOutcome::Success => 1,
        TaskOutcome::Failed => 2,
        TaskOutcome::Retry => 3,
        TaskOutcome::Skipped => 4,
    }
}

pub fn task_outcome_from_i32(v: i32) -> (o: TaskOutcome)
    ensures
        o == task_outcome_of(v),
{
    match v {
        1 => TaskOutcome::Success,
        2 => TaskOutcome::Failed,
        3 => TaskOutcome::Retry,
        4 => TaskOutcome::Skipped,
        _ => TaskOutcome::Unspecified,
    }
}

pub open spec fn log_level_number(l: LogLevel) -> i32 {
    match l {
        LogLevel::Unspecified => 0,
        LogLevel::Debug => 1,
        LogLevel::Info => 2,
        LogLevel::Warn => 3,
        LogLevel::Error => 4,
    }
}

pub open spec fn log_level_of(v: i32) -> LogLevel {
    if v == 1 {
        LogLevel::Debug
    } else if v == 2 {
        LogLevel::Info
    } else if v == 3 {
        LogLevel::Warn
    } else if v == 4 {
        LogLevel::Error
    } else {
        LogLevel::Unspecified
    }
}

pub fn log_level_to_i32(l: LogLevel) -> (v: i32)
    ensures
        v == log_level_number(l),
{
    match l {
        LogLevel::Unspecified => 0,
        LogLevel::Debug => 1,
        LogLevel::Info => 2,
        LogLevel::Warn => 3,
        LogLevel::Error => 4,
    }
}

pub fn log_level_from_i32(v: i32) -> (l: LogLevel)
    ensures
        l == log_level_of(v),
{
    match v {
        1 => LogLevel::Debug,
        2 => LogLevel::Info,
        3 => LogLevel::Warn,
        4 => LogLevel::Error,
        _ => LogLevel::Unspecified,
    }
}

pub open spec fn worker_state_number(s: WorkerState) -> i32 {
    match s {
        WorkerState::Unspecified => 0,
        WorkerState::Active => 1,
        WorkerState::Draining => 2,
        WorkerState::Disconnected => 3,
        WorkerState::Dead => 4,
    }
}

pub open spec fn worker_state_of(v: i32) -> WorkerState {
    if v == 1 {
        WorkerState::Active
    } else if v == 2 {
        WorkerState::Draining
    } else if v == 3 {
        WorkerState::Disconnected
    } else if v == 4 {
        WorkerState::Dead
    } else {
        WorkerState::Unspecified
    }
}

pub fn worker_state_to_i32(s: WorkerState) -> (v: i32)
    ensures
        v == worker_state_number(s),
{
    match s {
        WorkerState::Unspecified => 0,
        WorkerState::Active => 1,
        WorkerState::Draining => 2,
        WorkerState::Disconnected => 3,
        WorkerState::Dead => 4,
    }
}

pub fn worker_state_from_i32(v: i32) -> (s: WorkerState)
    ensures
        s == worker_state_of(v),
{
    match v {
        1 => WorkerState::Active,
        2 => WorkerState::Draining,
        3 => WorkerState::Disconnected,
        4 => WorkerState::Dead,
        _ => WorkerState::Unspecified,
    }
}

pub open spec fn cluster_health_number(h: ClusterHealth) -> i32 {
    match h {
        ClusterHealth::Unspecified => 0,
        ClusterHealth::Healthy => 1,
        ClusterHealth::Degraded => 2,
        ClusterHealth::Unhealthy => 3,
    }
}

pub open spec fn cluster_health_of(v: i32) -> ClusterHealth {
    if v == 1 {
        ClusterHealth::Healthy
    } else if v == 2 {
        ClusterHealth::Degraded
    } else if v == 3 {
        ClusterHealth::Unhealthy
    } else {
        ClusterHealth::Unspecified
    }
}

pub fn cluster_health_to_i32(h: ClusterHealth) -> (v: i32)
    ensures
        v == cluster_health_number(h),
{
    match h {
        ClusterHealth::Unspecified => 0,
        ClusterHealth::Healthy => 1,
        ClusterHealth::Degraded => 2,
        ClusterHealth::Unhealthy => 3,
    }
}

pub fn cluster_health_from_i32(v: i32) -> (h: ClusterHealth)
    ensures
        h == cluster_health_of(v),
{
    match v {
        1 => ClusterHealth::Healthy,
        2 => ClusterHealth::Degraded,
        3 => ClusterHealth::Unhealthy,
        _ => ClusterHealth::Unspecified,
    }
}

/// Reading back the number an enum value is sent as gives the value again,
/// for every enum of the protocol.
pub proof fn law_enum_numbers_round_trip(
    tt: TaskType,
    o: TaskOutcome,
    l: LogLevel,
    s: WorkerState,
    h: ClusterHealth,
)
    ensures
        task_type_of(task_type_number(tt)) == tt,
        task_outcome_of(task_outcome_number(o)) == o,
        log_level_of(log_level_number(l)) == l,
        worker_state_of(worker_state_number(s)) == s,
        cluster_health_of(cluster_health_number(h)) == h,
{
}

/// A number in an enum's range is sent back as itself; every other number
/// reads as `Unspecified`, which is sent as zero.
pub proof fn law_numbers_read_back(v: i32)
    ensures
        task_type_number(task_type_of(v)) == (if 0 <= v <= 5 { v } else { 0 }),
        task_outcome_number(task_outcome_of(v)) == (if 0 <= v <= 4 { v } else { 0 }),
        log_level_number(log_level_of(v)) == (if 0 <= v <= 4 { v } else { 0 }),
        worker_state_number(worker_state_of(v)) == (if 0 <= v <= 4 { v } else { 0 }),
        cluster_health_number(cluster_health_of(v)) == (if 0 <= v <= 3 { v } else { 0 }),
{
}

} // verus!
