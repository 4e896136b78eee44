use std::collections::HashMap;

use conduit::coordinator::SubmitOutcome;
use conduit::dag::{ResourceLimits as DagLimits, Task, TaskType as DagTaskType, TriggerRule};
use conduit::distributed::DistributedExecutorConfig;
use conduit::distributed_executor::{DispatchRequest, DistributedExecutor};
use conduit::event::{Event, EventKind};
use conduit::duration::{duration_input_in_range, parse_duration, Duration};
use conduit::error::ConduitError;
use conduit::executor::{
    outcome_for_exit_code, timeout_error, ExecutorAction, ExecutorCommand, TaskExecutor, TaskOutcome,
};
use conduit::incremental::Timestamp;
use conduit::plan::ConduitPlan;
use conduit::proto_types::{ClusterHealth, RegisterRequest, ResourceLimits, TaskType};

fn request(task_id: &str, timeout_secs: u64, pool: &str) -> DispatchRequest {
    DispatchRequest {
        dag_id: "dag1".to_string(),
        run_id: "run1".to_string(),
        task_id: task_id.to_string(),
        attempt: 0,
        task_type: TaskType::Bash,
        script: "echo hi".to_string(),
        connection: String::new(),
        query: String::new(),
        command: String::new(),
        args: vec![],
        timeout_secs,
        pool: pool.to_string(),
        logical_date_ms: 1_700_000_000_000,
        environment: "dev".to_string(),
        params: HashMap::new(),
        resources: ResourceLimits::default(),
    }
}

fn worker(id: &str) -> RegisterRequest {
    RegisterRequest {
        worker_id: id.to_string(),
        hostname: format!("{id}.local"),
        capacity: 4,
        pool_affinity: vec!["default".to_string()],
        labels: HashMap::new(),
        version: "0.1.0".to_string(),
        health_port: 0,
    }
}

#[test]
fn test_distributed_executor_creation() {
    let executor = DistributedExecutor::new(DistributedExecutorConfig::default());
    assert_eq!(executor.inflight_count(), 0);
}

#[test]
fn distributed_executor_test_cluster_status_empty() {
    let executor = DistributedExecutor::new(DistributedExecutorConfig::default());
    let status = executor.cluster_status(0);
    assert_eq!(status.health, ClusterHealth::Unhealthy);
    assert_eq!(status.workers.len(), 0);
}

#[test]
fn test_dispatch_queues_when_no_workers() {
    let mut executor = DistributedExecutor::new(DistributedExecutorConfig::default());
    executor.dispatch(request("task1", 300, "default"));
    assert_eq!(executor.pending_count(), 1);
    assert_eq!(executor.inflight_count(), 0);
}

#[test]
fn test_dispatch_with_worker() {
    let mut executor = DistributedExecutor::new(DistributedExecutorConfig::default());
    executor.coordinator_mut().register_worker(&worker("w1"));
    executor.dispatch(request("task1", 300, "default"));
    assert_eq!(executor.pending_count(), 0);
    assert_eq!(executor.inflight_count(), 1);
}

#[test]
fn dispatch_builds_the_assignment() {
    let mut executor = DistributedExecutor::new(DistributedExecutorConfig::default());
    executor.coordinator_mut().register_worker(&worker("w1"));
    executor.dispatch_at(request("t", 0, ""), "a9".to_string(), 5_000);
    let a = executor.coordinator().inflight_assignment("a9").unwrap();
    // No timeout: the default hour, due an hour after creation.
    assert_eq!(a.spec.timeout_secs, 3600);
    assert_eq!(a.deadline_epoch_ms, 5_000 + 3_600_000);
    assert_eq!(a.context.logical_date_epoch_ms, 1_700_000_000_000);
    assert_eq!(a.task_id, "t");
}

fn task(id: &str) -> Task {
    Task {
        id: id.to_string(),
        task_type: DagTaskType::Bash { command: "true".to_string() },
        dependencies: vec![],
        retries: 0,
        retry_delay: None,
        source_hash: None,
        pool: None,
        timeout: None,
        priority: 0,
        resources: DagLimits::default(),
        trigger_rule: TriggerRule::AllSuccess,
        incremental: None,
        inputs: vec![],
        outputs: vec![],
    }
}

fn dispatch(id: &str) -> ExecutorCommand {
    ExecutorCommand::DispatchTask {
        task: task(id),
        dag_id: "d".to_string(),
        run_id: "r".to_string(),
        attempt: 1,
        logical_date: Timestamp::from_unix(0, 0).unwrap(),
        environment: "dev".to_string(),
        params: vec![],
    }
}

#[test]
fn test_task_executor_creation() {
    let executor = TaskExecutor::new(4);
    assert_eq!(executor.max_concurrent(), 4);
    assert_eq!(executor.active_count(), 0);
}

#[test]
fn executor_defers_past_the_limit() {
    let mut executor = TaskExecutor::new(1);
    match executor.handle_command(dispatch("a")) {
        ExecutorAction::Start { task, context } => {
            assert_eq!(task.id, "a");
            assert_eq!(context.task_id, "a");
            assert_eq!(context.attempt, 1);
            assert!(context.extra_env.is_empty());
        }
        other => panic!("expected start, got {other:?}"),
    }
    assert!(matches!(executor.handle_command(dispatch("b")), ExecutorAction::Deferred(id) if id == "b"));
    assert_eq!(executor.active_count(), 1);

    let cancel = ExecutorCommand::CancelTask { task_id: "a".to_string(), run_id: "r".to_string() };
    assert!(matches!(executor.handle_command(cancel), ExecutorAction::Abort(id) if id == "a"));
    assert_eq!(executor.active_count(), 0);
    let cancel = ExecutorCommand::CancelTask { task_id: "a".to_string(), run_id: "r".to_string() };
    assert!(matches!(executor.handle_command(cancel), ExecutorAction::Nothing));
    assert!(matches!(executor.handle_command(ExecutorCommand::Shutdown), ExecutorAction::Shutdown));
}

#[test]
fn executor_outcomes_and_timeout_text() {
    assert_eq!(outcome_for_exit_code(0), TaskOutcome::Success);
    assert_eq!(outcome_for_exit_code(1), TaskOutcome::Failed);
    assert_eq!(outcome_for_exit_code(2), TaskOutcome::Retry);
    assert_eq!(outcome_for_exit_code(3), TaskOutcome::Skipped);
    assert_eq!(outcome_for_exit_code(-9), TaskOutcome::Failed);
    assert_eq!(timeout_error(&Duration::from_secs(90)), "Task timed out after 90 seconds");
}

#[test]
fn duration_range_check() {
    assert!(duration_input_in_range("30s"));
    assert!(duration_input_in_range("bogus"));
    assert!(!duration_input_in_range("5é"));
    assert!(!duration_input_in_range("18446744073709551616s"));
    assert!(!duration_input_in_range("99999999999999999999d"));
    assert!(duration_input_in_range("1844674407370955161s"));
    assert!(duration_input_in_range("18446744073709551615"));
    assert!(matches!(parse_duration("bogus"), Err(ConduitError::ConfigError(_))));
}

#[test]
fn plan_keys_dags_by_id_last_wins() {
    let mut yaml_a = conduit::dag::Dag {
        id: "etl".to_string(),
        description: None,
        schedule: None,
        tags: vec![],
        max_active_runs: 1,
        on_failure: None,
        tasks: vec![task("x"), task("y")],
        execution_order: vec!["x".to_string(), "y".to_string()],
        source_file: "a.yaml".to_string(),
        compiled_at_ms: 0,
        catchup: true,
        max_catchup_runs: None,
        lineage_strict: false,
    };
    let mut other = yaml_a.clone();
    other.id = "other".to_string();
    other.tasks = vec![task("z")];
    let mut again = yaml_a.clone();
    again.source_file = "b.yaml".to_string();
    yaml_a.description = Some("first".to_string());

    let errors = vec![ConduitError::CycleDetected { cycle: "a -> b".to_string() }];
    let (plan, stats) = ConduitPlan::assemble(vec![yaml_a, other, again], errors, 4, 77, 12);
    assert_eq!(plan.dags.len(), 2);
    assert_eq!(plan.dags[0].id, "etl");
    assert_eq!(plan.dags[0].source_file, "b.yaml");
    assert_eq!(plan.dags[1].id, "other");
    assert_eq!(plan.total_tasks, 5);
    assert_eq!(plan.compiled_at_ms, 77);
    assert_eq!(stats.dags_compiled, 2);
    assert_eq!(stats.files_scanned, 4);
    assert_eq!(
        stats.to_string(),
        "Compilation Results:\n  DAGs compiled:  2\n  Total tasks:    5\n  Errors:         1\n  Duration:       12ms\n\nErrors:\n  - cycle detected in DAG: a -> b\n"
    );
}

#[test]
fn dispatch_at_reports_the_outcome() {
    let mut executor = DistributedExecutor::new(DistributedExecutorConfig::default());
    let outcome = executor.dispatch_at(request("task1", 300, "default"), "a1".to_string(), 1_000);
    assert_eq!(outcome, SubmitOutcome::Queued);
    executor.coordinator_mut().register_worker(&worker("w1"));
    let mut other = DistributedExecutor::new(DistributedExecutorConfig::default());
    other.coordinator_mut().register_worker(&worker("w1"));
    let outcome = other.dispatch_at(request("task1", 300, "default"), "a1".to_string(), 1_000);
    assert_eq!(outcome, SubmitOutcome::Dispatched("w1".to_string()));
}

#[test]
fn dispatch_gives_a_fresh_id_and_a_deadline_from_now() {
    let mut executor = DistributedExecutor::new(DistributedExecutorConfig::default());
    executor.coordinator_mut().register_worker(&worker("w1"));
    let before = chrono::Utc::now().timestamp_millis();
    let (id, outcome) = executor.dispatch(request("t", 60, "default")).unwrap();
    let after = chrono::Utc::now().timestamp_millis();
    assert_eq!(outcome, SubmitOutcome::Dispatched("w1".to_string()));
    assert_eq!(id.len(), 36);
    let a = executor.coordinator().inflight_assignment(&id).unwrap();
    assert!(a.deadline_epoch_ms >= before + 60_000 && a.deadline_epoch_ms <= after + 60_000);
    let (id2, _) = executor.dispatch(request("u", 60, "default")).unwrap();
    assert_ne!(id, id2);
    assert!(executor.dispatch(request("v", u64::MAX, "default")).is_none());
    assert_eq!(executor.inflight_count(), 2);
}

#[test]
fn coordinator_creates_assignments_with_random_ids() {
    let executor = DistributedExecutor::new(DistributedExecutorConfig::default());
    let req = request("t", 10, "default");
    let spec = conduit::proto_types::TaskSpec {
        task_type: TaskType::Bash,
        script: "echo".to_string(),
        connection: String::new(),
        query: String::new(),
        command: String::new(),
        args: vec![],
        timeout_secs: 10,
        resources: ResourceLimits::default(),
    };
    let context = conduit::proto_types::TaskContext {
        dag_id: req.dag_id.clone(),
        run_id: req.run_id.clone(),
        task_id: "t".to_string(),
        attempt: 2,
        logical_date_epoch_ms: 0,
        environment: "dev".to_string(),
        params: HashMap::new(),
    };
    let now = chrono::Utc::now().timestamp_millis();
    let a = executor
        .coordinator()
        .create_assignment("d", "r", "t", 2, spec, context, 10)
        .unwrap();
    assert_eq!(a.dag_id, "d");
    assert_eq!(a.run_id, "r");
    assert_eq!(a.attempt, 2);
    assert_eq!(a.assignment_id.len(), 36);
    assert!(a.deadline_epoch_ms >= now + 10_000);
}

#[test]
fn events_get_fresh_ids() {
    let kind = EventKind::TaskSkipped {
        dag_id: "d".to_string(),
        run_id: "r".to_string(),
        task_id: "t".to_string(),
        reason: "upstream failed".to_string(),
    };
    let a = Event::new(7, kind.clone());
    let b = Event::new(8, kind);
    assert_eq!(a.sequence, 7);
    assert_ne!(a.id, b.id);
    assert!(matches!(a.kind, EventKind::TaskSkipped { ref reason, .. } if reason == "upstream failed"));
}

#[test]
fn dispatch_checked_refuses_overflowing_deadlines() {
    let mut executor = DistributedExecutor::new(DistributedExecutorConfig::default());
    // Timeout too large for milliseconds in an i64.
    let r = executor.dispatch_checked_at(request("t1", 9_223_372_036_854_776, "default"), "a1".to_string(), 0);
    assert!(r.is_none());
    // Deadline past i64::MAX at this clock reading.
    let r = executor.dispatch_checked_at(request("t2", 1, "default"), "a2".to_string(), i64::MAX - 999);
    assert!(r.is_none());
    assert_eq!(executor.pending_count(), 0);
    // Exactly at the limit it fits.
    let r = executor.dispatch_checked_at(request("t3", 1, "default"), "a3".to_string(), i64::MAX - 1000);
    assert!(matches!(r, Some(SubmitOutcome::Queued)));
    assert_eq!(executor.pending_count(), 1);
}
