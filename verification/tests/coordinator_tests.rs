use std::collections::HashMap;

use conduit::coordinator::{Coordinator, SubmitOutcome};
use conduit::distributed::CoordinatorConfig;
use conduit::proto_types::{
    ClusterHealth, CoordinatorDirective, LogLevel, RegisterRequest, ResourceLimits, TaskAssignment,
    TaskContext, TaskLogEntry, TaskOutcome, TaskResult, TaskSpec, TaskType, WorkerHeartbeat,
};
use conduit::worker_pool::RoutingStrategy;

fn make_register(id: &str, capacity: u32) -> RegisterRequest {
    RegisterRequest {
        worker_id: id.to_string(),
        hostname: format!("{}.local", id),
        capacity,
        pool_affinity: vec!["default".to_string()],
        labels: HashMap::new(),
        version: "0.1.0".to_string(),
        health_port: 9090,
    }
}

fn make_spec() -> TaskSpec {
    TaskSpec {
        task_type: TaskType::Bash,
        script: "echo hello".to_string(),
        connection: String::new(),
        query: String::new(),
        command: String::new(),
        args: vec![],
        timeout_secs: 300,
        resources: ResourceLimits::default(),
    }
}

fn make_context(task_id: &str) -> TaskContext {
    TaskContext {
        dag_id: "dag1".to_string(),
        run_id: "run1".to_string(),
        task_id: task_id.to_string(),
        attempt: 0,
        logical_date_epoch_ms: 1_700_000_000_000,
        environment: "dev".to_string(),
        params: HashMap::new(),
    }
}

fn make_assignment(id: &str, task_id: &str) -> TaskAssignment {
    TaskAssignment {
        assignment_id: id.to_string(),
        dag_id: "dag1".to_string(),
        run_id: "run1".to_string(),
        task_id: task_id.to_string(),
        attempt: 0,
        spec: make_spec(),
        context: make_context(task_id),
        deadline_epoch_ms: 1_700_000_300_000,
    }
}

fn make_result(assignment_id: &str, task_id: &str, outcome: TaskOutcome) -> TaskResult {
    TaskResult {
        assignment_id: assignment_id.to_string(),
        worker_id: "w1".to_string(),
        dag_id: "dag1".to_string(),
        run_id: "run1".to_string(),
        task_id: task_id.to_string(),
        attempt: 0,
        outcome,
        exit_code: 0,
        duration_ms: 1000,
        xcom_json: "{}".to_string(),
        error: String::new(),
        metrics: HashMap::new(),
    }
}

#[test]
fn test_coordinator_creation() {
    let coord = Coordinator::new(CoordinatorConfig::default());
    assert_eq!(coord.inflight_count(), 0);
    assert_eq!(coord.worker_pool().total_workers(), 0);
}

#[test]
fn test_register_worker_returns_channel() {
    let mut coord = Coordinator::new(CoordinatorConfig::default());
    coord.register_worker(&make_register("w1", 4));

    assert_eq!(coord.worker_pool().total_workers(), 1);
    assert_eq!(coord.worker_pool().active_workers(), 1);
}

#[test]
fn test_submit_task_dispatches_to_worker() {
    let mut coord = Coordinator::new(CoordinatorConfig::default());
    coord.register_worker(&make_register("w1", 4));

    let outcome = coord.submit_task(make_assignment("a1", "task1"), "default");
    assert_eq!(outcome, SubmitOutcome::Dispatched("w1".to_string()));

    let received = coord.inflight_assignment("a1").unwrap();
    assert_eq!(received.task_id, "task1");
    assert_eq!(coord.inflight_count(), 1);
}

#[test]
fn test_submit_task_queues_when_no_worker() {
    let mut coord = Coordinator::new(CoordinatorConfig::default());

    let outcome = coord.submit_task(make_assignment("a1", "task1"), "default");
    assert_eq!(outcome, SubmitOutcome::Queued);

    assert_eq!(coord.pending_count(), 1);
    assert_eq!(coord.inflight_count(), 0);
}

#[test]
fn test_handle_result_forwards_to_scheduler() {
    let mut coord = Coordinator::new(CoordinatorConfig::default());
    coord.register_worker(&make_register("w1", 4));
    coord.submit_task(make_assignment("a1", "task1"), "default");

    let sent = coord.handle_result(&make_result("a1", "task1", TaskOutcome::Success));
    assert!(sent.is_empty());
    assert_eq!(coord.inflight_count(), 0);
    assert_eq!(coord.worker_pool().list_workers()[0].tasks_completed, 1);
}

#[test]
fn test_queued_task_dispatched_after_completion() {
    let mut coord = Coordinator::new(CoordinatorConfig::default());
    coord.register_worker(&make_register("w1", 1));

    // Fill the only slot.
    coord.submit_task(make_assignment("a1", "task1"), "default");

    // Submit another: it queues.
    let outcome = coord.submit_task(make_assignment("a2", "task2"), "default");
    assert_eq!(outcome, SubmitOutcome::Queued);
    assert_eq!(coord.pending_count(), 1);

    // Completing the first task sends the queued one.
    let sent = coord.handle_result(&make_result("a1", "task1", TaskOutcome::Success));
    assert_eq!(sent, vec![("a2".to_string(), "w1".to_string())]);
    assert_eq!(coord.pending_count(), 0);
    assert_eq!(coord.inflight_assignment("a2").unwrap().task_id, "task2");
}

#[test]
fn test_handle_heartbeat() {
    let mut coord = Coordinator::new(CoordinatorConfig::default());
    coord.register_worker(&make_register("w1", 4));

    let hb = WorkerHeartbeat {
        worker_id: "w1".to_string(),
        active_tasks: 2,
        cpu_milli_percent: 50_000,
        memory_milli_percent: 60_000,
        disk_milli_percent: 20_000,
        running_assignments: vec!["a1".into()],
        timestamp_ms: 1_700_000_000_000,
    };

    let directive = coord.handle_heartbeat(&hb);
    match directive {
        CoordinatorDirective::HeartbeatAck { .. } => {}
        _ => panic!("Expected HeartbeatAck"),
    }
}

#[test]
fn test_handle_log_entry() {
    let mut coord = Coordinator::new(CoordinatorConfig::default());

    coord.handle_log_entry(TaskLogEntry {
        assignment_id: "a1".to_string(),
        worker_id: "w1".to_string(),
        level: LogLevel::Info,
        message: "Processing row 1000".to_string(),
        timestamp_ms: 1_700_000_000_000,
        metadata_json: String::new(),
    });

    let logs = coord.get_logs("a1");
    assert_eq!(logs.len(), 1);
    assert_eq!(logs[0].message, "Processing row 1000");
}

#[test]
fn test_cluster_status() {
    let mut coord = Coordinator::new(CoordinatorConfig::default());
    coord.register_worker(&make_register("w1", 4));
    coord.register_worker(&make_register("w2", 2));

    let status = coord.cluster_status(0);
    assert_eq!(status.health, ClusterHealth::Healthy);
    assert_eq!(status.workers.len(), 2);
}

#[test]
fn coordinator_drops_task_when_queue_full() {
    let config = CoordinatorConfig { max_queue_size: 1, ..CoordinatorConfig::default() };
    let mut coord = Coordinator::new(config);

    assert_eq!(coord.submit_task(make_assignment("a1", "t1"), ""), SubmitOutcome::Queued);
    assert_eq!(coord.submit_task(make_assignment("a2", "t2"), ""), SubmitOutcome::Dropped);
    assert_eq!(coord.pending_count(), 1);
}

#[test]
fn coordinator_empty_pool_means_default() {
    let mut coord = Coordinator::new(CoordinatorConfig::default());
    coord.register_worker_at(&make_register("w1", 2), 1_000);
    let outcome = coord.submit_task(make_assignment("a1", "t1"), "");
    assert_eq!(outcome, SubmitOutcome::Dispatched("w1".to_string()));

    // A pool no worker serves queues the task.
    let outcome = coord.submit_task(make_assignment("a2", "t2"), "gpu");
    assert_eq!(outcome, SubmitOutcome::Queued);
}

#[test]
fn coordinator_health_check_requeues_tasks_of_dead_worker() {
    let mut coord = Coordinator::new(CoordinatorConfig::default());
    coord.register_worker_at(&make_register("w1", 1), 0);
    coord.register_worker_at(&make_register("w2", 4), 0);
    assert_eq!(
        coord.submit_task(make_assignment("a1", "t1"), "default"),
        SubmitOutcome::Dispatched("w2".to_string())
    );

    // w1 keeps beating; w2 goes silent past the dead timeout.
    let hb = WorkerHeartbeat {
        worker_id: "w1".to_string(),
        active_tasks: 0,
        cpu_milli_percent: 0,
        memory_milli_percent: 0,
        disk_milli_percent: 0,
        running_assignments: vec![],
        timestamp_ms: 0,
    };
    coord.handle_heartbeat_at(&hb, 100_000);
    let sent = coord.health_check_at(130_000);

    // The task of w2 went back to the queue and on to w1.
    assert_eq!(sent, vec![("a1".to_string(), "w1".to_string())]);
    assert_eq!(coord.worker_pool().total_workers(), 1);
    assert_eq!(coord.pending_count(), 0);
    assert_eq!(coord.inflight_count(), 1);
    assert_eq!(coord.worker_pool().get_assignment_worker("a1"), Some("w1".to_string()));
}

#[test]
fn coordinator_health_check_leaves_live_workers_alone() {
    let mut coord = Coordinator::new(CoordinatorConfig::default());
    coord.register_worker_at(&make_register("w1", 1), 0);
    coord.submit_task(make_assignment("a1", "t1"), "default");
    let sent = coord.health_check_at(10_000);
    assert!(sent.is_empty());
    assert_eq!(coord.inflight_count(), 1);
    assert_eq!(coord.worker_pool().total_workers(), 1);
}

#[test]
fn coordinator_disconnect_requeues_and_redispatches() {
    let mut coord = Coordinator::new(CoordinatorConfig::default());
    coord.register_worker_at(&make_register("w1", 1), 0);
    coord.submit_task(make_assignment("a1", "t1"), "default");
    assert_eq!(coord.submit_task(make_assignment("a2", "t2"), "default"), SubmitOutcome::Queued);

    // With w1 gone, both tasks wait; the requeued one is in front.
    let sent = coord.handle_worker_disconnect("w1");
    assert!(sent.is_empty());
    assert_eq!(coord.pending_count(), 2);
    assert_eq!(coord.inflight_count(), 0);
    assert_eq!(coord.worker_pool().total_workers(), 0);

    // A new worker takes the front task at the next drain.
    coord.register_worker_at(&make_register("w2", 1), 1_000);
    let sent = coord.health_check_at(2_000);
    assert_eq!(sent, vec![("a1".to_string(), "w2".to_string())]);
    assert_eq!(coord.pending_count(), 1);
}

#[test]
fn coordinator_drain_keeps_queue_order() {
    let mut coord = Coordinator::new(CoordinatorConfig::default());
    for (id, t) in [("a1", "t1"), ("a2", "t2"), ("a3", "t3")] {
        assert_eq!(coord.submit_task(make_assignment(id, t), "default"), SubmitOutcome::Queued);
    }
    coord.register_worker_at(&make_register("w1", 2), 0);
    let sent = coord.health_check_at(1_000);
    assert_eq!(
        sent,
        vec![("a1".to_string(), "w1".to_string()), ("a2".to_string(), "w1".to_string())]
    );
    assert_eq!(coord.pending_count(), 1);
}

#[test]
fn coordinator_failed_result_counts_failure() {
    let mut coord = Coordinator::new(CoordinatorConfig {
        routing_strategy: RoutingStrategy::RoundRobin,
        ..CoordinatorConfig::default()
    });
    coord.register_worker_at(&make_register("w1", 2), 0);
    coord.submit_task(make_assignment("a1", "t1"), "default");
    coord.handle_result(&make_result("a1", "t1", TaskOutcome::Failed));
    let w = &coord.worker_pool().list_workers()[0];
    assert_eq!(w.tasks_failed, 1);
    assert_eq!(w.tasks_completed, 0);
    assert_eq!(w.active_tasks, 0);
}

#[test]
fn coordinator_logs_kept_per_assignment_in_order() {
    let mut coord = Coordinator::new(CoordinatorConfig::default());
    for (aid, msg) in [("a1", "one"), ("a2", "other"), ("a1", "two")] {
        coord.handle_log_entry(TaskLogEntry {
            assignment_id: aid.to_string(),
            worker_id: "w1".to_string(),
            level: LogLevel::Info,
            message: msg.to_string(),
            timestamp_ms: 0,
            metadata_json: String::new(),
        });
    }
    let logs = coord.get_logs("a1");
    assert_eq!(logs.len(), 2);
    assert_eq!(logs[0].message, "one");
    assert_eq!(logs[1].message, "two");
    assert!(coord.get_logs("zz").is_empty());
}
