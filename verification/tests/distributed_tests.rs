use std::collections::HashMap;

use conduit::convert::{
    cluster_health_from_i32, cluster_health_to_i32, log_level_from_i32, log_level_to_i32,
    task_outcome_from_i32, task_outcome_to_i32, task_type_from_i32, task_type_to_i32,
    worker_state_from_i32, worker_state_to_i32,
};
use conduit::distributed::{
    effective_pool, effective_timeout, error_text, outcome_succeeded, CoordinatorConfig,
    DistributedExecutorConfig, ExecutionMode, WorkerConfig,
};
use conduit::proto_types::{
    Ack, ClusterHealth, LogLevel, RegisterRequest, TaskOutcome, TaskType, WorkerHeartbeat,
    WorkerState,
};
use conduit::worker_pool::{RoutingStrategy, WorkerEntry, WorkerPool};

fn make_register_request(id: &str, capacity: u32, pools: Vec<&str>) -> RegisterRequest {
    RegisterRequest {
        worker_id: id.to_string(),
        hostname: format!("{}.local", id),
        capacity,
        pool_affinity: pools.into_iter().map(String::from).collect(),
        labels: HashMap::new(),
        version: "0.1.0".to_string(),
        health_port: 9090,
    }
}

#[test]
fn test_execution_mode_variants() {
    assert_ne!(ExecutionMode::Local, ExecutionMode::Distributed);
    assert_ne!(ExecutionMode::Distributed, ExecutionMode::Hybrid);
}

#[test]
fn lib_test_module_exports() {
    let _: CoordinatorConfig = CoordinatorConfig::default();
    let _: WorkerConfig = WorkerConfig::default();
    let _: DistributedExecutorConfig = DistributedExecutorConfig::default();
    let _: RoutingStrategy = RoutingStrategy::LeastLoaded;
    let _: ExecutionMode = ExecutionMode::Local;
}

#[test]
fn test_ack_constructors() {
    let ok = Ack::ok();
    assert!(ok.success);

    let err = Ack::error("something broke");
    assert!(!err.success);
    assert_eq!(err.message, "something broke");
}

#[test]
fn test_worker_registration() {
    let mut pool = WorkerPool::new(RoutingStrategy::LeastLoaded);
    let req = make_register_request("w1", 4, vec!["default"]);
    assert!(pool.register(&req));
    assert_eq!(pool.total_workers(), 1);
    assert_eq!(pool.active_workers(), 1);
}

#[test]
fn test_duplicate_registration() {
    let mut pool = WorkerPool::new(RoutingStrategy::LeastLoaded);
    let req = make_register_request("w1", 4, vec![]);
    assert!(pool.register(&req));
    assert!(!pool.register(&req));
    assert_eq!(pool.total_workers(), 1);
}

#[test]
fn test_select_worker_least_loaded() {
    let mut pool = WorkerPool::new(RoutingStrategy::LeastLoaded);
    pool.register(&make_register_request("w1", 2, vec!["default"]));
    pool.register(&make_register_request("w2", 4, vec!["default"]));
    let selected = pool.select_worker("default").unwrap();
    assert_eq!(selected, "w2");
}

#[test]
fn test_select_worker_bin_pack() {
    let mut pool = WorkerPool::new(RoutingStrategy::BinPack);
    pool.register(&make_register_request("w1", 2, vec!["default"]));
    pool.register(&make_register_request("w2", 4, vec!["default"]));
    let selected = pool.select_worker("default").unwrap();
    assert_eq!(selected, "w1");
}

#[test]
fn test_select_worker_pool_affinity() {
    let mut pool = WorkerPool::new(RoutingStrategy::LeastLoaded);
    pool.register(&make_register_request("w1", 4, vec!["gpu"]));
    pool.register(&make_register_request("w2", 4, vec!["default"]));
    assert_eq!(pool.select_worker("gpu").unwrap(), "w1");
    assert_eq!(pool.select_worker("default").unwrap(), "w2");
}

#[test]
fn test_select_worker_no_available() {
    let mut pool = WorkerPool::new(RoutingStrategy::LeastLoaded);
    pool.register(&make_register_request("w1", 1, vec!["default"]));
    pool.assign_task("a1", "w1");
    assert!(pool.select_worker("default").is_none());
}

#[test]
fn test_select_worker_round_robin_cycles() {
    let mut pool = WorkerPool::new(RoutingStrategy::RoundRobin);
    pool.register(&make_register_request("w1", 4, vec![]));
    pool.register(&make_register_request("w2", 4, vec![]));
    pool.register(&make_register_request("w3", 4, vec!["gpu"]));
    assert_eq!(pool.select_worker("default").unwrap(), "w1");
    assert_eq!(pool.select_worker("default").unwrap(), "w2");
    assert_eq!(pool.select_worker("default").unwrap(), "w1");
}

#[test]
fn test_least_loaded_breaks_ties_by_cpu() {
    let mut pool = WorkerPool::new(RoutingStrategy::LeastLoaded);
    pool.register(&make_register_request("w1", 4, vec![]));
    pool.register(&make_register_request("w2", 4, vec![]));
    pool.heartbeat(&WorkerHeartbeat {
        worker_id: "w2".to_string(),
        active_tasks: 0,
        cpu_milli_percent: 90_000,
        memory_milli_percent: 0,
        disk_milli_percent: 0,
        running_assignments: vec![],
        timestamp_ms: 0,
    });
    assert_eq!(pool.select_worker("").unwrap(), "w1");
}

#[test]
fn test_assign_and_complete_task() {
    let mut pool = WorkerPool::new(RoutingStrategy::LeastLoaded);
    pool.register(&make_register_request("w1", 4, vec![]));

    pool.assign_task("a1", "w1");
    assert_eq!(pool.total_running_tasks(), 1);
    assert_eq!(pool.get_assignment_worker("a1"), Some("w1".to_string()));

    pool.complete_task("a1", true);
    assert_eq!(pool.total_running_tasks(), 0);

    let workers = pool.list_workers();
    let w1 = workers.iter().find(|w| w.worker_id == "w1").unwrap();
    assert_eq!(w1.tasks_completed, 1);
    assert_eq!(w1.tasks_failed, 0);
}

#[test]
fn test_failed_task_counter() {
    let mut pool = WorkerPool::new(RoutingStrategy::LeastLoaded);
    pool.register(&make_register_request("w1", 4, vec![]));
    pool.assign_task("a1", "w1");
    pool.complete_task("a1", false);
    let workers = pool.list_workers();
    let w1 = workers.iter().find(|w| w.worker_id == "w1").unwrap();
    assert_eq!(w1.tasks_completed, 0);
    assert_eq!(w1.tasks_failed, 1);
}

#[test]
fn test_heartbeat_updates_metrics() {
    let mut pool = WorkerPool::new(RoutingStrategy::LeastLoaded);
    pool.register(&make_register_request("w1", 4, vec![]));
    pool.heartbeat(&WorkerHeartbeat {
        worker_id: "w1".to_string(),
        active_tasks: 2,
        cpu_milli_percent: 75_000,
        memory_milli_percent: 60_000,
        disk_milli_percent: 40_000,
        running_assignments: vec!["a1".into(), "a2".into()],
        timestamp_ms: 0,
    });
    let workers = pool.list_workers();
    let w1 = workers.iter().find(|w| w.worker_id == "w1").unwrap();
    assert_eq!(w1.active_tasks, 2);
    assert_eq!(w1.cpu_milli_percent, 75_000);
}

#[test]
fn test_drain_worker() {
    let mut pool = WorkerPool::new(RoutingStrategy::LeastLoaded);
    pool.register(&make_register_request("w1", 4, vec![]));
    pool.drain_worker("w1", "maintenance");
    let workers = pool.list_workers();
    let w1 = workers.iter().find(|w| w.worker_id == "w1").unwrap();
    assert_eq!(w1.state, WorkerState::Draining);
}

#[test]
fn test_draining_worker_not_selected() {
    let mut pool = WorkerPool::new(RoutingStrategy::LeastLoaded);
    pool.register(&make_register_request("w1", 4, vec!["default"]));
    pool.drain_worker("w1", "maintenance");
    assert!(pool.select_worker("default").is_none());
}

#[test]
fn test_cluster_status_healthy() {
    let mut pool = WorkerPool::new(RoutingStrategy::LeastLoaded);
    pool.register(&make_register_request("w1", 4, vec![]));
    pool.register(&make_register_request("w2", 4, vec![]));
    let status = pool.cluster_status(3600);
    assert_eq!(status.health, ClusterHealth::Healthy);
    assert_eq!(status.workers.len(), 2);
    assert_eq!(status.uptime_secs, 3600);
}

#[test]
fn worker_pool_test_cluster_status_empty() {
    let pool = WorkerPool::new(RoutingStrategy::LeastLoaded);
    let status = pool.cluster_status(0);
    assert_eq!(status.health, ClusterHealth::Unhealthy);
    assert_eq!(status.workers.len(), 0);
}

#[test]
fn test_cluster_status_degraded() {
    let mut pool = WorkerPool::new(RoutingStrategy::LeastLoaded);
    pool.register(&make_register_request("w1", 4, vec![]));
    pool.register(&make_register_request("w2", 4, vec![]));
    pool.drain_worker("w2", "maintenance");
    assert_eq!(pool.cluster_status(1).health, ClusterHealth::Degraded);
    pool.drain_worker("w1", "maintenance");
    assert_eq!(pool.cluster_status(1).health, ClusterHealth::Unhealthy);
}

#[test]
fn test_wildcard_pool_affinity() {
    let entry = WorkerEntry::from_registration(&make_register_request("w1", 4, vec!["*"]));
    assert!(entry.can_handle_pool("default"));
    assert!(entry.can_handle_pool("gpu"));
    assert!(entry.can_handle_pool("anything"));
}

#[test]
fn test_no_affinity_takes_default_pool_only() {
    let entry = WorkerEntry::from_registration(&make_register_request("w1", 4, vec![]));
    assert!(entry.can_handle_pool("default"));
    assert!(entry.can_handle_pool(""));
    assert!(!entry.can_handle_pool("gpu"));
}

#[test]
fn test_remove_worker() {
    let mut pool = WorkerPool::new(RoutingStrategy::LeastLoaded);
    pool.register(&make_register_request("w1", 4, vec![]));
    pool.assign_task("a1", "w1");
    pool.remove_worker("w1");
    assert_eq!(pool.total_workers(), 0);
    assert!(pool.get_assignment_worker("a1").is_none());
}

#[test]
fn test_total_available_slots() {
    let mut pool = WorkerPool::new(RoutingStrategy::LeastLoaded);
    pool.register(&make_register_request("w1", 4, vec![]));
    pool.register(&make_register_request("w2", 2, vec![]));
    assert_eq!(pool.total_available_slots(), 6);
    pool.assign_task("a1", "w1");
    assert_eq!(pool.total_available_slots(), 5);
}

#[test]
fn test_health_check_disconnects_then_kills() {
    let mut pool = WorkerPool::new(RoutingStrategy::LeastLoaded);
    pool.register_at(&make_register_request("w1", 4, vec![]), 1_000);
    pool.register_at(&make_register_request("w2", 4, vec![]), 1_000);
    pool.drain_worker("w2", "maintenance");
    pool.assign_task("a1", "w1");

    assert!(pool.check_health_at(31_000).is_empty());
    let ws = pool.list_workers();
    assert_eq!(ws[0].state, WorkerState::Active);

    assert!(pool.check_health_at(31_001).is_empty());
    let ws = pool.list_workers();
    assert_eq!(ws[0].state, WorkerState::Disconnected);
    assert_eq!(ws[1].state, WorkerState::Draining);

    let dead = pool.check_health_at(121_001);
    assert_eq!(dead, vec!["w1".to_string(), "w2".to_string()]);
    assert_eq!(pool.orphaned_assignments(&dead), vec!["a1".to_string()]);
    assert!(pool.check_health_at(500_000).is_empty());
}

#[test]
fn test_heartbeat_reconnects_disconnected_worker() {
    let mut pool = WorkerPool::new(RoutingStrategy::LeastLoaded);
    pool.register_at(&make_register_request("w1", 4, vec![]), 0);
    pool.check_health_at(40_000);
    assert_eq!(pool.list_workers()[0].state, WorkerState::Disconnected);
    pool.heartbeat_at(
        &WorkerHeartbeat {
            worker_id: "w1".to_string(),
            active_tasks: 0,
            cpu_milli_percent: 0,
            memory_milli_percent: 0,
            disk_milli_percent: 0,
            running_assignments: vec![],
            timestamp_ms: 40_000,
        },
        40_000,
    );
    assert_eq!(pool.list_workers()[0].state, WorkerState::Active);
    assert_eq!(pool.list_workers()[0].last_heartbeat_ms, 40_000);
}

#[test]
fn test_reregistration_updates_capacity_and_pools() {
    let mut pool = WorkerPool::new(RoutingStrategy::LeastLoaded);
    pool.register_at(&make_register_request("w1", 4, vec!["a"]), 5);
    pool.drain_worker("w1", "x");
    assert!(!pool.register_at(&make_register_request("w1", 8, vec!["b"]), 9));
    let w = &pool.list_workers()[0];
    assert_eq!(w.capacity, 8);
    assert_eq!(w.pool_affinity, vec!["b".to_string()]);
    assert_eq!(w.state, WorkerState::Active);
    assert_eq!(w.registered_at_ms, 5);
    assert_eq!(w.last_heartbeat_ms, 9);
}

#[test]
fn test_enum_numbers_round_trip() {
    for tt in [
        TaskType::Unspecified,
        TaskType::Python,
        TaskType::Bash,
        TaskType::Sql,
        TaskType::Sensor,
        TaskType::Executable,
    ] {
        assert_eq!(task_type_from_i32(task_type_to_i32(tt)), tt);
    }
    assert_eq!(task_outcome_to_i32(TaskOutcome::Success), 1);
    assert_eq!(task_outcome_from_i32(4), TaskOutcome::Skipped);
    assert_eq!(log_level_to_i32(LogLevel::Warn), 3);
    assert_eq!(log_level_from_i32(3), LogLevel::Warn);
    assert_eq!(worker_state_from_i32(worker_state_to_i32(WorkerState::Dead)), WorkerState::Dead);
    assert_eq!(cluster_health_to_i32(ClusterHealth::Healthy), 1);
    assert_eq!(cluster_health_from_i32(99), ClusterHealth::Unspecified);
    assert_eq!(task_type_from_i32(-1), TaskType::Unspecified);
}

#[test]
fn test_config_defaults() {
    let c = CoordinatorConfig::default();
    assert_eq!(c.bind_addr, "0.0.0.0:9400");
    assert_eq!(c.health_check_interval_secs, 10);
    assert_eq!(c.max_queue_size, 10_000);
    let d = DistributedExecutorConfig::default();
    assert_eq!(d.default_timeout_secs, 3600);
    let w = WorkerConfig::for_host("node7", 4242);
    assert_eq!(w.worker_id, "worker-node7-4242");
    assert_eq!(w.capacity, 4);
    assert_eq!(w.pool_affinity, vec!["default".to_string()]);
}

#[test]
fn test_dispatch_decisions() {
    let d = DistributedExecutorConfig::default();
    assert_eq!(effective_timeout(&d, 0), 3600);
    assert_eq!(effective_timeout(&d, 5), 5);
    assert_eq!(effective_pool(""), "default");
    assert_eq!(effective_pool("gpu"), "gpu");
    assert!(outcome_succeeded(TaskOutcome::Success));
    assert!(!outcome_succeeded(TaskOutcome::Retry));
    assert_eq!(error_text(""), None);
    assert_eq!(error_text("boom"), Some("boom".to_string()));
}
