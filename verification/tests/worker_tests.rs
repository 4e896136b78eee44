use std::collections::HashMap;

use conduit::command::ProcessRunner;
use conduit::distributed::WorkerConfig;
use conduit::duration::{Duration, SensorStep};
use conduit::proto_types::{
    CoordinatorDirective, ResourceLimits, TaskAssignment, TaskContext, TaskOutcome, TaskSpec, TaskType,
    WorkerState,
};
use conduit::proto_types::LogLevel;
use conduit::worker::{
    cancelled_result, completion_message, directive_action, sql_report, starting_message, task_result, task_script,
    DirectiveAction, Worker,
};

fn make_worker() -> Worker {
    Worker::new(WorkerConfig {
        worker_id: "test-worker".to_string(),
        coordinator_addr: "localhost:9400".to_string(),
        capacity: 4,
        pool_affinity: vec!["default".to_string()],
        labels: HashMap::new(),
        heartbeat_interval_secs: 5,
        graceful_shutdown: true,
        tls_ca_cert_path: None,
    })
}

fn make_assignment(task_id: &str) -> TaskAssignment {
    TaskAssignment {
        assignment_id: format!("assign-{}", task_id),
        dag_id: "dag1".to_string(),
        run_id: "run1".to_string(),
        task_id: task_id.to_string(),
        attempt: 0,
        spec: TaskSpec {
            task_type: TaskType::Bash,
            script: "echo hello".to_string(),
            connection: String::new(),
            query: String::new(),
            command: String::new(),
            args: vec![],
            timeout_secs: 30,
            resources: ResourceLimits::default(),
        },
        context: TaskContext {
            dag_id: "dag1".to_string(),
            run_id: "run1".to_string(),
            task_id: task_id.to_string(),
            attempt: 0,
            logical_date_epoch_ms: 1_700_000_000_000,
            environment: "test".to_string(),
            params: HashMap::new(),
        },
        deadline_epoch_ms: 1_700_000_030_000,
    }
}

#[test]
fn test_worker_creation() {
    let worker = make_worker();
    assert_eq!(worker.id(), "test-worker");
    assert_eq!(worker.running_count(), 0);
}

#[test]
fn test_worker_registration_message() {
    let worker = make_worker();
    let reg = worker.registration("host-a", "0.1.0");
    assert_eq!(reg.worker_id, "test-worker");
    assert_eq!(reg.capacity, 4);
    assert_eq!(reg.pool_affinity, vec!["default"]);
    assert_eq!(reg.hostname, "host-a");
    assert_eq!(reg.health_port, 0);
}

#[test]
fn test_heartbeat_message() {
    let worker = make_worker();
    let hb = worker.heartbeat(0, 0, 0);
    assert_eq!(hb.worker_id, "test-worker");
    assert_eq!(hb.active_tasks, 0);
    assert!(hb.running_assignments.is_empty());
}

#[test]
fn test_drain_rejects_new_tasks() {
    let mut worker = make_worker();

    worker.drain();
    assert_eq!(worker.state(), WorkerState::Draining);

    let result = worker.handle_assignment(&make_assignment("rejected_task")).unwrap();
    assert_eq!(result.outcome, TaskOutcome::Failed);
    assert!(result.error.contains("draining"));
    assert_eq!(result.exit_code, -1);
    assert_eq!(worker.running_count(), 0);
}

#[test]
fn worker_tracks_running_assignments() {
    let mut worker = make_worker();
    assert!(worker.handle_assignment(&make_assignment("a")).is_none());
    assert!(worker.handle_assignment(&make_assignment("b")).is_none());
    assert_eq!(worker.running_count(), 2);
    let hb = worker.heartbeat_at(1_500, 2_000, 0, 42);
    assert_eq!(hb.active_tasks, 2);
    assert_eq!(hb.running_assignments, vec!["assign-a".to_string(), "assign-b".to_string()]);
    assert_eq!(hb.timestamp_ms, 42);
    assert_eq!(hb.cpu_milli_percent, 1_500);

    assert!(worker.cancel_task("assign-a"));
    assert!(!worker.cancel_task("assign-z"));

    // The same assignment again counts once.
    worker.handle_assignment(&make_assignment("a"));
    assert_eq!(worker.running_count(), 2);

    worker.finish("assign-a");
    assert_eq!(worker.running_count(), 1);
    assert!(!worker.cancel_task("assign-a"));
    worker.finish("assign-a");
    assert_eq!(worker.running_count(), 1);
}

#[test]
fn worker_cancelled_result() {
    let r = cancelled_result(&make_assignment("t"), "w9", 1234);
    assert_eq!(r.error, "Task cancelled by coordinator");
    assert_eq!(r.outcome, TaskOutcome::Failed);
    assert_eq!(r.exit_code, -1);
    assert_eq!(r.duration_ms, 1234);
    assert_eq!(r.worker_id, "w9");
    assert_eq!(r.task_id, "t");
}

#[test]
fn worker_directive_actions() {
    let cancel = CoordinatorDirective::CancelTask { assignment_id: "a1".into(), reason: "stop".into() };
    assert_eq!(directive_action(&cancel), DirectiveAction::Cancel("a1".to_string()));
    let drain = CoordinatorDirective::Drain { reason: "bye".into(), grace_period_secs: 30 };
    assert_eq!(directive_action(&drain), DirectiveAction::Drain(30));
    let ack = CoordinatorDirective::HeartbeatAck { timestamp_ms: 5 };
    assert_eq!(directive_action(&ack), DirectiveAction::Nothing);
}

#[test]
fn worker_scripts_by_task_type() {
    let mut spec = make_assignment("t").spec;
    assert_eq!(task_script(&spec), Ok(Some("echo hello".to_string())));

    spec.task_type = TaskType::Python;
    spec.script = "print('x')".to_string();
    assert_eq!(task_script(&spec), Ok(Some("python3 -c 'print('\\''x'\\'')'".to_string())));

    spec.task_type = TaskType::Executable;
    spec.command = "/bin/tool".to_string();
    assert_eq!(task_script(&spec), Ok(Some("/bin/tool".to_string())));
    spec.args = vec!["--fast".to_string(), "x y".to_string()];
    assert_eq!(task_script(&spec), Ok(Some("/bin/tool --fast x y".to_string())));

    spec.task_type = TaskType::Sql;
    assert_eq!(task_script(&spec), Ok(None));

    spec.task_type = TaskType::Sensor;
    assert_eq!(task_script(&spec), Err("Unsupported task type: Sensor".to_string()));
}

#[test]
fn sensor_steps() {
    let (interval, timeout) = ProcessRunner::sensor_timing(&None, &None);
    assert_eq!(interval, Duration::from_secs(30));
    assert_eq!(timeout, Duration::from_secs(3600));
    let (interval, timeout) = ProcessRunner::sensor_timing(&Some("5s".to_string()), &Some("2m".to_string()));
    assert_eq!(interval, Duration::from_secs(5));
    assert_eq!(timeout, Duration::from_secs(120));

    assert_eq!(ProcessRunner::sensor_step(0, &Duration::from_secs(500), &timeout), SensorStep::Met);
    assert_eq!(ProcessRunner::sensor_step(1, &Duration::from_secs(119), &timeout), SensorStep::Wait);
    assert_eq!(ProcessRunner::sensor_step(1, &Duration::from_secs(120), &timeout), SensorStep::TimedOut);
    assert_eq!(ProcessRunner::sensor_step(1, &Duration::new(119, 999_999_999), &timeout), SensorStep::Wait);
}

#[test]
fn sensor_timeout_line_rounds_half_to_even() {
    assert_eq!(
        ProcessRunner::sensor_timeout_line(3, &Duration::new(60, 400_000_000)),
        "\nCONDUIT::LOG::ERROR::Sensor timed out after 3 attempts (60s)"
    );
    assert_eq!(
        ProcessRunner::sensor_timeout_line(1, &Duration::new(2, 500_000_000)),
        "\nCONDUIT::LOG::ERROR::Sensor timed out after 1 attempts (2s)"
    );
    assert_eq!(
        ProcessRunner::sensor_timeout_line(1, &Duration::new(3, 500_000_000)),
        "\nCONDUIT::LOG::ERROR::Sensor timed out after 1 attempts (4s)"
    );
    assert_eq!(
        ProcessRunner::sensor_timeout_line(7, &Duration::new(9, 500_000_001)),
        "\nCONDUIT::LOG::ERROR::Sensor timed out after 7 attempts (10s)"
    );
    assert_eq!(format!("{:.0}", 2.5f64), "2");
    assert_eq!(format!("{:.0}", 3.5f64), "4");
}

#[test]
fn interval_range_check() {
    assert!(ProcessRunner::interval_in_range("30s"));
    assert!(ProcessRunner::interval_in_range(""));
    assert!(!ProcessRunner::interval_in_range("18446744073709551615d"));
    assert!(ProcessRunner::interval_in_range("18446744073709551615"));
}

#[test]
fn sql_report_quotes_and_cuts_the_query() {
    let mut a = make_assignment("load");
    a.spec.task_type = TaskType::Sql;
    a.spec.connection = "warehouse \"main\"".to_string();
    a.spec.query = format!("SELECT '{}'", "x".repeat(300));
    let (xcom, line) = sql_report(&a.spec);
    let preview: String = a.spec.query.chars().take(200).collect();
    assert_eq!(
        xcom,
        format!("{{\"connection\":\"warehouse \\\"main\\\"\",\"query_preview\":\"{}\"}}", preview)
    );
    let head: String = a.spec.query.chars().take(100).collect();
    assert_eq!(line, format!("SQL task on connection 'warehouse \"main\"': {}", head));
    // A short query is kept whole; multi-byte text is cut by bytes.
    a.spec.query = "SELECT 1".to_string();
    let (xcom, line) = sql_report(&a.spec);
    assert!(xcom.ends_with(",\"query_preview\":\"SELECT 1\"}"));
    assert!(line.ends_with("': SELECT 1"));
    a.spec.query = "é".repeat(60);
    let (_, line) = sql_report(&a.spec);
    assert_eq!(line, format!("SQL task on connection 'warehouse \"main\"': {}", "é".repeat(50)));
}

#[test]
fn task_messages_and_result() {
    let a = make_assignment("extract");
    assert_eq!(starting_message(&a), "Starting task extract (attempt 0)");
    let (level, m) = completion_message(&a, TaskOutcome::Success, 1234);
    assert_eq!(level, LogLevel::Info);
    assert_eq!(m, "Task extract completed: Success (1234ms)");
    let (level, m) = completion_message(&a, TaskOutcome::Failed, 7);
    assert_eq!(level, LogLevel::Error);
    assert_eq!(m, "Task extract completed: Failed (7ms)");
    let mut metrics = HashMap::new();
    metrics.insert("rows".to_string(), "12".to_string());
    let r = task_result(&a, "w1", TaskOutcome::Success, 0, 1234, "{}".to_string(), String::new(), metrics);
    assert_eq!(r.assignment_id, "assign-extract");
    assert_eq!(r.worker_id, "w1");
    assert_eq!(r.dag_id, "dag1");
    assert_eq!(r.run_id, "run1");
    assert_eq!(r.task_id, "extract");
    assert_eq!(r.attempt, 0);
    assert_eq!(r.outcome, TaskOutcome::Success);
    assert_eq!(r.duration_ms, 1234);
    assert_eq!(r.xcom_json, "{}");
    assert_eq!(r.metrics.get("rows").map(|s| s.as_str()), Some("12"));
}

#[test]
fn sql_report_escapes_the_connection_as_json() {
    let mut a = make_assignment("load");
    a.spec.task_type = TaskType::Sql;
    a.spec.connection = "a\tb\u{1}é\\\n\u{1f}".to_string();
    a.spec.query = "q".to_string();
    let (xcom, _) = sql_report(&a.spec);
    assert_eq!(xcom, "{\"connection\":\"a\\tb\\u0001é\\\\\\n\\u001f\",\"query_preview\":\"q\"}");
}

#[test]
fn sdk_level_takes_the_lowest_of_six_levels() {
    assert_eq!(conduit::command::sdk_level(&vec![]), None);
    assert_eq!(conduit::command::sdk_level(&vec![(false, false), (false, true), (true, false)]), Some((1, false)));
    assert_eq!(conduit::command::sdk_level(&vec![(false, false), (true, true)]), Some((1, true)));
    let mut far = vec![(false, false); 6];
    far.push((true, true));
    assert_eq!(conduit::command::sdk_level(&far), None);
    far[5] = (false, true);
    assert_eq!(conduit::command::sdk_level(&far), Some((5, false)));
}
