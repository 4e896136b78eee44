use conduit::command::{python_path_value, ProcessRunner, TaskContext, FILE_SENSOR};
use conduit::dag::TaskType;
use conduit::error::ConduitError;
use conduit::incremental::Timestamp;
use conduit::proto_types::{LogLevel, TaskOutcome};
use conduit::task_output::{
    error_for, outcome_for_exit_code, python_command, scan_output, split_lines, task_timeout_secs,
};

fn lines(s: &str) -> Vec<String> {
    split_lines(s).into_iter().map(|l| l.into_iter().collect()).collect()
}

#[test]
fn lines_follow_std_lines() {
    for text in ["", "a", "a\n", "a\nb", "a\r\nb\r\n", "\n", "a\n\nb", "x\ry\n", "\r"] {
        let expected: Vec<String> = text.lines().map(String::from).collect();
        assert_eq!(lines(text), expected, "text {:?}", text);
    }
}

#[test]
fn scan_output_keeps_last_xcom_metrics_and_logs() {
    let out = scan_output(
        "hello\nCONDUIT::XCOM::{\"a\":1}\nCONDUIT::METRIC::rows::10\nCONDUIT::METRIC::bad\nCONDUIT::LOG::WARN::careful\nCONDUIT::LOG::plain\nCONDUIT::XCOM::{\"b\":2}\n",
    );
    assert_eq!(out.xcom, "{\"b\":2}");
    assert_eq!(out.metrics, vec![("rows".to_string(), "10".to_string())]);
    assert_eq!(
        out.logs,
        vec![(LogLevel::Warn, "careful".to_string()), (LogLevel::Info, "plain".to_string())]
    );
}

#[test]
fn outcome_by_exit_code() {
    assert_eq!(outcome_for_exit_code(0), TaskOutcome::Success);
    assert_eq!(outcome_for_exit_code(2), TaskOutcome::Retry);
    assert_eq!(outcome_for_exit_code(3), TaskOutcome::Skipped);
    assert_eq!(outcome_for_exit_code(1), TaskOutcome::Failed);
    assert_eq!(outcome_for_exit_code(-1), TaskOutcome::Failed);
    assert_eq!(error_for(TaskOutcome::Success, "noise"), "");
    assert_eq!(error_for(TaskOutcome::Failed, "boom"), "boom");
    assert_eq!(task_timeout_secs(0), 3600);
    assert_eq!(task_timeout_secs(9), 9);
}

#[test]
fn python_command_quotes_single_quotes() {
    assert_eq!(python_command("print('hi')"), "python3 -c 'print('\\''hi'\\'')'");
}

fn context() -> TaskContext {
    TaskContext {
        dag_id: "etl".to_string(),
        run_id: "run_1".to_string(),
        task_id: "load".to_string(),
        attempt: 2,
        logical_date: Timestamp::from_unix(0, 0).unwrap(),
        environment: "prod".to_string(),
        params: vec![("filepath".to_string(), "/tmp/x".to_string())],
        extra_env: vec![("CONDUIT_FULL_REFRESH".to_string(), "true".to_string())],
    }
}

#[test]
fn test_bash_command_building() {
    let spec = ProcessRunner::build_command(
        "load",
        &TaskType::Bash { command: "echo hi".to_string() },
        &context(),
        "/xcom/run_1",
        "./dags:.",
    )
    .unwrap();
    assert_eq!(spec.program, "bash");
    assert_eq!(spec.args, vec!["-c".to_string(), "echo hi".to_string()]);
    let env: Vec<(&str, &str)> = spec.env.iter().map(|(k, v)| (k.as_str(), v.as_str())).collect();
    assert_eq!(
        env,
        vec![
            ("CONDUIT_DAG_ID", "etl"),
            ("CONDUIT_RUN_ID", "run_1"),
            ("CONDUIT_TASK_ID", "load"),
            ("CONDUIT_ATTEMPT", "2"),
            ("CONDUIT_LOGICAL_DATE", "1970-01-01T00:00:00+00:00"),
            ("CONDUIT_ENVIRONMENT", "prod"),
            ("CONDUIT_XCOM_DIR", "/xcom/run_1"),
            ("CONDUIT_PARAM_FILEPATH", "/tmp/x"),
            ("CONDUIT_FULL_REFRESH", "true"),
        ]
    );
}

#[test]
fn python_command_runs_the_task_through_the_sdk() {
    let spec = ProcessRunner::build_command(
        "load",
        &TaskType::Python { module: "jobs".to_string(), function: "load".to_string() },
        &context(),
        "/x",
        "./dags:.",
    )
    .unwrap();
    assert_eq!(spec.program, "python3");
    assert_eq!(
        spec.args[1],
        "from conduit_sdk._runtime import run_task; run_task(\"jobs\", \"etl\", \"load\", \"load\")"
    );
    let n = spec.env.len();
    assert_eq!(spec.env[n - 2], ("PYTHONPATH".to_string(), "./dags:.".to_string()));
    assert_eq!(spec.env[n - 1], ("CONDUIT_RUNTIME_MODE".to_string(), "1".to_string()));
}

#[test]
fn sensor_and_sql_commands() {
    let spec = ProcessRunner::build_command(
        "wait",
        &TaskType::Sensor { sensor_type: "file".to_string(), poke_interval: None },
        &context(),
        "/x",
        "",
    )
    .unwrap();
    assert_eq!(spec.args[1], FILE_SENSOR);
    let tail: Vec<(String, String)> = spec.env[spec.env.len() - 3..].to_vec();
    assert_eq!(
        tail,
        vec![
            ("CONDUIT_SENSOR_TYPE".to_string(), "file".to_string()),
            ("CONDUIT_POKE_INTERVAL".to_string(), "30s".to_string()),
            ("CONDUIT_SENSOR_FILEPATH".to_string(), "/tmp/x".to_string()),
        ]
    );
    match ProcessRunner::build_command("w", &TaskType::Sensor { sensor_type: "kafka".to_string(), poke_interval: None }, &context(), "/x", "") {
        Err(ConduitError::ExecutionError(m)) => {
            assert_eq!(m, "Unknown sensor type 'kafka' and no 'command' param provided")
        }
        other => panic!("unexpected {:?}", other),
    }
    let sql = TaskType::Sql { connection: "wh".to_string(), query: "SELECT 1".to_string(), target: None };
    assert!(matches!(ProcessRunner::build_command("q", &sql, &context(), "/x", ""), Err(ConduitError::ExecutionError(_))));
}

#[test]
fn python_path_joins_its_parts() {
    assert_eq!(python_path_value("./dags", &None, ""), "./dags:.");
    assert_eq!(python_path_value("d", &Some("sdk".to_string()), "old"), "d:.:sdk:old");
}
