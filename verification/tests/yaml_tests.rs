use conduit::config::{default_cache_enabled, default_dags_path, default_max_active_tasks, default_timeout_secs, default_vault_auth, default_vault_mount, ConduitConfig};
use conduit::dag::TaskType;
use conduit::error::ConduitError;
use conduit::incremental::{IncrementalStrategy, PartitionGranularity};
use conduit::yaml::{default_max_active_runs, granularity_for, YamlDag, YamlDagParser, YamlIncrementalConfig, YamlTask};

fn task(kind: &str) -> YamlTask {
    YamlTask {
        task_type: kind.to_string(),
        module: None,
        function: None,
        command: None,
        connection: None,
        query: None,
        sensor_type: None,
        poke_interval: None,
        args: vec![],
        depends_on: vec![],
        retries: 0,
        retry_delay: None,
        pool: None,
        timeout: None,
        priority: 0,
        trigger_rule: None,
        resources: None,
        incremental: None,
    }
}

fn incremental(strategy: &str) -> YamlIncrementalConfig {
    YamlIncrementalConfig {
        strategy: strategy.to_string(),
        time_column: None,
        lookback: None,
        unique_key: vec![],
        partition_column: None,
        partition_granularity: None,
        check_columns: vec![],
        scd_type_2: false,
        batch_size: None,
        max_partitions_per_run: None,
        invalidate_hard_deletes: false,
    }
}

#[test]
fn parse_all_task_types() {
    match YamlDagParser::resolve_task_type("t", &task("python"), "f.yaml").unwrap() {
        TaskType::Python { module, function } => {
            assert_eq!(module, "tasks");
            assert_eq!(function, "t");
        }
        other => panic!("unexpected {:?}", other),
    }
    let mut sh = task("Shell");
    sh.command = Some("echo hi".to_string());
    assert!(matches!(YamlDagParser::resolve_task_type("t", &sh, "f.yaml").unwrap(), TaskType::Bash { command } if command == "echo hi"));
    let mut sql = task("SQL");
    sql.query = Some("SELECT 1".to_string());
    match YamlDagParser::resolve_task_type("t", &sql, "f.yaml").unwrap() {
        TaskType::Sql { connection, query, target } => {
            assert_eq!(connection, "default");
            assert_eq!(query, "SELECT 1");
            assert_eq!(target, None);
        }
        other => panic!("unexpected {:?}", other),
    }
    match YamlDagParser::resolve_task_type("t", &task("sensor"), "f.yaml").unwrap() {
        TaskType::Sensor { sensor_type, poke_interval } => {
            assert_eq!(sensor_type, "file");
            assert_eq!(poke_interval, None);
        }
        other => panic!("unexpected {:?}", other),
    }
    let mut ex = task("exec");
    ex.command = Some("./run".to_string());
    ex.args = vec!["--fast".to_string()];
    match YamlDagParser::resolve_task_type("t", &ex, "f.yaml").unwrap() {
        TaskType::Executable { command, args } => {
            assert_eq!(command, "./run");
            assert_eq!(args, vec!["--fast".to_string()]);
        }
        other => panic!("unexpected {:?}", other),
    }
}

#[test]
fn missing_required_field_returns_error() {
    match YamlDagParser::resolve_task_type("load", &task("sql"), "dags/x.yaml") {
        Err(ConduitError::ParseError { file, message }) => {
            assert_eq!(file, "dags/x.yaml");
            assert_eq!(message, "Task 'load': sql task requires 'query' field");
        }
        other => panic!("unexpected {:?}", other),
    }
    match YamlDagParser::resolve_task_type("run", &task("bash"), "a.yaml") {
        Err(ConduitError::ParseError { message, .. }) => {
            assert_eq!(message, "Task 'run': shell task requires 'command' field")
        }
        other => panic!("unexpected {:?}", other),
    }
}

#[test]
fn unknown_task_type_returns_error() {
    match YamlDagParser::resolve_task_type("t", &task("Spark"), "a.yaml") {
        Err(ConduitError::ParseError { message, .. }) => assert_eq!(
            message,
            "Task 't': unknown task type 'spark'. Expected: python, shell, sql, sensor, executable"
        ),
        other => panic!("unexpected {:?}", other),
    }
}

#[test]
fn parse_incremental_config() {
    let mut y = incremental("append");
    y.lookback = Some("2h".to_string());
    y.batch_size = Some(500);
    let c = YamlDagParser::resolve_incremental_config(&y).unwrap();
    assert_eq!(
        c.strategy,
        IncrementalStrategy::Append { time_column: "created_at".to_string(), lookback: Some("2h".to_string()) }
    );
    assert!(c.allow_full_refresh);
    assert!(!c.force_full_refresh);
    assert!(c.emit_watermark);
    assert_eq!(c.batch_size, Some(500));
}

#[test]
fn parse_merge_on_key_incremental() {
    let mut y = incremental("UPSERT");
    y.unique_key = vec!["id".to_string()];
    y.time_column = Some("updated_at".to_string());
    y.invalidate_hard_deletes = true;
    let c = YamlDagParser::resolve_incremental_config(&y).unwrap();
    assert_eq!(
        c.strategy,
        IncrementalStrategy::MergeOnKey {
            unique_key: vec!["id".to_string()],
            time_column: Some("updated_at".to_string()),
            invalidate_hard_deletes: true,
        }
    );
}

#[test]
fn parse_delete_insert_incremental() {
    let mut y = incremental("delete+insert");
    y.partition_granularity = Some("Month".to_string());
    let c = YamlDagParser::resolve_incremental_config(&y).unwrap();
    assert_eq!(
        c.strategy,
        IncrementalStrategy::DeleteInsert {
            partition_column: "dt".to_string(),
            partition_granularity: PartitionGranularity::Month,
            time_column: None,
        }
    );
    let c = YamlDagParser::resolve_incremental_config(&incremental("delete_insert")).unwrap();
    assert!(matches!(c.strategy, IncrementalStrategy::DeleteInsert { partition_granularity: PartitionGranularity::Day, .. }));
}

#[test]
fn snapshot_and_full_strategies() {
    let c = YamlDagParser::resolve_incremental_config(&incremental("scd")).unwrap();
    assert!(matches!(c.strategy, IncrementalStrategy::SnapshotDiff { scd_type_2: false, .. }));
    let c = YamlDagParser::resolve_incremental_config(&incremental("full")).unwrap();
    assert_eq!(c.strategy, IncrementalStrategy::FullRefresh);
}

#[test]
fn unknown_incremental_strategy_is_a_config_error() {
    match YamlDagParser::resolve_incremental_config(&incremental("Magic")) {
        Err(ConduitError::ConfigError(m)) => assert_eq!(
            m,
            "Unknown incremental strategy: 'magic'. Expected: full_refresh, append, merge, delete_insert, snapshot"
        ),
        other => panic!("unexpected {:?}", other),
    }
}

#[test]
fn defaults_applied_correctly() {
    assert_eq!(default_max_active_runs(), 1);
    let mut load = task("sql");
    load.query = Some("INSERT".to_string());
    load.depends_on = vec!["extract".to_string()];
    load.retries = 3;
    load.timeout = Some("30m".to_string());
    let dag = YamlDag {
        id: "daily".to_string(),
        description: None,
        schedule: Some("0 6 * * *".to_string()),
        tags: vec!["etl".to_string()],
        max_active_runs: default_max_active_runs(),
        on_failure: None,
        tasks: vec![("extract".to_string(), task("python")), ("load".to_string(), load)],
    };
    let parsed = YamlDagParser::convert_to_parsed_dag(&dag, "dags/daily.yaml").unwrap();
    assert_eq!(parsed.id, "daily");
    assert_eq!(parsed.source_file, "dags/daily.yaml");
    assert_eq!(parsed.max_active_runs, 1);
    assert_eq!(parsed.tasks.len(), 2);
    assert_eq!(parsed.tasks[1].id, "load");
    assert_eq!(parsed.tasks[1].retries, 3);
    assert_eq!(parsed.tasks[1].raw_dependencies, vec!["extract".to_string()]);
    assert_eq!(parsed.tasks[1].timeout, Some("30m".to_string()));
    assert_eq!(parsed.tasks[1].parameters_text, "");
}

#[test]
fn convert_stops_at_first_bad_task() {
    let dag = YamlDag {
        id: "d".to_string(),
        description: None,
        schedule: None,
        tags: vec![],
        max_active_runs: 1,
        on_failure: None,
        tasks: vec![("a".to_string(), task("python")), ("b".to_string(), task("nope"))],
    };
    assert!(matches!(YamlDagParser::convert_to_parsed_dag(&dag, "d.yaml"), Err(ConduitError::ParseError { .. })));
}

#[test]
fn project_config_defaults() {
    let c = ConduitConfig::default_for_project("shop");
    assert_eq!(c.name, "shop");
    assert_eq!(c.dags_path, "dags");
    assert!(c.connections.is_empty());
    assert!(c.pools.is_empty());
    assert_eq!(c.defaults.max_active_tasks, 0);
    assert!(!c.secrets.cache_enabled);
    assert!(default_cache_enabled());
    assert_eq!(default_vault_auth(), "token");
    assert_eq!(default_vault_mount(), "secret");
    assert_eq!(default_timeout_secs(), 5);
    assert_eq!(default_dags_path(), "dags");
    assert_eq!(default_max_active_tasks(), 256);
}

#[test]
fn error_messages_are_displayed() {
    assert_eq!(
        ConduitError::TaskExecutionFailed { task_id: "t".to_string(), exit_code: -1 }.to_string(),
        "task execution failed: t (exit code -1)"
    );
    assert_eq!(
        ConduitError::TaskTimeout { task_id: "t".to_string(), timeout_secs: 30 }.to_string(),
        "task timed out: t after 30s"
    );
    assert_eq!(
        ConduitError::UnknownTaskRef { dag_id: "d".to_string(), task_id: "x".to_string() }.to_string(),
        "unknown task reference 'x' in DAG 'd'"
    );
    assert_eq!(ConduitError::ConfigError("bad".to_string()).to_string(), "configuration error: bad");
}

#[test]
fn lowered_names_choose_the_type_strategy_and_granularity() {
    let mut t = task("ignored");
    t.command = Some("echo hi".to_string());
    match YamlDagParser::task_type_named("t1", "bash", &t, "f.yaml") {
        Ok(TaskType::Bash { command }) => assert_eq!(command, "echo hi"),
        other => panic!("unexpected {:?}", other),
    }
    match YamlDagParser::task_type_named("t1", "Bash", &t, "f.yaml") {
        Err(ConduitError::ParseError { file, message }) => {
            assert_eq!(file, "f.yaml");
            assert_eq!(message, "Task 't1': unknown task type 'Bash'. Expected: python, shell, sql, sensor, executable");
        }
        other => panic!("unexpected {:?}", other),
    }
    let inc = incremental("ignored");
    assert!(matches!(
        YamlDagParser::incremental_config_named("full", &inc).map(|c| c.strategy),
        Ok(IncrementalStrategy::FullRefresh)
    ));
    match YamlDagParser::incremental_config_named("nope", &inc) {
        Err(ConduitError::ConfigError(m)) => assert_eq!(
            m,
            "Unknown incremental strategy: 'nope'. Expected: full_refresh, append, merge, delete_insert, snapshot"
        ),
        other => panic!("unexpected {:?}", other),
    }
    assert_eq!(granularity_for("hour"), PartitionGranularity::Hour);
    assert_eq!(granularity_for("HOUR"), PartitionGranularity::Day);
    assert_eq!(granularity_for("year"), PartitionGranularity::Year);
}
