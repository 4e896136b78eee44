use conduit::dag::{ColumnSpec, Dag, Dataset, ResourceLimits, Task, TaskType, TriggerRule};
use conduit::sqlio::{
    infer_for_task, infer_sql_io, inputs_from_sources, output_columns, output_dataset, qualified_name, ColumnRef,
    SqlLineage, TableRef,
};

fn sql_task(id: &str, query: &str, target: Option<&str>) -> Task {
    Task {
        id: id.to_string(),
        task_type: TaskType::Sql {
            connection: "local".to_string(),
            query: query.to_string(),
            target: target.map(String::from),
        },
        dependencies: Vec::new(),
        retries: 0,
        retry_delay: None,
        source_hash: None,
        pool: None,
        timeout: None,
        priority: 0,
        resources: ResourceLimits::default(),
        trigger_rule: TriggerRule::AllSuccess,
        incremental: None,
        inputs: Vec::new(),
        outputs: Vec::new(),
    }
}

fn table(schema: Option<&str>, name: &str) -> TableRef {
    TableRef { schema: schema.map(String::from), name: name.to_string() }
}

fn columns(names: &[&str]) -> Vec<ColumnRef> {
    names.iter().map(|n| ColumnRef { name: n.to_string() }).collect()
}

fn names(ds: &[Dataset]) -> Vec<&str> {
    ds.iter().map(|d| d.name.as_str()).collect()
}

fn column_names(cs: &[ColumnSpec]) -> Vec<&str> {
    cs.iter().map(|c| c.name.as_str()).collect()
}

#[test]
fn insert_lineage_fills_inputs_and_outputs() {
    let lineage = SqlLineage {
        source_tables: vec![table(Some("staging"), "orders")],
        target_table: Some(table(Some("analytics"), "daily_revenue")),
        output_columns: columns(&["customer_id", "amount"]),
    };
    let mut task = sql_task(
        "t",
        "INSERT INTO analytics.daily_revenue SELECT customer_id, amount FROM staging.orders",
        None,
    );
    infer_for_task(&mut task, &lineage);
    assert_eq!(names(&task.inputs), vec!["staging.orders"]);
    assert_eq!(task.outputs.len(), 1);
    assert_eq!(task.outputs[0].name, "analytics.daily_revenue");
    assert!(!task.outputs[0].anonymous);
    assert_eq!(column_names(&task.outputs[0].columns), vec!["customer_id", "amount"]);
}

#[test]
fn declared_target_is_preferred() {
    let lineage = SqlLineage {
        source_tables: vec![table(None, "x")],
        target_table: Some(table(Some("analytics"), "daily_revenue")),
        output_columns: columns(&["a"]),
    };
    let d = output_dataset("t", Some("custom.override"), &lineage);
    assert_eq!(d.name, "custom.override");
    assert!(!d.anonymous);
}

#[test]
fn select_without_target_is_anonymous() {
    let lineage = SqlLineage {
        source_tables: vec![table(None, "orders")],
        target_table: None,
        output_columns: columns(&["id", "*", "n", "__where__"]),
    };
    let d = output_dataset("aggregate", None, &lineage);
    assert_eq!(d.name, "aggregate");
    assert!(d.anonymous);
    assert_eq!(column_names(&d.columns), vec!["id", "n"]);
    assert_eq!(column_names(&output_columns(&lineage)), vec!["id", "n"]);
}

#[test]
fn sources_are_deduplicated_and_placeholders_skipped() {
    let lineage = SqlLineage {
        source_tables: vec![
            table(None, "orders"),
            table(None, "__conduit_jinja_0"),
            table(Some(""), "orders"),
            table(Some("s"), "orders"),
        ],
        target_table: None,
        output_columns: vec![],
    };
    let inputs = inputs_from_sources(&lineage);
    assert_eq!(names(&inputs), vec!["orders", "s.orders"]);
    assert!(inputs.iter().all(|d| d.columns.is_empty() && !d.anonymous));
    assert_eq!(qualified_name(&table(Some("a"), "b")), "a.b");
    assert_eq!(qualified_name(&table(Some(""), "b")), "b");
}

#[test]
fn declared_inputs_and_outputs_and_other_tasks_stay() {
    let lineage = SqlLineage {
        source_tables: vec![table(None, "x")],
        target_table: None,
        output_columns: columns(&["a"]),
    };
    let mut task = sql_task("t", "SELECT a FROM x", None);
    task.outputs = vec![Dataset::new("preset.dataset".to_string(), vec![ColumnSpec::new("manual".to_string())])];
    task.inputs = vec![Dataset::new("preset.input".to_string(), Vec::new())];
    infer_for_task(&mut task, &lineage);
    assert_eq!(names(&task.inputs), vec!["preset.input"]);
    assert_eq!(names(&task.outputs), vec!["preset.dataset"]);
    assert_eq!(task.outputs[0].columns[0].name, "manual");

    let mut bash = sql_task("b", "", None);
    bash.task_type = TaskType::Bash { command: "true".to_string() };
    infer_for_task(&mut bash, &lineage);
    assert!(bash.inputs.is_empty() && bash.outputs.is_empty());
}

#[test]
fn every_sql_task_of_a_dag_is_inferred() {
    let mut dag = Dag {
        id: "d".to_string(),
        description: None,
        schedule: None,
        tags: vec![],
        max_active_runs: 1,
        on_failure: None,
        tasks: vec![sql_task("a", "SELECT 1", None), sql_task("b", "SELECT 2", Some("out.b"))],
        execution_order: vec!["a".to_string(), "b".to_string()],
        source_file: String::new(),
        compiled_at_ms: 0,
        catchup: false,
        max_catchup_runs: None,
        lineage_strict: false,
    };
    let lineages = vec![
        SqlLineage { source_tables: vec![table(None, "src")], target_table: None, output_columns: vec![] },
        SqlLineage { source_tables: vec![], target_table: None, output_columns: vec![] },
    ];
    infer_sql_io(&mut dag, &lineages);
    assert_eq!(names(&dag.tasks[0].inputs), vec!["src"]);
    assert_eq!(dag.tasks[0].outputs[0].name, "a");
    assert!(dag.tasks[0].outputs[0].anonymous);
    assert_eq!(dag.tasks[1].outputs[0].name, "out.b");
    assert!(dag.tasks[1].inputs.is_empty());
}
