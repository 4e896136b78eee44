use conduit::dagparse::DagParser;
use conduit::dag::TaskType;
use conduit::error::ConduitError;

const SAMPLE_DAG: &str = r#"
from conduit import dag, task, Param

@dag(
    schedule="0 6 * * *",
    tags=["etl", "warehouse"],
    max_active_runs=3,
)
def daily_warehouse_refresh(date: Param[str] = "{{ ds }}"):
    """Refresh the warehouse daily."""

    @task(retries=3, retry_delay="5m", pool="snowflake")
    def extract_orders(date: str):
        """Pull orders from source."""
        pass

    @task(pool="snowflake", timeout="30m")
    def transform_orders(raw):
        """Clean and transform."""
        pass

    @task(pool="snowflake")
    def load_to_warehouse(data):
        """Load into warehouse."""
        pass

    raw = extract_orders(date)
    cleaned = transform_orders(raw)
    load_to_warehouse(cleaned)
"#;

#[test]
fn parse_dag_from_source() {
    let mut parser = DagParser::new().unwrap();
    let dags = parser.parse_source(SAMPLE_DAG, "test.py").unwrap();

    assert_eq!(dags.len(), 1);
    let dag = &dags[0];
    assert_eq!(dag.id, "daily_warehouse_refresh");
    assert_eq!(dag.schedule, Some("0 6 * * *".to_string()));
    assert_eq!(dag.tags, vec!["etl", "warehouse"]);
    assert_eq!(dag.max_active_runs, 3);
    assert_eq!(dag.tasks.len(), 3);
}

#[test]
fn parse_task_attributes() {
    let mut parser = DagParser::new().unwrap();
    let dags = parser.parse_source(SAMPLE_DAG, "test.py").unwrap();
    let dag = &dags[0];

    let extract = dag.tasks.iter().find(|t| t.id == "extract_orders").unwrap();
    assert_eq!(extract.retries, 3);
    assert_eq!(extract.retry_delay, Some("5m".to_string()));
    assert_eq!(extract.pool, Some("snowflake".to_string()));

    let transform = dag
        .tasks
        .iter()
        .find(|t| t.id == "transform_orders")
        .unwrap();
    assert_eq!(transform.timeout, Some("30m".to_string()));
}

#[test]
fn parse_data_flow_dependencies() {
    let mut parser = DagParser::new().unwrap();
    let dags = parser.parse_source(SAMPLE_DAG, "test.py").unwrap();
    let dag = &dags[0];

    let transform = dag
        .tasks
        .iter()
        .find(|t| t.id == "transform_orders")
        .unwrap();
    assert!(transform
        .raw_dependencies
        .contains(&"extract_orders".to_string()));

    let load = dag
        .tasks
        .iter()
        .find(|t| t.id == "load_to_warehouse")
        .unwrap();
    assert!(load
        .raw_dependencies
        .contains(&"transform_orders".to_string()));
}

#[test]
fn split_args_respects_brackets() {
    let args =
        DagParser::split_args(r#"schedule="0 6 * * *", tags=["etl", "warehouse"], max=3"#);
    assert_eq!(args.len(), 3);
    assert!(args[1].contains("["));
}

#[test]
fn dag_description_and_source_file() {
    let mut parser = DagParser::new().unwrap();
    let dags = parser.parse_source(SAMPLE_DAG, "dags/warehouse.py").unwrap();
    let dag = &dags[0];
    assert_eq!(dag.description, Some("Refresh the warehouse daily.".to_string()));
    assert_eq!(dag.source_file, "dags/warehouse.py");
    assert_eq!(dag.on_failure, None);
    let ids: Vec<&str> = dag.tasks.iter().map(|t| t.id.as_str()).collect();
    assert_eq!(ids, vec!["extract_orders", "transform_orders", "load_to_warehouse"]);
    let extract = &dag.tasks[0];
    assert!(extract.raw_dependencies.is_empty());
    assert_eq!(extract.parameters_text, "(date: str)");
    assert!(matches!(extract.task_type, TaskType::Python { ref function, .. } if function == "extract_orders"));
    assert_eq!(dag.tasks[1].raw_dependencies, vec!["extract_orders".to_string()]);
    assert_eq!(dag.tasks[2].raw_dependencies, vec!["transform_orders".to_string()]);
}

#[test]
fn source_without_dags_gives_none() {
    let mut parser = DagParser::new().unwrap();
    let src = "import os\n\n@staticmethod\ndef helper():\n    pass\n";
    assert!(parser.parse_source(src, "x.py").unwrap().is_empty());
}

#[test]
fn dag_defaults_and_sensor_tasks() {
    let mut parser = DagParser::new().unwrap();
    let src = r#"
@dag(schedule="@daily", max_active_runs="many", on_failure="alert")
def watcher():
    @sensor(poke_interval="30s")
    def wait_for_file():
        pass

    @task
    def process(data=wait_for_file):
        pass
"#;
    let dags = parser.parse_source(src, "w.py").unwrap();
    assert_eq!(dags.len(), 1);
    let dag = &dags[0];
    assert_eq!(dag.max_active_runs, 1);
    assert!(dag.tags.is_empty());
    assert_eq!(dag.description, None);
    assert_eq!(dag.on_failure, Some("alert".to_string()));
    match &dag.tasks[0].task_type {
        TaskType::Sensor { sensor_type, poke_interval } => {
            assert_eq!(sensor_type, "python");
            assert_eq!(poke_interval, &Some("30s".to_string()));
        }
        other => panic!("unexpected {:?}", other),
    }
    assert_eq!(dag.tasks[1].raw_dependencies, vec!["wait_for_file".to_string()]);
}

#[test]
fn nested_tasks_are_found_by_the_search() {
    let mut parser = DagParser::new().unwrap();
    let src = r#"
@dag()
def branching():
    if True:
        @task
        def inner():
            pass
"#;
    let dags = parser.parse_source(src, "b.py").unwrap();
    assert_eq!(dags[0].tasks.len(), 1);
    assert_eq!(dags[0].tasks[0].id, "inner");
    assert_eq!(dags[0].id, "branching");
}

#[test]
fn class_decorated_with_dag_is_a_parse_error() {
    let mut parser = DagParser::new().unwrap();
    let src = "@dag\nclass NotAFunction:\n    pass\n";
    match parser.parse_source(src, "c.py") {
        Err(ConduitError::ParseError { file, message }) => {
            assert_eq!(file, "c.py");
            assert_eq!(message, "Decorated definition has no function");
        }
        other => panic!("unexpected {:?}", other),
    }
}

#[test]
fn found_dependencies_name_other_tasks() {
    let mut parser = DagParser::new().unwrap();
    let src = r#"
@dag(schedule="@hourly")
def flow():
    @task
    def a(x=a, y=b, z=missing):
        pass

    @task
    def b(data=a):
        pass

    r = a()
    s = b(r, s)
    b(s)
"#;
    let dags = parser.parse_source(src, "f.py").unwrap();
    for dag in &dags {
        let ids: Vec<&str> = dag.tasks.iter().map(|t| t.id.as_str()).collect();
        for t in &dag.tasks {
            for d in &t.raw_dependencies {
                assert!(ids.contains(&d.as_str()));
                assert_ne!(d, &t.id);
            }
        }
    }
    assert_eq!(dags[0].tasks[0].raw_dependencies, vec!["b".to_string()]);
    assert_eq!(dags[0].tasks[1].raw_dependencies, vec!["a".to_string()]);
}
