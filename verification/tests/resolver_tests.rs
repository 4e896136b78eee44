use conduit::dag::TaskType;
use conduit::error::ConduitError;
use conduit::resolver::{DependencyResolver, ParsedDag, ParsedTask};

fn make_task(id: &str, deps: Vec<&str>) -> ParsedTask {
    ParsedTask {
        id: id.to_string(),
        task_type: TaskType::Python { module: "test".to_string(), function: id.to_string() },
        retries: 0,
        retry_delay: None,
        pool: None,
        timeout: None,
        priority: 0,
        raw_dependencies: deps.into_iter().map(String::from).collect(),
        parameters_text: String::new(),
    }
}

fn make_parsed_dag(tasks: Vec<ParsedTask>) -> ParsedDag {
    ParsedDag {
        id: "test_dag".to_string(),
        description: None,
        schedule: None,
        tags: vec![],
        max_active_runs: 1,
        on_failure: None,
        tasks,
        source_file: "test.py".to_string(),
    }
}

#[test]
fn resolves_linear_chain() {
    let parsed = make_parsed_dag(vec![
        make_task("extract", vec![]),
        make_task("transform", vec!["extract"]),
        make_task("load", vec!["transform"]),
    ]);
    let dag = DependencyResolver::resolve(parsed).unwrap();
    assert_eq!(dag.execution_order, vec!["extract", "transform", "load"]);
}

#[test]
fn resolves_diamond_dependency() {
    let parsed = make_parsed_dag(vec![
        make_task("start", vec![]),
        make_task("branch_a", vec!["start"]),
        make_task("branch_b", vec!["start"]),
        make_task("join", vec!["branch_a", "branch_b"]),
    ]);
    let dag = DependencyResolver::resolve(parsed).unwrap();
    assert_eq!(dag.execution_order[0], "start");
    assert_eq!(dag.execution_order[3], "join");
}

#[test]
fn detects_cycle() {
    let parsed = make_parsed_dag(vec![
        make_task("a", vec!["c"]),
        make_task("b", vec!["a"]),
        make_task("c", vec!["b"]),
    ]);
    let result = DependencyResolver::resolve(parsed);
    assert!(result.is_err());
    let err = result.unwrap_err();
    assert!(matches!(err, ConduitError::CycleDetected { .. }));
}

#[test]
fn detects_unknown_dependency() {
    let parsed = make_parsed_dag(vec![make_task("a", vec![]), make_task("b", vec!["nonexistent"])]);
    let result = DependencyResolver::resolve(parsed);
    assert!(result.is_err());
    assert!(matches!(result.unwrap_err(), ConduitError::UnknownTaskRef { .. }));
}

#[test]
fn detects_duplicate_task_id() {
    let parsed = make_parsed_dag(vec![make_task("duplicate", vec![]), make_task("duplicate", vec![])]);
    let result = DependencyResolver::resolve(parsed);
    assert!(result.is_err());
    assert!(matches!(result.unwrap_err(), ConduitError::DuplicateTaskId { .. }));
}

#[test]
fn cycle_message_names_the_members() {
    let parsed = make_parsed_dag(vec![
        make_task("root", vec![]),
        make_task("a", vec!["b"]),
        make_task("b", vec!["a"]),
    ]);
    match DependencyResolver::resolve(parsed) {
        Err(ConduitError::CycleDetected { cycle }) => {
            assert_eq!(cycle, "DAG 'test_dag' contains a cycle involving: a -> b")
        }
        other => panic!("unexpected {:?}", other),
    }
}

#[test]
fn execution_order_respects_every_dependency() {
    let parsed = make_parsed_dag(vec![
        make_task("d", vec!["b", "c"]),
        make_task("c", vec!["a"]),
        make_task("b", vec!["a"]),
        make_task("a", vec![]),
    ]);
    let dag = DependencyResolver::resolve(parsed).unwrap();
    let pos = |id: &str| dag.execution_order.iter().position(|x| x == id).unwrap();
    assert!(pos("a") < pos("b"));
    assert!(pos("a") < pos("c"));
    assert!(pos("b") < pos("d"));
    assert!(pos("c") < pos("d"));
    assert_eq!(dag.execution_order.len(), 4);
}

#[test]
fn resolve_all_splits_good_and_bad() {
    let good = make_parsed_dag(vec![make_task("x", vec![])]);
    let bad = make_parsed_dag(vec![make_task("y", vec!["missing"])]);
    let (dags, errors) = DependencyResolver::resolve_all(vec![good, bad]);
    assert_eq!(dags.len(), 1);
    assert_eq!(errors.len(), 1);
}
