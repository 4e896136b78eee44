use conduit::dag::TaskType;
use conduit::error::ConduitError;
use conduit::dagparse::DagParser;
use conduit::pyparse::{task_from_definition, TaskDefinition};
use conduit::resolver::ParsedTask;

#[test]
fn split_args_respects_quotes_and_drops_empty() {
    assert_eq!(DagParser::split_args("a='x,y', , b=(1,2) "), vec!["a='x,y'".to_string(), "b=(1,2)".to_string()]);
    assert!(DagParser::split_args("").is_empty());
}

#[test]
fn decorator_arguments() {
    let args = DagParser::extract_decorator_args(r#"@task(retries=3, pool="etl", retries=4, flag)"#);
    assert_eq!(
        args,
        vec![
            ("retries".to_string(), "3".to_string()),
            ("pool".to_string(), "etl".to_string()),
            ("retries".to_string(), "4".to_string()),
        ]
    );
    assert!(DagParser::extract_decorator_args("@task").is_empty());
}

#[test]
fn parse_assignment_finds_task_calls() {
    let names = vec!["extract".to_string(), "load".to_string()];
    assert_eq!(
        DagParser::parse_assignment("raw = extract(date)", &names),
        Some(("raw".to_string(), "extract".to_string()))
    );
    assert_eq!(DagParser::parse_assignment("x = other(1)", &names), None);
    assert_eq!(DagParser::parse_assignment("load(raw)", &names), None);
}

fn task(id: &str, params: &str) -> ParsedTask {
    ParsedTask {
        id: id.to_string(),
        task_type: TaskType::Python { module: String::new(), function: id.to_string() },
        retries: 0,
        retry_delay: None,
        pool: None,
        timeout: None,
        priority: 0,
        raw_dependencies: vec![],
        parameters_text: params.to_string(),
    }
}

#[test]
fn parameter_defaults_name_dependencies() {
    let mut tasks = vec![
        task("greet", "()"),
        task("farewell", "(data=greet, other = greet, me=farewell)"),
    ];
    DagParser::extract_default_arg_deps(&mut tasks);
    assert!(tasks[0].raw_dependencies.is_empty());
    assert_eq!(tasks[1].raw_dependencies, vec!["greet".to_string()]);
}

#[test]
fn task_attributes_from_definition() {
    let def = TaskDefinition {
        decorators: vec![r#"@task(retries=3, pool="etl_pool", timeout="30m", priority=-2)"#.to_string()],
        has_function: true,
        function_name: Some("extract".to_string()),
        parameters_text: Some("(ds)".to_string()),
    };
    let t = task_from_definition(&def, "dags/etl.py").unwrap().unwrap();
    assert_eq!(t.id, "extract");
    assert_eq!(t.retries, 3);
    assert_eq!(t.priority, -2);
    assert_eq!(t.pool, Some("etl_pool".to_string()));
    assert_eq!(t.timeout, Some("30m".to_string()));
    assert_eq!(t.parameters_text, "(ds)");
    assert!(matches!(t.task_type, TaskType::Python { ref function, .. } if function == "extract"));
}

#[test]
fn sensor_and_undecorated_definitions() {
    let sensor = TaskDefinition {
        decorators: vec![r#"@sensor(poke_interval="10s")"#.to_string()],
        has_function: true,
        function_name: None,
        parameters_text: None,
    };
    match task_from_definition(&sensor, "f.py").unwrap().unwrap().task_type {
        TaskType::Sensor { sensor_type, poke_interval } => {
            assert_eq!(sensor_type, "python");
            assert_eq!(poke_interval, Some("10s".to_string()));
        }
        other => panic!("unexpected {:?}", other),
    }
    let plain = TaskDefinition { decorators: vec!["@staticmethod".to_string()], has_function: true, function_name: None, parameters_text: None };
    assert!(task_from_definition(&plain, "f.py").unwrap().is_none());
    let orphan = TaskDefinition { decorators: vec!["@task".to_string()], has_function: false, function_name: None, parameters_text: None };
    match task_from_definition(&orphan, "f.py") {
        Err(ConduitError::ParseError { file, message }) => {
            assert_eq!(file, "f.py");
            assert_eq!(message, "Task decorator has no function");
        }
        other => panic!("unexpected {:?}", other),
    }
}
