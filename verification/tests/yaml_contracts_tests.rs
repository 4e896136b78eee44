use conduit::contracts::Severity;
use conduit::error::ConduitError;
use conduit::yaml_contracts::{contract_kind, resolve_contract_shape, resolve_contract_shapes, ContractShapeKind, YamlContractFields};

fn contract(check_type: &str) -> YamlContractFields {
    YamlContractFields {
        check_type: check_type.to_string(),
        name: None,
        severity: None,
        description: None,
        exact: None,
        column: None,
        columns: vec![],
        max_age: None,
        values: vec![],
        allow_null: false,
        ref_task: None,
        ref_column: None,
        allow_decrease: false,
        metric_name: None,
        assertion_name: None,
    }
}

#[test]
fn row_count_gets_a_default_name_and_error_severity() {
    let mut c = contract("Row_Count");
    c.exact = Some(5);
    let s = resolve_contract_shape("load", &c).unwrap();
    assert_eq!(s.name, "Row_Count:load");
    assert_eq!(s.severity, Severity::Error);
    assert!(matches!(s.kind, ContractShapeKind::RowCount { exact: Some(5) }));
}

#[test]
fn named_warning_contracts_keep_name_and_severity() {
    let mut c = contract("freshness");
    c.name = Some("fresh".to_string());
    c.severity = Some("warn".to_string());
    c.max_age = Some("24h".to_string());
    let s = resolve_contract_shape("t", &c).unwrap();
    assert_eq!(s.name, "fresh");
    assert_eq!(s.severity, Severity::Warning);
    assert!(matches!(s.kind, ContractShapeKind::Freshness { ref max_age } if max_age == "24h"));
    c.severity = Some("Warning".to_string());
    assert_eq!(resolve_contract_shape("t", &c).unwrap().severity, Severity::Error);
}

#[test]
fn unique_falls_back_to_the_single_column() {
    let mut c = contract("uniqueness");
    c.column = Some("id".to_string());
    let s = resolve_contract_shape("t", &c).unwrap();
    assert!(matches!(s.kind, ContractShapeKind::Unique { ref columns } if columns == &vec!["id".to_string()]));
}

#[test]
fn missing_fields_and_unknown_types_are_config_errors() {
    let mut r = contract("fk");
    r.column = Some("c".to_string());
    match resolve_contract_shape("orders", &r) {
        Err(ConduitError::ConfigError(m)) => {
            assert_eq!(m, "Task 'orders': references contract requires 'ref_task'")
        }
        other => panic!("unexpected {:?}", other),
    }
    match resolve_contract_shapes("orders", &vec![contract("row_count"), contract("Bogus"), contract("metric")]) {
        Err(ConduitError::ConfigError(m)) => assert_eq!(
            m,
            "Task 'orders': unknown contract type 'bogus'. Expected: row_count, freshness, unique, not_null, accepted_values, value_range, references, row_count_delta, metric, custom"
        ),
        other => panic!("unexpected {:?}", other),
    }
    let ok = resolve_contract_shapes("orders", &vec![contract("row_count"), contract("delta")]).unwrap();
    assert_eq!(ok.len(), 2);
    assert!(matches!(ok[1].kind, ContractShapeKind::RowCountDelta { allow_decrease: false }));
}

#[test]
fn lowered_type_names_choose_the_check() {
    let mut c = contract("ignored");
    c.columns = vec!["id".to_string()];
    match contract_kind("load", "uniqueness", &c) {
        Ok(ContractShapeKind::Unique { columns }) => assert_eq!(columns, vec!["id".to_string()]),
        other => panic!("unexpected {:?}", other),
    }
    match contract_kind("load", "not_null", &c) {
        Err(ConduitError::ConfigError(m)) => assert_eq!(m, "Task 'load': not_null contract requires 'column'"),
        other => panic!("unexpected {:?}", other),
    }
    match contract_kind("load", "NOT_NULL", &c) {
        Err(ConduitError::ConfigError(m)) => assert!(m.starts_with("Task 'load': unknown contract type 'NOT_NULL'")),
        other => panic!("unexpected {:?}", other),
    }
}
