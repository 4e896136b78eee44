use std::collections::HashMap;

use conduit::assignment_store::{InMemoryAssignmentStore, PersistedAssignment};
use conduit::proto_types::{ResourceLimits, TaskAssignment, TaskContext, TaskSpec, TaskType};

fn make_entry(id: &str, worker: &str) -> PersistedAssignment {
    PersistedAssignment {
        assignment: TaskAssignment {
            assignment_id: id.to_string(),
            dag_id: "dag".into(),
            run_id: "run".into(),
            task_id: format!("task-{id}"),
            attempt: 0,
            spec: TaskSpec {
                task_type: TaskType::Bash,
                script: "true".into(),
                connection: String::new(),
                query: String::new(),
                command: String::new(),
                args: vec![],
                timeout_secs: 60,
                resources: ResourceLimits::default(),
            },
            context: TaskContext {
                dag_id: "dag".into(),
                run_id: "run".into(),
                task_id: format!("task-{id}"),
                attempt: 0,
                logical_date_epoch_ms: 0,
                environment: "test".into(),
                params: HashMap::new(),
            },
            deadline_epoch_ms: 0,
        },
        worker_id: worker.to_string(),
        pool: "default".into(),
    }
}

#[test]
fn in_memory_conformance() {
    let mut store = InMemoryAssignmentStore::new();
    assert!(store.load_all().is_empty());

    store.record(&make_entry("a1", "w1"));
    store.record(&make_entry("a2", "w2"));
    assert_eq!(store.load_all().len(), 2);

    // Overwrite is idempotent by assignment_id.
    store.record(&make_entry("a1", "w3"));
    assert_eq!(store.load_all().len(), 2);

    store.remove("a1");
    let remaining = store.load_all();
    assert_eq!(remaining.len(), 1);
    assert_eq!(remaining[0].assignment.assignment_id, "a2");

    // Removing a non-existent key is a no-op.
    store.remove("nope");
    assert_eq!(store.load_all().len(), 1);
}

#[test]
fn in_memory_overwrite_keeps_latest_worker_in_place() {
    let mut store = InMemoryAssignmentStore::new();
    store.record(&make_entry("a1", "w1"));
    store.record(&make_entry("a2", "w2"));
    store.record(&make_entry("a1", "w3"));
    let all = store.load_all();
    assert_eq!(all[0].assignment.assignment_id, "a1");
    assert_eq!(all[0].worker_id, "w3");
    assert_eq!(all[1].worker_id, "w2");
}

#[test]
fn assignment_copy_keeps_every_field() {
    let mut e = make_entry("a9", "w9");
    e.assignment.spec.args = vec!["x".into(), "y".into()];
    e.assignment.context.params.insert("k".into(), "v".into());
    let c = e.copy();
    assert_eq!(c.assignment.spec.args, vec!["x".to_string(), "y".to_string()]);
    assert_eq!(c.assignment.context.params.get("k"), Some(&"v".to_string()));
    assert_eq!(c.worker_id, "w9");
    assert_eq!(c.assignment.task_id, "task-a9");
}
