use conduit::snapshot::{split_stored_key, stored_key_text, Environment};

#[test]
fn fork_creates_independent_copy() {
    let mut prod = Environment::new("production".to_string());
    prod.snapshot_map.insert("dag1".to_string(), "task1".to_string(), "snap_abc".to_string());

    let mut staging = prod.fork("staging".to_string());
    staging.snapshot_map.insert("dag1".to_string(), "task1".to_string(), "snap_xyz".to_string());

    assert_eq!(prod.snapshot_map.get("dag1", "task1"), Some("snap_abc".to_string()));
    assert_eq!(staging.snapshot_map.get("dag1", "task1"), Some("snap_xyz".to_string()));
}

#[test]
fn diff_count_detects_changes() {
    let mut env1 = Environment::new("env1".to_string());
    env1.snapshot_map.insert("d".into(), "t1".into(), "s1".into());
    env1.snapshot_map.insert("d".into(), "t2".into(), "s2".into());

    let mut env2 = env1.fork("env2".to_string());
    env2.snapshot_map.insert("d".into(), "t2".into(), "s3".into());

    assert_eq!(env1.diff_count(&env2), 1);
}

#[test]
fn diff_round_trip_matches_mutations() {
    let mut left = Environment::new("left".to_string());
    left.snapshot_map.insert("d".into(), "kept".into(), "s_kept".into());
    left.snapshot_map.insert("d".into(), "removed".into(), "s_removed".into());
    left.snapshot_map.insert("d".into(), "changed".into(), "s_old".into());

    let mut right = left.fork("right".to_string());
    right.snapshot_map.remove("d", "removed");
    right.snapshot_map.insert("d".to_string(), "changed".to_string(), "s_new".to_string());
    right.snapshot_map.insert("d".into(), "added".into(), "s_added".into());

    let diff = left.diff(&right);

    assert_eq!(diff.added.len(), 1);
    assert_eq!(diff.added[0].task_id, "added");
    assert_eq!(diff.added[0].snapshot_id, "s_added");

    assert_eq!(diff.removed.len(), 1);
    assert_eq!(diff.removed[0].task_id, "removed");
    assert_eq!(diff.removed[0].snapshot_id, "s_removed");

    assert_eq!(diff.changed.len(), 1);
    assert_eq!(diff.changed[0].task_id, "changed");
    assert_eq!(diff.changed[0].old_snapshot_id, "s_old");
    assert_eq!(diff.changed[0].new_snapshot_id, "s_new");

    assert_eq!(diff.total(), 3);
    assert_eq!(diff.total(), left.diff_count(&right));
}

#[test]
fn diff_empty_when_identical() {
    let mut env = Environment::new("env".to_string());
    env.snapshot_map.insert("d".into(), "t".into(), "s".into());
    let fork = env.fork("fork".to_string());
    assert!(env.diff(&fork).is_empty());
}

#[test]
fn insert_returns_previous_and_remove_forgets() {
    let mut env = Environment::new("e".to_string());
    assert_eq!(env.snapshot_map.insert("d".into(), "t".into(), "s1".into()), None);
    assert_eq!(env.snapshot_map.insert("d".into(), "t".into(), "s2".into()), Some("s1".to_string()));
    assert_eq!(env.snapshot_map.len(), 1);
    assert!(env.snapshot_map.contains_key("d", "t"));
    assert_eq!(env.snapshot_map.remove("d", "t"), Some("s2".to_string()));
    assert!(!env.snapshot_map.contains_key("d", "t"));
    assert_eq!(env.snapshot_map.remove("d", "t"), None);
}

#[test]
fn promote_copies_pointers() {
    let mut staging = Environment::new("staging".to_string());
    staging.snapshot_map.insert("d".into(), "t".into(), "s9".into());
    let mut prod = Environment::new("production".to_string());
    prod.snapshot_map.insert("d".into(), "other".into(), "s1".into());
    staging.promote_into(&mut prod);
    assert_eq!(prod.id, "production");
    assert!(prod.diff(&staging).is_empty());
}

#[test]
fn diff_is_mirrored_when_reversed() {
    let mut a = Environment::new("a".to_string());
    a.snapshot_map.insert("d".into(), "x".into(), "1".into());
    let mut b = Environment::new("b".to_string());
    b.snapshot_map.insert("d".into(), "y".into(), "2".into());
    let ab = a.diff(&b);
    let ba = b.diff(&a);
    assert_eq!(ab.added.len(), ba.removed.len());
    assert_eq!(ab.removed.len(), ba.added.len());
    assert_eq!(ab.added[0].task_id, ba.removed[0].task_id);
}

#[test]
fn stored_keys_read_back() {
    let k = stored_key_text("etl", "extract/orders");
    assert_eq!(k, "etl/extract/orders");
    assert_eq!(split_stored_key(&k), Some(("etl".to_string(), "extract/orders".to_string())));
    assert_eq!(split_stored_key("no-separator"), None);
    assert_eq!(split_stored_key("/t"), Some((String::new(), "t".to_string())));
}
