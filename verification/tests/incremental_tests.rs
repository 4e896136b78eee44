use std::collections::HashMap;

use conduit::incremental::{
    IncrementalConfig, IncrementalContext, IncrementalStrategy, Timestamp, Watermark,
    WatermarkValue,
};

#[test]
fn default_strategy_is_full_refresh() {
    let cfg = IncrementalConfig::default();
    assert_eq!(cfg.strategy, IncrementalStrategy::FullRefresh);
}

#[test]
fn watermark_lifecycle() {
    let mut wm = Watermark::new("etl", "extract_orders");
    assert!(wm.is_initial());

    // 2026-03-22T00:00:00Z
    wm.advance_timestamp(Timestamp::from_unix(1_774_137_600, 0).unwrap(), "run_001");
    assert!(!wm.is_initial());
    assert_eq!(wm.last_run_id, Some("run_001".to_string()));

    match &wm.value {
        WatermarkValue::Timestamp(ts) => {
            assert_eq!(ts.to_rfc3339(), "2026-03-22T00:00:00+00:00");
        }
        _ => panic!("Expected Timestamp"),
    }
}

#[test]
fn incremental_context_env_vars() {
    let ctx = IncrementalContext {
        is_full_refresh: false,
        // 2026-03-21T06:00:00Z
        watermark: WatermarkValue::Timestamp(Timestamp::from_unix(1_774_072_800, 0).unwrap()),
        effective_start: Some("2026-03-21T04:00:00Z".to_string()),
        target_partitions: vec![],
        batch_size: Some(10000),
    };

    let vars = ctx.to_env_vars();
    let map: HashMap<String, String> = vars.into_iter().collect();

    assert_eq!(map["CONDUIT_INCREMENTAL"], "true");
    assert_eq!(map["CONDUIT_FULL_REFRESH"], "false");
    assert_eq!(map["CONDUIT_WATERMARK_TYPE"], "timestamp");
    assert_eq!(map["CONDUIT_BATCH_SIZE"], "10000");
    assert!(map["CONDUIT_WATERMARK_VALUE"].starts_with("2026-03-21"));
}

#[test]
fn partition_context_env_vars() {
    let ctx = IncrementalContext {
        is_full_refresh: false,
        watermark: WatermarkValue::Partition("2026-03-20".to_string()),
        effective_start: None,
        target_partitions: vec!["2026-03-21".to_string(), "2026-03-22".to_string()],
        batch_size: None,
    };

    let vars = ctx.to_env_vars();
    let map: HashMap<String, String> = vars.into_iter().collect();

    assert_eq!(map["CONDUIT_TARGET_PARTITIONS"], "2026-03-21,2026-03-22");
    assert_eq!(map["CONDUIT_WATERMARK_TYPE"], "partition");
}

#[test]
fn env_vars_come_in_a_fixed_order() {
    let ctx = IncrementalContext {
        is_full_refresh: true,
        watermark: WatermarkValue::Sequence(-42),
        effective_start: Some("start".to_string()),
        target_partitions: vec!["p1".to_string()],
        batch_size: Some(7),
    };
    let vars = ctx.to_env_vars();
    let expected: Vec<(String, String)> = vec![
        ("CONDUIT_INCREMENTAL", "true"),
        ("CONDUIT_FULL_REFRESH", "true"),
        ("CONDUIT_WATERMARK_TYPE", "sequence"),
        ("CONDUIT_WATERMARK_VALUE", "-42"),
        ("CONDUIT_EFFECTIVE_START", "start"),
        ("CONDUIT_TARGET_PARTITIONS", "p1"),
        ("CONDUIT_BATCH_SIZE", "7"),
    ]
    .into_iter()
    .map(|(k, v)| (k.to_string(), v.to_string()))
    .collect();
    assert_eq!(vars, expected);
}

#[test]
fn initial_watermark_has_empty_value() {
    let ctx = IncrementalContext {
        is_full_refresh: false,
        watermark: WatermarkValue::Initial,
        effective_start: None,
        target_partitions: vec![],
        batch_size: None,
    };
    let vars = ctx.to_env_vars();
    assert_eq!(vars.len(), 4);
    assert_eq!(vars[2], ("CONDUIT_WATERMARK_TYPE".to_string(), "initial".to_string()));
    assert_eq!(vars[3], ("CONDUIT_WATERMARK_VALUE".to_string(), String::new()));
}

#[test]
fn watermark_advances_by_sequence_and_partition() {
    let mut wm = Watermark::new("d", "t");
    wm.advance_sequence(99, "r1");
    assert_eq!(wm.value, WatermarkValue::Sequence(99));
    wm.advance_partition("2026-01-01", "r2");
    assert_eq!(wm.value, WatermarkValue::Partition("2026-01-01".to_string()));
    assert_eq!(wm.last_run_id, Some("r2".to_string()));
    assert_eq!(wm.dag_id, "d");
    assert_eq!(wm.task_id, "t");
}

#[test]
fn timestamp_outside_chrono_range_is_refused() {
    assert!(Timestamp::from_unix(i64::MAX, 0).is_none());
    assert!(Timestamp::from_unix(0, 0).is_some());
    assert_eq!(
        Timestamp::from_unix(0, 0).unwrap().to_rfc3339(),
        "1970-01-01T00:00:00+00:00"
    );
}

#[test]
fn default_config_is_not_incremental() {
    let cfg = IncrementalConfig::default();
    assert!(!cfg.allow_full_refresh);
    assert!(!cfg.force_full_refresh);
    assert_eq!(cfg.batch_size, None);
    assert_eq!(cfg.max_partitions_per_run, None);
    assert!(!cfg.emit_watermark);
}
