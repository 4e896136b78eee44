use conduit::distributed::xcom_value;
use conduit::protocol::{log_line, parse_stdout_line, progress_line, LogLevel, ProtocolLine};

#[test]
fn metric_lines_read_back() {
    for (name, value) in [("a:b", "1.5"), ("", "x"), ("rows", ""), ("n", "1 2")] {
        let line = format!("CONDUIT::METRIC::{}::{}", name, value);
        match parse_stdout_line(&line) {
            Some(ProtocolLine::Metric { name: n, value: v }) => {
                assert_eq!(n, name);
                assert_eq!(v, value);
            }
            other => panic!("unexpected {:?}", other),
        }
    }
    // A name whose `:` ends it splits differently.
    match parse_stdout_line("CONDUIT::METRIC::a:::1") {
        Some(ProtocolLine::Metric { name, value }) => {
            assert_eq!(name, "a");
            assert_eq!(value, ":1");
        }
        other => panic!("unexpected {:?}", other),
    }
}

#[test]
fn progress_lines_read_back() {
    for p in [0u8, 7, 50, 100] {
        match parse_stdout_line(&progress_line(p)) {
            Some(ProtocolLine::Progress { percent }) => assert_eq!(percent, p),
            other => panic!("unexpected {:?}", other),
        }
    }
}

#[test]
fn log_lines_read_back() {
    let levels = [LogLevel::Debug, LogLevel::Info, LogLevel::Warn, LogLevel::Error];
    for level in levels {
        for message in ["", "disk at 90%", "a::b::c", "  padded"] {
            match parse_stdout_line(&log_line(level, message)) {
                Some(ProtocolLine::Log { level: l, message: m }) => {
                    assert_eq!(l, level);
                    assert_eq!(m, message);
                }
                other => panic!("unexpected {:?}", other),
            }
        }
    }
    // Level names read in any case.
    match parse_stdout_line("CONDUIT::LOG::warning::low disk") {
        Some(ProtocolLine::Log { level, message }) => {
            assert_eq!(level, LogLevel::Warn);
            assert_eq!(message, "low disk");
        }
        other => panic!("unexpected {:?}", other),
    }
}

#[test]
fn xcom_lines_need_a_non_empty_object() {
    assert!(parse_stdout_line("CONDUIT::XCOM::not json").is_none());
    assert!(parse_stdout_line("CONDUIT::XCOM::{}").is_none());
    assert!(parse_stdout_line("CONDUIT::XCOM::[1, 2]").is_none());
    assert!(parse_stdout_line("CONDUIT::XCOM::").is_none());
    match conduit::protocol::parse_xcom(r#"{"rows": [1, 2, 3]}"#) {
        Some(ProtocolLine::XCom { key, value }) => {
            assert_eq!(key, "rows");
            assert_eq!(value.as_array().map(|a| a.len()), Some(3));
        }
        other => panic!("unexpected {:?}", other),
    }
    match parse_stdout_line(r#"  CONDUIT::XCOM::{"name": "orders"}  "#) {
        Some(ProtocolLine::XCom { key, value }) => {
            assert_eq!(key, "name");
            assert_eq!(value.as_str(), Some("orders"));
        }
        other => panic!("unexpected {:?}", other),
    }
}

#[test]
fn xcom_values_for_the_scheduler() {
    assert!(xcom_value("").is_none());
    assert!(xcom_value("not json").is_none());
    assert_eq!(xcom_value(r#"{"a": 1}"#).and_then(|v| v.get("a").and_then(|x| x.as_i64())), Some(1));
    assert_eq!(xcom_value("7").and_then(|v| v.as_i64()), Some(7));
}
