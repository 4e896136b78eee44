use conduit::command::ProcessRunner;
use conduit::duration::{format_duration, parse_duration, parse_timeout, Duration};
use conduit::error::ConduitError;
use conduit::protocol::{log_line, parse_stdout_line, progress_line, LogLevel, ProtocolLine};

#[test]
fn test_parse_timeout() {
    assert_eq!(parse_timeout(&Some("30s".to_string())), Duration::from_secs(30));
    assert_eq!(parse_timeout(&Some("5m".to_string())), Duration::from_secs(300));
    assert_eq!(parse_timeout(&Some("1h".to_string())), Duration::from_secs(3600));
    assert_eq!(parse_timeout(&None), Duration::from_secs(3600));
}

#[test]
fn parse_timeout_falls_back_on_bad_text() {
    assert_eq!(parse_timeout(&Some("soon".to_string())), Duration::from_secs(3600));
}

#[test]
fn test_log_level_display() {
    assert_eq!(LogLevel::Debug.to_string(), "DEBUG");
    assert_eq!(LogLevel::Info.to_string(), "INFO");
    assert_eq!(LogLevel::Warn.to_string(), "WARN");
    assert_eq!(LogLevel::Error.to_string(), "ERROR");
}

#[test]
fn test_log_level_parse() {
    assert_eq!("DEBUG".parse::<LogLevel>().unwrap(), LogLevel::Debug);
    assert_eq!("INFO".parse::<LogLevel>().unwrap(), LogLevel::Info);
    assert_eq!("WARN".parse::<LogLevel>().unwrap(), LogLevel::Warn);
    assert_eq!("WARNING".parse::<LogLevel>().unwrap(), LogLevel::Warn);
    assert_eq!("ERROR".parse::<LogLevel>().unwrap(), LogLevel::Error);
    assert!("INVALID".parse::<LogLevel>().is_err());
}

#[test]
fn log_level_parse_ignores_case_and_names_the_unknown() {
    assert_eq!("warning".parse::<LogLevel>().unwrap(), LogLevel::Warn);
    match "verbose".parse::<LogLevel>() {
        Err(ConduitError::ProtocolError(m)) => assert_eq!(m, "Unknown log level: VERBOSE"),
        other => panic!("unexpected {:?}", other),
    }
}

#[test]
fn test_format_duration() {
    assert_eq!(format_duration(Duration::from_secs(45)), "45s");
    assert_eq!(format_duration(Duration::from_secs(90)), "1m 30s");
    assert_eq!(format_duration(Duration::from_secs(3661)), "1h 1m 1s");
    assert_eq!(format_duration(Duration::from_secs(86400)), "1d 0h 0m");
}

#[test]
fn format_duration_below_a_second_shows_milliseconds() {
    assert_eq!(format_duration(Duration::from_millis(250)), "250ms");
    assert_eq!(format_duration(Duration::from_secs(0)), "0ms");
    assert_eq!(format_duration(Duration::from_secs(90061)), "1d 1h 1m");
}

#[test]
fn test_parse_duration_seconds() {
    assert_eq!(parse_duration("30s").unwrap(), Duration::from_secs(30));
    assert_eq!(parse_duration("0s").unwrap(), Duration::from_secs(0));
    assert_eq!(parse_duration("60s").unwrap(), Duration::from_secs(60));
}

#[test]
fn test_parse_duration_minutes() {
    assert_eq!(parse_duration("5m").unwrap(), Duration::from_secs(300));
    assert_eq!(parse_duration("1m").unwrap(), Duration::from_secs(60));
    assert_eq!(parse_duration("60m").unwrap(), Duration::from_secs(3600));
}

#[test]
fn test_parse_duration_hours() {
    assert_eq!(parse_duration("1h").unwrap(), Duration::from_secs(3600));
    assert_eq!(parse_duration("2h").unwrap(), Duration::from_secs(7200));
    assert_eq!(parse_duration("24h").unwrap(), Duration::from_secs(86400));
}

#[test]
fn test_parse_duration_days() {
    assert_eq!(parse_duration("1d").unwrap(), Duration::from_secs(86400));
    assert_eq!(parse_duration("7d").unwrap(), Duration::from_secs(604800));
}

#[test]
fn test_parse_duration_milliseconds() {
    assert_eq!(parse_duration("500ms").unwrap(), Duration::from_millis(500));
    assert_eq!(parse_duration("1000ms").unwrap(), Duration::from_secs(1));
}

#[test]
fn test_parse_duration_plain_number() {
    assert_eq!(parse_duration("30").unwrap(), Duration::from_secs(30));
    assert_eq!(parse_duration("300").unwrap(), Duration::from_secs(300));
}

#[test]
fn test_parse_duration_decimal() {
    assert_eq!(parse_duration("1.5s").unwrap(), Duration::from_millis(1500));
    assert_eq!(parse_duration("2.5m").unwrap(), Duration::from_secs(150));
    assert_eq!(parse_duration("0.5h").unwrap(), Duration::from_secs(1800));
}

#[test]
fn test_parse_duration_whitespace() {
    assert_eq!(parse_duration("  30s  ").unwrap(), Duration::from_secs(30));
    assert_eq!(parse_duration("5 m").unwrap(), Duration::from_secs(300));
}

#[test]
fn test_parse_duration_errors() {
    assert!(parse_duration("").is_err());
    assert!(parse_duration("invalid").is_err());
    assert!(parse_duration("30x").is_err());
    assert!(parse_duration("abc").is_err());
}

#[test]
fn parse_duration_error_messages() {
    match parse_duration("   ") {
        Err(ConduitError::ConfigError(m)) => assert_eq!(m, "Duration string cannot be empty"),
        other => panic!("unexpected {:?}", other),
    }
    match parse_duration("abc") {
        Err(ConduitError::ConfigError(m)) => assert_eq!(m, "Invalid duration value: abc"),
        other => panic!("unexpected {:?}", other),
    }
    match parse_duration("30x") {
        Err(ConduitError::ConfigError(m)) => assert_eq!(m, "Unknown duration suffix: x"),
        other => panic!("unexpected {:?}", other),
    }
}

#[test]
fn parse_duration_fractions_and_case() {
    assert_eq!(parse_duration("1.9ms").unwrap(), Duration::from_millis(1));
    assert_eq!(parse_duration("2H").unwrap(), Duration::from_secs(7200));
    assert_eq!(parse_duration("+3s").unwrap(), Duration::from_secs(3));
    assert_eq!(parse_duration(".5s").unwrap(), Duration::from_millis(500));
    assert_eq!(parse_duration("0.000000001s").unwrap(), Duration::new(0, 1));
    assert_eq!(parse_duration("0.0000000001m").unwrap(), Duration::new(0, 6));
}

#[test]
fn test_parse_and_format_roundtrip() {
    let inputs = vec!["30s", "5m", "1h", "2d"];
    for input in inputs {
        let parsed = parse_duration(input).unwrap();
        let formatted = format_duration(parsed);
        assert!(!formatted.is_empty(), "Format failed for {}", input);
    }
}

#[test]
fn sensor_interval_parsing_is_lenient() {
    assert_eq!(ProcessRunner::parse_duration_str("30s"), Duration::from_secs(30));
    assert_eq!(ProcessRunner::parse_duration_str("5m"), Duration::from_secs(300));
    assert_eq!(ProcessRunner::parse_duration_str("1h"), Duration::from_secs(3600));
    assert_eq!(ProcessRunner::parse_duration_str("2d"), Duration::from_secs(172800));
    assert_eq!(ProcessRunner::parse_duration_str("45"), Duration::from_secs(45));
    assert_eq!(ProcessRunner::parse_duration_str(""), Duration::from_secs(30));
    assert_eq!(ProcessRunner::parse_duration_str("xm"), Duration::from_secs(1800));
}

#[test]
fn test_parse_xcom_message() {
    match parse_stdout_line(r#"CONDUIT::XCOM::{"result": 42}"#) {
        Some(ProtocolLine::XCom { key, value }) => {
            assert_eq!(key, "result");
            assert_eq!(value.as_i64(), Some(42));
        }
        other => panic!("Expected XCom message, got: {:?}", other),
    }
}

#[test]
fn test_parse_xcom_complex() {
    match parse_stdout_line(r#"CONDUIT::XCOM::{"data": {"nested": "value"}}"#) {
        Some(ProtocolLine::XCom { key, value }) => {
            assert_eq!(key, "data");
            assert!(value.is_object());
        }
        other => panic!("Expected XCom message, got: {:?}", other),
    }
}

#[test]
fn test_parse_log_message() {
    match parse_stdout_line("CONDUIT::LOG::INFO::Processing complete") {
        Some(ProtocolLine::Log { level, message }) => {
            assert_eq!(level, LogLevel::Info);
            assert_eq!(message, "Processing complete");
        }
        other => panic!("Expected Log message, got: {:?}", other),
    }
}

#[test]
fn test_parse_log_with_colons() {
    match parse_stdout_line("CONDUIT::LOG::WARN::Time: 12:30:45") {
        Some(ProtocolLine::Log { level, message }) => {
            assert_eq!(level, LogLevel::Warn);
            assert_eq!(message, "Time: 12:30:45");
        }
        other => panic!("Expected Log message, got: {:?}", other),
    }
}

#[test]
fn parse_log_without_message_and_with_bad_level() {
    match parse_stdout_line("CONDUIT::LOG::debug") {
        Some(ProtocolLine::Log { level, message }) => {
            assert_eq!(level, LogLevel::Debug);
            assert_eq!(message, "");
        }
        other => panic!("Expected Log message, got: {:?}", other),
    }
    assert!(parse_stdout_line("CONDUIT::LOG::LOUD::x").is_none());
}

#[test]
fn test_parse_progress_message() {
    match parse_stdout_line("CONDUIT::PROGRESS::75") {
        Some(ProtocolLine::Progress { percent }) => assert_eq!(percent, 75),
        other => panic!("Expected Progress message, got: {:?}", other),
    }
}

#[test]
fn test_parse_progress_boundary() {
    assert!(parse_stdout_line("CONDUIT::PROGRESS::0").is_some());
    assert!(parse_stdout_line("CONDUIT::PROGRESS::100").is_some());
    assert!(parse_stdout_line("CONDUIT::PROGRESS::101").is_none());
    assert!(parse_stdout_line("CONDUIT::PROGRESS::300").is_none());
}

#[test]
fn test_parse_metric_message() {
    match parse_stdout_line("CONDUIT::METRIC::rows_processed::1000") {
        Some(ProtocolLine::Metric { name, value }) => {
            assert_eq!(name, "rows_processed");
            assert_eq!(value.parse::<f64>().unwrap(), 1000.0);
        }
        other => panic!("Expected Metric message, got: {:?}", other),
    }
}

#[test]
fn test_parse_metric_float() {
    match parse_stdout_line("CONDUIT::METRIC::latency_ms::45.5") {
        Some(ProtocolLine::Metric { name, value }) => {
            assert_eq!(name, "latency_ms");
            assert_eq!(value.parse::<f64>().unwrap(), 45.5);
        }
        other => panic!("Expected Metric message, got: {:?}", other),
    }
}

#[test]
fn test_ignore_regular_output() {
    assert!(parse_stdout_line("Regular log output").is_none());
    assert!(parse_stdout_line("Some other message").is_none());
    assert!(parse_stdout_line("").is_none());
    assert!(parse_stdout_line("CONDUIT::OTHER::x").is_none());
}

#[test]
fn protocol_lines_are_written_back() {
    assert_eq!(log_line(LogLevel::Info, "Test"), "CONDUIT::LOG::INFO::Test");
    assert_eq!(progress_line(50), "CONDUIT::PROGRESS::50");
}

#[test]
fn duration_accessors() {
    let d = Duration::new(3, 2_500_000_000);
    assert_eq!(d.as_secs(), 5);
    assert_eq!(d.subsec_nanos(), 500_000_000);
    assert_eq!(d.subsec_millis(), 500);
    assert_eq!(d.as_millis(), 5500);
}

#[test]
fn parse_duration_reads_float_forms() {
    assert_eq!(parse_duration("1e3s").unwrap(), Duration::from_secs(1000));
    assert_eq!(parse_duration("1e3ms").unwrap(), Duration::from_millis(1000));
    assert_eq!(parse_duration("2E1m").unwrap(), Duration::from_secs(1200));
    assert_eq!(parse_duration("1.5e-3s").unwrap(), Duration::new(0, 1_500_000));
    assert_eq!(parse_duration(".5s").unwrap(), Duration::from_millis(500));
    assert_eq!(parse_duration("5.s").unwrap(), Duration::from_secs(5));
    assert_eq!(parse_duration("+2s").unwrap(), Duration::from_secs(2));
    assert_eq!(parse_duration("-0s").unwrap(), Duration::from_secs(0));
    assert_eq!(parse_duration("1e-400s").unwrap(), Duration::from_secs(0));
    assert_eq!(parse_duration("2.9ms").unwrap(), Duration::from_millis(2));
}

#[test]
fn parse_duration_converts_milliseconds_like_a_cast() {
    assert_eq!(parse_duration("-5ms").unwrap(), Duration::from_millis(0));
    assert_eq!(parse_duration("nanms").unwrap(), Duration::from_millis(0));
    assert_eq!(parse_duration("INFms").unwrap(), Duration::from_millis(u64::MAX));
    assert_eq!(parse_duration("-infinityms").unwrap(), Duration::from_millis(0));
    assert_eq!(parse_duration("1e400ms").unwrap(), Duration::from_millis(u64::MAX));
    assert_eq!(parse_duration("1e-400ms").unwrap(), Duration::from_millis(0));
    assert_eq!(parse_duration("99999999999999999999ms").unwrap(), Duration::from_millis(u64::MAX));
}

#[test]
fn parse_duration_float_form_errors() {
    assert!(parse_duration("1ee5s").is_err());
    assert!(parse_duration("1e").is_err());
    assert!(parse_duration(".s").is_err());
    assert!(parse_duration("1e+-5s").is_err());
    match parse_duration("1e5x") {
        Err(ConduitError::ConfigError(m)) => assert_eq!(m, "Unknown duration suffix: x"),
        other => panic!("unexpected {:?}", other),
    }
    assert!(!conduit::duration::duration_input_in_range("-5s"));
    assert!(!conduit::duration::duration_input_in_range("infs"));
    assert!(!conduit::duration::duration_input_in_range("nanm"));
    assert!(!conduit::duration::duration_input_in_range("1e300s"));
    assert!(conduit::duration::duration_input_in_range("nanx"));
}
