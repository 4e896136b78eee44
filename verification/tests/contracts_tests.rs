use conduit::contracts::{
    deployment_tally, deployment_text, tally_checks, validation_text, CheckStatus, CheckTally, DeploymentTally,
    Severity,
};

fn check(name: &str, passed: bool, message: &str, severity: Severity) -> CheckStatus {
    CheckStatus { contract_name: name.into(), passed, message: message.into(), severity }
}

#[test]
fn validation_result_passes_when_no_errors() {
    let checks = vec![
        check("row_count", true, "OK", Severity::Error),
        check("docs", false, "2 undocumented columns", Severity::Warning),
    ];
    let result = tally_checks(&checks);
    assert!(result.passed); // Warning doesn't block
    assert_eq!(result.error_count, 0);
    assert_eq!(result.warning_count, 1);
}

#[test]
fn validation_result_fails_on_error() {
    let checks = vec![check("row_count", false, "0 rows, expected at least 1", Severity::Error)];
    let result = tally_checks(&checks);
    assert!(!result.passed);
    assert_eq!(result.error_count, 1);
}

#[test]
fn deployment_validation_blocks_on_error() {
    let r1 = tally_checks(&vec![check("ok", true, "OK", Severity::Error)]);
    let r2 = tally_checks(&vec![check("bad", false, "fail", Severity::Error)]);
    let dv = deployment_tally(&vec![r1, r2]);
    assert!(!dv.can_deploy);
    assert_eq!(dv.total_errors, 1);
}

#[test]
fn deployment_validation_allows_warnings_only() {
    let r1 = tally_checks(&vec![
        check("count", true, "OK", Severity::Error),
        check("docs", false, "undocumented", Severity::Warning),
    ]);
    let dv = deployment_tally(&vec![r1]);
    assert!(dv.can_deploy);
    assert_eq!(dv.total_warnings, 1);
}

#[test]
fn display_format() {
    let checks = vec![
        check("row_count(min=1)", true, "OK", Severity::Error),
        check("freshness(24h)", false, "Data is 129600s old, max allowed is 86400s (24h)", Severity::Error),
    ];
    let tally = tally_checks(&checks);
    let output = validation_text("extract", &Some("etl".into()), &tally, &checks);
    assert!(output.contains("FAILED"));
    assert!(output.contains("etl.extract"));
    assert!(output.contains("[PASS ]"));
    assert!(output.contains("[ERROR]"));
}

#[test]
fn severity_defaults_to_error_and_counts_are_exact() {
    assert_eq!(Severity::default(), Severity::Error);
    let checks = vec![
        check("a", true, "OK", Severity::Warning),
        check("b", false, "x", Severity::Warning),
        check("c", false, "y", Severity::Error),
        check("d", false, "z", Severity::Warning),
    ];
    let t = tally_checks(&checks);
    assert_eq!(
        t,
        CheckTally { passed: false, total_checks: 4, passed_checks: 1, error_count: 1, warning_count: 2 }
    );
    assert_eq!(tally_checks(&vec![]), CheckTally { passed: true, total_checks: 0, passed_checks: 0, error_count: 0, warning_count: 0 });
}

#[test]
fn reports_are_written_exactly() {
    let checks = vec![
        check("row_count", true, "OK", Severity::Error),
        check("docs", false, "2 undocumented columns", Severity::Warning),
    ];
    let tally = tally_checks(&checks);
    let text = validation_text("load", &None, &tally, &checks);
    assert_eq!(
        text,
        "Contracts for 'load': PASSED (1/2 checks passed, 0 errors, 1 warnings)\n  [PASS ] row_count\n  [WARN ] docs: 2 undocumented columns\n"
    );
    let d = deployment_tally(&vec![tally]);
    assert_eq!(d, DeploymentTally { can_deploy: true, total_checks: 2, total_errors: 0, total_warnings: 1 });
    let summary = deployment_text(&vec![text.clone()], &d);
    assert_eq!(
        summary,
        format!(
            "Contract Validation Summary\n─────────────────────────────\n{}\nResult: PASS — 2 checks passed (1 warnings)\n",
            text
        )
    );
    let blocked = DeploymentTally { can_deploy: false, total_checks: 3, total_errors: 2, total_warnings: 0 };
    assert_eq!(
        deployment_text(&vec![], &blocked),
        "Contract Validation Summary\n─────────────────────────────\n\nResult: BLOCKED — 2 errors must be fixed before deployment (0 warnings)\n"
    );
}
