//! Data contract results: how the outcomes of a task's contract checks add
//! up to a verdict, and how a deployment is gated on them. Errors block a
//! deployment; warnings are reported and do not.

use vstd::prelude::*;
use crate::text::{decimal, push_decimal, push_str, string_of};

verus! {

/// Severity of a contract: errors block deployment, warnings don't.
#[derive(Debug, Clone, Copy, PartialEq, Eq, Structural)]
pub enum Severity {
    /// Blocks deployment. The pipeline cannot proceed.
    Error,
    /// Reported in plan output but does not block deployment.
    Warning,
}

impl Default for Severity {
    fn default() -> (s: Self)
        ensures
            s == Severity::Error,
    {
        Severity::Error
    }
}

/// The outcome of one contract check: its name, whether it passed, the
/// message, and the contract's severity.
#[derive(Debug, Clone)]
pub struct CheckStatus {
    pub contract_name: String,
    pub passed: bool,
    pub message: String,
    pub severity: Severity,
}

/// The counts of a task's checks and its verdict.
#[derive(Debug, Clone, Copy, PartialEq, Eq, Structural)]
pub struct CheckTally {
    /// True only when no check of severity `Error` failed.
    pub passed: bool,
    pub total_checks: usize,
    pub passed_checks: usize,
    /// Checks that failed with severity `Error`.
    pub error_count: usize,
    /// Checks that failed with severity `Warning`.
    pub warning_count: usize,
}

/// How many of the checks passed.
pub open spec fn count_passed(cs: Seq<CheckStatus>) -> nat
    decreases cs.len(),
{
    if cs.len() == 0 {
        0
    } else {
        count_passed(cs.drop_last()) + if cs.last().passed {
            1nat
        } else {
            0nat
        }
    }
}

/// How many of the checks failed with severity `sev`.
pub open spec fn count_failed(cs: Seq<CheckStatus>, sev: Severity) -> nat
    decreases cs.len(),
{
    if cs.len() == 0 {
        0
    } else {
        count_failed(cs.drop_last(), sev) + if !cs.last().passed && cs.last().severity == sev {
            1nat
        } else {
            0nat
        }
    }
}

proof fn lemma_counts_bounded(cs: Seq<CheckStatus>)
    ensures
        count_passed(cs) <= cs.len(),
        count_failed(cs, Severity::Error) <= cs.len(),
        count_failed(cs, Severity::Warning) <= cs.len(),
    decreases cs.len(),
{
    if cs.len() > 0 {
        lemma_counts_bounded(cs.drop_last());
    }
}

/// The tally of the checks: the counts, and the verdict that passes when
/// no error-severity check failed.
pub open spec fn tally_of(cs: Seq<CheckStatus>) -> CheckTally {
    CheckTally {
        passed: count_failed(cs, Severity::Error) == 0,
        total_checks: cs.len() as usize,
        passed_checks: count_passed(cs) as usize,
        error_count: count_failed(cs, Severity::Error) as usize,
        warning_count: count_failed(cs, Severity::Warning) as usize,
    }
}

/// Counts a task's check outcomes (see `tally_of`).
pub fn tally_checks(checks: &Vec<CheckStatus>) -> (t: CheckTally)
    ensures
        t == tally_of(checks@),
        t.total_checks == checks@.len(),
        t.passed_checks == count_passed(checks@),
        t.error_count == count_failed(checks@, Severity::Error),
        t.warning_count == count_failed(checks@, Severity::Warning),
{
    let ghost cs = checks@;
    let mut passed: usize = 0;
    let mut errors: usize = 0;
    let mut warnings: usize = 0;
    let mut i: usize = 0;
    proof {
        assert(cs.take(0) =~= Seq::<CheckStatus>::empty());
    }
    while i < checks.len()
        invariant
            cs == checks@,
            i <= cs.len(),
            passed == count_passed(cs.take(i as int)),
            errors == count_failed(cs.take(i as int), Severity::Error),
            warnings == count_failed(cs.take(i as int), Severity::Warning),
        decreases cs.len() - i,
    {
        proof {
            assert(cs.take(i + 1).drop_last() =~= cs.take(i as int));
            lemma_counts_bounded(cs.take(i as int));
        }
        let c = &checks[i];
        if c.passed {
            passed = passed + 1;
        } else {
            match c.severity {
                Severity::Error => {
                    errors = errors + 1;
                },
                Severity::Warning => {
                    warnings = warnings + 1;
                },
            }
        }
        i = i + 1;
    }
    assert(cs.take(i as int) =~= cs);
    CheckTally {
        passed: errors == 0,
        total_checks: checks.len(),
        passed_checks: passed,
        error_count: errors,
        warning_count: warnings,
    }
}

/// The tag of a failed check's line.
pub open spec fn severity_tag(s: Severity) -> Seq<char> {
    match s {
        Severity::Error => "ERROR"@,
        Severity::Warning => "WARN "@,
    }
}

/// The report line of one check.
pub open spec fn check_line(c: CheckStatus) -> Seq<char> {
    if c.passed {
        "  [PASS ] "@ + c.contract_name@ + "\n"@
    } else {
        "  ["@ + severity_tag(c.severity) + "] "@ + c.contract_name@ + ": "@ + c.message@ + "\n"@
    }
}

/// The report lines of the checks, in order.
pub open spec fn check_lines(cs: Seq<CheckStatus>) -> Seq<char>
    decreases cs.len(),
{
    if cs.len() == 0 {
        Seq::empty()
    } else {
        check_lines(cs.drop_last()) + check_line(cs.last())
    }
}

/// What the checks of a task are reported for: `dag.task`, or the task
/// alone.
pub open spec fn scope_text(task_id: Seq<char>, dag_id: Option<Seq<char>>) -> Seq<char> {
    match dag_id {
        Some(d) => d + "."@ + task_id,
        None => task_id,
    }
}

/// The report of a task's contract checks: a headline with the verdict and
/// the counts, then a line per check.
pub open spec fn validation_report(task_id: Seq<char>, dag_id: Option<Seq<char>>, t: CheckTally, cs: Seq<CheckStatus>) -> Seq<char> {
    "Contracts for '"@ + scope_text(task_id, dag_id) + "': "@ + (if t.passed {
        "PASSED"@
    } else {
        "FAILED"@
    }) + " ("@ + decimal(t.passed_checks as nat) + "/"@ + decimal(t.total_checks as nat) + " checks passed, "@
        + decimal(t.error_count as nat) + " errors, "@ + decimal(t.warning_count as nat) + " warnings)\n"@
        + check_lines(cs)
}

fn push_check_line(out: &mut Vec<char>, c: &CheckStatus)
    ensures
        final(out)@ == old(out)@ + check_line(*c),
{
    if c.passed {
        push_str(out, "  [PASS ] ");
        push_str(out, c.contract_name.as_str());
        push_str(out, "\n");
        assert(final(out)@ =~= old(out)@ + check_line(*c));
    } else {
        push_str(out, "  [");
        match c.severity {
            Severity::Error => push_str(out, "ERROR"),
            Severity::Warning => push_str(out, "WARN "),
        }
        push_str(out, "] ");
        push_str(out, c.contract_name.as_str());
        push_str(out, ": ");
        push_str(out, c.message.as_str());
        push_str(out, "\n");
        assert(final(out)@ =~= old(out)@ + check_line(*c));
    }
}

/// The report of a task's contract checks (see `validation_report`).
pub fn validation_text(task_id: &str, dag_id: &Option<String>, t: &CheckTally, checks: &Vec<CheckStatus>) -> (s: String)
    ensures
        s@ == validation_report(
            task_id@,
            match dag_id {
                Some(d) => Some(d@),
                None => None,
            },
            *t,
            checks@,
        ),
{
    let mut out: Vec<char> = Vec::new();
    push_str(&mut out, "Contracts for '");
    match dag_id {
        Some(d) => {
            push_str(&mut out, d.as_str());
            push_str(&mut out, ".");
        },
        None => {},
    }
    push_str(&mut out, task_id);
    push_str(&mut out, "': ");
    if t.passed {
        push_str(&mut out, "PASSED");
    } else {
        push_str(&mut out, "FAILED");
    }
    push_str(&mut out, " (");
    push_decimal(&mut out, t.passed_checks as u64);
    push_str(&mut out, "/");
    push_decimal(&mut out, t.total_checks as u64);
    push_str(&mut out, " checks passed, ");
    push_decimal(&mut out, t.error_count as u64);
    push_str(&mut out, " errors, ");
    push_decimal(&mut out, t.warning_count as u64);
    push_str(&mut out, " warnings)\n");
    let ghost head = out@;
    let ghost cs = checks@;
    let mut i: usize = 0;
    proof {
        assert(cs.take(0) =~= Seq::<CheckStatus>::empty());
        assert(head + check_lines(cs.take(0)) =~= head);
    }
    while i < checks.len()
        invariant
            cs == checks@,
            i <= cs.len(),
            out@ == head + check_lines(cs.take(i as int)),
        decreases cs.len() - i,
    {
        assert(cs.take(i + 1).drop_last() =~= cs.take(i as int));
        push_check_line(&mut out, &checks[i]);
        assert(out@ =~= head + check_lines(cs.take(i + 1)));
        i = i + 1;
    }
    assert(cs.take(i as int) =~= cs);
    let ghost d = match dag_id {
        Some(d) => Some(d@),
        None => None,
    };
    assert(out@ =~= validation_report(task_id@, d, *t, checks@));
    string_of(out.as_slice())
}

/// The totals of a deployment's tasks and its verdict.
#[derive(Debug, Clone, Copy, PartialEq, Eq, Structural)]
pub struct DeploymentTally {
    /// True only when no task has an error.
    pub can_deploy: bool,
    pub total_checks: usize,
    pub total_errors: usize,
    pub total_warnings: usize,
}

pub open spec fn sum_checks(ts: Seq<CheckTally>) -> nat
    decreases ts.len(),
{
    if ts.len() == 0 {
        0
    } else {
        sum_checks(ts.drop_last()) + ts.last().total_checks as nat
    }
}

pub open spec fn sum_errors(ts: Seq<CheckTally>) -> nat
    decreases ts.len(),
{
    if ts.len() == 0 {
        0
    } else {
        sum_errors(ts.drop_last()) + ts.last().error_count as nat
    }
}

pub open spec fn sum_warnings(ts: Seq<CheckTally>) -> nat
    decreases ts.len(),
{
    if ts.len() == 0 {
        0
    } else {
        sum_warnings(ts.drop_last()) + ts.last().warning_count as nat
    }
}

proof fn lemma_sums_grow(ts: Seq<CheckTally>, i: int)
    requires
        0 <= i <= ts.len(),
    ensures
        sum_checks(ts.take(i)) <= sum_checks(ts),
        sum_errors(ts.take(i)) <= sum_errors(ts),
        sum_warnings(ts.take(i)) <= sum_warnings(ts),
    decreases ts.len() - i,
{
    if i < ts.len() {
        assert(ts.take(i + 1).drop_last() =~= ts.take(i));
        lemma_sums_grow(ts, i + 1);
    } else {
        assert(ts.take(i) =~= ts);
    }
}

/// Adds up the tallies of a deployment's tasks: it can deploy when the
/// tasks have no error between them.
pub fn deployment_tally(tallies: &Vec<CheckTally>) -> (d: DeploymentTally)
    requires
        sum_checks(tallies@) <= usize::MAX,
        sum_errors(tallies@) <= usize::MAX,
        sum_warnings(tallies@) <= usize::MAX,
    ensures
        d.total_checks == sum_checks(tallies@),
        d.total_errors == sum_errors(tallies@),
        d.total_warnings == sum_warnings(tallies@),
        d.can_deploy == (sum_errors(tallies@) == 0),
{
    let ghost ts = tallies@;
    let mut checks: usize = 0;
    let mut errors: usize = 0;
    let mut warnings: usize = 0;
    let mut i: usize = 0;
    proof {
        assert(ts.take(0) =~= Seq::<CheckTally>::empty());
    }
    while i < tallies.len()
        invariant
            ts == tallies@,
            i <= ts.len(),
            sum_checks(ts) <= usize::MAX,
            sum_errors(ts) <= usize::MAX,
            sum_warnings(ts) <= usize::MAX,
            checks == sum_checks(ts.take(i as int)),
            errors == sum_errors(ts.take(i as int)),
            warnings == sum_warnings(ts.take(i as int)),
        decreases ts.len() - i,
    {
        proof {
            assert(ts.take(i + 1).drop_last() =~= ts.take(i as int));
            lemma_sums_grow(ts, i + 1);
        }
        checks = checks + tallies[i].total_checks;
        errors = errors + tallies[i].error_count;
        warnings = warnings + tallies[i].warning_count;
        i = i + 1;
    }
    assert(ts.take(i as int) =~= ts);
    DeploymentTally { can_deploy: errors == 0, total_checks: checks, total_errors: errors, total_warnings: warnings }
}

/// The texts joined, in order.
pub open spec fn joined(parts: Seq<Seq<char>>) -> Seq<char>
    decreases parts.len(),
{
    if parts.len() == 0 {
        Seq::empty()
    } else {
        joined(parts.drop_last()) + parts.last()
    }
}

/// The summary of a deployment's contract validation: a title, each
/// task's report, then the verdict with its counts.
pub open spec fn deployment_report(reports: Seq<Seq<char>>, d: DeploymentTally) -> Seq<char> {
    "Contract Validation Summary\n"@ + "─────────────────────────────\n"@ + joined(reports) + "\n"@ + if d.can_deploy {
        "Result: PASS — "@ + decimal(d.total_checks as nat) + " checks passed ("@ + decimal(d.total_warnings as nat)
            + " warnings)\n"@
    } else {
        "Result: BLOCKED — "@ + decimal(d.total_errors as nat) + " errors must be fixed before deployment ("@
            + decimal(d.total_warnings as nat) + " warnings)\n"@
    }
}

/// The summary of a deployment's contract validation (see
/// `deployment_report`); `reports` are the tasks' reports.
pub fn deployment_text(reports: &Vec<String>, d: &DeploymentTally) -> (s: String)
    ensures
        s@ == deployment_report(crate::text::views(reports@), *d),
{
    let mut out: Vec<char> = Vec::new();
    push_str(&mut out, "Contract Validation Summary\n");
    push_str(&mut out, "─────────────────────────────\n");
    let ghost head = out@;
    let ghost rs = crate::text::views(reports@);
    let mut i: usize = 0;
    proof {
        assert(rs.take(0) =~= Seq::<Seq<char>>::empty());
        assert(head + joined(rs.take(0)) =~= head);
    }
    while i < reports.len()
        invariant
            rs == crate::text::views(reports@),
            i <= rs.len(),
            out@ == head + joined(rs.take(i as int)),
        decreases rs.len() - i,
    {
        assert(rs.take(i + 1).drop_last() =~= rs.take(i as int));
        assert(rs.take(i + 1).last() == reports@[i as int]@);
        push_str(&mut out, reports[i].as_str());
        assert(out@ =~= head + joined(rs.take(i + 1)));
        i = i + 1;
    }
    assert(rs.take(i as int) =~= rs);
    let ghost body = out@;
    push_str(&mut out, "\n");
    if d.can_deploy {
        push_str(&mut out, "Result: PASS — ");
        push_decimal(&mut out, d.total_checks as u64);
        push_str(&mut out, " checks passed (");
        push_decimal(&mut out, d.total_warnings as u64);
        push_str(&mut out, " warnings)\n");
    } else {
        push_str(&mut out, "Result: BLOCKED — ");
        push_decimal(&mut out, d.total_errors as u64);
        push_str(&mut out, " errors must be fixed before deployment (");
        push_decimal(&mut out, d.total_warnings as u64);
        push_str(&mut out, " warnings)\n");
    }
    assert(out@ =~= deployment_report(rs, *d));
    string_of(out.as_slice())
}

} // verus!
