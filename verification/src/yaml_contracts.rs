//! The data-quality contracts a YAML task declares: which check each one
//! is, its name, severity and the fields each check requires. The numeric
//! thresholds (floating point) are carried by the caller, which fills them
//! in.

use vstd::prelude::*;
use crate::contracts::Severity;
use crate::error::ConduitError;
use crate::text::{chars_of, clone_opt, clone_strings, push_str, str_eq, string_of, views};
use crate::yaml::{lowercase, to_lowercase};

verus! {

/// A contract as the YAML file writes it, its numeric thresholds aside.
#[derive(Debug, Clone)]
pub struct YamlContractFields {
    pub check_type: String,
    pub name: Option<String>,
    pub severity: Option<String>,
    pub description: Option<String>,
    pub exact: Option<u64>,
    pub column: Option<String>,
    pub columns: Vec<String>,
    pub max_age: Option<String>,
    pub values: Vec<String>,
    pub allow_null: bool,
    pub ref_task: Option<String>,
    pub ref_column: Option<String>,
    pub allow_decrease: bool,
    pub metric_name: Option<String>,
    pub assertion_name: Option<String>,
}

/// Which check a contract is, with the fields that are not thresholds.
#[derive(Debug, Clone)]
pub enum ContractShapeKind {
    RowCount { exact: Option<u64> },
    Freshness { max_age: String },
    Unique { columns: Vec<String> },
    NotNullRate { column: String },
    AcceptedValues { column: String, values: Vec<String>, allow_null: bool },
    ValueRange { column: String },
    ReferentialIntegrity { column: String, ref_task: String, ref_column: String },
    RowCountDelta { allow_decrease: bool },
    Metric { metric_name: String },
    Custom { assertion_name: String },
}

/// A resolved contract, its thresholds aside.
#[derive(Debug, Clone)]
pub struct ContractShape {
    pub name: String,
    pub kind: ContractShapeKind,
    pub severity: Severity,
    pub description: Option<String>,
}

/// A check kind over plain values.
pub enum KindView {
    RowCount(Option<u64>),
    Freshness(Seq<char>),
    Unique(Seq<Seq<char>>),
    NotNullRate(Seq<char>),
    AcceptedValues(Seq<char>, Seq<Seq<char>>, bool),
    ValueRange(Seq<char>),
    ReferentialIntegrity(Seq<char>, Seq<char>, Seq<char>),
    RowCountDelta(bool),
    Metric(Seq<char>),
    Custom(Seq<char>),
}

/// A resolved contract over plain values.
pub struct ShapeView {
    pub name: Seq<char>,
    pub kind: KindView,
    pub severity: Severity,
    pub description: Option<Seq<char>>,
}

pub open spec fn opt_text(o: Option<String>) -> Option<Seq<char>> {
    match o {
        Some(s) => Some(s@),
        None => None,
    }
}

pub open spec fn kind_view(k: ContractShapeKind) -> KindView {
    match k {
        ContractShapeKind::RowCount { exact } => KindView::RowCount(exact),
        ContractShapeKind::Freshness { max_age } => KindView::Freshness(max_age@),
        ContractShapeKind::Unique { columns } => KindView::Unique(views(columns@)),
        ContractShapeKind::NotNullRate { column } => KindView::NotNullRate(column@),
        ContractShapeKind::AcceptedValues { column, values, allow_null } => KindView::AcceptedValues(
            column@,
            views(values@),
            allow_null,
        ),
        ContractShapeKind::ValueRange { column } => KindView::ValueRange(column@),
        ContractShapeKind::ReferentialIntegrity { column, ref_task, ref_column } => KindView::ReferentialIntegrity(
            column@,
            ref_task@,
            ref_column@,
        ),
        ContractShapeKind::RowCountDelta { allow_decrease } => KindView::RowCountDelta(allow_decrease),
        ContractShapeKind::Metric { metric_name } => KindView::Metric(metric_name@),
        ContractShapeKind::Custom { assertion_name } => KindView::Custom(assertion_name@),
    }
}

pub open spec fn shape_view(s: ContractShape) -> ShapeView {
    ShapeView { name: s.name@, kind: kind_view(s.kind), severity: s.severity, description: opt_text(s.description) }
}

/// The message when a contract lacks a field its check requires.
pub open spec fn missing_field(task_id: Seq<char>, kind: Seq<char>, field: Seq<char>) -> Seq<char> {
    "Task '"@ + task_id + "': "@ + kind + " contract requires '"@ + field + "'"@
}

/// The message for a contract type that names no check.
pub open spec fn unknown_kind(task_id: Seq<char>, kind: Seq<char>) -> Seq<char> {
    "Task '"@ + task_id + "': unknown contract type '"@ + kind
        + "'. Expected: row_count, freshness, unique, not_null, accepted_values, value_range, references, row_count_delta, metric, custom"@
}

/// A field the check requires: its text, or the message that it is
/// missing.
pub open spec fn needed(v: Option<String>, task_id: Seq<char>, kind: Seq<char>, field: Seq<char>) -> Result<Seq<char>, Seq<char>> {
    match v {
        Some(s) => Ok(s@),
        None => Err(missing_field(task_id, kind, field)),
    }
}

/// The check kind a contract's type (lower-cased) names, with its fields;
/// the message of the first missing field, or of an unknown type.
pub open spec fn kind_outcome(task_id: Seq<char>, y: YamlContractFields) -> Result<KindView, Seq<char>> {
    kind_outcome_for(task_id, lowercase(y.check_type@), y)
}

/// The check kind the lower-cased type name `t` names, with the contract's
/// fields; the message of the first missing field, or of an unknown type.
pub open spec fn kind_outcome_for(task_id: Seq<char>, t: Seq<char>, y: YamlContractFields) -> Result<KindView, Seq<char>> {
    if t == "row_count"@ || t == "rowcount"@ {
        Ok(KindView::RowCount(y.exact))
    } else if t == "freshness"@ {
        match needed(y.max_age, task_id, "freshness"@, "max_age"@) {
            Ok(a) => Ok(KindView::Freshness(a)),
            Err(m) => Err(m),
        }
    } else if t == "unique"@ || t == "uniqueness"@ {
        Ok(
            KindView::Unique(
                if y.columns@.len() == 0 {
                    match y.column {
                        Some(c) => seq![c@],
                        None => Seq::empty(),
                    }
                } else {
                    views(y.columns@)
                },
            ),
        )
    } else if t == "not_null"@ || t == "notnull"@ || t == "not_null_rate"@ {
        match needed(y.column, task_id, "not_null"@, "column"@) {
            Ok(c) => Ok(KindView::NotNullRate(c)),
            Err(m) => Err(m),
        }
    } else if t == "accepted_values"@ || t == "values"@ {
        match needed(y.column, task_id, "accepted_values"@, "column"@) {
            Ok(c) => Ok(KindView::AcceptedValues(c, views(y.values@), y.allow_null)),
            Err(m) => Err(m),
        }
    } else if t == "value_range"@ || t == "range"@ {
        match needed(y.column, task_id, "value_range"@, "column"@) {
            Ok(c) => Ok(KindView::ValueRange(c)),
            Err(m) => Err(m),
        }
    } else if t == "references"@ || t == "referential_integrity"@ || t == "fk"@ {
        match needed(y.column, task_id, "references"@, "column"@) {
            Err(m) => Err(m),
            Ok(c) => match needed(y.ref_task, task_id, "references"@, "ref_task"@) {
                Err(m) => Err(m),
                Ok(rt) => match needed(y.ref_column, task_id, "references"@, "ref_column"@) {
                    Err(m) => Err(m),
                    Ok(rc) => Ok(KindView::ReferentialIntegrity(c, rt, rc)),
                },
            },
        }
    } else if t == "row_count_delta"@ || t == "delta"@ {
        Ok(KindView::RowCountDelta(y.allow_decrease))
    } else if t == "metric"@ {
        match needed(y.metric_name, task_id, "metric"@, "metric_name"@) {
            Ok(n) => Ok(KindView::Metric(n)),
            Err(m) => Err(m),
        }
    } else if t == "custom"@ {
        match needed(y.assertion_name, task_id, "custom"@, "assertion_name"@) {
            Ok(n) => Ok(KindView::Custom(n)),
            Err(m) => Err(m),
        }
    } else {
        Err(unknown_kind(task_id, t))
    }
}

/// The severity a contract gives: a warning for `warning` or `warn`, else
/// an error.
pub open spec fn severity_named(s: Option<String>) -> Severity {
    match s {
        Some(t) => if t@ == "warning"@ || t@ == "warn"@ {
            Severity::Warning
        } else {
            Severity::Error
        },
        None => Severity::Error,
    }
}

/// What one YAML contract resolves to: its check, named by its name or by
/// `type:task`, with its severity and description; or the message of why
/// it does not resolve.
pub open spec fn shape_outcome(task_id: Seq<char>, y: YamlContractFields) -> Result<ShapeView, Seq<char>> {
    match kind_outcome(task_id, y) {
        Err(m) => Err(m),
        Ok(k) => Ok(
            ShapeView {
                name: match y.name {
                    Some(n) => n@,
                    None => y.check_type@ + ":"@ + task_id,
                },
                kind: k,
                severity: severity_named(y.severity),
                description: opt_text(y.description),
            },
        ),
    }
}

/// What a task's YAML contracts resolve to: each in order, or the message
/// of the first that does not resolve.
pub open spec fn shapes_outcome(task_id: Seq<char>, ys: Seq<YamlContractFields>) -> Result<Seq<ShapeView>, Seq<char>>
    decreases ys.len(),
{
    if ys.len() == 0 {
        Ok(Seq::empty())
    } else {
        match shapes_outcome(task_id, ys.drop_last()) {
            Err(m) => Err(m),
            Ok(acc) => match shape_outcome(task_id, ys.last()) {
                Err(m) => Err(m),
                Ok(s) => Ok(acc.push(s)),
            },
        }
    }
}

fn required(value: &Option<String>, task_id: &str, kind: &str, field: &str) -> (r: Result<String, ConduitError>)
    ensures
        match needed(*value, task_id@, kind@, field@) {
            Ok(s) => r matches Ok(t) && t@ == s,
            Err(m) => r matches Err(ConduitError::ConfigError(e)) && e@ == m,
        },
{
    match value {
        Some(s) => Ok(s.clone()),
        None => {
            let mut out = chars_of("Task '");
            push_str(&mut out, task_id);
            push_str(&mut out, "': ");
            push_str(&mut out, kind);
            push_str(&mut out, " contract requires '");
            push_str(&mut out, field);
            push_str(&mut out, "'");
            assert(out@ =~= missing_field(task_id@, kind@, field@));
            Err(ConduitError::ConfigError(string_of(out.as_slice())))
        },
    }
}

fn is_one_of(t: &str, a: &str, b: &str, c: &str) -> (r: bool)
    ensures
        r == (t@ == a@ || t@ == b@ || t@ == c@),
{
    str_eq(t, a) || str_eq(t, b) || str_eq(t, c)
}

fn kind_of(task_id: &str, y: &YamlContractFields) -> (r: Result<ContractShapeKind, ConduitError>)
    ensures
        match kind_outcome(task_id@, *y) {
            Ok(k) => r matches Ok(x) && kind_view(x) == k,
            Err(m) => r matches Err(ConduitError::ConfigError(e)) && e@ == m,
        },
{
    let lower = to_lowercase(y.check_type.as_str());
    contract_kind(task_id, lower.as_str(), y)
}

/// The check kind that the lower-cased type name `t` names, with the
/// contract's fields (see `kind_outcome_for`).
pub fn contract_kind(task_id: &str, t: &str, y: &YamlContractFields) -> (r: Result<ContractShapeKind, ConduitError>)
    ensures
        match kind_outcome_for(task_id@, t@, *y) {
            Ok(k) => r matches Ok(x) && kind_view(x) == k,
            Err(m) => r matches Err(ConduitError::ConfigError(e)) && e@ == m,
        },
{
    if is_one_of(t, "row_count", "rowcount", "row_count") {
        Ok(ContractShapeKind::RowCount { exact: y.exact })
    } else if str_eq(t, "freshness") {
        let max_age = required(&y.max_age, task_id, "freshness", "max_age")?;
        Ok(ContractShapeKind::Freshness { max_age })
    } else if is_one_of(t, "unique", "uniqueness", "unique") {
        let columns = if y.columns.len() == 0 {
            match &y.column {
                Some(c) => {
                    let v = vec![c.clone()];
                    assert(views(v@) =~= seq![c@]);
                    v
                },
                None => {
                    let v: Vec<String> = Vec::new();
                    assert(views(v@) =~= Seq::<Seq<char>>::empty());
                    v
                },
            }
        } else {
            clone_strings(&y.columns)
        };
        Ok(ContractShapeKind::Unique { columns })
    } else if is_one_of(t, "not_null", "notnull", "not_null_rate") {
        let column = required(&y.column, task_id, "not_null", "column")?;
        Ok(ContractShapeKind::NotNullRate { column })
    } else if is_one_of(t, "accepted_values", "values", "values") {
        let column = required(&y.column, task_id, "accepted_values", "column")?;
        Ok(ContractShapeKind::AcceptedValues { column, values: clone_strings(&y.values), allow_null: y.allow_null })
    } else if is_one_of(t, "value_range", "range", "range") {
        let column = required(&y.column, task_id, "value_range", "column")?;
        Ok(ContractShapeKind::ValueRange { column })
    } else if is_one_of(t, "references", "referential_integrity", "fk") {
        let column = required(&y.column, task_id, "references", "column")?;
        let ref_task = required(&y.ref_task, task_id, "references", "ref_task")?;
        let ref_column = required(&y.ref_column, task_id, "references", "ref_column")?;
        Ok(ContractShapeKind::ReferentialIntegrity { column, ref_task, ref_column })
    } else if is_one_of(t, "row_count_delta", "delta", "delta") {
        Ok(ContractShapeKind::RowCountDelta { allow_decrease: y.allow_decrease })
    } else if str_eq(t, "metric") {
        let metric_name = required(&y.metric_name, task_id, "metric", "metric_name")?;
        Ok(ContractShapeKind::Metric { metric_name })
    } else if str_eq(t, "custom") {
        let assertion_name = required(&y.assertion_name, task_id, "custom", "assertion_name")?;
        Ok(ContractShapeKind::Custom { assertion_name })
    } else {
        let mut out = chars_of("Task '");
        push_str(&mut out, task_id);
        push_str(&mut out, "': unknown contract type '");
        push_str(&mut out, t);
        push_str(
            &mut out,
            "'. Expected: row_count, freshness, unique, not_null, accepted_values, value_range, references, row_count_delta, metric, custom",
        );
        assert(out@ =~= unknown_kind(task_id@, t@));
        Err(ConduitError::ConfigError(string_of(out.as_slice())))
    }
}

/// One YAML contract resolved (see `shape_outcome`).
pub fn resolve_contract_shape(task_id: &str, y: &YamlContractFields) -> (r: Result<ContractShape, ConduitError>)
    ensures
        match shape_outcome(task_id@, *y) {
            Ok(v) => r matches Ok(s) && shape_view(s) == v,
            Err(m) => r matches Err(ConduitError::ConfigError(e)) && e@ == m,
        },
        r is Ok ==> ((r->Ok_0.severity == Severity::Warning) <==> (y.severity is Some && (y.severity->0@
            == "warning"@ || y.severity->0@ == "warn"@))),
{
    proof {
        law_contract_severity(task_id@, *y);
    }
    let kind = kind_of(task_id, y)?;
    let severity = match &y.severity {
        Some(s) => if str_eq(s.as_str(), "warning") || str_eq(s.as_str(), "warn") {
            Severity::Warning
        } else {
            Severity::Error
        },
        None => Severity::Error,
    };
    let name = match &y.name {
        Some(n) => n.clone(),
        None => {
            let mut out = chars_of(y.check_type.as_str());
            out.push(':');
            push_str(&mut out, task_id);
            assert(out@ =~= y.check_type@ + ":"@ + task_id@) by {
                reveal_strlit(":");
            }
            string_of(out.as_slice())
        },
    };
    Ok(ContractShape { name, kind, severity, description: clone_opt(&y.description) })
}

/// A task's YAML contracts resolved, in order (see `shapes_outcome`): the
/// first that does not resolve gives the error.
pub fn resolve_contract_shapes(task_id: &str, contracts: &Vec<YamlContractFields>) -> (r: Result<
    Vec<ContractShape>,
    ConduitError,
>)
    ensures
        match shapes_outcome(task_id@, contracts@) {
            Ok(vs) => r matches Ok(ss) && ss@.map_values(|s: ContractShape| shape_view(s)) == vs,
            Err(m) => r matches Err(ConduitError::ConfigError(e)) && e@ == m,
        },
{
    let ghost ys = contracts@;
    let mut out: Vec<ContractShape> = Vec::new();
    let mut i: usize = 0;
    proof {
        assert(ys.take(0) =~= Seq::<YamlContractFields>::empty());
        assert(out@.map_values(|s: ContractShape| shape_view(s)) =~= Seq::<ShapeView>::empty());
    }
    while i < contracts.len()
        invariant
            ys == contracts@,
            i <= ys.len(),
            shapes_outcome(task_id@, ys.take(i as int)) == Ok::<Seq<ShapeView>, Seq<char>>(
                out@.map_values(|s: ContractShape| shape_view(s)),
            ),
        decreases ys.len() - i,
    {
        assert(ys.take(i + 1).drop_last() =~= ys.take(i as int));
        assert(ys.take(i + 1).last() == ys[i as int]);
        match resolve_contract_shape(task_id, &contracts[i]) {
            Ok(s) => {
                let ghost before = out@.map_values(|s: ContractShape| shape_view(s));
                out.push(s);
                assert(out@.map_values(|s: ContractShape| shape_view(s)) =~= before.push(shape_view(s)));
            },
            Err(e) => {
                proof {
                    lemma_shapes_error_stays(task_id@, ys, i + 1);
                }
                return Err(e);
            },
        }
        i = i + 1;
    }
    assert(ys.take(i as int) =~= ys);
    Ok(out)
}

proof fn lemma_shapes_error_stays(task_id: Seq<char>, ys: Seq<YamlContractFields>, a: int)
    requires
        0 <= a <= ys.len(),
        shapes_outcome(task_id, ys.take(a)) is Err,
    ensures
        shapes_outcome(task_id, ys) == shapes_outcome(task_id, ys.take(a)),
    decreases ys.len() - a,
{
    if a < ys.len() {
        assert(ys.take(a + 1).drop_last() =~= ys.take(a));
        lemma_shapes_error_stays(task_id, ys, a + 1);
    } else {
        assert(ys.take(a) =~= ys);
    }
}

/// A contract whose check resolves is a warning exactly when its severity
/// text is `warning` or `warn`; any other text, or none, makes it an
/// error. A contract whose check does not resolve is refused, whatever its
/// severity.
pub proof fn law_contract_severity(task_id: Seq<char>, y: YamlContractFields)
    ensures
        kind_outcome(task_id, y) is Ok ==> shape_outcome(task_id, y) is Ok && ((shape_outcome(task_id, y)->Ok_0.severity
            == Severity::Warning) <==> (y.severity is Some && (y.severity->0@ == "warning"@ || y.severity->0@
            == "warn"@))),
        kind_outcome(task_id, y) is Ok ==> ((shape_outcome(task_id, y)->Ok_0.severity == Severity::Error) <==> (
        y.severity is None || (y.severity->0@ != "warning"@ && y.severity->0@ != "warn"@))),
        kind_outcome(task_id, y) is Err ==> shape_outcome(task_id, y) is Err,
{
}

/// Each contract type name gives its own check, wherever it stands among
/// the others: the names of one check give that check when the fields it
/// requires are there (and the message of the first missing one when not),
/// and a name that is none of them is refused as an unknown type.
pub proof fn law_contract_kind_names(task_id: Seq<char>, t: Seq<char>, y: YamlContractFields)
    ensures
        (t == "row_count"@ || t == "rowcount"@) ==> kind_outcome_for(task_id, t, y) matches Ok(KindView::RowCount(..)),
        (t == "freshness"@) ==> ((kind_outcome_for(task_id, t, y) matches Ok(KindView::Freshness(..))) <==> y.max_age is Some),
        (t == "unique"@ || t == "uniqueness"@) ==> kind_outcome_for(task_id, t, y) matches Ok(KindView::Unique(..)),
        (t == "not_null"@ || t == "notnull"@ || t == "not_null_rate"@) ==> ((kind_outcome_for(task_id, t, y) matches Ok(KindView::NotNullRate(..))) <==> y.column is Some),
        (t == "accepted_values"@ || t == "values"@) ==> ((kind_outcome_for(task_id, t, y) matches Ok(KindView::AcceptedValues(..))) <==> y.column is Some),
        (t == "value_range"@ || t == "range"@) ==> ((kind_outcome_for(task_id, t, y) matches Ok(KindView::ValueRange(..))) <==> y.column is Some),
        (t == "references"@ || t == "referential_integrity"@ || t == "fk"@) ==> ((kind_outcome_for(task_id, t, y) matches Ok(KindView::ReferentialIntegrity(..))) <==> (y.column is Some && y.ref_task is Some && y.ref_column is Some)),
        (t == "references"@ || t == "referential_integrity"@ || t == "fk"@) ==> (kind_outcome_for(task_id, t, y) is Ok || kind_outcome_for(task_id, t, y) == Err::<KindView, Seq<char>>(missing_field(task_id, "references"@, if y.column is None { "column"@ } else if y.ref_task is None { "ref_task"@ } else { "ref_column"@ }))),
        (t == "row_count_delta"@ || t == "delta"@) ==> kind_outcome_for(task_id, t, y) matches Ok(KindView::RowCountDelta(..)),
        (t == "metric"@) ==> ((kind_outcome_for(task_id, t, y) matches Ok(KindView::Metric(..))) <==> y.metric_name is Some),
        (t == "custom"@) ==> ((kind_outcome_for(task_id, t, y) matches Ok(KindView::Custom(..))) <==> y.assertion_name is Some),
        !(t == "row_count"@ || t == "rowcount"@ || t == "freshness"@ || t == "unique"@ || t == "uniqueness"@ || t == "not_null"@ || t == "notnull"@ || t == "not_null_rate"@ || t == "accepted_values"@ || t == "values"@ || t == "value_range"@ || t == "range"@ || t == "references"@ || t == "referential_integrity"@ || t == "fk"@ || t == "row_count_delta"@ || t == "delta"@ || t == "metric"@ || t == "custom"@) ==> kind_outcome_for(task_id, t, y) == Err::<KindView, Seq<char>>(unknown_kind(task_id, t)),
{
    reveal_strlit("row_count");
    reveal_strlit("rowcount");
    reveal_strlit("freshness");
    reveal_strlit("unique");
    reveal_strlit("uniqueness");
    reveal_strlit("not_null");
    reveal_strlit("notnull");
    reveal_strlit("not_null_rate");
    reveal_strlit("accepted_values");
    reveal_strlit("values");
    reveal_strlit("value_range");
    reveal_strlit("range");
    reveal_strlit("references");
    reveal_strlit("referential_integrity");
    reveal_strlit("fk");
    reveal_strlit("row_count_delta");
    reveal_strlit("delta");
    reveal_strlit("metric");
    reveal_strlit("custom");
    assert("row_count"@.len() == 9);
    assert("rowcount"@.len() == 8);
    assert("freshness"@.len() == 9);
    assert("unique"@.len() == 6);
    assert("uniqueness"@.len() == 10);
    assert("not_null"@.len() == 8);
    assert("notnull"@.len() == 7);
    assert("not_null_rate"@.len() == 13);
    assert("accepted_values"@.len() == 15);
    assert("values"@.len() == 6);
    assert("value_range"@.len() == 11);
    assert("range"@.len() == 5);
    assert("references"@.len() == 10);
    assert("referential_integrity"@.len() == 21);
    assert("fk"@.len() == 2);
    assert("row_count_delta"@.len() == 15);
    assert("delta"@.len() == 5);
    assert("metric"@.len() == 6);
    assert("custom"@.len() == 6);
    assert("row_count"@[0] != "freshness"@[0]);
    assert("rowcount"@[0] != "not_null"@[0]);
    assert("unique"@[0] != "values"@[0]);
    assert("unique"@[0] != "metric"@[0]);
    assert("unique"@[0] != "custom"@[0]);
    assert("uniqueness"@[0] != "references"@[0]);
    assert("accepted_values"@[0] != "row_count_delta"@[0]);
    assert("values"@[0] != "metric"@[0]);
    assert("values"@[0] != "custom"@[0]);
    assert("range"@[0] != "delta"@[0]);
    assert("metric"@[0] != "custom"@[0]);
}

} // verus!
