//! SQL task input/output inference.
//!
//! Runs after dependency resolution: for each SQL task the lineage of its
//! query (the tables it reads, the table it writes, the columns it
//! produces) fills in the task's inputs and outputs, so that cross-task
//! lineage stitching has a uniform model to work with.
//!
//! The output dataset's name is, from most to least specific: the target
//! the task declares; the table the query writes (`INSERT INTO ...` or
//! `CREATE TABLE ... AS`); the task id, marked anonymous. The extractor's
//! sentinel columns (`__where__`, `*`) are left out.

use vstd::prelude::*;
use crate::dag::{ColumnSpec, Dag, Dataset, Task, TaskType};
use vstd::string::StrSliceExecFns;
use crate::text::{chars_of, has_prefix, owned, push_str, starts_with_chars, str_eq, string_of};

verus! {

/// A table a query names, with its schema if it has one.
#[derive(Debug, Clone)]
pub struct TableRef {
    pub schema: Option<String>,
    pub name: String,
}

/// A column a query produces.
#[derive(Debug, Clone)]
pub struct ColumnRef {
    pub name: String,
}

/// What the SQL lineage extractor finds in a query: the tables it reads,
/// the table it writes if any, and the columns it produces, in order.
#[derive(Debug, Clone)]
pub struct SqlLineage {
    pub source_tables: Vec<TableRef>,
    pub target_table: Option<TableRef>,
    pub output_columns: Vec<ColumnRef>,
}

/// A table's name, qualified by its schema when the schema is not empty.
pub open spec fn qualified(t: TableRef) -> Seq<char> {
    match t.schema {
        Some(s) => if s@.len() > 0 {
            s@ + "."@ + t.name@
        } else {
            t.name@
        },
        None => t.name@,
    }
}

/// The table's name, qualified by its schema (see `qualified`).
pub fn qualified_name(t: &TableRef) -> (r: String)
    ensures
        r@ == qualified(*t),
{
    match &t.schema {
        Some(s) => {
            if s.as_str().unicode_len() > 0 {
                let mut out = chars_of(s.as_str());
                out.push('.');
                push_str(&mut out, t.name.as_str());
                assert(out@ =~= s@ + "."@ + t.name@) by {
                    reveal_strlit(".");
                }
                string_of(out.as_slice())
            } else {
                t.name.clone()
            }
        },
        None => t.name.clone(),
    }
}

/// The names of the columns that are not the extractor's sentinels (`*`
/// and `__where__`), in order.
pub open spec fn kept_columns(cs: Seq<ColumnRef>) -> Seq<Seq<char>>
    decreases cs.len(),
{
    if cs.len() == 0 {
        Seq::empty()
    } else {
        let rest = kept_columns(cs.drop_last());
        let n = cs.last().name@;
        if n != "*"@ && n != "__where__"@ {
            rest.push(n)
        } else {
            rest
        }
    }
}

/// The columns are untyped and have the names `names`, in order.
pub open spec fn columns_named(cs: Seq<ColumnSpec>, names: Seq<Seq<char>>) -> bool {
    &&& cs.len() == names.len()
    &&& forall|i: int| 0 <= i < cs.len() ==> (#[trigger] cs[i]).name@ == names[i] && cs[i].dtype is None
}

/// The output columns of the lineage, without the sentinels.
pub fn output_columns(lineage: &SqlLineage) -> (r: Vec<ColumnSpec>)
    ensures
        columns_named(r@, kept_columns(lineage.output_columns@)),
{
    let ghost cs = lineage.output_columns@;
    let mut out: Vec<ColumnSpec> = Vec::new();
    let mut i: usize = 0;
    proof {
        assert(cs.take(0) =~= Seq::<ColumnRef>::empty());
    }
    while i < lineage.output_columns.len()
        invariant
            cs == lineage.output_columns@,
            i <= cs.len(),
            columns_named(out@, kept_columns(cs.take(i as int))),
        decreases cs.len() - i,
    {
        assert(cs.take(i + 1).drop_last() =~= cs.take(i as int));
        assert(cs.take(i + 1).last() == cs[i as int]);
        let name = &lineage.output_columns[i].name;
        if !str_eq(name.as_str(), "*") && !str_eq(name.as_str(), "__where__") {
            out.push(ColumnSpec::new(name.clone()));
        }
        i = i + 1;
    }
    assert(cs.take(i as int) =~= cs);
    out
}

/// The names of the datasets a query reads: each source table's qualified
/// name, once, in order of first appearance, leaving out the placeholder
/// tables of templates (named `__conduit_jinja_...`).
pub open spec fn input_names(ts: Seq<TableRef>) -> Seq<Seq<char>>
    decreases ts.len(),
{
    if ts.len() == 0 {
        Seq::empty()
    } else {
        let rest = input_names(ts.drop_last());
        let t = ts.last();
        if has_prefix(t.name@, "__conduit_jinja_"@) || rest.contains(qualified(t)) {
            rest
        } else {
            rest.push(qualified(t))
        }
    }
}

/// The datasets have the names `names`, in order, no columns, and are not
/// anonymous.
pub open spec fn plain_datasets(ds: Seq<Dataset>, names: Seq<Seq<char>>) -> bool {
    &&& ds.len() == names.len()
    &&& forall|i: int|
        0 <= i < ds.len() ==> (#[trigger] ds[i]).name@ == names[i] && ds[i].columns@.len() == 0 && !ds[i].anonymous
}

fn has_dataset(ds: &Vec<Dataset>, name: &str) -> (b: bool)
    ensures
        b == ds@.map_values(|d: Dataset| d.name@).contains(name@),
{
    let ghost names = ds@.map_values(|d: Dataset| d.name@);
    let mut i: usize = 0;
    while i < ds.len()
        invariant
            names == ds@.map_values(|d: Dataset| d.name@),
            i <= ds@.len(),
            forall|j: int| 0 <= j < i ==> names[j] != name@,
        decreases ds.len() - i,
    {
        if str_eq(ds[i].name.as_str(), name) {
            assert(names[i as int] == name@);
            return true;
        }
        i = i + 1;
    }
    false
}

/// The datasets the lineage's source tables give (see `input_names`).
pub fn inputs_from_sources(lineage: &SqlLineage) -> (r: Vec<Dataset>)
    ensures
        plain_datasets(r@, input_names(lineage.source_tables@)),
        forall|a: int, b: int| 0 <= a < b < r@.len() ==> (#[trigger] r@[a]).name@ != (#[trigger] r@[b]).name@,
{
    let ghost ts = lineage.source_tables@;
    let mut out: Vec<Dataset> = Vec::new();
    let mut i: usize = 0;
    proof {
        assert(ts.take(0) =~= Seq::<TableRef>::empty());
    }
    while i < lineage.source_tables.len()
        invariant
            ts == lineage.source_tables@,
            i <= ts.len(),
            plain_datasets(out@, input_names(ts.take(i as int))),
        decreases ts.len() - i,
    {
        assert(ts.take(i + 1).drop_last() =~= ts.take(i as int));
        assert(ts.take(i + 1).last() == ts[i as int]);
        let t = &lineage.source_tables[i];
        let ghost prev = input_names(ts.take(i as int));
        assert(out@.map_values(|d: Dataset| d.name@) =~= prev);
        if !starts_with_chars(chars_of(t.name.as_str()).as_slice(), "__conduit_jinja_") {
            let name = qualified_name(t);
            if !has_dataset(&out, name.as_str()) {
                let ghost before = out@;
                out.push(Dataset::new(name, Vec::new()));
                assert(forall|j: int| 0 <= j < before.len() ==> out@[j] == before[j]);
            }
        }
        i = i + 1;
    }
    assert(ts.take(i as int) =~= ts);
    proof {
        law_input_names_distinct(ts);
        let names = input_names(ts);
        assert forall|a: int, b: int| 0 <= a < b < out@.len() implies (#[trigger] out@[a]).name@ != (
        #[trigger] out@[b]).name@ by {
            assert(out@[a].name@ == names[a] && out@[b].name@ == names[b]);
        }
    }
    out
}

/// The name of a task's output dataset: the declared target, else the
/// table the query writes, else the task id; anonymous in the last case.
pub open spec fn output_name(task_id: Seq<char>, declared: Option<Seq<char>>, lineage: SqlLineage) -> (Seq<char>, bool) {
    match declared {
        Some(t) => (t, false),
        None => match lineage.target_table {
            Some(tr) => (qualified(tr), false),
            None => (task_id, true),
        },
    }
}

/// The dataset is the output that `output_name` names, with the lineage's
/// output columns.
pub open spec fn output_ok(d: Dataset, task_id: Seq<char>, declared: Option<Seq<char>>, lineage: SqlLineage) -> bool {
    &&& (d.name@, d.anonymous) == output_name(task_id, declared, lineage)
    &&& columns_named(d.columns@, kept_columns(lineage.output_columns@))
}

/// A task's output dataset (see `output_name`).
pub fn output_dataset(task_id: &str, declared: Option<&str>, lineage: &SqlLineage) -> (d: Dataset)
    ensures
        output_ok(
            d,
            task_id@,
            match declared {
                Some(t) => Some(t@),
                None => None,
            },
            *lineage,
        ),
{
    let columns = output_columns(lineage);
    if let Some(t) = declared {
        return Dataset::new(owned(t), columns);
    }
    if let Some(tref) = &lineage.target_table {
        return Dataset::new(qualified_name(tref), columns);
    }
    Dataset { name: owned(task_id), columns, anonymous: true }
}

/// The task with other inputs and outputs.
pub open spec fn with_io(t: Task, inputs: Vec<Dataset>, outputs: Vec<Dataset>) -> Task {
    Task {
        id: t.id,
        task_type: t.task_type,
        dependencies: t.dependencies,
        retries: t.retries,
        retry_delay: t.retry_delay,
        source_hash: t.source_hash,
        pool: t.pool,
        timeout: t.timeout,
        priority: t.priority,
        resources: t.resources,
        trigger_rule: t.trigger_rule,
        incremental: t.incremental,
        inputs,
        outputs,
    }
}

/// `after` is `before` with the inputs and outputs that the lineage of its
/// query gives: a SQL task with no inputs gets those of its source tables,
/// one with no outputs gets its output dataset; other tasks, and declared
/// inputs and outputs, stay as they were.
pub open spec fn inferred(before: Task, after: Task, lineage: SqlLineage) -> bool {
    &&& after == with_io(before, after.inputs, after.outputs)
    &&& match before.task_type {
        TaskType::Sql { target, .. } => {
            &&& if before.inputs@.len() == 0 {
                plain_datasets(after.inputs@, input_names(lineage.source_tables@))
            } else {
                after.inputs == before.inputs
            }
            &&& if before.outputs@.len() == 0 {
                after.outputs@.len() == 1 && output_ok(
                    after.outputs@[0],
                    before.id@,
                    match target {
                        Some(t) => Some(t@),
                        None => None,
                    },
                    lineage,
                )
            } else {
                after.outputs == before.outputs
            }
        },
        _ => after == before,
    }
}

/// Fills in the inputs and outputs of a SQL task from the lineage of its
/// query (see `inferred`).
pub fn infer_for_task(task: &mut Task, lineage: &SqlLineage)
    ensures
        inferred(*old(task), *final(task), *lineage),
{
    let declared: Option<String> = match &task.task_type {
        TaskType::Sql { target, .. } => match target {
            Some(t) => Some(t.clone()),
            None => None,
        },
        _ => {
            return;
        },
    };
    if task.inputs.len() == 0 {
        task.inputs = inputs_from_sources(lineage);
    }
    if task.outputs.len() == 0 {
        let d = match &declared {
            Some(t) => output_dataset(task.id.as_str(), Some(t.as_str()), lineage),
            None => output_dataset(task.id.as_str(), None, lineage),
        };
        task.outputs = vec![d];
    }
}

/// Fills in the inputs and outputs of every SQL task of the DAG;
/// `lineages[i]` is the lineage of the query of task `i`. The DAG is
/// otherwise unchanged.
pub fn infer_sql_io(dag: &mut Dag, lineages: &Vec<SqlLineage>)
    requires
        lineages@.len() == old(dag).tasks@.len(),
    ensures
        final(dag).tasks@.len() == old(dag).tasks@.len(),
        forall|i: int|
            0 <= i < old(dag).tasks@.len() ==> inferred(old(dag).tasks@[i], #[trigger] final(dag).tasks@[i], lineages@[i]),
        final(dag).id == old(dag).id,
        final(dag).execution_order == old(dag).execution_order,
        final(dag).schedule == old(dag).schedule,
        final(dag).tags == old(dag).tags,
        final(dag).description == old(dag).description,
        final(dag).max_active_runs == old(dag).max_active_runs,
        final(dag).on_failure == old(dag).on_failure,
        final(dag).source_file == old(dag).source_file,
        final(dag).compiled_at_ms == old(dag).compiled_at_ms,
        final(dag).catchup == old(dag).catchup,
        final(dag).max_catchup_runs == old(dag).max_catchup_runs,
        final(dag).lineage_strict == old(dag).lineage_strict,
{
    let ghost orig = dag.tasks@;
    let mut i: usize = 0;
    while i < dag.tasks.len()
        invariant
            dag.tasks@.len() == orig.len() == lineages@.len(),
            i <= orig.len(),
            forall|j: int| 0 <= j < i ==> inferred(orig[j], #[trigger] dag.tasks@[j], lineages@[j]),
            forall|j: int| i <= j < orig.len() ==> #[trigger] dag.tasks@[j] == orig[j],
            dag.id == old(dag).id,
            dag.execution_order == old(dag).execution_order,
            dag.schedule == old(dag).schedule,
            dag.tags == old(dag).tags,
            dag.description == old(dag).description,
            dag.max_active_runs == old(dag).max_active_runs,
            dag.on_failure == old(dag).on_failure,
            dag.source_file == old(dag).source_file,
            dag.compiled_at_ms == old(dag).compiled_at_ms,
            dag.catchup == old(dag).catchup,
            dag.max_catchup_runs == old(dag).max_catchup_runs,
            dag.lineage_strict == old(dag).lineage_strict,
        decreases orig.len() - i,
    {
        let ghost prev = dag.tasks@;
        infer_for_task(&mut dag.tasks[i], &lineages[i]);
        proof {
            assert forall|j: int| 0 <= j < orig.len() && j != i implies dag.tasks@[j] == prev[j] by {}
        }
        i = i + 1;
    }
}

/// A query's input names hold each table once, wherever its repeats stand
/// among the sources: no name occurs twice. Each is the qualified name of a
/// source that is no template placeholder, and every such source's name is
/// among them.
pub proof fn law_input_names_distinct(ts: Seq<TableRef>)
    ensures
        input_names(ts).no_duplicates(),
        forall|i: int|
            0 <= i < input_names(ts).len() ==> exists|j: int|
                0 <= j < ts.len() && !has_prefix((#[trigger] ts[j]).name@, "__conduit_jinja_"@)
                    && #[trigger] input_names(ts)[i] == qualified(ts[j]),
        forall|j: int|
            0 <= j < ts.len() && !has_prefix((#[trigger] ts[j]).name@, "__conduit_jinja_"@) ==> input_names(
                ts,
            ).contains(qualified(ts[j])),
    decreases ts.len(),
{
    if ts.len() > 0 {
        let init = ts.drop_last();
        law_input_names_distinct(init);
        let rest = input_names(init);
        let t = ts.last();
        let r = input_names(ts);
        let skip = has_prefix(t.name@, "__conduit_jinja_"@) || rest.contains(qualified(t));
        if !skip {
            assert forall|a: int, b: int| 0 <= a < r.len() && 0 <= b < r.len() && a != b implies r[a] != r[b] by {
                if a < rest.len() && b < rest.len() {
                    assert(r[a] == rest[a] && r[b] == rest[b]);
                } else if a < rest.len() {
                    assert(r[a] == rest[a]);
                    assert(r[b] == qualified(t));
                } else {
                    assert(r[b] == rest[b]);
                    assert(r[a] == qualified(t));
                }
            }
        }
        assert forall|i: int| 0 <= i < r.len() implies exists|j: int|
            0 <= j < ts.len() && !has_prefix((#[trigger] ts[j]).name@, "__conduit_jinja_"@)
                && #[trigger] r[i] == qualified(ts[j]) by {
            if i < rest.len() {
                assert(r[i] == rest[i]);
                let j = choose|j: int|
                    0 <= j < init.len() && !has_prefix((#[trigger] init[j]).name@, "__conduit_jinja_"@)
                        && rest[i] == qualified(init[j]);
                assert(init[j] == ts[j]);
            } else {
                assert(r[i] == qualified(t));
                assert(ts[ts.len() - 1] == t);
            }
        }
        assert forall|j: int| 0 <= j < ts.len() && !has_prefix((#[trigger] ts[j]).name@, "__conduit_jinja_"@) implies r.contains(
            qualified(ts[j]),
        ) by {
            if j < init.len() {
                assert(init[j] == ts[j]);
                let k = choose|k: int| 0 <= k < rest.len() && rest[k] == qualified(init[j]);
                if !skip {
                    assert(r[k] == rest[k]);
                }
            } else {
                assert(ts[j] == t);
                if !skip {
                    assert(r[r.len() - 1] == qualified(t));
                }
            }
        }
    }
}

} // verus!
