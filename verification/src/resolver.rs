//! Dependency resolution and cycle detection.
//!
//! Takes parsed DAGs and resolves raw dependency references into a validated
//! DAG whose execution order runs every task after its dependencies. Cycles
//! are rejected at compile time.

use vstd::prelude::*;
use vstd::string::StringExecFns;
use crate::dag::{Dag, DependencyType, ResourceLimits, Task, TaskDependency, TaskType, TriggerRule};
use crate::error::ConduitError;
use crate::graph::{has_run_order, run_order, runs_in_order, waits_on_cycle, well_indexed, rest_is_stuck, lemma_stuck_means_no_order, lemma_left_out_iff_waits, lemma_distinct_bounded, lemma_full_distinct_covers};
use crate::clock::now_millis;
use crate::text::{join, join_strings, views};

verus! {

/// A task as extracted from a DAG definition, before dependency resolution.
#[derive(Debug, Clone)]
pub struct ParsedTask {
    pub id: String,
    pub task_type: TaskType,
    pub retries: u32,
    pub retry_delay: Option<String>,
    pub pool: Option<String>,
    pub timeout: Option<String>,
    pub priority: i32,
    /// Raw dependency references (task ids).
    pub raw_dependencies: Vec<String>,
    /// Verbatim text of the task function's parameter list.
    pub parameters_text: String,
}

/// Raw parsed data of one DAG, before dependency resolution.
#[derive(Debug, Clone)]
pub struct ParsedDag {
    pub id: String,
    pub description: Option<String>,
    pub schedule: Option<String>,
    pub tags: Vec<String>,
    pub max_active_runs: u32,
    pub on_failure: Option<String>,
    pub tasks: Vec<ParsedTask>,
    pub source_file: String,
}

/// The ids of the parsed tasks, in declaration order.
pub open spec fn task_ids(ts: Seq<ParsedTask>) -> Seq<Seq<char>> {
    ts.map_values(|t: ParsedTask| t.id@)
}

/// The dependency names of a parsed task.
pub open spec fn dep_names(t: ParsedTask) -> Seq<Seq<char>> {
    views(t.raw_dependencies@)
}

/// Task `j` repeats the id of an earlier task.
pub open spec fn repeats_earlier(ids: Seq<Seq<char>>, j: int) -> bool {
    exists|i: int| 0 <= i < j && ids[i] == ids[j]
}

/// Task `j` is the first task that repeats an earlier id.
pub open spec fn first_repeat(ids: Seq<Seq<char>>, j: int) -> bool {
    &&& 0 <= j < ids.len()
    &&& repeats_earlier(ids, j)
    &&& forall|jj: int| 0 <= jj < j ==> !repeats_earlier(ids, jj)
}

/// Dependency `k` of task `i` names no task of the DAG.
pub open spec fn unknown_ref(ts: Seq<ParsedTask>, i: int, k: int) -> bool {
    &&& 0 <= i < ts.len()
    &&& 0 <= k < dep_names(ts[i]).len()
    &&& !task_ids(ts).contains(dep_names(ts[i])[k])
}

/// Dependency `k` of task `i` is the first unknown reference, reading tasks
/// in order and each task's dependencies in order.
pub open spec fn first_unknown_ref(ts: Seq<ParsedTask>, i: int, k: int) -> bool {
    &&& unknown_ref(ts, i, k)
    &&& forall|ii: int, kk: int| (ii < i || (ii == i && kk < k)) ==> !unknown_ref(ts, ii, kk)
}

/// The ids of the tasks are pairwise distinct.
pub open spec fn distinct_ids(ts: Seq<ParsedTask>) -> bool {
    forall|j: int| 0 <= j < ts.len() ==> !repeats_earlier(task_ids(ts), j)
}

/// Every dependency names a task of the DAG.
pub open spec fn refs_known(ts: Seq<ParsedTask>) -> bool {
    forall|i: int, k: int| !unknown_ref(ts, i, k)
}

/// The dependencies of every task, as indices of the tasks they name.
pub open spec fn index_deps(ts: Seq<ParsedTask>) -> Seq<Seq<usize>> {
    Seq::new(
        ts.len(),
        |i: int|
            Seq::new(
                dep_names(ts[i]).len(),
                |k: int| task_ids(ts).index_of(dep_names(ts[i])[k]) as usize,
            ),
    )
}

/// The ids of the tasks that wait on a dependency cycle, in declaration order.
pub open spec fn cycle_members(ts: Seq<ParsedTask>) -> Seq<Seq<char>> {
    Seq::new(ts.len(), |i: int| i).filter(|i: int| waits_on_cycle(index_deps(ts), i as usize)).map_values(
        |i: int| task_ids(ts)[i],
    )
}

/// The message of a cycle error.
pub open spec fn cycle_message(dag_id: Seq<char>, members: Seq<Seq<char>>) -> Seq<char> {
    "DAG '"@ + dag_id + "' contains a cycle involving: "@ + join(members, " -> "@)
}

/// The task type of a resolved task: a Python task with no module takes the
/// module named after the source file.
pub open spec fn resolved_type(t: TaskType, p: TaskType, module_name: String) -> bool {
    match p {
        TaskType::Python { module, function } => t == TaskType::Python {
            module: if module@.len() == 0 { module_name } else { module },
            function,
        },
        _ => t == p,
    }
}

/// A resolved task keeps the parsed task's settings, turns each raw
/// dependency into a data-flow dependency, and starts with default
/// resources, trigger rule, and no incremental setup or datasets.
pub open spec fn resolved_task(t: Task, p: ParsedTask, module_name: String) -> bool {
    &&& t.id == p.id
    &&& resolved_type(t.task_type, p.task_type, module_name)
    &&& t.dependencies@.len() == p.raw_dependencies@.len()
    &&& forall|k: int|
        0 <= k < t.dependencies@.len() ==> (#[trigger] t.dependencies@[k]).task_id
            == p.raw_dependencies@[k] && t.dependencies@[k].dependency_type
            == DependencyType::DataFlow
    &&& t.retries == p.retries
    &&& t.retry_delay == p.retry_delay
    &&& t.source_hash is None
    &&& t.pool == p.pool
    &&& t.timeout == p.timeout
    &&& t.priority == p.priority
    &&& t.resources == (ResourceLimits { cpu_millicores: None, memory_mb: None })
    &&& t.trigger_rule == TriggerRule::AllSuccess
    &&& t.incremental is None
    &&& t.inputs@.len() == 0
    &&& t.outputs@.len() == 0
}

/// The ids of the tasks at the given positions.
pub open spec fn names_of(ts: Seq<ParsedTask>, order: Seq<usize>) -> Seq<Seq<char>> {
    Seq::new(order.len(), |q: int| task_ids(ts)[order[q] as int])
}

/// The DAG made from a parsed DAG whose tasks run in the order `order`
/// (indices of tasks).
pub open spec fn resolved_dag(
    d: Dag,
    p: ParsedDag,
    module_name: String,
    compiled_at_ms: i64,
    order: Seq<usize>,
) -> bool {
    &&& d.id == p.id
    &&& d.description == p.description
    &&& d.schedule == p.schedule
    &&& d.tags == p.tags
    &&& d.max_active_runs == p.max_active_runs
    &&& d.on_failure == p.on_failure
    &&& d.tasks@.len() == p.tasks@.len()
    &&& forall|i: int|
        0 <= i < d.tasks@.len() ==> resolved_task(#[trigger] d.tasks@[i], p.tasks@[i], module_name)
    &&& views(d.execution_order@) == names_of(p.tasks@, order)
    &&& d.source_file == p.source_file
    &&& d.compiled_at_ms == compiled_at_ms
    &&& d.catchup
    &&& d.max_catchup_runs is None
    &&& !d.lineage_strict
}

/// What resolving a parsed DAG gives: the first repeated task id, else the
/// first unknown dependency, else (when no order runs every task after its
/// dependencies) the tasks waiting on a cycle, else the DAG with such an order.
pub open spec fn resolution(
    r: Result<Dag, ConduitError>,
    p: ParsedDag,
    module_name: String,
    compiled_at_ms: i64,
) -> bool {
    let ts = p.tasks@;
    if !distinct_ids(ts) {
        exists|j: int|
            #![trigger first_repeat(task_ids(ts), j)]
            first_repeat(task_ids(ts), j) && r == Err::<Dag, ConduitError>(
                ConduitError::DuplicateTaskId { dag_id: p.id, task_id: ts[j].id },
            )
    } else if !refs_known(ts) {
        exists|i: int, k: int|
            #![trigger first_unknown_ref(ts, i, k)]
            first_unknown_ref(ts, i, k) && r == Err::<Dag, ConduitError>(
                ConduitError::UnknownTaskRef {
                    dag_id: p.id,
                    task_id: ts[i].raw_dependencies@[k],
                },
            )
    } else if !has_run_order(index_deps(ts)) {
        r matches Err(ConduitError::CycleDetected { cycle }) && cycle@ == cycle_message(
            p.id@,
            cycle_members(ts),
        )
    } else {
        r matches Ok(d) && exists|o: Seq<usize>|
            #![trigger runs_in_order(index_deps(ts), o)]
            o.len() == ts.len() && runs_in_order(index_deps(ts), o) && resolved_dag(
                d,
                p,
                module_name,
                compiled_at_ms,
                o,
            )
    }
}

/// Resolves dependencies and produces fully validated DAGs.
pub struct DependencyResolver;

/// The first task, in declaration order, whose id repeats an earlier one.
fn find_repeat(ts: &Vec<ParsedTask>) -> (r: Option<usize>)
    ensures
        match r {
            Some(j) => first_repeat(task_ids(ts@), j as int),
            None => distinct_ids(ts@),
        },
{
    let ghost ids = task_ids(ts@);
    let mut j: usize = 0;
    while j < ts.len()
        invariant
            ids == task_ids(ts@),
            j <= ts.len(),
            forall|jj: int| 0 <= jj < j ==> !repeats_earlier(ids, jj),
        decreases ts.len() - j,
    {
        let mut i: usize = 0;
        while i < j
            invariant
                ids == task_ids(ts@),
                i <= j < ts.len(),
                forall|jj: int| 0 <= jj < j ==> !repeats_earlier(ids, jj),
                forall|ii: int| 0 <= ii < i ==> ids[ii] != ids[j as int],
            decreases j - i,
        {
            if ts[i].id == ts[j].id {
                proof {
                    assert(ids[i as int] == ids[j as int]);
                    assert(repeats_earlier(ids, j as int));
                }
                return Some(j);
            }
            i = i + 1;
        }
        j = j + 1;
    }
    None
}

/// The position of the task named `name`, if any.
fn position_of(ts: &Vec<ParsedTask>, name: &String) -> (r: Option<usize>)
    ensures
        match r {
            Some(j) => j < ts.len() && task_ids(ts@)[j as int] == name@,
            None => !task_ids(ts@).contains(name@),
        },
{
    let mut j: usize = 0;
    while j < ts.len()
        invariant
            j <= ts.len(),
            forall|jj: int| 0 <= jj < j ==> task_ids(ts@)[jj] != name@,
        decreases ts.len() - j,
    {
        if ts[j].id == *name {
            return Some(j);
        }
        j = j + 1;
    }
    None
}

/// Dependency indices of every task, or the first unknown reference.
fn dependency_indices(ts: &Vec<ParsedTask>) -> (r: Result<Vec<Vec<usize>>, (usize, usize)>)
    requires
        distinct_ids(ts@),
    ensures
        match r {
            Ok(deps) => refs_known(ts@) && deps@.map_values(|row: Vec<usize>| row@) == index_deps(
                ts@,
            ),
            Err((i, k)) => first_unknown_ref(ts@, i as int, k as int),
        },
{
    let ghost ids = task_ids(ts@);
    let mut deps: Vec<Vec<usize>> = Vec::new();
    let mut i: usize = 0;
    while i < ts.len()
        invariant
            ids == task_ids(ts@),
            distinct_ids(ts@),
            i <= ts.len(),
            deps.len() == i,
            forall|ii: int, kk: int| ii < i ==> !unknown_ref(ts@, ii, kk),
            forall|ii: int| 0 <= ii < i ==> (#[trigger] deps@[ii])@ == index_deps(ts@)[ii],
        decreases ts.len() - i,
    {
        let names = &ts[i].raw_dependencies;
        let mut row: Vec<usize> = Vec::new();
        let mut k: usize = 0;
        while k < names.len()
            invariant
                ids == task_ids(ts@),
                distinct_ids(ts@),
                i < ts.len(),
                names == &ts@[i as int].raw_dependencies,
                k <= names.len(),
                row.len() == k,
                forall|ii: int, kk: int| ii < i ==> !unknown_ref(ts@, ii, kk),
                forall|kk: int| kk < k ==> !unknown_ref(ts@, i as int, kk),
                forall|kk: int| 0 <= kk < k ==> #[trigger] row@[kk] == index_deps(ts@)[i as int][kk],
            decreases names.len() - k,
        {
            match position_of(ts, &names[k]) {
                Some(j) => {
                    proof {
                        assert(dep_names(ts@[i as int])[k as int] == names@[k as int]@);
                        let x = names@[k as int]@;
                        assert(ids.contains(x));
                        let c = ids.index_of(x);
                        assert(ids[c] == x);
                        if c != j {
                            if c < j {
                                assert(repeats_earlier(ids, j as int));
                            } else {
                                assert(repeats_earlier(ids, c));
                            }
                        }
                    }
                    row.push(j);
                },
                None => {
                    proof {
                        assert(dep_names(ts@[i as int])[k as int] == names@[k as int]@);
                        assert(unknown_ref(ts@, i as int, k as int));
                        assert forall|ii: int, kk: int|
                            (ii < i || (ii == i && kk < k)) implies !unknown_ref(ts@, ii, kk) by {}
                    }
                    return Err((i, k));
                },
            }
            k = k + 1;
        }
        proof {
            assert(row@ =~= index_deps(ts@)[i as int]);
            assert forall|kk: int| !unknown_ref(ts@, i as int, kk) by {
                if 0 <= kk < names.len() {
                } else {
                }
            }
        }
        deps.push(row);
        i = i + 1;
    }
    proof {
        assert(deps@.map_values(|row: Vec<usize>| row@) =~= index_deps(ts@));
    }
    Ok(deps)
}

/// Turns a parsed task into a resolved task.
fn to_task(p: ParsedTask, module_name: &String) -> (t: Task)
    ensures
        resolved_task(t, p, *module_name),
{
    let ghost p0 = p;
    let ParsedTask {
        id,
        task_type,
        retries,
        retry_delay,
        pool,
        timeout,
        priority,
        raw_dependencies,
        parameters_text: _,
    } = p;
    let mut dependencies: Vec<TaskDependency> = Vec::new();
    let mut k: usize = 0;
    while k < raw_dependencies.len()
        invariant
            k <= raw_dependencies.len(),
            dependencies@.len() == k,
            forall|kk: int|
                0 <= kk < k ==> (#[trigger] dependencies@[kk]).task_id == raw_dependencies@[kk]
                    && dependencies@[kk].dependency_type == DependencyType::DataFlow,
        decreases raw_dependencies.len() - k,
    {
        dependencies.push(
            TaskDependency {
                task_id: raw_dependencies[k].clone(),
                dependency_type: DependencyType::DataFlow,
            },
        );
        k = k + 1;
    }
    let task_type = match task_type {
        TaskType::Python { module, function } => {
            let module = if module.as_str().is_empty() {
                module_name.clone()
            } else {
                module
            };
            TaskType::Python { module, function }
        },
        other => other,
    };
    Task {
        id,
        task_type,
        dependencies,
        retries,
        retry_delay,
        source_hash: None,
        pool,
        timeout,
        priority,
        resources: ResourceLimits { cpu_millicores: None, memory_mb: None },
        trigger_rule: TriggerRule::AllSuccess,
        incremental: None,
        inputs: Vec::new(),
        outputs: Vec::new(),
    }
}

proof fn lemma_index_deps_well_indexed(ts: Seq<ParsedTask>)
    requires
        refs_known(ts),
        ts.len() <= usize::MAX,
    ensures
        well_indexed(index_deps(ts)),
{
    let d = index_deps(ts);
    assert forall|i: int, k: int| 0 <= i < d.len() && 0 <= k < d[i].len() implies (#[trigger] d[i][k])
        < d.len() by {
        assert(!unknown_ref(ts, i, k));
        let x = dep_names(ts[i])[k];
        assert(task_ids(ts).contains(x));
    }
}

proof fn lemma_filter_step(
    i: nat,
    pred: spec_fn(int) -> bool,
    f: spec_fn(int) -> Seq<char>,
)
    ensures
        Seq::new(i + 1, |x: int| x).filter(pred).map_values(f) == if pred(i as int) {
            Seq::new(i, |x: int| x).filter(pred).map_values(f).push(f(i as int))
        } else {
            Seq::new(i, |x: int| x).filter(pred).map_values(f)
        },
{
    assert(Seq::new(i + 1, |x: int| x) =~= Seq::new(i, |x: int| x).push(i as int));
    Seq::new(i, |x: int| x).lemma_filter_push(i as int, pred);
    let a = Seq::new(i, |x: int| x).filter(pred);
    assert(a.push(i as int).map_values(f) =~= a.map_values(f).push(f(i as int)));
}

/// The tasks waiting on a cycle, computed from the tasks Kahn's algorithm
/// left out of `order`.
fn left_out_ids(ts: &Vec<ParsedTask>, order: &Vec<usize>) -> (r: Vec<String>)
    requires
        well_indexed(index_deps(ts@)),
        runs_in_order(index_deps(ts@), order@),
        rest_is_stuck(index_deps(ts@), order@),
    ensures
        views(r@) == cycle_members(ts@),
{
    let n = ts.len();
    let ghost dv = index_deps(ts@);
    let mut flags: Vec<bool> = Vec::new();
    let mut i: usize = 0;
    while i < n
        invariant
            n == ts.len(),
            i <= n,
            flags.len() == i,
            forall|x: int| 0 <= x < i ==> !flags@[x],
        decreases n - i,
    {
        flags.push(false);
        i = i + 1;
    }
    let mut q: usize = 0;
    while q < order.len()
        invariant
            n == ts.len(),
            dv == index_deps(ts@),
            runs_in_order(dv, order@),
            q <= order.len(),
            flags.len() == n,
            forall|x: usize| x < n ==> (flags@[x as int] <==> order@.take(q as int).contains(x)),
        decreases order.len() - q,
    {
        let v = order[q];
        flags.set(v, true);
        proof {
            let t0 = order@.take(q as int);
            let t1 = order@.take(q + 1);
            assert forall|x: usize| x < n implies (flags@[x as int] <==> t1.contains(x)) by {
                if t1.contains(x) && x != v {
                    let p = choose|p: int| 0 <= p < t1.len() && t1[p] == x;
                    assert(t0[p] == x);
                }
                if t0.contains(x) {
                    let p = choose|p: int| 0 <= p < t0.len() && t0[p] == x;
                    assert(t1[p] == x);
                }
                if x == v {
                    assert(t1[q as int] == v);
                }
            }
        }
        q = q + 1;
    }
    proof {
        assert(order@.take(order.len() as int) =~= order@);
        assert forall|x: usize| x < n implies (flags@[x as int] <==> !waits_on_cycle(dv, x)) by {
            lemma_left_out_iff_waits(dv, order@, x);
        }
    }
    let ghost pred = |x: int| waits_on_cycle(dv, x as usize);
    let ghost idf = |x: int| task_ids(ts@)[x];
    let mut out: Vec<String> = Vec::new();
    let mut i: usize = 0;
    while i < n
        invariant
            n == ts.len(),
            i <= n,
            flags.len() == n,
            forall|x: usize| x < n ==> (flags@[x as int] <==> !waits_on_cycle(dv, x)),
            pred == (|x: int| waits_on_cycle(dv, x as usize)),
            idf == (|x: int| task_ids(ts@)[x]),
            views(out@) == Seq::new(i as nat, |x: int| x).filter(pred).map_values(idf),
        decreases n - i,
    {
        proof {
            lemma_filter_step(i as nat, pred, idf);
        }
        let ghost before = out@;
        if !flags[i] {
            let name = ts[i].id.clone();
            out.push(name);
            proof {
                assert(views(out@) =~= views(before).push(idf(i as int)));
            }
        }
        i = i + 1;
    }
    proof {
        assert(cycle_members(ts@) =~= Seq::new(n as nat, |x: int| x).filter(pred).map_values(idf));
    }
    out
}

impl DependencyResolver {
    /// Resolve a parsed DAG, given the module name of its source file and
    /// the compilation time.
    pub fn resolve_with(parsed: ParsedDag, module_name: String, compiled_at_ms: i64) -> (r: Result<
        Dag,
        ConduitError,
    >)
        ensures
            resolution(r, parsed, module_name, compiled_at_ms),
    {
        let ghost p0 = parsed;
        let ghost ts = parsed.tasks@;
        match find_repeat(&parsed.tasks) {
            Some(j) => {
                let e = ConduitError::DuplicateTaskId {
                    dag_id: parsed.id.clone(),
                    task_id: parsed.tasks[j].id.clone(),
                };
                proof {
                    assert(!distinct_ids(ts));
                    assert(first_repeat(task_ids(ts), j as int));
                }
                return Err(e);
            },
            None => {},
        }
        let deps = match dependency_indices(&parsed.tasks) {
            Ok(d) => d,
            Err((i, k)) => {
                let e = ConduitError::UnknownTaskRef {
                    dag_id: parsed.id.clone(),
                    task_id: parsed.tasks[i].raw_dependencies[k].clone(),
                };
                proof {
                    assert(!refs_known(ts));
                    assert(first_unknown_ref(ts, i as int, k as int));
                }
                return Err(e);
            },
        };
        let ghost dv = index_deps(ts);
        proof {
            assert(ts.len() == parsed.tasks.len());
            lemma_index_deps_well_indexed(ts);
        }
        let order = run_order(&deps);
        let n = parsed.tasks.len();
        proof {
            lemma_distinct_bounded(order@, n as nat);
        }
        if order.len() < n {
            proof {
                lemma_stuck_means_no_order(dv, order@);
            }
            let members = left_out_ids(&parsed.tasks, &order);
            let mut msg = String::from_str("DAG '");
            msg.append(parsed.id.as_str());
            msg.append("' contains a cycle involving: ");
            let joined = join_strings(&members, " -> ");
            msg.append(joined.as_str());
            return Err(ConduitError::CycleDetected { cycle: msg });
        }
        let mut execution_order: Vec<String> = Vec::new();
        let mut q: usize = 0;
        while q < n
            invariant
                n == parsed.tasks.len(),
                order.len() == n,
                ts == parsed.tasks@,
                runs_in_order(dv, order@),
                dv == index_deps(ts),
                q <= n,
                views(execution_order@) == names_of(ts, order@.take(q as int)),
            decreases n - q,
        {
            let name = parsed.tasks[order[q]].id.clone();
            proof {
                assert(name@ == task_ids(ts)[order@[q as int] as int]);
            }
            let ghost before = execution_order@;
            execution_order.push(name);
            proof {
                assert(views(execution_order@) =~= views(before).push(name@));
                assert(views(execution_order@) =~= names_of(ts, order@.take(q + 1)));
            }
            q = q + 1;
        }
        proof {
            assert(order@.take(n as int) =~= order@);
        }
        let ParsedDag {
            id,
            description,
            schedule,
            tags,
            max_active_runs,
            on_failure,
            tasks,
            source_file,
        } = parsed;
        let mut rest = tasks;
        let mut rev: Vec<Task> = Vec::new();
        while rest.len() > 0
            invariant
                rest.len() + rev.len() == n,
                ts.len() == n,
                forall|x: int| 0 <= x < rest.len() ==> rest@[x] == ts[x],
                forall|m: int|
                    0 <= m < rev.len() ==> resolved_task(
                        #[trigger] rev@[m],
                        ts[n - 1 - m],
                        module_name,
                    ),
            decreases rest.len(),
        {
            let p = rest.pop().unwrap();
            rev.push(to_task(p, &module_name));
        }
        let mut tasks_out: Vec<Task> = Vec::new();
        while rev.len() > 0
            invariant
                rev.len() + tasks_out.len() == n,
                ts.len() == n,
                forall|m: int|
                    0 <= m < rev.len() ==> resolved_task(
                        #[trigger] rev@[m],
                        ts[n - 1 - m],
                        module_name,
                    ),
                forall|i: int|
                    0 <= i < tasks_out.len() ==> resolved_task(
                        #[trigger] tasks_out@[i],
                        ts[i],
                        module_name,
                    ),
            decreases rev.len(),
        {
            let t = rev.pop().unwrap();
            tasks_out.push(t);
        }
        let dag = Dag {
            id,
            description,
            schedule,
            tags,
            max_active_runs,
            on_failure,
            tasks: tasks_out,
            execution_order,
            source_file,
            compiled_at_ms,
            catchup: true,
            max_catchup_runs: None,
            lineage_strict: false,
        };
        proof {
            assert(resolved_dag(dag, p0, module_name, compiled_at_ms, order@));
            assert(has_run_order(dv));
        }
        Ok(dag)
    }
}

/// The file stem of a path (its last component without the extension), as
/// `std::path::Path::file_stem` computes it.
pub uninterp spec fn file_stem_of(path: Seq<char>) -> Seq<char>;

/// The module a source file defines: `Path::file_stem`, rendered with
/// `to_string_lossy`, or empty when the path has no file name. The text of a
/// `&str` is valid UTF-8, so the rendering loses nothing; the result depends
/// on the path alone.
#[verifier::external_body]
fn module_name_of(path: &str) -> (m: String)
    ensures
        m@ == file_stem_of(path@),
{
    std::path::Path::new(path).file_stem().map(|s| s.to_string_lossy().to_string()).unwrap_or_default()
}

impl DependencyResolver {
    /// Resolve a parsed DAG into a fully validated DAG with execution order.
    /// Python tasks without a module take the stem of the source file; the
    /// compilation time is the clock's.
    pub fn resolve(parsed: ParsedDag) -> (r: Result<Dag, ConduitError>)
        ensures
            exists|m: String, t: i64|
                m@ == file_stem_of(parsed.source_file@) && #[trigger] resolution(r, parsed, m, t),
    {
        let module_name = module_name_of(parsed.source_file.as_str());
        let t = now_millis();
        Self::resolve_with(parsed, module_name, t)
    }

    /// Resolve several parsed DAGs; the DAGs that resolve come first in the
    /// pair, the errors of the others second, each in input order.
    pub fn resolve_all(parsed_dags: Vec<ParsedDag>) -> (r: (Vec<Dag>, Vec<ConduitError>))
        ensures
            r.0@.len() + r.1@.len() == parsed_dags@.len(),
            exists|sel: Seq<bool>|
                #![trigger sel.len()]
                sel.len() == parsed_dags@.len() && r.0@.len() == sel.filter(|b: bool| b).len()
                    && forall|i: int|
                    0 <= i < sel.len() ==> #[trigger] sel[i] == (exists|d: Dag, m: String, t: i64|
                        m@ == file_stem_of(parsed_dags@[i].source_file@) && resolution(
                            Ok(d),
                            parsed_dags@[i],
                            m,
                            t,
                        )),
    {
        let ghost input = parsed_dags@;
        let mut resolved: Vec<Dag> = Vec::new();
        let mut errors: Vec<ConduitError> = Vec::new();
        let mut rest = parsed_dags;
        let mut rev: Vec<ParsedDag> = Vec::new();
        while rest.len() > 0
            invariant
                rest.len() + rev.len() == input.len(),
                forall|x: int| 0 <= x < rest.len() ==> rest@[x] == input[x],
                forall|m: int| 0 <= m < rev.len() ==> #[trigger] rev@[m] == input[input.len() - 1 - m],
            decreases rest.len(),
        {
            let p = rest.pop().unwrap();
            rev.push(p);
        }
        let ghost mut sel: Seq<bool> = Seq::empty();
        while rev.len() > 0
            invariant
                rev.len() + sel.len() == input.len(),
                forall|m: int| 0 <= m < rev.len() ==> #[trigger] rev@[m] == input[input.len() - 1 - m],
                resolved@.len() + errors@.len() == sel.len(),
                resolved@.len() == sel.filter(|b: bool| b).len(),
                forall|i: int|
                    0 <= i < sel.len() ==> #[trigger] sel[i] == (exists|d: Dag, m: String, t: i64|
                        m@ == file_stem_of(input[i].source_file@) && resolution(
                            Ok(d),
                            input[i],
                            m,
                            t,
                        )),
            decreases rev.len(),
        {
            let p = rev.pop().unwrap();
            let ghost pg = p;
            let ghost i = sel.len();
            proof {
                assert(pg == input[i as int]);
            }
            let res = Self::resolve(p);
            let ghost ok = res is Ok;
            proof {
                let (m, t) = choose|m: String, t: i64|
                    m@ == file_stem_of(pg.source_file@) && #[trigger] resolution(res, pg, m, t);
                lemma_resolution_ok_independent(pg, res, m, t);
                sel.lemma_filter_len_push(|b: bool| b, ok);
            }
            match res {
                Ok(d) => resolved.push(d),
                Err(e) => errors.push(e),
            }
            proof {
                sel = sel.push(ok);
            }
        }
        (resolved, errors)
    }
}

/// Whether resolution succeeds does not depend on the module name or the
/// compilation time.
proof fn lemma_resolution_ok_independent(
    p: ParsedDag,
    r: Result<Dag, ConduitError>,
    m: String,
    t: i64,
)
    requires
        m@ == file_stem_of(p.source_file@),
        resolution(r, p, m, t),
    ensures
        (r is Ok) == (exists|d: Dag, m2: String, t2: i64|
            m2@ == file_stem_of(p.source_file@) && resolution(Ok(d), p, m2, t2)),
{
    let ts = p.tasks@;
    if r is Ok {
        let d = r->Ok_0;
        assert(m@ == file_stem_of(p.source_file@) && resolution(Ok(d), p, m, t));
    } else {
        if exists|d: Dag, m2: String, t2: i64|
            m2@ == file_stem_of(p.source_file@) && resolution(Ok(d), p, m2, t2) {
            let (d, m2, t2) = choose|d: Dag, m2: String, t2: i64|
                m2@ == file_stem_of(p.source_file@) && resolution(Ok(d), p, m2, t2);
            assert(distinct_ids(ts) && refs_known(ts) && has_run_order(index_deps(ts)));
        }
    }
}

/// Law: the execution order of a resolved DAG names every task exactly once,
/// and each task comes after every task it depends on.
pub proof fn law_execution_order_is_topological(p: ParsedDag, m: String, t: i64, d: Dag)
    requires
        resolution(Ok(d), p, m, t),
    ensures
        views(d.execution_order@).len() == p.tasks@.len(),
        views(d.execution_order@).no_duplicates(),
        forall|i: int|
            0 <= i < p.tasks@.len() ==> views(d.execution_order@).contains(
                #[trigger] task_ids(p.tasks@)[i],
            ),
        forall|i: int, k: int, q: int|
            #![trigger dep_names(p.tasks@[i])[k], views(d.execution_order@)[q]]
            0 <= i < p.tasks@.len() && 0 <= k < dep_names(p.tasks@[i]).len() && 0 <= q
                < views(d.execution_order@).len() && views(d.execution_order@)[q] == task_ids(
                p.tasks@,
            )[i] ==> views(d.execution_order@).take(q).contains(dep_names(p.tasks@[i])[k]),
{
    let ts = p.tasks@;
    let ids = task_ids(ts);
    let n = ts.len();
    assert(p.tasks.len() == n);
    let o = choose|o: Seq<usize>|
        #![trigger runs_in_order(index_deps(ts), o)]
        o.len() == ts.len() && runs_in_order(index_deps(ts), o) && resolved_dag(d, p, m, t, o);
    let eo = views(d.execution_order@);
    assert(eo == names_of(ts, o));
    assert(forall|q: int| 0 <= q < o.len() ==> eo[q] == ids[o[q] as int]);
    // distinct ids make positions and names interchangeable
    assert forall|a: int, b: int| 0 <= a < n && 0 <= b < n && ids[a] == ids[b] implies a == b by {
        if a < b {
            assert(repeats_earlier(ids, b));
        } else if b < a {
            assert(repeats_earlier(ids, a));
        }
    }
    assert(eo.no_duplicates()) by {
        assert forall|a: int, b: int| 0 <= a < eo.len() && 0 <= b < eo.len() && a != b implies eo[a]
            != eo[b] by {
            assert(o[a] != o[b]);
        }
    }
    lemma_full_distinct_covers(o, n);
    assert forall|i: int| 0 <= i < n implies eo.contains(#[trigger] ids[i]) by {
        assert(o.contains(i as usize));
        let q = choose|q: int| 0 <= q < o.len() && o[q] == i as usize;
        assert(eo[q] == ids[i]);
    }
    assert forall|i: int, k: int, q: int|
        #![trigger dep_names(ts[i])[k], eo[q]]
        0 <= i < n && 0 <= k < dep_names(ts[i]).len() && 0 <= q < eo.len() && eo[q] == ids[i]
            implies eo.take(q).contains(dep_names(ts[i])[k]) by {
        assert(o[q] == i as usize);
        let dv = index_deps(ts);
        assert(dv[i].len() == dep_names(ts[i]).len());
        assert(o.take(q).contains(dv[o[q] as int][k]));
        let pp = choose|pp: int| 0 <= pp < q && o.take(q)[pp] == dv[o[q] as int][k];
        assert(!unknown_ref(ts, i, k));
        let x = dep_names(ts[i])[k];
        assert(ids.contains(x));
        assert(ids[ids.index_of(x)] == x);
        assert(eo[pp] == x);
        assert(eo.take(q)[pp] == x);
    }
}

} // verus!
