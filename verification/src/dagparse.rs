//! The Python DAG parser: reads the `@dag`-decorated functions of a Python
//! file, and the tasks declared inside them, from the file's syntax tree,
//! without running any Python.

use vstd::prelude::*;
use crate::error::ConduitError;
use crate::pyparse::{
    add_defaults, add_named, clause_default, first_called, first_index, arg_lookup, arg_value, assignment_spec, contains_chars, contains_string, contains_text,
    decorator_args_spec, opt_view, param_clauses,
    split_commas, split_commas_exec, task_from_definition, task_outcome, task_view, task_views, ParsedTaskView, TaskDefinition,
};
use crate::pysyntax::{lemma_parsed_tree_ok, node_view, parse_python, parses_ok, python_nodes, python_parser, tree_ok, PyNode, PyNodeView, PySyntax};
use crate::resolver::{ParsedDag, ParsedTask};
use crate::text::{
    chars_of, clone_strings, copy_range, owned, parse_u32, parse_unsigned, str_eq, string_of, trim, trim_chars,
    views,
};

verus! {

/// The texts of the nodes among `cs` that have kind `k`, in order.
pub open spec fn texts_of_kind(nodes: Seq<PyNodeView>, cs: Seq<usize>, k: Seq<char>) -> Seq<Seq<char>>
    decreases cs.len(),
{
    if cs.len() == 0 {
        Seq::empty()
    } else {
        let rest = texts_of_kind(nodes, cs.drop_last(), k);
        if nodes[cs.last() as int].kind == k {
            rest.push(nodes[cs.last() as int].text)
        } else {
            rest
        }
    }
}

/// The first of `cs` whose node has kind `k`.
pub open spec fn first_of_kind(nodes: Seq<PyNodeView>, cs: Seq<usize>, k: Seq<char>) -> Option<usize>
    decreases cs.len(),
{
    if cs.len() == 0 {
        None
    } else if nodes[cs[0] as int].kind == k {
        Some(cs[0])
    } else {
        first_of_kind(nodes, cs.drop_first(), k)
    }
}

/// The first of `cs` whose node fills the field `f` of its parent.
pub open spec fn first_with_field(nodes: Seq<PyNodeView>, cs: Seq<usize>, f: Seq<char>) -> Option<usize>
    decreases cs.len(),
{
    if cs.len() == 0 {
        None
    } else if nodes[cs[0] as int].field == Some(f) {
        Some(cs[0])
    } else {
        first_with_field(nodes, cs.drop_first(), f)
    }
}

/// The text of the child of node `i` that fills field `f`, if one does.
pub open spec fn field_text(nodes: Seq<PyNodeView>, i: int, f: Seq<char>) -> Option<Seq<char>> {
    match first_with_field(nodes, nodes[i].children, f) {
        Some(c) => Some(nodes[c as int].text),
        None => None,
    }
}

/// The function definition among the children of node `i`, if any.
pub open spec fn function_of(nodes: Seq<PyNodeView>, i: int) -> Option<usize> {
    first_of_kind(nodes, nodes[i].children, "function_definition"@)
}

/// The decorators' texts of the decorated definition at node `i`.
pub open spec fn decorators_of(nodes: Seq<PyNodeView>, i: int) -> Seq<Seq<char>> {
    texts_of_kind(nodes, nodes[i].children, "decorator"@)
}

/// What the decorated definition at node `i` yields as a task (see
/// `task_outcome`).
#[verifier::opaque]
pub open spec fn task_at(nodes: Seq<PyNodeView>, i: int) -> Option<Result<ParsedTaskView, Seq<char>>> {
    let f = function_of(nodes, i);
    task_outcome(
        decorators_of(nodes, i),
        f is Some,
        match f {
            Some(x) => field_text(nodes, x as int, "name"@),
            None => None,
        },
        match f {
            Some(x) => field_text(nodes, x as int, "parameters"@),
            None => None,
        },
    )
}

/// A parse error in `file` with message `m`.
pub open spec fn is_parse_error<T>(r: Result<T, ConduitError>, file: Seq<char>, m: Seq<char>) -> bool {
    r matches Err(ConduitError::ParseError { file: f, message: mm }) && f@ == file && mm@ == m
}

fn kind_is(n: &PyNode, k: &str) -> (b: bool)
    ensures
        b == (n.kind@ == k@),
{
    str_eq(n.kind.as_str(), k)
}

/// The texts of the children of node `i` that have kind `k`.
fn child_texts_of_kind(syn: &PySyntax, i: usize, k: &str) -> (r: Vec<String>)
    requires
        i < syn.nodes().len(),
    ensures
        views(r@) == texts_of_kind(syn.nodes(), syn.nodes()[i as int].children, k@),
        forall|j: int| 0 <= j < r@.len() ==> (#[trigger] r@[j])@.len() <= i32::MAX,
{
    let n = syn.len();
    let node = syn.node(i);
    let ghost cs = node.children@;
    let mut out: Vec<String> = Vec::new();
    let mut j: usize = 0;
    proof {
        assert(cs.take(0) =~= Seq::<usize>::empty());
    }
    while j < node.children.len()
        invariant
            tree_ok(syn.nodes()),
            n == syn.nodes().len(),
            cs == node.children@,
            node_view(*node) == syn.nodes()[i as int],
            forall|x: int| 0 <= x < cs.len() ==> i < #[trigger] cs[x] < n,
            j <= cs.len(),
            views(out@) == texts_of_kind(syn.nodes(), cs.take(j as int), k@),
            forall|x: int| 0 <= x < out@.len() ==> (#[trigger] out@[x])@.len() <= i32::MAX,
        decreases cs.len() - j,
    {
        assert(cs.take(j + 1).drop_last() =~= cs.take(j as int));
        assert(cs.take(j + 1).last() == cs[j as int]);
        let c = node.children[j];
        let child = syn.node(c);
        if kind_is(child, k) {
            let ghost before = views(out@);
            out.push(child.text.clone());
            assert(views(out@) =~= before.push(child.text@));
        }
        j = j + 1;
    }
    assert(cs.take(j as int) =~= cs);
    out
}

/// The first child of node `i` that has kind `k`.
fn child_of_kind(syn: &PySyntax, i: usize, k: &str) -> (r: Option<usize>)
    requires
        i < syn.nodes().len(),
    ensures
        r == first_of_kind(syn.nodes(), syn.nodes()[i as int].children, k@),
        r matches Some(c) ==> i < c < syn.nodes().len(),
{
    let n = syn.len();
    let node = syn.node(i);
    let ghost cs = node.children@;
    let mut j: usize = 0;
    proof {
        assert(cs.skip(0) =~= cs);
    }
    while j < node.children.len()
        invariant
            n == syn.nodes().len(),
            cs == node.children@,
            node_view(*node) == syn.nodes()[i as int],
            forall|x: int| 0 <= x < cs.len() ==> i < #[trigger] cs[x] < n,
            j <= cs.len(),
            first_of_kind(syn.nodes(), cs, k@) == first_of_kind(syn.nodes(), cs.skip(j as int), k@),
        decreases cs.len() - j,
    {
        assert(cs.skip(j as int)[0] == cs[j as int]);
        assert(cs.skip(j as int).drop_first() =~= cs.skip(j + 1));
        let c = node.children[j];
        if kind_is(syn.node(c), k) {
            assert(cs.skip(j as int).len() > 0);
            assert(first_of_kind(syn.nodes(), cs.skip(j as int), k@) == Some(c));
            return Some(c);
        }
        j = j + 1;
    }
    None
}

/// The first child of node `i` that fills field `f`.
fn child_by_field(syn: &PySyntax, i: usize, f: &str) -> (r: Option<usize>)
    requires
        i < syn.nodes().len(),
    ensures
        r == first_with_field(syn.nodes(), syn.nodes()[i as int].children, f@),
        r matches Some(c) ==> i < c < syn.nodes().len(),
{
    let n = syn.len();
    let node = syn.node(i);
    let ghost cs = node.children@;
    let mut j: usize = 0;
    proof {
        assert(cs.skip(0) =~= cs);
    }
    while j < node.children.len()
        invariant
            n == syn.nodes().len(),
            cs == node.children@,
            node_view(*node) == syn.nodes()[i as int],
            forall|x: int| 0 <= x < cs.len() ==> i < #[trigger] cs[x] < n,
            j <= cs.len(),
            first_with_field(syn.nodes(), cs, f@) == first_with_field(syn.nodes(), cs.skip(j as int), f@),
        decreases cs.len() - j,
    {
        assert(cs.skip(j as int)[0] == cs[j as int]);
        assert(cs.skip(j as int).drop_first() =~= cs.skip(j + 1));
        let c = node.children[j];
        let fits = match &syn.node(c).field {
            Some(name) => str_eq(name.as_str(), f),
            None => false,
        };
        if fits {
            assert(cs.skip(j as int).len() > 0);
            assert(syn.nodes()[c as int].field == Some(f@));
            assert(first_with_field(syn.nodes(), cs.skip(j as int), f@) == Some(c));
            return Some(c);
        }
        j = j + 1;
    }
    None
}

/// The text of the child of node `i` that fills field `f`.
fn field_text_of(syn: &PySyntax, i: usize, f: &str) -> (r: Option<String>)
    requires
        i < syn.nodes().len(),
    ensures
        opt_view(r) == field_text(syn.nodes(), i as int, f@),
{
    match child_by_field(syn, i, f) {
        Some(c) => Some(syn.node(c).text.clone()),
        None => None,
    }
}

/// The task definition at the decorated definition at node `i`.
fn definition_at(syn: &PySyntax, i: usize) -> (d: TaskDefinition)
    requires
        i < syn.nodes().len(),
    ensures
        views(d.decorators@) == decorators_of(syn.nodes(), i as int),
        forall|j: int| 0 <= j < d.decorators@.len() ==> (#[trigger] d.decorators@[j])@.len() <= i32::MAX,
        d.has_function == function_of(syn.nodes(), i as int) is Some,
        opt_view(d.function_name) == match function_of(syn.nodes(), i as int) {
            Some(x) => field_text(syn.nodes(), x as int, "name"@),
            None => None,
        },
        opt_view(d.parameters_text) == match function_of(syn.nodes(), i as int) {
            Some(x) => field_text(syn.nodes(), x as int, "parameters"@),
            None => None,
        },
{
    let decorators = child_texts_of_kind(syn, i, "decorator");
    match child_of_kind(syn, i, "function_definition") {
        Some(f) => TaskDefinition {
            decorators,
            has_function: true,
            function_name: field_text_of(syn, f, "name"),
            parameters_text: field_text_of(syn, f, "parameters"),
        },
        None => TaskDefinition { decorators, has_function: false, function_name: None, parameters_text: None },
    }
}

/// The task the decorated definition at node `i` declares, if it declares
/// one (see `task_at`); `file_name` names the file in errors.
fn try_parse_task(syn: &PySyntax, i: usize, file_name: &str) -> (r: Result<Option<ParsedTask>, ConduitError>)
    requires
        i < syn.nodes().len(),
    ensures
        match task_at(syn.nodes(), i as int) {
            None => r == Ok::<Option<ParsedTask>, ConduitError>(None),
            Some(Err(m)) => is_parse_error(r, file_name@, m),
            Some(Ok(v)) => r matches Ok(Some(t)) && task_view(t) == v,
        },
{
    let d = definition_at(syn, i);
    proof {
        reveal(task_at);
    }
    task_from_definition(&d, file_name)
}

/// The tasks the decorated definitions among `cs` declare, in order; the
/// first error stops the reading.
pub open spec fn direct_tasks(nodes: Seq<PyNodeView>, cs: Seq<usize>) -> Result<Seq<ParsedTaskView>, Seq<char>>
    decreases cs.len(),
{
    if cs.len() == 0 {
        Ok(Seq::empty())
    } else {
        match direct_tasks(nodes, cs.drop_last()) {
            Err(m) => Err(m),
            Ok(acc) => if nodes[cs.last() as int].kind == "decorated_definition"@ {
                match task_at(nodes, cs.last() as int) {
                    None => Ok(acc),
                    Some(Err(m)) => Err(m),
                    Some(Ok(t)) => Ok(acc.push(t)),
                }
            } else {
                Ok(acc)
            },
        }
    }
}

/// The tasks found under the first `k` children of node `i`, reading the
/// tree in document order: a decorated definition yields its task, a
/// function definition is not entered, any other node is searched; the
/// first error stops the reading.
pub open spec fn nested_tasks(nodes: Seq<PyNodeView>, i: int, k: int) -> Result<Seq<ParsedTaskView>, Seq<char>>
    decreases nodes.len() - i, k,
    when tree_ok(nodes) && 0 <= i < nodes.len() && 0 <= k <= nodes[i].children.len()
{
    if k == 0 {
        Ok(Seq::empty())
    } else {
        match nested_tasks(nodes, i, k - 1) {
            Err(m) => Err(m),
            Ok(acc) => {
                let c = nodes[i].children[k - 1] as int;
                if nodes[c].kind == "decorated_definition"@ {
                    match task_at(nodes, c) {
                        None => Ok(acc),
                        Some(Err(m)) => Err(m),
                        Some(Ok(t)) => Ok(acc.push(t)),
                    }
                } else if nodes[c].kind == "function_definition"@ {
                    Ok(acc)
                } else {
                    match nested_tasks(nodes, c, nodes[c].children.len() as int) {
                        Err(m) => Err(m),
                        Ok(s) => Ok(acc + s),
                    }
                }
            },
        }
    }
}

/// The tasks of a DAG function's body at node `b`: those its decorated
/// definitions declare; when there are none, those found by searching the
/// whole body.
pub open spec fn body_tasks(nodes: Seq<PyNodeView>, b: int) -> Result<Seq<ParsedTaskView>, Seq<char>> {
    match direct_tasks(nodes, nodes[b].children) {
        Err(m) => Err(m),
        Ok(s) => if s.len() == 0 {
            nested_tasks(nodes, b, nodes[b].children.len() as int)
        } else {
            Ok(s)
        },
    }
}

proof fn lemma_direct_error_stays(nodes: Seq<PyNodeView>, cs: Seq<usize>, a: int)
    requires
        0 <= a <= cs.len(),
        direct_tasks(nodes, cs.take(a)) is Err,
    ensures
        direct_tasks(nodes, cs) == direct_tasks(nodes, cs.take(a)),
    decreases cs.len() - a,
{
    if a < cs.len() {
        assert(cs.take(a + 1).drop_last() =~= cs.take(a));
        lemma_direct_error_stays(nodes, cs, a + 1);
    } else {
        assert(cs.take(a) =~= cs);
    }
}

proof fn lemma_nested_error_stays(nodes: Seq<PyNodeView>, i: int, a: int, b: int)
    requires
        tree_ok(nodes),
        0 <= i < nodes.len(),
        0 <= a <= b <= nodes[i].children.len(),
        nested_tasks(nodes, i, a) is Err,
    ensures
        nested_tasks(nodes, i, b) == nested_tasks(nodes, i, a),
    decreases b - a,
{
    if a < b {
        lemma_nested_error_stays(nodes, i, a, b - 1);
    }
}

/// The tasks the decorated definitions among the children of node `b`
/// declare (see `direct_tasks`).
fn direct_tasks_of(syn: &PySyntax, b: usize, file_name: &str) -> (r: Result<Vec<ParsedTask>, ConduitError>)
    requires
        b < syn.nodes().len(),
    ensures
        match direct_tasks(syn.nodes(), syn.nodes()[b as int].children) {
            Ok(s) => r matches Ok(ts) && task_views(ts@) == s,
            Err(m) => is_parse_error(r, file_name@, m),
        },
{
    let n = syn.len();
    let node = syn.node(b);
    let ghost cs = node.children@;
    let mut tasks: Vec<ParsedTask> = Vec::new();
    let mut j: usize = 0;
    proof {
        assert(cs.take(0) =~= Seq::<usize>::empty());
        assert(task_views(tasks@) =~= Seq::<ParsedTaskView>::empty());
    }
    while j < node.children.len()
        invariant
            n == syn.nodes().len(),
            cs == node.children@,
            node_view(*node) == syn.nodes()[b as int],
            forall|x: int| 0 <= x < cs.len() ==> b < #[trigger] cs[x] < n,
            j <= cs.len(),
            direct_tasks(syn.nodes(), cs.take(j as int)) == Ok::<Seq<ParsedTaskView>, Seq<char>>(task_views(tasks@)),
        decreases cs.len() - j,
    {
        assert(cs.take(j + 1).drop_last() =~= cs.take(j as int));
        assert(cs.take(j + 1).last() == cs[j as int]);
        let c = node.children[j];
        if kind_is(syn.node(c), "decorated_definition") {
            match try_parse_task(syn, c, file_name) {
                Ok(Some(t)) => {
                    let ghost before = task_views(tasks@);
                    tasks.push(t);
                    assert(task_views(tasks@) =~= before.push(task_view(t)));
                },
                Ok(None) => {},
                Err(e) => {
                    proof {
                        lemma_direct_error_stays(syn.nodes(), cs, j + 1);
                    }
                    return Err(e);
                },
            }
        }
        j = j + 1;
    }
    assert(cs.take(j as int) =~= cs);
    Ok(tasks)
}

/// Adds the tasks found under node `i` to `tasks` (see `nested_tasks`).
fn find_tasks_recursive(syn: &PySyntax, i: usize, file_name: &str, tasks: &mut Vec<ParsedTask>) -> (r: Result<(), ConduitError>)
    requires
        i < syn.nodes().len(),
    ensures
        match nested_tasks(syn.nodes(), i as int, syn.nodes()[i as int].children.len() as int) {
            Ok(s) => r is Ok && task_views(final(tasks)@) == task_views(old(tasks)@) + s,
            Err(m) => is_parse_error(r, file_name@, m),
        },
    decreases syn.nodes().len() - i,
{
    let n = syn.len();
    let node = syn.node(i);
    let ghost cs = node.children@;
    let ghost start = task_views(tasks@);
    let mut j: usize = 0;
    assert(task_views(tasks@) =~= start + Seq::<ParsedTaskView>::empty());
    while j < node.children.len()
        invariant
            tree_ok(syn.nodes()),
            i < n == syn.nodes().len(),
            cs == node.children@,
            node_view(*node) == syn.nodes()[i as int],
            forall|x: int| 0 <= x < cs.len() ==> i < #[trigger] cs[x] < n,
            j <= cs.len(),
            nested_tasks(syn.nodes(), i as int, j as int) matches Ok(s) && task_views(tasks@) == start + s,
        decreases cs.len() - j,
    {
        let ghost acc = nested_tasks(syn.nodes(), i as int, j as int)->Ok_0;
        let c = node.children[j];
        assert(c == syn.nodes()[i as int].children[j as int]);
        let child = syn.node(c);
        if kind_is(child, "decorated_definition") {
            match try_parse_task(syn, c, file_name) {
                Ok(Some(t)) => {
                    let ghost before = task_views(tasks@);
                    tasks.push(t);
                    assert(task_views(tasks@) =~= before.push(task_view(t)));
                    assert(start + acc.push(task_view(t)) =~= (start + acc).push(task_view(t)));
                },
                Ok(None) => {},
                Err(e) => {
                    proof {
                        lemma_nested_error_stays(syn.nodes(), i as int, j + 1, cs.len() as int);
                    }
                    return Err(e);
                },
            }
        } else if !kind_is(child, "function_definition") {
            let ghost before = task_views(tasks@);
            match find_tasks_recursive(syn, c, file_name, tasks) {
                Ok(()) => {
                    let ghost s2 = nested_tasks(syn.nodes(), c as int, syn.nodes()[c as int].children.len() as int)->Ok_0;
                    assert(start + (acc + s2) =~= (start + acc) + s2);
                },
                Err(e) => {
                    proof {
                        lemma_nested_error_stays(syn.nodes(), i as int, j + 1, cs.len() as int);
                    }
                    return Err(e);
                },
            }
        }
        j = j + 1;
    }
    Ok(())
}

/// The texts of the nodes `cs`, in order.
pub open spec fn texts_of(nodes: Seq<PyNodeView>, cs: Seq<usize>) -> Seq<Seq<char>> {
    cs.map_values(|c: usize| nodes[c as int].text)
}

/// The texts of the statements among `cs` that may be assignments
/// (expression statements and assignments), in order.
pub open spec fn statement_texts(nodes: Seq<PyNodeView>, cs: Seq<usize>) -> Seq<Seq<char>>
    decreases cs.len(),
{
    if cs.len() == 0 {
        Seq::empty()
    } else {
        let rest = statement_texts(nodes, cs.drop_last());
        let k = nodes[cs.last() as int].kind;
        if k == "expression_statement"@ || k == "assignment"@ {
            rest.push(nodes[cs.last() as int].text)
        } else {
            rest
        }
    }
}

/// Pairs of texts over plain values.
pub open spec fn pair_views(v: Seq<(String, String)>) -> Seq<(Seq<char>, Seq<char>)> {
    v.map_values(|p: (String, String)| (p.0@, p.1@))
}

/// The position of the last pair whose first part is `key`.
pub open spec fn key_pos(pairs: Seq<(Seq<char>, Seq<char>)>, key: Seq<char>) -> Option<int>
    decreases pairs.len(),
{
    if pairs.len() == 0 {
        None
    } else if pairs.last().0 == key {
        Some(pairs.len() - 1)
    } else {
        key_pos(pairs.drop_last(), key)
    }
}

/// The pairs with `p` put in: in place of the pair with the same first
/// part, or at the end.
pub open spec fn upsert(pairs: Seq<(Seq<char>, Seq<char>)>, p: (Seq<char>, Seq<char>)) -> Seq<(Seq<char>, Seq<char>)> {
    match key_pos(pairs, p.0) {
        Some(j) => pairs.update(j, p),
        None => pairs.push(p),
    }
}

/// Which task each variable holds the result of, from the assignments
/// among the statements (a later assignment to a variable wins).
pub open spec fn var_tasks(texts: Seq<Seq<char>>, names: Seq<Seq<char>>) -> Seq<(Seq<char>, Seq<char>)>
    decreases texts.len(),
{
    if texts.len() == 0 {
        Seq::empty()
    } else {
        let m = var_tasks(texts.drop_last(), names);
        match assignment_spec(texts.last(), names) {
            Some(p) => upsert(m, p),
            None => m,
        }
    }
}

/// The dependencies of task `id` after a statement `text` that calls it:
/// each task whose result variable occurs in the text joins them, once,
/// unless it is the task itself.
pub open spec fn pair_deps(
    deps: Seq<Seq<char>>,
    text: Seq<char>,
    pairs: Seq<(Seq<char>, Seq<char>)>,
    id: Seq<char>,
) -> Seq<Seq<char>>
    decreases pairs.len(),
{
    if pairs.len() == 0 {
        deps
    } else {
        let d = pair_deps(deps, text, pairs.drop_last(), id);
        let (v, src) = pairs.last();
        if contains_text(text, v) && src != id && !d.contains(src) {
            d.push(src)
        } else {
            d
        }
    }
}

/// The dependencies of task `id` after all the statements: those that call
/// it (contain `id(`) add the tasks whose results they use.
pub open spec fn chain_deps(
    deps: Seq<Seq<char>>,
    texts: Seq<Seq<char>>,
    pairs: Seq<(Seq<char>, Seq<char>)>,
    id: Seq<char>,
) -> Seq<Seq<char>>
    decreases texts.len(),
{
    if texts.len() == 0 {
        deps
    } else {
        let d = chain_deps(deps, texts.drop_last(), pairs, id);
        if contains_text(texts.last(), id + "("@) {
            pair_deps(d, texts.last(), pairs, id)
        } else {
            d
        }
    }
}

/// The task with other dependencies.
pub open spec fn with_deps(t: ParsedTaskView, deps: Seq<Seq<char>>) -> ParsedTaskView {
    ParsedTaskView {
        id: t.id,
        task_type: t.task_type,
        retries: t.retries,
        retry_delay: t.retry_delay,
        pool: t.pool,
        timeout: t.timeout,
        priority: t.priority,
        raw_dependencies: deps,
        parameters_text: t.parameters_text,
    }
}

/// The tasks after the data flow of the statements `texts` is read (see
/// `chain_deps`).
pub open spec fn with_chain(
    ts: Seq<ParsedTaskView>,
    texts: Seq<Seq<char>>,
    pairs: Seq<(Seq<char>, Seq<char>)>,
) -> Seq<ParsedTaskView> {
    ts.map_values(|t: ParsedTaskView| with_deps(t, chain_deps(t.raw_dependencies, texts, pairs, t.id)))
}

/// The ids of the tasks.
pub open spec fn view_ids(ts: Seq<ParsedTaskView>) -> Seq<Seq<char>> {
    ts.map_values(|t: ParsedTaskView| t.id)
}

/// Puts `p` into `pairs` (see `upsert`).
fn upsert_pair(pairs: &mut Vec<(String, String)>, p: (String, String))
    ensures
        pair_views(final(pairs)@) == upsert(pair_views(old(pairs)@), (p.0@, p.1@)),
{
    let ghost pv = pair_views(pairs@);
    let mut k: usize = pairs.len();
    proof {
        assert(pv.take(k as int) =~= pv);
    }
    while k > 0
        invariant
            pv == pair_views(pairs@),
            pairs@ == old(pairs)@,
            k <= pv.len(),
            key_pos(pv, p.0@) == key_pos(pv.take(k as int), p.0@),
        decreases k,
    {
        assert(pv.take(k as int).drop_last() =~= pv.take(k - 1));
        assert(pv.take(k as int).last() == pv[k - 1]);
        if str_eq(pairs[k - 1].0.as_str(), p.0.as_str()) {
            assert(pv[k - 1].0 == p.0@);
            assert(key_pos(pv.take(k as int), p.0@) == Some(k - 1));
            pairs[k - 1] = p;
            assert(pair_views(pairs@) =~= pv.update(k - 1, (p.0@, p.1@)));
            return;
        }
        k = k - 1;
    }
    pairs.push(p);
    assert(pair_views(pairs@) =~= pv.push((p.0@, p.1@)));
}

/// Adds to `deps` the tasks whose result variables occur in `text` (see
/// `pair_deps`).
fn add_pair_deps(deps: &mut Vec<String>, text: &Vec<char>, pairs: &Vec<(String, String)>, id: &str)
    ensures
        views(final(deps)@) == pair_deps(views(old(deps)@), text@, pair_views(pairs@), id@),
{
    let ghost pv = pair_views(pairs@);
    let ghost start = views(deps@);
    let mut k: usize = 0;
    proof {
        assert(pv.take(0) =~= Seq::<(Seq<char>, Seq<char>)>::empty());
    }
    while k < pairs.len()
        invariant
            pv == pair_views(pairs@),
            k <= pv.len(),
            views(deps@) == pair_deps(start, text@, pv.take(k as int), id@),
        decreases pairs.len() - k,
    {
        assert(pv.take(k + 1).drop_last() =~= pv.take(k as int));
        assert(pv.take(k + 1).last() == pv[k as int]);
        let var = chars_of(pairs[k].0.as_str());
        let src = pairs[k].1.as_str();
        if contains_chars(text, &var) && !str_eq(src, id) && !contains_string(deps, src) {
            let ghost before = views(deps@);
            deps.push(pairs[k].1.clone());
            assert(views(deps@) =~= before.push(pv[k as int].1));
        }
        k = k + 1;
    }
    assert(pv.take(k as int) =~= pv);
}

/// The texts of the children of node `b` that may be assignments.
fn statement_texts_of(syn: &PySyntax, b: usize) -> (r: Vec<String>)
    requires
        b < syn.nodes().len(),
    ensures
        views(r@) == statement_texts(syn.nodes(), syn.nodes()[b as int].children),
{
    let n = syn.len();
    let node = syn.node(b);
    let ghost cs = node.children@;
    let mut out: Vec<String> = Vec::new();
    let mut j: usize = 0;
    proof {
        assert(cs.take(0) =~= Seq::<usize>::empty());
    }
    while j < node.children.len()
        invariant
            n == syn.nodes().len(),
            cs == node.children@,
            node_view(*node) == syn.nodes()[b as int],
            forall|x: int| 0 <= x < cs.len() ==> b < #[trigger] cs[x] < n,
            j <= cs.len(),
            views(out@) == statement_texts(syn.nodes(), cs.take(j as int)),
        decreases cs.len() - j,
    {
        assert(cs.take(j + 1).drop_last() =~= cs.take(j as int));
        assert(cs.take(j + 1).last() == cs[j as int]);
        let child = syn.node(node.children[j]);
        if kind_is(child, "expression_statement") || kind_is(child, "assignment") {
            let ghost before = views(out@);
            out.push(child.text.clone());
            assert(views(out@) =~= before.push(child.text@));
        }
        j = j + 1;
    }
    assert(cs.take(j as int) =~= cs);
    out
}

/// The texts of all the children of node `b`.
fn child_texts(syn: &PySyntax, b: usize) -> (r: Vec<String>)
    requires
        b < syn.nodes().len(),
    ensures
        views(r@) == texts_of(syn.nodes(), syn.nodes()[b as int].children),
{
    let n = syn.len();
    let node = syn.node(b);
    let ghost cs = node.children@;
    let mut out: Vec<String> = Vec::new();
    let mut j: usize = 0;
    while j < node.children.len()
        invariant
            n == syn.nodes().len(),
            cs == node.children@,
            node_view(*node) == syn.nodes()[b as int],
            forall|x: int| 0 <= x < cs.len() ==> b < #[trigger] cs[x] < n,
            j <= cs.len(),
            views(out@) == texts_of(syn.nodes(), cs.take(j as int)),
        decreases cs.len() - j,
    {
        let ghost before = views(out@);
        out.push(syn.node(node.children[j]).text.clone());
        assert(views(out@) =~= before.push(syn.nodes()[cs[j as int] as int].text));
        assert(texts_of(syn.nodes(), cs.take(j + 1)) =~= texts_of(syn.nodes(), cs.take(j as int)).push(
            syn.nodes()[cs[j as int] as int].text,
        ));
        j = j + 1;
    }
    assert(cs.take(j as int) =~= cs);
    out
}

/// Reads the data flow at the bottom of a DAG function whose body is node
/// `b`: `raw = extract(date)` then `cleaned = transform(raw)` makes
/// `transform` depend on `extract` (see `chain_deps`).
fn extract_call_chain_deps(syn: &PySyntax, b: usize, tasks: &mut Vec<ParsedTask>)
    requires
        b < syn.nodes().len(),
    ensures
        final(tasks)@.len() == old(tasks)@.len(),
        forall|j: int|
            0 <= j < old(tasks)@.len() ==> task_view(#[trigger] final(tasks)@[j]) == with_deps(
                task_view(old(tasks)@[j]),
                chain_deps(
                    views(old(tasks)@[j].raw_dependencies@),
                    texts_of(syn.nodes(), syn.nodes()[b as int].children),
                    var_tasks(
                        statement_texts(syn.nodes(), syn.nodes()[b as int].children),
                        old(tasks)@.map_values(|t: ParsedTask| t.id@),
                    ),
                    old(tasks)@[j].id@,
                ),
            ),
{
    let ghost orig = tasks@;
    let mut names: Vec<String> = Vec::new();
    let mut k: usize = 0;
    while k < tasks.len()
        invariant
            tasks@ == orig,
            k <= orig.len(),
            views(names@) == orig.map_values(|t: ParsedTask| t.id@).take(k as int),
        decreases tasks.len() - k,
    {
        let ghost before = views(names@);
        names.push(tasks[k].id.clone());
        assert(views(names@) =~= before.push(orig[k as int].id@));
        assert(orig.map_values(|t: ParsedTask| t.id@).take(k + 1) =~= orig.map_values(|t: ParsedTask| t.id@).take(
            k as int,
        ).push(orig[k as int].id@));
        k = k + 1;
    }
    assert(orig.map_values(|t: ParsedTask| t.id@).take(k as int) =~= orig.map_values(|t: ParsedTask| t.id@));
    let statements = statement_texts_of(syn, b);
    let ghost st = views(statements@);
    let mut pairs: Vec<(String, String)> = Vec::new();
    let mut s: usize = 0;
    proof {
        assert(st.take(0) =~= Seq::<Seq<char>>::empty());
        assert(pair_views(pairs@) =~= Seq::<(Seq<char>, Seq<char>)>::empty());
    }
    while s < statements.len()
        invariant
            st == views(statements@),
            s <= st.len(),
            views(names@) == orig.map_values(|t: ParsedTask| t.id@),
            pair_views(pairs@) == var_tasks(st.take(s as int), views(names@)),
        decreases statements.len() - s,
    {
        assert(st.take(s + 1).drop_last() =~= st.take(s as int));
        assert(st.take(s + 1).last() == statements@[s as int]@);
        if let Some(p) = DagParser::parse_assignment(statements[s].as_str(), &names) {
            upsert_pair(&mut pairs, p);
        }
        s = s + 1;
    }
    assert(st.take(s as int) =~= st);
    let texts = child_texts(syn, b);
    let ghost tx = views(texts@);
    let ghost pv = pair_views(pairs@);
    let mut j: usize = 0;
    while j < tasks.len()
        invariant
            tasks@.len() == orig.len(),
            j <= orig.len(),
            tx == views(texts@),
            pv == pair_views(pairs@),
            forall|x: int| 0 <= x < j ==> task_view(#[trigger] tasks@[x]) == with_deps(
                task_view(orig[x]),
                chain_deps(views(orig[x].raw_dependencies@), tx, pv, orig[x].id@),
            ),
            forall|x: int| j <= x < orig.len() ==> #[trigger] tasks@[x] == orig[x],
        decreases tasks.len() - j,
    {
        let mut deps = clone_strings(&tasks[j].raw_dependencies);
        let id = tasks[j].id.clone();
        let mut pat = chars_of(id.as_str());
        pat.push('(');
        assert(pat@ =~= id@ + "("@) by {
            reveal_strlit("(");
        }
        let ghost start = views(deps@);
        let mut t: usize = 0;
        proof {
            assert(tx.take(0) =~= Seq::<Seq<char>>::empty());
        }
        while t < texts.len()
            invariant
                tx == views(texts@),
                pv == pair_views(pairs@),
                t <= tx.len(),
                pat@ == id@ + "("@,
                views(deps@) == chain_deps(start, tx.take(t as int), pv, id@),
            decreases texts.len() - t,
        {
            assert(tx.take(t + 1).drop_last() =~= tx.take(t as int));
            assert(tx.take(t + 1).last() == texts@[t as int]@);
            let line = chars_of(texts[t].as_str());
            if contains_chars(&line, &pat) {
                add_pair_deps(&mut deps, &line, &pairs, id.as_str());
            }
            t = t + 1;
        }
        assert(tx.take(t as int) =~= tx);
        let ghost prev = tasks@;
        tasks[j].raw_dependencies = deps;
        proof {
            assert forall|x: int| 0 <= x < orig.len() && x != j implies tasks@[x] == prev[x] by {}
            assert(task_view(tasks@[j as int]) =~= with_deps(
                task_view(orig[j as int]),
                chain_deps(views(orig[j as int].raw_dependencies@), tx, pv, orig[j as int].id@),
            ));
        }
        j = j + 1;
    }
}

/// The tasks after their parameter defaults are read (see `add_defaults`).
pub open spec fn with_defaults(ts: Seq<ParsedTaskView>) -> Seq<ParsedTaskView> {
    ts.map_values(
        |t: ParsedTaskView|
            with_deps(t, add_defaults(t.raw_dependencies, param_clauses(t.parameters_text), view_ids(ts), t.id)),
    )
}

/// The tasks of the DAG function at node `f`: those of its body (see
/// `body_tasks`), with the dependencies that the body's data flow and the
/// tasks' parameter defaults express; none when it has no body.
#[verifier::opaque]
pub open spec fn tasks_of_function(nodes: Seq<PyNodeView>, f: int) -> Result<Seq<ParsedTaskView>, Seq<char>> {
    match first_with_field(nodes, nodes[f].children, "body"@) {
        None => Ok(Seq::empty()),
        Some(b) => match body_tasks(nodes, b as int) {
            Err(m) => Err(m),
            Ok(s) => Ok(
                with_defaults(
                    with_chain(
                        s,
                        texts_of(nodes, nodes[b as int].children),
                        var_tasks(statement_texts(nodes, nodes[b as int].children), view_ids(s)),
                    ),
                ),
            ),
        },
    }
}

/// The tasks of the DAG function at node `f` (see `tasks_of_function`).
fn extract_tasks(syn: &PySyntax, f: usize, file_name: &str) -> (r: Result<Vec<ParsedTask>, ConduitError>)
    requires
        f < syn.nodes().len(),
    ensures
        match tasks_of_function(syn.nodes(), f as int) {
            Ok(s) => r matches Ok(ts) && task_views(ts@) == s,
            Err(m) => is_parse_error(r, file_name@, m),
        },
{
    let ghost nodes = syn.nodes();
    proof {
        reveal(tasks_of_function);
    }
    let b = match child_by_field(syn, f, "body") {
        Some(b) => b,
        None => {
            let none: Vec<ParsedTask> = Vec::new();
            assert(task_views(none@) =~= Seq::<ParsedTaskView>::empty());
            return Ok(none);
        },
    };
    let mut tasks = match direct_tasks_of(syn, b, file_name) {
        Ok(ts) => ts,
        Err(e) => {
            return Err(e);
        },
    };
    if tasks.len() == 0 {
        let ghost before = task_views(tasks@);
        assert(before =~= Seq::<ParsedTaskView>::empty());
        match find_tasks_recursive(syn, b, file_name, &mut tasks) {
            Ok(()) => {
                let ghost s = nested_tasks(nodes, b as int, nodes[b as int].children.len() as int)->Ok_0;
                assert(before + s =~= s);
            },
            Err(e) => {
                return Err(e);
            },
        }
    }
    let ghost s = task_views(tasks@);
    assert(body_tasks(nodes, b as int) == Ok::<Seq<ParsedTaskView>, Seq<char>>(s));
    let ghost found = tasks@;
    assert(found.map_values(|t: ParsedTask| t.id@) =~= view_ids(s));
    extract_call_chain_deps(syn, b, &mut tasks);
    let ghost texts = texts_of(nodes, nodes[b as int].children);
    let ghost pairs = var_tasks(statement_texts(nodes, nodes[b as int].children), view_ids(s));
    let ghost chained = with_chain(s, texts, pairs);
    let ghost mid = tasks@;
    assert(task_views(mid) =~= chained) by {
        assert forall|x: int| 0 <= x < mid.len() implies task_views(mid)[x] == chained[x] by {
            assert(task_view(mid[x]) == with_deps(
                task_view(found[x]),
                chain_deps(views(found[x].raw_dependencies@), texts, pairs, found[x].id@),
            ));
        }
    }
    assert(mid.map_values(|t: ParsedTask| t.id@) =~= view_ids(chained));
    DagParser::extract_default_arg_deps(&mut tasks);
    let ghost fin = tasks@;
    assert(task_views(fin) =~= with_defaults(chained)) by {
        assert forall|x: int| 0 <= x < fin.len() implies task_views(fin)[x] == with_defaults(chained)[x] by {
            assert(views(fin[x].raw_dependencies@) == add_defaults(
                views(mid[x].raw_dependencies@),
                param_clauses(mid[x].parameters_text@),
                mid.map_values(|t: ParsedTask| t.id@),
                mid[x].id@,
            ));
            assert(task_view(fin[x]) =~= with_deps(
                chained[x],
                add_defaults(
                    chained[x].raw_dependencies,
                    param_clauses(chained[x].parameters_text),
                    view_ids(chained),
                    chained[x].id,
                ),
            ));
        }
    }
    Ok(tasks)
}

/// The text without every leading and trailing `a` or `b`.
pub open spec fn strip_either(s: Seq<char>, a: char, b: char) -> Seq<char>
    decreases s.len(),
{
    if s.len() > 0 && (s[0] == a || s[0] == b) {
        strip_either(s.drop_first(), a, b)
    } else if s.len() > 0 && (s.last() == a || s.last() == b) {
        strip_either(s.drop_last(), a, b)
    } else {
        s
    }
}

fn strip_either_chars(s: &[char], a: char, b: char) -> (r: Vec<char>)
    ensures
        r@ == strip_either(s@, a, b),
{
    let mut lo: usize = 0;
    let mut hi: usize = s.len();
    proof {
        assert(s@.subrange(0, s@.len() as int) =~= s@);
    }
    while lo < hi && (s[lo] == a || s[lo] == b || s[hi - 1] == a || s[hi - 1] == b)
        invariant
            lo <= hi <= s@.len(),
            strip_either(s@, a, b) == strip_either(s@.subrange(lo as int, hi as int), a, b),
        decreases hi - lo,
    {
        if s[lo] == a || s[lo] == b {
            assert(s@.subrange(lo as int, hi as int).drop_first() =~= s@.subrange(lo + 1, hi as int));
            lo = lo + 1;
        } else {
            assert(s@.subrange(lo as int, hi as int).drop_last() =~= s@.subrange(lo as int, hi - 1));
            hi = hi - 1;
        }
    }
    copy_range(s, lo, hi)
}

/// The tags of a list's pieces: each trimmed and without surrounding `"`,
/// the empty ones left out.
pub open spec fn tag_items(parts: Seq<Seq<char>>) -> Seq<Seq<char>>
    decreases parts.len(),
{
    if parts.len() == 0 {
        Seq::empty()
    } else {
        let rest = tag_items(parts.drop_last());
        let t = strip_either(trim(parts.last()), '"', '"');
        if t.len() > 0 {
            rest.push(t)
        } else {
            rest
        }
    }
}

/// The tags a `tags=[...]` value lists.
pub open spec fn tags_of(value: Seq<char>) -> Seq<Seq<char>> {
    tag_items(split_commas(strip_either(value, '[', ']')))
}

/// The tags a `tags=[...]` value lists (see `tags_of`).
fn tag_list(value: &str) -> (r: Vec<String>)
    ensures
        views(r@) == tags_of(value@),
        forall|i: int| 0 <= i < r@.len() ==> (#[trigger] r@[i])@.len() > 0,
{
    proof {
        law_tags_are_non_empty(split_commas(strip_either(value@, '[', ']')));
    }
    let inner = strip_either_chars(chars_of(value).as_slice(), '[', ']');
    let parts = split_commas_exec(&inner);
    let ghost ps = parts@.map_values(|v: Vec<char>| v@);
    let mut out: Vec<String> = Vec::new();
    let mut k: usize = 0;
    proof {
        assert(ps.take(0) =~= Seq::<Seq<char>>::empty());
    }
    while k < parts.len()
        invariant
            ps == parts@.map_values(|v: Vec<char>| v@),
            k <= ps.len(),
            views(out@) == tag_items(ps.take(k as int)),
        decreases parts.len() - k,
    {
        assert(ps.take(k + 1).drop_last() =~= ps.take(k as int));
        assert(ps.take(k + 1).last() == parts@[k as int]@);
        let t = strip_either_chars(trim_chars(parts[k].as_slice()).as_slice(), '"', '"');
        if t.len() > 0 {
            let ghost before = views(out@);
            out.push(string_of(t.as_slice()));
            assert(views(out@) =~= before.push(t@));
        }
        k = k + 1;
    }
    assert(ps.take(k as int) =~= ps);
    proof {
        assert forall|i: int| 0 <= i < out@.len() implies (#[trigger] out@[i])@.len() > 0 by {
            assert(views(out@)[i] == out@[i]@);
        }
    }
    out
}

/// The docstring of the function at node `f`: the first statement of its
/// body, when that is an expression statement whose first child is a
/// string, without surrounding `"` and `'` and trimmed.
#[verifier::opaque]
pub open spec fn docstring_at(nodes: Seq<PyNodeView>, f: int) -> Option<Seq<char>> {
    match first_with_field(nodes, nodes[f].children, "body"@) {
        None => None,
        Some(b) => if nodes[b as int].children.len() == 0 {
            None
        } else {
            let st = nodes[b as int].children[0] as int;
            if nodes[st].kind == "expression_statement"@ && nodes[st].children.len() > 0
                && nodes[nodes[st].children[0] as int].kind == "string"@ {
                Some(trim(strip_either(strip_either(nodes[nodes[st].children[0] as int].text, '"', '"'), '\'', '\'')))
            } else {
                None
            }
        },
    }
}

/// The docstring of the function at node `f` (see `docstring_at`).
fn extract_docstring(syn: &PySyntax, f: usize) -> (r: Option<String>)
    requires
        f < syn.nodes().len(),
    ensures
        opt_view(r) == docstring_at(syn.nodes(), f as int),
{
    proof {
        reveal(docstring_at);
    }
    let b = match child_by_field(syn, f, "body") {
        Some(b) => b,
        None => return None,
    };
    let body = syn.node(b);
    if body.children.len() == 0 {
        return None;
    }
    let st = body.children[0];
    let stmt = syn.node(st);
    if !kind_is(stmt, "expression_statement") || stmt.children.len() == 0 {
        return None;
    }
    let e = syn.node(stmt.children[0]);
    if !kind_is(e, "string") {
        return None;
    }
    let once = strip_either_chars(chars_of(e.text.as_str()).as_slice(), '"', '"');
    let twice = strip_either_chars(once.as_slice(), '\'', '\'');
    let t = trim_chars(twice.as_slice());
    Some(string_of(t.as_slice()))
}

/// The position of the last decorator that marks a DAG (`@dag`).
pub open spec fn last_dag_decorator(ds: Seq<Seq<char>>) -> Option<int>
    decreases ds.len(),
{
    if ds.len() == 0 {
        None
    } else if contains_text(ds.last(), "@dag"@) {
        Some(ds.len() - 1)
    } else {
        last_dag_decorator(ds.drop_last())
    }
}

/// A parsed DAG over plain values.
pub struct ParsedDagView {
    pub id: Seq<char>,
    pub description: Option<Seq<char>>,
    pub schedule: Option<Seq<char>>,
    pub tags: Seq<Seq<char>>,
    pub max_active_runs: u32,
    pub on_failure: Option<Seq<char>>,
    pub tasks: Seq<ParsedTaskView>,
    pub source_file: Seq<char>,
}

pub open spec fn dag_view(d: ParsedDag) -> ParsedDagView {
    ParsedDagView {
        id: d.id@,
        description: opt_view(d.description),
        schedule: opt_view(d.schedule),
        tags: views(d.tags@),
        max_active_runs: d.max_active_runs,
        on_failure: opt_view(d.on_failure),
        tasks: task_views(d.tasks@),
        source_file: d.source_file@,
    }
}

pub open spec fn dag_views(ds: Seq<ParsedDag>) -> Seq<ParsedDagView> {
    ds.map_values(|d: ParsedDag| dag_view(d))
}

/// What the decorated definition at node `i` of a file `file` yields as a
/// DAG: `None` when no decorator marks a DAG; a parse error's message when
/// the decorator stands over no function or a task is in error; else the
/// DAG named by the function, described by its docstring, with its tasks
/// and the settings of the last `@dag` decorator's arguments.
pub open spec fn dag_at(nodes: Seq<PyNodeView>, i: int, file: Seq<char>) -> Option<Result<ParsedDagView, Seq<char>>> {
    let ds = decorators_of(nodes, i);
    match last_dag_decorator(ds) {
        None => None,
        Some(k) => match function_of(nodes, i) {
            None => Some(Err("Decorated definition has no function"@)),
            Some(f) => match tasks_of_function(nodes, f as int) {
                Err(m) => Some(Err(m)),
                Ok(ts) => Some(Ok(dag_from(nodes, f as int, ds[k], ts, file))),
            },
        },
    }
}

/// The DAG of the function at node `f` with the tasks `ts`, its settings
/// from the arguments of the decorator `deco`.
pub open spec fn dag_from(
    nodes: Seq<PyNodeView>,
    f: int,
    deco: Seq<char>,
    ts: Seq<ParsedTaskView>,
    file: Seq<char>,
) -> ParsedDagView {
    let args = decorator_args_spec(deco);
    ParsedDagView {
        id: match field_text(nodes, f, "name"@) {
            Some(n) => n,
            None => "unknown"@,
        },
        description: docstring_at(nodes, f),
        schedule: arg_value(args, "schedule"@),
        tags: match arg_value(args, "tags"@) {
            Some(t) => tags_of(t),
            None => Seq::empty(),
        },
        max_active_runs: match arg_value(args, "max_active_runs"@) {
            Some(v) => match parse_unsigned(v, u32::MAX as nat) {
                Some(n) => n as u32,
                None => 1,
            },
            None => 1,
        },
        on_failure: arg_value(args, "on_failure"@),
        tasks: ts,
        source_file: file,
    }
}

/// The position of the last decorator that marks a DAG.
fn find_dag_decorator(ds: &Vec<String>) -> (r: Option<usize>)
    ensures
        match last_dag_decorator(views(ds@)) {
            Some(k) => r matches Some(x) && x == k,
            None => r is None,
        },
        r matches Some(x) ==> x < ds@.len(),
{
    let ghost v = views(ds@);
    let pat = chars_of("@dag");
    let mut k: usize = ds.len();
    proof {
        assert(v.take(k as int) =~= v);
    }
    while k > 0
        invariant
            v == views(ds@),
            pat@ == "@dag"@,
            k <= v.len(),
            last_dag_decorator(v) == last_dag_decorator(v.take(k as int)),
        decreases k,
    {
        assert(v.take(k as int).drop_last() =~= v.take(k - 1));
        assert(v.take(k as int).last() == ds@[k - 1]@);
        if contains_chars(&chars_of(ds[k - 1].as_str()), &pat) {
            return Some(k - 1);
        }
        k = k - 1;
    }
    None
}

/// The DAG the decorated definition at node `i` declares, if it declares
/// one (see `dag_at`); `file_name` names the file in the DAG and in errors.
fn try_parse_dag(syn: &PySyntax, i: usize, file_name: &str) -> (r: Result<Option<ParsedDag>, ConduitError>)
    requires
        i < syn.nodes().len(),
    ensures
        match dag_at(syn.nodes(), i as int, file_name@) {
            None => r is Ok && r->Ok_0 is None,
            Some(Err(m)) => is_parse_error(r, file_name@, m),
            Some(Ok(v)) => r matches Ok(Some(d)) && dag_view(d) == v,
        },
{
    let ghost nodes = syn.nodes();
    let decorators = child_texts_of_kind(syn, i, "decorator");
    let k = match find_dag_decorator(&decorators) {
        Some(k) => k,
        None => {
            return Ok(None);
        },
    };
    let f = match child_of_kind(syn, i, "function_definition") {
        Some(f) => f,
        None => {
            return Err(
                ConduitError::ParseError {
                    file: owned(file_name),
                    message: owned("Decorated definition has no function"),
                },
            );
        },
    };
    let tasks = match extract_tasks(syn, f, file_name) {
        Ok(ts) => ts,
        Err(e) => {
            return Err(e);
        },
    };
    let ghost ds = decorators_of(nodes, i as int);
    let ghost ts = task_views(tasks@);
    assert(ds == views(decorators@));
    assert(last_dag_decorator(ds) == Some(k as int));
    assert(ds[k as int] == decorators@[k as int]@);
    assert(function_of(nodes, i as int) == Some(f));
    assert(tasks_of_function(nodes, f as int) == Ok::<Seq<ParsedTaskView>, Seq<char>>(ts));
    let d = assemble_dag(syn, f, &decorators[k], tasks, file_name);
    assert(dag_at(nodes, i as int, file_name@) == Some(Ok::<ParsedDagView, Seq<char>>(dag_view(d))));
    Ok(Some(d))
}

/// The DAG of the function at node `f` with the tasks `tasks` and the
/// settings of decorator `deco` (see `dag_from`).
fn assemble_dag(syn: &PySyntax, f: usize, deco: &String, tasks: Vec<ParsedTask>, file_name: &str) -> (d: ParsedDag)
    requires
        f < syn.nodes().len(),
        deco@.len() <= i32::MAX,
    ensures
        dag_view(d) == dag_from(syn.nodes(), f as int, deco@, task_views(tasks@), file_name@),
{
    let id = match field_text_of(syn, f, "name") {
        Some(n) => n,
        None => owned("unknown"),
    };
    let description = extract_docstring(syn, f);
    let args = DagParser::extract_decorator_args(deco.as_str());
    let ghost av = decorator_args_spec(deco@);
    let tags = match arg_lookup(&args, "tags") {
        Some(t) => tag_list(t.as_str()),
        None => Vec::new(),
    };
    assert(views(tags@) == match arg_value(av, "tags"@) {
        Some(t) => tags_of(t),
        None => Seq::<Seq<char>>::empty(),
    });
    let max_active_runs: u32 = match arg_lookup(&args, "max_active_runs") {
        Some(v) => match parse_u32(v.as_str()) {
            Some(n) => n,
            None => 1,
        },
        None => 1,
    };
    assert(max_active_runs == match arg_value(av, "max_active_runs"@) {
        Some(v) => match parse_unsigned(v, u32::MAX as nat) {
            Some(n) => n as u32,
            None => 1u32,
        },
        None => 1u32,
    });
    let schedule = arg_lookup(&args, "schedule");
    let on_failure = arg_lookup(&args, "on_failure");
    ParsedDag { id, description, schedule, tags, max_active_runs, on_failure, tasks, source_file: owned(file_name) }
}

/// The DAGs the decorated definitions among `cs` declare, in order; the
/// first error stops the reading.
pub open spec fn dags_in(nodes: Seq<PyNodeView>, cs: Seq<usize>, file: Seq<char>) -> Result<Seq<ParsedDagView>, Seq<char>>
    decreases cs.len(),
{
    if cs.len() == 0 {
        Ok(Seq::empty())
    } else {
        match dags_in(nodes, cs.drop_last(), file) {
            Err(m) => Err(m),
            Ok(acc) => if nodes[cs.last() as int].kind == "decorated_definition"@ {
                match dag_at(nodes, cs.last() as int, file) {
                    None => Ok(acc),
                    Some(Err(m)) => Err(m),
                    Some(Ok(d)) => Ok(acc.push(d)),
                }
            } else {
                Ok(acc)
            },
        }
    }
}

/// The DAGs of a file whose syntax tree has the nodes `nodes`: those of the
/// decorated definitions at its top level.
pub open spec fn file_dags(nodes: Seq<PyNodeView>, file: Seq<char>) -> Result<Seq<ParsedDagView>, Seq<char>> {
    dags_in(nodes, nodes[0].children, file)
}

proof fn lemma_dags_error_stays(nodes: Seq<PyNodeView>, cs: Seq<usize>, file: Seq<char>, a: int)
    requires
        0 <= a <= cs.len(),
        dags_in(nodes, cs.take(a), file) is Err,
    ensures
        dags_in(nodes, cs, file) == dags_in(nodes, cs.take(a), file),
    decreases cs.len() - a,
{
    if a < cs.len() {
        assert(cs.take(a + 1).drop_last() =~= cs.take(a));
        lemma_dags_error_stays(nodes, cs, file, a + 1);
    } else {
        assert(cs.take(a) =~= cs);
    }
}

/// Whether `r` is what the reading `o` of a file `file` gives: its DAGs, or
/// a parse error of the file with the message.
pub open spec fn dags_result(
    o: Result<Seq<ParsedDagView>, Seq<char>>,
    file: Seq<char>,
    r: Result<Vec<ParsedDag>, ConduitError>,
) -> bool {
    match o {
        Ok(vs) => r matches Ok(ds) && dag_views(ds@) == vs,
        Err(m) => is_parse_error(r, file, m),
    }
}

/// The DAG definitions of a Python file from its syntax tree (see
/// `file_dags`); `file_name` names the file in the DAGs and in errors.
pub fn dags_from_syntax(syn: &PySyntax, file_name: &str) -> (r: Result<Vec<ParsedDag>, ConduitError>)
    ensures
        dags_result(file_dags(syn.nodes(), file_name@), file_name@, r),
{
    let n = syn.len();
    let root = syn.node(0);
    let ghost cs = root.children@;
    let mut dags: Vec<ParsedDag> = Vec::new();
    let mut j: usize = 0;
    proof {
        assert(cs.take(0) =~= Seq::<usize>::empty());
        assert(dag_views(dags@) =~= Seq::<ParsedDagView>::empty());
    }
    while j < root.children.len()
        invariant
            n == syn.nodes().len(),
            cs == root.children@,
            node_view(*root) == syn.nodes()[0],
            forall|x: int| 0 <= x < cs.len() ==> 0 < #[trigger] cs[x] < n,
            j <= cs.len(),
            dags_in(syn.nodes(), cs.take(j as int), file_name@) == Ok::<Seq<ParsedDagView>, Seq<char>>(
                dag_views(dags@),
            ),
        decreases cs.len() - j,
    {
        assert(cs.take(j + 1).drop_last() =~= cs.take(j as int));
        assert(cs.take(j + 1).last() == cs[j as int]);
        let c = root.children[j];
        if kind_is(syn.node(c), "decorated_definition") {
            match try_parse_dag(syn, c, file_name) {
                Ok(Some(d)) => {
                    let ghost before = dag_views(dags@);
                    dags.push(d);
                    assert(dag_views(dags@) =~= before.push(dag_view(d)));
                },
                Ok(None) => {},
                Err(e) => {
                    proof {
                        lemma_dags_error_stays(syn.nodes(), cs, file_name@, j + 1);
                    }
                    return Err(e);
                },
            }
        }
        j = j + 1;
    }
    assert(cs.take(j as int) =~= cs);
    Ok(dags)
}

/// The DAG parser: extracts DAG definitions from Python source with the
/// tree-sitter Python grammar.
pub struct DagParser {
    parser: tree_sitter::Parser,
}

impl DagParser {
    /// A parser with the Python grammar, which tree-sitter accepts.
    pub fn new() -> (r: Result<DagParser, ConduitError>)
        ensures
            r is Ok,
    {
        match python_parser() {
            Ok(parser) => Ok(DagParser { parser }),
            Err(e) => {
                let mut message = chars_of("Failed to set Python language: ");
                crate::text::push_str(&mut message, e.as_str());
                Err(ConduitError::ParseError { file: owned("<init>"), message: string_of(message.as_slice()) })
            },
        }
    }

    /// The DAG definitions of Python source `source`: those of the syntax
    /// tree that tree-sitter's Python grammar gives for it (see `file_dags`
    /// and `python_nodes`); `file_name` names the file in the DAGs and in
    /// errors. A parse error when that tree does not read as one (see
    /// `parses_ok`).
    pub fn parse_source(&mut self, source: &str, file_name: &str) -> (r: Result<Vec<ParsedDag>, ConduitError>)
        ensures
            if parses_ok(source@) {
                dags_result(file_dags(python_nodes(source@), file_name@), file_name@, r)
            } else {
                is_parse_error(r, file_name@, "tree-sitter failed to parse file"@)
            },
    {
        match parse_python(&mut self.parser, source) {
            None => Err(
                ConduitError::ParseError {
                    file: owned(file_name),
                    message: owned("tree-sitter failed to parse file"),
                },
            ),
            Some(syn) => dags_from_syntax(&syn, file_name),
        }
    }
}

/// Every dependency is one of `names` and is not `id`.
pub open spec fn deps_among(deps: Seq<Seq<char>>, names: Seq<Seq<char>>, id: Seq<char>) -> bool {
    forall|k: int| 0 <= k < deps.len() ==> names.contains(#[trigger] deps[k]) && deps[k] != id
}

/// Every task's dependencies name other tasks among `names`.
pub open spec fn deps_named(ts: Seq<ParsedTaskView>, names: Seq<Seq<char>>) -> bool {
    forall|i: int| 0 <= i < ts.len() ==> deps_among(#[trigger] ts[i].raw_dependencies, names, ts[i].id)
}

/// No task has dependencies.
pub open spec fn no_deps(ts: Seq<ParsedTaskView>) -> bool {
    forall|i: int| 0 <= i < ts.len() ==> (#[trigger] ts[i]).raw_dependencies.len() == 0
}

/// The second part of every pair is one of `names`.
pub open spec fn values_among(pairs: Seq<(Seq<char>, Seq<char>)>, names: Seq<Seq<char>>) -> bool {
    forall|j: int| 0 <= j < pairs.len() ==> names.contains(#[trigger] pairs[j].1)
}

proof fn lemma_first_called_is_a_name(rhs: Seq<char>, names: Seq<Seq<char>>)
    ensures
        first_called(rhs, names) matches Some(n) ==> names.contains(n),
    decreases names.len(),
{
    if names.len() > 0 {
        lemma_first_called_is_a_name(rhs, names.drop_first());
        if let Some(n) = first_called(rhs, names.drop_first()) {
            let j = choose|j: int| 0 <= j < names.drop_first().len() && names.drop_first()[j] == n;
            assert(names[j + 1] == n);
        }
    }
}

proof fn lemma_key_pos_in_range(pairs: Seq<(Seq<char>, Seq<char>)>, key: Seq<char>)
    ensures
        key_pos(pairs, key) matches Some(j) ==> 0 <= j < pairs.len(),
    decreases pairs.len(),
{
    if pairs.len() > 0 {
        lemma_key_pos_in_range(pairs.drop_last(), key);
    }
}

proof fn lemma_var_tasks_values(texts: Seq<Seq<char>>, names: Seq<Seq<char>>)
    ensures
        values_among(var_tasks(texts, names), names),
    decreases texts.len(),
{
    if texts.len() > 0 {
        let m = var_tasks(texts.drop_last(), names);
        lemma_var_tasks_values(texts.drop_last(), names);
        if let Some(e) = first_index(texts.last(), '=') {
            lemma_first_called_is_a_name(trim(texts.last().skip(e + 1)), names);
        }
        if let Some(p) = assignment_spec(texts.last(), names) {
            lemma_key_pos_in_range(m, p.0);
            let u = upsert(m, p);
            assert forall|j: int| 0 <= j < u.len() implies names.contains(#[trigger] u[j].1) by {
                if j < m.len() && u[j] == m[j] {
                } else {
                    assert(u[j] == p);
                }
            }
        }
    }
}

proof fn lemma_pair_deps_among(
    deps: Seq<Seq<char>>,
    text: Seq<char>,
    pairs: Seq<(Seq<char>, Seq<char>)>,
    id: Seq<char>,
    names: Seq<Seq<char>>,
)
    requires
        deps_among(deps, names, id),
        values_among(pairs, names),
    ensures
        deps_among(pair_deps(deps, text, pairs, id), names, id),
    decreases pairs.len(),
{
    if pairs.len() > 0 {
        assert(values_among(pairs.drop_last(), names)) by {
            assert forall|j: int| 0 <= j < pairs.drop_last().len() implies names.contains(
                #[trigger] pairs.drop_last()[j].1,
            ) by {
                assert(pairs.drop_last()[j] == pairs[j]);
            }
        }
        lemma_pair_deps_among(deps, text, pairs.drop_last(), id, names);
        let d = pair_deps(deps, text, pairs.drop_last(), id);
        assert(names.contains(pairs[pairs.len() - 1].1));
        if contains_text(text, pairs.last().0) && pairs.last().1 != id && !d.contains(pairs.last().1) {
            let e = d.push(pairs.last().1);
            assert forall|k: int| 0 <= k < e.len() implies names.contains(#[trigger] e[k]) && e[k] != id by {
                if k < d.len() {
                    assert(e[k] == d[k]);
                }
            }
        }
    }
}

proof fn lemma_chain_deps_among(
    deps: Seq<Seq<char>>,
    texts: Seq<Seq<char>>,
    pairs: Seq<(Seq<char>, Seq<char>)>,
    id: Seq<char>,
    names: Seq<Seq<char>>,
)
    requires
        deps_among(deps, names, id),
        values_among(pairs, names),
    ensures
        deps_among(chain_deps(deps, texts, pairs, id), names, id),
    decreases texts.len(),
{
    if texts.len() > 0 {
        lemma_chain_deps_among(deps, texts.drop_last(), pairs, id, names);
        let d = chain_deps(deps, texts.drop_last(), pairs, id);
        lemma_pair_deps_among(d, texts.last(), pairs, id, names);
    }
}

proof fn lemma_add_named_among(
    deps: Seq<Seq<char>>,
    dflt: Seq<char>,
    ns: Seq<Seq<char>>,
    id: Seq<char>,
    names: Seq<Seq<char>>,
)
    requires
        deps_among(deps, names, id),
        forall|j: int| 0 <= j < ns.len() ==> names.contains(#[trigger] ns[j]),
    ensures
        deps_among(add_named(deps, dflt, ns, id), names, id),
    decreases ns.len(),
{
    if ns.len() > 0 {
        assert forall|j: int| 0 <= j < ns.drop_last().len() implies names.contains(#[trigger] ns.drop_last()[j]) by {
            assert(ns.drop_last()[j] == ns[j]);
        }
        lemma_add_named_among(deps, dflt, ns.drop_last(), id, names);
        let d = add_named(deps, dflt, ns.drop_last(), id);
        let n = ns.last();
        assert(names.contains(ns[ns.len() - 1]));
        if dflt == n && n != id && !d.contains(n) {
            let e = d.push(n);
            assert forall|k: int| 0 <= k < e.len() implies names.contains(#[trigger] e[k]) && e[k] != id by {
                if k < d.len() {
                    assert(e[k] == d[k]);
                }
            }
        }
    }
}

proof fn lemma_add_defaults_among(
    deps: Seq<Seq<char>>,
    clauses: Seq<Seq<char>>,
    names: Seq<Seq<char>>,
    id: Seq<char>,
)
    requires
        deps_among(deps, names, id),
    ensures
        deps_among(add_defaults(deps, clauses, names, id), names, id),
    decreases clauses.len(),
{
    if clauses.len() > 0 {
        lemma_add_defaults_among(deps, clauses.drop_last(), names, id);
        let d = add_defaults(deps, clauses.drop_last(), names, id);
        if let Some(v) = clause_default(clauses.last()) {
            assert forall|j: int| 0 <= j < names.len() implies names.contains(#[trigger] names[j]) by {}
            lemma_add_named_among(d, v, names, id, names);
        }
    }
}

proof fn lemma_task_at_no_deps(nodes: Seq<PyNodeView>, i: int)
    ensures
        task_at(nodes, i) matches Some(Ok(t)) ==> t.raw_dependencies.len() == 0,
{
    reveal(task_at);
}

proof fn lemma_direct_tasks_no_deps(nodes: Seq<PyNodeView>, cs: Seq<usize>)
    ensures
        direct_tasks(nodes, cs) matches Ok(s) ==> no_deps(s),
    decreases cs.len(),
{
    if cs.len() > 0 {
        lemma_direct_tasks_no_deps(nodes, cs.drop_last());
        lemma_task_at_no_deps(nodes, cs.last() as int);
        if let Ok(acc) = direct_tasks(nodes, cs.drop_last()) {
            if let Some(Ok(t)) = task_at(nodes, cs.last() as int) {
                let e = acc.push(t);
                assert forall|k: int| 0 <= k < e.len() implies (#[trigger] e[k]).raw_dependencies.len() == 0 by {
                    if k < acc.len() {
                        assert(e[k] == acc[k]);
                    }
                }
            }
        }
    }
}

proof fn lemma_nested_tasks_no_deps(nodes: Seq<PyNodeView>, i: int, k: int)
    requires
        tree_ok(nodes),
        0 <= i < nodes.len(),
        0 <= k <= nodes[i].children.len(),
    ensures
        nested_tasks(nodes, i, k) matches Ok(s) ==> no_deps(s),
    decreases nodes.len() - i, k,
{
    if k > 0 {
        lemma_nested_tasks_no_deps(nodes, i, k - 1);
        let c = nodes[i].children[k - 1] as int;
        assert(i < c < nodes.len());
        lemma_task_at_no_deps(nodes, c);
        if let Ok(acc) = nested_tasks(nodes, i, k - 1) {
            if nodes[c].kind == "decorated_definition"@ {
                if let Some(Ok(t)) = task_at(nodes, c) {
                    let e = acc.push(t);
                    assert forall|x: int| 0 <= x < e.len() implies (#[trigger] e[x]).raw_dependencies.len() == 0 by {
                        if x < acc.len() {
                            assert(e[x] == acc[x]);
                        }
                    }
                }
            } else if nodes[c].kind != "function_definition"@ {
                lemma_nested_tasks_no_deps(nodes, c, nodes[c].children.len() as int);
                if let Ok(s2) = nested_tasks(nodes, c, nodes[c].children.len() as int) {
                    let e = acc + s2;
                    assert forall|x: int| 0 <= x < e.len() implies (#[trigger] e[x]).raw_dependencies.len() == 0 by {
                        if x < acc.len() {
                            assert(e[x] == acc[x]);
                        } else {
                            assert(e[x] == s2[x - acc.len()]);
                        }
                    }
                }
            }
        }
    }
}

proof fn lemma_function_tasks_named(nodes: Seq<PyNodeView>, f: int)
    requires
        tree_ok(nodes),
        0 <= f < nodes.len(),
    ensures
        tasks_of_function(nodes, f) matches Ok(ts) ==> deps_named(ts, view_ids(ts)),
{
    reveal(tasks_of_function);
    let cs = nodes[f].children;
    if let Some(b) = first_with_field(nodes, cs, "body"@) {
        lemma_first_with_field_is_child(nodes, cs, "body"@);
        let j = choose|j: int| 0 <= j < cs.len() && cs[j] == b;
        assert(f < b < nodes.len());
        lemma_direct_tasks_no_deps(nodes, nodes[b as int].children);
        lemma_nested_tasks_no_deps(nodes, b as int, nodes[b as int].children.len() as int);
        if let Ok(s) = body_tasks(nodes, b as int) {
            let names = view_ids(s);
            let texts = texts_of(nodes, nodes[b as int].children);
            let pairs = var_tasks(statement_texts(nodes, nodes[b as int].children), names);
            lemma_var_tasks_values(statement_texts(nodes, nodes[b as int].children), names);
            let chained = with_chain(s, texts, pairs);
            assert(view_ids(chained) =~= names);
            assert forall|i: int| 0 <= i < chained.len() implies deps_among(
                #[trigger] chained[i].raw_dependencies,
                names,
                chained[i].id,
            ) by {
                assert(s[i].raw_dependencies.len() == 0);
                assert(deps_among(s[i].raw_dependencies, names, s[i].id));
                lemma_chain_deps_among(s[i].raw_dependencies, texts, pairs, s[i].id, names);
            }
            let fin = with_defaults(chained);
            assert(view_ids(fin) =~= names);
            assert forall|i: int| 0 <= i < fin.len() implies deps_among(
                #[trigger] fin[i].raw_dependencies,
                names,
                fin[i].id,
            ) by {
                lemma_add_defaults_among(
                    chained[i].raw_dependencies,
                    param_clauses(chained[i].parameters_text),
                    names,
                    chained[i].id,
                );
            }
        }
    }
}

proof fn lemma_first_with_field_is_child(nodes: Seq<PyNodeView>, cs: Seq<usize>, f: Seq<char>)
    ensures
        first_with_field(nodes, cs, f) matches Some(c) ==> exists|j: int| 0 <= j < cs.len() && cs[j] == c,
    decreases cs.len(),
{
    if cs.len() > 0 {
        lemma_first_with_field_is_child(nodes, cs.drop_first(), f);
        if let Some(c) = first_with_field(nodes, cs.drop_first(), f) {
            if nodes[cs[0] as int].field != Some(f) {
                let j = choose|j: int| 0 <= j < cs.drop_first().len() && cs.drop_first()[j] == c;
                assert(cs[j + 1] == c);
            }
        }
    }
}

proof fn lemma_first_of_kind_is_child(nodes: Seq<PyNodeView>, cs: Seq<usize>, k: Seq<char>)
    ensures
        first_of_kind(nodes, cs, k) matches Some(c) ==> exists|j: int| 0 <= j < cs.len() && cs[j] == c,
    decreases cs.len(),
{
    if cs.len() > 0 {
        lemma_first_of_kind_is_child(nodes, cs.drop_first(), k);
        if let Some(c) = first_of_kind(nodes, cs.drop_first(), k) {
            if nodes[cs[0] as int].kind != k {
                let j = choose|j: int| 0 <= j < cs.drop_first().len() && cs.drop_first()[j] == c;
                assert(cs[j + 1] == c);
            }
        }
    }
}

proof fn lemma_dags_in_named(nodes: Seq<PyNodeView>, i: int, cs: Seq<usize>, file: Seq<char>)
    requires
        tree_ok(nodes),
        0 <= i < nodes.len(),
        forall|j: int| 0 <= j < cs.len() ==> i < #[trigger] cs[j] < nodes.len(),
    ensures
        dags_in(nodes, cs, file) matches Ok(ds) ==> forall|x: int|
            0 <= x < ds.len() ==> deps_named((#[trigger] ds[x]).tasks, view_ids(ds[x].tasks)),
    decreases cs.len(),
{
    if cs.len() > 0 {
        lemma_dags_in_named(nodes, i, cs.drop_last(), file);
        let c = cs.last() as int;
        assert(cs[cs.len() - 1] == cs.last());
        if let Ok(acc) = dags_in(nodes, cs.drop_last(), file) {
            if nodes[c].kind == "decorated_definition"@ {
                if let Some(Ok(d)) = dag_at(nodes, c, file) {
                    let fo = function_of(nodes, c);
                    lemma_first_of_kind_is_child(nodes, nodes[c].children, "function_definition"@);
                    let f = fo->Some_0;
                    let j = choose|j: int| 0 <= j < nodes[c].children.len() && nodes[c].children[j] == f;
                    assert(c < f < nodes.len());
                    lemma_function_tasks_named(nodes, f as int);
                    let e = acc.push(d);
                    assert forall|x: int| 0 <= x < e.len() implies deps_named(
                        (#[trigger] e[x]).tasks,
                        view_ids(e[x].tasks),
                    ) by {
                        if x < acc.len() {
                            assert(e[x] == acc[x]);
                        }
                    }
                }
            }
        }
    }
}

/// The dependencies the parser finds (from a DAG's data flow and from its
/// tasks' parameter defaults) each name another task of the same DAG.
pub proof fn law_parsed_dependencies_name_other_tasks(nodes: Seq<PyNodeView>, file: Seq<char>)
    requires
        tree_ok(nodes),
    ensures
        file_dags(nodes, file) matches Ok(ds) ==> forall|x: int|
            0 <= x < ds.len() ==> deps_named((#[trigger] ds[x]).tasks, view_ids(ds[x].tasks)),
{
    lemma_dags_in_named(nodes, 0, nodes[0].children, file);
}

/// For Python source that tree-sitter reads as a tree, the dependencies
/// the parser finds each name another task of the same DAG.
pub proof fn law_source_dependencies_name_other_tasks(source: Seq<char>, file: Seq<char>)
    requires
        parses_ok(source),
    ensures
        file_dags(python_nodes(source), file) matches Ok(ds) ==> forall|x: int|
            0 <= x < ds.len() ==> deps_named((#[trigger] ds[x]).tasks, view_ids(ds[x].tasks)),
{
    lemma_parsed_tree_ok(source);
    law_parsed_dependencies_name_other_tasks(python_nodes(source), file);
}

/// Tags are never empty: whatever the pieces of a tag list, each tag it
/// gives has at least one character, so an empty list, a trailing comma or
/// an empty quoted piece gives no tag. Every tag is a piece, trimmed and
/// unquoted, and every piece that is not empty so is a tag.
pub proof fn law_tags_are_non_empty(parts: Seq<Seq<char>>)
    ensures
        forall|i: int| 0 <= i < tag_items(parts).len() ==> (#[trigger] tag_items(parts)[i]).len() > 0,
        tag_items(parts).len() <= parts.len(),
        forall|i: int|
            0 <= i < tag_items(parts).len() ==> exists|j: int|
                0 <= j < parts.len() && #[trigger] tag_items(parts)[i] == strip_either(
                    trim(#[trigger] parts[j]),
                    '"',
                    '"',
                ),
        forall|j: int|
            0 <= j < parts.len() && strip_either(trim(#[trigger] parts[j]), '"', '"').len() > 0
                ==> tag_items(parts).contains(strip_either(trim(parts[j]), '"', '"')),
    decreases parts.len(),
{
    if parts.len() > 0 {
        let init = parts.drop_last();
        law_tags_are_non_empty(init);
        let rest = tag_items(init);
        let t = strip_either(trim(parts.last()), '"', '"');
        let r = tag_items(parts);
        assert forall|i: int| 0 <= i < r.len() implies (#[trigger] r[i]).len() > 0 by {
            if i < rest.len() {
                assert(r[i] == rest[i]);
            }
        }
        assert forall|i: int| 0 <= i < r.len() implies exists|j: int|
            0 <= j < parts.len() && #[trigger] r[i] == strip_either(trim(#[trigger] parts[j]), '"', '"') by {
            if i < rest.len() {
                assert(r[i] == rest[i]);
                let j = choose|j: int| 0 <= j < init.len() && rest[i] == strip_either(trim(#[trigger] init[j]), '"', '"');
                assert(init[j] == parts[j]);
            } else {
                assert(r[i] == t);
                assert(parts[parts.len() - 1] == parts.last());
            }
        }
        assert forall|j: int|
            0 <= j < parts.len() && strip_either(trim(#[trigger] parts[j]), '"', '"').len() > 0 implies r.contains(
            strip_either(trim(parts[j]), '"', '"'),
        ) by {
            let x = strip_either(trim(parts[j]), '"', '"');
            if j < init.len() {
                assert(init[j] == parts[j]);
                let k = choose|k: int| 0 <= k < rest.len() && rest[k] == x;
                if t.len() > 0 {
                    assert(r[k] == rest[k]);
                }
            } else {
                assert(parts[j] == parts.last());
                assert(r[r.len() - 1] == t);
            }
        }
    }
}

/// Every tag a DAG parsed from Python carries is non-empty.
pub proof fn law_dag_tags_are_non_empty(
    nodes: Seq<PyNodeView>,
    f: int,
    deco: Seq<char>,
    ts: Seq<ParsedTaskView>,
    file: Seq<char>,
)
    ensures
        forall|i: int|
            0 <= i < dag_from(nodes, f, deco, ts, file).tags.len() ==> (#[trigger] dag_from(
                nodes,
                f,
                deco,
                ts,
                file,
            ).tags[i]).len() > 0,
{
    match arg_value(decorator_args_spec(deco), "tags"@) {
        Some(t) => {
            law_tags_are_non_empty(split_commas(strip_either(t, '[', ']')));
        },
        None => {},
    }
}

} // verus!
