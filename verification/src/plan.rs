//! The compiled plan: every resolved DAG, by id, with the figures of the
//! compilation. Reading the DAG files and timing the run are the caller's.

use vstd::prelude::*;
use crate::dag::Dag;
use crate::error::{error_text, ConduitError};
use crate::text::{decimal, push_decimal, push_str, string_of};

verus! {

/// A compiled plan. The times are in milliseconds (`compiled_at_ms` since
/// the epoch).
#[derive(Debug, Clone)]
pub struct ConduitPlan {
    /// The DAGs, one per id.
    pub dags: Vec<Dag>,
    pub compiled_at_ms: i64,
    pub compilation_time_ms: u64,
    /// Tasks of every DAG that resolved.
    pub total_tasks: usize,
    pub warnings: Vec<String>,
}

/// What a compilation did.
#[derive(Debug)]
pub struct CompilationStats {
    pub files_scanned: usize,
    pub dags_compiled: usize,
    pub tasks_total: usize,
    pub errors: Vec<ConduitError>,
    pub warnings: Vec<String>,
    pub duration_ms: u64,
}

/// The tasks of all the DAGs.
pub open spec fn task_total(dags: Seq<Dag>) -> nat
    decreases dags.len(),
{
    if dags.len() == 0 {
        0
    } else {
        task_total(dags.drop_last()) + dags.last().tasks@.len()
    }
}

/// A DAG with id `id` is among `dags`.
pub open spec fn has_dag(dags: Seq<Dag>, id: Seq<char>) -> bool {
    exists|i: int| 0 <= i < dags.len() && dags[i].id@ == id
}

/// The DAGs keyed by id, as a map fills in: a later DAG with an id already
/// there takes the place of the earlier one.
pub open spec fn keyed_dags(dags: Seq<Dag>) -> Seq<Dag>
    decreases dags.len(),
{
    if dags.len() == 0 {
        Seq::empty()
    } else {
        let k = keyed_dags(dags.drop_last());
        let d = dags.last();
        if has_dag(k, d.id@) {
            k.update(choose|i: int| 0 <= i < k.len() && k[i].id@ == d.id@, d)
        } else {
            k.push(d)
        }
    }
}

/// No two DAGs share an id.
pub open spec fn dag_ids_distinct(dags: Seq<Dag>) -> bool {
    forall|i: int, j: int| 0 <= i < j < dags.len() ==> (#[trigger] dags[i]).id@ != (#[trigger] dags[j]).id@
}

proof fn lemma_task_total_push(dags: Seq<Dag>, d: Dag)
    ensures
        task_total(dags.push(d)) == task_total(dags) + d.tasks@.len(),
{
    assert(dags.push(d).drop_last() =~= dags);
}

proof fn lemma_keyed_distinct(dags: Seq<Dag>)
    ensures
        dag_ids_distinct(keyed_dags(dags)),
    decreases dags.len(),
{
    if dags.len() > 0 {
        let k = keyed_dags(dags.drop_last());
        lemma_keyed_distinct(dags.drop_last());
        let d = dags.last();
        if has_dag(k, d.id@) {
            let c = choose|i: int| 0 <= i < k.len() && k[i].id@ == d.id@;
            let n = k.update(c, d);
            assert forall|i: int, j: int| 0 <= i < j < n.len() implies (#[trigger] n[i]).id@ != (#[trigger] n[j]).id@ by {
                if i == c {
                    assert(k[c].id@ != k[j].id@);
                } else if j == c {
                    assert(k[i].id@ != k[c].id@);
                } else {
                    assert(k[i].id@ != k[j].id@);
                }
            }
        } else {
            let n = k.push(d);
            assert forall|i: int, j: int| 0 <= i < j < n.len() implies (#[trigger] n[i]).id@ != (#[trigger] n[j]).id@ by {
                if j == k.len() {
                    assert(k[i].id@ != d.id@);
                } else {
                    assert(k[i].id@ != k[j].id@);
                }
            }
        }
    }
}

impl ConduitPlan {
    /// The plan and the figures of a compilation whose DAGs resolved into
    /// `resolved` and failed with `errors`, after `files_scanned` files and
    /// `duration_ms` milliseconds, finished at `compiled_at_ms`.
    pub fn assemble(
        resolved: Vec<Dag>,
        errors: Vec<ConduitError>,
        files_scanned: usize,
        compiled_at_ms: i64,
        duration_ms: u64,
    ) -> (r: (ConduitPlan, CompilationStats))
        requires
            task_total(resolved@) <= usize::MAX,
        ensures
            r.0.dags@ == keyed_dags(resolved@),
            dag_ids_distinct(r.0.dags@),
            r.0.compiled_at_ms == compiled_at_ms,
            r.0.compilation_time_ms == duration_ms,
            r.0.total_tasks == task_total(resolved@),
            r.0.warnings@.len() == 0,
            r.1.files_scanned == files_scanned,
            r.1.dags_compiled == r.0.dags@.len(),
            r.1.tasks_total == task_total(resolved@),
            r.1.errors@ == errors@,
            r.1.warnings@.len() == 0,
            r.1.duration_ms == duration_ms,
    {
        let ghost input = resolved@;
        let n_in: usize = resolved.len();
        assert(input.len() == n_in);
        let mut total: usize = 0;
        let mut i: usize = 0;
        while i < resolved.len()
            invariant
                input == resolved@,
                i <= input.len(),
                task_total(input) <= usize::MAX,
                total == task_total(input.take(i as int)),
                task_total(input.take(i as int)) <= task_total(input),
            decreases resolved.len() - i,
        {
            proof {
                assert(input.take(i + 1) =~= input.take(i as int).push(input[i as int]));
                lemma_task_total_push(input.take(i as int), input[i as int]);
                lemma_task_total_prefix(input, i + 1);
            }
            total = total + resolved[i].tasks.len();
            i = i + 1;
        }
        assert(input.take(i as int) =~= input);
        let mut dags: Vec<Dag> = Vec::new();
        let mut rest = resolved;
        let mut rev: Vec<Dag> = Vec::new();
        while rest.len() > 0
            invariant
                rest.len() + rev.len() == input.len(),
                input.len() <= usize::MAX,
                forall|x: int| 0 <= x < rest.len() ==> rest@[x] == input[x],
                forall|m: int| 0 <= m < rev.len() ==> #[trigger] rev@[m] == input[input.len() - 1 - m],
            decreases rest.len(),
        {
            let d = rest.pop().unwrap();
            rev.push(d);
        }
        let mut k: usize = 0;
        assert(input.take(0) =~= Seq::<Dag>::empty());
        while rev.len() > 0
            invariant
                rev.len() + k == input.len(),
                input.len() <= usize::MAX,
                forall|m: int| 0 <= m < rev.len() ==> #[trigger] rev@[m] == input[input.len() - 1 - m],
                dags@ == keyed_dags(input.take(k as int)),
            decreases rev.len(),
        {
            let d = rev.pop().unwrap();
            assert(d == input[k as int]);
            proof {
                assert(input.take(k + 1).drop_last() =~= input.take(k as int));
                assert(input.take(k + 1).last() == input[k as int]);
            }
            let ghost before = dags@;
            proof {
                lemma_keyed_distinct(input.take(k as int));
            }
            match find_dag(&dags, &d) {
                Some(j) => {
                    dags.set(j, d);
                },
                None => {
                    dags.push(d);
                },
            }
            assert(dags@ =~= keyed_dags(input.take(k + 1)));
            k = k + 1;
        }
        assert(input.take(k as int) =~= input);
        proof {
            lemma_keyed_distinct(input);
        }
        let n = dags.len();
        let plan = ConduitPlan {
            dags,
            compiled_at_ms,
            compilation_time_ms: duration_ms,
            total_tasks: total,
            warnings: Vec::new(),
        };
        let stats = CompilationStats {
            files_scanned,
            dags_compiled: n,
            tasks_total: total,
            errors,
            warnings: Vec::new(),
            duration_ms,
        };
        (plan, stats)
    }
}

proof fn lemma_task_total_prefix(dags: Seq<Dag>, k: int)
    requires
        0 <= k <= dags.len(),
    ensures
        task_total(dags.take(k)) <= task_total(dags),
    decreases dags.len() - k,
{
    if k < dags.len() {
        lemma_task_total_prefix(dags, k + 1);
        assert(dags.take(k + 1) =~= dags.take(k).push(dags[k]));
        lemma_task_total_push(dags.take(k), dags[k]);
    } else {
        assert(dags.take(k) =~= dags);
    }
}

/// Where the DAG with `d`'s id is, as `keyed_dags` picks it.
fn find_dag(dags: &Vec<Dag>, d: &Dag) -> (r: Option<usize>)
    requires
        dag_ids_distinct(dags@),
    ensures
        match r {
            Some(j) => has_dag(dags@, d.id@) && j == (choose|i: int| 0 <= i < dags@.len() && dags@[i].id@ == d.id@),
            None => !has_dag(dags@, d.id@),
        },
{
    let mut i: usize = 0;
    while i < dags.len()
        invariant
            dag_ids_distinct(dags@),
            i <= dags@.len(),
            forall|k: int| 0 <= k < i ==> (#[trigger] dags@[k]).id@ != d.id@,
        decreases dags.len() - i,
    {
        if crate::text::str_eq(dags[i].id.as_str(), d.id.as_str()) {
            proof {
                assert(has_dag(dags@, d.id@));
                let c = choose|x: int| 0 <= x < dags@.len() && dags@[x].id@ == d.id@;
                if c != i {
                    if c < i {
                        assert(dags@[c].id@ != dags@[i as int].id@);
                    } else {
                        assert(dags@[i as int].id@ != dags@[c].id@);
                    }
                }
            }
            return Some(i);
        }
        i = i + 1;
    }
    None
}

/// The report of a compilation, as it is printed.
pub open spec fn stats_text(files: usize, dags: usize, tasks: usize, errors: Seq<ConduitError>, duration_ms: u64) -> Seq<char> {
    "Compilation Results:\n  DAGs compiled:  "@ + decimal(dags as nat) + "\n  Total tasks:    "@ + decimal(tasks as nat)
        + "\n  Errors:         "@ + decimal(errors.len()) + "\n  Duration:       "@ + decimal(duration_ms as nat)
        + "ms\n"@ + if errors.len() == 0 {
        Seq::empty()
    } else {
        "\nErrors:\n"@ + error_lines(errors)
    }
}

/// One line `  - <error>` per error.
pub open spec fn error_lines(errors: Seq<ConduitError>) -> Seq<char>
    decreases errors.len(),
{
    if errors.len() == 0 {
        Seq::empty()
    } else {
        error_lines(errors.drop_last()) + "  - "@ + error_text(errors.last()) + "\n"@
    }
}

impl CompilationStats {
    /// The report as it is printed.
    pub fn to_string(&self) -> (s: String)
        ensures
            s@ == stats_text(self.files_scanned, self.dags_compiled, self.tasks_total, self.errors@, self.duration_ms),
    {
        let mut out: Vec<char> = Vec::new();
        push_str(&mut out, "Compilation Results:\n  DAGs compiled:  ");
        push_decimal(&mut out, self.dags_compiled as u64);
        push_str(&mut out, "\n  Total tasks:    ");
        push_decimal(&mut out, self.tasks_total as u64);
        push_str(&mut out, "\n  Errors:         ");
        push_decimal(&mut out, self.errors.len() as u64);
        push_str(&mut out, "\n  Duration:       ");
        push_decimal(&mut out, self.duration_ms);
        push_str(&mut out, "ms\n");
        let ghost head = out@;
        if self.errors.len() > 0 {
            push_str(&mut out, "\nErrors:\n");
            let ghost head2 = out@;
            let mut i: usize = 0;
            assert(self.errors@.take(0) =~= Seq::<ConduitError>::empty());
            while i < self.errors.len()
                invariant
                    i <= self.errors@.len(),
                    out@ == head2 + error_lines(self.errors@.take(i as int)),
                decreases self.errors.len() - i,
            {
                let line = self.errors[i].to_string();
                push_str(&mut out, "  - ");
                push_str(&mut out, line.as_str());
                push_str(&mut out, "\n");
                proof {
                    let t = self.errors@.take(i + 1);
                    assert(t.drop_last() =~= self.errors@.take(i as int));
                    assert(t.last() == self.errors@[i as int]);
                }
                assert(out@ =~= head2 + error_lines(self.errors@.take(i + 1)));
                i = i + 1;
            }
            assert(self.errors@.take(i as int) =~= self.errors@);
        }
        string_of(out.as_slice())
    }
}

} // verus!
