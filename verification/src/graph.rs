//! Kahn's algorithm over task indices: the order in which a dependency graph
//! can run, and the tasks that can never run because they sit on or behind a
//! cycle.

use vstd::prelude::*;

verus! {

/// Number of occurrences of `x` in `s`.
pub open spec fn count_of(s: Seq<usize>, x: usize) -> nat
    decreases s.len(),
{
    if s.len() == 0 {
        0
    } else {
        count_of(s.drop_last(), x) + if s.last() == x { 1nat } else { 0nat }
    }
}

/// Number of entries of `s` that are not (yet) in `done`.
pub open spec fn pending(s: Seq<usize>, done: Seq<usize>) -> nat
    decreases s.len(),
{
    if s.len() == 0 {
        0
    } else {
        pending(s.drop_last(), done) + if done.contains(s.last()) { 0nat } else { 1nat }
    }
}

/// Every dependency index is a task index.
pub open spec fn well_indexed(deps: Seq<Seq<usize>>) -> bool {
    forall|i: int, k: int|
        0 <= i < deps.len() && 0 <= k < deps[i].len() ==> (#[trigger] deps[i][k]) < deps.len()
}

/// `order` lists task indices, each at most once, and every task in it comes
/// after all of its dependencies.
pub open spec fn runs_in_order(deps: Seq<Seq<usize>>, order: Seq<usize>) -> bool {
    &&& order.no_duplicates()
    &&& forall|q: int| 0 <= q < order.len() ==> (#[trigger] order[q]) < deps.len()
    &&& forall|q: int, k: int|
        0 <= q < order.len() && 0 <= k < deps[order[q] as int].len() ==> order.take(q).contains(
            #[trigger] deps[order[q] as int][k],
        )
}

/// Every task not in `order` has a dependency that is not in `order` either.
pub open spec fn rest_is_stuck(deps: Seq<Seq<usize>>, order: Seq<usize>) -> bool {
    forall|v: usize|
        v < deps.len() && !order.contains(v) ==> exists|k: int|
            0 <= k < deps[v as int].len() && !order.contains(#[trigger] deps[v as int][k])
}

proof fn lemma_pending_empty(s: Seq<usize>)
    ensures
        pending(s, Seq::empty()) == s.len(),
    decreases s.len(),
{
    if s.len() > 0 {
        lemma_pending_empty(s.drop_last());
    }
}

proof fn lemma_pending_insert(s: Seq<usize>, done: Seq<usize>, u: usize)
    requires
        !done.contains(u),
    ensures
        pending(s, done.push(u)) + count_of(s, u) == pending(s, done),
    decreases s.len(),
{
    if s.len() > 0 {
        lemma_pending_insert(s.drop_last(), done, u);
        assert(done.push(u).contains(s.last()) <==> (done.contains(s.last()) || s.last() == u))
            by {
            if s.last() == u {
                assert(done.push(u)[done.len() as int] == u);
            }
            if done.contains(s.last()) {
                let i = choose|i: int| 0 <= i < done.len() && done[i] == s.last();
                assert(done.push(u)[i] == s.last());
            }
        }
    }
}

proof fn lemma_pending_at_least_count(s: Seq<usize>, done: Seq<usize>, u: usize)
    requires
        !done.contains(u),
    ensures
        pending(s, done) >= count_of(s, u),
    decreases s.len(),
{
    if s.len() > 0 {
        lemma_pending_at_least_count(s.drop_last(), done, u);
    }
}

proof fn lemma_pending_zero(s: Seq<usize>, done: Seq<usize>)
    requires
        pending(s, done) == 0,
    ensures
        forall|k: int| 0 <= k < s.len() ==> done.contains(#[trigger] s[k]),
    decreases s.len(),
{
    if s.len() > 0 {
        lemma_pending_zero(s.drop_last(), done);
        assert forall|k: int| 0 <= k < s.len() implies done.contains(#[trigger] s[k]) by {
            if k < s.len() - 1 {
                assert(s.drop_last()[k] == s[k]);
            }
        }
    }
}

proof fn lemma_pending_positive(s: Seq<usize>, done: Seq<usize>)
    requires
        pending(s, done) > 0,
    ensures
        exists|k: int| 0 <= k < s.len() && !done.contains(#[trigger] s[k]),
    decreases s.len(),
{
    if !done.contains(s.last()) {
        assert(!done.contains(s[s.len() - 1]));
    } else {
        lemma_pending_positive(s.drop_last(), done);
        let k = choose|k: int| 0 <= k < s.len() - 1 && !done.contains(#[trigger] s.drop_last()[k]);
        assert(s.drop_last()[k] == s[k]);
    }
}

proof fn lemma_count_prefix(s: Seq<usize>, j: int, x: usize)
    requires
        0 <= j <= s.len(),
    ensures
        count_of(s.take(j), x) <= count_of(s, x),
    decreases s.len() - j,
{
    if j < s.len() {
        lemma_count_prefix(s, j + 1, x);
        assert(s.take(j + 1).drop_last() =~= s.take(j));
    } else {
        assert(s.take(j) =~= s);
    }
}

proof fn lemma_count_push(s: Seq<usize>, y: usize, x: usize)
    ensures
        count_of(s.push(y), x) == count_of(s, x) + if y == x { 1nat } else { 0nat },
{
    assert(s.push(y).drop_last() =~= s);
}

/// A duplicate-free sequence of indices below `n` has at most `n` entries.
pub proof fn lemma_distinct_bounded(s: Seq<usize>, n: nat)
    requires
        s.no_duplicates(),
        forall|q: int| 0 <= q < s.len() ==> (#[trigger] s[q]) < n,
    ensures
        s.len() <= n,
{
    let m = s.map_values(|x: usize| x as int);
    assert(m.no_duplicates()) by {
        assert forall|a: int, b: int| 0 <= a < m.len() && 0 <= b < m.len() && a != b implies m[a]
            != m[b] by {
            assert(s[a] != s[b]);
        }
    }
    m.unique_seq_to_set();
    vstd::set_lib::lemma_int_range(0, n as int);
    assert(m.to_set().subset_of(vstd::set_lib::set_int_range(0, n as int))) by {
        assert forall|x: int| m.to_set().contains(x) implies vstd::set_lib::set_int_range(
            0,
            n as int,
        ).contains(x) by {
            let q = choose|q: int| 0 <= q < m.len() && m[q] == x;
            assert(s[q] < n);
        }
    }
    vstd::set_lib::lemma_len_subset(m.to_set(), vstd::set_lib::set_int_range(0, n as int));
}

/// Some ordering of all tasks runs each task after its dependencies.
pub open spec fn has_run_order(deps: Seq<Seq<usize>>) -> bool {
    exists|o: Seq<usize>| o.len() == deps.len() && runs_in_order(deps, o)
}

/// `p` walks from task to dependency: each step goes from a task to one of
/// the tasks it depends on.
pub open spec fn dependency_walk(deps: Seq<Seq<usize>>, p: Seq<usize>) -> bool {
    &&& p.len() >= 1
    &&& forall|i: int| 0 <= i < p.len() ==> (#[trigger] p[i]) < deps.len()
    &&& forall|i: int|
        #![trigger deps[p[i] as int]]
        0 <= i < p.len() - 1 ==> deps[p[i] as int].contains(p[i + 1])
}

/// Task `v` waits on a cycle: a dependency walk from `v` can be longer than
/// there are tasks, so it must come round to a task twice.
pub open spec fn waits_on_cycle(deps: Seq<Seq<usize>>, v: usize) -> bool {
    exists|p: Seq<usize>|
        #![trigger dependency_walk(deps, p)]
        p.len() == deps.len() + 1 && p[0] == v && dependency_walk(deps, p)
}

/// Every entry of a duplicate-free sequence of indices below `n` that holds
/// `n` entries: it lists all of them.
pub proof fn lemma_full_distinct_covers(s: Seq<usize>, n: nat)
    requires
        s.no_duplicates(),
        s.len() == n,
        forall|q: int| 0 <= q < s.len() ==> (#[trigger] s[q]) < n,
    ensures
        forall|v: usize| v < n ==> s.contains(v),
{
    assert forall|v: usize| v < n implies s.contains(v) by {
        if !s.contains(v) {
            let t = s.push(v);
            assert(t.no_duplicates()) by {
                assert forall|a: int, b: int| 0 <= a < t.len() && 0 <= b < t.len() && a != b implies t[a]
                    != t[b] by {
                    if a < s.len() && b < s.len() {
                        assert(s[a] != s[b]);
                    } else if a < s.len() {
                        assert(s.contains(s[a]));
                    } else {
                        assert(s.contains(s[b]));
                    }
                }
            }
            lemma_distinct_bounded(t, n);
        }
    }
}

/// A stuck remainder rules out every complete run order.
pub proof fn lemma_stuck_means_no_order(deps: Seq<Seq<usize>>, order: Seq<usize>)
    requires
        well_indexed(deps),
        runs_in_order(deps, order),
        rest_is_stuck(deps, order),
        order.len() < deps.len(),
    ensures
        !has_run_order(deps),
{
    let n = deps.len();
    if has_run_order(deps) {
        let o = choose|o: Seq<usize>| o.len() == deps.len() && runs_in_order(deps, o);
        assert forall|q: int| 0 <= q < o.len() implies order.contains(#[trigger] o[q]) by {
            lemma_order_prefix_in(deps, order, o, q);
        }
        assert(order.len() >= n) by {
            if order.len() < n {
                lemma_full_distinct_covers(o, n);
                assert forall|v: usize| v < n implies order.contains(v) by {
                    assert(o.contains(v));
                }
                let t = order;
                lemma_distinct_bounded(o, (usize::MAX + 1) as nat);
                // order lists every index below n, so it is at least that long
                lemma_covering_is_long(t, n);
            }
        }
    }
}

proof fn lemma_covering_is_long(s: Seq<usize>, n: nat)
    requires
        n <= usize::MAX + 1,
        forall|v: usize| v < n ==> s.contains(v),
    ensures
        s.len() >= n,
{
    let m = s.map_values(|x: usize| x as int);
    assert(vstd::set_lib::set_int_range(0, n as int).subset_of(m.to_set())) by {
        assert forall|x: int| vstd::set_lib::set_int_range(0, n as int).contains(x) implies m.to_set().contains(x) by {
            assert(s.contains(x as usize));
            let q = choose|q: int| 0 <= q < s.len() && s[q] == x as usize;
            assert(m[q] == x);
        }
    }
    vstd::set_lib::lemma_int_range(0, n as int);
    m.lemma_cardinality_of_set();
    vstd::set_lib::lemma_len_subset(vstd::set_lib::set_int_range(0, n as int), m.to_set());
}

proof fn lemma_order_prefix_in(deps: Seq<Seq<usize>>, order: Seq<usize>, o: Seq<usize>, q: int)
    requires
        well_indexed(deps),
        rest_is_stuck(deps, order),
        runs_in_order(deps, o),
        0 <= q < o.len(),
    ensures
        order.contains(o[q]),
    decreases q,
{
    let x = o[q];
    if !order.contains(x) {
        let k = choose|k: int| 0 <= k < deps[x as int].len() && !order.contains(#[trigger] deps[x as int][k]);
        let d = deps[x as int][k];
        assert(o.take(q).contains(d));
        let p = choose|p: int| 0 <= p < q && o.take(q)[p] == d;
        assert(o[p] == d);
        lemma_order_prefix_in(deps, order, o, p);
    }
}

/// From a task left out of the run order, a dependency walk of any length
/// stays among the tasks left out.
proof fn lemma_stuck_walk(deps: Seq<Seq<usize>>, order: Seq<usize>, v: usize, m: nat) -> (p: Seq<
    usize,
>)
    requires
        well_indexed(deps),
        rest_is_stuck(deps, order),
        v < deps.len(),
        !order.contains(v),
        m >= 1,
    ensures
        p.len() == m,
        p[0] == v,
        dependency_walk(deps, p),
        forall|i: int| 0 <= i < p.len() ==> !order.contains(#[trigger] p[i]),
    decreases m,
{
    if m == 1 {
        let p = seq![v];
        p
    } else {
        let k = choose|k: int| 0 <= k < deps[v as int].len() && !order.contains(#[trigger] deps[v as int][k]);
        let d = deps[v as int][k];
        let tail = lemma_stuck_walk(deps, order, d, (m - 1) as nat);
        let p = seq![v] + tail;
        assert(p[0] == v);
        assert forall|i: int| 0 <= i < p.len() - 1 implies #[trigger] deps[p[i] as int].contains(p[i + 1]) by {
            if i == 0 {
                assert(p[1] == tail[0]);
                assert(deps[v as int][k] == d);
                assert(deps[v as int].contains(d));
            } else {
                assert(p[i] == tail[i - 1]);
                assert(p[i + 1] == tail[i]);
                assert(deps[tail[i - 1] as int].contains(tail[(i - 1) + 1]));
            }
        }
        assert forall|i: int| 0 <= i < p.len() implies !order.contains(#[trigger] p[i]) && p[i] < deps.len() by {
            if i > 0 {
                assert(p[i] == tail[i - 1]);
            }
        }
        p
    }
}

/// A dependency walk from the task at position `q` of a run order has at
/// most `q + 1` steps.
proof fn lemma_walk_from_ordered(deps: Seq<Seq<usize>>, order: Seq<usize>, q: int, p: Seq<usize>)
    requires
        runs_in_order(deps, order),
        0 <= q < order.len(),
        dependency_walk(deps, p),
        p[0] == order[q],
    ensures
        p.len() <= q + 1,
    decreases q,
{
    if p.len() > 1 {
        let d = p[1];
        assert(deps[p[0] as int].contains(p[1]));
        assert(deps[order[q] as int].contains(d));
        let k = choose|k: int| 0 <= k < deps[order[q] as int].len() && deps[order[q] as int][k] == d;
        assert(order.take(q).contains(deps[order[q] as int][k]));
        let q2 = choose|q2: int| 0 <= q2 < q && order.take(q)[q2] == d;
        assert(order[q2] == d);
        let tail = p.drop_first();
        assert forall|i: int| 0 <= i < tail.len() - 1 implies #[trigger] deps[tail[i] as int].contains(tail[i + 1]) by {
            assert(tail[i] == p[i + 1]);
            assert(tail[i + 1] == p[i + 2]);
            assert(deps[p[i + 1] as int].contains(p[(i + 1) + 1]));
        }
        assert forall|i: int| 0 <= i < tail.len() implies (#[trigger] tail[i]) < deps.len() by {
            assert(tail[i] == p[i + 1]);
        }
        lemma_walk_from_ordered(deps, order, q2, tail);
    }
}

/// The tasks Kahn's algorithm leaves out are exactly the tasks that wait on
/// a cycle.
pub proof fn lemma_left_out_iff_waits(deps: Seq<Seq<usize>>, order: Seq<usize>, v: usize)
    requires
        well_indexed(deps),
        runs_in_order(deps, order),
        rest_is_stuck(deps, order),
        v < deps.len(),
    ensures
        !order.contains(v) <==> waits_on_cycle(deps, v),
{
    if !order.contains(v) {
        let p = lemma_stuck_walk(deps, order, v, (deps.len() + 1) as nat);
        assert(dependency_walk(deps, p));
    } else {
        if waits_on_cycle(deps, v) {
            let p = choose|p: Seq<usize>|
                #![trigger dependency_walk(deps, p)]
                p.len() == deps.len() + 1 && p[0] == v && dependency_walk(deps, p);
            let q = choose|q: int| 0 <= q < order.len() && order[q] == v;
            lemma_walk_from_ordered(deps, order, q, p);
            lemma_distinct_bounded(order, deps.len());
        }
    }
}

/// For every task, the tasks that depend on it: task `w` appears in row `u`
/// once for each time `u` occurs among the dependencies of `w`.
fn dependents(deps: &Vec<Vec<usize>>) -> (succ: Vec<Vec<usize>>)
    requires
        well_indexed(deps@.map_values(|r: Vec<usize>| r@)),
    ensures
        succ.len() == deps.len(),
        forall|u: int, q: int|
            0 <= u < succ.len() && 0 <= q < succ[u].len() ==> (#[trigger] succ[u][q]) < deps.len(),
        forall|u: usize, w: usize|
            #![trigger count_of(succ[u as int]@, w)]
            u < deps.len() && w < deps.len() ==> count_of(succ[u as int]@, w) == count_of(
                deps[w as int]@,
                u,
            ),
{
    let n = deps.len();
    let ghost dv = deps@.map_values(|r: Vec<usize>| r@);
    let mut succ: Vec<Vec<usize>> = Vec::new();
    let mut i: usize = 0;
    while i < n
        invariant
            n == deps.len(),
            i <= n,
            succ.len() == i,
            forall|u: int| 0 <= u < i ==> (#[trigger] succ[u]).len() == 0,
        decreases n - i,
    {
        succ.push(Vec::new());
        i = i + 1;
    }
    let mut v: usize = 0;
    while v < n
        invariant
            n == deps.len(),
            dv == deps@.map_values(|r: Vec<usize>| r@),
            well_indexed(dv),
            v <= n,
            succ.len() == n,
            forall|u: int, q: int|
                0 <= u < n && 0 <= q < succ[u].len() ==> (#[trigger] succ[u][q]) < n,
            forall|u: usize, w: usize|
                #![trigger count_of(succ[u as int]@, w)]
                u < n && w < n ==> count_of(succ[u as int]@, w) == if w < v {
                    count_of(deps[w as int]@, u)
                } else {
                    0
                },
        decreases n - v,
    {
        let row = &deps[v];
        let mut k: usize = 0;
        while k < row.len()
            invariant
                n == deps.len(),
                dv == deps@.map_values(|r: Vec<usize>| r@),
                well_indexed(dv),
                v < n,
                row == &deps[v as int],
                k <= row.len(),
                succ.len() == n,
                forall|u: int, q: int|
                    0 <= u < n && 0 <= q < succ[u].len() ==> (#[trigger] succ[u][q]) < n,
                forall|u: usize, w: usize|
                    #![trigger count_of(succ[u as int]@, w)]
                    u < n && w < n ==> count_of(succ[u as int]@, w) == if w < v {
                        count_of(deps[w as int]@, u)
                    } else if w == v {
                        count_of(row@.take(k as int), u)
                    } else {
                        0
                    },
            decreases row.len() - k,
        {
            let d = row[k];
            assert(dv[v as int][k as int] == d);
            let mut r = succ[d].clone();
            proof {
                assert(r@ =~= succ[d as int]@);
            }
            r.push(v);
            let ghost old_succ = succ@;
            succ.set(d, r);
            proof {
                assert(row@.take(k + 1).drop_last() =~= row@.take(k as int));
                assert forall|u: usize, w: usize|
                    #![trigger count_of(succ[u as int]@, w)]
                    u < n && w < n implies count_of(succ[u as int]@, w) == if w < v {
                    count_of(deps[w as int]@, u)
                } else if w == v {
                    count_of(row@.take(k + 1), u)
                } else {
                    0
                } by {
                    if u == d {
                        lemma_count_push(old_succ[d as int]@, v, w);
                    } else {
                        assert(succ[u as int] == old_succ[u as int]);
                    }
                }
            }
            k = k + 1;
        }
        proof {
            assert(row@.take(row.len() as int) =~= row@);
        }
        v = v + 1;
    }
    succ
}

/// Kahn's algorithm. Returns the tasks in the order they can run: a queue
/// seeded with the tasks that have no dependencies, each popped task lowering
/// the in-degree of its dependents and queuing those that reach zero. When
/// the queue runs dry, the tasks left out are exactly those that wait,
/// directly or not, on a cycle.
pub fn run_order(deps: &Vec<Vec<usize>>) -> (order: Vec<usize>)
    requires
        well_indexed(deps@.map_values(|r: Vec<usize>| r@)),
    ensures
        runs_in_order(deps@.map_values(|r: Vec<usize>| r@), order@),
        rest_is_stuck(deps@.map_values(|r: Vec<usize>| r@), order@),
{
    let n = deps.len();
    let ghost dv = deps@.map_values(|r: Vec<usize>| r@);
    let succ = dependents(deps);
    let mut indeg: Vec<usize> = Vec::new();
    let mut i: usize = 0;
    while i < n
        invariant
            n == deps.len(),
            dv == deps@.map_values(|r: Vec<usize>| r@),
            i <= n,
            indeg.len() == i,
            forall|v: int| 0 <= v < i ==> #[trigger] indeg[v] == pending(dv[v], Seq::empty()),
        decreases n - i,
    {
        proof {
            lemma_pending_empty(dv[i as int]);
        }
        indeg.push(deps[i].len());
        i = i + 1;
    }
    let mut queue: Vec<usize> = Vec::new();
    let mut v: usize = 0;
    while v < n
        invariant
            n == deps.len(),
            dv == deps@.map_values(|r: Vec<usize>| r@),
            v <= n,
            indeg.len() == n,
            forall|w: int| 0 <= w < n ==> #[trigger] indeg[w] == pending(dv[w], Seq::empty()),
            queue@.no_duplicates(),
            forall|q: int| 0 <= q < queue.len() ==> (#[trigger] queue[q]) < v,
            forall|w: usize| w < v ==> (queue@.contains(w) <==> indeg[w as int] == 0),
        decreases n - v,
    {
        let ghost old_q = queue@;
        if indeg[v] == 0 {
            proof {
                assert(!queue@.contains(v));
            }
            queue.push(v);
        }
        proof {
            assert forall|w: usize| w < v + 1 implies (queue@.contains(w) <==> indeg[w as int]
                == 0) by {
                if queue@.contains(w) {
                    let q = choose|q: int| 0 <= q < queue.len() && queue[q] == w;
                    if q < old_q.len() {
                        assert(old_q[q] == w);
                    }
                }
                if w < v && old_q.contains(w) {
                    let q = choose|q: int| 0 <= q < old_q.len() && old_q[q] == w;
                    assert(queue@[q] == w);
                }
                if w == v && indeg[v as int] == 0 {
                    assert(queue@[queue.len() - 1] == v);
                }
            }
        }
        v = v + 1;
    }
    proof {
        assert(queue@.take(0) =~= Seq::<usize>::empty());
    }
    let mut head: usize = 0;
    while head < queue.len()
        invariant
            n == deps.len(),
            dv == deps@.map_values(|r: Vec<usize>| r@),
            well_indexed(dv),
            succ.len() == n,
            forall|u: int, q: int|
                0 <= u < n && 0 <= q < succ[u].len() ==> (#[trigger] succ[u][q]) < n,
            forall|u: usize, w: usize|
                #![trigger count_of(succ[u as int]@, w)]
                u < n && w < n ==> count_of(succ[u as int]@, w) == count_of(dv[w as int], u),
            indeg.len() == n,
            head <= queue.len(),
            queue@.no_duplicates(),
            forall|q: int| 0 <= q < queue.len() ==> (#[trigger] queue[q]) < n,
            forall|w: usize| w < n ==> (queue@.contains(w) <==> indeg[w as int] == 0),
            forall|w: int| 0 <= w < n ==> #[trigger] indeg[w] == pending(dv[w], queue@.take(head as int)),
            forall|q: int, k: int|
                0 <= q < head && 0 <= k < dv[queue[q] as int].len() ==> queue@.take(q).contains(
                    #[trigger] dv[queue[q] as int][k],
                ),
        decreases n - head,
    {
        proof {
            lemma_distinct_bounded(queue@, n as nat);
        }
        let u = queue[head];
        let ghost done_old = queue@.take(head as int);
        proof {
            assert(!done_old.contains(u)) by {
                if done_old.contains(u) {
                    let q = choose|q: int| 0 <= q < done_old.len() && done_old[q] == u;
                    assert(queue[q] == queue[head as int]);
                }
            }
            assert(queue@.contains(u));
            lemma_pending_zero(dv[u as int], done_old);
        }
        let ghost queue_at_pop = queue@;
        assert(forall|q: int, k: int|
            0 <= q < head && 0 <= k < dv[queue_at_pop[q] as int].len() ==> queue_at_pop.take(
                q,
            ).contains(#[trigger] dv[queue_at_pop[q] as int][k]));
        head = head + 1;
        let ghost done_new = queue@.take(head as int);
        proof {
            assert(done_new =~= done_old.push(u));
        }
        let row = &succ[u];
        let mut j: usize = 0;
        while j < row.len()
            invariant
                n == deps.len(),
                dv == deps@.map_values(|r: Vec<usize>| r@),
                well_indexed(dv),
                succ.len() == n,
                forall|uu: int, q: int|
                    0 <= uu < n && 0 <= q < succ[uu].len() ==> (#[trigger] succ[uu][q]) < n,
                forall|uu: usize, w: usize|
                    #![trigger count_of(succ[uu as int]@, w)]
                    uu < n && w < n ==> count_of(succ[uu as int]@, w) == count_of(
                        dv[w as int],
                        uu,
                    ),
                u < n,
                row == &succ[u as int],
                j <= row.len(),
                !done_old.contains(u),
                indeg.len() == n,
                1 <= head <= queue.len(),
                done_old == queue@.take(head - 1),
                done_new == queue@.take(head as int),
                done_new =~= done_old.push(u),
                queue_at_pop.len() <= queue.len(),
                queue_at_pop[head - 1] == u,
                forall|q: int| 0 <= q < queue_at_pop.len() ==> queue[q] == queue_at_pop[q],
                forall|q: int, k: int|
                    0 <= q < head - 1 && 0 <= k < dv[queue_at_pop[q] as int].len()
                        ==> queue_at_pop.take(q).contains(#[trigger] dv[queue_at_pop[q] as int][k]),
                queue@.no_duplicates(),
                forall|q: int| 0 <= q < queue.len() ==> (#[trigger] queue[q]) < n,
                forall|w: usize| w < n ==> (queue@.contains(w) <==> indeg[w as int] == 0),
                forall|w: int|
                    0 <= w < n ==> #[trigger] indeg[w] + count_of(row@.take(j as int), w as usize)
                        == pending(dv[w], done_old),
            decreases row.len() - j,
        {
            let w = row[j];
            proof {
                lemma_pending_at_least_count(dv[w as int], done_old, u);
                lemma_count_prefix(row@, j + 1, w);
                assert(row@.take(j + 1).drop_last() =~= row@.take(j as int));
            }
            let ghost before = indeg@;
            let ghost old_q = queue@;
            assert(before[w as int] > 0);
            indeg.set(w, indeg[w] - 1);
            if indeg[w] == 0 {
                proof {
                    assert(!queue@.contains(w));
                }
                queue.push(w);
            }
            proof {
                assert forall|x: usize| x < n implies (queue@.contains(x) <==> indeg[x as int]
                    == 0) by {
                    if queue@.contains(x) {
                        let q = choose|q: int| 0 <= q < queue.len() && queue[q] == x;
                        if q < old_q.len() {
                            assert(old_q[q] == x);
                        }
                    }
                    if old_q.contains(x) {
                        let q = choose|q: int| 0 <= q < old_q.len() && old_q[q] == x;
                        assert(queue@[q] == x);
                    }
                    if x == w && indeg[w as int] == 0 {
                        assert(queue@[queue.len() - 1] == w);
                    }
                }
                assert(queue@.take(head as int) =~= done_new);
                assert(queue@.take(head - 1) =~= done_old);
            }
            j = j + 1;
        }
        proof {
            assert(row@.take(row.len() as int) =~= row@);
            assert forall|w: int| 0 <= w < n implies #[trigger] indeg[w] == pending(
                dv[w],
                queue@.take(head as int),
            ) by {
                lemma_pending_insert(dv[w], done_old, u);
            }
            assert forall|q: int, k: int|
                0 <= q < head && 0 <= k < dv[queue[q] as int].len() implies queue@.take(
                q,
            ).contains(#[trigger] dv[queue[q] as int][k]) by {
                assert(queue[q] == queue_at_pop[q]);
                assert(queue@.take(q) =~= queue_at_pop.take(q));
                if q == head - 1 {
                    assert(queue@.take(q) =~= done_old);
                }
            }
        }
    }
    proof {
        assert(queue@.take(head as int) =~= queue@);
        assert forall|w: usize| w < n && !queue@.contains(w) implies exists|k: int|
            0 <= k < dv[w as int].len() && !queue@.contains(#[trigger] dv[w as int][k]) by {
            lemma_pending_positive(dv[w as int], queue@);
        }
    }
    queue
}

} // verus!
