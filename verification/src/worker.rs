//! The worker side: which assignments a worker runs, whether it still takes
//! new ones, what it tells the coordinator, and how it reads the
//! coordinator's directives. Running processes, the clock and the system
//! load are the caller's.

use vstd::prelude::*;
use std::collections::HashMap;
use crate::clock::now_millis;
use crate::distributed::WorkerConfig;
use crate::proto_types::{
    CoordinatorDirective, RegisterRequest, TaskAssignment, TaskOutcome, TaskResult, TaskSpec,
    TaskType, WorkerHeartbeat, WorkerState,
};
use crate::task_output::{python_command, shell_quote_body};
use crate::text::{decimal, digit_char, owned, push_decimal, push_str, str_eq, string_of, views};
use vstd::utf8::{decode_utf8, encode_utf8, is_char_boundary};
use vstd::string::StringSliceAdditionalSpecFns;
use crate::worker_pool::{
    assign_pairs, assignment_ids_distinct, assignment_pos, complete_pairs, has_assignment,
    lemma_assignment_pos, lemma_pair_push_keeps_ids, lemma_pair_remove_keeps_ids,
    lemma_pair_update_keeps_ids, pair_models,
};

verus! {

/// A worker over plain values: its configuration, its running assignments
/// (assignment id, task id) in the order they arrived, and its state.
pub struct WorkerView {
    pub config: WorkerConfig,
    pub running: Seq<(Seq<char>, Seq<char>)>,
    pub state: WorkerState,
}

/// A worker's bookkeeping.
pub struct Worker {
    config: WorkerConfig,
    running: Vec<(String, String)>,
    state: WorkerState,
}

/// What a worker does on a directive from the coordinator.
#[derive(Debug, Clone, PartialEq, Eq)]
pub enum DirectiveAction {
    /// Cancel this running assignment.
    Cancel(String),
    /// Stop taking tasks, and wait this many seconds for the running ones.
    Drain(u32),
    /// Nothing to do.
    Nothing,
}

/// The report on an assignment a worker did not run to the end.
pub open spec fn is_unfinished_report(
    r: TaskResult,
    a: TaskAssignment,
    worker_id: Seq<char>,
    duration_ms: u64,
    error: Seq<char>,
) -> bool {
    &&& r.assignment_id == a.assignment_id
    &&& r.worker_id@ == worker_id
    &&& r.dag_id == a.dag_id
    &&& r.run_id == a.run_id
    &&& r.task_id == a.task_id
    &&& r.attempt == a.attempt
    &&& r.outcome == TaskOutcome::Failed
    &&& r.exit_code == -1
    &&& r.duration_ms == duration_ms
    &&& r.xcom_json@ == Seq::<char>::empty()
    &&& r.error@ == error
    &&& r.metrics@ == Map::<String, String>::empty()
}

/// The report on an assignment a worker could not run or had cancelled.
pub fn unfinished_result(a: &TaskAssignment, worker_id: &str, duration_ms: u64, error: &str) -> (r: TaskResult)
    ensures
        is_unfinished_report(r, *a, worker_id@, duration_ms, error@),
{
    TaskResult {
        assignment_id: a.assignment_id.clone(),
        worker_id: owned(worker_id),
        dag_id: a.dag_id.clone(),
        run_id: a.run_id.clone(),
        task_id: a.task_id.clone(),
        attempt: a.attempt,
        outcome: TaskOutcome::Failed,
        exit_code: -1,
        duration_ms,
        xcom_json: String::new(),
        error: owned(error),
        metrics: HashMap::new(),
    }
}

/// The report on an assignment the coordinator cancelled after
/// `duration_ms`.
pub fn cancelled_result(a: &TaskAssignment, worker_id: &str, duration_ms: u64) -> (r: TaskResult)
    ensures
        is_unfinished_report(r, *a, worker_id@, duration_ms, "Task cancelled by coordinator"@),
{
    unfinished_result(a, worker_id, duration_ms, "Task cancelled by coordinator")
}

/// What a worker does on a directive.
pub fn directive_action(d: &CoordinatorDirective) -> (r: DirectiveAction)
    ensures
        match *d {
            CoordinatorDirective::CancelTask { assignment_id, .. } => r matches DirectiveAction::Cancel(a)
                && a@ == assignment_id@,
            CoordinatorDirective::Drain { grace_period_secs, .. } => r == DirectiveAction::Drain(
                grace_period_secs,
            ),
            CoordinatorDirective::HeartbeatAck { .. } => r == DirectiveAction::Nothing,
        },
{
    match d {
        CoordinatorDirective::CancelTask { assignment_id, .. } => DirectiveAction::Cancel(assignment_id.clone()),
        CoordinatorDirective::Drain { grace_period_secs, .. } => DirectiveAction::Drain(*grace_period_secs),
        CoordinatorDirective::HeartbeatAck { .. } => DirectiveAction::Nothing,
    }
}

/// The texts joined with single spaces.
pub open spec fn spaced(s: Seq<Seq<char>>) -> Seq<char>
    decreases s.len(),
{
    if s.len() == 0 {
        Seq::empty()
    } else if s.len() == 1 {
        s[0]
    } else {
        spaced(s.drop_last()) + " "@ + s.last()
    }
}

/// The shell script a worker runs for a task: a bash task's script, a
/// Python task's script through `python3 -c`, an executable's command and
/// arguments. SQL tasks run no script (`None`); any other type is refused
/// with the message given.
pub open spec fn script_for(spec: TaskSpec) -> Result<Option<Seq<char>>, Seq<char>> {
    match spec.task_type {
        TaskType::Bash => Ok(Some(spec.script@)),
        TaskType::Python => Ok(Some("python3 -c '"@ + shell_quote_body(spec.script@) + "'"@)),
        TaskType::Executable => Ok(Some(
            if spec.args@.len() == 0 {
                spec.command@
            } else {
                spec.command@ + " "@ + spaced(views(spec.args@))
            },
        )),
        TaskType::Sql => Ok(None),
        TaskType::Sensor => Err("Unsupported task type: Sensor"@),
        TaskType::Unspecified => Err("Unsupported task type: Unspecified"@),
    }
}

/// The lower-case hexadecimal digit of `n` (below 16).
pub open spec fn hex_digit(n: nat) -> char {
    if n < 10 {
        digit_char(n)
    } else if n == 10 {
        'a'
    } else if n == 11 {
        'b'
    } else if n == 12 {
        'c'
    } else if n == 13 {
        'd'
    } else if n == 14 {
        'e'
    } else {
        'f'
    }
}

/// How `serde_json` writes one character inside a JSON string: `"` and `\`
/// after a backslash; backspace, tab, line feed, form feed and carriage
/// return as `\b`, `\t`, `\n`, `\f`, `\r`; the other characters below
/// U+0020 as `\u00` and two lower-case hexadecimal digits; every other
/// character as it is.
pub open spec fn json_char(c: char) -> Seq<char> {
    let n = c as u32;
    if c == '"' {
        seq!['\\', '"']
    } else if c == '\\' {
        seq!['\\', '\\']
    } else if n == 8 {
        seq!['\\', 'b']
    } else if n == 9 {
        seq!['\\', 't']
    } else if n == 10 {
        seq!['\\', 'n']
    } else if n == 12 {
        seq!['\\', 'f']
    } else if n == 13 {
        seq!['\\', 'r']
    } else if n < 32 {
        seq!['\\', 'u', '0', '0', hex_digit((n / 16) as nat), hex_digit((n % 16) as nat)]
    } else {
        seq![c]
    }
}

/// The characters of a text as `serde_json` writes them inside a string.
pub open spec fn json_escaped(s: Seq<char>) -> Seq<char>
    decreases s.len(),
{
    if s.len() == 0 {
        Seq::<char>::empty()
    } else {
        json_escaped(s.drop_last()) + json_char(s.last())
    }
}

/// What `serde_json` writes for a JSON string that holds the text: the
/// escaped text between double quotes.
pub open spec fn json_string(s: Seq<char>) -> Seq<char> {
    seq!['"'] + json_escaped(s) + seq!['"']
}

/// `serde_json::to_string` of a `str`: the JSON string literal of the text
/// (`format_escaped_str` with its escape table, see `json_char`).
/// Serialising a `str` into memory does not fail (the serializer only
/// escapes characters and writes them to a `Vec<u8>`), so the `Err` arm is
/// never taken.
#[verifier::external_body]
fn json_quote(s: &str) -> (r: String)
    ensures
        r@ == json_string(s@),
{
    match serde_json::to_string(s) {
        Ok(t) => t,
        Err(_) => String::new(),
    }
}

/// The text spelt by the first `n` bytes of the UTF-8 encoding of `s` (all
/// of it when it is shorter).
pub open spec fn byte_prefix(s: Seq<char>, n: nat) -> Seq<char> {
    let b = encode_utf8(s);
    decode_utf8(b.subrange(0, if n < b.len() { n as int } else { b.len() as int }))
}

/// The first `n` bytes of the UTF-8 encoding of `s` (all of it when it is
/// shorter) end on a character boundary.
pub open spec fn cut_on_boundary(s: Seq<char>, n: nat) -> bool {
    let b = encode_utf8(s);
    is_char_boundary(b, if n < b.len() { n as int } else { b.len() as int })
}

/// The XCom of a SQL task: a JSON object with its connection and the
/// opening of its query.
pub open spec fn sql_xcom(connection: Seq<char>, preview: Seq<char>) -> Seq<char> {
    "{\"connection\":"@ + json_string(connection) + ",\"query_preview\":"@ + json_string(preview) + "}"@
}

/// The first `n` bytes of a text (all of it when it is shorter), which
/// must end on a character boundary.
fn first_bytes(s: &str, n: usize) -> (r: &str)
    requires
        encode_utf8(s@).len() <= usize::MAX,
        cut_on_boundary(s@, n as nat),
    ensures
        r@ == byte_prefix(s@, n as nat),
{
    let len = s.len();
    assert(len == s.spec_bytes().len());
    assert(s.spec_bytes() == encode_utf8(s@));
    let m = if n < len { n } else { len };
    let (head, _tail) = s.split_at(m);
    proof {
        vstd::utf8::encode_utf8_decode_utf8(head@);
        assert(head.spec_bytes() == encode_utf8(head@));
    }
    head
}

/// What a SQL task reports on a worker, which runs no query itself: the
/// XCom (the connection and the first 200 bytes of the query) and the log
/// line (the connection and the first 100 bytes of the query). The query is
/// cut at those bytes, which must end on character boundaries; its UTF-8
/// length fits in a `usize`, as that of any text in memory does.
pub fn sql_report(spec: &TaskSpec) -> (r: (String, String))
    requires
        encode_utf8(spec.query@).len() <= usize::MAX,
        cut_on_boundary(spec.query@, 100),
        cut_on_boundary(spec.query@, 200),
    ensures
        r.0@ == sql_xcom(spec.connection@, byte_prefix(spec.query@, 200)),
        r.1@ == "SQL task on connection '"@ + spec.connection@ + "': "@ + byte_prefix(spec.query@, 100),
{
    let preview = first_bytes(spec.query.as_str(), 200);
    let mut x: Vec<char> = Vec::new();
    push_str(&mut x, "{\"connection\":");
    push_str(&mut x, json_quote(spec.connection.as_str()).as_str());
    push_str(&mut x, ",\"query_preview\":");
    push_str(&mut x, json_quote(preview).as_str());
    push_str(&mut x, "}");
    let mut l: Vec<char> = Vec::new();
    push_str(&mut l, "SQL task on connection '");
    push_str(&mut l, spec.connection.as_str());
    push_str(&mut l, "': ");
    push_str(&mut l, first_bytes(spec.query.as_str(), 100));
    (string_of(x.as_slice()), string_of(l.as_slice()))
}

/// The name a task outcome is printed with.
pub open spec fn outcome_name(o: TaskOutcome) -> Seq<char> {
    match o {
        TaskOutcome::Unspecified => "Unspecified"@,
        TaskOutcome::Success => "Success"@,
        TaskOutcome::Failed => "Failed"@,
        TaskOutcome::Retry => "Retry"@,
        TaskOutcome::Skipped => "Skipped"@,
    }
}

/// The log line a worker sends when it starts an assignment.
pub fn starting_message(assignment: &TaskAssignment) -> (m: String)
    ensures
        m@ == "Starting task "@ + assignment.task_id@ + " (attempt "@ + decimal(assignment.attempt as nat) + ")"@,
{
    let mut v: Vec<char> = Vec::new();
    push_str(&mut v, "Starting task ");
    push_str(&mut v, assignment.task_id.as_str());
    push_str(&mut v, " (attempt ");
    push_decimal(&mut v, assignment.attempt as u64);
    push_str(&mut v, ")");
    string_of(v.as_slice())
}

/// The log line a worker sends when an assignment ends, and its level:
/// `Info` for a success, `Error` for any other outcome.
pub fn completion_message(assignment: &TaskAssignment, outcome: TaskOutcome, duration_ms: u64) -> (r: (
    crate::proto_types::LogLevel,
    String,
))
    ensures
        r.0 == (if outcome == TaskOutcome::Success {
            crate::proto_types::LogLevel::Info
        } else {
            crate::proto_types::LogLevel::Error
        }),
        r.1@ == "Task "@ + assignment.task_id@ + " completed: "@ + outcome_name(outcome) + " ("@ + decimal(
            duration_ms as nat,
        ) + "ms)"@,
{
    let mut v: Vec<char> = Vec::new();
    push_str(&mut v, "Task ");
    push_str(&mut v, assignment.task_id.as_str());
    push_str(&mut v, " completed: ");
    let name = match outcome {
        TaskOutcome::Unspecified => "Unspecified",
        TaskOutcome::Success => "Success",
        TaskOutcome::Failed => "Failed",
        TaskOutcome::Retry => "Retry",
        TaskOutcome::Skipped => "Skipped",
    };
    push_str(&mut v, name);
    push_str(&mut v, " (");
    push_decimal(&mut v, duration_ms);
    push_str(&mut v, "ms)");
    let level = match outcome {
        TaskOutcome::Success => crate::proto_types::LogLevel::Info,
        _ => crate::proto_types::LogLevel::Error,
    };
    (level, string_of(v.as_slice()))
}

/// A worker's report on an assignment: the assignment's ids and attempt,
/// with how the run went.
pub fn task_result(
    assignment: &TaskAssignment,
    worker_id: &str,
    outcome: TaskOutcome,
    exit_code: i32,
    duration_ms: u64,
    xcom_json: String,
    error: String,
    metrics: HashMap<String, String>,
) -> (r: TaskResult)
    ensures
        r.assignment_id@ == assignment.assignment_id@,
        r.worker_id@ == worker_id@,
        r.dag_id@ == assignment.dag_id@,
        r.run_id@ == assignment.run_id@,
        r.task_id@ == assignment.task_id@,
        r.attempt == assignment.attempt,
        r.outcome == outcome,
        r.exit_code == exit_code,
        r.duration_ms == duration_ms,
        r.xcom_json == xcom_json,
        r.error == error,
        r.metrics == metrics,
{
    TaskResult {
        assignment_id: assignment.assignment_id.clone(),
        worker_id: owned(worker_id),
        dag_id: assignment.dag_id.clone(),
        run_id: assignment.run_id.clone(),
        task_id: assignment.task_id.clone(),
        attempt: assignment.attempt,
        outcome,
        exit_code,
        duration_ms,
        xcom_json,
        error,
        metrics,
    }
}

/// The shell script for a task (see `script_for`).
pub fn task_script(spec: &TaskSpec) -> (r: Result<Option<String>, String>)
    ensures
        match script_for(*spec) {
            Ok(Some(s)) => r matches Ok(Some(t)) && t@ == s,
            Ok(None) => r matches Ok(None),
            Err(m) => r matches Err(e) && e@ == m,
        },
{
    match spec.task_type {
        TaskType::Bash => Ok(Some(spec.script.clone())),
        TaskType::Python => Ok(Some(python_command(spec.script.as_str()))),
        TaskType::Executable => {
            let mut out: Vec<char> = Vec::new();
            push_str(&mut out, spec.command.as_str());
            let ghost head = out@;
            let ghost a = views(spec.args@);
            let mut i: usize = 0;
            while i < spec.args.len()
                invariant
                    a == views(spec.args@),
                    head == spec.command@,
                    i <= a.len(),
                    out@ == if i == 0 { head } else { head + " "@ + spaced(a.take(i as int)) },
                decreases spec.args.len() - i,
            {
                let ghost before = out@;
                push_str(&mut out, " ");
                push_str(&mut out, spec.args[i].as_str());
                proof {
                    let t = a.take(i + 1);
                    assert(t.drop_last() =~= a.take(i as int));
                    assert(t.last() == spec.args@[i as int]@);
                    if i == 0 {
                        assert(t.len() == 1);
                        assert(spaced(t) == t[0]);
                        assert(out@ =~= head + " "@ + spaced(t));
                    } else {
                        assert(out@ =~= head + " "@ + spaced(t));
                    }
                }
                i = i + 1;
            }
            assert(a.take(i as int) =~= a);
            Ok(Some(string_of(out.as_slice())))
        },
        TaskType::Sql => Ok(None),
        TaskType::Sensor => Err(owned("Unsupported task type: Sensor")),
        TaskType::Unspecified => Err(owned("Unsupported task type: Unspecified")),
    }
}

impl View for Worker {
    type V = WorkerView;

    closed spec fn view(&self) -> WorkerView {
        WorkerView { config: self.config, running: pair_models(self.running@), state: self.state }
    }
}

impl Worker {
    #[verifier::type_invariant]
    spec fn keyed(self) -> bool {
        assignment_ids_distinct(pair_models(self.running@))
    }

    /// A worker with nothing running, taking tasks.
    pub fn new(config: WorkerConfig) -> (w: Self)
        ensures
            w@.config == config,
            w@.running.len() == 0,
            w@.state == WorkerState::Active,
    {
        let w = Worker { config, running: Vec::new(), state: WorkerState::Active };
        assert(pair_models(w.running@) =~= Seq::<(Seq<char>, Seq<char>)>::empty());
        w
    }

    /// The worker's id.
    pub fn id(&self) -> (r: &str)
        ensures
            r@ == self@.config.worker_id@,
    {
        self.config.worker_id.as_str()
    }

    /// Whether it takes tasks (`Active`) or only finishes its own
    /// (`Draining`).
    pub fn state(&self) -> (s: WorkerState)
        ensures
            s == self@.state,
    {
        self.state
    }

    /// Assignments running.
    pub fn running_count(&self) -> (n: usize)
        ensures
            n == self@.running.len(),
    {
        self.running.len()
    }

    /// The registration it sends, for a host named `hostname` and a worker
    /// at `version`.
    pub fn registration(&self, hostname: &str, version: &str) -> (r: RegisterRequest)
        ensures
            r.worker_id == self@.config.worker_id,
            r.hostname@ == hostname@,
            r.capacity == self@.config.capacity,
            r.pool_affinity@ == self@.config.pool_affinity@,
            r.labels@ == self@.config.labels@,
            r.version@ == version@,
            r.health_port == 0,
    {
        let pools = self.config.pool_affinity.clone();
        assert(pools@ =~= self.config.pool_affinity@);
        RegisterRequest {
            worker_id: self.config.worker_id.clone(),
            hostname: owned(hostname),
            capacity: self.config.capacity,
            pool_affinity: pools,
            labels: self.config.labels.clone(),
            version: owned(version),
            health_port: 0,
        }
    }

    fn find(&self, aid: &str) -> (r: Option<usize>)
        ensures
            match r {
                Some(i) => i < self@.running.len() && has_assignment(self@.running, aid@)
                    && assignment_pos(self@.running, aid@) == i,
                None => !has_assignment(self@.running, aid@),
            },
    {
        proof {
            use_type_invariant(self);
        }
        let ghost a = pair_models(self.running@);
        let mut i: usize = 0;
        while i < self.running.len()
            invariant
                i <= self.running@.len(),
                a == pair_models(self.running@),
                assignment_ids_distinct(a),
                forall|j: int| 0 <= j < i ==> #[trigger] a[j].0 != aid@,
            decreases self.running.len() - i,
        {
            assert(a[i as int].0 == self.running@[i as int].0@);
            if str_eq(self.running[i].0.as_str(), aid) {
                proof {
                    lemma_assignment_pos(a, aid@, i as int);
                }
                return Some(i);
            }
            i = i + 1;
        }
        None
    }

    /// Takes an assignment from the coordinator. A draining worker refuses
    /// it and returns the report to send back; otherwise it counts as
    /// running (replacing one with the same id) and the caller runs it.
    pub fn handle_assignment(&mut self, assignment: &TaskAssignment) -> (r: Option<TaskResult>)
        ensures
            old(self)@.state == WorkerState::Draining ==> (r matches Some(t) && is_unfinished_report(
                t,
                *assignment,
                old(self)@.config.worker_id@,
                0,
                "Worker is draining"@,
            )) && final(self)@ == old(self)@,
            old(self)@.state != WorkerState::Draining ==> r is None && final(self)@ == (WorkerView {
                running: assign_pairs(
                    old(self)@.running,
                    assignment.assignment_id@,
                    assignment.task_id@,
                ),
                ..old(self)@
            }),
    {
        proof {
            use_type_invariant(&*self);
        }
        if self.state == WorkerState::Draining {
            return Some(unfinished_result(assignment, self.config.worker_id.as_str(), 0, "Worker is draining"));
        }
        let ghost a = pair_models(self.running@);
        let found = self.find(assignment.assignment_id.as_str());
        let pair = (assignment.assignment_id.clone(), assignment.task_id.clone());
        let mut all: Vec<(String, String)> = Vec::new();
        std::mem::swap(&mut all, &mut self.running);
        match found {
            Some(i) => {
                all.set(i, pair);
                proof {
                    assert(pair_models(all@) =~= a.update(i as int, (assignment.assignment_id@, assignment.task_id@)));
                    lemma_pair_update_keeps_ids(a, i as int, (assignment.assignment_id@, assignment.task_id@));
                }
            },
            None => {
                all.push(pair);
                proof {
                    assert(pair_models(all@) =~= a.push((assignment.assignment_id@, assignment.task_id@)));
                    lemma_pair_push_keeps_ids(a, (assignment.assignment_id@, assignment.task_id@));
                }
            },
        }
        self.running = all;
        None
    }

    /// An assignment ended (its report is sent); it no longer runs.
    pub fn finish(&mut self, assignment_id: &str)
        ensures
            final(self)@ == (WorkerView {
                running: complete_pairs(old(self)@.running, assignment_id@),
                ..old(self)@
            }),
    {
        proof {
            use_type_invariant(&*self);
        }
        let ghost a = pair_models(self.running@);
        if let Some(i) = self.find(assignment_id) {
            let mut all: Vec<(String, String)> = Vec::new();
            std::mem::swap(&mut all, &mut self.running);
            let _gone = all.remove(i);
            proof {
                assert(pair_models(all@) =~= a.remove(i as int));
                lemma_pair_remove_keeps_ids(a, i as int);
            }
            self.running = all;
        }
    }

    /// Whether a cancellation can reach the assignment: it runs here.
    pub fn cancel_task(&self, assignment_id: &str) -> (b: bool)
        ensures
            b == has_assignment(self@.running, assignment_id@),
    {
        self.find(assignment_id).is_some()
    }

    /// Starts draining: the running assignments finish, new ones are
    /// refused.
    pub fn drain(&mut self)
        ensures
            final(self)@ == (WorkerView { state: WorkerState::Draining, ..old(self)@ }),
    {
        proof {
            use_type_invariant(&*self);
        }
        self.state = WorkerState::Draining;
    }

    /// The heartbeat at time `now_ms`, with the loads measured (in
    /// thousandths of a percent).
    pub fn heartbeat_at(&self, cpu_milli_percent: u64, memory_milli_percent: u64, disk_milli_percent: u64, now_ms: i64) -> (h: WorkerHeartbeat)
        ensures
            h.worker_id == self@.config.worker_id,
            h.active_tasks == self@.running.len() as u32,
            h.cpu_milli_percent == cpu_milli_percent,
            h.memory_milli_percent == memory_milli_percent,
            h.disk_milli_percent == disk_milli_percent,
            views(h.running_assignments@) == self@.running.map_values(|p: (Seq<char>, Seq<char>)| p.0),
            h.timestamp_ms == now_ms,
    {
        let ghost a = pair_models(self.running@);
        let mut ids: Vec<String> = Vec::new();
        let mut i: usize = 0;
        while i < self.running.len()
            invariant
                i <= self.running@.len(),
                a == pair_models(self.running@),
                views(ids@) == a.take(i as int).map_values(|p: (Seq<char>, Seq<char>)| p.0),
            decreases self.running.len() - i,
        {
            let ghost before = views(ids@);
            ids.push(self.running[i].0.clone());
            proof {
                assert(a[i as int].0 == self.running@[i as int].0@);
                assert(a.take(i + 1) =~= a.take(i as int).push(a[i as int]));
                assert(views(ids@) =~= before.push(a[i as int].0));
                assert(views(ids@) =~= a.take(i + 1).map_values(|p: (Seq<char>, Seq<char>)| p.0));
            }
            i = i + 1;
        }
        assert(a.take(i as int) =~= a);
        WorkerHeartbeat {
            worker_id: self.config.worker_id.clone(),
            active_tasks: self.running.len() as u32,
            cpu_milli_percent,
            memory_milli_percent,
            disk_milli_percent,
            running_assignments: ids,
            timestamp_ms: now_ms,
        }
    }

    /// The heartbeat now (see `heartbeat_at`).
    pub fn heartbeat(&self, cpu_milli_percent: u64, memory_milli_percent: u64, disk_milli_percent: u64) -> (h: WorkerHeartbeat)
        ensures
            h.worker_id == self@.config.worker_id,
            h.active_tasks == self@.running.len() as u32,
            h.cpu_milli_percent == cpu_milli_percent,
            h.memory_milli_percent == memory_milli_percent,
            h.disk_milli_percent == disk_milli_percent,
            views(h.running_assignments@) == self@.running.map_values(|p: (Seq<char>, Seq<char>)| p.0),
    {
        let now = now_millis();
        self.heartbeat_at(cpu_milli_percent, memory_milli_percent, disk_milli_percent, now)
    }
}

/// Finishing an assignment undoes taking it: when `aid` was not running,
/// taking it and then finishing it leaves the running assignments as they
/// were.
pub proof fn law_finish_undoes_accept(running: Seq<(Seq<char>, Seq<char>)>, aid: Seq<char>, task_id: Seq<char>)
    requires
        assignment_ids_distinct(running),
        !has_assignment(running, aid),
    ensures
        complete_pairs(assign_pairs(running, aid, task_id), aid) == running,
{
    let taken = running.push((aid, task_id));
    lemma_pair_push_keeps_ids(running, (aid, task_id));
    lemma_assignment_pos(taken, aid, running.len() as int);
    assert(taken.remove(running.len() as int) =~= running);
}

} // verus!
