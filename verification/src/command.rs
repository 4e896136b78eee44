//! The command a task process runs: program, arguments and environment,
//! decided from the task's type and run context.

use vstd::prelude::*;
use crate::dag::TaskType;
use crate::error::ConduitError;
use crate::incremental::Timestamp;
use crate::protocol::{to_uppercase, uppercase};
use crate::text::{
    clone_strings, concat, decimal, join, join_strings, owned, push_decimal, push_str,
    str_eq, string_of, views,
};

verus! {

/// What Rust's `{:?}` formatting writes for a text: the text quoted, with
/// escapes (Unicode printability decides which characters are escaped).
pub uninterp spec fn debug_text(s: Seq<char>) -> Seq<char>;

/// `format!("{:?}", s)` on a string slice. Claimed: the result is
/// `debug_text` of the argument (named, not stated).
#[verifier::external_body]
fn debug_quoted(s: &str) -> (r: String)
    ensures
        r@ == debug_text(s@),
{
    format!("{:?}", s)
}

/// The run context of one task attempt.
#[derive(Debug, Clone)]
pub struct TaskContext {
    pub dag_id: String,
    pub run_id: String,
    pub task_id: String,
    pub attempt: u32,
    pub logical_date: Timestamp,
    pub environment: String,
    /// User parameters, each key once.
    pub params: Vec<(String, String)>,
    /// Further environment variables passed as they are.
    pub extra_env: Vec<(String, String)>,
}

/// A process to start: program, arguments, and environment variables in the
/// order they are set (a later one wins).
#[derive(Debug, Clone)]
pub struct CommandSpec {
    pub program: String,
    pub args: Vec<String>,
    pub env: Vec<(String, String)>,
}

pub open spec fn pairs_of(v: Seq<(String, String)>) -> Seq<(Seq<char>, Seq<char>)> {
    v.map_values(|p: (String, String)| (p.0@, p.1@))
}

/// The parameters as `CONDUIT_PARAM_<KEY>` variables, keys upper-cased.
pub open spec fn param_env(params: Seq<(Seq<char>, Seq<char>)>) -> Seq<(Seq<char>, Seq<char>)> {
    params.map_values(|p: (Seq<char>, Seq<char>)| ("CONDUIT_PARAM_"@ + uppercase(p.0), p.1))
}

/// The variables every task process gets.
pub open spec fn context_env(c: TaskContext, xcom_dir: Seq<char>) -> Seq<(Seq<char>, Seq<char>)> {
    seq![
        ("CONDUIT_DAG_ID"@, c.dag_id@),
        ("CONDUIT_RUN_ID"@, c.run_id@),
        ("CONDUIT_TASK_ID"@, c.task_id@),
        ("CONDUIT_ATTEMPT"@, decimal(c.attempt as nat)),
        ("CONDUIT_LOGICAL_DATE"@, c.logical_date.text()),
        ("CONDUIT_ENVIRONMENT"@, c.environment@),
        ("CONDUIT_XCOM_DIR"@, xcom_dir),
    ] + param_env(pairs_of(c.params@)) + pairs_of(c.extra_env@)
}

/// The first value given for `key`.
pub open spec fn param_value(params: Seq<(Seq<char>, Seq<char>)>, key: Seq<char>) -> Option<Seq<char>>
    decreases params.len(),
{
    if params.len() == 0 {
        None
    } else if params[0].0 == key {
        Some(params[0].1)
    } else {
        param_value(params.drop_first(), key)
    }
}

/// The `PYTHONPATH` a Python task gets: the DAG directory, the working
/// directory, the SDK when found, and the inherited path when set, joined
/// with `:`.
pub open spec fn python_path_text(dag_dir: Seq<char>, sdk: Option<Seq<char>>, existing: Seq<char>) -> Seq<char> {
    let base = seq![dag_dir, "."@];
    let with_sdk = match sdk {
        Some(s) => base.push(s),
        None => base,
    };
    join(if existing.len() > 0 { with_sdk.push(existing) } else { with_sdk }, ":"@)
}

/// Where the Python SDK is found, given what each directory from the start
/// upwards holds: `found[i]` says whether level `i` has the SDK vendored
/// under `.conduit/sdk`, and whether it has it under `sdk/python`. The
/// result is the first of the lowest six levels that has either, with
/// whether the vendored one is taken (it is preferred at the same level).
pub fn sdk_level(found: &Vec<(bool, bool)>) -> (r: Option<(usize, bool)>)
    ensures
        match r {
            Some((i, vendored)) => {
                &&& i < 6
                &&& i < found@.len()
                &&& (found@[i as int].0 || found@[i as int].1)
                &&& vendored == found@[i as int].0
                &&& forall|j: int| 0 <= j < i ==> !(#[trigger] found@[j]).0 && !found@[j].1
            },
            None => forall|j: int| 0 <= j < 6 && j < found@.len() ==> !(#[trigger] found@[j]).0 && !found@[j].1,
        },
{
    let mut i: usize = 0;
    while i < 6 && i < found.len()
        invariant
            i <= 6,
            i <= found@.len(),
            forall|j: int| 0 <= j < i ==> !(#[trigger] found@[j]).0 && !found@[j].1,
        decreases 6 - i,
    {
        let (vendored, in_repo) = found[i];
        if vendored || in_repo {
            return Some((i, vendored));
        }
        i = i + 1;
    }
    None
}

/// Builds the `PYTHONPATH` value for a Python task.
pub fn python_path_value(dag_dir: &str, sdk_path: &Option<String>, existing: &str) -> (p: String)
    ensures
        p@ == python_path_text(
            dag_dir@,
            match sdk_path {
                Some(s) => Some(s@),
                None => None,
            },
            existing@,
        ),
{
    let mut parts: Vec<String> = Vec::new();
    parts.push(owned(dag_dir));
    parts.push(owned("."));
    if let Some(s) = sdk_path {
        parts.push(s.clone());
    }
    if !existing.is_empty() {
        parts.push(owned(existing));
    }
    let r = join_strings(&parts, ":");
    proof {
        let sdk = match sdk_path {
            Some(s) => Some(s@),
            None => None,
        };
        let base = seq![dag_dir@, "."@];
        let with_sdk = match sdk {
            Some(s) => base.push(s),
            None => base,
        };
        assert(views(parts@) =~= if existing@.len() > 0 { with_sdk.push(existing@) } else { with_sdk });
    }
    r
}

/// The Python snippet that runs one task function through the SDK.
pub open spec fn python_runner(module: Seq<char>, c: TaskContext, function: Seq<char>) -> Seq<char> {
    "from conduit_sdk._runtime import run_task; run_task("@ + debug_text(module) + ", "@
        + debug_text(c.dag_id@) + ", "@ + debug_text(c.task_id@) + ", "@ + debug_text(function)
        + ")"@
}

/// The script of a built-in sensor, by its type.
pub open spec fn sensor_script(sensor_type: Seq<char>) -> Option<Seq<char>> {
    if sensor_type == "file"@ {
        Some(FILE_SENSOR@)
    } else if sensor_type == "http"@ {
        Some(HTTP_SENSOR@)
    } else if sensor_type == "sql"@ {
        Some(SQL_SENSOR@)
    } else {
        None
    }
}

pub const FILE_SENSOR: &'static str = "test -f \"$CONDUIT_SENSOR_FILEPATH\" && echo 'CONDUIT::LOG::INFO::File found' && exit 0 || exit 1";

pub const HTTP_SENSOR: &'static str = "curl -sf \"$CONDUIT_SENSOR_URL\" > /dev/null && echo 'CONDUIT::LOG::INFO::Endpoint ready' && exit 0 || exit 1";

pub const SQL_SENSOR: &'static str = "echo 'CONDUIT::LOG::ERROR::SQL sensor requires a native provider connection. Configure the connection in conduit.yaml.' && exit 1";

/// The sensor parameters handed over as variables, in this order, when given.
pub open spec fn sensor_param_env(params: Seq<(Seq<char>, Seq<char>)>) -> Seq<(Seq<char>, Seq<char>)> {
    let a = match param_value(params, "filepath"@) {
        Some(v) => seq![("CONDUIT_SENSOR_FILEPATH"@, v)],
        None => Seq::empty(),
    };
    let b = match param_value(params, "url"@) {
        Some(v) => seq![("CONDUIT_SENSOR_URL"@, v)],
        None => Seq::empty(),
    };
    let c = match param_value(params, "query"@) {
        Some(v) => seq![("CONDUIT_SENSOR_QUERY"@, v)],
        None => Seq::empty(),
    };
    let d = match param_value(params, "connection"@) {
        Some(v) => seq![("CONDUIT_SENSOR_CONNECTION"@, v)],
        None => Seq::empty(),
    };
    a + b + c + d
}

/// The message for a SQL task with no provider.
pub open spec fn sql_refusal(task_id: Seq<char>, connection: Seq<char>) -> Seq<char> {
    "SQL task '"@ + task_id + "' requires a provider for connection '"@ + connection
        + "', but none is configured. Add the connection to conduit.yaml under `connections:` (e.g. type: duckdb / postgres / sqlite). Refusing to fake SQL execution."@
}

/// The command spec over plain values.
pub open spec fn spec_view(c: CommandSpec) -> (Seq<char>, Seq<Seq<char>>, Seq<(Seq<char>, Seq<char>)>) {
    (c.program@, views(c.args@), pairs_of(c.env@))
}

/// What `build_command` gives for a task: `Err` with the message for SQL
/// tasks (they need a provider) and for unknown sensors without a `command`
/// parameter.
pub open spec fn command_for(
    task_id: Seq<char>,
    t: TaskType,
    c: TaskContext,
    xcom_dir: Seq<char>,
    python_path: Seq<char>,
) -> Result<(Seq<char>, Seq<Seq<char>>, Seq<(Seq<char>, Seq<char>)>), Seq<char>> {
    let base = context_env(c, xcom_dir);
    let params = pairs_of(c.params@);
    match t {
        TaskType::Python { module, function } => Ok(
            (
                "python3"@,
                seq!["-c"@, python_runner(module@, c, function@)],
                base + seq![("PYTHONPATH"@, python_path), ("CONDUIT_RUNTIME_MODE"@, "1"@)],
            ),
        ),
        TaskType::Bash { command } => Ok(("bash"@, seq!["-c"@, command@], base)),
        TaskType::Sql { connection, .. } => Err(sql_refusal(task_id, connection@)),
        TaskType::Executable { command, args } => Ok((command@, views(args@), base)),
        TaskType::Sensor { sensor_type, poke_interval } => {
            let script = match sensor_script(sensor_type@) {
                Some(s) => Some(s),
                None => param_value(params, "command"@),
            };
            match script {
                Some(s) => Ok(
                    (
                        "bash"@,
                        seq!["-c"@, s],
                        base + seq![
                            ("CONDUIT_SENSOR_TYPE"@, sensor_type@),
                            ("CONDUIT_POKE_INTERVAL"@, match poke_interval {
                                Some(p) => p@,
                                None => "30s"@,
                            }),
                        ] + sensor_param_env(params),
                    ),
                ),
                None => Err(
                    "Unknown sensor type '"@ + sensor_type@ + "' and no 'command' param provided"@,
                ),
            }
        },
    }
}

fn env_pair(k: &str, v: String) -> (p: (String, String))
    ensures
        p.0@ == k@,
        p.1@ == v@,
{
    (owned(k), v)
}

fn find_param(params: &Vec<(String, String)>, key: &str) -> (r: Option<String>)
    ensures
        match r {
            Some(v) => param_value(pairs_of(params@), key@) == Some(v@),
            None => param_value(pairs_of(params@), key@) is None,
        },
{
    let ghost ps = pairs_of(params@);
    let mut i: usize = 0;
    assert(ps.skip(0) =~= ps);
    while i < params.len()
        invariant
            ps == pairs_of(params@),
            i <= ps.len(),
            param_value(ps, key@) == param_value(ps.skip(i as int), key@),
        decreases params.len() - i,
    {
        assert(ps.skip(i as int)[0] == ps[i as int]);
        assert(ps.skip(i as int).drop_first() =~= ps.skip(i + 1));
        if str_eq(params[i].0.as_str(), key) {
            return Some(params[i].1.clone());
        }
        i = i + 1;
    }
    None
}

/// Sets the variables every task process gets, after those already in `env`.
fn push_context_env(env: &mut Vec<(String, String)>, c: &TaskContext, xcom_dir: &str)
    ensures
        pairs_of(final(env)@) == pairs_of(old(env)@) + context_env(*c, xcom_dir@),
{
    let ghost start = pairs_of(env@);
    env.push(env_pair("CONDUIT_DAG_ID", c.dag_id.clone()));
    env.push(env_pair("CONDUIT_RUN_ID", c.run_id.clone()));
    env.push(env_pair("CONDUIT_TASK_ID", c.task_id.clone()));
    let mut attempt: Vec<char> = Vec::new();
    push_decimal(&mut attempt, c.attempt as u64);
    env.push(env_pair("CONDUIT_ATTEMPT", string_of(attempt.as_slice())));
    env.push(env_pair("CONDUIT_LOGICAL_DATE", c.logical_date.to_rfc3339()));
    env.push(env_pair("CONDUIT_ENVIRONMENT", c.environment.clone()));
    env.push(env_pair("CONDUIT_XCOM_DIR", owned(xcom_dir)));
    let ghost fixed = pairs_of(env@);
    assert(fixed =~= start + seq![
        ("CONDUIT_DAG_ID"@, c.dag_id@),
        ("CONDUIT_RUN_ID"@, c.run_id@),
        ("CONDUIT_TASK_ID"@, c.task_id@),
        ("CONDUIT_ATTEMPT"@, decimal(c.attempt as nat)),
        ("CONDUIT_LOGICAL_DATE"@, c.logical_date.text()),
        ("CONDUIT_ENVIRONMENT"@, c.environment@),
        ("CONDUIT_XCOM_DIR"@, xcom_dir@),
    ]);
    let ghost ps = pairs_of(c.params@);
    let mut i: usize = 0;
    while i < c.params.len()
        invariant
            ps == pairs_of(c.params@),
            i <= ps.len(),
            pairs_of(env@) == fixed + param_env(ps.take(i as int)),
        decreases c.params.len() - i,
    {
        let ghost before = pairs_of(env@);
        let key = to_uppercase(c.params[i].0.as_str());
        let name = concat("CONDUIT_PARAM_", key.as_str());
        let value = c.params[i].1.clone();
        assert(ps[i as int] == (c.params@[i as int].0@, c.params@[i as int].1@));
        env.push((name, value));
        assert(pairs_of(env@) =~= before.push(("CONDUIT_PARAM_"@ + uppercase(ps[i as int].0), ps[i as int].1)));
        assert(param_env(ps.take(i + 1)) =~= param_env(ps.take(i as int)).push(
            ("CONDUIT_PARAM_"@ + uppercase(ps[i as int].0), ps[i as int].1),
        ));
        i = i + 1;
    }
    assert(ps.take(i as int) =~= ps);
    let ghost with_params = pairs_of(env@);
    let ghost xs = pairs_of(c.extra_env@);
    let mut j: usize = 0;
    while j < c.extra_env.len()
        invariant
            xs == pairs_of(c.extra_env@),
            j <= xs.len(),
            pairs_of(env@) == with_params + xs.take(j as int),
        decreases c.extra_env.len() - j,
    {
        let ghost before = pairs_of(env@);
        let k = c.extra_env[j].0.clone();
        let v = c.extra_env[j].1.clone();
        assert(xs[j as int] == (c.extra_env@[j as int].0@, c.extra_env@[j as int].1@));
        env.push((k, v));
        assert(pairs_of(env@) =~= before.push(xs[j as int]));
        assert(xs.take(j + 1) =~= xs.take(j as int).push(xs[j as int]));
        j = j + 1;
    }
    assert(xs.take(j as int) =~= xs);
}

fn push_sensor_param(env: &mut Vec<(String, String)>, params: &Vec<(String, String)>, key: &str, var: &str)
    ensures
        pairs_of(final(env)@) == pairs_of(old(env)@) + match param_value(pairs_of(params@), key@) {
            Some(v) => seq![(var@, v)],
            None => Seq::<(Seq<char>, Seq<char>)>::empty(),
        },
{
    let ghost start = pairs_of(env@);
    if let Some(v) = find_param(params, key) {
        env.push(env_pair(var, v));
        assert(pairs_of(env@) =~= start + seq![(var@, v@)]);
    } else {
        assert(pairs_of(env@) =~= start + Seq::<(Seq<char>, Seq<char>)>::empty());
    }
}

/// Runs tasks as child processes; the parts that decide what runs live
/// here, the spawning with the caller.
pub struct ProcessRunner;

impl ProcessRunner {
    /// The command for a task: which program runs, with which arguments and
    /// environment. `xcom_dir` is the run's XCom directory and `python_path`
    /// the `PYTHONPATH` a Python task gets (see `python_path_value`).
    pub fn build_command(
        task_id: &str,
        task_type: &TaskType,
        context: &TaskContext,
        xcom_dir: &str,
        python_path: &str,
    ) -> (r: Result<CommandSpec, ConduitError>)
        ensures
            match command_for(task_id@, *task_type, *context, xcom_dir@, python_path@) {
                Ok(v) => r matches Ok(c) && spec_view(c) == v,
                Err(m) => r matches Err(ConduitError::ExecutionError(e)) && e@ == m,
            },
    {
        let mut env: Vec<(String, String)> = Vec::new();
        push_context_env(&mut env, context, xcom_dir);
        let ghost base = pairs_of(env@);
        assert(base =~= context_env(*context, xcom_dir@));
        match task_type {
            TaskType::Python { module, function } => {
                env.push(env_pair("PYTHONPATH", owned(python_path)));
                env.push(env_pair("CONDUIT_RUNTIME_MODE", owned("1")));
                let mut code: Vec<char> = Vec::new();
                push_str(&mut code, "from conduit_sdk._runtime import run_task; run_task(");
                push_str(&mut code, debug_quoted(module.as_str()).as_str());
                push_str(&mut code, ", ");
                push_str(&mut code, debug_quoted(context.dag_id.as_str()).as_str());
                push_str(&mut code, ", ");
                push_str(&mut code, debug_quoted(context.task_id.as_str()).as_str());
                push_str(&mut code, ", ");
                push_str(&mut code, debug_quoted(function.as_str()).as_str());
                push_str(&mut code, ")");
                let mut args: Vec<String> = Vec::new();
                args.push(owned("-c"));
                args.push(string_of(code.as_slice()));
                let c = CommandSpec { program: owned("python3"), args, env };
                assert(views(c.args@) =~= seq!["-c"@, python_runner(module@, *context, function@)]);
                assert(pairs_of(c.env@) =~= base + seq![("PYTHONPATH"@, python_path@), ("CONDUIT_RUNTIME_MODE"@, "1"@)]);
                Ok(c)
            },
            TaskType::Bash { command } => {
                let mut args: Vec<String> = Vec::new();
                args.push(owned("-c"));
                args.push(command.clone());
                let c = CommandSpec { program: owned("bash"), args, env };
                assert(views(c.args@) =~= seq!["-c"@, command@]);
                Ok(c)
            },
            TaskType::Sql { connection, .. } => {
                let mut m: Vec<char> = Vec::new();
                push_str(&mut m, "SQL task '");
                push_str(&mut m, task_id);
                push_str(&mut m, "' requires a provider for connection '");
                push_str(&mut m, connection.as_str());
                push_str(&mut m, "', but none is configured. Add the connection to conduit.yaml under `connections:` (e.g. type: duckdb / postgres / sqlite). Refusing to fake SQL execution.");
                assert(m@ =~= sql_refusal(task_id@, connection@));
                Err(ConduitError::ExecutionError(string_of(m.as_slice())))
            },
            TaskType::Executable { command, args } => {
                Ok(CommandSpec { program: command.clone(), args: clone_strings(args), env })
            },
            TaskType::Sensor { sensor_type, poke_interval } => {
                let st = sensor_type.as_str();
                let script: String = if str_eq(st, "file") {
                    owned(FILE_SENSOR)
                } else if str_eq(st, "http") {
                    owned(HTTP_SENSOR)
                } else if str_eq(st, "sql") {
                    owned(SQL_SENSOR)
                } else {
                    match find_param(&context.params, "command") {
                        Some(cmd) => cmd,
                        None => {
                            let mut m: Vec<char> = Vec::new();
                            push_str(&mut m, "Unknown sensor type '");
                            push_str(&mut m, st);
                            push_str(&mut m, "' and no 'command' param provided");
                            assert(m@ =~= "Unknown sensor type '"@ + sensor_type@ + "' and no 'command' param provided"@);
                            return Err(ConduitError::ExecutionError(string_of(m.as_slice())));
                        },
                    }
                };
                let interval = match poke_interval {
                    Some(p) => p.clone(),
                    None => owned("30s"),
                };
                env.push(env_pair("CONDUIT_SENSOR_TYPE", sensor_type.clone()));
                env.push(env_pair("CONDUIT_POKE_INTERVAL", interval));
                let ghost with_sensor = pairs_of(env@);
                push_sensor_param(&mut env, &context.params, "filepath", "CONDUIT_SENSOR_FILEPATH");
                push_sensor_param(&mut env, &context.params, "url", "CONDUIT_SENSOR_URL");
                push_sensor_param(&mut env, &context.params, "query", "CONDUIT_SENSOR_QUERY");
                push_sensor_param(&mut env, &context.params, "connection", "CONDUIT_SENSOR_CONNECTION");
                let mut args: Vec<String> = Vec::new();
                args.push(owned("-c"));
                args.push(script);
                let c = CommandSpec { program: owned("bash"), args, env };
                proof {
                    let params = pairs_of(context.params@);
                    assert(pairs_of(c.env@) =~= with_sensor + sensor_param_env(params));
                }
                Ok(c)
            },
        }
    }
}

} // verus!
