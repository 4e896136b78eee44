//! Turning a YAML workflow, once deserialized, into the compiler's parsed
//! DAG: task types, incremental settings and defaults.

use vstd::prelude::*;
use crate::dag::TaskType;
use crate::error::ConduitError;
use crate::incremental::{IncrementalConfig, IncrementalStrategy, PartitionGranularity};
use crate::resolver::{ParsedDag, ParsedTask};
use crate::text::{clone_opt, clone_strings, owned, push_str, str_eq, string_of};

verus! {

/// What `str::to_lowercase` gives for a text (Unicode lower-case mapping).
pub uninterp spec fn lowercase(s: Seq<char>) -> Seq<char>;

/// `str::to_lowercase`: the lower-case form of the text, as the Unicode
/// `Lowercase` mapping gives it. Only that the result is that mapping of the
/// argument is claimed; the mapping itself is named, not stated.
#[verifier::external_body]
pub(crate) fn to_lowercase(s: &str) -> (r: String)
    ensures
        r@ == lowercase(s@),
{
    s.to_lowercase()
}

/// A task as the YAML file writes it (its data-quality contracts aside).
#[derive(Debug, Clone)]
pub struct YamlTask {
    pub task_type: String,
    pub module: Option<String>,
    pub function: Option<String>,
    pub command: Option<String>,
    pub connection: Option<String>,
    pub query: Option<String>,
    pub sensor_type: Option<String>,
    pub poke_interval: Option<String>,
    pub args: Vec<String>,
    pub depends_on: Vec<String>,
    pub retries: u32,
    pub retry_delay: Option<String>,
    pub pool: Option<String>,
    pub timeout: Option<String>,
    pub priority: i32,
    pub trigger_rule: Option<String>,
    pub resources: Option<YamlResourceLimits>,
    pub incremental: Option<YamlIncrementalConfig>,
}

/// Resource limits as the YAML file writes them.
#[derive(Debug, Clone, Copy, PartialEq, Eq, Structural)]
pub struct YamlResourceLimits {
    pub cpu_millicores: Option<u32>,
    pub memory_mb: Option<u32>,
}

/// Incremental settings as the YAML file writes them.
#[derive(Debug, Clone)]
pub struct YamlIncrementalConfig {
    pub strategy: String,
    pub time_column: Option<String>,
    pub lookback: Option<String>,
    pub unique_key: Vec<String>,
    pub partition_column: Option<String>,
    pub partition_granularity: Option<String>,
    pub check_columns: Vec<String>,
    pub scd_type_2: bool,
    pub batch_size: Option<u64>,
    pub max_partitions_per_run: Option<u32>,
    pub invalidate_hard_deletes: bool,
}

/// A DAG as the YAML file writes it; the tasks keep their id.
#[derive(Debug, Clone)]
pub struct YamlDag {
    pub id: String,
    pub description: Option<String>,
    pub schedule: Option<String>,
    pub tags: Vec<String>,
    pub max_active_runs: u32,
    pub on_failure: Option<String>,
    pub tasks: Vec<(String, YamlTask)>,
}

/// Reads YAML workflow definitions into the compiler's parsed DAGs.
pub struct YamlDagParser;

/// Runs of a DAG at once when the file does not say.
pub fn default_max_active_runs() -> (n: u32)
    ensures
        n == 1,
{
    1
}

/// The text of an optional string, or `dflt` when there is none.
pub open spec fn or_text(o: Option<String>, dflt: Seq<char>) -> Seq<char> {
    match o {
        Some(s) => s@,
        None => dflt,
    }
}

/// `Task '{id}': {rest}`.
pub open spec fn task_message(task_id: Seq<char>, rest: Seq<char>) -> Seq<char> {
    "Task '"@ + task_id + "': "@ + rest
}

/// The error for a task of type `kind` that lacks field `field`.
pub open spec fn missing_field(task_id: Seq<char>, kind: Seq<char>, field: Seq<char>) -> Seq<char> {
    task_message(task_id, kind + " task requires '"@ + field + "' field"@)
}

/// The error for an unknown task type (given lower-cased).
pub open spec fn unknown_type(task_id: Seq<char>, lower: Seq<char>) -> Seq<char> {
    task_message(
        task_id,
        "unknown task type '"@ + lower + "'. Expected: python, shell, sql, sensor, executable"@,
    )
}

/// A parse error of `file` with `message`.
pub open spec fn is_parse_error<T>(r: Result<T, ConduitError>, file: Seq<char>, message: Seq<char>) -> bool {
    r matches Err(ConduitError::ParseError { file: f, message: m }) && f@ == file && m@ == message
}

/// The task type a YAML task declares, as `resolve_task_type` reads it; the
/// type name is taken lower-cased.
pub open spec fn task_type_ok(task_id: Seq<char>, task: YamlTask, file: Seq<char>, r: Result<TaskType, ConduitError>) -> bool {
    task_type_for(task_id, lowercase(task.task_type@), task, file, r)
}

/// The task type that the lower-cased type name `kind` gives a YAML task,
/// or the parse error of a missing field or an unknown type.
pub open spec fn task_type_for(
    task_id: Seq<char>,
    kind: Seq<char>,
    task: YamlTask,
    file: Seq<char>,
    r: Result<TaskType, ConduitError>,
) -> bool {
    if kind == "python"@ {
        r matches Ok(TaskType::Python { module, function }) && module@ == or_text(task.module, "tasks"@)
            && function@ == or_text(task.function, task_id)
    } else if kind == "shell"@ || kind == "bash"@ {
        match task.command {
            Some(c) => r matches Ok(TaskType::Bash { command }) && command@ == c@,
            None => is_parse_error(r, file, missing_field(task_id, "shell"@, "command"@)),
        }
    } else if kind == "sql"@ {
        match task.query {
            Some(q) => r matches Ok(TaskType::Sql { connection, query, target }) && connection@
                == or_text(task.connection, "default"@) && query@ == q@ && target is None,
            None => is_parse_error(r, file, missing_field(task_id, "sql"@, "query"@)),
        }
    } else if kind == "sensor"@ {
        r matches Ok(TaskType::Sensor { sensor_type, poke_interval }) && sensor_type@ == or_text(
            task.sensor_type,
            "file"@,
        ) && poke_interval == task.poke_interval
    } else if kind == "executable"@ || kind == "exec"@ {
        match task.command {
            Some(c) => r matches Ok(TaskType::Executable { command, args }) && command@ == c@ && args@
                == task.args@,
            None => is_parse_error(r, file, missing_field(task_id, "executable"@, "command"@)),
        }
    } else {
        is_parse_error(r, file, unknown_type(task_id, kind))
    }
}

fn text_or(o: &Option<String>, dflt: &str) -> (s: String)
    ensures
        s@ == or_text(*o, dflt@),
{
    match o {
        Some(s) => s.clone(),
        None => owned(dflt),
    }
}

fn parse_error(file: &str, message: Vec<char>) -> (e: ConduitError)
    ensures
        e matches ConduitError::ParseError { file: f, message: m } && f@ == file@ && m@ == message@,
{
    ConduitError::ParseError { file: owned(file), message: string_of(message.as_slice()) }
}

fn missing_field_message(task_id: &str, kind: &str, field: &str) -> (m: Vec<char>)
    ensures
        m@ == missing_field(task_id@, kind@, field@),
{
    let mut m: Vec<char> = Vec::new();
    push_str(&mut m, "Task '");
    push_str(&mut m, task_id);
    push_str(&mut m, "': ");
    push_str(&mut m, kind);
    push_str(&mut m, " task requires '");
    push_str(&mut m, field);
    push_str(&mut m, "' field");
    assert(m@ =~= missing_field(task_id@, kind@, field@));
    m
}

impl YamlDagParser {
    /// The task type of a YAML task; `source_file` names the file in errors.
    pub fn resolve_task_type(task_id: &str, task: &YamlTask, source_file: &str) -> (r: Result<TaskType, ConduitError>)
        ensures
            task_type_ok(task_id@, *task, source_file@, r),
    {
        let kind = to_lowercase(task.task_type.as_str());
        YamlDagParser::task_type_named(task_id, kind.as_str(), task, source_file)
    }

    /// The task type that the lower-cased type name `k` gives a YAML task
    /// (see `task_type_for`).
    pub fn task_type_named(task_id: &str, k: &str, task: &YamlTask, source_file: &str) -> (r: Result<TaskType, ConduitError>)
        ensures
            task_type_for(task_id@, k@, *task, source_file@, r),
    {
        if str_eq(k, "python") {
            Ok(TaskType::Python { module: text_or(&task.module, "tasks"), function: text_or(&task.function, task_id) })
        } else if str_eq(k, "shell") || str_eq(k, "bash") {
            match &task.command {
                Some(c) => Ok(TaskType::Bash { command: c.clone() }),
                None => Err(parse_error(source_file, missing_field_message(task_id, "shell", "command"))),
            }
        } else if str_eq(k, "sql") {
            match &task.query {
                Some(q) => Ok(TaskType::Sql { connection: text_or(&task.connection, "default"), query: q.clone(), target: None }),
                None => Err(parse_error(source_file, missing_field_message(task_id, "sql", "query"))),
            }
        } else if str_eq(k, "sensor") {
            Ok(TaskType::Sensor { sensor_type: text_or(&task.sensor_type, "file"), poke_interval: clone_opt(&task.poke_interval) })
        } else if str_eq(k, "executable") || str_eq(k, "exec") {
            match &task.command {
                Some(c) => Ok(TaskType::Executable { command: c.clone(), args: clone_strings(&task.args) }),
                None => Err(parse_error(source_file, missing_field_message(task_id, "executable", "command"))),
            }
        } else {
            let mut m: Vec<char> = Vec::new();
            push_str(&mut m, "Task '");
            push_str(&mut m, task_id);
            push_str(&mut m, "': ");
            push_str(&mut m, "unknown task type '");
            push_str(&mut m, k);
            push_str(&mut m, "'. Expected: python, shell, sql, sensor, executable");
            assert(m@ =~= unknown_type(task_id@, k@));
            Err(parse_error(source_file, m))
        }
    }
}

/// The partition granularity a lower-cased name gives; anything unknown is a
/// day.
pub open spec fn granularity_named(lower: Seq<char>) -> PartitionGranularity {
    if lower == "hour"@ {
        PartitionGranularity::Hour
    } else if lower == "week"@ {
        PartitionGranularity::Week
    } else if lower == "month"@ {
        PartitionGranularity::Month
    } else if lower == "year"@ {
        PartitionGranularity::Year
    } else {
        PartitionGranularity::Day
    }
}

/// The error for an unknown incremental strategy (given lower-cased).
pub open spec fn unknown_strategy(lower: Seq<char>) -> Seq<char> {
    "Unknown incremental strategy: '"@ + lower
        + "'. Expected: full_refresh, append, merge, delete_insert, snapshot"@
}

/// The strategy a YAML incremental block declares, as
/// `resolve_incremental_config` reads it; `None` for an unknown name.
pub open spec fn strategy_ok(y: YamlIncrementalConfig, s: IncrementalStrategy) -> Option<bool> {
    strategy_for(lowercase(y.strategy@), y, s)
}

/// Whether `s` is the strategy that the lower-cased name `kind` gives a
/// YAML incremental block; `None` for an unknown name.
pub open spec fn strategy_for(kind: Seq<char>, y: YamlIncrementalConfig, s: IncrementalStrategy) -> Option<bool> {
    if kind == "full_refresh"@ || kind == "full"@ {
        Some(s is FullRefresh)
    } else if kind == "append"@ {
        Some(
            s matches IncrementalStrategy::Append { time_column, lookback } && time_column@ == or_text(
                y.time_column,
                "created_at"@,
            ) && lookback == y.lookback,
        )
    } else if kind == "merge"@ || kind == "merge_on_key"@ || kind == "upsert"@ {
        Some(
            s matches IncrementalStrategy::MergeOnKey {
                unique_key,
                time_column,
                invalidate_hard_deletes,
            } && unique_key@ == y.unique_key@ && time_column == y.time_column
                && invalidate_hard_deletes == y.invalidate_hard_deletes,
        )
    } else if kind == "delete_insert"@ || kind == "delete+insert"@ {
        Some(
            s matches IncrementalStrategy::DeleteInsert {
                partition_column,
                partition_granularity,
                time_column,
            } && partition_column@ == or_text(y.partition_column, "dt"@) && partition_granularity
                == granularity_named(lowercase(or_text(y.partition_granularity, "day"@)))
                && time_column == y.time_column,
        )
    } else if kind == "snapshot"@ || kind == "snapshot_diff"@ || kind == "scd"@ {
        Some(
            s matches IncrementalStrategy::SnapshotDiff {
                unique_key,
                check_columns,
                scd_type_2,
                valid_from_column,
                valid_to_column,
            } && unique_key@ == y.unique_key@ && check_columns@ == y.check_columns@ && scd_type_2
                == y.scd_type_2 && valid_from_column is None && valid_to_column is None,
        )
    } else {
        None
    }
}

fn granularity_of(name: &Option<String>) -> (g: PartitionGranularity)
    ensures
        g == granularity_named(lowercase(or_text(*name, "day"@))),
{
    let text = text_or(name, "day");
    let lower = to_lowercase(text.as_str());
    granularity_for(lower.as_str())
}

/// The partition granularity a lower-cased name gives (see
/// `granularity_named`).
pub fn granularity_for(l: &str) -> (g: PartitionGranularity)
    ensures
        g == granularity_named(l@),
        (g == PartitionGranularity::Week) <==> l@ == "week"@,
        (g == PartitionGranularity::Hour) <==> l@ == "hour"@,
        (g == PartitionGranularity::Month) <==> l@ == "month"@,
        (g == PartitionGranularity::Year) <==> l@ == "year"@,
{
    proof {
        law_granularity_names(l@);
    }
    if str_eq(l, "hour") {
        PartitionGranularity::Hour
    } else if str_eq(l, "week") {
        PartitionGranularity::Week
    } else if str_eq(l, "month") {
        PartitionGranularity::Month
    } else if str_eq(l, "year") {
        PartitionGranularity::Year
    } else {
        PartitionGranularity::Day
    }
}

impl YamlDagParser {
    /// The incremental configuration of a YAML incremental block: full refresh
    /// allowed, watermarks emitted, batch limits as written; an unknown strategy
    /// is a configuration error.
    pub fn resolve_incremental_config(yaml: &YamlIncrementalConfig) -> (r: Result<IncrementalConfig, ConduitError>)
        ensures
            match r {
                Ok(c) => strategy_ok(*yaml, c.strategy) == Some(true) && c.allow_full_refresh
                    && !c.force_full_refresh && c.batch_size == yaml.batch_size
                    && c.max_partitions_per_run == yaml.max_partitions_per_run && c.emit_watermark,
                Err(e) => strategy_ok(*yaml, IncrementalStrategy::FullRefresh) is None && (e matches ConduitError::ConfigError(m)
                    && m@ == unknown_strategy(lowercase(yaml.strategy@))),
            },
            strategy_ok(*yaml, IncrementalStrategy::FullRefresh) is Some ==> r is Ok,
    {
        let kind = to_lowercase(yaml.strategy.as_str());
        YamlDagParser::incremental_config_named(kind.as_str(), yaml)
    }

    /// The incremental configuration of a YAML incremental block whose
    /// strategy name, lower-cased, is `k` (see `strategy_for`).
    pub fn incremental_config_named(k: &str, yaml: &YamlIncrementalConfig) -> (r: Result<IncrementalConfig, ConduitError>)
        ensures
            match r {
                Ok(c) => strategy_for(k@, *yaml, c.strategy) == Some(true) && c.allow_full_refresh
                    && !c.force_full_refresh && c.batch_size == yaml.batch_size
                    && c.max_partitions_per_run == yaml.max_partitions_per_run && c.emit_watermark,
                Err(e) => strategy_for(k@, *yaml, IncrementalStrategy::FullRefresh) is None && (e matches ConduitError::ConfigError(m)
                    && m@ == unknown_strategy(k@)),
            },
            strategy_for(k@, *yaml, IncrementalStrategy::FullRefresh) is Some ==> r is Ok,
    {
        let strategy = if str_eq(k, "full_refresh") || str_eq(k, "full") {
            IncrementalStrategy::FullRefresh
        } else if str_eq(k, "append") {
            IncrementalStrategy::Append { time_column: text_or(&yaml.time_column, "created_at"), lookback: clone_opt(&yaml.lookback) }
        } else if str_eq(k, "merge") || str_eq(k, "merge_on_key") || str_eq(k, "upsert") {
            IncrementalStrategy::MergeOnKey {
                unique_key: clone_strings(&yaml.unique_key),
                time_column: clone_opt(&yaml.time_column),
                invalidate_hard_deletes: yaml.invalidate_hard_deletes,
            }
        } else if str_eq(k, "delete_insert") || str_eq(k, "delete+insert") {
            IncrementalStrategy::DeleteInsert {
                partition_column: text_or(&yaml.partition_column, "dt"),
                partition_granularity: granularity_of(&yaml.partition_granularity),
                time_column: clone_opt(&yaml.time_column),
            }
        } else if str_eq(k, "snapshot") || str_eq(k, "snapshot_diff") || str_eq(k, "scd") {
            IncrementalStrategy::SnapshotDiff {
                unique_key: clone_strings(&yaml.unique_key),
                check_columns: clone_strings(&yaml.check_columns),
                scd_type_2: yaml.scd_type_2,
                valid_from_column: None,
                valid_to_column: None,
            }
        } else {
            let mut m: Vec<char> = Vec::new();
            push_str(&mut m, "Unknown incremental strategy: '");
            push_str(&mut m, k);
            push_str(&mut m, "'. Expected: full_refresh, append, merge, delete_insert, snapshot");
            assert(m@ =~= unknown_strategy(k@));
            return Err(ConduitError::ConfigError(string_of(m.as_slice())));
        };
        Ok(IncrementalConfig {
            strategy,
            allow_full_refresh: true,
            force_full_refresh: false,
            batch_size: yaml.batch_size,
            max_partitions_per_run: yaml.max_partitions_per_run,
            emit_watermark: true,
        })
    }
}

/// The task's type resolves.
pub open spec fn type_resolves(task_id: Seq<char>, task: YamlTask, file: Seq<char>) -> bool {
    exists|t: TaskType| #[trigger] task_type_ok(task_id, task, file, Ok(t))
}

/// The parsed task a YAML task becomes, given its resolved type.
pub open spec fn parsed_task_ok(id: Seq<char>, y: YamlTask, t: ParsedTask) -> bool {
    &&& t.id@ == id
    &&& t.retries == y.retries
    &&& t.retry_delay == y.retry_delay
    &&& t.pool == y.pool
    &&& t.timeout == y.timeout
    &&& t.priority == y.priority
    &&& t.raw_dependencies@ == y.depends_on@
    &&& t.parameters_text@ == Seq::<char>::empty()
}

impl YamlDagParser {
    /// The YAML DAG as the compiler's parsed DAG, its tasks in the order given;
    /// the first task whose type does not resolve gives the error.
    pub fn convert_to_parsed_dag(yaml: &YamlDag, source_file: &str) -> (r: Result<ParsedDag, ConduitError>)
        ensures
            match r {
                Ok(d) => {
                    &&& d.id@ == yaml.id@
                    &&& d.description == yaml.description
                    &&& d.schedule == yaml.schedule
                    &&& d.tags@ == yaml.tags@
                    &&& d.max_active_runs == yaml.max_active_runs
                    &&& d.on_failure == yaml.on_failure
                    &&& d.source_file@ == source_file@
                    &&& d.tasks@.len() == yaml.tasks@.len()
                    &&& forall|i: int|
                        0 <= i < yaml.tasks@.len() ==> parsed_task_ok(
                            yaml.tasks@[i].0@,
                            yaml.tasks@[i].1,
                            #[trigger] d.tasks@[i],
                        ) && task_type_ok(
                            yaml.tasks@[i].0@,
                            yaml.tasks@[i].1,
                            source_file@,
                            Ok(d.tasks@[i].task_type),
                        )
                },
                Err(e) => exists|i: int|
                    0 <= i < yaml.tasks@.len() && task_type_ok(
                        yaml.tasks@[i].0@,
                        yaml.tasks@[i].1,
                        source_file@,
                        Err(e),
                    ) && forall|j: int|
                        0 <= j < i ==> #[trigger] type_resolves(
                            yaml.tasks@[j].0@,
                            yaml.tasks@[j].1,
                            source_file@,
                        ),
            },
    {
        let mut tasks: Vec<ParsedTask> = Vec::new();
        let mut i: usize = 0;
        while i < yaml.tasks.len()
            invariant
                i <= yaml.tasks@.len(),
                tasks@.len() == i,
                forall|j: int|
                    0 <= j < i ==> parsed_task_ok(yaml.tasks@[j].0@, yaml.tasks@[j].1, #[trigger] tasks@[j])
                        && task_type_ok(
                        yaml.tasks@[j].0@,
                        yaml.tasks@[j].1,
                        source_file@,
                        Ok(tasks@[j].task_type),
                    ),
            decreases yaml.tasks.len() - i,
        {
            let (id, yt) = (&yaml.tasks[i].0, &yaml.tasks[i].1);
            let task_type = match Self::resolve_task_type(id.as_str(), yt, source_file) {
                Ok(t) => t,
                Err(e) => {
                    proof {
                        assert forall|j: int| 0 <= j < i implies #[trigger] type_resolves(
                            yaml.tasks@[j].0@,
                            yaml.tasks@[j].1,
                            source_file@,
                        ) by {
                            assert(task_type_ok(
                                yaml.tasks@[j].0@,
                                yaml.tasks@[j].1,
                                source_file@,
                                Ok(tasks@[j].task_type),
                            ));
                        }
                    }
                    return Err(e);
                },
            };
            tasks.push(ParsedTask {
                id: id.clone(),
                task_type,
                retries: yt.retries,
                retry_delay: clone_opt(&yt.retry_delay),
                pool: clone_opt(&yt.pool),
                timeout: clone_opt(&yt.timeout),
                priority: yt.priority,
                raw_dependencies: clone_strings(&yt.depends_on),
                parameters_text: String::new(),
            });
            i = i + 1;
        }
        Ok(ParsedDag {
            id: yaml.id.clone(),
            description: clone_opt(&yaml.description),
            schedule: clone_opt(&yaml.schedule),
            tags: clone_strings(&yaml.tags),
            max_active_runs: yaml.max_active_runs,
            on_failure: clone_opt(&yaml.on_failure),
            tasks,
            source_file: owned(source_file),
        })
    }
}

/// Each granularity has its own name: `hour`, `week`, `month` and `year`
/// give their own granularity and are the only names that do; `day` and
/// every unknown name give a day.
pub proof fn law_granularity_names(lower: Seq<char>)
    ensures
        (granularity_named(lower) == PartitionGranularity::Hour) <==> lower == "hour"@,
        (granularity_named(lower) == PartitionGranularity::Week) <==> lower == "week"@,
        (granularity_named(lower) == PartitionGranularity::Month) <==> lower == "month"@,
        (granularity_named(lower) == PartitionGranularity::Year) <==> lower == "year"@,
        (granularity_named(lower) == PartitionGranularity::Day) <==> (lower != "hour"@ && lower != "week"@
            && lower != "month"@ && lower != "year"@),
{
    reveal_strlit("hour");
    reveal_strlit("week");
    reveal_strlit("month");
    reveal_strlit("year");
    assert("hour"@ != "week"@ && "hour"@ != "month"@ && "hour"@ != "year"@) by {
        assert("hour"@[0] != "week"@[0]);
        assert("hour"@.len() != "month"@.len());
        assert("hour"@[0] != "year"@[0]);
    }
    assert("week"@ != "month"@ && "week"@ != "year"@) by {
        assert("week"@.len() != "month"@.len());
        assert("week"@[0] != "year"@[0]);
    }
    assert("month"@ != "year"@) by {
        assert("month"@.len() != "year"@.len());
    }
}

/// Each strategy name gives its own strategy, whatever else the block
/// holds: `full_refresh` and `full` a full refresh, `append` an append,
/// `merge`, `merge_on_key` and `upsert` a merge on key, `delete_insert` and
/// `delete+insert` a delete-insert, `snapshot`, `snapshot_diff` and `scd` a
/// snapshot diff; a name that is none of these is refused.
pub proof fn law_strategy_names(kind: Seq<char>, y: YamlIncrementalConfig, s: IncrementalStrategy)
    ensures
        (kind == "full_refresh"@ || kind == "full"@) ==> strategy_for(kind, y, s) == Some(s is FullRefresh),
        kind == "append"@ ==> (strategy_for(kind, y, s) matches Some(b) && (b ==> s is Append)),
        (kind == "merge"@ || kind == "merge_on_key"@ || kind == "upsert"@) ==> (strategy_for(kind, y, s) matches Some(b)
            && (b ==> s is MergeOnKey)),
        (kind == "delete_insert"@ || kind == "delete+insert"@) ==> (strategy_for(kind, y, s) matches Some(b) && (b
            ==> s is DeleteInsert)),
        (kind == "snapshot"@ || kind == "snapshot_diff"@ || kind == "scd"@) ==> (strategy_for(kind, y, s) matches Some(
            b,
        ) && (b ==> s is SnapshotDiff)),
        (strategy_for(kind, y, s) is None) <==> !(kind == "full_refresh"@ || kind == "full"@ || kind == "append"@
            || kind == "merge"@ || kind == "merge_on_key"@ || kind == "upsert"@ || kind == "delete_insert"@ || kind
            == "delete+insert"@ || kind == "snapshot"@ || kind == "snapshot_diff"@ || kind == "scd"@),
{
    reveal_strlit("full_refresh");
    reveal_strlit("full");
    reveal_strlit("append");
    reveal_strlit("merge");
    reveal_strlit("merge_on_key");
    reveal_strlit("upsert");
    reveal_strlit("delete_insert");
    reveal_strlit("delete+insert");
    reveal_strlit("snapshot");
    reveal_strlit("snapshot_diff");
    reveal_strlit("scd");
    let names = seq![
        "full_refresh"@, "full"@, "append"@, "merge"@, "merge_on_key"@, "upsert"@, "delete_insert"@,
        "delete+insert"@, "snapshot"@, "snapshot_diff"@, "scd"@,
    ];
    assert forall|a: int, b: int| 0 <= a < b < 11 implies names[a] != names[b] by {
        if names[a].len() == names[b].len() {
            if names[a][0] == names[b][0] {
                assert(names[a][6] != names[b][6]);
            } else {
                assert(names[a][0] != names[b][0]);
            }
        }
    }
}

/// Each task type name gives its own type: `python` a Python task, `shell`
/// and `bash` a shell command, `sql` a query, `sensor` a sensor,
/// `executable` and `exec` an executable (each when the field it requires
/// is there), and any other name is refused.
pub proof fn law_task_type_names(
    task_id: Seq<char>,
    kind: Seq<char>,
    task: YamlTask,
    file: Seq<char>,
    r: Result<TaskType, ConduitError>,
)
    requires
        task_type_for(task_id, kind, task, file, r),
    ensures
        kind == "python"@ ==> r matches Ok(TaskType::Python { .. }),
        (kind == "shell"@ || kind == "bash"@) ==> (r matches Ok(TaskType::Bash { .. }) <==> task.command is Some),
        kind == "sql"@ ==> (r matches Ok(TaskType::Sql { .. }) <==> task.query is Some),
        kind == "sensor"@ ==> r matches Ok(TaskType::Sensor { .. }),
        (kind == "executable"@ || kind == "exec"@) ==> (r matches Ok(TaskType::Executable { .. }) <==> task.command is Some),
        !(kind == "python"@ || kind == "shell"@ || kind == "bash"@ || kind == "sql"@ || kind == "sensor"@ || kind
            == "executable"@ || kind == "exec"@) ==> r is Err,
{
    reveal_strlit("python");
    assert("python"@.len() == 6);
    reveal_strlit("shell");
    assert("shell"@.len() == 5);
    reveal_strlit("bash");
    assert("bash"@.len() == 4);
    reveal_strlit("sql");
    assert("sql"@.len() == 3);
    reveal_strlit("sensor");
    assert("sensor"@.len() == 6);
    reveal_strlit("executable");
    assert("executable"@.len() == 10);
    reveal_strlit("exec");
    assert("exec"@.len() == 4);
    assert("python"@[0] != "sensor"@[0]);
    assert("bash"@[0] != "exec"@[0]);
}

} // verus!
