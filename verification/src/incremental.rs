//! Incremental computation model: strategies, watermarks, runtime context.

use vstd::prelude::*;
use std::collections::HashMap;
use crate::clock::now_millis;
use crate::text::{decimal, join, join_strings, owned, push_decimal, push_signed_decimal, signed_decimal, string_of, views};

verus! {

/// Partition granularity for the delete+insert strategy.
#[derive(Debug, Clone, Copy, PartialEq, Eq, Structural)]
pub enum PartitionGranularity {
    Hour,
    Day,
    Week,
    Month,
    Year,
}

/// How a task processes data incrementally.
#[derive(Debug, Clone, PartialEq, Eq)]
#[allow(inconsistent_fields)]
pub enum IncrementalStrategy {
    FullRefresh,
    Append { time_column: String, lookback: Option<String> },
    MergeOnKey {
        unique_key: Vec<String>,
        time_column: Option<String>,
        invalidate_hard_deletes: bool,
    },
    DeleteInsert {
        partition_column: String,
        partition_granularity: PartitionGranularity,
        time_column: Option<String>,
    },
    SnapshotDiff {
        unique_key: Vec<String>,
        check_columns: Vec<String>,
        scd_type_2: bool,
        valid_from_column: Option<String>,
        valid_to_column: Option<String>,
    },
}

impl Default for IncrementalStrategy {
    fn default() -> (s: Self)
        ensures
            s is FullRefresh,
    {
        IncrementalStrategy::FullRefresh
    }
}

/// Incremental configuration attached to a task.
#[derive(Debug, Clone)]
pub struct IncrementalConfig {
    pub strategy: IncrementalStrategy,
    pub allow_full_refresh: bool,
    pub force_full_refresh: bool,
    pub batch_size: Option<u64>,
    pub max_partitions_per_run: Option<u32>,
    pub emit_watermark: bool,
}

impl Default for IncrementalConfig {
    fn default() -> (c: Self)
        ensures
            c.strategy is FullRefresh,
            !c.allow_full_refresh,
            !c.force_full_refresh,
            c.batch_size is None,
            c.max_partitions_per_run is None,
            !c.emit_watermark,
    {
        IncrementalConfig {
            strategy: IncrementalStrategy::FullRefresh,
            allow_full_refresh: false,
            force_full_refresh: false,
            batch_size: None,
            max_partitions_per_run: None,
            emit_watermark: false,
        }
    }
}


/// The RFC 3339 text `chrono` writes for a UTC instant given as seconds and
/// nanoseconds since the Unix epoch; `None` outside the dates it can hold.
pub uninterp spec fn rfc3339_text(secs: i64, nanos: u32) -> Option<Seq<char>>;

/// `chrono::DateTime::<Utc>::from_timestamp`, then `to_rfc3339` on the
/// instant it gives. Claimed: the result is `rfc3339_text` of the arguments
/// (the text is named, not stated).
#[verifier::external_body]
fn rfc3339_of(secs: i64, nanos: u32) -> (r: Option<String>)
    ensures
        match r {
            Some(s) => rfc3339_text(secs, nanos) == Some(s@),
            None => rfc3339_text(secs, nanos) is None,
        },
{
    chrono::DateTime::from_timestamp(secs, nanos).map(|d| d.to_rfc3339())
}

/// A UTC instant: seconds and nanoseconds since the Unix epoch, within the
/// dates `chrono` can write.
#[derive(Debug, Clone, Copy, PartialEq, Eq)]
pub struct Timestamp {
    secs: i64,
    nanos: u32,
}

impl Timestamp {
    #[verifier::type_invariant]
    spec fn writable(self) -> bool {
        rfc3339_text(self.secs, self.nanos) is Some
    }

    pub closed spec fn secs_of(self) -> i64 {
        self.secs
    }

    pub closed spec fn nanos_of(self) -> u32 {
        self.nanos
    }

    /// Its RFC 3339 text.
    pub closed spec fn text(self) -> Seq<char> {
        rfc3339_text(self.secs, self.nanos).unwrap()
    }

    /// The instant `secs` seconds and `nanos` nanoseconds after the epoch;
    /// `None` when `chrono` cannot hold it.
    pub fn from_unix(secs: i64, nanos: u32) -> (r: Option<Timestamp>)
        ensures
            match r {
                Some(t) => t.secs_of() == secs && t.nanos_of() == nanos && rfc3339_text(secs, nanos)
                    == Some(t.text()),
                None => rfc3339_text(secs, nanos) is None,
            },
    {
        match rfc3339_of(secs, nanos) {
            Some(_) => Some(Timestamp { secs, nanos }),
            None => None,
        }
    }

    /// Its RFC 3339 text, such as `2026-03-22T00:00:00+00:00`.
    pub fn to_rfc3339(&self) -> (s: String)
        ensures
            s@ == self.text(),
    {
        proof {
            use_type_invariant(self);
        }
        match rfc3339_of(self.secs, self.nanos) {
            Some(s) => s,
            None => String::new(),
        }
    }
}

/// How far an incremental task has processed.
#[derive(Debug, Clone, PartialEq)]
pub enum WatermarkValue {
    /// Up to an instant (the common case).
    Timestamp(Timestamp),
    /// Up to a sequence number (an auto-increment id, a Kafka offset).
    Sequence(i64),
    /// Up to a partition key (e.g. `2026-03-22`).
    Partition(String),
    /// Nothing yet: the first run processes everything.
    Initial,
}

/// The processing frontier of an incremental task, advanced after each
/// successful run. Times are milliseconds since the epoch.
#[derive(Debug, Clone)]
pub struct Watermark {
    pub dag_id: String,
    pub task_id: String,
    pub value: WatermarkValue,
    pub updated_at_ms: i64,
    /// The run that last advanced it.
    pub last_run_id: Option<String>,
    /// Further details (partition info, row counts).
    pub metadata: HashMap<String, String>,
}

impl Watermark {
    /// The initial watermark of a task, created at `now_ms`.
    pub fn new_at(dag_id: &str, task_id: &str, now_ms: i64) -> (w: Self)
        ensures
            w.dag_id@ == dag_id@,
            w.task_id@ == task_id@,
            w.value is Initial,
            w.updated_at_ms == now_ms,
            w.last_run_id is None,
            w.metadata@ == Map::<String, String>::empty(),
    {
        Watermark {
            dag_id: owned(dag_id),
            task_id: owned(task_id),
            value: WatermarkValue::Initial,
            updated_at_ms: now_ms,
            last_run_id: None,
            metadata: HashMap::new(),
        }
    }

    /// The initial watermark of a task, created now.
    pub fn new(dag_id: &str, task_id: &str) -> (w: Self)
        ensures
            w.dag_id@ == dag_id@,
            w.task_id@ == task_id@,
            w.value is Initial,
            w.last_run_id is None,
            w.metadata@ == Map::<String, String>::empty(),
    {
        Watermark::new_at(dag_id, task_id, now_millis())
    }

    /// Moves the watermark to `value`, at `now_ms`, by run `run_id`.
    pub fn advance_at(&mut self, value: WatermarkValue, run_id: &str, now_ms: i64)
        ensures
            final(self).value == value,
            final(self).updated_at_ms == now_ms,
            final(self).last_run_id matches Some(r) && r@ == run_id@,
            final(self).dag_id == old(self).dag_id,
            final(self).task_id == old(self).task_id,
            final(self).metadata == old(self).metadata,
    {
        self.value = value;
        self.updated_at_ms = now_ms;
        self.last_run_id = Some(owned(run_id));
    }

    /// Advances the watermark to an instant.
    pub fn advance_timestamp(&mut self, ts: Timestamp, run_id: &str)
        ensures
            final(self).value == WatermarkValue::Timestamp(ts),
            final(self).last_run_id matches Some(r) && r@ == run_id@,
            final(self).dag_id == old(self).dag_id,
            final(self).task_id == old(self).task_id,
            final(self).metadata == old(self).metadata,
    {
        self.advance_at(WatermarkValue::Timestamp(ts), run_id, now_millis());
    }

    /// Advances the watermark to a sequence number.
    pub fn advance_sequence(&mut self, seq: i64, run_id: &str)
        ensures
            final(self).value == WatermarkValue::Sequence(seq),
            final(self).last_run_id matches Some(r) && r@ == run_id@,
            final(self).dag_id == old(self).dag_id,
            final(self).task_id == old(self).task_id,
            final(self).metadata == old(self).metadata,
    {
        self.advance_at(WatermarkValue::Sequence(seq), run_id, now_millis());
    }

    /// Advances the watermark to a partition key.
    pub fn advance_partition(&mut self, partition: &str, run_id: &str)
        ensures
            final(self).value matches WatermarkValue::Partition(p) && p@ == partition@,
            final(self).last_run_id matches Some(r) && r@ == run_id@,
            final(self).dag_id == old(self).dag_id,
            final(self).task_id == old(self).task_id,
            final(self).metadata == old(self).metadata,
    {
        self.advance_at(WatermarkValue::Partition(owned(partition)), run_id, now_millis());
    }

    /// Whether nothing has been processed yet.
    pub fn is_initial(&self) -> (b: bool)
        ensures
            b == (self.value is Initial),
    {
        match self.value {
            WatermarkValue::Initial => true,
            _ => false,
        }
    }
}

/// What an incremental task is told at run time, through its environment.
#[derive(Debug, Clone)]
pub struct IncrementalContext {
    /// Ignore the watermark and process everything.
    pub is_full_refresh: bool,
    /// Where to resume from.
    pub watermark: WatermarkValue,
    /// The watermark moved back by the lookback window.
    pub effective_start: Option<String>,
    /// The partitions to process, for partition strategies.
    pub target_partitions: Vec<String>,
    /// Batch size hint.
    pub batch_size: Option<u64>,
}

/// `bool::to_string`.
pub open spec fn bool_text(b: bool) -> Seq<char> {
    if b {
        "true"@
    } else {
        "false"@
    }
}

/// The kind and text of a watermark, as the environment carries them.
pub open spec fn watermark_vars(w: WatermarkValue) -> (Seq<char>, Seq<char>) {
    match w {
        WatermarkValue::Timestamp(ts) => ("timestamp"@, ts.text()),
        WatermarkValue::Sequence(seq) => ("sequence"@, signed_decimal(seq as int)),
        WatermarkValue::Partition(p) => ("partition"@, p@),
        WatermarkValue::Initial => ("initial"@, Seq::empty()),
    }
}

/// The environment variables of a context, in order.
pub open spec fn env_model(c: IncrementalContext) -> Seq<(Seq<char>, Seq<char>)> {
    let base = seq![
        ("CONDUIT_INCREMENTAL"@, "true"@),
        ("CONDUIT_FULL_REFRESH"@, bool_text(c.is_full_refresh)),
        ("CONDUIT_WATERMARK_TYPE"@, watermark_vars(c.watermark).0),
        ("CONDUIT_WATERMARK_VALUE"@, watermark_vars(c.watermark).1),
    ];
    let with_start = match c.effective_start {
        Some(s) => base.push(("CONDUIT_EFFECTIVE_START"@, s@)),
        None => base,
    };
    let with_parts = if c.target_partitions@.len() > 0 {
        with_start.push(("CONDUIT_TARGET_PARTITIONS"@, join(views(c.target_partitions@), ","@)))
    } else {
        with_start
    };
    match c.batch_size {
        Some(bs) => with_parts.push(("CONDUIT_BATCH_SIZE"@, decimal(bs as nat))),
        None => with_parts,
    }
}

/// The pairs as texts.
pub open spec fn env_views(v: Seq<(String, String)>) -> Seq<(Seq<char>, Seq<char>)> {
    v.map_values(|p: (String, String)| (p.0@, p.1@))
}

fn pair(k: &str, v: String) -> (p: (String, String))
    ensures
        p.0@ == k@,
        p.1@ == v@,
{
    (owned(k), v)
}

impl IncrementalContext {
    /// The environment variables handed to the task's process.
    pub fn to_env_vars(&self) -> (vars: Vec<(String, String)>)
        ensures
            env_views(vars@) == env_model(*self),
    {
        let mut vars: Vec<(String, String)> = Vec::new();
        vars.push(pair("CONDUIT_INCREMENTAL", owned("true")));
        vars.push(
            pair(
                "CONDUIT_FULL_REFRESH",
                if self.is_full_refresh {
                    owned("true")
                } else {
                    owned("false")
                },
            ),
        );
        match &self.watermark {
            WatermarkValue::Timestamp(ts) => {
                vars.push(pair("CONDUIT_WATERMARK_TYPE", owned("timestamp")));
                vars.push(pair("CONDUIT_WATERMARK_VALUE", ts.to_rfc3339()));
            },
            WatermarkValue::Sequence(seq) => {
                vars.push(pair("CONDUIT_WATERMARK_TYPE", owned("sequence")));
                let mut t: Vec<char> = Vec::new();
                push_signed_decimal(&mut t, *seq);
                vars.push(pair("CONDUIT_WATERMARK_VALUE", string_of(t.as_slice())));
            },
            WatermarkValue::Partition(p) => {
                vars.push(pair("CONDUIT_WATERMARK_TYPE", owned("partition")));
                vars.push(pair("CONDUIT_WATERMARK_VALUE", p.clone()));
            },
            WatermarkValue::Initial => {
                vars.push(pair("CONDUIT_WATERMARK_TYPE", owned("initial")));
                vars.push(pair("CONDUIT_WATERMARK_VALUE", String::new()));
            },
        }
        let ghost base = env_views(vars@);
        assert(base =~= seq![
            ("CONDUIT_INCREMENTAL"@, "true"@),
            ("CONDUIT_FULL_REFRESH"@, bool_text(self.is_full_refresh)),
            ("CONDUIT_WATERMARK_TYPE"@, watermark_vars(self.watermark).0),
            ("CONDUIT_WATERMARK_VALUE"@, watermark_vars(self.watermark).1),
        ]);
        if let Some(start) = &self.effective_start {
            vars.push(pair("CONDUIT_EFFECTIVE_START", start.clone()));
        }
        let ghost with_start = env_views(vars@);
        assert(with_start =~= match self.effective_start {
            Some(s) => base.push(("CONDUIT_EFFECTIVE_START"@, s@)),
            None => base,
        });
        if self.target_partitions.len() > 0 {
            vars.push(pair("CONDUIT_TARGET_PARTITIONS", join_strings(&self.target_partitions, ",")));
        }
        let ghost with_parts = env_views(vars@);
        assert(with_parts =~= if self.target_partitions@.len() > 0 {
            with_start.push(("CONDUIT_TARGET_PARTITIONS"@, join(views(self.target_partitions@), ","@)))
        } else {
            with_start
        });
        if let Some(bs) = self.batch_size {
            let mut t: Vec<char> = Vec::new();
            push_decimal(&mut t, bs);
            vars.push(pair("CONDUIT_BATCH_SIZE", string_of(t.as_slice())));
        }
        assert(env_views(vars@) =~= match self.batch_size {
            Some(bs) => with_parts.push(("CONDUIT_BATCH_SIZE"@, decimal(bs as nat))),
            None => with_parts,
        });
        vars
    }
}

} // verus!
