//! Backfills: a DAG run over a range of dates, one partition at a time.

use vstd::prelude::*;
use crate::incremental::{PartitionGranularity, Timestamp};

verus! {

/// A request to run a DAG across a range of dates.
#[derive(Debug, Clone)]
pub struct BackfillRequest {
    /// The DAG to backfill.
    pub dag_id: String,
    /// Start of the range (inclusive).
    pub start_date: Timestamp,
    /// End of the range (exclusive).
    pub end_date: Timestamp,
    /// How the range is split into partitions.
    pub granularity: PartitionGranularity,
    /// Target environment.
    pub environment: String,
    /// Partitions run at once, at most.
    pub max_concurrent_partitions: u32,
    /// Ignore watermarks and reprocess everything.
    pub full_refresh: bool,
    /// Only show what would run.
    pub dry_run: bool,
}

/// One partition of a backfill.
#[derive(Debug, Clone)]
pub struct BackfillPartition {
    /// Readable key, such as `2026-03-01`.
    pub partition_key: String,
    /// Start of the partition's window (inclusive).
    pub logical_start: Timestamp,
    /// End of the partition's window (exclusive).
    pub logical_end: Timestamp,
    /// Where it stands.
    pub status: PartitionStatus,
}

/// Where one partition of a backfill stands.
#[derive(Debug, Clone, PartialEq, Eq)]
pub enum PartitionStatus {
    /// Not started.
    Pending,
    /// Running.
    Running,
    /// Done, in this many milliseconds of wall-clock time.
    Success { duration_ms: u64 },
    /// Failed on this attempt with this error.
    Failed { error: String, attempt: u32 },
    /// Skipped, for this reason.
    Skipped { reason: String },
}

/// What a finished backfill did.
#[derive(Debug, Clone)]
pub struct BackfillResult {
    pub dag_id: String,
    pub total_partitions: usize,
    pub succeeded: usize,
    pub failed: usize,
    pub skipped: usize,
    pub total_duration_ms: u64,
    pub partitions: Vec<BackfillPartition>,
}

} // verus!
