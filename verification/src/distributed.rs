//! Configuration of the coordinator, the workers and the distributed
//! executor, and the executor's dispatch decisions.

use vstd::prelude::*;
use std::collections::HashMap;
use crate::proto_types::TaskOutcome;
use crate::protocol::{json_reads, json_value};
use crate::text::{decimal, owned, push_decimal, push_str, string_of};
use crate::worker_pool::RoutingStrategy;

verus! {

/// Configuration of the coordinator.
#[derive(Debug, Clone)]
pub struct CoordinatorConfig {
    /// Address the gRPC server binds (e.g. `0.0.0.0:9400`).
    pub bind_addr: String,
    /// Seconds between worker health checks.
    pub health_check_interval_secs: u64,
    /// How tasks are routed to workers.
    pub routing_strategy: RoutingStrategy,
    /// Tasks queued before backpressure applies.
    pub max_queue_size: usize,
    /// Seconds an assignment may run before it counts as stuck.
    pub task_timeout_secs: u64,
    /// TLS certificate PEM path for the server.
    pub tls_cert_path: Option<String>,
    /// TLS private key PEM path for the server.
    pub tls_key_path: Option<String>,
}

impl Default for CoordinatorConfig {
    fn default() -> (c: Self)
        ensures
            c.bind_addr@ == "0.0.0.0:9400"@,
            c.health_check_interval_secs == 10,
            c.routing_strategy == RoutingStrategy::LeastLoaded,
            c.max_queue_size == 10_000,
            c.task_timeout_secs == 3600,
            c.tls_cert_path is None,
            c.tls_key_path is None,
    {
        CoordinatorConfig {
            bind_addr: owned("0.0.0.0:9400"),
            health_check_interval_secs: 10,
            routing_strategy: RoutingStrategy::LeastLoaded,
            max_queue_size: 10_000,
            task_timeout_secs: 3600,
            tls_cert_path: None,
            tls_key_path: None,
        }
    }
}

/// Configuration of a worker node.
#[derive(Debug, Clone)]
pub struct WorkerConfig {
    /// Unique worker id; made from the host name when empty.
    pub worker_id: String,
    /// Coordinator address (e.g. `localhost:9400`).
    pub coordinator_addr: String,
    /// Most tasks run at once.
    pub capacity: u32,
    /// Pools this worker takes tasks from.
    pub pool_affinity: Vec<String>,
    /// Labels for worker selection.
    pub labels: HashMap<String, String>,
    /// Seconds between heartbeats.
    pub heartbeat_interval_secs: u64,
    /// Whether to drain gracefully on shutdown.
    pub graceful_shutdown: bool,
    /// CA certificate PEM path for TLS to the coordinator.
    pub tls_ca_cert_path: Option<String>,
}

/// The worker id a host and process get: `worker-{hostname}-{pid}`.
pub open spec fn worker_id_for(hostname: Seq<char>, pid: u32) -> Seq<char> {
    "worker-"@ + hostname + "-"@ + decimal(pid as nat)
}

impl WorkerConfig {
    /// The default settings with the id of this host and process.
    pub fn for_host(hostname: &str, pid: u32) -> (c: Self)
        ensures
            c.worker_id@ == worker_id_for(hostname@, pid),
            c.coordinator_addr@ == "localhost:9400"@,
            c.capacity == 4,
            c.pool_affinity@.len() == 1,
            c.pool_affinity@[0]@ == "default"@,
            c.labels@ == Map::<String, String>::empty(),
            c.heartbeat_interval_secs == 5,
            c.graceful_shutdown,
            c.tls_ca_cert_path is None,
    {
        let mut id: Vec<char> = Vec::new();
        push_str(&mut id, "worker-");
        push_str(&mut id, hostname);
        push_str(&mut id, "-");
        push_decimal(&mut id, pid as u64);
        let mut c = WorkerConfig::default();
        c.worker_id = string_of(id.as_slice());
        c
    }
}

impl Default for WorkerConfig {
    /// The default settings, with the id left empty, to be made from the
    /// host at startup.
    fn default() -> (c: Self)
        ensures
            c.worker_id@ == Seq::<char>::empty(),
            c.coordinator_addr@ == "localhost:9400"@,
            c.capacity == 4,
            c.pool_affinity@.len() == 1,
            c.pool_affinity@[0]@ == "default"@,
            c.labels@ == Map::<String, String>::empty(),
            c.heartbeat_interval_secs == 5,
            c.graceful_shutdown,
            c.tls_ca_cert_path is None,
    {
        let mut pools: Vec<String> = Vec::new();
        pools.push(owned("default"));
        WorkerConfig {
            worker_id: String::new(),
            coordinator_addr: owned("localhost:9400"),
            capacity: 4,
            pool_affinity: pools,
            labels: HashMap::new(),
            heartbeat_interval_secs: 5,
            graceful_shutdown: true,
            tls_ca_cert_path: None,
        }
    }
}

/// Where tasks run: locally, on workers, or on workers when they name a pool.
#[derive(Debug, Clone, Copy, PartialEq, Eq, Structural)]
pub enum ExecutionMode {
    /// Every task runs locally.
    Local,
    /// Every task goes to a worker.
    Distributed,
    /// Tasks with a pool go to workers; the rest run locally.
    Hybrid,
}

/// Configuration of the distributed executor.
#[derive(Debug, Clone)]
pub struct DistributedExecutorConfig {
    /// The coordinator's configuration.
    pub coordinator: CoordinatorConfig,
    /// Task timeout in seconds when a task sets none.
    pub default_timeout_secs: u64,
}

impl Default for DistributedExecutorConfig {
    fn default() -> (c: Self)
        ensures
            c.coordinator.bind_addr@ == "0.0.0.0:9400"@,
            c.coordinator.health_check_interval_secs == 10,
            c.coordinator.routing_strategy == RoutingStrategy::LeastLoaded,
            c.coordinator.max_queue_size == 10_000,
            c.coordinator.task_timeout_secs == 3600,
            c.coordinator.tls_cert_path is None,
            c.coordinator.tls_key_path is None,
            c.default_timeout_secs == 3600,
    {
        DistributedExecutorConfig { coordinator: CoordinatorConfig::default(), default_timeout_secs: 3600 }
    }
}

/// The timeout a dispatched task runs with: its own, or the default when it
/// sets none (zero).
pub fn effective_timeout(config: &DistributedExecutorConfig, timeout_secs: u64) -> (t: u64)
    ensures
        t == if timeout_secs > 0 {
            timeout_secs
        } else {
            config.default_timeout_secs
        },
{
    if timeout_secs > 0 {
        timeout_secs
    } else {
        config.default_timeout_secs
    }
}

/// The pool a dispatched task goes to: its own, or `default` when it names
/// none.
pub fn effective_pool(pool: &str) -> (p: String)
    ensures
        p@ == if pool@.len() == 0 {
            "default"@
        } else {
            pool@
        },
{
    if pool.is_empty() {
        owned("default")
    } else {
        owned(pool)
    }
}

/// Whether a task outcome counts as a success for the scheduler.
pub fn outcome_succeeded(outcome: TaskOutcome) -> (b: bool)
    ensures
        b == (outcome == TaskOutcome::Success),
{
    outcome == TaskOutcome::Success
}

/// A worker's error text as the scheduler gets it: `None` when empty.
pub fn error_text(error: &str) -> (r: Option<String>)
    ensures
        match r {
            Some(e) => error@.len() > 0 && e@ == error@,
            None => error@.len() == 0,
        },
{
    if error.is_empty() {
        None
    } else {
        Some(owned(error))
    }
}

/// A worker's XCom as the scheduler gets it: `None` when the text is empty
/// or is not JSON, else the JSON value it holds.
pub fn xcom_value(json: &str) -> (r: Option<serde_json::Value>)
    ensures
        json@.len() == 0 ==> r is None,
        json@.len() > 0 ==> (r is Some <==> json_reads(json@)),
{
    if json.is_empty() {
        None
    } else {
        json_value(json)
    }
}

} // verus!
