//! Conduit: the verified core of a data pipeline orchestrator.
//!
//! The crate holds the logic of the orchestrator that can be stated and
//! proved: DAG dependency resolution, environment snapshot maps, task
//! fingerprints, the stdout task protocol, duration handling, YAML and
//! Python workflow reading, task commands, the worker pool's routing, the
//! coordinator's dispatch and recovery of tasks, the assignment store and
//! the wire enum encodings.

pub mod text;
pub mod graph;
pub mod error;
pub mod dag;
pub mod incremental;
pub mod backfill;
pub mod event;
pub mod resolver;
pub mod clock;
pub mod snapshot;
pub mod duration;
pub mod protocol;
pub mod fingerprint;
pub mod metrics;
pub mod proto_types;
pub mod convert;
pub mod worker_pool;
pub mod coordinator;
pub mod assignment_store;
pub mod distributed;
pub mod config;
pub mod yaml;
pub mod task_output;
pub mod command;
pub mod pyparse;
pub mod worker;
pub mod executor;
pub mod distributed_executor;
pub mod plan;
pub mod pysyntax;
pub mod dagparse;
pub mod sqlio;
pub mod contracts;
pub mod yaml_contracts;
