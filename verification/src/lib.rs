//! Scheduling and accounting core of an ICMP reachability prober.
//!
//! The crate turns host specifications into probe targets, assembles the
//! outcomes of a probe round, accumulates them into monotonic metric state,
//! holds the active configuration, and decides how long to sleep between
//! rounds. Sockets, files and the metrics endpoint live with the caller.

pub mod addr;
pub mod config;
pub mod metrics;
pub mod probe;
pub mod prober;
pub mod ranges;
pub mod scheduler;
pub mod target;
pub mod text;
