//! Deep-analysis job broker: a precedence-ordered, lease-based work queue for
//! chess engine analysis, with report aggregation and exactly-once downstream
//! dispatch.
//!
//! The library holds the verified core: the job-queue state machine, the
//! report aggregation state machine, the in-process publish/subscribe ring,
//! the ingest pipeline (SAN to UCI translation included), and the worker
//! protocol payloads. I/O lives outside, handing the library plain values.

pub mod bus;
pub mod chess;
pub mod error;
pub mod ingest;
pub mod irwin;
pub mod model;
pub mod queue;
pub mod store;
pub mod worker;

use vstd::prelude::*;

verus! {

/// Milliseconds a worker may hold a job without updating it before the job
/// becomes reclaimable by another worker.
pub const LEASE_TTL_MILLIS: u64 = 600_000;

/// How many of the newest queue events the bus retains for slow subscribers.
pub const CHANNEL_CAPACITY: usize = 1024;

} // verus!
