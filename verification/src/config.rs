//! Cluster-wide wire constants.

use vstd::prelude::*;

verus! {

/// Largest number of bytes a single chunk may hold.
pub const MAX_CHUNK_SIZE: u64 = 64 * 1024 * 1024;

/// Number of replica copies kept beside the primary copy of a chunk.
pub const N_CHUNK_REPLICAS: usize = 2;

/// Upper bound on tasks a client spawns while fanning chunks out.
pub const MAX_SPAWNED_TASKS: usize = 16;

/// Seconds between two heartbeats of a chunkserver.
pub const HEARTBEAT_INTERVAL_SECS: u64 = 60;

/// Extra seconds of tolerance before a silent chunkserver counts as dead.
pub const HEARTBEAT_MARGIN_SECS: u64 = 15;

/// Milliseconds of silence after which a chunkserver counts as dead.
pub const HEARTBEAT_EXPIRY_MILLIS: u64 = (HEARTBEAT_INTERVAL_SECS + HEARTBEAT_MARGIN_SECS) * 1000;

} // verus!
