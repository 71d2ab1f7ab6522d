//! Control and data plane of a chunk-based distributed file storage
//! cluster: the framed wire codec with its round-trip guarantees, the
//! metadata server's placement, lookup and liveness logic, the
//! chunkserver's atomic chunk commit, and the client's chunking plan.

pub mod chunkserver;
pub mod client;
pub mod codec;
pub mod config;
pub mod entropy;
pub mod kvmap;
pub mod messages;
pub mod metadataserver;
pub mod payloads;
pub mod placement;
