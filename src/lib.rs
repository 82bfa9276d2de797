//! Orchestration of sharded proofs over a computation graph: how input buffers
//! and challenge points are split among shards, which shards are proved and
//! verified in which order, how a worker process takes its requests, and how
//! witnesses and proofs are laid out in shared memory.

use vstd::prelude::*;

pub mod binding;
pub mod combined;
pub mod config;
pub mod field;
pub mod graph;
pub mod partition;
pub mod prover;
pub mod server;
pub mod shard;
pub mod transport;

verus! {

} // verus!
