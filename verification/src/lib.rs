//! A horizontally sharded, strongly consistent key/value store.
//!
//! The keyspace is partitioned across independent replicated shards. Clients
//! route each key to exactly one shard with a weighted content-based hash
//! (CARP), then talk to that shard's current leader. This crate holds the
//! discrete core of that system: the CARP hashes and the ring's structure,
//! the replicated state machine that every shard applies, the client's
//! routing, redirect and failover decisions, and the cluster bootstrap plan.
//! The embedding binary supplies what cannot be verified here: the IEEE-754
//! load arithmetic, the consensus engine, and all transport.
use vstd::prelude::*;

pub mod carp;
pub mod cluster;
pub mod kvclient;
pub mod network;
pub mod store;

verus! {

/// Identifier of one replica inside a shard.
pub type NodeId = u64;

/// The two endpoints of one replica: consensus traffic and the public API.
pub struct Node {
    pub rpc_addr: String,
    pub api_addr: String,
}

impl Node {
    pub fn new(rpc_addr: String, api_addr: String) -> (n: Node)
        ensures
            n.rpc_addr == rpc_addr,
            n.api_addr == api_addr,
    {
        Node { rpc_addr, api_addr }
    }
}

} // verus!
