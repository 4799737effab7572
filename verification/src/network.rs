//! The discrete core of the shard server's network face.
//!
//! A replica hosts two listeners: the consensus RPC service peers dial, and
//! the public HTTP API. The listeners, the consensus engine and the codecs
//! are outside this crate; here stand the replica's identity, the frames of
//! the consensus RPC, the address a peer connection dials, and the
//! single-node membership the init endpoint proposes.
use crate::Node;
use std::sync::Arc;
use vstd::prelude::*;
use vstd::string::*;

verus! {

/// How often the leader heartbeats its followers, in milliseconds.
pub const HEARTBEAT_INTERVAL_MS: u64 = 250;

/// The least time without a heartbeat before a follower calls an election,
/// in milliseconds.
pub const ELECTION_TIMEOUT_MIN_MS: u64 = 299;

/// The identity of one running replica: its id and both endpoints.
pub struct App {
    pub id: u64,
    pub api_addr: String,
    pub rpc_addr: String,
}

impl App {
    pub fn new(id: u64, api_addr: String, rpc_addr: String) -> (a: App)
        ensures
            a.id == id,
            a.api_addr == api_addr,
            a.rpc_addr == rpc_addr,
    {
        App { id, api_addr, rpc_addr }
    }
}

/// The consensus protocol service of one replica. The transport hands each
/// decoded protocol message to the engine and frames the engine's answer;
/// this type carries the replica state the service answers for.
pub struct Raft {
    pub app: Arc<App>,
}

impl Raft {
    pub fn new(app: Arc<App>) -> (r: Raft)
        ensures
            r.app == app,
    {
        Raft { app }
    }
}

/// The membership a replica proposes when its init endpoint is called: a
/// single-member cluster of itself.
pub fn init_membership(app: &App) -> (r: Vec<(u64, Node)>)
    ensures
        r@.len() == 1,
        r@[0].0 == app.id,
        r@[0].1.api_addr@ == app.api_addr@,
        r@[0].1.rpc_addr@ == app.rpc_addr@,
{
    let node = Node::new(app.rpc_addr.clone(), app.api_addr.clone());
    let mut out: Vec<(u64, Node)> = Vec::new();
    out.push((app.id, node));
    out
}

/// The factory of consensus connections: one per replication target.
pub struct Network {}

impl Network {
    /// The endpoint a consensus client dials for a peer: plain HTTP at the
    /// peer's consensus address.
    pub fn client_endpoint(&self, node: &Node) -> (r: String)
        ensures
            r@ == "http://"@ + node.rpc_addr@,
    {
        let mut s = "http://".to_owned();
        s.append(node.rpc_addr.as_str());
        s
    }
}

/// The reply frame of the consensus RPC. A reply carries either the engine's answer in `data` or
/// the engine's error in `error`, never both.
pub struct RaftReply {
    pub data: Vec<u8>,
    pub error: Vec<u8>,
}

impl RaftReply {
    /// Frames a successful answer: the payload, and no error bytes.
    pub fn ok(data: Vec<u8>) -> (r: RaftReply)
        ensures
            r.data@ == data@,
            r.error@ == Seq::<u8>::empty(),
    {
        let r = RaftReply { data, error: Vec::new() };
        proof {
            assert(r.error@ =~= Seq::<u8>::empty());
        }
        r
    }

    /// Frames a failure: the encoded error, and no payload bytes.
    pub fn err(error: Vec<u8>) -> (r: RaftReply)
        ensures
            r.error@ == error@,
            r.data@ == Seq::<u8>::empty(),
    {
        let r = RaftReply { data: Vec::new(), error };
        proof {
            assert(r.data@ =~= Seq::<u8>::empty());
        }
        r
    }
}

} // verus!
