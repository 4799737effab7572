//! The cluster manager's bootstrap plan.
//!
//! The manager spawns `C` clusters of `K` replicas each, elects replica 1 of
//! each cluster as the initial leader, promotes the rest, writes the initial
//! ring through each leader, and persists the address matrix for clients to
//! discover. Spawning, sleeping and every call over the network are the
//! embedder's; the plan itself — which ports, which addresses, which ids, in
//! which order — is computed and verified here.
use vstd::prelude::*;
use vstd::string::*;

verus! {

/// The first public API port; replica `n` of cluster `c` listens on
/// `API_PORT_BASE + 10 * c + n`.
pub const API_PORT_BASE: u64 = 31000;

/// The first consensus port; replica `n` of cluster `c` listens on
/// `RPC_PORT_BASE + 10 * c + n`.
pub const RPC_PORT_BASE: u64 = 32000;

/// The decimal digit characters of a number, most significant first.
pub open spec fn spec_decimal(n: u64) -> Seq<char>
    decreases n,
{
    if n < 10 {
        seq![digit_char(n)]
    } else {
        spec_decimal(n / 10).push(digit_char(n % 10))
    }
}

/// The character of one decimal digit.
pub open spec fn digit_char(d: u64) -> char {
    if d == 0 {
        '0'
    } else if d == 1 {
        '1'
    } else if d == 2 {
        '2'
    } else if d == 3 {
        '3'
    } else if d == 4 {
        '4'
    } else if d == 5 {
        '5'
    } else if d == 6 {
        '6'
    } else if d == 7 {
        '7'
    } else if d == 8 {
        '8'
    } else {
        '9'
    }
}

/// A local address on the given port.
pub open spec fn spec_addr(port: u64) -> Seq<char> {
    "127.0.0.1:"@ + spec_decimal(port)
}

fn digit_str(d: u64) -> (r: &'static str)
    requires
        d < 10,
    ensures
        r@ == seq![digit_char(d)],
{
    proof {
        reveal_strlit("0");
        reveal_strlit("1");
        reveal_strlit("2");
        reveal_strlit("3");
        reveal_strlit("4");
        reveal_strlit("5");
        reveal_strlit("6");
        reveal_strlit("7");
        reveal_strlit("8");
        reveal_strlit("9");
    }
    let r = match d {
        0 => "0",
        1 => "1",
        2 => "2",
        3 => "3",
        4 => "4",
        5 => "5",
        6 => "6",
        7 => "7",
        8 => "8",
        _ => "9",
    };
    proof {
        assert(r@ =~= seq![digit_char(d)]);
    }
    r
}

/// The decimal rendering of a number, as in an address string.
pub fn format_u64(n: u64) -> (r: String)
    ensures
        r@ == spec_decimal(n),
    decreases n,
{
    if n < 10 {
        digit_str(n).to_owned()
    } else {
        let mut s = format_u64(n / 10);
        s.append(digit_str(n % 10));
        proof {
            assert(s@ =~= spec_decimal(n));
        }
        s
    }
}

/// The public API port of one replica.
pub fn api_port(node_id: u64, cluster_id: u64) -> (r: u64)
    requires
        API_PORT_BASE + cluster_id * 10 + node_id <= 0xFFFF,
    ensures
        r == API_PORT_BASE + cluster_id * 10 + node_id,
{
    API_PORT_BASE + cluster_id * 10 + node_id
}

/// The consensus port of one replica.
pub fn rpc_port(node_id: u64, cluster_id: u64) -> (r: u64)
    requires
        RPC_PORT_BASE + cluster_id * 10 + node_id <= 0xFFFF,
    ensures
        r == RPC_PORT_BASE + cluster_id * 10 + node_id,
{
    RPC_PORT_BASE + cluster_id * 10 + node_id
}

/// The public API address of one replica.
pub fn get_addr(node_id: u64, cluster_id: u64) -> (r: String)
    requires
        API_PORT_BASE + cluster_id * 10 + node_id <= 0xFFFF,
    ensures
        r@ == spec_addr((API_PORT_BASE + cluster_id * 10 + node_id) as u64),
{
    let p = api_port(node_id, cluster_id);
    let mut s = "127.0.0.1:".to_owned();
    let d = format_u64(p);
    s.append(d.as_str());
    s
}

/// The consensus address of one replica.
pub fn get_rpc_addr(node_id: u64, cluster_id: u64) -> (r: String)
    requires
        RPC_PORT_BASE + cluster_id * 10 + node_id <= 0xFFFF,
    ensures
        r@ == spec_addr((RPC_PORT_BASE + cluster_id * 10 + node_id) as u64),
{
    let p = rpc_port(node_id, cluster_id);
    let mut s = "127.0.0.1:".to_owned();
    let d = format_u64(p);
    s.append(d.as_str());
    s
}

/// One replica of the spawn plan: its cluster, its id within the cluster,
/// and both endpoints.
#[derive(Debug)]
pub struct ReplicaPlan {
    pub cluster_id: u64,
    pub node_id: u64,
    pub api_addr: String,
    pub rpc_addr: String,
}

/// Whether a plan entry is the one of replica `n` of cluster `c`.
pub open spec fn plan_is(p: ReplicaPlan, c: int, n: int) -> bool {
    &&& p.cluster_id == c
    &&& p.node_id == n
    &&& p.api_addr@ == spec_addr((API_PORT_BASE + c * 10 + n) as u64)
    &&& p.rpc_addr@ == spec_addr((RPC_PORT_BASE + c * 10 + n) as u64)
}

/// The spawn plan of the fleet: one row per cluster `1..=C`, one entry per
/// replica `1..=K`, each with its two endpoints. Row `c - 1` entry `n - 1`
/// is replica `n` of cluster `c`; the first entry of each row is the
/// cluster's initial leader.
pub fn replica_plans(num_clusters: u64, nodes_per_cluster: u64) -> (r: Vec<Vec<ReplicaPlan>>)
    requires
        RPC_PORT_BASE + num_clusters * 10 + nodes_per_cluster <= 0xFFFF,
        num_clusters >= 1,
        nodes_per_cluster >= 1,
        nodes_per_cluster <= 9,
    ensures
        r@.len() == num_clusters,
        forall|c: int| 0 <= c < num_clusters ==> (#[trigger] r@[c])@.len() == nodes_per_cluster,
        forall|c: int, n: int|
            0 <= c < num_clusters && 0 <= n < nodes_per_cluster ==> plan_is(
                #[trigger] r@[c]@[n],
                c + 1,
                n + 1,
            ),
{
    let mut rows: Vec<Vec<ReplicaPlan>> = Vec::new();
    let mut c: u64 = 1;
    while c <= num_clusters
        invariant
            RPC_PORT_BASE + num_clusters * 10 + nodes_per_cluster <= 0xFFFF,
            nodes_per_cluster <= 9,
            1 <= c <= num_clusters + 1,
            rows@.len() == c - 1,
            forall|i: int| 0 <= i < c - 1 ==> (#[trigger] rows@[i])@.len() == nodes_per_cluster,
            forall|i: int, n: int|
                0 <= i < c - 1 && 0 <= n < nodes_per_cluster ==> plan_is(
                    #[trigger] rows@[i]@[n],
                    i + 1,
                    n + 1,
                ),
        decreases num_clusters + 1 - c,
    {
        let mut row: Vec<ReplicaPlan> = Vec::new();
        let mut n: u64 = 1;
        while n <= nodes_per_cluster
            invariant
                RPC_PORT_BASE + num_clusters * 10 + nodes_per_cluster <= 0xFFFF,
                nodes_per_cluster <= 9,
                1 <= c <= num_clusters,
                1 <= n <= nodes_per_cluster + 1,
                row@.len() == n - 1,
                forall|m: int|
                    0 <= m < n - 1 ==> plan_is(#[trigger] row@[m], c as int, m + 1),
            decreases nodes_per_cluster + 1 - n,
        {
            proof {
                assert(c * 10 <= num_clusters * 10) by (nonlinear_arith)
                    requires
                        1 <= c <= num_clusters,
                ;
            }
            let api_addr = get_addr(n, c);
            let rpc_addr = get_rpc_addr(n, c);
            row.push(ReplicaPlan { cluster_id: c, node_id: n, api_addr, rpc_addr });
            n += 1;
        }
        rows.push(row);
        c += 1;
    }
    rows
}

/// The leader the client first contacts in each cluster: the first address
/// of each row of the discovery matrix.
pub fn leader_addrs(matrix: &Vec<Vec<String>>) -> (r: Vec<String>)
    requires
        forall|i: int| 0 <= i < matrix@.len() ==> (#[trigger] matrix@[i])@.len() >= 1,
    ensures
        r@.len() == matrix@.len(),
        forall|i: int| 0 <= i < r@.len() ==> (#[trigger] r@[i])@ == matrix@[i]@[0]@,
{
    let mut out: Vec<String> = Vec::new();
    let mut i: usize = 0;
    while i < matrix.len()
        invariant
            forall|k: int| 0 <= k < matrix@.len() ==> (#[trigger] matrix@[k])@.len() >= 1,
            i <= matrix@.len(),
            out@.len() == i,
            forall|k: int| 0 <= k < i ==> (#[trigger] out@[k])@ == matrix@[k]@[0]@,
        decreases matrix@.len() - i,
    {
        let a = matrix[i][0].clone();
        out.push(a);
        i += 1;
    }
    out
}

/// The initial ring entries: one per cluster, the leader's address under one
/// shared raw load. The load word is the wire encoding of `1 / C`, derived
/// by the embedder.
pub fn initial_ring_entries(leaders: &Vec<String>, raw_load: u32) -> (r: Vec<(String, u32)>)
    ensures
        r@.len() == leaders@.len(),
        forall|i: int|
            0 <= i < r@.len() ==> (#[trigger] r@[i]).0@ == leaders@[i]@ && r@[i].1 == raw_load,
{
    let mut out: Vec<(String, u32)> = Vec::new();
    let mut i: usize = 0;
    while i < leaders.len()
        invariant
            i <= leaders@.len(),
            out@.len() == i,
            forall|k: int|
                0 <= k < i ==> (#[trigger] out@[k]).0@ == leaders@[k]@ && out@[k].1 == raw_load,
        decreases leaders@.len() - i,
    {
        let a = leaders[i].clone();
        out.push((a, raw_load));
        i += 1;
    }
    out
}

/// The voter ids of one cluster, `1..=K`: what change-membership promotes
/// once every learner is caught up.
pub fn membership_ids(nodes_per_cluster: u64) -> (r: Vec<u64>)
    ensures
        r@.len() == nodes_per_cluster,
        forall|i: int| 0 <= i < r@.len() ==> r@[i] == i + 1,
{
    let mut out: Vec<u64> = Vec::new();
    let mut i: u64 = 0;
    while i < nodes_per_cluster
        invariant
            i <= nodes_per_cluster,
            out@.len() == i,
            forall|k: int| 0 <= k < i ==> out@[k] == k + 1,
        decreases nodes_per_cluster - i,
    {
        out.push(i + 1);
        i += 1;
    }
    out
}

} // verus!
