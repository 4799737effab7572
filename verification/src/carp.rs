//! The CARP routing ring: weighted rendezvous hashing over shard endpoints.
//!
//! The three 32-bit hashes below follow the CARP v1 draft: a byte fold shared
//! by the membership and URL hashes, and a prime mix applied to the membership
//! hash and to the combined score input. The URL hash deliberately omits the
//! prime mix and the final rotation; that asymmetry is load-bearing.
//!
//! Load weights cross this crate as the raw 32-bit words of their wire form.
//! Their numeric interpretation, the load-factor derivation and the scoring
//! multiply are real-valued and belong to the embedding application; the ring
//! here carries them untouched and answers for everything discrete: the
//! membership list, the derived hashes, the revision counter and the
//! per-primary fallback lists.
use vstd::prelude::*;
use vstd::string::*;

verus! {

/// The multiplier of the prime mix step, from the CARP v1 draft.
pub const CARP_PRIME: u32 = 0x62531965;

/// Left-rotate by 19, the rotation of the byte fold.
pub open spec fn rotl19(h: u32) -> u32 {
    (h << 19u32) | (h >> 13u32)
}

/// Left-rotate by 21, the final rotation of the prime mix.
pub open spec fn rotl21(h: u32) -> u32 {
    (h << 21u32) | (h >> 11u32)
}

/// One step of the byte fold: `h + (rotl19(h) + b)`, wrapping.
pub open spec fn fold_step(h: u32, b: u8) -> u32 {
    h.wrapping_add(rotl19(h).wrapping_add(b as u32))
}

/// The byte fold shared by the membership hash and the URL hash.
pub open spec fn spec_byte_fold(bytes: Seq<u8>) -> u32
    decreases bytes.len(),
{
    if bytes.len() == 0 {
        0u32
    } else {
        fold_step(spec_byte_fold(bytes.drop_last()), bytes.last())
    }
}

/// The prime mix: `h + h * CARP_PRIME` wrapping, then a left rotation by 21.
pub open spec fn spec_mix(h: u32) -> u32 {
    rotl21(h.wrapping_add(h.wrapping_mul(CARP_PRIME)))
}

/// The membership hash of an address: the byte fold, then the prime mix.
pub open spec fn spec_membership_hash(bytes: Seq<u8>) -> u32 {
    spec_mix(spec_byte_fold(bytes))
}

/// The URL hash of a key: the bare byte fold, with no mix and no rotation.
pub open spec fn spec_url_hash(bytes: Seq<u8>) -> u32 {
    spec_byte_fold(bytes)
}

/// The score input of one node for one key: XOR of the two hashes, mixed.
pub open spec fn spec_combine(membership: u32, url: u32) -> u32 {
    spec_mix(membership ^ url)
}

fn rotl19_exec(h: u32) -> (r: u32)
    ensures
        r == rotl19(h),
{
    (h << 19u32) | (h >> 13u32)
}

fn rotl21_exec(h: u32) -> (r: u32)
    ensures
        r == rotl21(h),
{
    (h << 21u32) | (h >> 11u32)
}

fn byte_fold(bytes: &[u8]) -> (h: u32)
    ensures
        h == spec_byte_fold(bytes@),
{
    let mut h: u32 = 0;
    let mut i: usize = 0;
    while i < bytes.len()
        invariant
            i <= bytes@.len(),
            h == spec_byte_fold(bytes@.take(i as int)),
        decreases bytes@.len() - i,
    {
        let b = bytes[i];
        h = h.wrapping_add(rotl19_exec(h).wrapping_add(b as u32));
        i += 1;
        proof {
            assert(bytes@.take(i as int).drop_last() =~= bytes@.take(i as int - 1));
            assert(bytes@.take(i as int).last() == b);
        }
    }
    proof {
        assert(bytes@.take(bytes@.len() as int) =~= bytes@);
    }
    h
}

fn mix(h: u32) -> (r: u32)
    ensures
        r == spec_mix(h),
{
    rotl21_exec(h.wrapping_add(h.wrapping_mul(CARP_PRIME)))
}

/// Calculates the membership hash of an address.
///
/// Irreversibility and cryptographic strength are unnecessary here, so a
/// simple and fast hash built on the bitwise left rotate is used.
pub fn membership_hash(addr: &str) -> (h: u32)
    ensures
        h == spec_membership_hash(addr.spec_bytes()),
{
    mix(byte_fold(addr.as_bytes()))
}

/// Calculates the hash of a key (a URL in CARP's terms).
pub fn url_hash(url: &str) -> (h: u32)
    ensures
        h == spec_url_hash(url.spec_bytes()),
{
    byte_fold(url.as_bytes())
}

/// Combines a membership hash with a URL hash into the score input.
pub fn combine_hashes(membership: u32, url: u32) -> (c: u32)
    ensures
        c == spec_combine(membership, url),
{
    mix(membership ^ url)
}

/// The membership hash is a pure function of the address bytes: equal inputs
/// give equal hashes, in any process, on any machine, and on either side of a
/// serialization boundary.
pub proof fn lemma_membership_hash_pure(a: Seq<u8>, b: Seq<u8>)
    requires
        a == b,
    ensures
        spec_membership_hash(a) == spec_membership_hash(b),
{
}

/// The UTF-8 bytes of an address, as hashed on every peer.
pub open spec fn addr_bytes(s: Seq<char>) -> Seq<u8> {
    vstd::utf8::encode_utf8(s)
}

/// The membership hash a well-formed node derives from its address.
#[verifier::opaque]
pub open spec fn node_hash_of(addr: Seq<char>) -> u32 {
    spec_membership_hash(addr_bytes(addr))
}

/// The views of a list of owned strings.
pub open spec fn strs_view(v: Seq<String>) -> Seq<Seq<char>> {
    v.map_values(|s: String| s@)
}

/// The revision counter and the time-to-live hint a fresh ring starts with.
pub const DEFAULT_LIST_TTL: u32 = 600;

/// A node of the hash ring: one shard's primary endpoint.
///
/// The two load fields carry the raw 32-bit words of the wire encoding of the
/// node's relative load and derived load factor. This crate never interprets
/// them numerically; the embedding application derives `load_factor` from the
/// relative loads after every mutation and scores with both.
#[derive(Debug, PartialEq)]
pub struct Node {
    pub addr: String,
    /// Raw word of the normalized share of the keyspace this node serves.
    pub relative_load: u32,
    /// Raw word of the selection multiplier derived from the relative loads.
    pub load_factor: u32,
    /// The membership hash, derived from `addr`.
    pub hash: u32,
}

#[verifier::ext_equal]
pub struct NodeView {
    pub addr: Seq<char>,
    pub relative_load: u32,
    pub load_factor: u32,
    pub hash: u32,
}

impl View for Node {
    type V = NodeView;

    open spec fn view(&self) -> NodeView {
        NodeView {
            addr: self.addr@,
            relative_load: self.relative_load,
            load_factor: self.load_factor,
            hash: self.hash,
        }
    }
}

impl NodeView {
    /// The derived hash is the one the address demands.
    pub open spec fn wf(self) -> bool {
        self.hash == node_hash_of(self.addr)
    }
}

impl Node {
    /// Creates a new node with its hash derived from the address and the
    /// load factor not yet derived.
    pub fn new(addr: String, relative_load: u32) -> (n: Node)
        ensures
            n@.addr == addr@,
            n@.relative_load == relative_load,
            n@.load_factor == 0,
            n@.wf(),
    {
        let hash = membership_hash(addr.as_str());
        proof {
            reveal(node_hash_of);
        }
        Node { addr, relative_load, load_factor: 0, hash }
    }

    /// A deep copy whose view is the same.
    pub fn duplicate(&self) -> (n: Node)
        ensures
            n@ == self@,
    {
        let n = Node {
            addr: self.addr.clone(),
            relative_load: self.relative_load,
            load_factor: self.load_factor,
            hash: self.hash,
        };
        proof {
            assert(n@ =~= self@);
        }
        n
    }
}

/// A CARP hash ring.
///
/// The protocol version of the wire form is constant and is attached by the
/// serializer; everything the routing logic reads is here.
#[derive(Debug, PartialEq)]
pub struct Carp {
    /// Configuration revision; bumped by every mutation.
    pub config_id: u32,
    /// How long a fetched copy of the list stays fresh, in seconds.
    pub list_ttl: u32,
    pub nodes: Vec<Node>,
    /// Ordered fallback addresses per primary, consulted on failover.
    pub proxy_map: Vec<(String, Vec<String>)>,
}

/// The views of a list of nodes.
pub open spec fn nodes_view(v: Seq<Node>) -> Seq<NodeView> {
    v.map_values(|n: Node| n@)
}

/// The views of a proxy map.
pub open spec fn proxy_view(p: Seq<(String, Vec<String>)>) -> Seq<(Seq<char>, Seq<Seq<char>>)> {
    p.map_values(|q: (String, Vec<String>)| (q.0@, strs_view(q.1@)))
}

#[verifier::ext_equal]
pub struct RingView {
    pub config_id: u32,
    pub list_ttl: u32,
    pub nodes: Seq<NodeView>,
    pub proxy: Seq<(Seq<char>, Seq<Seq<char>>)>,
}

impl View for Carp {
    type V = RingView;

    open spec fn view(&self) -> RingView {
        RingView {
            config_id: self.config_id,
            list_ttl: self.list_ttl,
            nodes: nodes_view(self.nodes@),
            proxy: proxy_view(self.proxy_map@),
        }
    }
}

/// The ordered fallback list recorded for an address: the first matching
/// entry of the proxy map, or empty where none is recorded.
pub open spec fn spec_fallbacks(proxy: Seq<(Seq<char>, Seq<Seq<char>>)>, addr: Seq<char>) -> Seq<
    Seq<char>,
>
    decreases proxy.len(),
{
    if proxy.len() == 0 {
        Seq::empty()
    } else if proxy[0].0 == addr {
        proxy[0].1
    } else {
        spec_fallbacks(proxy.drop_first(), addr)
    }
}

/// The node list with every node of one address removed, in order.
pub open spec fn remove_addr(nodes: Seq<NodeView>, addr: Seq<char>) -> Seq<NodeView>
    decreases nodes.len(),
{
    if nodes.len() == 0 {
        nodes
    } else {
        let rest = remove_addr(nodes.drop_last(), addr);
        if nodes.last().addr == addr {
            rest
        } else {
            rest.push(nodes.last())
        }
    }
}

impl RingView {
    /// Every node's hash is derived from its address, and each primary has at
    /// most one fallback entry.
    pub open spec fn wf(self) -> bool {
        &&& forall|i: int| 0 <= i < self.nodes.len() ==> (#[trigger] self.nodes[i]).wf()
        &&& forall|i: int, j: int|
            0 <= i < j < self.proxy.len() ==> (#[trigger] self.proxy[i]).0 != (
            #[trigger] self.proxy[j]).0
    }

    /// The discrete wire content: each node's address and raw relative load.
    pub open spec fn wire_entries(self) -> Seq<(Seq<char>, u32)> {
        self.nodes.map_values(|n: NodeView| (n.addr, n.relative_load))
    }

    pub open spec fn fallbacks(self, addr: Seq<char>) -> Seq<Seq<char>> {
        spec_fallbacks(self.proxy, addr)
    }
}

/// What construction promises: the ring a deserializer or a bootstrapper
/// builds from `entries` under revision `config_id`.
pub open spec fn spec_built(r: RingView, entries: Seq<(Seq<char>, u32)>, config_id: u32) -> bool {
    &&& r.config_id == config_id
    &&& r.list_ttl == DEFAULT_LIST_TTL
    &&& r.nodes.len() == entries.len()
    &&& forall|i: int|
        0 <= i < entries.len() ==> {
            &&& (#[trigger] r.nodes[i]).addr == entries[i].0
            &&& r.nodes[i].relative_load == entries[i].1
            &&& r.nodes[i].load_factor == 0
            &&& r.nodes[i].hash == node_hash_of(entries[i].0)
        }
    &&& r.proxy.len() == 0
}

/// The views of a list of `(address, raw load)` entries.
pub open spec fn entries_view(e: Seq<(String, u32)>) -> Seq<(Seq<char>, u32)> {
    e.map_values(|p: (String, u32)| (p.0@, p.1))
}

impl Carp {
    /// Creates a new hash ring from address and raw-load pairs.
    ///
    /// The load factors start underived; the embedder rebalances before the
    /// ring is scored against.
    pub fn new(entries: Vec<(String, u32)>, config_id: u32) -> (r: Carp)
        ensures
            spec_built(r@, entries_view(entries@), config_id),
            r@.wf(),
    {
        let mut nodes: Vec<Node> = Vec::new();
        let mut i: usize = 0;
        while i < entries.len()
            invariant
                i <= entries@.len(),
                nodes@.len() == i,
                forall|j: int|
                    0 <= j < i ==> {
                        &&& (#[trigger] nodes@[j])@.addr == entries@[j].0@
                        &&& nodes@[j]@.relative_load == entries@[j].1
                        &&& nodes@[j]@.load_factor == 0
                        &&& nodes@[j]@.wf()
                    },
            decreases entries@.len() - i,
        {
            let n = Node::new(entries[i].0.clone(), entries[i].1);
            nodes.push(n);
            i += 1;
        }
        Carp { config_id, list_ttl: DEFAULT_LIST_TTL, nodes, proxy_map: Vec::new() }
    }

    /// Returns `true` if the ring is empty.
    pub fn is_empty(&self) -> (r: bool)
        ensures
            r == (self@.nodes.len() == 0),
    {
        self.nodes.len() == 0
    }

    /// Returns the number of nodes in the ring.
    pub fn len(&self) -> (r: usize)
        ensures
            r == self@.nodes.len(),
    {
        self.nodes.len()
    }

    /// Adds a new node to the hash ring and bumps the revision.
    ///
    /// The relative loads and load factors of the grown ring must be derived
    /// again by the embedder before the next selection.
    pub fn add_node(&mut self, addr: String, relative_load: u32)
        requires
            old(self).config_id < u32::MAX,
        ensures
            final(self)@.nodes.len() == old(self)@.nodes.len() + 1,
            forall|i: int|
                0 <= i < old(self)@.nodes.len() ==> final(self)@.nodes[i] == old(self)@.nodes[i],
            final(self)@.nodes.last().addr == addr@,
            final(self)@.nodes.last().relative_load == relative_load,
            final(self)@.nodes.last().load_factor == 0,
            final(self)@.nodes.last().wf(),
            final(self)@.config_id == old(self)@.config_id + 1,
            final(self)@.list_ttl == old(self)@.list_ttl,
            final(self)@.proxy == old(self)@.proxy,
            old(self)@.wf() ==> final(self)@.wf(),
    {
        let n = Node::new(addr, relative_load);
        self.nodes.push(n);
        self.config_id = self.config_id + 1;
        proof {
            assert(self@.nodes =~= old(self)@.nodes.push(n@));
        }
    }

    /// Removes every node with the given address and bumps the revision.
    #[verifier::rlimit(100)]
    pub fn remove_node(&mut self, addr: &str)
        requires
            old(self).config_id < u32::MAX,
        ensures
            final(self)@.nodes == remove_addr(old(self)@.nodes, addr@),
            final(self)@.config_id == old(self)@.config_id + 1,
            final(self)@.list_ttl == old(self)@.list_ttl,
            final(self)@.proxy == old(self)@.proxy,
            old(self)@.wf() ==> final(self)@.wf(),
    {
        let target = addr.to_owned();
        let mut kept: Vec<Node> = Vec::new();
        let mut i: usize = 0;
        proof {
            assert(nodes_view(self.nodes@).take(0) =~= Seq::<NodeView>::empty());
        }
        while i < self.nodes.len()
            invariant
                self == old(self),
                target@ == addr@,
                i <= self.nodes@.len(),
                nodes_view(kept@) == remove_addr(nodes_view(self.nodes@).take(i as int), addr@),
                old(self)@.wf() ==> forall|k: int|
                    0 <= k < kept@.len() ==> (#[trigger] kept@[k])@.wf(),
            decreases self.nodes@.len() - i,
        {
            let ghost all = nodes_view(self.nodes@);
            let ghost before = nodes_view(kept@);
            let keep = !(self.nodes[i].addr == target);
            if keep {
                let n = self.nodes[i].duplicate();
                kept.push(n);
            }
            i += 1;
            proof {
                assert(all.take(i as int).drop_last() =~= all.take(i as int - 1));
                assert(all.take(i as int).last() == self.nodes@[i - 1]@);
                if keep {
                    assert(nodes_view(kept@) =~= before.push(self.nodes@[i - 1]@));
                    assert(remove_addr(all.take(i as int), addr@) == before.push(
                        all.take(i as int).last(),
                    ));
                    if old(self)@.wf() {
                        assert(self@.nodes[i as int - 1].wf());
                        assert(kept@.last()@ == self.nodes@[i - 1]@);
                        assert forall|k: int| 0 <= k < kept@.len() implies (
                        #[trigger] kept@[k])@.wf() by {
                            if k < kept@.len() - 1 {
                                assert(kept@[k] == kept@.drop_last()[k]);
                            }
                        }
                    }
                } else {
                    assert(remove_addr(all.take(i as int), addr@) == before);
                }
            }
        }
        proof {
            let all = nodes_view(self.nodes@);
            assert(all.take(all.len() as int) =~= all);
        }
        self.nodes = kept;
        self.config_id = self.config_id + 1;
        proof {
            if old(self)@.wf() {
                assert forall|k: int| 0 <= k < self@.nodes.len() implies (
                #[trigger] self@.nodes[k]).wf() by {
                    assert(self@.nodes[k] == self.nodes@[k]@);
                }
                assert(self@.proxy == old(self)@.proxy);
                assert(self@.wf());
            }
        }
    }

    /// The discrete wire content of the ring, in order: each node's address
    /// and raw relative load. This is what the serializer writes; hashes and
    /// load factors are derived again on the far side.
    #[verifier::rlimit(100)]
    pub fn wire_entries(&self) -> (r: Vec<(String, u32)>)
        ensures
            entries_view(r@) == self@.wire_entries(),
    {
        let mut out: Vec<(String, u32)> = Vec::new();
        let mut i: usize = 0;
        while i < self.nodes.len()
            invariant
                i <= self.nodes@.len(),
                out@.len() == i,
                forall|j: int|
                    0 <= j < i ==> (#[trigger] out@[j]).0@ == self.nodes@[j]@.addr && out@[j].1
                        == self.nodes@[j]@.relative_load,
            decreases self.nodes@.len() - i,
        {
            let a = self.nodes[i].addr.as_str().to_owned();
            out.push((a, self.nodes[i].relative_load));
            i += 1;
        }
        proof {
            assert(entries_view(out@) =~= self@.wire_entries());
        }
        out
    }

    /// The score inputs of every node for one key: the node's membership
    /// hash combined with the key's URL hash, in ring order. The embedder
    /// multiplies each by the node's load factor and takes the best score.
    pub fn combined_hashes(&self, url: &str) -> (r: Vec<u32>)
        ensures
            r@.len() == self@.nodes.len(),
            forall|i: int|
                0 <= i < r@.len() ==> r@[i] == spec_combine(
                    self@.nodes[i].hash,
                    spec_url_hash(url.spec_bytes()),
                ),
    {
        let u = url_hash(url);
        let ghost uh = spec_url_hash(url.spec_bytes());
        let mut out: Vec<u32> = Vec::new();
        let mut i: usize = 0;
        while i < self.nodes.len()
            invariant
                u == uh,
                i <= self.nodes@.len(),
                out@.len() == i,
                forall|j: int| 0 <= j < i ==> out@[j] == spec_combine(self@.nodes[j].hash, uh),
            decreases self.nodes@.len() - i,
        {
            let c = combine_hashes(self.nodes[i].hash, u);
            out.push(c);
            i += 1;
        }
        out
    }

    /// The recorded fallback list of an address, if any.
    pub fn fallbacks(&self, addr: &str) -> (r: Option<&Vec<String>>)
        ensures
            match r {
                Some(v) => strs_view(v@) == self@.fallbacks(addr@),
                None => self@.fallbacks(addr@) == Seq::<Seq<char>>::empty(),
            },
    {
        let target = addr.to_owned();
        let mut i: usize = 0;
        proof {
            assert(self@.proxy.skip(0) =~= self@.proxy);
        }
        while i < self.proxy_map.len()
            invariant
                i <= self.proxy_map@.len(),
                target@ == addr@,
                spec_fallbacks(self@.proxy.skip(i as int), addr@) == self@.fallbacks(addr@),
            decreases self.proxy_map@.len() - i,
        {
            if self.proxy_map[i].0 == target {
                proof {
                    assert(self@.proxy.skip(i as int)[0] == self@.proxy[i as int]);
                }
                return Some(&self.proxy_map[i].1);
            }
            proof {
                assert(self@.proxy.skip(i as int)[0] == self@.proxy[i as int]);
                assert(self@.proxy.skip(i as int).drop_first() =~= self@.proxy.skip(i as int + 1));
            }
            i += 1;
        }
        proof {
            assert(self@.proxy.skip(self.proxy_map@.len() as int) =~= Seq::<(
                Seq<char>,
                Seq<Seq<char>>,
            )>::empty());
        }
        None
    }

    /// Records a fallback for a primary and bumps the revision.
    ///
    /// The fallback becomes the first address a client consults when the
    /// primary is unreachable; the rest of the recorded list keeps its order.
    /// Does not rebalance.
    #[verifier::rlimit(50)]
    pub fn set_fallback(&mut self, primary: &str, fallback: String)
        requires
            old(self).config_id < u32::MAX,
        ensures
            final(self)@.nodes == old(self)@.nodes,
            final(self)@.config_id == old(self)@.config_id + 1,
            final(self)@.list_ttl == old(self)@.list_ttl,
            final(self)@.fallbacks(primary@) == seq![fallback@] + old(self)@.fallbacks(primary@),
            forall|a: Seq<char>|
                a != primary@ ==> final(self)@.fallbacks(a) == old(self)@.fallbacks(a),
            old(self)@.wf() ==> final(self)@.wf(),
    {
        let target = primary.to_owned();
        let mut i: usize = 0;
        while i < self.proxy_map.len()
            invariant
                self == old(self),
                self.config_id < u32::MAX,
                i <= self.proxy_map@.len(),
                target@ == primary@,
                forall|j: int| 0 <= j < i ==> (#[trigger] self@.proxy[j]).0 != primary@,
            decreases self.proxy_map@.len() - i,
        {
            if self.proxy_map[i].0 == target {
                let bumped = self.config_id + 1;
                let mut list: Vec<String> = Vec::new();
                list.push(fallback);
                let ghost entry = strs_view(self.proxy_map@[i as int].1@);
                proof {
                    assert(strs_view(list@) =~= seq![fallback@] + entry.take(0));
                }
                let mut j: usize = 0;
                while j < self.proxy_map[i].1.len()
                    invariant
                        self == old(self),
                        0 <= i < self.proxy_map@.len(),
                        entry == strs_view(self.proxy_map@[i as int].1@),
                        j <= entry.len(),
                        strs_view(list@) == seq![fallback@] + entry.take(j as int),
                    decreases entry.len() - j,
                {
                    let ghost before = strs_view(list@);
                    let s = self.proxy_map[i].1[j].clone();
                    list.push(s);
                    j += 1;
                    proof {
                        assert(strs_view(list@) =~= before.push(entry[j - 1]));
                        assert(seq![fallback@] + entry.take(j as int) =~= before.push(
                            entry[j - 1],
                        ));
                    }
                }
                proof {
                    assert(entry.take(entry.len() as int) =~= entry);
                }
                let key = self.proxy_map[i].0.clone();
                let ghost before_proxy = self@.proxy;
                self.proxy_map[i] = (key, list);
                self.config_id = bumped;
                proof {
                    assert(self@.nodes =~= old(self)@.nodes);
                    assert forall|j2: int|
                        0 <= j2 < before_proxy.len() && j2 != i implies self@.proxy[j2]
                        == before_proxy[j2] by {}
                    assert(self@.proxy[i as int].0 == before_proxy[i as int].0);
                    lemma_fallbacks_update(before_proxy, self@.proxy, i as int, primary@);
                    lemma_fallbacks_at(before_proxy, i as int, primary@);
                    assert(old(self)@.fallbacks(primary@) == entry);
                    assert(self@.fallbacks(primary@) == self@.proxy[i as int].1);
                    assert(self@.proxy[i as int].1 == strs_view(list@));
                    if old(self)@.wf() {
                        assert forall|x: int, y: int|
                            0 <= x < y < self@.proxy.len() implies (#[trigger] self@.proxy[x]).0
                            != (#[trigger] self@.proxy[y]).0 by {
                            assert(self@.proxy[x].0 == before_proxy[x].0);
                            assert(self@.proxy[y].0 == before_proxy[y].0);
                        }
                        assert(self@.wf());
                    }
                }
                return ;
            }
            i += 1;
        }
        let mut list: Vec<String> = Vec::new();
        list.push(fallback);
        let ghost before_proxy = self@.proxy;
        self.proxy_map.push((target, list));
        self.config_id = self.config_id + 1;
        proof {
            assert(strs_view(list@) =~= seq![fallback@]);
            assert(self@.proxy =~= before_proxy.push((primary@, strs_view(list@))));
            lemma_fallbacks_append(before_proxy, primary@, strs_view(list@));
            lemma_fallbacks_absent(before_proxy, primary@);
            assert(strs_view(list@) =~= seq![fallback@] + old(self)@.fallbacks(primary@));
            assert(self@.nodes =~= old(self)@.nodes);
            if old(self)@.wf() {
                assert forall|x: int, y: int|
                    0 <= x < y < self@.proxy.len() implies (#[trigger] self@.proxy[x]).0 != (
                #[trigger] self@.proxy[y]).0 by {
                    if y == self@.proxy.len() - 1 {
                        assert(self@.proxy[x] == before_proxy[x]);
                        assert(before_proxy[x].0 != primary@);
                    } else {
                        assert(self@.proxy[x] == before_proxy[x]);
                        assert(self@.proxy[y] == before_proxy[y]);
                    }
                }
                assert(self@.wf());
            }
        }
    }

    /// Whether a copy fetched this many seconds ago is past its freshness
    /// hint, so that a client refetches the ring.
    pub fn is_stale(&self, age_secs: u32) -> (r: bool)
        ensures
            r == (age_secs >= self@.list_ttl),
    {
        age_secs >= self.list_ttl
    }

    /// A deep copy whose view is the same. This is how a ring is cloned into
    /// a consensus log entry or out of the replicated state machine.
    #[verifier::rlimit(50)]
    pub fn duplicate(&self) -> (r: Carp)
        ensures
            r@ == self@,
    {
        let mut nodes: Vec<Node> = Vec::new();
        let mut i: usize = 0;
        proof {
            assert(nodes_view(nodes@) =~= self@.nodes.take(0));
        }
        while i < self.nodes.len()
            invariant
                i <= self.nodes@.len(),
                nodes_view(nodes@) == self@.nodes.take(i as int),
            decreases self.nodes@.len() - i,
        {
            let ghost before = nodes_view(nodes@);
            let n = self.nodes[i].duplicate();
            nodes.push(n);
            i += 1;
            proof {
                assert(nodes_view(nodes@) =~= before.push(self.nodes@[i - 1]@));
                assert(self@.nodes.take(i as int) =~= before.push(self.nodes@[i - 1]@));
            }
        }
        let mut proxy: Vec<(String, Vec<String>)> = Vec::new();
        let mut i: usize = 0;
        proof {
            assert(proxy_view(proxy@) =~= self@.proxy.take(0));
        }
        while i < self.proxy_map.len()
            invariant
                i <= self.proxy_map@.len(),
                proxy_view(proxy@) == self@.proxy.take(i as int),
            decreases self.proxy_map@.len() - i,
        {
            let ghost before = proxy_view(proxy@);
            let key = self.proxy_map[i].0.clone();
            let ghost entry = strs_view(self.proxy_map@[i as int].1@);
            let mut list: Vec<String> = Vec::new();
            proof {
                assert(strs_view(list@) =~= entry.take(0));
            }
            let mut j: usize = 0;
            while j < self.proxy_map[i].1.len()
                invariant
                    0 <= i < self.proxy_map@.len(),
                    entry == strs_view(self.proxy_map@[i as int].1@),
                    j <= entry.len(),
                    strs_view(list@) == entry.take(j as int),
                decreases entry.len() - j,
            {
                let ghost lbefore = strs_view(list@);
                let s = self.proxy_map[i].1[j].clone();
                list.push(s);
                j += 1;
                proof {
                    assert(strs_view(list@) =~= lbefore.push(entry[j - 1]));
                    assert(entry.take(j as int) =~= lbefore.push(entry[j - 1]));
                }
            }
            proof {
                assert(entry.take(entry.len() as int) =~= entry);
            }
            proxy.push((key, list));
            i += 1;
            proof {
                assert(proxy_view(proxy@) =~= before.push((key@, strs_view(list@))));
                assert(self@.proxy.take(i as int) =~= before.push((key@, strs_view(list@))));
            }
        }
        let r = Carp { config_id: self.config_id, list_ttl: self.list_ttl, nodes, proxy_map: proxy };
        proof {
            assert(self@.nodes.take(self@.nodes.len() as int) =~= self@.nodes);
            assert(self@.proxy.take(self@.proxy.len() as int) =~= self@.proxy);
            assert(r@ =~= self@);
        }
        r
    }
}

proof fn lemma_fallbacks_at(proxy: Seq<(Seq<char>, Seq<Seq<char>>)>, i: int, addr: Seq<char>)
    requires
        0 <= i < proxy.len(),
        proxy[i].0 == addr,
        forall|j: int| 0 <= j < i ==> (#[trigger] proxy[j]).0 != addr,
    ensures
        spec_fallbacks(proxy, addr) == proxy[i].1,
    decreases i,
{
    if i > 0 {
        lemma_fallbacks_at(proxy.drop_first(), i - 1, addr);
    }
}

proof fn lemma_fallbacks_absent(proxy: Seq<(Seq<char>, Seq<Seq<char>>)>, addr: Seq<char>)
    requires
        forall|j: int| 0 <= j < proxy.len() ==> (#[trigger] proxy[j]).0 != addr,
    ensures
        spec_fallbacks(proxy, addr) == Seq::<Seq<char>>::empty(),
    decreases proxy.len(),
{
    if proxy.len() > 0 {
        lemma_fallbacks_absent(proxy.drop_first(), addr);
    }
}

/// Updating the first entry of an address changes only that address's list.
proof fn lemma_fallbacks_update(
    before: Seq<(Seq<char>, Seq<Seq<char>>)>,
    after: Seq<(Seq<char>, Seq<Seq<char>>)>,
    i: int,
    addr: Seq<char>,
)
    requires
        0 <= i < before.len(),
        after.len() == before.len(),
        forall|j: int| 0 <= j < before.len() && j != i ==> after[j] == before[j],
        after[i].0 == before[i].0,
        before[i].0 == addr,
        forall|j: int| 0 <= j < i ==> (#[trigger] before[j]).0 != addr,
    ensures
        spec_fallbacks(after, addr) == after[i].1,
        forall|a: Seq<char>| a != addr ==> spec_fallbacks(after, a) == spec_fallbacks(before, a),
    decreases i,
{
    if i == 0 {
        assert(spec_fallbacks(after, addr) == after[0].1);
        assert forall|a: Seq<char>| a != addr implies spec_fallbacks(after, a) == spec_fallbacks(
            before,
            a,
        ) by {
            assert(after.drop_first() =~= before.drop_first());
            assert(spec_fallbacks(after, a) == spec_fallbacks(after.drop_first(), a));
            assert(spec_fallbacks(before, a) == spec_fallbacks(before.drop_first(), a));
        }
    } else {
        assert(after[0] == before[0]);
        assert(before[0].0 != addr);
        lemma_fallbacks_update(before.drop_first(), after.drop_first(), i - 1, addr);
        assert(after.drop_first()[i - 1] == after[i]);
        assert(spec_fallbacks(after, addr) == spec_fallbacks(after.drop_first(), addr));
        assert forall|a: Seq<char>| a != addr implies spec_fallbacks(after, a) == spec_fallbacks(
            before,
            a,
        ) by {
            if before[0].0 == a {
                assert(spec_fallbacks(after, a) == after[0].1);
                assert(spec_fallbacks(before, a) == before[0].1);
            } else {
                assert(spec_fallbacks(after, a) == spec_fallbacks(after.drop_first(), a));
                assert(spec_fallbacks(before, a) == spec_fallbacks(before.drop_first(), a));
            }
        }
    }
}

/// Appending an entry for a fresh address changes only that address's list.
proof fn lemma_fallbacks_append(
    proxy: Seq<(Seq<char>, Seq<Seq<char>>)>,
    addr: Seq<char>,
    list: Seq<Seq<char>>,
)
    requires
        forall|j: int| 0 <= j < proxy.len() ==> (#[trigger] proxy[j]).0 != addr,
    ensures
        spec_fallbacks(proxy.push((addr, list)), addr) == list,
        forall|a: Seq<char>|
            a != addr ==> spec_fallbacks(proxy.push((addr, list)), a) == spec_fallbacks(proxy, a),
    decreases proxy.len(),
{
    let ext = proxy.push((addr, list));
    if proxy.len() == 0 {
        assert(ext[0] == (addr, list));
        assert(spec_fallbacks(ext, addr) == ext[0].1);
        assert forall|a: Seq<char>| a != addr implies spec_fallbacks(ext, a) == spec_fallbacks(
            proxy,
            a,
        ) by {
            assert(ext.drop_first() =~= Seq::<(Seq<char>, Seq<Seq<char>>)>::empty());
            assert(spec_fallbacks(ext, a) == spec_fallbacks(ext.drop_first(), a));
        }
    } else {
        lemma_fallbacks_append(proxy.drop_first(), addr, list);
        assert(ext.drop_first() =~= proxy.drop_first().push((addr, list)));
        assert(ext[0] == proxy[0]);
        assert(proxy[0].0 != addr);
        assert(spec_fallbacks(ext, addr) == spec_fallbacks(ext.drop_first(), addr));
        assert forall|a: Seq<char>| a != addr implies spec_fallbacks(ext, a) == spec_fallbacks(
            proxy,
            a,
        ) by {
            if proxy[0].0 == a {
                assert(spec_fallbacks(ext, a) == ext[0].1);
                assert(spec_fallbacks(proxy, a) == proxy[0].1);
            } else {
                assert(spec_fallbacks(ext, a) == spec_fallbacks(ext.drop_first(), a));
                assert(spec_fallbacks(proxy, a) == spec_fallbacks(proxy.drop_first(), a));
            }
        }
    }
}

/// Construction is deterministic: two rings built from the same entries under
/// the same revision agree on every address, raw load and derived hash. (The
/// real-valued load factors are derived outside this crate, from exactly
/// these fields.)
pub proof fn lemma_construction_deterministic(
    a: RingView,
    b: RingView,
    entries: Seq<(Seq<char>, u32)>,
    config_id: u32,
)
    requires
        spec_built(a, entries, config_id),
        spec_built(b, entries, config_id),
    ensures
        a == b,
{
    assert forall|i: int| 0 <= i < a.nodes.len() implies a.nodes[i] == b.nodes[i] by {
        assert(a.nodes[i] =~= b.nodes[i]);
    }
    assert(a.nodes =~= b.nodes);
    assert(a.proxy =~= b.proxy);
    assert(a =~= b);
}

/// The wire round trip: serializing a ring and rebuilding from the wire
/// entries under the same revision reproduces every discrete field — each
/// address, each raw relative load, and each derived hash exactly. The
/// rebuilt load factors are underived until the embedder rebalances, which
/// is its own pass over exactly these fields.
pub proof fn lemma_wire_round_trip(r: RingView, rebuilt: RingView)
    requires
        r.wf(),
        spec_built(rebuilt, r.wire_entries(), r.config_id),
    ensures
        rebuilt.config_id == r.config_id,
        rebuilt.nodes.len() == r.nodes.len(),
        forall|i: int|
            0 <= i < r.nodes.len() ==> {
                &&& (#[trigger] rebuilt.nodes[i]).addr == r.nodes[i].addr
                &&& rebuilt.nodes[i].relative_load == r.nodes[i].relative_load
                &&& rebuilt.nodes[i].hash == r.nodes[i].hash
                &&& rebuilt.nodes[i].load_factor == 0
            },
{
    assert forall|i: int| 0 <= i < r.nodes.len() implies {
        &&& (#[trigger] rebuilt.nodes[i]).addr == r.nodes[i].addr
        &&& rebuilt.nodes[i].relative_load == r.nodes[i].relative_load
        &&& rebuilt.nodes[i].hash == r.nodes[i].hash
        &&& rebuilt.nodes[i].load_factor == 0
    } by {
        assert(r.wire_entries()[i] == (r.nodes[i].addr, r.nodes[i].relative_load));
        assert(r.nodes[i].wf());
    }
}

/// The discrete half of selection stability: for two rings whose nodes carry
/// the same hashes, the score inputs of any key are the same sequence.
pub proof fn lemma_selection_inputs_deterministic(a: RingView, b: RingView, url: Seq<u8>)
    requires
        a.nodes.len() == b.nodes.len(),
        forall|i: int| 0 <= i < a.nodes.len() ==> (#[trigger] a.nodes[i]).hash == b.nodes[i].hash,
    ensures
        a.nodes.map_values(|n: NodeView| spec_combine(n.hash, spec_url_hash(url))) =~= b.nodes
            .map_values(|n: NodeView| spec_combine(n.hash, spec_url_hash(url))),
{
}

} // verus!
