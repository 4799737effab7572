//! The replicated state machine every shard applies.
//!
//! A shard's consensus engine replicates a log of requests; each replica
//! applies committed entries in log order to this state machine. The state is
//! the key/value map, the shard's authoritative copy of the routing ring, and
//! the count of applied entries. Apply is a pure function of state and
//! request, which is what makes the replicas converge.
use crate::carp::Carp;
use crate::carp::RingView;
use vstd::prelude::*;

verus! {

/// One entry of the replicated log.
#[derive(Debug)]
pub enum Request {
    /// Bind `key` to `value`. (`Set` in the wire form.)
    Put { key: String, value: String },
    /// Replace the shard's copy of the routing ring.
    UpdateRing { ring: Carp },
}

#[verifier::ext_equal]
pub enum ReqView {
    Put { key: Seq<char>, value: Seq<char> },
    UpdateRing { ring: RingView },
}

impl View for Request {
    type V = ReqView;

    open spec fn view(&self) -> ReqView {
        match self {
            Request::Put { key, value } => ReqView::Put { key: key@, value: value@ },
            Request::UpdateRing { ring } => ReqView::UpdateRing { ring: ring@ },
        }
    }
}

/// The reply to one applied entry: the previous value of the key for a
/// `Put`, nothing for a ring update.
#[derive(Debug, PartialEq)]
pub struct Response {
    pub value: Option<String>,
}

impl View for Response {
    type V = Option<Seq<char>>;

    open spec fn view(&self) -> Option<Seq<char>> {
        match self.value {
            Some(ref v) => Some(v@),
            None => None,
        }
    }
}

/// The views of the entries of the key/value association list.
pub open spec fn kvs_view(v: Seq<(String, String)>) -> Seq<(Seq<char>, Seq<char>)> {
    v.map_values(|p: (String, String)| (p.0@, p.1@))
}

/// First-match lookup in the association list.
pub open spec fn spec_lookup(kvs: Seq<(Seq<char>, Seq<char>)>, key: Seq<char>) -> Option<Seq<char>>
    decreases kvs.len(),
{
    if kvs.len() == 0 {
        None
    } else if kvs[0].0 == key {
        Some(kvs[0].1)
    } else {
        spec_lookup(kvs.drop_first(), key)
    }
}

/// The key/value map the association list denotes.
pub open spec fn kvs_map(kvs: Seq<(Seq<char>, Seq<char>)>) -> Map<Seq<char>, Seq<char>> {
    Map::new(
        |k: Seq<char>| spec_lookup(kvs, k) is Some,
        |k: Seq<char>| spec_lookup(kvs, k)->Some_0,
    )
}

/// Binding a key: the first entry of the key is replaced, or the pair is
/// appended where the key is fresh.
pub open spec fn spec_insert(
    kvs: Seq<(Seq<char>, Seq<char>)>,
    key: Seq<char>,
    value: Seq<char>,
) -> Seq<(Seq<char>, Seq<char>)>
    decreases kvs.len(),
{
    if kvs.len() == 0 {
        seq![(key, value)]
    } else if kvs[0].0 == key {
        seq![(key, value)] + kvs.drop_first()
    } else {
        seq![kvs[0]] + spec_insert(kvs.drop_first(), key, value)
    }
}

/// The shard state one replica holds: the applied key/value map, the
/// authoritative ring copy, and how many log entries were applied.
#[derive(Debug)]
pub struct StateMachine {
    pub last_applied: u64,
    pub kvs: Vec<(String, String)>,
    pub ring: Carp,
}

#[verifier::ext_equal]
pub struct SmView {
    pub last_applied: u64,
    pub kvs: Seq<(Seq<char>, Seq<char>)>,
    pub ring: RingView,
}

impl View for StateMachine {
    type V = SmView;

    open spec fn view(&self) -> SmView {
        SmView { last_applied: self.last_applied, kvs: kvs_view(self.kvs@), ring: self.ring@ }
    }
}

/// What applying one entry does to the state.
pub open spec fn spec_apply(s: SmView, r: ReqView) -> SmView {
    match r {
        ReqView::Put { key, value } => SmView {
            last_applied: (s.last_applied + 1) as u64,
            kvs: spec_insert(s.kvs, key, value),
            ring: s.ring,
        },
        ReqView::UpdateRing { ring } => SmView {
            last_applied: (s.last_applied + 1) as u64,
            kvs: s.kvs,
            ring,
        },
    }
}

/// What applying one entry answers.
pub open spec fn spec_response(s: SmView, r: ReqView) -> Option<Seq<char>> {
    match r {
        ReqView::Put { key, value: _ } => spec_lookup(s.kvs, key),
        ReqView::UpdateRing { ring: _ } => None,
    }
}

/// The state after a whole log, applied in order.
pub open spec fn spec_apply_log(s: SmView, log: Seq<ReqView>) -> SmView
    decreases log.len(),
{
    if log.len() == 0 {
        s
    } else {
        spec_apply(spec_apply_log(s, log.drop_last()), log.last())
    }
}

impl StateMachine {
    /// A fresh replica state: nothing applied, no bindings, the given ring.
    pub fn new(ring: Carp) -> (r: StateMachine)
        ensures
            r@.last_applied == 0,
            r@.kvs == Seq::<(Seq<char>, Seq<char>)>::empty(),
            r@.ring == ring@,
    {
        let r = StateMachine { last_applied: 0, kvs: Vec::new(), ring };
        proof {
            assert(r@.kvs =~= Seq::<(Seq<char>, Seq<char>)>::empty());
        }
        r
    }

    /// The value bound to a key, if any.
    pub fn lookup(&self, key: &str) -> (r: Option<String>)
        ensures
            match r {
                Some(v) => spec_lookup(self@.kvs, key@) == Some(v@),
                None => spec_lookup(self@.kvs, key@) is None,
            },
    {
        let target = key.to_owned();
        let mut i: usize = 0;
        while i < self.kvs.len()
            invariant
                i <= self.kvs@.len(),
                target@ == key@,
                forall|j: int| 0 <= j < i ==> (#[trigger] self@.kvs[j]).0 != key@,
            decreases self.kvs@.len() - i,
        {
            if self.kvs[i].0 == target {
                proof {
                    lemma_lookup_at(self@.kvs, key@, i as int);
                }
                return Some(self.kvs[i].1.clone());
            }
            i += 1;
        }
        proof {
            lemma_lookup_absent(self@.kvs, key@);
        }
        None
    }

    /// The value bound to a key, or the empty string: what the read endpoint
    /// answers.
    pub fn read(&self, key: &str) -> (r: String)
        ensures
            match spec_lookup(self@.kvs, key@) {
                Some(v) => r@ == v,
                None => r@ == Seq::<char>::empty(),
            },
    {
        match self.lookup(key) {
            Some(v) => v,
            None => String::new(),
        }
    }

    /// Applies one committed entry, in log order.
    ///
    /// A `Set` binds the key and answers the previous value; an `UpdateRing`
    /// replaces the ring copy and answers nothing. Either way exactly one
    /// more entry counts as applied.
    pub fn apply(&mut self, req: Request) -> (r: Response)
        requires
            old(self).last_applied < u64::MAX,
        ensures
            final(self)@ == spec_apply(old(self)@, req@),
            r@ == spec_response(old(self)@, req@),
    {
        match req {
            Request::Put { key, value } => {
                let mut found = false;
                let mut at: usize = 0;
                let mut i: usize = 0;
                while i < self.kvs.len()
                    invariant
                        self == old(self),
                        i <= self.kvs@.len(),
                        !found ==> forall|j: int| 0 <= j < i ==> (#[trigger] self@.kvs[j]).0
                            != key@,
                        found ==> 0 <= at < i && self@.kvs[at as int].0 == key@ && forall|j: int|
                            0 <= j < at ==> (#[trigger] self@.kvs[j]).0 != key@,
                    decreases self.kvs@.len() - i,
                {
                    if !found && self.kvs[i].0 == key {
                        found = true;
                        at = i;
                    }
                    i += 1;
                }
                let prev: Option<String>;
                let ghost kv0 = self@.kvs;
                if found {
                    proof {
                        lemma_lookup_at(kv0, key@, at as int);
                        lemma_insert_update(kv0, key@, value@, at as int);
                    }
                    prev = Some(self.kvs[at].1.clone());
                    self.kvs[at] = (key, value);
                    proof {
                        assert(kvs_view(self.kvs@) =~= kv0.update(at as int, (key@, value@)));
                    }
                } else {
                    proof {
                        lemma_lookup_absent(kv0, key@);
                        lemma_insert_append(kv0, key@, value@);
                    }
                    prev = None;
                    self.kvs.push((key, value));
                    proof {
                        assert(kvs_view(self.kvs@) =~= kv0.push((key@, value@)));
                    }
                }
                self.last_applied = self.last_applied + 1;
                proof {
                    assert(self@ =~= spec_apply(old(self)@, req@));
                }
                Response { value: prev }
            },
            Request::UpdateRing { ring } => {
                self.ring = ring;
                self.last_applied = self.last_applied + 1;
                proof {
                    assert(self@ =~= spec_apply(old(self)@, req@));
                }
                Response { value: None }
            },
        }
    }

    /// A deep copy of the shard's ring: what the ring endpoint answers.
    pub fn current_ring(&self) -> (r: Carp)
        ensures
            r@ == self@.ring,
    {
        self.ring.duplicate()
    }

    /// A deep copy of the whole state: the snapshot format.
    pub fn snapshot(&self) -> (r: StateMachine)
        ensures
            r@ == self@,
    {
        let mut kvs: Vec<(String, String)> = Vec::new();
        let mut i: usize = 0;
        while i < self.kvs.len()
            invariant
                i <= self.kvs@.len(),
                kvs@.len() == i,
                forall|j: int|
                    0 <= j < i ==> (#[trigger] kvs@[j]).0@ == self@.kvs[j].0 && kvs@[j].1@ == self@
                        .kvs[j].1,
            decreases self.kvs@.len() - i,
        {
            let k = self.kvs[i].0.clone();
            let v = self.kvs[i].1.clone();
            kvs.push((k, v));
            i += 1;
        }
        let r = StateMachine {
            last_applied: self.last_applied,
            kvs,
            ring: self.ring.duplicate(),
        };
        proof {
            assert(kvs_view(r.kvs@) =~= self@.kvs);
            assert(r@ =~= self@);
        }
        r
    }

    /// Installs a snapshot whole: the state becomes the snapshot's state.
    /// Nothing partial can be observed.
    pub fn install_snapshot(&mut self, snap: StateMachine)
        ensures
            final(self)@ == snap@,
    {
        *self = snap;
    }
}

proof fn lemma_lookup_at(kvs: Seq<(Seq<char>, Seq<char>)>, key: Seq<char>, i: int)
    requires
        0 <= i < kvs.len(),
        kvs[i].0 == key,
        forall|j: int| 0 <= j < i ==> (#[trigger] kvs[j]).0 != key,
    ensures
        spec_lookup(kvs, key) == Some(kvs[i].1),
    decreases i,
{
    if i > 0 {
        lemma_lookup_at(kvs.drop_first(), key, i - 1);
    }
}

proof fn lemma_lookup_absent(kvs: Seq<(Seq<char>, Seq<char>)>, key: Seq<char>)
    requires
        forall|j: int| 0 <= j < kvs.len() ==> (#[trigger] kvs[j]).0 != key,
    ensures
        spec_lookup(kvs, key) is None,
    decreases kvs.len(),
{
    if kvs.len() > 0 {
        lemma_lookup_absent(kvs.drop_first(), key);
    }
}

proof fn lemma_insert_update(
    kvs: Seq<(Seq<char>, Seq<char>)>,
    key: Seq<char>,
    value: Seq<char>,
    i: int,
)
    requires
        0 <= i < kvs.len(),
        kvs[i].0 == key,
        forall|j: int| 0 <= j < i ==> (#[trigger] kvs[j]).0 != key,
    ensures
        spec_insert(kvs, key, value) == kvs.update(i, (key, value)),
    decreases i,
{
    if i == 0 {
        assert(spec_insert(kvs, key, value) =~= kvs.update(0, (key, value)));
    } else {
        lemma_insert_update(kvs.drop_first(), key, value, i - 1);
        assert(seq![kvs[0]] + kvs.drop_first().update(i - 1, (key, value)) =~= kvs.update(
            i,
            (key, value),
        ));
    }
}

proof fn lemma_insert_append(kvs: Seq<(Seq<char>, Seq<char>)>, key: Seq<char>, value: Seq<char>)
    requires
        forall|j: int| 0 <= j < kvs.len() ==> (#[trigger] kvs[j]).0 != key,
    ensures
        spec_insert(kvs, key, value) == kvs.push((key, value)),
    decreases kvs.len(),
{
    if kvs.len() == 0 {
        assert(spec_insert(kvs, key, value) =~= kvs.push((key, value)));
    } else {
        lemma_insert_append(kvs.drop_first(), key, value);
        assert(seq![kvs[0]] + kvs.drop_first().push((key, value)) =~= kvs.push((key, value)));
    }
}

/// Reading a key after binding it answers the bound value; every other key
/// is untouched.
pub proof fn lemma_lookup_insert(
    kvs: Seq<(Seq<char>, Seq<char>)>,
    key: Seq<char>,
    value: Seq<char>,
    probe: Seq<char>,
)
    ensures
        spec_lookup(spec_insert(kvs, key, value), probe) == if probe == key {
            Some(value)
        } else {
            spec_lookup(kvs, probe)
        },
    decreases kvs.len(),
{
    let ins = spec_insert(kvs, key, value);
    if kvs.len() == 0 {
        assert(ins == seq![(key, value)]);
        if probe != key {
            assert(ins.drop_first() =~= kvs);
        }
    } else if kvs[0].0 == key {
        assert(ins == seq![(key, value)] + kvs.drop_first());
        assert(ins[0] == (key, value));
        if probe != key {
            assert(ins.drop_first() =~= kvs.drop_first());
        }
    } else {
        assert(ins == seq![kvs[0]] + spec_insert(kvs.drop_first(), key, value));
        assert(ins[0] == kvs[0]);
        lemma_lookup_insert(kvs.drop_first(), key, value, probe);
        assert(ins.drop_first() =~= spec_insert(kvs.drop_first(), key, value));
    }
}

/// Consensus convergence: the state after a log is a function of the log
/// alone, so two replicas that start alike and apply the same committed
/// entries in the same order hold the same key/value map, entry for entry.
pub proof fn lemma_replicas_converge(init: SmView, log: Seq<ReqView>, a: SmView, b: SmView)
    requires
        a == spec_apply_log(init, log),
        b == spec_apply_log(init, log),
    ensures
        a == b,
        kvs_map(a.kvs) == kvs_map(b.kvs),
{
}

/// Ring propagation: once a ring update is committed at one place in the log
/// and nothing later replaces the ring, every replica that has applied the
/// log exposes exactly that ring.
pub proof fn lemma_ring_propagation(init: SmView, log: Seq<ReqView>, i: int, ring: RingView)
    requires
        0 <= i < log.len(),
        log[i] == (ReqView::UpdateRing { ring }),
        forall|j: int| i < j < log.len() ==> !((#[trigger] log[j]) is UpdateRing),
    ensures
        spec_apply_log(init, log).ring == ring,
    decreases log.len(),
{
    if i == log.len() - 1 {
        assert(log.last() == (ReqView::UpdateRing { ring }));
    } else {
        assert(log.drop_last()[i] == log[i]);
        assert(forall|j: int|
            i < j < log.drop_last().len() ==> !((#[trigger] log.drop_last()[j]) is UpdateRing));
        lemma_ring_propagation(init, log.drop_last(), i, ring);
        assert(!(log.last() is UpdateRing));
    }
}

} // verus!
