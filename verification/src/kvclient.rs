//! The client's routing, redirect and failover decisions.
//!
//! The client caches a copy of the ring, routes each key to a shard primary,
//! and talks to that shard over the network. Everything the network does is
//! outside this crate; what stands here is each decision the client takes on
//! what came back: how leader redirects are followed, when an address is an
//! unknown shard, in which order fallbacks are probed, and what the client
//! records in its cached ring when a fallback answers.
use crate::carp::Carp;
use crate::carp::RingView;
use crate::carp::strs_view;
use vstd::prelude::*;

verus! {

/// How the store surfaces failures, categorized at the transport and
/// consensus boundary.
#[derive(Debug, PartialEq)]
pub enum AppError {
    /// Connection refused, timeout or malformed transport. Retryable.
    TransportError,
    /// The addressed replica is not the leader; the leader, where it named
    /// one. Retryable by re-targeting.
    NotLeader { leader_addr: Option<String> },
    /// The consensus engine rejected the write. Surfaced to the caller.
    ClientWriteError,
    /// A linearizable read could not be guaranteed. Surfaced.
    CheckIsLeaderError,
    /// Cluster bootstrap failed. Fatal.
    InitializeError,
    /// The ring names an address the client cannot resolve. Surfaced; the
    /// caller refreshes its ring.
    UnknownShard,
    /// Every fallback was exhausted. Surfaced; the caller decides.
    AllReplicasUnreachable,
    /// Kept for signature uniformity; never constructed.
    Infallible,
}

/// The most leader redirects one write follows before surfacing failure.
pub const MAX_FOLLOW: u64 = 3;

/// What one attempt against a replica came back with, as the transport layer
/// hands it over.
#[derive(Debug, PartialEq)]
pub enum AttemptOutcome {
    /// The replica accepted the request and answered this value.
    Accepted { value: Option<String> },
    /// The replica is not the leader and pointed at it, where it knew one.
    ForwardToLeader { leader_addr: Option<String> },
    /// The attempt failed outright.
    Failed { error: AppError },
}

/// What the shard handle does next with an outcome.
#[derive(Debug, PartialEq)]
pub enum NextStep {
    /// Done: return this value.
    Succeed { value: Option<String> },
    /// Send the same request again, to this address.
    Retry { target: String },
    /// Give up: surface this error.
    Fail { error: AppError },
}

/// Decides how a shard handle reacts to one attempt's outcome, `hops`
/// redirects in: an accepted request succeeds; a redirect to a named leader
/// is followed while fewer than `MAX_FOLLOW` hops were taken, and surfaces
/// `NotLeader` beyond that or where no leader was named; any other failure
/// is surfaced as it is.
pub fn follow_leader(hops: u64, outcome: AttemptOutcome) -> (r: NextStep)
    ensures
        (outcome matches AttemptOutcome::Accepted { value } ==> r == (NextStep::Succeed {
            value,
        })),
        (outcome matches AttemptOutcome::ForwardToLeader { leader_addr: Some(l) } ==> {
            &&& (hops < MAX_FOLLOW ==> r == (NextStep::Retry { target: l }))
            &&& (hops >= MAX_FOLLOW ==> r == (NextStep::Fail {
                error: AppError::NotLeader { leader_addr: Some(l) },
            }))
        }),
        (outcome matches AttemptOutcome::ForwardToLeader { leader_addr: None } ==> r == (
        NextStep::Fail { error: AppError::NotLeader { leader_addr: None } })),
        (outcome matches AttemptOutcome::Failed { error } ==> r == (NextStep::Fail { error })),
{
    match outcome {
        AttemptOutcome::Accepted { value } => NextStep::Succeed { value },
        AttemptOutcome::ForwardToLeader { leader_addr: Some(l) } => {
            if hops < MAX_FOLLOW {
                NextStep::Retry { target: l }
            } else {
                NextStep::Fail { error: AppError::NotLeader { leader_addr: Some(l) } }
            }
        },
        AttemptOutcome::ForwardToLeader { leader_addr: None } => NextStep::Fail {
            error: AppError::NotLeader { leader_addr: None },
        },
        AttemptOutcome::Failed { error } => NextStep::Fail { error },
    }
}

/// Whether the client retries a failed call (with exponential backoff):
/// only transport failures and leadership misses are retryable; every other
/// failure is surfaced to the caller.
pub fn should_retry(error: &AppError) -> (r: bool)
    ensures
        r == (error is TransportError || error is NotLeader),
{
    match error {
        AppError::TransportError => true,
        AppError::NotLeader { .. } => true,
        _ => false,
    }
}

/// The index of the first attempt that got through, probing in order.
pub open spec fn spec_first_reachable(outcomes: Seq<bool>) -> Option<int>
    decreases outcomes.len(),
{
    if outcomes.len() == 0 {
        None
    } else if outcomes[0] {
        Some(0int)
    } else {
        match spec_first_reachable(outcomes.drop_first()) {
            Some(i) => Some(i + 1),
            None => None,
        }
    }
}

/// The client's cached routing state: its copy of the ring, and the
/// addresses it holds a shard handle for.
pub struct KVClient {
    pub carp_ring: Carp,
    pub known_addrs: Vec<String>,
}

impl KVClient {
    /// A client over a fetched ring and the handles it was built with.
    pub fn new(carp_ring: Carp, known_addrs: Vec<String>) -> (c: KVClient)
        ensures
            c.carp_ring@ == carp_ring@,
            c.known_addrs@ == known_addrs@,
    {
        KVClient { carp_ring, known_addrs }
    }

    /// Whether the client holds a handle for the address the ring selected.
    /// `None` is the `UnknownShard` case: the ring names an address this
    /// client cannot resolve.
    pub fn resolve(&self, addr: &str) -> (r: Option<usize>)
        ensures
            match r {
                Some(i) => i < self.known_addrs@.len() && self.known_addrs@[i as int]@ == addr@,
                None => forall|j: int|
                    0 <= j < self.known_addrs@.len() ==> (#[trigger] self.known_addrs@[j])@
                        != addr@,
            },
    {
        let target = addr.to_owned();
        let mut i: usize = 0;
        while i < self.known_addrs.len()
            invariant
                i <= self.known_addrs@.len(),
                target@ == addr@,
                forall|j: int| 0 <= j < i ==> (#[trigger] self.known_addrs@[j])@ != addr@,
            decreases self.known_addrs@.len() - i,
        {
            if self.known_addrs[i] == target {
                return Some(i);
            }
            i += 1;
        }
        None
    }

    /// The addresses one write probes, in order: the selected primary first,
    /// then the fallbacks the ring records for it.
    pub fn failover_candidates(&self, primary: &str) -> (r: Vec<String>)
        ensures
            strs_view(r@) == seq![primary@] + self.carp_ring@.fallbacks(primary@),
    {
        let mut out: Vec<String> = Vec::new();
        out.push(primary.to_owned());
        let ghost fb = self.carp_ring@.fallbacks(primary@);
        match self.carp_ring.fallbacks(primary) {
            None => {
                proof {
                    assert(strs_view(out@) =~= seq![primary@] + fb);
                }
            },
            Some(list) => {
                let mut j: usize = 0;
                proof {
                    assert(strs_view(out@) =~= seq![primary@] + fb.take(0));
                }
                while j < list.len()
                    invariant
                        j <= list@.len(),
                        fb == strs_view(list@),
                        strs_view(out@) == seq![primary@] + fb.take(j as int),
                    decreases list@.len() - j,
                {
                    let ghost before = strs_view(out@);
                    let s = list[j].clone();
                    out.push(s);
                    j += 1;
                    proof {
                        assert(strs_view(out@) =~= before.push(fb[j - 1]));
                        assert(seq![primary@] + fb.take(j as int) =~= before.push(fb[j - 1]));
                    }
                }
                proof {
                    assert(fb.take(fb.len() as int) =~= fb);
                }
            },
        }
        out
    }

    /// Records in the cached ring that `succeeded` answered where `primary`
    /// did not: it becomes the first fallback consulted for that primary.
    /// The cached ring is advisory; the authoritative ring is refreshed from
    /// the fleet.
    pub fn record_failover(&mut self, primary: &str, succeeded: String)
        requires
            old(self).carp_ring.config_id < u32::MAX,
        ensures
            final(self).known_addrs@ == old(self).known_addrs@,
            final(self).carp_ring@.nodes == old(self).carp_ring@.nodes,
            final(self).carp_ring@.config_id == old(self).carp_ring@.config_id + 1,
            final(self).carp_ring@.fallbacks(primary@) == seq![succeeded@] + old(
                self,
            ).carp_ring@.fallbacks(primary@),
            forall|a: Seq<char>|
                a != primary@ ==> final(self).carp_ring@.fallbacks(a) == old(
                    self,
                ).carp_ring@.fallbacks(a),
    {
        self.carp_ring.set_fallback(primary, succeeded);
    }
}

proof fn lemma_first_reachable_at(outcomes: Seq<bool>, j: int)
    requires
        0 <= j < outcomes.len(),
        outcomes[j],
        forall|k: int| 0 <= k < j ==> !outcomes[k],
    ensures
        spec_first_reachable(outcomes) == Some(j),
    decreases j,
{
    if j > 0 {
        lemma_first_reachable_at(outcomes.drop_first(), j - 1);
    }
}

/// Failover: the primary's attempt failed, and among the candidates exactly
/// one — the `j`-th — is reachable. Probing in candidate order then succeeds
/// exactly at `j`, so the write goes through; `record_failover` afterwards
/// leaves that address as the first fallback of the primary in the client's
/// cached ring.
pub proof fn lemma_failover(outcomes: Seq<bool>, j: int, before: RingView, after: RingView, primary: Seq<char>, succeeded: Seq<char>)
    requires
        outcomes.len() >= 1,
        !outcomes[0],
        0 < j < outcomes.len(),
        outcomes[j],
        forall|k: int| 0 <= k < outcomes.len() && k != j ==> !(#[trigger] outcomes[k]),
        after.fallbacks(primary) == seq![succeeded] + before.fallbacks(primary),
        forall|a: Seq<char>| a != primary ==> after.fallbacks(a) == before.fallbacks(a),
    ensures
        spec_first_reachable(outcomes) == Some(j),
        after.fallbacks(primary)[0] == succeeded,
        forall|a: Seq<char>| a != primary ==> after.fallbacks(a) == before.fallbacks(a),
{
    lemma_first_reachable_at(outcomes, j);
}

} // verus!
