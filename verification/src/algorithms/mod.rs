//! Backend selection policies. A policy picks one backend out of the pool
//! for each new connection and keeps per-backend counters.

pub mod ip_hash;
pub mod least_connections;
pub mod rotation;
pub mod round_robin;
pub mod weighted_round_robin;

use crate::algorithms::ip_hash::{stand_in_client, IpHashState, STAND_IN_CLIENTS};
use crate::algorithms::least_connections::LeastConnectionsState;
use crate::algorithms::round_robin::RoundRobinState;
use crate::algorithms::weighted_round_robin::{collected, WeightedState};
use crate::names::{names_of, Entries};
use vstd::prelude::*;

pub use ip_hash::IpHash;
pub use least_connections::LeastConnections;
pub use round_robin::RoundRobin;
pub use weighted_round_robin::WeightedRoundRobin;

verus! {

/// Rendered metrics as plain text: one pair of backend name and metric
/// line per backend.
pub open spec fn metrics_view(metrics: Seq<(String, String)>) -> Seq<(Seq<char>, Seq<char>)> {
    Seq::new(metrics.len(), |i: int| (metrics[i].0@, metrics[i].1@))
}

/// Whether no backend has more than one line in `metrics`.
pub open spec fn distinct_backends(metrics: Seq<(Seq<char>, Seq<char>)>) -> bool {
    forall|i: int, j: int|
        0 <= i < j < metrics.len() ==> (#[trigger] metrics[i]).0 != (#[trigger] metrics[j]).0
}

/// What every selection policy offers.
pub trait LoadBalancingAlgorithm: Sized {
    /// The policy's invariant.
    spec fn wf(&self) -> bool;

    /// Whether each of the policy's counters can still grow by one.
    spec fn headroom(&self) -> bool;

    /// Whether the counters that record a connection's start can still
    /// grow by one.
    spec fn room_to_start(&self) -> bool;

    /// Headroom is room to start.
    proof fn lemma_room_to_start(&self)
        ensures
            self.headroom() ==> self.room_to_start(),
    ;

    /// The metrics that the policy reports in its present state: for each
    /// backend it has counters for, the name and a line of text.
    spec fn metrics_spec(&self) -> Seq<(Seq<char>, Seq<char>)>;

    /// Tests [`Self::headroom`].
    fn has_headroom(&self) -> (r: bool)
        requires
            self.wf(),
        ensures
            r == self.headroom(),
    ;

    /// Selects the backend for the next connection. An empty pool yields
    /// `None` and leaves the policy untouched; otherwise the result is a
    /// member of the pool.
    fn next_server(&mut self, servers: &[String]) -> (chosen: Option<String>)
        requires
            old(self).wf(),
            old(self).headroom(),
        ensures
            final(self).wf(),
            servers@.len() == 0 ==> chosen.is_none() && *final(self) == *old(self),
            servers@.len() > 0 ==> chosen.is_some() && names_of(servers@).contains(
                chosen.unwrap()@,
            ),
    ;

    /// Records that a connection to `server` began.
    fn connection_started(&mut self, server: &str)
        requires
            old(self).wf(),
            old(self).room_to_start(),
        ensures
            final(self).wf(),
    ;

    /// Records that a connection to `server` ended.
    fn connection_ended(&mut self, server: &str)
        requires
            old(self).wf(),
        ensures
            final(self).wf(),
    ;

    /// Renders the policy's counters without changing them: one line for
    /// each backend that has counters.
    fn get_metrics(&self) -> (metrics: Vec<(String, String)>)
        requires
            self.wf(),
        ensures
            metrics_view(metrics@) == self.metrics_spec(),
            distinct_backends(self.metrics_spec()),
    ;
}

/// Metrics idempotence: rendering reads the policy and changes nothing,
/// so two renderings of one state are equal.
pub proof fn lemma_metrics_idempotent<P: LoadBalancingAlgorithm>(
    policy: &P,
    first: Seq<(String, String)>,
    second: Seq<(String, String)>,
)
    requires
        metrics_view(first) == policy.metrics_spec(),
        metrics_view(second) == policy.metrics_spec(),
    ensures
        metrics_view(first) == metrics_view(second),
{
}

/// The four policies.
#[derive(Clone, Copy, Debug, PartialEq, Eq, Structural)]
pub enum PolicyKind {
    RoundRobin,
    LeastConnections,
    WeightedRoundRobin,
    IpHash,
}

/// The policy that a tag names. A tag that names none stands for
/// round-robin.
pub open spec fn kind_of_tag(tag: Seq<char>) -> PolicyKind {
    if tag == "least-connections"@ {
        PolicyKind::LeastConnections
    } else if tag == "weighted-round-robin"@ {
        PolicyKind::WeightedRoundRobin
    } else if tag == "ip-hash"@ {
        PolicyKind::IpHash
    } else {
        PolicyKind::RoundRobin
    }
}

/// Computes [`kind_of_tag`].
pub fn parse_tag(tag: &str) -> (kind: PolicyKind)
    ensures
        kind == kind_of_tag(tag@),
{
    let tag = tag.to_owned();
    if tag == "least-connections".to_owned() {
        PolicyKind::LeastConnections
    } else if tag == "weighted-round-robin".to_owned() {
        PolicyKind::WeightedRoundRobin
    } else if tag == "ip-hash".to_owned() {
        PolicyKind::IpHash
    } else {
        PolicyKind::RoundRobin
    }
}

/// The state of a policy of any kind.
pub enum AlgorithmState {
    RoundRobin(RoundRobinState),
    LeastConnections(LeastConnectionsState),
    WeightedRoundRobin(WeightedState),
    IpHash(IpHashState),
}

impl AlgorithmState {
    /// The state of a fresh policy of `kind`; `weights` count for
    /// weighted round-robin only.
    pub open spec fn initial(kind: PolicyKind, weights: Entries<u32>) -> Self {
        match kind {
            PolicyKind::RoundRobin => AlgorithmState::RoundRobin(RoundRobinState::initial()),
            PolicyKind::LeastConnections => AlgorithmState::LeastConnections(
                LeastConnectionsState::initial(),
            ),
            PolicyKind::WeightedRoundRobin => AlgorithmState::WeightedRoundRobin(
                WeightedState::initial(weights),
            ),
            PolicyKind::IpHash => AlgorithmState::IpHash(IpHashState::initial()),
        }
    }

    /// Which policy this is the state of.
    pub open spec fn kind(self) -> PolicyKind {
        match self {
            AlgorithmState::RoundRobin(_) => PolicyKind::RoundRobin,
            AlgorithmState::LeastConnections(_) => PolicyKind::LeastConnections,
            AlgorithmState::WeightedRoundRobin(_) => PolicyKind::WeightedRoundRobin,
            AlgorithmState::IpHash(_) => PolicyKind::IpHash,
        }
    }

    /// Whether a selection from the non-empty `pool` in this state can
    /// return `chosen` and leave the policy in state `after`.
    ///
    /// Round-robin and least-connections allow one outcome only. Weighted
    /// round-robin allows any weights between the bounds for the backends
    /// that had none, and with them one outcome. IP-hash allows one outcome
    /// for each stand-in client address.
    pub open spec fn selects(self, pool: Seq<Seq<char>>, after: Self, chosen: Seq<char>) -> bool {
        match self {
            AlgorithmState::RoundRobin(s) => {
                &&& after == AlgorithmState::RoundRobin(s.step(pool))
                &&& chosen == s.pick(pool)
            },
            AlgorithmState::LeastConnections(s) => {
                &&& after == self
                &&& s.is_first_least(pool, s.least_loaded(pool))
                &&& chosen == s.pick(pool)
            },
            AlgorithmState::WeightedRoundRobin(s) => {
                &&& after matches AlgorithmState::WeightedRoundRobin(a)
                &&& s.assigned(pool, a.weights)
                &&& s.with_weights(a.weights).knows(pool)
                &&& a == s.with_weights(a.weights).step(pool)
                &&& chosen == s.with_weights(a.weights).pick(pool)
            },
            AlgorithmState::IpHash(s) => {
                exists|i: int|
                    0 <= i < STAND_IN_CLIENTS && after == AlgorithmState::IpHash(
                        s.step(#[trigger] stand_in_client(i), pool),
                    ) && chosen == s.pick(stand_in_client(i), pool)
            },
        }
    }

    /// Whether a selection from the non-empty `pool` in this state,
    /// followed by the start of the connection to the backend selected, can
    /// return `chosen` and leave the policy in state `after`.
    pub open spec fn admits(self, pool: Seq<Seq<char>>, after: Self, chosen: Seq<char>) -> bool {
        match self {
            AlgorithmState::LeastConnections(s) => {
                &&& s.is_first_least(pool, s.least_loaded(pool))
                &&& chosen == s.pick(pool)
                &&& after == AlgorithmState::LeastConnections(s.started(chosen))
            },
            _ => self.selects(pool, after, chosen),
        }
    }

    /// The state after a connection to `server` began. Only
    /// least-connections keeps a record of it.
    pub open spec fn started(self, server: Seq<char>) -> Self {
        match self {
            AlgorithmState::LeastConnections(s) => AlgorithmState::LeastConnections(
                s.started(server),
            ),
            _ => self,
        }
    }

    /// The state after a connection to `server` ended. Only
    /// least-connections keeps a record of it.
    pub open spec fn ended(self, server: Seq<char>) -> Self {
        match self {
            AlgorithmState::LeastConnections(s) => AlgorithmState::LeastConnections(
                s.ended(server),
            ),
            _ => self,
        }
    }

    /// The metrics in this state.
    pub open spec fn metrics(self) -> Seq<(Seq<char>, Seq<char>)> {
        match self {
            AlgorithmState::RoundRobin(s) => s.metrics(),
            AlgorithmState::LeastConnections(s) => s.metrics(),
            AlgorithmState::WeightedRoundRobin(s) => s.metrics(),
            AlgorithmState::IpHash(s) => s.metrics(),
        }
    }
}

/// A policy of any of the four kinds.
pub enum Algorithm {
    RoundRobin(RoundRobin),
    LeastConnections(LeastConnections),
    WeightedRoundRobin(WeightedRoundRobin),
    IpHash(IpHash),
}

impl View for Algorithm {
    type V = AlgorithmState;

    open spec fn view(&self) -> AlgorithmState {
        match self {
            Algorithm::RoundRobin(p) => AlgorithmState::RoundRobin(p@),
            Algorithm::LeastConnections(p) => AlgorithmState::LeastConnections(p@),
            Algorithm::WeightedRoundRobin(p) => AlgorithmState::WeightedRoundRobin(p@),
            Algorithm::IpHash(p) => AlgorithmState::IpHash(p@),
        }
    }
}

impl Algorithm {
    /// The policy that `algo_type` names, fresh. The tags are
    /// `round-robin`, `least-connections`, `weighted-round-robin` and
    /// `ip-hash`; any other tag gives round-robin. The weights count for
    /// weighted round-robin only.
    pub fn new(algo_type: &str, weights: Option<Vec<(String, u32)>>) -> (policy: Self)
        requires
            weights matches Some(pairs) ==> forall|i: int|
                0 <= i < pairs@.len() ==> (#[trigger] pairs@[i]).1 >= 1,
        ensures
            policy.wf(),
            policy.headroom(),
            policy@ == AlgorithmState::initial(
                kind_of_tag(algo_type@),
                match weights {
                    Some(pairs) => collected(pairs@, pairs@.len() as int),
                    None => Entries::empty(),
                },
            ),
    {
        match parse_tag(algo_type) {
            PolicyKind::RoundRobin => Algorithm::RoundRobin(RoundRobin::new()),
            PolicyKind::LeastConnections => Algorithm::LeastConnections(LeastConnections::new()),
            PolicyKind::WeightedRoundRobin => Algorithm::WeightedRoundRobin(
                WeightedRoundRobin::new(weights),
            ),
            PolicyKind::IpHash => Algorithm::IpHash(IpHash::new()),
        }
    }
}

impl LoadBalancingAlgorithm for Algorithm {
    open spec fn wf(&self) -> bool {
        match self {
            Algorithm::RoundRobin(p) => p.wf(),
            Algorithm::LeastConnections(p) => p.wf(),
            Algorithm::WeightedRoundRobin(p) => p.wf(),
            Algorithm::IpHash(p) => p.wf(),
        }
    }

    open spec fn headroom(&self) -> bool {
        match self {
            Algorithm::RoundRobin(p) => p.headroom(),
            Algorithm::LeastConnections(p) => p.headroom(),
            Algorithm::WeightedRoundRobin(p) => p.headroom(),
            Algorithm::IpHash(p) => p.headroom(),
        }
    }

    open spec fn room_to_start(&self) -> bool {
        match self {
            Algorithm::LeastConnections(p) => p.room_to_start(),
            _ => true,
        }
    }

    proof fn lemma_room_to_start(&self) {
    }

    open spec fn metrics_spec(&self) -> Seq<(Seq<char>, Seq<char>)> {
        self@.metrics()
    }

    fn has_headroom(&self) -> (r: bool)
        ensures
            r == self.headroom(),
    {
        match self {
            Algorithm::RoundRobin(p) => p.has_headroom(),
            Algorithm::LeastConnections(p) => p.has_headroom(),
            Algorithm::WeightedRoundRobin(p) => p.has_headroom(),
            Algorithm::IpHash(p) => p.has_headroom(),
        }
    }

    /// Selects as the policy inside does.
    fn next_server(&mut self, servers: &[String]) -> (chosen: Option<String>)
        ensures
            servers@.len() > 0 ==> old(self)@.selects(
                names_of(servers@),
                final(self)@,
                chosen.unwrap()@,
            ),
            final(self).room_to_start(),
    {
        match self {
            Algorithm::RoundRobin(p) => p.next_server(servers),
            Algorithm::LeastConnections(p) => p.next_server(servers),
            Algorithm::WeightedRoundRobin(p) => p.next_server(servers),
            Algorithm::IpHash(p) => p.next_server(servers),
        }
    }

    /// Records the connection where the policy inside keeps such a
    /// record.
    fn connection_started(&mut self, server: &str)
        ensures
            final(self)@ == old(self)@.started(server@),
    {
        match self {
            Algorithm::LeastConnections(p) => p.connection_started(server),
            _ => {},
        }
    }

    /// Records the connection's end where the policy inside keeps such a
    /// record.
    fn connection_ended(&mut self, server: &str)
        ensures
            final(self)@ == old(self)@.ended(server@),
    {
        match self {
            Algorithm::LeastConnections(p) => p.connection_ended(server),
            _ => {},
        }
    }

    fn get_metrics(&self) -> (metrics: Vec<(String, String)>)
        ensures
            metrics_view(metrics@) == self@.metrics(),
    {
        match self {
            Algorithm::RoundRobin(p) => {
                assert(self.metrics_spec() == p.metrics_spec());
                p.get_metrics()
            },
            Algorithm::LeastConnections(p) => {
                assert(self.metrics_spec() == p.metrics_spec());
                LoadBalancingAlgorithm::get_metrics(p)
            },
            Algorithm::WeightedRoundRobin(p) => {
                assert(self.metrics_spec() == p.metrics_spec());
                LoadBalancingAlgorithm::get_metrics(p)
            },
            Algorithm::IpHash(p) => {
                assert(self.metrics_spec() == p.metrics_spec());
                p.get_metrics()
            },
        }
    }
}

} // verus!
