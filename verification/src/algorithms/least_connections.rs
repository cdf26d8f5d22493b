//! Least-connections selection: the backend with the fewest connections
//! in flight is chosen, the earlier one in the pool where several tie.

use crate::algorithms::{metrics_view, LoadBalancingAlgorithm};
use crate::names::{names_of, Entries, NameMap};
use crate::text::{decimal, percent_text, push_decimal, push_percent, share_in_tenths, share_tenths};
use vstd::prelude::*;
use vstd::string::StringExecFns;

verus! {

/// The counters of one backend.
#[derive(Clone, Copy, Debug)]
pub struct ConnectionStats {
    /// Connections in flight.
    pub active: u64,
    /// Connections ever started.
    pub total: u64,
    /// Connections that ended.
    pub successful: u64,
}

impl ConnectionStats {
    /// Every started connection has either ended or is still in flight.
    pub open spec fn conserved(self) -> bool {
        self.total == self.successful + self.active
    }
}

/// The metric line of a backend with the given counters.
pub open spec fn least_connections_line(stats: ConnectionStats) -> Seq<char> {
    "Active: "@ + decimal(stats.active as nat) + ", Total: "@ + decimal(stats.total as nat)
        + ", Success: "@ + decimal(stats.successful as nat) + ", Rate: "@ + percent_text(
        share_tenths(stats.successful as nat, stats.total as nat),
    )
}

/// The state of a least-connections policy: the counters of every backend
/// on which a connection was ever started.
pub struct LeastConnectionsState {
    pub stats: Entries<ConnectionStats>,
}

impl LeastConnectionsState {
    /// The state of a fresh policy.
    pub open spec fn initial() -> Self {
        LeastConnectionsState { stats: Entries::empty() }
    }

    /// The table is well-formed and every backend's counters are conserved.
    pub open spec fn wf(self) -> bool {
        &&& self.stats.wf()
        &&& forall|i: int| 0 <= i < self.stats.vals.len() ==> self.stats.vals[i].conserved()
    }

    /// Whether every backend can take one more connection into its counts.
    pub open spec fn headroom(self) -> bool {
        forall|i: int| 0 <= i < self.stats.vals.len() ==> self.stats.vals[i].total < u64::MAX
    }

    /// The counters of `key`: all zero where no connection was ever
    /// started on it.
    pub open spec fn counters(self, key: Seq<char>) -> ConnectionStats {
        match self.stats.get(key) {
            Some(stats) => stats,
            None => ConnectionStats { active: 0, total: 0, successful: 0 },
        }
    }

    /// The connections in flight on `key`.
    pub open spec fn active(self, key: Seq<char>) -> nat {
        self.counters(key).active as nat
    }

    /// Whether position `at` of `pool` holds a backend with the fewest
    /// connections in flight, and no earlier position does.
    pub open spec fn is_first_least(self, pool: Seq<Seq<char>>, at: int) -> bool {
        &&& 0 <= at < pool.len()
        &&& forall|j: int|
            0 <= j < pool.len() ==> self.active(pool[at]) <= #[trigger] self.active(pool[j])
        &&& forall|j: int| 0 <= j < at ==> self.active(pool[at]) < #[trigger] self.active(pool[j])
    }

    /// The position in `pool` that the next selection falls on.
    pub open spec fn least_loaded(self, pool: Seq<Seq<char>>) -> int
        recommends
            pool.len() > 0,
    {
        choose|at: int| self.is_first_least(pool, at)
    }

    /// The backend that the next selection from `pool` returns.
    pub open spec fn pick(self, pool: Seq<Seq<char>>) -> Seq<char>
        recommends
            pool.len() > 0,
    {
        pool[self.least_loaded(pool)]
    }

    /// The state after a connection to `key` began: one more in flight,
    /// one more in total.
    pub open spec fn started(self, key: Seq<char>) -> Self {
        let before = self.counters(key);
        LeastConnectionsState {
            stats: self.stats.put(
                key,
                ConnectionStats {
                    active: (before.active + 1) as u64,
                    total: (before.total + 1) as u64,
                    successful: before.successful,
                },
            ),
        }
    }

    /// The state after a connection to `key` ended: one fewer in flight
    /// and one more ended, unless none was in flight, in which case
    /// nothing changes.
    pub open spec fn ended(self, key: Seq<char>) -> Self {
        let before = self.counters(key);
        if before.active > 0 {
            LeastConnectionsState {
                stats: self.stats.put(
                    key,
                    ConnectionStats {
                        active: (before.active - 1) as u64,
                        total: before.total,
                        successful: (before.successful + 1) as u64,
                    },
                ),
            }
        } else {
            self
        }
    }

    /// The metrics in this state, in the order in which the backends were
    /// first connected to.
    pub open spec fn metrics(self) -> Seq<(Seq<char>, Seq<char>)> {
        Seq::new(
            self.stats.keys.len(),
            |i: int| (self.stats.keys[i], least_connections_line(self.stats.vals[i])),
        )
    }

    /// At most one position is the first with the fewest connections.
    pub proof fn lemma_first_least_unique(self, pool: Seq<Seq<char>>, a: int, b: int)
        requires
            self.is_first_least(pool, a),
            self.is_first_least(pool, b),
        ensures
            a == b,
    {
        if a < b {
            assert(self.active(pool[b]) < self.active(pool[a]));
            assert(self.active(pool[a]) <= self.active(pool[b]));
        } else if b < a {
            assert(self.active(pool[a]) < self.active(pool[b]));
            assert(self.active(pool[b]) <= self.active(pool[a]));
        }
    }

    /// The counters of every backend are conserved and, with headroom,
    /// below the largest count.
    pub proof fn lemma_counters(self, key: Seq<char>)
        requires
            self.wf(),
        ensures
            self.counters(key).conserved(),
            self.headroom() ==> self.counters(key).total < u64::MAX,
    {
    }

    /// Starting a connection keeps the invariant.
    pub proof fn lemma_started(self, key: Seq<char>)
        requires
            self.wf(),
            self.headroom(),
        ensures
            self.started(key).wf(),
            self.started(key).active(key) == self.active(key) + 1,
            forall|other: Seq<char>|
                other != key ==> self.started(key).counters(other) == self.counters(other),
    {
        let before = self.counters(key);
        let after = ConnectionStats {
            active: (before.active + 1) as u64,
            total: (before.total + 1) as u64,
            successful: before.successful,
        };
        self.lemma_counters(key);
        self.stats.lemma_put(key, after);
    }

    /// Ending a connection keeps the invariant.
    pub proof fn lemma_ended(self, key: Seq<char>)
        requires
            self.wf(),
        ensures
            self.ended(key).wf(),
            forall|other: Seq<char>|
                other != key ==> self.ended(key).counters(other) == self.counters(other),
    {
        let before = self.counters(key);
        self.lemma_counters(key);
        if before.active > 0 {
            let after = ConnectionStats {
                active: (before.active - 1) as u64,
                total: before.total,
                successful: (before.successful + 1) as u64,
            };
            self.stats.lemma_put(key, after);
        }
    }

    /// Counter conservation: in every state that the policy can reach,
    /// the connections started on a backend are those that ended plus
    /// those in flight.
    pub proof fn lemma_conservation(self, key: Seq<char>)
        requires
            self.wf(),
        ensures
            self.counters(key).total == self.counters(key).successful + self.counters(key).active,
    {
        self.lemma_counters(key);
    }

    /// Where no backend has a connection in flight and one begins on
    /// `busy`, the next selection from a pool that offers any other
    /// backend returns another backend.
    pub proof fn lemma_idle_backend_preferred(self, pool: Seq<Seq<char>>, busy: Seq<char>)
        requires
            self.wf(),
            self.headroom(),
            forall|key: Seq<char>| self.active(key) == 0,
            exists|i: int| 0 <= i < pool.len() && pool[i] != busy,
        ensures
            self.started(busy).is_first_least(pool, self.started(busy).least_loaded(pool)),
            self.started(busy).pick(pool) != busy,
    {
        let after = self.started(busy);
        self.lemma_started(busy);
        let idle = choose|i: int| 0 <= i < pool.len() && pool[i] != busy;
        assert(after.active(pool[idle]) == 0) by {
            assert(after.counters(pool[idle]) == self.counters(pool[idle]));
            assert(self.active(pool[idle]) == 0);
        }
        after.lemma_first_least_exists(pool);
        let at = after.least_loaded(pool);
        assert(after.active(pool[at]) <= after.active(pool[idle]));
        assert(self.active(busy) == 0);
    }

    /// Every non-empty pool has a first position with the fewest
    /// connections.
    pub proof fn lemma_first_least_exists(self, pool: Seq<Seq<char>>)
        requires
            pool.len() > 0,
        ensures
            self.is_first_least(pool, self.least_loaded(pool)),
    {
        let at = self.first_least_upto(pool, pool.len() as int);
        self.lemma_first_least_upto(pool, pool.len() as int);
        assert(self.is_first_least(pool, at));
    }

    /// The first position with the fewest connections among the first
    /// `n` of `pool`.
    pub open spec fn first_least_upto(self, pool: Seq<Seq<char>>, n: int) -> int
        decreases n,
    {
        if n <= 1 {
            0
        } else {
            let best = self.first_least_upto(pool, n - 1);
            if self.active(pool[n - 1]) < self.active(pool[best]) {
                n - 1
            } else {
                best
            }
        }
    }

    /// [`Self::first_least_upto`] is what its name says.
    pub proof fn lemma_first_least_upto(self, pool: Seq<Seq<char>>, n: int)
        requires
            1 <= n <= pool.len(),
        ensures
            0 <= self.first_least_upto(pool, n) < n,
            forall|j: int|
                0 <= j < n ==> self.active(pool[self.first_least_upto(pool, n)])
                    <= #[trigger] self.active(pool[j]),
            forall|j: int|
                0 <= j < self.first_least_upto(pool, n) ==> self.active(
                    pool[self.first_least_upto(pool, n)],
                ) < #[trigger] self.active(pool[j]),
        decreases n,
    {
        if n > 1 {
            self.lemma_first_least_upto(pool, n - 1);
        }
    }
}

/// Least-connections policy.
pub struct LeastConnections {
    stats: NameMap<ConnectionStats>,
}

impl View for LeastConnections {
    type V = LeastConnectionsState;

    closed spec fn view(&self) -> LeastConnectionsState {
        LeastConnectionsState { stats: self.stats@ }
    }
}

/// Renders [`least_connections_line`].
fn render_least_connections_line(stats: ConnectionStats) -> (line: String)
    requires
        stats.conserved(),
    ensures
        line@ == least_connections_line(stats),
{
    let mut line = String::new();
    line.append("Active: ");
    push_decimal(&mut line, stats.active as u128);
    line.append(", Total: ");
    push_decimal(&mut line, stats.total as u128);
    line.append(", Success: ");
    push_decimal(&mut line, stats.successful as u128);
    line.append(", Rate: ");
    push_percent(&mut line, share_in_tenths(stats.successful, stats.total as u128));
    assert(line@ =~= least_connections_line(stats));
    line
}

impl LeastConnections {
    /// A policy that has seen no connection yet.
    pub fn new() -> (policy: Self)
        ensures
            policy@ == LeastConnectionsState::initial(),
            policy.wf(),
            policy.headroom(),
    {
        LeastConnections { stats: NameMap::new() }
    }

    /// The counters of `name`.
    fn counters(&self, name: &String) -> (stats: ConnectionStats)
        requires
            self.wf(),
        ensures
            stats == self@.counters(name@),
    {
        match self.stats.get(name) {
            Some(stats) => *stats,
            None => ConnectionStats { active: 0, total: 0, successful: 0 },
        }
    }

    /// Counts a connection to `server` as begun: one more in flight, one
    /// more in total.
    pub fn connection_started(&mut self, server: &str)
        requires
            old(self).wf(),
            old(self).headroom(),
        ensures
            final(self).wf(),
            final(self)@ == old(self)@.started(server@),
    {
        let name = server.to_owned();
        let before = self.counters(&name);
        proof {
            self@.lemma_counters(name@);
            self@.lemma_started(name@);
        }
        self.stats.insert(
            &name,
            ConnectionStats {
                active: before.active + 1,
                total: before.total + 1,
                successful: before.successful,
            },
        );
    }

    /// Counts a connection to `server` as ended: one fewer in flight and
    /// one more ended. Where none is in flight, nothing changes.
    pub fn connection_ended(&mut self, server: &str)
        requires
            old(self).wf(),
        ensures
            final(self).wf(),
            final(self)@ == old(self)@.ended(server@),
    {
        let name = server.to_owned();
        let before = self.counters(&name);
        proof {
            self@.lemma_counters(name@);
            self@.lemma_ended(name@);
        }
        if before.active > 0 {
            self.stats.insert(
                &name,
                ConnectionStats {
                    active: before.active - 1,
                    total: before.total,
                    successful: before.successful + 1,
                },
            );
        }
    }

    /// Renders every backend's counters and the share of its connections
    /// that have ended.
    pub fn get_metrics(&self) -> (metrics: Vec<(String, String)>)
        requires
            self.wf(),
        ensures
            metrics_view(metrics@) == self@.metrics(),
    {
        let n = self.stats.len();
        let mut metrics: Vec<(String, String)> = Vec::new();
        let mut i: usize = 0;
        while i < n
            invariant
                self.wf(),
                n == self@.stats.keys.len(),
                i <= n,
                metrics@.len() == i,
                forall|j: int| 0 <= j < i ==> metrics_view(metrics@)[j] == self@.metrics()[j],
            decreases n - i,
        {
            let name = self.stats.key_at(i).clone();
            let stats = *self.stats.value_at(i);
            let line = render_least_connections_line(stats);
            metrics.push((name, line));
            i += 1;
        }
        assert(metrics_view(metrics@) =~= self@.metrics());
        metrics
    }
}

impl LoadBalancingAlgorithm for LeastConnections {
    open spec fn wf(&self) -> bool {
        self@.wf()
    }

    open spec fn headroom(&self) -> bool {
        self@.headroom()
    }

    open spec fn room_to_start(&self) -> bool {
        self@.headroom()
    }

    proof fn lemma_room_to_start(&self) {
    }

    open spec fn metrics_spec(&self) -> Seq<(Seq<char>, Seq<char>)> {
        self@.metrics()
    }

    fn has_headroom(&self) -> (r: bool)
        ensures
            r == self@.headroom(),
    {
        let n = self.stats.len();
        let mut i: usize = 0;
        while i < n
            invariant
                self.wf(),
                n == self@.stats.keys.len(),
                i <= n,
                forall|j: int| 0 <= j < i ==> self@.stats.vals[j].total < u64::MAX,
            decreases n - i,
        {
            if self.stats.value_at(i).total == u64::MAX {
                return false;
            }
            i += 1;
        }
        true
    }

    /// Returns the first backend of the pool with the fewest connections
    /// in flight. The counters stay as they are.
    fn next_server(&mut self, servers: &[String]) -> (chosen: Option<String>)
        ensures
            *final(self) == *old(self),
            servers@.len() > 0 ==> old(self)@.is_first_least(
                names_of(servers@),
                old(self)@.least_loaded(names_of(servers@)),
            ) && chosen.unwrap()@ == old(self)@.pick(names_of(servers@)),
    {
        if servers.len() == 0 {
            return None;
        }
        let ghost pool = names_of(servers@);
        let n = servers.len();
        let mut best: usize = 0;
        let mut least: u64 = self.counters(&servers[0]).active;
        let mut i: usize = 1;
        while i < n
            invariant
                self.wf(),
                pool == names_of(servers@),
                n == servers@.len(),
                1 <= i <= n,
                best == self@.first_least_upto(pool, i as int),
                best < i,
                least == self@.active(pool[best as int]),
            decreases n - i,
        {
            let active = self.counters(&servers[i]).active;
            if active < least {
                best = i;
                least = active;
            }
            i += 1;
        }
        proof {
            self@.lemma_first_least_upto(pool, n as int);
            assert(self@.is_first_least(pool, best as int));
            self@.lemma_first_least_exists(pool);
            self@.lemma_first_least_unique(pool, best as int, self@.least_loaded(pool));
        }
        Some(servers[best].clone())
    }

    fn connection_started(&mut self, server: &str)
        ensures
            final(self)@ == old(self)@.started(server@),
    {
        LeastConnections::connection_started(self, server)
    }

    fn connection_ended(&mut self, server: &str)
        ensures
            final(self)@ == old(self)@.ended(server@),
    {
        LeastConnections::connection_ended(self, server)
    }

    fn get_metrics(&self) -> (metrics: Vec<(String, String)>)
        ensures
            metrics_view(metrics@) == self@.metrics(),
    {
        LeastConnections::get_metrics(self)
    }
}

} // verus!
