//! Round-robin selection: the backends take turns in pool order.

use crate::algorithms::rotation::{
    count_below, hits, lemma_advance, lemma_count_block, lemma_hits_rounds, one_if,
};
use crate::algorithms::{metrics_view, LoadBalancingAlgorithm};
use crate::names::{names_of, Entries, NameMap};
use crate::text::{decimal, percent_text, push_decimal, push_percent, share_in_tenths, share_tenths};
use vstd::prelude::*;
use vstd::string::StringExecFns;

verus! {

/// The state of a round-robin policy: the position last served and how
/// often each backend was chosen.
pub struct RoundRobinState {
    pub cursor: nat,
    pub served: Entries<u64>,
}

/// The metric line of a backend that served `count` of `total` requests.
pub open spec fn round_robin_line(count: nat, total: nat) -> Seq<char> {
    "Requests: "@ + decimal(count) + ", Distribution: "@ + percent_text(share_tenths(count, total))
}

/// Whether position `v` of `pool` lists `server`.
pub open spec fn lists(pool: Seq<Seq<char>>, server: Seq<char>) -> spec_fn(nat) -> bool {
    |v: nat| pool[v as int] == server
}

/// At how many positions `pool` lists `server`.
pub open spec fn occurrences(pool: Seq<Seq<char>>, server: Seq<char>) -> nat {
    count_below(pool.len(), lists(pool, server))
}

/// A backend that the pool lists at one position only occurs once.
pub proof fn lemma_listed_once(pool: Seq<Seq<char>>, server: Seq<char>, at: int)
    requires
        0 <= at < pool.len(),
        pool[at] == server,
        forall|other: int| 0 <= other < pool.len() && other != at ==> pool[other] != server,
    ensures
        occurrences(pool, server) == 1,
{
    let target = lists(pool, server);
    let after = (pool.len() - at - 1) as nat;
    lemma_count_block(0, at as nat, target, false);
    lemma_count_block(at as nat, 1, target, true);
    lemma_count_block((at + 1) as nat, after, target, false);
    assert(count_below(0, target) == 0);
    assert((at + 1) as nat + after == pool.len());
}

impl RoundRobinState {
    /// The state of a fresh policy.
    pub open spec fn initial() -> Self {
        RoundRobinState { cursor: 0, served: Entries::empty() }
    }

    /// The position that the next selection from a pool of `len` backends
    /// falls on: one past the cursor, wrapping round at the pool's end.
    pub open spec fn next_cursor(self, len: nat) -> nat
        recommends
            len > 0,
    {
        (self.cursor + 1) % len
    }

    /// The backend that the next selection from `pool` returns.
    pub open spec fn pick(self, pool: Seq<Seq<char>>) -> Seq<char>
        recommends
            pool.len() > 0,
    {
        pool[self.next_cursor(pool.len()) as int]
    }

    /// The state after one selection from `pool`.
    pub open spec fn step(self, pool: Seq<Seq<char>>) -> Self
        recommends
            pool.len() > 0,
    {
        RoundRobinState {
            cursor: self.next_cursor(pool.len()),
            served: self.served.bump(self.pick(pool)),
        }
    }

    /// The state after `n` selections from `pool` in a row.
    pub open spec fn run(self, pool: Seq<Seq<char>>, n: nat) -> Self
        decreases n,
    {
        if n == 0 {
            self
        } else {
            self.run(pool, (n - 1) as nat).step(pool)
        }
    }

    /// How many of the next `n` selections from `pool` return `server`.
    pub open spec fn returned(self, pool: Seq<Seq<char>>, n: nat, server: Seq<char>) -> nat
        decreases n,
    {
        if n == 0 {
            0
        } else {
            self.returned(pool, (n - 1) as nat, server) + one_if(
                self.run(pool, (n - 1) as nat).pick(pool) == server,
            )
        }
    }

    /// After `n` selections the cursor stands `n` positions further,
    /// wrapped round.
    pub proof fn lemma_run_cursor(self, pool: Seq<Seq<char>>, n: nat)
        requires
            pool.len() > 0,
            n >= 1,
        ensures
            self.run(pool, n).cursor == (self.cursor + n) % pool.len(),
        decreases n,
    {
        if n > 1 {
            self.lemma_run_cursor(pool, (n - 1) as nat);
            lemma_advance(self.cursor, (n - 1) as nat, pool.len());
        } else {
            assert(self.run(pool, 0) == self);
        }
    }

    /// The selections that return `server` are the visits of the cursor
    /// to the positions that list it.
    pub proof fn lemma_returned_hits(self, pool: Seq<Seq<char>>, n: nat, server: Seq<char>)
        requires
            pool.len() > 0,
        ensures
            self.returned(pool, n, server) == hits(
                self.cursor + 1,
                n,
                pool.len(),
                lists(pool, server),
            ),
        decreases n,
    {
        if n > 0 {
            let before = (n - 1) as nat;
            self.lemma_returned_hits(pool, before, server);
            let at = self.run(pool, before).next_cursor(pool.len());
            assert(at == (self.cursor + 1 + n - 1) % pool.len() as int) by {
                if before == 0 {
                    assert(self.run(pool, 0) == self);
                } else {
                    self.lemma_run_cursor(pool, before);
                    lemma_advance(self.cursor, before, pool.len());
                }
            }
            assert(lists(pool, server)(at) == (self.run(pool, before).pick(pool) == server));
        }
    }

    /// Fairness: over a number of full rounds, each as long as the pool,
    /// every backend is returned once per round for each position at which
    /// the pool lists it.
    pub proof fn lemma_round_robin_fairness(
        self,
        pool: Seq<Seq<char>>,
        rounds: nat,
        server: Seq<char>,
    )
        requires
            pool.len() > 0,
        ensures
            self.returned(pool, rounds * pool.len(), server) == rounds * occurrences(pool, server),
    {
        self.lemma_returned_hits(pool, rounds * pool.len(), server);
        lemma_hits_rounds(self.cursor + 1, rounds, pool.len(), lists(pool, server));
    }

    /// The metrics in this state, in the order in which the backends were
    /// first chosen.
    pub open spec fn metrics(self) -> Seq<(Seq<char>, Seq<char>)> {
        Seq::new(
            self.served.keys.len(),
            |i: int|
                (self.served.keys[i], round_robin_line(
                    self.served.vals[i] as nat,
                    self.served.total(),
                )),
        )
    }
}

/// Round-robin policy.
pub struct RoundRobin {
    current: usize,
    requests_served: NameMap<u64>,
}

impl View for RoundRobin {
    type V = RoundRobinState;

    closed spec fn view(&self) -> RoundRobinState {
        RoundRobinState { cursor: self.current as nat, served: self.requests_served@ }
    }
}

/// Renders [`round_robin_line`].
fn render_round_robin_line(count: u64, total: u128) -> (line: String)
    requires
        count <= total,
    ensures
        line@ == round_robin_line(count as nat, total as nat),
{
    let mut line = String::new();
    line.append("Requests: ");
    push_decimal(&mut line, count as u128);
    line.append(", Distribution: ");
    push_percent(&mut line, share_in_tenths(count, total));
    assert(line@ =~= round_robin_line(count as nat, total as nat));
    line
}

impl RoundRobin {
    /// A policy that has served nothing yet.
    pub fn new() -> (policy: Self)
        ensures
            policy@ == RoundRobinState::initial(),
            policy.wf(),
            policy.headroom(),
    {
        RoundRobin { current: 0, requests_served: NameMap::new() }
    }
}

impl LoadBalancingAlgorithm for RoundRobin {
    open spec fn wf(&self) -> bool {
        &&& self@.served.wf()
        &&& self@.cursor < usize::MAX
    }

    open spec fn headroom(&self) -> bool {
        self@.served.has_headroom()
    }

    open spec fn room_to_start(&self) -> bool {
        true
    }

    proof fn lemma_room_to_start(&self) {
    }

    open spec fn metrics_spec(&self) -> Seq<(Seq<char>, Seq<char>)> {
        self@.metrics()
    }

    fn has_headroom(&self) -> (r: bool)
        ensures
            r == self@.served.has_headroom(),
    {
        self.requests_served.has_headroom()
    }

    /// Advances the cursor by one position, wrapping round, returns the
    /// backend there and counts it.
    fn next_server(&mut self, servers: &[String]) -> (chosen: Option<String>)
        ensures
            servers@.len() > 0 ==> final(self)@ == old(self)@.step(names_of(servers@))
                && chosen.unwrap()@ == old(self)@.pick(names_of(servers@)),
            servers@.len() > 0 ==> final(self)@.served.count(chosen.unwrap()@) == old(
                self,
            )@.served.count(chosen.unwrap()@) + 1,
    {
        if servers.len() == 0 {
            return None;
        }
        self.current = (self.current + 1) % servers.len();
        let server = servers[self.current].clone();
        proof {
            self.requests_served@.lemma_headroom(server@);
            self.requests_served@.lemma_bump(server@);
            assert(names_of(servers@)[self.current as int] == server@);
        }
        self.requests_served.increment(&server);
        Some(server)
    }

    /// Round-robin keeps no record of connections.
    fn connection_started(&mut self, server: &str)
        ensures
            *final(self) == *old(self),
    {
    }

    /// Round-robin keeps no record of connections.
    fn connection_ended(&mut self, server: &str)
        ensures
            *final(self) == *old(self),
    {
    }

    fn get_metrics(&self) -> (metrics: Vec<(String, String)>)
        ensures
            metrics_view(metrics@) == self@.metrics(),
    {
        let total = self.requests_served.total();
        let n = self.requests_served.len();
        let mut metrics: Vec<(String, String)> = Vec::new();
        let mut i: usize = 0;
        while i < n
            invariant
                self.wf(),
                n == self@.served.keys.len(),
                total == self@.served.total(),
                i <= n,
                metrics@.len() == i,
                forall|j: int| 0 <= j < i ==> metrics_view(metrics@)[j] == self@.metrics()[j],
            decreases n - i,
        {
            let name = self.requests_served.key_at(i).clone();
            let count = *self.requests_served.value_at(i);
            proof {
                self@.served.lemma_index(i as int);
                self@.served.lemma_count_le_total(name@);
            }
            let line = render_round_robin_line(count, total);
            metrics.push((name, line));
            i += 1;
        }
        assert(metrics_view(metrics@) =~= self@.metrics());
        metrics
    }
}

} // verus!
