//! Weighted round-robin selection: over one round every backend is chosen
//! as often as its weight says. A backend that comes without a weight is
//! given a random one between 1 and 10 when it is first seen in a pool.

use crate::algorithms::rotation::{
    count_below, hits, lemma_advance, lemma_count_block, lemma_hits_rounds, one_if,
};
use crate::algorithms::{metrics_view, LoadBalancingAlgorithm};
use crate::names::{names_of, Entries, NameMap};
use crate::random::random_weight;
use crate::text::{decimal, percent_text, push_decimal, push_percent, share_in_tenths, share_tenths};
use vstd::prelude::*;
use vstd::string::StringExecFns;

verus! {

/// The smallest weight that a backend is given at random.
pub const MIN_RANDOM_WEIGHT: u32 = 1;

/// The largest weight that a backend is given at random.
pub const MAX_RANDOM_WEIGHT: u32 = 10;

/// Whether `weight` is one that a backend can be given at random.
pub open spec fn is_random_weight(weight: u32) -> bool {
    MIN_RANDOM_WEIGHT <= weight <= MAX_RANDOM_WEIGHT
}

/// The metric line of a backend with `weight` that served `count` of
/// `total` requests.
pub open spec fn weighted_line(weight: nat, count: nat, total: nat) -> Seq<char> {
    "Weight: "@ + decimal(weight) + ", Requests: "@ + decimal(count) + ", Distribution: "@
        + percent_text(share_tenths(count, total))
}

/// `keys` after each of the first `n` names of `pool` that it lacks has
/// been added at its end, in pool order.
pub open spec fn enrolled(keys: Seq<Seq<char>>, pool: Seq<Seq<char>>, n: int) -> Seq<Seq<char>>
    decreases n,
{
    if n <= 0 {
        keys
    } else {
        let before = enrolled(keys, pool, n - 1);
        if before.contains(pool[n - 1]) {
            before
        } else {
            before.push(pool[n - 1])
        }
    }
}

/// The table that binding the first `n` of `pairs` in turn gives: a name
/// that occurs again takes the later weight.
pub open spec fn collected(pairs: Seq<(String, u32)>, n: int) -> Entries<u32>
    decreases n,
{
    if n <= 0 {
        Entries::empty()
    } else {
        collected(pairs, n - 1).put(pairs[n - 1].0@, pairs[n - 1].1)
    }
}

/// The weight that `weights` gives `key`: one where it records none.
pub open spec fn weight_in(weights: Entries<u32>, key: Seq<char>) -> nat {
    match weights.get(key) {
        Some(w) => w as nat,
        None => 1,
    }
}

/// The sum of the weights of the first `n` backends of `pool`.
pub open spec fn cumulative_weight(weights: Entries<u32>, pool: Seq<Seq<char>>, n: int) -> nat
    decreases n,
{
    if n <= 0 {
        0
    } else {
        cumulative_weight(weights, pool, n - 1) + weight_in(weights, pool[n - 1])
    }
}

/// Whether position `at` of `pool` is the first whose cumulative weight
/// exceeds `ticket`.
pub open spec fn covers_in(
    weights: Entries<u32>,
    pool: Seq<Seq<char>>,
    at: int,
    ticket: nat,
) -> bool {
    &&& 0 <= at < pool.len()
    &&& cumulative_weight(weights, pool, at) <= ticket < cumulative_weight(weights, pool, at + 1)
}

/// The position of `pool` that `ticket` falls on.
pub open spec fn slot_in(weights: Entries<u32>, pool: Seq<Seq<char>>, ticket: nat) -> int {
    choose|at: int| covers_in(weights, pool, at, ticket)
}

/// Whether the cursor value `v` makes a selection from `pool` return
/// `server`.
pub open spec fn draws(weights: Entries<u32>, pool: Seq<Seq<char>>, server: Seq<char>) -> spec_fn(
    nat,
) -> bool {
    |v: nat| pool[slot_in(weights, pool, v)] == server
}

/// The sum of the weights of those of the first `n` positions of `pool`
/// that list `server`.
pub open spec fn share_upto(
    weights: Entries<u32>,
    pool: Seq<Seq<char>>,
    server: Seq<char>,
    n: int,
) -> nat
    decreases n,
{
    if n <= 0 {
        0
    } else {
        share_upto(weights, pool, server, n - 1) + if pool[n - 1] == server {
            weight_in(weights, pool[n - 1])
        } else {
            0
        }
    }
}

/// The state of a weighted round-robin policy.
pub struct WeightedState {
    pub cursor: nat,
    pub weights: Entries<u32>,
    pub served: Entries<u64>,
}

impl WeightedState {
    /// The state of a fresh policy with the given weights.
    pub open spec fn initial(weights: Entries<u32>) -> Self {
        WeightedState { cursor: 0, weights, served: Entries::empty() }
    }

    /// Both tables are well-formed and every weight is at least one.
    pub open spec fn wf(self) -> bool {
        &&& self.weights.wf()
        &&& self.served.wf()
        &&& forall|i: int| 0 <= i < self.weights.vals.len() ==> self.weights.vals[i] >= 1
    }

    /// The weight of `key`: one where none is recorded.
    pub open spec fn weight(self, key: Seq<char>) -> nat {
        weight_in(self.weights, key)
    }

    /// Whether every backend of `pool` has a recorded weight.
    pub open spec fn knows(self, pool: Seq<Seq<char>>) -> bool {
        forall|i: int| 0 <= i < pool.len() ==> self.weights.contains(#[trigger] pool[i])
    }

    /// The sum of the weights of the first `n` backends of `pool`.
    pub open spec fn weight_upto(self, pool: Seq<Seq<char>>, n: int) -> nat {
        cumulative_weight(self.weights, pool, n)
    }

    /// The sum of the weights of all backends of `pool`: the length of
    /// one round.
    pub open spec fn total_weight(self, pool: Seq<Seq<char>>) -> nat {
        self.weight_upto(pool, pool.len() as int)
    }

    /// Whether position `at` of `pool` is the first whose cumulative
    /// weight exceeds `ticket`.
    pub open spec fn covers(self, pool: Seq<Seq<char>>, at: int, ticket: nat) -> bool {
        covers_in(self.weights, pool, at, ticket)
    }

    /// The position of `pool` that `ticket` falls on.
    pub open spec fn slot(self, pool: Seq<Seq<char>>, ticket: nat) -> int
        recommends
            ticket < self.total_weight(pool),
    {
        slot_in(self.weights, pool, ticket)
    }

    /// The cursor after the next selection from `pool`: one further,
    /// wrapping round at the end of the round.
    pub open spec fn next_cursor(self, pool: Seq<Seq<char>>) -> nat
        recommends
            pool.len() > 0,
    {
        (self.cursor + 1) % self.total_weight(pool)
    }

    /// The backend that the next selection from `pool` returns.
    pub open spec fn pick(self, pool: Seq<Seq<char>>) -> Seq<char>
        recommends
            pool.len() > 0,
    {
        pool[self.slot(pool, self.next_cursor(pool))]
    }

    /// The state after one selection from `pool`, with the weights as
    /// they stand.
    pub open spec fn step(self, pool: Seq<Seq<char>>) -> Self
        recommends
            pool.len() > 0,
    {
        WeightedState {
            cursor: self.next_cursor(pool),
            weights: self.weights,
            served: self.served.bump(self.pick(pool)),
        }
    }

    /// Whether `after` is this state's weight table once every backend of
    /// `pool` has a weight: the recorded weights stay, and each backend
    /// that lacked one follows in pool order with a weight between
    /// [`MIN_RANDOM_WEIGHT`] and [`MAX_RANDOM_WEIGHT`].
    pub open spec fn assigned(self, pool: Seq<Seq<char>>, after: Entries<u32>) -> bool {
        &&& after.keys == enrolled(self.weights.keys, pool, pool.len() as int)
        &&& after.vals.len() == after.keys.len()
        &&& self.weights.vals.len() <= after.vals.len()
        &&& forall|i: int|
            0 <= i < self.weights.vals.len() ==> after.vals[i] == self.weights.vals[i]
        &&& forall|i: int|
            self.weights.vals.len() <= i < after.vals.len() ==> is_random_weight(
                #[trigger] after.vals[i],
            )
    }

    /// This state with another weight table.
    pub open spec fn with_weights(self, weights: Entries<u32>) -> Self {
        WeightedState { cursor: self.cursor, weights, served: self.served }
    }

    /// The metrics in this state, in the order of the weight table.
    pub open spec fn metrics(self) -> Seq<(Seq<char>, Seq<char>)> {
        Seq::new(
            self.weights.keys.len(),
            |i: int|
                (self.weights.keys[i], weighted_line(
                    self.weights.vals[i] as nat,
                    self.served.count(self.weights.keys[i]),
                    self.served.total(),
                )),
        )
    }

    /// The sum of the weights of the positions of `pool` that list
    /// `server`: how often one round returns it.
    pub open spec fn share(self, pool: Seq<Seq<char>>, server: Seq<char>) -> nat {
        share_upto(self.weights, pool, server, pool.len() as int)
    }

    /// The state after `n` selections from `pool` in a row, with the
    /// weights as they stand.
    pub open spec fn run(self, pool: Seq<Seq<char>>, n: nat) -> Self
        decreases n,
    {
        if n == 0 {
            self
        } else {
            self.run(pool, (n - 1) as nat).step(pool)
        }
    }

    /// How many of the next `n` selections from `pool` return `server`.
    pub open spec fn returned(self, pool: Seq<Seq<char>>, n: nat, server: Seq<char>) -> nat
        decreases n,
    {
        if n == 0 {
            0
        } else {
            self.returned(pool, (n - 1) as nat, server) + one_if(
                self.run(pool, (n - 1) as nat).pick(pool) == server,
            )
        }
    }

    /// Where every backend of the pool has a weight, assigning weights
    /// changes nothing.
    pub proof fn lemma_assigned_known(self, pool: Seq<Seq<char>>, after: Entries<u32>)
        requires
            self.wf(),
            self.knows(pool),
            self.assigned(pool, after),
        ensures
            after == self.weights,
    {
        self.lemma_enrolled_known(pool, pool.len() as int);
        assert(after.vals =~= self.weights.vals);
    }

    /// Backends that have a weight are not enrolled again.
    pub proof fn lemma_enrolled_known(self, pool: Seq<Seq<char>>, n: int)
        requires
            self.knows(pool),
            n <= pool.len(),
        ensures
            enrolled(self.weights.keys, pool, n) == self.weights.keys,
        decreases n,
    {
        if n > 0 {
            self.lemma_enrolled_known(pool, n - 1);
            assert(self.weights.contains(pool[n - 1]));
            assert(self.weights.keys.contains(pool[n - 1]));
        }
    }

    /// Selections leave the weights alone, and after `n` of them the
    /// cursor stands `n` tickets further, wrapped round.
    pub proof fn lemma_run(self, pool: Seq<Seq<char>>, n: nat)
        requires
            self.wf(),
            pool.len() > 0,
        ensures
            self.run(pool, n).weights == self.weights,
            n >= 1 ==> self.run(pool, n).cursor == (self.cursor + n) % self.total_weight(pool),
        decreases n,
    {
        if n > 0 {
            self.lemma_run(pool, (n - 1) as nat);
            self.lemma_weight_upto(pool, 0, pool.len() as int);
            if n > 1 {
                lemma_advance(self.cursor, (n - 1) as nat, self.total_weight(pool));
            }
        }
    }

    /// The selections that return `server` are the visits of the cursor
    /// to the tickets that draw it.
    pub proof fn lemma_returned_hits(self, pool: Seq<Seq<char>>, n: nat, server: Seq<char>)
        requires
            self.wf(),
            pool.len() > 0,
        ensures
            self.returned(pool, n, server) == hits(
                self.cursor + 1,
                n,
                self.total_weight(pool),
                draws(self.weights, pool, server),
            ),
        decreases n,
    {
        if n > 0 {
            let before = (n - 1) as nat;
            let total = self.total_weight(pool);
            self.lemma_returned_hits(pool, before, server);
            self.lemma_run(pool, before);
            self.lemma_weight_upto(pool, 0, pool.len() as int);
            let at = self.run(pool, before).next_cursor(pool);
            assert(at == (self.cursor + 1 + n - 1) % total as int) by {
                if before > 0 {
                    lemma_advance(self.cursor, before, total);
                }
            }
            assert(draws(self.weights, pool, server)(at) == (self.run(pool, before).pick(pool)
                == server));
        }
    }

    /// The tickets below the cumulative weight of the first `n` backends
    /// that draw `server` are as many as the weights of the positions
    /// among them that list it.
    pub proof fn lemma_share_upto(self, pool: Seq<Seq<char>>, server: Seq<char>, n: int)
        requires
            self.wf(),
            0 <= n <= pool.len(),
        ensures
            count_below(self.weight_upto(pool, n), draws(self.weights, pool, server)) == share_upto(
                self.weights,
                pool,
                server,
                n,
            ),
        decreases n,
    {
        if n > 0 {
            self.lemma_share_upto(pool, server, n - 1);
            let from = self.weight_upto(pool, n - 1);
            let width = self.weight(pool[n - 1]);
            let target = draws(self.weights, pool, server);
            assert forall|v: nat| from <= v < from + width implies #[trigger] target(v) == (pool[n
                - 1] == server) by {
                assert(self.covers(pool, n - 1, v));
                self.lemma_slot(pool, n - 1, v);
            }
            lemma_count_block(from, width, target, pool[n - 1] == server);
        }
    }

    /// Fairness: over a number of full rounds, each as long as the pool's
    /// total weight, every backend is returned once per round for each
    /// unit of weight of each position at which the pool lists it.
    pub proof fn lemma_weighted_fairness(self, pool: Seq<Seq<char>>, rounds: nat, server: Seq<char>)
        requires
            self.wf(),
            pool.len() > 0,
        ensures
            self.returned(pool, rounds * self.total_weight(pool), server) == rounds * self.share(
                pool,
                server,
            ),
    {
        let total = self.total_weight(pool);
        self.lemma_weight_upto(pool, 0, pool.len() as int);
        self.lemma_returned_hits(pool, rounds * total, server);
        lemma_hits_rounds(self.cursor + 1, rounds, total, draws(self.weights, pool, server));
        self.lemma_share_upto(pool, server, pool.len() as int);
    }

    /// A backend that the pool lists at one position only has its own
    /// weight as its share of a round.
    pub proof fn lemma_share_listed_once(self, pool: Seq<Seq<char>>, server: Seq<char>, at: int)
        requires
            0 <= at < pool.len(),
            pool[at] == server,
            forall|other: int| 0 <= other < pool.len() && other != at ==> pool[other] != server,
        ensures
            self.share(pool, server) == self.weight(server),
    {
        self.lemma_share_before(pool, server, at);
        self.lemma_share_after(pool, server, at, pool.len() as int);
    }

    /// Positions that do not list `server` add nothing to its share.
    pub proof fn lemma_share_before(self, pool: Seq<Seq<char>>, server: Seq<char>, n: int)
        requires
            0 <= n <= pool.len(),
            forall|other: int| 0 <= other < n ==> pool[other] != server,
        ensures
            share_upto(self.weights, pool, server, n) == 0,
        decreases n,
    {
        if n > 0 {
            self.lemma_share_before(pool, server, n - 1);
        }
    }

    /// Past the one position that lists `server`, its share is its weight.
    pub proof fn lemma_share_after(self, pool: Seq<Seq<char>>, server: Seq<char>, at: int, n: int)
        requires
            0 <= at < n <= pool.len(),
            pool[at] == server,
            forall|other: int| 0 <= other < pool.len() && other != at ==> pool[other] != server,
        ensures
            share_upto(self.weights, pool, server, n) == self.weight(server),
        decreases n,
    {
        if n == at + 1 {
            self.lemma_share_before(pool, server, at);
        } else {
            self.lemma_share_after(pool, server, at, n - 1);
        }
    }

    /// Every weight is at least one.
    pub proof fn lemma_weight_positive(self, key: Seq<char>)
        requires
            self.wf(),
        ensures
            self.weight(key) >= 1,
            self.weight(key) <= u32::MAX,
    {
    }

    /// The cumulative weight grows by at least one with every backend, and
    /// by no more than the largest weight.
    pub proof fn lemma_weight_upto(self, pool: Seq<Seq<char>>, a: int, b: int)
        requires
            self.wf(),
            0 <= a <= b <= pool.len(),
        ensures
            self.weight_upto(pool, a) + (b - a) <= self.weight_upto(pool, b),
            self.weight_upto(pool, b) <= b * u32::MAX,
        decreases b,
    {
        if b > 0 {
            self.lemma_weight_positive(pool[b - 1]);
            if a < b {
                self.lemma_weight_upto(pool, a, b - 1);
            } else {
                self.lemma_weight_upto(pool, b - 1, b - 1);
            }
            assert((b - 1) * u32::MAX + u32::MAX == b * u32::MAX) by (nonlinear_arith);
        }
    }

    /// A ticket falls on at most one position.
    pub proof fn lemma_covers_unique(self, pool: Seq<Seq<char>>, a: int, b: int, ticket: nat)
        requires
            self.wf(),
            self.covers(pool, a, ticket),
            self.covers(pool, b, ticket),
        ensures
            a == b,
    {
        if a < b {
            self.lemma_weight_upto(pool, a + 1, b);
        } else if b < a {
            self.lemma_weight_upto(pool, b + 1, a);
        }
    }

    /// The position that [`Self::slot`] names is the one that covers the
    /// ticket.
    pub proof fn lemma_slot(self, pool: Seq<Seq<char>>, at: int, ticket: nat)
        requires
            self.wf(),
            self.covers(pool, at, ticket),
        ensures
            self.slot(pool, ticket) == at,
    {
        self.lemma_covers_unique(pool, at, self.slot(pool, ticket), ticket);
    }
}

/// Weighted round-robin policy.
pub struct WeightedRoundRobin {
    current: u128,
    weights: NameMap<u32>,
    requests_served: NameMap<u64>,
}

impl View for WeightedRoundRobin {
    type V = WeightedState;

    closed spec fn view(&self) -> WeightedState {
        WeightedState {
            cursor: self.current as nat,
            weights: self.weights@,
            served: self.requests_served@,
        }
    }
}

/// Renders [`weighted_line`].
fn render_weighted_line(weight: u32, count: u64, total: u128) -> (line: String)
    requires
        count <= total,
    ensures
        line@ == weighted_line(weight as nat, count as nat, total as nat),
{
    let mut line = String::new();
    line.append("Weight: ");
    push_decimal(&mut line, weight as u128);
    line.append(", Requests: ");
    push_decimal(&mut line, count as u128);
    line.append(", Distribution: ");
    push_percent(&mut line, share_in_tenths(count, total));
    assert(line@ =~= weighted_line(weight as nat, count as nat, total as nat));
    line
}

impl WeightedRoundRobin {
    /// A policy with the given weights, or with none. Where a name is
    /// listed more than once, the last weight counts.
    pub fn new(weights: Option<Vec<(String, u32)>>) -> (policy: Self)
        requires
            weights matches Some(pairs) ==> forall|i: int|
                0 <= i < pairs@.len() ==> (#[trigger] pairs@[i]).1 >= 1,
        ensures
            policy.wf(),
            policy.headroom(),
            policy@ == WeightedState::initial(
                match weights {
                    Some(pairs) => collected(pairs@, pairs@.len() as int),
                    None => Entries::empty(),
                },
            ),
    {
        let mut table: NameMap<u32> = NameMap::new();
        match weights {
            Some(pairs) => {
                let n = pairs.len();
                let mut i: usize = 0;
                while i < n
                    invariant
                        n == pairs@.len(),
                        i <= n,
                        table.wf(),
                        table@ == collected(pairs@, i as int),
                        forall|j: int| 0 <= j < pairs@.len() ==> (#[trigger] pairs@[j]).1 >= 1,
                        forall|j: int| 0 <= j < table@.vals.len() ==> table@.vals[j] >= 1,
                    decreases n - i,
                {
                    let ghost before = table@;
                    table.insert(&pairs[i].0, pairs[i].1);
                    proof {
                        assert(pairs@[i as int].1 >= 1);
                        before.lemma_put(pairs@[i as int].0@, pairs@[i as int].1);
                    }
                    i += 1;
                }
            },
            None => {},
        }
        WeightedRoundRobin { current: 0, weights: table, requests_served: NameMap::new() }
    }

    /// The recorded weight of `name`, or one where there is none.
    fn weight_of(&self, name: &String) -> (weight: u32)
        requires
            self.wf(),
        ensures
            weight == self@.weight(name@),
    {
        match self.weights.get(name) {
            Some(w) => *w,
            None => 1,
        }
    }

    /// Gives a random weight to every backend of `servers` that has none.
    fn ensure_weights(&mut self, servers: &[String])
        requires
            old(self).wf(),
        ensures
            final(self).wf(),
            final(self)@ == old(self)@.with_weights(final(self)@.weights),
            old(self)@.assigned(names_of(servers@), final(self)@.weights),
            final(self)@.knows(names_of(servers@)),
    {
        let ghost pool = names_of(servers@);
        let ghost start = self@.weights;
        let n = servers.len();
        let mut i: usize = 0;
        while i < n
            invariant
                n == servers@.len(),
                pool == names_of(servers@),
                i <= n,
                self.wf(),
                start == old(self)@.weights,
                self@ == old(self)@.with_weights(self@.weights),
                self@.weights.keys == enrolled(start.keys, pool, i as int),
                start.vals.len() <= self@.weights.vals.len(),
                forall|j: int| 0 <= j < start.vals.len() ==> self@.weights.vals[j] == start.vals[j],
                forall|j: int|
                    start.vals.len() <= j < self@.weights.vals.len() ==> is_random_weight(
                        #[trigger] self@.weights.vals[j],
                    ),
                forall|j: int| 0 <= j < i ==> self@.weights.contains(#[trigger] pool[j]),
            decreases n - i,
        {
            let ghost before = self@.weights;
            assert(pool[i as int] == servers@[i as int]@);
            if self.weights.find(&servers[i]).is_none() {
                let weight = random_weight(MIN_RANDOM_WEIGHT, MAX_RANDOM_WEIGHT);
                proof {
                    before.lemma_put(pool[i as int], weight);
                }
                self.weights.insert(&servers[i], weight);
            }
            proof {
                assert(self@.weights.contains(pool[i as int]));
                assert forall|j: int| 0 <= j < i implies self@.weights.contains(
                    #[trigger] pool[j],
                ) by {
                    assert(before.contains(pool[j]));
                }
                assert(before.contains(pool[i as int]) == before.keys.contains(pool[i as int]));
            }
            i += 1;
        }
    }

    /// Renders every weighted backend's weight, served count and share of
    /// all requests.
    pub fn get_metrics(&self) -> (metrics: Vec<(String, String)>)
        requires
            self.wf(),
        ensures
            metrics_view(metrics@) == self@.metrics(),
    {
        let total = self.requests_served.total();
        let n = self.weights.len();
        let mut metrics: Vec<(String, String)> = Vec::new();
        let mut i: usize = 0;
        while i < n
            invariant
                self.wf(),
                n == self@.weights.keys.len(),
                total == self@.served.total(),
                i <= n,
                metrics@.len() == i,
                forall|j: int| 0 <= j < i ==> metrics_view(metrics@)[j] == self@.metrics()[j],
            decreases n - i,
        {
            let name = self.weights.key_at(i).clone();
            let weight = *self.weights.value_at(i);
            let count = self.requests_served.count(&name);
            proof {
                self@.served.lemma_count_le_total(name@);
            }
            let line = render_weighted_line(weight, count, total);
            metrics.push((name, line));
            i += 1;
        }
        assert(metrics_view(metrics@) =~= self@.metrics());
        metrics
    }
}

impl LoadBalancingAlgorithm for WeightedRoundRobin {
    open spec fn wf(&self) -> bool {
        &&& self@.wf()
        &&& self@.cursor < u128::MAX
    }

    open spec fn headroom(&self) -> bool {
        self@.served.has_headroom()
    }

    open spec fn room_to_start(&self) -> bool {
        true
    }

    proof fn lemma_room_to_start(&self) {
    }

    open spec fn metrics_spec(&self) -> Seq<(Seq<char>, Seq<char>)> {
        self@.metrics()
    }

    fn has_headroom(&self) -> (r: bool)
        ensures
            r == self@.served.has_headroom(),
    {
        self.requests_served.has_headroom()
    }

    /// Gives every backend of the pool that has no weight a random one,
    /// advances the cursor by one within the round, and returns and counts
    /// the first backend whose cumulative weight exceeds the cursor.
    fn next_server(&mut self, servers: &[String]) -> (chosen: Option<String>)
        ensures
            servers@.len() > 0 ==> {
                let pool = names_of(servers@);
                let ready = old(self)@.with_weights(final(self)@.weights);
                &&& old(self)@.assigned(pool, final(self)@.weights)
                &&& ready.knows(pool)
                &&& final(self)@ == ready.step(pool)
                &&& chosen.unwrap()@ == ready.pick(pool)
            },
            servers@.len() > 0 && old(self)@.knows(names_of(servers@)) ==> final(self)@ == old(
                self,
            )@.step(names_of(servers@)),
    {
        if servers.len() == 0 {
            return None;
        }
        self.ensure_weights(servers);
        let ghost pool = names_of(servers@);
        let ghost ready = self@;
        proof {
            if old(self)@.knows(pool) {
                old(self)@.lemma_assigned_known(pool, ready.weights);
            }
        }
        let n = servers.len();

        let mut total: u128 = 0;
        let mut i: usize = 0;
        while i < n
            invariant
                self.wf(),
                self@ == ready,
                pool == names_of(servers@),
                n == servers@.len(),
                i <= n,
                total == ready.weight_upto(pool, i as int),
            decreases n - i,
        {
            let weight = self.weight_of(&servers[i]);
            proof {
                assert(pool[i as int] == servers@[i as int]@);
                ready.lemma_weight_upto(pool, 0, i + 1);
                assert((i + 1) * u32::MAX < u128::MAX) by (nonlinear_arith)
                    requires
                        i < usize::MAX,
                ;
            }
            total = total + weight as u128;
            i += 1;
        }
        proof {
            ready.lemma_weight_upto(pool, 0, n as int);
            assert(n * u32::MAX < u128::MAX) by (nonlinear_arith)
                requires
                    n <= usize::MAX,
            ;
        }
        self.current = (self.current + 1) % total;
        let ghost ticket = self.current as nat;
        assert(ticket == ready.next_cursor(pool));

        let mut accumulator: u128 = 0;
        let mut k: usize = 0;
        while k < n
            invariant
                self.weights.wf(),
                self.requests_served.wf(),
                self@.wf(),
                self@.weights == ready.weights,
                self@.served == ready.served,
                self@.cursor == ticket,
                ready.wf(),
                old(self).headroom(),
                ready == old(self)@.with_weights(ready.weights),
                old(self)@.knows(pool) ==> ready == old(self)@,
                old(self)@.assigned(pool, ready.weights),
                ready.knows(pool),
                ticket == ready.next_cursor(pool),
                ticket < total,
                total == ready.total_weight(pool),
                total < u128::MAX,
                pool == names_of(servers@),
                n == servers@.len(),
                k <= n,
                accumulator == ready.weight_upto(pool, k as int),
                accumulator <= ticket,
            decreases n - k,
        {
            let weight = self.weight_of(&servers[k]);
            proof {
                assert(pool[k as int] == servers@[k as int]@);
                ready.lemma_weight_upto(pool, k + 1, n as int);
            }
            accumulator = accumulator + weight as u128;
            if self.current < accumulator {
                let server = servers[k].clone();
                proof {
                    assert(ready.covers(pool, k as int, ticket));
                    ready.lemma_slot(pool, k as int, ticket);
                    self.requests_served@.lemma_headroom(server@);
                }
                self.requests_served.increment(&server);
                proof {
                    assert(ready.pick(pool) == server@);
                    assert(self@ == ready.step(pool));
                }
                return Some(server);
            }
            k += 1;
        }
        // The walk cannot fall through: the cursor lies below the total
        // weight, which the accumulator has reached by now.
        proof {
            assert(false);
        }
        let server = servers[0].clone();
        self.requests_served.increment(&server);
        Some(server)
    }

    /// Weighted round-robin keeps no record of connections.
    fn connection_started(&mut self, server: &str)
        ensures
            *final(self) == *old(self),
    {
    }

    /// Weighted round-robin keeps no record of connections.
    fn connection_ended(&mut self, server: &str)
        ensures
            *final(self) == *old(self),
    {
    }

    fn get_metrics(&self) -> (metrics: Vec<(String, String)>)
        ensures
            metrics_view(metrics@) == self@.metrics(),
    {
        WeightedRoundRobin::get_metrics(self)
    }
}

} // verus!
