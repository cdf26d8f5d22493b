//! IP-hash selection: a client's address decides the backend, so that one
//! client keeps its backend for as long as the pool stays the same.

use crate::algorithms::{metrics_view, LoadBalancingAlgorithm};
use crate::names::{names_of, Entries, NameMap};
use crate::random::random_index;
use crate::text::{decimal, percent_text, push_decimal, push_percent, share_in_tenths, share_tenths};
use std::collections::hash_map::DefaultHasher;
use std::hash::{Hash, Hasher};
use vstd::prelude::*;
use vstd::std_specs::hash::DefaultHasherAdditionalSpecFns;
use vstd::string::StringExecFns;

verus! {

/// The writes by which the standard library's `Hash` for `str` feeds a
/// string with these characters to a hasher.
pub uninterp spec fn str_hash_writes(key: Seq<char>) -> Seq<Seq<u8>>;

/// Calls `<str as Hash>::hash` with a `DefaultHasher`. The contract claims
/// that what the call writes to the hasher is a function of the string's
/// characters alone; it does not say which bytes those are.
#[verifier::external_body]
fn feed_key(hasher: &mut DefaultHasher, key: &str)
    ensures
        final(hasher)@ == old(hasher)@ + str_hash_writes(key@),
{
    key.hash(hasher)
}

/// The 64-bit hash of a client key: what a fresh `DefaultHasher` returns
/// after the key was fed to it.
pub open spec fn key_hash(key: Seq<char>) -> u64 {
    DefaultHasher::spec_finish(Seq::<Seq<u8>>::empty() + str_hash_writes(key))
}

/// The position in a pool of `len` backends that `key` maps to.
pub open spec fn key_slot(key: Seq<char>, len: nat) -> int
    recommends
        len > 0,
{
    key_hash(key) as int % len as int
}

/// The addresses that stand in for the client where the caller knows
/// none.
pub open spec fn stand_in_client(i: int) -> Seq<char> {
    if i == 0 {
        "192.168.1.1"@
    } else if i == 1 {
        "10.0.0.1"@
    } else {
        "172.16.0.1"@
    }
}

/// The number of [`stand_in_client`] addresses.
pub const STAND_IN_CLIENTS: usize = 3;

/// `parts` with a comma and a space between each two of them.
pub open spec fn joined(parts: Seq<Seq<char>>) -> Seq<char>
    decreases parts.len(),
{
    if parts.len() == 0 {
        Seq::empty()
    } else if parts.len() == 1 {
        parts[0]
    } else {
        joined(parts.drop_last()) + ", "@ + parts.last()
    }
}

/// The metric line of a backend that served `count` of `total` requests
/// for the clients `clients`.
pub open spec fn ip_hash_line(count: nat, total: nat, clients: Seq<Seq<char>>) -> Seq<char> {
    "Requests: "@ + decimal(count) + ", Distribution: "@ + percent_text(share_tenths(count, total))
        + ", IPs: "@ + joined(clients)
}

/// A table of strings as a table of their characters.
pub open spec fn text_table(table: Entries<String>) -> Entries<Seq<char>> {
    Entries { keys: table.keys, vals: Seq::new(table.vals.len(), |i: int| table.vals[i]@) }
}

/// Binding a key in a table of strings binds it in the table of their
/// characters.
pub proof fn lemma_text_table_put(table: Entries<String>, key: Seq<char>, value: String)
    requires
        table.wf(),
    ensures
        text_table(table).wf(),
        text_table(table.put(key, value)) == text_table(table).put(key, value@),
{
    let left = text_table(table.put(key, value));
    let right = text_table(table).put(key, value@);
    assert(text_table(table).contains(key) == table.contains(key));
    assert(left.keys =~= right.keys);
    assert(left.vals =~= right.vals);
}

/// The state of an IP-hash policy: how often each backend was chosen, and
/// for each client seen the backend it was last sent to.
pub struct IpHashState {
    pub served: Entries<u64>,
    pub clients: Entries<Seq<char>>,
}

impl IpHashState {
    /// The state of a fresh policy.
    pub open spec fn initial() -> Self {
        IpHashState { served: Entries::empty(), clients: Entries::empty() }
    }

    /// Both tables are well-formed.
    pub open spec fn wf(self) -> bool {
        &&& self.served.wf()
        &&& self.clients.wf()
    }

    /// The backend that a selection from `pool` for `client` returns.
    pub open spec fn pick(self, client: Seq<char>, pool: Seq<Seq<char>>) -> Seq<char>
        recommends
            pool.len() > 0,
    {
        pool[key_slot(client, pool.len())]
    }

    /// The state after one selection from `pool` for `client`.
    pub open spec fn step(self, client: Seq<char>, pool: Seq<Seq<char>>) -> Self
        recommends
            pool.len() > 0,
    {
        IpHashState {
            served: self.served.bump(self.pick(client, pool)),
            clients: self.clients.put(client, self.pick(client, pool)),
        }
    }

    /// Those of the first `n` recorded clients that were last sent to
    /// `server`, in the order in which they were first seen.
    pub open spec fn clients_of(self, server: Seq<char>, n: int) -> Seq<Seq<char>>
        decreases n,
    {
        if n <= 0 {
            Seq::empty()
        } else if self.clients.vals[n - 1] == server {
            self.clients_of(server, n - 1).push(self.clients.keys[n - 1])
        } else {
            self.clients_of(server, n - 1)
        }
    }

    /// The metrics in this state, in the order in which the backends were
    /// first chosen.
    pub open spec fn metrics(self) -> Seq<(Seq<char>, Seq<char>)> {
        Seq::new(
            self.served.keys.len(),
            |i: int|
                (self.served.keys[i], ip_hash_line(
                    self.served.vals[i] as nat,
                    self.served.total(),
                    self.clients_of(self.served.keys[i], self.clients.keys.len() as int),
                )),
        )
    }

    /// Stability: whatever the policy has served in between, one client
    /// is sent to the same backend of the same pool.
    pub proof fn lemma_same_client_same_backend(
        self,
        later: IpHashState,
        client: Seq<char>,
        pool: Seq<Seq<char>>,
    )
        ensures
            self.pick(client, pool) == later.pick(client, pool),
            self.step(client, pool).pick(client, pool) == self.pick(client, pool),
    {
    }
}

/// IP-hash policy.
pub struct IpHash {
    requests_served: NameMap<u64>,
    ip_distribution: NameMap<String>,
}

impl View for IpHash {
    type V = IpHashState;

    closed spec fn view(&self) -> IpHashState {
        IpHashState {
            served: self.requests_served@,
            clients: text_table(self.ip_distribution@),
        }
    }
}

impl IpHash {
    /// A policy that has served nothing yet.
    pub fn new() -> (policy: Self)
        ensures
            policy@ == IpHashState::initial(),
            policy.wf(),
            policy.headroom(),
    {
        let policy = IpHash { requests_served: NameMap::new(), ip_distribution: NameMap::new() };
        assert(policy@.clients.vals =~= Seq::<Seq<char>>::empty());
        policy
    }

    /// Hashes a client key with a fresh `DefaultHasher`.
    fn hash(ip: &str) -> (h: u64)
        ensures
            h == key_hash(ip@),
    {
        let mut hasher = DefaultHasher::new();
        feed_key(&mut hasher, ip);
        hasher.finish()
    }

    /// Counts a request for `server` and remembers that `ip` was sent
    /// there.
    fn record_request(&mut self, server: &String, ip: &str)
        requires
            old(self).wf(),
            old(self).headroom(),
        ensures
            final(self).wf(),
            final(self)@.served == old(self)@.served.bump(server@),
            final(self)@.clients == old(self)@.clients.put(ip@, server@),
    {
        proof {
            self.requests_served@.lemma_headroom(server@);
            lemma_text_table_put(self.ip_distribution@, ip@, *server);
        }
        self.requests_served.increment(server);
        let key = ip.to_owned();
        self.ip_distribution.insert(&key, server.clone());
    }

    /// Selects the backend for a connection from `client`: the pool's
    /// backend at the client's hash modulo the pool's length. An empty
    /// pool yields `None` and leaves the policy untouched.
    pub fn next_server_for(&mut self, client: &str, servers: &[String]) -> (chosen: Option<String>)
        requires
            old(self).wf(),
            old(self).headroom(),
        ensures
            final(self).wf(),
            servers@.len() == 0 ==> chosen.is_none() && *final(self) == *old(self),
            servers@.len() > 0 ==> chosen.is_some() && final(self)@ == old(self)@.step(
                client@,
                names_of(servers@),
            ) && chosen.unwrap()@ == old(self)@.pick(client@, names_of(servers@)),
    {
        if servers.len() == 0 {
            return None;
        }
        let hash = Self::hash(client);
        let index = (hash % servers.len() as u64) as usize;
        let server = servers[index].clone();
        assert(names_of(servers@)[index as int] == server@);
        self.record_request(&server, client);
        Some(server)
    }

    /// The lines of clients that were last sent to `server`, joined.
    fn clients_line(&self, server: &String) -> (line: String)
        requires
            self.wf(),
        ensures
            line@ == joined(self@.clients_of(server@, self@.clients.keys.len() as int)),
    {
        let n = self.ip_distribution.len();
        let mut line = String::new();
        let mut first = true;
        let mut i: usize = 0;
        while i < n
            invariant
                self.wf(),
                n == self@.clients.keys.len(),
                i <= n,
                first == (self@.clients_of(server@, i as int).len() == 0),
                line@ == joined(self@.clients_of(server@, i as int)),
            decreases n - i,
        {
            let ghost before = self@.clients_of(server@, i as int);
            if *self.ip_distribution.value_at(i) == *server {
                if !first {
                    line.append(", ");
                }
                line.append(self.ip_distribution.key_at(i).as_str());
                first = false;
                proof {
                    let now = self@.clients_of(server@, i + 1);
                    assert(now == before.push(self@.clients.keys[i as int]));
                    assert(now.drop_last() =~= before);
                    assert(line@ =~= joined(now));
                }
            }
            i += 1;
        }
        line
    }
}

/// Renders [`ip_hash_line`].
fn render_ip_hash_line(count: u64, total: u128, clients: &String) -> (line: String)
    requires
        count <= total,
    ensures
        line@ == "Requests: "@ + decimal(count as nat) + ", Distribution: "@ + percent_text(
            share_tenths(count as nat, total as nat),
        ) + ", IPs: "@ + clients@,
{
    let mut line = String::new();
    line.append("Requests: ");
    push_decimal(&mut line, count as u128);
    line.append(", Distribution: ");
    push_percent(&mut line, share_in_tenths(count, total));
    line.append(", IPs: ");
    line.append(clients.as_str());
    assert(line@ =~= "Requests: "@ + decimal(count as nat) + ", Distribution: "@ + percent_text(
        share_tenths(count as nat, total as nat),
    ) + ", IPs: "@ + clients@);
    line
}

impl LoadBalancingAlgorithm for IpHash {
    open spec fn wf(&self) -> bool {
        self@.wf()
    }

    open spec fn headroom(&self) -> bool {
        self@.served.has_headroom()
    }

    open spec fn room_to_start(&self) -> bool {
        true
    }

    proof fn lemma_room_to_start(&self) {
    }

    open spec fn metrics_spec(&self) -> Seq<(Seq<char>, Seq<char>)> {
        self@.metrics()
    }

    fn has_headroom(&self) -> (r: bool)
        ensures
            r == self@.served.has_headroom(),
    {
        self.requests_served.has_headroom()
    }

    /// Selects as [`IpHash::next_server_for`] does, for one of the
    /// stand-in client addresses, drawn at random.
    fn next_server(&mut self, servers: &[String]) -> (chosen: Option<String>)
        ensures
            servers@.len() > 0 ==> exists|i: int|
                0 <= i < STAND_IN_CLIENTS && final(self)@ == old(self)@.step(
                    #[trigger] stand_in_client(i),
                    names_of(servers@),
                ) && chosen.unwrap()@ == old(self)@.pick(stand_in_client(i), names_of(servers@)),
    {
        if servers.len() == 0 {
            return None;
        }
        let drawn = random_index(STAND_IN_CLIENTS);
        let ip: &str = if drawn == 0 {
            "192.168.1.1"
        } else if drawn == 1 {
            "10.0.0.1"
        } else {
            "172.16.0.1"
        };
        assert(ip@ == stand_in_client(drawn as int));
        self.next_server_for(ip, servers)
    }

    /// IP-hash keeps no record of connections.
    fn connection_started(&mut self, server: &str)
        ensures
            *final(self) == *old(self),
    {
    }

    /// IP-hash keeps no record of connections.
    fn connection_ended(&mut self, server: &str)
        ensures
            *final(self) == *old(self),
    {
    }

    fn get_metrics(&self) -> (metrics: Vec<(String, String)>)
        ensures
            metrics_view(metrics@) == self@.metrics(),
    {
        let total = self.requests_served.total();
        let n = self.requests_served.len();
        let mut metrics: Vec<(String, String)> = Vec::new();
        let mut i: usize = 0;
        while i < n
            invariant
                self.wf(),
                n == self@.served.keys.len(),
                total == self@.served.total(),
                i <= n,
                metrics@.len() == i,
                forall|j: int| 0 <= j < i ==> metrics_view(metrics@)[j] == self@.metrics()[j],
            decreases n - i,
        {
            let name = self.requests_served.key_at(i).clone();
            let count = *self.requests_served.value_at(i);
            proof {
                self@.served.lemma_index(i as int);
                self@.served.lemma_count_le_total(name@);
            }
            let clients = self.clients_line(&name);
            let line = render_ip_hash_line(count, total, &clients);
            metrics.push((name, line));
            i += 1;
        }
        assert(metrics_view(metrics@) =~= self@.metrics());
        metrics
    }
}

} // verus!
