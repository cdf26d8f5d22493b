//! The dispatch core: the backend pool, the admission gate that bounds
//! the connections in flight, the decisions of the per-connection
//! forwarder, and the rendering of metrics.
//!
//! The library does no I/O. A forwarder is driven from outside: whoever
//! owns the sockets performs the action it was handed and reports what
//! came of it as the next event.

use crate::algorithms::{metrics_view, Algorithm, AlgorithmState, LoadBalancingAlgorithm};
use crate::names::{names_of, Entries};
use crate::text::{contains_bytes, decimal, find_bytes, push_decimal};
use vstd::prelude::*;
use vstd::slice::slice_subrange;
use vstd::string::{is_ascii, is_ascii_spec_bytes, StringExecFns, StringSliceAdditionalSpecFns};
use vstd::utf8::encode_utf8;

verus! {

/// The largest number of connections that are forwarded at one time.
pub const MAX_CONNECTIONS: usize = 500;

/// The seconds between two periodic metrics reports.
pub const METRICS_INTERVAL: u64 = 5;

/// The number of bytes at the start of a connection that are read before a
/// backend is chosen, and in which a metrics request is looked for.
pub const PEEK_LIMIT: usize = 1024;

/// The first `n` metrics, each as a line of its own: the backend, a colon
/// and a space, the metric, a line feed.
pub open spec fn metrics_body(metrics: Seq<(Seq<char>, Seq<char>)>, n: int) -> Seq<char>
    decreases n,
{
    if n <= 0 {
        Seq::empty()
    } else {
        metrics_body(metrics, n - 1) + metrics[n - 1].0 + ": "@ + metrics[n - 1].1 + "\n"@
    }
}

/// The HTTP response that carries `metrics`: status line, the body's
/// length in bytes, `Connection: close`, an empty line and the body.
pub open spec fn metrics_response(metrics: Seq<(Seq<char>, Seq<char>)>) -> Seq<char> {
    let body = metrics_body(metrics, metrics.len() as int);
    "HTTP/1.1 200 OK\r\nContent-Length: "@ + decimal(encode_utf8(body).len())
        + "\r\nConnection: close\r\n\r\n"@ + body
}

/// The report of `metrics` under the heading `prefix`: an empty line, the
/// heading and one line per backend. Without metrics there is no report.
pub open spec fn metrics_report(prefix: Seq<char>, metrics: Seq<(Seq<char>, Seq<char>)>) -> Option<
    Seq<char>,
> {
    if metrics.len() == 0 {
        None
    } else {
        Some("\n"@ + prefix + "\n"@ + metrics_body(metrics, metrics.len() as int))
    }
}

/// The part of a connection's first bytes that is looked at: no more than
/// [`PEEK_LIMIT`] bytes.
pub open spec fn sniffed(prefix: Seq<u8>) -> Seq<u8> {
    if prefix.len() > PEEK_LIMIT {
        prefix.subrange(0, PEEK_LIMIT as int)
    } else {
        prefix
    }
}

/// Whether a connection that starts with `prefix` asks for the metrics:
/// whether `GET /metrics` stands anywhere in the part looked at.
pub open spec fn asks_for_metrics(prefix: Seq<u8>) -> bool {
    contains_bytes(sniffed(prefix), "GET /metrics".spec_bytes())
}

/// A connection that asks for the metrics has sent something.
pub proof fn lemma_metrics_request_not_empty(prefix: Seq<u8>)
    requires
        asks_for_metrics(prefix),
    ensures
        prefix.len() > 0,
{
    reveal_strlit("GET /metrics");
    assert(is_ascii("GET /metrics"));
    is_ascii_spec_bytes("GET /metrics");
    assert("GET /metrics".spec_bytes().len() == 12);
}

/// Computes [`asks_for_metrics`].
pub fn is_metrics_request(prefix: &[u8]) -> (r: bool)
    ensures
        r == asks_for_metrics(prefix@),
{
    let marker = "GET /metrics".as_bytes();
    if prefix.len() > PEEK_LIMIT {
        find_bytes(slice_subrange(prefix, 0, PEEK_LIMIT), marker)
    } else {
        find_bytes(prefix, marker)
    }
}

/// Renders [`metrics_body`] of all of `metrics`.
pub fn render_metrics_body(metrics: &Vec<(String, String)>) -> (body: String)
    ensures
        body@ == metrics_body(metrics_view(metrics@), metrics@.len() as int),
{
    let ghost lines = metrics_view(metrics@);
    let n = metrics.len();
    let mut body = String::new();
    let mut i: usize = 0;
    assert(body@ =~= metrics_body(lines, 0));
    while i < n
        invariant
            n == metrics@.len(),
            lines == metrics_view(metrics@),
            i <= n,
            body@ == metrics_body(lines, i as int),
        decreases n - i,
    {
        let ghost before = body@;
        body.append(metrics[i].0.as_str());
        body.append(": ");
        body.append(metrics[i].1.as_str());
        body.append("\n");
        assert(body@ =~= before + lines[i as int].0 + ": "@ + lines[i as int].1 + "\n"@);
        i += 1;
    }
    body
}

/// Renders [`metrics_response`].
pub fn render_metrics_response(metrics: &Vec<(String, String)>) -> (response: String)
    ensures
        response@ == metrics_response(metrics_view(metrics@)),
{
    let body = render_metrics_body(metrics);
    let length = body.as_str().as_bytes().len();
    let mut response = String::new();
    response.append("HTTP/1.1 200 OK\r\nContent-Length: ");
    push_decimal(&mut response, length as u128);
    response.append("\r\nConnection: close\r\n\r\n");
    response.append(body.as_str());
    assert(response@ =~= metrics_response(metrics_view(metrics@)));
    response
}

/// Renders [`metrics_report`].
pub fn render_metrics_report(prefix: &str, metrics: &Vec<(String, String)>) -> (report: Option<
    String,
>)
    ensures
        match report {
            Some(text) => metrics_report(prefix@, metrics_view(metrics@)) == Some(text@),
            None => metrics_report(prefix@, metrics_view(metrics@)).is_none(),
        },
{
    if metrics.len() == 0 {
        return None;
    }
    let body = render_metrics_body(metrics);
    let mut text = String::new();
    text.append("\n");
    text.append(prefix);
    text.append("\n");
    text.append(body.as_str());
    assert(text@ =~= "\n"@ + prefix@ + "\n"@ + metrics_body(
        metrics_view(metrics@),
        metrics@.len() as int,
    ));
    Some(text)
}

/// A counting gate: it hands out permits up to its capacity and takes
/// them back.
pub struct AdmissionGate {
    capacity: usize,
    in_flight: usize,
}

impl AdmissionGate {
    /// The number of permits that can be out at one time.
    pub closed spec fn capacity_spec(&self) -> nat {
        self.capacity as nat
    }

    /// The number of permits that are out.
    pub closed spec fn in_flight_spec(&self) -> nat {
        self.in_flight as nat
    }

    /// No more permits are out than there are.
    pub open spec fn wf(&self) -> bool {
        self.in_flight_spec() <= self.capacity_spec()
    }

    /// A gate with `capacity` permits, none of them out.
    pub fn new(capacity: usize) -> (gate: Self)
        ensures
            gate.wf(),
            gate.capacity_spec() == capacity,
            gate.in_flight_spec() == 0,
    {
        AdmissionGate { capacity, in_flight: 0 }
    }

    /// The number of permits that can be out at one time.
    pub fn capacity(&self) -> (n: usize)
        ensures
            n == self.capacity_spec(),
    {
        self.capacity
    }

    /// The number of permits that are out.
    pub fn in_flight(&self) -> (n: usize)
        ensures
            n == self.in_flight_spec(),
    {
        self.in_flight
    }

    /// Takes a permit if one is left, and says whether it did.
    pub fn try_acquire(&mut self) -> (admitted: bool)
        requires
            old(self).wf(),
        ensures
            final(self).wf(),
            final(self).capacity_spec() == old(self).capacity_spec(),
            admitted == (old(self).in_flight_spec() < old(self).capacity_spec()),
            final(self).in_flight_spec() == old(self).in_flight_spec() + if admitted {
                1nat
            } else {
                0nat
            },
    {
        if self.in_flight < self.capacity {
            self.in_flight = self.in_flight + 1;
            true
        } else {
            false
        }
    }

    /// Gives a permit back. Where none is out, nothing changes.
    pub fn release(&mut self)
        requires
            old(self).wf(),
        ensures
            final(self).wf(),
            final(self).capacity_spec() == old(self).capacity_spec(),
            final(self).in_flight_spec() == if old(self).in_flight_spec() > 0 {
                (old(self).in_flight_spec() - 1) as nat
            } else {
                0
            },
    {
        if self.in_flight > 0 {
            self.in_flight = self.in_flight - 1;
        }
    }
}

/// Where a forwarder stands in the life of its connection.
#[derive(Clone, Copy, Debug, PartialEq, Eq, Structural)]
pub enum Phase {
    /// Admitted; the first bytes are being read.
    Accepted,
    /// The metrics are being sent back; no backend is involved.
    Metrics,
    /// A backend was chosen and is being dialed.
    Selected,
    /// The backend answered; the first bytes are being passed on to it.
    Dialed,
    /// Bytes are copied in both directions.
    Relaying,
    /// The relay is over; the client's side is being closed.
    Teardown,
    /// Over. The permit was handed back.
    Closed,
}

/// What happened to a connection since the last action.
pub enum Event {
    /// The first bytes were read; none means that the client closed.
    Peeked(Vec<u8>),
    /// Reading the first bytes failed.
    PeekFailed,
    /// The backend accepted the connection.
    Dialed,
    /// The backend could not be reached.
    DialFailed,
    /// The first bytes were written to the backend.
    Replayed,
    /// Writing the first bytes to the backend failed.
    ReplayFailed,
    /// Both directions reached their end; so many bytes went from the
    /// backend to the client.
    Relayed(u64),
    /// One direction of the relay failed.
    RelayFailed,
    /// The response was sent, or the client's side was closed, or the
    /// attempt failed.
    Finished,
}

/// What is to be done with a connection next.
pub enum Action {
    /// Send this response to the client, close its side, and report
    /// [`Event::Finished`].
    Respond(String),
    /// Connect to this backend and report [`Event::Dialed`] or
    /// [`Event::DialFailed`].
    Dial(String),
    /// Write the first bytes read to the backend and report
    /// [`Event::Replayed`] or [`Event::ReplayFailed`].
    Replay,
    /// Copy bytes in both directions until both end and report
    /// [`Event::Relayed`] or [`Event::RelayFailed`].
    Relay,
    /// Close the client's side and report [`Event::Finished`].
    HalfClose,
    /// Drop the sockets. The connection is over.
    Drop,
}

/// An [`Action`] with its text as characters.
pub enum ActionView {
    Respond(Seq<char>),
    Dial(Seq<char>),
    Replay,
    Relay,
    HalfClose,
    Drop,
}

impl View for Action {
    type V = ActionView;

    open spec fn view(&self) -> ActionView {
        match self {
            Action::Respond(text) => ActionView::Respond(text@),
            Action::Dial(backend) => ActionView::Dial(backend@),
            Action::Replay => ActionView::Replay,
            Action::Relay => ActionView::Relay,
            Action::HalfClose => ActionView::HalfClose,
            Action::Drop => ActionView::Drop,
        }
    }
}

/// The state of one forwarder.
pub struct ConnectionState {
    pub phase: Phase,
    pub backend: Option<Seq<char>>,
}

impl ConnectionState {
    /// A forwarder that was just admitted.
    pub open spec fn accepted() -> Self {
        ConnectionState { phase: Phase::Accepted, backend: None }
    }

    /// A forwarder that is over.
    pub open spec fn closed() -> Self {
        ConnectionState { phase: Phase::Closed, backend: None }
    }

    /// This forwarder in another phase.
    pub open spec fn at(self, phase: Phase) -> Self {
        ConnectionState { phase, backend: self.backend }
    }

    /// A forwarder has a backend from its selection to its end, and at no
    /// other time.
    pub open spec fn wf(self) -> bool {
        self.backend.is_some() <==> (self.phase == Phase::Selected || self.phase == Phase::Dialed
            || self.phase == Phase::Relaying || self.phase == Phase::Teardown)
    }
}

/// One forwarder: the worker for one accepted connection.
pub struct Connection {
    phase: Phase,
    backend: Option<String>,
}

impl View for Connection {
    type V = ConnectionState;

    closed spec fn view(&self) -> ConnectionState {
        ConnectionState {
            phase: self.phase,
            backend: match self.backend {
                Some(name) => Some(name@),
                None => None,
            },
        }
    }
}

impl Connection {
    /// The forwarder's phase.
    pub fn phase(&self) -> (phase: Phase)
        ensures
            phase == self@.phase,
    {
        self.phase
    }

    /// Whether the forwarder is over.
    pub fn is_closed(&self) -> (r: bool)
        ensures
            r == (self@.phase == Phase::Closed),
    {
        match self.phase {
            Phase::Closed => true,
            _ => false,
        }
    }

    /// The backend that the forwarder was given, if it has one.
    pub fn backend(&self) -> (backend: Option<String>)
        ensures
            match backend {
                Some(name) => self@.backend == Some(name@),
                None => self@.backend.is_none(),
            },
    {
        match &self.backend {
            Some(name) => Some(name.clone()),
            None => None,
        }
    }
}

/// The state of a load balancer.
pub struct BalancerState {
    pub port: u16,
    pub pool: Seq<Seq<char>>,
    pub policy: AlgorithmState,
    pub in_flight: nat,
    pub capacity: nat,
}

impl BalancerState {
    /// This state with another policy state.
    pub open spec fn with_policy(self, policy: AlgorithmState) -> Self {
        BalancerState { policy, ..self }
    }

    /// This state with one more forwarder in flight.
    pub open spec fn admitted(self) -> Self {
        BalancerState { in_flight: self.in_flight + 1, ..self }
    }

    /// This state with one forwarder fewer in flight.
    pub open spec fn released(self) -> Self {
        BalancerState {
            in_flight: if self.in_flight > 0 {
                (self.in_flight - 1) as nat
            } else {
                0
            },
            ..self
        }
    }

    /// A forwarder without a backend comes to its end: its permit goes
    /// back, the policy stays as it is, the sockets are dropped.
    pub open spec fn closes(self, post: Self, next: ConnectionState, action: ActionView) -> bool {
        &&& post == self.released()
        &&& next == ConnectionState::closed()
        &&& action == ActionView::Drop
    }

    /// A forwarder with or without a backend comes to its end: the
    /// policy is told that the connection to the backend ended, if there
    /// is one; the permit goes back; the sockets are dropped.
    pub open spec fn ends(
        self,
        conn: ConnectionState,
        post: Self,
        next: ConnectionState,
        action: ActionView,
    ) -> bool {
        match conn.backend {
            Some(backend) => {
                &&& post == self.with_policy(self.policy.ended(backend)).released()
                &&& next == ConnectionState::closed()
                &&& action == ActionView::Drop
            },
            None => self.closes(post, next, action),
        }
    }

    /// Whether a forwarder in state `conn` that meets `event` while the
    /// balancer is in this state may leave the balancer in state `post`
    /// and itself in state `next`, with `action` to be done.
    ///
    /// - Closed: nothing changes any more.
    /// - Accepted, first bytes read: none ends the forwarder; a metrics
    ///   request is answered with the metrics as they stand, and neither
    ///   policy nor gate changes; otherwise a backend is selected from the
    ///   pool, the policy is told that the connection began, and the
    ///   backend is dialed. An empty pool ends the forwarder.
    /// - Selected, dialed: the first bytes are passed on.
    /// - Dialed, passed on: the relay begins.
    /// - Relaying, both directions over: where the backend sent anything
    ///   the client's side is closed first; else the forwarder ends.
    /// - Any other event ends the forwarder.
    pub open spec fn advances(
        self,
        conn: ConnectionState,
        event: Event,
        post: Self,
        next: ConnectionState,
        action: ActionView,
    ) -> bool {
        match conn.phase {
            Phase::Closed => post == self && next == conn && action == ActionView::Drop,
            Phase::Accepted => match event {
                Event::Peeked(bytes) => {
                    if bytes@.len() == 0 {
                        self.closes(post, next, action)
                    } else if asks_for_metrics(bytes@) {
                        &&& post == self
                        &&& next == conn.at(Phase::Metrics)
                        &&& action == ActionView::Respond(metrics_response(self.policy.metrics()))
                    } else if self.pool.len() == 0 {
                        self.closes(post, next, action)
                    } else {
                        &&& next.phase == Phase::Selected
                        &&& next.backend.is_some()
                        &&& action == ActionView::Dial(next.backend.unwrap())
                        &&& self.policy.admits(self.pool, post.policy, next.backend.unwrap())
                        &&& post == self.with_policy(post.policy)
                    }
                },
                _ => self.closes(post, next, action),
            },
            Phase::Metrics => self.closes(post, next, action),
            Phase::Selected => match event {
                Event::Dialed => {
                    &&& post == self
                    &&& next == conn.at(Phase::Dialed)
                    &&& action == ActionView::Replay
                },
                _ => self.ends(conn, post, next, action),
            },
            Phase::Dialed => match event {
                Event::Replayed => {
                    &&& post == self
                    &&& next == conn.at(Phase::Relaying)
                    &&& action == ActionView::Relay
                },
                _ => self.ends(conn, post, next, action),
            },
            Phase::Relaying => match event {
                Event::Relayed(from_backend) => {
                    if from_backend > 0 {
                        &&& post == self
                        &&& next == conn.at(Phase::Teardown)
                        &&& action == ActionView::HalfClose
                    } else {
                        self.ends(conn, post, next, action)
                    }
                },
                _ => self.ends(conn, post, next, action),
            },
            Phase::Teardown => self.ends(conn, post, next, action),
        }
    }

    /// Metrics interception: a connection that asks for the metrics is
    /// answered on the spot. No backend is dialed, no counter moves, and
    /// when the response is out the forwarder ends without a word to the
    /// policy.
    pub proof fn lemma_metrics_interception(
        self,
        prefix: Vec<u8>,
        post: Self,
        next: ConnectionState,
        action: ActionView,
        after: Event,
        last: Self,
        end: ConnectionState,
        last_action: ActionView,
    )
        requires
            asks_for_metrics(prefix@),
            self.advances(ConnectionState::accepted(), Event::Peeked(prefix), post, next, action),
            post.advances(next, after, last, end, last_action),
        ensures
            action is Respond,
            post == self,
            last.policy == self.policy,
            end == ConnectionState::closed(),
            last_action == ActionView::Drop,
    {
        lemma_metrics_request_not_empty(prefix@);
    }
}

/// A load balancer: its port, its pool of backends, its selection policy
/// and its admission gate.
pub struct LoadBalancer {
    port: u16,
    servers: Vec<String>,
    algorithm: Algorithm,
    connection_limiter: AdmissionGate,
}

impl View for LoadBalancer {
    type V = BalancerState;

    closed spec fn view(&self) -> BalancerState {
        BalancerState {
            port: self.port,
            pool: names_of(self.servers@),
            policy: self.algorithm@,
            in_flight: self.connection_limiter.in_flight_spec(),
            capacity: self.connection_limiter.capacity_spec(),
        }
    }
}

impl LoadBalancer {
    /// The balancer's invariant: that of its policy and of its gate.
    pub closed spec fn wf(&self) -> bool {
        &&& self.algorithm.wf()
        &&& self.connection_limiter.wf()
        &&& self.connection_limiter.capacity_spec() == MAX_CONNECTIONS
    }

    /// Whether each of the policy's counters can still grow by one.
    pub closed spec fn headroom(&self) -> bool {
        self.algorithm.headroom()
    }

    /// Admission bound: no more forwarders are in flight than there are
    /// permits.
    pub proof fn lemma_admission_bound(&self)
        requires
            self.wf(),
        ensures
            self@.in_flight <= self@.capacity,
            self@.capacity == MAX_CONNECTIONS,
    {
    }

    /// A balancer on `port` for the pool `servers`, with a fresh policy
    /// of the kind that `algorithm_type` names and [`MAX_CONNECTIONS`]
    /// permits, none of them out.
    pub fn new(port: u16, servers: Vec<String>, algorithm_type: &str) -> (balancer: Self)
        ensures
            balancer.wf(),
            balancer.headroom(),
            balancer@ == (BalancerState {
                port,
                pool: names_of(servers@),
                policy: AlgorithmState::initial(
                    crate::algorithms::kind_of_tag(algorithm_type@),
                    Entries::empty(),
                ),
                in_flight: 0,
                capacity: MAX_CONNECTIONS as nat,
            }),
    {
        LoadBalancer {
            port,
            servers,
            algorithm: Algorithm::new(algorithm_type, None),
            connection_limiter: AdmissionGate::new(MAX_CONNECTIONS),
        }
    }

    /// The port to listen on.
    pub fn port(&self) -> (port: u16)
        ensures
            port == self@.port,
    {
        self.port
    }

    /// A copy of the pool.
    pub fn snapshot(&self) -> (pool: Vec<String>)
        ensures
            names_of(pool@) == self@.pool,
    {
        let n = self.servers.len();
        let mut pool: Vec<String> = Vec::new();
        let mut i: usize = 0;
        while i < n
            invariant
                n == self.servers@.len(),
                i <= n,
                pool@.len() == i,
                forall|j: int| 0 <= j < i ==> pool@[j]@ == self.servers@[j]@,
            decreases n - i,
        {
            pool.push(self.servers[i].clone());
            i += 1;
        }
        assert(names_of(pool@) =~= names_of(self.servers@));
        pool
    }

    /// The number of forwarders in flight.
    pub fn in_flight(&self) -> (n: usize)
        ensures
            n == self@.in_flight,
    {
        self.connection_limiter.in_flight()
    }

    /// Tests [`Self::headroom`].
    pub fn has_headroom(&self) -> (r: bool)
        requires
            self.wf(),
        ensures
            r == self.headroom(),
    {
        self.algorithm.has_headroom()
    }

    /// The policy's metrics as they stand.
    pub fn get_metrics(&self) -> (metrics: Vec<(String, String)>)
        requires
            self.wf(),
        ensures
            metrics_view(metrics@) == self@.policy.metrics(),
    {
        self.algorithm.get_metrics()
    }

    /// The HTTP response to a metrics request.
    pub fn metrics_response(&self) -> (response: String)
        requires
            self.wf(),
        ensures
            response@ == metrics_response(self@.policy.metrics()),
    {
        let metrics = self.algorithm.get_metrics();
        render_metrics_response(&metrics)
    }

    /// The metrics report under the heading `prefix`, if there is
    /// anything to report.
    pub fn metrics_report(&self, prefix: &str) -> (report: Option<String>)
        requires
            self.wf(),
        ensures
            match report {
                Some(text) => metrics_report(prefix@, self@.policy.metrics()) == Some(text@),
                None => metrics_report(prefix@, self@.policy.metrics()).is_none(),
            },
    {
        let metrics = self.algorithm.get_metrics();
        render_metrics_report(prefix, &metrics)
    }

    /// The report that is printed every [`METRICS_INTERVAL`] seconds:
    /// the metrics under the heading `Server Metrics:`, if there are any.
    pub fn periodic_report(&self) -> (report: Option<String>)
        requires
            self.wf(),
        ensures
            match report {
                Some(text) => metrics_report("Server Metrics:"@, self@.policy.metrics()) == Some(
                    text@,
                ),
                None => metrics_report("Server Metrics:"@, self@.policy.metrics()).is_none(),
            },
    {
        self.metrics_report("Server Metrics:")
    }

    /// The report that is printed once at shutdown: the metrics under the
    /// heading `Final Server Metrics:`, if there are any.
    pub fn final_report(&self) -> (report: Option<String>)
        requires
            self.wf(),
        ensures
            match report {
                Some(text) => metrics_report("Final Server Metrics:"@, self@.policy.metrics())
                    == Some(text@),
                None => metrics_report("Final Server Metrics:"@, self@.policy.metrics()).is_none(),
            },
    {
        self.metrics_report("Final Server Metrics:")
    }

    /// Admits a new connection if a permit is left. The
    /// forwarder that comes back holds the permit until it is closed; its
    /// first bytes, up to [`PEEK_LIMIT`], are to be read next.
    pub fn accept(&mut self) -> (admitted: Option<Connection>)
        requires
            old(self).wf(),
        ensures
            final(self).wf(),
            final(self).headroom() == old(self).headroom(),
            match admitted {
                Some(conn) => {
                    &&& old(self)@.in_flight < old(self)@.capacity
                    &&& final(self)@ == old(self)@.admitted()
                    &&& conn@ == ConnectionState::accepted()
                },
                None => {
                    &&& old(self)@.in_flight == old(self)@.capacity
                    &&& final(self)@ == old(self)@
                },
            },
    {
        if self.connection_limiter.try_acquire() {
            Some(Connection { phase: Phase::Accepted, backend: None })
        } else {
            None
        }
    }

    /// Ends a forwarder: tells the policy that the connection to its
    /// backend ended, if it has one, and hands the permit back.
    fn finish(&mut self, conn: &mut Connection) -> (action: Action)
        requires
            old(self).wf(),
        ensures
            final(self).wf(),
            old(self)@.ends(old(conn)@, final(self)@, final(conn)@, action@),
    {
        match &conn.backend {
            Some(backend) => {
                self.algorithm.connection_ended(backend.as_str());
            },
            None => {},
        }
        self.connection_limiter.release();
        conn.phase = Phase::Closed;
        conn.backend = None;
        Action::Drop
    }

    /// Takes a forwarder one step further: given what happened to its
    /// connection, decides what is to be done next. A forwarder that was
    /// just admitted may have a backend selected for it, which counts a
    /// request: the counters must have room for that.
    pub fn advance(&mut self, conn: &mut Connection, event: Event) -> (action: Action)
        requires
            old(self).wf(),
            old(conn)@.wf(),
            old(conn)@.phase == Phase::Accepted ==> old(self).headroom(),
        ensures
            final(self).wf(),
            final(conn)@.wf(),
            old(self)@.advances(old(conn)@, event, final(self)@, final(conn)@, action@),
    {
        match conn.phase {
            Phase::Closed => Action::Drop,
            Phase::Accepted => match &event {
                Event::Peeked(bytes) => {
                    if bytes.len() == 0 {
                        return self.finish(conn);
                    }
                    if is_metrics_request(bytes.as_slice()) {
                        conn.phase = Phase::Metrics;
                        return Action::Respond(self.metrics_response());
                    }
                    match self.algorithm.next_server(self.servers.as_slice()) {
                        Some(server) => {
                            self.algorithm.connection_started(server.as_str());
                            conn.phase = Phase::Selected;
                            conn.backend = Some(server.clone());
                            Action::Dial(server)
                        },
                        None => self.finish(conn),
                    }
                },
                _ => self.finish(conn),
            },
            Phase::Metrics => self.finish(conn),
            Phase::Selected => match &event {
                Event::Dialed => {
                    conn.phase = Phase::Dialed;
                    Action::Replay
                },
                _ => self.finish(conn),
            },
            Phase::Dialed => match &event {
                Event::Replayed => {
                    conn.phase = Phase::Relaying;
                    Action::Relay
                },
                _ => self.finish(conn),
            },
            Phase::Relaying => match &event {
                Event::Relayed(from_backend) => {
                    if *from_backend > 0 {
                        conn.phase = Phase::Teardown;
                        Action::HalfClose
                    } else {
                        self.finish(conn)
                    }
                },
                _ => self.finish(conn),
            },
            Phase::Teardown => self.finish(conn),
        }
    }
}

} // verus!
