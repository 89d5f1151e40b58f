//! The server as a machine that is driven by events.
//!
//! The driver reports what happened as an [`Event`] and carries out the
//! [`Action`]s that [`Server::step`] gives back. The machine holds the
//! reserved socket, the readiness signal and the two pools of permits, and it
//! settles three things:
//!
//! * when the socket starts to listen: the driver is told once, when
//!   readiness has fired, and the socket counts as listening only after the
//!   driver has reported that the kernel made it listen;
//! * when a connection is accepted: only after a connection permit was
//!   granted, so that a connection without a permit stays in the kernel's
//!   queue and is delayed, never accepted and then turned away;
//! * when a request reaches the handler: only on a connection that holds its
//!   permit, and only after a request permit was granted, which is returned
//!   when the handler is done or the connection goes away, whichever is
//!   first.
use crate::config::ServerConfig;
use crate::error::ServerError;
use crate::permit::lemmas::{
    lemma_acquire_members, lemma_acquire_wf, lemma_close_members, lemma_close_wf,
    lemma_release_members, lemma_release_owner_members, lemma_release_owner_wf, lemma_release_wf,
};
use crate::permit::{Admission, Claim, PermitPool, PermitScope, PoolModel, Release};
use crate::socket::{BindOutcome, Readiness, ReservationModel, SocketReservation, SocketState};
use vstd::prelude::*;

pub mod laws;

verus! {

/// The owner under which connections are filed: the one listener.
pub const LISTENER: u64 = 0;

/// What the driver reports.
#[derive(Clone, Copy, Debug, PartialEq, Eq, Structural)]
pub enum Event {
    /// The accept loop asks what to do at the instant `now`. The connection
    /// that it accepts next will be `conn`.
    AcceptPolled { now: u64, conn: u64 },
    /// The kernel has made the socket listen, as the driver was told.
    ListenSucceeded,
    /// The kernel refused to make the socket listen.
    ListenFailed,
    /// The connection `conn` has ended: the peer left, the protocol was
    /// broken, or the connection was closed in good order.
    ConnectionClosed { conn: u64 },
    /// The request `req` has arrived on the connection `conn`.
    RequestArrived { conn: u64, req: u64 },
    /// The handler has produced its result for the request `req` of the
    /// connection `conn`; `ok` tells whether it succeeded.
    HandlerFinished { conn: u64, req: u64, ok: bool },
    /// The process drains: no request that is not yet admitted is served.
    Drain,
}

/// What the driver is to do.
#[derive(Clone, Copy, Debug, PartialEq, Eq, Structural)]
#[allow(inconsistent_fields)]
pub enum Action {
    /// Readiness has not fired: ask again after `remaining`.
    Wait { remaining: u64 },
    /// Make the socket `descriptor` listen, with a queue of `backlog`, and
    /// report whether the kernel did it.
    Listen { descriptor: i32, backlog: i32 },
    /// Accept the next connection from the socket `descriptor` and serve it
    /// as `conn`, which holds a connection permit.
    Accept { descriptor: i32, conn: u64 },
    /// No connection permit is free: suspend the accept loop. The
    /// connection `conn` is accepted when a permit comes back.
    Park { conn: u64 },
    /// The permit of the connection `conn` is back in the pool.
    Drop { conn: u64 },
    /// Hand the request to the handler: it holds a request permit.
    Dispatch { conn: u64, req: u64 },
    /// No request permit is free: the request waits.
    Suspend { conn: u64, req: u64 },
    /// Answer the request: with the handler's response where `error` is
    /// `None`, with an error response where the handler failed, with a
    /// service-busy response where the request was not admitted.
    Respond { conn: u64, req: u64, error: Option<ServerError> },
    /// Stop the handler of the request: its connection is gone and its
    /// permit is back in the pool.
    Cancel { conn: u64, req: u64 },
    /// Forget the waiting request: its connection is gone.
    Discard { conn: u64, req: u64 },
    /// Turn the request away: its connection holds no permit.
    Reject { conn: u64, req: u64, error: ServerError },
    /// Stop the process.
    Abort { error: ServerError },
}

/// What becomes of a claim on a request permit.
#[derive(Clone, Copy, Debug, PartialEq, Eq, Structural)]
pub enum Fate {
    Dispatched,
    Cancelled,
    Discarded,
    Refused,
}

impl Fate {
    /// The action that tells the driver of this fate of the request `c`.
    pub open spec fn spec_action(self, c: Claim) -> Action {
        match self {
            Fate::Dispatched => Action::Dispatch { conn: c.owner, req: c.unit },
            Fate::Cancelled => Action::Cancel { conn: c.owner, req: c.unit },
            Fate::Discarded => Action::Discard { conn: c.owner, req: c.unit },
            Fate::Refused => Action::Respond {
                conn: c.owner,
                req: c.unit,
                error: Some(ServerError::RequestAdmissionUnavailable),
            },
        }
    }

    /// The action that tells the driver of this fate of the request `c`.
    #[verifier::when_used_as_spec(spec_action)]
    pub fn action(self, c: Claim) -> (a: Action)
        ensures
            a == self.spec_action(c),
    {
        match self {
            Fate::Dispatched => Action::Dispatch { conn: c.owner, req: c.unit },
            Fate::Cancelled => Action::Cancel { conn: c.owner, req: c.unit },
            Fate::Discarded => Action::Discard { conn: c.owner, req: c.unit },
            Fate::Refused => Action::Respond {
                conn: c.owner,
                req: c.unit,
                error: Some(ServerError::RequestAdmissionUnavailable),
            },
        }
    }
}

/// One action for each of `claims`, in their order.
pub open spec fn actions_for(fate: Fate, claims: Seq<Claim>) -> Seq<Action> {
    Seq::new(claims.len(), |i: int| fate.spec_action(claims[i]))
}

/// The claim of the connection `conn` on a connection permit.
pub open spec fn connection_claim(conn: u64) -> Claim {
    Claim { owner: LISTENER, unit: conn }
}

/// The claim of the request `req` of the connection `conn` on a request
/// permit.
pub open spec fn request_claim(conn: u64, req: u64) -> Claim {
    Claim { owner: conn, unit: req }
}

/// The server as a mathematical value.
pub struct ServerModel {
    pub socket: ReservationModel,
    pub readiness: Readiness,
    pub backlog: i32,
    /// Whether the driver was told to make the socket listen.
    pub listen_told: bool,
    /// The error that stops the process, once there is one.
    pub fault: Option<ServerError>,
    pub connections: PoolModel,
    pub requests: PoolModel,
}

impl ServerModel {
    /// The server right after the address was reserved at the instant `now`.
    pub open spec fn initial(config: ServerConfig, descriptor: i32, port: u16, now: u64)
        -> ServerModel {
        ServerModel {
            socket: ReservationModel {
                requested: config.address,
                port,
                descriptor,
                state: SocketState::Reserved,
            },
            readiness: Readiness { armed_at: now, delay: config.readiness_delay },
            backlog: config.backlog,
            listen_told: false,
            fault: None,
            connections: PoolModel::empty(PermitScope::Global, config.max_connections as nat),
            requests: PoolModel::empty(config.request_scope, config.max_requests as nat),
        }
    }

    /// Whether the connection `conn` holds a connection permit.
    pub open spec fn serves(self, conn: u64) -> bool {
        self.connections.holders.contains(connection_claim(conn))
    }

    /// Whether the request `req` of `conn` holds a request permit, that is,
    /// whether it is inside the handler.
    pub open spec fn in_flight(self, conn: u64, req: u64) -> bool {
        self.requests.holders.contains(request_claim(conn, req))
    }

    /// The invariant of the server. Both pools are sound; the pool of
    /// connections is one budget and is never closed; nothing is admitted
    /// before the socket listens; every request that holds or awaits a
    /// permit belongs to a connection that holds one; the socket listens
    /// only after the driver was told to make it listen; and the process is
    /// stopped exactly when the socket has failed, for that reason.
    pub open spec fn wf(self) -> bool {
        &&& self.socket.state == SocketState::Listening ==> self.listen_told
        &&& self.socket.state == SocketState::Failed <==> self.fault is Some
        &&& self.fault is Some ==> self.fault == Some(ServerError::ListenTransitionFailure)
        &&& self.connections.wf()
        &&& self.requests.wf()
        &&& self.connections.scope == PermitScope::Global
        &&& !self.connections.closed
        &&& forall|c: Claim|
            (#[trigger] self.connections.holders.contains(c) || #[trigger] self.connections.waiters.contains(c))
                ==> c.owner == LISTENER
        &&& forall|c: Claim|
            (#[trigger] self.requests.holders.contains(c) || #[trigger] self.requests.waiters.contains(c))
                ==> self.serves(c.owner)
        &&& self.socket.state == SocketState::Reserved ==> self.connections.holders.len() == 0
            && self.connections.waiters.len() == 0
    }

    /// The accept loop asks what to do. While the socket is reserved, the
    /// driver is told to wait for readiness, then once to make the socket
    /// listen, then nothing until it has reported how that went.
    pub open spec fn accept_polled(self, now: u64, conn: u64) -> (ServerModel, Seq<Action>) {
        let claim = connection_claim(conn);
        if let Some(error) = self.fault {
            (self, seq![Action::Abort { error }])
        } else if self.socket.state == SocketState::Reserved {
            if self.listen_told {
                (self, Seq::empty())
            } else if self.readiness.spec_has_fired(now) {
                (
                    ServerModel { listen_told: true, ..self },
                    seq![
                        Action::Listen {
                            descriptor: self.socket.descriptor,
                            backlog: self.backlog,
                        },
                    ],
                )
            } else {
                (self, seq![Action::Wait { remaining: self.readiness.spec_remaining(now) as u64 }])
            }
        } else if self.connections.holders.contains(claim) || self.connections.waiters.contains(
            claim,
        ) {
            (self, Seq::empty())
        } else {
            let (connections, answer) = self.connections.acquire(claim);
            (
                ServerModel { connections, ..self },
                seq![
                    if answer == Admission::Granted {
                        Action::Accept { descriptor: self.socket.descriptor, conn }
                    } else {
                        Action::Park { conn }
                    },
                ],
            )
        }
    }

    /// Whether the driver owes the report on a listen that it was told to
    /// make.
    pub open spec fn awaits_listen(self) -> bool {
        self.socket.state == SocketState::Reserved && self.listen_told
    }

    /// The kernel has made the socket listen. The socket passes from
    /// reserved to listening, in place. A report that nothing waits for
    /// changes nothing.
    pub open spec fn listen_succeeded(self) -> (ServerModel, Seq<Action>) {
        if self.awaits_listen() {
            (ServerModel { socket: self.socket.promoted(), ..self }, Seq::empty())
        } else {
            (self, Seq::empty())
        }
    }

    /// The kernel refused to make the socket listen. The socket has failed
    /// and the process stops: there is no second attempt.
    pub open spec fn listen_failed(self) -> (ServerModel, Seq<Action>) {
        let error = ServerError::ListenTransitionFailure;
        (
            ServerModel { socket: self.socket.failed(), fault: Some(error), ..self },
            seq![Action::Abort { error }],
        )
    }

    /// A connection has ended. Its requests leave the request pool, those
    /// inside the handler and those waiting; the permits they held go to the
    /// requests of other connections that have waited longest; the
    /// connection's own permit goes to the accept loop if that is parked.
    pub open spec fn connection_closed(self, conn: u64) -> (ServerModel, Seq<Action>) {
        if !self.serves(conn) {
            (self, Seq::empty())
        } else {
            let (requests, purge) = self.requests.release_owner(conn);
            let (connections, answer) = self.connections.release(connection_claim(conn));
            (
                ServerModel { connections, requests, ..self },
                actions_for(Fate::Cancelled, purge.revoked) + actions_for(
                    Fate::Discarded,
                    purge.dropped,
                ) + actions_for(Fate::Dispatched, purge.promoted) + seq![Action::Drop { conn }]
                    + (match answer {
                    Release::Transferred(next) => seq![
                        Action::Accept { descriptor: self.socket.descriptor, conn: next.unit },
                    ],
                    _ => Seq::empty(),
                }),
            )
        }
    }

    /// A request has arrived.
    pub open spec fn request_arrived(self, conn: u64, req: u64) -> (ServerModel, Seq<Action>) {
        let claim = request_claim(conn, req);
        if !self.serves(conn) {
            (self, seq![Action::Reject { conn, req, error: ServerError::ConnectionError }])
        } else if self.requests.holders.contains(claim) || self.requests.waiters.contains(claim) {
            (self, Seq::empty())
        } else {
            let (requests, answer) = self.requests.acquire(claim);
            (
                ServerModel { requests, ..self },
                seq![
                    match answer {
                        Admission::Granted => Action::Dispatch { conn, req },
                        Admission::Suspended => Action::Suspend { conn, req },
                        Admission::Unavailable => Fate::Refused.spec_action(claim),
                    },
                ],
            )
        }
    }

    /// The error of the response to a request whose handler is done.
    pub open spec fn handler_error(ok: bool) -> Option<ServerError> {
        if ok {
            None
        } else {
            Some(ServerError::HandlerError)
        }
    }

    /// The handler is done with a request. The permit is returned whether
    /// the handler succeeded or failed, and goes to the request that has
    /// waited longest for it. A request that holds no permit, because its
    /// connection went first, changes nothing.
    pub open spec fn handler_finished(self, conn: u64, req: u64, ok: bool) -> (
        ServerModel,
        Seq<Action>,
    ) {
        let claim = request_claim(conn, req);
        let (requests, answer) = self.requests.release(claim);
        let response = Action::Respond { conn, req, error: Self::handler_error(ok) };
        match answer {
            Release::NotHeld => (self, Seq::empty()),
            Release::Freed => (ServerModel { requests, ..self }, seq![response]),
            Release::Transferred(next) => (
                ServerModel { requests, ..self },
                seq![response, Fate::Dispatched.spec_action(next)],
            ),
        }
    }

    /// The process drains: the request pool closes and every waiting
    /// request is answered as busy.
    pub open spec fn drain(self) -> (ServerModel, Seq<Action>) {
        let (requests, flushed) = self.requests.close();
        (ServerModel { requests, ..self }, actions_for(Fate::Refused, flushed))
    }

    /// The server after one event, and what the driver is to do.
    pub open spec fn step(self, event: Event) -> (ServerModel, Seq<Action>) {
        match event {
            Event::AcceptPolled { now, conn } => self.accept_polled(now, conn),
            Event::ListenSucceeded => self.listen_succeeded(),
            Event::ListenFailed => self.listen_failed(),
            Event::ConnectionClosed { conn } => self.connection_closed(conn),
            Event::RequestArrived { conn, req } => self.request_arrived(conn, req),
            Event::HandlerFinished { conn, req, ok } => self.handler_finished(conn, req, ok),
            Event::Drain => self.drain(),
        }
    }
}

/// Every event keeps the invariant of the server.
pub proof fn lemma_step_wf(m: ServerModel, event: Event)
    requires
        m.wf(),
    ensures
        m.step(event).0.wf(),
{
    let n = m.step(event).0;
    match event {
        Event::AcceptPolled { now, conn } => {
            let claim = connection_claim(conn);
            lemma_acquire_wf(m.connections, claim);
            lemma_acquire_members(m.connections, claim);
            assert(n.wf());
        },
        Event::ListenSucceeded => {
            assert(n.wf());
        },
        Event::ListenFailed => {
            assert(n.wf());
        },
        Event::ConnectionClosed { conn } => {
            if m.serves(conn) {
                let claim = connection_claim(conn);
                lemma_release_owner_wf(m.requests, conn);
                lemma_release_owner_members(m.requests, conn);
                lemma_release_wf(m.connections, claim);
                lemma_release_members(m.connections, claim);
                assert forall|c: Claim|
                    (#[trigger] n.requests.holders.contains(c) || #[trigger] n.requests.waiters.contains(
                        c,
                    )) implies n.serves(c.owner) by {
                    assert(m.requests.holders.contains(c) || m.requests.waiters.contains(c));
                    assert(c.owner != conn);
                    assert(m.serves(c.owner));
                    assert(connection_claim(c.owner) != claim);
                }
                assert(m.connections.holders.len() > 0);
                assert(n.wf());
            }
        },
        Event::RequestArrived { conn, req } => {
            let claim = request_claim(conn, req);
            lemma_acquire_wf(m.requests, claim);
            lemma_acquire_members(m.requests, claim);
            assert(n.wf());
        },
        Event::HandlerFinished { conn, req, ok } => {
            let claim = request_claim(conn, req);
            lemma_release_wf(m.requests, claim);
            lemma_release_members(m.requests, claim);
            assert(n.wf());
        },
        Event::Drain => {
            lemma_close_wf(m.requests);
            lemma_close_members(m.requests);
            assert(n.wf());
        },
    }
}

/// The server.
pub struct Server {
    socket: SocketReservation,
    readiness: Readiness,
    backlog: i32,
    listen_told: bool,
    fault: Option<ServerError>,
    connections: PermitPool,
    requests: PermitPool,
}

impl View for Server {
    type V = ServerModel;

    closed spec fn view(&self) -> ServerModel {
        ServerModel {
            socket: self.socket@,
            readiness: self.readiness,
            backlog: self.backlog,
            listen_told: self.listen_told,
            fault: self.fault,
            connections: self.connections@,
            requests: self.requests@,
        }
    }
}

/// Appends to `out` one action for each of `claims`, in their order.
fn push_actions(out: &mut Vec<Action>, fate: Fate, claims: &Vec<Claim>)
    ensures
        final(out)@ == old(out)@ + actions_for(fate, claims@),
{
    let ghost before = out@;
    let mut i: usize = 0;
    proof {
        assert(out@ =~= before + actions_for(fate, claims@.take(0)));
    }
    while i < claims.len()
        invariant
            i <= claims@.len(),
            out@ == before + actions_for(fate, claims@.take(i as int)),
        decreases claims@.len() - i,
    {
        out.push(fate.action(claims[i]));
        proof {
            assert(out@ =~= before + actions_for(fate, claims@.take(i + 1)));
        }
        i += 1;
    }
    proof {
        assert(claims@.take(claims@.len() as int) =~= claims@);
    }
}

impl Server {
    /// The server for an address that was just bound, at the instant `now`.
    /// A configuration with a pool without permits is refused, before the
    /// answer of the kernel is looked at; an address that is taken is
    /// refused. Nothing is accepted yet: the socket does not listen.
    pub fn start(config: ServerConfig, outcome: BindOutcome, now: u64) -> (made: Result<
        Server,
        ServerError,
    >)
        ensures
            match made {
                Ok(server) => {
                    &&& config.spec_is_valid()
                    &&& outcome matches BindOutcome::Bound { descriptor, port }
                    &&& server@ == ServerModel::initial(config, descriptor, port, now)
                    &&& server@.wf()
                },
                Err(e) => if !config.spec_is_valid() {
                    e == ServerError::PermitPoolMisconfigured
                } else {
                    outcome == BindOutcome::AddressInUse && e == ServerError::AddressInUse
                },
            },
    {
        let connections = match PermitPool::new(PermitScope::Global, config.max_connections) {
            Ok(pool) => pool,
            Err(e) => {
                return Err(e);
            },
        };
        let requests = match PermitPool::new(config.request_scope, config.max_requests) {
            Ok(pool) => pool,
            Err(e) => {
                return Err(e);
            },
        };
        let socket = match SocketReservation::reserve(config.address, outcome) {
            Ok(socket) => socket,
            Err(e) => {
                return Err(e);
            },
        };
        let server = Server {
            socket,
            readiness: Readiness::after(now, config.readiness_delay),
            backlog: config.backlog,
            listen_told: false,
            fault: None,
            connections,
            requests,
        };
        Ok(server)
    }

    /// The reserved socket.
    pub fn socket(&self) -> (socket: &SocketReservation)
        ensures
            socket@ == self@.socket,
    {
        &self.socket
    }

    /// The pool of connection permits.
    pub fn connections(&self) -> (pool: &PermitPool)
        ensures
            pool@ == self@.connections,
    {
        &self.connections
    }

    /// The pool of request permits.
    pub fn requests(&self) -> (pool: &PermitPool)
        ensures
            pool@ == self@.requests,
    {
        &self.requests
    }

    /// The error that stops the process, if there is one.
    pub fn fault(&self) -> (fault: Option<ServerError>)
        ensures
            fault == self@.fault,
    {
        self.fault
    }

    /// Whether the connection `conn` holds a connection permit.
    pub fn serves(&self, conn: u64) -> (held: bool)
        ensures
            held == self@.serves(conn),
    {
        self.connections.holds(Claim { owner: LISTENER, unit: conn })
    }

    /// Whether the request `req` of the connection `conn` is inside the
    /// handler.
    pub fn in_flight(&self, conn: u64, req: u64) -> (held: bool)
        ensures
            held == self@.in_flight(conn, req),
    {
        self.requests.holds(Claim { owner: conn, unit: req })
    }

    fn accept_polled(&mut self, now: u64, conn: u64) -> (actions: Vec<Action>)
        requires
            old(self)@.wf(),
        ensures
            final(self)@ == old(self)@.accept_polled(now, conn).0,
            actions@ == old(self)@.accept_polled(now, conn).1,
    {
        let claim = Claim { owner: LISTENER, unit: conn };
        let mut actions: Vec<Action> = Vec::new();
        if let Some(error) = self.fault {
            actions.push(Action::Abort { error });
        } else if self.socket.state() == SocketState::Reserved {
            if self.listen_told {
            } else if self.readiness.has_fired(now) {
                self.listen_told = true;
                actions.push(
                    Action::Listen { descriptor: self.socket.descriptor(), backlog: self.backlog },
                );
            } else {
                actions.push(Action::Wait { remaining: self.readiness.remaining(now) });
            }
        } else if self.connections.holds(claim) || self.connections.is_waiting(claim) {
        } else {
            let answer = self.connections.acquire(claim);
            if answer == Admission::Granted {
                actions.push(Action::Accept { descriptor: self.socket.descriptor(), conn });
            } else {
                actions.push(Action::Park { conn });
            }
        }
        proof {
            assert(actions@ =~= old(self)@.accept_polled(now, conn).1);
        }
        actions
    }

    fn listen_succeeded(&mut self) -> (actions: Vec<Action>)
        ensures
            final(self)@ == old(self)@.listen_succeeded().0,
            actions@ == old(self)@.listen_succeeded().1,
    {
        if self.socket.state() == SocketState::Reserved && self.listen_told {
            self.socket.promote();
        }
        Vec::new()
    }

    fn listen_failed(&mut self) -> (actions: Vec<Action>)
        ensures
            final(self)@ == old(self)@.listen_failed().0,
            actions@ == old(self)@.listen_failed().1,
    {
        let error = ServerError::ListenTransitionFailure;
        self.socket.fail();
        self.fault = Some(error);
        let mut actions: Vec<Action> = Vec::new();
        actions.push(Action::Abort { error });
        proof {
            assert(actions@ =~= old(self)@.listen_failed().1);
        }
        actions
    }

    fn connection_closed(&mut self, conn: u64) -> (actions: Vec<Action>)
        requires
            old(self)@.wf(),
        ensures
            final(self)@ == old(self)@.connection_closed(conn).0,
            actions@ == old(self)@.connection_closed(conn).1,
    {
        let claim = Claim { owner: LISTENER, unit: conn };
        let mut actions: Vec<Action> = Vec::new();
        if !self.connections.holds(claim) {
            proof {
                assert(actions@ =~= old(self)@.connection_closed(conn).1);
            }
            return actions;
        }
        let purge = self.requests.release_owner(conn);
        let answer = self.connections.release(claim);
        push_actions(&mut actions, Fate::Cancelled, &purge.revoked);
        push_actions(&mut actions, Fate::Discarded, &purge.dropped);
        push_actions(&mut actions, Fate::Dispatched, &purge.promoted);
        actions.push(Action::Drop { conn });
        match answer {
            Release::Transferred(next) => {
                actions.push(Action::Accept { descriptor: self.socket.descriptor(), conn: next.unit });
            },
            _ => {},
        }
        proof {
            assert(actions@ =~= old(self)@.connection_closed(conn).1);
        }
        actions
    }

    fn request_arrived(&mut self, conn: u64, req: u64) -> (actions: Vec<Action>)
        requires
            old(self)@.wf(),
        ensures
            final(self)@ == old(self)@.request_arrived(conn, req).0,
            actions@ == old(self)@.request_arrived(conn, req).1,
    {
        let claim = Claim { owner: conn, unit: req };
        let mut actions: Vec<Action> = Vec::new();
        if !self.connections.holds(Claim { owner: LISTENER, unit: conn }) {
            actions.push(Action::Reject { conn, req, error: ServerError::ConnectionError });
        } else if self.requests.holds(claim) || self.requests.is_waiting(claim) {
        } else {
            let answer = self.requests.acquire(claim);
            let action = match answer {
                Admission::Granted => Action::Dispatch { conn, req },
                Admission::Suspended => Action::Suspend { conn, req },
                Admission::Unavailable => Fate::Refused.action(claim),
            };
            actions.push(action);
        }
        proof {
            assert(actions@ =~= old(self)@.request_arrived(conn, req).1);
        }
        actions
    }

    fn handler_finished(&mut self, conn: u64, req: u64, ok: bool) -> (actions: Vec<Action>)
        requires
            old(self)@.wf(),
        ensures
            final(self)@ == old(self)@.handler_finished(conn, req, ok).0,
            actions@ == old(self)@.handler_finished(conn, req, ok).1,
    {
        let claim = Claim { owner: conn, unit: req };
        let mut actions: Vec<Action> = Vec::new();
        let error = if ok {
            None
        } else {
            Some(ServerError::HandlerError)
        };
        let answer = self.requests.release(claim);
        match answer {
            Release::NotHeld => {},
            Release::Freed => {
                actions.push(Action::Respond { conn, req, error });
            },
            Release::Transferred(next) => {
                actions.push(Action::Respond { conn, req, error });
                actions.push(Fate::Dispatched.action(next));
            },
        }
        proof {
            assert(actions@ =~= old(self)@.handler_finished(conn, req, ok).1);
        }
        actions
    }

    fn drain(&mut self) -> (actions: Vec<Action>)
        requires
            old(self)@.wf(),
        ensures
            final(self)@ == old(self)@.drain().0,
            actions@ == old(self)@.drain().1,
    {
        let flushed = self.requests.close();
        let mut actions: Vec<Action> = Vec::new();
        push_actions(&mut actions, Fate::Refused, &flushed);
        proof {
            assert(actions@ =~= old(self)@.drain().1);
        }
        actions
    }

    /// Takes one event and tells the driver what to do, in order. The
    /// server never fails and never blocks: whatever the event, it answers.
    ///
    /// The socket counts as listening only from the report that the kernel
    /// made it listen, and never after a report that the kernel refused.
    pub fn step(&mut self, event: Event) -> (actions: Vec<Action>)
        requires
            old(self)@.wf(),
        ensures
            final(self)@.wf(),
            final(self)@ == old(self)@.step(event).0,
            actions@ == old(self)@.step(event).1,
            final(self)@.socket.state == SocketState::Listening ==> old(self)@.socket.state
                == SocketState::Listening || (event == Event::ListenSucceeded && old(
                self,
            )@.awaits_listen()),
            event == Event::ListenFailed ==> final(self)@.socket.state == SocketState::Failed
                && final(self)@.fault == Some(ServerError::ListenTransitionFailure),
            old(self)@.socket.state == SocketState::Failed ==> final(self)@.socket.state
                == SocketState::Failed,
    {
        proof {
            lemma_step_wf(self@, event);
        }
        match event {
            Event::AcceptPolled { now, conn } => self.accept_polled(now, conn),
            Event::ListenSucceeded => self.listen_succeeded(),
            Event::ListenFailed => self.listen_failed(),
            Event::ConnectionClosed { conn } => self.connection_closed(conn),
            Event::RequestArrived { conn, req } => self.request_arrived(conn, req),
            Event::HandlerFinished { conn, req, ok } => self.handler_finished(conn, req, ok),
            Event::Drain => self.drain(),
        }
    }
}

} // verus!
