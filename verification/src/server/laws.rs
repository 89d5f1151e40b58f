//! What holds of the server over every sequence of events.
//!
//! A run of the server is the fold of [`ServerModel::step`] over a sequence
//! of events; its log is the sequence of actions that the driver was given.
//! The laws below speak of all runs from any sound state, and so of every
//! instant in the life of a server.
use crate::error::ServerError;
use crate::permit::lemmas::{
    lemma_acquire_members, lemma_close_members, lemma_release_members,
    lemma_release_owner_members,
};
use crate::permit::{Claim, PermitScope, Release};
use crate::server::{
    actions_for, connection_claim, lemma_step_wf, request_claim, Action, Event, Fate,
    ServerModel,
};
use crate::socket::SocketState;
use vstd::prelude::*;

verus! {

/// The server after a sequence of events.
pub open spec fn run(m: ServerModel, events: Seq<Event>) -> ServerModel
    decreases events.len(),
{
    if events.len() == 0 {
        m
    } else {
        run(m, events.drop_last()).step(events.last()).0
    }
}

/// All that the driver was told to do over a sequence of events, in order.
pub open spec fn log(m: ServerModel, events: Seq<Event>) -> Seq<Action>
    decreases events.len(),
{
    if events.len() == 0 {
        Seq::empty()
    } else {
        log(m, events.drop_last()) + run(m, events.drop_last()).step(events.last()).1
    }
}

/// How many actions of `s` pass the test `p`.
pub open spec fn count(s: Seq<Action>, p: spec_fn(Action) -> bool) -> nat
    decreases s.len(),
{
    if s.len() == 0 {
        0
    } else {
        count(s.drop_last(), p) + if p(s.last()) {
            1nat
        } else {
            0nat
        }
    }
}

/// One if `b` holds, zero if not.
pub open spec fn one_if(b: bool) -> nat {
    if b {
        1
    } else {
        0
    }
}

/// The test "tells the driver to make the socket listen".
pub open spec fn is_listen() -> spec_fn(Action) -> bool {
    |a: Action| a is Listen
}

/// The test "tells the driver to accept the connection `conn`".
pub open spec fn admits_connection(conn: u64) -> spec_fn(Action) -> bool {
    |a: Action| a matches Action::Accept { conn: c, .. } && c == conn
}

/// The test "tells the driver that the permit of `conn` is back".
pub open spec fn retires_connection(conn: u64) -> spec_fn(Action) -> bool {
    |a: Action| a == (Action::Drop { conn })
}

/// The test "hands the request `req` of `conn` to the handler".
pub open spec fn admits_request(conn: u64, req: u64) -> spec_fn(Action) -> bool {
    |a: Action| a == (Action::Dispatch { conn, req })
}

/// The test "ends the stay of the request `req` of `conn` in the handler":
/// the response to a request that was handled, well or badly, or the
/// cancellation of its handler.
pub open spec fn retires_request(conn: u64, req: u64) -> spec_fn(Action) -> bool {
    |a: Action|
        a == (Action::Cancel { conn, req }) || a == (Action::Respond { conn, req, error: None })
            || a == (Action::Respond {
            conn,
            req,
            error: Some(ServerError::HandlerError),
        })
}

/// Counting over two sequences laid end to end.
pub proof fn lemma_count_concat(a: Seq<Action>, b: Seq<Action>, p: spec_fn(Action) -> bool)
    ensures
        count(a + b, p) == count(a, p) + count(b, p),
    decreases b.len(),
{
    if b.len() == 0 {
        assert(a + b =~= a);
    } else {
        lemma_count_concat(a, b.drop_last(), p);
        assert((a + b).drop_last() =~= a + b.drop_last());
    }
}

/// Counting over at most two actions.
pub proof fn lemma_count_short(s: Seq<Action>, p: spec_fn(Action) -> bool)
    requires
        s.len() <= 2,
    ensures
        count(s, p) == if s.len() == 0 {
            0
        } else if s.len() == 1 {
            one_if(p(s[0]))
        } else {
            one_if(p(s[0])) + one_if(p(s[1]))
        },
{
    reveal_with_fuel(count, 3);
    if s.len() == 2 {
        assert(s.drop_last().last() == s[0]);
    }
}

/// Where the test singles out the action for one claim, the count over the
/// actions for a sequence of claims without repeats tells whether that
/// claim is among them.
pub proof fn lemma_count_actions_for_one(
    fate: Fate,
    claims: Seq<Claim>,
    p: spec_fn(Action) -> bool,
    target: Claim,
)
    requires
        claims.no_duplicates(),
        forall|c: Claim| #[trigger] p(fate.spec_action(c)) <==> c == target,
    ensures
        count(actions_for(fate, claims), p) == one_if(claims.contains(target)),
    decreases claims.len(),
{
    if claims.len() == 0 {
        assert(actions_for(fate, claims) =~= Seq::<Action>::empty());
    } else {
        let init = claims.drop_last();
        let last = claims.last();
        lemma_count_actions_for_one(fate, init, p, target);
        assert(actions_for(fate, claims).drop_last() =~= actions_for(fate, init));
        assert(actions_for(fate, claims).last() == fate.spec_action(last));
        assert(p(fate.spec_action(last)) <==> last == target);
        if init.contains(target) {
            let k = choose|k: int| 0 <= k < init.len() && init[k] == target;
            assert(claims[k] == target);
            assert(claims.contains(target));
            assert(last != target);
        }
        if last == target {
            assert(claims[claims.len() - 1] == target);
        }
        if claims.contains(target) && last != target {
            let k = choose|k: int| 0 <= k < claims.len() && claims[k] == target;
            assert(init[k] == target);
        }
    }
}

/// Where the test passes no action of a fate, the count over the actions
/// for any claims is zero.
pub proof fn lemma_count_actions_for_none(
    fate: Fate,
    claims: Seq<Claim>,
    p: spec_fn(Action) -> bool,
)
    requires
        forall|c: Claim| !#[trigger] p(fate.spec_action(c)),
    ensures
        count(actions_for(fate, claims), p) == 0,
    decreases claims.len(),
{
    if claims.len() == 0 {
        assert(actions_for(fate, claims) =~= Seq::<Action>::empty());
    } else {
        let init = claims.drop_last();
        lemma_count_actions_for_none(fate, init, p);
        assert(actions_for(fate, claims).drop_last() =~= actions_for(fate, init));
        assert(actions_for(fate, claims).last() == fate.spec_action(claims.last()));
    }
}

/// What the driver is told when a connection that holds a permit ends, by
/// parts: a cancellation for each of its requests inside the handler, a
/// discard for each of its waiting requests, a dispatch for each request
/// that takes over a permit, the return of the connection's permit, and the
/// acceptance of the connection that takes it over, if there is one.
pub proof fn lemma_count_closed(m: ServerModel, conn: u64, p: spec_fn(Action) -> bool)
    requires
        m.serves(conn),
    ensures
        ({
            let purge = m.requests.release_owner(conn).1;
            let answer = m.connections.release(connection_claim(conn)).1;
            count(m.connection_closed(conn).1, p) == count(
                actions_for(Fate::Cancelled, purge.revoked),
                p,
            ) + count(actions_for(Fate::Discarded, purge.dropped), p) + count(
                actions_for(Fate::Dispatched, purge.promoted),
                p,
            ) + one_if(p(Action::Drop { conn })) + match answer {
                Release::Transferred(next) => one_if(
                    p(Action::Accept { descriptor: m.socket.descriptor, conn: next.unit }),
                ),
                _ => 0,
            }
        }),
{
    let purge = m.requests.release_owner(conn).1;
    let acts = m.connection_closed(conn).1;
    let a = actions_for(Fate::Cancelled, purge.revoked);
    let b = actions_for(Fate::Discarded, purge.dropped);
    let c = actions_for(Fate::Dispatched, purge.promoted);
    let d = seq![Action::Drop { conn }];
    let e = acts.subrange((a + b + c + d).len() as int, acts.len() as int);
    assert(acts =~= a + b + c + d + e);
    lemma_count_concat(a, b, p);
    lemma_count_concat(a + b, c, p);
    lemma_count_concat(a + b + c, d, p);
    lemma_count_concat(a + b + c + d, e, p);
    lemma_count_short(d, p);
    lemma_count_short(e, p);
}

/// Whether the action `a` is one that the end of the connection `conn`
/// calls for: the cancellation of one of its requests inside the handler,
/// the discard of one of its waiting requests, the dispatch of a request
/// that takes over a permit, the return of the connection's permit, or the
/// acceptance of the connection that takes that permit over.
pub open spec fn told_on_closing(m: ServerModel, conn: u64, a: Action) -> bool {
    let purge = m.requests.release_owner(conn).1;
    match a {
        Action::Cancel { conn: c, req } => purge.revoked.contains(request_claim(c, req)),
        Action::Discard { conn: c, req } => purge.dropped.contains(request_claim(c, req)),
        Action::Dispatch { conn: c, req } => purge.promoted.contains(request_claim(c, req)),
        Action::Drop { conn: c } => c == conn,
        Action::Accept { descriptor, conn: c } => {
            &&& descriptor == m.socket.descriptor
            &&& m.connections.release(connection_claim(conn)).1 matches Release::Transferred(next)
            &&& next.unit == c
        },
        _ => false,
    }
}

/// Every action that the driver is told when a connection that holds a
/// permit ends is one that the end of that connection calls for.
pub proof fn lemma_closed_actions(m: ServerModel, conn: u64)
    requires
        m.serves(conn),
    ensures
        forall|i: int|
            0 <= i < m.connection_closed(conn).1.len() ==> told_on_closing(
                m,
                conn,
                #[trigger] m.connection_closed(conn).1[i],
            ),
{
    let purge = m.requests.release_owner(conn).1;
    let acts = m.connection_closed(conn).1;
    let a = actions_for(Fate::Cancelled, purge.revoked);
    let b = actions_for(Fate::Discarded, purge.dropped);
    let c = actions_for(Fate::Dispatched, purge.promoted);
    assert forall|i: int| 0 <= i < acts.len() implies told_on_closing(
        m,
        conn,
        #[trigger] acts[i],
    ) by {
        if i < a.len() {
            assert(acts[i] == a[i]);
            assert(purge.revoked.contains(purge.revoked[i]));
        } else if i < a.len() + b.len() {
            let k = i - a.len();
            assert(acts[i] == b[k]);
            assert(purge.dropped.contains(purge.dropped[k]));
        } else if i < a.len() + b.len() + c.len() {
            let k = i - a.len() - b.len();
            assert(acts[i] == c[k]);
            assert(purge.promoted.contains(purge.promoted[k]));
        }
    }
}

/// An event other than the end of a connection and the drain gives at most
/// two actions, and counting over them is counting each.
pub proof fn lemma_step_count(m: ServerModel, event: Event, p: spec_fn(Action) -> bool)
    requires
        m.wf(),
        !(event is ConnectionClosed),
        !(event is Drain),
    ensures
        m.step(event).1.len() <= 2,
        count(m.step(event).1, p) == if m.step(event).1.len() == 0 {
            0
        } else if m.step(event).1.len() == 1 {
            one_if(p(m.step(event).1[0]))
        } else {
            one_if(p(m.step(event).1[0])) + one_if(p(m.step(event).1[1]))
        },
{
    lemma_count_short(m.step(event).1, p);
}

/// Every run from a sound state ends in a sound state, and changes neither
/// the capacities and scopes of the pools nor the socket's descriptor and
/// address.
pub proof fn lemma_run_wf(m: ServerModel, events: Seq<Event>)
    requires
        m.wf(),
    ensures
        run(m, events).wf(),
        run(m, events).connections.capacity == m.connections.capacity,
        run(m, events).requests.capacity == m.requests.capacity,
        run(m, events).requests.scope == m.requests.scope,
        run(m, events).socket.descriptor == m.socket.descriptor,
        run(m, events).socket.requested == m.socket.requested,
        run(m, events).socket.port == m.socket.port,
        run(m, events).backlog == m.backlog,
    decreases events.len(),
{
    if events.len() > 0 {
        lemma_run_wf(m, events.drop_last());
        lemma_step_wf(run(m, events.drop_last()), events.last());
    }
}

/// At no instant do more connections hold a connection permit than the
/// pool of connections has permits.
pub proof fn law_connections_never_exceed_capacity(m: ServerModel, events: Seq<Event>)
    requires
        m.wf(),
    ensures
        run(m, events).connections.holders.len() <= m.connections.capacity,
{
    lemma_run_wf(m, events);
    let n = run(m, events);
    assert(n.connections.load(0) <= n.connections.capacity);
}

/// At no instant are more requests inside the handler than the budget that
/// they draw on allows: `capacity` requests in all where the scope is
/// global, `capacity` requests of each connection where it is per owner.
pub proof fn law_requests_never_exceed_capacity(m: ServerModel, events: Seq<Event>, conn: u64)
    requires
        m.wf(),
    ensures
        run(m, events).requests.load(conn) <= m.requests.capacity,
        m.requests.scope == PermitScope::Global ==> run(m, events).requests.holders.len()
            <= m.requests.capacity,
{
    lemma_run_wf(m, events);
    let n = run(m, events);
    assert(n.requests.load(conn) <= n.requests.capacity);
}

/// What one event adds to the books of the socket: the driver is told to
/// make it listen exactly when it had not been told before, with the
/// socket's own descriptor; the socket starts to listen only on the report
/// that the kernel made it listen; and it never goes back to reserved, nor
/// on from failed.
pub proof fn lemma_step_listens(m: ServerModel, event: Event)
    requires
        m.wf(),
    ensures
        count(m.step(event).1, is_listen()) + one_if(m.listen_told) == one_if(
            m.step(event).0.listen_told,
        ),
        forall|i: int|
            0 <= i < m.step(event).1.len() && #[trigger] m.step(event).1[i] is Listen
                ==> m.step(event).1[i] == (Action::Listen {
                descriptor: m.socket.descriptor,
                backlog: m.backlog,
            }),
        m.step(event).0.socket.state == SocketState::Reserved ==> m.socket.state
            == SocketState::Reserved,
        m.socket.state == SocketState::Failed ==> m.step(event).0.socket.state
            == SocketState::Failed && m.step(event).0.listen_told == m.listen_told,
        m.step(event).0.socket.state == SocketState::Listening ==> m.socket.state
            == SocketState::Listening || event == Event::ListenSucceeded,
{
    let p = is_listen();
    match event {
        Event::ConnectionClosed { conn } => {
            if m.serves(conn) {
                let purge = m.requests.release_owner(conn).1;
                lemma_count_closed(m, conn, p);
                lemma_count_actions_for_none(Fate::Cancelled, purge.revoked, p);
                lemma_count_actions_for_none(Fate::Discarded, purge.dropped, p);
                lemma_count_actions_for_none(Fate::Dispatched, purge.promoted, p);
                lemma_closed_actions(m, conn);
            } else {
                lemma_count_short(m.step(event).1, p);
            }
        },
        Event::Drain => {
            lemma_count_actions_for_none(Fate::Refused, m.requests.close().1, p);
        },
        _ => {
            lemma_step_count(m, event, p);
        },
    }
}

/// The socket is made to listen once, and once only. Over every run the
/// driver is told to make the socket listen exactly when it had not been
/// told before, so at most once in the life of a server. The socket listens
/// only if the driver was told so. It never goes back to reserved, and a
/// socket that has failed stays failed. Its descriptor and its address are
/// the same at the end as at the start: the socket that listens is the
/// socket that was bound.
pub proof fn law_listen_exactly_once(m: ServerModel, events: Seq<Event>)
    requires
        m.wf(),
    ensures
        count(log(m, events), is_listen()) + one_if(m.listen_told) == one_if(
            run(m, events).listen_told,
        ),
        count(log(m, events), is_listen()) <= 1,
        run(m, events).socket.state == SocketState::Listening ==> run(m, events).listen_told,
        run(m, events).socket.state == SocketState::Reserved ==> m.socket.state
            == SocketState::Reserved,
        m.socket.state == SocketState::Failed ==> run(m, events).socket.state
            == SocketState::Failed && count(log(m, events), is_listen()) == 0,
        run(m, events).socket.descriptor == m.socket.descriptor,
        run(m, events).socket.local_address() == m.socket.local_address(),
    decreases events.len(),
{
    lemma_run_wf(m, events);
    if events.len() > 0 {
        let before = run(m, events.drop_last());
        law_listen_exactly_once(m, events.drop_last());
        lemma_run_wf(m, events.drop_last());
        lemma_step_listens(before, events.last());
        lemma_count_concat(log(m, events.drop_last()), before.step(events.last()).1, is_listen());
    }
}

/// A socket that the kernel refused to make listening never listens. From
/// the report of the refusal on, whatever happens, the socket has failed,
/// the process is stopped for that reason, and the driver is never told to
/// make the socket listen again.
pub proof fn law_failed_listen_never_listens(m: ServerModel, events: Seq<Event>)
    requires
        m.wf(),
    ensures
        ({
            let failed = m.step(Event::ListenFailed).0;
            &&& failed.socket.state == SocketState::Failed
            &&& run(failed, events).socket.state == SocketState::Failed
            &&& run(failed, events).fault == Some(ServerError::ListenTransitionFailure)
            &&& count(log(failed, events), is_listen()) == 0
        }),
{
    let failed = m.step(Event::ListenFailed).0;
    lemma_step_wf(m, Event::ListenFailed);
    law_listen_exactly_once(failed, events);
    lemma_run_wf(failed, events);
}

/// The socket listens only from the report that the kernel made it listen:
/// where a run from a reserved socket ends with a listening socket, that
/// report is among its events.
pub proof fn law_listening_needs_the_report(m: ServerModel, events: Seq<Event>)
    requires
        m.wf(),
        m.socket.state == SocketState::Reserved,
        run(m, events).socket.state == SocketState::Listening,
    ensures
        events.contains(Event::ListenSucceeded),
    decreases events.len(),
{
    if events.len() > 0 {
        let before = run(m, events.drop_last());
        lemma_run_wf(m, events.drop_last());
        law_listen_exactly_once(m, events.drop_last());
        lemma_step_listens(before, events.last());
        if events.last() == Event::ListenSucceeded {
            assert(events[events.len() - 1] == Event::ListenSucceeded);
        } else {
            law_listening_needs_the_report(m, events.drop_last());
            let k = choose|k: int|
                0 <= k < events.drop_last().len() && events.drop_last()[k]
                    == Event::ListenSucceeded;
            assert(events[k] == Event::ListenSucceeded);
        }
    }
}

/// What one event adds to the books of one request: it is handed to the
/// handler exactly when it comes to hold a request permit, and its stay is
/// ended exactly when it ceases to hold one.
pub proof fn lemma_step_requests(m: ServerModel, event: Event, conn: u64, req: u64)
    requires
        m.wf(),
    ensures
        count(m.step(event).1, admits_request(conn, req)) + one_if(m.in_flight(conn, req))
            == count(m.step(event).1, retires_request(conn, req)) + one_if(
            m.step(event).0.in_flight(conn, req),
        ),
{
    let g = admits_request(conn, req);
    let r = retires_request(conn, req);
    let target = request_claim(conn, req);
    match event {
        Event::ConnectionClosed { conn: c0 } => {
            if m.serves(c0) {
                let purge = m.requests.release_owner(c0).1;
                lemma_release_owner_members(m.requests, c0);
                lemma_count_closed(m, c0, g);
                lemma_count_closed(m, c0, r);
                assert forall|x: Claim| #[trigger]
                    r(Fate::Cancelled.spec_action(x)) <==> x == target by {}
                assert forall|x: Claim| #[trigger]
                    g(Fate::Dispatched.spec_action(x)) <==> x == target by {}
                lemma_count_actions_for_one(Fate::Cancelled, purge.revoked, r, target);
                lemma_count_actions_for_none(Fate::Cancelled, purge.revoked, g);
                lemma_count_actions_for_none(Fate::Discarded, purge.dropped, g);
                lemma_count_actions_for_none(Fate::Discarded, purge.dropped, r);
                lemma_count_actions_for_one(Fate::Dispatched, purge.promoted, g, target);
                lemma_count_actions_for_none(Fate::Dispatched, purge.promoted, r);
            } else {
                lemma_count_short(m.step(event).1, g);
                lemma_count_short(m.step(event).1, r);
            }
        },
        Event::Drain => {
            lemma_close_members(m.requests);
            lemma_count_actions_for_none(Fate::Refused, m.requests.close().1, g);
            lemma_count_actions_for_none(Fate::Refused, m.requests.close().1, r);
        },
        _ => {
            match event {
                Event::RequestArrived { conn: c0, req: r0 } => {
                    lemma_acquire_members(m.requests, request_claim(c0, r0));
                },
                Event::HandlerFinished { conn: c0, req: r0, ok } => {
                    lemma_release_members(m.requests, request_claim(c0, r0));
                },
                _ => {},
            }
            lemma_step_count(m, event, g);
            lemma_step_count(m, event, r);
        },
    }
}

/// What one event adds to the books of one connection: the driver is told
/// to accept it exactly when it comes to hold a connection permit, and told
/// that its permit is back exactly when it ceases to hold one.
pub proof fn lemma_step_connections(m: ServerModel, event: Event, conn: u64)
    requires
        m.wf(),
    ensures
        count(m.step(event).1, admits_connection(conn)) + one_if(m.serves(conn)) == count(
            m.step(event).1,
            retires_connection(conn),
        ) + one_if(m.step(event).0.serves(conn)),
{
    let g = admits_connection(conn);
    let r = retires_connection(conn);
    match event {
        Event::ConnectionClosed { conn: c0 } => {
            if m.serves(c0) {
                let purge = m.requests.release_owner(c0).1;
                lemma_release_members(m.connections, connection_claim(c0));
                lemma_count_closed(m, c0, g);
                lemma_count_closed(m, c0, r);
                lemma_count_actions_for_none(Fate::Cancelled, purge.revoked, g);
                lemma_count_actions_for_none(Fate::Cancelled, purge.revoked, r);
                lemma_count_actions_for_none(Fate::Discarded, purge.dropped, g);
                lemma_count_actions_for_none(Fate::Discarded, purge.dropped, r);
                lemma_count_actions_for_none(Fate::Dispatched, purge.promoted, g);
                lemma_count_actions_for_none(Fate::Dispatched, purge.promoted, r);
                match m.connections.release(connection_claim(c0)).1 {
                    Release::Transferred(next) => {
                        assert(m.connections.waiters.contains(next));
                        assert(next == connection_claim(next.unit));
                    },
                    _ => {},
                }
            } else {
                lemma_count_short(m.step(event).1, g);
                lemma_count_short(m.step(event).1, r);
            }
        },
        Event::Drain => {
            lemma_count_actions_for_none(Fate::Refused, m.requests.close().1, g);
            lemma_count_actions_for_none(Fate::Refused, m.requests.close().1, r);
        },
        _ => {
            match event {
                Event::AcceptPolled { now, conn: c0 } => {
                    lemma_acquire_members(m.connections, connection_claim(c0));
                },
                _ => {},
            }
            lemma_step_count(m, event, g);
            lemma_step_count(m, event, r);
        },
    }
}

/// No request permit leaks and none is returned twice. Over every run, and
/// for every request, the times it was handed to the handler exceed the
/// times its stay there was ended, by a response or by a cancellation, by
/// one while it is inside the handler and by nothing otherwise. So every
/// permit that was granted is returned once, also where the connection
/// goes away in the middle of the request.
pub proof fn law_request_permits_are_conserved(
    m: ServerModel,
    events: Seq<Event>,
    conn: u64,
    req: u64,
)
    requires
        m.wf(),
    ensures
        count(log(m, events), admits_request(conn, req)) + one_if(m.in_flight(conn, req))
            == count(log(m, events), retires_request(conn, req)) + one_if(
            run(m, events).in_flight(conn, req),
        ),
    decreases events.len(),
{
    if events.len() > 0 {
        let before = run(m, events.drop_last());
        let acts = before.step(events.last()).1;
        law_request_permits_are_conserved(m, events.drop_last(), conn, req);
        lemma_run_wf(m, events.drop_last());
        lemma_step_requests(before, events.last(), conn, req);
        lemma_count_concat(log(m, events.drop_last()), acts, admits_request(conn, req));
        lemma_count_concat(log(m, events.drop_last()), acts, retires_request(conn, req));
    }
}

/// No connection permit leaks and none is returned twice. Over every run,
/// and for every connection, the times the driver was told to accept it
/// exceed the times it was told that its permit is back by one while the
/// connection holds a permit and by nothing otherwise.
pub proof fn law_connection_permits_are_conserved(m: ServerModel, events: Seq<Event>, conn: u64)
    requires
        m.wf(),
    ensures
        count(log(m, events), admits_connection(conn)) + one_if(m.serves(conn)) == count(
            log(m, events),
            retires_connection(conn),
        ) + one_if(run(m, events).serves(conn)),
    decreases events.len(),
{
    if events.len() > 0 {
        let before = run(m, events.drop_last());
        let acts = before.step(events.last()).1;
        law_connection_permits_are_conserved(m, events.drop_last(), conn);
        lemma_run_wf(m, events.drop_last());
        lemma_step_connections(before, events.last(), conn);
        lemma_count_concat(log(m, events.drop_last()), acts, admits_connection(conn));
        lemma_count_concat(log(m, events.drop_last()), acts, retires_connection(conn));
    }
}

/// A request is inside the handler only while its connection holds a
/// connection permit: the handler never sees a request that was not
/// admitted twice, as part of its connection and for itself.
pub proof fn law_handler_runs_only_on_admitted_connections(
    m: ServerModel,
    events: Seq<Event>,
    conn: u64,
    req: u64,
)
    requires
        m.wf(),
        run(m, events).in_flight(conn, req),
    ensures
        run(m, events).serves(conn),
{
    lemma_run_wf(m, events);
}

/// Whether the action `a` fits the state `n` that it comes with: a
/// connection that is to be accepted holds a connection permit, and a
/// request that is handed to the handler holds a request permit on a
/// connection that holds a connection permit.
pub open spec fn permitted(n: ServerModel, a: Action) -> bool {
    match a {
        Action::Accept { conn, .. } => n.serves(conn),
        Action::Dispatch { conn, req } => n.in_flight(conn, req) && n.serves(conn),
        _ => true,
    }
}

/// Work starts only under a permit. Whatever the event, every connection
/// that the driver is told to accept holds a connection permit, and every
/// request that it is told to hand to the handler holds a request permit
/// and belongs to a connection that holds a connection permit.
pub proof fn law_work_starts_only_under_a_permit(m: ServerModel, event: Event)
    requires
        m.wf(),
    ensures
        forall|i: int|
            0 <= i < m.step(event).1.len() ==> permitted(
                m.step(event).0,
                #[trigger] m.step(event).1[i],
            ),
{
    let n = m.step(event).0;
    let acts = m.step(event).1;
    lemma_step_wf(m, event);
    match event {
        Event::AcceptPolled { now, conn } => {
            lemma_acquire_members(m.connections, connection_claim(conn));
        },
        Event::ListenSucceeded => {},
        Event::ListenFailed => {},
        Event::ConnectionClosed { conn } => {
            if m.serves(conn) {
                lemma_release_owner_members(m.requests, conn);
                lemma_release_members(m.connections, connection_claim(conn));
                lemma_closed_actions(m, conn);
                assert forall|i: int| 0 <= i < acts.len() implies permitted(
                    n,
                    #[trigger] acts[i],
                ) by {
                    assert(told_on_closing(m, conn, acts[i]));
                    match m.connections.release(connection_claim(conn)).1 {
                        Release::Transferred(next) => {
                            assert(m.connections.waiters.contains(next));
                            assert(next == connection_claim(next.unit));
                        },
                        _ => {},
                    }
                }
            }
        },
        Event::RequestArrived { conn, req } => {
            lemma_acquire_members(m.requests, request_claim(conn, req));
        },
        Event::HandlerFinished { conn, req, ok } => {
            lemma_release_members(m.requests, request_claim(conn, req));
        },
        Event::Drain => {
            lemma_close_members(m.requests);
        },
    }
}

/// Nobody waits while a permit that it could take is free. At every
/// instant, a parked accept loop means that all connection permits are
/// out, and a waiting request means that the budget it draws on is used
/// up: work is suspended for want of capacity and for nothing else.
pub proof fn law_nobody_waits_while_a_permit_is_free(
    m: ServerModel,
    events: Seq<Event>,
    conn: u64,
    req: u64,
)
    requires
        m.wf(),
    ensures
        run(m, events).connections.waiters.len() > 0 ==> run(m, events).connections.holders.len()
            == m.connections.capacity,
        run(m, events).requests.waiters.contains(request_claim(conn, req)) ==> run(
            m,
            events,
        ).requests.load(conn) == m.requests.capacity,
{
    lemma_run_wf(m, events);
    let n = run(m, events);
    if n.connections.waiters.len() > 0 {
        assert(n.connections.load(n.connections.waiters[0].owner) >= n.connections.capacity);
        assert(n.connections.load(0) <= n.connections.capacity);
    }
    if n.requests.waiters.contains(request_claim(conn, req)) {
        let i = choose|i: int|
            0 <= i < n.requests.waiters.len() && n.requests.waiters[i] == request_claim(conn, req);
        assert(n.requests.load(n.requests.waiters[i].owner) >= n.requests.capacity);
        assert(n.requests.load(conn) <= n.requests.capacity);
    }
}

} // verus!
