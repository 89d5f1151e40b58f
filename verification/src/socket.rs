//! A reserved address: a socket that is bound but does not listen yet, and
//! its one transition into a listening socket.
//!
//! Binding holds the address against every other process. Until the socket
//! listens, a connection attempt is refused by the transport, which tells
//! clients that the service is there but not ready. When readiness fires,
//! the same descriptor starts to listen: it is never closed and bound again,
//! so the address is never free in between.
use crate::error::ServerError;
use vstd::prelude::*;

verus! {

/// The host part of an address, as the bits of the IP address.
#[derive(Clone, Copy, Debug, PartialEq, Eq, Structural)]
pub enum Host {
    V4(u32),
    V6(u128),
}

/// An address to bind. Port 0 asks the kernel for a free port.
#[derive(Clone, Copy, Debug, PartialEq, Eq, Structural)]
pub struct BindAddress {
    pub host: Host,
    pub port: u16,
}

/// What the kernel answered to the bind.
#[derive(Clone, Copy, Debug, PartialEq, Eq, Structural)]
pub enum BindOutcome {
    /// The socket `descriptor` is bound, to the port `port`.
    Bound { descriptor: i32, port: u16 },
    /// Another socket holds the address.
    AddressInUse,
}

/// The states of the socket. It is reserved until the kernel has made it
/// listen; from there it listens for good. A socket that the kernel refused
/// to make listening has failed, and that is final as well.
#[derive(Clone, Copy, Debug, PartialEq, Eq, Structural)]
pub enum SocketState {
    /// Bound: the address is held, connection attempts are refused.
    Reserved,
    /// Listening: the kernel completes handshakes and queues connections.
    Listening,
    /// The kernel refused to make the socket listen. The address is still
    /// held and connection attempts are still refused; the socket is of no
    /// further use.
    Failed,
}

/// A reservation as a mathematical value.
pub struct ReservationModel {
    /// The address that was asked for.
    pub requested: BindAddress,
    /// The port that the kernel bound.
    pub port: u16,
    pub descriptor: i32,
    pub state: SocketState,
}

impl ReservationModel {
    /// The same socket, listening.
    pub open spec fn promoted(self) -> ReservationModel {
        ReservationModel { state: SocketState::Listening, ..self }
    }

    /// The same socket, after the kernel refused to make it listen.
    pub open spec fn failed(self) -> ReservationModel {
        ReservationModel { state: SocketState::Failed, ..self }
    }

    /// The address that the socket holds.
    pub open spec fn local_address(self) -> BindAddress {
        BindAddress { host: self.requested.host, port: self.port }
    }
}

/// The one owner of a bound socket. It cannot be copied: whoever has the
/// value has the descriptor.
#[derive(Debug)]
pub struct SocketReservation {
    requested: BindAddress,
    port: u16,
    descriptor: i32,
    state: SocketState,
}

impl View for SocketReservation {
    type V = ReservationModel;

    closed spec fn view(&self) -> ReservationModel {
        ReservationModel {
            requested: self.requested,
            port: self.port,
            descriptor: self.descriptor,
            state: self.state,
        }
    }
}

impl SocketReservation {
    /// Takes ownership of the socket that was bound to `address`, or fails
    /// if the address was taken. The new reservation does not listen.
    pub fn reserve(address: BindAddress, outcome: BindOutcome) -> (made: Result<
        SocketReservation,
        ServerError,
    >)
        ensures
            match outcome {
                BindOutcome::Bound { descriptor, port } => made matches Ok(r) && r@ == (
                ReservationModel {
                    requested: address,
                    port,
                    descriptor,
                    state: SocketState::Reserved,
                }),
                BindOutcome::AddressInUse => made matches Err(e) && e
                    == ServerError::AddressInUse,
            },
    {
        match outcome {
            BindOutcome::Bound { descriptor, port } => Ok(
                SocketReservation {
                    requested: address,
                    port,
                    descriptor,
                    state: SocketState::Reserved,
                },
            ),
            BindOutcome::AddressInUse => Err(ServerError::AddressInUse),
        }
    }

    /// The address that was asked for.
    pub fn requested(&self) -> (address: BindAddress)
        ensures
            address == self@.requested,
    {
        self.requested
    }

    /// The address that the socket holds: where port 0 was asked for, the
    /// port that the kernel chose.
    pub fn local_address(&self) -> (address: BindAddress)
        ensures
            address == self@.local_address(),
    {
        BindAddress { host: self.requested.host, port: self.port }
    }

    /// The descriptor of the socket.
    pub fn descriptor(&self) -> (descriptor: i32)
        ensures
            descriptor == self@.descriptor,
    {
        self.descriptor
    }

    /// The state of the socket.
    pub fn state(&self) -> (state: SocketState)
        ensures
            state == self@.state,
    {
        self.state
    }

    /// Whether a connection attempt gets through the transport handshake:
    /// it does while the socket listens, and is refused before that and
    /// after a failure.
    pub fn completes_handshakes(&self) -> (through: bool)
        ensures
            through <==> self@.state == SocketState::Listening,
    {
        self.state == SocketState::Listening
    }

    /// Moves the socket from reserved to listening, in place, once the
    /// kernel has made it listen, and gives the descriptor that listens.
    /// Nothing but the state changes: the descriptor and the address stay.
    /// There is one such move in the life of a socket; a second one, or one
    /// after a failure, is a fault of the caller.
    pub fn promote(&mut self) -> (descriptor: i32)
        requires
            old(self)@.state == SocketState::Reserved,
        ensures
            final(self)@ == old(self)@.promoted(),
            descriptor == old(self)@.descriptor,
    {
        self.state = SocketState::Listening;
        self.descriptor
    }

    /// Records that the kernel refused to make the socket listen. Whatever
    /// the state was, the socket does not listen from now on; the descriptor
    /// and the address stay.
    pub fn fail(&mut self)
        ensures
            final(self)@ == old(self)@.failed(),
            final(self)@.state != SocketState::Listening,
    {
        self.state = SocketState::Failed;
    }
}

/// A readiness signal that fires once a delay has passed.
#[derive(Clone, Copy, Debug, PartialEq, Eq, Structural)]
pub struct Readiness {
    /// The instant at which the wait began.
    pub armed_at: u64,
    /// How long to wait.
    pub delay: u64,
}

impl Readiness {
    /// The time that has passed at `now`. An instant before the start
    /// counts as the start.
    pub open spec fn spec_elapsed(self, now: u64) -> int {
        if now >= self.armed_at {
            now - self.armed_at
        } else {
            0
        }
    }

    /// Whether the signal has fired at `now`.
    pub open spec fn spec_has_fired(self, now: u64) -> bool {
        self.spec_elapsed(now) >= self.delay
    }

    /// The time still to wait at `now`.
    pub open spec fn spec_remaining(self, now: u64) -> int {
        if self.spec_has_fired(now) {
            0
        } else {
            self.delay - self.spec_elapsed(now)
        }
    }

    /// A signal that fires `delay` after `now`.
    pub fn after(now: u64, delay: u64) -> (signal: Readiness)
        ensures
            signal == (Readiness { armed_at: now, delay }),
    {
        Readiness { armed_at: now, delay }
    }

    /// Whether the signal has fired at `now`.
    #[verifier::when_used_as_spec(spec_has_fired)]
    pub fn has_fired(self, now: u64) -> (fired: bool)
        ensures
            fired == self.spec_has_fired(now),
    {
        if now >= self.armed_at {
            now - self.armed_at >= self.delay
        } else {
            self.delay == 0
        }
    }

    /// The time still to wait at `now`; zero once the signal has fired.
    pub fn remaining(self, now: u64) -> (left: u64)
        ensures
            left == self.spec_remaining(now),
    {
        if now < self.armed_at {
            self.delay
        } else if now - self.armed_at >= self.delay {
            0
        } else {
            self.delay - (now - self.armed_at)
        }
    }
}

} // verus!
