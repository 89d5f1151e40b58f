use gated_listener::config::{
    ServerConfig, DEFAULT_BACKLOG, DEFAULT_MAX_CONNECTIONS, DEFAULT_MAX_REQUESTS,
    DEFAULT_READINESS_DELAY, LOOPBACK_V4,
};
use gated_listener::error::{Disposition, Reach, ServerError};
use gated_listener::permit::PermitScope;
use gated_listener::socket::{
    BindAddress, BindOutcome, Host, Readiness, SocketReservation, SocketState,
};

const ALL: [ServerError; 6] = [
    ServerError::AddressInUse,
    ServerError::ListenTransitionFailure,
    ServerError::PermitPoolMisconfigured,
    ServerError::ConnectionError,
    ServerError::RequestAdmissionUnavailable,
    ServerError::HandlerError,
];

#[test]
fn startup_errors_are_fatal_and_the_others_are_not() {
    assert!(ServerError::AddressInUse.is_fatal());
    assert!(ServerError::ListenTransitionFailure.is_fatal());
    assert!(ServerError::PermitPoolMisconfigured.is_fatal());
    assert!(!ServerError::ConnectionError.is_fatal());
    assert!(!ServerError::RequestAdmissionUnavailable.is_fatal());
    assert!(!ServerError::HandlerError.is_fatal());
}

#[test]
fn every_error_has_its_reach_and_its_disposition() {
    assert_eq!(ServerError::AddressInUse.reach(), Reach::Startup);
    assert_eq!(ServerError::ListenTransitionFailure.reach(), Reach::Startup);
    assert_eq!(ServerError::PermitPoolMisconfigured.reach(), Reach::Startup);
    assert_eq!(ServerError::ConnectionError.reach(), Reach::Connection);
    assert_eq!(ServerError::RequestAdmissionUnavailable.reach(), Reach::Request);
    assert_eq!(ServerError::HandlerError.reach(), Reach::Request);
    assert_eq!(ServerError::AddressInUse.disposition(), Disposition::AbortProcess);
    assert_eq!(ServerError::ListenTransitionFailure.disposition(), Disposition::AbortProcess);
    assert_eq!(ServerError::PermitPoolMisconfigured.disposition(), Disposition::AbortProcess);
    assert_eq!(ServerError::ConnectionError.disposition(), Disposition::DropConnection);
    assert_eq!(ServerError::RequestAdmissionUnavailable.disposition(), Disposition::RespondBusy);
    assert_eq!(ServerError::HandlerError.disposition(), Disposition::RespondError);
}

#[test]
fn only_startup_errors_abort_the_process() {
    for e in ALL {
        assert_eq!(e.disposition() == Disposition::AbortProcess, e.is_fatal());
        assert_eq!(e.reach() == Reach::Startup, e.is_fatal());
    }
}

#[test]
fn the_default_configuration_is_the_documented_one() {
    let c = ServerConfig::default();
    assert_eq!(c.address, BindAddress { host: Host::V4(0x7F00_0001), port: 0 });
    assert_eq!(c.backlog, 128);
    assert_eq!(c.readiness_delay, 2000);
    assert_eq!(c.max_connections, 128);
    assert_eq!(c.max_requests, 64);
    assert_eq!(c.request_scope, PermitScope::Global);
    assert_eq!(LOOPBACK_V4, 0x7F00_0001);
    assert_eq!(DEFAULT_BACKLOG, 128);
    assert_eq!(DEFAULT_READINESS_DELAY, 2000);
    assert_eq!(DEFAULT_MAX_CONNECTIONS, 128);
    assert_eq!(DEFAULT_MAX_REQUESTS, 64);
    assert_eq!(c.validate(), Ok(()));
}

#[test]
fn validate_rejects_zero_and_negative_capacities() {
    let good = ServerConfig::default();
    assert_eq!(
        ServerConfig { max_connections: 0, ..good }.validate(),
        Err(ServerError::PermitPoolMisconfigured)
    );
    assert_eq!(
        ServerConfig { max_requests: 0, ..good }.validate(),
        Err(ServerError::PermitPoolMisconfigured)
    );
    assert_eq!(
        ServerConfig { max_connections: -1, ..good }.validate(),
        Err(ServerError::PermitPoolMisconfigured)
    );
    assert_eq!(
        ServerConfig { max_requests: i64::MIN, ..good }.validate(),
        Err(ServerError::PermitPoolMisconfigured)
    );
    assert_eq!(ServerConfig { max_connections: 1, max_requests: 1, ..good }.validate(), Ok(()));
    assert_eq!(
        ServerConfig { max_connections: i64::MAX, max_requests: i64::MAX, ..good }.validate(),
        Ok(())
    );
}

#[test]
fn reserve_takes_the_bound_socket_and_does_not_listen() {
    let asked = BindAddress { host: Host::V6(1), port: 0 };
    let r = SocketReservation::reserve(asked, BindOutcome::Bound { descriptor: 11, port: 51000 })
        .unwrap();
    assert_eq!(r.state(), SocketState::Reserved);
    assert!(!r.completes_handshakes());
    assert_eq!(r.descriptor(), 11);
    assert_eq!(r.requested(), asked);
    // Port 0 was asked for: the port that the kernel chose can be found.
    assert_eq!(r.local_address(), BindAddress { host: Host::V6(1), port: 51000 });
}

#[test]
fn reserve_fails_when_the_address_is_taken() {
    let asked = BindAddress { host: Host::V4(0), port: 8080 };
    assert!(matches!(
        SocketReservation::reserve(asked, BindOutcome::AddressInUse),
        Err(ServerError::AddressInUse)
    ));
}

#[test]
fn promote_changes_the_state_and_nothing_else() {
    let asked = BindAddress { host: Host::V4(0x0A00_0001), port: 8080 };
    let mut r =
        SocketReservation::reserve(asked, BindOutcome::Bound { descriptor: 3, port: 8080 }).unwrap();
    let descriptor = r.promote();
    assert_eq!(descriptor, 3);
    assert_eq!(r.descriptor(), 3);
    assert_eq!(r.state(), SocketState::Listening);
    assert!(r.completes_handshakes());
    assert_eq!(r.requested(), asked);
    assert_eq!(r.local_address(), asked);
}

#[test]
fn fail_ends_the_use_of_the_socket_and_keeps_what_it_holds() {
    let asked = BindAddress { host: Host::V4(0x0A00_0001), port: 0 };
    let mut reserved =
        SocketReservation::reserve(asked, BindOutcome::Bound { descriptor: 3, port: 9000 }).unwrap();
    reserved.fail();
    assert_eq!(reserved.state(), SocketState::Failed);
    assert!(!reserved.completes_handshakes());
    assert_eq!(reserved.descriptor(), 3);
    assert_eq!(reserved.local_address().port, 9000);
    let mut listening =
        SocketReservation::reserve(asked, BindOutcome::Bound { descriptor: 4, port: 9001 }).unwrap();
    listening.promote();
    listening.fail();
    assert_eq!(listening.state(), SocketState::Failed);
    assert!(!listening.completes_handshakes());
    listening.fail();
    assert_eq!(listening.state(), SocketState::Failed);
}

#[test]
fn readiness_counts_from_the_moment_it_was_armed() {
    let signal = Readiness::after(10, 5);
    assert_eq!(signal, Readiness { armed_at: 10, delay: 5 });
    assert!(!signal.has_fired(0));
    assert!(!signal.has_fired(10));
    assert!(!signal.has_fired(14));
    assert!(signal.has_fired(15));
    assert!(signal.has_fired(u64::MAX));
    assert_eq!(signal.remaining(0), 5);
    assert_eq!(signal.remaining(10), 5);
    assert_eq!(signal.remaining(12), 3);
    assert_eq!(signal.remaining(15), 0);
    assert_eq!(signal.remaining(u64::MAX), 0);
}

#[test]
fn readiness_without_delay_has_always_fired() {
    let signal = Readiness::after(100, 0);
    assert!(signal.has_fired(100));
    assert!(signal.has_fired(3));
    assert_eq!(signal.remaining(3), 0);
}

#[test]
fn readiness_with_the_longest_delay_does_not_overflow() {
    let signal = Readiness::after(u64::MAX, u64::MAX);
    assert!(!signal.has_fired(u64::MAX));
    assert_eq!(signal.remaining(u64::MAX), u64::MAX);
    let late = Readiness::after(1, u64::MAX);
    assert!(!late.has_fired(u64::MAX));
    assert_eq!(late.remaining(u64::MAX), 1);
}
