//! The errors of the listener and what each of them costs.
use vstd::prelude::*;

verus! {

/// Everything that can go wrong in the core.
#[derive(Clone, Copy, Debug, PartialEq, Eq, Structural)]
pub enum ServerError {
    /// Another socket already holds the address that was to be reserved.
    AddressInUse,
    /// The reserved socket could not be turned into a listening socket.
    ListenTransitionFailure,
    /// A permit pool was configured with a capacity of zero or less.
    PermitPoolMisconfigured,
    /// One connection failed; it is dropped and its permits are returned.
    ConnectionError,
    /// The request pool is draining; the request is answered as busy.
    RequestAdmissionUnavailable,
    /// The handler failed; the failure becomes an error response.
    HandlerError,
}

/// How far the damage of an error reaches.
#[derive(Clone, Copy, Debug, PartialEq, Eq, Structural)]
pub enum Reach {
    /// The process cannot start serving.
    Startup,
    /// One connection is lost; the others go on.
    Connection,
    /// One request is lost; its connection goes on.
    Request,
}

/// What the driver does about an error.
#[derive(Clone, Copy, Debug, PartialEq, Eq, Structural)]
pub enum Disposition {
    /// Stop the process: there is no retry for a failed start.
    AbortProcess,
    /// Drop the one connection and return its permits.
    DropConnection,
    /// Answer the request with a service-busy response.
    RespondBusy,
    /// Answer the request with an error response.
    RespondError,
}

impl ServerError {
    /// The reach of this error.
    pub open spec fn spec_reach(self) -> Reach {
        match self {
            ServerError::AddressInUse => Reach::Startup,
            ServerError::ListenTransitionFailure => Reach::Startup,
            ServerError::PermitPoolMisconfigured => Reach::Startup,
            ServerError::ConnectionError => Reach::Connection,
            ServerError::RequestAdmissionUnavailable => Reach::Request,
            ServerError::HandlerError => Reach::Request,
        }
    }

    /// A fatal error is one that stops the process.
    pub open spec fn spec_is_fatal(self) -> bool {
        self.spec_reach() == Reach::Startup
    }

    /// The policy: what the driver does about this error.
    pub open spec fn spec_disposition(self) -> Disposition {
        match self {
            ServerError::AddressInUse => Disposition::AbortProcess,
            ServerError::ListenTransitionFailure => Disposition::AbortProcess,
            ServerError::PermitPoolMisconfigured => Disposition::AbortProcess,
            ServerError::ConnectionError => Disposition::DropConnection,
            ServerError::RequestAdmissionUnavailable => Disposition::RespondBusy,
            ServerError::HandlerError => Disposition::RespondError,
        }
    }

    /// How far the damage of this error reaches.
    #[verifier::when_used_as_spec(spec_reach)]
    pub fn reach(self) -> (r: Reach)
        ensures
            r == self.spec_reach(),
    {
        match self {
            ServerError::AddressInUse => Reach::Startup,
            ServerError::ListenTransitionFailure => Reach::Startup,
            ServerError::PermitPoolMisconfigured => Reach::Startup,
            ServerError::ConnectionError => Reach::Connection,
            ServerError::RequestAdmissionUnavailable => Reach::Request,
            ServerError::HandlerError => Reach::Request,
        }
    }

    /// Whether this error stops the process.
    #[verifier::when_used_as_spec(spec_is_fatal)]
    pub fn is_fatal(self) -> (fatal: bool)
        ensures
            fatal == self.spec_is_fatal(),
            fatal <==> (self == ServerError::AddressInUse || self
                == ServerError::ListenTransitionFailure || self
                == ServerError::PermitPoolMisconfigured),
    {
        match self {
            ServerError::AddressInUse => true,
            ServerError::ListenTransitionFailure => true,
            ServerError::PermitPoolMisconfigured => true,
            _ => false,
        }
    }

    /// What the driver does about this error.
    #[verifier::when_used_as_spec(spec_disposition)]
    pub fn disposition(self) -> (d: Disposition)
        ensures
            d == self.spec_disposition(),
    {
        match self {
            ServerError::AddressInUse => Disposition::AbortProcess,
            ServerError::ListenTransitionFailure => Disposition::AbortProcess,
            ServerError::PermitPoolMisconfigured => Disposition::AbortProcess,
            ServerError::ConnectionError => Disposition::DropConnection,
            ServerError::RequestAdmissionUnavailable => Disposition::RespondBusy,
            ServerError::HandlerError => Disposition::RespondError,
        }
    }
}

/// Only a failed start stops the process: an error that belongs to one
/// connection or one request never does.
pub proof fn law_only_startup_errors_abort(e: ServerError)
    ensures
        e.spec_disposition() == Disposition::AbortProcess <==> e.spec_is_fatal(),
        e.spec_reach() != Reach::Startup ==> e.spec_disposition() != Disposition::AbortProcess,
{
}

} // verus!
