//! What is configured, with the values that hold where nothing is.
use crate::error::ServerError;
use crate::permit::PermitScope;
use crate::socket::{BindAddress, Host};
use vstd::prelude::*;

verus! {

/// The loopback address 127.0.0.1.
pub const LOOPBACK_V4: u32 = 0x7F00_0001;

/// How many connections the kernel queues for a listening socket.
pub const DEFAULT_BACKLOG: i32 = 128;

/// How long, in milliseconds, the address stays reserved before the socket
/// listens.
pub const DEFAULT_READINESS_DELAY: u64 = 2000;

/// How many connections are served at once.
pub const DEFAULT_MAX_CONNECTIONS: i64 = 128;

/// How many requests are inside the handler at once.
pub const DEFAULT_MAX_REQUESTS: i64 = 64;

/// The configuration of a server.
#[derive(Clone, Copy, Debug, PartialEq, Eq, Structural)]
pub struct ServerConfig {
    /// The address to reserve. Port 0 asks for a free port.
    pub address: BindAddress,
    /// The length of the kernel's queue of connections that wait to be
    /// accepted.
    pub backlog: i32,
    /// The time between the reservation and the moment the socket listens.
    pub readiness_delay: u64,
    /// The capacity of the pool of connection permits.
    pub max_connections: i64,
    /// The capacity of the pool of request permits.
    pub max_requests: i64,
    /// Whether `max_requests` bounds the requests of all connections
    /// together or those of each connection.
    pub request_scope: PermitScope,
}

impl ServerConfig {
    /// The configuration that holds where nothing is configured: the
    /// loopback address with a port chosen by the kernel, a backlog of 128,
    /// two seconds until the socket listens, 128 connections, and 64
    /// requests over all connections together.
    pub open spec fn spec_default() -> ServerConfig {
        ServerConfig {
            address: BindAddress { host: Host::V4(LOOPBACK_V4), port: 0 },
            backlog: DEFAULT_BACKLOG,
            readiness_delay: DEFAULT_READINESS_DELAY,
            max_connections: DEFAULT_MAX_CONNECTIONS,
            max_requests: DEFAULT_MAX_REQUESTS,
            request_scope: PermitScope::Global,
        }
    }

    /// A configuration is valid if each pool has at least one permit. A pool
    /// without permits would suspend its first caller for ever.
    pub open spec fn spec_is_valid(self) -> bool {
        self.max_connections > 0 && self.max_requests > 0
    }

    /// Checks the configuration, before anything is reserved.
    pub fn validate(&self) -> (checked: Result<(), ServerError>)
        ensures
            self.spec_is_valid() ==> checked is Ok,
            !self.spec_is_valid() ==> checked == Err::<(), ServerError>(
                ServerError::PermitPoolMisconfigured,
            ),
    {
        if self.max_connections > 0 && self.max_requests > 0 {
            Ok(())
        } else {
            Err(ServerError::PermitPoolMisconfigured)
        }
    }
}

impl Default for ServerConfig {
    fn default() -> (config: ServerConfig)
        ensures
            config == ServerConfig::spec_default(),
            config.spec_is_valid(),
    {
        ServerConfig {
            address: BindAddress { host: Host::V4(LOOPBACK_V4), port: 0 },
            backlog: DEFAULT_BACKLOG,
            readiness_delay: DEFAULT_READINESS_DELAY,
            max_connections: DEFAULT_MAX_CONNECTIONS,
            max_requests: DEFAULT_MAX_REQUESTS,
            request_scope: PermitScope::Global,
        }
    }
}

} // verus!
