//! An admission-controlled listener, as a deterministic core.
//!
//! The crate decides; it performs no I/O. A driver owns the sockets, the
//! timers and the tasks, reports what happened as [`server::Event`]s and
//! carries out the [`server::Action`]s it gets back.
//!
//! * [`socket`]: an address held by a bound socket that is promoted, in
//!   place and once, to a listening socket when a readiness signal fires.
//! * [`permit`]: a bounded pool of permits with a first-come-first-served
//!   queue of waiters.
//! * [`server`]: the accept loop gated by a pool of connection permits and
//!   the dispatch of requests gated by a pool of request permits.
//! * [`config`] and [`error`]: what is configured, and what can go wrong.
pub mod config;
pub mod error;
pub mod permit;
pub mod server;
pub mod socket;
