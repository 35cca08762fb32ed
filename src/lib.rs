//! A readiness-driven connection core: an interest table for a readiness
//! facility, the per-connection request state machine, the dispatch of ready
//! events to connections, and the reactor that hands event ids to consumers.
use vstd::prelude::*;

pub mod connection;
pub mod framing;
pub mod interest;
pub mod reactor;
pub mod registry;
pub mod server;

pub use interest::{Interest, ReadyEvent, Readiness};

verus! {

/// Identifier chosen by the caller at registration time and carried back,
/// unchanged, by every ready event of that registration.
pub type EventId = u64;

} // verus!
