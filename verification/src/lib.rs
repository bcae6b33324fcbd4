//! Plural-identity relay core: a verified model of the identity store, the
//! token-resolution cache, the per-user update coordinator, and the
//! membership-rewriting proxy pipeline, together with the chat-command parser.
//!
//! Network and database plumbing lives outside this crate; every function
//! here is executable logic with a proved contract.

pub mod assoc;
pub mod bot;
pub mod config;
pub mod coordinator;
pub mod daemon;
pub mod ids;
pub mod member_event;
pub mod parser;
pub mod proxy;
pub mod resolver;
pub mod store;
pub mod strutil;
pub mod synapse;

use vstd::prelude::*;

verus! {

/// Error kinds surfaced by store operations.
#[derive(Debug, Clone, PartialEq, Eq, Structural)]
pub enum StoreError {
    /// The requested row does not exist.
    NotFound,
    /// An insert collided with an existing key (member name already in use).
    UniqueViolation,
    /// The backing database failed; never produced by the in-memory model,
    /// reserved for the database adapter.
    Backend,
}

} // verus!
