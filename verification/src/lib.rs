//! Event subscription and delivery for a live blockchain index.
//!
//! The crate covers the wire-level schema and line codec for index events,
//! the decision logic of the delivery listener's read loop, the subscription
//! registry, and the control-plane gateway that manages subscription
//! lifecycle. Network and process plumbing live outside the library.

use vstd::prelude::*;

pub mod codec;
pub mod gateway;
pub mod listener;
pub mod registry;
pub mod schema;

verus! {

/// The kinds of index-derived occurrences a subscriber can ask for.
#[derive(Clone, Copy, Debug, PartialEq, Eq, Structural)]
pub enum EventKind {
    NewBlock,
    NewTransaction,
    RuneTransfer,
    InscriptionRevealed,
}

} // verus!
