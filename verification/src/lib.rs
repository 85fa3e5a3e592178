//! A decentralized uptime registry: two collections of peers (members, whose
//! liveness is monitored, and checkers, who attest liveness) with
//! ownership-gated upsert/remove, and a vote ledger through which checkers
//! collectively evict a checker once more than two thirds of the current
//! checker population attest, within a bounded epoch window, that it is
//! offline.
//!
//! The host environment (caller identity, logical clock, persistent root)
//! is passed in explicitly: every operation takes the authenticated caller
//! and the current epoch as arguments and works on an in-memory state that
//! the host loads and stores around the call.
use vstd::prelude::*;

pub mod actor;
pub mod assoc;
pub mod codec;
pub mod error;
pub mod laws;
pub mod map_state;
pub mod traits;
pub mod types;

verus! {

/// The libp2p peer id representation.
pub type PeerID = String;

/// The libp2p multi address of a liveness-check endpoint.
pub type MultiAddr = String;

/// The host's authenticated account identifier of a caller.
pub type ActorID = u64;

/// The host's logical clock value.
pub type ChainEpoch = u64;

} // verus!
