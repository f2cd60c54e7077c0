//! Core of a quorum-store dissemination layer: peer-rotation retry state for
//! batch requests, wall-clock and round-indexed expiry queues, and a
//! byte-bounded batch builder.

use vstd::prelude::*;

pub mod batch_builder;
pub mod batch_requester;
pub mod round_expirations;
pub mod timeouts;
pub mod types;

verus! {

/// Identifier of a batch under assembly.
pub type BatchId = u64;

/// Content hash identifying a requested batch payload.
pub type Digest = u64;

/// Opaque identifier of a validator node.
pub type PeerId = u64;

/// Monotonically increasing consensus progress counter.
pub type Round = u64;

} // verus!
