//! A verified core for an on-chain governance engine: a checkpointed ledger
//! for historical voting power, a delegation mechanism that conserves weight,
//! and a proposal state machine with exactly-once execution and replay-safe
//! signature-based participation.

pub mod checkpoint;
pub mod digest;
pub mod errors;
pub mod governor;
pub mod table;
pub mod types;
pub mod votes;

use vstd::prelude::*;

verus! {

/// A timepoint on the host's monotonic clock.
pub type Timestamp = u32;

/// An account, modelled as a plain machine word.
pub type AccountId = u64;

/// A token magnitude.
pub type Balance = u128;

/// A 32-byte digest, used both for description hashes and proposal ids.
pub type HashType = [u8; 32];

} // verus!
