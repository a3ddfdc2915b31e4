//! The faults the governance engine reports. Every fault is returned
//! synchronously and leaves the persisted state exactly as it was.

use vstd::prelude::*;
use crate::types::{ProposalState, Transaction};
use crate::{AccountId, Balance, HashType, Timestamp};

verus! {

/// A typed fault of the governance engine.
#[derive(Debug, PartialEq, Eq)]
pub enum GovernanceError {
    /// The caller is not the engine's own execution identity.
    OnlyExecutor(AccountId),
    /// No proposal is stored under the given id.
    ProposalNotFound,
    /// A proposal must contain at least one transaction.
    ZeroProposalLength,
    /// The external eligibility predicate refused the proposer.
    ProposerRestricted(AccountId),
    /// The proposer's current weight, and the threshold it fell short of.
    InsufficientProposerVotes(AccountId, Balance, Balance),
    /// A value-equal proposal already exists.
    ProposalAlreadyExists,
    /// The voting window's end does not fit the timepoint type.
    DeadlineOverflow,
    /// The proposal, its observed state, and the bitmask of states that
    /// would have been acceptable.
    UnexpectedProposalState(HashType, ProposalState, u128),
    /// Only the original proposer may do this.
    OnlyProposer(AccountId),
    /// The verification collaborator rejected the signature for this signer.
    InvalidSignature(AccountId),
    /// The signed action's expiry lies in the past.
    ExpiredSignature(Timestamp),
    /// The supplied nonce is not the signer's next nonce.
    InvalidNonce(AccountId, u128),
    /// A transaction of the batch failed; the whole operation unwound.
    ExecutionFailed(Transaction),
    /// A historical query for a timepoint after the current time.
    FutureLookup(Timestamp, Timestamp),
}

} // verus!
