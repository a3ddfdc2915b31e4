//! Plain data carried through the governance engine.

use vstd::prelude::*;
use crate::{AccountId, Balance, HashType, Timestamp};

verus! {

/// One call of a proposal's batch: the target, the value moved with the
/// call, the selector and input bytes handed to it, and a resource bound.
/// Immutable once included in a proposal.
#[derive(Debug, PartialEq, Eq)]
pub struct Transaction {
    pub callee: AccountId,
    pub selector: u32,
    pub input: Vec<u8>,
    pub transferred_value: Balance,
    pub gas_limit: u64,
}

impl Transaction {
    /// The fields this engine reads, as mathematical values.
    pub open spec fn matches(self, other: Transaction) -> bool {
        self.callee == other.callee && self.selector == other.selector && self.input@
            == other.input@ && self.transferred_value == other.transferred_value && self.gas_limit
            == other.gas_limit
    }

    /// A field-for-field copy.
    pub fn duplicate(&self) -> (r: Transaction)
        ensures
            r.matches(*self),
    {
        let mut input: Vec<u8> = Vec::new();
        let mut i: usize = 0;
        while i < self.input.len()
            invariant
                i <= self.input@.len(),
                input@ == self.input@.take(i as int),
            decreases self.input@.len() - i,
        {
            input.push(self.input[i]);
            proof {
                assert(input@ =~= self.input@.take(i + 1));
            }
            i += 1;
        }
        proof {
            assert(input@ =~= self.input@);
        }
        Transaction {
            callee: self.callee,
            selector: self.selector,
            input,
            transferred_value: self.transferred_value,
            gas_limit: self.gas_limit,
        }
    }

    /// The same call aimed at another callee: selector, input, transferred
    /// value and gas bound are kept, only the target changes.
    pub fn redirected(&self, callee: AccountId) -> (r: Transaction)
        ensures
            r.callee == callee,
            r.selector == self.selector,
            r.input@ == self.input@,
            r.transferred_value == self.transferred_value,
            r.gas_limit == self.gas_limit,
    {
        let mut r = self.duplicate();
        r.callee = callee;
        r
    }
}

/// The direction of a cast vote.
#[derive(Clone, Copy, Debug, PartialEq, Eq, Structural)]
pub enum VoteType {
    Against,
    For,
    Abstain,
}

impl VoteType {
    /// The one-byte image of the vote direction in signed messages.
    pub fn as_byte(&self) -> (b: u8)
        ensures
            b == vote_type_byte(*self),
    {
        match self {
            VoteType::Against => 0,
            VoteType::For => 1,
            VoteType::Abstain => 2,
        }
    }
}

/// The one-byte image of the vote direction in signed messages.
pub open spec fn vote_type_byte(v: VoteType) -> u8 {
    match v {
        VoteType::Against => 0,
        VoteType::For => 1,
        VoteType::Abstain => 2,
    }
}

/// A proposal's lifecycle status, derived rather than stored.
#[derive(Clone, Copy, Debug, PartialEq, Eq, Structural)]
pub enum ProposalState {
    Pending,
    Active,
    Canceled,
    Defeated,
    Succeeded,
    Queued,
    Expired,
    Executed,
}

/// One bit per lifecycle status, for error reports that carry a set of
/// acceptable states.
pub open spec fn state_bitmask(s: ProposalState) -> u128 {
    match s {
        ProposalState::Pending => 1,
        ProposalState::Active => 2,
        ProposalState::Canceled => 4,
        ProposalState::Defeated => 8,
        ProposalState::Succeeded => 16,
        ProposalState::Queued => 32,
        ProposalState::Expired => 64,
        ProposalState::Executed => 128,
    }
}

impl ProposalState {
    /// The bit standing for this status in an acceptable-state set.
    pub fn bitmask(&self) -> (r: u128)
        ensures
            r == state_bitmask(*self),
    {
        match self {
            ProposalState::Pending => 1,
            ProposalState::Active => 2,
            ProposalState::Canceled => 4,
            ProposalState::Defeated => 8,
            ProposalState::Succeeded => 16,
            ProposalState::Queued => 32,
            ProposalState::Expired => 64,
            ProposalState::Executed => 128,
        }
    }
}

/// Whether a proposal's payload has run.
#[derive(Clone, Copy, Debug, PartialEq, Eq, Structural)]
pub enum ExecutionStatus {
    NotExecuted,
    Executed,
}

/// Whether a proposal has been withdrawn by its proposer.
#[derive(Clone, Copy, Debug, PartialEq, Eq, Structural)]
pub enum CancelationStatus {
    NotCanceled,
    Canceled,
}

/// The stored record of a proposal. The two flags are the only fields ever
/// mutated after creation.
#[derive(Clone, Copy, Debug, PartialEq, Eq, Structural)]
pub struct ProposalCore {
    pub proposer: AccountId,
    pub vote_start: Timestamp,
    pub vote_duration: Timestamp,
    pub executed: ExecutionStatus,
    pub canceled: CancelationStatus,
}

/// An off-chain signature, opaque to this core: the cryptographic
/// verification collaborator decides what it proves.
#[derive(Debug, PartialEq, Eq)]
pub struct Signature {
    pub bytes: Vec<u8>,
}

/// The cryptographic verification collaborator: decides whether `signature`
/// proves that `signer` committed to `message`. This core states nothing
/// about its answers; it only recomputes `message` itself.
pub trait SignatureVerifier {
    /// Whether `signature` is `signer`'s signature over `message`.
    fn verify(&self, message: &Vec<u8>, signer: AccountId, signature: &Signature) -> bool;
}

} // verus!
