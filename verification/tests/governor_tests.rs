use governance_core::digest::{hash_description, hash_proposal, hash_vote_payload, hash_to_vec};
use governance_core::errors::GovernanceError;
use governance_core::governor::{Governor, GovernorHooks};
use governance_core::types::{ProposalState, Signature, Transaction, VoteType};

const PROPOSER: u64 = 10;
const VOTER: u64 = 11;
const OUTSIDER: u64 = 12;
const EXECUTOR: u64 = 99;

/// An in-memory stand-in for the external collaborators: fixed weights, a
/// switchable counting verdict, double-vote storage, an execution log, and
/// a verifier that accepts a signature exactly when its bytes equal the
/// digest it is checked against.
struct TestHooks {
    weights: Vec<(u64, u128)>,
    quorum_ok: bool,
    vote_ok: bool,
    valid_description: bool,
    fail_execution: bool,
    voted: Vec<([u8; 32], u64)>,
    executed: Vec<Transaction>,
}

impl TestHooks {
    fn new() -> Self {
        TestHooks {
            weights: vec![(PROPOSER, 100), (VOTER, 40)],
            quorum_ok: false,
            vote_ok: false,
            valid_description: true,
            fail_execution: false,
            voted: Vec::new(),
            executed: Vec::new(),
        }
    }
}

impl GovernorHooks for TestHooks {
    fn get_votes(&mut self, account: u64, _timepoint: u32, _params: &Vec<u8>) -> u128 {
        self.weights.iter().find(|(a, _)| *a == account).map(|(_, w)| *w).unwrap_or(0)
    }

    fn quorum_reached(&mut self, _proposal_id: [u8; 32]) -> bool {
        self.quorum_ok
    }

    fn vote_succeeded(&mut self, _proposal_id: [u8; 32]) -> bool {
        self.vote_ok
    }

    fn count_vote(
        &mut self,
        proposal_id: [u8; 32],
        voter: u64,
        _support: VoteType,
        _weight: u128,
        _params: &Vec<u8>,
    ) -> Result<(), GovernanceError> {
        if self.voted.iter().any(|(p, v)| *p == proposal_id && *v == voter) {
            return Err(GovernanceError::ProposerRestricted(voter));
        }
        self.voted.push((proposal_id, voter));
        Ok(())
    }

    fn is_valid_description(&mut self, _proposer: u64, _description: &Vec<u8>) -> bool {
        self.valid_description
    }

    fn verify_signature(&mut self, message: &Vec<u8>, _signer: u64, signature: &Signature) -> bool {
        signature.bytes == *message
    }

    fn execute_transaction(&mut self, transaction: &Transaction) -> bool {
        if self.fail_execution {
            return false;
        }
        self.executed.push(Transaction {
            callee: transaction.callee,
            selector: transaction.selector,
            input: transaction.input.clone(),
            transferred_value: transaction.transferred_value,
            gas_limit: transaction.gas_limit,
        });
        true
    }

    fn before_execute(&mut self, _proposal_id: [u8; 32]) -> Result<(), GovernanceError> {
        Ok(())
    }

    fn after_execute(&mut self, _proposal_id: [u8; 32]) -> Result<(), GovernanceError> {
        Ok(())
    }
}

fn tx() -> Transaction {
    Transaction { callee: 55, selector: 0xdeadbeef, input: vec![1, 2, 3], transferred_value: 0, gas_limit: 1_000_000 }
}

fn batch() -> Vec<Transaction> {
    vec![tx()]
}

fn governor() -> Governor {
    Governor::new(5, 10, 50, EXECUTOR)
}

fn description() -> Vec<u8> {
    b"fund the guild".to_vec()
}

#[test]
fn proposal_lifecycle_pending_then_active() {
    let mut gov = governor();
    let mut hooks = TestHooks::new();

    hooks.weights = vec![(PROPOSER, 10)];
    assert_eq!(
        gov.propose(&mut hooks, &batch(), &description(), PROPOSER, 100),
        Err(GovernanceError::InsufficientProposerVotes(PROPOSER, 10, 50))
    );

    hooks.weights = vec![(PROPOSER, 100), (VOTER, 40)];
    let id = gov.propose(&mut hooks, &batch(), &description(), PROPOSER, 100).unwrap();
    assert_eq!(gov.state(&mut hooks, &id, 100), Ok(ProposalState::Pending));
    assert_eq!(gov.state(&mut hooks, &id, 104), Ok(ProposalState::Pending));
    assert_eq!(gov.state(&mut hooks, &id, 105), Ok(ProposalState::Active));
    assert_eq!(gov.state(&mut hooks, &id, 114), Ok(ProposalState::Active));

    let r = gov.cast_vote(&mut hooks, &id, VOTER, VoteType::For, 100);
    assert_eq!(
        r,
        Err(GovernanceError::UnexpectedProposalState(id, ProposalState::Pending, 2))
    );
    assert_eq!(gov.cast_vote(&mut hooks, &id, VOTER, VoteType::For, 106), Ok(40));
}

#[test]
fn propose_rejects_bad_batches_and_duplicates() {
    let mut gov = governor();
    let mut hooks = TestHooks::new();
    assert_eq!(
        gov.propose(&mut hooks, &Vec::new(), &description(), PROPOSER, 1),
        Err(GovernanceError::ZeroProposalLength)
    );
    hooks.valid_description = false;
    assert_eq!(
        gov.propose(&mut hooks, &batch(), &description(), PROPOSER, 1),
        Err(GovernanceError::ProposerRestricted(PROPOSER))
    );
    hooks.valid_description = true;
    let id = gov.propose(&mut hooks, &batch(), &description(), PROPOSER, 1).unwrap();
    assert_eq!(
        gov.propose(&mut hooks, &batch(), &description(), PROPOSER, 2),
        Err(GovernanceError::ProposalAlreadyExists)
    );
    let expected = hash_proposal(&batch(), &hash_description(&description()));
    assert_eq!(id, expected);
}

#[test]
fn propose_rejects_windows_past_the_clock_end() {
    let mut gov = governor();
    let mut hooks = TestHooks::new();
    assert_eq!(
        gov.propose(&mut hooks, &batch(), &description(), PROPOSER, u32::MAX - 2),
        Err(GovernanceError::DeadlineOverflow)
    );
}

#[test]
fn getters_report_the_stored_record() {
    let mut gov = governor();
    let mut hooks = TestHooks::new();
    let id = gov.propose(&mut hooks, &batch(), &description(), PROPOSER, 100).unwrap();
    assert_eq!(gov.proposal_snapshot(&id), Ok(105));
    assert_eq!(gov.proposal_deadline(&id), Ok(115));
    assert_eq!(gov.proposal_proposer(&id), Ok(PROPOSER));
    let absent = [9u8; 32];
    assert_eq!(gov.proposal_snapshot(&absent), Err(GovernanceError::ProposalNotFound));
    assert_eq!(gov.proposal_deadline(&absent), Err(GovernanceError::ProposalNotFound));
    assert_eq!(gov.proposal_proposer(&absent), Err(GovernanceError::ProposalNotFound));
    assert_eq!(gov.state(&mut hooks, &absent, 100), Err(GovernanceError::ProposalNotFound));
}

#[test]
fn execute_runs_exactly_once() {
    let mut gov = governor();
    let mut hooks = TestHooks::new();
    let id = gov.propose(&mut hooks, &batch(), &description(), PROPOSER, 100).unwrap();
    let dh = hash_description(&description());

    hooks.quorum_ok = true;
    hooks.vote_ok = true;
    let r = gov.execute(&mut hooks, &batch(), &dh, 110);
    assert_eq!(
        r,
        Err(GovernanceError::UnexpectedProposalState(id, ProposalState::Active, 48))
    );

    assert_eq!(gov.state(&mut hooks, &id, 120), Ok(ProposalState::Succeeded));
    assert_eq!(gov.execute(&mut hooks, &batch(), &dh, 120), Ok(id));
    assert_eq!(hooks.executed.len(), 1);
    assert_eq!(gov.state(&mut hooks, &id, 120), Ok(ProposalState::Executed));

    let again = gov.execute(&mut hooks, &batch(), &dh, 121);
    assert_eq!(
        again,
        Err(GovernanceError::UnexpectedProposalState(id, ProposalState::Executed, 48))
    );
    assert_eq!(hooks.executed.len(), 1);
}

#[test]
fn execute_unwinds_the_flag_when_the_payload_fails() {
    let mut gov = governor();
    let mut hooks = TestHooks::new();
    let id = gov.propose(&mut hooks, &batch(), &description(), PROPOSER, 100).unwrap();
    let dh = hash_description(&description());
    hooks.quorum_ok = true;
    hooks.vote_ok = true;
    hooks.fail_execution = true;
    let r = gov.execute(&mut hooks, &batch(), &dh, 120);
    assert_eq!(r, Err(GovernanceError::ExecutionFailed(tx())));
    assert_eq!(gov.state(&mut hooks, &id, 120), Ok(ProposalState::Succeeded));
    hooks.fail_execution = false;
    assert_eq!(gov.execute(&mut hooks, &batch(), &dh, 120), Ok(id));
    assert_eq!(hooks.executed.len(), 1);
}

#[test]
fn defeated_proposals_cannot_execute() {
    let mut gov = governor();
    let mut hooks = TestHooks::new();
    let id = gov.propose(&mut hooks, &batch(), &description(), PROPOSER, 100).unwrap();
    let dh = hash_description(&description());
    hooks.quorum_ok = true;
    hooks.vote_ok = false;
    assert_eq!(gov.state(&mut hooks, &id, 120), Ok(ProposalState::Defeated));
    let r = gov.execute(&mut hooks, &batch(), &dh, 120);
    assert!(matches!(
        r,
        Err(GovernanceError::UnexpectedProposalState(_, ProposalState::Defeated, 48))
    ));
}

#[test]
fn cancel_is_for_the_proposer_and_only_while_pending() {
    let mut gov = governor();
    let mut hooks = TestHooks::new();
    let id = gov.propose(&mut hooks, &batch(), &description(), PROPOSER, 100).unwrap();
    let dh = hash_description(&description());
    assert_eq!(
        gov.cancel(&mut hooks, &batch(), &dh, OUTSIDER, 101),
        Err(GovernanceError::OnlyProposer(OUTSIDER))
    );
    assert_eq!(gov.cancel(&mut hooks, &batch(), &dh, PROPOSER, 102), Ok(id));
    assert_eq!(gov.state(&mut hooks, &id, 102), Ok(ProposalState::Canceled));
    assert_eq!(gov.state(&mut hooks, &id, 200), Ok(ProposalState::Canceled));

    let mut gov2 = governor();
    let id2 = gov2.propose(&mut hooks, &batch(), &description(), PROPOSER, 100).unwrap();
    let r = gov2.cancel(&mut hooks, &batch(), &dh, PROPOSER, 106);
    assert_eq!(
        r,
        Err(GovernanceError::UnexpectedProposalState(id2, ProposalState::Active, 1))
    );
    assert_eq!(gov2.state(&mut hooks, &id2, 106), Ok(ProposalState::Active));
}

#[test]
fn double_votes_are_rejected_by_the_counting_storage() {
    let mut gov = governor();
    let mut hooks = TestHooks::new();
    let id = gov.propose(&mut hooks, &batch(), &description(), PROPOSER, 100).unwrap();
    assert_eq!(gov.cast_vote(&mut hooks, &id, VOTER, VoteType::For, 106), Ok(40));
    assert!(gov.cast_vote(&mut hooks, &id, VOTER, VoteType::Against, 107).is_err());
    assert_eq!(
        gov.cast_vote_with_reason(&mut hooks, &id, PROPOSER, VoteType::Abstain, &b"why".to_vec(), 107),
        Ok(100)
    );
}

#[test]
fn vote_by_signature_rejects_a_tampered_reason() {
    let mut gov = governor();
    let mut hooks = TestHooks::new();
    let id = gov.propose(&mut hooks, &batch(), &description(), PROPOSER, 100).unwrap();
    let reason = b"for the treasury".to_vec();
    let no_params: Vec<u8> = Vec::new();
    let digest = hash_vote_payload(&id, 1, &reason, &no_params);
    let signature = Signature { bytes: hash_to_vec(&digest) };

    let mut tampered = reason.clone();
    tampered[0] ^= 0xff;
    assert_eq!(
        gov.cast_vote_with_signature(&mut hooks, &id, VOTER, VoteType::For, &tampered, &signature, 106),
        Err(GovernanceError::InvalidSignature(VOTER))
    );
    assert_eq!(
        gov.cast_vote_with_signature(&mut hooks, &id, VOTER, VoteType::For, &reason, &signature, 106),
        Ok(40)
    );
}

#[test]
fn vote_by_signature_with_params_signs_the_params_too() {
    let mut gov = governor();
    let mut hooks = TestHooks::new();
    let id = gov.propose(&mut hooks, &batch(), &description(), PROPOSER, 100).unwrap();
    let reason = b"r".to_vec();
    let params = vec![4u8, 5];
    let digest = hash_vote_payload(&id, 2, &reason, &params);
    let signature = Signature { bytes: hash_to_vec(&digest) };
    let other_params = vec![4u8, 6];
    assert_eq!(
        gov.cast_vote_with_signature_and_params(
            &mut hooks, &id, VOTER, VoteType::Abstain, &reason, &other_params, &signature, 106
        ),
        Err(GovernanceError::InvalidSignature(VOTER))
    );
    assert_eq!(
        gov.cast_vote_with_signature_and_params(
            &mut hooks, &id, VOTER, VoteType::Abstain, &reason, &params, &signature, 106
        ),
        Ok(40)
    );
}

#[test]
fn relay_is_reserved_for_the_execution_identity() {
    let gov = governor();
    let mut hooks = TestHooks::new();
    assert_eq!(
        gov.relay(&mut hooks, OUTSIDER, 77, &tx()),
        Err(GovernanceError::OnlyExecutor(OUTSIDER))
    );
    assert_eq!(gov.relay(&mut hooks, EXECUTOR, 77, &tx()), Ok(()));
    assert_eq!(hooks.executed.len(), 1);
    assert_eq!(hooks.executed[0].callee, 77);
    hooks.fail_execution = true;
    assert_eq!(
        gov.relay(&mut hooks, EXECUTOR, 77, &tx()),
        Err(GovernanceError::ExecutionFailed(tx()))
    );
}

#[test]
fn proposal_ids_depend_on_batch_and_description() {
    let dh1 = hash_description(&b"one".to_vec());
    let dh2 = hash_description(&b"two".to_vec());
    assert_ne!(dh1, dh2);
    assert_eq!(dh1, hash_description(&b"one".to_vec()));
    let id1 = hash_proposal(&batch(), &dh1);
    let id2 = hash_proposal(&batch(), &dh2);
    let mut other_batch = batch();
    other_batch[0].input = vec![9];
    let id3 = hash_proposal(&other_batch, &dh1);
    assert_ne!(id1, id2);
    assert_ne!(id1, id3);
    assert_eq!(id1, hash_proposal(&batch(), &dh1));
}

#[test]
fn the_threshold_gate_decides_eligibility_exactly() {
    let gov = governor();
    assert_eq!(gov.enforce_proposal_threshold(PROPOSER, 50), Ok(()));
    assert_eq!(gov.enforce_proposal_threshold(PROPOSER, 51), Ok(()));
    assert_eq!(
        gov.enforce_proposal_threshold(PROPOSER, 49),
        Err(GovernanceError::InsufficientProposerVotes(PROPOSER, 49, 50))
    );
}

#[test]
fn redirected_keeps_the_call_and_changes_the_target() {
    let forwarded = tx().redirected(77);
    assert_eq!(forwarded.callee, 77);
    assert_eq!(forwarded.selector, tx().selector);
    assert_eq!(forwarded.input, tx().input);
    assert_eq!(forwarded.transferred_value, tx().transferred_value);
    assert_eq!(forwarded.gas_limit, tx().gas_limit);
}
