use governance_core::errors::GovernanceError;
use governance_core::types::{Signature, SignatureVerifier};
use governance_core::votes::VotesLedger;

struct AcceptAll;

impl SignatureVerifier for AcceptAll {
    fn verify(&self, _message: &Vec<u8>, _signer: u64, _signature: &Signature) -> bool {
        true
    }
}

struct RejectAll;

impl SignatureVerifier for RejectAll {
    fn verify(&self, _message: &Vec<u8>, _signer: u64, _signature: &Signature) -> bool {
        false
    }
}

const ALICE: u64 = 1;
const BOB: u64 = 2;
const CAROL: u64 = 3;

fn sig() -> Signature {
    Signature { bytes: vec![7u8; 65] }
}

#[test]
fn minting_credits_the_holder_and_the_total() {
    let mut ledger = VotesLedger::new();
    ledger.transfer_voting_units(None, Some(ALICE), 100, 1);
    assert_eq!(ledger.voting_units(ALICE), 100);
    assert_eq!(ledger.get_votes(ALICE), 100);
    assert_eq!(ledger.get_past_total_supply(1, 5), Ok(100));
    assert_eq!(ledger.get_past_total_supply(0, 5), Ok(0));
}

#[test]
fn burning_debits_the_holder_and_the_total() {
    let mut ledger = VotesLedger::new();
    ledger.transfer_voting_units(None, Some(ALICE), 100, 1);
    ledger.transfer_voting_units(Some(ALICE), None, 30, 2);
    assert_eq!(ledger.voting_units(ALICE), 70);
    assert_eq!(ledger.get_votes(ALICE), 70);
    assert_eq!(ledger.get_past_total_supply(2, 5), Ok(70));
    assert_eq!(ledger.get_past_total_supply(1, 5), Ok(100));
}

#[test]
fn transfers_move_weight_between_delegates() {
    let mut ledger = VotesLedger::new();
    ledger.transfer_voting_units(None, Some(ALICE), 100, 1);
    ledger.transfer_voting_units(Some(ALICE), Some(BOB), 40, 2);
    assert_eq!(ledger.voting_units(ALICE), 60);
    assert_eq!(ledger.voting_units(BOB), 40);
    assert_eq!(ledger.get_votes(ALICE), 60);
    assert_eq!(ledger.get_votes(BOB), 40);
    assert_eq!(ledger.get_past_total_supply(2, 9), Ok(100));
}

#[test]
fn delegation_repoints_weight_without_moving_units() {
    let mut ledger = VotesLedger::new();
    ledger.transfer_voting_units(None, Some(ALICE), 100, 1);
    assert_eq!(ledger.delegates(ALICE), ALICE);
    ledger.delegate(ALICE, BOB, 2).unwrap();
    assert_eq!(ledger.delegates(ALICE), BOB);
    assert_eq!(ledger.voting_units(ALICE), 100);
    assert_eq!(ledger.get_votes(ALICE), 0);
    assert_eq!(ledger.get_votes(BOB), 100);
    assert_eq!(ledger.get_past_votes(ALICE, 1, 9), Ok(100));
    assert_eq!(ledger.get_past_votes(BOB, 1, 9), Ok(0));
    assert_eq!(ledger.get_past_votes(BOB, 2, 9), Ok(100));
    ledger.delegate(ALICE, ALICE, 3).unwrap();
    assert_eq!(ledger.get_votes(ALICE), 100);
    assert_eq!(ledger.get_votes(BOB), 0);
}

#[test]
fn past_lookups_reject_future_timepoints() {
    let ledger = VotesLedger::new();
    assert_eq!(ledger.get_past_votes(ALICE, 6, 5), Err(GovernanceError::FutureLookup(6, 5)));
    assert_eq!(ledger.get_past_total_supply(6, 5), Err(GovernanceError::FutureLookup(6, 5)));
}

#[test]
fn delegation_conserves_weight_at_every_sampled_timepoint() {
    let mut ledger = VotesLedger::new();
    let accounts = [ALICE, BOB, CAROL];
    ledger.transfer_voting_units(None, Some(ALICE), 100, 1);
    ledger.transfer_voting_units(None, Some(BOB), 50, 2);
    ledger.delegate(ALICE, BOB, 3).unwrap();
    ledger.transfer_voting_units(Some(ALICE), Some(CAROL), 25, 4);
    ledger.delegate(CAROL, ALICE, 5).unwrap();
    ledger.transfer_voting_units(Some(BOB), None, 10, 6);
    ledger.delegate(BOB, BOB, 7).unwrap();
    for t in 0..=8u32 {
        let total = ledger.get_past_total_supply(t, 8).unwrap();
        let sum: u128 = accounts.iter().map(|a| ledger.get_past_votes(*a, t, 8).unwrap()).sum();
        assert_eq!(sum, total, "conservation broken at timepoint {t}");
    }
}

#[test]
fn delegate_by_signature_consumes_the_nonce() {
    let mut ledger = VotesLedger::new();
    ledger.transfer_voting_units(None, Some(ALICE), 100, 1);
    assert_eq!(ledger.nonces(ALICE), 0);
    ledger.delegate_by_signature(&AcceptAll, ALICE, BOB, 0, 10, &sig(), 2).unwrap();
    assert_eq!(ledger.nonces(ALICE), 1);
    assert_eq!(ledger.delegates(ALICE), BOB);
    assert_eq!(ledger.get_votes(BOB), 100);
}

#[test]
fn reused_nonce_faults_even_with_a_valid_signature() {
    let mut ledger = VotesLedger::new();
    ledger.transfer_voting_units(None, Some(ALICE), 100, 1);
    ledger.delegate_by_signature(&AcceptAll, ALICE, BOB, 0, 10, &sig(), 2).unwrap();
    assert_eq!(
        ledger.delegate_by_signature(&AcceptAll, ALICE, CAROL, 0, 10, &sig(), 3),
        Err(GovernanceError::InvalidNonce(ALICE, 0))
    );
    assert_eq!(ledger.delegates(ALICE), BOB);
    assert_eq!(
        ledger.delegate_by_signature(&AcceptAll, ALICE, CAROL, 0, 10, &sig(), 4),
        Err(GovernanceError::InvalidNonce(ALICE, 0))
    );
}

#[test]
fn expired_and_rejected_signatures_fault_without_consuming() {
    let mut ledger = VotesLedger::new();
    ledger.transfer_voting_units(None, Some(ALICE), 100, 1);
    assert_eq!(
        ledger.delegate_by_signature(&AcceptAll, ALICE, BOB, 0, 4, &sig(), 5),
        Err(GovernanceError::ExpiredSignature(4))
    );
    assert_eq!(
        ledger.delegate_by_signature(&RejectAll, ALICE, BOB, 0, 10, &sig(), 5),
        Err(GovernanceError::InvalidSignature(ALICE))
    );
    assert_eq!(ledger.nonces(ALICE), 0);
    assert_eq!(ledger.delegates(ALICE), ALICE);
}
