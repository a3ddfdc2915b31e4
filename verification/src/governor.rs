//! The proposal registry and state machine: propose, vote, execute or
//! cancel, with lifecycle status derived from immutable time windows,
//! counted votes, and the executed/canceled flags.

use vstd::prelude::*;
use crate::digest::{description_digest, hash_description, hash_to_vec, hash_vote_payload,
    proposal_digest};
use crate::errors::GovernanceError;
use crate::types::{state_bitmask, CancelationStatus, ExecutionStatus, ProposalCore, ProposalState, Signature,
    Transaction, VoteType};
use crate::{AccountId, Balance, HashType, Timestamp};

verus! {

/// The collaborators the state machine consults but does not define: the
/// counting policy, the weighting source, proposer eligibility, signature
/// verification, execution of the payload, and the hooks run around it.
/// This core states nothing about their answers; it only fixes what it
/// hands them and what it does with every possible reply.
pub trait GovernorHooks {
    /// The voting weight of `account` at `timepoint` under the external
    /// weighting rule: a plain magnitude, zero for an unknown account.
    fn get_votes(&mut self, account: AccountId, timepoint: Timestamp, params: &Vec<u8>) -> Balance;

    /// Whether the proposal's participation reached the quorum.
    fn quorum_reached(&mut self, proposal_id: HashType) -> bool;

    /// Whether the proposal's vote passed.
    fn vote_succeeded(&mut self, proposal_id: HashType) -> bool;

    /// Records one vote; the policy's storage rejects a voter who already
    /// voted on this proposal.
    fn count_vote(
        &mut self,
        proposal_id: HashType,
        voter: AccountId,
        support: VoteType,
        weight: Balance,
        params: &Vec<u8>,
    ) -> Result<(), GovernanceError>;

    /// Whether `description` is one `proposer` may propose.
    fn is_valid_description(&mut self, proposer: AccountId, description: &Vec<u8>) -> bool;

    /// Whether `signature` is `signer`'s signature over `message`.
    fn verify_signature(
        &mut self,
        message: &Vec<u8>,
        signer: AccountId,
        signature: &Signature,
    ) -> bool;

    /// Runs one transaction of an executing proposal; `false` reports
    /// failure of the sub-call.
    fn execute_transaction(&mut self, transaction: &Transaction) -> bool;

    /// Runs before an execution's payload.
    fn before_execute(&mut self, proposal_id: HashType) -> Result<(), GovernanceError>;

    /// Runs after an execution's payload.
    fn after_execute(&mut self, proposal_id: HashType) -> Result<(), GovernanceError>;
}

/// No two stored proposals share an id.
pub open spec fn pkeys_unique(s: Seq<(HashType, ProposalCore)>) -> bool {
    forall|i: int, j: int| 0 <= i < j < s.len() ==> s[i].0@ != s[j].0@
}

/// First-match lookup of a proposal by the bytes of its id.
pub open spec fn plookup(s: Seq<(HashType, ProposalCore)>, k: Seq<u8>) -> Option<ProposalCore>
    decreases s.len(),
{
    if s.len() == 0 {
        None
    } else if s.first().0@ == k {
        Some(s.first().1)
    } else {
        plookup(s.drop_first(), k)
    }
}

/// The first occurrence of an id is what lookup answers with.
proof fn lemma_plookup_at(s: Seq<(HashType, ProposalCore)>, i: int)
    requires
        0 <= i < s.len(),
        forall|j: int| 0 <= j < i ==> s[j].0@ != s[i].0@,
    ensures
        plookup(s, s[i].0@) == Some(s[i].1),
    decreases s.len(),
{
    if i > 0 {
        lemma_plookup_at(s.drop_first(), i - 1);
    }
}

/// An id that occurs nowhere looks up to nothing.
proof fn lemma_plookup_absent(s: Seq<(HashType, ProposalCore)>, k: Seq<u8>)
    requires
        forall|i: int| 0 <= i < s.len() ==> s[i].0@ != k,
    ensures
        plookup(s, k) == None::<ProposalCore>,
    decreases s.len(),
{
    if s.len() > 0 {
        lemma_plookup_absent(s.drop_first(), k);
    }
}

/// Replacing the record at position `i`, keeping its id, changes the
/// lookup of that id alone.
proof fn lemma_plookup_update(
    s: Seq<(HashType, ProposalCore)>,
    i: int,
    e: (HashType, ProposalCore),
    k: Seq<u8>,
)
    requires
        pkeys_unique(s),
        0 <= i < s.len(),
        e.0@ == s[i].0@,
    ensures
        plookup(s.update(i, e), k) == (if k == s[i].0@ {
            Some(e.1)
        } else {
            plookup(s, k)
        }),
    decreases s.len(),
{
    let t = s.update(i, e);
    if i == 0 {
        if k == s[0].0@ {
        } else {
            assert(t.drop_first() =~= s.drop_first());
        }
    } else {
        assert(t.drop_first() =~= s.drop_first().update(i - 1, e));
        assert(s.drop_first()[i - 1] == s[i]);
        lemma_plookup_update(s.drop_first(), i - 1, e, k);
    }
}

/// Appending a record with a fresh id changes the lookup of that id alone.
proof fn lemma_plookup_push(
    s: Seq<(HashType, ProposalCore)>,
    e: (HashType, ProposalCore),
    k: Seq<u8>,
)
    requires
        forall|i: int| 0 <= i < s.len() ==> s[i].0@ != e.0@,
    ensures
        plookup(s.push(e), k) == (if k == e.0@ {
            Some(e.1)
        } else {
            plookup(s, k)
        }),
    decreases s.len(),
{
    let p = s.push(e);
    assert(p.len() == s.len() + 1);
    if s.len() == 0 {
        assert(p.first() == e);
        assert(p.drop_first() =~= s);
        if k == e.0@ {
            assert(plookup(p, k) == Some(e.1));
        } else {
            assert(plookup(p, k) == plookup(s, k));
        }
    } else {
        assert(p.first() == s.first());
        assert(p.drop_first() =~= s.drop_first().push(e));
        assert forall|i: int| 0 <= i < s.drop_first().len() implies s.drop_first()[i].0@
            != e.0@ by {
            assert(s.drop_first()[i] == s[i + 1]);
        }
        lemma_plookup_push(s.drop_first(), e, k);
        if s.first().0@ == k {
            assert(s[0].0@ != e.0@);
            assert(k != e.0@);
            assert(plookup(p, k) == Some(s.first().1));
            assert(plookup(s, k) == Some(s.first().1));
        } else {
            assert(plookup(p, k) == plookup(s.drop_first().push(e), k));
            assert(plookup(s, k) == plookup(s.drop_first(), k));
        }
    }
}

/// Byte-for-byte equality of two 32-byte digests.
fn hash_eq(a: &HashType, b: &HashType) -> (r: bool)
    ensures
        r == (a@ == b@),
{
    let sa = a.as_slice();
    let sb = b.as_slice();
    let mut i: usize = 0;
    while i < 32
        invariant
            sa@ == a@,
            sb@ == b@,
            i <= 32,
            forall|j: int| 0 <= j < i ==> a@[j] == b@[j],
        decreases 32 - i,
    {
        if sa[i] != sb[i] {
            return false;
        }
        i += 1;
    }
    proof {
        assert(a@ =~= b@);
    }
    true
}

/// The position of the proposal carrying id `k`, if any.
fn proposal_find(t: &Vec<(HashType, ProposalCore)>, k: &HashType) -> (r: Option<usize>)
    ensures
        match r {
            Some(i) => i < t@.len() && t@[i as int].0@ == k@ && plookup(t@, k@) == Some(
                t@[i as int].1,
            ) && (forall|j: int| 0 <= j < i ==> t@[j].0@ != k@),
            None => plookup(t@, k@) == None::<ProposalCore> && (forall|j: int|
                0 <= j < t@.len() ==> t@[j].0@ != k@),
        },
{
    let mut i: usize = 0;
    while i < t.len()
        invariant
            i <= t@.len(),
            forall|j: int| 0 <= j < i ==> t@[j].0@ != k@,
        decreases t@.len() - i,
    {
        if hash_eq(&t[i].0, k) {
            proof {
                lemma_plookup_at(t@, i as int);
            }
            return Some(i);
        }
        i += 1;
    }
    proof {
        lemma_plookup_absent(t@, k@);
    }
    None
}

/// A proposal's lifecycle status as derived from its record, the current
/// time, and the counting policy's two verdicts: canceled proposals stay
/// Canceled; before the snapshot the proposal is Pending, during the
/// voting window Active; afterwards it is Executed once run, otherwise
/// Defeated or Succeeded as the policy decides.
pub open spec fn state_of(
    core: ProposalCore,
    now: Timestamp,
    quorum_ok: bool,
    vote_ok: bool,
) -> ProposalState {
    if core.canceled is Canceled {
        ProposalState::Canceled
    } else if now < core.vote_start {
        ProposalState::Pending
    } else if now < core.vote_start + core.vote_duration {
        ProposalState::Active
    } else if core.executed is Executed {
        ProposalState::Executed
    } else if !quorum_ok || !vote_ok {
        ProposalState::Defeated
    } else {
        ProposalState::Succeeded
    }
}

/// The status that the record and the clock force on their own, where
/// they do: past the deadline with nothing run and nothing canceled, the
/// counting policy decides between Defeated and Succeeded instead.
pub open spec fn forced_state(core: ProposalCore, now: Timestamp) -> Option<ProposalState> {
    if core.canceled is Canceled || now < core.vote_start + core.vote_duration
        || core.executed is Executed {
        Some(state_of(core, now, true, true))
    } else {
        None
    }
}

/// Law: a record that carries the executed flag never derives an
/// executable state again, whatever the counting policy answers and
/// however far the clock moves — which is why a second `execute` on the
/// same proposal always faults.
pub proof fn lemma_executed_is_final(
    core: ProposalCore,
    now: Timestamp,
    quorum_ok: bool,
    vote_ok: bool,
)
    requires
        core.executed is Executed,
    ensures
        state_of(core, now, quorum_ok, vote_ok) != ProposalState::Succeeded,
        state_of(core, now, quorum_ok, vote_ok) != ProposalState::Queued,
{
}

/// Derives the lifecycle status from a record and the policy's verdicts.
pub fn derive_state(core: &ProposalCore, now: Timestamp, quorum_ok: bool, vote_ok: bool) -> (s:
    ProposalState)
    requires
        core.vote_start + core.vote_duration <= u32::MAX,
    ensures
        s == state_of(*core, now, quorum_ok, vote_ok),
{
    match core.canceled {
        CancelationStatus::Canceled => ProposalState::Canceled,
        CancelationStatus::NotCanceled => {
            if now < core.vote_start {
                ProposalState::Pending
            } else if now < core.vote_start + core.vote_duration {
                ProposalState::Active
            } else {
                match core.executed {
                    ExecutionStatus::Executed => ProposalState::Executed,
                    ExecutionStatus::NotExecuted => {
                        if !quorum_ok || !vote_ok {
                            ProposalState::Defeated
                        } else {
                            ProposalState::Succeeded
                        }
                    },
                }
            }
        },
    }
}

/// The proposal registry: the stored records, the engine's configuration,
/// and its own execution identity.
pub struct Governor {
    pub proposals: Vec<(HashType, ProposalCore)>,
    pub voting_delay: Timestamp,
    pub voting_period: Timestamp,
    pub proposal_threshold: Balance,
    pub executor: AccountId,
}

impl Governor {
    /// Ids are unique and every stored voting window fits the timepoint
    /// type.
    pub open spec fn wf(&self) -> bool {
        &&& pkeys_unique(self.proposals@)
        &&& forall|i: int|
            0 <= i < self.proposals@.len() ==> (#[trigger] self.proposals@[i]).1.vote_start
                + self.proposals@[i].1.vote_duration <= u32::MAX
    }

    /// The stored record under an id, as a mathematical map.
    pub open spec fn core_of(&self, id: Seq<u8>) -> Option<ProposalCore> {
        plookup(self.proposals@, id)
    }

    /// Creates an empty registry with the given configuration.
    pub fn new(
        voting_delay: Timestamp,
        voting_period: Timestamp,
        proposal_threshold: Balance,
        executor: AccountId,
    ) -> (r: Self)
        ensures
            r.wf(),
            r.proposals@ == Seq::<(HashType, ProposalCore)>::empty(),
            r.voting_delay == voting_delay,
            r.voting_period == voting_period,
            r.proposal_threshold == proposal_threshold,
            r.executor == executor,
    {
        Governor {
            proposals: Vec::new(),
            voting_delay,
            voting_period,
            proposal_threshold,
            executor,
        }
    }

    /// Rebuilds a proposal's id from its details.
    pub fn hash_proposal(&self, transactions: &Vec<Transaction>, description_hash: &HashType) -> (
        id: HashType)
        ensures
            id@ == proposal_digest(transactions@, description_hash@),
    {
        crate::digest::hash_proposal(transactions, description_hash)
    }

    /// Restricts an operation to the engine's own execution identity.
    pub fn only_governance(&self, caller: AccountId) -> (r: Result<(), GovernanceError>)
        ensures
            r is Ok <==> caller == self.executor,
            !(r is Ok) ==> r == Err::<(), GovernanceError>(GovernanceError::OnlyExecutor(caller)),
    {
        if caller != self.executor {
            Err(GovernanceError::OnlyExecutor(caller))
        } else {
            Ok(())
        }
    }

    /// The current lifecycle status of the proposal: what `state_of`
    /// derives from the stored record, the current time, and whatever the
    /// counting policy answered.
    pub fn state<M: GovernorHooks>(
        &self,
        hooks: &mut M,
        proposal_id: &HashType,
        now: Timestamp,
    ) -> (r: Result<ProposalState, GovernanceError>)
        requires
            self.wf(),
        ensures
            r is Ok <==> self.core_of(proposal_id@) is Some,
            self.core_of(proposal_id@) is None ==> r == Err::<ProposalState, GovernanceError>(
                GovernanceError::ProposalNotFound,
            ),
            match (self.core_of(proposal_id@), r) {
                (Some(core), Ok(s)) => {
                    &&& (s == ProposalState::Canceled <==> core.canceled is Canceled)
                    &&& (s == ProposalState::Pending <==> core.canceled is NotCanceled && now
                        < core.vote_start)
                    &&& (s == ProposalState::Active <==> core.canceled is NotCanceled
                        && core.vote_start <= now < core.vote_start + core.vote_duration)
                    &&& (s == ProposalState::Executed <==> core.canceled is NotCanceled && now
                        >= core.vote_start + core.vote_duration && core.executed is Executed)
                    &&& ((s == ProposalState::Defeated || s == ProposalState::Succeeded) <==> (
                    core.canceled is NotCanceled && now >= core.vote_start + core.vote_duration
                        && core.executed is NotExecuted))
                },
                (None, Err(_)) => true,
                _ => false,
            },
    {
        match proposal_find(&self.proposals, proposal_id) {
            None => Err(GovernanceError::ProposalNotFound),
            Some(i) => {
                let core = self.proposals[i].1;
                let quorum_ok = hooks.quorum_reached(*proposal_id);
                let vote_ok = hooks.vote_succeeded(*proposal_id);
                Ok(derive_state(&core, now, quorum_ok, vote_ok))
            },
        }
    }

    /// Decides proposer eligibility by weight: success exactly when the
    /// reported weight reaches the configured proposal threshold, else the
    /// insufficient-votes fault carrying the proposer, the weight, and the
    /// threshold it fell short of.
    pub fn enforce_proposal_threshold(&self, proposer: AccountId, votes: Balance) -> (r: Result<
        (),
        GovernanceError,
    >)
        ensures
            r is Ok <==> votes >= self.proposal_threshold,
            !(r is Ok) ==> r == Err::<(), GovernanceError>(
                GovernanceError::InsufficientProposerVotes(
                    proposer,
                    votes,
                    self.proposal_threshold,
                ),
            ),
    {
        if votes < self.proposal_threshold {
            Err(
                GovernanceError::InsufficientProposerVotes(
                    proposer,
                    votes,
                    self.proposal_threshold,
                ),
            )
        } else {
            Ok(())
        }
    }

    /// Registers a proposal for a batch of transactions: the proposer must
    /// pass the external eligibility predicate and hold at least the
    /// configured threshold of current voting weight; the batch must be
    /// non-empty and no value-equal proposal may already exist. The voting
    /// window opens a configured delay after `now` and lasts the
    /// configured period. On any fault nothing is recorded.
    pub fn propose<M: GovernorHooks>(
        &mut self,
        hooks: &mut M,
        transactions: &Vec<Transaction>,
        description: &Vec<u8>,
        proposer: AccountId,
        now: Timestamp,
    ) -> (r: Result<HashType, GovernanceError>)
        requires
            old(self).wf(),
        ensures
            final(self).wf(),
            final(self).voting_delay == old(self).voting_delay,
            final(self).voting_period == old(self).voting_period,
            final(self).proposal_threshold == old(self).proposal_threshold,
            final(self).executor == old(self).executor,
            r is Err ==> final(self).proposals@ == old(self).proposals@,
            r == Err::<HashType, GovernanceError>(GovernanceError::ZeroProposalLength)
                <==> transactions@.len() == 0,
            (r matches Err(GovernanceError::ProposerRestricted(p)) ==> p == proposer),
            (r matches Err(GovernanceError::InsufficientProposerVotes(p, v, t)) ==> p == proposer
                && t == old(self).proposal_threshold && v < t),
            r == Err::<HashType, GovernanceError>(GovernanceError::ProposalAlreadyExists)
                ==> old(self).core_of(
                proposal_digest(transactions@, description_digest(description@)),
            ) is Some,
            r == Err::<HashType, GovernanceError>(GovernanceError::DeadlineOverflow) ==> now
                + old(self).voting_delay + old(self).voting_period > u32::MAX,
            old(self).core_of(
                proposal_digest(transactions@, description_digest(description@)),
            ) is Some ==> !(r is Ok),
            match r {
                Ok(id) => {
                    &&& id@ == proposal_digest(transactions@, description_digest(description@))
                    &&& transactions@.len() > 0
                    &&& old(self).core_of(id@) is None
                    &&& now + old(self).voting_delay + old(self).voting_period <= u32::MAX
                    &&& final(self).core_of(id@) == Some(
                        ProposalCore {
                            proposer,
                            vote_start: (now + old(self).voting_delay) as u32,
                            vote_duration: old(self).voting_period,
                            executed: ExecutionStatus::NotExecuted,
                            canceled: CancelationStatus::NotCanceled,
                        },
                    )
                    &&& forall|k: Seq<u8>|
                        k != id@ ==> final(self).core_of(k) == old(self).core_of(k)
                },
                Err(_) => true,
            },
    {
        if transactions.len() == 0 {
            return Err(GovernanceError::ZeroProposalLength);
        }
        if !hooks.is_valid_description(proposer, description) {
            return Err(GovernanceError::ProposerRestricted(proposer));
        }
        let no_params: Vec<u8> = Vec::new();
        let proposer_votes = hooks.get_votes(proposer, now, &no_params);
        match self.enforce_proposal_threshold(proposer, proposer_votes) {
            Ok(_) => {},
            Err(e) => {
                return Err(e);
            },
        }
        let description_hash = hash_description(description);
        let id = crate::digest::hash_proposal(transactions, &description_hash);
        match proposal_find(&self.proposals, &id) {
            Some(_) => {
                return Err(GovernanceError::ProposalAlreadyExists);
            },
            None => {},
        }
        if now > u32::MAX - self.voting_delay {
            return Err(GovernanceError::DeadlineOverflow);
        }
        let snapshot = now + self.voting_delay;
        if snapshot > u32::MAX - self.voting_period {
            return Err(GovernanceError::DeadlineOverflow);
        }
        let core = ProposalCore {
            proposer,
            vote_start: snapshot,
            vote_duration: self.voting_period,
            executed: ExecutionStatus::NotExecuted,
            canceled: CancelationStatus::NotCanceled,
        };
        let ghost s0 = self.proposals@;
        self.proposals.push((id, core));
        proof {
            assert forall|k: Seq<u8>| true implies plookup(self.proposals@, k) == (if k == id@ {
                Some(core)
            } else {
                plookup(s0, k)
            }) by {
                lemma_plookup_push(s0, (id, core), k);
            }
            assert forall|a: int, b: int|
                0 <= a < b < self.proposals@.len() implies self.proposals@[a].0@
                != self.proposals@[b].0@ by {
                if b == s0.len() as int {
                    assert(s0[a].0@ != id@);
                }
            }
            assert forall|i: int| 0 <= i < self.proposals@.len() implies (
            #[trigger] self.proposals@[i]).1.vote_start + self.proposals@[i].1.vote_duration
                <= u32::MAX by {
                if i < s0.len() as int {
                    assert(self.proposals@[i] == s0[i]);
                }
            }
        }
        Ok(id)
    }

    /// Runs a Succeeded (or Queued) proposal exactly once: the executed
    /// flag is staged before the payload runs, and any failure — of the
    /// pre-hook, of any transaction, or of the post-hook — unwinds the
    /// flag and reports a fault, so no partial execution is ever
    /// observable. A proposal whose record already carries the executed
    /// flag faults with a wrong-state error.
    pub fn execute<M: GovernorHooks>(
        &mut self,
        hooks: &mut M,
        transactions: &Vec<Transaction>,
        description_hash: &HashType,
        now: Timestamp,
    ) -> (r: Result<HashType, GovernanceError>)
        requires
            old(self).wf(),
        ensures
            final(self).wf(),
            final(self).voting_delay == old(self).voting_delay,
            final(self).voting_period == old(self).voting_period,
            final(self).proposal_threshold == old(self).proposal_threshold,
            final(self).executor == old(self).executor,
            r is Err ==> final(self).proposals@ == old(self).proposals@,
            old(self).core_of(proposal_digest(transactions@, description_hash@)) is None ==> r
                == Err::<HashType, GovernanceError>(GovernanceError::ProposalNotFound),
            match old(self).core_of(proposal_digest(transactions@, description_hash@)) {
                Some(core) => {
                    &&& ((core.canceled is Canceled || core.executed is Executed || now
                        < core.vote_start + core.vote_duration) ==> (r matches Err(
                        GovernanceError::UnexpectedProposalState(eid, observed, accepted),
                    ) && eid@ == proposal_digest(transactions@, description_hash@) && Some(observed)
                        == forced_state(core, now) && accepted == state_bitmask(
                        ProposalState::Succeeded,
                    ) | state_bitmask(ProposalState::Queued)))
                    &&& match r {
                        Ok(id) => {
                            &&& id@ == proposal_digest(transactions@, description_hash@)
                            &&& core.canceled is NotCanceled
                            &&& core.executed is NotExecuted
                            &&& now >= core.vote_start + core.vote_duration
                            &&& final(self).core_of(id@) == Some(
                                ProposalCore { executed: ExecutionStatus::Executed, ..core },
                            )
                            &&& forall|k: Seq<u8>|
                                k != id@ ==> final(self).core_of(k) == old(self).core_of(k)
                        },
                        Err(_) => true,
                    }
                },
                None => true,
            },
    {
        let id = crate::digest::hash_proposal(transactions, description_hash);
        let i = match proposal_find(&self.proposals, &id) {
            None => {
                return Err(GovernanceError::ProposalNotFound);
            },
            Some(i) => i,
        };
        let entry0 = self.proposals[i];
        let core = entry0.1;
        let quorum_ok = hooks.quorum_reached(id);
        let vote_ok = hooks.vote_succeeded(id);
        let current_state = derive_state(&core, now, quorum_ok, vote_ok);
        let acceptable = ProposalState::Succeeded.bitmask() | ProposalState::Queued.bitmask();
        match current_state {
            ProposalState::Succeeded => {},
            ProposalState::Queued => {},
            _ => {
                return Err(GovernanceError::UnexpectedProposalState(id, current_state, acceptable));
            },
        }
        let ghost s0 = self.proposals@;
        let staged = ProposalCore { executed: ExecutionStatus::Executed, ..core };
        self.proposals[i] = (entry0.0, staged);
        let ghost s1 = self.proposals@;
        proof {
            assert(s1 == s0.update(i as int, (entry0.0, staged)));
            assert forall|k: Seq<u8>| true implies plookup(s1, k) == (if k == id@ {
                Some(staged)
            } else {
                plookup(s0, k)
            }) by {
                lemma_plookup_update(s0, i as int, (entry0.0, staged), k);
            }
            assert forall|a: int, b: int| 0 <= a < b < s1.len() implies s1[a].0@ != s1[b].0@ by {
                assert(s1[a].0@ == s0[a].0@);
                assert(s1[b].0@ == s0[b].0@);
            }
            assert forall|j: int| 0 <= j < s1.len() implies (#[trigger] s1[j]).1.vote_start
                + s1[j].1.vote_duration <= u32::MAX by {
                if j != i as int {
                    assert(s1[j] == s0[j]);
                }
            }
        }
        match hooks.before_execute(id) {
            Ok(_) => {},
            Err(e) => {
                self.proposals[i] = entry0;
                proof {
                    assert(self.proposals@ =~= s0);
                }
                return Err(e);
            },
        }
        let mut k: usize = 0;
        while k < transactions.len()
            invariant
                self.wf(),
                self.voting_delay == old(self).voting_delay,
                self.voting_period == old(self).voting_period,
                self.proposal_threshold == old(self).proposal_threshold,
                self.executor == old(self).executor,
                s0 == old(self).proposals@,
                i < s0.len(),
                entry0 == s0[i as int],
                entry0.0@ == id@,
                id@ == proposal_digest(transactions@, description_hash@),
                plookup(s0, id@) == Some(entry0.1),
                entry0.1.canceled is NotCanceled,
                entry0.1.executed is NotExecuted,
                now >= entry0.1.vote_start + entry0.1.vote_duration,
                staged == (ProposalCore { executed: ExecutionStatus::Executed, ..entry0.1 }),
                self.proposals@ == s0.update(i as int, (entry0.0, staged)),
                k <= transactions@.len(),
            decreases transactions@.len() - k,
        {
            if !hooks.execute_transaction(&transactions[k]) {
                let failed = transactions[k].duplicate();
                self.proposals[i] = entry0;
                proof {
                    assert(self.proposals@ =~= s0);
                }
                return Err(GovernanceError::ExecutionFailed(failed));
            }
            k += 1;
        }
        match hooks.after_execute(id) {
            Ok(_) => {},
            Err(e) => {
                self.proposals[i] = entry0;
                proof {
                    assert(self.proposals@ =~= s0);
                }
                return Err(e);
            },
        }
        proof {
            assert forall|k2: Seq<u8>| true implies plookup(self.proposals@, k2) == (if k2 == id@ {
                Some(staged)
            } else {
                plookup(s0, k2)
            }) by {
                lemma_plookup_update(s0, i as int, (entry0.0, staged), k2);
            }
        }
        Ok(id)
    }

    /// Withdraws a still-Pending proposal: only the original proposer may,
    /// and only before its voting window opens. The record is kept and
    /// marked canceled, which every later state derivation reports.
    pub fn cancel<M: GovernorHooks>(
        &mut self,
        hooks: &mut M,
        transactions: &Vec<Transaction>,
        description_hash: &HashType,
        caller: AccountId,
        now: Timestamp,
    ) -> (r: Result<HashType, GovernanceError>)
        requires
            old(self).wf(),
        ensures
            final(self).wf(),
            final(self).voting_delay == old(self).voting_delay,
            final(self).voting_period == old(self).voting_period,
            final(self).proposal_threshold == old(self).proposal_threshold,
            final(self).executor == old(self).executor,
            r is Err ==> final(self).proposals@ == old(self).proposals@,
            old(self).core_of(proposal_digest(transactions@, description_hash@)) is None <==> r
                == Err::<HashType, GovernanceError>(GovernanceError::ProposalNotFound),
            match old(self).core_of(proposal_digest(transactions@, description_hash@)) {
                Some(core) => {
                    &&& ((core.canceled is Canceled || now >= core.vote_start) ==> (r matches Err(
                        GovernanceError::UnexpectedProposalState(eid, observed, accepted),
                    ) && eid@ == proposal_digest(transactions@, description_hash@) && accepted
                        == state_bitmask(ProposalState::Pending) && (match forced_state(
                        core,
                        now,
                    ) {
                        Some(s2) => observed == s2,
                        None => observed == ProposalState::Defeated || observed
                            == ProposalState::Succeeded,
                    })))
                    &&& (core.canceled is NotCanceled && now < core.vote_start && caller
                        != core.proposer ==> r == Err::<HashType, GovernanceError>(
                        GovernanceError::OnlyProposer(caller),
                    ))
                    &&& (r is Ok <==> core.canceled is NotCanceled && now < core.vote_start
                        && caller == core.proposer)
                    &&& match r {
                        Ok(id) => {
                            &&& id@ == proposal_digest(transactions@, description_hash@)
                            &&& final(self).core_of(id@) == Some(
                                ProposalCore { canceled: CancelationStatus::Canceled, ..core },
                            )
                            &&& forall|k: Seq<u8>|
                                k != id@ ==> final(self).core_of(k) == old(self).core_of(k)
                        },
                        Err(_) => true,
                    }
                },
                None => true,
            },
    {
        let id = crate::digest::hash_proposal(transactions, description_hash);
        let i = match proposal_find(&self.proposals, &id) {
            None => {
                return Err(GovernanceError::ProposalNotFound);
            },
            Some(i) => i,
        };
        let entry0 = self.proposals[i];
        let core = entry0.1;
        let quorum_ok = hooks.quorum_reached(id);
        let vote_ok = hooks.vote_succeeded(id);
        let current_state = derive_state(&core, now, quorum_ok, vote_ok);
        match current_state {
            ProposalState::Pending => {},
            _ => {
                return Err(
                    GovernanceError::UnexpectedProposalState(
                        id,
                        current_state,
                        ProposalState::Pending.bitmask(),
                    ),
                );
            },
        }
        if caller != core.proposer {
            return Err(GovernanceError::OnlyProposer(caller));
        }
        let ghost s0 = self.proposals@;
        let canceled = ProposalCore { canceled: CancelationStatus::Canceled, ..core };
        self.proposals[i] = (entry0.0, canceled);
        proof {
            let s1 = self.proposals@;
            assert forall|k: Seq<u8>| true implies plookup(s1, k) == (if k == id@ {
                Some(canceled)
            } else {
                plookup(s0, k)
            }) by {
                lemma_plookup_update(s0, i as int, (entry0.0, canceled), k);
            }
            assert forall|a: int, b: int| 0 <= a < b < s1.len() implies s1[a].0@ != s1[b].0@ by {
                assert(s1[a].0@ == s0[a].0@);
                assert(s1[b].0@ == s0[b].0@);
            }
            assert forall|j: int| 0 <= j < s1.len() implies (#[trigger] s1[j]).1.vote_start
                + s1[j].1.vote_duration <= u32::MAX by {
                if j != i as int {
                    assert(s1[j] == s0[j]);
                }
            }
        }
        Ok(id)
    }

    /// The one voting primitive: a vote on an Active proposal, weighted by
    /// the external weighting rule at the proposal's snapshot time, and
    /// recorded by the counting policy, whose storage rejects a voter who
    /// already voted. Returns the weight that was counted.
    fn do_cast_vote<M: GovernorHooks>(
        &self,
        hooks: &mut M,
        proposal_id: &HashType,
        voter: AccountId,
        support: VoteType,
        params: &Vec<u8>,
        now: Timestamp,
    ) -> (r: Result<Balance, GovernanceError>)
        requires
            self.wf(),
        ensures
            self.core_of(proposal_id@) is None ==> r == Err::<Balance, GovernanceError>(
                GovernanceError::ProposalNotFound,
            ),
            match self.core_of(proposal_id@) {
                Some(core) => {
                    &&& ((core.canceled is Canceled || now < core.vote_start || now
                        >= core.vote_start + core.vote_duration) ==> (r matches Err(
                        GovernanceError::UnexpectedProposalState(eid, observed, accepted),
                    ) && eid@ == proposal_id@ && accepted == state_bitmask(ProposalState::Active)
                        && (match forced_state(core, now) {
                        Some(s2) => observed == s2,
                        None => observed == ProposalState::Defeated || observed
                            == ProposalState::Succeeded,
                    })))
                    &&& (r is Ok ==> core.canceled is NotCanceled && core.vote_start <= now
                        < core.vote_start + core.vote_duration)
                },
                None => true,
            },
    {
        let i = match proposal_find(&self.proposals, proposal_id) {
            None => {
                return Err(GovernanceError::ProposalNotFound);
            },
            Some(i) => i,
        };
        let core = self.proposals[i].1;
        let quorum_ok = hooks.quorum_reached(*proposal_id);
        let vote_ok = hooks.vote_succeeded(*proposal_id);
        let current_state = derive_state(&core, now, quorum_ok, vote_ok);
        match current_state {
            ProposalState::Active => {},
            _ => {
                return Err(
                    GovernanceError::UnexpectedProposalState(
                        *proposal_id,
                        current_state,
                        ProposalState::Active.bitmask(),
                    ),
                );
            },
        }
        let weight = hooks.get_votes(voter, core.vote_start, params);
        match hooks.count_vote(*proposal_id, voter, support, weight, params) {
            Ok(_) => {},
            Err(e) => {
                return Err(e);
            },
        }
        Ok(weight)
    }

    /// Casts `voter`'s vote on an Active proposal.
    pub fn cast_vote<M: GovernorHooks>(
        &self,
        hooks: &mut M,
        proposal_id: &HashType,
        voter: AccountId,
        support: VoteType,
        now: Timestamp,
    ) -> (r: Result<Balance, GovernanceError>)
        requires
            self.wf(),
        ensures
            self.core_of(proposal_id@) is None ==> r == Err::<Balance, GovernanceError>(
                GovernanceError::ProposalNotFound,
            ),
            match self.core_of(proposal_id@) {
                Some(core) => {
                    &&& ((core.canceled is Canceled || now < core.vote_start || now
                        >= core.vote_start + core.vote_duration) ==> (r matches Err(
                        GovernanceError::UnexpectedProposalState(eid, observed, accepted),
                    ) && eid@ == proposal_id@ && accepted == state_bitmask(ProposalState::Active)
                        && (match forced_state(core, now) {
                        Some(s2) => observed == s2,
                        None => observed == ProposalState::Defeated || observed
                            == ProposalState::Succeeded,
                    })))
                    &&& (r is Ok ==> core.canceled is NotCanceled && core.vote_start <= now
                        < core.vote_start + core.vote_duration)
                },
                None => true,
            },
    {
        let no_params: Vec<u8> = Vec::new();
        self.do_cast_vote(hooks, proposal_id, voter, support, &no_params, now)
    }

    /// Casts a vote with a human-readable reason; the reason is for
    /// observers and does not change what is counted.
    pub fn cast_vote_with_reason<M: GovernorHooks>(
        &self,
        hooks: &mut M,
        proposal_id: &HashType,
        voter: AccountId,
        support: VoteType,
        reason: &Vec<u8>,
        now: Timestamp,
    ) -> (r: Result<Balance, GovernanceError>)
        requires
            self.wf(),
        ensures
            self.core_of(proposal_id@) is None ==> r == Err::<Balance, GovernanceError>(
                GovernanceError::ProposalNotFound,
            ),
            match self.core_of(proposal_id@) {
                Some(core) => {
                    &&& ((core.canceled is Canceled || now < core.vote_start || now
                        >= core.vote_start + core.vote_duration) ==> (r matches Err(
                        GovernanceError::UnexpectedProposalState(eid, observed, accepted),
                    ) && eid@ == proposal_id@ && accepted == state_bitmask(ProposalState::Active)
                        && (match forced_state(core, now) {
                        Some(s2) => observed == s2,
                        None => observed == ProposalState::Defeated || observed
                            == ProposalState::Succeeded,
                    })))
                    &&& (r is Ok ==> core.canceled is NotCanceled && core.vote_start <= now
                        < core.vote_start + core.vote_duration)
                },
                None => true,
            },
    {
        let _ = reason;
        let no_params: Vec<u8> = Vec::new();
        self.do_cast_vote(hooks, proposal_id, voter, support, &no_params, now)
    }

    /// Casts a vote with a reason and extra parameters for the counting
    /// policy.
    pub fn cast_vote_with_reason_and_params<M: GovernorHooks>(
        &self,
        hooks: &mut M,
        proposal_id: &HashType,
        voter: AccountId,
        support: VoteType,
        reason: &Vec<u8>,
        params: &Vec<u8>,
        now: Timestamp,
    ) -> (r: Result<Balance, GovernanceError>)
        requires
            self.wf(),
        ensures
            self.core_of(proposal_id@) is None ==> r == Err::<Balance, GovernanceError>(
                GovernanceError::ProposalNotFound,
            ),
            match self.core_of(proposal_id@) {
                Some(core) => {
                    &&& ((core.canceled is Canceled || now < core.vote_start || now
                        >= core.vote_start + core.vote_duration) ==> (r matches Err(
                        GovernanceError::UnexpectedProposalState(eid, observed, accepted),
                    ) && eid@ == proposal_id@ && accepted == state_bitmask(ProposalState::Active)
                        && (match forced_state(core, now) {
                        Some(s2) => observed == s2,
                        None => observed == ProposalState::Defeated || observed
                            == ProposalState::Succeeded,
                    })))
                    &&& (r is Ok ==> core.canceled is NotCanceled && core.vote_start <= now
                        < core.vote_start + core.vote_duration)
                },
                None => true,
            },
    {
        let _ = reason;
        self.do_cast_vote(hooks, proposal_id, voter, support, params, now)
    }

    /// Casts a vote that `voter` authorized off-chain: recomputes the
    /// signed digest over the proposal id, the vote direction and the
    /// reason, and asks the verification collaborator before counting. A
    /// message that differs anywhere — a tampered reason included — is a
    /// different digest.
    pub fn cast_vote_with_signature<M: GovernorHooks>(
        &self,
        hooks: &mut M,
        proposal_id: &HashType,
        voter: AccountId,
        support: VoteType,
        reason: &Vec<u8>,
        signature: &Signature,
        now: Timestamp,
    ) -> (r: Result<Balance, GovernanceError>)
        requires
            self.wf(),
        ensures
            match self.core_of(proposal_id@) {
                Some(core) => r is Ok ==> core.canceled is NotCanceled && core.vote_start <= now
                    < core.vote_start + core.vote_duration,
                None => !(r is Ok),
            },
    {
        let no_params: Vec<u8> = Vec::new();
        let digest = hash_vote_payload(proposal_id, support.as_byte(), reason, &no_params);
        let message = hash_to_vec(&digest);
        if !hooks.verify_signature(&message, voter, signature) {
            return Err(GovernanceError::InvalidSignature(voter));
        }
        self.do_cast_vote(hooks, proposal_id, voter, support, &no_params, now)
    }

    /// As `cast_vote_with_signature`, with extra parameters that are both
    /// part of the signed digest and handed to the counting policy.
    pub fn cast_vote_with_signature_and_params<M: GovernorHooks>(
        &self,
        hooks: &mut M,
        proposal_id: &HashType,
        voter: AccountId,
        support: VoteType,
        reason: &Vec<u8>,
        params: &Vec<u8>,
        signature: &Signature,
        now: Timestamp,
    ) -> (r: Result<Balance, GovernanceError>)
        requires
            self.wf(),
        ensures
            match self.core_of(proposal_id@) {
                Some(core) => r is Ok ==> core.canceled is NotCanceled && core.vote_start <= now
                    < core.vote_start + core.vote_duration,
                None => !(r is Ok),
            },
    {
        let digest = hash_vote_payload(proposal_id, support.as_byte(), reason, params);
        let message = hash_to_vec(&digest);
        if !hooks.verify_signature(&message, voter, signature) {
            return Err(GovernanceError::InvalidSignature(voter));
        }
        self.do_cast_vote(hooks, proposal_id, voter, support, params, now)
    }

    /// Forwards one transaction to an arbitrary target. Only reachable by
    /// the engine's own execution identity, that is from inside a
    /// successful `execute`, never as a direct outside call.
    pub fn relay<M: GovernorHooks>(
        &self,
        hooks: &mut M,
        caller: AccountId,
        target: AccountId,
        transaction: &Transaction,
    ) -> (r: Result<(), GovernanceError>)
        ensures
            caller != self.executor <==> r == Err::<(), GovernanceError>(
                GovernanceError::OnlyExecutor(caller),
            ),
            caller == self.executor ==> (r is Ok || r matches Err(
                GovernanceError::ExecutionFailed(_),
            )),
            (r matches Err(GovernanceError::ExecutionFailed(t2)) ==> t2.matches(*transaction)),
    {
        match self.only_governance(caller) {
            Err(e) => {
                return Err(e);
            },
            Ok(_) => {},
        }
        let forwarded = transaction.redirected(target);
        if !hooks.execute_transaction(&forwarded) {
            return Err(GovernanceError::ExecutionFailed(transaction.duplicate()));
        }
        Ok(())
    }

    /// The timepoint at which the proposal's voting weight is fixed and
    /// voting opens.
    pub fn proposal_snapshot(&self, proposal_id: &HashType) -> (r: Result<
        Timestamp,
        GovernanceError,
    >)
        ensures
            match self.core_of(proposal_id@) {
                Some(core) => r == Ok::<Timestamp, GovernanceError>(core.vote_start),
                None => r == Err::<Timestamp, GovernanceError>(GovernanceError::ProposalNotFound),
            },
    {
        match proposal_find(&self.proposals, proposal_id) {
            Some(i) => Ok(self.proposals[i].1.vote_start),
            None => Err(GovernanceError::ProposalNotFound),
        }
    }

    /// The timepoint at which the proposal's voting window closes.
    pub fn proposal_deadline(&self, proposal_id: &HashType) -> (r: Result<
        Timestamp,
        GovernanceError,
    >)
        requires
            self.wf(),
        ensures
            match self.core_of(proposal_id@) {
                Some(core) => r == Ok::<Timestamp, GovernanceError>(
                    (core.vote_start + core.vote_duration) as u32,
                ),
                None => r == Err::<Timestamp, GovernanceError>(GovernanceError::ProposalNotFound),
            },
    {
        match proposal_find(&self.proposals, proposal_id) {
            Some(i) => Ok(self.proposals[i].1.vote_start + self.proposals[i].1.vote_duration),
            None => Err(GovernanceError::ProposalNotFound),
        }
    }

    /// The account that created the proposal.
    pub fn proposal_proposer(&self, proposal_id: &HashType) -> (r: Result<
        AccountId,
        GovernanceError,
    >)
        ensures
            match self.core_of(proposal_id@) {
                Some(core) => r == Ok::<AccountId, GovernanceError>(core.proposer),
                None => r == Err::<AccountId, GovernanceError>(GovernanceError::ProposalNotFound),
            },
    {
        match proposal_find(&self.proposals, proposal_id) {
            Some(i) => Ok(self.proposals[i].1.proposer),
            None => Err(GovernanceError::ProposalNotFound),
        }
    }

    /// The weight of `account` at `timestamp` as the external weighting
    /// collaborator reports it; this core does not constrain its answer.
    pub fn get_votes_with_params<M: GovernorHooks>(
        &self,
        hooks: &mut M,
        account: AccountId,
        timestamp: Timestamp,
        params: &Vec<u8>,
    ) -> Balance {
        hooks.get_votes(account, timestamp, params)
    }
}

} // verus!
