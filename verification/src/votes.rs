//! The voting power ledger: per-account voting units, the delegation graph,
//! one checkpoint history per delegate plus one for the aggregate supply,
//! and replay-protected nonces for delegation by signature.

use vstd::prelude::*;
use crate::checkpoint::{
    keys_bounded, keys_increasing, latest_spec, lemma_pushed_upper, lemma_pushed_wf,
    lemma_upper_lookup_at_or_after_latest, pushed, upper_scan, Checkpoint, Checkpoints,
};
use crate::digest::{hash_delegation_payload, hash_to_vec};
use crate::errors::GovernanceError;
use crate::types::{Signature, SignatureVerifier};
use crate::table::{
    keys_unique, lemma_lookup_at, lemma_lookup_drop_last, lemma_lookup_push, lemma_lookup_update,
    lookup, table_find, table_put,
};

verus! {

/// The historical value at time `t`, with absence reading as zero.
pub open spec fn upper0(s: Seq<Checkpoint>, t: u32) -> u128 {
    match upper_scan(s, t) {
        Some(v) => v,
        None => 0,
    }
}

/// An account's voting units, zero when it holds none.
pub open spec fn units_of(s: Seq<(u64, u128)>, a: u64) -> u128 {
    match lookup(s, a) {
        Some(v) => v,
        None => 0,
    }
}

/// The account `a` delegates to; an account with no recorded choice votes
/// through itself.
pub open spec fn delegate_of(s: Seq<(u64, u64)>, a: u64) -> u64 {
    match lookup(s, a) {
        Some(d) => d,
        None => a,
    }
}

/// A signer's next expected nonce, starting at zero.
pub open spec fn nonce_of(s: Seq<(u64, u128)>, a: u64) -> u128 {
    match lookup(s, a) {
        Some(n) => n,
        None => 0,
    }
}

/// The checkpoint history of delegate `a`, empty when none is stored.
pub open spec fn ledger_of(s: Seq<(u64, Checkpoints)>, a: u64) -> Seq<Checkpoint> {
    match lookup(s, a) {
        Some(c) => c@,
        None => Seq::<Checkpoint>::empty(),
    }
}

/// The sum over all stored delegate histories of their value at time `t`.
pub open spec fn votes_sum_at(s: Seq<(u64, Checkpoints)>, t: u32) -> int
    decreases s.len(),
{
    if s.len() == 0 {
        0
    } else {
        votes_sum_at(s.drop_last(), t) + upper0(s.last().1@, t)
    }
}

/// The units delegated to `d`: the sum of the units of every account whose
/// delegate is `d`.
pub open spec fn delegated_sum(units: Seq<(u64, u128)>, deleg: Seq<(u64, u64)>, d: u64) -> int
    decreases units.len(),
{
    if units.len() == 0 {
        0
    } else {
        delegated_sum(units.drop_last(), deleg, d) + (if delegate_of(deleg, units.last().0) == d {
            units.last().1 as int
        } else {
            0
        })
    }
}

/// The sum of all accounts' voting units.
pub open spec fn total_units(units: Seq<(u64, u128)>) -> int
    decreases units.len(),
{
    if units.len() == 0 {
        0
    } else {
        total_units(units.drop_last()) + units.last().1
    }
}

/// Replacing one history changes the sum by that entry's difference.
pub proof fn lemma_votes_sum_update(s: Seq<(u64, Checkpoints)>, i: int, e: (u64, Checkpoints), t: u32)
    requires
        0 <= i < s.len(),
    ensures
        votes_sum_at(s.update(i, e), t) == votes_sum_at(s, t) - upper0(s[i].1@, t) + upper0(
            e.1@,
            t,
        ),
    decreases s.len(),
{
    if i == s.len() - 1 {
        assert(s.update(i, e).drop_last() =~= s.drop_last());
        assert(s.update(i, e).last() == e);
    } else {
        assert(s.update(i, e).drop_last() =~= s.drop_last().update(i, e));
        assert(s.update(i, e).last() == s.last());
        lemma_votes_sum_update(s.drop_last(), i, e, t);
    }
}

/// Appending a history adds its value to the sum.
pub proof fn lemma_votes_sum_push(s: Seq<(u64, Checkpoints)>, e: (u64, Checkpoints), t: u32)
    ensures
        votes_sum_at(s.push(e), t) == votes_sum_at(s, t) + upper0(e.1@, t),
{
    assert(s.push(e).drop_last() =~= s);
    assert(s.push(e).last() == e);
}

/// Replacing one account's units changes each delegated sum by that
/// account's difference, when it counts toward `d`.
pub proof fn lemma_delegated_sum_update(
    units: Seq<(u64, u128)>,
    deleg: Seq<(u64, u64)>,
    i: int,
    v: u128,
    d: u64,
)
    requires
        0 <= i < units.len(),
    ensures
        delegated_sum(units.update(i, (units[i].0, v)), deleg, d) == delegated_sum(units, deleg, d)
            + (if delegate_of(deleg, units[i].0) == d {
            v - units[i].1
        } else {
            0
        }),
    decreases units.len(),
{
    let e = (units[i].0, v);
    if i == units.len() - 1 {
        assert(units.update(i, e).drop_last() =~= units.drop_last());
        assert(units.update(i, e).last() == e);
    } else {
        assert(units.update(i, e).drop_last() =~= units.drop_last().update(i, e));
        assert(units.update(i, e).last() == units.last());
        lemma_delegated_sum_update(units.drop_last(), deleg, i, v, d);
    }
}

/// Appending a fresh account's units adds them to its delegate's sum.
pub proof fn lemma_delegated_sum_push(
    units: Seq<(u64, u128)>,
    deleg: Seq<(u64, u64)>,
    e: (u64, u128),
    d: u64,
)
    ensures
        delegated_sum(units.push(e), deleg, d) == delegated_sum(units, deleg, d) + (if delegate_of(
            deleg,
            e.0,
        ) == d {
            e.1 as int
        } else {
            0
        }),
{
    assert(units.push(e).drop_last() =~= units);
    assert(units.push(e).last() == e);
}

/// Replacing one account's units changes the total by the difference.
pub proof fn lemma_total_units_update(units: Seq<(u64, u128)>, i: int, v: u128)
    requires
        0 <= i < units.len(),
    ensures
        total_units(units.update(i, (units[i].0, v))) == total_units(units) + v - units[i].1,
    decreases units.len(),
{
    let e = (units[i].0, v);
    if i == units.len() - 1 {
        assert(units.update(i, e).drop_last() =~= units.drop_last());
        assert(units.update(i, e).last() == e);
    } else {
        assert(units.update(i, e).drop_last() =~= units.drop_last().update(i, e));
        assert(units.update(i, e).last() == units.last());
        lemma_total_units_update(units.drop_last(), i, v);
    }
}

/// Appending a fresh account's units adds them to the total.
pub proof fn lemma_total_units_push(units: Seq<(u64, u128)>, e: (u64, u128))
    ensures
        total_units(units.push(e)) == total_units(units) + e.1,
{
    assert(units.push(e).drop_last() =~= units);
    assert(units.push(e).last() == e);
}

/// No delegated sum is negative.
pub proof fn lemma_delegated_sum_nonneg(units: Seq<(u64, u128)>, deleg: Seq<(u64, u64)>, d: u64)
    ensures
        delegated_sum(units, deleg, d) >= 0,
    decreases units.len(),
{
    if units.len() > 0 {
        lemma_delegated_sum_nonneg(units.drop_last(), deleg, d);
    }
}

/// Every delegated sum is at most the total of all units.
pub proof fn lemma_delegated_sum_le_total(units: Seq<(u64, u128)>, deleg: Seq<(u64, u64)>, d: u64)
    ensures
        0 <= delegated_sum(units, deleg, d) <= total_units(units),
    decreases units.len(),
{
    if units.len() > 0 {
        lemma_delegated_sum_le_total(units.drop_last(), deleg, d);
    }
}

/// An account's units are at most the sum delegated to its delegate.
pub proof fn lemma_units_le_delegated_sum(units: Seq<(u64, u128)>, deleg: Seq<(u64, u64)>, a: u64)
    requires
        keys_unique(units),
    ensures
        units_of(units, a) <= delegated_sum(units, deleg, delegate_of(deleg, a)),
    decreases units.len(),
{
    let d = delegate_of(deleg, a);
    lemma_delegated_sum_nonneg(units, deleg, d);
    if units.len() > 0 {
        if units.last().0 == a {
            crate::table::lemma_lookup_last(units, a);
            lemma_delegated_sum_nonneg(units.drop_last(), deleg, d);
        } else {
            lemma_lookup_drop_last(units, a);
            lemma_units_le_delegated_sum(units.drop_last(), deleg, a);
        }
    }
}

/// An account's units are at most the total of all units.
pub proof fn lemma_units_le_total(units: Seq<(u64, u128)>, a: u64)
    requires
        keys_unique(units),
    ensures
        units_of(units, a) <= total_units(units),
        total_units(units) >= 0,
    decreases units.len(),
{
    if units.len() > 0 {
        if units.last().0 == a {
            crate::table::lemma_lookup_last(units, a);
            lemma_units_le_total(units.drop_last(), a);
        } else {
            lemma_lookup_drop_last(units, a);
            lemma_units_le_total(units.drop_last(), a);
        }
    }
}

/// Two distinct accounts' units together are at most the total.
pub proof fn lemma_two_units_le_total(units: Seq<(u64, u128)>, a: u64, b: u64)
    requires
        keys_unique(units),
        a != b,
    ensures
        units_of(units, a) + units_of(units, b) <= total_units(units),
    decreases units.len(),
{
    if units.len() == 0 {
    } else if units.last().0 == a {
        crate::table::lemma_lookup_last(units, a);
        lemma_lookup_drop_last(units, b);
        lemma_units_le_total(units.drop_last(), b);
    } else if units.last().0 == b {
        crate::table::lemma_lookup_last(units, b);
        lemma_lookup_drop_last(units, a);
        lemma_units_le_total(units.drop_last(), a);
    } else {
        lemma_lookup_drop_last(units, a);
        lemma_lookup_drop_last(units, b);
        lemma_two_units_le_total(units.drop_last(), a, b);
    }
}

/// Re-pointing one account's delegation moves exactly that account's units
/// between the affected delegated sums.
pub proof fn lemma_delegated_sum_redelegate(
    units: Seq<(u64, u128)>,
    deleg: Seq<(u64, u64)>,
    deleg2: Seq<(u64, u64)>,
    a: u64,
    d: u64,
)
    requires
        keys_unique(units),
        forall|x: u64| x != a ==> delegate_of(deleg2, x) == delegate_of(deleg, x),
    ensures
        delegated_sum(units, deleg2, d) == delegated_sum(units, deleg, d) - (if delegate_of(
            deleg,
            a,
        ) == d {
            units_of(units, a) as int
        } else {
            0
        }) + (if delegate_of(deleg2, a) == d {
            units_of(units, a) as int
        } else {
            0
        }),
    decreases units.len(),
{
    if units.len() == 0 {
    } else if units.last().0 == a {
        crate::table::lemma_lookup_last(units, a);
        crate::table::lemma_lookup_absent_of_unique(units, a);
        lemma_delegated_sum_redelegate(units.drop_last(), deleg, deleg2, a, d);
    } else {
        lemma_lookup_drop_last(units, a);
        lemma_delegated_sum_redelegate(units.drop_last(), deleg, deleg2, a, d);
    }
}

/// The latest value of delegate `d`'s history, zero when none is stored.
fn ledger_latest(ledgers: &Vec<(u64, Checkpoints)>, d: u64) -> (v: u128)
    ensures
        v == latest_spec(ledger_of(ledgers@, d)),
{
    match table_find(ledgers, d) {
        Some(i) => ledgers[i].1.latest(),
        None => 0,
    }
}

/// Pushes `(now, value)` onto delegate `d`'s history, creating it on first
/// touch, and accounts for the effect on every historical sum.
fn ledger_push(ledgers: &mut Vec<(u64, Checkpoints)>, d: u64, value: u128, now: u32)
    requires
        keys_unique(old(ledgers)@),
        forall|i: int|
            0 <= i < old(ledgers)@.len() ==> keys_increasing((#[trigger] old(ledgers)@[i]).1@)
                && keys_bounded(old(ledgers)@[i].1@, now),
    ensures
        keys_unique(final(ledgers)@),
        forall|i: int|
            0 <= i < final(ledgers)@.len() ==> keys_increasing((#[trigger] final(ledgers)@[i]).1@)
                && keys_bounded(final(ledgers)@[i].1@, now),
        ledger_of(final(ledgers)@, d) == pushed(ledger_of(old(ledgers)@, d), now, value),
        forall|a: u64| a != d ==> ledger_of(final(ledgers)@, a) == ledger_of(old(ledgers)@, a),
        forall|t: u32|
            #[trigger] votes_sum_at(final(ledgers)@, t) == votes_sum_at(old(ledgers)@, t) - upper0(
                ledger_of(old(ledgers)@, d),
                t,
            ) + upper0(pushed(ledger_of(old(ledgers)@, d), now, value), t),
{
    let ghost s0 = old(ledgers)@;
    match table_find(ledgers, d) {
        Some(i) => {
            proof {
                assert(keys_increasing(s0[i as int].1@));
                assert(keys_bounded(s0[i as int].1@, now));
                assert(ledger_of(s0, d) == s0[i as int].1@);
            }
            let entry = &mut ledgers[i];
            let ghost cp0 = entry.1@;
            let r = entry.1.push(now, value);
            proof {
                if s0[i as int].1@.len() > 0 {
                    assert(s0[i as int].1@.last().key <= now);
                }
                assert(r is Ok);
                assert(final(entry).1@ == pushed(cp0, now, value));
                assert(final(entry).0 == s0[i as int].0);
            }
            proof {
                assert(final(ledgers)@ == s0.update(i as int, *final(entry)));
                lemma_pushed_wf(s0[i as int].1@, now, value);
                assert forall|k2: u64| true implies ledger_of(final(ledgers)@, k2) == (if k2 == d {
                    pushed(ledger_of(s0, d), now, value)
                } else {
                    ledger_of(s0, k2)
                }) by {
                    lemma_lookup_update(s0, i as int, final(entry).1, k2);
                    assert(s0.update(i as int, (s0[i as int].0, final(entry).1)) =~= s0.update(
                        i as int,
                        *final(entry),
                    ));
                }
                assert forall|j: int|
                    0 <= j < final(ledgers)@.len() implies keys_increasing(
                    (#[trigger] final(ledgers)@[j]).1@,
                ) && keys_bounded(final(ledgers)@[j].1@, now) by {
                    if j != i as int {
                        assert(final(ledgers)@[j] == s0[j]);
                    }
                }
                assert forall|a2: int, b2: int|
                    0 <= a2 < b2 < final(ledgers)@.len() implies final(ledgers)@[a2].0
                    != final(ledgers)@[b2].0 by {
                    assert(final(ledgers)@[a2].0 == s0[a2].0);
                    assert(final(ledgers)@[b2].0 == s0[b2].0);
                }
                assert forall|t: u32| true implies #[trigger] votes_sum_at(final(ledgers)@, t)
                    == votes_sum_at(s0, t) - upper0(ledger_of(s0, d), t) + upper0(
                    pushed(ledger_of(s0, d), now, value),
                    t,
                ) by {
                    lemma_votes_sum_update(s0, i as int, *final(entry), t);
                }
            }
        },
        None => {
            let mut cp = Checkpoints::new();
            let r = cp.push(now, value);
            proof {
                assert(r is Ok);
                assert(cp@ == pushed(Seq::<Checkpoint>::empty(), now, value));
                assert(ledger_of(s0, d) =~= Seq::<Checkpoint>::empty());
            }
            let ghost cpv = cp@;
            ledgers.push((d, cp));
            proof {
                assert(final(ledgers)@ == s0.push((d, final(ledgers)@.last().1)));
                assert(final(ledgers)@.last().1@ == cpv);
                lemma_pushed_wf(Seq::<Checkpoint>::empty(), now, value);
                assert forall|k2: u64| true implies ledger_of(final(ledgers)@, k2) == (if k2 == d {
                    pushed(ledger_of(s0, d), now, value)
                } else {
                    ledger_of(s0, k2)
                }) by {
                    lemma_lookup_push(s0, d, final(ledgers)@.last().1, k2);
                }
                assert forall|j: int|
                    0 <= j < final(ledgers)@.len() implies keys_increasing(
                    (#[trigger] final(ledgers)@[j]).1@,
                ) && keys_bounded(final(ledgers)@[j].1@, now) by {
                    if j < s0.len() as int {
                        assert(final(ledgers)@[j] == s0[j]);
                    }
                }
                assert forall|a2: int, b2: int|
                    0 <= a2 < b2 < final(ledgers)@.len() implies final(ledgers)@[a2].0
                    != final(ledgers)@[b2].0 by {
                    if b2 == s0.len() as int {
                        assert(s0[a2].0 != d);
                    } else {
                        assert(final(ledgers)@[a2].0 == s0[a2].0);
                        assert(final(ledgers)@[b2].0 == s0[b2].0);
                    }
                }
                assert forall|t: u32| true implies #[trigger] votes_sum_at(final(ledgers)@, t)
                    == votes_sum_at(s0, t) - upper0(ledger_of(s0, d), t) + upper0(
                    pushed(ledger_of(s0, d), now, value),
                    t,
                ) by {
                    lemma_votes_sum_push(s0, (d, final(ledgers)@.last().1), t);
                    assert(final(ledgers)@ =~= s0.push((d, final(ledgers)@.last().1)));
                }
            }
        },
    }
}

/// The voting power ledger. Owns one checkpoint history per delegate, the
/// shared total-supply history, the delegation graph, the per-account
/// voting units, and the per-signer nonces.
pub struct VotesLedger {
    pub units: Vec<(u64, u128)>,
    pub delegation: Vec<(u64, u64)>,
    pub nonce_table: Vec<(u64, u128)>,
    pub ledgers: Vec<(u64, Checkpoints)>,
    pub total: Checkpoints,
    pub clock: u32,
}

impl VotesLedger {
    /// The ledger's invariant. Beyond table and history well-formedness it
    /// carries the conservation laws: at every timepoint the delegate
    /// histories sum to the total-supply history, each delegate's latest
    /// weight is the units delegated to it, and the latest total is the sum
    /// of all units.
    pub open spec fn wf(&self) -> bool {
        &&& keys_unique(self.units@)
        &&& keys_unique(self.delegation@)
        &&& keys_unique(self.nonce_table@)
        &&& keys_unique(self.ledgers@)
        &&& keys_increasing(self.total@)
        &&& keys_bounded(self.total@, self.clock)
        &&& forall|i: int|
            0 <= i < self.ledgers@.len() ==> keys_increasing((#[trigger] self.ledgers@[i]).1@)
                && keys_bounded(self.ledgers@[i].1@, self.clock)
        &&& forall|t: u32| votes_sum_at(self.ledgers@, t) == #[trigger] upper0(self.total@, t) as int
        &&& forall|d: u64|
            latest_spec(#[trigger] ledger_of(self.ledgers@, d)) as int == delegated_sum(
                self.units@,
                self.delegation@,
                d,
            )
        &&& latest_spec(self.total@) as int == total_units(self.units@)
    }

    /// Creates an empty ledger at time zero.
    pub fn new() -> (r: Self)
        ensures
            r.wf(),
            r.units@ == Seq::<(u64, u128)>::empty(),
            r.delegation@ == Seq::<(u64, u64)>::empty(),
            r.nonce_table@ == Seq::<(u64, u128)>::empty(),
            r.ledgers@ == Seq::<(u64, Checkpoints)>::empty(),
            r.total@ == Seq::<Checkpoint>::empty(),
            r.clock == 0,
    {
        let r = VotesLedger {
            units: Vec::new(),
            delegation: Vec::new(),
            nonce_table: Vec::new(),
            ledgers: Vec::new(),
            total: Checkpoints::new(),
            clock: 0,
        };
        proof {
            assert forall|d: u64| latest_spec(#[trigger] ledger_of(r.ledgers@, d)) as int
                == delegated_sum(r.units@, r.delegation@, d) by {
                assert(ledger_of(r.ledgers@, d) =~= Seq::<Checkpoint>::empty());
            }
        }
        r
    }

    /// The current voting weight of `account`: the latest value of its
    /// delegate history, zero if it never received a delegation.
    pub fn get_votes(&self, account: u64) -> (v: u128)
        ensures
            v == latest_spec(ledger_of(self.ledgers@, account)),
    {
        ledger_latest(&self.ledgers, account)
    }

    /// The voting weight of `account` as of `timestamp`. Faults when
    /// `timestamp` lies after the current time `now`.
    pub fn get_past_votes(&self, account: u64, timestamp: u32, now: u32) -> (r: Result<
        u128,
        GovernanceError,
    >)
        requires
            self.wf(),
        ensures
            timestamp > now ==> r == Err::<u128, GovernanceError>(
                GovernanceError::FutureLookup(timestamp, now),
            ),
            timestamp <= now ==> r == Ok::<u128, GovernanceError>(
                upper0(ledger_of(self.ledgers@, account), timestamp),
            ),
    {
        if timestamp > now {
            return Err(GovernanceError::FutureLookup(timestamp, now));
        }
        match table_find(&self.ledgers, account) {
            Some(i) => {
                proof {
                    assert(keys_increasing((self.ledgers@[i as int]).1@));
                }
                match self.ledgers[i].1.upper_lookup_recent(timestamp) {
                    Some(v) => Ok(v),
                    None => Ok(0),
                }
            },
            None => {
                proof {
                    assert(ledger_of(self.ledgers@, account) =~= Seq::<Checkpoint>::empty());
                }
                Ok(0)
            },
        }
    }

    /// The aggregate supply as of `timestamp`. Faults when `timestamp` lies
    /// after the current time `now`.
    pub fn get_past_total_supply(&self, timestamp: u32, now: u32) -> (r: Result<
        u128,
        GovernanceError,
    >)
        requires
            self.wf(),
        ensures
            timestamp > now ==> r == Err::<u128, GovernanceError>(
                GovernanceError::FutureLookup(timestamp, now),
            ),
            timestamp <= now ==> r == Ok::<u128, GovernanceError>(upper0(self.total@, timestamp)),
    {
        if timestamp > now {
            return Err(GovernanceError::FutureLookup(timestamp, now));
        }
        match self.total.upper_lookup_recent(timestamp) {
            Some(v) => Ok(v),
            None => Ok(0),
        }
    }

    /// Whom `account` currently delegates to; itself when it never chose.
    pub fn delegates(&self, account: u64) -> (d: u64)
        ensures
            d == delegate_of(self.delegation@, account),
    {
        match table_find(&self.delegation, account) {
            Some(i) => self.delegation[i].1,
            None => account,
        }
    }

    /// The signer's next expected nonce.
    pub fn nonces(&self, account: u64) -> (n: u128)
        ensures
            n == nonce_of(self.nonce_table@, account),
    {
        match table_find(&self.nonce_table, account) {
            Some(i) => self.nonce_table[i].1,
            None => 0,
        }
    }

    /// The voting units `account` holds.
    pub fn voting_units(&self, account: u64) -> (u: u128)
        ensures
            u == units_of(self.units@, account),
    {
        match table_find(&self.units, account) {
            Some(i) => self.units[i].1,
            None => 0,
        }
    }
}

/// A looked-up history inherits well-formedness from the table's entries.
proof fn lemma_ledger_of_wf(s: Seq<(u64, Checkpoints)>, c: u32, a: u64)
    requires
        forall|i: int|
            0 <= i < s.len() ==> keys_increasing((#[trigger] s[i]).1@) && keys_bounded(
                s[i].1@,
                c,
            ),
    ensures
        keys_increasing(ledger_of(s, a)),
        keys_bounded(ledger_of(s, a), c),
    decreases s.len(),
{
    if s.len() == 0 {
        assert(ledger_of(s, a) =~= Seq::<Checkpoint>::empty());
    } else if s.first().0 == a {
        assert(s[0].1@ == ledger_of(s, a));
    } else {
        assert forall|i: int|
            0 <= i < s.drop_first().len() implies keys_increasing(
            (#[trigger] s.drop_first()[i]).1@,
        ) && keys_bounded(s.drop_first()[i].1@, c) by {
            assert(s.drop_first()[i] == s[i + 1]);
        }
        lemma_ledger_of_wf(s.drop_first(), c, a);
    }
}

/// At or after every stored key, the historical value is the latest one.
proof fn lemma_upper0_at_or_after(s: Seq<Checkpoint>, c: u32, t: u32)
    requires
        keys_bounded(s, c),
        c <= t,
    ensures
        upper0(s, t) == latest_spec(s),
{
    if s.len() > 0 {
        lemma_upper_lookup_at_or_after_latest(s, t);
    }
}

/// Two distinct accounts' stakes never overlap: units counted toward a
/// delegate other than `a`'s, plus `a`'s own units, stay within the total.
pub proof fn lemma_delegated_sum_plus_units_le_total(
    units: Seq<(u64, u128)>,
    deleg: Seq<(u64, u64)>,
    d: u64,
    a: u64,
)
    requires
        keys_unique(units),
        delegate_of(deleg, a) != d,
    ensures
        delegated_sum(units, deleg, d) + units_of(units, a) <= total_units(units),
    decreases units.len(),
{
    lemma_delegated_sum_nonneg(units, deleg, d);
    if units.len() == 0 {
    } else if units.last().0 == a {
        crate::table::lemma_lookup_last(units, a);
        lemma_delegated_sum_le_total(units.drop_last(), deleg, d);
    } else {
        lemma_lookup_drop_last(units, a);
        lemma_delegated_sum_plus_units_le_total(units.drop_last(), deleg, d, a);
    }
}

/// Sets `a`'s units to `v` and accounts for the effect on every delegated
/// sum and on the total.
fn units_put(units: &mut Vec<(u64, u128)>, a: u64, v: u128)
    requires
        keys_unique(old(units)@),
    ensures
        keys_unique(final(units)@),
        units_of(final(units)@, a) == v,
        forall|x: u64| x != a ==> units_of(final(units)@, x) == units_of(old(units)@, x),
        forall|deleg: Seq<(u64, u64)>, d: u64| #[trigger] delegated_sum(final(units)@, deleg, d)
            == delegated_sum(old(units)@, deleg, d) + (if delegate_of(deleg, a) == d {
                v - units_of(old(units)@, a)
            } else {
                0
            }),
        total_units(final(units)@) == total_units(old(units)@) + v - units_of(old(units)@, a),
{
    let ghost s0 = old(units)@;
    let i = table_put(units, a, v);
    proof {
        match lookup(s0, a) {
            Some(_) => {
                assert forall|j: int| 0 <= j < i implies s0[j].0 != s0[i as int].0 by {}
                lemma_lookup_at(s0, i as int);
                assert(s0[i as int].1 == units_of(s0, a));
                assert forall|deleg: Seq<(u64, u64)>, d: u64|
                    #[trigger] delegated_sum(final(units)@, deleg, d) == delegated_sum(
                    s0,
                    deleg,
                    d,
                ) + (if delegate_of(deleg, a) == d {
                    v - units_of(s0, a)
                } else {
                    0
                }) by {
                    lemma_delegated_sum_update(s0, deleg, i as int, v, d);
                }
                lemma_total_units_update(s0, i as int, v);
            },
            None => {
                assert(units_of(s0, a) == 0);
                assert forall|deleg: Seq<(u64, u64)>, d: u64|
                    #[trigger] delegated_sum(final(units)@, deleg, d) == delegated_sum(
                    s0,
                    deleg,
                    d,
                ) + (if delegate_of(deleg, a) == d {
                    v - units_of(s0, a)
                } else {
                    0
                }) by {
                    lemma_delegated_sum_push(s0, deleg, (a, v), d);
                }
                lemma_total_units_push(s0, (a, v));
            },
        }
    }
}

/// What re-pointing `account`'s delegation at time `now` does to the
/// ledger: the delegation graph is updated for `account` alone, and the
/// account's units move from its old delegate's history onto the new one,
/// both as checkpoints at `now`. Units, supply and nonces are untouched.
pub open spec fn delegation_moved(
    pre: VotesLedger,
    post: VotesLedger,
    account: u64,
    delegatee: u64,
    now: u32,
) -> bool {
    let f = delegate_of(pre.delegation@, account);
    let amt = units_of(pre.units@, account);
    &&& post.units@ == pre.units@
    &&& post.total@ == pre.total@
    &&& post.clock == now
    &&& delegate_of(post.delegation@, account) == delegatee
    &&& forall|a: u64|
        a != account ==> delegate_of(post.delegation@, a) == delegate_of(pre.delegation@, a)
    &&& if f == delegatee || amt == 0 {
        post.ledgers@ == pre.ledgers@
    } else {
        &&& ledger_of(post.ledgers@, f) == pushed(
            ledger_of(pre.ledgers@, f),
            now,
            (latest_spec(ledger_of(pre.ledgers@, f)) - amt) as u128,
        )
        &&& ledger_of(post.ledgers@, delegatee) == pushed(
            ledger_of(pre.ledgers@, delegatee),
            now,
            (latest_spec(ledger_of(pre.ledgers@, delegatee)) + amt) as u128,
        )
        &&& forall|a: u64|
            a != f && a != delegatee ==> ledger_of(post.ledgers@, a) == ledger_of(
                pre.ledgers@,
                a,
            )
    }
}

impl VotesLedger {
    /// Re-points `account`'s delegation to `delegatee`, moving the
    /// account's weight off the old delegate's history and onto the new
    /// one, both as checkpoints at `now`. Delegating to oneself resets to
    /// direct voting.
    pub fn delegate(&mut self, account: u64, delegatee: u64, now: u32) -> (r: Result<
        (),
        GovernanceError,
    >)
        requires
            old(self).wf(),
            now >= old(self).clock,
        ensures
            r is Ok,
            final(self).wf(),
            final(self).nonce_table@ == old(self).nonce_table@,
            delegation_moved(*old(self), *final(self), account, delegatee, now),
    {
        let ghost pre = *old(self);
        let from_del = self.delegates(account);
        let amount = self.voting_units(account);
        let _ = table_put(&mut self.delegation, account, delegatee);
        proof {
            assert(delegate_of(self.delegation@, account) == delegatee);
            assert forall|x: u64| x != account implies delegate_of(self.delegation@, x)
                == delegate_of(pre.delegation@, x) by {
                assert(lookup(self.delegation@, x) == lookup(pre.delegation@, x));
            }
        }
        let ghost deleg2 = self.delegation@;
        if from_del != delegatee && amount > 0 {
            let from_latest = ledger_latest(&self.ledgers, from_del);
            let to_latest = ledger_latest(&self.ledgers, delegatee);
            proof {
                assert(latest_spec(ledger_of(pre.ledgers@, from_del)) as int == delegated_sum(
                    pre.units@,
                    pre.delegation@,
                    from_del,
                ));
                lemma_units_le_delegated_sum(pre.units@, pre.delegation@, account);
                assert(amount <= from_latest);
                assert(latest_spec(ledger_of(pre.ledgers@, delegatee)) as int == delegated_sum(
                    pre.units@,
                    pre.delegation@,
                    delegatee,
                ));
                lemma_delegated_sum_redelegate(pre.units@, pre.delegation@, deleg2, account,
                    delegatee);
                lemma_delegated_sum_le_total(pre.units@, deleg2, delegatee);
                assert(to_latest + amount <= u128::MAX);
                assert forall|i: int| 0 <= i < self.ledgers@.len() implies keys_increasing(
                    (#[trigger] self.ledgers@[i]).1@,
                ) && keys_bounded(self.ledgers@[i].1@, now) by {
                    assert(keys_increasing((pre.ledgers@[i]).1@));
                    assert(keys_bounded(pre.ledgers@[i].1@, pre.clock));
                }
            }
            ledger_push(&mut self.ledgers, from_del, from_latest - amount, now);
            let ghost l1 = self.ledgers@;
            ledger_push(&mut self.ledgers, delegatee, to_latest + amount, now);
            proof {
                assert(ledger_of(l1, delegatee) == ledger_of(pre.ledgers@, delegatee));
                assert forall|a: u64| a != from_del && a != delegatee implies ledger_of(
                    self.ledgers@,
                    a,
                ) == ledger_of(pre.ledgers@, a) by {
                    assert(ledger_of(l1, a) == ledger_of(pre.ledgers@, a));
                }
            }
        }
        self.clock = now;
        proof {
            let post = *self;
            let f = from_del;
            let tt = delegatee;
            let amt = amount;
            assert(keys_bounded(pre.total@, pre.clock));
            assert(keys_bounded(post.total@, now));
            if f != tt && amt > 0 {
                let l0 = pre.ledgers@;
                let fl = latest_spec(ledger_of(l0, f));
                let tl = latest_spec(ledger_of(l0, tt));
                let fv = (fl - amt) as u128;
                let tv = (tl + amt) as u128;
                assert forall|t: u32| votes_sum_at(post.ledgers@, t) == #[trigger] upper0(
                    post.total@,
                    t,
                ) as int by {
                    assert(votes_sum_at(l0, t) == upper0(pre.total@, t) as int);
                    lemma_ledger_of_wf(l0, pre.clock, f);
                    lemma_ledger_of_wf(l0, pre.clock, tt);
                    assert(keys_bounded(ledger_of(l0, f), now));
                    assert(keys_bounded(ledger_of(l0, tt), now));
                    lemma_pushed_upper(ledger_of(l0, f), now, fv, t);
                    lemma_pushed_upper(ledger_of(l0, tt), now, tv, t);
                    if t >= now {
                        lemma_upper0_at_or_after(ledger_of(l0, f), now, t);
                        lemma_upper0_at_or_after(ledger_of(l0, tt), now, t);
                    }
                }
                assert forall|d: u64| latest_spec(#[trigger] ledger_of(post.ledgers@, d)) as int
                    == delegated_sum(post.units@, post.delegation@, d) by {
                    lemma_delegated_sum_redelegate(pre.units@, pre.delegation@, deleg2, account, d);
                    assert(latest_spec(ledger_of(l0, d)) as int == delegated_sum(
                        pre.units@,
                        pre.delegation@,
                        d,
                    ));
                    if d == f {
                        crate::checkpoint::lemma_latest_after_push(ledger_of(l0, f), now, fv);
                    } else if d == tt {
                        crate::checkpoint::lemma_latest_after_push(ledger_of(l0, tt), now, tv);
                    }
                }
            } else {
                assert(post.ledgers@ == pre.ledgers@);
                assert forall|t: u32| votes_sum_at(post.ledgers@, t) == #[trigger] upper0(
                    post.total@,
                    t,
                ) as int by {
                    assert(votes_sum_at(pre.ledgers@, t) == upper0(pre.total@, t) as int);
                }
                assert forall|d: u64| latest_spec(#[trigger] ledger_of(post.ledgers@, d)) as int
                    == delegated_sum(post.units@, post.delegation@, d) by {
                    lemma_delegated_sum_redelegate(pre.units@, pre.delegation@, deleg2, account, d);
                    assert(latest_spec(ledger_of(pre.ledgers@, d)) as int == delegated_sum(
                        pre.units@,
                        pre.delegation@,
                        d,
                    ));
                }
            }
            assert(post.wf());
        }
        Ok(())
    }
}

/// What moving `amount` units between the optional delegates `fd` and `td`
/// at time `now` does to the stored histories.
pub open spec fn weight_moved(
    l0: Seq<(u64, Checkpoints)>,
    l1: Seq<(u64, Checkpoints)>,
    fd: Option<u64>,
    td: Option<u64>,
    amount: u128,
    now: u32,
) -> bool {
    match (fd, td) {
        (Option::None, Option::None) => l1 == l0,
        (Option::None, Option::Some(t)) => ledger_of(l1, t) == pushed(
            ledger_of(l0, t),
            now,
            (latest_spec(ledger_of(l0, t)) + amount) as u128,
        ) && (forall|a: u64| a != t ==> ledger_of(l1, a) == ledger_of(l0, a)),
        (Option::Some(f), Option::None) => ledger_of(l1, f) == pushed(
            ledger_of(l0, f),
            now,
            (latest_spec(ledger_of(l0, f)) - amount) as u128,
        ) && (forall|a: u64| a != f ==> ledger_of(l1, a) == ledger_of(l0, a)),
        (Option::Some(f), Option::Some(t)) => if f == t {
            l1 == l0
        } else {
            ledger_of(l1, f) == pushed(
                ledger_of(l0, f),
                now,
                (latest_spec(ledger_of(l0, f)) - amount) as u128,
            ) && ledger_of(l1, t) == pushed(
                ledger_of(l0, t),
                now,
                (latest_spec(ledger_of(l0, t)) + amount) as u128,
            ) && (forall|a: u64| a != f && a != t ==> ledger_of(l1, a) == ledger_of(l0, a))
        },
    }
}

/// What a mint, burn or transfer of `amount` units at time `now` does to
/// the ledger: units move between the endpoints (absence standing for
/// minting or burning), the total history records a mint or burn, and the
/// moved weight shifts between the endpoints' delegates' histories.
pub open spec fn units_transferred(
    pre: VotesLedger,
    post: VotesLedger,
    from: Option<u64>,
    to: Option<u64>,
    amount: u128,
    now: u32,
) -> bool {
    let fd = match from {
        Option::Some(f) => Option::Some(delegate_of(pre.delegation@, f)),
        Option::None => Option::None,
    };
    let td = match to {
        Option::Some(t) => Option::Some(delegate_of(pre.delegation@, t)),
        Option::None => Option::None,
    };
    &&& post.delegation@ == pre.delegation@
    &&& post.nonce_table@ == pre.nonce_table@
    &&& post.clock == now
    &&& forall|a: u64|
        #[trigger] units_of(post.units@, a) as int == units_of(pre.units@, a) - (if from
            == Some(a) {
            amount as int
        } else {
            0
        }) + (if to == Some(a) {
            amount as int
        } else {
            0
        })
    &&& (match (from, to) {
        (Option::None, Option::Some(_)) => post.total@ == pushed(
            pre.total@,
            now,
            (latest_spec(pre.total@) + amount) as u128,
        ),
        (Option::Some(_), Option::None) => post.total@ == pushed(
            pre.total@,
            now,
            (latest_spec(pre.total@) - amount) as u128,
        ),
        _ => post.total@ == pre.total@,
    })
    &&& weight_moved(pre.ledgers@, post.ledgers@, fd, td, amount, now)
}

impl VotesLedger {
    /// Records a mint (`from` absent), a burn (`to` absent) or a transfer
    /// of `amount` voting units at time `now`: the aggregate history gains
    /// a checkpoint on mint and burn, and the moved weight shifts between
    /// the endpoints' delegates' histories. The token collaborator that
    /// calls this guarantees the balance and headroom bounds.
    pub fn transfer_voting_units(
        &mut self,
        from: Option<u64>,
        to: Option<u64>,
        amount: u128,
        now: u32,
    )
        requires
            old(self).wf(),
            now >= old(self).clock,
            match from {
                Option::Some(f) => units_of(old(self).units@, f) >= amount,
                Option::None => total_units(old(self).units@) + amount <= u128::MAX,
            },
        ensures
            final(self).wf(),
            units_transferred(*old(self), *final(self), from, to, amount, now),
    {
        let ghost pre = *old(self);
        match (from, to) {
            (Option::None, Option::None) => {
                self.clock = now;
                proof {
                    let post = *self;
                    assert forall|t: u32| votes_sum_at(post.ledgers@, t) == #[trigger] upper0(
                        post.total@,
                        t,
                    ) as int by {
                        assert(votes_sum_at(pre.ledgers@, t) == upper0(pre.total@, t) as int);
                    }
                    assert(post.wf());
                }
            },
            (Option::None, Option::Some(t)) => {
                let tl = self.total.latest();
                proof {
                    assert(tl as int == total_units(pre.units@));
                    if pre.total@.len() > 0 {
                        assert(pre.total@.last().key <= pre.clock);
                    }
                }
                let r = self.total.push(now, tl + amount);
                proof {
                    assert(r is Ok);
                }
                let td = self.delegates(t);
                let dl = ledger_latest(&self.ledgers, td);
                let ut = self.voting_units(t);
                proof {
                    assert(dl as int == delegated_sum(pre.units@, pre.delegation@, td));
                    lemma_delegated_sum_le_total(pre.units@, pre.delegation@, td);
                    lemma_units_le_total(pre.units@, t);
                    assert forall|i: int| 0 <= i < self.ledgers@.len() implies keys_increasing(
                        (#[trigger] self.ledgers@[i]).1@,
                    ) && keys_bounded(self.ledgers@[i].1@, now) by {
                        assert(keys_increasing((pre.ledgers@[i]).1@));
                        assert(keys_bounded(pre.ledgers@[i].1@, pre.clock));
                    }
                }
                ledger_push(&mut self.ledgers, td, dl + amount, now);
                units_put(&mut self.units, t, ut + amount);
                self.clock = now;
                proof {
                    let post = *self;
                    lemma_pushed_wf(pre.total@, now, (tl + amount) as u128);
                    assert forall|t2: u32| votes_sum_at(post.ledgers@, t2) == #[trigger] upper0(
                        post.total@,
                        t2,
                    ) as int by {
                        assert(votes_sum_at(pre.ledgers@, t2) == upper0(pre.total@, t2) as int);
                        lemma_ledger_of_wf(pre.ledgers@, pre.clock, td);
                        assert(keys_bounded(ledger_of(pre.ledgers@, td), now));
                        lemma_pushed_upper(
                            ledger_of(pre.ledgers@, td),
                            now,
                            (dl + amount) as u128,
                            t2,
                        );
                        lemma_pushed_upper(pre.total@, now, (tl + amount) as u128, t2);
                        if t2 >= now {
                            lemma_upper0_at_or_after(ledger_of(pre.ledgers@, td), now, t2);
                            lemma_upper0_at_or_after(pre.total@, now, t2);
                        }
                    }
                    assert forall|d: u64| latest_spec(
                        #[trigger] ledger_of(post.ledgers@, d),
                    ) as int == delegated_sum(post.units@, post.delegation@, d) by {
                        assert(latest_spec(ledger_of(pre.ledgers@, d)) as int == delegated_sum(
                            pre.units@,
                            pre.delegation@,
                            d,
                        ));
                        assert(delegated_sum(post.units@, pre.delegation@, d) == delegated_sum(
                            pre.units@,
                            pre.delegation@,
                            d,
                        ) + (if delegate_of(pre.delegation@, t) == d {
                            amount as int
                        } else {
                            0
                        }));
                        if d == td {
                            crate::checkpoint::lemma_latest_after_push(
                                ledger_of(pre.ledgers@, td),
                                now,
                                (dl + amount) as u128,
                            );
                        }
                    }
                    crate::checkpoint::lemma_latest_after_push(
                        pre.total@,
                        now,
                        (tl + amount) as u128,
                    );
                    assert(post.wf());
                }
            },
            (Option::Some(f), Option::None) => {
                let tl = self.total.latest();
                let uf = self.voting_units(f);
                proof {
                    assert(tl as int == total_units(pre.units@));
                    lemma_units_le_total(pre.units@, f);
                    if pre.total@.len() > 0 {
                        assert(pre.total@.last().key <= pre.clock);
                    }
                }
                let r = self.total.push(now, tl - amount);
                proof {
                    assert(r is Ok);
                }
                let fd = self.delegates(f);
                let fl = ledger_latest(&self.ledgers, fd);
                proof {
                    assert(fl as int == delegated_sum(pre.units@, pre.delegation@, fd));
                    lemma_units_le_delegated_sum(pre.units@, pre.delegation@, f);
                    assert(amount <= fl);
                    assert forall|i: int| 0 <= i < self.ledgers@.len() implies keys_increasing(
                        (#[trigger] self.ledgers@[i]).1@,
                    ) && keys_bounded(self.ledgers@[i].1@, now) by {
                        assert(keys_increasing((pre.ledgers@[i]).1@));
                        assert(keys_bounded(pre.ledgers@[i].1@, pre.clock));
                    }
                }
                ledger_push(&mut self.ledgers, fd, fl - amount, now);
                units_put(&mut self.units, f, uf - amount);
                self.clock = now;
                proof {
                    let post = *self;
                    lemma_pushed_wf(pre.total@, now, (tl - amount) as u128);
                    assert forall|t2: u32| votes_sum_at(post.ledgers@, t2) == #[trigger] upper0(
                        post.total@,
                        t2,
                    ) as int by {
                        assert(votes_sum_at(pre.ledgers@, t2) == upper0(pre.total@, t2) as int);
                        lemma_ledger_of_wf(pre.ledgers@, pre.clock, fd);
                        assert(keys_bounded(ledger_of(pre.ledgers@, fd), now));
                        lemma_pushed_upper(
                            ledger_of(pre.ledgers@, fd),
                            now,
                            (fl - amount) as u128,
                            t2,
                        );
                        lemma_pushed_upper(pre.total@, now, (tl - amount) as u128, t2);
                        if t2 >= now {
                            lemma_upper0_at_or_after(ledger_of(pre.ledgers@, fd), now, t2);
                            lemma_upper0_at_or_after(pre.total@, now, t2);
                        }
                    }
                    assert forall|d: u64| latest_spec(
                        #[trigger] ledger_of(post.ledgers@, d),
                    ) as int == delegated_sum(post.units@, post.delegation@, d) by {
                        assert(latest_spec(ledger_of(pre.ledgers@, d)) as int == delegated_sum(
                            pre.units@,
                            pre.delegation@,
                            d,
                        ));
                        assert(delegated_sum(post.units@, pre.delegation@, d) == delegated_sum(
                            pre.units@,
                            pre.delegation@,
                            d,
                        ) + (if delegate_of(pre.delegation@, f) == d {
                            0 - amount as int
                        } else {
                            0
                        }));
                        if d == fd {
                            crate::checkpoint::lemma_latest_after_push(
                                ledger_of(pre.ledgers@, fd),
                                now,
                                (fl - amount) as u128,
                            );
                        }
                    }
                    crate::checkpoint::lemma_latest_after_push(
                        pre.total@,
                        now,
                        (tl - amount) as u128,
                    );
                    assert(post.wf());
                }
            },
            (Option::Some(f), Option::Some(t)) => {
                if f == t {
                    self.clock = now;
                    proof {
                        let post = *self;
                        assert forall|t2: u32| votes_sum_at(post.ledgers@, t2) == #[trigger] upper0(
                            post.total@,
                            t2,
                        ) as int by {
                            assert(votes_sum_at(pre.ledgers@, t2) == upper0(pre.total@, t2) as int);
                        }
                        assert(post.wf());
                    }
                } else {
                    let fd = self.delegates(f);
                    let td = self.delegates(t);
                    let uf = self.voting_units(f);
                    let ut = self.voting_units(t);
                    proof {
                        lemma_two_units_le_total(pre.units@, f, t);
                    }
                    if fd != td {
                        let fl = ledger_latest(&self.ledgers, fd);
                        let tl2 = ledger_latest(&self.ledgers, td);
                        proof {
                            assert(fl as int == delegated_sum(pre.units@, pre.delegation@, fd));
                            assert(tl2 as int == delegated_sum(pre.units@, pre.delegation@, td));
                            lemma_units_le_delegated_sum(pre.units@, pre.delegation@, f);
                            assert(amount <= fl);
                            lemma_delegated_sum_plus_units_le_total(
                                pre.units@,
                                pre.delegation@,
                                td,
                                f,
                            );
                            lemma_units_le_total(pre.units@, t);
                            assert forall|i: int|
                                0 <= i < self.ledgers@.len() implies keys_increasing(
                                (#[trigger] self.ledgers@[i]).1@,
                            ) && keys_bounded(self.ledgers@[i].1@, now) by {
                                assert(keys_increasing((pre.ledgers@[i]).1@));
                                assert(keys_bounded(pre.ledgers@[i].1@, pre.clock));
                            }
                        }
                        ledger_push(&mut self.ledgers, fd, fl - amount, now);
                        let ghost l1 = self.ledgers@;
                        ledger_push(&mut self.ledgers, td, tl2 + amount, now);
                        proof {
                            assert(ledger_of(l1, td) == ledger_of(pre.ledgers@, td));
                            assert forall|a: u64| a != fd && a != td implies ledger_of(
                                self.ledgers@,
                                a,
                            ) == ledger_of(pre.ledgers@, a) by {
                                assert(ledger_of(l1, a) == ledger_of(pre.ledgers@, a));
                            }
                        }
                        units_put(&mut self.units, f, uf - amount);
                        units_put(&mut self.units, t, ut + amount);
                        self.clock = now;
                        proof {
                            let post = *self;
                            let l0 = pre.ledgers@;
                            let fv = (fl - amount) as u128;
                            let tv = (tl2 + amount) as u128;
                            assert forall|t2: u32| votes_sum_at(post.ledgers@, t2)
                                == #[trigger] upper0(post.total@, t2) as int by {
                                assert(votes_sum_at(l0, t2) == upper0(pre.total@, t2) as int);
                                lemma_ledger_of_wf(l0, pre.clock, fd);
                                lemma_ledger_of_wf(l0, pre.clock, td);
                                assert(keys_bounded(ledger_of(l0, fd), now));
                                assert(keys_bounded(ledger_of(l0, td), now));
                                lemma_pushed_upper(ledger_of(l0, fd), now, fv, t2);
                                lemma_pushed_upper(ledger_of(l0, td), now, tv, t2);
                                if t2 >= now {
                                    lemma_upper0_at_or_after(ledger_of(l0, fd), now, t2);
                                    lemma_upper0_at_or_after(ledger_of(l0, td), now, t2);
                                }
                            }
                            assert forall|d: u64| latest_spec(
                                #[trigger] ledger_of(post.ledgers@, d),
                            ) as int == delegated_sum(post.units@, post.delegation@, d) by {
                                assert(latest_spec(ledger_of(l0, d)) as int == delegated_sum(
                                    pre.units@,
                                    pre.delegation@,
                                    d,
                                ));
                                if d == fd {
                                    crate::checkpoint::lemma_latest_after_push(
                                        ledger_of(l0, fd),
                                        now,
                                        fv,
                                    );
                                } else if d == td {
                                    crate::checkpoint::lemma_latest_after_push(
                                        ledger_of(l0, td),
                                        now,
                                        tv,
                                    );
                                }
                            }
                            assert(post.wf());
                        }
                    } else {
                        units_put(&mut self.units, f, uf - amount);
                        units_put(&mut self.units, t, ut + amount);
                        self.clock = now;
                        proof {
                            let post = *self;
                            assert forall|t2: u32| votes_sum_at(post.ledgers@, t2)
                                == #[trigger] upper0(post.total@, t2) as int by {
                                assert(votes_sum_at(pre.ledgers@, t2) == upper0(
                                    pre.total@,
                                    t2,
                                ) as int);
                            }
                            assert forall|d: u64| latest_spec(
                                #[trigger] ledger_of(post.ledgers@, d),
                            ) as int == delegated_sum(post.units@, post.delegation@, d) by {
                                assert(latest_spec(ledger_of(pre.ledgers@, d)) as int
                                    == delegated_sum(pre.units@, pre.delegation@, d));
                            }
                            assert(post.wf());
                        }
                    }
                }
            },
        }
    }
}

/// Consumes a signer's nonce when it is the next expected one.
fn nonce_consume(t: &mut Vec<(u64, u128)>, signer: u64, nonce: u128) -> (ok: bool)
    requires
        keys_unique(old(t)@),
        nonce_of(old(t)@, signer) < u128::MAX,
    ensures
        keys_unique(final(t)@),
        ok == (nonce == nonce_of(old(t)@, signer)),
        ok ==> nonce_of(final(t)@, signer) == nonce + 1 && (forall|x: u64|
            x != signer ==> nonce_of(final(t)@, x) == nonce_of(old(t)@, x)),
        !ok ==> final(t)@ == old(t)@,
{
    let cur = match table_find(t, signer) {
        Some(i) => t[i].1,
        None => 0,
    };
    if nonce != cur {
        return false;
    }
    let _ = table_put(t, signer, nonce + 1);
    true
}

impl VotesLedger {
    /// Applies a delegation that `signer` authorized off-chain: checks the
    /// expiry against `now`, recomputes the signed digest over
    /// `(delegatee, nonce, expiry)`, asks the verification collaborator,
    /// consumes the signer's nonce, and only then moves the weight exactly
    /// as `delegate` does. A reused nonce faults every time, whatever the
    /// signature.
    pub fn delegate_by_signature<V: SignatureVerifier>(
        &mut self,
        verifier: &V,
        signer: u64,
        delegatee: u64,
        nonce: u128,
        expiry: u32,
        signature: &Signature,
        now: u32,
    ) -> (r: Result<(), GovernanceError>)
        requires
            old(self).wf(),
            now >= old(self).clock,
            nonce_of(old(self).nonce_table@, signer) < u128::MAX,
        ensures
            final(self).wf(),
            (now > expiry) <==> r == Err::<(), GovernanceError>(
                GovernanceError::ExpiredSignature(expiry),
            ),
            r == Err::<(), GovernanceError>(GovernanceError::InvalidNonce(signer, nonce))
                ==> nonce != nonce_of(old(self).nonce_table@, signer),
            nonce != nonce_of(old(self).nonce_table@, signer) ==> !(r is Ok),
            r is Ok ==> nonce == nonce_of(old(self).nonce_table@, signer) && nonce_of(
                final(self).nonce_table@,
                signer,
            ) == nonce + 1 && (forall|x: u64|
                x != signer ==> nonce_of(final(self).nonce_table@, x) == nonce_of(
                    old(self).nonce_table@,
                    x,
                )) && delegation_moved(*old(self), *final(self), signer, delegatee, now),
            !(r is Ok) ==> final(self).units@ == old(self).units@
                && final(self).delegation@ == old(self).delegation@
                && final(self).ledgers@ == old(self).ledgers@
                && final(self).total@ == old(self).total@
                && final(self).nonce_table@ == old(self).nonce_table@
                && final(self).clock == old(self).clock,
    {
        if now > expiry {
            return Err(GovernanceError::ExpiredSignature(expiry));
        }
        let digest = hash_delegation_payload(delegatee, nonce, expiry);
        let message = hash_to_vec(&digest);
        if !verifier.verify(&message, signer, signature) {
            return Err(GovernanceError::InvalidSignature(signer));
        }
        if !nonce_consume(&mut self.nonce_table, signer, nonce) {
            return Err(GovernanceError::InvalidNonce(signer, nonce));
        }
        let ghost mid = *self;
        proof {
            assert forall|t: u32| votes_sum_at(mid.ledgers@, t) == #[trigger] upper0(
                mid.total@,
                t,
            ) as int by {
                assert(votes_sum_at(old(self).ledgers@, t) == upper0(old(self).total@, t) as int);
            }
            assert forall|d: u64| latest_spec(#[trigger] ledger_of(mid.ledgers@, d)) as int
                == delegated_sum(mid.units@, mid.delegation@, d) by {
                assert(latest_spec(ledger_of(old(self).ledgers@, d)) as int == delegated_sum(
                    old(self).units@,
                    old(self).delegation@,
                    d,
                ));
            }
            assert(mid.wf());
        }
        let r = self.delegate(signer, delegatee, now);
        proof {
            assert(delegation_moved(mid, *self, signer, delegatee, now));
            assert(delegation_moved(*old(self), *self, signer, delegatee, now));
        }
        r
    }
}

/// Law: delegation conserves weight. At every timepoint the delegate
/// histories, summed over all known accounts, equal the aggregate supply
/// recorded at that timepoint; an account without a history contributes
/// zero.
pub proof fn lemma_delegation_conservation(l: &VotesLedger, t: u32)
    requires
        l.wf(),
    ensures
        votes_sum_at(l.ledgers@, t) == upper0(l.total@, t) as int,
{
}

} // verus!
