//! An append-only, time-ordered history of (key, value) samples supporting
//! point-in-time queries by binary search.

use vstd::prelude::*;

verus! {

/// One sample: `value` became current as of timepoint `key`.
#[derive(Clone, Copy, PartialEq, Eq, Structural, Debug)]
pub struct Checkpoint {
    pub key: u32,
    pub value: u128,
}

/// Fault raised when a checkpoint is pushed with a key strictly smaller than
/// the newest stored key.
#[derive(Clone, Copy, PartialEq, Eq, Structural, Debug)]
pub enum CheckpointsError {
    UnorderedInsertion,
}

/// An ordered sequence of checkpoints, one ledger per subject. Keys are
/// strictly increasing in storage order; a push with the newest key coalesces
/// into the newest entry instead of appending.
pub struct Checkpoints {
    pub checkpoints: Vec<Checkpoint>,
}

impl View for Checkpoints {
    type V = Seq<Checkpoint>;

    open spec fn view(&self) -> Seq<Checkpoint> {
        self.checkpoints@
    }
}

/// Keys are strictly increasing, so no two stored checkpoints share a key.
pub open spec fn keys_increasing(s: Seq<Checkpoint>) -> bool {
    forall|i: int, j: int| 0 <= i < j < s.len() ==> s[i].key < s[j].key
}

/// Linear-scan baseline for `upper_lookup`: the value of the last (most
/// recent) checkpoint whose key is at most `k`.
pub open spec fn upper_scan(s: Seq<Checkpoint>, k: u32) -> Option<u128>
    decreases s.len(),
{
    if s.len() == 0 {
        None
    } else if s.last().key <= k {
        Some(s.last().value)
    } else {
        upper_scan(s.drop_last(), k)
    }
}

/// Linear-scan baseline for `lower_lookup`: the value of the first (oldest)
/// checkpoint whose key is at least `k`.
pub open spec fn lower_scan(s: Seq<Checkpoint>, k: u32) -> Option<u128>
    decreases s.len(),
{
    if s.len() == 0 {
        None
    } else if s.first().key >= k {
        Some(s.first().value)
    } else {
        lower_scan(s.drop_first(), k)
    }
}

/// The most recent value, or zero for an empty ledger.
pub open spec fn latest_spec(s: Seq<Checkpoint>) -> u128 {
    if s.len() == 0 {
        0
    } else {
        s.last().value
    }
}

/// The stored sequence after a successful push: a key equal to the newest
/// stored key overwrites the newest entry, a larger key appends.
pub open spec fn pushed(s: Seq<Checkpoint>, key: u32, value: u128) -> Seq<Checkpoint> {
    if s.len() > 0 && s.last().key == key {
        s.update(s.len() - 1, Checkpoint { key, value })
    } else {
        s.push(Checkpoint { key, value })
    }
}

/// If every key is above `k`, the backward scan finds nothing.
pub proof fn lemma_upper_scan_none(s: Seq<Checkpoint>, k: u32)
    requires
        forall|i: int| 0 <= i < s.len() ==> s[i].key > k,
    ensures
        upper_scan(s, k) == None::<u128>,
    decreases s.len(),
{
    if s.len() > 0 {
        lemma_upper_scan_none(s.drop_last(), k);
    }
}

/// If entry `i` is at or below `k` and everything after it is above `k`,
/// the backward scan answers with entry `i`.
pub proof fn lemma_upper_scan_hit(s: Seq<Checkpoint>, k: u32, i: int)
    requires
        0 <= i < s.len(),
        s[i].key <= k,
        forall|j: int| i < j < s.len() ==> s[j].key > k,
    ensures
        upper_scan(s, k) == Some(s[i].value),
    decreases s.len(),
{
    if i < s.len() - 1 {
        lemma_upper_scan_hit(s.drop_last(), k, i);
    }
}

/// If every key is below `k`, the forward scan finds nothing.
pub proof fn lemma_lower_scan_none(s: Seq<Checkpoint>, k: u32)
    requires
        forall|i: int| 0 <= i < s.len() ==> s[i].key < k,
    ensures
        lower_scan(s, k) == None::<u128>,
    decreases s.len(),
{
    if s.len() > 0 {
        lemma_lower_scan_none(s.drop_first(), k);
    }
}

/// If entry `i` is at or above `k` and everything before it is below `k`,
/// the forward scan answers with entry `i`.
pub proof fn lemma_lower_scan_hit(s: Seq<Checkpoint>, k: u32, i: int)
    requires
        0 <= i < s.len(),
        s[i].key >= k,
        forall|j: int| 0 <= j < i ==> s[j].key < k,
    ensures
        lower_scan(s, k) == Some(s[i].value),
    decreases s.len(),
{
    if i > 0 {
        lemma_lower_scan_hit(s.drop_first(), k, i - 1);
    }
}

/// Every stored key is at most `c`.
pub open spec fn keys_bounded(s: Seq<Checkpoint>, c: u32) -> bool {
    forall|i: int| 0 <= i < s.len() ==> s[i].key <= c
}

/// A push at the newest time keeps the keys strictly increasing and bounded.
pub proof fn lemma_pushed_wf(s: Seq<Checkpoint>, now: u32, v: u128)
    requires
        keys_increasing(s),
        keys_bounded(s, now),
    ensures
        keys_increasing(pushed(s, now, v)),
        keys_bounded(pushed(s, now, v), now),
{
    let p = pushed(s, now, v);
    if s.len() > 0 && s.last().key == now {
        assert forall|i: int, j: int| 0 <= i < j < p.len() implies p[i].key < p[j].key by {
            if j < s.len() - 1 {
                assert(s[i].key < s[j].key);
            } else {
                assert(s[i].key <= now);
                if s[i].key == now && i < s.len() - 1 {
                    assert(s[i].key < s[s.len() - 1].key);
                }
            }
        }
    } else {
        assert forall|i: int, j: int| 0 <= i < j < p.len() implies p[i].key < p[j].key by {
            if j == s.len() as int {
                if s.len() > 0 {
                    assert(s[i].key <= s[s.len() - 1].key);
                    assert(s.last().key < now);
                }
            }
        }
    }
}

/// Effect of a push on historical queries: times before `now` are
/// unchanged, times at or after `now` see the new value.
pub proof fn lemma_pushed_upper(s: Seq<Checkpoint>, now: u32, v: u128, t: u32)
    requires
        keys_increasing(s),
        keys_bounded(s, now),
    ensures
        upper_scan(pushed(s, now, v), t) == (if t >= now {
            Some(v)
        } else {
            upper_scan(s, t)
        }),
{
    let p = pushed(s, now, v);
    assert(p.last() == Checkpoint { key: now, value: v });
    if t >= now {
    } else {
        if s.len() > 0 && s.last().key == now {
            assert(p.drop_last() =~= s.drop_last());
        } else {
            assert(p.drop_last() =~= s);
        }
    }
}

/// Law: after any push, the latest value is the value just pushed.
pub proof fn lemma_latest_after_push(s: Seq<Checkpoint>, key: u32, value: u128)
    ensures
        latest_spec(pushed(s, key, value)) == value,
{
}

/// Law: a backward lookup at or after the newest stored key returns the
/// latest value.
pub proof fn lemma_upper_lookup_at_or_after_latest(s: Seq<Checkpoint>, k: u32)
    requires
        s.len() > 0,
        s.last().key <= k,
    ensures
        upper_scan(s, k) == Some(latest_spec(s)),
{
}

/// The stored sequence after a whole series of pushes, applied in order.
pub open spec fn pushed_all(s: Seq<Checkpoint>, ps: Seq<(u32, u128)>) -> Seq<Checkpoint>
    decreases ps.len(),
{
    if ps.len() == 0 {
        s
    } else {
        pushed(pushed_all(s, ps.drop_last()), ps.last().0, ps.last().1)
    }
}

/// The pushed keys never decrease.
pub open spec fn push_keys_ascending(ps: Seq<(u32, u128)>) -> bool {
    forall|i: int, j: int| 0 <= i < j < ps.len() ==> ps[i].0 <= ps[j].0
}

/// Law: after any series of pushes, the latest value is the value of the
/// last push.
pub proof fn lemma_latest_after_pushes(s: Seq<Checkpoint>, ps: Seq<(u32, u128)>)
    requires
        ps.len() > 0,
    ensures
        latest_spec(pushed_all(s, ps)) == ps.last().1,
{
    lemma_latest_after_push(pushed_all(s, ps.drop_last()), ps.last().0, ps.last().1);
}

/// A ledger grown from empty by pushes with non-decreasing keys is
/// well-formed, non-empty, and its keys stay at or below the last pushed
/// key.
pub proof fn lemma_pushes_wf(ps: Seq<(u32, u128)>)
    requires
        push_keys_ascending(ps),
        ps.len() > 0,
    ensures
        keys_increasing(pushed_all(Seq::<Checkpoint>::empty(), ps)),
        pushed_all(Seq::<Checkpoint>::empty(), ps).len() > 0,
        keys_bounded(pushed_all(Seq::<Checkpoint>::empty(), ps), ps.last().0),
    decreases ps.len(),
{
    let prev = pushed_all(Seq::<Checkpoint>::empty(), ps.drop_last());
    if ps.len() == 1 {
        lemma_pushed_wf(prev, ps.last().0, ps.last().1);
    } else {
        lemma_pushes_wf(ps.drop_last());
        assert(ps.drop_last().last().0 <= ps.last().0);
        assert(keys_bounded(prev, ps.last().0));
        lemma_pushed_wf(prev, ps.last().0, ps.last().1);
    }
}

/// Law: on a ledger grown from empty by pushes with non-decreasing keys, a
/// backward lookup at or after the last pushed key answers with the latest
/// value, the value of the last push.
pub proof fn lemma_upper_lookup_after_pushes(ps: Seq<(u32, u128)>, k: u32)
    requires
        push_keys_ascending(ps),
        ps.len() > 0,
        k >= ps.last().0,
    ensures
        upper_scan(pushed_all(Seq::<Checkpoint>::empty(), ps), k) == Some(ps.last().1),
{
    let grown = pushed_all(Seq::<Checkpoint>::empty(), ps);
    lemma_pushes_wf(ps);
    assert(grown.last() == Checkpoint { key: ps.last().0, value: ps.last().1 });
    lemma_upper_lookup_at_or_after_latest(grown, k);
}

impl Checkpoints {
    /// All stored keys are strictly increasing.
    pub open spec fn wf(&self) -> bool {
        keys_increasing(self@)
    }

    /// Creates an empty ledger.
    pub fn new() -> (r: Self)
        ensures
            r@ == Seq::<Checkpoint>::empty(),
            r.wf(),
    {
        Checkpoints { checkpoints: Vec::new() }
    }

    /// The number of stored checkpoints.
    pub fn len(&self) -> (n: usize)
        ensures
            n == self@.len(),
    {
        self.checkpoints.len()
    }

    /// The checkpoint at `index`, oldest first.
    pub fn at(&self, index: usize) -> (r: Option<&Checkpoint>)
        ensures
            match r {
                Some(c) => index < self@.len() && *c == self@[index as int],
                None => index >= self@.len(),
            },
    {
        if index < self.checkpoints.len() {
            Some(&self.checkpoints[index])
        } else {
            None
        }
    }

    /// The value in the most recent checkpoint, or zero if there is none.
    pub fn latest(&self) -> (v: u128)
        ensures
            v == latest_spec(self@),
    {
        let n = self.checkpoints.len();
        if n == 0 {
            0
        } else {
            self.checkpoints[n - 1].value
        }
    }

    /// Whether the ledger is non-empty, and if so the newest key and value.
    pub fn latest_checkpoint(&self) -> (r: (bool, u32, u128))
        ensures
            r.0 == (self@.len() > 0),
            self@.len() > 0 ==> r.1 == self@.last().key && r.2 == self@.last().value,
            self@.len() == 0 ==> r.1 == 0 && r.2 == 0,
    {
        let n = self.checkpoints.len();
        if n == 0 {
            (false, 0, 0)
        } else {
            let c = self.checkpoints[n - 1];
            (true, c.key, c.value)
        }
    }

    /// Appends `(key, value)`, coalescing when `key` equals the newest stored
    /// key, and returns the previous latest value together with the new one.
    /// Faults without changing anything when `key` is older than the newest
    /// stored key.
    pub fn push(&mut self, key: u32, value: u128) -> (r: Result<(u128, u128), CheckpointsError>)
        requires
            old(self).wf(),
        ensures
            final(self).wf(),
            match r {
                Ok(pv) => (old(self)@.len() == 0 || old(self)@.last().key <= key)
                    && pv.0 == latest_spec(old(self)@)
                    && pv.1 == value
                    && final(self)@ == pushed(old(self)@, key, value),
                Err(e) => e == CheckpointsError::UnorderedInsertion
                    && old(self)@.len() > 0
                    && key < old(self)@.last().key
                    && final(self)@ == old(self)@,
            },
    {
        let n = self.checkpoints.len();
        if n == 0 {
            self.checkpoints.push(Checkpoint { key, value });
            proof {
                assert(final(self)@ =~= pushed(old(self)@, key, value));
            }
            Ok((0, value))
        } else {
            let last = self.checkpoints[n - 1];
            if key < last.key {
                Err(CheckpointsError::UnorderedInsertion)
            } else if key == last.key {
                self.checkpoints[n - 1] = Checkpoint { key, value };
                proof {
                    assert(final(self)@ =~= pushed(old(self)@, key, value));
                }
                Ok((last.value, value))
            } else {
                self.checkpoints.push(Checkpoint { key, value });
                proof {
                    assert(final(self)@ =~= pushed(old(self)@, key, value));
                }
                Ok((last.value, value))
            }
        }
    }

    /// Binary search: the first position such that every checkpoint before it
    /// has a key at most `key` and every checkpoint from it on has a larger
    /// key.
    fn upper_binary_lookup(&self, key: u32, low: usize, high: usize) -> (pos: usize)
        requires
            self.wf(),
            low <= high && high <= self@.len(),
            forall|i: int| 0 <= i < low ==> self@[i].key <= key,
            forall|i: int| high <= i < self@.len() ==> self@[i].key > key,
        ensures
            low <= pos <= high,
            forall|i: int| 0 <= i < pos ==> self@[i].key <= key,
            forall|i: int| pos <= i < self@.len() ==> self@[i].key > key,
    {
        let mut lo = low;
        let mut hi = high;
        while lo < hi
            invariant
                self.wf(),
                low <= lo <= hi <= high,
                high <= self@.len(),
                forall|i: int| 0 <= i < lo ==> self@[i].key <= key,
                forall|i: int| hi <= i < self@.len() ==> self@[i].key > key,
            decreases hi - lo,
        {
            let mid = lo + (hi - lo) / 2;
            if self.checkpoints[mid].key > key {
                hi = mid;
            } else {
                lo = mid + 1;
            }
        }
        lo
    }

    /// Binary search: the first position whose checkpoint key is at least
    /// `key`; every checkpoint before it has a smaller key.
    fn lower_binary_lookup(&self, key: u32, low: usize, high: usize) -> (pos: usize)
        requires
            self.wf(),
            low <= high && high <= self@.len(),
            forall|i: int| 0 <= i < low ==> self@[i].key < key,
            forall|i: int| high <= i < self@.len() ==> self@[i].key >= key,
        ensures
            low <= pos <= high,
            forall|i: int| 0 <= i < pos ==> self@[i].key < key,
            forall|i: int| pos <= i < self@.len() ==> self@[i].key >= key,
    {
        let mut lo = low;
        let mut hi = high;
        while lo < hi
            invariant
                self.wf(),
                low <= lo <= hi <= high,
                high <= self@.len(),
                forall|i: int| 0 <= i < lo ==> self@[i].key < key,
                forall|i: int| hi <= i < self@.len() ==> self@[i].key >= key,
            decreases hi - lo,
        {
            let mid = lo + (hi - lo) / 2;
            if self.checkpoints[mid].key < key {
                lo = mid + 1;
            } else {
                hi = mid;
            }
        }
        lo
    }

    /// The value of the first (oldest) checkpoint whose key is at least
    /// `key`, or `None` when the search key is beyond every stored key.
    pub fn lower_lookup(&self, key: u32) -> (r: Option<u128>)
        requires
            self.wf(),
        ensures
            r == lower_scan(self@, key),
    {
        let len = self.checkpoints.len();
        let pos = self.lower_binary_lookup(key, 0, len);
        if pos == len {
            proof {
                lemma_lower_scan_none(self@, key);
            }
            None
        } else {
            proof {
                lemma_lower_scan_hit(self@, key, pos as int);
            }
            Some(self.checkpoints[pos].value)
        }
    }

    /// The value of the last (most recent) checkpoint whose key is at most
    /// `key`, or `None` when `key` precedes every stored checkpoint.
    pub fn upper_lookup(&self, key: u32) -> (r: Option<u128>)
        requires
            self.wf(),
        ensures
            r == upper_scan(self@, key),
    {
        let len = self.checkpoints.len();
        let pos = self.upper_binary_lookup(key, 0, len);
        if pos == 0 {
            proof {
                lemma_upper_scan_none(self@, key);
            }
            None
        } else {
            proof {
                lemma_upper_scan_hit(self@, key, pos - 1);
            }
            Some(self.checkpoints[pos - 1].value)
        }
    }

    /// Same result as `upper_lookup` on every input; checks the newest
    /// checkpoint first, since queries near the present are the common case.
    pub fn upper_lookup_recent(&self, key: u32) -> (r: Option<u128>)
        requires
            self.wf(),
        ensures
            r == upper_scan(self@, key),
    {
        let len = self.checkpoints.len();
        if len > 0 {
            let last = self.checkpoints[len - 1];
            if last.key <= key {
                proof {
                    lemma_upper_scan_hit(self@, key, len - 1);
                }
                return Some(last.value);
            }
        }
        self.upper_lookup(key)
    }
}

impl Default for Checkpoints {
    /// An empty ledger.
    fn default() -> (r: Self)
        ensures
            r@ == Seq::<Checkpoint>::empty(),
            r.wf(),
    {
        Checkpoints::new()
    }
}

} // verus!
