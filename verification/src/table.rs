//! Association lists keyed by account, with first-match lookup as the
//! mathematical model.

use vstd::prelude::*;

verus! {

/// First-match lookup in an association list.
pub open spec fn lookup<T>(s: Seq<(u64, T)>, k: u64) -> Option<T>
    decreases s.len(),
{
    if s.len() == 0 {
        None
    } else if s.first().0 == k {
        Some(s.first().1)
    } else {
        lookup(s.drop_first(), k)
    }
}

/// No key occurs twice.
pub open spec fn keys_unique<T>(s: Seq<(u64, T)>) -> bool {
    forall|i: int, j: int| 0 <= i < j < s.len() ==> s[i].0 != s[j].0
}

/// The first occurrence of a key is what lookup answers with.
pub proof fn lemma_lookup_at<T>(s: Seq<(u64, T)>, i: int)
    requires
        0 <= i < s.len(),
        forall|j: int| 0 <= j < i ==> s[j].0 != s[i].0,
    ensures
        lookup(s, s[i].0) == Some(s[i].1),
    decreases s.len(),
{
    if i > 0 {
        lemma_lookup_at(s.drop_first(), i - 1);
    }
}

/// A key that occurs nowhere looks up to nothing.
pub proof fn lemma_lookup_absent<T>(s: Seq<(u64, T)>, k: u64)
    requires
        forall|i: int| 0 <= i < s.len() ==> s[i].0 != k,
    ensures
        lookup(s, k) == None::<T>,
    decreases s.len(),
{
    if s.len() > 0 {
        lemma_lookup_absent(s.drop_first(), k);
    }
}

/// Replacing the value at position `i` changes the lookup of that entry's
/// key alone.
pub proof fn lemma_lookup_update<T>(s: Seq<(u64, T)>, i: int, v: T, k: u64)
    requires
        keys_unique(s),
        0 <= i < s.len(),
    ensures
        lookup(s.update(i, (s[i].0, v)), k) == (if k == s[i].0 {
            Some(v)
        } else {
            lookup(s, k)
        }),
    decreases s.len(),
{
    let t = s.update(i, (s[i].0, v));
    if i == 0 {
        if k == s[0].0 {
        } else {
            assert(t.drop_first() =~= s.drop_first());
        }
    } else {
        assert(t.drop_first() =~= s.drop_first().update(i - 1, (s[i].0, v)));
        assert(s.drop_first()[i - 1] == s[i]);
        lemma_lookup_update(s.drop_first(), i - 1, v, k);
    }
}

/// Appending an entry with a fresh key changes the lookup of that key alone.
pub proof fn lemma_lookup_push<T>(s: Seq<(u64, T)>, k0: u64, v: T, k: u64)
    requires
        forall|i: int| 0 <= i < s.len() ==> s[i].0 != k0,
    ensures
        lookup(s.push((k0, v)), k) == (if k == k0 {
            Some(v)
        } else {
            lookup(s, k)
        }),
    decreases s.len(),
{
    if s.len() == 0 {
        assert(s.push((k0, v)).drop_first() =~= Seq::<(u64, T)>::empty());
    } else {
        assert(s.push((k0, v)).drop_first() =~= s.drop_first().push((k0, v)));
        lemma_lookup_push(s.drop_first(), k0, v, k);
    }
}

/// Dropping the last entry changes no other key's lookup.
pub proof fn lemma_lookup_drop_last<T>(s: Seq<(u64, T)>, k: u64)
    requires
        s.len() > 0,
        s.last().0 != k,
    ensures
        lookup(s.drop_last(), k) == lookup(s, k),
    decreases s.len(),
{
    if s.len() == 1 {
        assert(s.drop_last() =~= Seq::<(u64, T)>::empty());
    } else if s.first().0 == k {
        assert(s.drop_last().first() == s.first());
    } else {
        assert(s.drop_last().drop_first() =~= s.drop_first().drop_last());
        lemma_lookup_drop_last(s.drop_first(), k);
    }
}

/// With unique keys the last entry is what lookup answers with for its key.
pub proof fn lemma_lookup_last<T>(s: Seq<(u64, T)>, k: u64)
    requires
        keys_unique(s),
        s.len() > 0,
        s.last().0 == k,
    ensures
        lookup(s, k) == Some(s.last().1),
{
    lemma_lookup_at(s, s.len() - 1);
}

/// With unique keys, the key carried by the last entry occurs nowhere
/// earlier.
pub proof fn lemma_lookup_absent_of_unique<T>(s: Seq<(u64, T)>, k: u64)
    requires
        keys_unique(s),
        s.len() > 0,
        s.last().0 == k,
    ensures
        lookup(s.drop_last(), k) == None::<T>,
{
    assert forall|i: int| 0 <= i < s.drop_last().len() implies s.drop_last()[i].0 != k by {
        assert(s[i].0 != s[s.len() - 1].0);
    }
    lemma_lookup_absent(s.drop_last(), k);
}

/// The position of the first entry carrying key `k`, if any.
pub fn table_find<V>(t: &Vec<(u64, V)>, k: u64) -> (r: Option<usize>)
    ensures
        match r {
            Some(i) => i < t@.len() && t@[i as int].0 == k && lookup(t@, k) == Some(
                t@[i as int].1,
            ) && (forall|j: int| 0 <= j < i ==> t@[j].0 != k),
            None => lookup(t@, k) == None::<V> && (forall|j: int|
                0 <= j < t@.len() ==> t@[j].0 != k),
        },
{
    let mut i: usize = 0;
    while i < t.len()
        invariant
            i <= t@.len(),
            forall|j: int| 0 <= j < i ==> t@[j].0 != k,
        decreases t@.len() - i,
    {
        if t[i].0 == k {
            proof {
                lemma_lookup_at(t@, i as int);
            }
            return Some(i);
        }
        i += 1;
    }
    proof {
        lemma_lookup_absent(t@, k);
    }
    None
}

/// Binds `k` to `v`, overwriting the entry that carries `k` or appending a
/// fresh one, and reports the position written.
pub fn table_put<V>(t: &mut Vec<(u64, V)>, k: u64, v: V) -> (i: usize)
    requires
        keys_unique(old(t)@),
    ensures
        keys_unique(final(t)@),
        i < final(t)@.len(),
        match lookup(old(t)@, k) {
            Some(_) => i < old(t)@.len() && old(t)@[i as int].0 == k && final(t)@ == old(t)@.update(
                i as int,
                (k, v),
            ),
            None => i == old(t)@.len() && final(t)@ == old(t)@.push((k, v)),
        },
        lookup(final(t)@, k) == Some(v),
        forall|k2: u64| k2 != k ==> lookup(final(t)@, k2) == lookup(old(t)@, k2),
{
    match table_find(t, k) {
        Some(i) => {
            t[i] = (k, v);
            proof {
                assert(final(t)@ == old(t)@.update(i as int, (k, v)));
                assert forall|k2: u64| true implies lookup(final(t)@, k2) == (if k2 == k {
                    Some(v)
                } else {
                    lookup(old(t)@, k2)
                }) by {
                    lemma_lookup_update(old(t)@, i as int, v, k2);
                }
                assert(keys_unique(final(t)@));
            }
            i
        },
        None => {
            let i = t.len();
            t.push((k, v));
            proof {
                assert forall|k2: u64| true implies lookup(final(t)@, k2) == (if k2 == k {
                    Some(v)
                } else {
                    lookup(old(t)@, k2)
                }) by {
                    lemma_lookup_push(old(t)@, k, v, k2);
                }
                assert forall|a: int, b: int|
                    0 <= a < b < final(t)@.len() implies final(t)@[a].0 != final(t)@[b].0 by {
                    if b == old(t)@.len() as int {
                        assert(old(t)@[a].0 != k);
                    }
                }
            }
            i
        },
    }
}

} // verus!
