//! Association sequences: the spec-level model of the small keyed maps the
//! engine maintains (trackers by height, trackers by parent pointer, witnesses
//! by validator). A map is a sequence of key-value pairs with pairwise
//! distinct keys; insertion order is part of the value.
use vstd::prelude::*;

use crate::types::ApprovalInner;
use crate::types::ValidatorAddress;

verus! {

/// No two entries share a key.
pub open spec fn unique_keys<K, V>(s: Seq<(K, V)>) -> bool {
    forall|i: int, j: int| 0 <= i < j < s.len() ==> s[i].0 != s[j].0
}

/// Some entry has key `k`.
pub open spec fn has_key<K, V>(s: Seq<(K, V)>, k: K) -> bool {
    exists|i: int| 0 <= i < s.len() && s[i].0 == k
}

/// The index of the entry with key `k` (meaningful when `has_key` and keys
/// are unique).
pub open spec fn key_index<K, V>(s: Seq<(K, V)>, k: K) -> int {
    choose|i: int| 0 <= i < s.len() && s[i].0 == k
}

/// The value stored under `k`, if any.
pub open spec fn kv_get<K, V>(s: Seq<(K, V)>, k: K) -> Option<V> {
    if has_key(s, k) {
        Some(s[key_index(s, k)].1)
    } else {
        None
    }
}

/// Update the entry under `k` in place, or append a new entry at the end.
pub open spec fn kv_set<K, V>(s: Seq<(K, V)>, k: K, v: V) -> Seq<(K, V)> {
    if has_key(s, k) {
        s.update(key_index(s, k), (k, v))
    } else {
        s.push((k, v))
    }
}

/// Drop the entry under `k`, keeping the order of the rest.
pub open spec fn kv_remove<K, V>(s: Seq<(K, V)>, k: K) -> Seq<(K, V)> {
    if has_key(s, k) {
        s.remove(key_index(s, k))
    } else {
        s
    }
}

/// With unique keys, an entry's position determines `key_index` and `kv_get`.
pub proof fn lemma_key_at<K, V>(s: Seq<(K, V)>, i: int)
    requires
        unique_keys(s),
        0 <= i < s.len(),
    ensures
        has_key(s, s[i].0),
        key_index(s, s[i].0) == i,
        kv_get(s, s[i].0) == Some(s[i].1),
{
    assert(has_key(s, s[i].0));
    let j = key_index(s, s[i].0);
    assert(0 <= j < s.len() && s[j].0 == s[i].0);
    if i < j {
        assert(s[i].0 != s[j].0);
    } else if j < i {
        assert(s[j].0 != s[i].0);
    }
}

/// `kv_set` keeps keys unique and changes only the entry under `k`.
pub proof fn lemma_kv_set<K, V>(s: Seq<(K, V)>, k: K, v: V)
    requires
        unique_keys(s),
    ensures
        unique_keys(kv_set(s, k, v)),
        kv_get(kv_set(s, k, v), k) == Some(v),
        forall|k2: K| k2 != k ==> kv_get(kv_set(s, k, v), k2) == kv_get(s, k2),
{
    let t = kv_set(s, k, v);
    if has_key(s, k) {
        let i = key_index(s, k);
        assert(0 <= i < s.len() && s[i].0 == k);
        assert(unique_keys(t)) by {
            assert(forall|p: int, q: int| 0 <= p < q < t.len() ==> t[p].0 != t[q].0) by {
                assert(forall|p: int| 0 <= p < t.len() && p != i ==> t[p] == s[p]);
            }
        }
        assert(t[i].0 == k);
        lemma_key_at(t, i);
        assert forall|k2: K| k2 != k implies kv_get(t, k2) == kv_get(s, k2) by {
            if has_key(s, k2) {
                let j = key_index(s, k2);
                assert(0 <= j < s.len() && s[j].0 == k2);
                assert(j != i);
                assert(t[j] == s[j]);
                lemma_key_at(s, j);
                lemma_key_at(t, j);
            } else {
                if has_key(t, k2) {
                    let j = key_index(t, k2);
                    assert(0 <= j < t.len() && t[j].0 == k2);
                    assert(j != i);
                    assert(s[j].0 == k2);
                }
            }
        }
    } else {
        assert(forall|p: int| 0 <= p < s.len() ==> s[p].0 != k);
        assert(unique_keys(t)) by {
            assert(forall|p: int| 0 <= p < s.len() ==> t[p] == s[p]);
            assert(t[s.len() as int] == (k, v));
        }
        assert(t[s.len() as int].0 == k);
        lemma_key_at(t, s.len() as int);
        assert forall|k2: K| k2 != k implies kv_get(t, k2) == kv_get(s, k2) by {
            if has_key(s, k2) {
                let j = key_index(s, k2);
                assert(t[j] == s[j]);
                lemma_key_at(s, j);
                lemma_key_at(t, j);
            } else {
                if has_key(t, k2) {
                    let j = key_index(t, k2);
                    assert(0 <= j < t.len() && t[j].0 == k2);
                    assert(j != s.len());
                    assert(s[j].0 == k2);
                }
            }
        }
    }
}

/// `kv_remove` keeps keys unique, drops `k` and changes nothing else.
pub proof fn lemma_kv_remove<K, V>(s: Seq<(K, V)>, k: K)
    requires
        unique_keys(s),
    ensures
        unique_keys(kv_remove(s, k)),
        kv_get(kv_remove(s, k), k) is None,
        forall|k2: K| k2 != k ==> kv_get(kv_remove(s, k), k2) == kv_get(s, k2),
{
    let t = kv_remove(s, k);
    if has_key(s, k) {
        let i = key_index(s, k);
        assert(0 <= i < s.len() && s[i].0 == k);
        assert(forall|p: int| 0 <= p < i ==> t[p] == s[p]);
        assert(forall|p: int| i <= p < t.len() ==> t[p] == s[p + 1]);
        assert(unique_keys(t)) by {
            assert forall|p: int, q: int| 0 <= p < q < t.len() implies t[p].0 != t[q].0 by {
                let p2 = if p < i { p } else { p + 1 };
                let q2 = if q < i { q } else { q + 1 };
                assert(t[p] == s[p2] && t[q] == s[q2]);
            }
        }
        assert(!has_key(t, k)) by {
            if has_key(t, k) {
                let j = key_index(t, k);
                let j2 = if j < i { j } else { j + 1 };
                assert(s[j2].0 == k);
            }
        }
        assert forall|k2: K| k2 != k implies kv_get(t, k2) == kv_get(s, k2) by {
            if has_key(s, k2) {
                let j = key_index(s, k2);
                assert(0 <= j < s.len() && s[j].0 == k2);
                assert(j != i);
                let j2 = if j < i { j } else { j - 1 };
                assert(t[j2] == s[j]);
                lemma_key_at(s, j);
                lemma_key_at(t, j2);
            } else {
                if has_key(t, k2) {
                    let j = key_index(t, k2);
                    let j2 = if j < i { j } else { j + 1 };
                    assert(s[j2].0 == k2);
                }
            }
        }
    }
}

/// Finds the entry whose key is the given height.
pub fn find_height<V>(s: &Vec<(u64, V)>, k: u64) -> (r: Option<usize>)
    ensures
        match r {
            Some(i) => i < s@.len() && s@[i as int].0 == k,
            None => !has_key(s@, k),
        },
{
    let mut i: usize = 0;
    while i < s.len()
        invariant
            i <= s@.len(),
            forall|j: int| 0 <= j < i ==> s@[j].0 != k,
        decreases s@.len() - i,
    {
        if s[i].0 == k {
            return Some(i);
        }
        i += 1;
    }
    None
}

/// Finds the entry whose key is the given validator.
pub fn find_validator<V>(s: &Vec<(ValidatorAddress, V)>, k: ValidatorAddress) -> (r: Option<usize>)
    ensures
        match r {
            Some(i) => i < s@.len() && s@[i as int].0 == k,
            None => !has_key(s@, k),
        },
{
    let mut i: usize = 0;
    while i < s.len()
        invariant
            i <= s@.len(),
            forall|j: int| 0 <= j < i ==> s@[j].0 != k,
        decreases s@.len() - i,
    {
        if s[i].0 == k {
            return Some(i);
        }
        i += 1;
    }
    None
}

/// Finds the entry whose key is the given parent pointer.
pub fn find_parent<V>(s: &Vec<(ApprovalInner, V)>, k: ApprovalInner) -> (r: Option<usize>)
    ensures
        match r {
            Some(i) => i < s@.len() && s@[i as int].0 == k,
            None => !has_key(s@, k),
        },
{
    let mut i: usize = 0;
    while i < s.len()
        invariant
            i <= s@.len(),
            forall|j: int| 0 <= j < i ==> s@[j].0 != k,
        decreases s@.len() - i,
    {
        if s[i].0 == k {
            return Some(i);
        }
        i += 1;
    }
    None
}

/// A mutable borrow of the value at index `i`, for updating one entry of an
/// association vector in place.
pub fn entry_value_mut<K, V>(s: &mut Vec<(K, V)>, i: usize) -> (r: &mut V)
    requires
        i < old(s)@.len(),
    ensures
        *r == old(s)@[i as int].1,
        final(s)@ == old(s)@.update(i as int, (old(s)@[i as int].0, *final(r))),
{
    &mut s[i].1
}

} // verus!
