//! Keyed storage over vectors of pairs, viewed as maps.
//!
//! The broker's keyed state lives in vectors of `(key, value)` pairs whose
//! keys are unique. `amap` gives such a vector its mathematical reading as a
//! `Map`, over which the broker's contracts are stated.

use vstd::prelude::*;
use crate::types::{CoreIndex, PotentialRenewalId, RegionId, Timeslice, WorkplanKey};

verus! {

/// The map a sequence of pairs stands for; later entries would override
/// earlier ones, though under `ukeys` each key appears at most once.
pub open spec fn amap<K, V>(s: Seq<(K, V)>) -> Map<K, V>
    decreases s.len(),
{
    if s.len() == 0 {
        Map::empty()
    } else {
        amap(s.drop_last()).insert(s.last().0, s.last().1)
    }
}

/// Every key appears at most once.
pub open spec fn ukeys<K, V>(s: Seq<(K, V)>) -> bool {
    forall|i: int, j: int|
        0 <= i < j < s.len() ==> (#[trigger] s[i]).0 != (#[trigger] s[j]).0
}

/// A key is in the map exactly when some entry carries it.
pub proof fn lemma_amap_contains<K, V>(s: Seq<(K, V)>, k: K)
    ensures
        amap(s).dom().contains(k) <==> exists|i: int|
            0 <= i < s.len() && (#[trigger] s[i]).0 == k,
    decreases s.len(),
{
    if s.len() > 0 {
        lemma_amap_contains(s.drop_last(), k);
        if s.last().0 == k {
            assert(s[s.len() - 1].0 == k);
        } else if exists|i: int| 0 <= i < s.len() && (#[trigger] s[i]).0 == k {
            let i = choose|i: int| 0 <= i < s.len() && (#[trigger] s[i]).0 == k;
            assert(s.drop_last()[i] == s[i]);
        }
    }
}

/// The entry at an index gives the key's value in the map.
pub proof fn lemma_amap_index<K, V>(s: Seq<(K, V)>, i: int)
    requires
        ukeys(s),
        0 <= i < s.len(),
    ensures
        amap(s).dom().contains(s[i].0),
        amap(s)[s[i].0] == s[i].1,
    decreases s.len(),
{
    if i < s.len() - 1 {
        assert(ukeys(s.drop_last())) by {
            assert(forall|x: int, y: int|
                0 <= x < y < s.len() - 1 ==> (#[trigger] s.drop_last()[x]).0 != (
                #[trigger] s.drop_last()[y]).0) by {
                assert(forall|x: int|
                    0 <= x < s.len() - 1 ==> #[trigger] s.drop_last()[x] == s[x]);
            }
        }
        lemma_amap_index(s.drop_last(), i);
        assert(s[i].0 != s[s.len() - 1].0);
    }
}

/// A key no entry carries is not in the map.
pub proof fn lemma_amap_absent<K, V>(s: Seq<(K, V)>, k: K)
    requires
        forall|i: int| 0 <= i < s.len() ==> (#[trigger] s[i]).0 != k,
    ensures
        !amap(s).dom().contains(k),
    decreases s.len(),
{
    if s.len() > 0 {
        assert(forall|i: int|
            0 <= i < s.len() - 1 ==> (#[trigger] s.drop_last()[i]).0 != k) by {
            assert(forall|i: int| 0 <= i < s.len() - 1 ==> #[trigger] s.drop_last()[i] == s[i]);
        }
        lemma_amap_absent(s.drop_last(), k);
    }
}

/// Appending a fresh key inserts it into the map.
pub proof fn lemma_amap_push<K, V>(s: Seq<(K, V)>, k: K, v: V)
    requires
        forall|i: int| 0 <= i < s.len() ==> (#[trigger] s[i]).0 != k,
    ensures
        amap(s.push((k, v))) == amap(s).insert(k, v),
        ukeys(s) ==> ukeys(s.push((k, v))),
{
    let t = s.push((k, v));
    assert(t.drop_last() =~= s);
    if ukeys(s) {
        assert(forall|i: int| 0 <= i < t.len() - 1 ==> #[trigger] t[i] == s[i]);
    }
}

/// Replacing the value at an index updates the key's entry in the map.
pub proof fn lemma_amap_update<K, V>(s: Seq<(K, V)>, i: int, v: V)
    requires
        ukeys(s),
        0 <= i < s.len(),
    ensures
        amap(s.update(i, (s[i].0, v))) == amap(s).insert(s[i].0, v),
        ukeys(s.update(i, (s[i].0, v))),
    decreases s.len(),
{
    let t = s.update(i, (s[i].0, v));
    assert(forall|j: int| 0 <= j < s.len() ==> (#[trigger] t[j]).0 == s[j].0);
    if i == s.len() - 1 {
        assert(t.drop_last() =~= s.drop_last());
        assert(amap(t) =~= amap(s).insert(s[i].0, v));
    } else {
        assert(ukeys(s.drop_last())) by {
            assert(forall|x: int| 0 <= x < s.len() - 1 ==> #[trigger] s.drop_last()[x] == s[x]);
        }
        lemma_amap_update(s.drop_last(), i, v);
        assert(t.drop_last() =~= s.drop_last().update(i, (s[i].0, v)));
        assert(amap(t) =~= amap(s).insert(s[i].0, v));
    }
}

/// Removing the entry at an index removes its key from the map.
pub proof fn lemma_amap_remove<K, V>(s: Seq<(K, V)>, i: int)
    requires
        ukeys(s),
        0 <= i < s.len(),
    ensures
        amap(s.remove(i)) == amap(s).remove(s[i].0),
        ukeys(s.remove(i)),
    decreases s.len(),
{
    let t = s.remove(i);
    assert(forall|j: int| 0 <= j < i ==> #[trigger] t[j] == s[j]);
    assert(forall|j: int| i <= j < s.len() - 1 ==> #[trigger] t[j] == s[j + 1]);
    assert(ukeys(t));
    if i == s.len() - 1 {
        assert(t =~= s.drop_last());
        assert(forall|j: int| 0 <= j < t.len() ==> (#[trigger] t[j]).0 != s[i].0);
        lemma_amap_absent(t, s[i].0);
        assert(amap(t) =~= amap(s).remove(s[i].0));
    } else {
        assert(ukeys(s.drop_last())) by {
            assert(forall|x: int| 0 <= x < s.len() - 1 ==> #[trigger] s.drop_last()[x] == s[x]);
        }
        lemma_amap_remove(s.drop_last(), i);
        assert(t.drop_last() =~= s.drop_last().remove(i));
        assert(s[i].0 != s[s.len() - 1].0);
        assert(amap(t) =~= amap(s).remove(s[i].0));
    }
}

/// Position of the entry carrying a region key, if any.
pub fn region_index<V>(v: &Vec<(RegionId, V)>, k: RegionId) -> (r: Option<usize>)
    ensures
        match r {
            Some(i) => i < v@.len() && v@[i as int].0 == k,
            None => forall|i: int| 0 <= i < v@.len() ==> (#[trigger] v@[i]).0 != k,
        },
{
    let mut i: usize = 0;
    while i < v.len()
        invariant
            i <= v@.len(),
            forall|j: int| 0 <= j < i ==> (#[trigger] v@[j]).0 != k,
        decreases v@.len() - i,
    {
        if v[i].0 == k {
            return Some(i);
        }
        i = i + 1;
    }
    None
}

/// Bind a region key to a value, replacing any previous binding.
pub fn region_set<V>(v: &mut Vec<(RegionId, V)>, k: RegionId, val: V)
    requires
        ukeys(old(v)@),
    ensures
        ukeys(final(v)@),
        amap(final(v)@) == amap(old(v)@).insert(k, val),
        final(v)@.len() <= old(v)@.len() + 1,
        forall|i: int|
            0 <= i < final(v)@.len() ==> (#[trigger] final(v)@[i]) == (k, val) || (exists|j: int|
                0 <= j < old(v)@.len() && final(v)@[i] == #[trigger] old(v)@[j]),
        (exists|i: int|
            0 <= i < old(v)@.len() && (#[trigger] old(v)@[i]).0 == k && final(v)@ == old(
                v,
            )@.update(i, (k, val))) || (!amap(old(v)@).dom().contains(k) && final(v)@ == old(
            v,
        )@.push((k, val))),
{
    let r = region_index(v, k);
    match r {
        Some(i) => {
            let ghost pre = v@;
            proof {
                lemma_amap_update(v@, i as int, val);
            }
            v.set(i, (k, val));
            proof {
                assert(pre[i as int].0 == k && v@ == pre.update(i as int, (k, val)));
            }
        },
        None => {
            proof {
                lemma_amap_push(v@, k, val);
                lemma_amap_absent(v@, k);
            }
            v.push((k, val));
        },
    }
}

/// Unbind a region key, returning the value it was bound to.
pub fn region_remove<V>(v: &mut Vec<(RegionId, V)>, k: RegionId) -> (r: Option<V>)
    requires
        ukeys(old(v)@),
    ensures
        ukeys(final(v)@),
        match r {
            Some(val) => amap(old(v)@).dom().contains(k) && val == amap(old(v)@)[k] && amap(
                final(v)@) == amap(old(v)@).remove(k) && (exists|i: int|
                0 <= i < old(v)@.len() && (#[trigger] old(v)@[i]) == (k, val) && final(v)@
                    == old(v)@.remove(i)),
            None => !amap(old(v)@).dom().contains(k) && *final(v) == *old(v),
        },
        forall|i: int|
            0 <= i < final(v)@.len() ==> exists|j: int|
                0 <= j < old(v)@.len() && #[trigger] final(v)@[i] == old(v)@[j],
        r is Some ==> final(v)@.len() == old(v)@.len() - 1,
{
    let idx = region_index(v, k);
    match idx {
        Some(i) => {
            proof {
                lemma_amap_index(v@, i as int);
                lemma_amap_remove(v@, i as int);
            }
            let pair = v.remove(i);
            Some(pair.1)
        },
        None => {
            proof {
                lemma_amap_absent(v@, k);
            }
            None
        },
    }
}

/// Position of the entry carrying a workplan key, if any.
pub fn work_index<V>(v: &Vec<(WorkplanKey, V)>, k: WorkplanKey) -> (r: Option<usize>)
    ensures
        match r {
            Some(i) => i < v@.len() && v@[i as int].0 == k,
            None => forall|i: int| 0 <= i < v@.len() ==> (#[trigger] v@[i]).0 != k,
        },
{
    let mut i: usize = 0;
    while i < v.len()
        invariant
            i <= v@.len(),
            forall|j: int| 0 <= j < i ==> (#[trigger] v@[j]).0 != k,
        decreases v@.len() - i,
    {
        if v[i].0 == k {
            return Some(i);
        }
        i = i + 1;
    }
    None
}

/// Bind a workplan key to a value, replacing any previous binding.
pub fn work_set<V>(v: &mut Vec<(WorkplanKey, V)>, k: WorkplanKey, val: V)
    requires
        ukeys(old(v)@),
    ensures
        ukeys(final(v)@),
        amap(final(v)@) == amap(old(v)@).insert(k, val),
        final(v)@.len() <= old(v)@.len() + 1,
        forall|i: int|
            0 <= i < final(v)@.len() ==> (#[trigger] final(v)@[i]) == (k, val) || (exists|j: int|
                0 <= j < old(v)@.len() && final(v)@[i] == #[trigger] old(v)@[j]),
{
    let r = work_index(v, k);
    match r {
        Some(i) => {
            proof {
                lemma_amap_update(v@, i as int, val);
            }
            v.set(i, (k, val));
        },
        None => {
            proof {
                lemma_amap_push(v@, k, val);
            }
            v.push((k, val));
        },
    }
}

/// Unbind a workplan key, returning the value it was bound to.
pub fn work_remove<V>(v: &mut Vec<(WorkplanKey, V)>, k: WorkplanKey) -> (r: Option<V>)
    requires
        ukeys(old(v)@),
    ensures
        ukeys(final(v)@),
        match r {
            Some(val) => amap(old(v)@).dom().contains(k) && val == amap(old(v)@)[k] && amap(
                final(v)@) == amap(old(v)@).remove(k),
            None => !amap(old(v)@).dom().contains(k) && *final(v) == *old(v),
        },
        forall|i: int|
            0 <= i < final(v)@.len() ==> exists|j: int|
                0 <= j < old(v)@.len() && #[trigger] final(v)@[i] == old(v)@[j],
        r is Some ==> final(v)@.len() == old(v)@.len() - 1,
{
    let idx = work_index(v, k);
    match idx {
        Some(i) => {
            proof {
                lemma_amap_index(v@, i as int);
                lemma_amap_remove(v@, i as int);
            }
            let pair = v.remove(i);
            Some(pair.1)
        },
        None => {
            proof {
                lemma_amap_absent(v@, k);
            }
            None
        },
    }
}

/// Position of the entry carrying a renewal key, if any.
pub fn renewal_index<V>(v: &Vec<(PotentialRenewalId, V)>, k: PotentialRenewalId) -> (r: Option<
    usize,
>)
    ensures
        match r {
            Some(i) => i < v@.len() && v@[i as int].0 == k,
            None => forall|i: int| 0 <= i < v@.len() ==> (#[trigger] v@[i]).0 != k,
        },
{
    let mut i: usize = 0;
    while i < v.len()
        invariant
            i <= v@.len(),
            forall|j: int| 0 <= j < i ==> (#[trigger] v@[j]).0 != k,
        decreases v@.len() - i,
    {
        if v[i].0 == k {
            return Some(i);
        }
        i = i + 1;
    }
    None
}

/// Bind a renewal key to a value, replacing any previous binding.
pub fn renewal_set<V>(v: &mut Vec<(PotentialRenewalId, V)>, k: PotentialRenewalId, val: V)
    requires
        ukeys(old(v)@),
    ensures
        ukeys(final(v)@),
        amap(final(v)@) == amap(old(v)@).insert(k, val),
        final(v)@.len() <= old(v)@.len() + 1,
        forall|i: int|
            0 <= i < final(v)@.len() ==> (#[trigger] final(v)@[i]) == (k, val) || (exists|j: int|
                0 <= j < old(v)@.len() && final(v)@[i] == #[trigger] old(v)@[j]),
{
    let r = renewal_index(v, k);
    match r {
        Some(i) => {
            proof {
                lemma_amap_update(v@, i as int, val);
            }
            v.set(i, (k, val));
        },
        None => {
            proof {
                lemma_amap_push(v@, k, val);
            }
            v.push((k, val));
        },
    }
}

/// Unbind a renewal key, returning the value it was bound to.
pub fn renewal_remove<V>(v: &mut Vec<(PotentialRenewalId, V)>, k: PotentialRenewalId) -> (r:
    Option<V>)
    requires
        ukeys(old(v)@),
    ensures
        ukeys(final(v)@),
        match r {
            Some(val) => amap(old(v)@).dom().contains(k) && val == amap(old(v)@)[k] && amap(
                final(v)@) == amap(old(v)@).remove(k),
            None => !amap(old(v)@).dom().contains(k) && *final(v) == *old(v),
        },
        forall|i: int|
            0 <= i < final(v)@.len() ==> exists|j: int|
                0 <= j < old(v)@.len() && #[trigger] final(v)@[i] == old(v)@[j],
        r is Some ==> final(v)@.len() == old(v)@.len() - 1,
{
    let idx = renewal_index(v, k);
    match idx {
        Some(i) => {
            proof {
                lemma_amap_index(v@, i as int);
                lemma_amap_remove(v@, i as int);
            }
            let pair = v.remove(i);
            Some(pair.1)
        },
        None => {
            proof {
                lemma_amap_absent(v@, k);
            }
            None
        },
    }
}

/// Position of the entry carrying a timeslice key, if any.
pub fn ts_index<V>(v: &Vec<(Timeslice, V)>, k: Timeslice) -> (r: Option<usize>)
    ensures
        match r {
            Some(i) => i < v@.len() && v@[i as int].0 == k,
            None => forall|i: int| 0 <= i < v@.len() ==> (#[trigger] v@[i]).0 != k,
        },
{
    let mut i: usize = 0;
    while i < v.len()
        invariant
            i <= v@.len(),
            forall|j: int| 0 <= j < i ==> (#[trigger] v@[j]).0 != k,
        decreases v@.len() - i,
    {
        if v[i].0 == k {
            return Some(i);
        }
        i = i + 1;
    }
    None
}

/// Bind a timeslice key to a value, replacing any previous binding.
pub fn ts_set<V>(v: &mut Vec<(Timeslice, V)>, k: Timeslice, val: V)
    requires
        ukeys(old(v)@),
    ensures
        ukeys(final(v)@),
        amap(final(v)@) == amap(old(v)@).insert(k, val),
        final(v)@.len() <= old(v)@.len() + 1,
        forall|i: int|
            0 <= i < final(v)@.len() ==> (#[trigger] final(v)@[i]) == (k, val) || (exists|j: int|
                0 <= j < old(v)@.len() && final(v)@[i] == #[trigger] old(v)@[j]),
{
    let r = ts_index(v, k);
    match r {
        Some(i) => {
            proof {
                lemma_amap_update(v@, i as int, val);
            }
            v.set(i, (k, val));
        },
        None => {
            proof {
                lemma_amap_push(v@, k, val);
            }
            v.push((k, val));
        },
    }
}

/// Unbind a timeslice key, returning the value it was bound to.
pub fn ts_remove<V>(v: &mut Vec<(Timeslice, V)>, k: Timeslice) -> (r: Option<V>)
    requires
        ukeys(old(v)@),
    ensures
        ukeys(final(v)@),
        match r {
            Some(val) => amap(old(v)@).dom().contains(k) && val == amap(old(v)@)[k] && amap(
                final(v)@) == amap(old(v)@).remove(k),
            None => !amap(old(v)@).dom().contains(k) && *final(v) == *old(v),
        },
        forall|i: int|
            0 <= i < final(v)@.len() ==> exists|j: int|
                0 <= j < old(v)@.len() && #[trigger] final(v)@[i] == old(v)@[j],
        r is Some ==> final(v)@.len() == old(v)@.len() - 1,
{
    let idx = ts_index(v, k);
    match idx {
        Some(i) => {
            proof {
                lemma_amap_index(v@, i as int);
                lemma_amap_remove(v@, i as int);
            }
            let pair = v.remove(i);
            Some(pair.1)
        },
        None => {
            proof {
                lemma_amap_absent(v@, k);
            }
            None
        },
    }
}

/// Position of the entry carrying a core key, if any.
pub fn core_index<V>(v: &Vec<(CoreIndex, V)>, k: CoreIndex) -> (r: Option<usize>)
    ensures
        match r {
            Some(i) => i < v@.len() && v@[i as int].0 == k,
            None => forall|i: int| 0 <= i < v@.len() ==> (#[trigger] v@[i]).0 != k,
        },
{
    let mut i: usize = 0;
    while i < v.len()
        invariant
            i <= v@.len(),
            forall|j: int| 0 <= j < i ==> (#[trigger] v@[j]).0 != k,
        decreases v@.len() - i,
    {
        if v[i].0 == k {
            return Some(i);
        }
        i = i + 1;
    }
    None
}

/// Bind a core key to a value, replacing any previous binding.
pub fn core_set<V>(v: &mut Vec<(CoreIndex, V)>, k: CoreIndex, val: V)
    requires
        ukeys(old(v)@),
    ensures
        ukeys(final(v)@),
        amap(final(v)@) == amap(old(v)@).insert(k, val),
        final(v)@.len() <= old(v)@.len() + 1,
        forall|i: int|
            0 <= i < final(v)@.len() ==> (#[trigger] final(v)@[i]) == (k, val) || (exists|j: int|
                0 <= j < old(v)@.len() && final(v)@[i] == #[trigger] old(v)@[j]),
{
    let r = core_index(v, k);
    match r {
        Some(i) => {
            proof {
                lemma_amap_update(v@, i as int, val);
            }
            v.set(i, (k, val));
        },
        None => {
            proof {
                lemma_amap_push(v@, k, val);
            }
            v.push((k, val));
        },
    }
}

} // verus!
