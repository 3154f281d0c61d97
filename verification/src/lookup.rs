//! Finding the first entry with a given key in a sequence.

use vstd::prelude::*;

verus! {

/// Some entry of `keys` is `key`.
pub open spec fn occurs<K>(keys: Seq<K>, key: K) -> bool {
    exists|i: int| 0 <= i < keys.len() && keys[i] == key
}

/// Entry `i` of `keys` is `key`, and none before it is.
pub open spec fn is_first<K>(keys: Seq<K>, i: int, key: K) -> bool {
    &&& 0 <= i < keys.len()
    &&& keys[i] == key
    &&& forall|j: int| 0 <= j < i ==> keys[j] != key
}

/// The index of the first entry of `keys` that is `key`, where there is one.
pub open spec fn first<K>(keys: Seq<K>, key: K) -> int {
    choose|i: int| is_first(keys, i, key)
}

/// The first entry with a key, where there is one, or nothing.
pub open spec fn find<K>(keys: Seq<K>, key: K) -> Option<int> {
    if occurs(keys, key) {
        Some(first(keys, key))
    } else {
        None
    }
}

/// A first entry is the first entry.
pub proof fn lemma_first_is_unique<K>(keys: Seq<K>, i: int, key: K)
    requires
        is_first(keys, i, key),
    ensures
        occurs(keys, key),
        first(keys, key) == i,
        find(keys, key) == Some(i),
{
    let j = first(keys, key);
    assert(is_first(keys, j, key));
    if j < i {
        assert(keys[j] != key);
    }
    if i < j {
        assert(keys[i] != key);
    }
}

/// A key that is no entry of a sequence is found nowhere in it.
pub proof fn lemma_absent<K>(keys: Seq<K>, key: K)
    requires
        forall|j: int| 0 <= j < keys.len() ==> keys[j] != key,
    ensures
        !occurs(keys, key),
        find(keys, key) == None::<int>,
{
}

/// A key that is found is the key of the entry at which it is found.
pub proof fn lemma_found<K>(keys: Seq<K>, key: K)
    requires
        occurs(keys, key),
    ensures
        is_first(keys, first(keys, key), key),
{
    lemma_least_exists(keys, key, keys.len() as int);
}

/// Among the first `n` entries, where one is `key`, one is the first.
proof fn lemma_least_exists<K>(keys: Seq<K>, key: K, n: int)
    requires
        0 <= n <= keys.len(),
        exists|i: int| 0 <= i < n && keys[i] == key,
    ensures
        exists|i: int| is_first(keys, i, key),
    decreases n,
{
    if exists|i: int| 0 <= i < n - 1 && keys[i] == key {
        lemma_least_exists(keys, key, n - 1);
    } else {
        assert(is_first(keys, n - 1, key));
    }
}

/// A key that is no entry of a sequence is first found at the end once it is
/// appended.
pub proof fn lemma_absent_then_last<K>(keys: Seq<K>, key: K)
    requires
        !occurs(keys, key),
    ensures
        find(keys.push(key), key) == Some(keys.len() as int),
{
    let longer = keys.push(key);
    assert forall|j: int| 0 <= j < keys.len() implies longer[j] != key by {
        assert(longer[j] == keys[j]);
    }
    lemma_first_is_unique(longer, keys.len() as int, key);
}

/// The index of the first entry of `periods` that is `period`.
pub fn find_period(periods: &Vec<u64>, period: u64) -> (r: Option<usize>)
    ensures
        match r {
            Some(i) => find(periods@, period) == Some(i as int) && i < periods@.len(),
            None => find(periods@, period) == None::<int>,
        },
{
    let n: usize = periods.len();
    let mut i: usize = 0;
    while i < n
        invariant
            n == periods@.len(),
            0 <= i <= n,
            forall|j: int| 0 <= j < i ==> periods@[j] != period,
        decreases n - i,
    {
        if periods[i] == period {
            proof {
                lemma_first_is_unique(periods@, i as int, period);
            }
            return Some(i);
        }
        i = i + 1;
    }
    proof {
        lemma_absent(periods@, period);
    }
    None
}

} // verus!
