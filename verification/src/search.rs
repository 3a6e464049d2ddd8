//! Finding the first record with a given key.

use vstd::prelude::*;

verus! {

/// `i` is the least index at which `keys` holds `key`.
pub open spec fn is_first_index<K>(keys: Seq<K>, key: K, i: int) -> bool {
    &&& 0 <= i < keys.len()
    &&& keys[i] == key
    &&& forall|j: int| 0 <= j < i ==> keys[j] != key
}

/// The least index at which `keys` holds `key`, if it holds it at all.
pub open spec fn first_index_of<K>(keys: Seq<K>, key: K) -> Option<int> {
    if exists|i: int| is_first_index(keys, key, i) {
        Some(choose|i: int| is_first_index(keys, key, i))
    } else {
        None
    }
}

/// There is at most one first index.
pub proof fn lemma_first_index_found<K>(keys: Seq<K>, key: K, i: int)
    requires
        is_first_index(keys, key, i),
    ensures
        first_index_of(keys, key) == Some(i),
{
    let c = choose|c: int| is_first_index(keys, key, c);
    if c < i {
        assert(keys[c] != key);
    } else if i < c {
        assert(keys[i] != key);
    }
}

/// A key that occurs nowhere has no first index.
pub proof fn lemma_first_index_absent<K>(keys: Seq<K>, key: K)
    requires
        forall|j: int| 0 <= j < keys.len() ==> keys[j] != key,
    ensures
        first_index_of(keys, key) is None,
{
}

/// What `first_index_of` finds: the first index of a key that occurs, and
/// nothing exactly when the key does not occur.
pub proof fn lemma_first_index_of<K>(keys: Seq<K>, key: K)
    ensures
        first_index_of(keys, key) matches Some(i) ==> is_first_index(keys, key, i),
        first_index_of(keys, key) is None ==> forall|j: int|
            0 <= j < keys.len() ==> keys[j] != key,
{
    if first_index_of(keys, key) is None {
        assert forall|j: int| 0 <= j < keys.len() implies keys[j] != key by {
            if keys[j] == key {
                lemma_least_index(keys, key, j);
            }
        }
    }
}

/// Among the indices at which a key occurs there is a least.
proof fn lemma_least_index<K>(keys: Seq<K>, key: K, j: int)
    requires
        0 <= j < keys.len(),
        keys[j] == key,
    ensures
        exists|i: int| is_first_index(keys, key, i),
    decreases j,
{
    if exists|k: int| 0 <= k < j && keys[k] == key {
        let k = choose|k: int| 0 <= k < j && keys[k] == key;
        lemma_least_index(keys, key, k);
    } else {
        assert(is_first_index(keys, key, j));
    }
}

/// Among distinct keys, the index of a key is its first index.
pub proof fn lemma_only_index<K>(keys: Seq<K>, key: K, i: int)
    requires
        keys.no_duplicates(),
        0 <= i < keys.len(),
        keys[i] == key,
    ensures
        first_index_of(keys, key) == Some(i),
{
    lemma_first_index_found(keys, key, i);
}

/// Taking one of the distinct keys away takes it out of the set of keys.
pub proof fn lemma_remove_to_set<K>(keys: Seq<K>, i: int)
    requires
        keys.no_duplicates(),
        0 <= i < keys.len(),
    ensures
        keys.remove(i).to_set() == keys.to_set().remove(keys[i]),
        keys.remove(i).no_duplicates(),
{
    let rest = keys.remove(i);
    assert forall|k: K| rest.to_set().contains(k) <==> keys.to_set().remove(keys[i]).contains(
        k,
    ) by {
        if rest.to_set().contains(k) {
            let j = choose|j: int| 0 <= j < rest.len() && rest[j] == k;
            if j < i {
                assert(keys[j] == k);
            } else {
                assert(keys[j + 1] == k);
            }
        }
        if keys.to_set().remove(keys[i]).contains(k) {
            let j = choose|j: int| 0 <= j < keys.len() && keys[j] == k;
            if j < i {
                assert(rest[j] == k);
            } else {
                assert(rest[j - 1] == k);
            }
        }
    }
    assert(rest.to_set() =~= keys.to_set().remove(keys[i]));
}

/// A record that is looked up by a key.
pub trait Keyed {
    /// What the key is in contracts.
    type Key;

    /// What a caller hands in to look a record up.
    type Probe;

    /// The key of the record.
    spec fn key(&self) -> Self::Key;

    /// The key that `probe` asks for.
    spec fn asked(probe: &Self::Probe) -> Self::Key;

    /// Whether the record has the key that `probe` asks for.
    fn has_key(&self, probe: &Self::Probe) -> (has: bool)
        ensures
            has == (self.key() == Self::asked(probe)),
    ;
}

/// The key of each record.
pub open spec fn keys<T: Keyed>(items: Seq<T>) -> Seq<T::Key> {
    items.map_values(|item: T| item.key())
}

/// Where the first record with the key that `probe` asks for stands.
pub fn position<T: Keyed>(items: &Vec<T>, probe: &T::Probe) -> (found: Option<usize>)
    ensures
        match found {
            Some(i) => i < items.len() && first_index_of(keys(items@), T::asked(probe)) == Some(
                i as int,
            ),
            None => first_index_of(keys(items@), T::asked(probe)) is None,
        },
{
    let mut i: usize = 0;
    while i < items.len()
        invariant
            i <= items.len(),
            forall|j: int| 0 <= j < i ==> keys(items@)[j] != T::asked(probe),
        decreases items.len() - i,
    {
        if items[i].has_key(probe) {
            proof {
                lemma_first_index_found(keys(items@), T::asked(probe), i as int);
            }
            return Some(i);
        }
        i += 1;
    }
    proof {
        lemma_first_index_absent(keys(items@), T::asked(probe));
    }
    None
}

} // verus!
