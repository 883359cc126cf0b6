//! Lists that are searched by a key: where a key is found in them.

use vstd::prelude::*;

verus! {

/// Place `i` is the first place of `key` in `keys`.
pub open spec fn first_at<A>(keys: Seq<A>, key: A, i: int) -> bool {
    &&& 0 <= i < keys.len()
    &&& keys[i] == key
    &&& forall|j: int| 0 <= j < i ==> keys[j] != key
}

/// The first place of `key` in `keys`; meaningful where `keys` contains
/// `key`.
pub open spec fn first_index<A>(keys: Seq<A>, key: A) -> int {
    choose|i: int| first_at(keys, key, i)
}

/// A key that occurs at place `i` has a first place, at `i` or before it.
pub proof fn lemma_first_exists<A>(keys: Seq<A>, key: A, i: int)
    requires
        0 <= i < keys.len(),
        keys[i] == key,
    ensures
        first_at(keys, key, first_index(keys, key)),
        first_index(keys, key) <= i,
    decreases i,
{
    if forall|j: int| 0 <= j < i ==> keys[j] != key {
        assert(first_at(keys, key, i));
    } else {
        let j = choose|j: int| 0 <= j < i && keys[j] == key;
        lemma_first_exists(keys, key, j);
    }
}

/// The first place of a key is where a search from the front finds it.
pub proof fn lemma_first_found<A>(keys: Seq<A>, key: A, i: int)
    requires
        first_at(keys, key, i),
    ensures
        keys.contains(key),
        first_index(keys, key) == i,
{
    let k = first_index(keys, key);
    assert(first_at(keys, key, k));
}

/// A key that `keys` contains has a first place.
pub proof fn lemma_first_of_contained<A>(keys: Seq<A>, key: A)
    requires
        keys.contains(key),
    ensures
        first_at(keys, key, first_index(keys, key)),
{
    let i = choose|i: int| 0 <= i < keys.len() && keys[i] == key;
    lemma_first_exists(keys, key, i);
}

} // verus!
