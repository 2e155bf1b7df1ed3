//! Storage: capacities of standard collections, and copies of hashed sets.

use std::collections::{HashMap, HashSet};
use std::hash::Hash;

use vstd::prelude::*;
use vstd::std_specs::hash::obeys_key_model;
use vstd::std_specs::iter::IteratorSpec;

verus! {

/// Calls `Vec::capacity`. Of the result only this is claimed: it is no less than the vector's
/// length. How much more an allocator grants is left open.
#[verifier::external_body]
pub(crate) fn vec_capacity<T>(storage: &Vec<T>) -> (capacity: usize)
    ensures
        capacity >= storage@.len(),
{
    storage.capacity()
}

/// Calls `HashMap::capacity`. Of the result only this is claimed: it is no less than the number of
/// entries. How much more an allocator grants is left open.
#[verifier::external_body]
pub(crate) fn map_capacity<V>(storage: &HashMap<u32, V>) -> (capacity: usize)
    ensures
        capacity >= storage@.dom().len(),
{
    storage.capacity()
}

/// Calls `HashSet::capacity`. Of the result only this is claimed: it is no less than the number of
/// elements. How much more an allocator grants is left open.
#[verifier::external_body]
pub(crate) fn set_capacity(storage: &HashSet<u64>) -> (capacity: usize)
    ensures
        capacity >= storage@.len(),
{
    storage.capacity()
}

/// Copies a set key by key.
pub(crate) fn copy_set<K: Copy + Eq + Hash>(keys: &HashSet<K>) -> (copy: HashSet<K>)
    requires
        obeys_key_model::<K>(),
    ensures
        copy@ == keys@,
{
    broadcast use vstd::std_specs::hash::group_hash_axioms;

    let mut copy: HashSet<K> = HashSet::new();
    let ghost listed = keys.iter().remaining().unref();
    for key in walk: keys.iter()
        invariant
            obeys_key_model::<K>(),
            walk.seq().unref() == listed,
            forall|k: K| #[trigger] copy@.contains(k) <==> listed.take(walk.index()).contains(k),
    {
        proof {
            let seen = listed.take(walk.index());
            let next = listed.take(walk.index() + 1);
            assert(next =~= seen.push(*key));
            assert forall|k: K| #[trigger] next.contains(k) <==> seen.contains(k) || k == *key by {
                if seen.contains(k) {
                    let i = choose|i: int| 0 <= i < seen.len() && seen[i] == k;
                    assert(next[i] == k);
                }
                if k == *key {
                    assert(next[seen.len() as int] == k);
                }
            }
        }
        copy.insert(*key);
    }
    proof {
        assert(listed.take(listed.len() as int) =~= listed);
        assert forall|k: K| #[trigger] copy@.contains(k) <==> keys@.contains(k) by {
            assert(listed.to_set().contains(k) <==> listed.contains(k));
        }
        assert(copy@ =~= keys@);
    }
    copy
}

} // verus!
