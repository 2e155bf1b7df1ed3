//! Membership set that picks its storage by the capacity it is meant for.

use std::collections::HashSet;

use vstd::prelude::*;

use crate::memory::copy_set;

verus! {

broadcast use vstd::std_specs::hash::group_hash_axioms;

/// Capacity from which entries are hashed instead of kept in order.
pub const HASHED_BOUNDED_SET_MIN_CAPACITY: usize = 256;

/// Set of pairs of numbers, packed into one key each.
#[derive(Debug)]
pub enum BoundedLookupSet {
    /// Keys in strictly ascending order, for small capacities.
    Ordered(Vec<u128>),
    /// Hashed keys, for large capacities.
    Hashed(HashSet<u128>),
}

/// The key of a pair.
pub open spec fn pair_key(left: u64, right: u64) -> u128 {
    (left as nat * 0x1_0000_0000_0000_0000 + right as nat) as u128
}

/// Different pairs have different keys.
pub proof fn lemma_pair_key_injective(a: (u64, u64), b: (u64, u64))
    requires
        pair_key(a.0, a.1) == pair_key(b.0, b.1),
    ensures
        a == b,
{
    assert(a.0 as nat * 0x1_0000_0000_0000_0000 + a.1 as nat <= u128::MAX);
    assert(b.0 as nat * 0x1_0000_0000_0000_0000 + b.1 as nat <= u128::MAX);
}

/// Packs a pair into one key.
pub fn pack_pair(left: u64, right: u64) -> (key: u128)
    ensures
        key == pair_key(left, right),
{
    left as u128 * 0x1_0000_0000_0000_0000 + right as u128
}

spec fn strictly_ascending(keys: Seq<u128>) -> bool {
    forall|i: int, j: int| 0 <= i < j < keys.len() ==> keys[i] < keys[j]
}

proof fn lemma_ascending_len(keys: Seq<u128>)
    requires
        strictly_ascending(keys),
    ensures
        keys.to_set().finite(),
        keys.to_set().len() == keys.len(),
{
    assert(keys.no_duplicates());
    keys.unique_seq_to_set();
    vstd::seq_lib::seq_to_set_is_finite(keys);
}

impl View for BoundedLookupSet {
    type V = Set<u128>;

    open spec fn view(&self) -> Set<u128> {
        match self {
            BoundedLookupSet::Ordered(keys) => keys@.to_set(),
            BoundedLookupSet::Hashed(keys) => keys@,
        }
    }
}

impl Clone for BoundedLookupSet {
    fn clone(&self) -> (copy: Self)
        ensures
            copy@ == self@,
            copy is Hashed <==> self is Hashed,
            self.wf() ==> copy.wf(),
    {
        match self {
            Self::Ordered(keys) => Self::Ordered(keys.clone()),
            Self::Hashed(keys) => Self::Hashed(copy_set(keys)),
        }
    }
}

impl BoundedLookupSet {
    /// Ordered keys are strictly ascending.
    pub closed spec fn wf(self) -> bool {
        match self {
            BoundedLookupSet::Ordered(keys) => strictly_ascending(keys@),
            BoundedLookupSet::Hashed(keys) => keys@.finite(),
        }
    }

    /// Creates an empty set for up to `max_entries` keys.
    pub fn new(max_entries: usize) -> (set: Self)
        ensures
            set.wf(),
            set@ == Set::<u128>::empty(),
            set is Hashed <==> max_entries >= HASHED_BOUNDED_SET_MIN_CAPACITY,
    {
        if max_entries >= HASHED_BOUNDED_SET_MIN_CAPACITY {
            Self::Hashed(HashSet::new())
        } else {
            let keys: Vec<u128> = Vec::new();
            assert(keys@.to_set() =~= Set::empty());
            Self::Ordered(keys)
        }
    }

    /// Returns the number of keys.
    pub fn len(&self) -> (count: usize)
        requires
            self.wf(),
        ensures
            count == self@.len(),
    {
        match self {
            Self::Ordered(keys) => {
                proof {
                    lemma_ascending_len(keys@);
                }
                keys.len()
            },
            Self::Hashed(keys) => keys.len(),
        }
    }

    /// Returns whether there are no keys.
    pub fn is_empty(&self) -> (empty: bool)
        requires
            self.wf(),
        ensures
            empty <==> self@.len() == 0,
    {
        self.len() == 0
    }

    fn find(keys: &Vec<u128>, key: u128) -> (place: (bool, usize))
        requires
            strictly_ascending(keys@),
        ensures
            place.0 <==> keys@.contains(key),
            place.0 ==> place.1 < keys@.len() && keys@[place.1 as int] == key,
            !place.0 ==> place.1 <= keys@.len(),
            forall|i: int| 0 <= i < place.1 ==> keys@[i] < key,
            !place.0 ==> forall|i: int| place.1 <= i < keys@.len() ==> key < keys@[i],
    {
        let mut low: usize = 0;
        let mut high: usize = keys.len();
        while low < high
            invariant
                low <= high <= keys@.len(),
                strictly_ascending(keys@),
                forall|i: int| 0 <= i < low ==> keys@[i] < key,
                forall|i: int| high <= i < keys@.len() ==> key < keys@[i],
            decreases high - low,
        {
            let middle: usize = low + (high - low) / 2;
            let probe: u128 = keys[middle];
            if probe == key {
                return (true, middle);
            }
            if probe < key {
                low = middle + 1;
            } else {
                high = middle;
            }
        }
        (false, low)
    }

    /// Returns whether `key` is in the set.
    pub fn contains(&self, key: u128) -> (found: bool)
        requires
            self.wf(),
        ensures
            found <==> self@.contains(key),
    {
        match self {
            Self::Ordered(keys) => Self::find(keys, key).0,
            Self::Hashed(keys) => keys.contains(&key),
        }
    }

    /// Adds `key`.
    pub fn insert(&mut self, key: u128)
        requires
            old(self).wf(),
        ensures
            final(self).wf(),
            final(self)@ == old(self)@.insert(key),
            (*final(self) is Hashed) <==> (*old(self) is Hashed),
    {
        match self {
            Self::Ordered(keys) => {
                let (found, at) = Self::find(keys, key);
                let ghost before = keys@;
                if !found {
                    keys.insert(at, key);
                    proof {
                        assert(keys@ == before.insert(at as int, key));
                        assert forall|other: u128| keys@.to_set().contains(other)
                            <==> before.to_set().insert(key).contains(other) by {
                            if before.contains(other) {
                                let i = choose|i: int| 0 <= i < before.len() && before[i] == other;
                                assert(keys@[if i < at {
                                    i
                                } else {
                                    i + 1
                                }] == other);
                            }
                            if other == key {
                                assert(keys@[at as int] == other);
                            }
                            if keys@.contains(other) && other != key {
                                let i = choose|i: int| 0 <= i < keys@.len() && keys@[i] == other;
                                assert(before[if i < at {
                                    i
                                } else {
                                    i - 1
                                }] == other);
                            }
                        }
                        assert(keys@.to_set() =~= before.to_set().insert(key));
                    }
                } else {
                    assert(before.to_set().insert(key) =~= before.to_set());
                }
            },
            Self::Hashed(keys) => {
                keys.insert(key);
            },
        }
    }

    /// Takes `key` out of the set.
    pub fn remove(&mut self, key: u128)
        requires
            old(self).wf(),
        ensures
            final(self).wf(),
            final(self)@ == old(self)@.remove(key),
            (*final(self) is Hashed) <==> (*old(self) is Hashed),
    {
        match self {
            Self::Ordered(keys) => {
                let (found, at) = Self::find(keys, key);
                let ghost before = keys@;
                if found {
                    keys.remove(at);
                    proof {
                        assert(keys@ == before.remove(at as int));
                        assert forall|other: u128| keys@.to_set().contains(other)
                            <==> before.to_set().remove(key).contains(other) by {
                            if before.contains(other) && other != key {
                                let i = choose|i: int| 0 <= i < before.len() && before[i] == other;
                                assert(keys@[if i < at {
                                    i
                                } else {
                                    i - 1
                                }] == other);
                            }
                            if keys@.contains(other) {
                                let i = choose|i: int| 0 <= i < keys@.len() && keys@[i] == other;
                                let j = if i < at {
                                    i
                                } else {
                                    i + 1
                                };
                                assert(before[j] == other);
                                assert(before[at as int] == key);
                            }
                        }
                        assert(keys@.to_set() =~= before.to_set().remove(key));
                    }
                } else {
                    assert(before.to_set().remove(key) =~= before.to_set());
                }
            },
            Self::Hashed(keys) => {
                keys.remove(&key);
            },
        }
    }

    /// Returns whether entries are hashed.
    pub fn is_hashed(&self) -> (hashed: bool)
        ensures
            hashed == (*self is Hashed),
    {
        match self {
            Self::Ordered(_) => false,
            Self::Hashed(_) => true,
        }
    }
}

} // verus!
