//! Map from integer keys to values, kept in ascending key order.

use vstd::prelude::*;

verus! {

/// Entries in strictly ascending key order.
#[derive(Clone, Debug, PartialEq, Eq)]
pub struct OrderedMap<V> {
    /// Keys with their values.
    pub entries: Vec<(u128, V)>,
}

/// The map that a sequence of entries stands for.
pub open spec fn map_of<V>(entries: Seq<(u128, V)>) -> Map<u128, V>
    decreases entries.len(),
{
    if entries.len() == 0 {
        Map::empty()
    } else {
        map_of(entries.drop_last()).insert(entries.last().0, entries.last().1)
    }
}

/// Keys are strictly ascending.
pub open spec fn ascending<V>(entries: Seq<(u128, V)>) -> bool {
    forall|i: int, j: int|
        0 <= i < j < entries.len() ==> (#[trigger] entries[i]).0 < (#[trigger] entries[j]).0
}

pub proof fn lemma_map_of<V>(entries: Seq<(u128, V)>)
    requires
        ascending(entries),
    ensures
        map_of(entries).dom().finite(),
        map_of(entries).dom().len() == entries.len(),
        forall|i: int|
            0 <= i < entries.len() ==> map_of(entries).contains_key((#[trigger] entries[i]).0)
                && map_of(entries)[entries[i].0] == entries[i].1,
        forall|key: u128| #[trigger]
            map_of(entries).contains_key(key) ==> exists|i: int|
                0 <= i < entries.len() && (#[trigger] entries[i]).0 == key,
    decreases entries.len(),
{
    if entries.len() > 0 {
        let rest = entries.drop_last();
        assert(ascending(rest));
        lemma_map_of(rest);
        assert forall|i: int| 0 <= i < entries.len() implies map_of(entries).contains_key(
            (#[trigger] entries[i]).0,
        ) && map_of(entries)[entries[i].0] == entries[i].1 by {
            if i < rest.len() {
                assert(rest[i] == entries[i]);
            }
        }
        assert(!map_of(rest).contains_key(entries.last().0));
        assert forall|key: u128| #[trigger] map_of(entries).contains_key(key) implies exists|i: int|
            0 <= i < entries.len() && (#[trigger] entries[i]).0 == key by {
            if key == entries.last().0 {
                assert(entries[entries.len() - 1].0 == key);
            } else {
                let i = choose|i: int| 0 <= i < rest.len() && (#[trigger] rest[i]).0 == key;
                assert(entries[i].0 == key);
            }
        }
    }
}

/// Two maps that agree with the same entries are equal.
pub proof fn lemma_map_of_is<V>(entries: Seq<(u128, V)>, map: Map<u128, V>)
    requires
        ascending(entries),
        forall|i: int|
            0 <= i < entries.len() ==> map.contains_key((#[trigger] entries[i]).0)
                && map[entries[i].0] == entries[i].1,
        forall|key: u128| #[trigger]
            map.contains_key(key) ==> exists|i: int|
                0 <= i < entries.len() && (#[trigger] entries[i]).0 == key,
    ensures
        map_of(entries) == map,
{
    lemma_map_of(entries);
    assert(map_of(entries) =~= map);
}

/// Ascending entries are determined by the map that they stand for.
pub proof fn lemma_entries_unique<V>(left: Seq<(u128, V)>, right: Seq<(u128, V)>)
    requires
        ascending(left),
        ascending(right),
        map_of(left) == map_of(right),
    ensures
        left == right,
    decreases left.len(),
{
    lemma_map_of(left);
    lemma_map_of(right);
    if left.len() > 0 {
        let i = choose|i: int| 0 <= i < right.len() && (#[trigger] right[i]).0 == left.last().0;
        let j = choose|j: int| 0 <= j < left.len() && (#[trigger] left[j]).0 == right.last().0;
        assert(map_of(right).contains_key(left.last().0)) by {
            assert(map_of(left).contains_key(left[left.len() - 1].0));
        }
        assert(map_of(left).contains_key(right.last().0)) by {
            assert(map_of(right).contains_key(right[right.len() - 1].0));
        }
        assert(left.last().0 == right.last().0) by {
            if i < right.len() - 1 {
                assert(right[i].0 < right[right.len() - 1].0);
            }
            if j < left.len() - 1 {
                assert(left[j].0 < left[left.len() - 1].0);
            }
        }
        assert(left.last() == right.last());
        let key = left.last().0;
        assert(ascending(left.drop_last()));
        assert(ascending(right.drop_last()));
        lemma_map_of(left.drop_last());
        lemma_map_of(right.drop_last());
        assert(!map_of(left.drop_last()).contains_key(key));
        assert(!map_of(right.drop_last()).contains_key(key));
        assert(map_of(left.drop_last()) =~= map_of(left).remove(key));
        assert(map_of(right.drop_last()) =~= map_of(right).remove(key));
        lemma_entries_unique(left.drop_last(), right.drop_last());
        assert(left =~= left.drop_last().push(left.last()));
        assert(right =~= right.drop_last().push(right.last()));
    }
}

pub proof fn lemma_map_of_update<V>(entries: Seq<(u128, V)>, at: int, value: V)
    requires
        ascending(entries),
        0 <= at < entries.len(),
    ensures
        ascending(entries.update(at, (entries[at].0, value))),
        map_of(entries.update(at, (entries[at].0, value))) == map_of(entries).insert(
            entries[at].0,
            value,
        ),
{
    let key = entries[at].0;
    let after = entries.update(at, (key, value));
    let map = map_of(entries).insert(key, value);
    lemma_map_of(entries);
    assert forall|i: int, j: int| 0 <= i < j < after.len() implies (#[trigger] after[i]).0 < (
    #[trigger] after[j]).0 by {
        assert(entries[i].0 < entries[j].0);
    }
    assert forall|i: int| 0 <= i < after.len() implies map.contains_key((#[trigger] after[i]).0)
        && map[after[i].0] == after[i].1 by {
        if i < at {
            assert(entries[i].0 < entries[at].0);
        } else if i > at {
            assert(entries[at].0 < entries[i].0);
        }
    }
    assert forall|other: u128| #[trigger] map.contains_key(other) implies exists|i: int|
        0 <= i < after.len() && (#[trigger] after[i]).0 == other by {
        let i = choose|i: int| 0 <= i < entries.len() && (#[trigger] entries[i]).0 == other;
        assert(after[i].0 == other);
    }
    lemma_map_of_is(after, map);
}

pub proof fn lemma_map_of_insert<V>(entries: Seq<(u128, V)>, at: int, key: u128, value: V)
    requires
        ascending(entries),
        0 <= at <= entries.len(),
        forall|i: int| 0 <= i < at ==> (#[trigger] entries[i]).0 < key,
        forall|i: int| at <= i < entries.len() ==> key < (#[trigger] entries[i]).0,
    ensures
        ascending(entries.insert(at, (key, value))),
        map_of(entries.insert(at, (key, value))) == map_of(entries).insert(key, value),
        !map_of(entries).contains_key(key),
{
    let after = entries.insert(at, (key, value));
    let map = map_of(entries).insert(key, value);
    lemma_map_of(entries);
    assert forall|i: int, j: int| 0 <= i < j < after.len() implies (#[trigger] after[i]).0 < (
    #[trigger] after[j]).0 by {
        if i < at {
            assert(after[i] == entries[i]);
        } else if i > at {
            assert(after[i] == entries[i - 1]);
        }
        if j < at {
            assert(after[j] == entries[j]);
        } else if j > at {
            assert(after[j] == entries[j - 1]);
        }
    }
    assert forall|i: int| 0 <= i < after.len() implies map.contains_key((#[trigger] after[i]).0)
        && map[after[i].0] == after[i].1 by {
        if i < at {
            assert(after[i] == entries[i]);
        } else if i > at {
            assert(after[i] == entries[i - 1]);
        }
    }
    assert forall|other: u128| #[trigger] map.contains_key(other) implies exists|i: int|
        0 <= i < after.len() && (#[trigger] after[i]).0 == other by {
        if other == key {
            assert(after[at].0 == other);
        } else {
            let i = choose|i: int| 0 <= i < entries.len() && (#[trigger] entries[i]).0 == other;
            let j = if i < at {
                i
            } else {
                i + 1
            };
            assert(after[j].0 == other);
        }
    }
    lemma_map_of_is(after, map);
}

pub proof fn lemma_map_of_remove<V>(entries: Seq<(u128, V)>, at: int)
    requires
        ascending(entries),
        0 <= at < entries.len(),
    ensures
        ascending(entries.remove(at)),
        map_of(entries.remove(at)) == map_of(entries).remove(entries[at].0),
{
    let after = entries.remove(at);
    let key = entries[at].0;
    let map = map_of(entries).remove(key);
    lemma_map_of(entries);
    assert forall|i: int, j: int| 0 <= i < j < after.len() implies (#[trigger] after[i]).0 < (
    #[trigger] after[j]).0 by {
        assert(after[i] == entries[if i < at {
            i
        } else {
            i + 1
        }]);
        assert(after[j] == entries[if j < at {
            j
        } else {
            j + 1
        }]);
    }
    assert forall|i: int| 0 <= i < after.len() implies map.contains_key((#[trigger] after[i]).0)
        && map[after[i].0] == after[i].1 by {
        let j = if i < at {
            i
        } else {
            i + 1
        };
        assert(after[i] == entries[j]);
        if j < at {
            assert(entries[j].0 < entries[at].0);
        } else {
            assert(entries[at].0 < entries[j].0);
        }
    }
    assert forall|other: u128| #[trigger] map.contains_key(other) implies exists|i: int|
        0 <= i < after.len() && (#[trigger] after[i]).0 == other by {
        let i = choose|i: int| 0 <= i < entries.len() && (#[trigger] entries[i]).0 == other;
        let j = if i < at {
            i
        } else {
            i - 1
        };
        assert(after[j].0 == other);
    }
    lemma_map_of_is(after, map);
}

impl<V> View for OrderedMap<V> {
    type V = Map<u128, V>;

    open spec fn view(&self) -> Map<u128, V> {
        map_of(self.entries@)
    }
}

impl<V> OrderedMap<V> {
    /// Keys are strictly ascending.
    pub open spec fn wf(self) -> bool {
        ascending(self.entries@)
    }

    /// Keys in ascending order.
    pub open spec fn keys(self) -> Seq<u128> {
        Seq::new(self.entries@.len(), |i: int| self.entries@[i].0)
    }

    /// Creates an empty map.
    pub fn new() -> (map: Self)
        ensures
            map.wf(),
            map@ == Map::<u128, V>::empty(),
            map.entries@.len() == 0,
    {
        Self { entries: Vec::new() }
    }

    /// Returns the number of entries.
    pub fn len(&self) -> (count: usize)
        ensures
            count == self.entries@.len(),
            self.wf() ==> count == self@.dom().len(),
    {
        proof {
            if self.wf() {
                lemma_map_of(self.entries@);
            }
        }
        self.entries.len()
    }

    /// What a search for `key` finds in a well-formed map: where it stands, or where it would be
    /// put.
    pub open spec fn placed(self, key: u128, place: (bool, usize)) -> bool {
        &&& place.0 <==> self@.contains_key(key)
        &&& place.0 ==> self@[key] == self.entries@[place.1 as int].1
        &&& forall|i: int| 0 <= i < place.1 ==> (#[trigger] self.entries@[i]).0 < key
        &&& !place.0 ==> forall|i: int|
            place.1 <= i < self.entries@.len() ==> key < (#[trigger] self.entries@[i]).0
    }

    /// Finds where `key` stands, or where it would be put.
    pub fn find(&self, key: u128) -> (place: (bool, usize))
        ensures
            place.1 <= self.entries@.len(),
            place.0 ==> place.1 < self.entries@.len() && self.entries@[place.1 as int].0 == key,
            self.wf() ==> self.placed(key, place),
    {
        proof {
            if self.wf() {
                lemma_map_of(self.entries@);
            }
        }
        let mut low: usize = 0;
        let mut high: usize = self.entries.len();
        while low < high
            invariant
                low <= high <= self.entries@.len(),
                self.wf() ==> {
                    &&& forall|i: int| 0 <= i < low ==> (#[trigger] self.entries@[i]).0 < key
                    &&& forall|i: int|
                        high <= i < self.entries@.len() ==> key < (#[trigger] self.entries@[i]).0
                    &&& forall|i: int|
                        0 <= i < self.entries@.len() ==> self@.contains_key(
                            (#[trigger] self.entries@[i]).0,
                        ) && self@[self.entries@[i].0] == self.entries@[i].1
                },
            decreases high - low,
        {
            let middle: usize = low + (high - low) / 2;
            let probe: u128 = self.entries[middle].0;
            if probe == key {
                return (true, middle);
            }
            if probe < key {
                low = middle + 1;
            } else {
                high = middle;
            }
        }
        (false, low)
    }

    /// Returns whether `key` has a value.
    pub fn contains_key(&self, key: u128) -> (found: bool)
        ensures
            self.wf() ==> (found <==> self@.contains_key(key)),
    {
        self.find(key).0
    }

    /// Borrows the value of `key`.
    pub fn get(&self, key: u128) -> (value: Option<&V>)
        ensures
            self.wf() ==> match value {
                Some(value) => self@.contains_key(key) && *value == self@[key],
                None => !self@.contains_key(key),
            },
    {
        let (found, at) = self.find(key);
        if found {
            Some(&self.entries[at].1)
        } else {
            None
        }
    }

    /// Gives `key` a value and returns the previous one.
    pub fn insert(&mut self, key: u128, value: V) -> (previous: Option<V>)
        ensures
            old(self).wf() ==> {
                &&& final(self).wf()
                &&& final(self)@ == old(self)@.insert(key, value)
                &&& match previous {
                    Some(previous) => old(self)@.contains_key(key) && previous == old(self)@[key],
                    None => !old(self)@.contains_key(key),
                }
            },
    {
        let (found, at) = self.find(key);
        let ghost before = self.entries@;
        if found {
            let old_entry = self.entries.remove(at);
            self.entries.insert(at, (key, value));
            proof {
                if old(self).wf() {
                    assert(self.entries@ =~= before.update(at as int, (key, value)));
                    lemma_map_of_update(before, at as int, value);
                }
            }
            Some(old_entry.1)
        } else {
            self.entries.insert(at, (key, value));
            proof {
                if old(self).wf() {
                    lemma_map_of_insert(before, at as int, key, value);
                }
            }
            None
        }
    }

    /// Takes the value of `key` out of the map.
    pub fn remove(&mut self, key: u128) -> (removed: Option<V>)
        ensures
            old(self).wf() ==> {
                &&& final(self).wf()
                &&& final(self)@ == old(self)@.remove(key)
                &&& match removed {
                    Some(value) => old(self)@.contains_key(key) && value == old(self)@[key],
                    None => !old(self)@.contains_key(key),
                }
            },
    {
        let (found, at) = self.find(key);
        let ghost before = self.entries@;
        if found {
            let entry = self.entries.remove(at);
            proof {
                if old(self).wf() {
                    lemma_map_of_remove(before, at as int);
                }
            }
            Some(entry.1)
        } else {
            assert(old(self).wf() ==> map_of(before).remove(key) =~= map_of(before));
            None
        }
    }

    /// Mutably borrows the value of `key`.
    pub fn get_mut(&mut self, key: u128) -> (value: Option<&mut V>)
        ensures
            old(self).wf() ==> match value {
                Some(value) => {
                    &&& old(self)@.contains_key(key)
                    &&& *value == old(self)@[key]
                    &&& final(self).wf()
                    &&& final(self)@ == old(self)@.insert(key, *final(value))
                },
                None => {
                    &&& !old(self)@.contains_key(key)
                    &&& *final(self) == *old(self)
                },
            },
    {
        let (found, at) = self.find(key);
        if !found {
            return None;
        }
        let ghost before = self.entries@;
        proof {
            if self.wf() {
                assert forall|value: V|
                    ascending(before.update(at as int, (key, value))) && #[trigger] map_of(
                        before.update(at as int, (key, value)),
                    ) == map_of(before).insert(key, value) by {
                    lemma_map_of_update(before, at as int, value);
                }
            }
        }
        Some(&mut self.entries[at].1)
    }
}

} // verus!
