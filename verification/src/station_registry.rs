//! Ordered registry of per-station values with an id index for larger sets.

use std::collections::HashMap;

use vstd::prelude::*;

use crate::ids::StationId;
use crate::memory::{map_capacity, vec_capacity};

verus! {

/// Registry size from which lookups go through an id index. Linear scans win for small registries;
/// larger sets amortize an id index.
pub const STATION_LOOKUP_INDEX_THRESHOLD: usize = 64;

/// First position of `id` in `ids`.
pub open spec fn position_of(ids: Seq<u32>, id: u32) -> Option<int>
    decreases ids.len(),
{
    if ids.len() == 0 {
        None
    } else {
        match position_of(ids.drop_last(), id) {
            Some(at) => Some(at),
            None => if ids.last() == id {
                Some(ids.len() - 1)
            } else {
                None
            },
        }
    }
}

/// A lookup finds the first of the entries that hold an id, and nothing only where none holds it.
pub proof fn law_lookups_find_the_first_entry(ids: Seq<u32>, id: u32)
    ensures
        match position_of(ids, id) {
            Some(at) => 0 <= at < ids.len() && ids[at] == id && forall|i: int|
                0 <= i < at ==> ids[i] != id,
            None => forall|i: int| 0 <= i < ids.len() ==> ids[i] != id,
        },
    decreases ids.len(),
{
    if ids.len() > 0 {
        let rest = ids.drop_last();
        law_lookups_find_the_first_entry(rest, id);
        assert forall|i: int| 0 <= i < rest.len() implies rest[i] == ids[i] by {}
        if position_of(ids, id) is None {
            assert forall|i: int| 0 <= i < ids.len() implies ids[i] != id by {
                if i < rest.len() {
                    assert(rest[i] != id);
                }
            }
        } else {
            assert forall|i: int| 0 <= i < position_of(ids, id)->0 implies ids[i] != id by {
                assert(rest[i] != id);
            }
        }
    }
}

proof fn lemma_position_is(ids: Seq<u32>, id: u32, at: int)
    requires
        0 <= at < ids.len(),
        ids[at] == id,
        forall|i: int| 0 <= i < at ==> ids[i] != id,
    ensures
        position_of(ids, id) == Some(at),
{
    law_lookups_find_the_first_entry(ids, id);
}

/// An index holds the first position of every id.
pub open spec fn indexes(positions: Map<u32, usize>, ids: Seq<u32>) -> bool {
    forall|id: u32|
        #![trigger positions.contains_key(id)]
        #![trigger position_of(ids, id)]
        match position_of(ids, id) {
            Some(at) => positions.contains_key(id) && positions[id] == at,
            None => !positions.contains_key(id),
        }
}

/// Replacing two values keeps the ids.
proof fn lemma_ids_kept<V>(entries: Seq<(StationId, V)>, ids: Seq<u32>, left: int, right: int)
    requires
        0 <= left < entries.len(),
        0 <= right < entries.len(),
        ids == Seq::new(entries.len(), |i: int| entries[i].0.0),
    ensures
        forall|a: V, b: V|
            #![trigger entries.update(left, (entries[left].0, a)).update(right, (entries[right].0, b))]
            Seq::new(
                entries.len(),
                |i: int|
                    entries.update(left, (entries[left].0, a)).update(
                        right,
                        (entries[right].0, b),
                    )[i].0.0,
            ) == ids,
{
    assert forall|a: V, b: V|
        #![trigger entries.update(left, (entries[left].0, a)).update(right, (entries[right].0, b))]
        Seq::new(
            entries.len(),
            |i: int|
                entries.update(left, (entries[left].0, a)).update(
                    right,
                    (entries[right].0, b),
                )[i].0.0,
        ) == ids by {
        assert(Seq::new(
            entries.len(),
            |i: int|
                entries.update(left, (entries[left].0, a)).update(
                    right,
                    (entries[right].0, b),
                )[i].0.0,
        ) =~= ids);
    }
}

/// Values by station id, in registration order. An id may be registered more than once; lookups
/// find the first.
#[derive(Clone, Debug)]
pub struct StationRegistry<V> {
    /// Station ids with their values.
    pub entries: Vec<(StationId, V)>,
    /// First position of every id, or nothing while lookups are linear.
    pub positions: HashMap<u32, usize>,
}

impl<V> StationRegistry<V> {
    /// Ids in registration order.
    pub open spec fn ids(self) -> Seq<u32> {
        Seq::new(self.entries@.len(), |i: int| self.entries@[i].0.0)
    }

    /// Whether lookups go through the index.
    pub open spec fn indexed(self) -> bool {
        !self.positions@.is_empty()
    }

    /// The index, where there is one, holds the first position of every id.
    pub open spec fn wf(self) -> bool {
        self.indexed() ==> indexes(self.positions@, self.ids())
    }

    /// Position that a lookup of an id finds.
    pub open spec fn position(self, station_id: StationId) -> Option<int> {
        position_of(self.ids(), station_id.0)
    }

    /// Creates an empty registry with room for `capacity` values.
    pub fn with_capacity(capacity: usize) -> (registry: Self)
        ensures
            registry.wf(),
            registry.entries@.len() == 0,
            !registry.indexed(),
    {
        let positions: HashMap<u32, usize> = if capacity >= STATION_LOOKUP_INDEX_THRESHOLD {
            HashMap::with_capacity(capacity)
        } else {
            HashMap::new()
        };
        Self { entries: Vec::with_capacity(capacity), positions }
    }

    /// Reserves room for at least `additional` more values and lookup entries.
    pub fn reserve(&mut self, additional: usize)
        requires
            old(self).entries@.len() + additional <= usize::MAX,
        ensures
            final(self).entries@ == old(self).entries@,
            final(self).positions@ == old(self).positions@,
    {
        self.entries.reserve(additional);
        if !self.positions.is_empty() {
            self.positions.reserve(additional);
        } else if self.entries.len() + additional >= STATION_LOOKUP_INDEX_THRESHOLD {
            self.positions.reserve(self.entries.len() + additional);
        }
    }

    /// Finds the first position of an id.
    pub fn find(&self, station_id: StationId) -> (found: Option<usize>)
        requires
            self.wf(),
        ensures
            match found {
                Some(at) => self.position(station_id) == Some(at as int) && at < self.entries@.len()
                    && self.entries@[at as int].0 == station_id,
                None => self.position(station_id) is None,
            },
    {
        broadcast use vstd::std_specs::hash::group_hash_axioms;

        proof {
            law_lookups_find_the_first_entry(self.ids(), station_id.0);
        }
        if self.positions.is_empty() {
            let mut index: usize = 0;
            while index < self.entries.len()
                invariant
                    index <= self.entries@.len(),
                    forall|i: int| 0 <= i < index ==> self.ids()[i] != station_id.0,
                decreases self.entries@.len() - index,
            {
                if self.entries[index].0.0 == station_id.0 {
                    proof {
                        lemma_position_is(self.ids(), station_id.0, index as int);
                    }
                    return Some(index);
                }
                index = index + 1;
            }
            None
        } else {
            match self.positions.get(&station_id.0) {
                Some(at) => Some(*at),
                None => None,
            }
        }
    }

    /// Builds the index from the registered values.
    fn rebuild_positions(&mut self)
        ensures
            final(self).entries == old(self).entries,
            indexes(final(self).positions@, final(self).ids()),
    {
        broadcast use vstd::std_specs::hash::group_hash_axioms;

        self.positions.clear();
        let ghost ids = self.ids();
        let mut index: usize = 0;
        assert(ids.take(0) =~= Seq::empty());
        while index < self.entries.len()
            invariant
                index <= self.entries@.len(),
                self.entries == old(self).entries,
                ids == self.ids(),
                indexes(self.positions@, ids.take(index as int)),
            decreases self.entries@.len() - index,
        {
            let id: u32 = self.entries[index].0.0;
            proof {
                assert(ids.take(index + 1).drop_last() =~= ids.take(index as int));
            }
            if !self.positions.contains_key(&id) {
                self.positions.insert(id, index);
            }
            index = index + 1;
        }
        assert(ids.take(index as int) =~= ids);
    }

    /// Adds a value behind all others.
    pub fn push(&mut self, station_id: StationId, value: V)
        requires
            old(self).wf(),
        ensures
            final(self).wf(),
            final(self).entries@ == old(self).entries@.push((station_id, value)),
            final(self).indexed() <==> old(self).indexed() || old(self).entries@.len() + 1
                >= STATION_LOOKUP_INDEX_THRESHOLD,
    {
        broadcast use vstd::std_specs::hash::group_hash_axioms;

        let count: usize = self.entries.len();
        let ghost ids = self.ids();
        if count >= STATION_LOOKUP_INDEX_THRESHOLD - 1 && self.positions.is_empty() {
            self.rebuild_positions();
            assert(self.ids() =~= ids);
        }
        if count >= STATION_LOOKUP_INDEX_THRESHOLD - 1 || !self.positions.is_empty() {
            if !self.positions.contains_key(&station_id.0) {
                self.positions.insert(station_id.0, count);
            }
            assert(self.positions@.contains_key(station_id.0));
        }
        self.entries.push((station_id, value));
        proof {
            assert(self.ids() =~= ids.push(station_id.0));
            assert(self.ids().drop_last() =~= ids);
            if self.indexed() {
                assert forall|id: u32|
                    match #[trigger] position_of(self.ids(), id) {
                        Some(at) => self.positions@.contains_key(id) && self.positions@[id] == at,
                        None => !self.positions@.contains_key(id),
                    } by {
                    law_lookups_find_the_first_entry(ids, id);
                    assert(position_of(self.ids(), id) == (match position_of(ids, id) {
                        Some(at) => Some(at),
                        None => if station_id.0 == id {
                            Some(ids.len() as int)
                        } else {
                            None
                        },
                    }));
                }
            }
        }
    }

    /// Takes out the first value with an id. The others keep their order.
    pub fn remove(&mut self, station_id: StationId) -> (removed: Option<V>)
        requires
            old(self).wf(),
        ensures
            final(self).wf(),
            match old(self).position(station_id) {
                Some(at) => {
                    &&& removed == Some(old(self).entries@[at].1)
                    &&& final(self).entries@ == old(self).entries@.remove(at)
                    &&& final(self).indexed() <==> old(self).indexed() && final(self).entries@.len()
                        > 0
                },
                None => {
                    &&& removed is None
                    &&& *final(self) == *old(self)
                },
            },
    {
        broadcast use vstd::std_specs::hash::group_hash_axioms;

        let at: usize = match self.find(station_id) {
            Some(at) => at,
            None => {
                return None;
            },
        };
        let entry = self.entries.remove(at);
        if !self.positions.is_empty() {
            self.rebuild_positions();
            proof {
                if self.entries@.len() > 0 {
                    lemma_position_is(self.ids(), self.ids()[0], 0);
                    assert(self.positions@.contains_key(self.ids()[0]));
                } else {
                    assert forall|id: u32| !self.positions@.contains_key(id) by {
                        law_lookups_find_the_first_entry(self.ids(), id);
                    }
                    assert(self.positions@ =~= Map::empty());
                }
            }
        }
        Some(entry.1)
    }

    /// Borrows the first value with an id.
    pub fn get(&self, station_id: StationId) -> (value: Option<&V>)
        requires
            self.wf(),
        ensures
            match self.position(station_id) {
                Some(at) => value == Some(&self.entries@[at].1),
                None => value is None,
            },
    {
        match self.find(station_id) {
            Some(at) => Some(&self.entries[at].1),
            None => None,
        }
    }

    /// Mutably borrows the first value with an id.
    pub fn get_mut(&mut self, station_id: StationId) -> (value: Option<&mut V>)
        requires
            old(self).wf(),
        ensures
            match value {
                Some(value) => {
                    &&& old(self).position(station_id) matches Some(at)
                    &&& 0 <= at < old(self).entries@.len()
                    &&& *value == old(self).entries@[at].1
                    &&& final(self).entries@ == old(self).entries@.update(
                        at,
                        (old(self).entries@[at].0, *final(value)),
                    )
                    &&& final(self).positions == old(self).positions
                    &&& final(self).ids() == old(self).ids()
                    &&& final(self).wf()
                },
                None => {
                    &&& old(self).position(station_id) is None
                    &&& *final(self) == *old(self)
                },
            },
    {
        let at: usize = match self.find(station_id) {
            Some(at) => at,
            None => {
                return None;
            },
        };
        let ghost before = *self;
        proof {
            assert forall|value: V|
                Seq::new(
                    before.entries@.len(),
                    |i: int|
                        (#[trigger] before.entries@.update(
                            at as int,
                            (before.entries@[at as int].0, value),
                        ))[i].0.0,
                ) == before.ids() by {
                assert(Seq::new(
                    before.entries@.len(),
                    |i: int|
                        before.entries@.update(
                            at as int,
                            (before.entries@[at as int].0, value),
                        )[i].0.0,
                ) =~= before.ids());
            }
        }
        let entry = &mut self.entries[at];
        Some(&mut entry.1)
    }

    /// Mutably borrows the values of two distinct ids.
    pub fn get_pair_mut(&mut self, left_id: StationId, right_id: StationId) -> (pair: Option<
        (&mut V, &mut V),
    >)
        requires
            old(self).wf(),
        ensures
            match pair {
                Some((left, right)) => {
                    &&& left_id != right_id
                    &&& old(self).position(left_id) matches Some(l)
                    &&& old(self).position(right_id) matches Some(r)
                    &&& 0 <= l < old(self).entries@.len()
                    &&& 0 <= r < old(self).entries@.len()
                    &&& l != r
                    &&& *left == old(self).entries@[l].1
                    &&& *right == old(self).entries@[r].1
                    &&& final(self).entries@ == old(self).entries@.update(
                        l,
                        (left_id, *final(left)),
                    ).update(r, (right_id, *final(right)))
                    &&& final(self).positions == old(self).positions
                    &&& final(self).ids() == old(self).ids()
                    &&& final(self).wf()
                },
                None => {
                    &&& left_id == right_id || old(self).position(left_id) is None || old(
                        self,
                    ).position(right_id) is None
                    &&& *final(self) == *old(self)
                },
            },
    {
        if left_id.0 == right_id.0 {
            return None;
        }
        let left: usize = match self.find(left_id) {
            Some(left) => left,
            None => {
                return None;
            },
        };
        let right: usize = match self.find(right_id) {
            Some(right) => right,
            None => {
                return None;
            },
        };
        let ghost before = *self;
        proof {
            lemma_ids_kept(before.entries@, before.ids(), left as int, right as int);
        }
        if left < right {
            let (front, back) = self.entries.as_mut_slice().split_at_mut(right);
            let left_entry = &mut front[left];
            let right_entry = &mut back[0];
            Some((&mut left_entry.1, &mut right_entry.1))
        } else {
            let (front, back) = self.entries.as_mut_slice().split_at_mut(left);
            let left_entry = &mut back[0];
            let right_entry = &mut front[right];
            Some((&mut left_entry.1, &mut right_entry.1))
        }
    }

    /// Returns the number of values.
    pub fn len(&self) -> (count: usize)
        ensures
            count == self.entries@.len(),
    {
        self.entries.len()
    }

    /// Returns whether there are no values.
    pub fn is_empty(&self) -> (empty: bool)
        ensures
            empty <==> self.entries@.len() == 0,
    {
        self.entries.len() == 0
    }

    /// Values that fit without growing the registry.
    pub fn value_capacity(&self) -> (capacity: usize)
        ensures
            capacity >= self.entries@.len(),
    {
        vec_capacity(&self.entries)
    }

    /// Lookup entries that fit without rehashing.
    pub fn lookup_capacity(&self) -> (capacity: usize)
        ensures
            capacity >= self.positions@.dom().len(),
    {
        map_capacity(&self.positions)
    }

    /// Returns whether lookups go through the index.
    pub fn lookup_index_active(&self) -> (active: bool)
        ensures
            active == self.indexed(),
    {
        !self.positions.is_empty()
    }
}

} // verus!
