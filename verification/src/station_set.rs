//! In-process station collections: stations, and their spatial indexes, by station id.

use vstd::prelude::*;

use crate::cell_index::CellIndex;
use crate::ids::{InstanceId, StationId};
use crate::station::Station;
use crate::station_registry::{
    law_lookups_find_the_first_entry, StationRegistry, STATION_LOOKUP_INDEX_THRESHOLD,
};

verus! {

/// Stations that a barrier covers.
#[derive(Clone, Copy, Debug, PartialEq, Eq, Structural)]
pub enum BarrierScope {
    /// Every station of one world instance.
    Instance(InstanceId),
    /// One station.
    Station(StationId),
}

impl BarrierScope {
    /// Whether a station is covered.
    pub open spec fn covers(self, station: Station) -> bool {
        match self {
            BarrierScope::Instance(instance_id) => station.config.instance_id == instance_id,
            BarrierScope::Station(station_id) => station.config.station_id == station_id,
        }
    }
}

/// Ids of the covered stations, in registration order.
pub open spec fn covered_ids(entries: Seq<(StationId, Station)>, scope: BarrierScope) -> Seq<
    StationId,
>
    decreases entries.len(),
{
    if entries.len() == 0 {
        Seq::empty()
    } else {
        let rest = covered_ids(entries.drop_last(), scope);
        if scope.covers(entries.last().1) {
            rest.push(entries.last().1.config.station_id)
        } else {
            rest
        }
    }
}

/// Small ordered in-process station collection for simulations and embedders.
#[derive(Clone, Debug)]
pub struct StationSet {
    /// Stations by id, in registration order.
    pub registry: StationRegistry<Station>,
}

impl Default for StationSet {
    fn default() -> (set: Self)
        ensures
            set.wf(),
            set.registry.entries@.len() == 0,
            !set.registry.indexed(),
    {
        Self::with_capacity(0)
    }
}

impl StationSet {
    /// The registry is well-formed, and every station stands under its own id.
    pub open spec fn wf(self) -> bool {
        &&& self.registry.wf()
        &&& forall|i: int|
            0 <= i < self.registry.entries@.len() ==> (#[trigger] self.registry.entries@[i]).0
                == self.registry.entries@[i].1.config.station_id
    }

    /// The station that a lookup finds.
    pub open spec fn station(self, station_id: StationId) -> Option<Station> {
        match self.registry.position(station_id) {
            Some(at) => Some(self.registry.entries@[at].1),
            None => None,
        }
    }

    /// Creates an empty collection with capacity for `capacity` stations.
    pub fn with_capacity(capacity: usize) -> (set: Self)
        ensures
            set.wf(),
            set.registry.entries@.len() == 0,
            !set.registry.indexed(),
    {
        Self { registry: StationRegistry::with_capacity(capacity) }
    }

    /// Reserves capacity for at least `additional` more stations and lookup entries.
    pub fn reserve(&mut self, additional: usize)
        requires
            old(self).wf(),
            old(self).registry.entries@.len() + additional <= usize::MAX,
        ensures
            final(self).wf(),
            final(self).registry.entries@ == old(self).registry.entries@,
            final(self).registry.positions@ == old(self).registry.positions@,
    {
        let ghost ids = self.registry.ids();
        self.registry.reserve(additional);
        assert(self.registry.ids() =~= ids);
    }

    /// Adds a station to the collection.
    pub fn push(&mut self, station: Station)
        requires
            old(self).wf(),
        ensures
            final(self).wf(),
            final(self).registry.entries@ == old(self).registry.entries@.push(
                (station.config.station_id, station),
            ),
            final(self).registry.indexed() <==> old(self).registry.indexed() || old(
                self,
            ).registry.entries@.len() + 1 >= STATION_LOOKUP_INDEX_THRESHOLD,
    {
        self.registry.push(station.config.station_id, station);
    }

    /// Removes and returns the first station with `station_id`.
    ///
    /// Remaining stations retain their iteration order. Lookup storage remains allocated for reuse
    /// when the indexed path is active.
    pub fn remove(&mut self, station_id: StationId) -> (removed: Option<Station>)
        requires
            old(self).wf(),
        ensures
            final(self).wf(),
            removed == old(self).station(station_id),
            match old(self).registry.position(station_id) {
                Some(at) => {
                    &&& final(self).registry.entries@ == old(self).registry.entries@.remove(at)
                    &&& final(self).registry.indexed() <==> old(self).registry.indexed() && final(self)
                        .registry.entries@.len() > 0
                },
                None => *final(self) == *old(self),
            },
    {
        let ghost before = *self;
        let removed = self.registry.remove(station_id);
        proof {
            if let Some(at) = before.registry.position(station_id) {
                law_lookups_find_the_first_entry(before.registry.ids(), station_id.0);
                assert forall|i: int| 0 <= i < self.registry.entries@.len() implies (
                #[trigger] self.registry.entries@[i]).0
                    == self.registry.entries@[i].1.config.station_id by {
                    let j = if i < at {
                        i
                    } else {
                        i + 1
                    };
                    assert(before.registry.entries@[j].0
                        == before.registry.entries@[j].1.config.station_id);
                }
            }
        }
        removed
    }

    /// Gets a station by id.
    pub fn get(&self, station_id: StationId) -> (found: Option<&Station>)
        requires
            self.wf(),
        ensures
            match found {
                Some(station) => self.station(station_id) == Some(*station)
                    && station.config.station_id == station_id,
                None => self.station(station_id) is None,
            },
    {
        proof {
            law_lookups_find_the_first_entry(self.registry.ids(), station_id.0);
        }
        self.registry.get(station_id)
    }

    /// Gets a mutable station by id.
    pub fn get_mut(&mut self, station_id: StationId) -> (found: Option<&mut Station>)
        requires
            old(self).wf(),
        ensures
            match found {
                Some(station) => {
                    &&& old(self).registry.position(station_id) matches Some(at)
                    &&& 0 <= at < old(self).registry.entries@.len()
                    &&& *station == old(self).registry.entries@[at].1
                    &&& station.config.station_id == station_id
                    &&& final(self).registry.entries@ == old(self).registry.entries@.update(
                        at,
                        (old(self).registry.entries@[at].0, *final(station)),
                    )
                    &&& final(self).registry.positions == old(self).registry.positions
                    &&& final(self).registry.ids() == old(self).registry.ids()
                    &&& final(self).registry.wf()
                    &&& final(station).config.station_id == station_id ==> final(self).wf()
                },
                None => {
                    &&& old(self).station(station_id) is None
                    &&& *final(self) == *old(self)
                },
            },
    {
        proof {
            law_lookups_find_the_first_entry(self.registry.ids(), station_id.0);
        }
        self.registry.get_mut(station_id)
    }

    /// Gets two distinct mutable stations by id.
    pub fn get_pair_mut(&mut self, left_id: StationId, right_id: StationId) -> (pair: Option<
        (&mut Station, &mut Station),
    >)
        requires
            old(self).wf(),
        ensures
            match pair {
                Some((left, right)) => {
                    &&& left_id != right_id
                    &&& old(self).registry.position(left_id) matches Some(l)
                    &&& old(self).registry.position(right_id) matches Some(r)
                    &&& 0 <= l < old(self).registry.entries@.len()
                    &&& 0 <= r < old(self).registry.entries@.len()
                    &&& l != r
                    &&& *left == old(self).registry.entries@[l].1
                    &&& *right == old(self).registry.entries@[r].1
                    &&& left.config.station_id == left_id
                    &&& right.config.station_id == right_id
                    &&& final(self).registry.entries@ == old(self).registry.entries@.update(
                        l,
                        (left_id, *final(left)),
                    ).update(r, (right_id, *final(right)))
                    &&& final(self).registry.positions == old(self).registry.positions
                    &&& final(self).registry.ids() == old(self).registry.ids()
                    &&& final(self).registry.wf()
                    &&& final(left).config.station_id == left_id && final(right).config.station_id
                        == right_id ==> final(self).wf()
                },
                None => {
                    &&& left_id == right_id || old(self).station(left_id) is None || old(
                        self,
                    ).station(right_id) is None
                    &&& *final(self) == *old(self)
                },
            },
    {
        proof {
            law_lookups_find_the_first_entry(self.registry.ids(), left_id.0);
            law_lookups_find_the_first_entry(self.registry.ids(), right_id.0);
        }
        self.registry.get_pair_mut(left_id, right_id)
    }

    /// Borrows the stations in registration order.
    pub fn iter(&self) -> (stations: Vec<&Station>)
        ensures
            stations@.len() == self.registry.entries@.len(),
            forall|i: int|
                0 <= i < stations@.len() ==> *(#[trigger] stations@[i])
                    == self.registry.entries@[i].1,
    {
        let mut stations: Vec<&Station> = Vec::new();
        let mut index: usize = 0;
        while index < self.registry.entries.len()
            invariant
                index <= self.registry.entries@.len(),
                stations@.len() == index,
                forall|i: int|
                    0 <= i < index ==> *(#[trigger] stations@[i]) == self.registry.entries@[i].1,
            decreases self.registry.entries@.len() - index,
        {
            stations.push(&self.registry.entries[index].1);
            index = index + 1;
        }
        stations
    }

    /// Mutably borrows the station at a position in registration order.
    pub fn get_at_mut(&mut self, index: usize) -> (found: Option<&mut Station>)
        requires
            old(self).wf(),
        ensures
            match found {
                Some(station) => {
                    &&& index < old(self).registry.entries@.len()
                    &&& *station == old(self).registry.entries@[index as int].1
                    &&& final(self).registry.entries@ == old(self).registry.entries@.update(
                        index as int,
                        (old(self).registry.entries@[index as int].0, *final(station)),
                    )
                    &&& final(self).registry.positions == old(self).registry.positions
                    &&& final(self).registry.ids() == old(self).registry.ids()
                    &&& final(self).registry.wf()
                    &&& final(station).config.station_id == old(
                        self,
                    ).registry.entries@[index as int].1.config.station_id ==> final(self).wf()
                },
                None => {
                    &&& index >= old(self).registry.entries@.len()
                    &&& *final(self) == *old(self)
                },
            },
    {
        if index >= self.registry.entries.len() {
            return None;
        }
        let entry = &mut self.registry.entries[index];
        Some(&mut entry.1)
    }

    /// Returns station ids matching a barrier scope.
    pub fn station_ids_in_scope(&self, scope: BarrierScope) -> (ids: Vec<StationId>)
        ensures
            ids@ == covered_ids(self.registry.entries@, scope),
    {
        let mut ids: Vec<StationId> = Vec::new();
        let ghost entries = self.registry.entries@;
        let mut index: usize = 0;
        assert(entries.take(0) =~= Seq::empty());
        while index < self.registry.entries.len()
            invariant
                entries == self.registry.entries@,
                index <= entries.len(),
                ids@ == covered_ids(entries.take(index as int), scope),
            decreases entries.len() - index,
        {
            assert(entries.take(index + 1).drop_last() =~= entries.take(index as int));
            let config = self.registry.entries[index].1.config;
            let covered: bool = match scope {
                BarrierScope::Instance(instance_id) => config.instance_id == instance_id,
                BarrierScope::Station(station_id) => config.station_id == station_id,
            };
            if covered {
                ids.push(config.station_id);
            }
            index = index + 1;
        }
        assert(entries.take(index as int) =~= entries);
        ids
    }

    /// Number of stations.
    pub fn len(&self) -> (count: usize)
        ensures
            count == self.registry.entries@.len(),
    {
        self.registry.len()
    }

    /// Station slots retained without growing the ordered collection.
    pub fn station_capacity(&self) -> (capacity: usize)
        ensures
            capacity >= self.registry.entries@.len(),
    {
        self.registry.value_capacity()
    }

    /// Lookup entries retained without rehashing the station index.
    pub fn lookup_capacity(&self) -> (capacity: usize)
        ensures
            capacity >= self.registry.positions@.dom().len(),
    {
        self.registry.lookup_capacity()
    }

    /// Returns whether station lookup currently uses the indexed path.
    pub fn lookup_index_active(&self) -> (active: bool)
        ensures
            active == self.registry.indexed(),
    {
        self.registry.lookup_index_active()
    }

    /// Returns whether no stations are registered.
    pub fn is_empty(&self) -> (empty: bool)
        ensures
            empty <==> self.registry.entries@.len() == 0,
    {
        self.registry.is_empty()
    }
}

/// Station-local spatial indexes keyed by station id.
#[derive(Clone, Debug)]
pub struct StationIndexSet {
    /// Indexes by station id, in registration order.
    pub registry: StationRegistry<CellIndex>,
}

impl Default for StationIndexSet {
    fn default() -> (set: Self)
        ensures
            set.wf(),
            set.registry.entries@.len() == 0,
            !set.registry.indexed(),
    {
        Self::with_capacity(0)
    }
}

impl StationIndexSet {
    /// The registry is well-formed, and so is every index.
    pub open spec fn wf(self) -> bool {
        &&& self.registry.wf()
        &&& forall|i: int|
            0 <= i < self.registry.entries@.len() ==> (#[trigger] self.registry.entries@[i]).1.wf()
    }

    /// The index that a lookup finds.
    pub open spec fn index(self, station_id: StationId) -> Option<CellIndex> {
        match self.registry.position(station_id) {
            Some(at) => Some(self.registry.entries@[at].1),
            None => None,
        }
    }

    /// Creates an empty collection with capacity for `capacity` station indexes.
    pub fn with_capacity(capacity: usize) -> (set: Self)
        ensures
            set.wf(),
            set.registry.entries@.len() == 0,
            !set.registry.indexed(),
    {
        Self { registry: StationRegistry::with_capacity(capacity) }
    }

    /// Reserves capacity for at least `additional` more indexes and lookup entries.
    pub fn reserve(&mut self, additional: usize)
        requires
            old(self).wf(),
            old(self).registry.entries@.len() + additional <= usize::MAX,
        ensures
            final(self).wf(),
            final(self).registry.entries@ == old(self).registry.entries@,
            final(self).registry.positions@ == old(self).registry.positions@,
    {
        let ghost ids = self.registry.ids();
        self.registry.reserve(additional);
        assert(self.registry.ids() =~= ids);
    }

    /// Adds or replaces one station index.
    pub fn insert(&mut self, station_id: StationId, index: CellIndex)
        requires
            old(self).wf(),
            index.wf(),
        ensures
            final(self).wf(),
            match old(self).registry.position(station_id) {
                Some(at) => {
                    &&& final(self).registry.entries@ == old(self).registry.entries@.update(
                        at,
                        (station_id, index),
                    )
                    &&& final(self).registry.positions == old(self).registry.positions
                },
                None => {
                    &&& final(self).registry.entries@ == old(self).registry.entries@.push(
                        (station_id, index),
                    )
                    &&& final(self).registry.indexed() <==> old(self).registry.indexed() || old(
                        self,
                    ).registry.entries@.len() + 1 >= STATION_LOOKUP_INDEX_THRESHOLD
                },
            },
    {
        let ghost before = *self;
        match self.registry.find(station_id) {
            Some(at) => {
                self.registry.entries.set(at, (station_id, index));
                assert(self.registry.ids() =~= before.registry.ids());
            },
            None => {
                self.registry.push(station_id, index);
                assert forall|i: int| 0 <= i < self.registry.entries@.len() implies (
                #[trigger] self.registry.entries@[i]).1.wf() by {
                    if i < before.registry.entries@.len() {
                        assert(before.registry.entries@[i].1.wf());
                    }
                }
            },
        }
    }

    /// Removes and returns one station-local spatial index.
    ///
    /// Remaining indexes retain their iteration order and indexed lookup storage remains allocated
    /// for later registrations.
    pub fn remove(&mut self, station_id: StationId) -> (removed: Option<CellIndex>)
        requires
            old(self).wf(),
        ensures
            final(self).wf(),
            removed == old(self).index(station_id),
            match old(self).registry.position(station_id) {
                Some(at) => {
                    &&& final(self).registry.entries@ == old(self).registry.entries@.remove(at)
                    &&& final(self).registry.indexed() <==> old(self).registry.indexed() && final(self)
                        .registry.entries@.len() > 0
                },
                None => *final(self) == *old(self),
            },
    {
        let ghost before = *self;
        let removed = self.registry.remove(station_id);
        proof {
            if let Some(at) = before.registry.position(station_id) {
                law_lookups_find_the_first_entry(before.registry.ids(), station_id.0);
                assert forall|i: int| 0 <= i < self.registry.entries@.len() implies (
                #[trigger] self.registry.entries@[i]).1.wf() by {
                    let j = if i < at {
                        i
                    } else {
                        i + 1
                    };
                    assert(before.registry.entries@[j].1.wf());
                }
            }
        }
        removed
    }

    /// Gets one station index.
    pub fn get(&self, station_id: StationId) -> (found: Option<&CellIndex>)
        requires
            self.wf(),
        ensures
            match found {
                Some(index) => self.index(station_id) == Some(*index) && index.wf(),
                None => self.index(station_id) is None,
            },
    {
        proof {
            law_lookups_find_the_first_entry(self.registry.ids(), station_id.0);
        }
        self.registry.get(station_id)
    }

    /// Gets one mutable station index.
    pub fn get_mut(&mut self, station_id: StationId) -> (found: Option<&mut CellIndex>)
        requires
            old(self).wf(),
        ensures
            match found {
                Some(index) => {
                    &&& old(self).registry.position(station_id) matches Some(at)
                    &&& 0 <= at < old(self).registry.entries@.len()
                    &&& index.wf()
                    &&& *index == old(self).registry.entries@[at].1
                    &&& final(self).registry.entries@ == old(self).registry.entries@.update(
                        at,
                        (old(self).registry.entries@[at].0, *final(index)),
                    )
                    &&& final(self).registry.positions == old(self).registry.positions
                    &&& final(index).wf() ==> final(self).wf()
                },
                None => {
                    &&& old(self).index(station_id) is None
                    &&& *final(self) == *old(self)
                },
            },
    {
        self.registry.get_mut(station_id)
    }

    /// Gets two distinct mutable station indexes.
    pub fn get_pair_mut(&mut self, left_id: StationId, right_id: StationId) -> (pair: Option<
        (&mut CellIndex, &mut CellIndex),
    >)
        requires
            old(self).wf(),
        ensures
            match pair {
                Some((left, right)) => {
                    &&& left_id != right_id
                    &&& old(self).registry.position(left_id) matches Some(l)
                    &&& old(self).registry.position(right_id) matches Some(r)
                    &&& 0 <= l < old(self).registry.entries@.len()
                    &&& 0 <= r < old(self).registry.entries@.len()
                    &&& l != r
                    &&& left.wf()
                    &&& right.wf()
                    &&& *left == old(self).registry.entries@[l].1
                    &&& *right == old(self).registry.entries@[r].1
                    &&& final(self).registry.entries@ == old(self).registry.entries@.update(
                        l,
                        (left_id, *final(left)),
                    ).update(r, (right_id, *final(right)))
                    &&& final(self).registry.positions == old(self).registry.positions
                    &&& final(self).registry.ids() == old(self).registry.ids()
                    &&& final(left).wf() && final(right).wf() ==> final(self).wf()
                },
                None => {
                    &&& left_id == right_id || old(self).index(left_id) is None || old(self).index(
                        right_id,
                    ) is None
                    &&& *final(self) == *old(self)
                },
            },
    {
        self.registry.get_pair_mut(left_id, right_id)
    }

    /// Number of indexes.
    pub fn len(&self) -> (count: usize)
        ensures
            count == self.registry.entries@.len(),
    {
        self.registry.len()
    }

    /// Index slots retained without growing the ordered collection.
    pub fn index_capacity(&self) -> (capacity: usize)
        ensures
            capacity >= self.registry.entries@.len(),
    {
        self.registry.value_capacity()
    }

    /// Lookup entries retained without rehashing the station index.
    pub fn lookup_capacity(&self) -> (capacity: usize)
        ensures
            capacity >= self.registry.positions@.dom().len(),
    {
        self.registry.lookup_capacity()
    }

    /// Returns whether station-index lookup currently uses the indexed path.
    pub fn lookup_index_active(&self) -> (active: bool)
        ensures
            active == self.registry.indexed(),
    {
        self.registry.lookup_index_active()
    }

    /// Borrows the registered indexes with their station ids, in registration order.
    pub fn iter(&self) -> (indexes: Vec<(StationId, &CellIndex)>)
        ensures
            indexes@.len() == self.registry.entries@.len(),
            forall|i: int|
                0 <= i < indexes@.len() ==> (#[trigger] indexes@[i]).0
                    == self.registry.entries@[i].0 && *indexes@[i].1
                    == self.registry.entries@[i].1,
    {
        let mut indexes: Vec<(StationId, &CellIndex)> = Vec::new();
        let mut index: usize = 0;
        while index < self.registry.entries.len()
            invariant
                index <= self.registry.entries@.len(),
                indexes@.len() == index,
                forall|i: int|
                    0 <= i < index ==> (#[trigger] indexes@[i]).0 == self.registry.entries@[i].0
                        && *indexes@[i].1 == self.registry.entries@[i].1,
            decreases self.registry.entries@.len() - index,
        {
            indexes.push((self.registry.entries[index].0, &self.registry.entries[index].1));
            index = index + 1;
        }
        indexes
    }

    /// Returns whether no indexes are registered.
    pub fn is_empty(&self) -> (empty: bool)
        ensures
            empty <==> self.registry.entries@.len() == 0,
    {
        self.registry.is_empty()
    }
}

} // verus!
