//! Station load samples derived from stored entities, spatial indexes and queues.

use std::collections::HashMap;

use vstd::prelude::*;

use crate::cell_index::{occupied_in, CellEntry, CellIndex};
use crate::event_router::{EventRouter, StationEventQueue};
use crate::ids::{EntityHandle, StationId};
use crate::memory::{map_capacity, vec_capacity};
use crate::num::{
    clamp_u64, clamp_usize, lemma_clamp_usize_mul, saturating_mul_u64, saturating_mul_usize,
};
use crate::station::{record_of, CellCoord3, EntityRecord, Station};
use crate::station_set::{StationIndexSet, StationSet};

verus! {

/// Load of one occupied cell.
#[derive(Clone, Copy, Debug, Default, PartialEq, Eq, Structural)]
pub struct CellLoadSample {
    /// Sampled cell.
    pub cell: CellCoord3,
    /// Authoritative entities in the cell.
    pub owned_entities: usize,
    /// Read-only entities in the cell.
    pub ghost_entities: usize,
    /// Subscribers attributed to the cell.
    pub subscribers: usize,
    /// Updates expected in the measurement window.
    pub estimated_updates: usize,
    /// Bytes expected in the measurement window.
    pub estimated_bytes: usize,
    /// Runtime cost units.
    pub tick_cost_units: u64,
    /// Event pressure attributed to the cell.
    pub event_pressure: usize,
}

/// Load of one station.
#[derive(Clone, Debug, Default, PartialEq, Eq)]
pub struct StationLoadSample {
    /// Sampled station.
    pub station_id: StationId,
    /// Authoritative entities.
    pub owned_entities: usize,
    /// Read-only entities.
    pub ghost_entities: usize,
    /// Subscribers routed to the station.
    pub subscribers: usize,
    /// Queued station events.
    pub queued_events: usize,
    /// Bytes expected in the measurement window.
    pub estimated_bytes: usize,
    /// Runtime cost units.
    pub tick_cost_units: u64,
    /// Occupied cells.
    pub cells: Vec<CellLoadSample>,
}

/// Model of a station load sample.
#[verifier::ext_equal]
pub struct StationLoadModel {
    pub station_id: StationId,
    pub owned_entities: usize,
    pub ghost_entities: usize,
    pub subscribers: usize,
    pub queued_events: usize,
    pub estimated_bytes: usize,
    pub tick_cost_units: u64,
    pub cells: Seq<CellLoadSample>,
}

impl View for StationLoadSample {
    type V = StationLoadModel;

    open spec fn view(&self) -> StationLoadModel {
        StationLoadModel {
            station_id: self.station_id,
            owned_entities: self.owned_entities,
            ghost_entities: self.ghost_entities,
            subscribers: self.subscribers,
            queued_events: self.queued_events,
            estimated_bytes: self.estimated_bytes,
            tick_cost_units: self.tick_cost_units,
            cells: self.cells@,
        }
    }
}

impl StationLoadSample {
    /// Number of stored entities.
    pub open spec fn entity_total(self) -> usize {
        self.owned_entities.saturating_add(self.ghost_entities)
    }

    /// Creates a sample without load.
    pub fn empty() -> (sample: Self)
        ensures
            sample@ == (StationLoadModel {
                station_id: StationId(0),
                owned_entities: 0,
                ghost_entities: 0,
                subscribers: 0,
                queued_events: 0,
                estimated_bytes: 0,
                tick_cost_units: 0,
                cells: Seq::empty(),
            }),
    {
        Self {
            station_id: StationId(0),
            owned_entities: 0,
            ghost_entities: 0,
            subscribers: 0,
            queued_events: 0,
            estimated_bytes: 0,
            tick_cost_units: 0,
            cells: Vec::new(),
        }
    }

    /// Returns the number of stored entities.
    pub fn total_entities(&self) -> (count: usize)
        ensures
            count == self.entity_total(),
    {
        self.owned_entities.saturating_add(self.ghost_entities)
    }
}

/// Number of authoritative records.
pub open spec fn owned_count(records: Seq<EntityRecord>) -> nat
    decreases records.len(),
{
    if records.len() == 0 {
        0
    } else {
        owned_count(records.drop_last()) + (if records.last().owned() {
            1nat
        } else {
            0
        })
    }
}

/// Number of handles that resolve to a record of the given authority.
pub open spec fn resolved_count(
    records: Seq<EntityRecord>,
    handles: Seq<EntityHandle>,
    owned: bool,
) -> nat
    decreases handles.len(),
{
    if handles.len() == 0 {
        0
    } else {
        resolved_count(records, handles.drop_last(), owned) + (match record_of(
            records,
            handles.last(),
        ) {
            Some(record) => if record.owned() == owned {
                1nat
            } else {
                0
            },
            None => 0,
        })
    }
}

/// Subscribers reported for a station.
pub open spec fn subscriber_total(counts: Seq<(StationId, usize)>, station: u32) -> nat
    decreases counts.len(),
{
    if counts.len() == 0 {
        0
    } else {
        subscriber_total(counts.drop_last(), station) + (if counts.last().0.0 == station {
            counts.last().1 as nat
        } else {
            0
        })
    }
}

/// Lightweight coefficients used to derive hotspot/scheduler load samples.
#[derive(Clone, Copy, Debug, PartialEq, Eq, Structural)]
pub struct StationLoadSamplerConfig {
    /// Estimated bytes contributed by one stored entity in the measurement window.
    pub estimated_bytes_per_entity: usize,
    /// Estimated bytes contributed by one subscriber routed to a station.
    pub estimated_bytes_per_subscriber: usize,
    /// Estimated bytes contributed by one queued station event.
    pub estimated_bytes_per_event: usize,
    /// Runtime cost units assigned to one authoritative entity.
    pub tick_cost_per_owned_entity: u64,
    /// Runtime cost units assigned to one read-only ghost entity.
    pub tick_cost_per_ghost_entity: u64,
    /// Runtime cost units assigned to one occupied spatial cell.
    pub tick_cost_per_occupied_cell: u64,
    /// Runtime cost units assigned to one queued station event.
    pub tick_cost_per_queued_event: u64,
}

impl Default for StationLoadSamplerConfig {
    fn default() -> (config: Self)
        ensures
            config == (StationLoadSamplerConfig {
                estimated_bytes_per_entity: 48,
                estimated_bytes_per_subscriber: 16,
                estimated_bytes_per_event: 32,
                tick_cost_per_owned_entity: 2,
                tick_cost_per_ghost_entity: 1,
                tick_cost_per_occupied_cell: 1,
                tick_cost_per_queued_event: 1,
            }),
    {
        Self {
            estimated_bytes_per_entity: 48,
            estimated_bytes_per_subscriber: 16,
            estimated_bytes_per_event: 32,
            tick_cost_per_owned_entity: 2,
            tick_cost_per_ghost_entity: 1,
            tick_cost_per_occupied_cell: 1,
            tick_cost_per_queued_event: 1,
        }
    }
}

impl StationLoadSamplerConfig {
    /// Bytes expected of a station.
    pub open spec fn station_bytes(
        self,
        owned: nat,
        ghosts: nat,
        subscribers: nat,
        queued: nat,
    ) -> usize {
        clamp_usize(
            (owned + ghosts) * self.estimated_bytes_per_entity as nat + subscribers
                * self.estimated_bytes_per_subscriber as nat + queued
                * self.estimated_bytes_per_event as nat,
        )
    }

    /// Runtime cost of the given load.
    pub open spec fn tick_cost(self, owned: nat, ghosts: nat, cells: nat, queued: nat) -> u64 {
        clamp_u64(
            owned * self.tick_cost_per_owned_entity as nat + ghosts
                * self.tick_cost_per_ghost_entity as nat + cells
                * self.tick_cost_per_occupied_cell as nat + queued
                * self.tick_cost_per_queued_event as nat,
        )
    }

    /// Sample of one cell.
    pub open spec fn cell_sample(
        self,
        records: Seq<EntityRecord>,
        cell: CellCoord3,
        handles: Seq<EntityHandle>,
    ) -> CellLoadSample {
        let owned = resolved_count(records, handles, true);
        let ghosts = resolved_count(records, handles, false);
        CellLoadSample {
            cell,
            owned_entities: owned as usize,
            ghost_entities: ghosts as usize,
            subscribers: 0,
            estimated_updates: (owned + ghosts) as usize,
            estimated_bytes: clamp_usize((owned + ghosts) * self.estimated_bytes_per_entity as nat),
            tick_cost_units: self.tick_cost(owned, ghosts, 1, 0),
            event_pressure: 0,
        }
    }

    /// Samples of the occupied cells, in ascending cell order.
    pub open spec fn cell_samples(
        self,
        records: Seq<EntityRecord>,
        entries: Seq<(u128, CellEntry)>,
    ) -> Seq<CellLoadSample>
        decreases entries.len(),
    {
        if entries.len() == 0 {
            Seq::empty()
        } else {
            let rest = self.cell_samples(records, entries.drop_last());
            let entry = entries.last().1;
            if entry.handles@.len() > 0 {
                rest.push(self.cell_sample(records, entry.cell, entry.handles@))
            } else {
                rest
            }
        }
    }

    /// Sample of one station.
    pub open spec fn station_sample(
        self,
        station: Station,
        index: Option<CellIndex>,
        queued: usize,
        subscribers: usize,
    ) -> StationLoadModel {
        let records = station.records@;
        let owned = owned_count(records);
        let ghosts = (records.len() - owned) as nat;
        let cells = match index {
            Some(index) => self.cell_samples(records, index.cells.entries@),
            None => Seq::empty(),
        };
        StationLoadModel {
            station_id: station.config.station_id,
            owned_entities: owned as usize,
            ghost_entities: ghosts as usize,
            subscribers,
            queued_events: queued,
            estimated_bytes: self.station_bytes(owned, ghosts, subscribers as nat, queued as nat),
            tick_cost_units: self.tick_cost(owned, ghosts, cells.len(), queued as nat),
            cells,
        }
    }
}

fn count_station_roles(station: &Station) -> (counts: (usize, usize))
    ensures
        counts.0 == owned_count(station.records@),
        counts.0 + counts.1 == station.records@.len(),
{
    let mut owned: usize = 0;
    let mut ghosts: usize = 0;
    let mut index: usize = 0;
    assert(station.records@.take(0) =~= Seq::empty());
    while index < station.records.len()
        invariant
            index <= station.records@.len(),
            owned == owned_count(station.records@.take(index as int)),
            owned + ghosts == index,
        decreases station.records@.len() - index,
    {
        assert(station.records@.take(index + 1).drop_last() =~= station.records@.take(
            index as int,
        ));
        if station.records[index].is_owned() {
            owned = owned + 1;
        } else {
            ghosts = ghosts + 1;
        }
        index = index + 1;
    }
    assert(station.records@.take(index as int) =~= station.records@);
    (owned, ghosts)
}

fn count_cell_roles(station: &Station, handles: &Vec<EntityHandle>) -> (counts: (usize, usize))
    ensures
        counts.0 == resolved_count(station.records@, handles@, true),
        counts.1 == resolved_count(station.records@, handles@, false),
        counts.0 + counts.1 <= handles@.len(),
{
    let mut owned: usize = 0;
    let mut ghosts: usize = 0;
    let mut index: usize = 0;
    assert(handles@.take(0) =~= Seq::empty());
    while index < handles.len()
        invariant
            index <= handles@.len(),
            owned == resolved_count(station.records@, handles@.take(index as int), true),
            ghosts == resolved_count(station.records@, handles@.take(index as int), false),
            owned + ghosts <= index,
        decreases handles@.len() - index,
    {
        assert(handles@.take(index + 1).drop_last() =~= handles@.take(index as int));
        if let Some(record) = station.get(handles[index]) {
            if record.is_owned() {
                owned = owned + 1;
            } else {
                ghosts = ghosts + 1;
            }
        }
        index = index + 1;
    }
    assert(handles@.take(index as int) =~= handles@);
    (owned, ghosts)
}

/// Aggregates subscriber counts by station with saturating arithmetic.
fn station_count_map(counts: &[(StationId, usize)], map: &mut HashMap<u32, usize>)
    ensures
        aggregates(final(map)@, counts@),
{
    broadcast use vstd::std_specs::hash::group_hash_axioms;

    map.clear();
    let mut index: usize = 0;
    assert(counts@.take(0) =~= Seq::empty());
    while index < counts.len()
        invariant
            index <= counts@.len(),
            aggregates(map@, counts@.take(index as int)),
        decreases counts@.len() - index,
    {
        assert(counts@.take(index + 1).drop_last() =~= counts@.take(index as int));
        let station: u32 = counts[index].0.0;
        let before: usize = match map.get(&station) {
            Some(count) => *count,
            None => 0,
        };
        map.insert(station, before.saturating_add(counts[index].1));
        index = index + 1;
    }
    assert(counts@.take(index as int) =~= counts@);
}

/// A map holds the clamped subscriber total of every station, and nothing for a station without
/// subscribers.
pub open spec fn aggregates(map: Map<u32, usize>, counts: Seq<(StationId, usize)>) -> bool {
    forall|station: u32|
        #![trigger map.contains_key(station)]
        #![trigger subscriber_total(counts, station)]
        (if map.contains_key(station) {
            map[station]
        } else {
            0
        }) == clamp_usize(subscriber_total(counts, station))
}

fn subscribers_of(map: &HashMap<u32, usize>, station_id: StationId) -> (count: usize)
    ensures
        forall|counts: Seq<(StationId, usize)>| #[trigger]
            aggregates(map@, counts) ==> count == clamp_usize(
                subscriber_total(counts, station_id.0),
            ),
{
    broadcast use vstd::std_specs::hash::group_hash_axioms;

    match map.get(&station_id.0) {
        Some(count) => *count,
        None => 0,
    }
}

/// Caller-owned reusable storage for periodic station load sampling.
#[derive(Clone, Debug)]
pub struct StationLoadSamplerScratch {
    /// Subscribers by station number.
    pub subscribers_by_station: HashMap<u32, usize>,
    /// Occupied cells of the station sampled last.
    pub occupancy: Vec<CellCoord3>,
    /// Output slots.
    pub samples: Vec<StationLoadSample>,
}

impl Default for StationLoadSamplerScratch {
    fn default() -> (scratch: Self)
        ensures
            scratch.subscribers_by_station@ == Map::<u32, usize>::empty(),
            scratch.occupancy@ == Seq::<CellCoord3>::empty(),
            scratch.samples@.len() == 0,
    {
        Self::new()
    }
}

impl StationLoadSamplerScratch {
    /// Creates empty sampling storage.
    pub fn new() -> (scratch: Self)
        ensures
            scratch.subscribers_by_station@ == Map::<u32, usize>::empty(),
            scratch.occupancy@ == Seq::<CellCoord3>::empty(),
            scratch.samples@.len() == 0,
    {
        Self {
            subscribers_by_station: HashMap::new(),
            occupancy: Vec::new(),
            samples: Vec::new(),
        }
    }

    /// Hash-table capacity retained for subscriber aggregation.
    pub fn retained_subscriber_capacity(&self) -> (capacity: usize)
        ensures
            capacity >= self.subscribers_by_station@.dom().len(),
    {
        map_capacity(&self.subscribers_by_station)
    }

    /// Temporary occupancy capacity retained across station scans.
    pub fn retained_occupancy_capacity(&self) -> (capacity: usize)
        ensures
            capacity >= self.occupancy@.len(),
    {
        vec_capacity(&self.occupancy)
    }

    /// Station output slots retained across sampling passes.
    pub fn retained_sample_slots(&self) -> (slots: usize)
        ensures
            slots == self.samples@.len(),
    {
        self.samples.len()
    }

    /// Total cell output capacity retained across station slots, clamped to what a `usize` holds.
    pub fn retained_cell_capacity(&self) -> (capacity: usize)
        ensures
            capacity >= clamp_usize(cell_total(self.samples@)),
    {
        let mut capacity: usize = 0;
        let mut index: usize = 0;
        assert(self.samples@.take(0) =~= Seq::empty());
        while index < self.samples.len()
            invariant
                index <= self.samples@.len(),
                capacity >= clamp_usize(cell_total(self.samples@.take(index as int))),
            decreases self.samples@.len() - index,
        {
            assert(self.samples@.take(index + 1).drop_last() =~= self.samples@.take(index as int));
            capacity = capacity.saturating_add(vec_capacity(&self.samples[index].cells));
            index = index + 1;
        }
        assert(self.samples@.take(index as int) =~= self.samples@);
        capacity
    }
}

/// Number of cells over several samples.
pub open spec fn cell_total(samples: Seq<StationLoadSample>) -> nat
    decreases samples.len(),
{
    if samples.len() == 0 {
        0
    } else {
        cell_total(samples.drop_last()) + samples.last().cells@.len()
    }
}

/// Runtime helper that derives `StationLoadSample` from existing low-level state.
#[derive(Clone, Copy, Debug, PartialEq, Eq, Structural)]
pub struct StationLoadSampler {
    /// Sampler configuration.
    pub config: StationLoadSamplerConfig,
}

/// What sampling every station comes to: one sample per station, in set order, from its own
/// storage, its index, its queue length and its aggregated subscribers.
pub open spec fn samples_of<Q: StationEventQueue>(
    config: StationLoadSamplerConfig,
    stations: StationSet,
    indexes: StationIndexSet,
    router: EventRouter<Q>,
    counts: Seq<(StationId, usize)>,
    samples: Seq<StationLoadModel>,
) -> bool {
    &&& samples.len() == stations.registry.entries@.len()
    &&& forall|i: int|
        0 <= i < samples.len() ==> sample_matches(
            config,
            stations.registry.entries@[i].1,
            indexes,
            router,
            counts,
            #[trigger] samples[i],
        )
}

/// What sampling one station of a set comes to.
pub open spec fn sample_matches<Q: StationEventQueue>(
    config: StationLoadSamplerConfig,
    station: Station,
    indexes: StationIndexSet,
    router: EventRouter<Q>,
    counts: Seq<(StationId, usize)>,
    sample: StationLoadModel,
) -> bool {
    let id = station.config.station_id;
    exists|queued: Option<usize>| #[trigger]
        router.reports(id, queued) && sample == config.station_sample(
            station,
            indexes.index(id),
            match queued {
                Some(count) => count,
                None => 0,
            },
            clamp_usize(subscriber_total(counts, id.0)),
        )
}

impl StationLoadSampler {
    /// Creates a station load sampler.
    pub fn new(config: StationLoadSamplerConfig) -> (sampler: Self)
        ensures
            sampler.config == config,
    {
        Self { config }
    }

    /// Returns the sampler configuration.
    pub fn config(&self) -> (config: StationLoadSamplerConfig)
        ensures
            config == self.config,
    {
        self.config
    }

    /// Samples one station from its storage, optional index, queued event count, and
    /// caller-provided subscriber estimate.
    pub fn sample_station(
        &self,
        station: &Station,
        index: Option<&CellIndex>,
        queued_events: usize,
        subscribers: usize,
    ) -> (sample: StationLoadSample)
        requires
            index matches Some(index) ==> index.wf(),
        ensures
            sample@ == self.config.station_sample(
                *station,
                match index {
                    Some(index) => Some(*index),
                    None => None,
                },
                queued_events,
                subscribers,
            ),
    {
        let mut sample = StationLoadSample::empty();
        let mut occupancy: Vec<CellCoord3> = Vec::new();
        self.sample_station_into(
            station,
            index,
            queued_events,
            subscribers,
            &mut occupancy,
            &mut sample,
        );
        sample
    }

    /// Samples every station in deterministic station-set order.
    ///
    /// `subscriber_counts` is explicit integration input: it informs load decisions, but
    /// gateway/client/session business state stays with the caller. Counts with the same station id
    /// are aggregated with saturating arithmetic. Because the event router and subscriber input are
    /// station-scoped, their pressure stays on the station sample instead of being invented per
    /// cell.
    pub fn sample_all<Q: StationEventQueue>(
        &self,
        stations: &StationSet,
        indexes: &StationIndexSet,
        router: &EventRouter<Q>,
        subscriber_counts: &[(StationId, usize)],
    ) -> (samples: Vec<StationLoadSample>)
        requires
            indexes.wf(),
            router.wf(),
        ensures
            samples_of(
                self.config,
                *stations,
                *indexes,
                *router,
                subscriber_counts@,
                Seq::new(samples@.len(), |i: int| samples@[i]@),
            ),
    {
        let mut subscribers: HashMap<u32, usize> = HashMap::new();
        station_count_map(subscriber_counts, &mut subscribers);
        let mut samples: Vec<StationLoadSample> = Vec::new();
        let mut at: usize = 0;
        while at < stations.registry.entries.len()
            invariant
                at <= stations.registry.entries@.len(),
                samples@.len() == at,
                indexes.wf(),
                router.wf(),
                aggregates(subscribers@, subscriber_counts@),
                forall|i: int|
                    0 <= i < at ==> sample_matches(
                        self.config,
                        stations.registry.entries@[i].1,
                        *indexes,
                        *router,
                        subscriber_counts@,
                        (#[trigger] samples@[i])@,
                    ),
            decreases stations.registry.entries@.len() - at,
        {
            let station = &stations.registry.entries[at].1;
            let station_id = station.config.station_id;
            let queued = router.queued_len(station_id);
            let queued_events: usize = match queued {
                Some(count) => count,
                None => 0,
            };
            let sample = self.sample_station(
                station,
                indexes.get(station_id),
                queued_events,
                subscribers_of(&subscribers, station_id),
            );
            assert(router.reports(station_id, queued));
            assert(sample_matches(
                self.config,
                *station,
                *indexes,
                *router,
                subscriber_counts@,
                sample@,
            ));
            samples.push(sample);
            at = at + 1;
        }
        samples
    }

    /// Samples every station into caller-owned storage and returns its active prefix.
    ///
    /// Station order and aggregation semantics match [`Self::sample_all`]. Reusing the same scratch
    /// retains subscriber, occupancy, station, and per-cell storage.
    pub fn sample_all_into<'a, Q: StationEventQueue>(
        &self,
        stations: &StationSet,
        indexes: &StationIndexSet,
        router: &EventRouter<Q>,
        subscriber_counts: &[(StationId, usize)],
        scratch: &'a mut StationLoadSamplerScratch,
    ) -> (samples: &'a [StationLoadSample])
        requires
            indexes.wf(),
            router.wf(),
        ensures
            samples_of(
                self.config,
                *stations,
                *indexes,
                *router,
                subscriber_counts@,
                Seq::new(samples@.len(), |i: int| samples@[i]@),
            ),
            final(scratch).samples@.len() == (if old(scratch).samples@.len()
                < stations.registry.entries@.len() {
                stations.registry.entries@.len()
            } else {
                old(scratch).samples@.len()
            }),
    {
        station_count_map(subscriber_counts, &mut scratch.subscribers_by_station);
        let station_count: usize = stations.registry.entries.len();
        while scratch.samples.len() < station_count
            invariant
                station_count == stations.registry.entries@.len(),
                old(scratch).samples@.len() <= scratch.samples@.len(),
                scratch.samples@.len() <= old(scratch).samples@.len() || scratch.samples@.len()
                    <= station_count,
                aggregates(scratch.subscribers_by_station@, subscriber_counts@),
            decreases station_count - scratch.samples@.len(),
        {
            scratch.samples.push(StationLoadSample::empty());
        }
        let mut at: usize = 0;
        let ghost slots = scratch.samples@.len();
        while at < station_count
            invariant
                at <= station_count,
                station_count == stations.registry.entries@.len(),
                scratch.samples@.len() == slots,
                station_count <= slots,
                indexes.wf(),
                router.wf(),
                aggregates(scratch.subscribers_by_station@, subscriber_counts@),
                forall|i: int|
                    0 <= i < at ==> sample_matches(
                        self.config,
                        stations.registry.entries@[i].1,
                        *indexes,
                        *router,
                        subscriber_counts@,
                        (#[trigger] scratch.samples@[i])@,
                    ),
            decreases station_count - at,
        {
            let station = &stations.registry.entries[at].1;
            let station_id = station.config.station_id;
            let queued = router.queued_len(station_id);
            let queued_events: usize = match queued {
                Some(count) => count,
                None => 0,
            };
            let subscribers: usize = subscribers_of(&scratch.subscribers_by_station, station_id);
            let index = indexes.get(station_id);
            let ghost before = scratch.samples@;
            self.sample_station_into(
                station,
                index,
                queued_events,
                subscribers,
                &mut scratch.occupancy,
                &mut scratch.samples[at],
            );
            proof {
                assert(router.reports(station_id, queued));
                assert(sample_matches(
                    self.config,
                    *station,
                    *indexes,
                    *router,
                    subscriber_counts@,
                    scratch.samples@[at as int]@,
                ));
                assert forall|i: int| 0 <= i < at + 1 implies sample_matches(
                    self.config,
                    stations.registry.entries@[i].1,
                    *indexes,
                    *router,
                    subscriber_counts@,
                    (#[trigger] scratch.samples@[i])@,
                ) by {
                    if i < at {
                        assert(scratch.samples@[i] == before[i]);
                    }
                }
            }
            at = at + 1;
        }
        vstd::slice::slice_subrange(scratch.samples.as_slice(), 0, station_count)
    }

    fn sample_station_into(
        &self,
        station: &Station,
        index: Option<&CellIndex>,
        queued_events: usize,
        subscribers: usize,
        occupancy: &mut Vec<CellCoord3>,
        sample: &mut StationLoadSample,
    )
        requires
            index matches Some(index) ==> index.wf(),
        ensures
            final(sample)@ == self.config.station_sample(
                *station,
                match index {
                    Some(index) => Some(*index),
                    None => None,
                },
                queued_events,
                subscribers,
            ),
            final(occupancy)@ == (match index {
                Some(index) => occupied_in(index.cells.entries@),
                None => Seq::empty(),
            }),
    {
        let (owned_entities, ghost_entities) = count_station_roles(station);
        sample.cells.clear();
        if let Some(index) = index {
            index.cell_occupancy_into(occupancy);
            self.sample_cells(station, index, &mut sample.cells);
        } else {
            occupancy.clear();
        }
        sample.station_id = station.config.station_id;
        sample.owned_entities = owned_entities;
        sample.ghost_entities = ghost_entities;
        sample.subscribers = subscribers;
        sample.queued_events = queued_events;
        sample.estimated_bytes = self.estimate_station_bytes(
            owned_entities,
            ghost_entities,
            subscribers,
            queued_events,
        );
        sample.tick_cost_units = self.estimate_tick_cost(
            owned_entities,
            ghost_entities,
            sample.cells.len(),
            queued_events,
        );
    }

    fn sample_cells(&self, station: &Station, index: &CellIndex, cells: &mut Vec<CellLoadSample>)
        requires
            old(cells)@.len() == 0,
        ensures
            final(cells)@ == self.config.cell_samples(station.records@, index.cells.entries@),
    {
        let ghost entries = index.cells.entries@;
        let mut at: usize = 0;
        assert(entries.take(0) =~= Seq::empty());
        while at < index.cells.entries.len()
            invariant
                at <= entries.len(),
                entries == index.cells.entries@,
                cells@ == self.config.cell_samples(station.records@, entries.take(at as int)),
            decreases entries.len() - at,
        {
            assert(entries.take(at + 1).drop_last() =~= entries.take(at as int));
            let entry = &index.cells.entries[at].1;
            if entry.handles.len() > 0 {
                let (owned, ghosts) = count_cell_roles(station, &entry.handles);
                let entities: usize = owned.saturating_add(ghosts);
                assert(entry.handles@.len() == entry.handles.len());
                cells.push(
                    CellLoadSample {
                        cell: entry.cell,
                        owned_entities: owned,
                        ghost_entities: ghosts,
                        subscribers: 0,
                        estimated_updates: entities,
                        estimated_bytes: saturating_mul_usize(
                            entities,
                            self.config.estimated_bytes_per_entity,
                        ),
                        tick_cost_units: self.estimate_tick_cost(owned, ghosts, 1, 0),
                        event_pressure: 0,
                    },
                );
            }
            at = at + 1;
        }
        assert(entries.take(at as int) =~= entries);
    }

    fn estimate_station_bytes(
        &self,
        owned_entities: usize,
        ghost_entities: usize,
        subscribers: usize,
        queued_events: usize,
    ) -> (bytes: usize)
        ensures
            bytes == self.config.station_bytes(
                owned_entities as nat,
                ghost_entities as nat,
                subscribers as nat,
                queued_events as nat,
            ),
    {
        proof {
            lemma_clamp_usize_mul(
                owned_entities as nat + ghost_entities as nat,
                self.config.estimated_bytes_per_entity as nat,
            );
        }
        saturating_mul_usize(
            owned_entities.saturating_add(ghost_entities),
            self.config.estimated_bytes_per_entity,
        ).saturating_add(
            saturating_mul_usize(subscribers, self.config.estimated_bytes_per_subscriber),
        ).saturating_add(saturating_mul_usize(queued_events, self.config.estimated_bytes_per_event))
    }

    fn estimate_tick_cost(
        &self,
        owned_entities: usize,
        ghost_entities: usize,
        occupied_cells: usize,
        queued_events: usize,
    ) -> (cost: u64)
        ensures
            cost == self.config.tick_cost(
                owned_entities as nat,
                ghost_entities as nat,
                occupied_cells as nat,
                queued_events as nat,
            ),
    {
        saturating_mul_u64(
            owned_entities as u64,
            self.config.tick_cost_per_owned_entity,
        ).saturating_add(
            saturating_mul_u64(ghost_entities as u64, self.config.tick_cost_per_ghost_entity),
        ).saturating_add(
            saturating_mul_u64(occupied_cells as u64, self.config.tick_cost_per_occupied_cell),
        ).saturating_add(
            saturating_mul_u64(queued_events as u64, self.config.tick_cost_per_queued_event),
        )
    }
}

impl Default for StationLoadSampler {
    fn default() -> (sampler: Self)
        ensures
            sampler.config == (StationLoadSamplerConfig {
                estimated_bytes_per_entity: 48,
                estimated_bytes_per_subscriber: 16,
                estimated_bytes_per_event: 32,
                tick_cost_per_owned_entity: 2,
                tick_cost_per_ghost_entity: 1,
                tick_cost_per_occupied_cell: 1,
                tick_cost_per_queued_event: 1,
            }),
    {
        Self::new(StationLoadSamplerConfig::default())
    }
}

proof fn lemma_owned_count(records: Seq<EntityRecord>)
    ensures
        owned_count(records) <= records.len(),
    decreases records.len(),
{
    if records.len() > 0 {
        lemma_owned_count(records.drop_last());
    }
}

proof fn lemma_resolved_counts(records: Seq<EntityRecord>, handles: Seq<EntityHandle>)
    ensures
        resolved_count(records, handles, true) + resolved_count(records, handles, false)
            <= handles.len(),
    decreases handles.len(),
{
    if handles.len() > 0 {
        lemma_resolved_counts(records, handles.drop_last());
    }
}

/// A station sample counts every stored entity once, as authoritative or as read-only.
pub proof fn law_every_entity_is_counted_once(
    config: StationLoadSamplerConfig,
    station: Station,
    index: Option<CellIndex>,
    queued: usize,
    subscribers: usize,
)
    requires
        station.records@.len() <= usize::MAX,
    ensures
        ({
            let sample = config.station_sample(station, index, queued, subscribers);
            sample.owned_entities + sample.ghost_entities == station.records@.len()
        }),
{
    lemma_owned_count(station.records@);
}

/// A cell sample counts no more entities than the cell holds handles, and expects one update of
/// each entity that it counts.
pub proof fn law_cells_count_their_handles(
    config: StationLoadSamplerConfig,
    records: Seq<EntityRecord>,
    cell: CellCoord3,
    handles: Seq<EntityHandle>,
)
    requires
        handles.len() <= usize::MAX,
    ensures
        ({
            let sample = config.cell_sample(records, cell, handles);
            &&& sample.owned_entities + sample.ghost_entities <= handles.len()
            &&& sample.estimated_updates == sample.owned_entities + sample.ghost_entities
        }),
{
    lemma_resolved_counts(records, handles);
}

} // verus!
