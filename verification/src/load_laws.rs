//! What load sampling measures: every stored entity once, and the bytes and costs that follow from
//! what the sample itself counts.

use vstd::prelude::*;

use crate::cell_index::{cell_number, CellEntry, CellIndex};
use crate::event_router::{EventRouter, StationEventQueue};
use crate::ids::{EntityHandle, StationId};
use crate::load_sampler::{
    owned_count, resolved_count, sample_matches, subscriber_total, CellLoadSample,
    StationLoadModel, StationLoadSample, StationLoadSampler, StationLoadSamplerConfig,
    StationLoadSamplerScratch,
};
use crate::ordered_map::{ascending, lemma_map_of};
use crate::station::{record_of, CellCoord3, EntityRecord, Station};
use crate::station_set::{StationIndexSet, StationSet};

verus! {

/// `total`, or `most` where it is larger.
pub open spec fn at_most(total: int, most: int) -> int {
    if total <= most {
        total
    } else {
        most
    }
}

/// Number of records that satisfy a condition.
pub open spec fn records_with(
    records: Seq<EntityRecord>,
    condition: spec_fn(EntityRecord) -> bool,
) -> nat {
    records.filter(condition).len()
}

/// Number of handles whose record satisfies a condition.
pub open spec fn handles_with(
    records: Seq<EntityRecord>,
    handles: Seq<EntityHandle>,
    condition: spec_fn(EntityRecord) -> bool,
) -> nat {
    handles.filter(
        |handle: EntityHandle|
            record_of(records, handle) is Some && condition(record_of(records, handle)->0),
    ).len()
}

/// The sample measures one occupied cell of a station.
pub open spec fn measures_cell(
    config: StationLoadSamplerConfig,
    records: Seq<EntityRecord>,
    handles: Seq<EntityHandle>,
    sample: CellLoadSample,
) -> bool {
    let owned = |record: EntityRecord| record.role is Authority;
    let ghost_copy = |record: EntityRecord| record.role is Replica;
    let entities = sample.owned_entities + sample.ghost_entities;
    &&& handles.len() > 0
    &&& sample.owned_entities == handles_with(records, handles, owned)
    &&& sample.ghost_entities == handles_with(records, handles, ghost_copy)
    &&& sample.estimated_updates == entities
    &&& sample.estimated_bytes == at_most(
        entities * config.estimated_bytes_per_entity,
        usize::MAX as int,
    )
    &&& sample.tick_cost_units == at_most(
        sample.owned_entities * config.tick_cost_per_owned_entity + sample.ghost_entities
            * config.tick_cost_per_ghost_entity + config.tick_cost_per_occupied_cell,
        u64::MAX as int,
    )
    &&& sample.subscribers == 0
    &&& sample.event_pressure == 0
}

/// The sample measures a station: it counts the records by authority, and its bytes and cost follow
/// from its own counts. The index adds the cells and their cost, and nothing else.
pub open spec fn measures_station(
    config: StationLoadSamplerConfig,
    station: Station,
    index: Option<CellIndex>,
    queued: usize,
    subscribers: usize,
    sample: StationLoadSample,
) -> bool {
    &&& sample.station_id == station.config.station_id
    &&& sample.owned_entities == records_with(
        station.records@,
        |record: EntityRecord| record.role is Authority,
    )
    &&& sample.ghost_entities == records_with(
        station.records@,
        |record: EntityRecord| record.role is Replica,
    )
    &&& sample.owned_entities + sample.ghost_entities == station.records@.len()
    &&& sample.subscribers == subscribers
    &&& sample.queued_events == queued
    &&& sample.estimated_bytes == at_most(
        (sample.owned_entities + sample.ghost_entities) * config.estimated_bytes_per_entity
            + sample.subscribers * config.estimated_bytes_per_subscriber + sample.queued_events
            * config.estimated_bytes_per_event,
        usize::MAX as int,
    )
    &&& sample.tick_cost_units == at_most(
        sample.owned_entities * config.tick_cost_per_owned_entity + sample.ghost_entities
            * config.tick_cost_per_ghost_entity + sample.cells@.len()
            * config.tick_cost_per_occupied_cell + sample.queued_events
            * config.tick_cost_per_queued_event,
        u64::MAX as int,
    )
    &&& match index {
        None => sample.cells@.len() == 0,
        Some(index) => {
            &&& forall|i: int|
                0 <= i < sample.cells@.len() ==> measures_cell(
                    config,
                    station.records@,
                    index.handles_in(sample.cells@[i].cell),
                    #[trigger] sample.cells@[i],
                )
            &&& forall|i: int, j: int|
                0 <= i < j < sample.cells@.len() ==> cell_number(sample.cells@[i].cell)
                    < cell_number(sample.cells@[j].cell)
            &&& forall|cell: CellCoord3|
                (#[trigger] index.handles_in(cell)).len() > 0 ==> exists|i: int|
                    0 <= i < sample.cells@.len() && (#[trigger] sample.cells@[i]).cell == cell
        },
    }
}

proof fn lemma_owned(records: Seq<EntityRecord>)
    ensures
        owned_count(records) == records_with(
            records,
            |record: EntityRecord| record.role is Authority,
        ),
        records.len() - owned_count(records) == records_with(
            records,
            |record: EntityRecord| record.role is Replica,
        ),
        owned_count(records) <= records.len(),
    decreases records.len(),
{
    reveal(Seq::filter);
    if records.len() > 0 {
        lemma_owned(records.drop_last());
    }
}

proof fn lemma_resolved(records: Seq<EntityRecord>, handles: Seq<EntityHandle>)
    ensures
        resolved_count(records, handles, true) == handles_with(
            records,
            handles,
            |record: EntityRecord| record.role is Authority,
        ),
        resolved_count(records, handles, false) == handles_with(
            records,
            handles,
            |record: EntityRecord| record.role is Replica,
        ),
        resolved_count(records, handles, true) + resolved_count(records, handles, false)
            <= handles.len(),
    decreases handles.len(),
{
    reveal(Seq::filter);
    if handles.len() > 0 {
        lemma_resolved(records, handles.drop_last());
    }
}

proof fn lemma_cells(
    config: StationLoadSamplerConfig,
    records: Seq<EntityRecord>,
    entries: Seq<(u128, CellEntry)>,
) -> (places: Seq<int>)
    requires
        ascending(entries),
        forall|i: int|
            0 <= i < entries.len() ==> cell_number((#[trigger] entries[i]).1.cell) == entries[i].0,
    ensures
        ({
            let cells = config.cell_samples(records, entries);
            &&& places.len() == cells.len()
            &&& forall|i: int|
                0 <= i < places.len() ==> 0 <= #[trigger] places[i] < entries.len()
                    && cells[i].cell == entries[places[i]].1.cell && measures_cell(
                    config,
                    records,
                    entries[places[i]].1.handles@,
                    cells[i],
                )
            &&& forall|i: int, j: int| 0 <= i < j < places.len() ==> places[i] < places[j]
            &&& forall|k: int|
                0 <= k < entries.len() && (#[trigger] entries[k]).1.handles@.len() > 0
                    ==> places.contains(k)
        }),
    decreases entries.len(),
{
    if entries.len() == 0 {
        Seq::empty()
    } else {
        let front = entries.drop_last();
        let rest = lemma_cells(config, records, front);
        let cells = config.cell_samples(records, entries);
        let before = config.cell_samples(records, front);
        let last = entries.len() - 1;
        let held = entries.last().1.handles@.len() > 0;
        let places = if held {
            rest.push(last)
        } else {
            rest
        };
        lemma_resolved(records, entries.last().1.handles@);
        assert(entries.last().1.handles.len() == entries.last().1.handles@.len());
        assert forall|i: int| 0 <= i < places.len() implies 0 <= #[trigger] places[i]
            < entries.len() && cells[i].cell == entries[places[i]].1.cell && measures_cell(
            config,
            records,
            entries[places[i]].1.handles@,
            cells[i],
        ) by {
            if i < rest.len() {
                assert(places[i] == rest[i]);
                assert(cells[i] == before[i]);
                assert(front[rest[i]] == entries[rest[i]]);
            }
        }
        assert forall|k: int|
            0 <= k < entries.len() && (#[trigger] entries[k]).1.handles@.len()
                > 0 implies places.contains(k) by {
            if k < last {
                assert(front[k] == entries[k]);
                let i = choose|i: int| 0 <= i < rest.len() && rest[i] == k;
                assert(places[i] == k);
            } else {
                assert(places[places.len() - 1] == k);
            }
        }
        places
    }
}

proof fn lemma_measures(
    config: StationLoadSamplerConfig,
    station: Station,
    index: Option<CellIndex>,
    queued: usize,
    subscribers: usize,
    sample: StationLoadSample,
)
    requires
        index matches Some(index) ==> index.wf(),
        sample@ == config.station_sample(station, index, queued, subscribers),
    ensures
        measures_station(config, station, index, queued, subscribers, sample),
{
    lemma_owned(station.records@);
    assert(station.records.len() == station.records@.len());
    if let Some(index) = index {
        let entries = index.cells.entries@;
        lemma_map_of(entries);
        assert forall|i: int| 0 <= i < entries.len() implies cell_number(
            (#[trigger] entries[i]).1.cell,
        ) == entries[i].0 by {
            assert(index.cells@.contains_key(entries[i].0));
        }
        let places = lemma_cells(config, station.records@, entries);
        let cells = sample.cells@;
        assert forall|i: int| 0 <= i < cells.len() implies measures_cell(
            config,
            station.records@,
            index.handles_in(cells[i].cell),
            #[trigger] cells[i],
        ) by {
            assert(entries[places[i]].0 == cell_number(cells[i].cell));
        }
        assert forall|i: int, j: int| 0 <= i < j < cells.len() implies cell_number(cells[i].cell)
            < cell_number(cells[j].cell) by {
            assert(places[i] < places[j]);
            assert(entries[places[i]].0 < entries[places[j]].0);
        }
        assert forall|cell: CellCoord3|
            (#[trigger] index.handles_in(cell)).len() > 0 implies exists|i: int|
            0 <= i < cells.len() && (#[trigger] cells[i]).cell == cell by {
            let k = choose|k: int|
                0 <= k < entries.len() && (#[trigger] entries[k]).0 == cell_number(cell);
            crate::cell_index::lemma_cell_number_injective(entries[k].1.cell, cell);
            let i = choose|i: int| 0 <= i < places.len() && places[i] == k;
            assert(cells[i].cell == cell);
        }
    }
}

/// A sampled station is measured: see `measures_station`. In particular its bytes do not depend on
/// the index, and each stored record adds the bytes of one entity.
pub proof fn law_samples_measure_the_station(
    sampler: &StationLoadSampler,
    station: &Station,
    index: Option<&CellIndex>,
    queued: usize,
    subscribers: usize,
    sample: StationLoadSample,
)
    requires
        index matches Some(index) ==> index.wf(),
        call_ensures(
            StationLoadSampler::sample_station,
            (sampler, station, index, queued, subscribers),
            sample,
        ),
    ensures
        measures_station(
            sampler.config,
            *station,
            match index {
                Some(index) => Some(*index),
                None => None,
            },
            queued,
            subscribers,
            sample,
        ),
{
    lemma_measures(
        sampler.config,
        *station,
        match index {
            Some(index) => Some(*index),
            None => None,
        },
        queued,
        subscribers,
        sample,
    );
}

/// One more stored entity raises the bytes of a station by the bytes of one entity, wherever and
/// whether the entity is indexed.
pub proof fn law_each_entity_adds_its_bytes(
    sampler: &StationLoadSampler,
    fewer: &Station,
    more: &Station,
    fewer_index: Option<&CellIndex>,
    more_index: Option<&CellIndex>,
    queued: usize,
    subscribers: usize,
    less: StationLoadSample,
    greater: StationLoadSample,
)
    requires
        fewer_index matches Some(index) ==> index.wf(),
        more_index matches Some(index) ==> index.wf(),
        more.records@.len() == fewer.records@.len() + 1,
        call_ensures(
            StationLoadSampler::sample_station,
            (sampler, fewer, fewer_index, queued, subscribers),
            less,
        ),
        call_ensures(
            StationLoadSampler::sample_station,
            (sampler, more, more_index, queued, subscribers),
            greater,
        ),
        greater.estimated_bytes < usize::MAX,
    ensures
        greater.estimated_bytes == less.estimated_bytes + sampler.config.estimated_bytes_per_entity,
{
    law_samples_measure_the_station(sampler, fewer, fewer_index, queued, subscribers, less);
    law_samples_measure_the_station(sampler, more, more_index, queued, subscribers, greater);
    let unit = sampler.config.estimated_bytes_per_entity as int;
    let count = less.owned_entities + less.ghost_entities;
    assert((count + 1) * unit == count * unit + unit) by (nonlinear_arith);
}

/// Subscribers of a station add up over the reported counts, and those of other stations count
/// nothing.
pub proof fn law_subscribers_add_up(
    left: Seq<(StationId, usize)>,
    right: Seq<(StationId, usize)>,
    id: StationId,
    count: usize,
    station: StationId,
)
    ensures
        subscriber_total(Seq::empty(), station.0) == 0,
        subscriber_total(left.push((id, count)), station.0) == subscriber_total(left, station.0) + (
        if id == station {
            count as nat
        } else {
            0
        }),
        subscriber_total(left + right, station.0) == subscriber_total(left, station.0)
            + subscriber_total(right, station.0),
    decreases right.len(),
{
    assert(left.push((id, count)).drop_last() =~= left);
    if right.len() > 0 {
        law_subscribers_add_up(left, right.drop_last(), id, count, station);
        assert((left + right).drop_last() =~= left + right.drop_last());
    } else {
        assert(left + right =~= left);
    }
}

/// The samples measure the stations of a set one by one, each with its own index, the number of its
/// queued events, and the subscribers reported for it.
pub open spec fn measure_all<Q: StationEventQueue>(
    config: StationLoadSamplerConfig,
    stations: StationSet,
    indexes: StationIndexSet,
    router: EventRouter<Q>,
    counts: Seq<(StationId, usize)>,
    samples: Seq<StationLoadSample>,
) -> bool {
    &&& samples.len() == stations.registry.entries@.len()
    &&& forall|i: int|
        0 <= i < samples.len() ==> {
            let station = stations.registry.entries@[i].1;
            let id = station.config.station_id;
            &&& measures_station(
                config,
                station,
                indexes.index(id),
                (#[trigger] samples[i]).queued_events,
                samples[i].subscribers,
                samples[i],
            )
            &&& samples[i].subscribers == at_most(
                subscriber_total(counts, id.0) as int,
                usize::MAX as int,
            )
            &&& router.reports(id, Some(samples[i].queued_events)) || (router.reports(id, None)
                && samples[i].queued_events == 0)
        }
}

proof fn lemma_measure_all<Q: StationEventQueue>(
    config: StationLoadSamplerConfig,
    stations: StationSet,
    indexes: StationIndexSet,
    router: EventRouter<Q>,
    counts: Seq<(StationId, usize)>,
    samples: Seq<StationLoadSample>,
)
    requires
        indexes.wf(),
        crate::load_sampler::samples_of(
            config,
            stations,
            indexes,
            router,
            counts,
            Seq::new(samples.len(), |i: int| samples[i]@),
        ),
    ensures
        measure_all(config, stations, indexes, router, counts, samples),
{
    let models: Seq<StationLoadModel> = Seq::new(samples.len(), |i: int| samples[i]@);
    assert forall|i: int| 0 <= i < samples.len() implies {
        let station = stations.registry.entries@[i].1;
        let id = station.config.station_id;
        &&& measures_station(
            config,
            station,
            indexes.index(id),
            (#[trigger] samples[i]).queued_events,
            samples[i].subscribers,
            samples[i],
        )
        &&& samples[i].subscribers == at_most(
            subscriber_total(counts, id.0) as int,
            usize::MAX as int,
        )
        &&& router.reports(id, Some(samples[i].queued_events)) || (router.reports(id, None)
            && samples[i].queued_events == 0)
    } by {
        let station = stations.registry.entries@[i].1;
        let id = station.config.station_id;
        assert(sample_matches(config, station, indexes, router, counts, models[i]));
        assert(models[i] == samples[i]@);
        let queued = choose|queued: Option<usize>| #[trigger]
            router.reports(id, queued) && models[i] == config.station_sample(
                station,
                indexes.index(id),
                match queued {
                    Some(count) => count,
                    None => 0,
                },
                crate::num::clamp_usize(subscriber_total(counts, id.0)),
            );
        crate::station_registry::law_lookups_find_the_first_entry(indexes.registry.ids(), id.0);
        if let Some(index) = indexes.index(id) {
            let at = indexes.registry.position(id)->0;
            assert(indexes.registry.entries@[at].1.wf());
        }
        lemma_measures(
            config,
            station,
            indexes.index(id),
            samples[i].queued_events,
            samples[i].subscribers,
            samples[i],
        );
    }
}

/// Sampling a set measures every station of it, in set order.
pub proof fn law_every_station_is_measured<Q: StationEventQueue>(
    sampler: &StationLoadSampler,
    stations: &StationSet,
    indexes: &StationIndexSet,
    router: &EventRouter<Q>,
    counts: &[(StationId, usize)],
    samples: Vec<StationLoadSample>,
)
    requires
        indexes.wf(),
        router.wf(),
        call_ensures(
            StationLoadSampler::sample_all::<Q>,
            (sampler, stations, indexes, router, counts),
            samples,
        ),
    ensures
        measure_all(sampler.config, *stations, *indexes, *router, counts@, samples@),
{
    lemma_measure_all(sampler.config, *stations, *indexes, *router, counts@, samples@);
}

/// So does sampling into reusable storage, whatever it held before.
pub proof fn law_every_station_is_measured_into_storage<Q: StationEventQueue>(
    sampler: &StationLoadSampler,
    stations: &StationSet,
    indexes: &StationIndexSet,
    router: &EventRouter<Q>,
    counts: &[(StationId, usize)],
)
    requires
        indexes.wf(),
        router.wf(),
    ensures
        forall|scratch: &mut StationLoadSamplerScratch, samples: &[StationLoadSample]| #[trigger]
            call_ensures(
                StationLoadSampler::sample_all_into::<Q>,
                (sampler, stations, indexes, router, counts, scratch),
                samples,
            ) ==> measure_all(sampler.config, *stations, *indexes, *router, counts@, samples@),
{
    assert forall|scratch: &mut StationLoadSamplerScratch, samples: &[StationLoadSample]| #[trigger]
        call_ensures(
            StationLoadSampler::sample_all_into::<Q>,
            (sampler, stations, indexes, router, counts, scratch),
            samples,
        ) implies measure_all(
        sampler.config,
        *stations,
        *indexes,
        *router,
        counts@,
        samples@,
    ) by {
        lemma_measure_all(sampler.config, *stations, *indexes, *router, counts@, samples@);
    }
}

} // verus!
