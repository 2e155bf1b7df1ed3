//! What station scheduling is for: the most loaded stations advance first, and of equally loaded
//! ones those that lag behind.

use vstd::prelude::*;

use crate::load_laws::at_most;
use crate::load_sampler::StationLoadSample;
use crate::split_scheduler::load_score;
use crate::station::Station;
use crate::station_registry::law_lookups_find_the_first_entry;
use crate::ids::StationId;
use crate::station_scheduler::{
    advance_limit, advances_counted, candidates_of, latest_tick, ranks, score_of, selects,
    with_advances, StationScheduleCandidate, StationScheduleConfig, StationSchedulePlan,
    StationScheduleScratch, StationScheduleView, StationScheduler,
};
use crate::station_set::StationSet;

verus! {

/// The candidate has the load of the latest sample of its station, with the pressure of its most
/// loaded cell on top. Without a sample it has none.
pub open spec fn has_load(
    samples: Seq<StationLoadSample>,
    pressures: Seq<u64>,
    candidate: StationScheduleCandidate,
) -> bool {
    if exists|s: int|
        0 <= s < samples.len() && (#[trigger] samples[s]).station_id == candidate.station_id {
        exists|s: int|
            {
                &&& 0 <= s < samples.len()
                &&& (#[trigger] samples[s]).station_id == candidate.station_id
                &&& forall|later: int|
                    s < later < samples.len() ==> (#[trigger] samples[later]).station_id
                        != candidate.station_id
                &&& candidate.load_score == at_most(
                    load_score(samples[s]) + if s < pressures.len() {
                        pressures[s] as int
                    } else {
                        0
                    },
                    u64::MAX as int,
                )
            }
    } else {
        candidate.load_score == 0
    }
}

/// The candidate stands for a station: it lags as far as the station is behind the furthest one.
pub open spec fn stands_for(
    entries: Seq<(StationId, Station)>,
    samples: Seq<StationLoadSample>,
    pressures: Seq<u64>,
    station: int,
    candidate: StationScheduleCandidate,
) -> bool {
    &&& candidate.station_id == entries[station].1.config.station_id
    &&& has_load(samples, pressures, candidate)
    &&& exists|furthest: int|
        {
            &&& 0 <= furthest < entries.len()
            &&& forall|other: int|
                0 <= other < entries.len() ==> (#[trigger] entries[other]).1.tick.0
                    <= entries[furthest].1.tick.0
            &&& candidate.tick_lag == (#[trigger] entries[furthest]).1.tick.0
                - entries[station].1.tick.0
        }
}

/// The candidate stands for some station of the set.
pub open spec fn stands_for_some(
    entries: Seq<(StationId, Station)>,
    samples: Seq<StationLoadSample>,
    pressures: Seq<u64>,
    candidate: StationScheduleCandidate,
) -> bool {
    exists|station: int|
        0 <= station < entries.len() && #[trigger] stands_for(
            entries,
            samples,
            pressures,
            station,
            candidate,
        )
}

/// One candidate goes first: it has more load, or the same and a longer lag, or both the same and no
/// higher id.
pub open spec fn goes_first(
    left: StationScheduleCandidate,
    right: StationScheduleCandidate,
) -> bool {
    ||| left.load_score > right.load_score
    ||| left.load_score == right.load_score && left.tick_lag > right.tick_lag
    ||| left.load_score == right.load_score && left.tick_lag == right.tick_lag
        && left.station_id.0 <= right.station_id.0
}

/// The selected candidates stand for stations of the set, in the order in which they go, as many as
/// may advance, and no station that is left out goes before one of them. Where the ids differ, no
/// station is selected twice.
pub open spec fn are_first(
    entries: Seq<(StationId, Station)>,
    samples: Seq<StationLoadSample>,
    pressures: Seq<u64>,
    config: StationScheduleConfig,
    selected: Seq<StationScheduleCandidate>,
) -> bool {
    &&& selected.len() == at_most(
        entries.len() as int,
        config.max_station_advances_per_step as int,
    )
    &&& forall|i: int|
        0 <= i < selected.len() ==> stands_for_some(
            entries,
            samples,
            pressures,
            #[trigger] selected[i],
        )
    &&& forall|i: int, j: int|
        0 <= i < j < selected.len() ==> goes_first(#[trigger] selected[i], #[trigger] selected[j])
    &&& forall|station: int, candidate: StationScheduleCandidate, i: int|
        0 <= station < entries.len() && #[trigger] stands_for(
            entries,
            samples,
            pressures,
            station,
            candidate,
        ) && !selected.contains(candidate) && 0 <= i < selected.len() ==> goes_first(
            #[trigger] selected[i],
            candidate,
        )
    &&& ids_differ(entries) ==> forall|i: int, j: int|
        0 <= i < j < selected.len() ==> (#[trigger] selected[i]).station_id != (
        #[trigger] selected[j]).station_id
}

/// No two stations have the same id.
pub open spec fn ids_differ(entries: Seq<(StationId, Station)>) -> bool {
    forall|i: int, j: int|
        0 <= i < j < entries.len() ==> (#[trigger] entries[i]).1.config.station_id != (
        #[trigger] entries[j]).1.config.station_id
}

proof fn lemma_furthest(entries: Seq<(StationId, Station)>) -> (furthest: int)
    requires
        entries.len() > 0,
    ensures
        0 <= furthest < entries.len(),
        entries[furthest].1.tick.0 == latest_tick(entries),
        forall|other: int|
            0 <= other < entries.len() ==> (#[trigger] entries[other]).1.tick.0 <= latest_tick(
                entries,
            ),
    decreases entries.len(),
{
    let front = entries.drop_last();
    if front.len() == 0 {
        assert(latest_tick(front) == 0);
        0
    } else {
        let before = lemma_furthest(front);
        assert forall|other: int| 0 <= other < entries.len() implies (
        #[trigger] entries[other]).1.tick.0 <= latest_tick(entries) by {
            if other < front.len() {
                assert(front[other] == entries[other]);
            }
        }
        if entries.last().1.tick.0 > latest_tick(front) {
            entries.len() - 1
        } else {
            assert(front[before] == entries[before]);
            before
        }
    }
}

proof fn lemma_load(
    samples: Seq<StationLoadSample>,
    pressures: Seq<u64>,
    candidate: StationScheduleCandidate,
)
    ensures
        has_load(samples, pressures, candidate) <==> candidate.load_score == score_of(
            samples,
            pressures,
            candidate.station_id,
        ),
    decreases samples.len(),
{
    if samples.len() > 0 {
        let last = samples.len() - 1;
        if samples.last().station_id == candidate.station_id {
            assert(samples[last].station_id == candidate.station_id);
            if has_load(samples, pressures, candidate) {
                let s = choose|s: int|
                    {
                        &&& 0 <= s < samples.len()
                        &&& (#[trigger] samples[s]).station_id == candidate.station_id
                        &&& forall|later: int|
                            s < later < samples.len() ==> (#[trigger] samples[later]).station_id
                                != candidate.station_id
                        &&& candidate.load_score == at_most(
                            load_score(samples[s]) + if s < pressures.len() {
                                pressures[s] as int
                            } else {
                                0
                            },
                            u64::MAX as int,
                        )
                    };
                assert(s == last);
            }
        } else {
            let front = samples.drop_last();
            lemma_load(front, pressures, candidate);
            assert forall|s: int| 0 <= s < front.len() implies #[trigger] front[s]
                == samples[s] by {}
            if exists|s: int|
                0 <= s < front.len() && (#[trigger] front[s]).station_id == candidate.station_id {
                let s = choose|s: int|
                    0 <= s < front.len() && (#[trigger] front[s]).station_id
                        == candidate.station_id;
                assert(samples[s].station_id == candidate.station_id);
                if has_load(front, pressures, candidate) {
                    let t = choose|t: int|
                        {
                            &&& 0 <= t < front.len()
                            &&& (#[trigger] front[t]).station_id == candidate.station_id
                            &&& forall|later: int|
                                t < later < front.len() ==> (#[trigger] front[later]).station_id
                                    != candidate.station_id
                            &&& candidate.load_score == at_most(
                                load_score(front[t]) + if t < pressures.len() {
                                    pressures[t] as int
                                } else {
                                    0
                                },
                                u64::MAX as int,
                            )
                        };
                    assert(samples[t].station_id == candidate.station_id);
                    assert forall|later: int| t < later < samples.len() implies (
                    #[trigger] samples[later]).station_id != candidate.station_id by {
                        if later < front.len() {
                            assert(front[later] == samples[later]);
                        }
                    }
                }
                if has_load(samples, pressures, candidate) {
                    let t = choose|t: int|
                        {
                            &&& 0 <= t < samples.len()
                            &&& (#[trigger] samples[t]).station_id == candidate.station_id
                            &&& forall|later: int|
                                t < later < samples.len() ==> (#[trigger] samples[later]).station_id
                                    != candidate.station_id
                            &&& candidate.load_score == at_most(
                                load_score(samples[t]) + if t < pressures.len() {
                                    pressures[t] as int
                                } else {
                                    0
                                },
                                u64::MAX as int,
                            )
                        };
                    assert(t < last);
                    assert(front[t].station_id == candidate.station_id);
                    assert forall|later: int| t < later < front.len() implies (
                    #[trigger] front[later]).station_id != candidate.station_id by {
                        assert(front[later] == samples[later]);
                    }
                }
            } else {
                assert forall|s: int| 0 <= s < samples.len() implies (
                #[trigger] samples[s]).station_id != candidate.station_id by {
                    if s < front.len() {
                        assert(front[s] == samples[s]);
                    }
                }
            }
        }
    }
}

proof fn lemma_stands_for(
    entries: Seq<(StationId, Station)>,
    samples: Seq<StationLoadSample>,
    pressures: Seq<u64>,
    station: int,
    candidate: StationScheduleCandidate,
)
    requires
        0 <= station < entries.len(),
    ensures
        stands_for(entries, samples, pressures, station, candidate) <==> candidate == candidates_of(
            entries,
            samples,
            pressures,
        )[station],
{
    let furthest = lemma_furthest(entries);
    let given = candidates_of(entries, samples, pressures)[station];
    lemma_load(samples, pressures, candidate);
    lemma_load(samples, pressures, given);
    assert(entries[station].1.tick.0 <= entries[furthest].1.tick.0);
    if stands_for(entries, samples, pressures, station, candidate) {
        let other = choose|other: int|
            {
                &&& 0 <= other < entries.len()
                &&& forall|k: int|
                    0 <= k < entries.len() ==> (#[trigger] entries[k]).1.tick.0
                        <= entries[other].1.tick.0
                &&& candidate.tick_lag == (#[trigger] entries[other]).1.tick.0
                    - entries[station].1.tick.0
            };
        assert(entries[furthest].1.tick.0 <= entries[other].1.tick.0);
    }
}

proof fn lemma_are_first(
    entries: Seq<(StationId, Station)>,
    samples: Seq<StationLoadSample>,
    pressures: Seq<u64>,
    config: StationScheduleConfig,
    selected: Seq<StationScheduleCandidate>,
)
    requires
        selects(
            selected,
            candidates_of(entries, samples, pressures),
            advance_limit(config, entries.len()),
        ),
    ensures
        are_first(entries, samples, pressures, config, selected),
{
    broadcast use vstd::multiset::group_multiset_axioms;

    let candidates = candidates_of(entries, samples, pressures);
    let limit = advance_limit(config, entries.len());
    let ranked = choose|ranked: Seq<StationScheduleCandidate>| #[trigger]
        ranks(ranked, candidates, limit) && limit <= ranked.len() && selected == ranked.take(limit);
    assert forall|i: int| 0 <= i < selected.len() implies stands_for_some(
        entries,
        samples,
        pressures,
        #[trigger] selected[i],
    ) by {
        assert(selected[i] == ranked[i]);
        vstd::seq_lib::to_multiset_contains(ranked, ranked[i]);
        vstd::seq_lib::to_multiset_contains(candidates, ranked[i]);
        let station = choose|station: int|
            0 <= station < candidates.len() && candidates[station] == ranked[i];
        lemma_stands_for(entries, samples, pressures, station, selected[i]);
        assert(stands_for(entries, samples, pressures, station, selected[i]));
    }
    assert forall|station: int, candidate: StationScheduleCandidate, i: int|
        0 <= station < entries.len() && #[trigger] stands_for(
            entries,
            samples,
            pressures,
            station,
            candidate,
        ) && !selected.contains(candidate) && 0 <= i < selected.len() implies goes_first(
        #[trigger] selected[i],
        candidate,
    ) by {
        lemma_stands_for(entries, samples, pressures, station, candidate);
        assert(candidates[station] == candidate);
        crate::station_scheduler::law_selected_stations_lead(
            ranked,
            candidates,
            limit,
            candidate,
            i,
        );
        assert(selected[i] == ranked[i]);
    }
    assert forall|i: int, j: int| 0 <= i < j < selected.len() implies goes_first(
        #[trigger] selected[i],
        #[trigger] selected[j],
    ) by {
        assert(selected[i] == ranked[i] && selected[j] == ranked[j]);
    }
    if ids_differ(entries) {
        assert(candidates.no_duplicates()) by {
            assert forall|i: int, j: int|
                0 <= i < candidates.len() && 0 <= j < candidates.len() && i != j implies
                candidates[i] != candidates[j] by {
                assert(candidates[i].station_id == entries[i].1.config.station_id);
                assert(candidates[j].station_id == entries[j].1.config.station_id);
                if i < j {
                    assert(entries[i].1.config.station_id != entries[j].1.config.station_id);
                } else {
                    assert(entries[j].1.config.station_id != entries[i].1.config.station_id);
                }
            }
        }
        candidates.lemma_multiset_has_no_duplicates();
        ranked.lemma_multiset_has_no_duplicates_conv();
        assert forall|i: int, j: int| 0 <= i < j < selected.len() implies (
        #[trigger] selected[i]).station_id != (#[trigger] selected[j]).station_id by {
            assert(selected[i] == ranked[i] && selected[j] == ranked[j]);
            vstd::seq_lib::to_multiset_contains(ranked, ranked[i]);
            vstd::seq_lib::to_multiset_contains(candidates, ranked[i]);
            vstd::seq_lib::to_multiset_contains(ranked, ranked[j]);
            vstd::seq_lib::to_multiset_contains(candidates, ranked[j]);
            let a = choose|a: int| 0 <= a < candidates.len() && candidates[a] == ranked[i];
            let b = choose|b: int| 0 <= b < candidates.len() && candidates[b] == ranked[j];
            assert(ranked[i] != ranked[j]);
            if a < b {
                assert(entries[a].1.config.station_id != entries[b].1.config.station_id);
            } else {
                assert(entries[b].1.config.station_id != entries[a].1.config.station_id);
            }
        }
    }
}

/// A plan selects the stations that go first.
pub proof fn law_planned_stations_go_first(
    scheduler: &StationScheduler,
    stations: &StationSet,
    samples: &[StationLoadSample],
    pressures: &[u64],
    config: StationScheduleConfig,
    plan: StationSchedulePlan,
)
    requires
        call_ensures(
            StationScheduler::plan_loaded,
            (scheduler, stations, samples, pressures, config),
            plan,
        ),
    ensures
        are_first(stations.registry.entries@, samples@, pressures@, config, plan.selected@),
        plan.candidates_considered == stations.registry.entries@.len(),
        plan.stations_selected == plan.selected@.len(),
        plan.total_advances == plan.selected@.len(),
{
    lemma_are_first(stations.registry.entries@, samples@, pressures@, config, plan.selected@);
}

/// So does a plan into reusable storage, whatever it held before.
pub proof fn law_planned_stations_go_first_in_storage(
    scheduler: &StationScheduler,
    stations: &StationSet,
    samples: &[StationLoadSample],
    pressures: &[u64],
    config: StationScheduleConfig,
)
    ensures
        forall|scratch: &mut StationScheduleScratch, view: StationScheduleView<'_>| #[trigger]
            call_ensures(
                StationScheduler::plan_loaded_into,
                (scheduler, stations, samples, pressures, config, scratch),
                view,
            ) ==> are_first(
                stations.registry.entries@,
                samples@,
                pressures@,
                config,
                view.selected@,
            ),
{
    assert forall|scratch: &mut StationScheduleScratch, view: StationScheduleView<'_>| #[trigger]
        call_ensures(
            StationScheduler::plan_loaded_into,
            (scheduler, stations, samples, pressures, config, scratch),
            view,
        ) implies are_first(
        stations.registry.entries@,
        samples@,
        pressures@,
        config,
        view.selected@,
    ) by {
        lemma_are_first(stations.registry.entries@, samples@, pressures@, config, view.selected@);
    }
}

/// A station is selected.
pub open spec fn is_selected(
    selected: Seq<StationScheduleCandidate>,
    station_id: StationId,
) -> bool {
    exists|i: int| 0 <= i < selected.len() && (#[trigger] selected[i]).station_id == station_id
}

/// The station is one tick further, as far as its clock goes, or as it was; nothing else of it
/// changed.
pub open spec fn ticked(before: Station, after: Station, moved: bool) -> bool {
    &&& after.config == before.config
    &&& after.records == before.records
    &&& after.tick.0 == at_most(
        before.tick.0 + if moved {
            1int
        } else {
            0
        },
        u64::MAX as int,
    )
}

/// The stations of a set moved, those selected by one tick each and no other.
pub open spec fn selected_moved(
    before: Seq<(StationId, Station)>,
    after: Seq<(StationId, Station)>,
    selected: Seq<StationScheduleCandidate>,
) -> bool {
    &&& after.len() == before.len()
    &&& forall|k: int|
        0 <= k < before.len() ==> (#[trigger] after[k]).0 == before[k].0 && ticked(
            before[k].1,
            after[k].1,
            is_selected(selected, before[k].1.config.station_id),
        )
}

proof fn lemma_moved(
    entries: Seq<(StationId, Station)>,
    selected: Seq<StationScheduleCandidate>,
    advanced: u64,
)
    requires
        ids_differ(entries),
        forall|k: int|
            0 <= k < entries.len() ==> (#[trigger] entries[k]).0
                == entries[k].1.config.station_id,
        forall|i: int|
            0 <= i < selected.len() ==> exists|k: int|
                0 <= k < entries.len() && (#[trigger] entries[k]).0 == (
                #[trigger] selected[i]).station_id,
        forall|i: int, j: int|
            0 <= i < j < selected.len() ==> (#[trigger] selected[i]).station_id != (
            #[trigger] selected[j]).station_id,
    ensures
        selected_moved(entries, with_advances(entries, selected), selected),
        advanced + selected.len() <= u64::MAX ==> advances_counted(advanced, entries, selected)
            == advanced + selected.len(),
    decreases selected.len(),
{
    if selected.len() > 0 {
        let front = selected.drop_last();
        let last = selected.last();
        assert forall|i: int| 0 <= i < front.len() implies exists|k: int|
            0 <= k < entries.len() && (#[trigger] entries[k]).0 == (#[trigger] front[i]).station_id
            by {
            assert(front[i] == selected[i]);
        }
        assert forall|i: int, j: int| 0 <= i < j < front.len() implies (
        #[trigger] front[i]).station_id != (#[trigger] front[j]).station_id by {
            assert(front[i] == selected[i] && front[j] == selected[j]);
        }
        lemma_moved(entries, front, advanced);
        let before = with_advances(entries, front);
        let after = with_advances(entries, selected);
        let ids = Seq::new(before.len(), |i: int| before[i].0.0);
        law_lookups_find_the_first_entry(ids, last.station_id.0);
        assert(selected[selected.len() - 1] == last);
        let place = choose|k: int|
            0 <= k < entries.len() && (#[trigger] entries[k]).0 == last.station_id;
        assert(before[place].0 == entries[place].0);
        assert(ids[place] == last.station_id.0);
        let at = crate::station_registry::position_of(ids, last.station_id.0)->0;
        assert(before[at].0 == entries[at].0);
        if at < place {
            assert(entries[at].1.config.station_id != entries[place].1.config.station_id);
        } else if place < at {
            assert(entries[place].1.config.station_id != entries[at].1.config.station_id);
        }
        assert(at == place);
        assert forall|k: int| 0 <= k < entries.len() implies (#[trigger] after[k]).0
            == entries[k].0 && ticked(
            entries[k].1,
            after[k].1,
            is_selected(selected, entries[k].1.config.station_id),
        ) by {
            let id = entries[k].1.config.station_id;
            assert(before[k].0 == entries[k].0);
            if k == place {
                assert(selected[selected.len() - 1].station_id == id);
                if is_selected(front, id) {
                    let i = choose|i: int|
                        0 <= i < front.len() && (#[trigger] front[i]).station_id == id;
                    assert(selected[i].station_id != selected[selected.len() - 1].station_id);
                }
                assert(is_selected(selected, id));
            } else {
                if is_selected(front, id) {
                    let i = choose|i: int|
                        0 <= i < front.len() && (#[trigger] front[i]).station_id == id;
                    assert(selected[i].station_id == id);
                }
                if is_selected(selected, id) {
                    let i = choose|i: int|
                        0 <= i < selected.len() && (#[trigger] selected[i]).station_id == id;
                    if i < front.len() {
                        assert(front[i].station_id == id);
                    } else {
                        if k < place {
                            assert(entries[k].1.config.station_id
                                != entries[place].1.config.station_id);
                        } else {
                            assert(entries[place].1.config.station_id
                                != entries[k].1.config.station_id);
                        }
                    }
                }
                assert(after[k] == before[k]);
            }
        }
    }
}

/// A loaded pass moves the stations that go first by one tick each, and no other station, where the
/// ids of the stations differ. The scheduler counts the moves.
pub proof fn law_loaded_passes_move_the_first_stations(
    samples: &[StationLoadSample],
    pressures: &[u64],
    config: StationScheduleConfig,
)
    ensures
        forall|
            scheduler: &mut StationScheduler,
            stations: &mut StationSet,
            plan: StationSchedulePlan,
        | #[trigger]
            call_ensures(
                StationScheduler::advance_loaded,
                (scheduler, stations, samples, pressures, config),
                plan,
            ) && stations.wf() && ids_differ(stations.registry.entries@) ==> {
                let before = stations.registry.entries@;
                &&& are_first(before, samples@, pressures@, config, plan.selected@)
                &&& selected_moved(before, final(stations).registry.entries@, plan.selected@)
                &&& scheduler.advanced_ticks + plan.selected@.len() <= u64::MAX ==> final(
                    scheduler).advanced_ticks == scheduler.advanced_ticks + plan.selected@.len()
            },
        forall|
            scheduler: &mut StationScheduler,
            stations: &mut StationSet,
            scratch: &mut StationScheduleScratch,
            view: StationScheduleView<'_>,
        | #[trigger]
            call_ensures(
                StationScheduler::advance_loaded_into,
                (scheduler, stations, samples, pressures, config, scratch),
                view,
            ) && stations.wf() && ids_differ(stations.registry.entries@) ==> {
                let before = stations.registry.entries@;
                &&& are_first(before, samples@, pressures@, config, view.selected@)
                &&& selected_moved(before, final(stations).registry.entries@, view.selected@)
            },
{
    assert forall|
        scheduler: &mut StationScheduler,
        stations: &mut StationSet,
        plan: StationSchedulePlan,
    | #[trigger]
        call_ensures(
            StationScheduler::advance_loaded,
            (scheduler, stations, samples, pressures, config),
            plan,
        ) && stations.wf() && ids_differ(stations.registry.entries@) implies {
        let before = stations.registry.entries@;
        &&& are_first(before, samples@, pressures@, config, plan.selected@)
        &&& selected_moved(before, final(stations).registry.entries@, plan.selected@)
        &&& scheduler.advanced_ticks + plan.selected@.len() <= u64::MAX ==> final(
            scheduler).advanced_ticks == scheduler.advanced_ticks + plan.selected@.len()
    } by {
        lemma_pass(
            *stations,
            samples@,
            pressures@,
            config,
            plan.selected@,
            scheduler.advanced_ticks,
        );
    }
    assert forall|
        scheduler: &mut StationScheduler,
        stations: &mut StationSet,
        scratch: &mut StationScheduleScratch,
        view: StationScheduleView<'_>,
    | #[trigger]
        call_ensures(
            StationScheduler::advance_loaded_into,
            (scheduler, stations, samples, pressures, config, scratch),
            view,
        ) && stations.wf() && ids_differ(stations.registry.entries@) implies {
        let before = stations.registry.entries@;
        &&& are_first(before, samples@, pressures@, config, view.selected@)
        &&& selected_moved(before, final(stations).registry.entries@, view.selected@)
    } by {
        lemma_pass(
            *stations,
            samples@,
            pressures@,
            config,
            view.selected@,
            scheduler.advanced_ticks,
        );
    }
}

proof fn lemma_pass(
    stations: StationSet,
    samples: Seq<StationLoadSample>,
    pressures: Seq<u64>,
    config: StationScheduleConfig,
    selected: Seq<StationScheduleCandidate>,
    advanced: u64,
)
    requires
        stations.wf(),
        ids_differ(stations.registry.entries@),
        selects(
            selected,
            candidates_of(stations.registry.entries@, samples, pressures),
            advance_limit(config, stations.registry.entries@.len()),
        ),
    ensures
        ({
            let before = stations.registry.entries@;
            &&& are_first(before, samples, pressures, config, selected)
            &&& selected_moved(before, with_advances(before, selected), selected)
            &&& advanced + selected.len() <= u64::MAX ==> advances_counted(
                advanced,
                before,
                selected,
            ) == advanced + selected.len()
        }),
{
    let before = stations.registry.entries@;
    lemma_are_first(before, samples, pressures, config, selected);
    assert forall|i: int| 0 <= i < selected.len() implies exists|k: int|
        0 <= k < before.len() && (#[trigger] before[k]).0 == (#[trigger] selected[i]).station_id by {
        assert(stands_for_some(before, samples, pressures, selected[i]));
        let station = choose|station: int|
            0 <= station < before.len() && #[trigger] stands_for(
                before,
                samples,
                pressures,
                station,
                selected[i],
            );
        assert(before[station].0 == selected[i].station_id);
    }
    lemma_moved(before, selected, advanced);
}

/// Advancing all stations moves each of them by one tick.
pub proof fn law_all_stations_move()
    ensures
        forall|scheduler: &mut StationScheduler, stations: &mut StationSet| #[trigger]
            call_ensures(StationScheduler::advance_all, (scheduler, stations), ())
                && stations.wf() ==> {
                let before = stations.registry.entries@;
                let after = final(stations).registry.entries@;
                &&& after.len() == before.len()
                &&& forall|k: int|
                    0 <= k < before.len() ==> (#[trigger] after[k]).0 == before[k].0 && ticked(
                        before[k].1,
                        after[k].1,
                        true,
                    )
                &&& scheduler.advanced_ticks + before.len() <= u64::MAX ==> final(
                    scheduler).advanced_ticks == scheduler.advanced_ticks + before.len()
            },
{
}

} // verus!
