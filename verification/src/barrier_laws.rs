//! What barriers promise: every covered station stops at the target tick, and is exported as it
//! stands.

use vstd::prelude::*;

use crate::barrier::{
    all_reached, first_missing, frozen_total, has_reached, latest_tick, polled, waiting,
    BarrierController, BarrierMetrics, BarrierProgress, BarrierRuntimeError, CommandQueueMode,
    CoveredStation, SnapshotVersion, StationBarrierPhase, StationSnapshot,
};
use crate::ids::{BarrierId, BarrierState, StationId, Tick};
use crate::ordered_map::lemma_map_of;
use crate::station::Station;
use crate::station_registry::law_lookups_find_the_first_entry;
use crate::station_set::{covered_ids, BarrierScope, StationSet};

verus! {

/// The station at this position is the first with the id.
pub open spec fn is_first(stations: StationSet, at: int, station_id: StationId) -> bool {
    let entries = stations.registry.entries@;
    &&& 0 <= at < entries.len()
    &&& entries[at].0 == station_id
    &&& forall|i: int| 0 <= i < at ==> (#[trigger] entries[i]).0 != station_id
}

/// The id stands for this station.
pub open spec fn is_known(stations: StationSet, station_id: StationId, station: Station) -> bool {
    exists|at: int| #[trigger]
        is_first(stations, at, station_id) && stations.registry.entries@[at].1 == station
}

/// The scope names this station, by its instance or by its own id.
pub open spec fn is_named(scope: BarrierScope, station: Station) -> bool {
    match scope {
        BarrierScope::Instance(instance_id) => station.config.instance_id == instance_id,
        BarrierScope::Station(station_id) => station.config.station_id == station_id,
    }
}

/// The station at this position is named by the scope and has this id.
pub open spec fn is_named_at(
    stations: StationSet,
    scope: BarrierScope,
    at: int,
    station_id: StationId,
) -> bool {
    let entries = stations.registry.entries@;
    &&& 0 <= at < entries.len()
    &&& is_named(scope, entries[at].1)
    &&& entries[at].1.config.station_id == station_id
}

/// The scope names a station with this id.
pub open spec fn names(stations: StationSet, scope: BarrierScope, station_id: StationId) -> bool {
    exists|at: int| #[trigger] is_named_at(stations, scope, at, station_id)
}

/// The barrier covers this station.
pub open spec fn covers(controller: BarrierController, station_id: StationId) -> bool {
    controller.phases@.contains_key(station_id.0 as u128)
}

/// The covered station stands still.
pub open spec fn stands_still(controller: BarrierController, station_id: StationId) -> bool {
    covers(controller, station_id) && controller.phases@[station_id.0 as u128].phase
        == StationBarrierPhase::Frozen
}

/// The station has reached the tick.
pub open spec fn is_at(stations: StationSet, station_id: StationId, tick: Tick) -> bool {
    exists|station: Station| #[trigger]
        is_known(stations, station_id, station) && station.tick.0 >= tick.0
}

/// Every covered station can be found.
pub open spec fn are_all_known(controller: BarrierController, stations: StationSet) -> bool {
    forall|station_id: StationId| #[trigger]
        covers(controller, station_id) ==> exists|station: Station|
            is_known(stations, station_id, station)
}

/// Number of covered stations that stand still.
pub open spec fn still_count(controller: BarrierController) -> nat {
    controller.phases.entries@.filter(
        |entry: (u128, CoveredStation)| entry.1.phase == StationBarrierPhase::Frozen,
    ).len()
}

/// Both barriers cover the same stations.
pub open spec fn cover_the_same(before: BarrierController, after: BarrierController) -> bool {
    forall|station_id: StationId| #[trigger]
        covers(after, station_id) <==> covers(before, station_id)
}

/// The covered stations that stand still are those that did before, and those at the tick.
pub open spec fn stops_arrivals(
    before: BarrierController,
    after: BarrierController,
    stations: StationSet,
    tick: Tick,
) -> bool {
    forall|station_id: StationId| #[trigger]
        covers(after, station_id) ==> (stands_still(after, station_id) <==> stands_still(
            before,
            station_id,
        ) || is_at(stations, station_id, tick))
}

/// No covered station is past the tick, and one is at it unless it is the first tick of all.
pub open spec fn is_latest(
    controller: BarrierController,
    stations: StationSet,
    tick: Tick,
) -> bool {
    &&& forall|station_id: StationId, station: Station| #[trigger]
        is_known(stations, station_id, station) && covers(controller, station_id) ==> station.tick.0
            <= tick.0
    &&& tick.0 != 0 ==> exists|station_id: StationId, station: Station| #[trigger]
        is_known(stations, station_id, station) && covers(controller, station_id) && station.tick
            == tick
}

/// The station that an id stands for is the one that a lookup finds.
pub proof fn lemma_known(stations: StationSet, station_id: StationId, station: Station)
    ensures
        is_known(stations, station_id, station) <==> stations.station(station_id) == Some(station),
{
    let ids = stations.registry.ids();
    let entries = stations.registry.entries@;
    law_lookups_find_the_first_entry(ids, station_id.0);
    assert forall|i: int| 0 <= i < entries.len() implies ids[i] == (#[trigger] entries[i]).0.0 by {}
    match stations.registry.position(station_id) {
        Some(at) => {
            assert(entries[at].0.0 == ids[at]);
            assert forall|i: int| 0 <= i < at implies (#[trigger] entries[i]).0 != station_id by {
                assert(ids[i] != station_id.0);
            }
            assert(is_first(stations, at, station_id));
            if is_known(stations, station_id, station) {
                let other = choose|other: int| #[trigger]
                    is_first(stations, other, station_id) && stations.registry.entries@[other].1
                        == station;
                if other < at {
                    assert(entries[other].0 != station_id);
                } else if at < other {
                    assert(entries[at].0 != station_id);
                }
            }
        },
        None => {
            if is_known(stations, station_id, station) {
                let other = choose|other: int| #[trigger]
                    is_first(stations, other, station_id) && stations.registry.entries@[other].1
                        == station;
                assert(ids[other] != station_id.0);
            }
        },
    }
}

proof fn lemma_covered(entries: Seq<(StationId, Station)>, scope: BarrierScope)
    ensures
        forall|station_id: StationId| #[trigger]
            covered_ids(entries, scope).contains(station_id) <==> exists|at: int|
                0 <= at < entries.len() && is_named(scope, (#[trigger] entries[at]).1)
                    && entries[at].1.config.station_id == station_id,
    decreases entries.len(),
{
    let ids = covered_ids(entries, scope);
    if entries.len() > 0 {
        let fewer = entries.drop_last();
        let rest = covered_ids(fewer, scope);
        let last = entries.last().1;
        lemma_covered(fewer, scope);
        assert forall|station_id: StationId| #[trigger] ids.contains(station_id) <==> exists|at: int|
            0 <= at < entries.len() && is_named(scope, (#[trigger] entries[at]).1)
                && entries[at].1.config.station_id == station_id by {
            if ids.contains(station_id) {
                let i = choose|i: int| 0 <= i < ids.len() && ids[i] == station_id;
                if i < rest.len() {
                    assert(rest[i] == station_id);
                    assert(rest.contains(station_id));
                    let at = choose|at: int|
                        0 <= at < fewer.len() && is_named(scope, (#[trigger] fewer[at]).1)
                            && fewer[at].1.config.station_id == station_id;
                    assert(entries[at] == fewer[at]);
                } else {
                    assert(entries[entries.len() - 1].1 == last);
                }
            }
            if exists|at: int|
                0 <= at < entries.len() && is_named(scope, (#[trigger] entries[at]).1)
                    && entries[at].1.config.station_id == station_id {
                let at = choose|at: int|
                    0 <= at < entries.len() && is_named(scope, (#[trigger] entries[at]).1)
                        && entries[at].1.config.station_id == station_id;
                if at < fewer.len() {
                    assert(fewer[at] == entries[at]);
                    assert(rest.contains(station_id));
                    let i = choose|i: int| 0 <= i < rest.len() && rest[i] == station_id;
                    assert(ids[i] == station_id);
                } else {
                    assert(ids[rest.len() as int] == station_id);
                }
            }
        }
    }
}

proof fn lemma_waiting(ids: Seq<StationId>)
    ensures
        forall|key: u128| #[trigger]
            waiting(Map::empty(), ids).contains_key(key) ==> {
                &&& waiting(Map::empty(), ids)[key].phase == StationBarrierPhase::WaitingTick
                &&& waiting(Map::empty(), ids)[key].station_id.0 == key
                &&& ids.contains(waiting(Map::empty(), ids)[key].station_id)
            },
        forall|station_id: StationId| #[trigger]
            ids.contains(station_id) ==> waiting(Map::empty(), ids).contains_key(
                station_id.0 as u128,
            ),
    decreases ids.len(),
{
    if ids.len() > 0 {
        let fewer = ids.drop_last();
        lemma_waiting(fewer);
        let rest = waiting(Map::empty(), fewer);
        let all = waiting(Map::empty(), ids);
        assert(ids[ids.len() - 1] == ids.last());
        assert forall|key: u128| #[trigger] all.contains_key(key) implies {
            &&& all[key].phase == StationBarrierPhase::WaitingTick
            &&& all[key].station_id.0 == key
            &&& ids.contains(all[key].station_id)
        } by {
            if key != ids.last().0 as u128 {
                assert(rest.contains_key(key));
                let i = choose|i: int| 0 <= i < fewer.len() && fewer[i] == rest[key].station_id;
                assert(ids[i] == rest[key].station_id);
            }
        }
        assert forall|station_id: StationId| #[trigger] ids.contains(
            station_id,
        ) implies all.contains_key(station_id.0 as u128) by {
            let i = choose|i: int| 0 <= i < ids.len() && ids[i] == station_id;
            if i < fewer.len() {
                assert(fewer[i] == station_id);
                assert(fewer.contains(station_id));
            }
        }
    }
}

proof fn lemma_latest(stations: StationSet, ids: Seq<StationId>)
    ensures
        forall|station_id: StationId, station: Station| #[trigger]
            is_known(stations, station_id, station) && ids.contains(station_id) ==> station.tick.0
                <= latest_tick(stations, ids),
        latest_tick(stations, ids) != 0 ==> exists|station_id: StationId, station: Station|
            #[trigger] is_known(stations, station_id, station) && ids.contains(station_id)
                && station.tick.0 == latest_tick(stations, ids),
    decreases ids.len(),
{
    if ids.len() > 0 {
        let fewer = ids.drop_last();
        lemma_latest(stations, fewer);
        let rest = latest_tick(stations, fewer);
        let all = latest_tick(stations, ids);
        assert(ids[ids.len() - 1] == ids.last());
        assert forall|station_id: StationId, station: Station| #[trigger]
            is_known(stations, station_id, station) && ids.contains(
                station_id,
            ) implies station.tick.0 <= all by {
            lemma_known(stations, station_id, station);
            let i = choose|i: int| 0 <= i < ids.len() && ids[i] == station_id;
            if i < fewer.len() {
                assert(fewer[i] == station_id);
                assert(fewer.contains(station_id));
            }
        }
        if all != 0 {
            if all == rest {
                let (station_id, station) = choose|station_id: StationId, station: Station|
                    #[trigger] is_known(stations, station_id, station) && fewer.contains(station_id)
                        && station.tick.0 == rest;
                let i = choose|i: int| 0 <= i < fewer.len() && fewer[i] == station_id;
                assert(ids[i] == station_id);
                assert(ids.contains(station_id));
            } else {
                let station = stations.station(ids.last())->0;
                lemma_known(stations, ids.last(), station);
                assert(ids.contains(ids.last()));
            }
        }
    }
}

/// A barrier is refused while another is active or where its scope names no station. It covers
/// exactly the stations that its scope names, and all of them wait for the target tick. The request
/// is dated by the latest of them.
pub proof fn law_barriers_cover_what_their_scope_names(
    stations: &StationSet,
    id: BarrierId,
    scope: BarrierScope,
    target_tick: Tick,
    command_mode: CommandQueueMode,
)
    requires
        stations.wf(),
    ensures
        forall|
            controller: &mut BarrierController,
            result: Result<BarrierProgress, BarrierRuntimeError>,
        |
            #[trigger] call_ensures(
                BarrierController::request,
                (controller, stations, id, scope, target_tick, command_mode),
                result,
            ) && controller.wf() ==> {
                &&& result is Ok <==> controller.active is None && exists|station_id: StationId|
                    #[trigger] names(*stations, scope, station_id)
                &&& controller.active matches Some(active) ==> result == Err::<
                    BarrierProgress,
                    BarrierRuntimeError,
                >(BarrierRuntimeError::AlreadyActive(active.id))
                &&& controller.active is None && result is Err ==> result == Err::<
                    BarrierProgress,
                    BarrierRuntimeError,
                >(BarrierRuntimeError::EmptyScope(scope))
                &&& result is Err ==> *final(controller) == *controller
                &&& result matches Ok(progress) ==> {
                    &&& forall|station_id: StationId| #[trigger]
                        covers(*final(controller), station_id) <==> names(
                            *stations,
                            scope,
                            station_id,
                        )
                    &&& forall|station_id: StationId| #[trigger]
                        covers(*final(controller), station_id) ==> !stands_still(
                            *final(controller),
                            station_id,
                        )
                    &&& final(controller).active matches Some(barrier)
                    &&& barrier.id == id
                    &&& barrier.scope == scope
                    &&& barrier.target_tick == target_tick
                    &&& barrier.command_mode == command_mode
                    &&& barrier.state == BarrierState::WaitingTickBoundary
                    &&& is_latest(*final(controller), *stations, barrier.requested_at)
                    &&& progress.state == barrier.state
                    &&& progress.target_tick == target_tick
                    &&& progress.frozen_count == 0
                    &&& final(controller).metrics.snapshots_exported == 0
                    &&& final(controller).metrics.waiting_polls == 0
                    &&& final(controller).metrics.frozen_polls == 0
                }
            },
{
    let ids = covered_ids(stations.registry.entries@, scope);
    lemma_covered(stations.registry.entries@, scope);
    lemma_waiting(ids);
    lemma_latest(*stations, ids);
    let entries = stations.registry.entries@;
    assert forall|station_id: StationId| #[trigger] names(*stations, scope, station_id)
        <==> ids.contains(station_id) by {
        if names(*stations, scope, station_id) {
            let at = choose|at: int| #[trigger] is_named_at(*stations, scope, at, station_id);
            assert(is_named(scope, entries[at].1));
        }
        if ids.contains(station_id) {
            let at = choose|at: int|
                0 <= at < entries.len() && is_named(scope, (#[trigger] entries[at]).1)
                    && entries[at].1.config.station_id == station_id;
            assert(is_named_at(*stations, scope, at, station_id));
        }
    }
    if ids.len() > 0 {
        assert(ids.contains(ids[0]));
        assert(names(*stations, scope, ids[0]));
    }
    assert forall|station_id: StationId| waiting(Map::empty(), ids).contains_key(
        station_id.0 as u128,
    ) implies #[trigger] ids.contains(station_id) by {
        assert(waiting(Map::empty(), ids)[station_id.0 as u128].station_id == station_id);
    }
}

/// Every covered station can be found exactly where a search misses none.
pub proof fn lemma_missing(controller: BarrierController, stations: StationSet)
    requires
        controller.wf(),
    ensures
        are_all_known(controller, stations) <==> first_missing(
            controller.phases.entries@,
            stations,
            0,
        ) == controller.phases.entries@.len(),
        first_missing(controller.phases.entries@, stations, 0)
            < controller.phases.entries@.len() ==> ({
            let at = first_missing(controller.phases.entries@, stations, 0) as int;
            let station_id = controller.phases.entries@[at].1.station_id;
            &&& covers(controller, station_id)
            &&& forall|station: Station| !is_known(stations, station_id, station)
        }),
        first_missing(controller.phases.entries@, stations, 0) <= controller.phases.entries@.len(),
{
    let entries = controller.phases.entries@;
    let missing = first_missing(entries, stations, 0);
    lemma_map_of(entries);
    lemma_first_missing(entries, stations, 0);
    if missing == entries.len() {
        assert forall|station_id: StationId| #[trigger] covers(
            controller,
            station_id,
        ) implies exists|station: Station| is_known(stations, station_id, station) by {
            let i = choose|i: int|
                0 <= i < entries.len() && (#[trigger] entries[i]).0 == station_id.0 as u128;
            assert(entries[i].1.station_id == station_id);
            let station = stations.station(station_id)->0;
            lemma_known(stations, station_id, station);
        }
    } else {
        let station_id = entries[missing as int].1.station_id;
        assert(controller.phases@.contains_key(entries[missing as int].0));
        assert(covers(controller, station_id));
        assert forall|station: Station| !is_known(stations, station_id, station) by {
            lemma_known(stations, station_id, station);
        }
    }
}

proof fn lemma_first_missing(
    entries: Seq<(u128, CoveredStation)>,
    stations: StationSet,
    from: nat,
)
    requires
        from <= entries.len(),
    ensures
        from <= first_missing(entries, stations, from) <= entries.len(),
        forall|i: int|
            from <= i < first_missing(entries, stations, from) ==> stations.station(
                (#[trigger] entries[i]).1.station_id,
            ) is Some,
        first_missing(entries, stations, from) < entries.len() ==> stations.station(
            entries[first_missing(entries, stations, from) as int].1.station_id,
        ) is None,
    decreases entries.len() - from,
{
    if from < entries.len() && stations.station(entries[from as int].1.station_id) is Some {
        lemma_first_missing(entries, stations, from + 1);
    }
}

proof fn lemma_frozen_total(entries: Seq<(u128, CoveredStation)>)
    ensures
        frozen_total(entries) == entries.filter(
            |entry: (u128, CoveredStation)| entry.1.phase == StationBarrierPhase::Frozen,
        ).len(),
        frozen_total(entries) <= entries.len(),
    decreases entries.len(),
{
    reveal(Seq::filter);
    if entries.len() > 0 {
        lemma_frozen_total(entries.drop_last());
    }
}

proof fn lemma_polled(
    before: BarrierController,
    after: BarrierController,
    stations: StationSet,
    target: Tick,
)
    requires
        before.wf(),
        after.wf(),
        after.phases.entries@ == polled(
            before.phases.entries@,
            stations,
            target,
            before.phases.entries@.len(),
        ),
    ensures
        forall|station_id: StationId| #[trigger]
            covers(after, station_id) <==> covers(before, station_id),
        forall|station_id: StationId| #[trigger]
            covers(after, station_id) ==> (stands_still(after, station_id) <==> stands_still(
                before,
                station_id,
            ) || is_at(stations, station_id, target)),
        all_reached(before.phases.entries@, stations, target) <==> forall|station_id: StationId|
            #[trigger] covers(before, station_id) ==> is_at(stations, station_id, target),
{
    let entries = before.phases.entries@;
    let now = after.phases.entries@;
    lemma_map_of(entries);
    lemma_map_of(now);
    assert forall|station_id: StationId| is_at(stations, station_id, target) <==> (
    #[trigger] stations.station(station_id) matches Some(station) && station.tick.0 >= target.0) by {
        if is_at(stations, station_id, target) {
            let station = choose|station: Station| #[trigger]
                is_known(stations, station_id, station) && station.tick.0 >= target.0;
            lemma_known(stations, station_id, station);
        }
        if let Some(station) = stations.station(station_id) {
            lemma_known(stations, station_id, station);
        }
    }
    assert forall|station_id: StationId| #[trigger] covers(after, station_id) <==> covers(
        before,
        station_id,
    ) by {
        let key = station_id.0 as u128;
        if covers(after, station_id) {
            let i = choose|i: int| 0 <= i < now.len() && (#[trigger] now[i]).0 == key;
            assert(entries[i].0 == key);
            assert(before.phases@.contains_key(entries[i].0));
        }
        if covers(before, station_id) {
            let i = choose|i: int| 0 <= i < entries.len() && (#[trigger] entries[i]).0 == key;
            assert(now[i].0 == key);
            assert(after.phases@.contains_key(now[i].0));
        }
    }
    assert forall|station_id: StationId| #[trigger] covers(after, station_id) implies (
    stands_still(after, station_id) <==> stands_still(before, station_id) || is_at(
        stations,
        station_id,
        target,
    )) by {
        let key = station_id.0 as u128;
        let i = choose|i: int| 0 <= i < now.len() && (#[trigger] now[i]).0 == key;
        assert(entries[i].0 == key);
        assert(entries[i].1.station_id == station_id);
        assert(before.phases@[entries[i].0] == entries[i].1);
        assert(after.phases@[now[i].0] == now[i].1);
        assert(stations.station(station_id) == stations.station(entries[i].1.station_id));
        assert(has_reached(stations, entries[i].1, target) <==> is_at(
            stations,
            station_id,
            target,
        ));
    }
    if all_reached(entries, stations, target) {
        assert forall|station_id: StationId| #[trigger] covers(before, station_id) implies is_at(
            stations,
            station_id,
            target,
        ) by {
            let key = station_id.0 as u128;
            let i = choose|i: int| 0 <= i < entries.len() && (#[trigger] entries[i]).0 == key;
            assert(entries[i].1.station_id == station_id);
            assert(has_reached(stations, entries[i].1, target));
            assert(stations.station(station_id) is Some);
        }
    }
    if forall|station_id: StationId| #[trigger]
        covers(before, station_id) ==> is_at(stations, station_id, target) {
        assert forall|i: int| 0 <= i < entries.len() implies has_reached(
            stations,
            (#[trigger] entries[i]).1,
            target,
        ) by {
            assert(before.phases@.contains_key(entries[i].0));
            assert(covers(before, entries[i].1.station_id));
            assert(stations.station(entries[i].1.station_id) is Some);
        }
    }
}

/// A poll stops every covered station that has reached the target tick, and freezes the barrier as
/// soon as all of them have. It covers the same stations as before. A covered station that is gone is
/// reported instead, and a frozen barrier stays as it is.
pub proof fn law_barriers_freeze_when_all_stations_arrive(stations: &StationSet)
    requires
        stations.wf(),
    ensures
        forall|
            controller: &mut BarrierController,
            result: Result<BarrierProgress, BarrierRuntimeError>,
        |
            #[trigger] call_ensures(BarrierController::poll, (controller, stations), result)
                && controller.wf() ==> {
                &&& controller.active is None ==> result == Err::<
                    BarrierProgress,
                    BarrierRuntimeError,
                >(BarrierRuntimeError::NoActiveBarrier) && *final(controller) == *controller
                &&& controller.active matches Some(barrier) ==> {
                    let waits = barrier.state != BarrierState::Frozen;
                    let known = are_all_known(*controller, *stations);
                    let arrived = forall|station_id: StationId| #[trigger]
                        covers(*controller, station_id) ==> is_at(
                            *stations,
                            station_id,
                            barrier.target_tick,
                        );
                    &&& result is Ok <==> !waits || known
                    &&& result matches Err(error) ==> error matches BarrierRuntimeError::MissingStation(
                        station_id,
                    ) && covers(*controller, station_id) && !exists|station: Station|
                        is_known(*stations, station_id, station)
                    &&& final(controller).active matches Some(after)
                    &&& after.id == barrier.id
                    &&& after.scope == barrier.scope
                    &&& after.requested_at == barrier.requested_at
                    &&& after.target_tick == barrier.target_tick
                    &&& after.command_mode == barrier.command_mode
                    &&& result is Ok ==> {
                        &&& after.state == BarrierState::Frozen <==> !waits || arrived
                        &&& after.state != BarrierState::Frozen ==> after.state == barrier.state
                        &&& result->Ok_0.state == after.state
                        &&& result->Ok_0.target_tick == barrier.target_tick
                        &&& result->Ok_0.station_count as nat
                            == controller.phases.entries@.len() as usize
                        &&& result->Ok_0.frozen_count as nat == still_count(
                            *final(controller),
                        ) as usize
                        &&& cover_the_same(*controller, *final(controller))
                    }
                    &&& waits && known ==> stops_arrivals(*controller, *final(controller), *stations, barrier.target_tick)
                    &&& !waits ==> final(controller).phases == controller.phases
                }
            },
{
    assert forall|
        controller: &mut BarrierController,
        result: Result<BarrierProgress, BarrierRuntimeError>,
    |
        #[trigger] call_ensures(BarrierController::poll, (controller, stations), result)
            && controller.wf() implies {
        &&& controller.active is None ==> result == Err::<BarrierProgress, BarrierRuntimeError>(
            BarrierRuntimeError::NoActiveBarrier,
        ) && *final(controller) == *controller
        &&& controller.active matches Some(barrier) ==> {
            let waits = barrier.state != BarrierState::Frozen;
            let known = are_all_known(*controller, *stations);
            let arrived = forall|station_id: StationId| #[trigger]
                covers(*controller, station_id) ==> is_at(
                    *stations,
                    station_id,
                    barrier.target_tick,
                );
            &&& result is Ok <==> !waits || known
            &&& result matches Err(error) ==> error matches BarrierRuntimeError::MissingStation(
                station_id,
            ) && covers(*controller, station_id) && !exists|station: Station|
                is_known(*stations, station_id, station)
            &&& final(controller).active matches Some(after)
            &&& after.id == barrier.id
            &&& after.scope == barrier.scope
            &&& after.requested_at == barrier.requested_at
            &&& after.target_tick == barrier.target_tick
            &&& after.command_mode == barrier.command_mode
            &&& result is Ok ==> {
                &&& after.state == BarrierState::Frozen <==> !waits || arrived
                &&& after.state != BarrierState::Frozen ==> after.state == barrier.state
                &&& result->Ok_0.state == after.state
                &&& result->Ok_0.target_tick == barrier.target_tick
                &&& result->Ok_0.station_count as nat == controller.phases.entries@.len() as usize
                &&& result->Ok_0.frozen_count as nat == still_count(*final(controller)) as usize
                &&& cover_the_same(*controller, *final(controller))
            }
            &&& waits && known ==> stops_arrivals(*controller, *final(controller), *stations, barrier.target_tick)
            &&& !waits ==> final(controller).phases == controller.phases
        }
    } by {
        lemma_missing(*controller, *stations);
        lemma_frozen_total(final(controller).phases.entries@);
        if let Some(barrier) = controller.active {
            if barrier.state != BarrierState::Frozen && are_all_known(*controller, *stations) {
                lemma_polled(*controller, *final(controller), *stations, barrier.target_tick);
            }
        }
    }
}

/// The snapshot shows the station: its id, its tick and every one of its records in order.
pub open spec fn shows(
    snapshot: StationSnapshot,
    station: Station,
    version: SnapshotVersion,
) -> bool {
    &&& snapshot.meta.station_id == station.config.station_id
    &&& snapshot.meta.tick == station.tick
    &&& snapshot.meta.version == version
    &&& snapshot.entities@.len() == station.records@.len()
    &&& forall|i: int|
        0 <= i < station.records@.len() ==> {
            &&& (#[trigger] snapshot.entities@[i]).handle == station.records@[i].handle
            &&& snapshot.entities@[i].id == station.records@[i].id
            &&& snapshot.entities@[i].role == station.records@[i].role
            &&& snapshot.entities@[i].cells@ == station.records@[i].cells@
        }
}

/// The snapshots show every covered station once, by rising number.
pub open spec fn show_all(
    snapshots: Seq<StationSnapshot>,
    controller: BarrierController,
    stations: StationSet,
    version: SnapshotVersion,
) -> bool {
    &&& forall|i: int|
        0 <= i < snapshots.len() ==> covers(controller, (#[trigger] snapshots[i]).meta.station_id)
            && shows_known(snapshots[i], stations, version)
    &&& forall|i: int, j: int|
        0 <= i < j < snapshots.len() ==> (#[trigger] snapshots[i]).meta.station_id.0 < (
        #[trigger] snapshots[j]).meta.station_id.0
    &&& forall|station_id: StationId| #[trigger]
        covers(controller, station_id) ==> exists|i: int|
            0 <= i < snapshots.len() && (#[trigger] snapshots[i]).meta.station_id == station_id
}

/// The snapshot shows the station that its id stands for.
pub open spec fn shows_known(
    snapshot: StationSnapshot,
    stations: StationSet,
    version: SnapshotVersion,
) -> bool {
    exists|station: Station| #[trigger]
        is_known(stations, snapshot.meta.station_id, station) && shows(snapshot, station, version)
}

proof fn lemma_snapshots(
    snapshots: Seq<StationSnapshot>,
    controller: BarrierController,
    stations: StationSet,
    version: SnapshotVersion,
)
    requires
        controller.wf(),
        stations.wf(),
        snapshots.len() == controller.phases.entries@.len(),
        crate::barrier::snapshots_hold(
            snapshots,
            controller.phases.entries@,
            stations,
            version,
            snapshots.len(),
        ),
    ensures
        show_all(snapshots, controller, stations, version),
{
    let entries = controller.phases.entries@;
    lemma_map_of(entries);
    assert forall|i: int| 0 <= i < snapshots.len() implies {
        &&& (#[trigger] snapshots[i]).meta.station_id == entries[i].1.station_id
        &&& covers(controller, snapshots[i].meta.station_id)
        &&& shows_known(snapshots[i], stations, version)
    } by {
        assert(snapshots[i].holds_found(stations.station(entries[i].1.station_id), version));
        let station_id = entries[i].1.station_id;
        let station = stations.station(station_id)->0;
        lemma_known(stations, station_id, station);
        let at = choose|at: int| #[trigger]
            is_first(stations, at, station_id) && stations.registry.entries@[at].1 == station;
        assert(stations.registry.entries@[at].0 == station.config.station_id);
        assert(controller.phases@.contains_key(entries[i].0));
        assert forall|k: int| 0 <= k < station.records@.len() implies {
            &&& (#[trigger] snapshots[i].entities@[k]).handle == station.records@[k].handle
            &&& snapshots[i].entities@[k].id == station.records@[k].id
            &&& snapshots[i].entities@[k].role == station.records@[k].role
            &&& snapshots[i].entities@[k].cells@ == station.records@[k].cells@
        } by {
            assert(snapshots[i].entities@[k].is_like(station.records@[k]));
        }
        assert(shows(snapshots[i], station, version));
    }
    assert forall|i: int, j: int| 0 <= i < j < snapshots.len() implies (
    #[trigger] snapshots[i]).meta.station_id.0 < (#[trigger] snapshots[j]).meta.station_id.0 by {
        assert(entries[i].0 < entries[j].0);
        assert(entries[i].0 == entries[i].1.station_id.0);
        assert(entries[j].0 == entries[j].1.station_id.0);
    }
    assert forall|station_id: StationId| #[trigger] covers(controller, station_id) implies exists|
        i: int,
    | 0 <= i < snapshots.len() && (#[trigger] snapshots[i]).meta.station_id == station_id by {
        let i = choose|i: int|
            0 <= i < entries.len() && (#[trigger] entries[i]).0 == station_id.0 as u128;
        assert(entries[i].1.station_id == station_id);
        assert(snapshots[i].meta.station_id == station_id);
    }
}

/// Only a frozen barrier is exported, and only while every covered station can be found. The export
/// holds one snapshot of each covered station, with all its records. It leaves the barrier as it is.
pub proof fn law_frozen_stations_are_exported(stations: &StationSet, version: SnapshotVersion)
    requires
        stations.wf(),
    ensures
        forall|
            controller: &mut BarrierController,
            result: Result<Vec<StationSnapshot>, BarrierRuntimeError>,
        |
            #[trigger] call_ensures(
                BarrierController::export_snapshots,
                (controller, stations, version),
                result,
            ) && controller.wf() ==> {
                let frozen = controller.active matches Some(barrier) && barrier.state
                    == BarrierState::Frozen;
                &&& result is Ok <==> frozen && are_all_known(*controller, *stations)
                &&& result matches Ok(snapshots) ==> show_all(
                    snapshots@,
                    *controller,
                    *stations,
                    version,
                )
                &&& controller.active is None ==> result == Err::<
                    Vec<StationSnapshot>,
                    BarrierRuntimeError,
                >(BarrierRuntimeError::NoActiveBarrier)
                &&& controller.active matches Some(barrier) ==> barrier.state != BarrierState::Frozen
                    ==> result == Err::<Vec<StationSnapshot>, BarrierRuntimeError>(
                    BarrierRuntimeError::NotFrozen(barrier.state),
                )
                &&& final(controller).active == controller.active
                &&& final(controller).phases == controller.phases
            },
{
    assert forall|
        controller: &mut BarrierController,
        result: Result<Vec<StationSnapshot>, BarrierRuntimeError>,
    |
        #[trigger] call_ensures(
            BarrierController::export_snapshots,
            (controller, stations, version),
            result,
        ) && controller.wf() implies {
        let frozen = controller.active matches Some(barrier) && barrier.state
            == BarrierState::Frozen;
        &&& result is Ok <==> frozen && are_all_known(*controller, *stations)
        &&& result matches Ok(snapshots) ==> show_all(snapshots@, *controller, *stations, version)
        &&& controller.active is None ==> result == Err::<
            Vec<StationSnapshot>,
            BarrierRuntimeError,
        >(BarrierRuntimeError::NoActiveBarrier)
        &&& controller.active matches Some(barrier) ==> barrier.state != BarrierState::Frozen
            ==> result == Err::<Vec<StationSnapshot>, BarrierRuntimeError>(
            BarrierRuntimeError::NotFrozen(barrier.state),
        )
        &&& final(controller).active == controller.active
        &&& final(controller).phases == controller.phases
    } by {
        lemma_missing(*controller, *stations);
        if let Ok(snapshots) = result {
            lemma_snapshots(snapshots@, *controller, *stations, version);
        }
    }
}

/// A frozen barrier is lifted for all its stations, with what was counted under it. No other barrier
/// is.
pub proof fn law_frozen_barriers_are_lifted()
    ensures
        forall|controller: &mut BarrierController, result: Result<BarrierMetrics, BarrierRuntimeError>|
            #[trigger] call_ensures(BarrierController::resume, (controller,), result)
                && controller.wf() ==> {
                &&& result is Ok <==> (controller.active matches Some(barrier) && barrier.state
                    == BarrierState::Frozen)
                &&& result matches Ok(metrics) ==> {
                    &&& metrics == controller.metrics
                    &&& final(controller).active is None
                    &&& forall|station_id: StationId| !#[trigger] covers(
                        *final(controller),
                        station_id,
                    )
                }
                &&& result is Err ==> *final(controller) == *controller
            },
{
    assert forall|
        controller: &mut BarrierController,
        result: Result<BarrierMetrics, BarrierRuntimeError>,
    |
        #[trigger] call_ensures(BarrierController::resume, (controller,), result)
            && controller.wf() implies {
        &&& result is Ok <==> (controller.active matches Some(barrier) && barrier.state
                    == BarrierState::Frozen)
        &&& result matches Ok(metrics) ==> {
            &&& metrics == controller.metrics
            &&& final(controller).active is None
            &&& forall|station_id: StationId| !#[trigger] covers(*final(controller), station_id)
        }
        &&& result is Err ==> *final(controller) == *controller
    } by {
        lemma_map_of(final(controller).phases.entries@);
    }
}

} // verus!
