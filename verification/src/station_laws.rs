//! What station storage promises: records and stations are found by their ids, and storing one
//! leaves the others alone.

use vstd::prelude::*;

use crate::barrier_laws::{is_first, is_known, lemma_known};
use crate::ids::{EntityHandle, EntityId, StationId, Tick};
use crate::migration_laws::{leads_to, lemma_record};
use crate::split_scheduler::{
    action_models, recorded, SplitAction, SplitActionModel, SplitSchedule, SplitScheduleView,
    SplitSchedulerState,
};
use crate::station::{record_of_id, with_record, EntityRecord, Station};
use crate::station_registry::law_lookups_find_the_first_entry;
use crate::station_set::StationSet;

verus! {

/// The id leads to this record: the first with that id.
pub open spec fn leads_to_by_id(
    records: Seq<EntityRecord>,
    id: EntityId,
    record: EntityRecord,
) -> bool {
    exists|at: int|
        {
            &&& 0 <= at < records.len()
            &&& #[trigger] records[at] == record
            &&& record.id == id
            &&& forall|i: int| 0 <= i < at ==> (#[trigger] records[i]).id != id
        }
}

proof fn lemma_record_by_id(records: Seq<EntityRecord>, id: EntityId)
    ensures
        match record_of_id(records, id) {
            Some(record) => leads_to_by_id(records, id, record),
            None => forall|i: int| 0 <= i < records.len() ==> (#[trigger] records[i]).id != id,
        },
    decreases records.len(),
{
    if records.len() > 0 && records[0].id != id {
        let rest = records.drop_first();
        lemma_record_by_id(rest, id);
        match record_of_id(records, id) {
            Some(record) => {
                let at = choose|at: int|
                    {
                        &&& 0 <= at < rest.len()
                        &&& #[trigger] rest[at] == record
                        &&& record.id == id
                        &&& forall|i: int| 0 <= i < at ==> (#[trigger] rest[i]).id != id
                    };
                assert(records[at + 1] == record);
                assert forall|i: int| 0 <= i < at + 1 implies (#[trigger] records[i]).id != id by {
                    if i > 0 {
                        assert(records[i] == rest[i - 1]);
                    }
                }
            },
            None => {
                assert forall|i: int| 0 <= i < records.len() implies (#[trigger] records[i]).id
                    != id by {
                    if i > 0 {
                        assert(records[i] == rest[i - 1]);
                    }
                }
            },
        }
    } else if records.len() > 0 {
        assert(records[0].id == id);
    }
}

/// A record is found by its handle, and by its id: the first that has it. Nothing is found only where
/// no record has it.
pub proof fn law_records_are_found(
    station: &Station,
    handle: EntityHandle,
    by_handle: Option<&EntityRecord>,
    id: EntityId,
    by_id: Option<&EntityRecord>,
)
    requires
        call_ensures(Station::get, (station, handle), by_handle),
        call_ensures(Station::get_by_id, (station, id), by_id),
    ensures
        by_handle matches Some(record) ==> leads_to(station.records@, handle, *record),
        by_handle is None ==> forall|i: int|
            0 <= i < station.records@.len() ==> (#[trigger] station.records@[i]).handle != handle,
        by_id matches Some(record) ==> leads_to_by_id(station.records@, id, *record),
        by_id is None ==> forall|i: int|
            0 <= i < station.records@.len() ==> (#[trigger] station.records@[i]).id != id,
{
    lemma_record(station.records@, handle);
    lemma_record_by_id(station.records@, id);
    if by_handle is None {
        lemma_none_found(station.records@, handle);
    }
}

proof fn lemma_none_found(records: Seq<EntityRecord>, handle: EntityHandle)
    requires
        crate::station::record_of(records, handle) is None,
    ensures
        forall|i: int| 0 <= i < records.len() ==> (#[trigger] records[i]).handle != handle,
    decreases records.len(),
{
    if records.len() > 0 {
        let rest = records.drop_first();
        lemma_none_found(rest, handle);
        assert forall|i: int| 0 <= i < records.len() implies (#[trigger] records[i]).handle
            != handle by {
            if i > 0 {
                assert(records[i] == rest[i - 1]);
            }
        }
    }
}

/// The record stands in the place of the first with its handle, or at the end where none had it.
/// Every other record is as it was, in its place.
pub open spec fn takes_its_place(
    before: Seq<EntityRecord>,
    after: Seq<EntityRecord>,
    record: EntityRecord,
    at: int,
) -> bool {
    &&& 0 <= at <= before.len()
    &&& forall|i: int| 0 <= i < at ==> (#[trigger] before[i]).handle != record.handle
    &&& at < before.len() ==> before[at].handle == record.handle
    &&& after.len() == if at < before.len() {
        before.len()
    } else {
        before.len() + 1
    }
    &&& after[at] == record
    &&& forall|i: int| 0 <= i < before.len() && i != at ==> #[trigger] after[i] == before[i]
}

proof fn lemma_placed(records: Seq<EntityRecord>, record: EntityRecord) -> (at: int)
    ensures
        takes_its_place(records, with_record(records, record), record, at),
    decreases records.len(),
{
    let after = with_record(records, record);
    if records.len() == 0 {
        0
    } else if records[0].handle == record.handle {
        assert forall|i: int| 0 <= i < records.len() && i != 0 implies #[trigger] after[i]
            == records[i] by {
            assert(records.drop_first()[i - 1] == records[i]);
        }
        0
    } else {
        let rest = records.drop_first();
        let at = lemma_placed(rest, record);
        let placed = with_record(rest, record);
        assert forall|i: int| 0 <= i < at + 1 implies (#[trigger] records[i]).handle
            != record.handle by {
            if i > 0 {
                assert(rest[i - 1] == records[i]);
            }
        }
        assert(after[at + 1] == placed[at]);
        assert forall|i: int| 0 <= i < records.len() && i != at + 1 implies #[trigger] after[i]
            == records[i] by {
            if i > 0 {
                assert(after[i] == placed[i - 1]);
                assert(rest[i - 1] == records[i]);
            }
        }
        at + 1
    }
}

/// A record that is stored replaces the one with its handle, or joins at the end. Every other record
/// keeps its place, and the station its tick.
pub proof fn law_stored_records_replace_their_own(record: EntityRecord)
    ensures
        forall|station: &mut Station|
            #[trigger] call_ensures(Station::put, (station, record), ()) ==> {
                &&& exists|at: int| #[trigger]
                    takes_its_place(station.records@, final(station).records@, record, at)
                &&& final(station).tick == station.tick
                &&& final(station).config == station.config
            },
{
    assert forall|station: &mut Station|
        #[trigger] call_ensures(Station::put, (station, record), ()) implies {
        &&& exists|at: int| #[trigger]
            takes_its_place(station.records@, final(station).records@, record, at)
        &&& final(station).tick == station.tick
        &&& final(station).config == station.config
    } by {
        let at = lemma_placed(station.records@, record);
        assert(takes_its_place(station.records@, final(station).records@, record, at));
    }
}

/// The id stands for no station.
pub open spec fn is_unknown(stations: StationSet, station_id: StationId) -> bool {
    forall|station: Station| !#[trigger] is_known(stations, station_id, station)
}

/// A station is found by its id: the first that was added with it. Removing it hands out that station
/// and keeps the others in order.
pub proof fn law_stations_are_found(station_id: StationId)
    ensures
        forall|stations: &StationSet, found: Option<&Station>|
            #[trigger] call_ensures(StationSet::get, (stations, station_id), found)
                && stations.wf() ==> {
                &&& found matches Some(station) ==> is_known(*stations, station_id, *station)
                &&& found is None ==> is_unknown(*stations, station_id)
            },
        forall|stations: &mut StationSet, removed: Option<Station>|
            #[trigger] call_ensures(StationSet::remove, (stations, station_id), removed)
                && stations.wf() ==> {
                &&& removed matches Some(station) ==> leaves_its_place(
                    *stations,
                    *final(stations),
                    station_id,
                    station,
                )
                &&& removed is None ==> *final(stations) == *stations && is_unknown(*stations, station_id)
            },
{
    assert forall|stations: StationSet, station: Station| #[trigger]
        is_known(stations, station_id, station) <==> stations.station(station_id) == Some(station) by {
        lemma_known(stations, station_id, station);
    }
    assert forall|stations: &mut StationSet, removed: Option<Station>|
        #[trigger] call_ensures(StationSet::remove, (stations, station_id), removed)
            && stations.wf() && removed is Some implies leaves_its_place(
        *stations,
        *final(stations),
        station_id,
        removed->0,
    ) by {
        let at = stations.registry.position(station_id)->0;
        let ids = stations.registry.ids();
        let entries = stations.registry.entries@;
        law_lookups_find_the_first_entry(ids, station_id.0);
        assert(entries[at].0.0 == ids[at]);
        assert forall|i: int| 0 <= i < at implies (#[trigger] entries[i]).0 != station_id by {
            assert(ids[i] != station_id.0);
        }
        assert(is_first(*stations, at, station_id));
        assert(was_at(*stations, *final(stations), station_id, removed->0, at));
    }
}

/// The station was the first with its id, and those behind it moved up by one.
pub open spec fn leaves_its_place(
    before: StationSet,
    after: StationSet,
    station_id: StationId,
    station: Station,
) -> bool {
    exists|at: int| #[trigger] was_at(before, after, station_id, station, at)
}

/// The station was the first with its id, at this place, and those behind it moved up by one.
pub open spec fn was_at(
    before: StationSet,
    after: StationSet,
    station_id: StationId,
    station: Station,
    at: int,
) -> bool {
    &&& is_first(before, at, station_id)
    &&& before.registry.entries@[at].1 == station
    &&& after.registry.entries@.len() == before.registry.entries@.len() - 1
    &&& forall|i: int|
        0 <= i < after.registry.entries@.len() ==> #[trigger] after.registry.entries@[i]
            == before.registry.entries@[if i < at {
            i
        } else {
            i + 1
        }]
}

/// The last split of a station, as a lookup tells it.
pub open spec fn last_split(state: SplitSchedulerState, station_id: StationId) -> Option<Tick> {
    if state@.contains_key(station_id.0 as u128) {
        Some(state@[station_id.0 as u128])
    } else {
        None
    }
}

/// Every station that is a source of an action was last split at the tick, and every other when it
/// was.
pub open spec fn notes_sources(
    before: SplitSchedulerState,
    after: SplitSchedulerState,
    actions: Seq<SplitAction>,
    tick: Tick,
) -> bool {
    forall|station_id: StationId| #[trigger]
        last_split(after, station_id) == if exists|i: int|
            0 <= i < actions.len() && (#[trigger] actions[i]).source_station == station_id {
            Some(tick)
        } else {
            last_split(before, station_id)
        }
}

proof fn lemma_recorded(
    before: SplitSchedulerState,
    actions: Seq<SplitActionModel>,
    tick: Tick,
    station_id: StationId,
)
    ensures
        ({
            let after = recorded(before@, actions, tick);
            let key = station_id.0 as u128;
            if exists|i: int|
                0 <= i < actions.len() && (#[trigger] actions[i]).source_station == station_id {
                after.contains_key(key) && after[key] == tick
            } else {
                &&& after.contains_key(key) <==> before@.contains_key(key)
                &&& before@.contains_key(key) ==> after[key] == before@[key]
            }
        }),
    decreases actions.len(),
{
    if actions.len() > 0 {
        let fewer = actions.drop_last();
        lemma_recorded(before, fewer, tick, station_id);
        let named = exists|i: int|
            0 <= i < actions.len() && (#[trigger] actions[i]).source_station == station_id;
        let named_before = exists|i: int|
            0 <= i < fewer.len() && (#[trigger] fewer[i]).source_station == station_id;
        if named_before {
            let i = choose|i: int|
                0 <= i < fewer.len() && (#[trigger] fewer[i]).source_station == station_id;
            assert(actions[i].source_station == station_id);
        }
        if named {
            let i = choose|i: int|
                0 <= i < actions.len() && (#[trigger] actions[i]).source_station == station_id;
            if i < fewer.len() {
                assert(fewer[i].source_station == station_id);
            }
        }
        assert(actions[actions.len() - 1] == actions.last());
    }
}

proof fn lemma_notes(
    before: SplitSchedulerState,
    after: SplitSchedulerState,
    actions: Seq<SplitAction>,
    tick: Tick,
)
    requires
        after@ == recorded(before@, action_models(actions), tick),
    ensures
        notes_sources(before, after, actions, tick),
{
    assert forall|station_id: StationId| #[trigger]
        last_split(after, station_id) == if exists|i: int|
            0 <= i < actions.len() && (#[trigger] actions[i]).source_station == station_id {
            Some(tick)
        } else {
            last_split(before, station_id)
        } by {
        let models = action_models(actions);
        lemma_recorded(before, models, tick, station_id);
        if exists|i: int|
            0 <= i < actions.len() && (#[trigger] actions[i]).source_station == station_id {
            let i = choose|i: int|
                0 <= i < actions.len() && (#[trigger] actions[i]).source_station == station_id;
            assert(models[i].source_station == station_id);
        }
        if exists|i: int|
            0 <= i < models.len() && (#[trigger] models[i]).source_station == station_id {
            let i = choose|i: int|
                0 <= i < models.len() && (#[trigger] models[i]).source_station == station_id;
            assert(actions[i].source_station == station_id);
        }
    }
}

/// A recorded split starts the cooldown of its source and of no other station: the source rests while
/// fewer ticks than the cooldown have passed since its last split, and not a tick longer.
pub proof fn law_sources_rest_after_a_split(tick: Tick)
    ensures
        forall|state: &mut SplitSchedulerState, action: &SplitAction|
            #[trigger] call_ensures(SplitSchedulerState::record_action, (state, action, tick), ())
                && state.wf() ==> notes_sources(*state, *final(state), seq![*action], tick),
        forall|state: &mut SplitSchedulerState, schedule: &SplitSchedule|
            #[trigger] call_ensures(
                SplitSchedulerState::record_schedule,
                (state, schedule, tick),
                (),
            ) && state.wf() ==> notes_sources(*state, *final(state), schedule.actions@, tick),
        forall|state: &mut SplitSchedulerState, schedule: SplitScheduleView<'_>|
            #[trigger] call_ensures(
                SplitSchedulerState::record_schedule_view,
                (state, schedule, tick),
                (),
            ) && state.wf() ==> notes_sources(*state, *final(state), schedule.actions@, tick),
        forall|
            state: &SplitSchedulerState,
            station_id: StationId,
            cooldown: u64,
            resting: bool,
        |
            #[trigger] call_ensures(
                SplitSchedulerState::is_in_cooldown,
                (state, station_id, tick, cooldown),
                resting,
            ) && state.wf() ==> (resting <==> last_split(*state, station_id) is Some && {
                let last = (last_split(*state, station_id)->0).0;
                (last <= tick.0 ==> tick.0 - last < cooldown) && cooldown > 0
            }),
        forall|state: &SplitSchedulerState, station_id: StationId, last: Option<Tick>|
            #[trigger] call_ensures(SplitSchedulerState::last_split_at, (state, station_id), last)
                && state.wf() ==> last == last_split(*state, station_id),
{
    assert forall|state: &mut SplitSchedulerState, action: &SplitAction|
        #[trigger] call_ensures(SplitSchedulerState::record_action, (state, action, tick), ())
            && state.wf() implies notes_sources(*state, *final(state), seq![*action], tick) by {
        assert(seq![*action][0] == *action);
    }
    assert forall|state: &mut SplitSchedulerState, schedule: &SplitSchedule|
        #[trigger] call_ensures(SplitSchedulerState::record_schedule, (state, schedule, tick), ())
            && state.wf() implies notes_sources(
        *state,
        *final(state),
        schedule.actions@,
        tick,
    ) by {
        lemma_notes(*state, *final(state), schedule.actions@, tick);
    }
    assert forall|state: &mut SplitSchedulerState, schedule: SplitScheduleView<'_>|
        #[trigger] call_ensures(
            SplitSchedulerState::record_schedule_view,
            (state, schedule, tick),
            (),
        ) && state.wf() implies notes_sources(
        *state,
        *final(state),
        schedule.actions@,
        tick,
    ) by {
        lemma_notes(*state, *final(state), schedule.actions@, tick);
    }
}

} // verus!
