//! What migration promises: every authoritative entity in the moved cells changes hands once, step by
//! step, and no other entity does.

use vstd::prelude::*;

use crate::cell_index::CellIndex;
use crate::ids::{EntityHandle, EntityId, OwnerEpoch, StationId, Tick};
use crate::migration::{
    candidate_migrated, handle_number, handles_over, law_each_entity_migrates_once,
    migrated_upto, scanned, unique, CellMigrationError, CellMigrationExecutor,
    CellMigrationReport, CellMigrationScratch, EntityMigrationError, EntityMigrationExecutor,
    EntityMigrationReport, MigrationState, StationHandoff,
};
use crate::station::{record_of, CellCoord3, EntityRecord, Station};
use crate::station_set::StationSet;

verus! {

/// The handle leads to this record: the first with that handle.
pub open spec fn leads_to(
    records: Seq<EntityRecord>,
    handle: EntityHandle,
    record: EntityRecord,
) -> bool {
    exists|at: int|
        {
            &&& 0 <= at < records.len()
            &&& #[trigger] records[at] == record
            &&& record.handle == handle
            &&& forall|i: int| 0 <= i < at ==> (#[trigger] records[i]).handle != handle
        }
}

/// The handle stands in one of the cells.
pub open spec fn stands_in(
    index: CellIndex,
    cells: Seq<CellCoord3>,
    handle: EntityHandle,
) -> bool {
    exists|i: int|
        0 <= i < cells.len() && index.handles_in(#[trigger] cells[i]).contains(handle)
}

/// An authoritative record of the entity stands in one of the cells.
pub open spec fn is_to_move(
    records: Seq<EntityRecord>,
    index: CellIndex,
    cells: Seq<CellCoord3>,
    entity_id: EntityId,
) -> bool {
    exists|handle: EntityHandle, record: EntityRecord|
        {
            &&& stands_in(index, cells, handle)
            &&& #[trigger] leads_to(records, handle, record)
            &&& record.role is Authority
            &&& record.id == entity_id
        }
}

/// Number of places in the cells, a handle counted in each cell that it stands in.
pub open spec fn place_count(index: CellIndex, cells: Seq<CellCoord3>) -> nat
    decreases cells.len(),
{
    if cells.len() == 0 {
        0
    } else {
        place_count(index, cells.drop_first()) + index.handles_in(cells.first()).len()
    }
}

/// The record that a handle leads to is the first that a search finds.
pub proof fn lemma_record(records: Seq<EntityRecord>, handle: EntityHandle)
    ensures
        forall|record: EntityRecord| #[trigger]
            leads_to(records, handle, record) <==> record_of(records, handle) == Some(record),
    decreases records.len(),
{
    if records.len() > 0 {
        let rest = records.drop_first();
        lemma_record(rest, handle);
        assert forall|record: EntityRecord| #[trigger] leads_to(records, handle, record)
            <==> record_of(records, handle) == Some(record) by {
            if leads_to(records, handle, record) {
                let at = choose|at: int|
                    {
                        &&& 0 <= at < records.len()
                        &&& #[trigger] records[at] == record
                        &&& record.handle == handle
                        &&& forall|i: int| 0 <= i < at ==> (#[trigger] records[i]).handle != handle
                    };
                if records[0].handle == handle {
                    assert(at == 0);
                } else {
                    assert(rest[at - 1] == record);
                    assert forall|i: int| 0 <= i < at - 1 implies (#[trigger] rest[i]).handle
                        != handle by {
                        assert(rest[i] == records[i + 1]);
                    }
                    assert(leads_to(rest, handle, record));
                }
            }
            if record_of(records, handle) == Some(record) {
                if records[0].handle == handle {
                    assert(records[0] == record);
                } else {
                    assert(leads_to(rest, handle, record));
                    let at = choose|at: int|
                        {
                            &&& 0 <= at < rest.len()
                            &&& #[trigger] rest[at] == record
                            &&& record.handle == handle
                            &&& forall|i: int|
                                0 <= i < at ==> (#[trigger] rest[i]).handle != handle
                        };
                    assert(records[at + 1] == record);
                    assert forall|i: int| 0 <= i < at + 1 implies (#[trigger] records[i]).handle
                        != handle by {
                        if i > 0 {
                            assert(records[i] == rest[i - 1]);
                        }
                    }
                }
            }
        }
    }
}

proof fn lemma_handles(index: CellIndex, cells: Seq<CellCoord3>)
    ensures
        forall|handle: EntityHandle| #[trigger]
            handles_over(index, cells).contains(handle) <==> stands_in(index, cells, handle),
    decreases cells.len(),
{
    if cells.len() > 0 {
        let fewer = cells.drop_last();
        lemma_handles(index, fewer);
        let rest = handles_over(index, fewer);
        let last = index.handles_in(cells.last());
        let all = handles_over(index, cells);
        assert forall|handle: EntityHandle| #[trigger] all.contains(handle) <==> stands_in(
            index,
            cells,
            handle,
        ) by {
            if all.contains(handle) {
                let i = choose|i: int| 0 <= i < all.len() && all[i] == handle;
                if i < rest.len() {
                    assert(rest[i] == handle);
                    assert(rest.contains(handle));
                    let c = choose|c: int|
                        0 <= c < fewer.len() && index.handles_in(#[trigger] fewer[c]).contains(
                            handle,
                        );
                    assert(cells[c] == fewer[c]);
                } else {
                    assert(last[i - rest.len()] == handle);
                    assert(cells[cells.len() - 1] == cells.last());
                }
            }
            if stands_in(index, cells, handle) {
                let c = choose|c: int|
                    0 <= c < cells.len() && index.handles_in(#[trigger] cells[c]).contains(handle);
                if c < fewer.len() {
                    assert(fewer[c] == cells[c]);
                    assert(rest.contains(handle));
                    let i = choose|i: int| 0 <= i < rest.len() && rest[i] == handle;
                    assert(all[i] == handle);
                } else {
                    let i = choose|i: int| 0 <= i < last.len() && last[i] == handle;
                    assert(all[rest.len() + i] == handle);
                }
            }
        }
    }
}

proof fn lemma_places(index: CellIndex, cells: Seq<CellCoord3>, from: int)
    requires
        0 <= from <= cells.len(),
    ensures
        handles_over(index, cells).len() == handles_over(index, cells.take(from)).len()
            + place_count(index, cells.skip(from)),
    decreases cells.len() - from,
{
    if from == cells.len() {
        assert(cells.take(from) =~= cells);
    } else {
        lemma_places(index, cells, from + 1);
        assert(cells.take(from + 1).drop_last() =~= cells.take(from));
        assert(cells.take(from + 1).last() == cells[from]);
        assert(cells.skip(from).drop_first() =~= cells.skip(from + 1));
        assert(cells.skip(from).first() == cells[from]);
    }
}

proof fn lemma_numbers(left: EntityHandle, right: EntityHandle)
    requires
        handle_number(left) == handle_number(right),
    ensures
        left == right,
{
}

proof fn lemma_scan(records: Seq<EntityRecord>, handles: Seq<EntityHandle>)
    ensures
        ({
            let scan = scanned(records, handles);
            &&& forall|handle: EntityHandle| #[trigger]
                scan.seen.contains(handle_number(handle)) <==> handles.contains(handle)
            &&& forall|id: EntityId| #[trigger]
                scan.ids.contains(id) <==> exists|handle: EntityHandle| #[trigger]
                    handles.contains(handle) && record_of(records, handle) is Some && record_of(
                        records,
                        handle,
                    )->0.owned() && record_of(records, handle)->0.id == id
            &&& scan.missing == 0 <==> forall|handle: EntityHandle| #[trigger]
                handles.contains(handle) ==> record_of(records, handle) is Some
            &&& scan.non_owned == 0 <==> forall|handle: EntityHandle| #[trigger]
                handles.contains(handle) && record_of(records, handle) is Some ==> record_of(
                    records,
                    handle,
                )->0.owned()
            &&& scan.ids.len() + scan.missing + scan.non_owned + scan.duplicates == handles.len()
        }),
    decreases handles.len(),
{
    let scan = scanned(records, handles);
    if handles.len() > 0 {
        let fewer = handles.drop_last();
        let last = handles.last();
        lemma_scan(records, fewer);
        let rest = scanned(records, fewer);
        assert forall|handle: EntityHandle| #[trigger] handles.contains(handle) <==> (
        fewer.contains(handle) || handle == last) by {
            if handles.contains(handle) {
                let i = choose|i: int| 0 <= i < handles.len() && handles[i] == handle;
                if i < fewer.len() {
                    assert(fewer[i] == handle);
                }
            }
            if fewer.contains(handle) {
                let i = choose|i: int| 0 <= i < fewer.len() && fewer[i] == handle;
                assert(handles[i] == handle);
            }
            if handle == last {
                assert(handles[handles.len() - 1] == handle);
            }
        }
        assert(rest.seen.contains(handle_number(last)) <==> fewer.contains(last));
        assert forall|handle: EntityHandle| #[trigger] scan.seen.contains(handle_number(handle))
            <==> handles.contains(handle) by {
            if handle_number(handle) == handle_number(last) {
                lemma_numbers(handle, last);
            }
            assert(rest.seen.contains(handle_number(handle)) <==> fewer.contains(handle));
        }
        assert(handles.contains(last));
        let taken = !fewer.contains(last) && record_of(records, last) is Some && record_of(
            records,
            last,
        )->0.owned();
        assert forall|id: EntityId| #[trigger] scan.ids.contains(id) <==> (rest.ids.contains(id) || (
        taken && record_of(records, last)->0.id == id)) by {
            if taken {
                assert(scan.ids == rest.ids.push(record_of(records, last)->0.id));
                if scan.ids.contains(id) {
                    let i = choose|i: int| 0 <= i < scan.ids.len() && scan.ids[i] == id;
                    if i < rest.ids.len() {
                        assert(rest.ids[i] == id);
                    }
                }
                if rest.ids.contains(id) {
                    let i = choose|i: int| 0 <= i < rest.ids.len() && rest.ids[i] == id;
                    assert(scan.ids[i] == id);
                }
                assert(scan.ids[rest.ids.len() as int] == record_of(records, last)->0.id);
            } else {
                assert(scan.ids == rest.ids);
            }
        }
        assert forall|id: EntityId| #[trigger] scan.ids.contains(id) <==> exists|
            handle: EntityHandle,
        | #[trigger]
            handles.contains(handle) && record_of(records, handle) is Some && record_of(
                records,
                handle,
            )->0.owned() && record_of(records, handle)->0.id == id by {
            if scan.ids.contains(id) {
                if rest.ids.contains(id) {
                    let handle = choose|handle: EntityHandle| #[trigger]
                        fewer.contains(handle) && record_of(records, handle) is Some && record_of(
                            records,
                            handle,
                        )->0.owned() && record_of(records, handle)->0.id == id;
                    assert(handles.contains(handle));
                } else {
                    assert(handles.contains(last));
                }
            }
            if exists|handle: EntityHandle| #[trigger]
                handles.contains(handle) && record_of(records, handle) is Some && record_of(
                    records,
                    handle,
                )->0.owned() && record_of(records, handle)->0.id == id {
                let handle = choose|handle: EntityHandle| #[trigger]
                    handles.contains(handle) && record_of(records, handle) is Some && record_of(
                        records,
                        handle,
                    )->0.owned() && record_of(records, handle)->0.id == id;
                if fewer.contains(handle) {
                    assert(rest.ids.contains(id));
                }
            }
        }
        if scan.missing == 0 {
            assert forall|handle: EntityHandle| #[trigger] handles.contains(
                handle,
            ) implies record_of(records, handle) is Some by {
                assert(fewer.contains(handle) || handle == last);
            }
        } else if rest.missing > 0 {
            let handle = choose|handle: EntityHandle| #[trigger]
                fewer.contains(handle) && record_of(records, handle) is None;
            assert(handles.contains(handle));
        }
        if scan.non_owned == 0 {
            assert forall|handle: EntityHandle| #[trigger]
                handles.contains(handle) && record_of(records, handle) is Some implies record_of(
                records,
                handle,
            )->0.owned() by {
                assert(fewer.contains(handle) || handle == last);
            }
        } else if rest.non_owned > 0 {
            let handle = choose|handle: EntityHandle| #[trigger]
                fewer.contains(handle) && record_of(records, handle) is Some && !record_of(
                    records,
                    handle,
                )->0.owned();
            assert(handles.contains(handle));
        }
    }
}

/// The entity changed hands between two moments of the pass.
pub open spec fn changes_hands<H: StationHandoff>(
    before: MigrationState,
    after: MigrationState,
    source: StationId,
    target: StationId,
    entity_id: EntityId,
    ghost_ttl_ticks: u64,
    migration: EntityMigrationReport<H::Transfer>,
) -> bool {
    candidate_migrated::<H>(
        before,
        after,
        source,
        target,
        entity_id,
        ghost_ttl_ticks,
        Ok::<EntityMigrationReport<H::Transfer>, CellMigrationError<H::Error>>(migration),
    )
}

/// The report accounts for the entities, each of which changed hands once, one after the other.
pub open spec fn moves_these<H: StationHandoff>(
    before: MigrationState,
    after: MigrationState,
    report: CellMigrationReport<H::Transfer>,
    ids: Seq<EntityId>,
    source: StationId,
    target: StationId,
    ghost_ttl_ticks: u64,
) -> bool {
    &&& report.entity_migrations@.len() == ids.len()
    &&& ids.no_duplicates()
    &&& exists|trace: Seq<MigrationState>|
        trace.len() == ids.len() + 1 && trace[0] == before && trace.last() == after && forall|i: int|
            0 <= i < ids.len() ==> changes_hands::<H>(
                #[trigger] trace[i],
                trace[i + 1],
                source,
                target,
                ids[i],
                ghost_ttl_ticks,
                report.entity_migrations@[i],
            )
}

/// What a finished pass over the cells comes to.
pub open spec fn moves_what_stands_there<H: StationHandoff>(
    before: MigrationState,
    after: MigrationState,
    records: Seq<EntityRecord>,
    cells: Seq<CellCoord3>,
    source: StationId,
    target: StationId,
    ghost_ttl_ticks: u64,
    report: CellMigrationReport<H::Transfer>,
) -> bool {
    let index = before.source_index;
    &&& report.source_station == source
    &&& report.target_station == target
    &&& report.scanned_cells@ == cells
    &&& exists|ids: Seq<EntityId>|
        {
            &&& #[trigger] moves_these::<H>(
                before,
                after,
                report,
                ids,
                source,
                target,
                ghost_ttl_ticks,
            )
            &&& forall|id: EntityId| #[trigger]
                ids.contains(id) <==> is_to_move(records, index, cells, id)
        }
    &&& report.skipped_missing_handles == 0 <==> forall|handle: EntityHandle| #[trigger]
        stands_in(index, cells, handle) ==> exists|record: EntityRecord|
            leads_to(records, handle, record)
    &&& report.skipped_non_owned == 0 <==> forall|handle: EntityHandle, record: EntityRecord|
        stands_in(index, cells, handle) && #[trigger] leads_to(records, handle, record)
            ==> record.role is Authority
    &&& place_count(index, cells) <= usize::MAX ==> report.entity_migrations@.len()
        + report.skipped_missing_handles + report.skipped_non_owned
        + report.skipped_duplicate_entities == place_count(index, cells)
}

/// A finished pass over cells moved what stands in them.
pub proof fn lemma_finished<H: StationHandoff>(
    before: MigrationState,
    after: MigrationState,
    source: StationId,
    target: StationId,
    cells: Seq<CellCoord3>,
    ghost_ttl_ticks: u64,
    report: CellMigrationReport<H::Transfer>,
    station: Station,
    outcome: Result<(), CellMigrationError<H::Error>>,
)
    requires
        outcome is Ok,
        before.stations.station(source) == Some(station),
        CellMigrationExecutor::cells_migrated::<H>(
            before,
            after,
            source,
            target,
            cells,
            ghost_ttl_ticks,
            report,
            outcome,
        ),
    ensures
        moves_what_stands_there::<H>(
            before,
            after,
            station.records@,
            cells,
            source,
            target,
            ghost_ttl_ticks,
            report,
        ),
{
    let records = station.records@;
    let index = before.source_index;
    let handles = handles_over(index, cells);
    let scan = scanned(records, handles);
    lemma_scan(records, handles);
    lemma_handles(index, cells);
    lemma_places(index, cells, 0);
    assert(cells.take(0) =~= Seq::empty());
    assert(cells.skip(0) =~= cells);
    let (done, trace) = choose|done: nat, trace: Seq<MigrationState>|
        #[trigger] migrated_upto::<H>(report, scan, done, ghost_ttl_ticks, trace) && done
            == scan.ids.len() && trace[0] == before && trace.last() == after;
    assert(scan.ids.take(done as int) =~= scan.ids);
    let ids = unique(scan.ids);
    law_each_entity_migrates_once(scan.ids);
    assert forall|i: int| 0 <= i < ids.len() implies changes_hands::<H>(
        #[trigger] trace[i],
        trace[i + 1],
        source,
        target,
        ids[i],
        ghost_ttl_ticks,
        report.entity_migrations@[i],
    ) by {}
    assert(moves_these::<H>(before, after, report, ids, source, target, ghost_ttl_ticks));
    assert forall|handle: EntityHandle, record: EntityRecord| #[trigger]
        leads_to(records, handle, record) <==> record_of(records, handle) == Some(record) by {
        lemma_record(records, handle);
    }
    assert forall|id: EntityId| #[trigger] ids.contains(id) <==> is_to_move(
        records,
        index,
        cells,
        id,
    ) by {
        assert(ids.contains(id) <==> scan.ids.contains(id));
        if scan.ids.contains(id) {
            let handle = choose|handle: EntityHandle| #[trigger]
                handles.contains(handle) && record_of(records, handle) is Some && record_of(
                    records,
                    handle,
                )->0.owned() && record_of(records, handle)->0.id == id;
            assert(stands_in(index, cells, handle));
            assert(leads_to(records, handle, record_of(records, handle)->0));
        }
        if is_to_move(records, index, cells, id) {
            let (handle, record) = choose|handle: EntityHandle, record: EntityRecord|
                {
                    &&& stands_in(index, cells, handle)
                    &&& #[trigger] leads_to(records, handle, record)
                    &&& record.role is Authority
                    &&& record.id == id
                };
            assert(handles.contains(handle));
        }
    }
    if scan.missing == 0 {
        assert forall|handle: EntityHandle| #[trigger] stands_in(
            index,
            cells,
            handle,
        ) implies exists|record: EntityRecord| leads_to(records, handle, record) by {
            assert(handles.contains(handle));
            assert(leads_to(records, handle, record_of(records, handle)->0));
        }
    } else {
        let handle = choose|handle: EntityHandle| #[trigger]
            handles.contains(handle) && record_of(records, handle) is None;
        assert(stands_in(index, cells, handle));
        assert(forall|record: EntityRecord| !#[trigger] leads_to(records, handle, record));
    }
    if scan.non_owned == 0 {
        assert forall|handle: EntityHandle, record: EntityRecord|
            stands_in(index, cells, handle) && #[trigger] leads_to(
                records,
                handle,
                record,
            ) implies record.role is Authority by {
            assert(handles.contains(handle));
        }
    } else {
        let handle = choose|handle: EntityHandle| #[trigger]
            handles.contains(handle) && record_of(records, handle) is Some && !record_of(
                records,
                handle,
            )->0.owned();
        assert(stands_in(index, cells, handle));
        assert(leads_to(records, handle, record_of(records, handle)->0));
    }
}

/// A migration of cells that ends well moved exactly the entities with an authoritative record in one
/// of the cells, each of them once. Every place in the cells is accounted for: as a move, a missing
/// record, a copy or a repetition.
pub proof fn law_cells_move_what_stands_in_them<H: StationHandoff>(
    source: StationId,
    target: StationId,
    cells: &[CellCoord3],
    ghost_ttl_ticks: u64,
)
    ensures
        forall|
            stations: &mut StationSet,
            source_index: &mut CellIndex,
            target_index: &mut CellIndex,
            scratch: &mut CellMigrationScratch,
            report: &mut CellMigrationReport<H::Transfer>,
            result: Result<(), CellMigrationError<H::Error>>,
        |
            #[trigger] call_ensures(
                CellMigrationExecutor::migrate_cells_into::<H>,
                (
                    stations,
                    source_index,
                    target_index,
                    source,
                    target,
                    cells,
                    ghost_ttl_ticks,
                    scratch,
                    report,
                ),
                result,
            ) && stations.wf() && source_index.wf() && target_index.wf() ==> {
                &&& stations.station(source) is None ==> result == Err::<
                    (),
                    CellMigrationError<H::Error>,
                >(CellMigrationError::Entity(EntityMigrationError::MissingSource(source)))
                    && *final(stations) == *stations
                &&& result is Ok ==> stations.station(source) is Some
                    && moves_what_stands_there::<H>(
                    (MigrationState {
                        stations: *stations,
                        source_index: *source_index,
                        target_index: *target_index,
                    }),
                    (MigrationState {
                        stations: *final(stations),
                        source_index: *final(source_index),
                        target_index: *final(target_index),
                    }),
                    stations.station(source)->0.records@,
                    cells@,
                    source,
                    target,
                    ghost_ttl_ticks,
                    *final(report),
                )
            },
        forall|
            stations: &mut StationSet,
            source_index: &mut CellIndex,
            target_index: &mut CellIndex,
            result: Result<CellMigrationReport<H::Transfer>, CellMigrationError<H::Error>>,
        |
            #[trigger] call_ensures(
                CellMigrationExecutor::migrate_cells::<H>,
                (
                    stations,
                    source_index,
                    target_index,
                    source,
                    target,
                    cells,
                    ghost_ttl_ticks,
                ),
                result,
            ) && stations.wf() && source_index.wf() && target_index.wf() ==> {
                &&& stations.station(source) is None ==> result == Err::<
                    CellMigrationReport<H::Transfer>,
                    CellMigrationError<H::Error>,
                >(CellMigrationError::Entity(EntityMigrationError::MissingSource(source)))
                    && *final(stations) == *stations
                &&& result matches Ok(report) ==> stations.station(source) is Some
                    && moves_what_stands_there::<H>(
                    (MigrationState {
                        stations: *stations,
                        source_index: *source_index,
                        target_index: *target_index,
                    }),
                    (MigrationState {
                        stations: *final(stations),
                        source_index: *final(source_index),
                        target_index: *final(target_index),
                    }),
                    stations.station(source)->0.records@,
                    cells@,
                    source,
                    target,
                    ghost_ttl_ticks,
                    report,
                )
            },
{
    assert forall|
        before: MigrationState,
        after: MigrationState,
        report: CellMigrationReport<H::Transfer>,
        outcome: Result<(), CellMigrationError<H::Error>>,
    |
        #[trigger] CellMigrationExecutor::cells_migrated::<H>(
            before,
            after,
            source,
            target,
            cells@,
            ghost_ttl_ticks,
            report,
            outcome,
        ) && outcome is Ok implies before.stations.station(source) is Some
        && moves_what_stands_there::<H>(
        before,
        after,
        before.stations.station(source)->0.records@,
        cells@,
        source,
        target,
        ghost_ttl_ticks,
        report,
    ) by {
        lemma_finished::<H>(
            before,
            after,
            source,
            target,
            cells@,
            ghost_ttl_ticks,
            report,
            before.stations.station(source)->0,
            outcome,
        );
    }
}

/// All five steps of a handoff were taken in turn, and this is what they left.
pub open spec fn hands_over_in_turn<H: StationHandoff>(
    source: Station,
    target: Station,
    entity_id: EntityId,
    target_station: StationId,
    ghost_ttl_ticks: u64,
    source_after: Station,
    target_after: Station,
    report: EntityMigrationReport<H::Transfer>,
) -> bool {
    exists|
        numbered: Station,
        epoch: OwnerEpoch,
        expires: Tick,
        announced: Station,
        prepared: Result<H::Transfer, H::Error>,
        warm: Station,
        warmed: Result<(), H::Error>,
        incoming: Result<EntityHandle, H::Error>,
        outgoing: Result<EntityHandle, H::Error>,
    |
        #![trigger
            call_ensures(H::next_owner_epoch, (target,), (numbered, epoch)),
            call_ensures(
                H::prepare_outgoing_handoff,
                (source, entity_id, target_station, epoch, expires),
                (announced, prepared),
            ),
            call_ensures(
                H::prewarm_handoff_ghost,
                (numbered, &report.transfer),
                (warm, warmed),
            ),
            call_ensures(
                H::commit_incoming_handoff,
                (warm, &report.transfer),
                (target_after, incoming),
            ),
            call_ensures(
                H::commit_outgoing_handoff,
                (announced, &report.transfer),
                (source_after, outgoing),
            )
        ]
        {
            &&& call_ensures(H::next_owner_epoch, (target,), (numbered, epoch))
            &&& expires.0 as int == if source.tick.0 + ghost_ttl_ticks <= u64::MAX {
                source.tick.0 + ghost_ttl_ticks
            } else {
                u64::MAX as int
            }
            &&& call_ensures(
                H::prepare_outgoing_handoff,
                (source, entity_id, target_station, epoch, expires),
                (announced, prepared),
            )
            &&& prepared == Ok::<H::Transfer, H::Error>(report.transfer)
            &&& call_ensures(
                H::prewarm_handoff_ghost,
                (numbered, &report.transfer),
                (warm, warmed),
            )
            &&& warmed is Ok
            &&& call_ensures(
                H::commit_incoming_handoff,
                (warm, &report.transfer),
                (target_after, incoming),
            )
            &&& incoming == Ok::<EntityHandle, H::Error>(report.target_owner)
            &&& call_ensures(
                H::commit_outgoing_handoff,
                (announced, &report.transfer),
                (source_after, outgoing),
            )
            &&& outgoing == Ok::<EntityHandle, H::Error>(report.source_ghost)
        }
}

/// An entity changes hands only by all five steps of a handoff, in turn: the target takes a new
/// epoch, the source prepares with a copy that expires when its time is over, the target warms up and
/// takes over, and then the source lets go.
pub proof fn law_handoffs_take_every_step<H: StationHandoff>(
    entity_id: EntityId,
    target_station: StationId,
    ghost_ttl_ticks: u64,
)
    ensures
        forall|
            source: &mut Station,
            target: &mut Station,
            result: Result<EntityMigrationReport<H::Transfer>, H::Error>,
        |
            #[trigger] call_ensures(
                EntityMigrationExecutor::hand_over::<H>,
                (source, target, entity_id, target_station, ghost_ttl_ticks),
                result,
            ) ==> (result matches Ok(report) ==> hands_over_in_turn::<H>(
                *source,
                *target,
                entity_id,
                target_station,
                ghost_ttl_ticks,
                *final(source),
                *final(target),
                report,
            )),
{
}

/// An entity migrates only between two different, known stations. Otherwise nothing changes. A
/// station that has nothing to do with the handoff stays as it is, and the two keep their place.
pub proof fn law_entities_migrate_between_two_stations<H: StationHandoff>(
    entity_id: EntityId,
    source: StationId,
    target: StationId,
    ghost_ttl_ticks: u64,
)
    ensures
        forall|
            stations: &mut StationSet,
            result: Result<EntityMigrationReport<H::Transfer>, EntityMigrationError<H::Error>>,
        |
            #[trigger] call_ensures(
                EntityMigrationExecutor::migrate_entity::<H>,
                (stations, entity_id, source, target, ghost_ttl_ticks),
                result,
            ) && stations.wf() ==> {
                let before = stations.registry.entries@;
                let after = final(stations).registry.entries@;
                &&& result is Ok ==> source != target && stations.station(source) is Some
                    && stations.station(target) is Some
                &&& source == target || stations.station(source) is None || stations.station(
                    target,
                ) is None ==> *final(stations) == *stations
                &&& source == target ==> result == Err::<
                    EntityMigrationReport<H::Transfer>,
                    EntityMigrationError<H::Error>,
                >(EntityMigrationError::SameSourceAndTarget(source))
                &&& after.len() == before.len()
                &&& forall|i: int|
                    0 <= i < before.len() ==> {
                        &&& (#[trigger] after[i]).0 == before[i].0
                        &&& after[i].1.config == before[i].1.config
                        &&& before[i].0 != source && before[i].0 != target ==> after[i] == before[i]
                    }
            },
{
    assert forall|
        stations: &mut StationSet,
        result: Result<EntityMigrationReport<H::Transfer>, EntityMigrationError<H::Error>>,
    |
        #[trigger] call_ensures(
            EntityMigrationExecutor::migrate_entity::<H>,
            (stations, entity_id, source, target, ghost_ttl_ticks),
            result,
        ) && stations.wf() implies {
        let before = stations.registry.entries@;
        let after = final(stations).registry.entries@;
        &&& after.len() == before.len()
        &&& forall|i: int|
            0 <= i < before.len() ==> {
                &&& (#[trigger] after[i]).0 == before[i].0
                &&& after[i].1.config == before[i].1.config
                &&& before[i].0 != source && before[i].0 != target ==> after[i] == before[i]
            }
    } by {
        let ids = stations.registry.ids();
        crate::station_registry::law_lookups_find_the_first_entry(ids, source.0);
        crate::station_registry::law_lookups_find_the_first_entry(ids, target.0);
    }
}

} // verus!
