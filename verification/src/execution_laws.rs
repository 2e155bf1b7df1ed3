//! What carrying out a split schedule promises: ownership and entities move together, and the last
//! proposal for a cell decides.

use vstd::prelude::*;

use crate::cell_index::cell_number;
use crate::ids::StationId;
use crate::migration::{CellMigrationReport, MigrationState, StationHandoff};
use crate::migration_laws::{lemma_finished, moves_what_stands_there};
use crate::ownership::{CellOwnershipTable, CellOwnershipUpdate};
use crate::ownership_laws::lemma_moved;
use crate::split_execution::{
    action_executed, action_migrated, executed_upto, law_the_last_proposal_decides, owners_after,
    ExecutionState, SplitScheduleExecutionError, SplitScheduleExecutionReport,
};
use crate::split_scheduler::{
    action_models, SplitAction, SplitSchedule, SplitScheduleView, SplitScheduler,
};
use crate::station::CellCoord3;
use crate::station_set::{StationIndexSet, StationSet};

verus! {

/// The action at `at` is the last that proposes the cell.
pub open spec fn proposes_last(actions: Seq<SplitAction>, cell: CellCoord3, at: int) -> bool {
    &&& 0 <= at < actions.len()
    &&& actions[at].proposal.cells_to_move@.contains(cell)
    &&& forall|i: int|
        at < i < actions.len() ==> !(#[trigger] actions[i]).proposal.cells_to_move@.contains(cell)
}

/// Every cell belongs to the target of the last action that proposes it, or to whom it did where none
/// does.
pub open spec fn gives_to_the_last(
    before: CellOwnershipTable,
    after: CellOwnershipTable,
    actions: Seq<SplitAction>,
) -> bool {
    &&& forall|cell: CellCoord3, at: int| #[trigger]
        proposes_last(actions, cell, at) ==> after.owner(cell) == Some(actions[at].target_station)
    &&& forall|cell: CellCoord3| #[trigger]
        is_not_proposed(actions, cell) ==> after.owner(cell) == before.owner(cell)
}

/// No action proposes the cell.
pub open spec fn is_not_proposed(actions: Seq<SplitAction>, cell: CellCoord3) -> bool {
    forall|i: int|
        0 <= i < actions.len() ==> !(#[trigger] actions[i]).proposal.cells_to_move@.contains(cell)
}

/// Owner of the cell once the first `upto` actions were carried out.
pub open spec fn owner_then(
    before: CellOwnershipTable,
    actions: Seq<SplitAction>,
    upto: int,
    cell: CellCoord3,
) -> Option<StationId> {
    let earlier = actions.take(upto);
    if exists|at: int| proposes_last(earlier, cell, at) {
        let at = choose|at: int| proposes_last(earlier, cell, at);
        Some(earlier[at].target_station)
    } else {
        before.owner(cell)
    }
}

/// The action at `i` handed over the cells that were not the target's then, and moved what stood in
/// them.
pub open spec fn carries_out<H: StationHandoff>(
    ghost_ttl_ticks: u64,
    before: CellOwnershipTable,
    actions: Seq<SplitAction>,
    i: int,
    update: CellOwnershipUpdate,
    report: CellMigrationReport<H::Transfer>,
) -> bool {
    let action = actions[i];
    &&& update.source_station == action.proposal.source_station
    &&& update.target_station == action.target_station
    &&& update.moved_cells@.no_duplicates()
    &&& forall|cell: CellCoord3| #[trigger]
        update.moved_cells@.contains(cell) <==> action.proposal.cells_to_move@.contains(cell)
            && owner_then(before, actions, i, cell) != Some(action.target_station)
    &&& moves_out::<H>(ghost_ttl_ticks, action, update.moved_cells@, report)
}

/// What stood in the cells moved from the source of the action to its target.
pub open spec fn moves_out<H: StationHandoff>(
    ghost_ttl_ticks: u64,
    action: SplitAction,
    cells: Seq<CellCoord3>,
    report: CellMigrationReport<H::Transfer>,
) -> bool {
    exists|before: MigrationState, after: MigrationState|
        before.stations.station(action.source_station) is Some
            && #[trigger] moves_what_stands_there::<H>(
            before,
            after,
            before.stations.station(action.source_station)->0.records@,
            cells,
            action.source_station,
            action.target_station,
            ghost_ttl_ticks,
            report,
        )
}

/// What a finished execution comes to.
pub open spec fn carries_out_all<H: StationHandoff>(
    ghost_ttl_ticks: u64,
    before: CellOwnershipTable,
    after: CellOwnershipTable,
    actions: Seq<SplitAction>,
    report: SplitScheduleExecutionReport<H::Transfer>,
) -> bool {
    &&& report.ownership_updates@.len() == actions.len()
    &&& report.cell_migrations@.len() == actions.len()
    &&& forall|i: int|
        0 <= i < actions.len() ==> carries_out::<H>(
            ghost_ttl_ticks,
            before,
            actions,
            i,
            #[trigger] report.ownership_updates@[i],
            report.cell_migrations@[i],
        )
    &&& gives_to_the_last(before, after, actions)
}

proof fn lemma_given(
    before: CellOwnershipTable,
    after: CellOwnershipTable,
    actions: Seq<SplitAction>,
)
    requires
        after@ == owners_after(before@, action_models(actions)),
    ensures
        gives_to_the_last(before, after, actions),
{
    let models = action_models(actions);
    assert forall|cell: CellCoord3, at: int| #[trigger]
        proposes_last(actions, cell, at) implies after.owner(cell) == Some(
        actions[at].target_station,
    ) by {
        assert forall|i: int| at < i < models.len() implies !(#[trigger] models[i]).cells.contains(
            cell,
        ) by {
            assert(!actions[i].proposal.cells_to_move@.contains(cell));
        }
        law_the_last_proposal_decides(before@, models, at, cell);
    }
    assert forall|cell: CellCoord3| #[trigger] is_not_proposed(
        actions,
        cell,
    ) implies after.owner(cell) == before.owner(cell) by {
        assert forall|i: int| -1 < i < models.len() implies !(#[trigger] models[i]).cells.contains(
            cell,
        ) by {
            assert(!actions[i].proposal.cells_to_move@.contains(cell));
        }
        law_the_last_proposal_decides(before@, models, -1, cell);
    }
}

proof fn lemma_owner_then(
    before: CellOwnershipTable,
    actions: Seq<SplitAction>,
    upto: int,
    cell: CellCoord3,
)
    requires
        0 <= upto <= actions.len(),
    ensures
        ({
            let owners = owners_after(before@, action_models(actions).take(upto));
            owner_then(before, actions, upto, cell) == if owners.contains_key(cell_number(cell)) {
                Some(owners[cell_number(cell)])
            } else {
                None
            }
        }),
{
    let earlier = actions.take(upto);
    let models = action_models(actions).take(upto);
    assert(models =~= action_models(earlier));
    if exists|at: int| proposes_last(earlier, cell, at) {
        let at = choose|at: int| proposes_last(earlier, cell, at);
        assert(models[at].cells.contains(cell));
        assert forall|i: int| at < i < models.len() implies !(#[trigger] models[i]).cells.contains(
            cell,
        ) by {
            assert(!earlier[i].proposal.cells_to_move@.contains(cell));
        }
        law_the_last_proposal_decides(before@, models, at, cell);
    } else {
        assert forall|i: int| 0 <= i < earlier.len() implies !(
        #[trigger] earlier[i]).proposal.cells_to_move@.contains(cell) by {
            if earlier[i].proposal.cells_to_move@.contains(cell) {
                let at = lemma_last(earlier, cell, i);
                assert(proposes_last(earlier, cell, at));
            }
        }
        assert forall|i: int| -1 < i < models.len() implies !(#[trigger] models[i]).cells.contains(
            cell,
        ) by {
            assert(!earlier[i].proposal.cells_to_move@.contains(cell));
        }
        law_the_last_proposal_decides(before@, models, -1, cell);
    }
}

proof fn lemma_last(actions: Seq<SplitAction>, cell: CellCoord3, i: int) -> (at: int)
    requires
        0 <= i < actions.len(),
        actions[i].proposal.cells_to_move@.contains(cell),
    ensures
        proposes_last(actions, cell, at),
    decreases actions.len() - i,
{
    if exists|k: int|
        i < k < actions.len() && (#[trigger] actions[k]).proposal.cells_to_move@.contains(cell) {
        let k = choose|k: int|
            i < k < actions.len() && (#[trigger] actions[k]).proposal.cells_to_move@.contains(cell);
        lemma_last(actions, cell, k)
    } else {
        i
    }
}

proof fn lemma_carried_out<H: StationHandoff>(
    ghost_ttl_ticks: u64,
    from: ExecutionState,
    to: ExecutionState,
    owners: Map<u128, StationId>,
    action: SplitAction,
    update: CellOwnershipUpdate,
    report: CellMigrationReport<H::Transfer>,
)
    requires
        action_executed::<H>(ghost_ttl_ticks, from, to, owners, action@, update, report),
    ensures
        moves_out::<H>(ghost_ttl_ticks, action, update.moved_cells@, report),
{
    reveal(action_migrated);
    let before = from.between(action.source_station, action.target_station);
    let (after, outcome) = choose|
        reached: MigrationState,
        result: Result<(), crate::migration::CellMigrationError<H::Error>>,
    |
        #[trigger] crate::migration::CellMigrationExecutor::cells_migrated::<H>(
            before,
            reached,
            action.source_station,
            action.target_station,
            update.moved_cells@,
            ghost_ttl_ticks,
            report,
            result,
        ) && result is Ok;
    lemma_finished::<H>(
        before,
        after,
        action.source_station,
        action.target_station,
        update.moved_cells@,
        ghost_ttl_ticks,
        report,
        before.stations.station(action.source_station)->0,
        outcome,
    );
}

proof fn lemma_all_carried_out<H: StationHandoff>(
    ghost_ttl_ticks: u64,
    before: CellOwnershipTable,
    after: CellOwnershipTable,
    from: ExecutionState,
    to: ExecutionState,
    actions: Seq<SplitAction>,
    result: Result<
        SplitScheduleExecutionReport<H::Transfer>,
        SplitScheduleExecutionError<H::Error>,
    >,
)
    requires
        result is Ok,
        SplitScheduler::executed::<H>(
            ghost_ttl_ticks,
            from,
            to,
            before@,
            after@,
            action_models(actions),
            result,
        ),
    ensures
        carries_out_all::<H>(ghost_ttl_ticks, before, after, actions, result->Ok_0),
{
    reveal(executed_upto);
    let models = action_models(actions);
    let report = result->Ok_0;
    let (done, updates, reports, trace) = choose|
        done: nat,
        updates: Seq<CellOwnershipUpdate>,
        reports: Seq<CellMigrationReport<H::Transfer>>,
        trace: Seq<ExecutionState>,
    |
        {
            &&& #[trigger] executed_upto::<H>(
                ghost_ttl_ticks,
                before@,
                models,
                done,
                updates,
                reports,
                trace,
            )
            &&& done == models.len()
            &&& after@ == owners_after(before@, models)
            &&& report.ownership_updates@ == updates
            &&& report.cell_migrations@ == reports
            &&& updates.len() == models.len()
            &&& reports.len() == models.len()
        };
    assert forall|i: int| 0 <= i < actions.len() implies carries_out::<H>(
        ghost_ttl_ticks,
        before,
        actions,
        i,
        #[trigger] report.ownership_updates@[i],
        report.cell_migrations@[i],
    ) by {
        let owners = owners_after(before@, models.take(i));
        assert(models[i] == actions[i]@);
        assert(action_executed::<H>(
            ghost_ttl_ticks,
            trace[i],
            trace[i + 1],
            owners,
            models[i],
            updates[i],
            reports[i],
        ));
        lemma_carried_out::<H>(
            ghost_ttl_ticks,
            trace[i],
            trace[i + 1],
            owners,
            actions[i],
            updates[i],
            reports[i],
        );
        lemma_moved(owners, actions[i].proposal.cells_to_move@, actions[i].target_station);
        assert forall|cell: CellCoord3| #[trigger] updates[i].moved_cells@.contains(cell) <==> (
        actions[i].proposal.cells_to_move@.contains(cell) && owner_then(before, actions, i, cell)
            != Some(actions[i].target_station)) by {
            lemma_owner_then(before, actions, i, cell);
        }
    }
    lemma_given(before, after, actions);
}

/// A schedule that was carried out handed over, action by action, exactly the proposed cells that were
/// not the target's yet, and moved the entities in just those cells. In the end every cell belongs to
/// the target of the last action that proposed it.
pub proof fn law_schedules_move_cells_and_entities_together<H: StationHandoff>(
    scheduler: &SplitScheduler,
)
    ensures
        forall|
            schedule: &SplitSchedule,
            stations: &mut StationSet,
            indexes: &mut StationIndexSet,
            ownership: &mut CellOwnershipTable,
            result: Result<
                SplitScheduleExecutionReport<H::Transfer>,
                SplitScheduleExecutionError<H::Error>,
            >,
        |
            #[trigger] call_ensures(
                SplitScheduler::execute::<H>,
                (scheduler, schedule, stations, indexes, ownership),
                result,
            ) && result is Ok ==> carries_out_all::<H>(
                scheduler.config.ghost_ttl_ticks,
                *ownership,
                *final(ownership),
                schedule.actions@,
                result->Ok_0,
            ),
        forall|
            schedule: SplitScheduleView<'_>,
            stations: &mut StationSet,
            indexes: &mut StationIndexSet,
            ownership: &mut CellOwnershipTable,
            result: Result<
                SplitScheduleExecutionReport<H::Transfer>,
                SplitScheduleExecutionError<H::Error>,
            >,
        |
            #[trigger] call_ensures(
                SplitScheduler::execute_view::<H>,
                (scheduler, schedule, stations, indexes, ownership),
                result,
            ) && result is Ok ==> carries_out_all::<H>(
                scheduler.config.ghost_ttl_ticks,
                *ownership,
                *final(ownership),
                schedule.actions@,
                result->Ok_0,
            ),
{
    assert forall|
        schedule: &SplitSchedule,
        stations: &mut StationSet,
        indexes: &mut StationIndexSet,
        ownership: &mut CellOwnershipTable,
        result: Result<
            SplitScheduleExecutionReport<H::Transfer>,
            SplitScheduleExecutionError<H::Error>,
        >,
    |
        #[trigger] call_ensures(
            SplitScheduler::execute::<H>,
            (scheduler, schedule, stations, indexes, ownership),
            result,
        ) && result is Ok implies carries_out_all::<H>(
        scheduler.config.ghost_ttl_ticks,
        *ownership,
        *final(ownership),
        schedule.actions@,
        result->Ok_0,
    ) by {
        lemma_all_carried_out::<H>(
            scheduler.config.ghost_ttl_ticks,
            *ownership,
            *final(ownership),
            (ExecutionState { stations: *stations, indexes: *indexes }),
            (ExecutionState { stations: *final(stations), indexes: *final(indexes) }),
            schedule.actions@,
            result,
        );
    }
    assert forall|
        schedule: SplitScheduleView<'_>,
        stations: &mut StationSet,
        indexes: &mut StationIndexSet,
        ownership: &mut CellOwnershipTable,
        result: Result<
            SplitScheduleExecutionReport<H::Transfer>,
            SplitScheduleExecutionError<H::Error>,
        >,
    |
        #[trigger] call_ensures(
            SplitScheduler::execute_view::<H>,
            (scheduler, schedule, stations, indexes, ownership),
            result,
        ) && result is Ok implies carries_out_all::<H>(
        scheduler.config.ghost_ttl_ticks,
        *ownership,
        *final(ownership),
        schedule.actions@,
        result->Ok_0,
    ) by {
        lemma_all_carried_out::<H>(
            scheduler.config.ghost_ttl_ticks,
            *ownership,
            *final(ownership),
            (ExecutionState { stations: *stations, indexes: *indexes }),
            (ExecutionState { stations: *final(stations), indexes: *final(indexes) }),
            schedule.actions@,
            result,
        );
    }
}

} // verus!
