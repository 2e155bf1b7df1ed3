//! Execution of split schedules: ownership changes, then entity migration, action by action.

use vstd::prelude::*;
use vstd::std_specs::convert::FromSpecImpl;

use crate::cell_index::cell_number;
use crate::ids::StationId;
use crate::memory::vec_capacity;
use crate::migration::{
    CellMigrationError, CellMigrationExecutor, CellMigrationReport, CellMigrationScratch,
    MigrationState, StationHandoff,
};
use crate::num::clamp_usize;
use crate::ownership::{
    assigned, law_split_assigns_the_proposed_cells, moved, CellOwnershipTable, CellOwnershipUpdate,
};
use crate::split_scheduler::{
    action_models, SplitAction, SplitActionModel, SplitSchedule, SplitScheduleView, SplitScheduler,
};
use crate::station::CellCoord3;
use crate::station_set::{StationIndexSet, StationSet};

verus! {

/// Result of executing a split schedule.
#[derive(Clone, Debug, PartialEq, Eq)]
pub struct SplitScheduleExecutionReport<T> {
    /// Ownership changes applied.
    pub ownership_updates: Vec<CellOwnershipUpdate>,
    /// Cell migration reports.
    pub cell_migrations: Vec<CellMigrationReport<T>>,
}

impl<T> Default for SplitScheduleExecutionReport<T> {
    fn default() -> (report: Self)
        ensures
            report.ownership_updates@.len() == 0,
            report.cell_migrations@.len() == 0,
    {
        Self { ownership_updates: Vec::new(), cell_migrations: Vec::new() }
    }
}

/// Borrowed result of executing a split schedule into reusable storage.
#[derive(Clone, Copy, Debug, PartialEq, Eq)]
pub struct SplitScheduleExecutionView<'a, T> {
    /// Ownership changes applied during this pass.
    pub ownership_updates: &'a [CellOwnershipUpdate],
    /// Cell migration reports produced during this pass.
    pub cell_migrations: &'a [CellMigrationReport<T>],
}

/// Number of moved cells over several updates.
pub open spec fn moved_total(updates: Seq<CellOwnershipUpdate>) -> nat
    decreases updates.len(),
{
    if updates.len() == 0 {
        0
    } else {
        moved_total(updates.drop_last()) + updates.last().moved_cells@.len()
    }
}

/// Number of entity migrations over several reports.
pub open spec fn migration_total<T>(reports: Seq<CellMigrationReport<T>>) -> nat
    decreases reports.len(),
{
    if reports.len() == 0 {
        0
    } else {
        migration_total(reports.drop_last()) + reports.last().entity_migrations@.len()
    }
}

/// Caller-owned reusable output and working storage for split execution.
#[derive(Clone, Debug)]
pub struct SplitScheduleExecutionScratch<T> {
    /// Ownership-update slots.
    pub ownership_updates: Vec<CellOwnershipUpdate>,
    /// Cell-migration report slots.
    pub cell_migrations: Vec<CellMigrationReport<T>>,
    /// Slots in use.
    pub active_actions: usize,
    /// Working storage of the migrations.
    pub migration: CellMigrationScratch,
}

impl<T> Default for SplitScheduleExecutionScratch<T> {
    fn default() -> (scratch: Self)
        ensures
            scratch.wf(),
            scratch.ownership_updates@.len() == 0,
            scratch.active_actions == 0,
            scratch.migration.seen_handles@ == Set::<u64>::empty(),
            scratch.migration.seen_entities@ == Set::<u64>::empty(),
            scratch.migration.entity_ids@.len() == 0,
    {
        Self::new()
    }
}

impl<T> SplitScheduleExecutionScratch<T> {
    /// There are as many report slots as update slots.
    pub open spec fn wf(self) -> bool {
        &&& self.ownership_updates@.len() == self.cell_migrations@.len()
        &&& self.active_actions <= self.ownership_updates@.len()
    }

    /// The slots that were there keep their contents, and any further ones are blank.
    pub open spec fn keeps_slots_of(self, before: Self) -> bool {
        &&& self.ownership_updates@.len() >= before.ownership_updates@.len()
        &&& forall|i: int|
            0 <= i < self.ownership_updates@.len() ==> if i < before.ownership_updates@.len() {
                (#[trigger] self.ownership_updates@[i]).is_like(before.ownership_updates@[i])
            } else {
                self.ownership_updates@[i].is_blank()
            }
        &&& forall|i: int|
            0 <= i < self.cell_migrations@.len() ==> if i < before.cell_migrations@.len() {
                (#[trigger] self.cell_migrations@[i]).is_like(before.cell_migrations@[i])
            } else {
                self.cell_migrations@[i].is_blank()
            }
    }

    /// Creates empty split-execution storage.
    pub fn new() -> (scratch: Self)
        ensures
            scratch.wf(),
            scratch.ownership_updates@.len() == 0,
            scratch.active_actions == 0,
            scratch.migration.seen_handles@ == Set::<u64>::empty(),
            scratch.migration.seen_entities@ == Set::<u64>::empty(),
            scratch.migration.entity_ids@.len() == 0,
    {
        Self {
            ownership_updates: Vec::new(),
            cell_migrations: Vec::new(),
            active_actions: 0,
            migration: CellMigrationScratch::new(),
        }
    }

    /// Reserves outer action slots and per-action cell/entity report capacity.
    pub fn reserve(&mut self, actions: usize, cells_per_action: usize, entities_per_action: usize)
        requires
            old(self).wf(),
        ensures
            final(self).wf(),
            final(self).active_actions == old(self).active_actions,
            final(self).ownership_updates@.len() == (if old(self).ownership_updates@.len()
                < actions {
                actions as nat
            } else {
                old(self).ownership_updates@.len()
            }),
            final(self).keeps_slots_of(*old(self)),
            final(self).migration.seen_handles@ == old(self).migration.seen_handles@,
            final(self).migration.seen_entities@ == old(self).migration.seen_entities@,
            final(self).migration.entity_ids@ == old(self).migration.entity_ids@,
    {
        self.add_slots(actions);
        let ghost slots = self.ownership_updates@.len();
        let mut index: usize = 0;
        while index < actions
            invariant
                index <= actions,
                actions <= slots,
                self.wf(),
                self.ownership_updates@.len() == slots,
                self.active_actions == old(self).active_actions,
                self.keeps_slots_of(*old(self)),
                self.migration == old(self).migration,
            decreases actions - index,
        {
            let update = &mut self.ownership_updates[index];
            if vec_capacity(&update.moved_cells) < cells_per_action {
                let additional: usize = cells_per_action.saturating_sub(update.moved_cells.len());
                update.moved_cells.reserve(additional);
            }
            let report = &mut self.cell_migrations[index];
            if vec_capacity(&report.scanned_cells) < cells_per_action {
                let additional: usize = cells_per_action.saturating_sub(report.scanned_cells.len());
                report.scanned_cells.reserve(additional);
            }
            if vec_capacity(&report.entity_migrations) < entities_per_action {
                let additional: usize = entities_per_action.saturating_sub(
                    report.entity_migrations.len(),
                );
                report.entity_migrations.reserve(additional);
            }
            index = index + 1;
        }
        self.migration.reserve(entities_per_action, entities_per_action);
    }

    /// Ownership-update slots retained across passes.
    pub fn retained_ownership_slots(&self) -> (slots: usize)
        ensures
            slots == self.ownership_updates@.len(),
    {
        self.ownership_updates.len()
    }

    /// Cell-migration report slots retained across passes.
    pub fn retained_migration_slots(&self) -> (slots: usize)
        ensures
            slots == self.cell_migrations@.len(),
    {
        self.cell_migrations.len()
    }

    /// Total moved-cell capacity retained across ownership updates, clamped to what a `usize`
    /// holds.
    pub fn retained_update_cell_capacity(&self) -> (capacity: usize)
        ensures
            capacity >= clamp_usize(moved_total(self.ownership_updates@)),
    {
        let mut capacity: usize = 0;
        let mut index: usize = 0;
        let ghost updates = self.ownership_updates@;
        assert(updates.take(0) =~= Seq::empty());
        while index < self.ownership_updates.len()
            invariant
                updates == self.ownership_updates@,
                index <= updates.len(),
                capacity >= clamp_usize(moved_total(updates.take(index as int))),
            decreases updates.len() - index,
        {
            assert(updates.take(index + 1).drop_last() =~= updates.take(index as int));
            capacity =
            capacity.saturating_add(vec_capacity(&self.ownership_updates[index].moved_cells));
            index = index + 1;
        }
        assert(updates.take(index as int) =~= updates);
        capacity
    }

    /// Total entity-report capacity retained across cell migrations, clamped to what a `usize`
    /// holds.
    pub fn retained_entity_migration_capacity(&self) -> (capacity: usize)
        ensures
            capacity >= clamp_usize(migration_total(self.cell_migrations@)),
    {
        let mut capacity: usize = 0;
        let mut index: usize = 0;
        let ghost reports = self.cell_migrations@;
        assert(reports.take(0) =~= Seq::empty());
        while index < self.cell_migrations.len()
            invariant
                reports == self.cell_migrations@,
                index <= reports.len(),
                capacity >= clamp_usize(migration_total(reports.take(index as int))),
            decreases reports.len() - index,
        {
            assert(reports.take(index + 1).drop_last() =~= reports.take(index as int));
            capacity =
            capacity.saturating_add(vec_capacity(&self.cell_migrations[index].entity_migrations));
            index = index + 1;
        }
        assert(reports.take(index as int) =~= reports);
        capacity
    }

    /// Retained candidate entity capacity in the shared migration scratch.
    pub fn retained_candidate_capacity(&self) -> (capacity: usize)
        ensures
            capacity >= self.migration.entity_ids@.len(),
    {
        self.migration.candidate_capacity()
    }

    fn add_slots(&mut self, actions: usize)
        requires
            old(self).wf(),
        ensures
            final(self).wf(),
            final(self).active_actions == old(self).active_actions,
            final(self).ownership_updates@.len() == (if old(self).ownership_updates@.len()
                < actions {
                actions as nat
            } else {
                old(self).ownership_updates@.len()
            }),
            final(self).keeps_slots_of(*old(self)),
            final(self).migration == old(self).migration,
    {
        while self.ownership_updates.len() < actions
            invariant
                old(self).wf(),
                self.wf(),
                self.keeps_slots_of(*old(self)),
                self.migration == old(self).migration,
                self.active_actions == old(self).active_actions,
                self.ownership_updates@.len() >= old(self).ownership_updates@.len(),
                self.ownership_updates@.len() <= actions || self.ownership_updates@.len() == old(
                    self,
                ).ownership_updates@.len(),
            decreases actions - self.ownership_updates@.len(),
        {
            self.ownership_updates.push(CellOwnershipUpdate::empty());
            self.cell_migrations.push(CellMigrationReport::empty());
        }
    }
}

/// Split schedule execution error.
#[derive(Clone, Copy, Debug, PartialEq, Eq)]
pub enum SplitScheduleExecutionError<E> {
    /// Source index is missing.
    MissingSourceIndex(StationId),
    /// Target index is missing.
    MissingTargetIndex(StationId),
    /// Cell migration failed.
    CellMigration(CellMigrationError<E>),
}

impl<E> From<CellMigrationError<E>> for SplitScheduleExecutionError<E> {
    fn from(error: CellMigrationError<E>) -> (converted: Self) {
        Self::CellMigration(error)
    }
}

impl<E> FromSpecImpl<CellMigrationError<E>> for SplitScheduleExecutionError<E> {
    open spec fn obeys_from_spec() -> bool {
        true
    }

    open spec fn from_spec(error: CellMigrationError<E>) -> Self {
        SplitScheduleExecutionError::CellMigration(error)
    }
}

/// Owners after several actions were applied in turn.
pub open spec fn owners_after(
    owners: Map<u128, StationId>,
    actions: Seq<SplitActionModel>,
) -> Map<u128, StationId>
    decreases actions.len(),
{
    if actions.len() == 0 {
        owners
    } else {
        assigned(
            owners_after(owners, actions.drop_last()),
            actions.last().cells,
            actions.last().target_station,
        )
    }
}

/// The ownership update that an action leaves behind.
pub open spec fn updates_with(
    update: CellOwnershipUpdate,
    owners: Map<u128, StationId>,
    action: SplitActionModel,
) -> bool {
    &&& update.source_station == action.proposed_by
    &&& update.target_station == action.target_station
    &&& update.moved_cells@ == moved(owners, action.cells, action.target_station)
}

/// What executing actions reads and changes besides the owners.
pub struct ExecutionState {
    /// Stations.
    pub stations: StationSet,
    /// Spatial indexes.
    pub indexes: StationIndexSet,
}

impl ExecutionState {
    /// What migrating cells between two stations starts from.
    pub open spec fn between(self, source_station: StationId, target_station: StationId) ->
        MigrationState {
        MigrationState {
            stations: self.stations,
            source_index: self.indexes.index(source_station)->0,
            target_index: self.indexes.index(target_station)->0,
        }
    }

    /// What a migration of cells between two stations leaves behind.
    pub open spec fn holds(
        self,
        before: Self,
        source_station: StationId,
        target_station: StationId,
        reached: MigrationState,
    ) -> bool {
        let from = before.indexes.registry.position(source_station)->0;
        let to = before.indexes.registry.position(target_station)->0;
        &&& self.stations == reached.stations
        &&& self.indexes.registry.entries@ == before.indexes.registry.entries@.update(
            from,
            (source_station, reached.source_index),
        ).update(to, (target_station, reached.target_index))
    }

    /// Both stations of an action have a spatial index.
    pub open spec fn has_indexes(self, action: SplitActionModel) -> bool {
        &&& self.indexes.index(action.source_station) is Some
        &&& self.indexes.index(action.target_station) is Some
    }
}

/// The migration of an action's cells led from one state to the other, and failed if it says so.
#[verifier::opaque]
pub open spec fn action_migrated<H: StationHandoff>(
    ghost_ttl_ticks: u64,
    before: ExecutionState,
    after: ExecutionState,
    action: SplitActionModel,
    cells: Seq<CellCoord3>,
    report: CellMigrationReport<H::Transfer>,
    failure: Option<CellMigrationError<H::Error>>,
) -> bool {
    exists|reached: MigrationState, result: Result<(), CellMigrationError<H::Error>>|
        {
            &&& #[trigger] CellMigrationExecutor::cells_migrated::<H>(
                before.between(action.source_station, action.target_station),
                reached,
                action.source_station,
                action.target_station,
                cells,
                ghost_ttl_ticks,
                report,
                result,
            )
            &&& after.holds(before, action.source_station, action.target_station, reached)
            &&& failure == (match result {
                Ok(_) => None,
                Err(error) => Some(error),
            })
        }
}

/// An executed action leaves its ownership update, and the report of a complete migration of the
/// cells that changed owner.
pub open spec fn action_executed<H: StationHandoff>(
    ghost_ttl_ticks: u64,
    before: ExecutionState,
    after: ExecutionState,
    owners: Map<u128, StationId>,
    action: SplitActionModel,
    update: CellOwnershipUpdate,
    report: CellMigrationReport<H::Transfer>,
) -> bool {
    &&& before.has_indexes(action)
    &&& updates_with(update, owners, action)
    &&& action_migrated::<H>(
        ghost_ttl_ticks,
        before,
        after,
        action,
        update.moved_cells@,
        report,
        None,
    )
}

/// The first `done` actions were executed, each on what the earlier ones left.
#[verifier::opaque]
pub open spec fn executed_upto<H: StationHandoff>(
    ghost_ttl_ticks: u64,
    owners: Map<u128, StationId>,
    actions: Seq<SplitActionModel>,
    done: nat,
    updates: Seq<CellOwnershipUpdate>,
    reports: Seq<CellMigrationReport<H::Transfer>>,
    trace: Seq<ExecutionState>,
) -> bool {
    &&& done <= actions.len()
    &&& done <= updates.len()
    &&& done <= reports.len()
    &&& trace.len() == done + 1
    &&& forall|i: int|
        0 <= i < done ==> action_executed::<H>(
            ghost_ttl_ticks,
            trace[i],
            trace[i + 1],
            owners_after(owners, actions.take(i)),
            #[trigger] actions[i],
            updates[i],
            reports[i],
        )
}

/// How executing actions ends. An action needs the spatial index of both its stations. The first
/// failure ends the pass; where the migration failed, the ownership change of that action has been
/// applied, and so has what was migrated before the failure.
pub open spec fn execution_ends<H: StationHandoff>(
    ghost_ttl_ticks: u64,
    owners: Map<u128, StationId>,
    owners_then: Map<u128, StationId>,
    reached: ExecutionState,
    after: ExecutionState,
    actions: Seq<SplitActionModel>,
    done: nat,
    error: Option<SplitScheduleExecutionError<H::Error>>,
) -> bool {
    let action = actions[done as int];
    let owners_now = owners_after(owners, actions.take(done as int));
    match error {
        None => {
            &&& done == actions.len()
            &&& owners_then == owners_after(owners, actions)
            &&& after == reached
        },
        Some(SplitScheduleExecutionError::MissingSourceIndex(id)) => {
            &&& done < actions.len()
            &&& id == action.source_station
            &&& reached.indexes.index(action.source_station) is None
            &&& owners_then == owners_now
            &&& after == reached
        },
        Some(SplitScheduleExecutionError::MissingTargetIndex(id)) => {
            &&& done < actions.len()
            &&& id == action.target_station
            &&& reached.indexes.index(action.source_station) is Some
            &&& reached.indexes.index(action.target_station) is None
            &&& owners_then == owners_now
            &&& after == reached
        },
        Some(SplitScheduleExecutionError::CellMigration(error)) => {
            &&& done < actions.len()
            &&& reached.has_indexes(action)
            &&& owners_then == owners_after(owners, actions.take((done + 1) as int))
            &&& exists|report: CellMigrationReport<H::Transfer>| #[trigger]
                action_migrated::<H>(
                    ghost_ttl_ticks,
                    reached,
                    after,
                    action,
                    moved(owners_now, action.cells, action.target_station),
                    report,
                    Some(error),
                )
        },
    }
}

proof fn lemma_none_executed<H: StationHandoff>(
    ghost_ttl_ticks: u64,
    owners: Map<u128, StationId>,
    actions: Seq<SplitActionModel>,
    updates: Seq<CellOwnershipUpdate>,
    reports: Seq<CellMigrationReport<H::Transfer>>,
    first: ExecutionState,
)
    ensures
        executed_upto::<H>(ghost_ttl_ticks, owners, actions, 0, updates, reports, seq![first]),
{
    reveal(executed_upto);
}

/// Actions stay executed when storage behind theirs changes.
proof fn lemma_slots_kept<H: StationHandoff>(
    ghost_ttl_ticks: u64,
    owners: Map<u128, StationId>,
    actions: Seq<SplitActionModel>,
    done: nat,
    updates: Seq<CellOwnershipUpdate>,
    reports: Seq<CellMigrationReport<H::Transfer>>,
    updates_then: Seq<CellOwnershipUpdate>,
    reports_then: Seq<CellMigrationReport<H::Transfer>>,
    trace: Seq<ExecutionState>,
)
    requires
        executed_upto::<H>(ghost_ttl_ticks, owners, actions, done, updates, reports, trace),
        updates_then.len() == updates.len(),
        reports_then.len() == reports.len(),
        forall|i: int| 0 <= i < done ==> #[trigger] updates_then[i] == updates[i],
        forall|i: int| 0 <= i < done ==> #[trigger] reports_then[i] == reports[i],
    ensures
        trace.len() == done + 1,
        executed_upto::<H>(
            ghost_ttl_ticks,
            owners,
            actions,
            done,
            updates_then,
            reports_then,
            trace,
        ),
{
    reveal(executed_upto);
    assert forall|i: int| 0 <= i < done implies action_executed::<H>(
        ghost_ttl_ticks,
        trace[i],
        trace[i + 1],
        owners_after(owners, actions.take(i)),
        #[trigger] actions[i],
        updates_then[i],
        reports_then[i],
    ) by {
        assert(updates_then[i] == updates[i]);
        assert(reports_then[i] == reports[i]);
    }
}

proof fn lemma_one_more_executed<H: StationHandoff>(
    ghost_ttl_ticks: u64,
    owners: Map<u128, StationId>,
    actions: Seq<SplitActionModel>,
    done: nat,
    updates: Seq<CellOwnershipUpdate>,
    reports: Seq<CellMigrationReport<H::Transfer>>,
    trace: Seq<ExecutionState>,
    next: ExecutionState,
)
    requires
        executed_upto::<H>(ghost_ttl_ticks, owners, actions, done, updates, reports, trace),
        done < actions.len(),
        done < updates.len(),
        done < reports.len(),
        action_executed::<H>(
            ghost_ttl_ticks,
            trace.last(),
            next,
            owners_after(owners, actions.take(done as int)),
            actions[done as int],
            updates[done as int],
            reports[done as int],
        ),
    ensures
        executed_upto::<H>(
            ghost_ttl_ticks,
            owners,
            actions,
            done + 1,
            updates,
            reports,
            trace.push(next),
        ),
{
    reveal(executed_upto);
    let longer = trace.push(next);
    assert forall|i: int| 0 <= i < done + 1 implies action_executed::<H>(
        ghost_ttl_ticks,
        longer[i],
        longer[i + 1],
        owners_after(owners, actions.take(i)),
        #[trigger] actions[i],
        updates[i],
        reports[i],
    ) by {
        assert(longer[i] == trace[i]);
        if i < done {
            assert(longer[i + 1] == trace[i + 1]);
        }
    }
}

/// One of the stations of an action has no spatial index, which ends a pass before the action.
pub open spec fn lacks_index(indexes: StationIndexSet, action: SplitAction) -> bool {
    ||| indexes.index(action.source_station) is None
    ||| indexes.index(action.target_station) is None
}

/// Where an action leads from a station to itself, the pass ends with a missing index at the latest
/// there.
pub open spec fn self_moves_end_early(indexes: StationIndexSet, actions: Seq<SplitAction>) -> bool {
    forall|i: int|
        0 <= i < actions.len() && (#[trigger] actions[i]).source_station
            == actions[i].target_station ==> exists|j: int|
            0 <= j <= i && lacks_index(indexes, #[trigger] actions[j])
}

impl SplitScheduler {
    /// Executes a split schedule by applying ownership updates and migrating entities.
    pub fn execute<H: StationHandoff>(
        &self,
        schedule: &SplitSchedule,
        stations: &mut StationSet,
        indexes: &mut StationIndexSet,
        ownership: &mut CellOwnershipTable,
    ) -> (result: Result<
        SplitScheduleExecutionReport<H::Transfer>,
        SplitScheduleExecutionError<H::Error>,
    >)
        requires
            old(stations).wf(),
            old(indexes).wf(),
            old(ownership).wf(),
            self_moves_end_early(*old(indexes), schedule.actions@),
        ensures
            final(stations).wf(),
            final(indexes).wf(),
            final(ownership).wf(),
            final(stations).registry.ids() == old(stations).registry.ids(),
            final(indexes).registry.ids() == old(indexes).registry.ids(),
            Self::executed::<H>(
                self.config.ghost_ttl_ticks,
                (ExecutionState { stations: *old(stations), indexes: *old(indexes) }),
                (ExecutionState { stations: *final(stations), indexes: *final(indexes) }),
                old(ownership)@,
                final(ownership)@,
                action_models(schedule.actions@),
                result,
            ),
    {
        self.execute_actions::<H>(schedule.actions.as_slice(), stations, indexes, ownership)
    }

    /// Executes actions directly from a borrowed reusable schedule view.
    pub fn execute_view<H: StationHandoff>(
        &self,
        schedule: SplitScheduleView<'_>,
        stations: &mut StationSet,
        indexes: &mut StationIndexSet,
        ownership: &mut CellOwnershipTable,
    ) -> (result: Result<
        SplitScheduleExecutionReport<H::Transfer>,
        SplitScheduleExecutionError<H::Error>,
    >)
        requires
            old(stations).wf(),
            old(indexes).wf(),
            old(ownership).wf(),
            self_moves_end_early(*old(indexes), schedule.actions@),
        ensures
            final(stations).wf(),
            final(indexes).wf(),
            final(ownership).wf(),
            final(stations).registry.ids() == old(stations).registry.ids(),
            final(indexes).registry.ids() == old(indexes).registry.ids(),
            Self::executed::<H>(
                self.config.ghost_ttl_ticks,
                (ExecutionState { stations: *old(stations), indexes: *old(indexes) }),
                (ExecutionState { stations: *final(stations), indexes: *final(indexes) }),
                old(ownership)@,
                final(ownership)@,
                action_models(schedule.actions@),
                result,
            ),
    {
        self.execute_actions::<H>(schedule.actions, stations, indexes, ownership)
    }

    /// Executes an owned schedule into fully reusable caller-owned storage.
    pub fn execute_into<'a, H: StationHandoff>(
        &self,
        schedule: &SplitSchedule,
        stations: &mut StationSet,
        indexes: &mut StationIndexSet,
        ownership: &mut CellOwnershipTable,
        scratch: &'a mut SplitScheduleExecutionScratch<H::Transfer>,
    ) -> (result: Result<
        SplitScheduleExecutionView<'a, H::Transfer>,
        SplitScheduleExecutionError<H::Error>,
    >)
        requires
            old(stations).wf(),
            old(indexes).wf(),
            old(ownership).wf(),
            old(scratch).wf(),
            self_moves_end_early(*old(indexes), schedule.actions@),
        ensures
            final(stations).wf(),
            final(indexes).wf(),
            final(ownership).wf(),
            final(scratch).wf(),
            final(stations).registry.ids() == old(stations).registry.ids(),
            final(indexes).registry.ids() == old(indexes).registry.ids(),
            Self::executed_into::<H>(
                self.config.ghost_ttl_ticks,
                (ExecutionState { stations: *old(stations), indexes: *old(indexes) }),
                (ExecutionState { stations: *final(stations), indexes: *final(indexes) }),
                old(ownership)@,
                final(ownership)@,
                action_models(schedule.actions@),
                *final(scratch),
                result,
            ),
    {
        self.execute_actions_into::<H>(
            schedule.actions.as_slice(),
            stations,
            indexes,
            ownership,
            scratch,
        )
    }

    /// Executes a borrowed schedule into fully reusable caller-owned storage.
    pub fn execute_view_into<'a, H: StationHandoff>(
        &self,
        schedule: SplitScheduleView<'_>,
        stations: &mut StationSet,
        indexes: &mut StationIndexSet,
        ownership: &mut CellOwnershipTable,
        scratch: &'a mut SplitScheduleExecutionScratch<H::Transfer>,
    ) -> (result: Result<
        SplitScheduleExecutionView<'a, H::Transfer>,
        SplitScheduleExecutionError<H::Error>,
    >)
        requires
            old(stations).wf(),
            old(indexes).wf(),
            old(ownership).wf(),
            old(scratch).wf(),
            self_moves_end_early(*old(indexes), schedule.actions@),
        ensures
            final(stations).wf(),
            final(indexes).wf(),
            final(ownership).wf(),
            final(scratch).wf(),
            final(stations).registry.ids() == old(stations).registry.ids(),
            final(indexes).registry.ids() == old(indexes).registry.ids(),
            Self::executed_into::<H>(
                self.config.ghost_ttl_ticks,
                (ExecutionState { stations: *old(stations), indexes: *old(indexes) }),
                (ExecutionState { stations: *final(stations), indexes: *final(indexes) }),
                old(ownership)@,
                final(ownership)@,
                action_models(schedule.actions@),
                *final(scratch),
                result,
            ),
    {
        self.execute_actions_into::<H>(schedule.actions, stations, indexes, ownership, scratch)
    }

    /// What an execution with owned results comes to.
    pub open spec fn executed<H: StationHandoff>(
        ghost_ttl_ticks: u64,
        before: ExecutionState,
        after: ExecutionState,
        owners: Map<u128, StationId>,
        owners_then: Map<u128, StationId>,
        actions: Seq<SplitActionModel>,
        result: Result<
            SplitScheduleExecutionReport<H::Transfer>,
            SplitScheduleExecutionError<H::Error>,
        >,
    ) -> bool {
        exists|
            done: nat,
            updates: Seq<CellOwnershipUpdate>,
            reports: Seq<CellMigrationReport<H::Transfer>>,
            trace: Seq<ExecutionState>,
        |
            {
                &&& #[trigger] executed_upto::<H>(
                    ghost_ttl_ticks,
                    owners,
                    actions,
                    done,
                    updates,
                    reports,
                    trace,
                )
                &&& trace[0] == before
                &&& execution_ends::<H>(
                    ghost_ttl_ticks,
                    owners,
                    owners_then,
                    trace.last(),
                    after,
                    actions,
                    done,
                    match result {
                        Ok(_) => None,
                        Err(error) => Some(error),
                    },
                )
                &&& result matches Ok(report) ==> {
                    &&& report.ownership_updates@ == updates
                    &&& report.cell_migrations@ == reports
                    &&& updates.len() == actions.len()
                    &&& reports.len() == actions.len()
                }
            }
    }

    /// What an execution into reusable storage comes to.
    pub open spec fn executed_into<H: StationHandoff>(
        ghost_ttl_ticks: u64,
        before: ExecutionState,
        after: ExecutionState,
        owners: Map<u128, StationId>,
        owners_then: Map<u128, StationId>,
        actions: Seq<SplitActionModel>,
        scratch: SplitScheduleExecutionScratch<H::Transfer>,
        result: Result<
            SplitScheduleExecutionView<'_, H::Transfer>,
            SplitScheduleExecutionError<H::Error>,
        >,
    ) -> bool {
        &&& exists|trace: Seq<ExecutionState>|
            {
                &&& #[trigger] executed_upto::<H>(
                    ghost_ttl_ticks,
                    owners,
                    actions,
                    scratch.active_actions as nat,
                    scratch.ownership_updates@,
                    scratch.cell_migrations@,
                    trace,
                )
                &&& trace[0] == before
                &&& execution_ends::<H>(
                    ghost_ttl_ticks,
                    owners,
                    owners_then,
                    trace.last(),
                    after,
                    actions,
                    scratch.active_actions as nat,
                    match result {
                        Ok(_) => None,
                        Err(error) => Some(error),
                    },
                )
            }
        &&& result matches Ok(view) ==> {
            &&& view.ownership_updates@ == scratch.ownership_updates@.take(actions.len() as int)
            &&& view.cell_migrations@ == scratch.cell_migrations@.take(actions.len() as int)
        }
    }

    /// Executes one action: its cells change owner, and the entities in those that did migrate.
    fn execute_action<H: StationHandoff>(
        &self,
        action: &SplitAction,
        stations: &mut StationSet,
        indexes: &mut StationIndexSet,
        ownership: &mut CellOwnershipTable,
        update: &mut CellOwnershipUpdate,
        migration: &mut CellMigrationScratch,
        report: &mut CellMigrationReport<H::Transfer>,
    ) -> (failure: Option<CellMigrationError<H::Error>>)
        requires
            old(stations).wf(),
            old(indexes).wf(),
            old(ownership).wf(),
            old(indexes).index(action.source_station) is Some,
            old(indexes).index(action.target_station) is Some,
            action.source_station != action.target_station,
        ensures
            final(stations).wf(),
            final(indexes).wf(),
            final(ownership).wf(),
            final(stations).registry.ids() == old(stations).registry.ids(),
            final(indexes).registry.ids() == old(indexes).registry.ids(),
            final(ownership)@ == assigned(old(ownership)@, action@.cells, action.target_station),
            updates_with(*final(update), old(ownership)@, action@),
            action_migrated::<H>(
                self.config.ghost_ttl_ticks,
                (ExecutionState { stations: *old(stations), indexes: *old(indexes) }),
                (ExecutionState { stations: *final(stations), indexes: *final(indexes) }),
                action@,
                final(update).moved_cells@,
                *final(report),
                failure,
            ),
    {
        let ghost before = ExecutionState { stations: *stations, indexes: *indexes };
        ownership.apply_split_into(&action.proposal, action.target_station, update);
        let migrated = match indexes.get_pair_mut(action.source_station, action.target_station) {
            Some((source_index, target_index)) => CellMigrationExecutor::migrate_cells_into::<H>(
                stations,
                source_index,
                target_index,
                action.source_station,
                action.target_station,
                update.moved_cells.as_slice(),
                self.config.ghost_ttl_ticks,
                migration,
                report,
            ),
            None => {
                assert(false);
                Ok(())
            },
        };
        let ghost came = migrated;
        let failure = match migrated {
            Ok(()) => None,
            Err(error) => Some(error),
        };
        proof {
            let after = ExecutionState { stations: *stations, indexes: *indexes };
            let from = before.indexes.registry.position(action.source_station)->0;
            let to = before.indexes.registry.position(action.target_station)->0;
            let ended = MigrationState {
                stations: *stations,
                source_index: after.indexes.registry.entries@[from].1,
                target_index: after.indexes.registry.entries@[to].1,
            };
            let model = action@;
            assert(model.source_station == action.source_station);
            assert(model.target_station == action.target_station);
            reveal(action_migrated);
            assert(CellMigrationExecutor::cells_migrated::<H>(
                before.between(model.source_station, model.target_station),
                ended,
                model.source_station,
                model.target_station,
                update.moved_cells@,
                self.config.ghost_ttl_ticks,
                *report,
                came,
            ));
            assert(after.holds(before, model.source_station, model.target_station, ended));
            assert(failure == (match came {
                Ok(_) => None,
                Err(error) => Some(error),
            }));
            assert(action_migrated::<H>(
                self.config.ghost_ttl_ticks,
                before,
                after,
                model,
                update.moved_cells@,
                *report,
                failure,
            ));
        }
        failure
    }

    fn execute_actions_into<'a, H: StationHandoff>(
        &self,
        actions: &[SplitAction],
        stations: &mut StationSet,
        indexes: &mut StationIndexSet,
        ownership: &mut CellOwnershipTable,
        scratch: &'a mut SplitScheduleExecutionScratch<H::Transfer>,
    ) -> (result: Result<
        SplitScheduleExecutionView<'a, H::Transfer>,
        SplitScheduleExecutionError<H::Error>,
    >)
        requires
            old(stations).wf(),
            old(indexes).wf(),
            old(ownership).wf(),
            old(scratch).wf(),
            self_moves_end_early(*old(indexes), actions@),
        ensures
            final(stations).wf(),
            final(indexes).wf(),
            final(ownership).wf(),
            final(scratch).wf(),
            final(scratch).ownership_updates@.len() == (if old(scratch).ownership_updates@.len()
                < actions@.len() {
                actions@.len()
            } else {
                old(scratch).ownership_updates@.len()
            }),
            final(stations).registry.ids() == old(stations).registry.ids(),
            final(indexes).registry.ids() == old(indexes).registry.ids(),
            Self::executed_into::<H>(
                self.config.ghost_ttl_ticks,
                (ExecutionState { stations: *old(stations), indexes: *old(indexes) }),
                (ExecutionState { stations: *final(stations), indexes: *final(indexes) }),
                old(ownership)@,
                final(ownership)@,
                action_models(actions@),
                *final(scratch),
                result,
            ),
    {
        let ghost models = action_models(actions@);
        let ghost owners = ownership@;
        let ghost first = ExecutionState { stations: *stations, indexes: *indexes };
        let ghost mut trace: Seq<ExecutionState> = seq![first];
        scratch.add_slots(actions.len());
        scratch.active_actions = 0;
        let ghost slots = scratch.ownership_updates@.len();
        proof {
            assert(models.take(0) =~= Seq::empty());
            lemma_none_executed::<H>(
                self.config.ghost_ttl_ticks,
                owners,
                models,
                scratch.ownership_updates@,
                scratch.cell_migrations@,
                first,
            );
        }
        while scratch.active_actions < actions.len()
            invariant
                models == action_models(actions@),
                owners == old(ownership)@,
                first == (ExecutionState { stations: *old(stations), indexes: *old(indexes) }),
                self_moves_end_early(*old(indexes), actions@),
                forall|j: int|
                    0 <= j < scratch.active_actions ==> !lacks_index(
                        *old(indexes),
                        #[trigger] actions@[j],
                    ),
                scratch.wf(),
                scratch.ownership_updates@.len() == slots,
                actions@.len() <= slots,
                slots == (if old(scratch).ownership_updates@.len() < actions@.len() {
                    actions@.len()
                } else {
                    old(scratch).ownership_updates@.len()
                }),
                scratch.active_actions <= actions@.len(),
                stations.wf(),
                indexes.wf(),
                ownership.wf(),
                stations.registry.ids() == old(stations).registry.ids(),
                indexes.registry.ids() == old(indexes).registry.ids(),
                ownership@ == owners_after(owners, models.take(scratch.active_actions as int)),
                trace.len() > 0,
                trace[0] == first,
                trace.last() == (ExecutionState { stations: *stations, indexes: *indexes }),
                executed_upto::<H>(
                    self.config.ghost_ttl_ticks,
                    owners,
                    models,
                    scratch.active_actions as nat,
                    scratch.ownership_updates@,
                    scratch.cell_migrations@,
                    trace,
                ),
            decreases actions@.len() - scratch.active_actions,
        {
            let at: usize = scratch.active_actions;
            let action = &actions[at];
            let ghost reached = trace.last();
            proof {
                assert(models[at as int] == action@);
                assert(models.take(at + 1).drop_last() =~= models.take(at as int));
                assert(models.take(at + 1).last() == action@);
            }
            if indexes.get(action.source_station).is_none() {
                return Err(
                    SplitScheduleExecutionError::MissingSourceIndex(action.source_station),
                );
            }
            if indexes.get(action.target_station).is_none() {
                return Err(
                    SplitScheduleExecutionError::MissingTargetIndex(action.target_station),
                );
            }
            assert(!lacks_index(*old(indexes), actions@[at as int]));
            let ghost updates_before = scratch.ownership_updates@;
            let ghost reports_before = scratch.cell_migrations@;
            let failure = self.execute_action::<H>(
                action,
                stations,
                indexes,
                ownership,
                &mut scratch.ownership_updates[at],
                &mut scratch.migration,
                &mut scratch.cell_migrations[at],
            );
            let ghost now = ExecutionState { stations: *stations, indexes: *indexes };
            proof {
                lemma_slots_kept::<H>(
                    self.config.ghost_ttl_ticks,
                    owners,
                    models,
                    at as nat,
                    updates_before,
                    reports_before,
                    scratch.ownership_updates@,
                    scratch.cell_migrations@,
                    trace,
                );
            }
            if let Some(error) = failure {
                assert(action_migrated::<H>(
                    self.config.ghost_ttl_ticks,
                    reached,
                    now,
                    models[at as int],
                    moved(
                        owners_after(owners, models.take(at as int)),
                        models[at as int].cells,
                        models[at as int].target_station,
                    ),
                    scratch.cell_migrations@[at as int],
                    Some(error),
                ));
                assert(execution_ends::<H>(
                    self.config.ghost_ttl_ticks,
                    owners,
                    ownership@,
                    trace.last(),
                    now,
                    models,
                    at as nat,
                    Some(SplitScheduleExecutionError::CellMigration(error)),
                ));
                return Err(SplitScheduleExecutionError::CellMigration(error));
            }
            proof {
                lemma_one_more_executed::<H>(
                    self.config.ghost_ttl_ticks,
                    owners,
                    models,
                    at as nat,
                    scratch.ownership_updates@,
                    scratch.cell_migrations@,
                    trace,
                    now,
                );
                trace = trace.push(now);
            }
            scratch.active_actions = at + 1;
        }
        assert(models.take(actions@.len() as int) =~= models);
        Ok(
            SplitScheduleExecutionView {
                ownership_updates: vstd::slice::slice_subrange(
                    scratch.ownership_updates.as_slice(),
                    0,
                    scratch.active_actions,
                ),
                cell_migrations: vstd::slice::slice_subrange(
                    scratch.cell_migrations.as_slice(),
                    0,
                    scratch.active_actions,
                ),
            },
        )
    }

    fn execute_actions<H: StationHandoff>(
        &self,
        actions: &[SplitAction],
        stations: &mut StationSet,
        indexes: &mut StationIndexSet,
        ownership: &mut CellOwnershipTable,
    ) -> (result: Result<
        SplitScheduleExecutionReport<H::Transfer>,
        SplitScheduleExecutionError<H::Error>,
    >)
        requires
            old(stations).wf(),
            old(indexes).wf(),
            old(ownership).wf(),
            self_moves_end_early(*old(indexes), actions@),
        ensures
            final(stations).wf(),
            final(indexes).wf(),
            final(ownership).wf(),
            final(stations).registry.ids() == old(stations).registry.ids(),
            final(indexes).registry.ids() == old(indexes).registry.ids(),
            Self::executed::<H>(
                self.config.ghost_ttl_ticks,
                (ExecutionState { stations: *old(stations), indexes: *old(indexes) }),
                (ExecutionState { stations: *final(stations), indexes: *final(indexes) }),
                old(ownership)@,
                final(ownership)@,
                action_models(actions@),
                result,
            ),
    {
        let mut scratch: SplitScheduleExecutionScratch<H::Transfer> =
            SplitScheduleExecutionScratch::new();
        let failure = match self.execute_actions_into::<H>(
            actions,
            stations,
            indexes,
            ownership,
            &mut scratch,
        ) {
            Ok(_) => None,
            Err(error) => Some(error),
        };
        match failure {
            Some(error) => Err(error),
            None => Ok(
                SplitScheduleExecutionReport {
                    ownership_updates: scratch.ownership_updates,
                    cell_migrations: scratch.cell_migrations,
                },
            ),
        }
    }
}

/// Executed actions leave a cell with the target of the last action that proposed it, or with its
/// owner where none did.
pub proof fn law_the_last_proposal_decides(
    owners: Map<u128, StationId>,
    actions: Seq<SplitActionModel>,
    at: int,
    cell: CellCoord3,
)
    requires
        -1 <= at < actions.len(),
        at >= 0 ==> actions[at].cells.contains(cell),
        forall|i: int| at < i < actions.len() ==> !(#[trigger] actions[i]).cells.contains(cell),
    ensures
        ({
            let after = owners_after(owners, actions);
            let key = cell_number(cell);
            if at >= 0 {
                after.contains_key(key) && after[key] == actions[at].target_station
            } else {
                &&& after.contains_key(key) <==> owners.contains_key(key)
                &&& owners.contains_key(key) ==> after[key] == owners[key]
            }
        }),
    decreases actions.len(),
{
    if actions.len() > 0 {
        let front = actions.drop_last();
        law_split_assigns_the_proposed_cells(
            owners_after(owners, front),
            actions.last().cells,
            actions.last().target_station,
            cell,
        );
        if at < actions.len() - 1 {
            assert(!actions[actions.len() - 1].cells.contains(cell));
            assert forall|i: int| at < i < front.len() implies !(
            #[trigger] front[i]).cells.contains(cell) by {
                assert(front[i] == actions[i]);
            }
            law_the_last_proposal_decides(owners, front, at, cell);
        }
    }
}

} // verus!
