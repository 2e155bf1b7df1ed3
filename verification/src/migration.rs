//! Migration of entities between stations, one by one and by cell.

use std::collections::HashSet;

use vstd::prelude::*;
use vstd::std_specs::convert::FromSpecImpl;

use crate::cell_index::{law_removal_leaves_the_other_handles, without, CellIndex};
use crate::ids::{EntityHandle, EntityId, OwnerEpoch, StationId, Tick};
use crate::memory::{copy_set, set_capacity, vec_capacity};
use crate::num::clamp_usize;
use crate::station::{record_of, CellCoord3, EntityRecord, Station};
use crate::station_set::StationSet;

verus! {

/// Handoff of one entity between two stations. A handoff is prepared at the source, warmed up and
/// committed at the target, and then committed at the source. Each step takes a station and hands it
/// back as it became, with what came of the step.
pub trait StationHandoff {
    /// What travels from the source to the target.
    type Transfer;

    /// Why a station refuses a step.
    type Error;

    /// Takes the next ownership epoch of a station.
    fn next_owner_epoch(station: Station) -> (Station, OwnerEpoch);

    /// Prepares a handoff at the source.
    fn prepare_outgoing_handoff(
        source: Station,
        entity_id: EntityId,
        target_station: StationId,
        target_epoch: OwnerEpoch,
        source_ghost_expires_at: Tick,
    ) -> (Station, Result<Self::Transfer, Self::Error>);

    /// Creates the read-only copy at the target.
    fn prewarm_handoff_ghost(target: Station, transfer: &Self::Transfer) -> (
        Station,
        Result<(), Self::Error>,
    );

    /// Makes the target authoritative and returns the handle there.
    fn commit_incoming_handoff(target: Station, transfer: &Self::Transfer) -> (
        Station,
        Result<EntityHandle, Self::Error>,
    );

    /// Leaves a read-only copy at the source and returns the handle there.
    fn commit_outgoing_handoff(source: Station, transfer: &Self::Transfer) -> (
        Station,
        Result<EntityHandle, Self::Error>,
    );
}

/// Result of an in-process entity owner migration.
#[derive(Clone, Debug, PartialEq, Eq)]
pub struct EntityMigrationReport<T> {
    /// Transfer payload used for the migration.
    pub transfer: T,
    /// Source-side ghost handle after commit.
    pub source_ghost: EntityHandle,
    /// Target-side authoritative handle after commit.
    pub target_owner: EntityHandle,
}

/// Entity migration error.
#[derive(Clone, Copy, Debug, PartialEq, Eq)]
pub enum EntityMigrationError<E> {
    /// Source and target station ids must differ.
    SameSourceAndTarget(StationId),
    /// Source station was not found.
    MissingSource(StationId),
    /// Target station was not found.
    MissingTarget(StationId),
    /// Station-level operation failed.
    Station(E),
}

/// What handing one entity over comes to, from the stations before it to those after it: the target's
/// next epoch is taken, the handoff is prepared at the source with a ghost that expires
/// `ghost_ttl_ticks` after the source's tick, warmed up and committed at the target, and committed at
/// the source. The first refusal ends it.
pub open spec fn handed_over<H: StationHandoff>(
    source: Station,
    target: Station,
    entity_id: EntityId,
    target_station: StationId,
    ghost_ttl_ticks: u64,
    source_after: Station,
    target_after: Station,
    result: Result<EntityMigrationReport<H::Transfer>, H::Error>,
) -> bool {
    let expires = Tick(source.tick.0.saturating_add(ghost_ttl_ticks));
    exists|
        numbered: Station,
        epoch: OwnerEpoch,
        announced: Station,
        prepared: Result<H::Transfer, H::Error>,
    |
        #![trigger
            call_ensures(H::next_owner_epoch, (target,), (numbered, epoch)),
            call_ensures(
                H::prepare_outgoing_handoff,
                (source, entity_id, target_station, epoch, expires),
                (announced, prepared),
            )
        ]
        {
            &&& call_ensures(H::next_owner_epoch, (target,), (numbered, epoch))
            &&& call_ensures(
                H::prepare_outgoing_handoff,
                (source, entity_id, target_station, epoch, expires),
                (announced, prepared),
            )
            &&& match prepared {
                Err(error) => {
                    &&& result == Err::<EntityMigrationReport<H::Transfer>, H::Error>(error)
                    &&& source_after == announced
                    &&& target_after == numbered
                },
                Ok(transfer) => transferred::<H>(
                    announced,
                    numbered,
                    transfer,
                    source_after,
                    target_after,
                    result,
                ),
            }
        }
}

/// What a prepared handoff comes to.
pub open spec fn transferred<H: StationHandoff>(
    source: Station,
    target: Station,
    transfer: H::Transfer,
    source_after: Station,
    target_after: Station,
    result: Result<EntityMigrationReport<H::Transfer>, H::Error>,
) -> bool {
    exists|warm: Station, warmed: Result<(), H::Error>|
        #![trigger call_ensures(H::prewarm_handoff_ghost, (target, &transfer), (warm, warmed))]
        {
            &&& call_ensures(H::prewarm_handoff_ghost, (target, &transfer), (warm, warmed))
            &&& match warmed {
                Err(error) => {
                    &&& result == Err::<EntityMigrationReport<H::Transfer>, H::Error>(error)
                    &&& source_after == source
                    &&& target_after == warm
                },
                Ok(()) => committed::<H>(source, warm, transfer, source_after, target_after, result),
            }
        }
}

/// What committing a handoff comes to, at the target first.
pub open spec fn committed<H: StationHandoff>(
    source: Station,
    target: Station,
    transfer: H::Transfer,
    source_after: Station,
    target_after: Station,
    result: Result<EntityMigrationReport<H::Transfer>, H::Error>,
) -> bool {
    exists|incoming: Result<EntityHandle, H::Error>|
        #![trigger call_ensures(
            H::commit_incoming_handoff,
            (target, &transfer),
            (target_after, incoming),
        )]
        {
            &&& call_ensures(
                H::commit_incoming_handoff,
                (target, &transfer),
                (target_after, incoming),
            )
            &&& match incoming {
                Err(error) => {
                    &&& result == Err::<EntityMigrationReport<H::Transfer>, H::Error>(error)
                    &&& source_after == source
                },
                Ok(target_owner) => exists|outgoing: Result<EntityHandle, H::Error>|
                    #![trigger call_ensures(
                        H::commit_outgoing_handoff,
                        (source, &transfer),
                        (source_after, outgoing),
                    )]
                    {
                        &&& call_ensures(
                            H::commit_outgoing_handoff,
                            (source, &transfer),
                            (source_after, outgoing),
                        )
                        &&& result == (match outgoing {
                            Err(error) => Err(error),
                            Ok(source_ghost) => Ok(
                                EntityMigrationReport { transfer, source_ghost, target_owner },
                            ),
                        })
                    },
            }
        }
}

/// What migrating one entity comes to, from the set before it to the set after it. A handoff moves
/// what the stations hold: each keeps its own identity and placement.
pub open spec fn entity_migrated<H: StationHandoff>(
    before: StationSet,
    after: StationSet,
    entity_id: EntityId,
    source_station: StationId,
    target_station: StationId,
    ghost_ttl_ticks: u64,
    result: Result<EntityMigrationReport<H::Transfer>, EntityMigrationError<H::Error>>,
) -> bool {
    if source_station == target_station {
        &&& result == Err::<EntityMigrationReport<H::Transfer>, EntityMigrationError<H::Error>>(
            EntityMigrationError::SameSourceAndTarget(source_station),
        )
        &&& after == before
    } else if before.station(source_station) is None {
        &&& result == Err::<EntityMigrationReport<H::Transfer>, EntityMigrationError<H::Error>>(
            EntityMigrationError::MissingSource(source_station),
        )
        &&& after == before
    } else if before.station(target_station) is None {
        &&& result == Err::<EntityMigrationReport<H::Transfer>, EntityMigrationError<H::Error>>(
            EntityMigrationError::MissingTarget(target_station),
        )
        &&& after == before
    } else {
        let entries = before.registry.entries@;
        let from = before.registry.position(source_station)->0;
        let to = before.registry.position(target_station)->0;
        exists|
            source: Station,
            target: Station,
            outcome: Result<EntityMigrationReport<H::Transfer>, H::Error>,
        |
            {
                &&& #[trigger] handed_over::<H>(
                    entries[from].1,
                    entries[to].1,
                    entity_id,
                    target_station,
                    ghost_ttl_ticks,
                    source,
                    target,
                    outcome,
                )
                &&& after.registry.entries@ == entries.update(
                    from,
                    (source_station, source.with_config(entries[from].1.config)),
                ).update(to, (target_station, target.with_config(entries[to].1.config)))
                &&& result == (match outcome {
                    Ok(report) => Ok(report),
                    Err(error) => Err(EntityMigrationError::Station(error)),
                })
            }
    }
}

/// Runtime helper for in-process station-to-station owner migration.
#[derive(Clone, Copy, Debug, Default)]
pub struct EntityMigrationExecutor;

/// Takes a station out of its place, where an empty one of the same identity stays behind.
fn take_station(place: &mut Station) -> (station: Station)
    ensures
        station == *old(place),
{
    let mut station = Station::new(place.config);
    core::mem::swap(place, &mut station);
    station
}

impl EntityMigrationExecutor {
    /// Hands one entity over from one station to another.
    pub fn hand_over<H: StationHandoff>(
        source: &mut Station,
        target: &mut Station,
        entity_id: EntityId,
        target_station: StationId,
        ghost_ttl_ticks: u64,
    ) -> (result: Result<EntityMigrationReport<H::Transfer>, H::Error>)
        ensures
            handed_over::<H>(
                *old(source),
                *old(target),
                entity_id,
                target_station,
                ghost_ttl_ticks,
                *final(source),
                *final(target),
                result,
            ),
    {
        let expires_at = Tick(source.tick.0.saturating_add(ghost_ttl_ticks));
        let (numbered, target_epoch) = H::next_owner_epoch(take_station(target));
        *target = numbered;
        let (announced, prepared) = H::prepare_outgoing_handoff(
            take_station(source),
            entity_id,
            target_station,
            target_epoch,
            expires_at,
        );
        *source = announced;
        let transfer = match prepared {
            Ok(transfer) => transfer,
            Err(error) => {
                return Err(error);
            },
        };
        let (warm, warmed) = H::prewarm_handoff_ghost(take_station(target), &transfer);
        *target = warm;
        if let Err(error) = warmed {
            return Err(error);
        }
        let (owning, incoming) = H::commit_incoming_handoff(take_station(target), &transfer);
        *target = owning;
        let target_owner = match incoming {
            Ok(target_owner) => target_owner,
            Err(error) => {
                return Err(error);
            },
        };
        let (released, outgoing) = H::commit_outgoing_handoff(take_station(source), &transfer);
        *source = released;
        match outgoing {
            Ok(source_ghost) => Ok(EntityMigrationReport { transfer, source_ghost, target_owner }),
            Err(error) => Err(error),
        }
    }

    /// Migrates one authoritative entity from source station to target station.
    pub fn migrate_entity<H: StationHandoff>(
        stations: &mut StationSet,
        entity_id: EntityId,
        source_station: StationId,
        target_station: StationId,
        ghost_ttl_ticks: u64,
    ) -> (result: Result<EntityMigrationReport<H::Transfer>, EntityMigrationError<H::Error>>)
        requires
            old(stations).wf(),
        ensures
            final(stations).wf(),
            final(stations).registry.ids() == old(stations).registry.ids(),
            entity_migrated::<H>(
                *old(stations),
                *final(stations),
                entity_id,
                source_station,
                target_station,
                ghost_ttl_ticks,
                result,
            ),
    {
        if source_station.0 == target_station.0 {
            return Err(EntityMigrationError::SameSourceAndTarget(source_station));
        }
        if stations.get(source_station).is_none() {
            return Err(EntityMigrationError::MissingSource(source_station));
        }
        if stations.get(target_station).is_none() {
            return Err(EntityMigrationError::MissingTarget(target_station));
        }
        match stations.get_pair_mut(source_station, target_station) {
            Some((source, target)) => {
                let source_config = source.config;
                let target_config = target.config;
                let outcome = Self::hand_over::<H>(
                    source,
                    target,
                    entity_id,
                    target_station,
                    ghost_ttl_ticks,
                );
                source.config = source_config;
                target.config = target_config;
                match outcome {
                    Ok(report) => Ok(report),
                    Err(error) => Err(EntityMigrationError::Station(error)),
                }
            },
            None => Err(EntityMigrationError::MissingSource(source_station)),
        }
    }
}

/// Number of a handle.
pub open spec fn handle_number(handle: EntityHandle) -> u64 {
    (handle.index as nat * 0x1_0000_0000 + handle.generation as nat) as u64
}

fn handle_key(handle: EntityHandle) -> (key: u64)
    ensures
        key == handle_number(handle),
{
    handle.index as u64 * 0x1_0000_0000 + handle.generation as u64
}

/// What a scan of handles finds: the handles seen, the entities to migrate, and the handles passed
/// over.
#[verifier::ext_equal]
pub struct Scan {
    pub seen: Set<u64>,
    pub ids: Seq<EntityId>,
    pub duplicates: nat,
    pub missing: nat,
    pub non_owned: nat,
}

/// A scan extended by one handle: a handle seen before is a duplicate, one without a record is
/// missing, one of a record that is not authoritative is passed over, and any other is a candidate.
pub open spec fn scanned_one(
    scan: Scan,
    records: Seq<EntityRecord>,
    handle: EntityHandle,
) -> Scan {
    if scan.seen.contains(handle_number(handle)) {
        Scan { duplicates: scan.duplicates + 1, ..scan }
    } else {
        let seen = scan.seen.insert(handle_number(handle));
        match record_of(records, handle) {
            None => Scan { seen, missing: scan.missing + 1, ..scan },
            Some(record) => if record.owned() {
                Scan { seen, ids: scan.ids.push(record.id), ..scan }
            } else {
                Scan { seen, non_owned: scan.non_owned + 1, ..scan }
            },
        }
    }
}

/// A scan of several handles in turn.
pub open spec fn scanned(records: Seq<EntityRecord>, handles: Seq<EntityHandle>) -> Scan
    decreases handles.len(),
{
    if handles.len() == 0 {
        Scan { seen: Set::empty(), ids: Seq::empty(), duplicates: 0, missing: 0, non_owned: 0 }
    } else {
        scanned_one(scanned(records, handles.drop_last()), records, handles.last())
    }
}

/// Handles in several cells, cell by cell.
pub open spec fn handles_over(index: CellIndex, cells: Seq<CellCoord3>) -> Seq<EntityHandle>
    decreases cells.len(),
{
    if cells.len() == 0 {
        Seq::empty()
    } else {
        handles_over(index, cells.drop_last()) + index.handles_in(cells.last())
    }
}

/// Entity ids without repetitions, each where it first stands.
pub open spec fn unique(ids: Seq<EntityId>) -> Seq<EntityId>
    decreases ids.len(),
{
    if ids.len() == 0 {
        Seq::empty()
    } else {
        let rest = unique(ids.drop_last());
        if rest.contains(ids.last()) {
            rest
        } else {
            rest.push(ids.last())
        }
    }
}

/// Repetitions removed from a sequence keep every entity, once.
pub proof fn law_each_entity_migrates_once(ids: Seq<EntityId>)
    ensures
        unique(ids).no_duplicates(),
        forall|id: EntityId| #[trigger] unique(ids).contains(id) <==> ids.contains(id),
        unique(ids).len() <= ids.len(),
    decreases ids.len(),
{
    if ids.len() > 0 {
        let front = ids.drop_last();
        law_each_entity_migrates_once(front);
        let rest = unique(front);
        let whole = unique(ids);
        assert forall|id: EntityId| #[trigger] whole.contains(id) <==> ids.contains(id) by {
            if front.contains(id) {
                let i = choose|i: int| 0 <= i < front.len() && front[i] == id;
                assert(ids[i] == id);
            }
            if ids.contains(id) {
                let i = choose|i: int| 0 <= i < ids.len() && ids[i] == id;
                if i < front.len() {
                    assert(front[i] == id);
                    assert(front.contains(id));
                }
            }
            if rest.contains(id) {
                assert(front.contains(id));
                let i = choose|i: int| 0 <= i < rest.len() && rest[i] == id;
                assert(whole[i] == id);
            }
            if whole.contains(id) {
                let i = choose|i: int| 0 <= i < whole.len() && whole[i] == id;
                if i < rest.len() {
                    assert(rest[i] == id);
                    assert(rest.contains(id));
                } else {
                    assert(ids[ids.len() - 1] == id);
                }
            }
            if id == ids.last() && !rest.contains(id) {
                assert(whole[rest.len() as int] == id);
            }
        }
    }
}

/// An index after a handle was put into some cells, out of any other.
pub open spec fn placed_at(
    before: CellIndex,
    after: CellIndex,
    handle: EntityHandle,
    cells: Seq<CellCoord3>,
) -> bool {
    forall|cell: CellCoord3| #[trigger]
        after.handles_in(cell) == (if cells.contains(cell) {
            without(before.handles_in(cell), handle).push(handle)
        } else {
            without(before.handles_in(cell), handle)
        })
}

/// Result of migrating entities indexed by moved cells.
#[derive(Clone, Debug, PartialEq, Eq)]
pub struct CellMigrationReport<T> {
    /// Source station.
    pub source_station: StationId,
    /// Target station.
    pub target_station: StationId,
    /// Cells scanned for owner entities.
    pub scanned_cells: Vec<CellCoord3>,
    /// Entity migrations that were committed.
    pub entity_migrations: Vec<EntityMigrationReport<T>>,
    /// Candidate handles that no longer resolved to an entity.
    pub skipped_missing_handles: usize,
    /// Candidate entities skipped because they were ghosts or non-authoritative.
    pub skipped_non_owned: usize,
    /// Duplicate candidate entities skipped after first occurrence.
    pub skipped_duplicate_entities: usize,
}

impl<T> Default for CellMigrationReport<T> {
    fn default() -> (report: Self)
        ensures
            report.is_blank(),
    {
        Self::empty()
    }
}

impl<T> CellMigrationReport<T> {
    /// A report of nothing.
    pub open spec fn is_blank(self) -> bool {
        &&& self.source_station == StationId(0)
        &&& self.target_station == StationId(0)
        &&& self.scanned_cells@.len() == 0
        &&& self.entity_migrations@.len() == 0
        &&& self.skipped_missing_handles == 0
        &&& self.skipped_non_owned == 0
        &&& self.skipped_duplicate_entities == 0
    }

    /// Two reports with the same contents.
    pub open spec fn is_like(self, other: Self) -> bool {
        &&& self.source_station == other.source_station
        &&& self.target_station == other.target_station
        &&& self.scanned_cells@ == other.scanned_cells@
        &&& self.entity_migrations@ == other.entity_migrations@
        &&& self.skipped_missing_handles == other.skipped_missing_handles
        &&& self.skipped_non_owned == other.skipped_non_owned
        &&& self.skipped_duplicate_entities == other.skipped_duplicate_entities
    }

    /// A report without migrations.
    pub fn empty() -> (report: Self)
        ensures
            report.is_blank(),
    {
        Self {
            source_station: StationId(0),
            target_station: StationId(0),
            scanned_cells: Vec::new(),
            entity_migrations: Vec::new(),
            skipped_missing_handles: 0,
            skipped_non_owned: 0,
            skipped_duplicate_entities: 0,
        }
    }
}

/// Caller-owned working storage for repeated cell migration passes.
#[derive(Debug)]
pub struct CellMigrationScratch {
    /// Numbers of the handles seen.
    pub seen_handles: HashSet<u64>,
    /// Numbers of the entities seen.
    pub seen_entities: HashSet<u64>,
    /// Candidate entities.
    pub entity_ids: Vec<EntityId>,
}

impl Default for CellMigrationScratch {
    fn default() -> (scratch: Self)
        ensures
            scratch.seen_handles@ == Set::<u64>::empty(),
            scratch.seen_entities@ == Set::<u64>::empty(),
            scratch.entity_ids@.len() == 0,
    {
        Self::new()
    }
}

impl Clone for CellMigrationScratch {
    fn clone(&self) -> (copy: Self)
        ensures
            copy.seen_handles@ == self.seen_handles@,
            copy.seen_entities@ == self.seen_entities@,
            copy.entity_ids@ == self.entity_ids@,
    {
        broadcast use vstd::std_specs::hash::group_hash_axioms;

        Self {
            seen_handles: copy_set(&self.seen_handles),
            seen_entities: copy_set(&self.seen_entities),
            entity_ids: self.entity_ids.clone(),
        }
    }
}

impl CellMigrationScratch {
    /// Creates empty migration scratch storage.
    pub fn new() -> (scratch: Self)
        ensures
            scratch.seen_handles@ == Set::<u64>::empty(),
            scratch.seen_entities@ == Set::<u64>::empty(),
            scratch.entity_ids@.len() == 0,
    {
        Self {
            seen_handles: HashSet::new(),
            seen_entities: HashSet::new(),
            entity_ids: Vec::new(),
        }
    }

    /// Reserves deduplication and candidate storage for an expected pass size.
    pub fn reserve(&mut self, handles: usize, entities: usize)
        ensures
            final(self).seen_handles@ == old(self).seen_handles@,
            final(self).seen_entities@ == old(self).seen_entities@,
            final(self).entity_ids@ == old(self).entity_ids@,
    {
        if set_capacity(&self.seen_handles) < handles {
            self.seen_handles.reserve(handles.saturating_sub(self.seen_handles.len()));
        }
        if set_capacity(&self.seen_entities) < entities {
            self.seen_entities.reserve(entities.saturating_sub(self.seen_entities.len()));
        }
        if vec_capacity(&self.entity_ids) < entities {
            self.entity_ids.reserve(entities.saturating_sub(self.entity_ids.len()));
        }
    }

    /// Retained handle-deduplication capacity.
    pub fn handle_capacity(&self) -> (capacity: usize)
        ensures
            capacity >= self.seen_handles@.len(),
    {
        set_capacity(&self.seen_handles)
    }

    /// Retained entity-deduplication capacity.
    pub fn entity_capacity(&self) -> (capacity: usize)
        ensures
            capacity >= self.seen_entities@.len(),
    {
        set_capacity(&self.seen_entities)
    }

    /// Retained candidate entity capacity.
    pub fn candidate_capacity(&self) -> (capacity: usize)
        ensures
            capacity >= self.entity_ids@.len(),
    {
        vec_capacity(&self.entity_ids)
    }

    fn clear(&mut self)
        ensures
            final(self).seen_handles@ == Set::<u64>::empty(),
            final(self).seen_entities@ == Set::<u64>::empty(),
            final(self).entity_ids@.len() == 0,
    {
        self.seen_handles.clear();
        self.seen_entities.clear();
        self.entity_ids.clear();
    }
}

/// Cell-level migration error.
#[derive(Clone, Copy, Debug, PartialEq, Eq)]
pub enum CellMigrationError<E> {
    /// Entity migration failed.
    Entity(EntityMigrationError<E>),
    /// Target owner record was not found after a successful migration.
    MissingTargetRecord(EntityId),
    /// Source ghost record was not found after a successful migration.
    MissingSourceRecord(EntityId),
}

impl<E> From<EntityMigrationError<E>> for CellMigrationError<E> {
    fn from(error: EntityMigrationError<E>) -> (converted: Self) {
        Self::Entity(error)
    }
}

impl<E> FromSpecImpl<EntityMigrationError<E>> for CellMigrationError<E> {
    open spec fn obeys_from_spec() -> bool {
        true
    }

    open spec fn from_spec(error: EntityMigrationError<E>) -> Self {
        CellMigrationError::Entity(error)
    }
}

/// What a cell migration reads and changes.
pub struct MigrationState {
    /// Stations.
    pub stations: StationSet,
    /// Spatial index of the source.
    pub source_index: CellIndex,
    /// Spatial index of the target.
    pub target_index: CellIndex,
}

/// What migrating one candidate comes to: the entity is migrated, and enters the target's index, and
/// its ghost the source's, at the cells of its record. Where a record is missing, the pass ends
/// there.
pub open spec fn candidate_migrated<H: StationHandoff>(
    before: MigrationState,
    after: MigrationState,
    source_station: StationId,
    target_station: StationId,
    entity_id: EntityId,
    ghost_ttl_ticks: u64,
    result: Result<EntityMigrationReport<H::Transfer>, CellMigrationError<H::Error>>,
) -> bool {
    exists|outcome: Result<EntityMigrationReport<H::Transfer>, EntityMigrationError<H::Error>>|
        {
            &&& #[trigger] entity_migrated::<H>(
                before.stations,
                after.stations,
                entity_id,
                source_station,
                target_station,
                ghost_ttl_ticks,
                outcome,
            )
            &&& match outcome {
                Err(error) => {
                    &&& result == Err::<
                        EntityMigrationReport<H::Transfer>,
                        CellMigrationError<H::Error>,
                    >(CellMigrationError::Entity(error))
                    &&& after.source_index == before.source_index
                    &&& after.target_index == before.target_index
                },
                Ok(migration) => indexed_at::<H>(
                    before,
                    after,
                    source_station,
                    target_station,
                    entity_id,
                    migration,
                    result,
                ),
            }
        }
}

/// Where a migrated entity enters the indexes: at the cells of its record, at the target first.
pub open spec fn indexed_at<H: StationHandoff>(
    before: MigrationState,
    after: MigrationState,
    source_station: StationId,
    target_station: StationId,
    entity_id: EntityId,
    migration: EntityMigrationReport<H::Transfer>,
    result: Result<EntityMigrationReport<H::Transfer>, CellMigrationError<H::Error>>,
) -> bool {
    match record_at(after.stations, target_station, migration.target_owner) {
        None => {
            &&& result == Err::<EntityMigrationReport<H::Transfer>, CellMigrationError<H::Error>>(
                CellMigrationError::MissingTargetRecord(entity_id),
            )
            &&& after.source_index == before.source_index
            &&& after.target_index == before.target_index
        },
        Some(owner) => {
            &&& placed_at(
                before.target_index,
                after.target_index,
                migration.target_owner,
                owner.cells@,
            )
            &&& match record_at(after.stations, source_station, migration.source_ghost) {
                None => {
                    &&& result == Err::<
                        EntityMigrationReport<H::Transfer>,
                        CellMigrationError<H::Error>,
                    >(CellMigrationError::MissingSourceRecord(entity_id))
                    &&& after.source_index == before.source_index
                },
                Some(copy) => {
                    &&& placed_at(
                        before.source_index,
                        after.source_index,
                        migration.source_ghost,
                        copy.cells@,
                    )
                    &&& result == Ok::<
                        EntityMigrationReport<H::Transfer>,
                        CellMigrationError<H::Error>,
                    >(migration)
                },
            }
        },
    }
}

/// Record that a handle resolves to at a station.
pub open spec fn record_at(
    stations: StationSet,
    station_id: StationId,
    handle: EntityHandle,
) -> Option<EntityRecord> {
    match stations.station(station_id) {
        Some(station) => record_of(station.records@, handle),
        None => None,
    }
}

/// What a pass over candidate entities has come to after the first `done` of them: each entity among
/// them was migrated once, on what the earlier ones left.
pub open spec fn migrated_upto<H: StationHandoff>(
    report: CellMigrationReport<H::Transfer>,
    scan: Scan,
    done: nat,
    ghost_ttl_ticks: u64,
    trace: Seq<MigrationState>,
) -> bool {
    let ids = unique(scan.ids.take(done as int));
    &&& done <= scan.ids.len()
    &&& report.skipped_missing_handles == clamp_usize(scan.missing)
    &&& report.skipped_non_owned == clamp_usize(scan.non_owned)
    &&& report.skipped_duplicate_entities == clamp_usize(
        (scan.duplicates + (done - ids.len())) as nat,
    )
    &&& report.entity_migrations@.len() == ids.len()
    &&& trace.len() == ids.len() + 1
    &&& forall|i: int|
        0 <= i < ids.len() ==> candidate_migrated::<H>(
            trace[i],
            trace[i + 1],
            report.source_station,
            report.target_station,
            ids[i],
            ghost_ttl_ticks,
            Ok(#[trigger] report.entity_migrations@[i]),
        )
}

/// Executes cell-level ownership migration using station-local indexes.
#[derive(Clone, Copy, Debug, Default)]
pub struct CellMigrationExecutor;

impl CellMigrationExecutor {
    /// Migrates owned entities found in `cells` from source station to target station.
    pub fn migrate_cells<H: StationHandoff>(
        stations: &mut StationSet,
        source_index: &mut CellIndex,
        target_index: &mut CellIndex,
        source_station: StationId,
        target_station: StationId,
        cells: &[CellCoord3],
        ghost_ttl_ticks: u64,
    ) -> (result: Result<CellMigrationReport<H::Transfer>, CellMigrationError<H::Error>>)
        requires
            old(stations).wf(),
            old(source_index).wf(),
            old(target_index).wf(),
        ensures
            final(stations).wf(),
            final(source_index).wf(),
            final(target_index).wf(),
            final(stations).registry.ids() == old(stations).registry.ids(),
            exists|
                report: CellMigrationReport<H::Transfer>,
                outcome: Result<(), CellMigrationError<H::Error>>,
            | #[trigger]
                Self::cells_migrated::<H>(
                    (MigrationState {
                        stations: *old(stations),
                        source_index: *old(source_index),
                        target_index: *old(target_index),
                    }),
                    (MigrationState {
                        stations: *final(stations),
                        source_index: *final(source_index),
                        target_index: *final(target_index),
                    }),
                    source_station,
                    target_station,
                    cells@,
                    ghost_ttl_ticks,
                    report,
                    outcome,
                ) && result == (match outcome {
                    Ok(()) => Ok(report),
                    Err(error) => Err(error),
                }),
    {
        let mut report = CellMigrationReport::empty();
        let mut scratch = CellMigrationScratch::new();
        Self::migrate_cells_into::<H>(
            stations,
            source_index,
            target_index,
            source_station,
            target_station,
            cells,
            ghost_ttl_ticks,
            &mut scratch,
            &mut report,
        )?;
        Ok(report)
    }

    /// What a cell migration comes to. The handles in the cells are scanned at the source, and the
    /// candidates are migrated in turn, each entity once. The first failure ends the pass, after
    /// earlier entities have already migrated.
    pub open spec fn cells_migrated<H: StationHandoff>(
        before: MigrationState,
        after: MigrationState,
        source_station: StationId,
        target_station: StationId,
        cells: Seq<CellCoord3>,
        ghost_ttl_ticks: u64,
        report: CellMigrationReport<H::Transfer>,
        result: Result<(), CellMigrationError<H::Error>>,
    ) -> bool {
        &&& report.source_station == source_station
        &&& report.target_station == target_station
        &&& report.scanned_cells@ == cells
        &&& match before.stations.station(source_station) {
            None => {
                &&& result == Err::<(), CellMigrationError<H::Error>>(
                    CellMigrationError::Entity(EntityMigrationError::MissingSource(source_station)),
                )
                &&& report.entity_migrations@.len() == 0
                &&& report.skipped_missing_handles == 0
                &&& report.skipped_non_owned == 0
                &&& report.skipped_duplicate_entities == 0
                &&& after == before
            },
            Some(source) => {
                let scan = scanned(source.records@, handles_over(before.source_index, cells));
                exists|done: nat, trace: Seq<MigrationState>|
                    {
                        &&& #[trigger] migrated_upto::<H>(
                            report,
                            scan,
                            done,
                            ghost_ttl_ticks,
                            trace,
                        )
                        &&& trace[0] == before
                        &&& match result {
                            Ok(()) => done == scan.ids.len() && trace.last() == after,
                            Err(error) => {
                                &&& done < scan.ids.len()
                                &&& !unique(scan.ids.take(done as int)).contains(
                                    scan.ids[done as int],
                                )
                                &&& candidate_migrated::<H>(
                                    trace.last(),
                                    after,
                                    source_station,
                                    target_station,
                                    scan.ids[done as int],
                                    ghost_ttl_ticks,
                                    Err(error),
                                )
                            },
                        }
                    }
            },
        }
    }

    /// Migrates cells using caller-owned reusable working and report storage.
    ///
    /// The report is reset before processing. As with [`Self::migrate_cells`], an error may occur
    /// after earlier entities have already migrated.
    pub fn migrate_cells_into<H: StationHandoff>(
        stations: &mut StationSet,
        source_index: &mut CellIndex,
        target_index: &mut CellIndex,
        source_station: StationId,
        target_station: StationId,
        cells: &[CellCoord3],
        ghost_ttl_ticks: u64,
        scratch: &mut CellMigrationScratch,
        report: &mut CellMigrationReport<H::Transfer>,
    ) -> (result: Result<(), CellMigrationError<H::Error>>)
        requires
            old(stations).wf(),
            old(source_index).wf(),
            old(target_index).wf(),
        ensures
            final(stations).wf(),
            final(source_index).wf(),
            final(target_index).wf(),
            final(stations).registry.ids() == old(stations).registry.ids(),
            Self::cells_migrated::<H>(
                (MigrationState {
                    stations: *old(stations),
                    source_index: *old(source_index),
                    target_index: *old(target_index),
                }),
                (MigrationState {
                    stations: *final(stations),
                    source_index: *final(source_index),
                    target_index: *final(target_index),
                }),
                source_station,
                target_station,
                cells@,
                ghost_ttl_ticks,
                *final(report),
                result,
            ),
    {
        report.source_station = source_station;
        report.target_station = target_station;
        report.scanned_cells.clear();
        report.scanned_cells.extend_from_slice(cells);
        assert(report.scanned_cells@ =~= cells@);
        report.entity_migrations.clear();
        report.skipped_missing_handles = 0;
        report.skipped_non_owned = 0;
        report.skipped_duplicate_entities = 0;
        scratch.clear();
        let ghost scan;
        match stations.get(source_station) {
            None => {
                return Err(
                    CellMigrationError::Entity(EntityMigrationError::MissingSource(source_station)),
                );
            },
            Some(source) => {
                Self::scan_cells::<H::Transfer>(source, source_index, cells, scratch, report);
                proof {
                    scan = scanned(source.records@, handles_over(*source_index, cells@));
                }
            },
        }
        let ghost first = MigrationState {
            stations: *stations,
            source_index: *source_index,
            target_index: *target_index,
        };
        let ghost mut trace: Seq<MigrationState> = seq![first];
        let mut index: usize = 0;
        assert(scan.ids.take(0) =~= Seq::empty());
        while index < scratch.entity_ids.len()
            invariant
                index <= scratch.entity_ids@.len(),
                scratch.entity_ids@ == scan.ids,
                stations.wf(),
                source_index.wf(),
                target_index.wf(),
                stations.registry.ids() == old(stations).registry.ids(),
                first == (MigrationState {
                    stations: *old(stations),
                    source_index: *old(source_index),
                    target_index: *old(target_index),
                }),
                old(stations).station(source_station) matches Some(source) && scan == scanned(
                    source.records@,
                    handles_over(*old(source_index), cells@),
                ),
                report.source_station == source_station,
                report.target_station == target_station,
                report.scanned_cells@ == cells@,
                trace.len() > 0,
                trace[0] == first,
                trace.last() == (MigrationState {
                    stations: *stations,
                    source_index: *source_index,
                    target_index: *target_index,
                }),
                migrated_upto::<H>(*report, scan, index as nat, ghost_ttl_ticks, trace),
                forall|id: EntityId| #[trigger]
                    unique(scan.ids.take(index as int)).contains(id)
                        <==> scratch.seen_entities@.contains(id.0),
            decreases scratch.entity_ids@.len() - index,
        {
            broadcast use vstd::std_specs::hash::group_hash_axioms;

            let ghost done = index as nat;
            let entity_id = scratch.entity_ids[index];
            let ghost known = unique(scan.ids.take(index as int));
            proof {
                assert(scan.ids.take(index + 1).drop_last() =~= scan.ids.take(index as int));
                law_each_entity_migrates_once(scan.ids.take(index as int));
            }
            if !scratch.seen_entities.insert(entity_id.0) {
                report.skipped_duplicate_entities =
                report.skipped_duplicate_entities.saturating_add(1);
                index = index + 1;
                assert(known.contains(entity_id));
                assert(unique(scan.ids.take(index as int)) == known);
                continue ;
            }
            assert(!known.contains(entity_id));
            let migration = match Self::migrate_candidate::<H>(
                stations,
                source_index,
                target_index,
                source_station,
                target_station,
                entity_id,
                ghost_ttl_ticks,
            ) {
                Ok(migration) => migration,
                Err(error) => {
                    proof {
                        let after = MigrationState {
                            stations: *stations,
                            source_index: *source_index,
                            target_index: *target_index,
                        };
                        assert(candidate_migrated::<H>(
                            trace.last(),
                            after,
                            source_station,
                            target_station,
                            scan.ids[done as int],
                            ghost_ttl_ticks,
                            Err(error),
                        ));
                        assert(first.stations.station(source_station) is Some);
                        assert(scan == scanned(
                            first.stations.station(source_station)->0.records@,
                            handles_over(first.source_index, cells@),
                        ));
                        assert(migrated_upto::<H>(*report, scan, done, ghost_ttl_ticks, trace));
                        assert(Self::cells_migrated::<H>(
                            first,
                            after,
                            source_station,
                            target_station,
                            cells@,
                            ghost_ttl_ticks,
                            *report,
                            Err(error),
                        ));
                    }
                    return Err(error);
                },
            };
            let ghost reached = trace;
            let ghost reported = report.entity_migrations@;
            proof {
                trace = trace.push(
                    MigrationState {
                        stations: *stations,
                        source_index: *source_index,
                        target_index: *target_index,
                    },
                );
            }
            report.entity_migrations.push(migration);
            index = index + 1;
            proof {
                let now = unique(scan.ids.take(index as int));
                assert(now == known.push(entity_id));
                assert forall|i: int| 0 <= i < now.len() implies candidate_migrated::<H>(
                    trace[i],
                    trace[i + 1],
                    report.source_station,
                    report.target_station,
                    now[i],
                    ghost_ttl_ticks,
                    Ok(#[trigger] report.entity_migrations@[i]),
                ) by {
                    assert(trace[i] == reached[i]);
                    if i < known.len() {
                        assert(trace[i + 1] == reached[i + 1]);
                        assert(report.entity_migrations@[i] == reported[i]);
                        assert(now[i] == known[i]);
                    }
                }
                assert forall|id: EntityId| #[trigger] now.contains(id)
                    <==> scratch.seen_entities@.contains(id.0) by {
                    if known.contains(id) {
                        let i = choose|i: int| 0 <= i < known.len() && known[i] == id;
                        assert(now[i] == id);
                    }
                    if id == entity_id {
                        assert(now[known.len() as int] == id);
                    }
                    if now.contains(id) {
                        let i = choose|i: int| 0 <= i < now.len() && now[i] == id;
                        if i < known.len() {
                            assert(known[i] == id);
                            assert(known.contains(id));
                        }
                    }
                }
            }
        }
        proof {
            let after = MigrationState {
                stations: *stations,
                source_index: *source_index,
                target_index: *target_index,
            };
            assert(scan == scanned(
                first.stations.station(source_station)->0.records@,
                handles_over(first.source_index, cells@),
            ));
            assert(migrated_upto::<H>(*report, scan, scan.ids.len(), ghost_ttl_ticks, trace));
            assert(Self::cells_migrated::<H>(
                first,
                after,
                source_station,
                target_station,
                cells@,
                ghost_ttl_ticks,
                *report,
                Ok(()),
            ));
        }
        Ok(())
    }

    /// Collects the authoritative entities in the cells, and counts the handles passed over.
    fn scan_cells<T>(
        source: &Station,
        source_index: &CellIndex,
        cells: &[CellCoord3],
        scratch: &mut CellMigrationScratch,
        report: &mut CellMigrationReport<T>,
    )
        requires
            source_index.wf(),
            old(scratch).seen_handles@ == Set::<u64>::empty(),
            old(scratch).entity_ids@.len() == 0,
            old(report).skipped_missing_handles == 0,
            old(report).skipped_non_owned == 0,
            old(report).skipped_duplicate_entities == 0,
        ensures
            ({
                let scan = scanned(source.records@, handles_over(*source_index, cells@));
                &&& final(scratch).entity_ids@ == scan.ids
                &&& final(report).skipped_missing_handles == clamp_usize(scan.missing)
                &&& final(report).skipped_non_owned == clamp_usize(scan.non_owned)
                &&& final(report).skipped_duplicate_entities == clamp_usize(scan.duplicates)
            }),
            final(scratch).seen_entities == old(scratch).seen_entities,
            final(report).source_station == old(report).source_station,
            final(report).target_station == old(report).target_station,
            final(report).scanned_cells == old(report).scanned_cells,
            final(report).entity_migrations == old(report).entity_migrations,
    {
        let mut at: usize = 0;
        let ghost mut handles_done: Seq<EntityHandle> = Seq::empty();
        assert(cells@.take(0) =~= Seq::empty());
        assert(scratch.entity_ids@ =~= Seq::empty());
        while at < cells.len()
            invariant
                at <= cells@.len(),
                source_index.wf(),
                handles_done == handles_over(*source_index, cells@.take(at as int)),
                scans(*scratch, *report, scanned(source.records@, handles_done)),
                scratch.seen_entities == old(scratch).seen_entities,
                report.source_station == old(report).source_station,
                report.target_station == old(report).target_station,
                report.scanned_cells == old(report).scanned_cells,
                report.entity_migrations == old(report).entity_migrations,
            decreases cells@.len() - at,
        {
            let handles = source_index.handles_in_cell(cells[at]);
            let mut index: usize = 0;
            assert(handles_done + handles@.take(0) =~= handles_done);
            while index < handles.len()
                invariant
                    index <= handles@.len(),
                    scans(
                        *scratch,
                        *report,
                        scanned(source.records@, handles_done + handles@.take(index as int)),
                    ),
                    scratch.seen_entities == old(scratch).seen_entities,
                    report.source_station == old(report).source_station,
                    report.target_station == old(report).target_station,
                    report.scanned_cells == old(report).scanned_cells,
                    report.entity_migrations == old(report).entity_migrations,
                decreases handles@.len() - index,
            {
                broadcast use vstd::std_specs::hash::group_hash_axioms;

                let handle = handles[index];
                let ghost seen = scratch.seen_handles@;
                proof {
                    let longer = handles_done + handles@.take(index + 1);
                    assert(longer.drop_last() =~= handles_done + handles@.take(index as int));
                    assert(longer.last() == handle);
                }
                index = index + 1;
                if !scratch.seen_handles.insert(handle_key(handle)) {
                    report.skipped_duplicate_entities =
                    report.skipped_duplicate_entities.saturating_add(1);
                    assert(scratch.seen_handles@ =~= seen);
                    continue ;
                }
                match source.get(handle) {
                    None => {
                        report.skipped_missing_handles =
                        report.skipped_missing_handles.saturating_add(1);
                    },
                    Some(record) => {
                        if record.is_owned() {
                            scratch.entity_ids.push(record.id);
                        } else {
                            report.skipped_non_owned = report.skipped_non_owned.saturating_add(1);
                        }
                    },
                }
            }
            proof {
                assert(handles@.take(index as int) =~= handles@);
                assert(cells@.take(at + 1).drop_last() =~= cells@.take(at as int));
                handles_done = handles_done + handles@;
            }
            at = at + 1;
        }
        assert(cells@.take(at as int) =~= cells@);
    }

    /// Migrates one candidate and updates both indexes.
    fn migrate_candidate<H: StationHandoff>(
        stations: &mut StationSet,
        source_index: &mut CellIndex,
        target_index: &mut CellIndex,
        source_station: StationId,
        target_station: StationId,
        entity_id: EntityId,
        ghost_ttl_ticks: u64,
    ) -> (result: Result<EntityMigrationReport<H::Transfer>, CellMigrationError<H::Error>>)
        requires
            old(stations).wf(),
            old(source_index).wf(),
            old(target_index).wf(),
        ensures
            final(stations).wf(),
            final(source_index).wf(),
            final(target_index).wf(),
            final(stations).registry.ids() == old(stations).registry.ids(),
            candidate_migrated::<H>(
                (MigrationState {
                    stations: *old(stations),
                    source_index: *old(source_index),
                    target_index: *old(target_index),
                }),
                (MigrationState {
                    stations: *final(stations),
                    source_index: *final(source_index),
                    target_index: *final(target_index),
                }),
                source_station,
                target_station,
                entity_id,
                ghost_ttl_ticks,
                result,
            ),
    {
        let ghost before = MigrationState {
            stations: *stations,
            source_index: *source_index,
            target_index: *target_index,
        };
        let outcome = EntityMigrationExecutor::migrate_entity::<H>(
            stations,
            entity_id,
            source_station,
            target_station,
            ghost_ttl_ticks,
        );
        let ghost moved = outcome;
        let result = match outcome {
            Ok(migration) => Self::index_migrated::<H>(
                stations,
                source_index,
                target_index,
                source_station,
                target_station,
                entity_id,
                migration,
            ),
            Err(error) => Err(CellMigrationError::Entity(error)),
        };
        proof {
            let after = MigrationState {
                stations: *stations,
                source_index: *source_index,
                target_index: *target_index,
            };
            assert(entity_migrated::<H>(
                before.stations,
                after.stations,
                entity_id,
                source_station,
                target_station,
                ghost_ttl_ticks,
                moved,
            ));
            assert(candidate_migrated::<H>(
                before,
                after,
                source_station,
                target_station,
                entity_id,
                ghost_ttl_ticks,
                result,
            ));
        }
        result
    }

    /// Puts a migrated entity into the target's index, and its ghost into the source's.
    fn index_migrated<H: StationHandoff>(
        stations: &StationSet,
        source_index: &mut CellIndex,
        target_index: &mut CellIndex,
        source_station: StationId,
        target_station: StationId,
        entity_id: EntityId,
        migration: EntityMigrationReport<H::Transfer>,
    ) -> (result: Result<EntityMigrationReport<H::Transfer>, CellMigrationError<H::Error>>)
        requires
            stations.wf(),
            stations.station(source_station) is Some,
            stations.station(target_station) is Some,
            old(source_index).wf(),
            old(target_index).wf(),
        ensures
            final(source_index).wf(),
            final(target_index).wf(),
            indexed_at::<H>(
                (MigrationState {
                    stations: *stations,
                    source_index: *old(source_index),
                    target_index: *old(target_index),
                }),
                (MigrationState {
                    stations: *stations,
                    source_index: *final(source_index),
                    target_index: *final(target_index),
                }),
                source_station,
                target_station,
                entity_id,
                migration,
                result,
            ),
    {
        match stations.get(target_station) {
            None => {
                return Err(
                    CellMigrationError::Entity(EntityMigrationError::MissingTarget(target_station)),
                );
            },
            Some(target) => match target.get(migration.target_owner) {
                None => {
                    return Err(CellMigrationError::MissingTargetRecord(entity_id));
                },
                Some(record) => {
                    target_index.upsert(migration.target_owner, record.cells.as_slice());
                },
            },
        }
        match stations.get(source_station) {
            None => Err(
                CellMigrationError::Entity(EntityMigrationError::MissingSource(source_station)),
            ),
            Some(source) => match source.get(migration.source_ghost) {
                None => Err(CellMigrationError::MissingSourceRecord(entity_id)),
                Some(record) => {
                    source_index.upsert(migration.source_ghost, record.cells.as_slice());
                    Ok(migration)
                },
            },
        }
    }
}

/// Storage and report hold a scan.
spec fn scans<T>(scratch: CellMigrationScratch, report: CellMigrationReport<T>, scan: Scan) -> bool {
    &&& scratch.seen_handles@ == scan.seen
    &&& scratch.entity_ids@ == scan.ids
    &&& report.skipped_missing_handles == clamp_usize(scan.missing)
    &&& report.skipped_non_owned == clamp_usize(scan.non_owned)
    &&& report.skipped_duplicate_entities == clamp_usize(scan.duplicates)
}

/// A migrated entity stands in the target's index at the cells of its record there, and in no other
/// cell; so does its ghost in the source's index.
pub proof fn law_migrated_entities_are_indexed_once<H: StationHandoff>(
    before: MigrationState,
    after: MigrationState,
    source_station: StationId,
    target_station: StationId,
    entity_id: EntityId,
    ghost_ttl_ticks: u64,
    migration: EntityMigrationReport<H::Transfer>,
    cell: CellCoord3,
)
    requires
        candidate_migrated::<H>(
            before,
            after,
            source_station,
            target_station,
            entity_id,
            ghost_ttl_ticks,
            Ok(migration),
        ),
    ensures
        record_at(after.stations, target_station, migration.target_owner) matches Some(owner) && (
        after.target_index.handles_in(cell).contains(migration.target_owner)
            <==> owner.cells@.contains(cell)),
        record_at(after.stations, source_station, migration.source_ghost) matches Some(copy) && (
        after.source_index.handles_in(cell).contains(migration.source_ghost)
            <==> copy.cells@.contains(cell)),
{
    let owner = record_at(after.stations, target_station, migration.target_owner)->0;
    let copy = record_at(after.stations, source_station, migration.source_ghost)->0;
    lemma_placed_once(
        before.target_index,
        after.target_index,
        migration.target_owner,
        owner.cells@,
        cell,
    );
    lemma_placed_once(
        before.source_index,
        after.source_index,
        migration.source_ghost,
        copy.cells@,
        cell,
    );
}

proof fn lemma_placed_once(
    before: CellIndex,
    after: CellIndex,
    handle: EntityHandle,
    places: Seq<CellCoord3>,
    cell: CellCoord3,
)
    requires
        placed_at(before, after, handle, places),
    ensures
        after.handles_in(cell).contains(handle) <==> places.contains(cell),
{
    law_removal_leaves_the_other_handles(before.handles_in(cell), handle);
    let handles = after.handles_in(cell);
    if places.contains(cell) {
        assert(handles.last() == handle);
        assert(handles[handles.len() - 1] == handle);
    }
}

} // verus!
