//! Stations: registries, barriers, migration, splits, scheduling, load samples and events.

use sectorsync::barrier::{
    BarrierController, BarrierRuntimeError, BarrierSnapshotScratch, CommandQueueMode, SnapshotMeta,
    SnapshotVersion, StationSnapshot,
};
use sectorsync::barrier_upgrade::{
    BarrierUpgradeError, BarrierUpgradeExecutor, RuntimeUpgradeHook, StationRestore,
};
use sectorsync::cell_index::CellIndex;
use sectorsync::event_router::{EventRouter, EventRouterError, PushOutcome, StationEventQueue};
use sectorsync::ids::{
    BarrierId, BarrierState, EntityHandle, EntityId, EventId, EventKind, EventPriority, InstanceId,
    NodeId, OwnerEpoch, StationEvent, StationId, Tick,
};
use sectorsync::load_sampler::{
    CellLoadSample, StationLoadSample, StationLoadSampler, StationLoadSamplerScratch,
};
use sectorsync::migration::{
    CellMigrationExecutor, CellMigrationReport, CellMigrationScratch, EntityMigrationError,
    EntityMigrationExecutor, StationHandoff,
};
use sectorsync::ownership::{CellOwnershipTable, SplitProposal};
use sectorsync::split_execution::{SplitScheduleExecutionError, SplitScheduleExecutionScratch};
use sectorsync::split_scheduler::{
    HotspotDecision, HotspotReason, HotspotSeverity, SplitAction, SplitSchedule, SplitScheduler, SplitSchedulerConfig,
    SplitSchedulerScratch, SplitSchedulerState,
};
use sectorsync::station::{CellCoord3, EntityRecord, EntityRole, Station, StationConfig};
use sectorsync::station_registry::STATION_LOOKUP_INDEX_THRESHOLD;
use sectorsync::station_scheduler::{
    compare_station_schedule_candidates, prioritize_station_candidates, station_schedule_score,
    StationScheduleCandidate, StationScheduleConfig, StationScheduleScratch, StationScheduler,
};
use sectorsync::station_set::{BarrierScope, StationIndexSet, StationSet};

fn station(station_id: u32, instance_id: u64) -> Station {
    Station::new(StationConfig {
        station_id: StationId::new(station_id),
        node_id: NodeId::new(0),
        instance_id: InstanceId::new(instance_id),
        tick_rate_hz: 20,
    })
}

fn spawn_owned(station: &mut Station, id: u64, cell: CellCoord3) -> EntityHandle {
    let handle = EntityHandle::new(station.len() as u32, 0);
    station.put(EntityRecord {
        handle,
        id: EntityId::new(id),
        role: EntityRole::Authority {
            epoch: OwnerEpoch::new(1),
        },
        cells: vec![cell],
    });
    handle
}

fn advance_twice(stations: &mut StationSet) {
    for index in 0..stations.len() {
        let station = stations.get_at_mut(index).expect("station exists");
        station.advance_tick();
        station.advance_tick();
    }
}

fn entity_count(index: &CellIndex) -> usize {
    let mut cells = Vec::new();
    index.cell_occupancy_into(&mut cells);
    cells
        .into_iter()
        .map(|cell| index.handles_in_cell(cell).len())
        .sum()
}

/// Bounded event queue that hands events out once their tick has come.
struct Events {
    limit: usize,
    waiting: Vec<StationEvent>,
}

impl StationEventQueue for Events {
    type Limits = usize;
    type Error = &'static str;

    fn with_limits(limits: usize) -> Self {
        Self {
            limit: limits,
            waiting: Vec::new(),
        }
    }

    fn push(&mut self, event: StationEvent) -> Result<PushOutcome, Self::Error> {
        if self.waiting.len() < self.limit {
            self.waiting.push(event);
            return Ok(PushOutcome::Queued);
        }
        let oldest = self
            .waiting
            .iter()
            .position(|queued| queued.priority == EventPriority::BestEffort)
            .ok_or("queue full")?;
        self.waiting.remove(oldest);
        self.waiting.push(event);
        Ok(PushOutcome::DroppedOldestBestEffort)
    }

    fn drain_ready_into(&mut self, current_tick: Tick, ready: &mut Vec<StationEvent>) -> usize {
        let before = ready.len();
        let mut index = 0;
        while index < self.waiting.len() {
            if self.waiting[index].target_tick <= current_tick {
                ready.push(self.waiting.remove(index));
            } else {
                index += 1;
            }
        }
        ready.len() - before
    }

    fn len(&self) -> usize {
        self.waiting.len()
    }
}

fn event(id: u64, source: u32, target: u32, target_tick: u64, kind: u32) -> StationEvent {
    StationEvent {
        id: EventId::new(id),
        source: StationId::new(source),
        target: StationId::new(target),
        source_tick: Tick::new(0),
        target_tick: Tick::new(target_tick),
        priority: EventPriority::Important,
        kind: EventKind::Custom(kind),
    }
}

/// Handoff by copying records between stations.
struct Handoff;

#[derive(Clone, Debug, PartialEq, Eq)]
struct Transfer {
    record: EntityRecord,
    source_station: StationId,
    target_station: StationId,
    target_epoch: OwnerEpoch,
    expires_at: Tick,
}

impl StationHandoff for Handoff {
    type Transfer = Transfer;
    type Error = &'static str;

    fn next_owner_epoch(station: Station) -> (Station, OwnerEpoch) {
        let epoch = OwnerEpoch::new(station.len() as u64 + 2);
        (station, epoch)
    }

    fn prepare_outgoing_handoff(
        source: Station,
        entity_id: EntityId,
        target_station: StationId,
        target_epoch: OwnerEpoch,
        source_ghost_expires_at: Tick,
    ) -> (Station, Result<Transfer, Self::Error>) {
        let Some(record) = source.get_by_id(entity_id).cloned() else {
            return (source, Err("no such entity"));
        };
        if !record.is_owned() {
            return (source, Err("not the owner"));
        }
        let transfer = Transfer {
            record,
            source_station: source.config().station_id,
            target_station,
            target_epoch,
            expires_at: source_ghost_expires_at,
        };
        (source, Ok(transfer))
    }

    fn prewarm_handoff_ghost(
        mut target: Station,
        transfer: &Transfer,
    ) -> (Station, Result<(), Self::Error>) {
        let handle = EntityHandle::new(target.len() as u32, 0);
        target.put(EntityRecord {
            handle,
            role: EntityRole::Replica {
                owner_station: transfer.source_station,
                epoch: transfer.record.role.owner_epoch(),
                expires_at: transfer.expires_at,
            },
            ..transfer.record.clone()
        });
        (target, Ok(()))
    }

    fn commit_incoming_handoff(
        mut target: Station,
        transfer: &Transfer,
    ) -> (Station, Result<EntityHandle, Self::Error>) {
        let Some(ghost) = target.get_by_id(transfer.record.id).cloned() else {
            return (target, Err("ghost was not prewarmed"));
        };
        target.put(EntityRecord {
            role: EntityRole::Authority {
                epoch: transfer.target_epoch,
            },
            ..ghost
        });
        (target, Ok(ghost.handle))
    }

    fn commit_outgoing_handoff(
        mut source: Station,
        transfer: &Transfer,
    ) -> (Station, Result<EntityHandle, Self::Error>) {
        source.put(EntityRecord {
            role: EntityRole::Replica {
                owner_station: transfer.target_station,
                epoch: transfer.target_epoch,
                expires_at: transfer.expires_at,
            },
            ..transfer.record.clone()
        });
        (source, Ok(transfer.record.handle))
    }
}

#[test]
fn station_set_indexes_first_slot_and_reserves_both_storage_classes() {
    let mut stations = StationSet::with_capacity(3);
    let mut duplicate = station(1, 99);
    duplicate.advance_tick();
    stations.push(station(1, 10));
    stations.push(duplicate);
    stations.push(station(2, 10));

    assert!(stations.station_capacity() >= 3);
    assert!(!stations.lookup_index_active());
    assert_eq!(
        stations
            .get(StationId::new(1))
            .expect("first exists")
            .tick(),
        Tick::new(0)
    );
    let (first, second) = stations
        .get_pair_mut(StationId::new(1), StationId::new(2))
        .expect("distinct indexed Stations should borrow");
    first.advance_tick();
    second.advance_tick();
    assert_eq!(
        stations
            .get(StationId::new(1))
            .expect("first exists")
            .tick(),
        Tick::new(1)
    );
    assert_eq!(
        stations
            .get(StationId::new(2))
            .expect("second exists")
            .tick(),
        Tick::new(1)
    );

    let lookup_capacity = stations.lookup_capacity();
    stations.reserve(4);
    assert!(stations.station_capacity() >= stations.len().saturating_add(4));
    assert!(stations.lookup_capacity() >= lookup_capacity);
}

#[test]
fn station_index_set_replaces_in_place_and_indexes_mutable_pairs() {
    let first_id = StationId::new(1);
    let second_id = StationId::new(2);
    let first_handle = EntityHandle::new(1, 0);
    let second_handle = EntityHandle::new(2, 0);
    let mut indexes = StationIndexSet::with_capacity(2);
    indexes.insert(first_id, CellIndex::new());
    indexes.insert(second_id, CellIndex::new());

    let mut replacement = CellIndex::new();
    replacement.upsert(first_handle, &[CellCoord3::new(0, 0, 0)]);
    indexes.insert(first_id, replacement);
    assert_eq!(indexes.len(), 2);
    assert_eq!(
        indexes
            .iter()
            .into_iter()
            .map(|(id, _)| id)
            .collect::<Vec<_>>(),
        vec![first_id, second_id]
    );
    assert_eq!(
        entity_count(indexes.get(first_id).expect("first index exists")),
        1
    );

    let (first, second) = indexes
        .get_pair_mut(first_id, second_id)
        .expect("distinct indexed cells should borrow");
    first.remove(first_handle);
    second.upsert(second_handle, &[CellCoord3::new(1, 0, 0)]);
    assert_eq!(
        entity_count(indexes.get(first_id).expect("first index exists")),
        0
    );
    assert_eq!(
        entity_count(indexes.get(second_id).expect("second index exists")),
        1
    );
    assert!(indexes.index_capacity() >= 2);
    assert!(!indexes.lookup_index_active());
}

#[test]
fn station_registries_activate_lookup_index_at_adaptive_threshold() {
    let mut stations = StationSet::with_capacity(STATION_LOOKUP_INDEX_THRESHOLD);
    let mut indexes = StationIndexSet::with_capacity(STATION_LOOKUP_INDEX_THRESHOLD);
    for raw_id in 1..=STATION_LOOKUP_INDEX_THRESHOLD {
        let station_id = StationId::new(u32::try_from(raw_id).expect("threshold fits u32"));
        stations.push(station(station_id.get(), 10));
        indexes.insert(station_id, CellIndex::new());
        if raw_id < STATION_LOOKUP_INDEX_THRESHOLD {
            assert!(!stations.lookup_index_active());
            assert!(!indexes.lookup_index_active());
        }
    }

    assert!(stations.lookup_index_active());
    assert!(indexes.lookup_index_active());
    assert!(stations.lookup_capacity() >= STATION_LOOKUP_INDEX_THRESHOLD);
    assert!(indexes.lookup_capacity() >= STATION_LOOKUP_INDEX_THRESHOLD);
    let last =
        StationId::new(u32::try_from(STATION_LOOKUP_INDEX_THRESHOLD).expect("threshold fits u32"));
    assert_eq!(
        stations
            .get(last)
            .expect("last Station exists")
            .config()
            .station_id,
        last
    );
    assert!(indexes.get(last).is_some());

    let removed_id = StationId::new(2);
    let removed_station = stations.remove(removed_id).expect("Station should remove");
    let removed_index = indexes.remove(removed_id).expect("index should remove");
    assert_eq!(removed_station.config().station_id, removed_id);
    assert_eq!(entity_count(&removed_index), 0);
    assert!(stations.get(removed_id).is_none());
    assert!(indexes.get(removed_id).is_none());
    assert_eq!(
        stations
            .get(last)
            .expect("shifted Station resolves")
            .config()
            .station_id,
        last
    );
    assert!(indexes.get(last).is_some());
    assert_eq!(
        stations
            .iter()
            .into_iter()
            .map(|station| station.config().station_id)
            .nth(1),
        Some(StationId::new(3))
    );
    assert_eq!(
        indexes.iter().into_iter().nth(1).map(|(id, _)| id),
        Some(StationId::new(3))
    );
    assert!(stations.lookup_index_active());
    assert!(indexes.lookup_index_active());
}

#[test]
fn barrier_freezes_snapshots_and_resumes_instance_scope() {
    let mut stations = StationSet::default();
    stations.push(station(1, 10));
    stations.push(station(2, 10));

    advance_twice(&mut stations);

    let mut controller = BarrierController::default();
    let requested = controller
        .request(
            &stations,
            BarrierId::new(7),
            BarrierScope::Instance(InstanceId::new(10)),
            Tick::new(2),
            CommandQueueMode::Buffer,
        )
        .expect("request should work");
    assert_eq!(requested.state, BarrierState::WaitingTickBoundary);

    let frozen = controller.poll(&stations).expect("poll should work");
    assert_eq!(frozen.state, BarrierState::Frozen);
    assert_eq!(frozen.frozen_count, 2);

    let mut scratch = BarrierSnapshotScratch::new();
    scratch.reserve(2, 1);
    let snapshots = controller
        .export_snapshots_into(&stations, SnapshotVersion::default(), &mut scratch)
        .expect("reusable snapshot should work while frozen");
    assert_eq!(snapshots.len(), 2);
    let retained_slots = scratch.retained_snapshot_slots();
    let retained_entities = scratch.retained_entity_capacity();
    scratch.reserve(2, 1);
    let snapshots = controller
        .export_snapshots_into(&stations, SnapshotVersion::default(), &mut scratch)
        .expect("second reusable snapshot should work while frozen");
    assert_eq!(snapshots.len(), 2);
    assert_eq!(scratch.retained_snapshot_slots(), retained_slots);
    assert_eq!(scratch.retained_entity_capacity(), retained_entities);

    let metrics = controller.resume().expect("resume should work");
    assert_eq!(metrics.station_count, 2);
    assert_eq!(metrics.snapshots_exported, 4);
    assert_eq!(controller.progress().state, BarrierState::Running);
}

#[derive(Default)]
struct MoveSnapshotUpgrade {
    pre: usize,
    migrations: usize,
    post: usize,
}

impl RuntimeUpgradeHook for MoveSnapshotUpgrade {
    fn pre_upgrade(&mut self, meta: &SnapshotMeta) {
        self.pre = self.pre.saturating_add(1);
        assert_eq!(meta.version.runtime_version, 2);
    }

    fn migrate_state(&mut self, mut snapshot: StationSnapshot) -> StationSnapshot {
        self.migrations = self.migrations.saturating_add(1);
        for entity in &mut snapshot.entities {
            for cell in &mut entity.cells {
                cell.x += 10;
            }
        }
        snapshot
    }

    fn post_upgrade(&mut self, meta: &SnapshotMeta) {
        self.post = self.post.saturating_add(1);
        assert_eq!(meta.version.runtime_version, 2);
    }
}

/// Restores a station from its snapshot as it is.
struct PlainRestore;

impl StationRestore for PlainRestore {
    type Error = &'static str;

    fn restore(config: StationConfig, snapshot: StationSnapshot) -> Result<Station, Self::Error> {
        let mut station = Station::new(config);
        while station.tick() < snapshot.meta.tick {
            station.advance_tick();
        }
        for entity in snapshot.entities {
            station.put(entity);
        }
        Ok(station)
    }
}

/// Refuses every snapshot.
struct NoRestore;

impl StationRestore for NoRestore {
    type Error = &'static str;

    fn restore(_config: StationConfig, _snapshot: StationSnapshot) -> Result<Station, Self::Error> {
        Err("unreadable")
    }
}

#[test]
fn barrier_upgrade_executor_migrates_and_restores_frozen_snapshots() {
    let mut first = station(1, 10);
    spawn_owned(&mut first, 100, CellCoord3::new(1, 2, 3));
    let mut stations = StationSet::default();
    stations.push(first);
    stations.push(station(2, 10));

    advance_twice(&mut stations);

    let mut controller = BarrierController::default();
    controller
        .request(
            &stations,
            BarrierId::new(8),
            BarrierScope::Instance(InstanceId::new(10)),
            Tick::new(2),
            CommandQueueMode::Buffer,
        )
        .expect("request should work");
    assert_eq!(
        controller.poll(&stations).expect("poll should work").state,
        BarrierState::Frozen
    );

    let mut hook = MoveSnapshotUpgrade::default();
    let version = SnapshotVersion { runtime_version: 2 };
    let report = BarrierUpgradeExecutor::migrate_frozen::<MoveSnapshotUpgrade, PlainRestore>(
        &mut controller,
        &mut stations,
        version,
        &mut hook,
    )
    .expect("upgrade should migrate frozen snapshots");

    assert_eq!(report.version, version);
    assert_eq!(report.snapshots_migrated, 2);
    assert_eq!(report.stations_restored, 2);
    assert_eq!(report.entities_restored, 1);
    assert_eq!(hook.pre, 2);
    assert_eq!(hook.migrations, 2);
    assert_eq!(hook.post, 2);
    let moved = stations
        .get(StationId::new(1))
        .expect("station should exist")
        .get_by_id(EntityId::new(100))
        .expect("entity should restore");
    assert_eq!(moved.cells, vec![CellCoord3::new(11, 2, 3)]);
    assert_eq!(controller.progress().state, BarrierState::Frozen);

    let metrics = controller.resume().expect("resume should work");
    assert_eq!(metrics.snapshots_exported, 2);
    assert_eq!(controller.progress().state, BarrierState::Running);
}

#[test]
fn failed_restore_leaves_the_stations_as_they_were() {
    let mut stations = StationSet::default();
    stations.push(station(1, 10));
    advance_twice(&mut stations);
    let mut controller = BarrierController::default();
    controller
        .request(
            &stations,
            BarrierId::new(8),
            BarrierScope::Instance(InstanceId::new(10)),
            Tick::new(2),
            CommandQueueMode::Buffer,
        )
        .expect("request should work");
    controller.poll(&stations).expect("poll should work");
    let mut hook = MoveSnapshotUpgrade::default();
    let error = BarrierUpgradeExecutor::migrate_frozen::<MoveSnapshotUpgrade, NoRestore>(
        &mut controller,
        &mut stations,
        SnapshotVersion { runtime_version: 2 },
        &mut hook,
    )
    .expect_err("restore should fail");
    assert_eq!(
        error,
        BarrierUpgradeError::Restore {
            station_id: StationId::new(1),
            error: "unreadable"
        }
    );
    assert_eq!(
        stations.get(StationId::new(1)).expect("station").tick(),
        Tick::new(2)
    );
}

#[test]
fn barrier_errors_name_their_reason() {
    let mut stations = StationSet::default();
    stations.push(station(1, 10));
    let mut controller = BarrierController::default();
    assert_eq!(
        controller.poll(&stations),
        Err(BarrierRuntimeError::NoActiveBarrier)
    );
    let elsewhere = BarrierScope::Instance(InstanceId::new(77));
    assert_eq!(
        controller.request(
            &stations,
            BarrierId::new(1),
            elsewhere,
            Tick::new(2),
            CommandQueueMode::Reject,
        ),
        Err(BarrierRuntimeError::EmptyScope(elsewhere))
    );
    controller
        .request(
            &stations,
            BarrierId::new(1),
            BarrierScope::Instance(InstanceId::new(10)),
            Tick::new(2),
            CommandQueueMode::Reject,
        )
        .expect("request should work");
    assert_eq!(
        controller.request(
            &stations,
            BarrierId::new(2),
            BarrierScope::Instance(InstanceId::new(10)),
            Tick::new(2),
            CommandQueueMode::Reject,
        ),
        Err(BarrierRuntimeError::AlreadyActive(BarrierId::new(1)))
    );
    assert_eq!(
        controller.poll(&stations).expect("poll should work").state,
        BarrierState::WaitingTickBoundary
    );
    assert_eq!(
        controller.export_snapshots(&stations, SnapshotVersion::default()),
        Err(BarrierRuntimeError::NotFrozen(
            BarrierState::WaitingTickBoundary
        ))
    );
    stations.remove(StationId::new(1));
    assert_eq!(
        controller.poll(&stations),
        Err(BarrierRuntimeError::MissingStation(StationId::new(1)))
    );
}

#[test]
fn migration_executor_moves_owner_and_leaves_source_ghost() {
    let mut stations = StationSet::default();
    let mut source = station(1, 10);
    spawn_owned(&mut source, 99, CellCoord3::new(1, 2, 3));
    stations.push(source);
    stations.push(station(2, 10));

    let report = EntityMigrationExecutor::migrate_entity::<Handoff>(
        &mut stations,
        EntityId::new(99),
        StationId::new(1),
        StationId::new(2),
        4,
    )
    .expect("migration should work");

    assert_eq!(report.transfer.target_station, StationId::new(2));
    assert!(!stations
        .get(StationId::new(1))
        .expect("source")
        .get_by_id(EntityId::new(99))
        .expect("source ghost")
        .is_owned());
    assert!(stations
        .get(StationId::new(2))
        .expect("target")
        .get_by_id(EntityId::new(99))
        .expect("target owner")
        .is_owned());
}

#[test]
fn migration_errors_name_the_station() {
    let mut stations = StationSet::default();
    stations.push(station(1, 10));
    let one = StationId::new(1);
    let two = StationId::new(2);
    let mut migrate = |source, target| {
        EntityMigrationExecutor::migrate_entity::<Handoff>(
            &mut stations,
            EntityId::new(5),
            source,
            target,
            4,
        )
        .expect_err("migration should fail")
    };
    assert_eq!(
        migrate(one, one),
        EntityMigrationError::SameSourceAndTarget(one)
    );
    assert_eq!(migrate(two, one), EntityMigrationError::MissingSource(two));
    assert_eq!(migrate(one, two), EntityMigrationError::MissingTarget(two));
    stations.push(station(2, 10));
    assert_eq!(
        EntityMigrationExecutor::migrate_entity::<Handoff>(
            &mut stations,
            EntityId::new(5),
            one,
            two,
            4,
        ),
        Err(EntityMigrationError::Station("no such entity"))
    );
}

#[test]
fn event_router_delays_until_target_tick_and_scheduler_drains() {
    let mut stations = StationSet::default();
    stations.push(station(1, 10));
    stations.push(station(2, 10));

    let mut router: EventRouter<Events> = EventRouter::new(1024);
    router.register_stations(&stations);
    router
        .route(StationEvent {
            id: EventId::new(1),
            source: StationId::new(1),
            target: StationId::new(2),
            source_tick: Tick::new(0),
            target_tick: Tick::new(2),
            priority: EventPriority::Critical,
            kind: EventKind::Custom(7),
        })
        .expect("route should work");

    let mut scheduler = StationScheduler::default();
    let mut drained = Vec::new();
    scheduler.advance_all(&mut stations);
    scheduler
        .drain_ready_events_into(&stations, &mut router, &mut drained)
        .expect("drain should work");
    assert!(drained.is_empty());

    scheduler.advance_all(&mut stations);
    scheduler
        .drain_ready_events_into(&stations, &mut router, &mut drained)
        .expect("drain should work");
    assert_eq!(drained.len(), 1);
    let retained_capacity = drained.capacity();

    scheduler
        .drain_ready_events_into(&stations, &mut router, &mut drained)
        .expect("empty drain should work");
    assert!(drained.is_empty());
    assert_eq!(drained.capacity(), retained_capacity);
    assert_eq!(router.stats().routed_events, 1);
    assert_eq!(router.stats().drained_events, 1);
}

#[test]
fn event_router_unregisters_station_and_discards_queued_events() {
    let station_id = StationId::new(2);
    let mut router: EventRouter<Events> = EventRouter::new(1024);
    router.register_station(station_id);
    router
        .route(StationEvent {
            id: EventId::new(1),
            source: StationId::new(1),
            target: station_id,
            source_tick: Tick::new(0),
            target_tick: Tick::new(10),
            priority: EventPriority::Important,
            kind: EventKind::Custom(1),
        })
        .expect("event should queue");

    assert_eq!(router.unregister_station(station_id), Some(1));
    assert_eq!(router.unregister_station(station_id), None);
    assert_eq!(router.queued_len(station_id), None);
    assert_eq!(
        router.drain_ready(station_id, Tick::new(10)),
        Err(EventRouterError::MissingTarget(station_id))
    );
}

#[test]
fn event_router_counts_drops_and_reports_full_queues() {
    let station_id = StationId::new(2);
    let mut router: EventRouter<Events> = EventRouter::new(1);
    router.register_station(station_id);
    let mut best_effort = event(1, 1, 2, 0, 1);
    best_effort.priority = EventPriority::BestEffort;
    assert_eq!(router.route(best_effort), Ok(PushOutcome::Queued));
    assert_eq!(
        router.route(event(2, 1, 2, 0, 1)),
        Ok(PushOutcome::DroppedOldestBestEffort)
    );
    assert_eq!(
        router.route(event(3, 1, 2, 0, 1)),
        Err(EventRouterError::Queue("queue full"))
    );
    assert_eq!(
        router.route(event(4, 1, 9, 0, 1)),
        Err(EventRouterError::MissingTarget(StationId::new(9)))
    );
    assert_eq!(router.stats().routed_events, 2);
    assert_eq!(router.stats().dropped_best_effort_events, 1);
}

#[test]
fn station_scheduler_prioritizes_loaded_stations_with_budget() {
    let mut stations = StationSet::default();
    stations.push(station(1, 10));
    stations.push(station(2, 10));
    stations.push(station(3, 10));

    let samples = vec![
        StationLoadSample {
            station_id: StationId::new(1),
            owned_entities: 1,
            ..StationLoadSample::default()
        },
        StationLoadSample {
            station_id: StationId::new(2),
            owned_entities: 100,
            subscribers: 40,
            queued_events: 20,
            tick_cost_units: 500,
            cells: vec![CellLoadSample {
                cell: CellCoord3::new(0, 0, 0),
                owned_entities: 90,
                subscribers: 40,
                event_pressure: 10,
                ..CellLoadSample::default()
            }],
            ..StationLoadSample::default()
        },
        StationLoadSample {
            station_id: StationId::new(3),
            owned_entities: 25,
            subscribers: 10,
            queued_events: 5,
            tick_cost_units: 50,
            ..StationLoadSample::default()
        },
    ];

    let mut scheduler = StationScheduler::default();
    let plan = scheduler.advance_loaded(
        &mut stations,
        &samples,
        &[0, 140, 0],
        StationScheduleConfig {
            max_station_advances_per_step: 2,
        },
    );

    assert_eq!(plan.candidates_considered, 3);
    assert_eq!(plan.stations_selected, 2);
    assert_eq!(plan.total_advances, 2);
    assert_eq!(
        plan.selected
            .iter()
            .map(|candidate| candidate.station_id)
            .collect::<Vec<_>>(),
        vec![StationId::new(2), StationId::new(3)]
    );
    assert_eq!(scheduler.advanced_ticks, 2);
    assert_eq!(
        stations.get(StationId::new(1)).expect("station").tick(),
        Tick::new(0)
    );
    assert_eq!(
        stations.get(StationId::new(2)).expect("station").tick(),
        Tick::new(1)
    );
    assert_eq!(
        stations.get(StationId::new(3)).expect("station").tick(),
        Tick::new(1)
    );
}

#[test]
fn station_scheduler_top_k_matches_full_sort_for_budget_edges() {
    let candidates = (0_u32..257)
        .map(|index| StationScheduleCandidate {
            station_id: StationId::new(index),
            load_score: u64::from(index.wrapping_mul(37) % 23),
            tick_lag: u64::from(index.wrapping_mul(19) % 11),
        })
        .collect::<Vec<_>>();

    for requested in [0, 1, 7, 64, 128, 129, 256, 257, 300] {
        let limit = requested.min(candidates.len());
        let mut expected = candidates.clone();
        expected.sort_by(compare_station_schedule_candidates);
        expected.truncate(limit);
        let mut actual = candidates.clone();
        prioritize_station_candidates(&mut actual, limit);

        assert_eq!(&actual[..limit], expected.as_slice());
    }
}

#[test]
fn station_schedule_scratch_reuses_capacity_and_last_sample_wins() {
    let mut stations = StationSet::default();
    for station_id in 1..=8 {
        stations.push(station(station_id, 10));
    }
    let samples = [
        StationLoadSample {
            station_id: StationId::new(3),
            owned_entities: 1,
            ..StationLoadSample::default()
        },
        StationLoadSample {
            station_id: StationId::new(3),
            owned_entities: 500,
            ..StationLoadSample::default()
        },
    ];
    let scheduler = StationScheduler::default();
    let mut scratch = StationScheduleScratch::new();

    {
        let plan = scheduler.plan_loaded_into(
            &stations,
            &samples,
            &[],
            StationScheduleConfig {
                max_station_advances_per_step: 2,
            },
            &mut scratch,
        );
        assert_eq!(plan.candidates_considered, 8);
        assert_eq!(plan.selected[0].station_id, StationId::new(3));
        assert_eq!(
            plan.selected[0].load_score,
            station_schedule_score(&samples[1], 0)
        );
    }
    let score_capacity = scratch.score_capacity();
    let candidate_capacity = scratch.candidate_capacity();

    let plan = scheduler.plan_loaded_into(
        &stations,
        &samples[..1],
        &[],
        StationScheduleConfig {
            max_station_advances_per_step: 1,
        },
        &mut scratch,
    );
    assert_eq!(plan.selected.len(), 1);
    assert_eq!(scratch.score_capacity(), score_capacity);
    assert_eq!(scratch.candidate_capacity(), candidate_capacity);
}

#[test]
fn schedule_scores_weigh_the_sample() {
    let sample = StationLoadSample {
        station_id: StationId::new(3),
        owned_entities: 10,
        ghost_entities: 5,
        subscribers: 7,
        queued_events: 3,
        estimated_bytes: 1024,
        tick_cost_units: 11,
        ..StationLoadSample::default()
    };
    assert_eq!(
        station_schedule_score(&sample, 100),
        15 * 8 + 7 * 4 + 3 + 4 + 11 + 100
    );
    assert_eq!(station_schedule_score(&sample, u64::MAX), u64::MAX);
}

#[test]
fn stations_behind_the_others_go_first_among_equals() {
    let mut stations = StationSet::default();
    for station_id in 1..=3 {
        stations.push(station(station_id, 10));
    }
    for ahead in [1, 3] {
        stations
            .get_mut(StationId::new(ahead))
            .expect("station")
            .advance_tick();
    }
    let plan =
        StationScheduler::default().plan_loaded(&stations, &[], &[], StationScheduleConfig::default());
    assert_eq!(
        plan.selected
            .iter()
            .map(|candidate| (candidate.station_id.get(), candidate.tick_lag))
            .collect::<Vec<_>>(),
        vec![(2, 1), (1, 0), (3, 0)]
    );
}

#[test]
fn station_load_sampler_derives_cells_router_and_subscribers() {
    let station_id = StationId::new(1);
    let owner_cell = CellCoord3::new(0, 0, 0);
    let ghost_cell = CellCoord3::new(1, 0, 0);
    let mut station = station(1, 10);
    let owner = spawn_owned(&mut station, 10, owner_cell);
    let ghost = EntityHandle::new(1, 0);
    station.put(EntityRecord {
        handle: ghost,
        id: EntityId::new(20),
        role: EntityRole::Replica {
            owner_station: StationId::new(9),
            epoch: OwnerEpoch::new(3),
            expires_at: Tick::new(30),
        },
        cells: vec![ghost_cell],
    });

    let mut index = CellIndex::new();
    index.upsert(owner, &[owner_cell]);
    index.upsert(ghost, &[ghost_cell]);
    let mut indexes = StationIndexSet::default();
    indexes.insert(station_id, index);

    let mut stations = StationSet::default();
    stations.push(station);
    let mut router: EventRouter<Events> = EventRouter::new(1024);
    router.register_station(station_id);
    for (event_id, kind) in [(1_u64, 1_u32), (2, 2)] {
        router
            .route(StationEvent {
                id: EventId::new(event_id),
                source: StationId::new(9),
                target: station_id,
                source_tick: Tick::new(0),
                target_tick: Tick::new(4),
                priority: EventPriority::Important,
                kind: EventKind::Custom(kind),
            })
            .expect("event should queue");
    }

    assert_eq!(indexes.iter().len(), 1);
    let load_sampler = StationLoadSampler::default();
    let samples = load_sampler.sample_all(
        &stations,
        &indexes,
        &router,
        &[(station_id, 2), (station_id, 3)],
    );

    assert_eq!(samples.len(), 1);
    let sample = &samples[0];
    assert_eq!(sample.station_id, station_id);
    assert_eq!(sample.owned_entities, 1);
    assert_eq!(sample.ghost_entities, 1);
    assert_eq!(sample.subscribers, 5);
    assert_eq!(sample.queued_events, 2);
    assert_eq!(sample.estimated_bytes, 240);
    assert_eq!(sample.tick_cost_units, 7);
    assert_eq!(
        sample.cells,
        vec![
            CellLoadSample {
                cell: owner_cell,
                owned_entities: 1,
                ghost_entities: 0,
                subscribers: 0,
                estimated_updates: 1,
                estimated_bytes: 48,
                tick_cost_units: 3,
                event_pressure: 0,
            },
            CellLoadSample {
                cell: ghost_cell,
                owned_entities: 0,
                ghost_entities: 1,
                subscribers: 0,
                estimated_updates: 1,
                estimated_bytes: 48,
                tick_cost_units: 2,
                event_pressure: 0,
            },
        ]
    );

    assert_load_sampler_scratch_reuse(
        &load_sampler,
        &stations,
        &indexes,
        &router,
        station_id,
        &samples,
    );
}

fn assert_load_sampler_scratch_reuse(
    load_sampler: &StationLoadSampler,
    stations: &StationSet,
    indexes: &StationIndexSet,
    router: &EventRouter<Events>,
    station_id: StationId,
    samples: &[StationLoadSample],
) {
    let mut scratch = StationLoadSamplerScratch::new();
    let (sample_ptr, cell_ptr) = {
        let reused = load_sampler.sample_all_into(
            stations,
            indexes,
            router,
            &[(station_id, 2), (station_id, 3)],
            &mut scratch,
        );
        assert_eq!(reused, samples);
        (reused.as_ptr(), reused[0].cells.as_ptr())
    };
    let subscriber_capacity = scratch.retained_subscriber_capacity();
    let occupancy_capacity = scratch.retained_occupancy_capacity();
    let cell_capacity = scratch.retained_cell_capacity();

    let reused = load_sampler.sample_all_into(
        stations,
        indexes,
        router,
        &[(station_id, 2), (station_id, 3)],
        &mut scratch,
    );
    assert_eq!(reused, samples);
    assert_eq!(reused.as_ptr(), sample_ptr);
    assert_eq!(reused[0].cells.as_ptr(), cell_ptr);
    assert_eq!(scratch.retained_sample_slots(), 1);
    assert_eq!(scratch.retained_subscriber_capacity(), subscriber_capacity);
    assert_eq!(scratch.retained_occupancy_capacity(), occupancy_capacity);
    assert_eq!(scratch.retained_cell_capacity(), cell_capacity);
}

#[test]
fn cell_migration_moves_owned_entities_and_updates_indexes() {
    let cell = CellCoord3::new(0, 0, 0);
    let mut stations = StationSet::default();
    let mut source = station(1, 10);
    let first = spawn_owned(&mut source, 1, cell);
    let second = spawn_owned(&mut source, 2, cell);
    stations.push(source);
    stations.push(station(2, 10));

    let mut source_index = CellIndex::new();
    source_index.upsert(first, &[cell]);
    source_index.upsert(second, &[cell]);
    let mut target_index = CellIndex::new();

    let mut ownership = CellOwnershipTable::default();
    ownership.assign(cell, StationId::new(1));
    let update = ownership.apply_split(
        &SplitProposal {
            source_station: StationId::new(1),
            cells_to_move: vec![cell],
            moved_pressure_score: 10,
        },
        StationId::new(2),
    );
    assert_eq!(ownership.owner_of(cell), Some(StationId::new(2)));
    assert_eq!(update.moved_cells, vec![cell]);

    let mut scratch = CellMigrationScratch::new();
    scratch.reserve(2, 2);
    let mut report: CellMigrationReport<Transfer> = CellMigrationReport::empty();
    report.scanned_cells.reserve(1);
    report.entity_migrations.reserve(2);
    CellMigrationExecutor::migrate_cells_into::<Handoff>(
        &mut stations,
        &mut source_index,
        &mut target_index,
        StationId::new(1),
        StationId::new(2),
        &update.moved_cells,
        4,
        &mut scratch,
        &mut report,
    )
    .expect("cell migration should work");

    assert_eq!(report.entity_migrations.len(), 2);
    assert_eq!(entity_count(&target_index), 2);
    assert!(!stations
        .get(StationId::new(1))
        .expect("source")
        .get_by_id(EntityId::new(1))
        .expect("source ghost")
        .is_owned());
    assert!(stations
        .get(StationId::new(2))
        .expect("target")
        .get_by_id(EntityId::new(1))
        .expect("target owner")
        .is_owned());

    let retained_handle_capacity = scratch.handle_capacity();
    let retained_entity_capacity = scratch.entity_capacity();
    let retained_candidate_capacity = scratch.candidate_capacity();
    let retained_scanned_capacity = report.scanned_cells.capacity();
    let retained_migration_capacity = report.entity_migrations.capacity();
    CellMigrationExecutor::migrate_cells_into::<Handoff>(
        &mut stations,
        &mut source_index,
        &mut target_index,
        StationId::new(1),
        StationId::new(2),
        &[],
        4,
        &mut scratch,
        &mut report,
    )
    .expect("empty reusable migration should work");
    assert!(report.scanned_cells.is_empty());
    assert!(report.entity_migrations.is_empty());
    assert_eq!(report.scanned_cells.capacity(), retained_scanned_capacity);
    assert_eq!(
        report.entity_migrations.capacity(),
        retained_migration_capacity
    );
    assert_eq!(scratch.handle_capacity(), retained_handle_capacity);
    assert_eq!(scratch.entity_capacity(), retained_entity_capacity);
    assert_eq!(scratch.candidate_capacity(), retained_candidate_capacity);
}

/// Load of a hot station and a cold one, with the verdicts and proposals of a hotspot planner.
struct Hotspot {
    samples: Vec<StationLoadSample>,
    decisions: Vec<HotspotDecision>,
    proposals: Vec<SplitProposal>,
}

fn hotspot(hot_cell: CellCoord3) -> Hotspot {
    Hotspot {
        samples: split_test_samples(hot_cell),
        decisions: vec![
            HotspotDecision {
                station_id: StationId::new(1),
                severity: HotspotSeverity::Hot,
                reasons: vec![HotspotReason(1), HotspotReason(4)],
            },
            HotspotDecision {
                station_id: StationId::new(2),
                severity: HotspotSeverity::Normal,
                reasons: Vec::new(),
            },
        ],
        proposals: vec![
            SplitProposal {
                source_station: StationId::new(1),
                cells_to_move: vec![hot_cell],
                moved_pressure_score: 100,
            },
            SplitProposal {
                source_station: StationId::new(2),
                cells_to_move: vec![CellCoord3::new(10, 0, 0)],
                moved_pressure_score: 1,
            },
        ],
    }
}

#[test]
fn split_scheduler_plans_and_executes_hot_cell_move() {
    let hot_cell = CellCoord3::new(0, 0, 0);
    let mut stations = StationSet::default();
    let mut source = station(1, 10);
    let handle = spawn_owned(&mut source, 1, hot_cell);
    stations.push(source);
    stations.push(station(2, 10));

    let mut source_index = CellIndex::new();
    source_index.upsert(handle, &[hot_cell]);
    let mut indexes = StationIndexSet::default();
    indexes.insert(StationId::new(1), source_index);
    indexes.insert(StationId::new(2), CellIndex::new());

    let hotspot = hotspot(hot_cell);
    let scheduler = SplitScheduler::new(SplitSchedulerConfig {
        max_actions_per_pass: 1,
        max_cells_per_action: 1,
        ghost_ttl_ticks: 4,
        ..SplitSchedulerConfig::default()
    });
    let schedule = scheduler.plan(&hotspot.samples, &hotspot.decisions, &hotspot.proposals);
    assert_eq!(schedule.actions.len(), 1);
    assert_eq!(schedule.actions[0].target_station, StationId::new(2));

    let mut ownership = CellOwnershipTable::default();
    ownership.assign(hot_cell, StationId::new(1));
    let mut execution_scratch: SplitScheduleExecutionScratch<Transfer> =
        SplitScheduleExecutionScratch::new();
    execution_scratch.reserve(1, 1, 1);
    {
        let report = scheduler
            .execute_into::<Handoff>(
                &schedule,
                &mut stations,
                &mut indexes,
                &mut ownership,
                &mut execution_scratch,
            )
            .expect("reusable execute should work");
        assert_eq!(report.cell_migrations.len(), 1);
        assert_eq!(report.cell_migrations[0].entity_migrations.len(), 1);
    }

    assert_eq!(ownership.owner_of(hot_cell), Some(StationId::new(2)));
    assert_eq!(
        entity_count(indexes.get(StationId::new(2)).expect("target index")),
        1
    );

    let retained_ownership_slots = execution_scratch.retained_ownership_slots();
    let retained_migration_slots = execution_scratch.retained_migration_slots();
    let retained_update_cells = execution_scratch.retained_update_cell_capacity();
    let retained_entity_migrations = execution_scratch.retained_entity_migration_capacity();
    let retained_candidates = execution_scratch.retained_candidate_capacity();
    execution_scratch.reserve(1, 1, 1);
    assert_eq!(
        execution_scratch.retained_update_cell_capacity(),
        retained_update_cells
    );
    assert_eq!(
        execution_scratch.retained_entity_migration_capacity(),
        retained_entity_migrations
    );
    assert_eq!(
        execution_scratch.retained_candidate_capacity(),
        retained_candidates
    );
    let empty = SplitSchedule::default();
    let empty_report = scheduler
        .execute_into::<Handoff>(
            &empty,
            &mut stations,
            &mut indexes,
            &mut ownership,
            &mut execution_scratch,
        )
        .expect("empty reusable execute should work");
    assert!(empty_report.ownership_updates.is_empty());
    assert!(empty_report.cell_migrations.is_empty());
    assert_eq!(
        execution_scratch.retained_ownership_slots(),
        retained_ownership_slots
    );
    assert_eq!(
        execution_scratch.retained_migration_slots(),
        retained_migration_slots
    );
    assert_eq!(
        execution_scratch.retained_update_cell_capacity(),
        retained_update_cells
    );
    assert_eq!(
        execution_scratch.retained_entity_migration_capacity(),
        retained_entity_migrations
    );
    assert_eq!(
        execution_scratch.retained_candidate_capacity(),
        retained_candidates
    );
}

#[test]
fn split_execution_needs_both_indexes() {
    let hot_cell = CellCoord3::new(0, 0, 0);
    let mut stations = StationSet::default();
    stations.push(station(1, 10));
    stations.push(station(2, 10));
    let hotspot = hotspot(hot_cell);
    let scheduler = SplitScheduler::default();
    let schedule = scheduler.plan(&hotspot.samples, &hotspot.decisions, &hotspot.proposals);
    let mut indexes = StationIndexSet::default();
    let mut ownership = CellOwnershipTable::default();
    assert_eq!(
        scheduler
            .execute::<Handoff>(&schedule, &mut stations, &mut indexes, &mut ownership)
            .expect_err("source index is missing"),
        SplitScheduleExecutionError::MissingSourceIndex(StationId::new(1))
    );
    indexes.insert(StationId::new(1), CellIndex::new());
    assert_eq!(
        scheduler
            .execute::<Handoff>(&schedule, &mut stations, &mut indexes, &mut ownership)
            .expect_err("target index is missing"),
        SplitScheduleExecutionError::MissingTargetIndex(StationId::new(2))
    );
}

#[test]
fn split_scheduler_respects_source_cooldown() {
    let hotspot = hotspot(CellCoord3::new(0, 0, 0));
    let scheduler = SplitScheduler::new(SplitSchedulerConfig {
        max_actions_per_pass: 1,
        max_cells_per_action: 1,
        split_cooldown_ticks: 10,
        ..SplitSchedulerConfig::default()
    });
    let mut state = SplitSchedulerState::default();

    let initial = scheduler.plan_with_state(
        &hotspot.samples,
        &hotspot.decisions,
        &hotspot.proposals,
        Some(&state),
        Tick::new(5),
    );
    assert_eq!(initial.actions.len(), 1);
    state.record_schedule(&initial, Tick::new(5));

    let cooled_down = scheduler.plan_with_state(
        &hotspot.samples,
        &hotspot.decisions,
        &hotspot.proposals,
        Some(&state),
        Tick::new(8),
    );
    assert!(cooled_down.actions.is_empty());
    assert_eq!(cooled_down.skipped_cooldown, 1);

    let after_cooldown = scheduler.plan_with_state(
        &hotspot.samples,
        &hotspot.decisions,
        &hotspot.proposals,
        Some(&state),
        Tick::new(16),
    );
    assert_eq!(after_cooldown.actions.len(), 1);
}

#[test]
fn split_scheduler_reports_capacity_and_improvement_skips() {
    let hotspot = hotspot(CellCoord3::new(0, 0, 0));

    let capacity_guard = SplitScheduler::new(SplitSchedulerConfig {
        max_actions_per_pass: 1,
        max_cells_per_action: 1,
        max_target_score_after_move: 1,
        ..SplitSchedulerConfig::default()
    });
    let capacity_schedule =
        capacity_guard.plan(&hotspot.samples, &hotspot.decisions, &hotspot.proposals);
    assert!(capacity_schedule.actions.is_empty());
    assert_eq!(capacity_schedule.skipped_target_capacity, 1);

    let improvement_guard = SplitScheduler::new(SplitSchedulerConfig {
        max_actions_per_pass: 1,
        max_cells_per_action: 1,
        min_score_improvement: u64::MAX,
        ..SplitSchedulerConfig::default()
    });
    let improvement_schedule =
        improvement_guard.plan(&hotspot.samples, &hotspot.decisions, &hotspot.proposals);
    assert!(improvement_schedule.actions.is_empty());
    assert_eq!(improvement_schedule.skipped_insufficient_improvement, 1);
}

#[test]
fn split_scheduler_view_matches_owned_and_retains_nested_capacity() {
    let hotspot = hotspot(CellCoord3::new(0, 0, 0));
    let scheduler = SplitScheduler::new(SplitSchedulerConfig {
        max_actions_per_pass: 1,
        max_cells_per_action: 1,
        ..SplitSchedulerConfig::default()
    });
    let expected = scheduler.plan(&hotspot.samples, &hotspot.decisions, &hotspot.proposals);
    let mut scratch = SplitSchedulerScratch::new();

    {
        let view = scheduler.plan_into(
            &hotspot.samples,
            &hotspot.decisions,
            &hotspot.proposals,
            &mut scratch,
        );
        assert_eq!(view.to_schedule(), expected);
    }
    let decision_slots = scratch.retained_decision_slots();
    let action_slots = scratch.retained_action_slots();
    let reason_capacity = scratch.retained_reason_capacity();
    let action_cell_capacity = scratch.retained_action_cell_capacity();
    assert_eq!(decision_slots, hotspot.samples.len());
    assert_eq!(action_slots, 1);
    assert!(reason_capacity > 0);
    assert!(action_cell_capacity > 0);

    let reduced = scheduler.plan_into(
        &hotspot.samples[1..],
        &hotspot.decisions[1..],
        &hotspot.proposals[1..],
        &mut scratch,
    );
    assert_eq!(reduced.decisions.len(), 1);
    assert!(reduced.actions.is_empty());
    assert_eq!(scratch.retained_decision_slots(), decision_slots);
    assert_eq!(scratch.retained_action_slots(), action_slots);
    assert_eq!(scratch.retained_reason_capacity(), reason_capacity);
    assert_eq!(
        scratch.retained_action_cell_capacity(),
        action_cell_capacity
    );
}

fn split_test_samples(hot_cell: CellCoord3) -> Vec<StationLoadSample> {
    vec![
        StationLoadSample {
            station_id: StationId::new(1),
            owned_entities: 100,
            subscribers: 100,
            tick_cost_units: 1000,
            cells: vec![CellLoadSample {
                cell: hot_cell,
                owned_entities: 100,
                subscribers: 100,
                event_pressure: 10,
                ..CellLoadSample::default()
            }],
            ..StationLoadSample::default()
        },
        StationLoadSample {
            station_id: StationId::new(2),
            owned_entities: 1,
            cells: vec![CellLoadSample {
                cell: CellCoord3::new(10, 0, 0),
                owned_entities: 1,
                ..CellLoadSample::default()
            }],
            ..StationLoadSample::default()
        },
    ]
}

#[test]
fn repeated_splits_move_nothing_more() {
    let cell = CellCoord3::new(3, 0, 0);
    let mut ownership = CellOwnershipTable::default();
    assert_eq!(ownership.assign(cell, StationId::new(1)), None);
    let proposal = SplitProposal {
        source_station: StationId::new(1),
        cells_to_move: vec![cell],
        moved_pressure_score: 1,
    };
    assert_eq!(
        ownership
            .apply_split(&proposal, StationId::new(2))
            .moved_cells,
        vec![cell]
    );
    assert!(ownership
        .apply_split(&proposal, StationId::new(2))
        .moved_cells
        .is_empty());
    assert_eq!(ownership.len(), 1);
}

#[test]
fn removed_handles_leave_the_others_in_their_cell() {
    let cell = CellCoord3::new(-1, 2, 0);
    let mut index = CellIndex::new();
    for slot in 0..3 {
        index.upsert(EntityHandle::new(slot, 0), &[cell]);
    }
    index.remove(EntityHandle::new(1, 0));
    assert_eq!(
        index.handles_in_cell(cell),
        vec![EntityHandle::new(0, 0), EntityHandle::new(2, 0)]
    );
    index.upsert(EntityHandle::new(0, 0), &[CellCoord3::new(5, 5, 5)]);
    assert_eq!(index.handles_in_cell(cell), vec![EntityHandle::new(2, 0)]);
}

#[test]
fn the_last_proposal_decides_who_owns_a_cell() {
    let (one, two, three) = (StationId::new(1), StationId::new(2), StationId::new(3));
    let cell = CellCoord3::new(0, 0, 0);
    let untouched = CellCoord3::new(5, 0, 0);
    let mut stations = StationSet::default();
    let mut indexes = StationIndexSet::default();
    for id in 1..=3 {
        stations.push(station(id, 10));
        indexes.insert(StationId::new(id), CellIndex::new());
    }
    let action = |source_station, target_station| SplitAction {
        source_station,
        target_station,
        proposal: SplitProposal {
            source_station,
            cells_to_move: vec![cell],
            moved_pressure_score: 1,
        },
        source_score: 0,
        target_score: 0,
        estimated_target_score_after_move: 0,
    };
    let schedule = SplitSchedule {
        actions: vec![action(one, two), action(two, three)],
        ..SplitSchedule::default()
    };
    let mut ownership = CellOwnershipTable::default();
    ownership.assign(cell, one);
    ownership.assign(untouched, one);

    let report = SplitScheduler::default()
        .execute::<Handoff>(&schedule, &mut stations, &mut indexes, &mut ownership)
        .expect("execution should work");

    assert_eq!(report.ownership_updates.len(), 2);
    assert_eq!(ownership.owner_of(cell), Some(three));
    assert_eq!(ownership.owner_of(untouched), Some(one));
}

#[test]
fn migrated_entities_stand_in_one_cell_of_each_index() {
    let (from, to) = (CellCoord3::new(0, 0, 0), CellCoord3::new(4, 0, 0));
    let mut source = station(1, 10);
    let handle = spawn_owned(&mut source, 7, to);
    let mut stations = StationSet::default();
    stations.push(source);
    stations.push(station(2, 10));
    let mut source_index = CellIndex::new();
    source_index.upsert(handle, &[from]);
    let mut target_index = CellIndex::new();

    let report = CellMigrationExecutor::migrate_cells::<Handoff>(
        &mut stations,
        &mut source_index,
        &mut target_index,
        StationId::new(1),
        StationId::new(2),
        &[from],
        4,
    )
    .expect("migration should work");

    let migration = &report.entity_migrations[0];
    assert_eq!(target_index.handles_in_cell(to), vec![migration.target_owner]);
    assert!(target_index.handles_in_cell(from).is_empty());
    assert_eq!(source_index.handles_in_cell(to), vec![migration.source_ghost]);
    assert!(source_index.handles_in_cell(from).is_empty());
    let owner = stations
        .get(StationId::new(2))
        .expect("target exists")
        .get(migration.target_owner)
        .expect("owner record exists");
    assert!(owner.is_owned());
}

#[test]
fn samples_count_every_entity_once() {
    let cell = CellCoord3::new(1, 0, 0);
    let mut sampled = station(1, 10);
    let owned = spawn_owned(&mut sampled, 1, cell);
    let ghost = EntityHandle::new(1, 0);
    sampled.put(EntityRecord {
        handle: ghost,
        id: EntityId::new(2),
        role: EntityRole::Replica {
            owner_station: StationId::new(2),
            epoch: OwnerEpoch::new(1),
            expires_at: Tick::new(9),
        },
        cells: vec![cell],
    });
    let mut index = CellIndex::new();
    for handle in [owned, ghost, EntityHandle::new(9, 0)] {
        index.upsert(handle, &[cell]);
    }

    let sample = StationLoadSampler::default().sample_station(&sampled, Some(&index), 0, 0);

    assert_eq!((sample.owned_entities, sample.ghost_entities), (1, 1));
    assert_eq!(sample.cells.len(), 1);
    assert_eq!(sample.cells[0].owned_entities, 1);
    assert_eq!(sample.cells[0].ghost_entities, 1);
    assert_eq!(sample.cells[0].estimated_updates, 2);
}

#[test]
fn a_severity_skip_means_that_all_targets_are_too_warm() {
    let mut hotspot = hotspot(CellCoord3::new(0, 0, 0));
    hotspot.decisions[1].severity = HotspotSeverity::Warm;
    let cautious = SplitSchedulerConfig {
        allow_warm_targets: false,
        max_target_score_after_move: 50,
        ..SplitSchedulerConfig::default()
    };
    let scheduler = SplitScheduler::new(cautious);

    let warm = scheduler.plan(&hotspot.samples, &hotspot.decisions, &hotspot.proposals);
    assert!(warm.actions.is_empty());
    assert_eq!(warm.skipped_target_severity, 1);
    assert_eq!(warm.skipped_target_capacity, 0);

    hotspot.samples.push(StationLoadSample {
        station_id: StationId::new(3),
        ..StationLoadSample::default()
    });
    hotspot.decisions.push(HotspotDecision {
        station_id: StationId::new(3),
        severity: HotspotSeverity::Normal,
        reasons: Vec::new(),
    });
    hotspot.proposals.push(SplitProposal {
        source_station: StationId::new(3),
        cells_to_move: Vec::new(),
        moved_pressure_score: 0,
    });
    let mixed = scheduler.plan(&hotspot.samples, &hotspot.decisions, &hotspot.proposals);
    assert!(mixed.actions.is_empty());
    assert_eq!(mixed.skipped_target_severity, 0);
    assert_eq!(mixed.skipped_target_capacity, 1);
}

/// Refuses the snapshot of one station.
struct RestoreOthers;

impl StationRestore for RestoreOthers {
    type Error = StationId;

    fn restore(config: StationConfig, snapshot: StationSnapshot) -> Result<Station, StationId> {
        if config.station_id == StationId::new(2) {
            return Err(config.station_id);
        }
        PlainRestore::restore(config, snapshot).map_err(|_| config.station_id)
    }
}

#[test]
fn an_upgrade_names_the_first_refused_station() {
    let mut stations = StationSet::default();
    for id in 1..=3 {
        stations.push(station(id, 10));
    }
    advance_twice(&mut stations);
    let mut controller = BarrierController::default();
    controller
        .request(
            &stations,
            BarrierId::new(8),
            BarrierScope::Instance(InstanceId::new(10)),
            Tick::new(2),
            CommandQueueMode::Buffer,
        )
        .expect("request should work");
    controller.poll(&stations).expect("poll should work");
    let mut hook = MoveSnapshotUpgrade::default();

    let error = BarrierUpgradeExecutor::migrate_frozen::<MoveSnapshotUpgrade, RestoreOthers>(
        &mut controller,
        &mut stations,
        SnapshotVersion { runtime_version: 2 },
        &mut hook,
    )
    .expect_err("the second station is refused");

    assert_eq!(
        error,
        BarrierUpgradeError::Restore {
            station_id: StationId::new(2),
            error: StationId::new(2),
        }
    );
    assert_eq!((hook.pre, hook.migrations, hook.post), (2, 2, 1));
}

#[test]
fn an_entity_may_stand_in_several_cells() {
    let cells = [
        CellCoord3::new(0, 0, 0),
        CellCoord3::new(1, 0, 0),
        CellCoord3::new(0, 0, 0),
    ];
    let mut source = station(1, 10);
    let handle = spawn_owned(&mut source, 7, cells[0]);
    source.records[0].cells = cells.to_vec();
    let mut stations = StationSet::default();
    stations.push(source);
    stations.push(station(2, 10));
    let mut source_index = CellIndex::new();
    source_index.upsert(handle, &cells);
    assert_eq!(source_index.handles_in_cell(cells[0]), vec![handle]);
    assert_eq!(source_index.handles_in_cell(cells[1]), vec![handle]);
    let mut target_index = CellIndex::new();

    let report = CellMigrationExecutor::migrate_cells::<Handoff>(
        &mut stations,
        &mut source_index,
        &mut target_index,
        StationId::new(1),
        StationId::new(2),
        &cells[..2],
        4,
    )
    .expect("migration should work");

    assert_eq!(report.entity_migrations.len(), 1);
    assert_eq!(report.skipped_duplicate_entities, 1);
    let owner = report.entity_migrations[0].target_owner;
    assert_eq!(target_index.handles_in_cell(cells[0]), vec![owner]);
    assert_eq!(target_index.handles_in_cell(cells[1]), vec![owner]);
}

#[test]
fn a_move_to_the_same_station_needs_its_index_first() {
    let mut stations = StationSet::default();
    stations.push(station(1, 10));
    let mut indexes = StationIndexSet::default();
    let mut ownership = CellOwnershipTable::default();
    let schedule = SplitSchedule {
        actions: vec![SplitAction {
            source_station: StationId::new(1),
            target_station: StationId::new(1),
            ..SplitAction::default()
        }],
        ..SplitSchedule::default()
    };

    let error = SplitScheduler::default()
        .execute::<Handoff>(&schedule, &mut stations, &mut indexes, &mut ownership)
        .expect_err("the index is missing");

    assert_eq!(
        error,
        SplitScheduleExecutionError::MissingSourceIndex(StationId::new(1))
    );
    assert_eq!(ownership, CellOwnershipTable::default());
}

/// Restores stations under the id 99, whatever they are asked for.
struct RenamingRestore;

impl StationRestore for RenamingRestore {
    type Error = &'static str;

    fn restore(_config: StationConfig, _snapshot: StationSnapshot) -> Result<Station, Self::Error> {
        Ok(station(99, 10))
    }
}

#[test]
fn restored_stations_keep_their_identity() {
    let mut stations = StationSet::default();
    stations.push(station(1, 10));
    let mut controller = BarrierController::default();
    controller
        .request(
            &stations,
            BarrierId::new(1),
            BarrierScope::Instance(InstanceId::new(10)),
            Tick::new(0),
            CommandQueueMode::Buffer,
        )
        .expect("request should work");
    assert_eq!(
        controller.poll(&stations).expect("poll should work").state,
        BarrierState::Frozen
    );

    BarrierUpgradeExecutor::migrate_frozen::<MoveSnapshotUpgrade, RenamingRestore>(
        &mut controller,
        &mut stations,
        SnapshotVersion { runtime_version: 2 },
        &mut MoveSnapshotUpgrade::default(),
    )
    .expect("upgrade should work");

    assert!(stations.get(StationId::new(99)).is_none());
    let restored = stations.get(StationId::new(1)).expect("station exists");
    assert_eq!(restored.config(), station(1, 10).config());
}

#[test]
fn default_and_cloned_storage_is_empty_and_equal() {
    assert_eq!(CellMigrationScratch::default().entity_ids.len(), 0);
    assert_eq!(StationLoadSamplerScratch::default().samples.len(), 0);
    assert_eq!(BarrierSnapshotScratch::default().active_snapshots, 0);
    assert_eq!(SplitSchedulerScratch::default().active_actions, 0);
    assert_eq!(
        SplitScheduleExecutionScratch::<Transfer>::default().active_actions,
        0
    );
    assert_eq!(
        CellMigrationReport::<Transfer>::default().target_station,
        StationId::new(0)
    );
    let mut scratch = CellMigrationScratch::default();
    scratch.seen_handles.extend([3, 5, 8]);
    scratch.seen_entities.insert(13);
    scratch.entity_ids.push(EntityId::new(21));
    let copy = scratch.clone();
    assert_eq!(copy.seen_handles, scratch.seen_handles);
    assert_eq!(copy.seen_entities, scratch.seen_entities);
    assert_eq!(copy.entity_ids, scratch.entity_ids);
}
