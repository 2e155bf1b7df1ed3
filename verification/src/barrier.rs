//! Runtime barriers: stations are brought to a common tick, frozen, exported and resumed.

use vstd::prelude::*;

use crate::ids::{BarrierId, BarrierState, StationId, Tick};
use crate::memory::vec_capacity;
use crate::num::clamp_usize;
use crate::ordered_map::{lemma_map_of, OrderedMap};
use crate::station::{are_like, EntityRecord, Station};
use crate::station_set::{covered_ids, BarrierScope, StationSet};

verus! {

/// What happens to commands that arrive during a barrier.
#[derive(Clone, Copy, Debug, PartialEq, Eq, Structural)]
pub enum CommandQueueMode {
    /// Commands wait in their queues.
    Buffer,
    /// Commands are refused.
    Reject,
}

/// A barrier over the stations of a scope.
#[derive(Clone, Copy, Debug, PartialEq, Eq, Structural)]
pub struct RuntimeBarrier {
    /// Barrier id.
    pub id: BarrierId,
    /// Covered stations.
    pub scope: BarrierScope,
    /// Latest tick among the covered stations at the request.
    pub requested_at: Tick,
    /// Tick at which the stations freeze.
    pub target_tick: Tick,
    /// Current state.
    pub state: BarrierState,
    /// What happens to commands.
    pub command_mode: CommandQueueMode,
}

impl RuntimeBarrier {
    /// Creates a requested barrier.
    pub fn requested(
        id: BarrierId,
        scope: BarrierScope,
        requested_at: Tick,
        target_tick: Tick,
        command_mode: CommandQueueMode,
    ) -> (barrier: Self)
        ensures
            barrier == (RuntimeBarrier {
                id,
                scope,
                requested_at,
                target_tick,
                state: BarrierState::Requested,
                command_mode,
            }),
    {
        Self { id, scope, requested_at, target_tick, state: BarrierState::Requested, command_mode }
    }

    /// Lets the covered stations advance to the target tick.
    pub fn wait_for_tick_boundary(&mut self)
        ensures
            *final(self) == (RuntimeBarrier {
                state: BarrierState::WaitingTickBoundary,
                ..*old(self)
            }),
    {
        self.state = BarrierState::WaitingTickBoundary;
    }

    /// Freezes the covered stations.
    pub fn freeze(&mut self)
        ensures
            *final(self) == (RuntimeBarrier { state: BarrierState::Frozen, ..*old(self) }),
    {
        self.state = BarrierState::Frozen;
    }

    /// Lets the covered stations resume.
    pub fn resume(&mut self)
        ensures
            *final(self) == (RuntimeBarrier { state: BarrierState::Resuming, ..*old(self) }),
    {
        self.state = BarrierState::Resuming;
    }

    /// Ends the barrier.
    pub fn finish(&mut self)
        ensures
            *final(self) == (RuntimeBarrier { state: BarrierState::Running, ..*old(self) }),
    {
        self.state = BarrierState::Running;
    }
}

/// Version stamped on snapshots.
#[derive(Clone, Copy, Debug, Default, PartialEq, Eq, Structural)]
pub struct SnapshotVersion {
    /// Version of the runtime.
    pub runtime_version: u32,
}

/// What a snapshot says of its station.
#[derive(Clone, Copy, Debug, PartialEq, Eq, Structural)]
pub struct SnapshotMeta {
    /// Exported station.
    pub station_id: StationId,
    /// Tick of the export.
    pub tick: Tick,
    /// Version of the export.
    pub version: SnapshotVersion,
}

/// Exported state of a station.
#[derive(Clone, Debug, PartialEq, Eq)]
pub struct StationSnapshot {
    /// What the snapshot says of its station.
    pub meta: SnapshotMeta,
    /// Entity records.
    pub entities: Vec<EntityRecord>,
}

impl StationSnapshot {
    fn blank() -> (snapshot: Self)
        ensures
            snapshot.is_blank(),
    {
        Self {
            meta: SnapshotMeta {
                station_id: StationId(0),
                tick: Tick(0),
                version: SnapshotVersion { runtime_version: 0 },
            },
            entities: Vec::new(),
        }
    }

    /// A snapshot of nothing.
    pub open spec fn is_blank(self) -> bool {
        &&& self.meta == (SnapshotMeta {
            station_id: StationId(0),
            tick: Tick(0),
            version: SnapshotVersion { runtime_version: 0 },
        })
        &&& self.entities@.len() == 0
    }

    /// Two snapshots with the same contents.
    pub open spec fn is_like(self, other: Self) -> bool {
        self.meta == other.meta && self.entities@ == other.entities@
    }

    /// A snapshot holds the state of a station.
    pub open spec fn holds(self, station: Station, version: SnapshotVersion) -> bool {
        &&& self.meta == (SnapshotMeta {
            station_id: station.config.station_id,
            tick: station.tick,
            version,
        })
        &&& are_like(self.entities@, station.records@)
    }

    /// A snapshot holds the state of a station that was found.
    pub open spec fn holds_found(self, found: Option<Station>, version: SnapshotVersion) -> bool {
        match found {
            Some(station) => self.holds(station, version),
            None => false,
        }
    }

    /// Writes the state of a station into the snapshot.
    pub fn record(&mut self, station: &Station, version: SnapshotVersion)
        ensures
            final(self).holds(*station, version),
    {
        self.meta =
        SnapshotMeta { station_id: station.config.station_id, tick: station.tick, version };
        self.entities.clear();
        let mut index: usize = 0;
        while index < station.records.len()
            invariant
                index <= station.records@.len(),
                self.meta == (SnapshotMeta {
                    station_id: station.config.station_id,
                    tick: station.tick,
                    version,
                }),
                are_like(self.entities@, station.records@.take(index as int)),
            decreases station.records@.len() - index,
        {
            self.entities.push(station.records[index].duplicate());
            index = index + 1;
        }
        assert(station.records@.take(index as int) =~= station.records@);
    }
}

/// Per-station progress inside a full runtime barrier.
#[derive(Clone, Copy, Debug, PartialEq, Eq, Structural)]
pub enum StationBarrierPhase {
    /// Station is part of the barrier but has not reached the target tick.
    WaitingTick,
    /// Station reached the target tick and is frozen.
    Frozen,
    /// Station has resumed.
    Resumed,
}

/// Barrier progress summary.
#[derive(Clone, Copy, Debug, PartialEq, Eq, Structural)]
pub struct BarrierProgress {
    /// Barrier state.
    pub state: BarrierState,
    /// Number of stations covered by the barrier.
    pub station_count: usize,
    /// Number of stations frozen.
    pub frozen_count: usize,
    /// Target tick selected for the barrier.
    pub target_tick: Tick,
}

/// Runtime barrier metrics.
#[derive(Clone, Copy, Debug, Default, PartialEq, Eq, Structural)]
pub struct BarrierMetrics {
    /// Number of stations covered by this barrier.
    pub station_count: usize,
    /// Number of snapshots exported while frozen.
    pub snapshots_exported: usize,
    /// Number of times polling observed at least one station still waiting.
    pub waiting_polls: u64,
    /// Number of times polling observed a fully frozen barrier.
    pub frozen_polls: u64,
}

impl BarrierMetrics {
    /// Metrics of a barrier over the given number of stations, before any poll.
    pub open spec fn started(station_count: usize) -> Self {
        BarrierMetrics { station_count, snapshots_exported: 0, waiting_polls: 0, frozen_polls: 0 }
    }

    fn start(station_count: usize) -> (metrics: Self)
        ensures
            metrics == Self::started(station_count),
    {
        Self { station_count, snapshots_exported: 0, waiting_polls: 0, frozen_polls: 0 }
    }
}

/// Runtime barrier execution error.
#[derive(Clone, Copy, Debug, PartialEq, Eq, Structural)]
pub enum BarrierRuntimeError {
    /// A barrier is already active.
    AlreadyActive(BarrierId),
    /// No barrier is active.
    NoActiveBarrier,
    /// Barrier scope matched no stations.
    EmptyScope(BarrierScope),
    /// Requested operation requires frozen state.
    NotFrozen(BarrierState),
    /// A station covered by the barrier is missing.
    MissingStation(StationId),
}

/// Number of entities over several snapshots.
pub open spec fn entity_total(snapshots: Seq<StationSnapshot>) -> nat
    decreases snapshots.len(),
{
    if snapshots.len() == 0 {
        0
    } else {
        entity_total(snapshots.drop_last()) + snapshots.last().entities@.len()
    }
}

/// The slots that were there keep their contents, and any further ones are blank.
pub open spec fn slots_kept(before: Seq<StationSnapshot>, after: Seq<StationSnapshot>) -> bool {
    &&& after.len() >= before.len()
    &&& forall|i: int|
        0 <= i < after.len() ==> if i < before.len() {
            (#[trigger] after[i]).is_like(before[i])
        } else {
            after[i].is_blank()
        }
}

/// Caller-owned reusable station snapshot slots for frozen barrier exports.
#[derive(Clone, Debug)]
pub struct BarrierSnapshotScratch {
    /// Snapshot slots.
    pub snapshots: Vec<StationSnapshot>,
    /// Slots in use.
    pub active_snapshots: usize,
}

impl Default for BarrierSnapshotScratch {
    fn default() -> (scratch: Self)
        ensures
            scratch.snapshots@.len() == 0,
            scratch.active_snapshots == 0,
    {
        Self::new()
    }
}

impl BarrierSnapshotScratch {
    /// Creates empty barrier snapshot storage.
    pub fn new() -> (scratch: Self)
        ensures
            scratch.snapshots@.len() == 0,
            scratch.active_snapshots == 0,
    {
        Self { snapshots: Vec::new(), active_snapshots: 0 }
    }

    fn add_slots(&mut self, stations: usize)
        ensures
            final(self).active_snapshots == old(self).active_snapshots,
            final(self).snapshots@.len() == (if old(self).snapshots@.len() < stations {
                stations as nat
            } else {
                old(self).snapshots@.len()
            }),
            slots_kept(old(self).snapshots@, final(self).snapshots@),
    {
        while self.snapshots.len() < stations
            invariant
                slots_kept(old(self).snapshots@, self.snapshots@),
                self.active_snapshots == old(self).active_snapshots,
                self.snapshots@.len() >= old(self).snapshots@.len(),
                self.snapshots@.len() <= stations || self.snapshots@.len() == old(
                    self,
                ).snapshots@.len(),
            decreases stations - self.snapshots@.len(),
        {
            self.snapshots.push(StationSnapshot::blank());
        }
    }

    /// Reserves station slots and per-station entity capacity.
    pub fn reserve(&mut self, stations: usize, entities_per_station: usize)
        ensures
            final(self).active_snapshots == old(self).active_snapshots,
            final(self).snapshots@.len() == (if old(self).snapshots@.len() < stations {
                stations as nat
            } else {
                old(self).snapshots@.len()
            }),
            slots_kept(old(self).snapshots@, final(self).snapshots@),
    {
        self.add_slots(stations);
        let ghost slots = self.snapshots@.len();
        let mut index: usize = 0;
        while index < stations
            invariant
                index <= stations,
                stations <= slots,
                self.snapshots@.len() == slots,
                self.active_snapshots == old(self).active_snapshots,
                slots_kept(old(self).snapshots@, self.snapshots@),
            decreases stations - index,
        {
            let snapshot = &mut self.snapshots[index];
            if vec_capacity(&snapshot.entities) < entities_per_station {
                let additional: usize = entities_per_station.saturating_sub(
                    snapshot.entities.len(),
                );
                snapshot.entities.reserve(additional);
            }
            index = index + 1;
        }
    }

    /// Snapshot slots retained across exports.
    pub fn retained_snapshot_slots(&self) -> (slots: usize)
        ensures
            slots == self.snapshots@.len(),
    {
        self.snapshots.len()
    }

    /// Total entity capacity retained across station snapshot slots, clamped to what a `usize`
    /// holds.
    pub fn retained_entity_capacity(&self) -> (capacity: usize)
        ensures
            capacity >= clamp_usize(entity_total(self.snapshots@)),
    {
        let mut capacity: usize = 0;
        let mut index: usize = 0;
        assert(self.snapshots@.take(0) =~= Seq::empty());
        while index < self.snapshots.len()
            invariant
                index <= self.snapshots@.len(),
                capacity >= clamp_usize(entity_total(self.snapshots@.take(index as int))),
            decreases self.snapshots@.len() - index,
        {
            assert(self.snapshots@.take(index + 1).drop_last() =~= self.snapshots@.take(
                index as int,
            ));
            capacity = capacity.saturating_add(vec_capacity(&self.snapshots[index].entities));
            index = index + 1;
        }
        assert(self.snapshots@.take(index as int) =~= self.snapshots@);
        capacity
    }
}

/// Latest tick among the stations with the given ids.
pub open spec fn latest_tick(stations: StationSet, ids: Seq<StationId>) -> u64
    decreases ids.len(),
{
    if ids.len() == 0 {
        0
    } else {
        let rest = latest_tick(stations, ids.drop_last());
        match stations.station(ids.last()) {
            Some(station) => if station.tick.0 > rest {
                station.tick.0
            } else {
                rest
            },
            None => rest,
        }
    }
}

/// A covered station with its phase.
#[derive(Clone, Copy, Debug, PartialEq, Eq, Structural)]
pub struct CoveredStation {
    /// Covered station.
    pub station_id: StationId,
    /// Its progress.
    pub phase: StationBarrierPhase,
}

/// Number of covered stations that are frozen.
pub open spec fn frozen_total(entries: Seq<(u128, CoveredStation)>) -> nat
    decreases entries.len(),
{
    if entries.len() == 0 {
        0
    } else {
        frozen_total(entries.drop_last()) + (if entries.last().1.phase
            == StationBarrierPhase::Frozen {
            1nat
        } else {
            0
        })
    }
}

/// Covered stations once every id waits for the target tick.
pub open spec fn waiting(
    phases: Map<u128, CoveredStation>,
    ids: Seq<StationId>,
) -> Map<u128, CoveredStation>
    decreases ids.len(),
{
    if ids.len() == 0 {
        phases
    } else {
        waiting(phases, ids.drop_last()).insert(
            ids.last().0 as u128,
            CoveredStation {
                station_id: ids.last(),
                phase: StationBarrierPhase::WaitingTick,
            },
        )
    }
}

/// Position of the first covered station that is missing, or the number of covered stations.
pub open spec fn first_missing(
    entries: Seq<(u128, CoveredStation)>,
    stations: StationSet,
    from: nat,
) -> nat
    decreases entries.len() - from,
{
    if from >= entries.len() {
        entries.len()
    } else if stations.station(entries[from as int].1.station_id) is None {
        from
    } else {
        first_missing(entries, stations, from + 1)
    }
}

/// Whether a covered station has reached a tick.
pub open spec fn has_reached(stations: StationSet, covered: CoveredStation, tick: Tick) -> bool {
    stations.station(covered.station_id) matches Some(station) && station.tick.0 >= tick.0
}

/// Covered stations after a poll of the first `upto`: those that reached the target are frozen.
pub open spec fn polled(
    entries: Seq<(u128, CoveredStation)>,
    stations: StationSet,
    target: Tick,
    upto: nat,
) -> Seq<(u128, CoveredStation)> {
    Seq::new(
        entries.len(),
        |i: int|
            if i < upto && has_reached(stations, entries[i].1, target) {
                (
                    entries[i].0,
                    CoveredStation {
                        station_id: entries[i].1.station_id,
                        phase: StationBarrierPhase::Frozen,
                    },
                )
            } else {
                entries[i]
            },
    )
}

/// Whether all covered stations have reached a tick.
pub open spec fn all_reached(
    entries: Seq<(u128, CoveredStation)>,
    stations: StationSet,
    tick: Tick,
) -> bool {
    forall|i: int|
        0 <= i < entries.len() ==> has_reached(stations, (#[trigger] entries[i]).1, tick)
}

/// Snapshots hold the state of the first `count` covered stations.
pub open spec fn snapshots_hold(
    snapshots: Seq<StationSnapshot>,
    entries: Seq<(u128, CoveredStation)>,
    stations: StationSet,
    version: SnapshotVersion,
    count: nat,
) -> bool {
    &&& count <= snapshots.len()
    &&& count <= entries.len()
    &&& forall|i: int|
        0 <= i < count ==> (#[trigger] snapshots[i]).holds_found(
            stations.station(entries[i].1.station_id),
            version,
        )
}

/// Full runtime barrier executor for in-process station sets.
#[derive(Clone, Debug)]
pub struct BarrierController {
    /// The active barrier.
    pub active: Option<RuntimeBarrier>,
    /// Covered stations by number.
    pub phases: OrderedMap<CoveredStation>,
    /// Metrics of the active barrier.
    pub metrics: BarrierMetrics,
}

impl Default for BarrierController {
    fn default() -> (controller: Self)
        ensures
            controller.wf(),
            controller.active is None,
            controller.phases.entries@.len() == 0,
            controller.metrics == BarrierMetrics::started(0),
    {
        Self { active: None, phases: OrderedMap::new(), metrics: BarrierMetrics::start(0) }
    }
}

impl BarrierController {
    /// Covered stations stand under their own numbers, and there are none without a barrier.
    pub open spec fn wf(self) -> bool {
        &&& self.phases.wf()
        &&& forall|i: int|
            0 <= i < self.phases.entries@.len() ==> (#[trigger] self.phases.entries@[i]).0
                == self.phases.entries@[i].1.station_id.0
        &&& self.active is None ==> self.phases.entries@.len() == 0
    }

    /// Why an operation on a frozen barrier is refused, if it is.
    pub open spec fn not_frozen(self) -> Option<BarrierRuntimeError> {
        match self.active {
            None => Some(BarrierRuntimeError::NoActiveBarrier),
            Some(barrier) => if barrier.state == BarrierState::Frozen {
                None
            } else {
                Some(BarrierRuntimeError::NotFrozen(barrier.state))
            },
        }
    }

    /// Progress of the active barrier.
    pub open spec fn progressed(self) -> BarrierProgress {
        BarrierProgress {
            state: match self.active {
                Some(barrier) => barrier.state,
                None => BarrierState::Running,
            },
            station_count: self.phases.entries@.len() as usize,
            frozen_count: frozen_total(self.phases.entries@) as usize,
            target_tick: match self.active {
                Some(barrier) => barrier.target_tick,
                None => Tick(0),
            },
        }
    }

    /// Returns the active barrier, if any.
    pub fn active(&self) -> (active: Option<RuntimeBarrier>)
        ensures
            active == self.active,
    {
        self.active
    }

    /// Requests a barrier over stations matching `scope`.
    pub fn request(
        &mut self,
        stations: &StationSet,
        id: BarrierId,
        scope: BarrierScope,
        target_tick: Tick,
        command_mode: CommandQueueMode,
    ) -> (result: Result<BarrierProgress, BarrierRuntimeError>)
        requires
            old(self).wf(),
            stations.wf(),
        ensures
            final(self).wf(),
            ({
                let ids = covered_ids(stations.registry.entries@, scope);
                if let Some(active) = old(self).active {
                    &&& result == Err::<BarrierProgress, BarrierRuntimeError>(
                        BarrierRuntimeError::AlreadyActive(active.id),
                    )
                    &&& *final(self) == *old(self)
                } else if ids.len() == 0 {
                    &&& result == Err::<BarrierProgress, BarrierRuntimeError>(
                        BarrierRuntimeError::EmptyScope(scope),
                    )
                    &&& *final(self) == *old(self)
                } else {
                    &&& result == Ok::<BarrierProgress, BarrierRuntimeError>(
                        final(self).progressed(),
                    )
                    &&& final(self).active == Some(
                        RuntimeBarrier {
                            id,
                            scope,
                            requested_at: Tick(latest_tick(*stations, ids)),
                            target_tick,
                            state: BarrierState::WaitingTickBoundary,
                            command_mode,
                        },
                    )
                    &&& final(self).phases@ == waiting(Map::empty(), ids)
                    &&& final(self).metrics == BarrierMetrics::started(ids.len() as usize)
                    &&& frozen_total(final(self).phases.entries@) == 0
                }
            }),
    {
        if let Some(active) = self.active {
            return Err(BarrierRuntimeError::AlreadyActive(active.id));
        }
        let station_ids = stations.station_ids_in_scope(scope);
        if station_ids.len() == 0 {
            return Err(BarrierRuntimeError::EmptyScope(scope));
        }
        let ghost ids = station_ids@;
        let mut requested_at: u64 = 0;
        let mut phases: OrderedMap<CoveredStation> = OrderedMap::new();
        let mut index: usize = 0;
        assert(ids.take(0) =~= Seq::empty());
        while index < station_ids.len()
            invariant
                stations.wf(),
                ids == station_ids@,
                index <= ids.len(),
                requested_at == latest_tick(*stations, ids.take(index as int)),
                phases.wf(),
                phases@ == waiting(Map::empty(), ids.take(index as int)),
                forall|key: u128| #[trigger]
                    phases@.contains_key(key) ==> phases@[key].station_id.0 == key
                        && phases@[key].phase == StationBarrierPhase::WaitingTick,
            decreases ids.len() - index,
        {
            assert(ids.take(index + 1).drop_last() =~= ids.take(index as int));
            let station_id = station_ids[index];
            if let Some(station) = stations.get(station_id) {
                if station.tick.0 > requested_at {
                    requested_at = station.tick.0;
                }
            }
            phases.insert(
                station_id.0 as u128,
                CoveredStation { station_id, phase: StationBarrierPhase::WaitingTick },
            );
            index = index + 1;
        }
        assert(ids.take(index as int) =~= ids);
        let mut barrier = RuntimeBarrier::requested(
            id,
            scope,
            Tick(requested_at),
            target_tick,
            command_mode,
        );
        barrier.wait_for_tick_boundary();
        self.metrics = BarrierMetrics::start(station_ids.len());
        self.phases = phases;
        self.active = Some(barrier);
        proof {
            let entries = self.phases.entries@;
            lemma_map_of(entries);
            assert forall|i: int| 0 <= i < entries.len() implies (#[trigger] entries[i]).0
                == entries[i].1.station_id.0 && entries[i].1.phase
                == StationBarrierPhase::WaitingTick by {
                assert(self.phases@.contains_key(entries[i].0));
            }
            lemma_none_frozen(entries);
        }
        Ok(self.progress())
    }

    /// Polls station ticks and freezes the barrier once all covered stations are aligned.
    pub fn poll(&mut self, stations: &StationSet) -> (result: Result<
        BarrierProgress,
        BarrierRuntimeError,
    >)
        requires
            old(self).wf(),
            stations.wf(),
        ensures
            final(self).wf(),
            match old(self).active {
                None => {
                    &&& result == Err::<BarrierProgress, BarrierRuntimeError>(
                        BarrierRuntimeError::NoActiveBarrier,
                    )
                    &&& *final(self) == *old(self)
                },
                Some(barrier) => {
                    let entries = old(self).phases.entries@;
                    let missing = first_missing(entries, *stations, 0);
                    if barrier.state == BarrierState::Frozen {
                        &&& result == Ok::<BarrierProgress, BarrierRuntimeError>(
                            final(self).progressed(),
                        )
                        &&& final(self).active == old(self).active
                        &&& final(self).phases == old(self).phases
                        &&& final(self).metrics == (BarrierMetrics {
                            frozen_polls: old(self).metrics.frozen_polls.saturating_add(1),
                            ..old(self).metrics
                        })
                    } else if missing < entries.len() {
                        &&& result == Err::<BarrierProgress, BarrierRuntimeError>(
                            BarrierRuntimeError::MissingStation(
                                entries[missing as int].1.station_id,
                            ),
                        )
                        &&& final(self).active == old(self).active
                        &&& final(self).metrics == old(self).metrics
                        &&& final(self).phases.entries@ == polled(
                            entries,
                            *stations,
                            barrier.target_tick,
                            missing,
                        )
                    } else {
                        let ready = all_reached(entries, *stations, barrier.target_tick);
                        &&& result == Ok::<BarrierProgress, BarrierRuntimeError>(
                            final(self).progressed(),
                        )
                        &&& final(self).phases.entries@ == polled(
                            entries,
                            *stations,
                            barrier.target_tick,
                            entries.len(),
                        )
                        &&& final(self).active == Some(
                            RuntimeBarrier {
                                state: if ready {
                                    BarrierState::Frozen
                                } else {
                                    barrier.state
                                },
                                ..barrier
                            },
                        )
                        &&& final(self).metrics == (if ready {
                            BarrierMetrics {
                                frozen_polls: old(self).metrics.frozen_polls.saturating_add(1),
                                ..old(self).metrics
                            }
                        } else {
                            BarrierMetrics {
                                waiting_polls: old(self).metrics.waiting_polls.saturating_add(1),
                                ..old(self).metrics
                            }
                        })
                    }
                },
            },
    {
        let mut barrier = match self.active {
            Some(barrier) => barrier,
            None => {
                return Err(BarrierRuntimeError::NoActiveBarrier);
            },
        };
        if barrier.state == BarrierState::Frozen {
            self.metrics.frozen_polls = self.metrics.frozen_polls.saturating_add(1);
            return Ok(self.progress());
        }
        let ghost entries = self.phases.entries@;
        let ghost before = *self;
        let target_tick = barrier.target_tick;
        let mut all_ready: bool = true;
        let mut index: usize = 0;
        assert(polled(entries, *stations, target_tick, 0) =~= entries);
        while index < self.phases.entries.len()
            invariant
                before == *old(self),
                entries == before.phases.entries@,
                before.wf(),
                stations.wf(),
                barrier == before.active->0,
                before.active is Some,
                barrier.state != BarrierState::Frozen,
                target_tick == barrier.target_tick,
                self.active == before.active,
                self.metrics == before.metrics,
                index <= entries.len(),
                self.phases.entries@ == polled(entries, *stations, target_tick, index as nat),
                first_missing(entries, *stations, 0) == first_missing(
                    entries,
                    *stations,
                    index as nat,
                ),
                all_ready <==> forall|i: int|
                    0 <= i < index ==> has_reached(
                        *stations,
                        (#[trigger] entries[i]).1,
                        target_tick,
                    ),
            decreases entries.len() - index,
        {
            let ghost now = self.phases.entries@;
            assert(now[index as int] == entries[index as int]);
            let station_id = self.phases.entries[index].1.station_id;
            match stations.get(station_id) {
                None => {
                    proof {
                        lemma_polled_wf(before, *self, *stations, target_tick, index as nat);
                    }
                    return Err(BarrierRuntimeError::MissingStation(station_id));
                },
                Some(station) => {
                    if station.tick.0 >= target_tick.0 {
                        let entry = &mut self.phases.entries[index];
                        entry.1.phase = StationBarrierPhase::Frozen;
                    } else {
                        all_ready = false;
                        assert(!has_reached(*stations, entries[index as int].1, target_tick));
                    }
                },
            }
            index = index + 1;
            assert(self.phases.entries@ =~= polled(entries, *stations, target_tick, index as nat));
        }
        proof {
            lemma_polled_wf(before, *self, *stations, target_tick, entries.len());
        }
        if all_ready {
            barrier.freeze();
            self.active = Some(barrier);
            self.metrics.frozen_polls = self.metrics.frozen_polls.saturating_add(1);
        } else {
            self.metrics.waiting_polls = self.metrics.waiting_polls.saturating_add(1);
        }
        Ok(self.progress())
    }

    /// Exports station snapshots while the barrier is frozen.
    pub fn export_snapshots(&mut self, stations: &StationSet, version: SnapshotVersion) -> (result:
        Result<Vec<StationSnapshot>, BarrierRuntimeError>)
        requires
            old(self).wf(),
            stations.wf(),
        ensures
            final(self).wf(),
            final(self).active == old(self).active,
            final(self).phases == old(self).phases,
            ({
                let entries = old(self).phases.entries@;
                let missing = first_missing(entries, *stations, 0);
                if let Some(error) = old(self).not_frozen() {
                    &&& result == Err::<Vec<StationSnapshot>, BarrierRuntimeError>(error)
                    &&& final(self).metrics == old(self).metrics
                } else if missing < entries.len() {
                    &&& result == Err::<Vec<StationSnapshot>, BarrierRuntimeError>(
                        BarrierRuntimeError::MissingStation(entries[missing as int].1.station_id),
                    )
                    &&& final(self).metrics == old(self).metrics
                } else {
                    &&& result matches Ok(snapshots)
                    &&& snapshots@.len() == entries.len()
                    &&& snapshots_hold(snapshots@, entries, *stations, version, entries.len())
                    &&& final(self).metrics == (BarrierMetrics {
                        snapshots_exported: old(self).metrics.snapshots_exported.saturating_add(
                            entries.len() as usize,
                        ),
                        ..old(self).metrics
                    })
                }
            }),
    {
        let mut scratch = BarrierSnapshotScratch::new();
        let failure = match self.export_snapshots_into(stations, version, &mut scratch) {
            Ok(_) => None,
            Err(error) => Some(error),
        };
        match failure {
            Some(error) => Err(error),
            None => Ok(scratch.snapshots),
        }
    }

    /// Exports frozen snapshots into caller-owned reusable station slots.
    pub fn export_snapshots_into<'a>(
        &mut self,
        stations: &StationSet,
        version: SnapshotVersion,
        scratch: &'a mut BarrierSnapshotScratch,
    ) -> (result: Result<&'a [StationSnapshot], BarrierRuntimeError>)
        requires
            old(self).wf(),
            stations.wf(),
        ensures
            final(self).wf(),
            final(self).active == old(self).active,
            final(self).phases == old(self).phases,
            ({
                let entries = old(self).phases.entries@;
                let missing = first_missing(entries, *stations, 0);
                if let Some(error) = old(self).not_frozen() {
                    &&& result == Err::<&'a [StationSnapshot], BarrierRuntimeError>(error)
                    &&& final(self).metrics == old(self).metrics
                    &&& *final(scratch) == *old(scratch)
                } else {
                    &&& final(scratch).snapshots@.len() == (if old(scratch).snapshots@.len()
                        < entries.len() {
                        entries.len()
                    } else {
                        old(scratch).snapshots@.len()
                    })
                    &&& final(scratch).active_snapshots == entries.len()
                    &&& snapshots_hold(
                        final(scratch).snapshots@,
                        entries,
                        *stations,
                        version,
                        missing,
                    )
                    &&& if missing < entries.len() {
                        &&& result == Err::<&'a [StationSnapshot], BarrierRuntimeError>(
                            BarrierRuntimeError::MissingStation(
                                entries[missing as int].1.station_id,
                            ),
                        )
                        &&& final(self).metrics == old(self).metrics
                    } else {
                        &&& result matches Ok(snapshots)
                        &&& snapshots@ == final(scratch).snapshots@.take(entries.len() as int)
                        &&& final(self).metrics == (BarrierMetrics {
                            snapshots_exported: old(
                                self,
                            ).metrics.snapshots_exported.saturating_add(entries.len() as usize),
                            ..old(self).metrics
                        })
                    }
                }
            }),
    {
        self.require_frozen()?;
        let count: usize = self.phases.len();
        scratch.add_slots(count);
        scratch.active_snapshots = count;
        let ghost entries = self.phases.entries@;
        let ghost slots = scratch.snapshots@.len();
        let mut index: usize = 0;
        while index < count
            invariant
                *self == *old(self),
                self.wf(),
                stations.wf(),
                entries == self.phases.entries@,
                count == entries.len(),
                old(self).not_frozen() is None,
                index <= count,
                slots >= count,
                slots == (if old(scratch).snapshots@.len() < entries.len() {
                    entries.len()
                } else {
                    old(scratch).snapshots@.len()
                }),
                scratch.snapshots@.len() == slots,
                scratch.active_snapshots == count,
                snapshots_hold(scratch.snapshots@, entries, *stations, version, index as nat),
                first_missing(entries, *stations, 0) == first_missing(
                    entries,
                    *stations,
                    index as nat,
                ),
            decreases count - index,
        {
            let station_id = self.phases.entries[index].1.station_id;
            let ghost earlier = scratch.snapshots@;
            match stations.get(station_id) {
                None => {
                    return Err(BarrierRuntimeError::MissingStation(station_id));
                },
                Some(station) => {
                    let snapshot = &mut scratch.snapshots[index];
                    snapshot.record(station, version);
                },
            }
            index = index + 1;
            assert forall|i: int| 0 <= i < index implies (
            #[trigger] scratch.snapshots@[i]).holds_found(
                stations.station(entries[i].1.station_id),
                version,
            ) by {
                if i < index - 1 {
                    assert(scratch.snapshots@[i] == earlier[i]);
                }
            }
        }
        self.metrics.snapshots_exported = self.metrics.snapshots_exported.saturating_add(count);
        Ok(vstd::slice::slice_subrange(scratch.snapshots.as_slice(), 0, count))
    }

    fn require_frozen(&self) -> (result: Result<RuntimeBarrier, BarrierRuntimeError>)
        ensures
            match result {
                Ok(barrier) => self.not_frozen() is None && self.active == Some(barrier),
                Err(error) => self.not_frozen() == Some(error),
            },
    {
        match self.active {
            None => Err(BarrierRuntimeError::NoActiveBarrier),
            Some(barrier) => if barrier.state == BarrierState::Frozen {
                Ok(barrier)
            } else {
                Err(BarrierRuntimeError::NotFrozen(barrier.state))
            },
        }
    }

    /// Resumes all stations covered by the barrier and returns final metrics.
    pub fn resume(&mut self) -> (result: Result<BarrierMetrics, BarrierRuntimeError>)
        requires
            old(self).wf(),
        ensures
            final(self).wf(),
            match old(self).not_frozen() {
                Some(error) => {
                    &&& result == Err::<BarrierMetrics, BarrierRuntimeError>(error)
                    &&& *final(self) == *old(self)
                },
                None => {
                    &&& result == Ok::<BarrierMetrics, BarrierRuntimeError>(old(self).metrics)
                    &&& final(self).active is None
                    &&& final(self).phases.entries@.len() == 0
                    &&& final(self).metrics == BarrierMetrics::started(0)
                },
            },
    {
        self.require_frozen()?;
        let metrics = self.metrics;
        self.active = None;
        self.phases = OrderedMap::new();
        self.metrics = BarrierMetrics::start(0);
        Ok(metrics)
    }

    /// Returns current barrier progress.
    pub fn progress(&self) -> (progress: BarrierProgress)
        ensures
            progress == self.progressed(),
    {
        let mut frozen: usize = 0;
        let mut index: usize = 0;
        let ghost entries = self.phases.entries@;
        assert(entries.take(0) =~= Seq::empty());
        while index < self.phases.entries.len()
            invariant
                entries == self.phases.entries@,
                index <= entries.len(),
                frozen <= index,
                frozen == frozen_total(entries.take(index as int)),
            decreases entries.len() - index,
        {
            assert(entries.take(index + 1).drop_last() =~= entries.take(index as int));
            if self.phases.entries[index].1.phase == StationBarrierPhase::Frozen {
                frozen = frozen + 1;
            }
            index = index + 1;
        }
        assert(entries.take(index as int) =~= entries);
        BarrierProgress {
            state: match self.active {
                Some(barrier) => barrier.state,
                None => BarrierState::Running,
            },
            station_count: self.phases.len(),
            frozen_count: frozen,
            target_tick: match self.active {
                Some(barrier) => barrier.target_tick,
                None => Tick(0),
            },
        }
    }
}

proof fn lemma_none_frozen(entries: Seq<(u128, CoveredStation)>)
    requires
        forall|i: int|
            0 <= i < entries.len() ==> (#[trigger] entries[i]).1.phase
                == StationBarrierPhase::WaitingTick,
    ensures
        frozen_total(entries) == 0,
    decreases entries.len(),
{
    if entries.len() > 0 {
        assert forall|i: int| 0 <= i < entries.len() - 1 implies (
        #[trigger] entries.drop_last()[i]).1.phase == StationBarrierPhase::WaitingTick by {
            assert(entries.drop_last()[i] == entries[i]);
        }
        lemma_none_frozen(entries.drop_last());
        assert(entries.last() == entries[entries.len() - 1]);
    }
}

proof fn lemma_polled_wf(
    before: BarrierController,
    after: BarrierController,
    stations: StationSet,
    target: Tick,
    upto: nat,
)
    requires
        before.wf(),
        before.active is Some,
        after.active is Some,
        after.phases.entries@ == polled(before.phases.entries@, stations, target, upto),
    ensures
        after.wf(),
{
    let entries = before.phases.entries@;
    let now = after.phases.entries@;
    assert forall|i: int, j: int| 0 <= i < j < now.len() implies (#[trigger] now[i]).0 < (
    #[trigger] now[j]).0 by {
        assert(entries[i].0 < entries[j].0);
    }
    assert forall|i: int| 0 <= i < now.len() implies (#[trigger] now[i]).0
        == now[i].1.station_id.0 by {
        assert(entries[i].0 == entries[i].1.station_id.0);
    }
}

/// A poll that freezes the barrier leaves every covered station frozen.
pub proof fn law_frozen_barriers_have_no_waiting_station(
    entries: Seq<(u128, CoveredStation)>,
    stations: StationSet,
    target: Tick,
)
    requires
        all_reached(entries, stations, target),
    ensures
        frozen_total(polled(entries, stations, target, entries.len())) == entries.len(),
{
    let after = polled(entries, stations, target, entries.len());
    assert forall|i: int| 0 <= i < after.len() implies (#[trigger] after[i]).1.phase
        == StationBarrierPhase::Frozen by {
        assert(has_reached(stations, entries[i].1, target));
    }
    lemma_all_frozen(after);
}

proof fn lemma_all_frozen(entries: Seq<(u128, CoveredStation)>)
    requires
        forall|i: int|
            0 <= i < entries.len() ==> (#[trigger] entries[i]).1.phase
                == StationBarrierPhase::Frozen,
    ensures
        frozen_total(entries) == entries.len(),
    decreases entries.len(),
{
    if entries.len() > 0 {
        assert forall|i: int| 0 <= i < entries.len() - 1 implies (
        #[trigger] entries.drop_last()[i]).1.phase == StationBarrierPhase::Frozen by {
            assert(entries.drop_last()[i] == entries[i]);
        }
        lemma_all_frozen(entries.drop_last());
        assert(entries.last() == entries[entries.len() - 1]);
    }
}

} // verus!
