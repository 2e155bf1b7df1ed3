//! What the synchronization logic reads of stations, entities and components.

use vstd::prelude::*;

use crate::ids::{
    ComponentId, EntityHandle, EntityId, InstanceId, NodeId, OwnerEpoch, StationId, Tick,
};

verus! {

/// Cell of the fixed three-dimensional grid.
#[derive(Clone, Copy, Debug, PartialEq, Eq, PartialOrd, Ord, Hash, Default, Structural)]
pub struct CellCoord3 {
    /// Cell index along the first axis.
    pub x: i32,
    /// Cell index along the second axis.
    pub y: i32,
    /// Cell index along the third axis.
    pub z: i32,
}

impl CellCoord3 {
    /// Creates a cell coordinate.
    pub fn new(x: i32, y: i32, z: i32) -> (cell: Self)
        ensures
            cell == (CellCoord3 { x, y, z }),
    {
        Self { x, y, z }
    }
}

/// Station identity and placement.
#[derive(Clone, Copy, Debug, PartialEq, Eq, Structural)]
pub struct StationConfig {
    /// Station id.
    pub station_id: StationId,
    /// Node that hosts the station.
    pub node_id: NodeId,
    /// World instance that the station belongs to.
    pub instance_id: InstanceId,
    /// Simulation rate.
    pub tick_rate_hz: u32,
}

/// Authority that a station holds over an entity record.
#[derive(Clone, Copy, Debug, PartialEq, Eq, Structural)]
pub enum EntityRole {
    /// This station is the authoritative owner.
    Authority {
        /// Ownership epoch.
        epoch: OwnerEpoch,
    },
    /// Read-only copy of an entity owned elsewhere.
    Replica {
        /// Station that owns the entity.
        owner_station: StationId,
        /// Ownership epoch observed from the owner.
        epoch: OwnerEpoch,
        /// Tick at which the copy expires.
        expires_at: Tick,
    },
}

impl EntityRole {
    /// Epoch of the owner that this role refers to.
    pub open spec fn epoch_model(self) -> OwnerEpoch {
        match self {
            EntityRole::Authority { epoch } => epoch,
            EntityRole::Replica { epoch, .. } => epoch,
        }
    }

    /// Returns the epoch of the owner that this role refers to.
    pub fn owner_epoch(self) -> (epoch: OwnerEpoch)
        ensures
            epoch == self.epoch_model(),
    {
        match self {
            EntityRole::Authority { epoch } => epoch,
            EntityRole::Replica { epoch, .. } => epoch,
        }
    }
}

/// One entity as a station stores it.
#[derive(Clone, Debug, PartialEq, Eq)]
pub struct EntityRecord {
    /// Slot handle.
    pub handle: EntityHandle,
    /// Entity id.
    pub id: EntityId,
    /// Authority over the entity.
    pub role: EntityRole,
    /// Grid cells that the entity stands in, by its position and bounds.
    pub cells: Vec<CellCoord3>,
}

impl EntityRecord {
    /// Whether the record is authoritative.
    pub open spec fn owned(self) -> bool {
        self.role is Authority
    }

    /// Both records say the same of an entity.
    pub open spec fn is_like(self, other: Self) -> bool {
        &&& self.handle == other.handle
        &&& self.id == other.id
        &&& self.role == other.role
        &&& self.cells@ == other.cells@
    }

    /// Returns a record that says the same.
    pub fn duplicate(&self) -> (copy: Self)
        ensures
            copy.is_like(*self),
    {
        let mut cells: Vec<CellCoord3> = Vec::new();
        let mut index: usize = 0;
        while index < self.cells.len()
            invariant
                index <= self.cells@.len(),
                cells@ == self.cells@.take(index as int),
            decreases self.cells@.len() - index,
        {
            cells.push(self.cells[index]);
            index = index + 1;
        }
        assert(self.cells@.take(index as int) =~= self.cells@);
        Self { handle: self.handle, id: self.id, role: self.role, cells }
    }

    /// Returns whether the record is authoritative.
    pub fn is_owned(&self) -> (owned: bool)
        ensures
            owned == self.owned(),
    {
        match self.role {
            EntityRole::Authority { .. } => true,
            EntityRole::Replica { .. } => false,
        }
    }
}

/// The records say the same, one by one.
pub open spec fn are_like(records: Seq<EntityRecord>, others: Seq<EntityRecord>) -> bool {
    &&& records.len() == others.len()
    &&& forall|i: int| 0 <= i < records.len() ==> (#[trigger] records[i]).is_like(others[i])
}

/// First record in `records` with the given handle.
pub open spec fn record_of(records: Seq<EntityRecord>, handle: EntityHandle) -> Option<EntityRecord>
    decreases records.len(),
{
    if records.len() == 0 {
        None
    } else if records[0].handle == handle {
        Some(records[0])
    } else {
        record_of(records.drop_first(), handle)
    }
}

/// First record in `records` with the given entity id.
pub open spec fn record_of_id(records: Seq<EntityRecord>, id: EntityId) -> Option<EntityRecord>
    decreases records.len(),
{
    if records.len() == 0 {
        None
    } else if records[0].id == id {
        Some(records[0])
    } else {
        record_of_id(records.drop_first(), id)
    }
}

/// `records` with `record` in place of the first one of the same handle, or behind all others.
pub open spec fn with_record(records: Seq<EntityRecord>, record: EntityRecord) -> Seq<EntityRecord>
    decreases records.len(),
{
    if records.len() == 0 {
        seq![record]
    } else if records[0].handle == record.handle {
        seq![record] + records.drop_first()
    } else {
        seq![records[0]] + with_record(records.drop_first(), record)
    }
}

/// Station: identity, clock and entity records.
#[derive(Clone, Debug, PartialEq, Eq)]
pub struct Station {
    /// Identity and placement.
    pub config: StationConfig,
    /// Current tick.
    pub tick: Tick,
    /// Entity records in slot order.
    pub records: Vec<EntityRecord>,
}

impl Station {
    /// The same contents under another identity and placement.
    pub open spec fn with_config(self, config: StationConfig) -> Self {
        Station { config, ..self }
    }

    /// Creates a station without entities at tick zero.
    pub fn new(config: StationConfig) -> (station: Self)
        ensures
            station.config == config,
            station.tick == Tick(0),
            station.records@ == Seq::<EntityRecord>::empty(),
    {
        Self { config, tick: Tick(0), records: Vec::new() }
    }

    /// Returns identity and placement.
    pub fn config(&self) -> (config: StationConfig)
        ensures
            config == self.config,
    {
        self.config
    }

    /// Returns the current tick.
    pub fn tick(&self) -> (tick: Tick)
        ensures
            tick == self.tick,
    {
        self.tick
    }

    /// Moves the clock to the next tick. The clock stays at its last value once reached.
    pub fn advance_tick(&mut self)
        ensures
            final(self).tick == Tick(old(self).tick.0.saturating_add(1)),
            final(self).config == old(self).config,
            final(self).records == old(self).records,
    {
        self.tick = Tick(self.tick.0.saturating_add(1));
    }

    /// Returns the number of entity records.
    pub fn len(&self) -> (count: usize)
        ensures
            count == self.records@.len(),
    {
        self.records.len()
    }

    /// Returns whether the station has no entity records.
    pub fn is_empty(&self) -> (empty: bool)
        ensures
            empty <==> self.records@.len() == 0,
    {
        self.records.len() == 0
    }

    /// Finds a record by handle.
    pub fn get(&self, handle: EntityHandle) -> (found: Option<&EntityRecord>)
        ensures
            match found {
                Some(record) => record_of(self.records@, handle) == Some(*record),
                None => record_of(self.records@, handle) is None,
            },
    {
        let mut index: usize = 0;
        assert(self.records@.skip(0) =~= self.records@);
        while index < self.records.len()
            invariant
                index <= self.records.len(),
                record_of(self.records@, handle) == record_of(
                    self.records@.skip(index as int),
                    handle,
                ),
            decreases self.records.len() - index,
        {
            assert(self.records@.skip(index as int).drop_first() =~= self.records@.skip(index + 1));
            if self.records[index].handle == handle {
                return Some(&self.records[index]);
            }
            index = index + 1;
        }
        None
    }

    /// Finds a record by entity id.
    pub fn get_by_id(&self, id: EntityId) -> (found: Option<&EntityRecord>)
        ensures
            match found {
                Some(record) => record_of_id(self.records@, id) == Some(*record),
                None => record_of_id(self.records@, id) is None,
            },
    {
        let mut index: usize = 0;
        assert(self.records@.skip(0) =~= self.records@);
        while index < self.records.len()
            invariant
                index <= self.records.len(),
                record_of_id(self.records@, id) == record_of_id(
                    self.records@.skip(index as int),
                    id,
                ),
            decreases self.records.len() - index,
        {
            assert(self.records@.skip(index as int).drop_first() =~= self.records@.skip(index + 1));
            if self.records[index].id == id {
                return Some(&self.records[index]);
            }
            index = index + 1;
        }
        None
    }

    /// Stores a record, replacing the one with the same handle if there is one.
    pub fn put(&mut self, record: EntityRecord)
        ensures
            final(self).config == old(self).config,
            final(self).tick == old(self).tick,
            final(self).records@ == with_record(old(self).records@, record),
    {
        let ghost before = self.records@;
        let mut index: usize = 0;
        assert(before.take(0) + with_record(before.skip(0), record) =~= with_record(
            before,
            record,
        )) by {
            assert(before.skip(0) =~= before);
        }
        while index < self.records.len()
            invariant
                index <= self.records.len(),
                self.records@ == before,
                before == old(self).records@,
                self.config == old(self).config,
                self.tick == old(self).tick,
                with_record(before, record) == before.take(index as int) + with_record(
                    before.skip(index as int),
                    record,
                ),
            decreases self.records.len() - index,
        {
            let ghost rest = before.skip(index as int);
            assert(rest.drop_first() =~= before.skip(index + 1));
            assert(rest[0] == before[index as int]);
            if self.records[index].handle == record.handle {
                assert(with_record(rest, record) == seq![record] + rest.drop_first());
                self.records.set(index, record);
                assert(self.records@ =~= before.take(index as int) + (seq![record]
                    + rest.drop_first()));
                return ;
            }
            assert(before.take(index as int) + (seq![rest[0]] + with_record(
                rest.drop_first(),
                record,
            )) =~= before.take(index + 1) + with_record(before.skip(index + 1), record));
            index = index + 1;
        }
        self.records.push(record);
        assert(self.records@ =~= before.take(index as int) + seq![record]);
    }
}

/// One component value attached to an entity.
#[derive(Clone, Debug, PartialEq, Eq)]
pub struct ComponentBlob {
    /// Component id.
    pub component_id: ComponentId,
    /// Entity that the component belongs to.
    pub handle: EntityHandle,
    /// Version of the value.
    pub version: u64,
    /// Whether the value changed since it was last replicated.
    pub dirty: bool,
    /// Encoded value.
    pub bytes: Vec<u8>,
}

/// First blob in `blobs` of the given component and entity.
pub open spec fn blob_of(
    blobs: Seq<ComponentBlob>,
    component_id: ComponentId,
    handle: EntityHandle,
) -> Option<ComponentBlob>
    decreases blobs.len(),
{
    if blobs.len() == 0 {
        None
    } else if blobs[0].component_id == component_id && blobs[0].handle == handle {
        Some(blobs[0])
    } else {
        blob_of(blobs.drop_first(), component_id, handle)
    }
}

/// Component values of a station's entities.
#[derive(Clone, Debug, PartialEq, Eq, Default)]
pub struct ComponentStore {
    /// Stored values.
    pub blobs: Vec<ComponentBlob>,
}

impl ComponentStore {
    /// Finds the value of a component for an entity.
    pub fn get_blob(&self, component_id: ComponentId, handle: EntityHandle) -> (found: Option<
        &ComponentBlob,
    >)
        ensures
            match found {
                Some(blob) => blob_of(self.blobs@, component_id, handle) == Some(*blob),
                None => blob_of(self.blobs@, component_id, handle) is None,
            },
    {
        let mut index: usize = 0;
        assert(self.blobs@.skip(0) =~= self.blobs@);
        while index < self.blobs.len()
            invariant
                index <= self.blobs.len(),
                blob_of(self.blobs@, component_id, handle) == blob_of(
                    self.blobs@.skip(index as int),
                    component_id,
                    handle,
                ),
            decreases self.blobs.len() - index,
        {
            assert(self.blobs@.skip(index as int).drop_first() =~= self.blobs@.skip(index + 1));
            let blob = &self.blobs[index];
            if blob.component_id == component_id && blob.handle == handle {
                return Some(blob);
            }
            index = index + 1;
        }
        None
    }
}

/// Outcome counters of replication planning for one viewer.
#[derive(Clone, Copy, Debug, Default, PartialEq, Eq, Structural)]
pub struct ReplicationPlanStats {
    /// Entities selected for the viewer.
    pub selected: usize,
    /// Estimated payload bytes of the selection.
    pub estimated_bytes: usize,
    /// Candidates skipped because the budget was exhausted.
    pub skipped_by_budget: usize,
    /// Candidates skipped because their cadence had not elapsed.
    pub skipped_by_cadence: usize,
}

/// Entities selected for replication to one viewer.
#[derive(Clone, Debug, Default, PartialEq, Eq)]
pub struct ReplicationPlan {
    /// Selected entities in priority order.
    pub entities: Vec<EntityHandle>,
    /// Planning counters.
    pub stats: ReplicationPlanStats,
}

} // verus!
