//! Plain identifiers and enumerations shared by the wire, transport and runtime layers.

use vstd::prelude::*;

verus! {

/// Client identifier.
#[derive(Clone, Copy, Debug, PartialEq, Eq, PartialOrd, Ord, Hash, Default, Structural)]
pub struct ClientId(pub u64);

/// Station identifier.
#[derive(Clone, Copy, Debug, PartialEq, Eq, PartialOrd, Ord, Hash, Default, Structural)]
pub struct StationId(pub u32);

/// Deployment node identifier.
#[derive(Clone, Copy, Debug, PartialEq, Eq, PartialOrd, Ord, Hash, Default, Structural)]
pub struct NodeId(pub u32);

/// World instance identifier.
#[derive(Clone, Copy, Debug, PartialEq, Eq, PartialOrd, Ord, Hash, Default, Structural)]
pub struct InstanceId(pub u64);

/// Entity identifier.
#[derive(Clone, Copy, Debug, PartialEq, Eq, PartialOrd, Ord, Hash, Default, Structural)]
pub struct EntityId(pub u64);

/// Component identifier.
#[derive(Clone, Copy, Debug, PartialEq, Eq, PartialOrd, Ord, Hash, Default, Structural)]
pub struct ComponentId(pub u16);

/// Command identifier.
#[derive(Clone, Copy, Debug, PartialEq, Eq, PartialOrd, Ord, Hash, Default, Structural)]
pub struct CommandId(pub u64);

/// Station event identifier.
#[derive(Clone, Copy, Debug, PartialEq, Eq, PartialOrd, Ord, Hash, Default, Structural)]
pub struct EventId(pub u64);

/// Runtime barrier identifier.
#[derive(Clone, Copy, Debug, PartialEq, Eq, PartialOrd, Ord, Hash, Default, Structural)]
pub struct BarrierId(pub u64);

/// Simulation tick.
#[derive(Clone, Copy, Debug, PartialEq, Eq, PartialOrd, Ord, Hash, Default, Structural)]
pub struct Tick(pub u64);

/// Ownership epoch of an entity.
#[derive(Clone, Copy, Debug, PartialEq, Eq, PartialOrd, Ord, Hash, Default, Structural)]
pub struct OwnerEpoch(pub u64);

/// Station-local entity slot handle.
#[derive(Clone, Copy, Debug, PartialEq, Eq, PartialOrd, Ord, Hash, Default, Structural)]
pub struct EntityHandle {
    /// Slot index.
    pub index: u32,
    /// Slot generation.
    pub generation: u32,
}

impl ClientId {
    /// Wraps a raw identifier.
    pub fn new(value: u64) -> (id: Self)
        ensures
            id == ClientId(value),
    {
        Self(value)
    }

    /// Returns the raw identifier.
    pub fn get(self) -> (value: u64)
        ensures
            value == self.0,
    {
        self.0
    }
}

impl StationId {
    /// Wraps a raw identifier.
    pub fn new(value: u32) -> (id: Self)
        ensures
            id == StationId(value),
    {
        Self(value)
    }

    /// Returns the raw identifier.
    pub fn get(self) -> (value: u32)
        ensures
            value == self.0,
    {
        self.0
    }
}

impl NodeId {
    /// Wraps a raw identifier.
    pub fn new(value: u32) -> (id: Self)
        ensures
            id == NodeId(value),
    {
        Self(value)
    }

    /// Returns the raw identifier.
    pub fn get(self) -> (value: u32)
        ensures
            value == self.0,
    {
        self.0
    }
}

impl InstanceId {
    /// Wraps a raw identifier.
    pub fn new(value: u64) -> (id: Self)
        ensures
            id == InstanceId(value),
    {
        Self(value)
    }

    /// Returns the raw identifier.
    pub fn get(self) -> (value: u64)
        ensures
            value == self.0,
    {
        self.0
    }
}

impl EntityId {
    /// Wraps a raw identifier.
    pub fn new(value: u64) -> (id: Self)
        ensures
            id == EntityId(value),
    {
        Self(value)
    }

    /// Returns the raw identifier.
    pub fn get(self) -> (value: u64)
        ensures
            value == self.0,
    {
        self.0
    }
}

impl ComponentId {
    /// Wraps a raw identifier.
    pub fn new(value: u16) -> (id: Self)
        ensures
            id == ComponentId(value),
    {
        Self(value)
    }

    /// Returns the raw identifier.
    pub fn get(self) -> (value: u16)
        ensures
            value == self.0,
    {
        self.0
    }
}

impl CommandId {
    /// Wraps a raw identifier.
    pub fn new(value: u64) -> (id: Self)
        ensures
            id == CommandId(value),
    {
        Self(value)
    }

    /// Returns the raw identifier.
    pub fn get(self) -> (value: u64)
        ensures
            value == self.0,
    {
        self.0
    }
}

impl EventId {
    /// Wraps a raw identifier.
    pub fn new(value: u64) -> (id: Self)
        ensures
            id == EventId(value),
    {
        Self(value)
    }

    /// Returns the raw identifier.
    pub fn get(self) -> (value: u64)
        ensures
            value == self.0,
    {
        self.0
    }
}

impl BarrierId {
    /// Wraps a raw identifier.
    pub fn new(value: u64) -> (id: Self)
        ensures
            id == BarrierId(value),
    {
        Self(value)
    }

    /// Returns the raw identifier.
    pub fn get(self) -> (value: u64)
        ensures
            value == self.0,
    {
        self.0
    }
}

impl Tick {
    /// Wraps a raw tick count.
    pub fn new(value: u64) -> (tick: Self)
        ensures
            tick == Tick(value),
    {
        Self(value)
    }

    /// Returns the raw tick count.
    pub fn get(self) -> (value: u64)
        ensures
            value == self.0,
    {
        self.0
    }
}

impl OwnerEpoch {
    /// Wraps a raw epoch.
    pub fn new(value: u64) -> (epoch: Self)
        ensures
            epoch == OwnerEpoch(value),
    {
        Self(value)
    }

    /// Returns the raw epoch.
    pub fn get(self) -> (value: u64)
        ensures
            value == self.0,
    {
        self.0
    }
}

impl EntityHandle {
    /// Creates a handle from its slot index and generation.
    pub fn new(index: u32, generation: u32) -> (handle: Self)
        ensures
            handle == (EntityHandle { index, generation }),
    {
        Self { index, generation }
    }
}

/// Command queue priority.
#[derive(Clone, Copy, Debug, PartialEq, Eq, Structural)]
pub enum CommandPriority {
    /// Default priority.
    Normal,
    /// Processed before normal commands.
    High,
    /// Processed after normal commands.
    Low,
}

/// Station event priority.
#[derive(Clone, Copy, Debug, PartialEq, Eq, Structural)]
pub enum EventPriority {
    /// Must be delivered.
    Critical,
    /// Should be delivered.
    Important,
    /// May be dropped under pressure.
    BestEffort,
}

/// Runtime barrier state.
#[derive(Clone, Copy, Debug, PartialEq, Eq, Structural)]
pub enum BarrierState {
    /// No barrier is in effect.
    Running,
    /// A barrier was requested.
    Requested,
    /// Covered stations are advancing to the target tick.
    WaitingTickBoundary,
    /// Covered stations are frozen at the target tick.
    Frozen,
    /// Covered stations are resuming.
    Resuming,
}

/// Station event payload kind.
#[derive(Clone, Copy, Debug, PartialEq, Eq, Structural)]
pub enum EventKind {
    /// Embedder-defined event.
    Custom(u32),
    /// A handoff is being prepared for an entity.
    HandoffPrepare {
        /// Entity being handed off.
        entity_id: EntityId,
    },
    /// A handoff was committed for an entity.
    HandoffCommit {
        /// Entity that was handed off.
        entity_id: EntityId,
        /// Epoch of the new owner.
        owner_epoch: OwnerEpoch,
    },
}

/// Command together with the server tick at which it was received.
#[derive(Clone, Debug, PartialEq, Eq)]
pub struct CommandEnvelope {
    /// Command id used for replay and audit.
    pub id: CommandId,
    /// Client that submitted the command.
    pub client_id: ClientId,
    /// Entity the command intends to control.
    pub entity_id: EntityId,
    /// Client-side sequence number.
    pub sequence: u64,
    /// Server tick observed when the command arrived.
    pub received_at: Tick,
    /// Game-defined command kind.
    pub kind: u32,
    /// Command priority.
    pub priority: CommandPriority,
    /// Opaque payload owned by the embedding game.
    pub payload: Vec<u8>,
}

/// Event sent from one station to another.
#[derive(Clone, Copy, Debug, PartialEq, Eq, Structural)]
pub struct StationEvent {
    /// Idempotency key.
    pub id: EventId,
    /// Source station.
    pub source: StationId,
    /// Target station.
    pub target: StationId,
    /// Tick observed at source.
    pub source_tick: Tick,
    /// Tick at which the target should apply the event.
    pub target_tick: Tick,
    /// Priority class.
    pub priority: EventPriority,
    /// Event payload kind.
    pub kind: EventKind,
}

} // verus!
