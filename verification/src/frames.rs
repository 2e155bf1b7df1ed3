//! Wire frame shapes and their mathematical models.

use vstd::prelude::*;

use crate::ids::{
    BarrierId, BarrierState, ClientId, CommandEnvelope, CommandId, CommandPriority, ComponentId,
    EntityId, EventId, EventKind, EventPriority, OwnerEpoch, StationEvent, StationId, Tick,
};
use crate::num::clamp_usize;

verus! {

/// Runtime frame kind.
#[derive(Clone, Copy, Debug, PartialEq, Eq, Structural)]
pub enum FrameKind {
    /// Replication update frame.
    Replication,
    /// Command acknowledgement frame.
    CommandAck,
    /// Runtime barrier notification.
    Barrier,
    /// Client command ingress frame.
    Command,
    /// Cross-station event frame.
    StationEvent,
    /// Gateway-to-station command dispatch frame.
    CommandDispatch,
}

impl FrameKind {
    /// The byte that marks a frame of this kind on the wire.
    pub open spec fn byte(self) -> u8 {
        match self {
            FrameKind::Replication => 0,
            FrameKind::CommandAck => 1,
            FrameKind::Barrier => 2,
            FrameKind::Command => 3,
            FrameKind::StationEvent => 4,
            FrameKind::CommandDispatch => 5,
        }
    }

    /// Converts a byte into a frame kind.
    pub fn from_byte(byte: u8) -> (kind: Option<Self>)
        ensures
            kind matches Some(known) ==> known.byte() == byte,
            kind is None <==> byte > 5,
    {
        match byte {
            0 => Some(Self::Replication),
            1 => Some(Self::CommandAck),
            2 => Some(Self::Barrier),
            3 => Some(Self::Command),
            4 => Some(Self::StationEvent),
            5 => Some(Self::CommandDispatch),
            _ => None,
        }
    }

    /// Returns the byte that marks a frame of this kind on the wire.
    pub fn to_byte(self) -> (byte: u8)
        ensures
            byte == self.byte(),
    {
        match self {
            Self::Replication => 0,
            Self::CommandAck => 1,
            Self::Barrier => 2,
            Self::Command => 3,
            Self::StationEvent => 4,
            Self::CommandDispatch => 5,
        }
    }
}

/// Component delta included in an entity delta.
#[derive(Clone, Debug, PartialEq, Eq)]
pub struct ComponentDelta {
    /// Component id.
    pub component_id: ComponentId,
    /// Component version.
    pub version: u64,
    /// Runtime-defined flags.
    pub flags: u8,
    /// Encoded component bytes.
    pub bytes: Vec<u8>,
}

/// Model of a component delta.
#[verifier::ext_equal]
pub struct ComponentDeltaModel {
    pub component_id: ComponentId,
    pub version: u64,
    pub flags: u8,
    pub bytes: Seq<u8>,
}

impl View for ComponentDelta {
    type V = ComponentDeltaModel;

    open spec fn view(&self) -> ComponentDeltaModel {
        ComponentDeltaModel {
            component_id: self.component_id,
            version: self.version,
            flags: self.flags,
            bytes: self.bytes@,
        }
    }
}

/// Entity delta included in a replication frame.
#[derive(Clone, Debug, PartialEq, Eq)]
pub struct EntityDelta {
    /// Entity being updated.
    pub entity_id: EntityId,
    /// Owner epoch observed by the sender.
    pub owner_epoch: OwnerEpoch,
    /// Component deltas for this entity.
    pub components: Vec<ComponentDelta>,
}

/// Model of an entity delta.
#[verifier::ext_equal]
pub struct EntityDeltaModel {
    pub entity_id: EntityId,
    pub owner_epoch: OwnerEpoch,
    pub components: Seq<ComponentDeltaModel>,
}

impl View for EntityDelta {
    type V = EntityDeltaModel;

    open spec fn view(&self) -> EntityDeltaModel {
        EntityDeltaModel {
            entity_id: self.entity_id,
            owner_epoch: self.owner_epoch,
            components: component_models(self.components@),
        }
    }
}

/// Models of a sequence of component deltas.
pub open spec fn component_models(components: Seq<ComponentDelta>) -> Seq<ComponentDeltaModel> {
    Seq::new(components.len(), |i: int| components[i]@)
}

/// Models of a sequence of entity deltas.
pub open spec fn entity_models(entities: Seq<EntityDelta>) -> Seq<EntityDeltaModel> {
    Seq::new(entities.len(), |i: int| entities[i]@)
}

/// Replication frame metadata produced per client.
#[derive(Clone, Debug, PartialEq, Eq)]
pub struct ReplicationFrame {
    /// Target client.
    pub client_id: ClientId,
    /// Server tick represented by this frame.
    pub server_tick: Tick,
    /// Number of entity updates in this frame.
    pub entity_count: u32,
    /// Estimated payload bytes before transport overhead.
    pub estimated_payload_bytes: u32,
    /// Concrete entity/component deltas included in this frame.
    pub entities: Vec<EntityDelta>,
}

/// Model of a replication frame.
#[verifier::ext_equal]
pub struct ReplicationFrameModel {
    pub client_id: ClientId,
    pub server_tick: Tick,
    pub entity_count: u32,
    pub estimated_payload_bytes: u32,
    pub entities: Seq<EntityDeltaModel>,
}

impl View for ReplicationFrame {
    type V = ReplicationFrameModel;

    open spec fn view(&self) -> ReplicationFrameModel {
        ReplicationFrameModel {
            client_id: self.client_id,
            server_tick: self.server_tick,
            entity_count: self.entity_count,
            estimated_payload_bytes: self.estimated_payload_bytes,
            entities: entity_models(self.entities@),
        }
    }
}

impl ReplicationFrameModel {
    /// Number of component deltas over all entities.
    pub open spec fn component_total(self) -> nat {
        component_count_total(self.entities)
    }
}

/// Number of component deltas over a sequence of entity deltas.
pub open spec fn component_count_total(entities: Seq<EntityDeltaModel>) -> nat
    decreases entities.len(),
{
    if entities.len() == 0 {
        0
    } else {
        component_count_total(entities.drop_last()) + entities.last().components.len()
    }
}

/// Number of entity deltas over several frames.
pub open spec fn frames_entity_total(frames: Seq<ReplicationFrame>) -> nat
    decreases frames.len(),
{
    if frames.len() == 0 {
        0
    } else {
        frames_entity_total(frames.drop_last()) + frames.last().entities@.len()
    }
}

/// Number of component deltas over several frames.
pub open spec fn frames_component_total(frames: Seq<ReplicationFrame>) -> nat
    decreases frames.len(),
{
    if frames.len() == 0 {
        0
    } else {
        frames_component_total(frames.drop_last()) + frames.last()@.component_total()
    }
}

/// Counts the component deltas of entity deltas, clamped to what a `usize` holds.
pub fn count_delta_components(entities: &Vec<EntityDelta>) -> (count: usize)
    ensures
        count == clamp_usize(component_count_total(entity_models(entities@))),
{
    let mut count: usize = 0;
    let mut index: usize = 0;
    let ghost models = entity_models(entities@);
    assert(models.take(0) =~= Seq::empty());
    while index < entities.len()
        invariant
            index <= entities.len(),
            models == entity_models(entities@),
            count == clamp_usize(component_count_total(models.take(index as int))),
        decreases entities.len() - index,
    {
        proof {
            assert(models.take(index + 1).drop_last() =~= models.take(index as int));
            assert(models.take(index + 1).last() == entities@[index as int]@);
        }
        count = count.saturating_add(entities[index].components.len());
        index = index + 1;
    }
    assert(models.take(index as int) =~= models);
    count
}

/// Counts the entity deltas of several frames, clamped to what a `usize` holds.
pub fn count_frame_entities(frames: &Vec<ReplicationFrame>) -> (count: usize)
    ensures
        count == clamp_usize(frames_entity_total(frames@)),
{
    let mut count: usize = 0;
    let mut index: usize = 0;
    assert(frames@.take(0) =~= Seq::empty());
    while index < frames.len()
        invariant
            index <= frames.len(),
            count == clamp_usize(frames_entity_total(frames@.take(index as int))),
        decreases frames.len() - index,
    {
        assert(frames@.take(index + 1).drop_last() =~= frames@.take(index as int));
        count = count.saturating_add(frames[index].entities.len());
        index = index + 1;
    }
    assert(frames@.take(index as int) =~= frames@);
    count
}

/// Counts the component deltas of several frames, clamped to what a `usize` holds.
pub fn count_frame_components(frames: &Vec<ReplicationFrame>) -> (count: usize)
    ensures
        count == clamp_usize(frames_component_total(frames@)),
{
    let mut count: usize = 0;
    let mut index: usize = 0;
    assert(frames@.take(0) =~= Seq::empty());
    while index < frames.len()
        invariant
            index <= frames.len(),
            count == clamp_usize(frames_component_total(frames@.take(index as int))),
        decreases frames.len() - index,
    {
        assert(frames@.take(index + 1).drop_last() =~= frames@.take(index as int));
        count = count.saturating_add(count_delta_components(&frames[index].entities));
        index = index + 1;
    }
    assert(frames@.take(index as int) =~= frames@);
    count
}

/// Command acknowledgement frame.
#[derive(Clone, Copy, Debug, PartialEq, Eq, Structural)]
pub struct CommandAckFrame {
    /// Target client.
    pub client_id: ClientId,
    /// Acknowledged command.
    pub command_id: CommandId,
    /// Server tick at acknowledgement.
    pub server_tick: Tick,
    /// Whether the command was accepted by the runtime pipeline.
    pub accepted: bool,
    /// Game/runtime reject reason code.
    pub reason_code: u16,
}

/// Client command ingress frame.
///
/// The server stamps `received_at` when converting this into a `CommandEnvelope`; game validation
/// and anti-cheat checks remain outside the wire codec.
#[derive(Clone, Debug, PartialEq, Eq)]
pub struct CommandFrame {
    /// Client that submitted the command.
    pub client_id: ClientId,
    /// Command id used for replay and audit.
    pub command_id: CommandId,
    /// Entity the command intends to control.
    pub entity_id: EntityId,
    /// Client-side sequence number.
    pub sequence: u64,
    /// Game-defined command kind.
    pub kind: u32,
    /// Command priority.
    pub priority: CommandPriority,
    /// Opaque payload owned by the embedding game.
    pub payload: Vec<u8>,
}

/// Model of a client command frame.
#[verifier::ext_equal]
pub struct CommandModel {
    pub client_id: ClientId,
    pub command_id: CommandId,
    pub entity_id: EntityId,
    pub sequence: u64,
    pub kind: u32,
    pub priority: CommandPriority,
    pub payload: Seq<u8>,
}

impl View for CommandFrame {
    type V = CommandModel;

    open spec fn view(&self) -> CommandModel {
        CommandModel {
            client_id: self.client_id,
            command_id: self.command_id,
            entity_id: self.entity_id,
            sequence: self.sequence,
            kind: self.kind,
            priority: self.priority,
            payload: self.payload@,
        }
    }
}

/// Model of a command together with the tick at which the server received it.
#[verifier::ext_equal]
pub struct EnvelopeModel {
    pub command: CommandModel,
    pub received_at: Tick,
}

impl View for CommandEnvelope {
    type V = EnvelopeModel;

    open spec fn view(&self) -> EnvelopeModel {
        EnvelopeModel {
            command: CommandModel {
                client_id: self.client_id,
                command_id: self.id,
                entity_id: self.entity_id,
                sequence: self.sequence,
                kind: self.kind,
                priority: self.priority,
                payload: self.payload@,
            },
            received_at: self.received_at,
        }
    }
}

impl CommandFrame {
    /// Converts an ingress frame into a runtime command envelope.
    pub fn into_envelope(self, received_at: Tick) -> (envelope: CommandEnvelope)
        ensures
            envelope@ == (EnvelopeModel { command: self@, received_at }),
    {
        CommandEnvelope {
            id: self.command_id,
            client_id: self.client_id,
            entity_id: self.entity_id,
            sequence: self.sequence,
            received_at,
            kind: self.kind,
            priority: self.priority,
            payload: self.payload,
        }
    }

    /// Converts a command envelope into a wire frame, dropping server-only tick metadata.
    pub fn from_envelope(envelope: &CommandEnvelope) -> (frame: Self)
        ensures
            frame@ == envelope@.command,
    {
        let payload = clone_bytes(&envelope.payload);
        Self {
            client_id: envelope.client_id,
            command_id: envelope.id,
            entity_id: envelope.entity_id,
            sequence: envelope.sequence,
            kind: envelope.kind,
            priority: envelope.priority,
            payload,
        }
    }
}

/// Copies a byte vector.
pub(crate) fn clone_bytes(bytes: &Vec<u8>) -> (copy: Vec<u8>)
    ensures
        copy@ == bytes@,
{
    let copy = bytes.clone();
    assert(copy@ =~= bytes@);
    copy
}

/// Internal gateway-to-station command dispatch frame.
///
/// Unlike `CommandFrame`, this preserves the server `received_at` tick stamped by the gateway
/// pipeline before the command is forwarded to a station node.
#[derive(Clone, Debug, PartialEq, Eq)]
pub struct CommandDispatchFrame {
    /// Target station selected by gateway/deployment routing.
    pub station_id: StationId,
    /// Client that submitted the command.
    pub client_id: ClientId,
    /// Command id used for replay and audit.
    pub command_id: CommandId,
    /// Entity the command intends to control.
    pub entity_id: EntityId,
    /// Client-side sequence number.
    pub sequence: u64,
    /// Server tick observed when the command entered the runtime.
    pub received_at: Tick,
    /// Game-defined command kind.
    pub kind: u32,
    /// Command priority.
    pub priority: CommandPriority,
    /// Opaque payload owned by the embedding game.
    pub payload: Vec<u8>,
}

/// Model of a command dispatch frame.
#[verifier::ext_equal]
pub struct DispatchModel {
    pub station_id: StationId,
    pub envelope: EnvelopeModel,
}

impl View for CommandDispatchFrame {
    type V = DispatchModel;

    open spec fn view(&self) -> DispatchModel {
        DispatchModel {
            station_id: self.station_id,
            envelope: EnvelopeModel {
                command: CommandModel {
                    client_id: self.client_id,
                    command_id: self.command_id,
                    entity_id: self.entity_id,
                    sequence: self.sequence,
                    kind: self.kind,
                    priority: self.priority,
                    payload: self.payload@,
                },
                received_at: self.received_at,
            },
        }
    }
}

impl CommandDispatchFrame {
    /// Converts a stamped command envelope into an internal dispatch frame.
    pub fn from_envelope(station_id: StationId, envelope: &CommandEnvelope) -> (frame: Self)
        ensures
            frame@ == (DispatchModel { station_id, envelope: envelope@ }),
    {
        let payload = clone_bytes(&envelope.payload);
        Self {
            station_id,
            client_id: envelope.client_id,
            command_id: envelope.id,
            entity_id: envelope.entity_id,
            sequence: envelope.sequence,
            received_at: envelope.received_at,
            kind: envelope.kind,
            priority: envelope.priority,
            payload,
        }
    }

    /// Converts an internal dispatch frame back into a command envelope.
    pub fn into_envelope(self) -> (envelope: CommandEnvelope)
        ensures
            envelope@ == self@.envelope,
    {
        CommandEnvelope {
            id: self.command_id,
            client_id: self.client_id,
            entity_id: self.entity_id,
            sequence: self.sequence,
            received_at: self.received_at,
            kind: self.kind,
            priority: self.priority,
            payload: self.payload,
        }
    }
}

/// Cross-station event frame.
#[derive(Clone, Copy, Debug, PartialEq, Eq, Structural)]
pub struct StationEventFrame {
    /// Idempotency key.
    pub event_id: EventId,
    /// Source station.
    pub source_station: StationId,
    /// Target station.
    pub target_station: StationId,
    /// Tick observed at source.
    pub source_tick: Tick,
    /// Tick at which target should apply the event.
    pub target_tick: Tick,
    /// Priority class.
    pub priority: EventPriority,
    /// Event payload kind.
    pub kind: EventKind,
}

impl StationEventFrame {
    /// The station event that this frame carries.
    pub open spec fn event(self) -> StationEvent {
        StationEvent {
            id: self.event_id,
            source: self.source_station,
            target: self.target_station,
            source_tick: self.source_tick,
            target_tick: self.target_tick,
            priority: self.priority,
            kind: self.kind,
        }
    }

    /// The frame that carries a station event.
    pub open spec fn of_event(event: StationEvent) -> Self {
        StationEventFrame {
            event_id: event.id,
            source_station: event.source,
            target_station: event.target,
            source_tick: event.source_tick,
            target_tick: event.target_tick,
            priority: event.priority,
            kind: event.kind,
        }
    }

    /// Converts a runtime station event into a wire frame.
    pub fn from_event(event: &StationEvent) -> (frame: Self)
        ensures
            frame == Self::of_event(*event),
    {
        Self {
            event_id: event.id,
            source_station: event.source,
            target_station: event.target,
            source_tick: event.source_tick,
            target_tick: event.target_tick,
            priority: event.priority,
            kind: event.kind,
        }
    }

    /// Converts a wire frame into a runtime station event.
    pub fn into_event(self) -> (event: StationEvent)
        ensures
            event == self.event(),
    {
        StationEvent {
            id: self.event_id,
            source: self.source_station,
            target: self.target_station,
            source_tick: self.source_tick,
            target_tick: self.target_tick,
            priority: self.priority,
            kind: self.kind,
        }
    }
}

/// Runtime barrier notification frame.
#[derive(Clone, Copy, Debug, PartialEq, Eq, Structural)]
pub struct BarrierFrame {
    /// Target client.
    pub client_id: ClientId,
    /// Barrier id.
    pub barrier_id: BarrierId,
    /// Server tick associated with this barrier state.
    pub server_tick: Tick,
    /// Current barrier state.
    pub state: BarrierState,
}

/// Decoded runtime frame.
#[derive(Clone, Debug, PartialEq, Eq)]
pub enum RuntimeFrame {
    /// Replication update.
    Replication(ReplicationFrame),
    /// Client command ingress.
    Command(CommandFrame),
    /// Gateway-to-station command dispatch.
    CommandDispatch(CommandDispatchFrame),
    /// Command acknowledgement.
    CommandAck(CommandAckFrame),
    /// Barrier notification.
    Barrier(BarrierFrame),
    /// Cross-station event.
    StationEvent(StationEventFrame),
}

/// Model of a runtime frame.
#[verifier::ext_equal]
pub enum FrameModel {
    Replication(ReplicationFrameModel),
    Command(CommandModel),
    CommandDispatch(DispatchModel),
    CommandAck(CommandAckFrame),
    Barrier(BarrierFrame),
    StationEvent(StationEventFrame),
}

impl View for RuntimeFrame {
    type V = FrameModel;

    open spec fn view(&self) -> FrameModel {
        match self {
            RuntimeFrame::Replication(frame) => FrameModel::Replication(frame@),
            RuntimeFrame::Command(frame) => FrameModel::Command(frame@),
            RuntimeFrame::CommandDispatch(frame) => FrameModel::CommandDispatch(frame@),
            RuntimeFrame::CommandAck(frame) => FrameModel::CommandAck(*frame),
            RuntimeFrame::Barrier(frame) => FrameModel::Barrier(*frame),
            RuntimeFrame::StationEvent(frame) => FrameModel::StationEvent(*frame),
        }
    }
}

/// Encodes frames into bytes.
pub trait FrameEncoder {
    /// Encoder error type.
    type Error;

    /// Encodes a replication frame into `out`.
    fn encode_replication(
        &mut self,
        frame: &ReplicationFrame,
        out: &mut Vec<u8>,
    ) -> Result<(), Self::Error>;

    /// Encodes a command acknowledgement frame into `out`.
    fn encode_command_ack(
        &mut self,
        frame: &CommandAckFrame,
        out: &mut Vec<u8>,
    ) -> Result<(), Self::Error>;

    /// Encodes a client command frame into `out`.
    fn encode_command(
        &mut self,
        frame: &CommandFrame,
        out: &mut Vec<u8>,
    ) -> Result<(), Self::Error>;

    /// Encodes an internal command dispatch frame into `out`.
    fn encode_command_dispatch(
        &mut self,
        frame: &CommandDispatchFrame,
        out: &mut Vec<u8>,
    ) -> Result<(), Self::Error>;

    /// Encodes a cross-station event frame into `out`.
    fn encode_station_event(
        &mut self,
        frame: &StationEventFrame,
        out: &mut Vec<u8>,
    ) -> Result<(), Self::Error>;

    /// Encodes a barrier frame into `out`.
    fn encode_barrier(
        &mut self,
        frame: &BarrierFrame,
        out: &mut Vec<u8>,
    ) -> Result<(), Self::Error>;
}

/// Decodes frames from bytes.
pub trait FrameDecoder {
    /// Decoder error type.
    type Error;

    /// Decodes one runtime frame.
    fn decode(&mut self, input: &[u8]) -> Result<RuntimeFrame, Self::Error>;
}

} // verus!
