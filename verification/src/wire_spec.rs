//! The binary frame format: what each frame looks like as bytes, and what bytes denote.

use vstd::prelude::*;

use crate::bytes::{le_bytes, le_value};
use crate::frames::{
    BarrierFrame, CommandAckFrame, CommandModel, ComponentDeltaModel, DispatchModel,
    EntityDeltaModel, EnvelopeModel, FrameKind, FrameModel, ReplicationFrameModel,
    StationEventFrame,
};
use crate::ids::{
    BarrierId, BarrierState, ClientId, CommandId, CommandPriority, ComponentId, EntityId, EventId,
    EventKind, EventPriority, OwnerEpoch, StationId, Tick,
};

verus! {

/// Binary decode error.
#[derive(Clone, Copy, Debug, PartialEq, Eq, Structural)]
pub enum BinaryDecodeError {
    /// Input is empty.
    Empty,
    /// Unknown frame kind byte.
    UnknownFrameKind(u8),
    /// Frame ended before all fields were available.
    Truncated {
        /// Required bytes.
        needed: usize,
        /// Available bytes.
        available: usize,
    },
    /// Barrier state byte is invalid.
    InvalidBarrierState(u8),
    /// Command priority byte is invalid.
    InvalidCommandPriority(u8),
    /// Event priority byte is invalid.
    InvalidEventPriority(u8),
    /// Event kind byte is invalid.
    InvalidEventKind(u8),
    /// Trailing bytes were present after a complete frame.
    TrailingBytes(usize),
}

/// Binary encode error.
#[derive(Clone, Copy, Debug, PartialEq, Eq)]
pub enum BinaryEncodeError {
    /// A list length exceeded its length field.
    TooManyItems {
        /// Field being encoded.
        field: &'static str,
        /// Actual item count.
        actual: usize,
    },
    /// A byte payload exceeded `u32::MAX`.
    PayloadTooLarge {
        /// Field being encoded.
        field: &'static str,
        /// Actual byte count.
        actual: usize,
    },
}

// Encoding.

/// What an encoder appends, and the error that stopped it, if any.
pub type Encoded = (Seq<u8>, Option<BinaryEncodeError>);

/// Appends `tail` unless `head` already failed.
pub open spec fn chain(head: Encoded, tail: Encoded) -> Encoded {
    if head.1 is Some {
        head
    } else {
        (head.0 + tail.0, tail.1)
    }
}

/// Byte string with a four-byte length in front.
pub open spec fn payload_bytes(field: &'static str, payload: Seq<u8>) -> Encoded {
    if payload.len() > u32::MAX {
        (
            Seq::empty(),
            Some(BinaryEncodeError::PayloadTooLarge { field, actual: payload.len() as usize }),
        )
    } else {
        (le_bytes(payload.len(), 4) + payload, None)
    }
}

/// List length in a field of `width` bytes whose largest value is `max`.
pub open spec fn count_bytes(field: &'static str, count: nat, width: nat, max: nat) -> Encoded {
    if count > max {
        (
            Seq::empty(),
            Some(BinaryEncodeError::TooManyItems { field, actual: count as usize }),
        )
    } else {
        (le_bytes(count, width), None)
    }
}

/// Bytes of one component delta.
pub open spec fn component_bytes(component: ComponentDeltaModel) -> Encoded {
    chain(
        (
            le_bytes(component.component_id.0 as nat, 2) + (le_bytes(component.version as nat, 8)
                + seq![component.flags]),
            None,
        ),
        payload_bytes("replication.component.bytes", component.bytes),
    )
}

/// Bytes of component deltas one after another.
pub open spec fn components_bytes(components: Seq<ComponentDeltaModel>) -> Encoded
    decreases components.len(),
{
    if components.len() == 0 {
        (Seq::empty(), None)
    } else {
        chain(component_bytes(components[0]), components_bytes(components.drop_first()))
    }
}

/// Bytes of one entity delta.
pub open spec fn entity_bytes(entity: EntityDeltaModel) -> Encoded {
    chain(
        (le_bytes(entity.entity_id.0 as nat, 8) + le_bytes(entity.owner_epoch.0 as nat, 8), None),
        chain(
            count_bytes(
                "replication.entity.components",
                entity.components.len(),
                2,
                u16::MAX as nat,
            ),
            components_bytes(entity.components),
        ),
    )
}

/// Bytes of entity deltas one after another.
pub open spec fn entities_bytes(entities: Seq<EntityDeltaModel>) -> Encoded
    decreases entities.len(),
{
    if entities.len() == 0 {
        (Seq::empty(), None)
    } else {
        chain(entity_bytes(entities[0]), entities_bytes(entities.drop_first()))
    }
}

/// Leading fields of a replication frame, up to the entity count.
pub open spec fn replication_header(
    client_id: ClientId,
    server_tick: Tick,
    entity_count: u32,
    estimated_payload_bytes: u32,
) -> Seq<u8> {
    seq![FrameKind::Replication.byte()] + (le_bytes(client_id.0 as nat, 8) + (le_bytes(
        server_tick.0 as nat,
        8,
    ) + (le_bytes(entity_count as nat, 4) + le_bytes(estimated_payload_bytes as nat, 4))))
}

/// Bytes of a replication frame.
pub open spec fn replication_bytes(frame: ReplicationFrameModel) -> Encoded {
    chain(
        (
            replication_header(
                frame.client_id,
                frame.server_tick,
                frame.entity_count,
                frame.estimated_payload_bytes,
            ),
            None,
        ),
        chain(
            count_bytes("replication.entities", frame.entities.len(), 4, u32::MAX as nat),
            entities_bytes(frame.entities),
        ),
    )
}

/// Bytes of a command acknowledgement frame.
pub open spec fn command_ack_bytes(frame: CommandAckFrame) -> Seq<u8> {
    seq![FrameKind::CommandAck.byte()] + (le_bytes(frame.client_id.0 as nat, 8) + (le_bytes(
        frame.command_id.0 as nat,
        8,
    ) + (le_bytes(frame.server_tick.0 as nat, 8) + (seq![
        if frame.accepted {
            1u8
        } else {
            0u8
        },
    ] + le_bytes(frame.reason_code as nat, 2)))))
}

/// Byte of a command priority.
pub open spec fn command_priority_byte(priority: CommandPriority) -> u8 {
    match priority {
        CommandPriority::Normal => 0,
        CommandPriority::High => 1,
        CommandPriority::Low => 2,
    }
}

/// Leading fields of a command frame, up to the payload.
pub open spec fn command_header(frame: CommandModel) -> Seq<u8> {
    seq![FrameKind::Command.byte()] + (le_bytes(frame.client_id.0 as nat, 8) + (le_bytes(
        frame.command_id.0 as nat,
        8,
    ) + (le_bytes(frame.entity_id.0 as nat, 8) + (le_bytes(frame.sequence as nat, 8) + (le_bytes(
        frame.kind as nat,
        4,
    ) + seq![command_priority_byte(frame.priority)])))))
}

/// Bytes of a client command frame.
pub open spec fn command_bytes(frame: CommandModel) -> Encoded {
    chain((command_header(frame), None), payload_bytes("command.payload", frame.payload))
}

/// Leading fields of a command dispatch frame, up to the payload.
pub open spec fn dispatch_header(frame: DispatchModel) -> Seq<u8> {
    let command = frame.envelope.command;
    seq![FrameKind::CommandDispatch.byte()] + (le_bytes(frame.station_id.0 as nat, 4) + (le_bytes(
        command.client_id.0 as nat,
        8,
    ) + (le_bytes(command.command_id.0 as nat, 8) + (le_bytes(command.entity_id.0 as nat, 8) + (
    le_bytes(command.sequence as nat, 8) + (le_bytes(frame.envelope.received_at.0 as nat, 8) + (
    le_bytes(command.kind as nat, 4) + seq![command_priority_byte(command.priority)])))))))
}

/// Bytes of a command dispatch frame.
pub open spec fn dispatch_bytes(frame: DispatchModel) -> Encoded {
    chain(
        (dispatch_header(frame), None),
        payload_bytes("command_dispatch.payload", frame.envelope.command.payload),
    )
}

/// Byte of an event priority.
pub open spec fn event_priority_byte(priority: EventPriority) -> u8 {
    match priority {
        EventPriority::Critical => 0,
        EventPriority::Important => 1,
        EventPriority::BestEffort => 2,
    }
}

/// Bytes of an event kind.
pub open spec fn event_kind_bytes(kind: EventKind) -> Seq<u8> {
    match kind {
        EventKind::Custom(custom) => seq![0u8] + le_bytes(custom as nat, 4),
        EventKind::HandoffPrepare { entity_id } => seq![1u8] + le_bytes(entity_id.0 as nat, 8),
        EventKind::HandoffCommit { entity_id, owner_epoch } => seq![2u8] + (le_bytes(
            entity_id.0 as nat,
            8,
        ) + le_bytes(owner_epoch.0 as nat, 8)),
    }
}

/// Bytes of a station event frame.
pub open spec fn station_event_bytes(frame: StationEventFrame) -> Seq<u8> {
    seq![FrameKind::StationEvent.byte()] + (le_bytes(frame.event_id.0 as nat, 8) + (le_bytes(
        frame.source_station.0 as nat,
        4,
    ) + (le_bytes(frame.target_station.0 as nat, 4) + (le_bytes(frame.source_tick.0 as nat, 8) + (
    le_bytes(frame.target_tick.0 as nat, 8) + (seq![event_priority_byte(frame.priority)]
        + event_kind_bytes(frame.kind)))))))
}

/// Byte of a barrier state.
pub open spec fn barrier_state_byte(state: BarrierState) -> u8 {
    match state {
        BarrierState::Running => 0,
        BarrierState::Requested => 1,
        BarrierState::WaitingTickBoundary => 2,
        BarrierState::Frozen => 3,
        BarrierState::Resuming => 4,
    }
}

/// Bytes of a barrier frame.
pub open spec fn barrier_bytes(frame: BarrierFrame) -> Seq<u8> {
    seq![FrameKind::Barrier.byte()] + (le_bytes(frame.client_id.0 as nat, 8) + (le_bytes(
        frame.barrier_id.0 as nat,
        8,
    ) + (le_bytes(frame.server_tick.0 as nat, 8) + seq![barrier_state_byte(frame.state)])))
}

/// Bytes of any frame.
pub open spec fn frame_bytes(frame: FrameModel) -> Encoded {
    match frame {
        FrameModel::Replication(frame) => replication_bytes(frame),
        FrameModel::Command(frame) => command_bytes(frame),
        FrameModel::CommandDispatch(frame) => dispatch_bytes(frame),
        FrameModel::CommandAck(frame) => (command_ack_bytes(frame), None),
        FrameModel::Barrier(frame) => (barrier_bytes(frame), None),
        FrameModel::StationEvent(frame) => (station_event_bytes(frame), None),
    }
}

// Decoding.

/// A value read from the input together with the offset behind it.
pub type Parsed<T> = Result<(T, int), BinaryDecodeError>;

/// The error for `count` bytes wanted at `at`.
pub open spec fn truncated(input: Seq<u8>, at: int, count: int) -> BinaryDecodeError {
    BinaryDecodeError::Truncated {
        needed: if at + count > usize::MAX {
            usize::MAX
        } else {
            (at + count) as usize
        },
        available: input.len() as usize,
    }
}

/// Reads a number of `width` bytes.
pub open spec fn number_at(input: Seq<u8>, at: int, width: int) -> Parsed<nat> {
    if at + width <= input.len() {
        Ok((le_value(input.subrange(at, at + width)), at + width))
    } else {
        Err(truncated(input, at, width))
    }
}

/// Reads one byte.
pub open spec fn byte_at(input: Seq<u8>, at: int) -> Parsed<u8> {
    if at + 1 <= input.len() {
        Ok((input[at], at + 1))
    } else {
        Err(truncated(input, at, 1))
    }
}

/// Reads `count` bytes.
pub open spec fn slice_at(input: Seq<u8>, at: int, count: int) -> Parsed<Seq<u8>> {
    if at + count <= input.len() {
        Ok((input.subrange(at, at + count), at + count))
    } else {
        Err(truncated(input, at, count))
    }
}

/// Reads a byte string behind its four-byte length.
pub open spec fn payload_at(input: Seq<u8>, at: int) -> Parsed<Seq<u8>> {
    match number_at(input, at, 4) {
        Err(error) => Err(error),
        Ok((count, at)) => slice_at(input, at, count as int),
    }
}

/// Reads one component delta.
pub open spec fn component_at(input: Seq<u8>, at: int) -> Parsed<ComponentDeltaModel> {
    match number_at(input, at, 2) {
        Err(error) => Err(error),
        Ok((component_id, at)) => match number_at(input, at, 8) {
            Err(error) => Err(error),
            Ok((version, at)) => match byte_at(input, at) {
                Err(error) => Err(error),
                Ok((flags, at)) => match payload_at(input, at) {
                    Err(error) => Err(error),
                    Ok((bytes, at)) => Ok(
                        (
                            ComponentDeltaModel {
                                component_id: ComponentId(component_id as u16),
                                version: version as u64,
                                flags,
                                bytes,
                            },
                            at,
                        ),
                    ),
                },
            },
        },
    }
}

/// Puts `read` in front of what the rest of a list parses to.
pub open spec fn after<T>(read: Seq<T>, rest: Parsed<Seq<T>>) -> Parsed<Seq<T>> {
    match rest {
        Err(error) => Err(error),
        Ok((items, at)) => Ok((read + items, at)),
    }
}

/// Reads `count` component deltas.
pub open spec fn components_at(input: Seq<u8>, at: int, count: nat) -> Parsed<
    Seq<ComponentDeltaModel>,
>
    decreases count,
{
    if count == 0 {
        Ok((Seq::empty(), at))
    } else {
        match component_at(input, at) {
            Err(error) => Err(error),
            Ok((component, next)) => after(
                seq![component],
                components_at(input, next, (count - 1) as nat),
            ),
        }
    }
}

/// Reads one entity delta.
pub open spec fn entity_at(input: Seq<u8>, at: int) -> Parsed<EntityDeltaModel> {
    match number_at(input, at, 8) {
        Err(error) => Err(error),
        Ok((entity_id, at)) => match number_at(input, at, 8) {
            Err(error) => Err(error),
            Ok((owner_epoch, at)) => match number_at(input, at, 2) {
                Err(error) => Err(error),
                Ok((count, at)) => match components_at(input, at, count) {
                    Err(error) => Err(error),
                    Ok((components, at)) => Ok(
                        (
                            EntityDeltaModel {
                                entity_id: EntityId(entity_id as u64),
                                owner_epoch: OwnerEpoch(owner_epoch as u64),
                                components,
                            },
                            at,
                        ),
                    ),
                },
            },
        },
    }
}

/// Reads `count` entity deltas.
pub open spec fn entities_at(input: Seq<u8>, at: int, count: nat) -> Parsed<Seq<EntityDeltaModel>>
    decreases count,
{
    if count == 0 {
        Ok((Seq::empty(), at))
    } else {
        match entity_at(input, at) {
            Err(error) => Err(error),
            Ok((entity, next)) => after(
                seq![entity],
                entities_at(input, next, (count - 1) as nat),
            ),
        }
    }
}

/// Leading fields of a replication frame: client, tick, planned entities, payload estimate, and
/// the number of entity deltas that follow.
pub struct ReplicationHeader {
    pub client_id: ClientId,
    pub server_tick: Tick,
    pub entity_count: u32,
    pub estimated_payload_bytes: u32,
    pub deltas: u32,
}

/// Reads the leading fields of a replication frame behind its kind byte.
pub open spec fn replication_header_at(input: Seq<u8>, at: int) -> Parsed<ReplicationHeader> {
    match number_at(input, at, 8) {
        Err(error) => Err(error),
        Ok((client_id, at)) => match number_at(input, at, 8) {
            Err(error) => Err(error),
            Ok((server_tick, at)) => match number_at(input, at, 4) {
                Err(error) => Err(error),
                Ok((entity_count, at)) => match number_at(input, at, 4) {
                    Err(error) => Err(error),
                    Ok((estimated, at)) => match number_at(input, at, 4) {
                        Err(error) => Err(error),
                        Ok((deltas, at)) => Ok(
                            (
                                ReplicationHeader {
                                    client_id: ClientId(client_id as u64),
                                    server_tick: Tick(server_tick as u64),
                                    entity_count: entity_count as u32,
                                    estimated_payload_bytes: estimated as u32,
                                    deltas: deltas as u32,
                                },
                                at,
                            ),
                        ),
                    },
                },
            },
        },
    }
}

/// Reads the fields of a replication frame behind its kind byte.
pub open spec fn replication_at(input: Seq<u8>, at: int) -> Parsed<FrameModel> {
    match replication_header_at(input, at) {
        Err(error) => Err(error),
        Ok((header, at)) => match entities_at(input, at, header.deltas as nat) {
            Err(error) => Err(error),
            Ok((entities, at)) => Ok(
                (
                    FrameModel::Replication(
                        ReplicationFrameModel {
                            client_id: header.client_id,
                            server_tick: header.server_tick,
                            entity_count: header.entity_count,
                            estimated_payload_bytes: header.estimated_payload_bytes,
                            entities,
                        },
                    ),
                    at,
                ),
            ),
        },
    }
}

/// Reads the fields of a command acknowledgement behind its kind byte.
pub open spec fn command_ack_at(input: Seq<u8>, at: int) -> Parsed<FrameModel> {
    match number_at(input, at, 8) {
        Err(error) => Err(error),
        Ok((client_id, at)) => match number_at(input, at, 8) {
            Err(error) => Err(error),
            Ok((command_id, at)) => match number_at(input, at, 8) {
                Err(error) => Err(error),
                Ok((server_tick, at)) => match byte_at(input, at) {
                    Err(error) => Err(error),
                    Ok((accepted, at)) => match number_at(input, at, 2) {
                        Err(error) => Err(error),
                        Ok((reason_code, at)) => Ok(
                            (
                                FrameModel::CommandAck(
                                    CommandAckFrame {
                                        client_id: ClientId(client_id as u64),
                                        command_id: CommandId(command_id as u64),
                                        server_tick: Tick(server_tick as u64),
                                        accepted: accepted != 0,
                                        reason_code: reason_code as u16,
                                    },
                                ),
                                at,
                            ),
                        ),
                    },
                },
            },
        },
    }
}

/// Reads a command priority.
pub open spec fn command_priority_at(input: Seq<u8>, at: int) -> Parsed<CommandPriority> {
    match byte_at(input, at) {
        Err(error) => Err(error),
        Ok((byte, at)) => if byte == 0 {
            Ok((CommandPriority::Normal, at))
        } else if byte == 1 {
            Ok((CommandPriority::High, at))
        } else if byte == 2 {
            Ok((CommandPriority::Low, at))
        } else {
            Err(BinaryDecodeError::InvalidCommandPriority(byte))
        },
    }
}

/// Reads the kind, priority and payload that end every command.
pub open spec fn command_tail_at(input: Seq<u8>, at: int) -> Parsed<
    (u32, CommandPriority, Seq<u8>),
> {
    match number_at(input, at, 4) {
        Err(error) => Err(error),
        Ok((kind, at)) => match command_priority_at(input, at) {
            Err(error) => Err(error),
            Ok((priority, at)) => match payload_at(input, at) {
                Err(error) => Err(error),
                Ok((payload, at)) => Ok(((kind as u32, priority, payload), at)),
            },
        },
    }
}

/// Reads the client, command, entity and sequence that begin every command.
pub open spec fn command_identity_at(input: Seq<u8>, at: int) -> Parsed<
    (ClientId, CommandId, EntityId, u64),
> {
    match number_at(input, at, 8) {
        Err(error) => Err(error),
        Ok((client_id, at)) => match number_at(input, at, 8) {
            Err(error) => Err(error),
            Ok((command_id, at)) => match number_at(input, at, 8) {
                Err(error) => Err(error),
                Ok((entity_id, at)) => match number_at(input, at, 8) {
                    Err(error) => Err(error),
                    Ok((sequence, at)) => Ok(
                        (
                            (
                                ClientId(client_id as u64),
                                CommandId(command_id as u64),
                                EntityId(entity_id as u64),
                                sequence as u64,
                            ),
                            at,
                        ),
                    ),
                },
            },
        },
    }
}

/// Reads the fields of a command frame behind its kind byte.
pub open spec fn command_at(input: Seq<u8>, at: int) -> Parsed<FrameModel> {
    match command_identity_at(input, at) {
        Err(error) => Err(error),
        Ok((identity, at)) => match command_tail_at(input, at) {
            Err(error) => Err(error),
            Ok((tail, at)) => Ok(
                (
                    FrameModel::Command(
                        CommandModel {
                            client_id: identity.0,
                            command_id: identity.1,
                            entity_id: identity.2,
                            sequence: identity.3,
                            kind: tail.0,
                            priority: tail.1,
                            payload: tail.2,
                        },
                    ),
                    at,
                ),
            ),
        },
    }
}

/// Reads the fields of a command dispatch frame behind its kind byte.
pub open spec fn dispatch_at(input: Seq<u8>, at: int) -> Parsed<FrameModel> {
    match number_at(input, at, 4) {
        Err(error) => Err(error),
        Ok((station_id, at)) => match command_identity_at(input, at) {
            Err(error) => Err(error),
            Ok((identity, at)) => match number_at(input, at, 8) {
                Err(error) => Err(error),
                Ok((received_at, at)) => match command_tail_at(input, at) {
                    Err(error) => Err(error),
                    Ok((tail, at)) => Ok(
                        (
                            FrameModel::CommandDispatch(
                                DispatchModel {
                                    station_id: StationId(station_id as u32),
                                    envelope: EnvelopeModel {
                                        command: CommandModel {
                                            client_id: identity.0,
                                            command_id: identity.1,
                                            entity_id: identity.2,
                                            sequence: identity.3,
                                            kind: tail.0,
                                            priority: tail.1,
                                            payload: tail.2,
                                        },
                                        received_at: Tick(received_at as u64),
                                    },
                                },
                            ),
                            at,
                        ),
                    ),
                },
            },
        },
    }
}

/// Reads a barrier state.
pub open spec fn barrier_state_at(input: Seq<u8>, at: int) -> Parsed<BarrierState> {
    match byte_at(input, at) {
        Err(error) => Err(error),
        Ok((byte, at)) => if byte == 0 {
            Ok((BarrierState::Running, at))
        } else if byte == 1 {
            Ok((BarrierState::Requested, at))
        } else if byte == 2 {
            Ok((BarrierState::WaitingTickBoundary, at))
        } else if byte == 3 {
            Ok((BarrierState::Frozen, at))
        } else if byte == 4 {
            Ok((BarrierState::Resuming, at))
        } else {
            Err(BinaryDecodeError::InvalidBarrierState(byte))
        },
    }
}

/// Reads the fields of a barrier frame behind its kind byte.
pub open spec fn barrier_at(input: Seq<u8>, at: int) -> Parsed<FrameModel> {
    match number_at(input, at, 8) {
        Err(error) => Err(error),
        Ok((client_id, at)) => match number_at(input, at, 8) {
            Err(error) => Err(error),
            Ok((barrier_id, at)) => match number_at(input, at, 8) {
                Err(error) => Err(error),
                Ok((server_tick, at)) => match barrier_state_at(input, at) {
                    Err(error) => Err(error),
                    Ok((state, at)) => Ok(
                        (
                            FrameModel::Barrier(
                                BarrierFrame {
                                    client_id: ClientId(client_id as u64),
                                    barrier_id: BarrierId(barrier_id as u64),
                                    server_tick: Tick(server_tick as u64),
                                    state,
                                },
                            ),
                            at,
                        ),
                    ),
                },
            },
        },
    }
}

/// Reads an event priority.
pub open spec fn event_priority_at(input: Seq<u8>, at: int) -> Parsed<EventPriority> {
    match byte_at(input, at) {
        Err(error) => Err(error),
        Ok((byte, at)) => if byte == 0 {
            Ok((EventPriority::Critical, at))
        } else if byte == 1 {
            Ok((EventPriority::Important, at))
        } else if byte == 2 {
            Ok((EventPriority::BestEffort, at))
        } else {
            Err(BinaryDecodeError::InvalidEventPriority(byte))
        },
    }
}

/// Reads an event kind.
pub open spec fn event_kind_at(input: Seq<u8>, at: int) -> Parsed<EventKind> {
    match byte_at(input, at) {
        Err(error) => Err(error),
        Ok((byte, at)) => if byte == 0 {
            match number_at(input, at, 4) {
                Err(error) => Err(error),
                Ok((custom, at)) => Ok((EventKind::Custom(custom as u32), at)),
            }
        } else if byte == 1 {
            match number_at(input, at, 8) {
                Err(error) => Err(error),
                Ok((entity_id, at)) => Ok(
                    (EventKind::HandoffPrepare { entity_id: EntityId(entity_id as u64) }, at),
                ),
            }
        } else if byte == 2 {
            match number_at(input, at, 8) {
                Err(error) => Err(error),
                Ok((entity_id, at)) => match number_at(input, at, 8) {
                    Err(error) => Err(error),
                    Ok((owner_epoch, at)) => Ok(
                        (
                            EventKind::HandoffCommit {
                                entity_id: EntityId(entity_id as u64),
                                owner_epoch: OwnerEpoch(owner_epoch as u64),
                            },
                            at,
                        ),
                    ),
                },
            }
        } else {
            Err(BinaryDecodeError::InvalidEventKind(byte))
        },
    }
}

/// Reads the fields of a station event frame behind its kind byte.
pub open spec fn station_event_at(input: Seq<u8>, at: int) -> Parsed<FrameModel> {
    match number_at(input, at, 8) {
        Err(error) => Err(error),
        Ok((event_id, at)) => match number_at(input, at, 4) {
            Err(error) => Err(error),
            Ok((source, at)) => match number_at(input, at, 4) {
                Err(error) => Err(error),
                Ok((target, at)) => match number_at(input, at, 8) {
                    Err(error) => Err(error),
                    Ok((source_tick, at)) => match number_at(input, at, 8) {
                        Err(error) => Err(error),
                        Ok((target_tick, at)) => match event_priority_at(input, at) {
                            Err(error) => Err(error),
                            Ok((priority, at)) => match event_kind_at(input, at) {
                                Err(error) => Err(error),
                                Ok((kind, at)) => Ok(
                                    (
                                        FrameModel::StationEvent(
                                            StationEventFrame {
                                                event_id: EventId(event_id as u64),
                                                source_station: StationId(source as u32),
                                                target_station: StationId(target as u32),
                                                source_tick: Tick(source_tick as u64),
                                                target_tick: Tick(target_tick as u64),
                                                priority,
                                                kind,
                                            },
                                        ),
                                        at,
                                    ),
                                ),
                            },
                        },
                    },
                },
            },
        },
    }
}

/// Reads a frame from the front of the input.
pub open spec fn frame_at_front(input: Seq<u8>) -> Parsed<FrameModel> {
    match byte_at(input, 0) {
        Err(_) => Err(BinaryDecodeError::Empty),
        Ok((kind, at)) => if kind == FrameKind::Replication.byte() {
            replication_at(input, at)
        } else if kind == FrameKind::CommandAck.byte() {
            command_ack_at(input, at)
        } else if kind == FrameKind::Barrier.byte() {
            barrier_at(input, at)
        } else if kind == FrameKind::Command.byte() {
            command_at(input, at)
        } else if kind == FrameKind::StationEvent.byte() {
            station_event_at(input, at)
        } else if kind == FrameKind::CommandDispatch.byte() {
            dispatch_at(input, at)
        } else {
            Err(BinaryDecodeError::UnknownFrameKind(kind))
        },
    }
}

/// What a whole input denotes: one frame and nothing behind it.
#[verifier::opaque]
pub open spec fn decoded_frame(input: Seq<u8>) -> Result<FrameModel, BinaryDecodeError> {
    match frame_at_front(input) {
        Err(error) => Err(error),
        Ok((frame, at)) => if at == input.len() {
            Ok(frame)
        } else {
            Err(BinaryDecodeError::TrailingBytes((input.len() - at) as usize))
        },
    }
}

} // verus!
