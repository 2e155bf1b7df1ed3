//! Little-endian binary frame encoder and decoder.

use vstd::prelude::*;

use crate::bytes::{lemma_le_limits, push_all, push_u16, push_u32, push_u64, read_le};
use crate::frames::{
    component_models, entity_models, BarrierFrame, CommandAckFrame, CommandDispatchFrame,
    CommandFrame, ComponentDelta, DispatchModel, EntityDelta, FrameDecoder, FrameEncoder, FrameKind,
    FrameModel, ReplicationFrame, RuntimeFrame, StationEventFrame,
};
use crate::ids::{
    BarrierId, BarrierState, ClientId, CommandEnvelope, CommandId, CommandPriority, ComponentId,
    EntityId, EventId, EventKind, EventPriority, OwnerEpoch, StationId, Tick,
};
use crate::wire_spec::{
    after, barrier_at, barrier_bytes, barrier_state_at, barrier_state_byte, byte_at, command_ack_at,
    command_ack_bytes, command_at, command_bytes, command_header, command_identity_at,
    command_priority_at, command_priority_byte, component_at, component_bytes, components_at,
    components_bytes, count_bytes, decoded_frame, dispatch_at, dispatch_bytes, dispatch_header,
    entities_at, entities_bytes, entity_at, entity_bytes, event_kind_at, event_kind_bytes,
    event_priority_at, event_priority_byte, number_at, payload_at, payload_bytes, replication_at,
    replication_bytes, replication_header, replication_header_at, slice_at, station_event_at,
    station_event_bytes, truncated, BinaryDecodeError, BinaryEncodeError, Encoded, Parsed,
    ReplicationHeader,
};

verus! {

/// A reading position in an input.
pub(crate) struct Cursor<'a> {
    pub input: &'a [u8],
    pub offset: usize,
}

/// Relates the outcome of a read to what the format says of the input at that position.
pub(crate) open spec fn reads<T>(
    before: Cursor<'_>,
    after: Cursor<'_>,
    result: Result<T, BinaryDecodeError>,
    expected: Parsed<T>,
) -> bool {
    &&& after.input == before.input
    &&& after.wf()
    &&& match result {
        Ok(value) => expected == Ok::<(T, int), BinaryDecodeError>((value, after.offset as int)),
        Err(error) => expected == Err::<(T, int), BinaryDecodeError>(error),
    }
}

/// Like `reads`, for a value that stands for its view.
pub(crate) open spec fn reads_view<T: View>(
    before: Cursor<'_>,
    after: Cursor<'_>,
    result: Result<T, BinaryDecodeError>,
    expected: Parsed<T::V>,
) -> bool {
    &&& after.input == before.input
    &&& after.wf()
    &&& match result {
        Ok(value) => expected == Ok::<(T::V, int), BinaryDecodeError>(
            (value@, after.offset as int),
        ),
        Err(error) => expected == Err::<(T::V, int), BinaryDecodeError>(error),
    }
}

impl<'a> Cursor<'a> {
    pub(crate) open spec fn wf(self) -> bool {
        self.offset <= self.input@.len() <= usize::MAX
    }

    pub(crate) fn new(input: &'a [u8]) -> (cursor: Self)
        ensures
            cursor.input == input,
            cursor.offset == 0,
            cursor.wf(),
    {
        let total: usize = input.len();
        assert(input@.len() == total);
        Self { input, offset: 0 }
    }

    fn require(&self, count: usize) -> (result: Result<(), BinaryDecodeError>)
        requires
            self.wf(),
        ensures
            result is Ok <==> self.offset + count <= self.input@.len(),
            result matches Err(error) ==> error == truncated(
                self.input@,
                self.offset as int,
                count as int,
            ),
    {
        if count > self.input.len() - self.offset {
            Err(
                BinaryDecodeError::Truncated {
                    needed: self.offset.saturating_add(count),
                    available: self.input.len(),
                },
            )
        } else {
            Ok(())
        }
    }

    pub(crate) fn read_u8(&mut self) -> (result: Result<u8, BinaryDecodeError>)
        requires
            old(self).wf(),
        ensures
            reads(
                *old(self),
                *final(self),
                result,
                byte_at(old(self).input@, old(self).offset as int),
            ),
    {
        self.require(1)?;
        let value: u8 = self.input[self.offset];
        self.offset = self.offset + 1;
        Ok(value)
    }

    fn read_number(&mut self, width: usize) -> (result: Result<u64, BinaryDecodeError>)
        requires
            old(self).wf(),
            width <= 8,
        ensures
            final(self).input == old(self).input,
            final(self).wf(),
            match result {
                Ok(value) => number_at(old(self).input@, old(self).offset as int, width as int)
                    == Ok::<(nat, int), BinaryDecodeError>(
                    (value as nat, final(self).offset as int),
                ) && value < crate::bytes::le_limit(width as nat),
                Err(error) => number_at(old(self).input@, old(self).offset as int, width as int)
                    == Err::<(nat, int), BinaryDecodeError>(error),
            },
    {
        self.require(width)?;
        let value: u64 = read_le(self.input, self.offset, width);
        self.offset = self.offset + width;
        Ok(value)
    }

    pub(crate) fn read_u16(&mut self) -> (result: Result<u16, BinaryDecodeError>)
        requires
            old(self).wf(),
        ensures
            final(self).input == old(self).input,
            final(self).wf(),
            match result {
                Ok(value) => number_at(old(self).input@, old(self).offset as int, 2) == Ok::<
                    (nat, int),
                    BinaryDecodeError,
                >((value as nat, final(self).offset as int)),
                Err(error) => number_at(old(self).input@, old(self).offset as int, 2) == Err::<
                    (nat, int),
                    BinaryDecodeError,
                >(error),
            },
    {
        let value: u64 = self.read_number(2)?;
        proof {
            lemma_le_limits();
        }
        Ok(value as u16)
    }

    pub(crate) fn read_u32(&mut self) -> (result: Result<u32, BinaryDecodeError>)
        requires
            old(self).wf(),
        ensures
            final(self).input == old(self).input,
            final(self).wf(),
            match result {
                Ok(value) => number_at(old(self).input@, old(self).offset as int, 4) == Ok::<
                    (nat, int),
                    BinaryDecodeError,
                >((value as nat, final(self).offset as int)),
                Err(error) => number_at(old(self).input@, old(self).offset as int, 4) == Err::<
                    (nat, int),
                    BinaryDecodeError,
                >(error),
            },
    {
        let value: u64 = self.read_number(4)?;
        proof {
            lemma_le_limits();
        }
        Ok(value as u32)
    }

    pub(crate) fn read_u64(&mut self) -> (result: Result<u64, BinaryDecodeError>)
        requires
            old(self).wf(),
        ensures
            final(self).input == old(self).input,
            final(self).wf(),
            match result {
                Ok(value) => number_at(old(self).input@, old(self).offset as int, 8) == Ok::<
                    (nat, int),
                    BinaryDecodeError,
                >((value as nat, final(self).offset as int)),
                Err(error) => number_at(old(self).input@, old(self).offset as int, 8) == Err::<
                    (nat, int),
                    BinaryDecodeError,
                >(error),
            },
    {
        self.read_number(8)
    }

    pub(crate) fn read_slice(&mut self, count: usize) -> (result: Result<
        &'a [u8],
        BinaryDecodeError,
    >)
        requires
            old(self).wf(),
        ensures
            reads_view(*old(self), *final(self), result, slice_at(old(self).input@, old(self).offset as int, count as int)),
    {
        self.require(count)?;
        let bytes: &'a [u8] = &self.input[self.offset..self.offset + count];
        self.offset = self.offset + count;
        Ok(bytes)
    }

    pub(crate) fn read_payload_ref(&mut self) -> (result: Result<&'a [u8], BinaryDecodeError>)
        requires
            old(self).wf(),
        ensures
            reads_view(*old(self), *final(self), result, payload_at(old(self).input@, old(self).offset as int)),
    {
        let count: u32 = self.read_u32()?;
        self.read_slice(count as usize)
    }

    fn read_payload(&mut self) -> (result: Result<Vec<u8>, BinaryDecodeError>)
        requires
            old(self).wf(),
        ensures
            reads_view(*old(self), *final(self), result, payload_at(old(self).input@, old(self).offset as int)),
    {
        let bytes = self.read_payload_ref()?;
        let mut owned: Vec<u8> = Vec::new();
        push_all(&mut owned, bytes);
        assert(owned@ =~= bytes@);
        Ok(owned)
    }

    pub(crate) fn finish(&self) -> (result: Result<(), BinaryDecodeError>)
        requires
            self.wf(),
        ensures
            result is Ok <==> self.offset == self.input@.len(),
            result matches Err(error) ==> error == BinaryDecodeError::TrailingBytes(
                (self.input@.len() - self.offset) as usize,
            ),
    {
        if self.offset == self.input.len() {
            Ok(())
        } else {
            Err(BinaryDecodeError::TrailingBytes(self.input.len() - self.offset))
        }
    }
}

/// Simple little-endian binary frame decoder.
#[derive(Clone, Copy, Debug, Default)]
pub struct BinaryFrameDecoder;

fn decode_component(cursor: &mut Cursor<'_>) -> (result: Result<ComponentDelta, BinaryDecodeError>)
    requires
        old(cursor).wf(),
    ensures
        reads_view(
            *old(cursor),
            *final(cursor),
            result,
            component_at(old(cursor).input@, old(cursor).offset as int),
        ),
{
    let component_id = ComponentId(cursor.read_u16()?);
    let version: u64 = cursor.read_u64()?;
    let flags: u8 = cursor.read_u8()?;
    let bytes = cursor.read_payload()?;
    Ok(ComponentDelta { component_id, version, flags, bytes })
}

fn decode_entity(cursor: &mut Cursor<'_>) -> (result: Result<EntityDelta, BinaryDecodeError>)
    requires
        old(cursor).wf(),
    ensures
        reads_view(
            *old(cursor),
            *final(cursor),
            result,
            entity_at(old(cursor).input@, old(cursor).offset as int),
        ),
{
    let entity_id = EntityId(cursor.read_u64()?);
    let owner_epoch = OwnerEpoch(cursor.read_u64()?);
    let count: u16 = cursor.read_u16()?;
    let ghost start = cursor.offset as int;
    let ghost input = cursor.input@;
    let mut components: Vec<ComponentDelta> = Vec::new();
    let mut read: u16 = 0;
    assert(components_at(input, start, count as nat) == after(
        component_models(components@),
        components_at(input, start, count as nat),
    )) by {
        lemma_after_nothing(components_at(input, start, count as nat));
        assert(component_models(components@) =~= Seq::empty());
    }
    while read < count
        invariant
            read <= count,
            cursor.wf(),
            cursor.input@ == input,
            cursor.input == old(cursor).input,
            entity_at(old(cursor).input@, old(cursor).offset as int) == (match components_at(
                input,
                start,
                count as nat,
            ) {
                Err(error) => Err(error),
                Ok((components, at)) => Ok(
                    (
                        crate::frames::EntityDeltaModel { entity_id, owner_epoch, components },
                        at,
                    ),
                ),
            }),
            components_at(input, start, count as nat) == after(
                component_models(components@),
                components_at(input, cursor.offset as int, (count - read) as nat),
            ),
        decreases count - read,
    {
        let ghost so_far = component_models(components@);
        let component = decode_component(cursor)?;
        components.push(component);
        read = read + 1;
        proof {
            assert(component_models(components@) =~= so_far + seq![component@]);
            lemma_after_step(
                so_far,
                component@,
                components_at(input, cursor.offset as int, (count - read) as nat),
            );
        }
    }
    proof {
        assert(component_models(components@) + Seq::empty() =~= component_models(components@));
    }
    Ok(EntityDelta { entity_id, owner_epoch, components })
}

pub(crate) proof fn lemma_after_nothing<T>(rest: Parsed<Seq<T>>)
    ensures
        after(Seq::empty(), rest) == rest,
{
    if let Ok((items, at)) = rest {
        assert(Seq::empty() + items =~= items);
    }
}

pub(crate) proof fn lemma_after_step<T>(read: Seq<T>, item: T, rest: Parsed<Seq<T>>)
    ensures
        after(read, after(seq![item], rest)) == after(read + seq![item], rest),
{
    if let Ok((items, at)) = rest {
        assert(read + (seq![item] + items) =~= (read + seq![item]) + items);
    }
}

pub(crate) fn decode_replication_header(cursor: &mut Cursor<'_>) -> (result: Result<
    ReplicationHeader,
    BinaryDecodeError,
>)
    requires
        old(cursor).wf(),
    ensures
        reads(
            *old(cursor),
            *final(cursor),
            result,
            replication_header_at(old(cursor).input@, old(cursor).offset as int),
        ),
{
    let client_id = ClientId(cursor.read_u64()?);
    let server_tick = Tick(cursor.read_u64()?);
    let entity_count: u32 = cursor.read_u32()?;
    let estimated_payload_bytes: u32 = cursor.read_u32()?;
    let deltas: u32 = cursor.read_u32()?;
    Ok(
        ReplicationHeader {
            client_id,
            server_tick,
            entity_count,
            estimated_payload_bytes,
            deltas,
        },
    )
}

fn decode_replication_fields(cursor: &mut Cursor<'_>) -> (result: Result<
    RuntimeFrame,
    BinaryDecodeError,
>)
    requires
        old(cursor).wf(),
    ensures
        reads_view(
            *old(cursor),
            *final(cursor),
            result,
            replication_at(old(cursor).input@, old(cursor).offset as int),
        ),
{
    let header = decode_replication_header(cursor)?;
    let count: u32 = header.deltas;
    let ghost start = cursor.offset as int;
    let ghost input = cursor.input@;
    let mut entities: Vec<EntityDelta> = Vec::new();
    let mut read: u32 = 0;
    assert(entities_at(input, start, count as nat) == after(
        entity_models(entities@),
        entities_at(input, start, count as nat),
    )) by {
        lemma_after_nothing(entities_at(input, start, count as nat));
        assert(entity_models(entities@) =~= Seq::empty());
    }
    while read < count
        invariant
            read <= count,
            count == header.deltas,
            cursor.wf(),
            cursor.input@ == input,
            cursor.input == old(cursor).input,
            replication_header_at(old(cursor).input@, old(cursor).offset as int) == Ok::<
                _,
                BinaryDecodeError,
            >((header, start)),
            entities_at(input, start, count as nat) == after(
                entity_models(entities@),
                entities_at(input, cursor.offset as int, (count - read) as nat),
            ),
        decreases count - read,
    {
        let ghost so_far = entity_models(entities@);
        let entity = decode_entity(cursor)?;
        entities.push(entity);
        read = read + 1;
        proof {
            assert(entity_models(entities@) =~= so_far + seq![entity@]);
            lemma_after_step(
                so_far,
                entity@,
                entities_at(input, cursor.offset as int, (count - read) as nat),
            );
        }
    }
    proof {
        assert(entity_models(entities@) + Seq::empty() =~= entity_models(entities@));
    }
    Ok(
        RuntimeFrame::Replication(
            ReplicationFrame {
                client_id: header.client_id,
                server_tick: header.server_tick,
                entity_count: header.entity_count,
                estimated_payload_bytes: header.estimated_payload_bytes,
                entities,
            },
        ),
    )
}

fn decode_command_ack(cursor: &mut Cursor<'_>) -> (result: Result<RuntimeFrame, BinaryDecodeError>)
    requires
        old(cursor).wf(),
    ensures
        reads_view(
            *old(cursor),
            *final(cursor),
            result,
            command_ack_at(old(cursor).input@, old(cursor).offset as int),
        ),
{
    let client_id = ClientId(cursor.read_u64()?);
    let command_id = CommandId(cursor.read_u64()?);
    let server_tick = Tick(cursor.read_u64()?);
    let accepted: bool = cursor.read_u8()? != 0;
    let reason_code: u16 = cursor.read_u16()?;
    Ok(
        RuntimeFrame::CommandAck(
            CommandAckFrame { client_id, command_id, server_tick, accepted, reason_code },
        ),
    )
}

fn decode_command_priority(cursor: &mut Cursor<'_>) -> (result: Result<
    CommandPriority,
    BinaryDecodeError,
>)
    requires
        old(cursor).wf(),
    ensures
        reads(
            *old(cursor),
            *final(cursor),
            result,
            command_priority_at(old(cursor).input@, old(cursor).offset as int),
        ),
{
    let byte: u8 = cursor.read_u8()?;
    match byte {
        0 => Ok(CommandPriority::Normal),
        1 => Ok(CommandPriority::High),
        2 => Ok(CommandPriority::Low),
        _ => Err(BinaryDecodeError::InvalidCommandPriority(byte)),
    }
}

fn decode_command_identity(cursor: &mut Cursor<'_>) -> (result: Result<
    (ClientId, CommandId, EntityId, u64),
    BinaryDecodeError,
>)
    requires
        old(cursor).wf(),
    ensures
        reads(
            *old(cursor),
            *final(cursor),
            result,
            command_identity_at(old(cursor).input@, old(cursor).offset as int),
        ),
{
    let client_id = ClientId(cursor.read_u64()?);
    let command_id = CommandId(cursor.read_u64()?);
    let entity_id = EntityId(cursor.read_u64()?);
    let sequence: u64 = cursor.read_u64()?;
    Ok((client_id, command_id, entity_id, sequence))
}

fn decode_command(cursor: &mut Cursor<'_>) -> (result: Result<RuntimeFrame, BinaryDecodeError>)
    requires
        old(cursor).wf(),
    ensures
        reads_view(
            *old(cursor),
            *final(cursor),
            result,
            command_at(old(cursor).input@, old(cursor).offset as int),
        ),
{
    let (client_id, command_id, entity_id, sequence) = decode_command_identity(cursor)?;
    let kind: u32 = cursor.read_u32()?;
    let priority = decode_command_priority(cursor)?;
    let payload = cursor.read_payload()?;
    Ok(
        RuntimeFrame::Command(
            CommandFrame { client_id, command_id, entity_id, sequence, kind, priority, payload },
        ),
    )
}

fn decode_command_dispatch(cursor: &mut Cursor<'_>) -> (result: Result<
    RuntimeFrame,
    BinaryDecodeError,
>)
    requires
        old(cursor).wf(),
    ensures
        reads_view(
            *old(cursor),
            *final(cursor),
            result,
            dispatch_at(old(cursor).input@, old(cursor).offset as int),
        ),
{
    let station_id = StationId(cursor.read_u32()?);
    let (client_id, command_id, entity_id, sequence) = decode_command_identity(cursor)?;
    let received_at = Tick(cursor.read_u64()?);
    let kind: u32 = cursor.read_u32()?;
    let priority = decode_command_priority(cursor)?;
    let payload = cursor.read_payload()?;
    Ok(
        RuntimeFrame::CommandDispatch(
            CommandDispatchFrame {
                station_id,
                client_id,
                command_id,
                entity_id,
                sequence,
                received_at,
                kind,
                priority,
                payload,
            },
        ),
    )
}

fn decode_barrier_state(cursor: &mut Cursor<'_>) -> (result: Result<
    BarrierState,
    BinaryDecodeError,
>)
    requires
        old(cursor).wf(),
    ensures
        reads(
            *old(cursor),
            *final(cursor),
            result,
            barrier_state_at(old(cursor).input@, old(cursor).offset as int),
        ),
{
    let byte: u8 = cursor.read_u8()?;
    match byte {
        0 => Ok(BarrierState::Running),
        1 => Ok(BarrierState::Requested),
        2 => Ok(BarrierState::WaitingTickBoundary),
        3 => Ok(BarrierState::Frozen),
        4 => Ok(BarrierState::Resuming),
        _ => Err(BinaryDecodeError::InvalidBarrierState(byte)),
    }
}

fn decode_barrier(cursor: &mut Cursor<'_>) -> (result: Result<RuntimeFrame, BinaryDecodeError>)
    requires
        old(cursor).wf(),
    ensures
        reads_view(
            *old(cursor),
            *final(cursor),
            result,
            barrier_at(old(cursor).input@, old(cursor).offset as int),
        ),
{
    let client_id = ClientId(cursor.read_u64()?);
    let barrier_id = BarrierId(cursor.read_u64()?);
    let server_tick = Tick(cursor.read_u64()?);
    let state = decode_barrier_state(cursor)?;
    Ok(RuntimeFrame::Barrier(BarrierFrame { client_id, barrier_id, server_tick, state }))
}

fn decode_event_priority(cursor: &mut Cursor<'_>) -> (result: Result<
    EventPriority,
    BinaryDecodeError,
>)
    requires
        old(cursor).wf(),
    ensures
        reads(
            *old(cursor),
            *final(cursor),
            result,
            event_priority_at(old(cursor).input@, old(cursor).offset as int),
        ),
{
    let byte: u8 = cursor.read_u8()?;
    match byte {
        0 => Ok(EventPriority::Critical),
        1 => Ok(EventPriority::Important),
        2 => Ok(EventPriority::BestEffort),
        _ => Err(BinaryDecodeError::InvalidEventPriority(byte)),
    }
}

fn decode_event_kind(cursor: &mut Cursor<'_>) -> (result: Result<EventKind, BinaryDecodeError>)
    requires
        old(cursor).wf(),
    ensures
        reads(
            *old(cursor),
            *final(cursor),
            result,
            event_kind_at(old(cursor).input@, old(cursor).offset as int),
        ),
{
    let byte: u8 = cursor.read_u8()?;
    match byte {
        0 => {
            let custom: u32 = cursor.read_u32()?;
            Ok(EventKind::Custom(custom))
        },
        1 => {
            let entity_id = EntityId(cursor.read_u64()?);
            Ok(EventKind::HandoffPrepare { entity_id })
        },
        2 => {
            let entity_id = EntityId(cursor.read_u64()?);
            let owner_epoch = OwnerEpoch(cursor.read_u64()?);
            Ok(EventKind::HandoffCommit { entity_id, owner_epoch })
        },
        _ => Err(BinaryDecodeError::InvalidEventKind(byte)),
    }
}

fn decode_station_event(cursor: &mut Cursor<'_>) -> (result: Result<
    RuntimeFrame,
    BinaryDecodeError,
>)
    requires
        old(cursor).wf(),
    ensures
        reads_view(
            *old(cursor),
            *final(cursor),
            result,
            station_event_at(old(cursor).input@, old(cursor).offset as int),
        ),
{
    let event_id = EventId(cursor.read_u64()?);
    let source_station = StationId(cursor.read_u32()?);
    let target_station = StationId(cursor.read_u32()?);
    let source_tick = Tick(cursor.read_u64()?);
    let target_tick = Tick(cursor.read_u64()?);
    let priority = decode_event_priority(cursor)?;
    let kind = decode_event_kind(cursor)?;
    Ok(
        RuntimeFrame::StationEvent(
            StationEventFrame {
                event_id,
                source_station,
                target_station,
                source_tick,
                target_tick,
                priority,
                kind,
            },
        ),
    )
}

/// Relates the outcome of decoding to what the input denotes.
pub open spec fn decodes(input: Seq<u8>, result: Result<RuntimeFrame, BinaryDecodeError>) -> bool {
    match result {
        Ok(frame) => decoded_frame(input) == Ok::<FrameModel, BinaryDecodeError>(frame@),
        Err(error) => decoded_frame(input) == Err::<FrameModel, BinaryDecodeError>(error),
    }
}

impl FrameDecoder for BinaryFrameDecoder {
    type Error = BinaryDecodeError;

    fn decode(&mut self, input: &[u8]) -> (result: Result<RuntimeFrame, BinaryDecodeError>)
        ensures
            decodes(input@, result),
    {
        reveal(decoded_frame);
        let mut cursor = Cursor::new(input);
        let kind_byte: u8 = match cursor.read_u8() {
            Ok(byte) => byte,
            Err(_) => {
                return Err(BinaryDecodeError::Empty);
            },
        };
        let kind = match FrameKind::from_byte(kind_byte) {
            Some(kind) => kind,
            None => {
                return Err(BinaryDecodeError::UnknownFrameKind(kind_byte));
            },
        };
        let frame = match kind {
            FrameKind::Replication => decode_replication_fields(&mut cursor)?,
            FrameKind::CommandAck => decode_command_ack(&mut cursor)?,
            FrameKind::Command => decode_command(&mut cursor)?,
            FrameKind::CommandDispatch => decode_command_dispatch(&mut cursor)?,
            FrameKind::Barrier => decode_barrier(&mut cursor)?,
            FrameKind::StationEvent => decode_station_event(&mut cursor)?,
        };
        cursor.finish()?;
        Ok(frame)
    }
}

/// Relates what an encoder appended and returned to the bytes that the format prescribes.
pub open spec fn appends(
    before: Seq<u8>,
    after: Seq<u8>,
    result: Result<(), BinaryEncodeError>,
    encoded: Encoded,
) -> bool {
    &&& after == before + encoded.0
    &&& match result {
        Ok(()) => encoded.1 is None,
        Err(error) => encoded.1 == Some(error),
    }
}

fn write_len_u16(field: &'static str, len: usize, out: &mut Vec<u8>) -> (result: Result<
    (),
    BinaryEncodeError,
>)
    ensures
        appends(
            old(out)@,
            final(out)@,
            result,
            count_bytes(field, len as nat, 2, u16::MAX as nat),
        ),
{
    if len > u16::MAX as usize {
        assert(out@ =~= old(out)@ + Seq::empty());
        return Err(BinaryEncodeError::TooManyItems { field, actual: len });
    }
    push_u16(out, len as u16);
    Ok(())
}

fn write_len_u32(field: &'static str, len: usize, out: &mut Vec<u8>) -> (result: Result<
    (),
    BinaryEncodeError,
>)
    ensures
        appends(
            old(out)@,
            final(out)@,
            result,
            count_bytes(field, len as nat, 4, u32::MAX as nat),
        ),
{
    if len > u32::MAX as usize {
        assert(out@ =~= old(out)@ + Seq::empty());
        return Err(BinaryEncodeError::TooManyItems { field, actual: len });
    }
    push_u32(out, len as u32);
    Ok(())
}

pub(crate) fn write_bytes(field: &'static str, bytes: &[u8], out: &mut Vec<u8>) -> (result: Result<
    (),
    BinaryEncodeError,
>)
    ensures
        appends(old(out)@, final(out)@, result, payload_bytes(field, bytes@)),
{
    if bytes.len() > u32::MAX as usize {
        assert(out@ =~= old(out)@ + Seq::empty());
        return Err(BinaryEncodeError::PayloadTooLarge { field, actual: bytes.len() });
    }
    push_u32(out, bytes.len() as u32);
    push_all(out, bytes);
    assert(out@ =~= old(out)@ + payload_bytes(field, bytes@).0);
    Ok(())
}

fn encode_command_priority(priority: CommandPriority) -> (byte: u8)
    ensures
        byte == command_priority_byte(priority),
{
    match priority {
        CommandPriority::Normal => 0,
        CommandPriority::High => 1,
        CommandPriority::Low => 2,
    }
}

fn encode_event_priority(priority: EventPriority) -> (byte: u8)
    ensures
        byte == event_priority_byte(priority),
{
    match priority {
        EventPriority::Critical => 0,
        EventPriority::Important => 1,
        EventPriority::BestEffort => 2,
    }
}

fn encode_barrier_state(state: BarrierState) -> (byte: u8)
    ensures
        byte == barrier_state_byte(state),
{
    match state {
        BarrierState::Running => 0,
        BarrierState::Requested => 1,
        BarrierState::WaitingTickBoundary => 2,
        BarrierState::Frozen => 3,
        BarrierState::Resuming => 4,
    }
}

fn encode_event_kind(kind: &EventKind, out: &mut Vec<u8>)
    ensures
        final(out)@ == old(out)@ + event_kind_bytes(*kind),
{
    match kind {
        EventKind::Custom(custom) => {
            out.push(0);
            push_u32(out, *custom);
        },
        EventKind::HandoffPrepare { entity_id } => {
            out.push(1);
            push_u64(out, entity_id.0);
        },
        EventKind::HandoffCommit { entity_id, owner_epoch } => {
            out.push(2);
            push_u64(out, entity_id.0);
            push_u64(out, owner_epoch.0);
        },
    }
    assert(out@ =~= old(out)@ + event_kind_bytes(*kind));
}

fn encode_component(component: &ComponentDelta, out: &mut Vec<u8>) -> (result: Result<
    (),
    BinaryEncodeError,
>)
    ensures
        appends(old(out)@, final(out)@, result, component_bytes(component@)),
{
    push_u16(out, component.component_id.0);
    push_u64(out, component.version);
    out.push(component.flags);
    let result = write_bytes("replication.component.bytes", component.bytes.as_slice(), out);
    assert(out@ =~= old(out)@ + component_bytes(component@).0);
    result
}

/// Leading fields of an entity delta, up to the component count.
spec fn entity_head(entity: crate::frames::EntityDeltaModel) -> Seq<u8> {
    crate::bytes::le_bytes(entity.entity_id.0 as nat, 8) + crate::bytes::le_bytes(
        entity.owner_epoch.0 as nat,
        8,
    )
}

fn encode_entity(entity: &EntityDelta, out: &mut Vec<u8>) -> (result: Result<(), BinaryEncodeError>)
    ensures
        appends(old(out)@, final(out)@, result, entity_bytes(entity@)),
{
    push_u64(out, entity.entity_id.0);
    push_u64(out, entity.owner_epoch.0);
    let ghost models = component_models(entity.components@);
    match write_len_u16("replication.entity.components", entity.components.len(), out) {
        Ok(()) => {},
        Err(error) => {
            assert(out@ =~= old(out)@ + entity_bytes(entity@).0);
            return Err(error);
        },
    }
    let ghost lead = out@;
    let ghost prefix = entity_head(entity@) + count_bytes(
        "replication.entity.components",
        models.len(),
        2,
        u16::MAX as nat,
    ).0;
    let mut index: usize = 0;
    assert(models.skip(0) =~= models);
    assert(lead =~= old(out)@ + prefix);
    assert(lead + components_bytes(models).0 =~= old(out)@ + entity_bytes(entity@).0);
    while index < entity.components.len()
        invariant
            index <= entity.components.len(),
            models == component_models(entity.components@),
            out@ + components_bytes(models.skip(index as int)).0 == old(out)@ + entity_bytes(
                entity@,
            ).0,
            components_bytes(models.skip(index as int)).1 == entity_bytes(entity@).1,
        decreases entity.components.len() - index,
    {
        let ghost before = out@;
        let ghost left = models.skip(index as int);
        assert(left[0] == entity.components[index as int]@);
        assert(left.drop_first() =~= models.skip(index + 1));
        match encode_component(&entity.components[index], out) {
            Ok(()) => {},
            Err(error) => {
                return Err(error);
            },
        }
        assert(out@ + components_bytes(models.skip(index + 1)).0 =~= before + components_bytes(
            left,
        ).0);
        index = index + 1;
    }
    assert(out@ + Seq::empty() =~= out@);
    Ok(())
}

/// Simple little-endian binary frame encoder.
#[derive(Clone, Copy, Debug, Default)]
pub struct BinaryFrameEncoder;

impl FrameEncoder for BinaryFrameEncoder {
    type Error = BinaryEncodeError;

    fn encode_replication(&mut self, frame: &ReplicationFrame, out: &mut Vec<u8>) -> (result:
        Result<(), BinaryEncodeError>)
        ensures
            appends(old(out)@, final(out)@, result, replication_bytes(frame@)),
    {
        out.push(FrameKind::Replication.to_byte());
        push_u64(out, frame.client_id.0);
        push_u64(out, frame.server_tick.0);
        push_u32(out, frame.entity_count);
        push_u32(out, frame.estimated_payload_bytes);
        let ghost models = entity_models(frame.entities@);
        let ghost header = replication_header(
            frame.client_id,
            frame.server_tick,
            frame.entity_count,
            frame.estimated_payload_bytes,
        );
        assert(out@ =~= old(out)@ + header);
        match write_len_u32("replication.entities", frame.entities.len(), out) {
            Ok(()) => {},
            Err(error) => {
                assert(out@ =~= old(out)@ + replication_bytes(frame@).0);
                return Err(error);
            },
        }
        assert(models.skip(0) =~= models);
        assert(out@ + entities_bytes(models).0 =~= old(out)@ + replication_bytes(frame@).0);
        let mut index: usize = 0;
        while index < frame.entities.len()
            invariant
                index <= frame.entities.len(),
                models == entity_models(frame.entities@),
                out@ + entities_bytes(models.skip(index as int)).0 == old(out)@
                    + replication_bytes(frame@).0,
                entities_bytes(models.skip(index as int)).1 == replication_bytes(frame@).1,
            decreases frame.entities.len() - index,
        {
            let ghost before = out@;
            let ghost left = models.skip(index as int);
            assert(left[0] == frame.entities[index as int]@);
            assert(left.drop_first() =~= models.skip(index + 1));
            match encode_entity(&frame.entities[index], out) {
                Ok(()) => {},
                Err(error) => {
                    return Err(error);
                },
            }
            assert(out@ + entities_bytes(models.skip(index + 1)).0 =~= before + entities_bytes(
                left,
            ).0);
            index = index + 1;
        }
        assert(out@ + Seq::empty() =~= out@);
        Ok(())
    }

    fn encode_command_ack(&mut self, frame: &CommandAckFrame, out: &mut Vec<u8>) -> (result: Result<
        (),
        BinaryEncodeError,
    >)
        ensures
            result is Ok,
            final(out)@ == old(out)@ + command_ack_bytes(*frame),
    {
        out.push(FrameKind::CommandAck.to_byte());
        push_u64(out, frame.client_id.0);
        push_u64(out, frame.command_id.0);
        push_u64(out, frame.server_tick.0);
        out.push(
            if frame.accepted {
                1
            } else {
                0
            },
        );
        push_u16(out, frame.reason_code);
        assert(out@ =~= old(out)@ + command_ack_bytes(*frame));
        Ok(())
    }

    fn encode_command(&mut self, frame: &CommandFrame, out: &mut Vec<u8>) -> (result: Result<
        (),
        BinaryEncodeError,
    >)
        ensures
            appends(old(out)@, final(out)@, result, command_bytes(frame@)),
    {
        out.push(FrameKind::Command.to_byte());
        push_u64(out, frame.client_id.0);
        push_u64(out, frame.command_id.0);
        push_u64(out, frame.entity_id.0);
        push_u64(out, frame.sequence);
        push_u32(out, frame.kind);
        out.push(encode_command_priority(frame.priority));
        assert(out@ =~= old(out)@ + command_header(frame@));
        let result = write_bytes("command.payload", frame.payload.as_slice(), out);
        assert(out@ =~= old(out)@ + command_bytes(frame@).0);
        result
    }

    fn encode_command_dispatch(&mut self, frame: &CommandDispatchFrame, out: &mut Vec<u8>) -> (result:
        Result<(), BinaryEncodeError>)
        ensures
            appends(old(out)@, final(out)@, result, dispatch_bytes(frame@)),
    {
        out.push(FrameKind::CommandDispatch.to_byte());
        push_u32(out, frame.station_id.0);
        push_u64(out, frame.client_id.0);
        push_u64(out, frame.command_id.0);
        push_u64(out, frame.entity_id.0);
        push_u64(out, frame.sequence);
        push_u64(out, frame.received_at.0);
        push_u32(out, frame.kind);
        out.push(encode_command_priority(frame.priority));
        assert(out@ =~= old(out)@ + dispatch_header(frame@));
        let result = write_bytes("command_dispatch.payload", frame.payload.as_slice(), out);
        assert(out@ =~= old(out)@ + dispatch_bytes(frame@).0);
        result
    }

    fn encode_station_event(&mut self, frame: &StationEventFrame, out: &mut Vec<u8>) -> (result:
        Result<(), BinaryEncodeError>)
        ensures
            result is Ok,
            final(out)@ == old(out)@ + station_event_bytes(*frame),
    {
        out.push(FrameKind::StationEvent.to_byte());
        push_u64(out, frame.event_id.0);
        push_u32(out, frame.source_station.0);
        push_u32(out, frame.target_station.0);
        push_u64(out, frame.source_tick.0);
        push_u64(out, frame.target_tick.0);
        out.push(encode_event_priority(frame.priority));
        encode_event_kind(&frame.kind, out);
        assert(out@ =~= old(out)@ + station_event_bytes(*frame));
        Ok(())
    }

    fn encode_barrier(&mut self, frame: &BarrierFrame, out: &mut Vec<u8>) -> (result: Result<
        (),
        BinaryEncodeError,
    >)
        ensures
            result is Ok,
            final(out)@ == old(out)@ + barrier_bytes(*frame),
    {
        out.push(FrameKind::Barrier.to_byte());
        push_u64(out, frame.client_id.0);
        push_u64(out, frame.barrier_id.0);
        push_u64(out, frame.server_tick.0);
        out.push(encode_barrier_state(frame.state));
        assert(out@ =~= old(out)@ + barrier_bytes(*frame));
        Ok(())
    }
}

impl BinaryFrameEncoder {
    /// Encodes the dispatch of a stamped command envelope to `station_id` without building the
    /// intermediate frame.
    pub fn encode_command_dispatch_envelope(
        &self,
        station_id: StationId,
        command: &CommandEnvelope,
        out: &mut Vec<u8>,
    ) -> (result: Result<(), BinaryEncodeError>)
        ensures
            appends(
                old(out)@,
                final(out)@,
                result,
                dispatch_bytes(DispatchModel { station_id, envelope: command@ }),
            ),
    {
        let ghost model = DispatchModel { station_id, envelope: command@ };
        out.push(FrameKind::CommandDispatch.to_byte());
        push_u32(out, station_id.0);
        push_u64(out, command.client_id.0);
        push_u64(out, command.id.0);
        push_u64(out, command.entity_id.0);
        push_u64(out, command.sequence);
        push_u64(out, command.received_at.0);
        push_u32(out, command.kind);
        out.push(encode_command_priority(command.priority));
        assert(out@ =~= old(out)@ + dispatch_header(model));
        let result = write_bytes("command_dispatch.payload", command.payload.as_slice(), out);
        assert(out@ =~= old(out)@ + dispatch_bytes(model).0);
        result
    }
}

} // verus!
