//! Laws of the binary frame format.

use vstd::prelude::*;

use crate::bytes::{
    le_bytes, le_limit, lemma_le_bytes_len, lemma_le_limits, lemma_le_value_of_bytes,
};
use crate::frames::{
    BarrierFrame, CommandAckFrame, CommandModel, ComponentDeltaModel, DispatchModel,
    EntityDeltaModel, FrameModel, ReplicationFrameModel, StationEventFrame,
};
use crate::ids::EventKind;
use crate::wire_spec::{
    barrier_at, barrier_bytes, barrier_state_byte, byte_at, command_ack_at, command_ack_bytes,
    command_at, command_bytes, command_identity_at, command_priority_byte, command_tail_at,
    component_at, component_bytes, components_at, components_bytes, decoded_frame, dispatch_at,
    dispatch_bytes, entities_at, entities_bytes, entity_at, entity_bytes, event_kind_at,
    event_kind_bytes, event_priority_byte, frame_at_front, frame_bytes, number_at, payload_at,
    payload_bytes, replication_at, replication_bytes, replication_header_at, station_event_at,
    station_event_bytes, BinaryDecodeError, Parsed,
};

verus! {

pub(crate) proof fn lemma_number(input: Seq<u8>, at: int, value: nat, width: nat, rest: Seq<u8>)
    requires
        0 <= at <= input.len(),
        value < le_limit(width),
        input.skip(at) == le_bytes(value, width) + rest,
    ensures
        number_at(input, at, width as int) == Ok::<(nat, int), BinaryDecodeError>(
            (value, at + width),
        ),
        at + width <= input.len(),
        input.skip(at + width) == rest,
{
    lemma_le_bytes_len(value, width);
    lemma_le_value_of_bytes(value, width);
    assert(input.skip(at).len() == width + rest.len());
    assert(input.subrange(at, at + width) =~= input.skip(at).take(width as int));
    assert(input.subrange(at, at + width) =~= le_bytes(value, width));
    assert(input.skip(at + width) =~= input.skip(at).skip(width as int));
    assert(input.skip(at).skip(width as int) =~= rest);
}

pub(crate) proof fn lemma_byte(input: Seq<u8>, at: int, byte: u8, rest: Seq<u8>)
    requires
        0 <= at <= input.len(),
        input.skip(at) == seq![byte] + rest,
    ensures
        byte_at(input, at) == Ok::<(u8, int), BinaryDecodeError>((byte, at + 1)),
        at + 1 <= input.len(),
        input.skip(at + 1) == rest,
{
    assert(input.skip(at).len() == 1 + rest.len());
    assert(input.skip(at)[0] == byte);
    assert(input.skip(at + 1) =~= input.skip(at).skip(1));
    assert(input.skip(at).skip(1) =~= rest);
}

pub(crate) proof fn lemma_payload(
    input: Seq<u8>,
    at: int,
    field: &'static str,
    payload: Seq<u8>,
    rest: Seq<u8>,
)
    requires
        0 <= at <= input.len(),
        payload_bytes(field, payload).1 is None,
        input.skip(at) == payload_bytes(field, payload).0 + rest,
    ensures
        payload_at(input, at) == Ok::<(Seq<u8>, int), BinaryDecodeError>(
            (payload, at + payload_bytes(field, payload).0.len()),
        ),
        at + payload_bytes(field, payload).0.len() <= input.len(),
        input.skip(at + payload_bytes(field, payload).0.len()) == rest,
{
    lemma_le_limits();
    lemma_le_bytes_len(payload.len(), 4);
    assert(input.skip(at) =~= le_bytes(payload.len(), 4) + (payload + rest));
    lemma_number(input, at, payload.len(), 4, payload + rest);
    let body = at + 4;
    assert(input.skip(body).len() == payload.len() + rest.len());
    assert(input.subrange(body, body + payload.len()) =~= input.skip(body).take(
        payload.len() as int,
    ));
    assert(input.subrange(body, body + payload.len()) =~= payload);
    assert(input.skip(body + payload.len()) =~= input.skip(body).skip(payload.len() as int));
    assert(input.skip(body).skip(payload.len() as int) =~= rest);
}

proof fn lemma_component(input: Seq<u8>, at: int, component: ComponentDeltaModel, rest: Seq<u8>)
    requires
        0 <= at <= input.len(),
        component_bytes(component).1 is None,
        input.skip(at) == component_bytes(component).0 + rest,
    ensures
        component_at(input, at) == Ok::<(ComponentDeltaModel, int), BinaryDecodeError>(
            (component, at + component_bytes(component).0.len()),
        ),
        at + component_bytes(component).0.len() <= input.len(),
        input.skip(at + component_bytes(component).0.len()) == rest,
{
    lemma_le_limits();
    let field = "replication.component.bytes";
    let payload = payload_bytes(field, component.bytes).0;
    lemma_le_bytes_len(component.component_id.0 as nat, 2);
    lemma_le_bytes_len(component.version as nat, 8);
    let r3 = payload + rest;
    let r2 = seq![component.flags] + r3;
    let r1 = le_bytes(component.version as nat, 8) + r2;
    assert(input.skip(at) =~= le_bytes(component.component_id.0 as nat, 2) + r1);
    lemma_number(input, at, component.component_id.0 as nat, 2, r1);
    lemma_number(input, at + 2, component.version as nat, 8, r2);
    lemma_byte(input, at + 10, component.flags, r3);
    lemma_payload(input, at + 11, field, component.bytes, rest);
}

proof fn lemma_components(
    input: Seq<u8>,
    at: int,
    components: Seq<ComponentDeltaModel>,
    rest: Seq<u8>,
)
    requires
        0 <= at <= input.len(),
        components_bytes(components).1 is None,
        input.skip(at) == components_bytes(components).0 + rest,
    ensures
        components_at(input, at, components.len()) == Ok::<
            (Seq<ComponentDeltaModel>, int),
            BinaryDecodeError,
        >((components, at + components_bytes(components).0.len())),
        at + components_bytes(components).0.len() <= input.len(),
        input.skip(at + components_bytes(components).0.len()) == rest,
    decreases components.len(),
{
    if components.len() == 0 {
        assert(input.skip(at) =~= rest);
        assert(components =~= Seq::empty());
    } else {
        let head = component_bytes(components[0]).0;
        let tail = components.drop_first();
        assert(input.skip(at) =~= head + (components_bytes(tail).0 + rest));
        lemma_component(input, at, components[0], components_bytes(tail).0 + rest);
        lemma_components(input, at + head.len(), tail, rest);
        assert(seq![components[0]] + tail =~= components);
    }
}

proof fn lemma_entity(input: Seq<u8>, at: int, entity: EntityDeltaModel, rest: Seq<u8>)
    requires
        0 <= at <= input.len(),
        entity_bytes(entity).1 is None,
        input.skip(at) == entity_bytes(entity).0 + rest,
    ensures
        entity_at(input, at) == Ok::<(EntityDeltaModel, int), BinaryDecodeError>(
            (entity, at + entity_bytes(entity).0.len()),
        ),
        at + entity_bytes(entity).0.len() <= input.len(),
        input.skip(at + entity_bytes(entity).0.len()) == rest,
{
    lemma_le_limits();
    let count = entity.components.len();
    lemma_le_bytes_len(entity.entity_id.0 as nat, 8);
    lemma_le_bytes_len(entity.owner_epoch.0 as nat, 8);
    lemma_le_bytes_len(count, 2);
    let r3 = components_bytes(entity.components).0 + rest;
    let r2 = le_bytes(count, 2) + r3;
    let r1 = le_bytes(entity.owner_epoch.0 as nat, 8) + r2;
    assert(input.skip(at) =~= le_bytes(entity.entity_id.0 as nat, 8) + r1);
    lemma_number(input, at, entity.entity_id.0 as nat, 8, r1);
    lemma_number(input, at + 8, entity.owner_epoch.0 as nat, 8, r2);
    lemma_number(input, at + 16, count, 2, r3);
    lemma_components(input, at + 18, entity.components, rest);
}

proof fn lemma_entities(input: Seq<u8>, at: int, entities: Seq<EntityDeltaModel>, rest: Seq<u8>)
    requires
        0 <= at <= input.len(),
        entities_bytes(entities).1 is None,
        input.skip(at) == entities_bytes(entities).0 + rest,
    ensures
        entities_at(input, at, entities.len()) == Ok::<
            (Seq<EntityDeltaModel>, int),
            BinaryDecodeError,
        >((entities, at + entities_bytes(entities).0.len())),
        at + entities_bytes(entities).0.len() <= input.len(),
        input.skip(at + entities_bytes(entities).0.len()) == rest,
    decreases entities.len(),
{
    if entities.len() == 0 {
        assert(input.skip(at) =~= rest);
        assert(entities =~= Seq::empty());
    } else {
        let head = entity_bytes(entities[0]).0;
        let tail = entities.drop_first();
        assert(input.skip(at) =~= head + (entities_bytes(tail).0 + rest));
        lemma_entity(input, at, entities[0], entities_bytes(tail).0 + rest);
        lemma_entities(input, at + head.len(), tail, rest);
        assert(seq![entities[0]] + tail =~= entities);
    }
}

/// A frame at the front of an input parses to itself, whatever follows it.
spec fn parses_back(frame: FrameModel, rest: Seq<u8>) -> bool {
    frame_at_front(frame_bytes(frame).0 + rest) == Ok::<(FrameModel, int), BinaryDecodeError>(
        (frame, frame_bytes(frame).0.len() as int),
    )
}

proof fn lemma_replication(frame: ReplicationFrameModel, rest: Seq<u8>)
    requires
        replication_bytes(frame).1 is None,
    ensures
        parses_back(FrameModel::Replication(frame), rest),
{
    lemma_le_limits();
    let input = replication_bytes(frame).0 + rest;
    let count = frame.entities.len();
    lemma_le_bytes_len(frame.client_id.0 as nat, 8);
    lemma_le_bytes_len(frame.server_tick.0 as nat, 8);
    lemma_le_bytes_len(frame.entity_count as nat, 4);
    lemma_le_bytes_len(frame.estimated_payload_bytes as nat, 4);
    lemma_le_bytes_len(count, 4);
    let r5 = entities_bytes(frame.entities).0 + rest;
    let r4 = le_bytes(count, 4) + r5;
    let r3 = le_bytes(frame.estimated_payload_bytes as nat, 4) + r4;
    let r2 = le_bytes(frame.entity_count as nat, 4) + r3;
    let r1 = le_bytes(frame.server_tick.0 as nat, 8) + r2;
    let r0 = le_bytes(frame.client_id.0 as nat, 8) + r1;
    assert(input.skip(0) =~= seq![0u8] + r0);
    lemma_byte(input, 0, 0u8, r0);
    lemma_number(input, 1, frame.client_id.0 as nat, 8, r1);
    lemma_number(input, 9, frame.server_tick.0 as nat, 8, r2);
    lemma_number(input, 17, frame.entity_count as nat, 4, r3);
    lemma_number(input, 21, frame.estimated_payload_bytes as nat, 4, r4);
    lemma_number(input, 25, count, 4, r5);
    lemma_entities(input, 29, frame.entities, rest);
}

proof fn lemma_command_ack(frame: CommandAckFrame, rest: Seq<u8>)
    ensures
        parses_back(FrameModel::CommandAck(frame), rest),
{
    lemma_le_limits();
    let input = command_ack_bytes(frame) + rest;
    lemma_le_bytes_len(frame.client_id.0 as nat, 8);
    lemma_le_bytes_len(frame.command_id.0 as nat, 8);
    lemma_le_bytes_len(frame.server_tick.0 as nat, 8);
    lemma_le_bytes_len(frame.reason_code as nat, 2);
    let accepted: u8 = if frame.accepted {
        1
    } else {
        0
    };
    let r4 = le_bytes(frame.reason_code as nat, 2) + rest;
    let r3 = seq![accepted] + r4;
    let r2 = le_bytes(frame.server_tick.0 as nat, 8) + r3;
    let r1 = le_bytes(frame.command_id.0 as nat, 8) + r2;
    let r0 = le_bytes(frame.client_id.0 as nat, 8) + r1;
    assert(input.skip(0) =~= seq![1u8] + r0);
    lemma_byte(input, 0, 1u8, r0);
    lemma_number(input, 1, frame.client_id.0 as nat, 8, r1);
    lemma_number(input, 9, frame.command_id.0 as nat, 8, r2);
    lemma_number(input, 17, frame.server_tick.0 as nat, 8, r3);
    lemma_byte(input, 25, accepted, r4);
    lemma_number(input, 26, frame.reason_code as nat, 2, rest);
}

proof fn lemma_command(frame: CommandModel, rest: Seq<u8>)
    requires
        command_bytes(frame).1 is None,
    ensures
        parses_back(FrameModel::Command(frame), rest),
{
    lemma_le_limits();
    let input = command_bytes(frame).0 + rest;
    let field = "command.payload";
    lemma_le_bytes_len(frame.client_id.0 as nat, 8);
    lemma_le_bytes_len(frame.command_id.0 as nat, 8);
    lemma_le_bytes_len(frame.entity_id.0 as nat, 8);
    lemma_le_bytes_len(frame.sequence as nat, 8);
    lemma_le_bytes_len(frame.kind as nat, 4);
    let priority = command_priority_byte(frame.priority);
    let r6 = payload_bytes(field, frame.payload).0 + rest;
    let r5 = seq![priority] + r6;
    let r4 = le_bytes(frame.kind as nat, 4) + r5;
    let r3 = le_bytes(frame.sequence as nat, 8) + r4;
    let r2 = le_bytes(frame.entity_id.0 as nat, 8) + r3;
    let r1 = le_bytes(frame.command_id.0 as nat, 8) + r2;
    let r0 = le_bytes(frame.client_id.0 as nat, 8) + r1;
    assert(input.skip(0) =~= seq![3u8] + r0);
    lemma_byte(input, 0, 3u8, r0);
    lemma_number(input, 1, frame.client_id.0 as nat, 8, r1);
    lemma_number(input, 9, frame.command_id.0 as nat, 8, r2);
    lemma_number(input, 17, frame.entity_id.0 as nat, 8, r3);
    lemma_number(input, 25, frame.sequence as nat, 8, r4);
    lemma_number(input, 33, frame.kind as nat, 4, r5);
    lemma_byte(input, 37, priority, r6);
    lemma_payload(input, 38, field, frame.payload, rest);
}

proof fn lemma_dispatch(frame: DispatchModel, rest: Seq<u8>)
    requires
        dispatch_bytes(frame).1 is None,
    ensures
        parses_back(FrameModel::CommandDispatch(frame), rest),
{
    lemma_le_limits();
    let input = dispatch_bytes(frame).0 + rest;
    let command = frame.envelope.command;
    let field = "command_dispatch.payload";
    lemma_le_bytes_len(frame.station_id.0 as nat, 4);
    lemma_le_bytes_len(command.client_id.0 as nat, 8);
    lemma_le_bytes_len(command.command_id.0 as nat, 8);
    lemma_le_bytes_len(command.entity_id.0 as nat, 8);
    lemma_le_bytes_len(command.sequence as nat, 8);
    lemma_le_bytes_len(frame.envelope.received_at.0 as nat, 8);
    lemma_le_bytes_len(command.kind as nat, 4);
    let priority = command_priority_byte(command.priority);
    let r8 = payload_bytes(field, command.payload).0 + rest;
    let r7 = seq![priority] + r8;
    let r6 = le_bytes(command.kind as nat, 4) + r7;
    let r5 = le_bytes(frame.envelope.received_at.0 as nat, 8) + r6;
    let r4 = le_bytes(command.sequence as nat, 8) + r5;
    let r3 = le_bytes(command.entity_id.0 as nat, 8) + r4;
    let r2 = le_bytes(command.command_id.0 as nat, 8) + r3;
    let r1 = le_bytes(command.client_id.0 as nat, 8) + r2;
    let r0 = le_bytes(frame.station_id.0 as nat, 4) + r1;
    assert(input.skip(0) =~= seq![5u8] + r0);
    lemma_byte(input, 0, 5u8, r0);
    lemma_number(input, 1, frame.station_id.0 as nat, 4, r1);
    lemma_number(input, 5, command.client_id.0 as nat, 8, r2);
    lemma_number(input, 13, command.command_id.0 as nat, 8, r3);
    lemma_number(input, 21, command.entity_id.0 as nat, 8, r4);
    lemma_number(input, 29, command.sequence as nat, 8, r5);
    lemma_number(input, 37, frame.envelope.received_at.0 as nat, 8, r6);
    lemma_number(input, 45, command.kind as nat, 4, r7);
    lemma_byte(input, 49, priority, r8);
    lemma_payload(input, 50, field, command.payload, rest);
}

proof fn lemma_barrier(frame: BarrierFrame, rest: Seq<u8>)
    ensures
        parses_back(FrameModel::Barrier(frame), rest),
{
    lemma_le_limits();
    let input = barrier_bytes(frame) + rest;
    lemma_le_bytes_len(frame.client_id.0 as nat, 8);
    lemma_le_bytes_len(frame.barrier_id.0 as nat, 8);
    lemma_le_bytes_len(frame.server_tick.0 as nat, 8);
    let state = barrier_state_byte(frame.state);
    let r3 = seq![state] + rest;
    let r2 = le_bytes(frame.server_tick.0 as nat, 8) + r3;
    let r1 = le_bytes(frame.barrier_id.0 as nat, 8) + r2;
    let r0 = le_bytes(frame.client_id.0 as nat, 8) + r1;
    assert(input.skip(0) =~= seq![2u8] + r0);
    lemma_byte(input, 0, 2u8, r0);
    lemma_number(input, 1, frame.client_id.0 as nat, 8, r1);
    lemma_number(input, 9, frame.barrier_id.0 as nat, 8, r2);
    lemma_number(input, 17, frame.server_tick.0 as nat, 8, r3);
    lemma_byte(input, 25, state, rest);
}

proof fn lemma_event_kind(input: Seq<u8>, at: int, kind: EventKind, rest: Seq<u8>)
    requires
        0 <= at <= input.len(),
        input.skip(at) == event_kind_bytes(kind) + rest,
    ensures
        event_kind_at(input, at) == Ok::<(EventKind, int), BinaryDecodeError>(
            (kind, at + event_kind_bytes(kind).len()),
        ),
{
    lemma_le_limits();
    match kind {
        EventKind::Custom(custom) => {
            lemma_le_bytes_len(custom as nat, 4);
            let r0 = le_bytes(custom as nat, 4) + rest;
            assert(input.skip(at) =~= seq![0u8] + r0);
            lemma_byte(input, at, 0u8, r0);
            lemma_number(input, at + 1, custom as nat, 4, rest);
        },
        EventKind::HandoffPrepare { entity_id } => {
            lemma_le_bytes_len(entity_id.0 as nat, 8);
            let r0 = le_bytes(entity_id.0 as nat, 8) + rest;
            assert(input.skip(at) =~= seq![1u8] + r0);
            lemma_byte(input, at, 1u8, r0);
            lemma_number(input, at + 1, entity_id.0 as nat, 8, rest);
        },
        EventKind::HandoffCommit { entity_id, owner_epoch } => {
            lemma_le_bytes_len(entity_id.0 as nat, 8);
            lemma_le_bytes_len(owner_epoch.0 as nat, 8);
            let r1 = le_bytes(owner_epoch.0 as nat, 8) + rest;
            let r0 = le_bytes(entity_id.0 as nat, 8) + r1;
            assert(input.skip(at) =~= seq![2u8] + r0);
            lemma_byte(input, at, 2u8, r0);
            lemma_number(input, at + 1, entity_id.0 as nat, 8, r1);
            lemma_number(input, at + 9, owner_epoch.0 as nat, 8, rest);
        },
    }
}

#[verifier::rlimit(60)]
proof fn lemma_station_event(frame: StationEventFrame, rest: Seq<u8>)
    ensures
        parses_back(FrameModel::StationEvent(frame), rest),
{
    lemma_le_limits();
    let input = station_event_bytes(frame) + rest;
    lemma_le_bytes_len(frame.event_id.0 as nat, 8);
    lemma_le_bytes_len(frame.source_station.0 as nat, 4);
    lemma_le_bytes_len(frame.target_station.0 as nat, 4);
    lemma_le_bytes_len(frame.source_tick.0 as nat, 8);
    lemma_le_bytes_len(frame.target_tick.0 as nat, 8);
    let priority = event_priority_byte(frame.priority);
    let r6 = event_kind_bytes(frame.kind) + rest;
    let r5 = seq![priority] + r6;
    let r4 = le_bytes(frame.target_tick.0 as nat, 8) + r5;
    let r3 = le_bytes(frame.source_tick.0 as nat, 8) + r4;
    let r2 = le_bytes(frame.target_station.0 as nat, 4) + r3;
    let r1 = le_bytes(frame.source_station.0 as nat, 4) + r2;
    let r0 = le_bytes(frame.event_id.0 as nat, 8) + r1;
    assert(input.skip(0) =~= seq![4u8] + r0);
    lemma_byte(input, 0, 4u8, r0);
    lemma_number(input, 1, frame.event_id.0 as nat, 8, r1);
    lemma_number(input, 9, frame.source_station.0 as nat, 4, r2);
    lemma_number(input, 13, frame.target_station.0 as nat, 4, r3);
    lemma_number(input, 17, frame.source_tick.0 as nat, 8, r4);
    lemma_number(input, 25, frame.target_tick.0 as nat, 8, r5);
    lemma_byte(input, 33, priority, r6);
    lemma_event_kind(input, 34, frame.kind, rest);
}

proof fn lemma_parses_back(frame: FrameModel, rest: Seq<u8>)
    requires
        frame_bytes(frame).1 is None,
    ensures
        parses_back(frame, rest),
{
    match frame {
        FrameModel::Replication(inner) => lemma_replication(inner, rest),
        FrameModel::Command(inner) => lemma_command(inner, rest),
        FrameModel::CommandDispatch(inner) => lemma_dispatch(inner, rest),
        FrameModel::CommandAck(inner) => lemma_command_ack(inner, rest),
        FrameModel::Barrier(inner) => lemma_barrier(inner, rest),
        FrameModel::StationEvent(inner) => lemma_station_event(inner, rest),
    }
}

/// Decoding the bytes of a frame gives the frame back.
pub proof fn law_decode_inverts_encode(frame: FrameModel)
    requires
        frame_bytes(frame).1 is None,
    ensures
        decoded_frame(frame_bytes(frame).0) == Ok::<FrameModel, BinaryDecodeError>(frame),
{
    reveal(decoded_frame);
    lemma_parses_back(frame, Seq::empty());
    assert(frame_bytes(frame).0 + Seq::empty() =~= frame_bytes(frame).0);
}

/// Two frames with the same bytes are the same frame.
pub proof fn law_encoding_is_injective(left: FrameModel, right: FrameModel)
    requires
        frame_bytes(left).1 is None,
        frame_bytes(right).1 is None,
        frame_bytes(left).0 == frame_bytes(right).0,
    ensures
        left == right,
{
    law_decode_inverts_encode(left);
    law_decode_inverts_encode(right);
}

/// Bytes behind a complete frame are refused, and the error counts them.
pub proof fn law_trailing_bytes_are_refused(frame: FrameModel, extra: Seq<u8>)
    requires
        frame_bytes(frame).1 is None,
        extra.len() > 0,
    ensures
        decoded_frame(frame_bytes(frame).0 + extra) == Err::<FrameModel, BinaryDecodeError>(
            BinaryDecodeError::TrailingBytes(extra.len() as usize),
        ),
{
    reveal(decoded_frame);
    lemma_parses_back(frame, extra);
}

// Cutting an input short.

/// A parser whose verdict on a cut input, unless it wants more bytes, is its verdict on the whole.
spec fn stable<T>(whole: Parsed<T>, cut: Parsed<T>) -> bool {
    match cut {
        Err(BinaryDecodeError::Truncated { .. }) => true,
        _ => cut == whole,
    }
}

proof fn lemma_stable_number(input: Seq<u8>, cut: int, at: int, width: int)
    requires
        0 <= cut <= input.len(),
        0 <= at,
        0 <= width,
    ensures
        stable(number_at(input, at, width), number_at(input.take(cut), at, width)),
{
    if at + width <= cut {
        assert(input.take(cut).subrange(at, at + width) =~= input.subrange(at, at + width));
    }
}

proof fn lemma_stable_payload(input: Seq<u8>, cut: int, at: int)
    requires
        0 <= cut <= input.len(),
        0 <= at,
    ensures
        stable(payload_at(input, at), payload_at(input.take(cut), at)),
{
    lemma_stable_number(input, cut, at, 4);
    if let Ok((count, at)) = number_at(input.take(cut), at, 4) {
        if at + count <= cut {
            assert(input.take(cut).subrange(at, at + count) =~= input.subrange(at, at + count));
        }
    }
}

proof fn lemma_stable_component(input: Seq<u8>, cut: int, at: int)
    requires
        0 <= cut <= input.len(),
        0 <= at,
    ensures
        stable(component_at(input, at), component_at(input.take(cut), at)),
        component_at(input.take(cut), at) matches Ok((_, end)) ==> at <= end <= cut,
{
    lemma_stable_number(input, cut, at, 2);
    lemma_stable_number(input, cut, at + 2, 8);
    lemma_stable_payload(input, cut, at + 11);
}

proof fn lemma_stable_components(input: Seq<u8>, cut: int, at: int, count: nat)
    requires
        0 <= cut <= input.len(),
        0 <= at <= cut,
    ensures
        stable(components_at(input, at, count), components_at(input.take(cut), at, count)),
        components_at(input.take(cut), at, count) matches Ok((_, end)) ==> at <= end <= cut,
    decreases count,
{
    if count > 0 {
        lemma_stable_component(input, cut, at);
        if let Ok((_, next)) = component_at(input.take(cut), at) {
            lemma_stable_components(input, cut, next, (count - 1) as nat);
        }
    }
}

proof fn lemma_stable_entity(input: Seq<u8>, cut: int, at: int)
    requires
        0 <= cut <= input.len(),
        0 <= at,
    ensures
        stable(entity_at(input, at), entity_at(input.take(cut), at)),
        entity_at(input.take(cut), at) matches Ok((_, end)) ==> at <= end <= cut,
{
    lemma_stable_number(input, cut, at, 8);
    lemma_stable_number(input, cut, at + 8, 8);
    lemma_stable_number(input, cut, at + 16, 2);
    if let Ok((count, next)) = number_at(input.take(cut), at + 16, 2) {
        lemma_stable_components(input, cut, next, count);
    }
}

proof fn lemma_stable_entities(input: Seq<u8>, cut: int, at: int, count: nat)
    requires
        0 <= cut <= input.len(),
        0 <= at <= cut,
    ensures
        stable(entities_at(input, at, count), entities_at(input.take(cut), at, count)),
        entities_at(input.take(cut), at, count) matches Ok((_, end)) ==> at <= end <= cut,
    decreases count,
{
    if count > 0 {
        lemma_stable_entity(input, cut, at);
        if let Ok((_, next)) = entity_at(input.take(cut), at) {
            lemma_stable_entities(input, cut, next, (count - 1) as nat);
        }
    }
}

/// What holds of every parser of a frame: it is stable, and it never reads past the input.
spec fn sound(input: Seq<u8>, cut: int, whole: Parsed<FrameModel>, part: Parsed<FrameModel>) -> bool {
    &&& stable(whole, part)
    &&& part matches Ok((_, end)) ==> end <= cut
}

proof fn lemma_stable_replication(input: Seq<u8>, cut: int)
    requires
        1 <= cut <= input.len(),
    ensures
        sound(input, cut, replication_at(input, 1), replication_at(input.take(cut), 1)),
{
    lemma_stable_number(input, cut, 1, 8);
    lemma_stable_number(input, cut, 9, 8);
    lemma_stable_number(input, cut, 17, 4);
    lemma_stable_number(input, cut, 21, 4);
    lemma_stable_number(input, cut, 25, 4);
    if let Ok((header, next)) = replication_header_at(input.take(cut), 1) {
        lemma_stable_entities(input, cut, next, header.deltas as nat);
    }
}

proof fn lemma_stable_command_ack(input: Seq<u8>, cut: int)
    requires
        1 <= cut <= input.len(),
    ensures
        sound(input, cut, command_ack_at(input, 1), command_ack_at(input.take(cut), 1)),
{
    lemma_stable_number(input, cut, 1, 8);
    lemma_stable_number(input, cut, 9, 8);
    lemma_stable_number(input, cut, 17, 8);
    lemma_stable_number(input, cut, 26, 2);
}

proof fn lemma_stable_identity(input: Seq<u8>, cut: int, at: int)
    requires
        0 <= cut <= input.len(),
        0 <= at,
    ensures
        stable(command_identity_at(input, at), command_identity_at(input.take(cut), at)),
        command_identity_at(input.take(cut), at) matches Ok((_, end)) ==> end == at + 32 <= cut,
{
    lemma_stable_number(input, cut, at, 8);
    lemma_stable_number(input, cut, at + 8, 8);
    lemma_stable_number(input, cut, at + 16, 8);
    lemma_stable_number(input, cut, at + 24, 8);
}

proof fn lemma_stable_tail(input: Seq<u8>, cut: int, at: int)
    requires
        0 <= cut <= input.len(),
        0 <= at,
    ensures
        stable(command_tail_at(input, at), command_tail_at(input.take(cut), at)),
        command_tail_at(input.take(cut), at) matches Ok((_, end)) ==> end <= cut,
{
    lemma_stable_number(input, cut, at, 4);
    lemma_stable_payload(input, cut, at + 5);
}

proof fn lemma_stable_command(input: Seq<u8>, cut: int)
    requires
        1 <= cut <= input.len(),
    ensures
        sound(input, cut, command_at(input, 1), command_at(input.take(cut), 1)),
{
    lemma_stable_identity(input, cut, 1);
    lemma_stable_tail(input, cut, 33);
}

proof fn lemma_stable_dispatch(input: Seq<u8>, cut: int)
    requires
        1 <= cut <= input.len(),
    ensures
        sound(input, cut, dispatch_at(input, 1), dispatch_at(input.take(cut), 1)),
{
    lemma_stable_number(input, cut, 1, 4);
    lemma_stable_identity(input, cut, 5);
    lemma_stable_number(input, cut, 37, 8);
    lemma_stable_tail(input, cut, 45);
}

proof fn lemma_stable_barrier(input: Seq<u8>, cut: int)
    requires
        1 <= cut <= input.len(),
    ensures
        sound(input, cut, barrier_at(input, 1), barrier_at(input.take(cut), 1)),
{
    lemma_stable_number(input, cut, 1, 8);
    lemma_stable_number(input, cut, 9, 8);
    lemma_stable_number(input, cut, 17, 8);
}

proof fn lemma_stable_event_kind(input: Seq<u8>, cut: int, at: int)
    requires
        0 <= cut <= input.len(),
        0 <= at,
    ensures
        stable(event_kind_at(input, at), event_kind_at(input.take(cut), at)),
        event_kind_at(input.take(cut), at) matches Ok((_, end)) ==> end <= cut,
{
    lemma_stable_number(input, cut, at + 1, 4);
    lemma_stable_number(input, cut, at + 1, 8);
    lemma_stable_number(input, cut, at + 9, 8);
}

proof fn lemma_stable_station_event(input: Seq<u8>, cut: int)
    requires
        1 <= cut <= input.len(),
    ensures
        sound(input, cut, station_event_at(input, 1), station_event_at(input.take(cut), 1)),
{
    lemma_stable_number(input, cut, 1, 8);
    lemma_stable_number(input, cut, 9, 4);
    lemma_stable_number(input, cut, 13, 4);
    lemma_stable_number(input, cut, 17, 8);
    lemma_stable_number(input, cut, 25, 8);
    lemma_stable_event_kind(input, cut, 34);
}

proof fn lemma_stable_frame(input: Seq<u8>, cut: int)
    requires
        1 <= cut <= input.len(),
    ensures
        sound(input, cut, frame_at_front(input), frame_at_front(input.take(cut))),
{
    lemma_stable_replication(input, cut);
    lemma_stable_command_ack(input, cut);
    lemma_stable_barrier(input, cut);
    lemma_stable_command(input, cut);
    lemma_stable_station_event(input, cut);
    lemma_stable_dispatch(input, cut);
}

/// Every proper prefix of a frame is refused: the empty one as empty, any other as truncated.
pub proof fn law_truncated_frames_are_refused(frame: FrameModel, cut: int)
    requires
        frame_bytes(frame).1 is None,
        0 <= cut < frame_bytes(frame).0.len(),
    ensures
        match decoded_frame(frame_bytes(frame).0.take(cut)) {
            Ok(_) => false,
            Err(BinaryDecodeError::Empty) => cut == 0,
            Err(BinaryDecodeError::Truncated { .. }) => cut > 0,
            Err(_) => false,
        },
{
    reveal(decoded_frame);
    let input = frame_bytes(frame).0;
    lemma_parses_back(frame, Seq::empty());
    assert(input + Seq::empty() =~= input);
    if cut > 0 {
        lemma_stable_frame(input, cut);
    }
}

} // verus!
