//! Where the fields of a frame stand in its bytes: every number least significant byte first, at a
//! fixed place.

use vstd::prelude::*;

use crate::bytes::{lemma_le_bytes_len, le_bytes};
use crate::frames::{
    BarrierFrame, CommandAckFrame, CommandDispatchFrame, CommandFrame, CommandModel, DispatchModel,
    FrameEncoder, ReplicationFrame, ReplicationFrameModel, StationEventFrame,
};
use crate::ids::{BarrierState, CommandPriority, EventKind, EventPriority};
use crate::reliable_frame::{
    link_magic, reliable_bytes, LinkKind, ReliableClientEncodeError, ReliableClientFrame,
    ReliableModel, ReliableStationEncodeError, ReliableStationFrame,
};
use crate::security_envelope::{
    decoded_envelope, envelope_bytes, law_envelope_encoding_is_canonical, security_magic,
    EnvelopeParts, PacketSecurityConfig, PacketSecurityDecodeError, PacketSecurityEncodeError,
    PacketSecurityEnvelope, PacketSecurityEnvelopeRef,
};
use crate::wire_codec::BinaryFrameEncoder;
use crate::wire_spec::{
    barrier_bytes, command_ack_bytes, command_bytes, command_header, dispatch_bytes,
    dispatch_header, replication_bytes, station_event_bytes, BinaryEncodeError,
};

verus! {

/// The number in `width` bytes from `at` on, least significant byte first.
pub open spec fn number_at(bytes: Seq<u8>, at: int, width: nat) -> nat
    decreases width,
{
    if width == 0 {
        0
    } else {
        bytes[at] as nat + 256 * number_at(bytes, at + 1, (width - 1) as nat)
    }
}

/// The first number that does not fit in `width` bytes.
pub open spec fn first_too_large(width: nat) -> nat
    decreases width,
{
    if width == 0 {
        1
    } else {
        256 * first_too_large((width - 1) as nat)
    }
}

proof fn lemma_number(bytes: Seq<u8>, at: int, value: nat, width: nat)
    requires
        0 <= at,
        at + width <= bytes.len(),
        value < first_too_large(width),
        forall|i: int| 0 <= i < width ==> #[trigger] le_bytes(value, width)[i] == bytes[at + i],
    ensures
        number_at(bytes, at, width) == value,
    decreases width,
{
    lemma_le_bytes_len(value, width);
    if width > 0 {
        let less = (width - 1) as nat;
        let rest = le_bytes(value / 256, less);
        lemma_le_bytes_len(value / 256, less);
        assert forall|i: int| 0 <= i < less implies #[trigger] rest[i] == bytes[at + 1 + i] by {
            assert(le_bytes(value, width)[i + 1] == rest[i]);
        }
        lemma_number(bytes, at + 1, value / 256, less);
        assert(le_bytes(value, width)[0] == (value % 256) as u8);
    }
}

proof fn lemma_field(head: Seq<u8>, value: nat, width: nat, tail: Seq<u8>, bytes: Seq<u8>)
    requires
        bytes == head + (le_bytes(value, width) + tail),
        value < first_too_large(width),
    ensures
        number_at(bytes, head.len() as int, width) == value,
        bytes.len() == head.len() + width + tail.len(),
{
    lemma_le_bytes_len(value, width);
    let field = le_bytes(value, width);
    assert forall|i: int| 0 <= i < width implies #[trigger] field[i] == bytes[head.len() + i] by {}
    lemma_number(bytes, head.len() as int, value, width);
}

proof fn lemma_sizes()
    ensures
        first_too_large(2) == 0x1_0000,
        first_too_large(4) == 0x1_0000_0000,
        first_too_large(8) == 0x1_0000_0000_0000_0000,
{
    reveal_with_fuel(first_too_large, 9);
}

/// The bytes of an acknowledgement.
pub open spec fn lays_out_ack(bytes: Seq<u8>, frame: CommandAckFrame) -> bool {
    &&& bytes.len() == 28
    &&& bytes[0] == 1
    &&& number_at(bytes, 1, 8) == frame.client_id.0
    &&& number_at(bytes, 9, 8) == frame.command_id.0
    &&& number_at(bytes, 17, 8) == frame.server_tick.0
    &&& bytes[25] == if frame.accepted {
        1u8
    } else {
        0u8
    }
    &&& number_at(bytes, 26, 2) == frame.reason_code
}

/// The bytes of a barrier notification.
pub open spec fn lays_out_barrier(bytes: Seq<u8>, frame: BarrierFrame) -> bool {
    &&& bytes.len() == 26
    &&& bytes[0] == 2
    &&& number_at(bytes, 1, 8) == frame.client_id.0
    &&& number_at(bytes, 9, 8) == frame.barrier_id.0
    &&& number_at(bytes, 17, 8) == frame.server_tick.0
    &&& bytes[25] == match frame.state {
        BarrierState::Running => 0u8,
        BarrierState::Requested => 1u8,
        BarrierState::WaitingTickBoundary => 2u8,
        BarrierState::Frozen => 3u8,
        BarrierState::Resuming => 4u8,
    }
}

/// The byte of a command priority.
pub open spec fn priority_mark(priority: CommandPriority) -> u8 {
    match priority {
        CommandPriority::Normal => 0,
        CommandPriority::High => 1,
        CommandPriority::Low => 2,
    }
}

/// The bytes of a command.
pub open spec fn lays_out_command(bytes: Seq<u8>, frame: CommandModel) -> bool {
    &&& bytes.len() == 42 + frame.payload.len()
    &&& bytes[0] == 3
    &&& number_at(bytes, 1, 8) == frame.client_id.0
    &&& number_at(bytes, 9, 8) == frame.command_id.0
    &&& number_at(bytes, 17, 8) == frame.entity_id.0
    &&& number_at(bytes, 25, 8) == frame.sequence
    &&& number_at(bytes, 33, 4) == frame.kind
    &&& bytes[37] == priority_mark(frame.priority)
    &&& number_at(bytes, 38, 4) == frame.payload.len()
    &&& bytes.skip(42) == frame.payload
}

/// The bytes of a dispatched command.
pub open spec fn lays_out_dispatch(bytes: Seq<u8>, frame: DispatchModel) -> bool {
    let command = frame.envelope.command;
    &&& bytes.len() == 54 + command.payload.len()
    &&& bytes[0] == 5
    &&& number_at(bytes, 1, 4) == frame.station_id.0
    &&& number_at(bytes, 5, 8) == command.client_id.0
    &&& number_at(bytes, 13, 8) == command.command_id.0
    &&& number_at(bytes, 21, 8) == command.entity_id.0
    &&& number_at(bytes, 29, 8) == command.sequence
    &&& number_at(bytes, 37, 8) == frame.envelope.received_at.0
    &&& number_at(bytes, 45, 4) == command.kind
    &&& bytes[49] == priority_mark(command.priority)
    &&& number_at(bytes, 50, 4) == command.payload.len()
    &&& bytes.skip(54) == command.payload
}

/// The bytes of a station event.
pub open spec fn lays_out_event(bytes: Seq<u8>, frame: StationEventFrame) -> bool {
    &&& bytes.len() >= 35
    &&& bytes[0] == 4
    &&& number_at(bytes, 1, 8) == frame.event_id.0
    &&& number_at(bytes, 9, 4) == frame.source_station.0
    &&& number_at(bytes, 13, 4) == frame.target_station.0
    &&& number_at(bytes, 17, 8) == frame.source_tick.0
    &&& number_at(bytes, 25, 8) == frame.target_tick.0
    &&& bytes[33] == match frame.priority {
        EventPriority::Critical => 0u8,
        EventPriority::Important => 1u8,
        EventPriority::BestEffort => 2u8,
    }
    &&& match frame.kind {
        EventKind::Custom(custom) => {
            &&& bytes.len() == 39
            &&& bytes[34] == 0
            &&& number_at(bytes, 35, 4) == custom
        },
        EventKind::HandoffPrepare { entity_id } => {
            &&& bytes.len() == 43
            &&& bytes[34] == 1
            &&& number_at(bytes, 35, 8) == entity_id.0
        },
        EventKind::HandoffCommit { entity_id, owner_epoch } => {
            &&& bytes.len() == 51
            &&& bytes[34] == 2
            &&& number_at(bytes, 35, 8) == entity_id.0
            &&& number_at(bytes, 43, 8) == owner_epoch.0
        },
    }
}

/// The leading bytes of a replication frame.
pub open spec fn lays_out_replication(bytes: Seq<u8>, frame: ReplicationFrameModel) -> bool {
    &&& bytes.len() >= 29
    &&& bytes[0] == 0
    &&& number_at(bytes, 1, 8) == frame.client_id.0
    &&& number_at(bytes, 9, 8) == frame.server_tick.0
    &&& number_at(bytes, 17, 4) == frame.entity_count
    &&& number_at(bytes, 21, 4) == frame.estimated_payload_bytes
    &&& number_at(bytes, 25, 4) == frame.entities.len()
}

proof fn lemma_ack(frame: CommandAckFrame)
    ensures
        lays_out_ack(command_ack_bytes(frame), frame),
{
    lemma_sizes();
    let bytes = command_ack_bytes(frame);
    let kind = seq![1u8];
    let a = le_bytes(frame.client_id.0 as nat, 8);
    let b = le_bytes(frame.command_id.0 as nat, 8);
    let c = le_bytes(frame.server_tick.0 as nat, 8);
    let flag = seq![
        if frame.accepted {
            1u8
        } else {
            0u8
        },
    ];
    let d = le_bytes(frame.reason_code as nat, 2);
    lemma_le_bytes_len(frame.client_id.0 as nat, 8);
    lemma_le_bytes_len(frame.command_id.0 as nat, 8);
    lemma_le_bytes_len(frame.server_tick.0 as nat, 8);
    lemma_le_bytes_len(frame.reason_code as nat, 2);
    lemma_field(kind, frame.client_id.0 as nat, 8, b + (c + (flag + d)), bytes);
    assert(bytes =~= (kind + a) + (b + (c + (flag + d))));
    lemma_field(kind + a, frame.command_id.0 as nat, 8, c + (flag + d), bytes);
    assert(bytes =~= (kind + a + b) + (c + (flag + d)));
    lemma_field(kind + a + b, frame.server_tick.0 as nat, 8, flag + d, bytes);
    assert(bytes =~= (kind + a + b + c + flag) + (d + Seq::empty()));
    lemma_field(kind + a + b + c + flag, frame.reason_code as nat, 2, Seq::empty(), bytes);
}

proof fn lemma_barrier(frame: BarrierFrame)
    ensures
        lays_out_barrier(barrier_bytes(frame), frame),
{
    lemma_sizes();
    let bytes = barrier_bytes(frame);
    let kind = seq![2u8];
    let a = le_bytes(frame.client_id.0 as nat, 8);
    let b = le_bytes(frame.barrier_id.0 as nat, 8);
    let c = le_bytes(frame.server_tick.0 as nat, 8);
    let state = seq![crate::wire_spec::barrier_state_byte(frame.state)];
    lemma_le_bytes_len(frame.client_id.0 as nat, 8);
    lemma_le_bytes_len(frame.barrier_id.0 as nat, 8);
    lemma_le_bytes_len(frame.server_tick.0 as nat, 8);
    lemma_field(kind, frame.client_id.0 as nat, 8, b + (c + state), bytes);
    assert(bytes =~= (kind + a) + (b + (c + state)));
    lemma_field(kind + a, frame.barrier_id.0 as nat, 8, c + state, bytes);
    assert(bytes =~= (kind + a + b) + (c + state));
    lemma_field(kind + a + b, frame.server_tick.0 as nat, 8, state, bytes);
}

proof fn lemma_command(frame: CommandModel)
    requires
        command_bytes(frame).1 is None,
    ensures
        lays_out_command(command_bytes(frame).0, frame),
{
    lemma_sizes();
    let bytes = command_bytes(frame).0;
    let kind = seq![3u8];
    let a = le_bytes(frame.client_id.0 as nat, 8);
    let b = le_bytes(frame.command_id.0 as nat, 8);
    let c = le_bytes(frame.entity_id.0 as nat, 8);
    let d = le_bytes(frame.sequence as nat, 8);
    let e = le_bytes(frame.kind as nat, 4);
    let mark = seq![crate::wire_spec::command_priority_byte(frame.priority)];
    let size = le_bytes(frame.payload.len(), 4);
    let rest = size + frame.payload;
    lemma_le_bytes_len(frame.client_id.0 as nat, 8);
    lemma_le_bytes_len(frame.command_id.0 as nat, 8);
    lemma_le_bytes_len(frame.entity_id.0 as nat, 8);
    lemma_le_bytes_len(frame.sequence as nat, 8);
    lemma_le_bytes_len(frame.kind as nat, 4);
    lemma_le_bytes_len(frame.payload.len(), 4);
    assert(bytes =~= command_header(frame) + rest);
    let t4 = e + (mark + rest);
    let t3 = d + t4;
    let t2 = c + t3;
    let t1 = b + t2;
    assert(bytes =~= kind + (a + t1));
    lemma_field(kind, frame.client_id.0 as nat, 8, t1, bytes);
    assert(bytes =~= (kind + a) + (b + t2));
    lemma_field(kind + a, frame.command_id.0 as nat, 8, t2, bytes);
    assert(bytes =~= (kind + a + b) + (c + t3));
    lemma_field(kind + a + b, frame.entity_id.0 as nat, 8, t3, bytes);
    assert(bytes =~= (kind + a + b + c) + (d + t4));
    lemma_field(kind + a + b + c, frame.sequence as nat, 8, t4, bytes);
    assert(bytes =~= (kind + a + b + c + d) + (e + (mark + rest)));
    lemma_field(kind + a + b + c + d, frame.kind as nat, 4, mark + rest, bytes);
    assert(bytes =~= (kind + a + b + c + d + e + mark) + (size + frame.payload));
    lemma_field(kind + a + b + c + d + e + mark, frame.payload.len(), 4, frame.payload, bytes);
    assert(bytes.skip(42) =~= frame.payload);
}

proof fn lemma_dispatch(frame: DispatchModel)
    requires
        dispatch_bytes(frame).1 is None,
    ensures
        lays_out_dispatch(dispatch_bytes(frame).0, frame),
{
    lemma_sizes();
    let command = frame.envelope.command;
    let bytes = dispatch_bytes(frame).0;
    let kind = seq![5u8];
    let s = le_bytes(frame.station_id.0 as nat, 4);
    let a = le_bytes(command.client_id.0 as nat, 8);
    let b = le_bytes(command.command_id.0 as nat, 8);
    let c = le_bytes(command.entity_id.0 as nat, 8);
    let d = le_bytes(command.sequence as nat, 8);
    let t = le_bytes(frame.envelope.received_at.0 as nat, 8);
    let e = le_bytes(command.kind as nat, 4);
    let mark = seq![crate::wire_spec::command_priority_byte(command.priority)];
    let size = le_bytes(command.payload.len(), 4);
    let rest = size + command.payload;
    lemma_le_bytes_len(frame.station_id.0 as nat, 4);
    lemma_le_bytes_len(command.client_id.0 as nat, 8);
    lemma_le_bytes_len(command.command_id.0 as nat, 8);
    lemma_le_bytes_len(command.entity_id.0 as nat, 8);
    lemma_le_bytes_len(command.sequence as nat, 8);
    lemma_le_bytes_len(frame.envelope.received_at.0 as nat, 8);
    lemma_le_bytes_len(command.kind as nat, 4);
    lemma_le_bytes_len(command.payload.len(), 4);
    assert(bytes =~= dispatch_header(frame) + rest);
    let t6 = e + (mark + rest);
    let t5 = t + t6;
    let t4 = d + t5;
    let t3 = c + t4;
    let t2 = b + t3;
    let t1 = a + t2;
    assert(bytes =~= kind + (s + t1));
    lemma_field(kind, frame.station_id.0 as nat, 4, t1, bytes);
    assert(bytes =~= (kind + s) + (a + t2));
    lemma_field(kind + s, command.client_id.0 as nat, 8, t2, bytes);
    assert(bytes =~= (kind + s + a) + (b + t3));
    lemma_field(kind + s + a, command.command_id.0 as nat, 8, t3, bytes);
    assert(bytes =~= (kind + s + a + b) + (c + t4));
    lemma_field(kind + s + a + b, command.entity_id.0 as nat, 8, t4, bytes);
    assert(bytes =~= (kind + s + a + b + c) + (d + t5));
    lemma_field(kind + s + a + b + c, command.sequence as nat, 8, t5, bytes);
    assert(bytes =~= (kind + s + a + b + c + d) + (t + t6));
    lemma_field(kind + s + a + b + c + d, frame.envelope.received_at.0 as nat, 8, t6, bytes);
    let lead = kind + s + a + b + c + d + t;
    assert(bytes =~= lead + (e + (mark + rest)));
    lemma_field(lead, command.kind as nat, 4, mark + rest, bytes);
    assert(bytes =~= (lead + e + mark) + (size + command.payload));
    lemma_field(lead + e + mark, command.payload.len(), 4, command.payload, bytes);
    assert(bytes.skip(54) =~= command.payload);
}

proof fn lemma_event(frame: StationEventFrame)
    ensures
        lays_out_event(station_event_bytes(frame), frame),
{
    lemma_sizes();
    let bytes = station_event_bytes(frame);
    let kind = seq![4u8];
    let a = le_bytes(frame.event_id.0 as nat, 8);
    let b = le_bytes(frame.source_station.0 as nat, 4);
    let c = le_bytes(frame.target_station.0 as nat, 4);
    let d = le_bytes(frame.source_tick.0 as nat, 8);
    let e = le_bytes(frame.target_tick.0 as nat, 8);
    let mark = seq![crate::wire_spec::event_priority_byte(frame.priority)];
    let tail = crate::wire_spec::event_kind_bytes(frame.kind);
    lemma_le_bytes_len(frame.event_id.0 as nat, 8);
    lemma_le_bytes_len(frame.source_station.0 as nat, 4);
    lemma_le_bytes_len(frame.target_station.0 as nat, 4);
    lemma_le_bytes_len(frame.source_tick.0 as nat, 8);
    lemma_le_bytes_len(frame.target_tick.0 as nat, 8);
    let t4 = e + (mark + tail);
    let t3 = d + t4;
    let t2 = c + t3;
    let t1 = b + t2;
    assert(bytes =~= kind + (a + t1));
    lemma_field(kind, frame.event_id.0 as nat, 8, t1, bytes);
    assert(bytes =~= (kind + a) + (b + t2));
    lemma_field(kind + a, frame.source_station.0 as nat, 4, t2, bytes);
    assert(bytes =~= (kind + a + b) + (c + t3));
    lemma_field(kind + a + b, frame.target_station.0 as nat, 4, t3, bytes);
    assert(bytes =~= (kind + a + b + c) + (d + t4));
    lemma_field(kind + a + b + c, frame.source_tick.0 as nat, 8, t4, bytes);
    let lead = kind + a + b + c + d;
    assert(bytes =~= lead + (e + (mark + tail)));
    lemma_field(lead, frame.target_tick.0 as nat, 8, mark + tail, bytes);
    let head = lead + e + mark;
    match frame.kind {
        EventKind::Custom(custom) => {
            lemma_le_bytes_len(custom as nat, 4);
            assert(bytes =~= (head + seq![0u8]) + (le_bytes(custom as nat, 4) + Seq::empty()));
            lemma_field(head + seq![0u8], custom as nat, 4, Seq::empty(), bytes);
        },
        EventKind::HandoffPrepare { entity_id } => {
            lemma_le_bytes_len(entity_id.0 as nat, 8);
            assert(bytes =~= (head + seq![1u8]) + (le_bytes(entity_id.0 as nat, 8) + Seq::empty()));
            lemma_field(head + seq![1u8], entity_id.0 as nat, 8, Seq::empty(), bytes);
        },
        EventKind::HandoffCommit { entity_id, owner_epoch } => {
            let x = le_bytes(entity_id.0 as nat, 8);
            let y = le_bytes(owner_epoch.0 as nat, 8);
            lemma_le_bytes_len(entity_id.0 as nat, 8);
            lemma_le_bytes_len(owner_epoch.0 as nat, 8);
            assert(bytes =~= (head + seq![2u8]) + (x + y));
            lemma_field(head + seq![2u8], entity_id.0 as nat, 8, y, bytes);
            assert(bytes =~= (head + seq![2u8] + x) + (y + Seq::empty()));
            lemma_field(head + seq![2u8] + x, owner_epoch.0 as nat, 8, Seq::empty(), bytes);
        },
    }
}

proof fn lemma_replication(frame: ReplicationFrameModel)
    requires
        replication_bytes(frame).1 is None,
    ensures
        lays_out_replication(replication_bytes(frame).0, frame),
{
    lemma_sizes();
    let bytes = replication_bytes(frame).0;
    let kind = seq![0u8];
    let a = le_bytes(frame.client_id.0 as nat, 8);
    let b = le_bytes(frame.server_tick.0 as nat, 8);
    let c = le_bytes(frame.entity_count as nat, 4);
    let d = le_bytes(frame.estimated_payload_bytes as nat, 4);
    let e = le_bytes(frame.entities.len(), 4);
    let tail = crate::wire_spec::entities_bytes(frame.entities).0;
    lemma_le_bytes_len(frame.client_id.0 as nat, 8);
    lemma_le_bytes_len(frame.server_tick.0 as nat, 8);
    lemma_le_bytes_len(frame.entity_count as nat, 4);
    lemma_le_bytes_len(frame.estimated_payload_bytes as nat, 4);
    lemma_le_bytes_len(frame.entities.len(), 4);
    let t3 = d + (e + tail);
    let t2 = c + t3;
    let t1 = b + t2;
    assert(bytes =~= kind + (a + t1));
    lemma_field(kind, frame.client_id.0 as nat, 8, t1, bytes);
    assert(bytes =~= (kind + a) + (b + t2));
    lemma_field(kind + a, frame.server_tick.0 as nat, 8, t2, bytes);
    assert(bytes =~= (kind + a + b) + (c + t3));
    lemma_field(kind + a + b, frame.entity_count as nat, 4, t3, bytes);
    assert(bytes =~= (kind + a + b + c) + (d + (e + tail)));
    lemma_field(kind + a + b + c, frame.estimated_payload_bytes as nat, 4, e + tail, bytes);
    assert(bytes =~= (kind + a + b + c + d) + (e + tail));
    lemma_field(kind + a + b + c + d, frame.entities.len(), 4, tail, bytes);
}

/// Acknowledgements and barrier notifications are appended as one byte for their kind and their fields
/// at fixed places.
pub proof fn law_notifications_have_a_fixed_layout()
    ensures
        forall|
            encoder: &mut BinaryFrameEncoder,
            frame: &CommandAckFrame,
            out: &mut Vec<u8>,
            result: Result<(), BinaryEncodeError>,
        |
            #[trigger] call_ensures(
                BinaryFrameEncoder::encode_command_ack,
                (encoder, frame, out),
                result,
            ) ==> result is Ok && final(out)@.take(out@.len() as int) == out@ && lays_out_ack(
                final(out)@.skip(out@.len() as int),
                *frame,
            ),
        forall|
            encoder: &mut BinaryFrameEncoder,
            frame: &BarrierFrame,
            out: &mut Vec<u8>,
            result: Result<(), BinaryEncodeError>,
        |
            #[trigger] call_ensures(
                BinaryFrameEncoder::encode_barrier,
                (encoder, frame, out),
                result,
            ) ==> result is Ok && final(out)@.take(out@.len() as int) == out@ && lays_out_barrier(
                final(out)@.skip(out@.len() as int),
                *frame,
            ),
{
    assert forall|
        encoder: &mut BinaryFrameEncoder,
        frame: &CommandAckFrame,
        out: &mut Vec<u8>,
        result: Result<(), BinaryEncodeError>,
    |
        #[trigger] call_ensures(
            BinaryFrameEncoder::encode_command_ack,
            (encoder, frame, out),
            result,
        ) implies result is Ok && final(out)@.take(out@.len() as int) == out@ && lays_out_ack(
        final(out)@.skip(out@.len() as int),
        *frame,
    ) by {
        lemma_ack(*frame);
        assert(final(out)@.skip(out@.len() as int) =~= command_ack_bytes(*frame));
    }
    assert forall|
        encoder: &mut BinaryFrameEncoder,
        frame: &BarrierFrame,
        out: &mut Vec<u8>,
        result: Result<(), BinaryEncodeError>,
    |
        #[trigger] call_ensures(
            BinaryFrameEncoder::encode_barrier,
            (encoder, frame, out),
            result,
        ) implies result is Ok && final(out)@.take(out@.len() as int) == out@ && lays_out_barrier(
        final(out)@.skip(out@.len() as int),
        *frame,
    ) by {
        lemma_barrier(*frame);
        assert(final(out)@.skip(out@.len() as int) =~= barrier_bytes(*frame));
    }
}

/// Commands, dispatched commands, events and replication frames are appended as one byte for their
/// kind and their fields at fixed places, with the payload at the end.
pub proof fn law_frames_have_a_fixed_layout()
    ensures
        forall|
            encoder: &mut BinaryFrameEncoder,
            frame: &CommandFrame,
            out: &mut Vec<u8>,
            result: Result<(), BinaryEncodeError>,
        |
            #[trigger] call_ensures(
                BinaryFrameEncoder::encode_command,
                (encoder, frame, out),
                result,
            ) && result is Ok ==> lays_out_command(final(out)@.skip(out@.len() as int), frame@),
        forall|
            encoder: &mut BinaryFrameEncoder,
            frame: &CommandDispatchFrame,
            out: &mut Vec<u8>,
            result: Result<(), BinaryEncodeError>,
        |
            #[trigger] call_ensures(
                BinaryFrameEncoder::encode_command_dispatch,
                (encoder, frame, out),
                result,
            ) && result is Ok ==> lays_out_dispatch(final(out)@.skip(out@.len() as int), frame@),
        forall|
            encoder: &mut BinaryFrameEncoder,
            frame: &StationEventFrame,
            out: &mut Vec<u8>,
            result: Result<(), BinaryEncodeError>,
        |
            #[trigger] call_ensures(
                BinaryFrameEncoder::encode_station_event,
                (encoder, frame, out),
                result,
            ) ==> result is Ok && lays_out_event(final(out)@.skip(out@.len() as int), *frame),
        forall|
            encoder: &mut BinaryFrameEncoder,
            frame: &ReplicationFrame,
            out: &mut Vec<u8>,
            result: Result<(), BinaryEncodeError>,
        |
            #[trigger] call_ensures(
                BinaryFrameEncoder::encode_replication,
                (encoder, frame, out),
                result,
            ) && result is Ok ==> lays_out_replication(
                final(out)@.skip(out@.len() as int),
                frame@,
            ),
{
    assert forall|
        encoder: &mut BinaryFrameEncoder,
        frame: &CommandFrame,
        out: &mut Vec<u8>,
        result: Result<(), BinaryEncodeError>,
    |
        #[trigger] call_ensures(BinaryFrameEncoder::encode_command, (encoder, frame, out), result)
            && result is Ok implies lays_out_command(
        final(out)@.skip(out@.len() as int),
        frame@,
    ) by {
        lemma_command(frame@);
        assert(final(out)@.skip(out@.len() as int) =~= command_bytes(frame@).0);
    }
    assert forall|
        encoder: &mut BinaryFrameEncoder,
        frame: &CommandDispatchFrame,
        out: &mut Vec<u8>,
        result: Result<(), BinaryEncodeError>,
    |
        #[trigger] call_ensures(
            BinaryFrameEncoder::encode_command_dispatch,
            (encoder, frame, out),
            result,
        ) && result is Ok implies lays_out_dispatch(
        final(out)@.skip(out@.len() as int),
        frame@,
    ) by {
        lemma_dispatch(frame@);
        assert(final(out)@.skip(out@.len() as int) =~= dispatch_bytes(frame@).0);
    }
    assert forall|
        encoder: &mut BinaryFrameEncoder,
        frame: &StationEventFrame,
        out: &mut Vec<u8>,
        result: Result<(), BinaryEncodeError>,
    |
        #[trigger] call_ensures(
            BinaryFrameEncoder::encode_station_event,
            (encoder, frame, out),
            result,
        ) implies result is Ok && lays_out_event(final(out)@.skip(out@.len() as int), *frame) by {
        lemma_event(*frame);
        assert(final(out)@.skip(out@.len() as int) =~= station_event_bytes(*frame));
    }
    assert forall|
        encoder: &mut BinaryFrameEncoder,
        frame: &ReplicationFrame,
        out: &mut Vec<u8>,
        result: Result<(), BinaryEncodeError>,
    |
        #[trigger] call_ensures(
            BinaryFrameEncoder::encode_replication,
            (encoder, frame, out),
            result,
        ) && result is Ok implies lays_out_replication(
        final(out)@.skip(out@.len() as int),
        frame@,
    ) by {
        lemma_replication(frame@);
        assert(final(out)@.skip(out@.len() as int) =~= replication_bytes(frame@).0);
    }
}

/// The bytes of a security envelope: its mark, the key, the nonce, the two sizes, and then the payload
/// with the tag behind it.
pub open spec fn lays_out_envelope(bytes: Seq<u8>, parts: EnvelopeParts) -> bool {
    &&& bytes.len() == 22 + parts.payload.len() + parts.tag.len()
    &&& bytes[0] == 0x53
    &&& bytes[1] == 0x53
    &&& bytes[2] == 0x45
    &&& bytes[3] == 0x43
    &&& number_at(bytes, 4, 4) == parts.key_id
    &&& number_at(bytes, 8, 8) == parts.nonce
    &&& number_at(bytes, 16, 4) == parts.payload.len()
    &&& number_at(bytes, 20, 2) == parts.tag.len()
    &&& bytes.subrange(22, 22 + parts.payload.len() as int) == parts.payload
    &&& bytes.skip(22 + parts.payload.len() as int) == parts.tag
}

proof fn lemma_envelope(parts: EnvelopeParts)
    requires
        parts.payload.len() <= u32::MAX,
        parts.tag.len() <= u16::MAX,
    ensures
        lays_out_envelope(envelope_bytes(parts), parts),
{
    lemma_sizes();
    let bytes = envelope_bytes(parts);
    let mark = security_magic();
    let a = le_bytes(parts.key_id as nat, 4);
    let b = le_bytes(parts.nonce as nat, 8);
    let c = le_bytes(parts.payload.len(), 4);
    let d = le_bytes(parts.tag.len(), 2);
    let tail = parts.payload + parts.tag;
    lemma_le_bytes_len(parts.key_id as nat, 4);
    lemma_le_bytes_len(parts.nonce as nat, 8);
    lemma_le_bytes_len(parts.payload.len(), 4);
    lemma_le_bytes_len(parts.tag.len(), 2);
    lemma_field(mark, parts.key_id as nat, 4, b + (c + (d + tail)), bytes);
    assert(bytes =~= (mark + a) + (b + (c + (d + tail))));
    lemma_field(mark + a, parts.nonce as nat, 8, c + (d + tail), bytes);
    assert(bytes =~= (mark + a + b) + (c + (d + tail)));
    lemma_field(mark + a + b, parts.payload.len(), 4, d + tail, bytes);
    assert(bytes =~= (mark + a + b + c) + (d + tail));
    lemma_field(mark + a + b + c, parts.tag.len(), 2, tail, bytes);
    assert(bytes.subrange(22, 22 + parts.payload.len() as int) =~= parts.payload);
    assert(bytes.skip(22 + parts.payload.len() as int) =~= parts.tag);
}

/// An envelope is written only within the budgets of its configuration, at fixed places, and one that
/// is read keeps to the same budgets and places: so nothing else can stand in the bytes that were
/// read.
pub proof fn law_envelopes_have_a_fixed_layout(config: PacketSecurityConfig)
    ensures
        forall|
            key_id: u32,
            nonce: u64,
            payload: &[u8],
            tag: &[u8],
            out: &mut Vec<u8>,
            result: Result<(), PacketSecurityEncodeError>,
        |
            #[trigger] call_ensures(
                PacketSecurityEnvelope::encode_parts,
                (config, key_id, nonce, payload, tag, out),
                result,
            ) ==> {
                &&& result is Ok ==> {
                    &&& payload@.len() <= config.max_payload_bytes
                    &&& tag@.len() <= config.max_tag_bytes
                    &&& lays_out_envelope(
                        final(out)@.skip(out@.len() as int),
                        EnvelopeParts { key_id, nonce, payload: payload@, tag: tag@ },
                    )
                }
                &&& payload@.len() <= config.max_payload_bytes && payload@.len() <= u32::MAX
                    && tag@.len() <= config.max_tag_bytes && tag@.len() <= u16::MAX
                    ==> result is Ok
                &&& result is Err ==> final(out)@ == out@
            },
        forall|
            input: &[u8],
            result: Result<PacketSecurityEnvelopeRef<'_>, PacketSecurityDecodeError>,
        |
            #[trigger] call_ensures(
                PacketSecurityEnvelopeRef::<'_>::decode,
                (config, input),
                result,
            ) ==> (result matches Ok(envelope) ==> {
                &&& envelope.payload@.len() <= config.max_payload_bytes
                &&& envelope.tag@.len() <= config.max_tag_bytes
                &&& lays_out_envelope(
                    input@,
                    EnvelopeParts {
                        key_id: envelope.key_id,
                        nonce: envelope.nonce,
                        payload: envelope.payload@,
                        tag: envelope.tag@,
                    },
                )
            }),
{
    assert forall|
        key_id: u32,
        nonce: u64,
        payload: &[u8],
        tag: &[u8],
        out: &mut Vec<u8>,
        result: Result<(), PacketSecurityEncodeError>,
    |
        #[trigger] call_ensures(
            PacketSecurityEnvelope::encode_parts,
            (config, key_id, nonce, payload, tag, out),
            result,
        ) && result is Ok implies lays_out_envelope(
        final(out)@.skip(out@.len() as int),
        EnvelopeParts { key_id, nonce, payload: payload@, tag: tag@ },
    ) by {
        let parts = EnvelopeParts { key_id, nonce, payload: payload@, tag: tag@ };
        lemma_envelope(parts);
        assert(final(out)@.skip(out@.len() as int) =~= envelope_bytes(parts));
    }
    assert forall|
        input: &[u8],
        result: Result<PacketSecurityEnvelopeRef<'_>, PacketSecurityDecodeError>,
    |
        #[trigger] call_ensures(PacketSecurityEnvelopeRef::<'_>::decode, (config, input), result)
            && result is Ok implies {
        let envelope = result->Ok_0;
        let parts = EnvelopeParts {
            key_id: envelope.key_id,
            nonce: envelope.nonce,
            payload: envelope.payload@,
            tag: envelope.tag@,
        };
        &&& envelope.payload@.len() <= config.max_payload_bytes
        &&& envelope.tag@.len() <= config.max_tag_bytes
        &&& lays_out_envelope(input@, parts)
    } by {
        let parts = decoded_envelope(config, input@)->Ok_0;
        law_envelope_encoding_is_canonical(config, input@);
        crate::bytes::lemma_le_bytes_of_value(input@.subrange(16, 20));
        crate::bytes::lemma_le_bytes_of_value(input@.subrange(20, 22));
        crate::bytes::lemma_le_limits();
        lemma_envelope(parts);
    }
}

/// The bytes of a reliable data frame on a link with this mark.
pub open spec fn lays_out_data(
    bytes: Seq<u8>,
    mark: (u8, u8),
    sequence: u64,
    payload: Seq<u8>,
) -> bool {
    &&& bytes.len() == 17 + payload.len()
    &&& bytes[0] == 0x53
    &&& bytes[1] == 0x53
    &&& bytes[2] == mark.0
    &&& bytes[3] == mark.1
    &&& bytes[4] == 0
    &&& number_at(bytes, 5, 8) == sequence
    &&& number_at(bytes, 13, 4) == payload.len()
    &&& bytes.skip(17) == payload
}

proof fn lemma_data(kind: LinkKind, sequence: u64, payload: Seq<u8>)
    requires
        payload.len() <= u32::MAX,
    ensures
        lays_out_data(
            reliable_bytes(kind, ReliableModel::Data { sequence, payload }),
            (link_magic(kind)[2], link_magic(kind)[3]),
            sequence,
            payload,
        ),
{
    lemma_sizes();
    let bytes = reliable_bytes(kind, ReliableModel::Data { sequence, payload });
    let mark = link_magic(kind);
    let tag = seq![0u8];
    let a = le_bytes(sequence as nat, 8);
    let b = le_bytes(payload.len(), 4);
    lemma_le_bytes_len(sequence as nat, 8);
    lemma_le_bytes_len(payload.len(), 4);
    assert(bytes =~= (mark + tag) + (a + (b + payload)));
    lemma_field(mark + tag, sequence as nat, 8, b + payload, bytes);
    assert(bytes =~= (mark + tag + a) + (b + payload));
    lemma_field(mark + tag + a, payload.len(), 4, payload, bytes);
    assert(bytes.skip(17) =~= payload);
}

/// A reliable data frame is its link's mark, a byte for its kind, its sequence number, the size of the
/// payload and the payload. The marks of the two links differ.
pub proof fn law_reliable_frames_have_a_fixed_layout(sequence: u64, payload: &[u8])
    ensures
        forall|out: &mut Vec<u8>, result: Result<(), ReliableClientEncodeError>|
            #[trigger] call_ensures(
                ReliableClientFrame::encode_data,
                (sequence, payload, out),
                result,
            ) ==> (result is Ok <==> payload@.len() <= u32::MAX) && (result is Ok ==> lays_out_data(
                final(out)@.skip(out@.len() as int),
                (0x43, 0x52),
                sequence,
                payload@,
            )),
        forall|out: &mut Vec<u8>, result: Result<(), ReliableStationEncodeError>|
            #[trigger] call_ensures(
                ReliableStationFrame::encode_data,
                (sequence, payload, out),
                result,
            ) ==> (result is Ok <==> payload@.len() <= u32::MAX) && (result is Ok ==> lays_out_data(
                final(out)@.skip(out@.len() as int),
                (0x52, 0x50),
                sequence,
                payload@,
            )),
{
    if payload@.len() <= u32::MAX {
        lemma_data(LinkKind::Client, sequence, payload@);
        lemma_data(LinkKind::Station, sequence, payload@);
    }
    let client = reliable_bytes(
        LinkKind::Client,
        ReliableModel::Data { sequence, payload: payload@ },
    );
    let station = reliable_bytes(
        LinkKind::Station,
        ReliableModel::Data { sequence, payload: payload@ },
    );
    assert forall|out: &mut Vec<u8>, result: Result<(), ReliableClientEncodeError>|
        #[trigger] call_ensures(ReliableClientFrame::encode_data, (sequence, payload, out), result)
            implies final(out)@.skip(out@.len() as int) == client by {
        assert(final(out)@.skip(out@.len() as int) =~= client);
    }
    assert forall|out: &mut Vec<u8>, result: Result<(), ReliableStationEncodeError>|
        #[trigger] call_ensures(ReliableStationFrame::encode_data, (sequence, payload, out), result)
            implies final(out)@.skip(out@.len() as int) == station by {
        assert(final(out)@.skip(out@.len() as int) =~= station);
    }
}

} // verus!
