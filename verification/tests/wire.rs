//! Wire frames: round trips, conversions, frame building and decode errors.

use sectorsync::frame_builder::{
    ComponentSelection, ReplicationFrameBuilder, ReplicationFrameLimits,
};
use sectorsync::frames::{
    BarrierFrame, CommandAckFrame, CommandDispatchFrame, CommandFrame, ComponentDelta, EntityDelta,
    FrameDecoder, FrameEncoder, ReplicationFrame, RuntimeFrame, StationEventFrame,
};
use sectorsync::ids::{
    BarrierId, BarrierState, ClientId, CommandEnvelope, CommandId, CommandPriority, ComponentId,
    EntityHandle, EntityId, EventId, EventKind, EventPriority, InstanceId, NodeId, OwnerEpoch,
    StationEvent, StationId, Tick,
};
use sectorsync::station::{
    CellCoord3, ComponentBlob, ComponentStore, EntityRecord, EntityRole, ReplicationPlan,
    ReplicationPlanStats, Station, StationConfig,
};
use sectorsync::wire_codec::{BinaryFrameDecoder, BinaryFrameEncoder};
use sectorsync::wire_spec::{BinaryDecodeError, BinaryEncodeError};

#[test]
fn binary_codec_roundtrips_replication_frame() {
    let frame = ReplicationFrame {
        client_id: ClientId::new(9),
        server_tick: Tick::new(42),
        entity_count: 17,
        estimated_payload_bytes: 544,
        entities: vec![EntityDelta {
            entity_id: EntityId::new(100),
            owner_epoch: OwnerEpoch::new(2),
            components: vec![ComponentDelta {
                component_id: ComponentId::new(1),
                version: 9,
                flags: 0,
                bytes: vec![1, 2, 3, 4],
            }],
        }],
    };
    let mut encoder = BinaryFrameEncoder;
    let mut bytes = Vec::new();
    encoder
        .encode_replication(&frame, &mut bytes)
        .expect("encoder is infallible");

    let decoded = BinaryFrameDecoder
        .decode(&bytes)
        .expect("decode should work");
    assert_eq!(decoded, RuntimeFrame::Replication(frame));
}

#[test]
fn binary_codec_roundtrips_command_ack_frame() {
    let frame = CommandAckFrame {
        client_id: ClientId::new(1),
        command_id: CommandId::new(2),
        server_tick: Tick::new(3),
        accepted: false,
        reason_code: 7,
    };
    let mut encoder = BinaryFrameEncoder;
    let mut bytes = Vec::new();
    encoder
        .encode_command_ack(&frame, &mut bytes)
        .expect("encoder is infallible");

    let decoded = BinaryFrameDecoder
        .decode(&bytes)
        .expect("decode should work");
    assert_eq!(decoded, RuntimeFrame::CommandAck(frame));
}

#[test]
fn binary_codec_roundtrips_command_frame() {
    let frame = CommandFrame {
        client_id: ClientId::new(1),
        command_id: CommandId::new(2),
        entity_id: EntityId::new(3),
        sequence: 4,
        kind: 5,
        priority: CommandPriority::High,
        payload: vec![9, 8, 7],
    };
    let mut encoder = BinaryFrameEncoder;
    let mut bytes = Vec::new();
    encoder
        .encode_command(&frame, &mut bytes)
        .expect("encoder is infallible");

    let decoded = BinaryFrameDecoder
        .decode(&bytes)
        .expect("decode should work");
    assert_eq!(decoded, RuntimeFrame::Command(frame));
}

#[test]
fn binary_codec_roundtrips_command_dispatch_frame() {
    let frame = CommandDispatchFrame {
        station_id: StationId::new(10),
        client_id: ClientId::new(1),
        command_id: CommandId::new(2),
        entity_id: EntityId::new(3),
        sequence: 4,
        received_at: Tick::new(99),
        kind: 5,
        priority: CommandPriority::High,
        payload: vec![9, 8, 7],
    };
    let mut encoder = BinaryFrameEncoder;
    let mut bytes = Vec::new();
    encoder
        .encode_command_dispatch(&frame, &mut bytes)
        .expect("encoder is infallible");

    let decoded = BinaryFrameDecoder
        .decode(&bytes)
        .expect("decode should work");
    assert_eq!(decoded, RuntimeFrame::CommandDispatch(frame));
}

#[test]
fn command_frame_converts_to_runtime_envelope() {
    let frame = CommandFrame {
        client_id: ClientId::new(1),
        command_id: CommandId::new(2),
        entity_id: EntityId::new(3),
        sequence: 4,
        kind: 5,
        priority: CommandPriority::Low,
        payload: vec![1, 2, 3],
    };

    let envelope = frame.clone().into_envelope(Tick::new(99));
    assert_eq!(envelope.id, frame.command_id);
    assert_eq!(envelope.received_at, Tick::new(99));
    assert_eq!(CommandFrame::from_envelope(&envelope), frame);
}

#[test]
fn command_dispatch_frame_preserves_stamped_envelope_tick() {
    let envelope = CommandEnvelope {
        id: CommandId::new(2),
        client_id: ClientId::new(1),
        entity_id: EntityId::new(3),
        sequence: 4,
        received_at: Tick::new(99),
        kind: 5,
        priority: CommandPriority::Low,
        payload: vec![1, 2, 3],
    };

    let frame = CommandDispatchFrame::from_envelope(StationId::new(10), &envelope);
    assert_eq!(frame.station_id, StationId::new(10));
    assert_eq!(frame.received_at, Tick::new(99));
    assert_eq!(frame.into_envelope(), envelope);
}

#[test]
fn binary_codec_roundtrips_barrier_frame() {
    let frame = BarrierFrame {
        client_id: ClientId::new(1),
        barrier_id: BarrierId::new(99),
        server_tick: Tick::new(11),
        state: BarrierState::Frozen,
    };
    let mut encoder = BinaryFrameEncoder;
    let mut bytes = Vec::new();
    encoder
        .encode_barrier(&frame, &mut bytes)
        .expect("encoder is infallible");

    let decoded = BinaryFrameDecoder
        .decode(&bytes)
        .expect("decode should work");
    assert_eq!(decoded, RuntimeFrame::Barrier(frame));
}

#[test]
fn binary_codec_roundtrips_station_event_frame() {
    let frames = [
        StationEventFrame {
            event_id: EventId::new(1),
            source_station: StationId::new(10),
            target_station: StationId::new(11),
            source_tick: Tick::new(2),
            target_tick: Tick::new(3),
            priority: EventPriority::Critical,
            kind: EventKind::Custom(7),
        },
        StationEventFrame {
            event_id: EventId::new(2),
            source_station: StationId::new(10),
            target_station: StationId::new(11),
            source_tick: Tick::new(2),
            target_tick: Tick::new(3),
            priority: EventPriority::Important,
            kind: EventKind::HandoffPrepare {
                entity_id: EntityId::new(99),
            },
        },
        StationEventFrame {
            event_id: EventId::new(3),
            source_station: StationId::new(10),
            target_station: StationId::new(11),
            source_tick: Tick::new(2),
            target_tick: Tick::new(3),
            priority: EventPriority::BestEffort,
            kind: EventKind::HandoffCommit {
                entity_id: EntityId::new(99),
                owner_epoch: OwnerEpoch::new(5),
            },
        },
    ];

    for frame in frames {
        let mut encoder = BinaryFrameEncoder;
        let mut bytes = Vec::new();
        encoder
            .encode_station_event(&frame, &mut bytes)
            .expect("encoder is infallible");

        let decoded = BinaryFrameDecoder
            .decode(&bytes)
            .expect("decode should work");
        assert_eq!(decoded, RuntimeFrame::StationEvent(frame));
    }
}

#[test]
fn station_event_frame_converts_to_runtime_event() {
    let event = StationEvent {
        id: EventId::new(1),
        source: StationId::new(10),
        target: StationId::new(11),
        source_tick: Tick::new(2),
        target_tick: Tick::new(3),
        priority: EventPriority::Critical,
        kind: EventKind::HandoffPrepare {
            entity_id: EntityId::new(99),
        },
    };

    let frame = StationEventFrame::from_event(&event);
    assert_eq!(frame.event_id, event.id);
    assert_eq!(frame.clone().into_event(), event);
}


fn station() -> Station {
    Station::new(StationConfig {
        station_id: StationId::new(1),
        node_id: NodeId::new(1),
        instance_id: InstanceId::new(1),
        tick_rate_hz: 20,
    })
}

fn owned(slot: u32, id: u64) -> EntityRecord {
    EntityRecord {
        handle: EntityHandle::new(slot, 0),
        id: EntityId::new(id),
        role: EntityRole::Authority {
            epoch: OwnerEpoch::new(1),
        },
        cells: vec![CellCoord3::new(0, 0, 0)],
    }
}

#[test]
fn frame_builder_materializes_dirty_component_deltas() {
    let mut station = station();
    let record = owned(0, 10);
    let handle = record.handle;
    station.put(record);

    let mut value = Vec::new();
    for part in [1.0_f32, 2.0, 3.0] {
        value.extend_from_slice(&part.to_le_bytes());
    }
    let components = ComponentStore {
        blobs: vec![ComponentBlob {
            component_id: ComponentId::new(1),
            handle,
            version: 3,
            dirty: true,
            bytes: value,
        }],
    };

    let builder = ReplicationFrameBuilder::new(ReplicationFrameLimits {
        max_entity_deltas: 8,
        max_components_per_entity: 4,
        max_component_bytes: 64,
    });
    let plan = ReplicationPlan {
        entities: vec![handle],
        stats: ReplicationPlanStats::default(),
    };
    let selection = ComponentSelection {
        component_ids: vec![ComponentId::new(1)],
    };
    let build = builder.build(
        ClientId::new(5),
        Tick::new(9),
        &station,
        &plan,
        &components,
        &selection,
    );

    assert_eq!(build.stats.encoded_entities, 1);
    assert_eq!(build.stats.encoded_components, 1);
    assert_eq!(build.frame.entities[0].entity_id, EntityId::new(10));
    assert_eq!(build.frame.entities[0].components[0].version, 3);

    let mut materialized_bytes = Vec::new();
    BinaryFrameEncoder
        .encode_replication(&build.frame, &mut materialized_bytes)
        .expect("materialized frame should encode");
    let mut direct_bytes = Vec::new();
    let direct_stats = builder
        .encode_binary_into(
            ClientId::new(5),
            Tick::new(9),
            &station,
            &plan,
            &components,
            &selection,
            &mut direct_bytes,
        )
        .expect("plan should encode directly");

    assert_eq!(direct_stats, build.stats);
    assert_eq!(direct_bytes, materialized_bytes);
    assert_eq!(
        builder.sampled_binary_capacity_hint(&station, &plan, &components, &selection),
        direct_bytes.len()
    );
}

#[test]
fn binary_capacity_hint_is_bounded_by_active_builder_limits() {
    let builder = ReplicationFrameBuilder::new(ReplicationFrameLimits {
        max_entity_deltas: 2,
        max_components_per_entity: 2,
        max_component_bytes: 32,
    });
    let plan = ReplicationPlan {
        entities: vec![
            EntityHandle::new(1, 0),
            EntityHandle::new(2, 0),
            EntityHandle::new(3, 0),
        ],
        stats: ReplicationPlanStats {
            estimated_bytes: usize::MAX,
            ..ReplicationPlanStats::default()
        },
    };
    let selection = ComponentSelection {
        component_ids: vec![
            ComponentId::new(1),
            ComponentId::new(2),
            ComponentId::new(3),
        ],
    };

    let fixed_bytes = 29 + 2 * (18 + 2 * 15);
    let maximum_payload_bytes = 2 * 2 * 32;
    assert_eq!(
        builder.binary_capacity_hint(&plan, &selection),
        fixed_bytes + maximum_payload_bytes
    );
}

#[test]
fn sampled_capacity_hint_falls_back_when_any_sample_has_no_dirty_data() {
    let mut station = station();
    let mut components = ComponentStore::default();
    let mut handles = Vec::new();
    for entity in 0_u32..4 {
        let record = owned(entity, u64::from(entity));
        let handle = record.handle;
        station.put(record);
        if entity < 3 {
            components.blobs.push(ComponentBlob {
                component_id: ComponentId::new(1),
                handle,
                version: 1,
                dirty: true,
                bytes: 100_u32.to_le_bytes().to_vec(),
            });
        }
        handles.push(handle);
    }
    let plan = ReplicationPlan {
        entities: handles,
        stats: ReplicationPlanStats {
            selected: 4,
            estimated_bytes: 128,
            ..ReplicationPlanStats::default()
        },
    };
    let selection = ComponentSelection {
        component_ids: vec![ComponentId::new(1)],
    };

    assert_eq!(
        ReplicationFrameBuilder::default().sampled_binary_capacity_hint(
            &station,
            &plan,
            &components,
            &selection,
        ),
        0
    );
}

fn ack() -> CommandAckFrame {
    CommandAckFrame {
        client_id: ClientId::new(1),
        command_id: CommandId::new(2),
        server_tick: Tick::new(3),
        accepted: true,
        reason_code: 0x0102,
    }
}

#[test]
fn command_ack_bytes_are_little_endian_fields_behind_the_kind() {
    let mut bytes = vec![0xee];
    BinaryFrameEncoder
        .encode_command_ack(&ack(), &mut bytes)
        .expect("acks always encode");
    assert_eq!(
        bytes,
        vec![
            0xee, 1, 1, 0, 0, 0, 0, 0, 0, 0, 2, 0, 0, 0, 0, 0, 0, 0, 3, 0, 0, 0, 0, 0, 0, 0, 1, 2,
            1,
        ]
    );
}

#[test]
fn trailing_bytes_are_counted_in_the_error() {
    let mut bytes = Vec::new();
    BinaryFrameEncoder
        .encode_command_ack(&ack(), &mut bytes)
        .expect("acks always encode");
    bytes.extend_from_slice(&[7, 7]);
    assert_eq!(
        BinaryFrameDecoder.decode(&bytes),
        Err(BinaryDecodeError::TrailingBytes(2))
    );
}

#[test]
fn every_cut_frame_is_refused() {
    let mut bytes = Vec::new();
    BinaryFrameEncoder
        .encode_command(
            &CommandFrame {
                client_id: ClientId::new(1),
                command_id: CommandId::new(2),
                entity_id: EntityId::new(3),
                sequence: 4,
                kind: 5,
                priority: CommandPriority::Normal,
                payload: vec![9, 8, 7],
            },
            &mut bytes,
        )
        .expect("command encodes");
    for cut in 0..bytes.len() {
        assert!(BinaryFrameDecoder.decode(&bytes[..cut]).is_err());
    }
    assert!(BinaryFrameDecoder.decode(&bytes).is_ok());
}

#[test]
fn unknown_frame_kinds_are_refused() {
    assert!(matches!(
        BinaryFrameDecoder.decode(&[200, 1, 2, 3]),
        Err(BinaryDecodeError::UnknownFrameKind(200))
    ));
}

#[test]
fn invalid_enumeration_bytes_are_named() {
    let mut command = Vec::new();
    BinaryFrameEncoder
        .encode_command(
            &CommandFrame {
                client_id: ClientId::new(1),
                command_id: CommandId::new(2),
                entity_id: EntityId::new(3),
                sequence: 4,
                kind: 5,
                priority: CommandPriority::High,
                payload: Vec::new(),
            },
            &mut command,
        )
        .expect("command encodes");
    command[37] = 9;
    assert_eq!(
        BinaryFrameDecoder.decode(&command),
        Err(BinaryDecodeError::InvalidCommandPriority(9))
    );

    let mut barrier = Vec::new();
    BinaryFrameEncoder
        .encode_barrier(
            &BarrierFrame {
                client_id: ClientId::new(1),
                barrier_id: BarrierId::new(99),
                server_tick: Tick::new(11),
                state: BarrierState::Frozen,
            },
            &mut barrier,
        )
        .expect("barrier encodes");
    assert_eq!(barrier.len(), 26);
    barrier[25] = 77;
    assert_eq!(
        BinaryFrameDecoder.decode(&barrier),
        Err(BinaryDecodeError::InvalidBarrierState(77))
    );

    let mut event = Vec::new();
    BinaryFrameEncoder
        .encode_station_event(
            &StationEventFrame {
                event_id: EventId::new(1),
                source_station: StationId::new(10),
                target_station: StationId::new(11),
                source_tick: Tick::new(2),
                target_tick: Tick::new(3),
                priority: EventPriority::Critical,
                kind: EventKind::Custom(7),
            },
            &mut event,
        )
        .expect("event encodes");
    let mut bad_kind = event.clone();
    bad_kind[34] = 50;
    assert_eq!(
        BinaryFrameDecoder.decode(&bad_kind),
        Err(BinaryDecodeError::InvalidEventKind(50))
    );
    event[33] = 60;
    assert_eq!(
        BinaryFrameDecoder.decode(&event),
        Err(BinaryDecodeError::InvalidEventPriority(60))
    );
}

#[test]
fn short_input_reports_what_was_needed() {
    assert_eq!(
        BinaryFrameDecoder.decode(&[]),
        Err(BinaryDecodeError::Empty)
    );
    assert_eq!(
        BinaryFrameDecoder.decode(&[1, 0, 0]),
        Err(BinaryDecodeError::Truncated {
            needed: 9,
            available: 3
        })
    );
}

#[test]
fn entities_that_do_not_fit_a_count_field_are_an_encode_error() {
    let component = ComponentDelta {
        component_id: ComponentId::new(1),
        version: 1,
        flags: 0,
        bytes: Vec::new(),
    };
    let frame = ReplicationFrame {
        client_id: ClientId::new(9),
        server_tick: Tick::new(42),
        entity_count: 1,
        estimated_payload_bytes: 0,
        entities: vec![EntityDelta {
            entity_id: EntityId::new(100),
            owner_epoch: OwnerEpoch::new(2),
            components: vec![component; 70_000],
        }],
    };
    let mut bytes = Vec::new();
    assert!(matches!(
        BinaryFrameEncoder.encode_replication(&frame, &mut bytes),
        Err(BinaryEncodeError::TooManyItems {
            actual: 70_000,
            ..
        })
    ));
}

#[test]
fn bounded_encoding_leaves_out_entities_beyond_the_budget() {
    let mut station = station();
    let mut components = ComponentStore::default();
    let mut handles = Vec::new();
    for slot in 0_u32..3 {
        let record = owned(slot, u64::from(slot));
        handles.push(record.handle);
        components.blobs.push(ComponentBlob {
            component_id: ComponentId::new(1),
            handle: record.handle,
            version: 1,
            dirty: true,
            bytes: vec![5; 10],
        });
        station.put(record);
    }
    let plan = ReplicationPlan {
        entities: handles,
        stats: ReplicationPlanStats::default(),
    };
    let selection = ComponentSelection {
        component_ids: vec![ComponentId::new(1)],
    };
    let entity_bytes = 18 + 15 + 10;
    let budget = 29 + 2 * entity_bytes;
    let mut bytes = Vec::new();
    let stats = ReplicationFrameBuilder::default()
        .encode_binary_bounded_into(
            ClientId::new(5),
            Tick::new(9),
            &station,
            &plan,
            &components,
            &selection,
            budget,
            &mut bytes,
        )
        .expect("plan should encode");
    assert_eq!(bytes.len(), budget);
    assert_eq!(stats.encoded_entities, 2);
    assert_eq!(stats.skipped_entities_by_frame_bytes, 1);
}
