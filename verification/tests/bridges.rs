//! Bridges between packet transports and the runtime: replication, commands, barriers and events.

use std::cell::RefCell;
use std::rc::Rc;

use sectorsync::barrier::{CommandQueueMode, RuntimeBarrier};
use sectorsync::barrier_bridge::BarrierTransportBridge;
use sectorsync::client_bridge::{
    ClientInboundFrameKind, ClientInboundFrameRef, ClientTransportBridge,
    ClientTransportBridgeError, ClientTransportConfig, ClientTransportVisitError,
};
use sectorsync::command_dispatch_bridge::{
    CommandDispatchTransportBridge, CommandDispatchTransportError,
};
use sectorsync::deployment::{
    DeploymentConfig, DeploymentError, DeploymentRouteTable, GatewayRoute,
};
use sectorsync::event_router::{EventRouter, EventRouterError, PushOutcome, StationEventQueue};
use sectorsync::frame_builder::{ComponentSelection, ReplicationFrameBuilder};
use sectorsync::frames::{
    BarrierFrame, CommandAckFrame, CommandDispatchFrame, CommandFrame, ComponentDelta, EntityDelta,
    FrameDecoder, FrameEncoder, ReplicationFrame, RuntimeFrame,
};
use sectorsync::gateway::{
    CommandGateway, CommandQueueError, GatewayAdmission, GatewayCommandPipeline,
    GatewayCommandPipelineConfig, GatewayCommandPipelineError, GatewayError, StationCommandQueue,
    GATEWAY_COMMAND_ACK_ACCEPTED, GATEWAY_COMMAND_ACK_BARRIER_REJECTED,
    GATEWAY_COMMAND_ACK_DEPLOYMENT_REJECTED, GATEWAY_COMMAND_ACK_GATEWAY_REJECTED,
    GATEWAY_COMMAND_ACK_MISSING_QUEUE, GATEWAY_COMMAND_ACK_QUEUE_FULL,
    GATEWAY_COMMAND_ACK_RATE_LIMITED, GATEWAY_COMMAND_ACK_REPLAY_OR_STALE,
};
use sectorsync::gateway_bridge::{GatewayClientTransportBridge, GatewayClientTransportError};
use sectorsync::ids::{
    BarrierId, BarrierState, ClientId, CommandEnvelope, CommandId, CommandPriority, ComponentId,
    EntityHandle, EntityId, EventId, EventKind, EventPriority, InstanceId, NodeId, OwnerEpoch,
    StationEvent, StationId, Tick,
};
use sectorsync::memory_transport::{
    ClientTransportLimits, InMemoryStationTransport, InMemoryTransportError, InMemoryTransportHub,
};
use sectorsync::ordered_map::OrderedMap;
use sectorsync::packets::{
    InboundPacket, OutboundPacket, PeerAddress, StationOutboundPacket, StationTransportSink,
    TransportReceiver, TransportSink,
};
use sectorsync::replication_bridge::{
    ReplicationBudget, ReplicationTransportBridge, ReplicationTransportConfig,
};
use sectorsync::replication_receive::{
    ReplicationReceiveBridge, ReplicationReceiveConfig, ReplicationReceiveError,
    ReplicationReceiveVisitError,
};
use sectorsync::station::{
    CellCoord3, ComponentBlob, ComponentStore, EntityRecord, EntityRole, ReplicationPlan,
    ReplicationPlanStats, Station, StationConfig,
};
use sectorsync::station_event_bridge::{StationEventTransportBridge, StationEventTransportError};
use sectorsync::station_scheduler::StationScheduler;
use sectorsync::station_set::{BarrierScope, StationSet};
use sectorsync::wire_codec::{BinaryFrameDecoder, BinaryFrameEncoder};
use sectorsync::wire_spec::BinaryDecodeError;

/// A hub shared by its endpoints.
#[derive(Clone)]
struct Hub(Rc<RefCell<InMemoryTransportHub>>);

impl Hub {
    fn new(limits: ClientTransportLimits) -> Self {
        Self(Rc::new(RefCell::new(InMemoryTransportHub::new(limits))))
    }

    fn endpoint(
        &self,
        client_id: ClientId,
        address: PeerAddress,
    ) -> Result<Endpoint, InMemoryTransportError> {
        self.0.borrow_mut().register_client(client_id, address);
        Ok(Endpoint {
            hub: self.clone(),
            client_id,
        })
    }
}

/// One client's end of a hub.
struct Endpoint {
    hub: Hub,
    client_id: ClientId,
}

impl TransportSink for Endpoint {
    type Error = InMemoryTransportError;

    fn send(&mut self, packet: OutboundPacket) -> Result<(), Self::Error> {
        self.hub.0.borrow_mut().send_from(self.client_id, packet)
    }
}

impl TransportReceiver for Endpoint {
    type Error = InMemoryTransportError;

    fn try_recv(&mut self) -> Result<Option<InboundPacket>, Self::Error> {
        self.hub.0.borrow_mut().receive_for(self.client_id)
    }
}

fn memory_addr(port: u16) -> PeerAddress {
    PeerAddress::v4(0x7f00_0001, port)
}

fn station(station_id: u32, instance_id: u64) -> Station {
    Station::new(StationConfig {
        station_id: StationId::new(station_id),
        node_id: NodeId::new(0),
        instance_id: InstanceId::new(instance_id),
        tick_rate_hz: 20,
    })
}

/// Sessions with a command limit per tick.
struct Sessions {
    max_commands_per_tick: usize,
    sessions: Vec<Session>,
}

struct Session {
    client_id: ClientId,
    station_id: StationId,
    last_sequence: u64,
    tick: Tick,
    commands: usize,
}

impl Sessions {
    fn connect(
        &mut self,
        client_id: ClientId,
        station_id: StationId,
        now: Tick,
    ) -> Result<(), GatewayError> {
        self.sessions.push(Session {
            client_id,
            station_id,
            last_sequence: 0,
            tick: now,
            commands: 0,
        });
        Ok(())
    }
}

impl CommandGateway for Sessions {
    fn admit_command(
        &mut self,
        command: &CommandEnvelope,
    ) -> Result<GatewayAdmission, GatewayError> {
        let limit = self.max_commands_per_tick;
        let session = self
            .sessions
            .iter_mut()
            .find(|session| session.client_id == command.client_id)
            .ok_or(GatewayError::MissingSession(command.client_id))?;
        if session.tick != command.received_at {
            session.tick = command.received_at;
            session.commands = 0;
        }
        if command.sequence <= session.last_sequence {
            return Err(GatewayError::ReplayOrStale {
                client_id: command.client_id,
                sequence: command.sequence,
            });
        }
        if session.commands >= limit {
            return Err(GatewayError::RateLimited {
                client_id: command.client_id,
                limit,
            });
        }
        session.commands += 1;
        session.last_sequence = command.sequence;
        Ok(GatewayAdmission {
            route: GatewayRoute {
                client_id: command.client_id,
                station_id: session.station_id,
            },
        })
    }
}

fn gateway(max_commands_per_tick: usize) -> Sessions {
    Sessions {
        max_commands_per_tick,
        sessions: Vec::new(),
    }
}

/// Whether a station takes commands.
#[derive(Clone, Copy, PartialEq, Eq)]
enum Ingress {
    Running,
    Frozen,
}

/// First-in first-out command queue with a limit.
struct Commands {
    limit: usize,
    waiting: Vec<CommandEnvelope>,
}

impl Commands {
    fn pop_next(&mut self) -> Option<CommandEnvelope> {
        if self.waiting.is_empty() {
            None
        } else {
            Some(self.waiting.remove(0))
        }
    }

    fn total_len(&self) -> usize {
        self.waiting.len()
    }
}

impl StationCommandQueue for Commands {
    type Ingress = Ingress;

    fn push(&mut self, command: CommandEnvelope, ingress: Ingress) -> Result<(), CommandQueueError> {
        if ingress == Ingress::Frozen {
            return Err(CommandQueueError::RejectedByBarrier(command.priority));
        }
        if self.waiting.len() >= self.limit {
            return Err(CommandQueueError::QueueFull(command.priority));
        }
        self.waiting.push(command);
        Ok(())
    }
}

fn command_queues() -> Commands {
    Commands {
        limit: 4,
        waiting: Vec::new(),
    }
}

fn queues_of(station_id: StationId) -> OrderedMap<Commands> {
    let mut queues = OrderedMap::new();
    queues.insert(key(station_id), command_queues());
    queues
}

fn key(station_id: StationId) -> u128 {
    u128::from(station_id.get())
}

/// Event queue that hands events out once their tick has come.
struct Events(Vec<StationEvent>);

impl StationEventQueue for Events {
    type Limits = ();
    type Error = &'static str;

    fn with_limits(_limits: ()) -> Self {
        Self(Vec::new())
    }

    fn push(&mut self, event: StationEvent) -> Result<PushOutcome, Self::Error> {
        self.0.push(event);
        Ok(PushOutcome::Queued)
    }

    fn drain_ready_into(&mut self, current_tick: Tick, ready: &mut Vec<StationEvent>) -> usize {
        let before = ready.len();
        let mut index = 0;
        while index < self.0.len() {
            if self.0[index].target_tick <= current_tick {
                ready.push(self.0.remove(index));
            } else {
                index += 1;
            }
        }
        ready.len() - before
    }

    fn len(&self) -> usize {
        self.0.len()
    }
}

fn encode_command_frame(sequence: u64) -> Vec<u8> {
    let frame = CommandFrame {
        client_id: ClientId::new(7),
        command_id: CommandId::new(sequence),
        entity_id: EntityId::new(100),
        sequence,
        kind: 1,
        priority: CommandPriority::High,
        payload: b"move:north".to_vec(),
    };
    let mut bytes = Vec::new();
    BinaryFrameEncoder
        .encode_command(&frame, &mut bytes)
        .expect("command should encode");
    bytes
}

#[test]
fn barrier_transport_bridge_broadcasts_client_notifications() {
    let server_id = ClientId::new(0);
    let clients = [ClientId::new(7), ClientId::new(8)];
    let hub = Hub::new(ClientTransportLimits {
        max_queued_packets_per_client: 4,
        max_packet_bytes: 512,
    });
    let mut server_transport = hub
        .endpoint(server_id, memory_addr(23400))
        .expect("server endpoint should register");
    let mut client_transports = clients
        .into_iter()
        .enumerate()
        .map(|(index, client_id)| {
            hub.endpoint(
                client_id,
                memory_addr(23407 + index as u16),
            )
            .expect("client endpoint should register")
        })
        .collect::<Vec<_>>();
    let mut barrier = RuntimeBarrier::requested(
        BarrierId::new(5),
        BarrierScope::Instance(InstanceId::new(10)),
        Tick::new(10),
        Tick::new(12),
        CommandQueueMode::Buffer,
    );
    barrier.wait_for_tick_boundary();
    barrier.freeze();

    let mut bridge = BarrierTransportBridge::default();
    let report = bridge
        .broadcast_barrier(&mut server_transport, &clients, barrier)
        .expect("barrier should broadcast");

    assert_eq!(report.barrier_id, barrier.id);
    assert_eq!(report.state, BarrierState::Frozen);
    assert_eq!(report.server_tick, Tick::new(12));
    assert_eq!(report.clients_requested, 2);
    assert_eq!(report.clients_sent, 2);
    assert!(report.bytes_sent > 0);
    assert_eq!(bridge.stats().notifications_sent, 2);
    assert_eq!(bridge.stats().clients_notified, 2);
    assert_eq!(bridge.stats().bytes_sent, report.bytes_sent);

    for (index, client_id) in clients.into_iter().enumerate() {
        let mut client_bridge = ClientTransportBridge::new(
            ClientTransportConfig::new(client_id, server_id).with_expected_source(server_id),
        );
        let pump = client_bridge
            .pump_owned(&mut client_transports[index], 2)
            .expect("client should receive barrier");
        assert_eq!(pump.barrier_frames_received(), 1);
        assert_eq!(
            pump.barriers[0],
            BarrierFrame {
                client_id,
                barrier_id: barrier.id,
                server_tick: barrier.target_tick,
                state: BarrierState::Frozen,
            }
        );
    }
}

#[test]
fn replication_receive_bridge_decodes_target_frames() {
    let client_id = ClientId::new(7);
    let server_id = ClientId::new(0);
    let hub = Hub::new(ClientTransportLimits {
        max_queued_packets_per_client: 4,
        max_packet_bytes: 512,
    });
    let mut client_transport = hub
        .endpoint(client_id, memory_addr(23007))
        .expect("client endpoint should register");
    let mut server_transport = hub
        .endpoint(server_id, memory_addr(23000))
        .expect("server endpoint should register");
    let frame = ReplicationFrame {
        client_id,
        server_tick: Tick::new(12),
        entity_count: 1,
        estimated_payload_bytes: 4,
        entities: vec![EntityDelta {
            entity_id: EntityId::new(100),
            owner_epoch: OwnerEpoch::new(1),
            components: vec![ComponentDelta {
                component_id: ComponentId::new(1),
                version: 1,
                flags: 0,
                bytes: 100_u32.to_le_bytes().to_vec(),
            }],
        }],
    };
    let mut bytes = Vec::new();
    BinaryFrameEncoder
        .encode_replication(&frame, &mut bytes)
        .expect("replication should encode");
    server_transport
        .send(OutboundPacket {
            client_id,
            bytes: bytes.clone(),
        })
        .expect("replication packet should send");

    let mut receive = ReplicationReceiveBridge::new(
        ReplicationReceiveConfig::new(client_id).with_expected_source(server_id),
    );
    let pump = receive
        .pump_owned(&mut client_transport, 4)
        .expect("replication packet should receive");

    assert_eq!(pump.frames_received(), 1);
    assert_eq!(pump.entities_received(), 1);
    assert_eq!(pump.components_received(), 1);
    assert_eq!(pump.frames[0].client_id, client_id);
    assert_eq!(receive.stats().packets_received, 1);
    assert_eq!(receive.stats().frames_received, 1);
    assert_eq!(receive.stats().entities_received, 1);
    assert_eq!(receive.stats().components_received, 1);
    assert!(receive.stats().bytes_received > 0);

    server_transport
        .send(OutboundPacket {
            client_id,
            bytes: bytes.clone(),
        })
        .expect("visitor packet should send");
    let visited_payload = RefCell::new(0_u32);
    let visit = receive
        .pump(&mut client_transport, 4, |borrowed| {
            assert_eq!(borrowed.client_id, client_id);
            for entity in borrowed.entities() {
                assert_eq!(entity.entity_id, EntityId::new(100));
                for component in entity.components() {
                    *visited_payload.borrow_mut() = u32::from_le_bytes(
                        component
                            .bytes
                            .try_into()
                            .expect("health payload should be four bytes"),
                    );
                }
            }
            Ok::<_, core::convert::Infallible>(())
        })
        .expect("borrowed replication packet should visit");
    assert_eq!(visited_payload.into_inner(), 100);
    assert_eq!(visit.packets_received, 1);
    assert_eq!(visit.frames_received, 1);
    assert_eq!(visit.entities_received, 1);
    assert_eq!(visit.components_received, 1);

    server_transport
        .send(OutboundPacket { client_id, bytes })
        .expect("visitor failure packet should send");
    let error = receive
        .pump(&mut client_transport, 4, |_| Err("apply failed"))
        .expect_err("visitor failure should surface separately");
    assert!(matches!(
        error,
        ReplicationReceiveVisitError::Visitor("apply failed")
    ));
    assert_eq!(receive.stats().packets_received, 3);
    assert_eq!(receive.stats().frames_received, 3);
    assert_eq!(receive.stats().entities_received, 3);
    assert_eq!(receive.stats().components_received, 3);
}

#[test]
fn replication_receive_bridge_rejects_wrong_target() {
    let client_id = ClientId::new(7);
    let server_id = ClientId::new(0);
    let wrong_client_id = ClientId::new(99);
    let hub = Hub::new(ClientTransportLimits {
        max_queued_packets_per_client: 4,
        max_packet_bytes: 512,
    });
    let mut client_transport = hub
        .endpoint(client_id, memory_addr(23107))
        .expect("client endpoint should register");
    let mut server_transport = hub
        .endpoint(server_id, memory_addr(23100))
        .expect("server endpoint should register");
    let frame = ReplicationFrame {
        client_id: wrong_client_id,
        server_tick: Tick::new(12),
        entity_count: 1,
        estimated_payload_bytes: 4,
        entities: vec![EntityDelta {
            entity_id: EntityId::new(100),
            owner_epoch: OwnerEpoch::new(1),
            components: vec![ComponentDelta {
                component_id: ComponentId::new(1),
                version: 1,
                flags: 0,
                bytes: 100_u32.to_le_bytes().to_vec(),
            }],
        }],
    };
    let mut bytes = Vec::new();
    BinaryFrameEncoder
        .encode_replication(&frame, &mut bytes)
        .expect("replication should encode");
    server_transport
        .send(OutboundPacket { client_id, bytes })
        .expect("replication packet should send");

    let mut receive = ReplicationReceiveBridge::new(
        ReplicationReceiveConfig::new(client_id).with_expected_source(server_id),
    );
    let error = receive
        .pump_owned(&mut client_transport, 4)
        .expect_err("wrong target should be rejected");

    assert!(matches!(
        error,
        ReplicationReceiveError::TargetMismatch {
            expected,
            actual,
        } if expected == client_id && actual == wrong_client_id
    ));
    assert_eq!(receive.stats().packets_received, 1);
    assert_eq!(receive.stats().frames_received, 0);
    assert_eq!(receive.stats().frames_rejected_target, 1);
}

#[test]
fn client_transport_bridge_sends_command_and_receives_client_frames() {
    let client_id = ClientId::new(7);
    let server_id = ClientId::new(0);
    let hub = Hub::new(ClientTransportLimits {
        max_queued_packets_per_client: 8,
        max_packet_bytes: 512,
    });
    let mut client_transport = hub
        .endpoint(client_id, memory_addr(23207))
        .expect("client endpoint should register");
    let mut server_transport = hub
        .endpoint(server_id, memory_addr(23200))
        .expect("server endpoint should register");
    let mut bridge = ClientTransportBridge::new(
        ClientTransportConfig::new(client_id, server_id).with_expected_source(server_id),
    );
    let command = CommandFrame {
        client_id,
        command_id: CommandId::new(42),
        entity_id: EntityId::new(100),
        sequence: 9,
        kind: 1,
        priority: CommandPriority::High,
        payload: b"move:north".to_vec(),
    };

    let send = bridge
        .send_command_frame(&mut client_transport, &command)
        .expect("command should send");
    assert_eq!(send.command_id, command.command_id);
    assert!(send.bytes_sent > 0);
    assert_eq!(bridge.stats().commands_sent, 1);
    assert_eq!(bridge.stats().command_bytes_sent, send.bytes_sent);
    let inbound = server_transport
        .try_recv()
        .expect("server receive should work")
        .expect("command packet should arrive");
    assert_eq!(inbound.client_id, Some(client_id));
    let RuntimeFrame::Command(decoded) = BinaryFrameDecoder
        .decode(&inbound.bytes)
        .expect("command should decode")
    else {
        panic!("expected command frame");
    };
    assert_eq!(decoded, command);

    let ack = CommandAckFrame {
        client_id,
        command_id: command.command_id,
        server_tick: Tick::new(12),
        accepted: true,
        reason_code: GATEWAY_COMMAND_ACK_ACCEPTED,
    };
    let mut ack_bytes = Vec::new();
    BinaryFrameEncoder
        .encode_command_ack(&ack, &mut ack_bytes)
        .expect("ACK should encode");
    server_transport
        .send(OutboundPacket {
            client_id,
            bytes: ack_bytes.clone(),
        })
        .expect("ACK should send");

    let replication = ReplicationFrame {
        client_id,
        server_tick: Tick::new(12),
        entity_count: 1,
        estimated_payload_bytes: 4,
        entities: vec![EntityDelta {
            entity_id: EntityId::new(100),
            owner_epoch: OwnerEpoch::new(1),
            components: vec![ComponentDelta {
                component_id: ComponentId::new(1),
                version: 1,
                flags: 0,
                bytes: 100_u32.to_le_bytes().to_vec(),
            }],
        }],
    };
    let mut replication_bytes = Vec::new();
    BinaryFrameEncoder
        .encode_replication(&replication, &mut replication_bytes)
        .expect("replication should encode");
    server_transport
        .send(OutboundPacket {
            client_id,
            bytes: replication_bytes.clone(),
        })
        .expect("replication should send");

    let barrier = BarrierFrame {
        client_id,
        barrier_id: BarrierId::new(5),
        server_tick: Tick::new(12),
        state: BarrierState::Frozen,
    };
    let mut barrier_bytes = Vec::new();
    BinaryFrameEncoder
        .encode_barrier(&barrier, &mut barrier_bytes)
        .expect("barrier should encode");
    server_transport
        .send(OutboundPacket {
            client_id,
            bytes: barrier_bytes.clone(),
        })
        .expect("barrier should send");

    let pump = bridge
        .pump_owned(&mut client_transport, 8)
        .expect("client frames should receive");

    assert_eq!(pump.packets_received, 3);
    assert_eq!(pump.command_acks_received(), 1);
    assert_eq!(pump.replication_frames_received(), 1);
    assert_eq!(pump.barrier_frames_received(), 1);
    assert_eq!(pump.entities_received(), 1);
    assert_eq!(pump.components_received(), 1);
    assert_eq!(pump.command_acks[0], ack);
    assert_eq!(pump.replication_frames[0], replication);
    assert_eq!(pump.barriers[0], barrier);
    assert_eq!(bridge.stats().packets_received, 3);
    assert_eq!(bridge.stats().command_acks_received, 1);
    assert_eq!(bridge.stats().replication_frames_received, 1);
    assert_eq!(bridge.stats().barrier_frames_received, 1);
    assert_eq!(bridge.stats().entities_received, 1);
    assert_eq!(bridge.stats().components_received, 1);

    for bytes in [ack_bytes.clone(), replication_bytes, barrier_bytes] {
        server_transport
            .send(OutboundPacket { client_id, bytes })
            .expect("visitor packet should send");
    }
    let mut visited_ack = 0_usize;
    let mut visited_replication = 0_usize;
    let mut visited_barrier = 0_usize;
    let mut payload_checksum = 0_u64;
    let visit = bridge
        .pump(&mut client_transport, 8, |frame| {
            match frame {
                ClientInboundFrameRef::CommandAck(frame) => {
                    assert_eq!(frame, ack);
                    visited_ack = visited_ack.saturating_add(1);
                }
                ClientInboundFrameRef::Replication(frame) => {
                    assert_eq!(frame.client_id, client_id);
                    assert_eq!(frame.encoded_entity_count(), 1);
                    for entity in frame.entities() {
                        for component in entity.components() {
                            payload_checksum = payload_checksum.saturating_add(
                                component.bytes.iter().map(|byte| u64::from(*byte)).sum(),
                            );
                        }
                    }
                    visited_replication = visited_replication.saturating_add(1);
                }
                ClientInboundFrameRef::Barrier(frame) => {
                    assert_eq!(frame, barrier);
                    visited_barrier = visited_barrier.saturating_add(1);
                }
            }
            Ok::<(), &'static str>(())
        })
        .expect("mixed visitor pump should work");
    assert_eq!(visit.packets_received, 3);
    assert_eq!(visit.command_acks_received, 1);
    assert_eq!(visit.replication_frames_received, 1);
    assert_eq!(visit.barrier_frames_received, 1);
    assert_eq!(visit.entities_received, 1);
    assert_eq!(visit.components_received, 1);
    assert_eq!(
        (visited_ack, visited_replication, visited_barrier),
        (1, 1, 1)
    );
    assert_eq!(payload_checksum, 100);
    assert_eq!(bridge.stats().packets_received, 6);

    server_transport
        .send(OutboundPacket {
            client_id,
            bytes: ack_bytes,
        })
        .expect("failing visitor packet should send");
    let visitor_error = bridge
        .pump(&mut client_transport, 1, |_| Err("apply failed"))
        .expect_err("visitor failure should propagate");
    assert_eq!(
        visitor_error,
        ClientTransportVisitError::Visitor("apply failed")
    );
    assert_eq!(bridge.stats().packets_received, 7);
    assert_eq!(bridge.stats().command_acks_received, 3);
}

#[test]
fn client_transport_bridge_rejects_wrong_ack_target() {
    let client_id = ClientId::new(7);
    let server_id = ClientId::new(0);
    let wrong_client_id = ClientId::new(99);
    let hub = Hub::new(ClientTransportLimits {
        max_queued_packets_per_client: 4,
        max_packet_bytes: 512,
    });
    let mut client_transport = hub
        .endpoint(client_id, memory_addr(23307))
        .expect("client endpoint should register");
    let mut server_transport = hub
        .endpoint(server_id, memory_addr(23300))
        .expect("server endpoint should register");
    let mut bridge = ClientTransportBridge::new(
        ClientTransportConfig::new(client_id, server_id).with_expected_source(server_id),
    );
    let ack = CommandAckFrame {
        client_id: wrong_client_id,
        command_id: CommandId::new(42),
        server_tick: Tick::new(12),
        accepted: true,
        reason_code: GATEWAY_COMMAND_ACK_ACCEPTED,
    };
    let mut ack_bytes = Vec::new();
    BinaryFrameEncoder
        .encode_command_ack(&ack, &mut ack_bytes)
        .expect("ACK should encode");
    server_transport
        .send(OutboundPacket {
            client_id,
            bytes: ack_bytes,
        })
        .expect("ACK should send");

    let error = bridge
        .pump_owned(&mut client_transport, 4)
        .expect_err("wrong target should be rejected");

    assert!(matches!(
        error,
        ClientTransportBridgeError::TargetMismatch {
            kind: ClientInboundFrameKind::CommandAck,
            expected,
            actual,
        } if expected == client_id && actual == wrong_client_id
    ));
    assert_eq!(bridge.stats().packets_received, 1);
    assert_eq!(bridge.stats().command_acks_received, 0);
    assert_eq!(bridge.stats().frames_rejected_target, 1);
}

#[test]
fn gateway_client_transport_bridge_queues_command_and_sends_ack() {
    let client_id = ClientId::new(7);
    let server_id = ClientId::new(0);
    let station_id = StationId::new(1);
    let hub = Hub::new(ClientTransportLimits {
        max_queued_packets_per_client: 8,
        max_packet_bytes: 512,
    });
    let mut client_transport = hub
        .endpoint(client_id, memory_addr(23507))
        .expect("client endpoint should register");
    let mut server_transport = hub
        .endpoint(server_id, memory_addr(23500))
        .expect("server endpoint should register");
    let mut client_bridge = ClientTransportBridge::new(
        ClientTransportConfig::new(client_id, server_id).with_expected_source(server_id),
    );
    let command = CommandFrame {
        client_id,
        command_id: CommandId::new(42),
        entity_id: EntityId::new(100),
        sequence: 9,
        kind: 1,
        priority: CommandPriority::High,
        payload: b"move:north".to_vec(),
    };
    client_bridge
        .send_command_frame(&mut client_transport, &command)
        .expect("client command should send");

    let mut gateway = gateway(4);
    gateway
        .connect(client_id, station_id, Tick::new(10))
        .expect("client should connect");
    let mut station_queues = queues_of(station_id);
    let mut pipeline = GatewayCommandPipeline::default();
    let mut gateway_bridge = GatewayClientTransportBridge::default();

    let pump = gateway_bridge
        .pump_ingress(
            &mut server_transport,
            &mut pipeline,
            &mut gateway,
            &mut station_queues,
            Tick::new(10),
            Ingress::Running,
            4,
        )
        .expect("gateway client transport should pump");

    assert_eq!(pump.packets_received, 1);
    assert_eq!(pump.commands_processed(), 1);
    assert_eq!(pump.commands_accepted(), 1);
    assert_eq!(pump.acks_sent, 1);
    assert_eq!(gateway_bridge.stats().packets_received, 1);
    assert_eq!(gateway_bridge.stats().command_frames_received, 1);
    assert_eq!(gateway_bridge.stats().commands_accepted, 1);
    assert_eq!(gateway_bridge.stats().acks_sent, 1);
    let queued = station_queues
        .get_mut(key(station_id))
        .expect("station queue should exist")
        .pop_next()
        .expect("command should queue");
    assert_eq!(queued.id, command.command_id);

    let ack_pump = client_bridge
        .pump_owned(&mut client_transport, 4)
        .expect("client should receive ACK");
    assert_eq!(ack_pump.command_acks_received(), 1);
    assert!(ack_pump.command_acks[0].accepted);
    assert_eq!(ack_pump.command_acks[0].command_id, command.command_id);

    let compact_command = CommandFrame {
        command_id: CommandId::new(43),
        sequence: 10,
        ..command
    };
    client_bridge
        .send_command_frame(&mut client_transport, &compact_command)
        .expect("second client command should send");
    let summary = gateway_bridge
        .pump_ingress_compact(
            &mut server_transport,
            &mut pipeline,
            &mut gateway,
            &mut station_queues,
            Tick::new(11),
            Ingress::Running,
            4,
        )
        .expect("compact gateway transport should pump");
    assert_eq!(summary.packets_received, 1);
    assert_eq!(summary.commands_accepted, 1);
    assert_eq!(summary.commands_rejected, 0);
    assert_eq!(summary.acks_sent, 1);
    assert!(summary.ack_bytes_sent > 0);
    let compact_queued = station_queues
        .get_mut(key(station_id))
        .expect("station queue should exist")
        .pop_next()
        .expect("compact command should queue");
    assert_eq!(compact_queued.id, compact_command.command_id);
    let compact_ack = client_bridge
        .pump_owned(&mut client_transport, 4)
        .expect("client should receive compact ACK");
    assert_eq!(compact_ack.command_acks_received(), 1);
    assert_eq!(
        compact_ack.command_acks[0].command_id,
        compact_command.command_id
    );
    assert_eq!(gateway_bridge.stats().packets_received, 2);
    assert_eq!(gateway_bridge.stats().commands_accepted, 2);
    assert_eq!(gateway_bridge.stats().acks_sent, 2);
}

#[test]
fn gateway_client_transport_bridge_rejects_source_mismatch_before_admission() {
    let packet_client_id = ClientId::new(7);
    let frame_client_id = ClientId::new(8);
    let server_id = ClientId::new(0);
    let station_id = StationId::new(1);
    let hub = Hub::new(ClientTransportLimits {
        max_queued_packets_per_client: 4,
        max_packet_bytes: 512,
    });
    let mut packet_client_transport = hub
        .endpoint(
            packet_client_id,
            memory_addr(23607),
        )
        .expect("client endpoint should register");
    let mut server_transport = hub
        .endpoint(server_id, memory_addr(23600))
        .expect("server endpoint should register");
    let command = CommandFrame {
        client_id: frame_client_id,
        command_id: CommandId::new(42),
        entity_id: EntityId::new(100),
        sequence: 9,
        kind: 1,
        priority: CommandPriority::High,
        payload: b"move:north".to_vec(),
    };
    let mut bytes = Vec::new();
    BinaryFrameEncoder
        .encode_command(&command, &mut bytes)
        .expect("command should encode");
    packet_client_transport
        .send(OutboundPacket {
            client_id: server_id,
            bytes,
        })
        .expect("packet should send");

    let mut gateway = gateway(4);
    gateway
        .connect(frame_client_id, station_id, Tick::new(10))
        .expect("frame client should connect");
    let mut station_queues = queues_of(station_id);
    let mut pipeline = GatewayCommandPipeline::default();
    let mut gateway_bridge = GatewayClientTransportBridge::default();

    let error = gateway_bridge
        .pump_ingress(
            &mut server_transport,
            &mut pipeline,
            &mut gateway,
            &mut station_queues,
            Tick::new(10),
            Ingress::Running,
            4,
        )
        .expect_err("source mismatch should reject before admission");

    assert!(matches!(
        error,
        GatewayClientTransportError::SourceMismatch {
            packet_client_id: actual_packet,
            frame_client_id: actual_frame,
        } if actual_packet == packet_client_id && actual_frame == frame_client_id
    ));
    assert_eq!(gateway_bridge.stats().source_mismatches, 1);
    assert_eq!(gateway_bridge.stats().commands_accepted, 0);
    assert_eq!(pipeline.stats().commands_admitted, 0);
    assert_eq!(
        station_queues
            .get(key(station_id))
            .expect("station queue should exist")
            .total_len(),
        0
    );
}

#[test]
fn gateway_command_pipeline_queues_command_and_encodes_ack() {
    let client_id = ClientId::new(7);
    let station_id = StationId::new(1);
    let mut gateway = gateway(4);
    gateway
        .connect(client_id, station_id, Tick::new(10))
        .expect("client should connect");
    let mut station_queues = queues_of(station_id);
    let mut pipeline = GatewayCommandPipeline::default();

    let report = pipeline.process(
        &mut gateway,
        &mut station_queues,
        &encode_command_frame(1),
        Tick::new(10),
        Ingress::Running,
    );

    assert!(report.accepted);
    assert_eq!(report.reason_code, GATEWAY_COMMAND_ACK_ACCEPTED);
    assert_eq!(report.station_id, Some(station_id));
    assert!(report.error.is_none());
    let ack_bytes = report.ack_bytes.expect("ACK should encode");
    let RuntimeFrame::CommandAck(ack) = BinaryFrameDecoder
        .decode(&ack_bytes)
        .expect("ACK should decode")
    else {
        panic!("expected command ACK");
    };
    assert!(ack.accepted);
    assert_eq!(ack.command_id, CommandId::new(1));
    let queued = station_queues
        .get_mut(key(station_id))
        .expect("queue should exist")
        .pop_next()
        .expect("command should queue");
    assert_eq!(queued.id, CommandId::new(1));
    assert_eq!(pipeline.stats().commands_admitted, 1);
    assert_eq!(pipeline.stats().commands_enqueued, 1);
    assert_eq!(pipeline.stats().acks_encoded, 1);
}

#[test]
fn gateway_command_pipeline_negative_acks_rate_limit() {
    let client_id = ClientId::new(7);
    let station_id = StationId::new(1);
    let mut gateway = gateway(1);
    gateway
        .connect(client_id, station_id, Tick::new(10))
        .expect("client should connect");
    let mut station_queues = queues_of(station_id);
    let mut pipeline = GatewayCommandPipeline::default();

    assert!(
        pipeline
            .process(
                &mut gateway,
                &mut station_queues,
                &encode_command_frame(1),
                Tick::new(10),
                Ingress::Running,
            )
            .accepted
    );
    let rejected = pipeline.process(
        &mut gateway,
        &mut station_queues,
        &encode_command_frame(2),
        Tick::new(10),
        Ingress::Running,
    );

    assert!(!rejected.accepted);
    assert_eq!(rejected.reason_code, GATEWAY_COMMAND_ACK_RATE_LIMITED);
    assert!(matches!(
        rejected.error,
        Some(GatewayCommandPipelineError::Gateway(
            GatewayError::RateLimited { .. }
        ))
    ));
    let RuntimeFrame::CommandAck(ack) = BinaryFrameDecoder
        .decode(&rejected.ack_bytes.expect("rejection ACK should encode"))
        .expect("ACK should decode")
    else {
        panic!("expected command ACK");
    };
    assert!(!ack.accepted);
    assert_eq!(ack.reason_code, GATEWAY_COMMAND_ACK_RATE_LIMITED);
    assert_eq!(pipeline.stats().commands_rejected_gateway, 1);
}

#[test]
fn gateway_command_pipeline_rejects_missing_station_queue() {
    let client_id = ClientId::new(7);
    let station_id = StationId::new(1);
    let mut gateway = gateway(4);
    gateway
        .connect(client_id, station_id, Tick::new(10))
        .expect("client should connect");
    let mut station_queues: OrderedMap<Commands> = OrderedMap::new();
    let mut pipeline = GatewayCommandPipeline::default();

    let report = pipeline.process(
        &mut gateway,
        &mut station_queues,
        &encode_command_frame(1),
        Tick::new(10),
        Ingress::Running,
    );

    assert!(!report.accepted);
    assert_eq!(report.station_id, Some(station_id));
    assert_eq!(report.reason_code, GATEWAY_COMMAND_ACK_MISSING_QUEUE);
    assert!(matches!(
        report.error,
        Some(GatewayCommandPipelineError::MissingQueue(id)) if id == station_id
    ));
    assert_eq!(pipeline.stats().commands_admitted, 1);
    assert_eq!(pipeline.stats().commands_rejected_queue, 1);
}

#[test]
fn gateway_command_pipeline_dispatches_to_deployment_route() {
    let client_id = ClientId::new(7);
    let station_id = StationId::new(1);
    let node_id = NodeId::new(9);
    let mut gateway = gateway(4);
    gateway
        .connect(client_id, station_id, Tick::new(10))
        .expect("client should connect");
    let mut deployment = DeploymentRouteTable::new(DeploymentConfig {
        max_nodes: 4,
        max_stations_per_node: 4,
        stale_after_ticks: 10,
    });
    deployment
        .register_node(node_id, 4, Tick::new(10))
        .expect("node should register");
    deployment
        .assign_station(station_id, node_id, Tick::new(10))
        .expect("station should assign");
    let mut pipeline = GatewayCommandPipeline::default();

    let report = pipeline.dispatch(
        &mut gateway,
        &deployment,
        &encode_command_frame(1),
        Tick::new(12),
    );

    assert!(report.accepted);
    assert_eq!(report.station_id, Some(station_id));
    assert_eq!(report.node_id, Some(node_id));
    let delivery = report.delivery.expect("delivery should resolve");
    assert_eq!(delivery.client_id, client_id);
    assert_eq!(delivery.station_id, station_id);
    assert_eq!(delivery.node_id, node_id);
    assert_eq!(delivery.station_route_epoch, 1);
    assert_eq!(
        report
            .command
            .expect("command should be returned")
            .received_at,
        Tick::new(12)
    );
    let RuntimeFrame::CommandAck(ack) = BinaryFrameDecoder
        .decode(&report.ack_bytes.expect("ACK should encode"))
        .expect("ACK should decode")
    else {
        panic!("expected command ACK");
    };
    assert!(ack.accepted);
    assert_eq!(pipeline.stats().commands_routed_deployment, 1);
}

#[test]
fn gateway_command_pipeline_negative_acks_missing_deployment_route() {
    let client_id = ClientId::new(7);
    let station_id = StationId::new(1);
    let mut gateway = gateway(4);
    gateway
        .connect(client_id, station_id, Tick::new(10))
        .expect("client should connect");
    let deployment = DeploymentRouteTable::default();
    let mut pipeline = GatewayCommandPipeline::default();

    let report = pipeline.dispatch(
        &mut gateway,
        &deployment,
        &encode_command_frame(1),
        Tick::new(12),
    );

    assert!(!report.accepted);
    assert_eq!(report.station_id, Some(station_id));
    assert_eq!(report.reason_code, GATEWAY_COMMAND_ACK_DEPLOYMENT_REJECTED);
    assert!(matches!(
        report.error,
        Some(GatewayCommandPipelineError::Deployment(
            DeploymentError::MissingStation(id)
        )) if id == station_id
    ));
    let RuntimeFrame::CommandAck(ack) = BinaryFrameDecoder
        .decode(&report.ack_bytes.expect("rejection ACK should encode"))
        .expect("ACK should decode")
    else {
        panic!("expected command ACK");
    };
    assert!(!ack.accepted);
    assert_eq!(ack.reason_code, GATEWAY_COMMAND_ACK_DEPLOYMENT_REJECTED);
    assert_eq!(pipeline.stats().commands_rejected_deployment, 1);
}

#[test]
fn gateway_command_pipeline_rejects_non_command_frame() {
    let ack = CommandAckFrame {
        client_id: ClientId::new(7),
        command_id: CommandId::new(1),
        server_tick: Tick::new(10),
        accepted: true,
        reason_code: 0,
    };
    let mut bytes = Vec::new();
    BinaryFrameEncoder
        .encode_command_ack(&ack, &mut bytes)
        .expect("ACK should encode");
    let mut gateway = gateway(4);
    let mut station_queues: OrderedMap<Commands> = OrderedMap::new();
    let mut pipeline = GatewayCommandPipeline::default();

    let report = pipeline.process(
        &mut gateway,
        &mut station_queues,
        &bytes,
        Tick::new(10),
        Ingress::Running,
    );

    assert!(!report.accepted);
    assert!(report.ack_bytes.is_none());
    assert_eq!(
        report.error,
        Some(GatewayCommandPipelineError::NonCommandFrame)
    );
    assert_eq!(pipeline.stats().frames_rejected_non_command, 1);
}

#[test]
fn station_event_transport_bridge_routes_events_through_bounded_packets() {
    let mut stations = StationSet::default();
    stations.push(station(1, 10));
    stations.push(station(2, 10));

    let mut router: EventRouter<Events> = EventRouter::new(());
    router.register_stations(&stations);
    let mut transport = InMemoryStationTransport::default();
    transport.register_station(StationId::new(2));
    let mut bridge = StationEventTransportBridge::default();
    let event = StationEvent {
        id: EventId::new(7),
        source: StationId::new(1),
        target: StationId::new(2),
        source_tick: Tick::new(0),
        target_tick: Tick::new(1),
        priority: EventPriority::Important,
        kind: EventKind::Custom(99),
    };

    bridge
        .send_event(&mut transport, &event)
        .expect("event should encode and send");
    assert_eq!(transport.queued_len(StationId::new(2)), Some(1));

    let report = bridge
        .pump_target(&mut transport, &mut router, StationId::new(2), 4)
        .expect("event should pump into router");
    assert_eq!(report.packets_received, 1);
    assert_eq!(report.events_routed, 1);
    assert_eq!(router.queued_len(StationId::new(2)), Some(1));

    let mut scheduler = StationScheduler::default();
    scheduler.advance_all(&mut stations);
    let drained = scheduler
        .drain_ready_events(&stations, &mut router)
        .expect("drain should work");
    assert_eq!(drained, vec![event]);
    assert_eq!(bridge.stats().events_sent, 1);
    assert_eq!(bridge.stats().events_routed, 1);
    assert_eq!(transport.stats().packets_sent, 1);
    assert_eq!(transport.stats().packets_received, 1);
}

#[test]
fn command_dispatch_transport_bridge_enqueues_stamped_command() {
    let gateway_station = StationId::new(0);
    let target_station = StationId::new(2);
    let command = CommandEnvelope {
        id: CommandId::new(42),
        client_id: ClientId::new(7),
        entity_id: EntityId::new(100),
        sequence: 42,
        received_at: Tick::new(12),
        kind: 1,
        priority: CommandPriority::High,
        payload: b"move:north".to_vec(),
    };
    let mut transport = InMemoryStationTransport::default();
    transport.register_station(target_station);
    let mut queues = queues_of(target_station);
    let mut bridge = CommandDispatchTransportBridge::default();

    bridge
        .send_envelope(&mut transport, gateway_station, target_station, &command)
        .expect("command dispatch should send");
    assert_eq!(transport.queued_len(target_station), Some(1));
    let report = bridge
        .pump_target(
            &mut transport,
            &mut queues,
            target_station,
            4,
            Ingress::Running,
        )
        .expect("command dispatch should pump");

    assert_eq!(report.packets_received, 1);
    assert_eq!(report.commands_enqueued, 1);
    let queued_command = queues
        .get_mut(key(target_station))
        .expect("queue should exist")
        .pop_next()
        .expect("command should queue");
    assert_eq!(queued_command, command);
    assert_eq!(bridge.stats().commands_sent, 1);
    assert_eq!(bridge.stats().commands_enqueued, 1);
    assert_eq!(transport.stats().packets_sent, 1);
    assert_eq!(transport.stats().packets_received, 1);
}

#[test]
fn command_dispatch_transport_bridge_rejects_endpoint_mismatch() {
    let packet_target = StationId::new(2);
    let frame_target = StationId::new(3);
    let mut transport = InMemoryStationTransport::default();
    transport.register_station(packet_target);
    let frame = CommandDispatchFrame {
        station_id: frame_target,
        client_id: ClientId::new(7),
        command_id: CommandId::new(42),
        entity_id: EntityId::new(100),
        sequence: 42,
        received_at: Tick::new(12),
        kind: 1,
        priority: CommandPriority::High,
        payload: Vec::new(),
    };
    let mut bytes = Vec::new();
    BinaryFrameEncoder
        .encode_command_dispatch(&frame, &mut bytes)
        .expect("frame should encode");
    transport
        .send_station(StationOutboundPacket {
            source_station: StationId::new(0),
            target_station: packet_target,
            bytes,
        })
        .expect("bad packet should enter transport");
    let mut queues = queues_of(packet_target);
    let mut bridge = CommandDispatchTransportBridge::default();

    let error = bridge
        .pump_target(
            &mut transport,
            &mut queues,
            packet_target,
            4,
            Ingress::Running,
        )
        .expect_err("endpoint mismatch should reject");

    assert!(matches!(
        error,
        CommandDispatchTransportError::EndpointMismatch {
            packet_source,
            packet_target: observed_packet_target,
            dispatch_target,
        } if packet_source == StationId::new(0)
            && observed_packet_target == packet_target
            && dispatch_target == frame_target
    ));
    assert!(
        queues
            .get_mut(key(packet_target))
            .expect("queue should exist")
            .pop_next()
            .is_none()
    );
}

#[test]
fn gateway_rejections_have_their_reason_codes() {
    let client_id = ClientId::new(7);
    let station_id = StationId::new(1);
    let mut pipeline = GatewayCommandPipeline::default();
    let mut sessions = gateway(8);
    let mut queues = queues_of(station_id);

    let unknown = pipeline.process(
        &mut sessions,
        &mut queues,
        &encode_command_frame(1),
        Tick::new(10),
        Ingress::Running,
    );
    assert_eq!(unknown.reason_code, GATEWAY_COMMAND_ACK_GATEWAY_REJECTED);
    assert_eq!(unknown.station_id, None);

    sessions
        .connect(client_id, station_id, Tick::new(10))
        .expect("client should connect");
    let frozen = pipeline.process(
        &mut sessions,
        &mut queues,
        &encode_command_frame(1),
        Tick::new(10),
        Ingress::Frozen,
    );
    assert_eq!(frozen.reason_code, GATEWAY_COMMAND_ACK_BARRIER_REJECTED);
    assert_eq!(
        frozen.error,
        Some(GatewayCommandPipelineError::Queue(
            CommandQueueError::RejectedByBarrier(CommandPriority::High)
        ))
    );

    let stale = pipeline.process(
        &mut sessions,
        &mut queues,
        &encode_command_frame(1),
        Tick::new(10),
        Ingress::Running,
    );
    assert_eq!(stale.reason_code, GATEWAY_COMMAND_ACK_REPLAY_OR_STALE);

    for sequence in 2..=5 {
        assert!(
            pipeline
                .process(
                    &mut sessions,
                    &mut queues,
                    &encode_command_frame(sequence),
                    Tick::new(10),
                    Ingress::Running,
                )
                .accepted
        );
    }
    let full = pipeline.process(
        &mut sessions,
        &mut queues,
        &encode_command_frame(6),
        Tick::new(10),
        Ingress::Running,
    );
    assert_eq!(full.reason_code, GATEWAY_COMMAND_ACK_QUEUE_FULL);
    assert_eq!(pipeline.stats().commands_enqueued, 4);
    assert_eq!(pipeline.stats().commands_rejected_queue, 2);
    assert_eq!(pipeline.stats().commands_rejected_gateway, 2);
    assert_eq!(pipeline.stats().acks_encoded, 8);
}

#[test]
fn silent_pipelines_do_not_acknowledge_rejections() {
    let mut pipeline = GatewayCommandPipeline::new(GatewayCommandPipelineConfig {
        ack_rejections: false,
    });
    let mut sessions = gateway(8);
    let mut queues: OrderedMap<Commands> = OrderedMap::new();
    let report = pipeline.process(
        &mut sessions,
        &mut queues,
        &encode_command_frame(1),
        Tick::new(10),
        Ingress::Running,
    );
    assert!(!report.accepted);
    assert!(report.ack_bytes.is_none());
    assert_eq!(pipeline.stats().acks_encoded, 0);
}

#[test]
fn undecodable_commands_are_reported() {
    let mut pipeline = GatewayCommandPipeline::default();
    let mut sessions = gateway(8);
    let deployment = DeploymentRouteTable::default();
    let report = pipeline.dispatch(&mut sessions, &deployment, &[3, 1], Tick::new(1));
    assert!(matches!(
        report.error,
        Some(GatewayCommandPipelineError::Decode(_))
    ));
    assert_eq!(report.client_id, None);
    assert!(!report.accepted);
    assert_eq!(report.reason_code, GATEWAY_COMMAND_ACK_GATEWAY_REJECTED);
    assert_eq!(pipeline.stats().frames_rejected_decode, 1);

    assert_eq!(
        pipeline.decode_command_frame(&[]),
        Err(GatewayCommandPipelineError::Decode(
            BinaryDecodeError::Empty
        ))
    );
    assert_eq!(pipeline.stats().frames_rejected_decode, 2);
    assert_eq!(pipeline.stats().command_frames_decoded, 0);
}

#[test]
fn event_packets_must_match_their_event() {
    let mut router: EventRouter<Events> = EventRouter::new(());
    router.register_station(StationId::new(2));
    let mut transport = InMemoryStationTransport::default();
    transport.register_station(StationId::new(2));
    let mut bridge = StationEventTransportBridge::default();

    transport
        .send_station(StationOutboundPacket {
            source_station: StationId::new(1),
            target_station: StationId::new(2),
            bytes: encode_command_frame(1),
        })
        .expect("packet should send");
    assert_eq!(
        bridge.pump_target(&mut transport, &mut router, StationId::new(2), 4),
        Err(StationEventTransportError::UnexpectedFrame)
    );

    let event = StationEvent {
        id: EventId::new(7),
        source: StationId::new(1),
        target: StationId::new(3),
        source_tick: Tick::new(0),
        target_tick: Tick::new(1),
        priority: EventPriority::Important,
        kind: EventKind::Custom(99),
    };
    let mut bytes = Vec::new();
    BinaryFrameEncoder
        .encode_station_event(
            &sectorsync::frames::StationEventFrame::from_event(&event),
            &mut bytes,
        )
        .expect("event should encode");
    transport
        .send_station(StationOutboundPacket {
            source_station: StationId::new(1),
            target_station: StationId::new(2),
            bytes,
        })
        .expect("packet should send");
    assert_eq!(
        bridge.pump_target(&mut transport, &mut router, StationId::new(2), 4),
        Err(StationEventTransportError::EndpointMismatch {
            packet_source: StationId::new(1),
            packet_target: StationId::new(2),
            event_source: StationId::new(1),
            event_target: StationId::new(3),
        })
    );

    router.unregister_station(StationId::new(2));
    bridge
        .send_event(
            &mut transport,
            &StationEvent {
                target: StationId::new(2),
                ..event
            },
        )
        .expect("event should send");
    assert_eq!(
        bridge.pump_target(&mut transport, &mut router, StationId::new(2), 4),
        Err(StationEventTransportError::Router(
            EventRouterError::MissingTarget(StationId::new(2))
        ))
    );
    assert_eq!(bridge.stats().packets_received, 3);
    assert_eq!(bridge.stats().events_routed, 0);
}

#[test]
fn dispatched_commands_that_cannot_be_queued_are_reported() {
    let target = StationId::new(2);
    let command = CommandEnvelope {
        id: CommandId::new(42),
        client_id: ClientId::new(7),
        entity_id: EntityId::new(100),
        sequence: 42,
        received_at: Tick::new(12),
        kind: 1,
        priority: CommandPriority::High,
        payload: Vec::new(),
    };
    let mut transport = InMemoryStationTransport::default();
    transport.register_station(target);
    let mut bridge = CommandDispatchTransportBridge::default();
    let mut queues: OrderedMap<Commands> = OrderedMap::new();
    bridge
        .send_frame(
            &mut transport,
            StationId::new(0),
            &CommandDispatchFrame::from_envelope(target, &command),
        )
        .expect("command should send");
    assert_eq!(
        bridge.pump_target(&mut transport, &mut queues, target, 4, Ingress::Running),
        Err(CommandDispatchTransportError::MissingQueue(target))
    );

    queues.insert(key(target), command_queues());
    bridge
        .send_envelope(&mut transport, StationId::new(0), target, &command)
        .expect("command should send");
    assert_eq!(
        bridge.pump_target(&mut transport, &mut queues, target, 4, Ingress::Frozen),
        Err(CommandDispatchTransportError::Queue(
            CommandQueueError::RejectedByBarrier(CommandPriority::High)
        ))
    );
    assert_eq!(bridge.stats().commands_rejected_queue, 1);
    assert_eq!(bridge.stats().commands_sent, 2);
    assert_eq!(bridge.stats().commands_enqueued, 0);
}

#[test]
fn planned_replication_reaches_its_client() {
    let client_id = ClientId::new(7);
    let server_id = ClientId::new(0);
    let hub = Hub::new(ClientTransportLimits {
        max_queued_packets_per_client: 4,
        max_packet_bytes: 512,
    });
    let mut client_transport = hub
        .endpoint(client_id, memory_addr(1))
        .expect("client endpoint should register");
    let mut server_transport = hub
        .endpoint(server_id, memory_addr(2))
        .expect("server endpoint should register");

    let handle = EntityHandle::new(0, 0);
    let mut station = station(1, 10);
    station.put(EntityRecord {
        handle,
        id: EntityId::new(100),
        role: EntityRole::Authority {
            epoch: OwnerEpoch::new(1),
        },
        cells: vec![CellCoord3::new(0, 0, 0)],
    });
    let components = ComponentStore {
        blobs: vec![ComponentBlob {
            component_id: ComponentId::new(1),
            handle,
            version: 4,
            dirty: true,
            bytes: vec![1, 2, 3],
        }],
    };
    let plan = ReplicationPlan {
        entities: vec![handle],
        stats: ReplicationPlanStats {
            selected: 1,
            estimated_bytes: 3,
            ..ReplicationPlanStats::default()
        },
    };
    let selection = ComponentSelection {
        component_ids: vec![ComponentId::new(1)],
    };
    let mut bridge = ReplicationTransportBridge::new(
        ReplicationTransportConfig {
            budget: ReplicationBudget { max_bytes: 256 },
            send_empty_frames: false,
        },
        ReplicationFrameBuilder::default(),
    );
    let report = bridge
        .send_plan(
            &mut server_transport,
            client_id,
            Tick::new(9),
            &station,
            &components,
            &selection,
            &plan,
        )
        .expect("plan should send");
    assert!(report.sent);
    assert_eq!(report.encoded_entities, 1);
    assert_eq!(report.bytes_sent, 29 + 18 + 15 + 3);
    assert_eq!(bridge.stats().frames_sent, 1);

    let mut receive = ReplicationReceiveBridge::new(
        ReplicationReceiveConfig::new(client_id).with_expected_source(server_id),
    );
    let pump = receive
        .pump_owned(&mut client_transport, 4)
        .expect("frame should arrive");
    assert_eq!(pump.frames.len(), 1);
    assert_eq!(pump.frames[0].server_tick, Tick::new(9));
    assert_eq!(pump.frames[0].entities[0].components[0].bytes, vec![1, 2, 3]);

    let nothing = ReplicationPlan::default();
    let skipped = bridge
        .send_plan(
            &mut server_transport,
            client_id,
            Tick::new(10),
            &station,
            &components,
            &selection,
            &nothing,
        )
        .expect("empty plan is no error");
    assert!(!skipped.sent);
    assert_eq!(bridge.stats().frames_skipped_empty, 1);
}

#[test]
fn received_packets_are_counted_by_their_verdict() {
    let client_id = ClientId::new(7);
    let server_id = ClientId::new(0);
    let hub = Hub::new(ClientTransportLimits {
        max_queued_packets_per_client: 8,
        max_packet_bytes: 512,
    });
    let mut client_transport = hub
        .endpoint(client_id, memory_addr(1))
        .expect("client endpoint should register");
    let mut server_transport = hub
        .endpoint(server_id, memory_addr(2))
        .expect("server endpoint should register");
    let mut receive = ReplicationReceiveBridge::new(
        ReplicationReceiveConfig::new(client_id).with_expected_source(ClientId::new(5)),
    );
    server_transport
        .send(OutboundPacket {
            client_id,
            bytes: vec![0],
        })
        .expect("packet should send");
    assert_eq!(
        receive.pump_owned(&mut client_transport, 4),
        Err(ReplicationReceiveError::SourceMismatch {
            expected: ClientId::new(5),
            actual: Some(server_id)
        })
    );

    let mut receive = ReplicationReceiveBridge::new(ReplicationReceiveConfig::new(client_id));
    server_transport
        .send(OutboundPacket {
            client_id,
            bytes: vec![0],
        })
        .expect("packet should send");
    assert!(matches!(
        receive.pump_owned(&mut client_transport, 4),
        Err(ReplicationReceiveError::Decode(_))
    ));
    server_transport
        .send(OutboundPacket {
            client_id,
            bytes: encode_command_frame(1),
        })
        .expect("packet should send");
    assert_eq!(
        receive.pump_owned(&mut client_transport, 4),
        Err(ReplicationReceiveError::UnexpectedFrame)
    );
    let stats = receive.stats();
    assert_eq!(stats.packets_received, 2);
    assert_eq!(stats.frames_rejected_decode, 1);
    assert_eq!(stats.frames_rejected_unexpected, 1);
}

#[test]
fn a_failed_pass_counts_what_it_received() {
    let target = StationId::new(2);
    let mut router: EventRouter<Events> = EventRouter::new(());
    router.register_station(target);
    let mut transport = InMemoryStationTransport::default();
    transport.register_station(target);
    let mut bridge = StationEventTransportBridge::default();
    let event = StationEvent {
        id: EventId::new(7),
        source: StationId::new(1),
        target,
        source_tick: Tick::new(0),
        target_tick: Tick::new(1),
        priority: EventPriority::Important,
        kind: EventKind::Custom(99),
    };
    bridge
        .send_event(&mut transport, &event)
        .expect("event should send");
    transport
        .send_station(StationOutboundPacket {
            source_station: StationId::new(1),
            target_station: target,
            bytes: vec![255],
        })
        .expect("packet should send");

    assert_eq!(
        bridge.pump_target(&mut transport, &mut router, target, 4),
        Err(StationEventTransportError::Decode(
            BinaryDecodeError::UnknownFrameKind(255)
        ))
    );
    assert_eq!(router.queued_len(target), Some(1));
    assert_eq!(bridge.stats().packets_received, 2);
    assert_eq!(bridge.stats().events_routed, 1);
    assert_eq!(
        bridge.stats().bytes_received,
        bridge.stats().bytes_sent + 1
    );
}

#[test]
fn a_failed_dispatch_pass_counts_what_it_received() {
    let target = StationId::new(2);
    let mut transport = InMemoryStationTransport::default();
    transport.register_station(target);
    let mut bridge = CommandDispatchTransportBridge::default();
    let mut queues = queues_of(target);
    for bytes in [vec![255], Vec::new()] {
        transport
            .send_station(StationOutboundPacket {
                source_station: StationId::new(1),
                target_station: target,
                bytes,
            })
            .expect("packet should send");
    }
    for (received, error) in [
        (1, BinaryDecodeError::UnknownFrameKind(255)),
        (2, BinaryDecodeError::Empty),
    ] {
        assert_eq!(
            bridge.pump_target(
                &mut transport,
                &mut queues,
                target,
                4,
                Ingress::Running,
            ),
            Err(CommandDispatchTransportError::Decode(error))
        );
        assert_eq!(bridge.stats().packets_received, received);
    }
    assert_eq!(bridge.stats().commands_enqueued, 0);
    assert_eq!(bridge.stats().commands_rejected_queue, 0);
}

#[test]
fn a_failing_visitor_leaves_the_ack_counted() {
    let hub = Hub::new(ClientTransportLimits::default());
    let mut server = hub
        .endpoint(ClientId::new(0), memory_addr(1))
        .expect("server should register");
    let mut client = hub
        .endpoint(ClientId::new(7), memory_addr(2))
        .expect("client should register");
    let mut bytes = Vec::new();
    BinaryFrameEncoder
        .encode_command_ack(
            &CommandAckFrame {
                client_id: ClientId::new(7),
                command_id: CommandId::new(42),
                server_tick: Tick::new(12),
                accepted: true,
                reason_code: 0,
            },
            &mut bytes,
        )
        .expect("ack should encode");
    server
        .send(OutboundPacket {
            client_id: ClientId::new(7),
            bytes,
        })
        .expect("ack should send");
    let mut bridge = ClientTransportBridge::new(ClientTransportConfig::new(
        ClientId::new(7),
        ClientId::new(0),
    ));

    let result = bridge.pump(&mut client, 1, |_| Err("apply failed"));

    assert!(matches!(
        result,
        Err(ClientTransportVisitError::Visitor("apply failed"))
    ));
    let stats = bridge.stats();
    assert_eq!(stats.packets_received, 1);
    assert_eq!(stats.bytes_received, 28);
    assert_eq!(stats.command_acks_received, 1);
    assert_eq!(stats.frames_rejected_decode, 0);
    assert_eq!(stats.frames_rejected_unexpected, 0);
    assert_eq!(stats.frames_rejected_source, 0);
    assert_eq!(stats.frames_rejected_target, 0);
}

#[test]
fn visitors_get_no_frame_for_another_client() {
    let hub = Hub::new(ClientTransportLimits::default());
    let mut server = hub
        .endpoint(ClientId::new(0), memory_addr(1))
        .expect("server should register");
    let mut client = hub
        .endpoint(ClientId::new(7), memory_addr(2))
        .expect("client should register");
    let mut bytes = Vec::new();
    BinaryFrameEncoder
        .encode_replication(
            &ReplicationFrame {
                client_id: ClientId::new(8),
                server_tick: Tick::new(12),
                entity_count: 0,
                estimated_payload_bytes: 0,
                entities: Vec::new(),
            },
            &mut bytes,
        )
        .expect("replication should encode");
    for _ in 0..2 {
        server
            .send(OutboundPacket {
                client_id: ClientId::new(7),
                bytes: bytes.clone(),
            })
            .expect("replication should send");
    }
    let visits = RefCell::new(0);

    let mut receive = ReplicationReceiveBridge::new(ReplicationReceiveConfig::new(ClientId::new(7)));
    let result = receive.pump(&mut client, 1, |_| -> Result<(), ()> {
        *visits.borrow_mut() += 1;
        Ok(())
    });
    assert!(result.is_err());
    assert_eq!(receive.stats().frames_rejected_target, 1);

    let mut bridge = ClientTransportBridge::new(ClientTransportConfig::new(
        ClientId::new(7),
        ClientId::new(0),
    ));
    let result = bridge.pump(&mut client, 1, |_| -> Result<(), ()> {
        *visits.borrow_mut() += 1;
        Ok(())
    });
    assert!(result.is_err());
    assert_eq!(bridge.stats().frames_rejected_target, 1);
    assert_eq!(*visits.borrow(), 0);
}
