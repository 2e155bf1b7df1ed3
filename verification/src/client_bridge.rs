//! Client side of the packet transport: commands out, client-bound frames in.

use vstd::prelude::*;
use vstd::std_specs::convert::FromSpecImpl;

use crate::frame_ref::{count_components, ReplicationFrameRef, ReplicationFrameRefDecodeError};
use crate::frames::{
    count_delta_components, count_frame_components, count_frame_entities, frames_component_total,
    frames_entity_total, BarrierFrame, CommandAckFrame, CommandFrame, FrameDecoder, FrameEncoder,
    FrameModel, ReplicationFrame, ReplicationFrameModel, RuntimeFrame,
};
use crate::ids::{ClientId, CommandId};
use crate::num::clamp_usize;
use crate::packets::{
    asked, handed_out, lemma_received, linked, InboundPacket, OutboundPacket, TransportReceiver,
    TransportSink,
};
use crate::wire_codec::{BinaryFrameDecoder, BinaryFrameEncoder};
use crate::wire_spec::{command_bytes, decoded_frame, BinaryDecodeError, BinaryEncodeError};

verus! {

/// Low-level client transport bridge configuration.
#[derive(Clone, Copy, Debug, PartialEq, Eq, Structural)]
pub struct ClientTransportConfig {
    /// Local client id expected inside client-bound frames.
    pub client_id: ClientId,
    /// Remote server/gateway id used as the transport packet target for commands.
    pub server_id: ClientId,
    /// Expected remote sender identity when the transport can identify it.
    pub expected_source: Option<ClientId>,
}

impl ClientTransportConfig {
    /// Creates client transport configuration for a server/gateway target.
    pub fn new(client_id: ClientId, server_id: ClientId) -> (config: Self)
        ensures
            config == (ClientTransportConfig { client_id, server_id, expected_source: None }),
    {
        Self { client_id, server_id, expected_source: None }
    }

    /// Returns a copy that expects inbound packets from `source`.
    #[must_use]
    pub fn with_expected_source(self, source: ClientId) -> (config: Self)
        ensures
            config == (ClientTransportConfig { expected_source: Some(source), ..self }),
    {
        Self {
            client_id: self.client_id,
            server_id: self.server_id,
            expected_source: Some(source),
        }
    }
}

/// Low-level client transport bridge statistics.
#[derive(Clone, Copy, Debug, Default, PartialEq, Eq, Structural)]
pub struct ClientTransportStats {
    /// Command frames encoded and submitted to transport.
    pub commands_sent: usize,
    /// Command bytes submitted to transport.
    pub command_bytes_sent: usize,
    /// Packets consumed from transport.
    pub packets_received: usize,
    /// Bytes consumed from transport.
    pub bytes_received: usize,
    /// Command ACK frames decoded and accepted.
    pub command_acks_received: usize,
    /// Replication frames decoded and accepted.
    pub replication_frames_received: usize,
    /// Barrier frames decoded and accepted.
    pub barrier_frames_received: usize,
    /// Packets rejected by wire decoding.
    pub frames_rejected_decode: usize,
    /// Packets rejected because they were not client-bound frames.
    pub frames_rejected_unexpected: usize,
    /// Packets rejected because the transport source did not match.
    pub frames_rejected_source: usize,
    /// Packets rejected because the frame target did not match this client.
    pub frames_rejected_target: usize,
    /// Entity deltas received in replication frames.
    pub entities_received: usize,
    /// Component deltas received in replication frames.
    pub components_received: usize,
}

/// Result of sending one command frame.
#[derive(Clone, Copy, Debug, PartialEq, Eq, Structural)]
pub struct ClientCommandSendReport {
    /// Submitted command id.
    pub command_id: CommandId,
    /// Encoded command bytes submitted to transport.
    pub bytes_sent: usize,
}

impl Default for ClientCommandSendReport {
    fn default() -> (report: Self)
        ensures
            report == (ClientCommandSendReport { command_id: CommandId(0), bytes_sent: 0 }),
    {
        Self { command_id: CommandId(0), bytes_sent: 0 }
    }
}

/// Client-bound frame categories accepted by `ClientTransportBridge`.
#[derive(Clone, Copy, Debug, PartialEq, Eq, Structural)]
pub enum ClientInboundFrameKind {
    /// Command acknowledgement.
    CommandAck,
    /// Replication update.
    Replication,
    /// Runtime barrier notification.
    Barrier,
}

/// Result of pumping client-bound frames.
#[derive(Clone, Debug, Default, PartialEq, Eq)]
pub struct ClientTransportPump {
    /// Packets consumed from transport.
    pub packets_received: usize,
    /// Bytes consumed from transport.
    pub bytes_received: usize,
    /// Command acknowledgements decoded and accepted.
    pub command_acks: Vec<CommandAckFrame>,
    /// Replication frames decoded and accepted.
    pub replication_frames: Vec<ReplicationFrame>,
    /// Barrier frames decoded and accepted.
    pub barriers: Vec<BarrierFrame>,
}

impl ClientTransportPump {
    fn add_frame(&mut self, bytes: usize, frame: RuntimeFrame)
        ensures
            final(self).packets_received == old(self).packets_received.saturating_add(1),
            final(self).bytes_received == old(self).bytes_received.saturating_add(bytes),
            final(self).command_acks@ == (match frame@ {
                FrameModel::CommandAck(ack) => old(self).command_acks@.push(ack),
                _ => old(self).command_acks@,
            }),
            frame_models(final(self).replication_frames@) == (match frame@ {
                FrameModel::Replication(model) => frame_models(old(self).replication_frames@).push(
                    model,
                ),
                _ => frame_models(old(self).replication_frames@),
            }),
            final(self).barriers@ == (match frame@ {
                FrameModel::Barrier(barrier) => old(self).barriers@.push(barrier),
                _ => old(self).barriers@,
            }),
    {
        self.packets_received = self.packets_received.saturating_add(1);
        self.bytes_received = self.bytes_received.saturating_add(bytes);
        match frame {
            RuntimeFrame::CommandAck(frame) => {
                self.command_acks.push(frame);
            },
            RuntimeFrame::Replication(frame) => {
                self.replication_frames.push(frame);
                assert(frame_models(self.replication_frames@) =~= frame_models(
                    old(self).replication_frames@,
                ).push(frame@));
            },
            RuntimeFrame::Barrier(frame) => {
                self.barriers.push(frame);
            },
            _ => {},
        }
    }

    /// Returns received command ACK count.
    pub fn command_acks_received(&self) -> (count: usize)
        ensures
            count == self.command_acks@.len(),
    {
        self.command_acks.len()
    }

    /// Returns accepted replication frame count.
    pub fn replication_frames_received(&self) -> (count: usize)
        ensures
            count == self.replication_frames@.len(),
    {
        self.replication_frames.len()
    }

    /// Returns accepted barrier frame count.
    pub fn barrier_frames_received(&self) -> (count: usize)
        ensures
            count == self.barriers@.len(),
    {
        self.barriers.len()
    }

    /// Returns received entity delta count.
    pub fn entities_received(&self) -> (count: usize)
        ensures
            count == clamp_usize(frames_entity_total(self.replication_frames@)),
    {
        count_frame_entities(&self.replication_frames)
    }

    /// Returns received component delta count.
    pub fn components_received(&self) -> (count: usize)
        ensures
            count == clamp_usize(frames_component_total(self.replication_frames@)),
    {
        count_frame_components(&self.replication_frames)
    }
}

/// Models of a sequence of replication frames.
pub open spec fn frame_models(frames: Seq<ReplicationFrame>) -> Seq<ReplicationFrameModel> {
    Seq::new(frames.len(), |i: int| frames[i]@)
}

/// Client-bound frame visited without materializing replication delta storage.
#[derive(Clone, Debug)]
pub enum ClientInboundFrameRef<'a> {
    /// Decoded command acknowledgement value.
    CommandAck(CommandAckFrame),
    /// Validated replication frame borrowing entity/component payload bytes.
    Replication(ReplicationFrameRef<'a>),
    /// Decoded runtime barrier notification value.
    Barrier(BarrierFrame),
}

impl<'a> ClientInboundFrameRef<'a> {
    /// A borrowed replication frame is complete.
    pub open spec fn wf(self) -> bool {
        match self {
            ClientInboundFrameRef::Replication(frame) => frame.wf(),
            _ => true,
        }
    }

    /// The frame as a value.
    pub open spec fn model(self) -> FrameModel {
        match self {
            ClientInboundFrameRef::CommandAck(frame) => FrameModel::CommandAck(frame),
            ClientInboundFrameRef::Replication(frame) => FrameModel::Replication(frame.model()),
            ClientInboundFrameRef::Barrier(frame) => FrameModel::Barrier(frame),
        }
    }
}

/// Fixed-size result of visiting client-bound transport frames.
#[derive(Clone, Copy, Debug, Default, PartialEq, Eq, Structural)]
pub struct ClientTransportVisitReport {
    /// Packets consumed from transport.
    pub packets_received: usize,
    /// Bytes consumed from transport.
    pub bytes_received: usize,
    /// Command acknowledgements decoded and accepted.
    pub command_acks_received: usize,
    /// Replication frames decoded and accepted.
    pub replication_frames_received: usize,
    /// Barrier frames decoded and accepted.
    pub barrier_frames_received: usize,
    /// Entity deltas visited in replication frames.
    pub entities_received: usize,
    /// Component deltas visited in replication frames.
    pub components_received: usize,
}

/// The part of the statistics that a visit reports.
pub open spec fn visit_report(stats: ClientTransportStats) -> ClientTransportVisitReport {
    ClientTransportVisitReport {
        packets_received: stats.packets_received,
        bytes_received: stats.bytes_received,
        command_acks_received: stats.command_acks_received,
        replication_frames_received: stats.replication_frames_received,
        barrier_frames_received: stats.barrier_frames_received,
        entities_received: stats.entities_received,
        components_received: stats.components_received,
    }
}

impl ClientTransportVisitReport {
    fn add_frame(&mut self, bytes: usize, frame: &ClientInboundFrameRef<'_>)
        requires
            frame.wf(),
        ensures
            forall|stats: ClientTransportStats|
                *old(self) == #[trigger] visit_report(stats) ==> *final(self) == visit_report(
                    stats.with_bytes(bytes).with_verdict(Ok(frame.model())),
                ),
    {
        self.packets_received = self.packets_received.saturating_add(1);
        self.bytes_received = self.bytes_received.saturating_add(bytes);
        match frame {
            ClientInboundFrameRef::CommandAck(_) => {
                self.command_acks_received = self.command_acks_received.saturating_add(1);
            },
            ClientInboundFrameRef::Replication(frame) => {
                let entities: usize = frame.encoded_entity_count();
                let components: usize = count_components(&frame.entities());
                self.replication_frames_received =
                self.replication_frames_received.saturating_add(1);
                self.entities_received = self.entities_received.saturating_add(entities);
                self.components_received = self.components_received.saturating_add(components);
            },
            ClientInboundFrameRef::Barrier(_) => {
                self.barrier_frames_received = self.barrier_frames_received.saturating_add(1);
            },
        }
    }
}

/// Why a packet is not taken as a client-bound frame.
#[derive(Clone, Debug, PartialEq, Eq)]
pub enum ClientRejection {
    /// Wire decoding failed.
    Decode(BinaryDecodeError),
    /// Packet decoded as a frame that is not client-bound.
    UnexpectedFrame,
    /// Packet source did not match expected remote.
    SourceMismatch {
        /// Expected source.
        expected: ClientId,
        /// Actual source if transport identified one.
        actual: Option<ClientId>,
    },
    /// Client-bound frame targeted another client.
    TargetMismatch {
        /// Frame category.
        kind: ClientInboundFrameKind,
        /// Expected local client id.
        expected: ClientId,
        /// Actual frame target.
        actual: ClientId,
    },
}

/// Error produced by the low-level client transport bridge.
#[derive(Clone, Debug, PartialEq, Eq)]
pub enum ClientTransportBridgeError<E> {
    /// Outbound command used a different client id than the bridge config.
    CommandClientMismatch {
        /// Expected local client id.
        expected: ClientId,
        /// Actual command client id.
        actual: ClientId,
    },
    /// Wire encoding failed.
    Encode(BinaryEncodeError),
    /// Underlying client transport failed.
    Transport(E),
    /// Wire decoding failed.
    Decode(BinaryDecodeError),
    /// Packet decoded as a frame that is not client-bound.
    UnexpectedFrame,
    /// Packet source did not match expected remote.
    SourceMismatch {
        /// Expected source.
        expected: ClientId,
        /// Actual source if transport identified one.
        actual: Option<ClientId>,
    },
    /// Client-bound frame targeted another client.
    TargetMismatch {
        /// Frame category.
        kind: ClientInboundFrameKind,
        /// Expected local client id.
        expected: ClientId,
        /// Actual frame target.
        actual: ClientId,
    },
}

impl<E> From<BinaryEncodeError> for ClientTransportBridgeError<E> {
    fn from(error: BinaryEncodeError) -> (converted: Self) {
        Self::Encode(error)
    }
}

impl<E> FromSpecImpl<BinaryEncodeError> for ClientTransportBridgeError<E> {
    open spec fn obeys_from_spec() -> bool {
        true
    }

    open spec fn from_spec(error: BinaryEncodeError) -> Self {
        ClientTransportBridgeError::Encode(error)
    }
}

impl<E> From<BinaryDecodeError> for ClientTransportBridgeError<E> {
    fn from(error: BinaryDecodeError) -> (converted: Self) {
        Self::Decode(error)
    }
}

impl<E> FromSpecImpl<BinaryDecodeError> for ClientTransportBridgeError<E> {
    open spec fn obeys_from_spec() -> bool {
        true
    }

    open spec fn from_spec(error: BinaryDecodeError) -> Self {
        ClientTransportBridgeError::Decode(error)
    }
}

impl ClientRejection {
    /// The bridge error that reports this rejection.
    pub open spec fn error<E>(self) -> ClientTransportBridgeError<E> {
        match self {
            ClientRejection::Decode(error) => ClientTransportBridgeError::Decode(error),
            ClientRejection::UnexpectedFrame => ClientTransportBridgeError::UnexpectedFrame,
            ClientRejection::SourceMismatch {
                expected,
                actual,
            } => ClientTransportBridgeError::SourceMismatch { expected, actual },
            ClientRejection::TargetMismatch {
                kind,
                expected,
                actual,
            } => ClientTransportBridgeError::TargetMismatch { kind, expected, actual },
        }
    }

    /// Reports the rejection as a bridge error.
    pub fn into_error<E>(self) -> (error: ClientTransportBridgeError<E>)
        ensures
            error == self.error::<E>(),
    {
        match self {
            Self::Decode(error) => ClientTransportBridgeError::Decode(error),
            Self::UnexpectedFrame => ClientTransportBridgeError::UnexpectedFrame,
            Self::SourceMismatch { expected, actual } => ClientTransportBridgeError::SourceMismatch {
                expected,
                actual,
            },
            Self::TargetMismatch {
                kind,
                expected,
                actual,
            } => ClientTransportBridgeError::TargetMismatch { kind, expected, actual },
        }
    }
}

/// Error produced while visiting client-bound transport frames.
#[derive(Clone, Debug, PartialEq, Eq)]
pub enum ClientTransportVisitError<T, V> {
    /// Packet receive, validation, or frame decoding failed.
    Receive(ClientTransportBridgeError<T>),
    /// The caller-provided frame visitor failed.
    Visitor(V),
}

/// The frame is of a kind that clients get, and addressed to this one.
pub open spec fn frame_for(frame: FrameModel, client_id: ClientId) -> bool {
    match frame {
        FrameModel::CommandAck(ack) => ack.client_id == client_id,
        FrameModel::Replication(replication) => replication.client_id == client_id,
        FrameModel::Barrier(barrier) => barrier.client_id == client_id,
        _ => false,
    }
}

/// Accepts a frame that is addressed to this client.
pub open spec fn for_client(
    config: ClientTransportConfig,
    kind: ClientInboundFrameKind,
    actual: ClientId,
    frame: FrameModel,
) -> Result<FrameModel, ClientRejection> {
    if actual == config.client_id {
        Ok(frame)
    } else {
        Err(ClientRejection::TargetMismatch { kind, expected: config.client_id, actual })
    }
}

/// What a packet is taken for: source first, then its bytes, its kind, and its target.
pub open spec fn verdict(config: ClientTransportConfig, packet: InboundPacket) -> Result<
    FrameModel,
    ClientRejection,
> {
    if config.expected_source is Some && packet.client_id != config.expected_source {
        Err(
            ClientRejection::SourceMismatch {
                expected: config.expected_source->0,
                actual: packet.client_id,
            },
        )
    } else {
        match decoded_frame(packet.bytes@) {
            Err(error) => Err(ClientRejection::Decode(error)),
            Ok(frame) => match frame {
                FrameModel::CommandAck(ack) => for_client(
                    config,
                    ClientInboundFrameKind::CommandAck,
                    ack.client_id,
                    frame,
                ),
                FrameModel::Replication(replication) => for_client(
                    config,
                    ClientInboundFrameKind::Replication,
                    replication.client_id,
                    frame,
                ),
                FrameModel::Barrier(barrier) => for_client(
                    config,
                    ClientInboundFrameKind::Barrier,
                    barrier.client_id,
                    frame,
                ),
                _ => Err(ClientRejection::UnexpectedFrame),
            },
        }
    }
}

impl ClientTransportStats {
    /// All counts at zero.
    pub open spec fn zero() -> Self {
        ClientTransportStats {
            commands_sent: 0,
            command_bytes_sent: 0,
            packets_received: 0,
            bytes_received: 0,
            command_acks_received: 0,
            replication_frames_received: 0,
            barrier_frames_received: 0,
            frames_rejected_decode: 0,
            frames_rejected_unexpected: 0,
            frames_rejected_source: 0,
            frames_rejected_target: 0,
            entities_received: 0,
            components_received: 0,
        }
    }

    /// The counts once a packet of the given size was consumed.
    pub open spec fn with_bytes(self, bytes: usize) -> Self {
        ClientTransportStats {
            packets_received: self.packets_received.saturating_add(1),
            bytes_received: self.bytes_received.saturating_add(bytes),
            ..self
        }
    }

    /// The counts once a packet was judged.
    pub open spec fn with_verdict(self, verdict: Result<FrameModel, ClientRejection>) -> Self {
        match verdict {
            Ok(FrameModel::CommandAck(_)) => ClientTransportStats {
                command_acks_received: self.command_acks_received.saturating_add(1),
                ..self
            },
            Ok(FrameModel::Replication(frame)) => ClientTransportStats {
                replication_frames_received: self.replication_frames_received.saturating_add(1),
                entities_received: self.entities_received.saturating_add(
                    clamp_usize(frame.entities.len()),
                ),
                components_received: self.components_received.saturating_add(
                    clamp_usize(frame.component_total()),
                ),
                ..self
            },
            Ok(FrameModel::Barrier(_)) => ClientTransportStats {
                barrier_frames_received: self.barrier_frames_received.saturating_add(1),
                ..self
            },
            Ok(_) => self,
            Err(ClientRejection::Decode(_)) => ClientTransportStats {
                frames_rejected_decode: self.frames_rejected_decode.saturating_add(1),
                ..self
            },
            Err(ClientRejection::UnexpectedFrame) => ClientTransportStats {
                frames_rejected_unexpected: self.frames_rejected_unexpected.saturating_add(1),
                ..self
            },
            Err(ClientRejection::SourceMismatch { .. }) => ClientTransportStats {
                frames_rejected_source: self.frames_rejected_source.saturating_add(1),
                ..self
            },
            Err(ClientRejection::TargetMismatch { .. }) => ClientTransportStats {
                frames_rejected_target: self.frames_rejected_target.saturating_add(1),
                ..self
            },
        }
    }

    /// The counts once a packet was consumed and judged.
    pub open spec fn with_packet(self, config: ClientTransportConfig, packet: InboundPacket) -> Self {
        self.with_bytes(packet.bytes@.len() as usize).with_verdict(verdict(config, packet))
    }

    /// The counts once several packets were consumed and judged.
    pub open spec fn with_packets(
        self,
        config: ClientTransportConfig,
        packets: Seq<InboundPacket>,
    ) -> Self
        decreases packets.len(),
    {
        if packets.len() == 0 {
            self
        } else {
            self.with_packets(config, packets.drop_last()).with_packet(config, packets.last())
        }
    }
}

/// Command acknowledgements among accepted packets, in order.
pub open spec fn acks_in(config: ClientTransportConfig, packets: Seq<InboundPacket>) -> Seq<
    CommandAckFrame,
>
    decreases packets.len(),
{
    if packets.len() == 0 {
        Seq::empty()
    } else {
        let rest = acks_in(config, packets.drop_last());
        match verdict(config, packets.last()) {
            Ok(FrameModel::CommandAck(frame)) => rest.push(frame),
            _ => rest,
        }
    }
}

/// Replication frames among accepted packets, in order.
pub open spec fn replication_in(config: ClientTransportConfig, packets: Seq<InboundPacket>) -> Seq<
    ReplicationFrameModel,
>
    decreases packets.len(),
{
    if packets.len() == 0 {
        Seq::empty()
    } else {
        let rest = replication_in(config, packets.drop_last());
        match verdict(config, packets.last()) {
            Ok(FrameModel::Replication(frame)) => rest.push(frame),
            _ => rest,
        }
    }
}

/// Barrier frames among accepted packets, in order.
pub open spec fn barriers_in(config: ClientTransportConfig, packets: Seq<InboundPacket>) -> Seq<
    BarrierFrame,
>
    decreases packets.len(),
{
    if packets.len() == 0 {
        Seq::empty()
    } else {
        let rest = barriers_in(config, packets.drop_last());
        match verdict(config, packets.last()) {
            Ok(FrameModel::Barrier(frame)) => rest.push(frame),
            _ => rest,
        }
    }
}

/// Contents of a pump after the given packets, all of them accepted.
pub open spec fn pump_holds(
    pump: ClientTransportPump,
    config: ClientTransportConfig,
    packets: Seq<InboundPacket>,
) -> bool {
    let counts = ClientTransportStats::zero().with_packets(config, packets);
    &&& pump.packets_received == counts.packets_received
    &&& pump.bytes_received == counts.bytes_received
    &&& pump.command_acks@ == acks_in(config, packets)
    &&& frame_models(pump.replication_frames@) == replication_in(config, packets)
    &&& pump.barriers@ == barriers_in(config, packets)
}

/// The visitor took a frame with the given contents.
pub open spec fn was_visited<V, F: FnMut(ClientInboundFrameRef<'_>) -> Result<(), V>>(
    visitor: F,
    frame: FrameModel,
) -> bool {
    exists|visited: ClientInboundFrameRef<'_>, outcome: Result<(), V>|
        #![trigger call_ensures(visitor, (visited,), outcome)]
        call_ensures(visitor, (visited,), outcome) && outcome is Ok && visited.wf()
            && visited.model() == frame
}

/// The visitor refused a frame with the given contents.
pub open spec fn visit_failed<V, F: FnMut(ClientInboundFrameRef<'_>) -> Result<(), V>>(
    visitor: F,
    frame: FrameModel,
    error: V,
) -> bool {
    exists|visited: ClientInboundFrameRef<'_>, outcome: Result<(), V>|
        #![trigger call_ensures(visitor, (visited,), outcome)]
        call_ensures(visitor, (visited,), outcome) && outcome == Err::<(), V>(error) && visited.wf()
            && visited.model() == frame
}

/// Every packet up to the last one was accepted.
pub open spec fn accepted_before_last(
    config: ClientTransportConfig,
    packets: Seq<InboundPacket>,
) -> bool {
    forall|i: int| 0 <= i < packets.len() - 1 ==> verdict(config, #[trigger] packets[i]) is Ok
}

/// A packet whose kind byte is that of another kind does not denote a replication frame.
proof fn lemma_kind_decodes(input: Seq<u8>)
    requires
        input.len() > 0,
        0 < input[0] <= 5,
    ensures
        !(decoded_frame(input) matches Ok(FrameModel::Replication(_))),
{
    reveal(decoded_frame);
}

/// Low-level bridge for client command send and client-bound frame receive.
#[derive(Clone, Debug)]
pub struct ClientTransportBridge {
    /// Configuration.
    pub config: ClientTransportConfig,
    /// Accumulated statistics.
    pub stats: ClientTransportStats,
}

impl ClientTransportBridge {
    /// Creates a client transport bridge.
    pub fn new(config: ClientTransportConfig) -> (bridge: Self)
        ensures
            bridge.config == config,
            bridge.stats == ClientTransportStats::zero(),
    {
        Self {
            config,
            stats: ClientTransportStats {
                commands_sent: 0,
                command_bytes_sent: 0,
                packets_received: 0,
                bytes_received: 0,
                command_acks_received: 0,
                replication_frames_received: 0,
                barrier_frames_received: 0,
                frames_rejected_decode: 0,
                frames_rejected_unexpected: 0,
                frames_rejected_source: 0,
                frames_rejected_target: 0,
                entities_received: 0,
                components_received: 0,
            },
        }
    }

    /// Returns configuration.
    pub fn config(&self) -> (config: ClientTransportConfig)
        ensures
            config == self.config,
    {
        self.config
    }

    /// Returns accumulated statistics.
    pub fn stats(&self) -> (stats: ClientTransportStats)
        ensures
            stats == self.stats,
    {
        self.stats
    }

    /// Encodes and sends a client command frame to the configured server id.
    pub fn send_command_frame<T: TransportSink>(
        &mut self,
        transport: &mut T,
        frame: &CommandFrame,
    ) -> (result: Result<ClientCommandSendReport, ClientTransportBridgeError<T::Error>>)
        ensures
            final(self).config == old(self).config,
            ({
                let encoded = command_bytes(frame@);
                if frame.client_id != old(self).config.client_id {
                    &&& result == Err::<
                        ClientCommandSendReport,
                        ClientTransportBridgeError<T::Error>,
                    >(
                        ClientTransportBridgeError::CommandClientMismatch {
                            expected: old(self).config.client_id,
                            actual: frame.client_id,
                        },
                    )
                    &&& *final(self) == *old(self)
                    &&& *final(transport) == *old(transport)
                } else if let Some(error) = encoded.1 {
                    &&& result == Err::<
                        ClientCommandSendReport,
                        ClientTransportBridgeError<T::Error>,
                    >(ClientTransportBridgeError::Encode(error))
                    &&& *final(self) == *old(self)
                    &&& *final(transport) == *old(transport)
                } else {
                    exists|sink: &mut T, packet: OutboundPacket, outcome: Result<(), T::Error>|
                        #![trigger call_ensures(T::send, (sink, packet), outcome)]
                        {
                            &&& call_ensures(T::send, (sink, packet), outcome)
                            &&& *sink == *old(transport)
                            &&& *final(sink) == *final(transport)
                            &&& packet.client_id == old(self).config.server_id
                            &&& packet.bytes@ == encoded.0
                            &&& match outcome {
                                Err(error) => {
                                    &&& result == Err::<
                                        ClientCommandSendReport,
                                        ClientTransportBridgeError<T::Error>,
                                    >(ClientTransportBridgeError::Transport(error))
                                    &&& *final(self) == *old(self)
                                },
                                Ok(()) => {
                                    let bytes = encoded.0.len() as usize;
                                    &&& result == Ok::<
                                        ClientCommandSendReport,
                                        ClientTransportBridgeError<T::Error>,
                                    >(
                                        ClientCommandSendReport {
                                            command_id: frame.command_id,
                                            bytes_sent: bytes,
                                        },
                                    )
                                    &&& final(self).stats == (ClientTransportStats {
                                        commands_sent: old(self).stats.commands_sent.saturating_add(
                                            1,
                                        ),
                                        command_bytes_sent: old(
                                            self,
                                        ).stats.command_bytes_sent.saturating_add(bytes),
                                        ..old(self).stats
                                    })
                                },
                            }
                        }
                }
            }),
    {
        if frame.client_id.0 != self.config.client_id.0 {
            return Err(
                ClientTransportBridgeError::CommandClientMismatch {
                    expected: self.config.client_id,
                    actual: frame.client_id,
                },
            );
        }
        let mut bytes: Vec<u8> = Vec::new();
        let mut encoder = BinaryFrameEncoder;
        match encoder.encode_command(frame, &mut bytes) {
            Ok(()) => {},
            Err(error) => {
                return Err(ClientTransportBridgeError::Encode(error));
            },
        }
        assert(bytes@ =~= command_bytes(frame@).0);
        let bytes_sent: usize = bytes.len();
        match transport.send(OutboundPacket { client_id: self.config.server_id, bytes }) {
            Ok(()) => {},
            Err(error) => {
                return Err(ClientTransportBridgeError::Transport(error));
            },
        }
        self.stats.commands_sent = self.stats.commands_sent.saturating_add(1);
        self.stats.command_bytes_sent = self.stats.command_bytes_sent.saturating_add(bytes_sent);
        Ok(ClientCommandSendReport { command_id: frame.command_id, bytes_sent })
    }

    fn count_packet(&mut self, packet: &InboundPacket)
        ensures
            final(self).config == old(self).config,
            final(self).stats == old(self).stats.with_bytes(packet.bytes@.len() as usize),
    {
        self.stats.packets_received = self.stats.packets_received.saturating_add(1);
        self.stats.bytes_received = self.stats.bytes_received.saturating_add(packet.bytes.len());
    }

    fn check_source(&mut self, packet: &InboundPacket) -> (result: Result<(), ClientRejection>)
        ensures
            final(self).config == old(self).config,
            match result {
                Ok(()) => {
                    &&& old(self).config.expected_source is Some ==> packet.client_id == old(
                        self,
                    ).config.expected_source
                    &&& final(self).stats == old(self).stats
                },
                Err(rejection) => {
                    &&& old(self).config.expected_source is Some
                    &&& packet.client_id != old(self).config.expected_source
                    &&& rejection == (ClientRejection::SourceMismatch {
                        expected: old(self).config.expected_source->0,
                        actual: packet.client_id,
                    })
                    &&& final(self).stats == old(self).stats.with_verdict(Err(rejection))
                },
            },
    {
        if let Some(expected) = self.config.expected_source {
            let matches: bool = match packet.client_id {
                Some(actual) => actual.0 == expected.0,
                None => false,
            };
            if !matches {
                self.stats.frames_rejected_source =
                self.stats.frames_rejected_source.saturating_add(1);
                return Err(
                    ClientRejection::SourceMismatch { expected, actual: packet.client_id },
                );
            }
        }
        Ok(())
    }

    fn validate_client_target(
        &mut self,
        kind: ClientInboundFrameKind,
        actual: ClientId,
    ) -> (result: Result<(), ClientRejection>)
        ensures
            final(self).config == old(self).config,
            match result {
                Ok(()) => actual == old(self).config.client_id && final(self).stats == old(
                    self,
                ).stats,
                Err(rejection) => {
                    &&& actual != old(self).config.client_id
                    &&& rejection == (ClientRejection::TargetMismatch {
                        kind,
                        expected: old(self).config.client_id,
                        actual,
                    })
                    &&& final(self).stats == old(self).stats.with_verdict(Err(rejection))
                },
            },
    {
        if actual.0 == self.config.client_id.0 {
            return Ok(());
        }
        self.stats.frames_rejected_target = self.stats.frames_rejected_target.saturating_add(1);
        Err(ClientRejection::TargetMismatch { kind, expected: self.config.client_id, actual })
    }

    fn accept_ack(&mut self, frame: &CommandAckFrame) -> (result: Result<(), ClientRejection>)
        ensures
            final(self).config == old(self).config,
            ({
                let judged = for_client(
                    old(self).config,
                    ClientInboundFrameKind::CommandAck,
                    frame.client_id,
                    FrameModel::CommandAck(*frame),
                );
                &&& final(self).stats == old(self).stats.with_verdict(judged)
                &&& match judged {
                    Ok(_) => result is Ok,
                    Err(rejection) => result == Err::<(), ClientRejection>(rejection),
                }
            }),
    {
        self.validate_client_target(ClientInboundFrameKind::CommandAck, frame.client_id)?;
        self.stats.command_acks_received = self.stats.command_acks_received.saturating_add(1);
        Ok(())
    }

    fn accept_barrier(&mut self, frame: &BarrierFrame) -> (result: Result<(), ClientRejection>)
        ensures
            final(self).config == old(self).config,
            ({
                let judged = for_client(
                    old(self).config,
                    ClientInboundFrameKind::Barrier,
                    frame.client_id,
                    FrameModel::Barrier(*frame),
                );
                &&& final(self).stats == old(self).stats.with_verdict(judged)
                &&& match judged {
                    Ok(_) => result is Ok,
                    Err(rejection) => result == Err::<(), ClientRejection>(rejection),
                }
            }),
    {
        self.validate_client_target(ClientInboundFrameKind::Barrier, frame.client_id)?;
        self.stats.barrier_frames_received = self.stats.barrier_frames_received.saturating_add(1);
        Ok(())
    }

    fn count_replication(&mut self, entities: usize, components: usize)
        ensures
            final(self).config == old(self).config,
            final(self).stats == (ClientTransportStats {
                replication_frames_received: old(
                    self,
                ).stats.replication_frames_received.saturating_add(1),
                entities_received: old(self).stats.entities_received.saturating_add(entities),
                components_received: old(self).stats.components_received.saturating_add(components),
                ..old(self).stats
            }),
    {
        self.stats.replication_frames_received =
        self.stats.replication_frames_received.saturating_add(1);
        self.stats.entities_received = self.stats.entities_received.saturating_add(entities);
        self.stats.components_received = self.stats.components_received.saturating_add(components);
    }

    fn reject_decode(&mut self, error: BinaryDecodeError) -> (rejection: ClientRejection)
        ensures
            final(self).config == old(self).config,
            rejection == ClientRejection::Decode(error),
            final(self).stats == old(self).stats.with_verdict(Err(rejection)),
    {
        self.stats.frames_rejected_decode = self.stats.frames_rejected_decode.saturating_add(1);
        ClientRejection::Decode(error)
    }

    fn reject_unexpected(&mut self) -> (rejection: ClientRejection)
        ensures
            final(self).config == old(self).config,
            rejection == ClientRejection::UnexpectedFrame,
            final(self).stats == old(self).stats.with_verdict(Err(rejection)),
    {
        self.stats.frames_rejected_unexpected =
        self.stats.frames_rejected_unexpected.saturating_add(1);
        ClientRejection::UnexpectedFrame
    }

    /// Consumes one packet and decodes it into an owned frame.
    pub fn accept(&mut self, packet: &InboundPacket) -> (result: Result<
        RuntimeFrame,
        ClientRejection,
    >)
        ensures
            final(self).config == old(self).config,
            final(self).stats == old(self).stats.with_packet(old(self).config, *packet),
            match verdict(old(self).config, *packet) {
                Ok(model) => result matches Ok(frame) && frame@ == model,
                Err(rejection) => result == Err::<RuntimeFrame, ClientRejection>(rejection),
            },
    {
        self.count_packet(packet);
        self.check_source(packet)?;
        let mut decoder = BinaryFrameDecoder;
        let decoded = match decoder.decode(packet.bytes.as_slice()) {
            Ok(decoded) => decoded,
            Err(error) => {
                return Err(self.reject_decode(error));
            },
        };
        match &decoded {
            RuntimeFrame::CommandAck(frame) => {
                self.accept_ack(frame)?;
            },
            RuntimeFrame::Replication(frame) => {
                self.validate_client_target(ClientInboundFrameKind::Replication, frame.client_id)?;
                self.count_replication(
                    frame.entities.len(),
                    count_delta_components(&frame.entities),
                );
            },
            RuntimeFrame::Barrier(frame) => {
                self.accept_barrier(frame)?;
            },
            _ => {
                return Err(self.reject_unexpected());
            },
        }
        Ok(decoded)
    }

    /// Consumes one packet and borrows the frame in it.
    pub fn accept_ref<'a>(&mut self, packet: &'a InboundPacket) -> (result: Result<
        ClientInboundFrameRef<'a>,
        ClientRejection,
    >)
        ensures
            final(self).config == old(self).config,
            final(self).stats == old(self).stats.with_packet(old(self).config, *packet),
            match verdict(old(self).config, *packet) {
                Ok(model) => result matches Ok(frame) && frame.wf() && frame.model() == model,
                Err(rejection) => result == Err::<ClientInboundFrameRef<'a>, ClientRejection>(
                    rejection,
                ),
            },
    {
        self.count_packet(packet);
        self.check_source(packet)?;
        let mut decoder = BinaryFrameDecoder;
        match decoder.decode_replication(packet.bytes.as_slice()) {
            Ok(frame) => {
                self.validate_client_target(ClientInboundFrameKind::Replication, frame.client_id)?;
                let entities = frame.entities();
                self.count_replication(frame.encoded_entity_count(), count_components(&entities));
                return Ok(ClientInboundFrameRef::Replication(frame));
            },
            Err(ReplicationFrameRefDecodeError::Binary(error)) => {
                return Err(self.reject_decode(error));
            },
            Err(ReplicationFrameRefDecodeError::UnexpectedFrameKind(_)) => {},
        }
        proof {
            lemma_kind_decodes(packet.bytes@);
        }
        match decoder.decode(packet.bytes.as_slice()) {
            Ok(RuntimeFrame::CommandAck(frame)) => {
                self.accept_ack(&frame)?;
                Ok(ClientInboundFrameRef::CommandAck(frame))
            },
            Ok(RuntimeFrame::Barrier(frame)) => {
                self.accept_barrier(&frame)?;
                Ok(ClientInboundFrameRef::Barrier(frame))
            },
            Ok(_) => Err(self.reject_unexpected()),
            Err(error) => Err(self.reject_decode(error)),
        }
    }

    /// What receiving the given packets comes to.
    pub open spec fn pumped<T: TransportReceiver>(
        self,
        before: Self,
        max_packets: usize,
        packets: Seq<InboundPacket>,
        answers: Seq<Result<Option<InboundPacket>, T::Error>>,
        result: Result<ClientTransportPump, ClientTransportBridgeError<T::Error>>,
    ) -> bool {
        let config = before.config;
        let all = packets.len() > 0 ==> verdict(config, packets.last()) is Ok;
        &&& self.config == config
        &&& self.stats == before.stats.with_packets(config, packets)
        &&& packets.len() <= max_packets
        &&& accepted_before_last(config, packets)
        &&& match result {
            Ok(pump) => {
                &&& all
                &&& handed_out(
                    answers,
                    packets,
                    if packets.len() == max_packets {
                        None
                    } else {
                        Some(Ok(None))
                    },
                )
                &&& pump_holds(pump, config, packets)
            },
            Err(ClientTransportBridgeError::Transport(error)) => {
                &&& all
                &&& packets.len() < max_packets
                &&& handed_out(answers, packets, Some(Err(error)))
            },
            Err(error) => {
                &&& packets.len() > 0
                &&& handed_out(answers, packets, None)
                &&& verdict(config, packets.last()) matches Err(rejection)
                &&& error == rejection.error::<T::Error>()
            },
        }
    }

    /// Receives and decodes up to `max_packets` client-bound frames.
    ///
    /// The packets are taken in the order in which the transport hands them out. The first that is
    /// rejected, or the first failure of the transport, ends the pass with its error.
    pub fn pump_owned<T: TransportReceiver>(&mut self, transport: &mut T, max_packets: usize) -> (result:
        Result<ClientTransportPump, ClientTransportBridgeError<T::Error>>)
        ensures
            exists|
                packets: Seq<InboundPacket>,
                answers: Seq<Result<Option<InboundPacket>, T::Error>>,
                links: Seq<T>,
            |
                {
                    &&& #[trigger] final(self).pumped::<T>(
                        *old(self),
                        max_packets,
                        packets,
                        answers,
                        result,
                    )
                    &&& #[trigger] linked(links, answers, *old(transport), *final(transport))
                    &&& forall|i: int| #[trigger]
                        asked(answers, i) ==> exists|receiver: &mut T| #[trigger]
                            call_ensures(T::try_recv, (receiver,), answers[i]) && *receiver == links[i]
                                && *final(receiver) == links[i + 1]
                },
    {
        let ghost before = *self;
        let ghost config = self.config;
        let ghost mut packets: Seq<InboundPacket> = Seq::empty();
        let ghost mut answers: Seq<Result<Option<InboundPacket>, T::Error>> = Seq::empty();
        let ghost mut links: Seq<T> = seq![*transport];
        let mut pump = ClientTransportPump {
            packets_received: 0,
            bytes_received: 0,
            command_acks: Vec::new(),
            replication_frames: Vec::new(),
            barriers: Vec::new(),
        };
        assert(frame_models(pump.replication_frames@) =~= Seq::empty());
        assert(pump_holds(pump, config, packets));
        let mut taken: usize = 0;
        while taken < max_packets
            invariant
                before == *old(self),
                config == before.config,
                taken <= max_packets,
                packets.len() == taken,
                self.config == config,
                self.stats == before.stats.with_packets(config, packets),
                pump_holds(pump, config, packets),
                handed_out(answers, packets, None),
                linked(links, answers, *old(transport), *transport),
                forall|i: int| #[trigger]
                    asked(answers, i) ==> exists|receiver: &mut T| #[trigger]
                        call_ensures(T::try_recv, (receiver,), answers[i]) && *receiver == links[i]
                            && *final(receiver) == links[i + 1],
                forall|i: int| 0 <= i < taken ==> verdict(config, #[trigger] packets[i]) is Ok,
            decreases max_packets - taken,
        {
            let answer = transport.try_recv();
            proof {
                lemma_received(links, answers, *transport, answer);
                links = links.push(*transport);
                answers = answers.push(answer);
            }
            assert(linked(links, answers, *old(transport), *transport));
            let packet = match answer {
                Ok(Some(packet)) => packet,
                Ok(None) => {
                    let ended = Ok(pump);
                    assert(self.pumped::<T>(before, max_packets, packets, answers, ended));
                    return ended;
                },
                Err(error) => {
                    let ended = Err(ClientTransportBridgeError::Transport(error));
                    assert(self.pumped::<T>(before, max_packets, packets, answers, ended));
                    return ended;
                },
            };
            let ghost next = packets.push(packet);
            proof {
                assert(next.drop_last() =~= packets);
            }
            match self.accept(&packet) {
                Ok(frame) => {
                    pump.add_frame(packet.bytes.len(), frame);
                    assert(pump_holds(pump, config, next));
                },
                Err(rejection) => {
                    let ended = Err(rejection.into_error());
                    assert(self.pumped::<T>(before, max_packets, next, answers, ended));
                    return ended;
                },
            }
            taken = taken + 1;
            proof {
                packets = next;
            }
        }
        let ended = Ok(pump);
        assert(self.pumped::<T>(before, max_packets, packets, answers, ended));
        ended
    }

    /// What receiving and visiting the given packets comes to.
    pub open spec fn visited<T: TransportReceiver, V, F: FnMut(ClientInboundFrameRef<'_>) -> Result<
        (),
        V,
    >>(
        self,
        before: Self,
        max_packets: usize,
        visitor: F,
        packets: Seq<InboundPacket>,
        answers: Seq<Result<Option<InboundPacket>, T::Error>>,
        result: Result<ClientTransportVisitReport, ClientTransportVisitError<T::Error, V>>,
    ) -> bool {
        let config = before.config;
        let zero = ClientTransportStats::zero();
        let last = verdict(config, packets.last());
        let all = packets.len() > 0 ==> last is Ok && was_visited::<V, F>(visitor, last->Ok_0);
        &&& self.config == config
        &&& self.stats == before.stats.with_packets(config, packets)
        &&& packets.len() <= max_packets
        &&& accepted_before_last(config, packets)
        &&& forall|i: int|
            0 <= i < packets.len() - 1 ==> was_visited::<V, F>(
                visitor,
                verdict(config, #[trigger] packets[i])->Ok_0,
            )
        &&& match result {
            Ok(report) => {
                &&& all
                &&& handed_out(
                    answers,
                    packets,
                    if packets.len() == max_packets {
                        None
                    } else {
                        Some(Ok(None))
                    },
                )
                &&& report == visit_report(zero.with_packets(config, packets))
            },
            Err(
                ClientTransportVisitError::Receive(ClientTransportBridgeError::Transport(error)),
            ) => {
                &&& all
                &&& packets.len() < max_packets
                &&& handed_out(answers, packets, Some(Err(error)))
            },
            Err(ClientTransportVisitError::Receive(error)) => {
                &&& packets.len() > 0
                &&& handed_out(answers, packets, None)
                &&& last matches Err(rejection)
                &&& error == rejection.error::<T::Error>()
            },
            Err(ClientTransportVisitError::Visitor(error)) => {
                &&& packets.len() > 0
                &&& handed_out(answers, packets, None)
                &&& last matches Ok(frame)
                &&& visit_failed::<V, F>(visitor, frame, error)
            },
        }
    }

    /// Receives mixed client-bound frames and visits them without materializing nested replication
    /// frame storage.
    ///
    /// The visitor gets no frame but those for this client, so it need only take those.
    /// ACK and barrier values are copied into the visitor enum. Replication component bytes borrow
    /// the current transport packet and must be consumed before the visitor returns. Accepted
    /// statistics are recorded before visitor invocation and are not rolled back if the visitor
    /// fails.
    #[verifier::rlimit(50)]
    pub fn pump<T: TransportReceiver, V, F: FnMut(ClientInboundFrameRef<'_>) -> Result<(), V>>(
        &mut self,
        transport: &mut T,
        max_packets: usize,
        visitor: F,
    ) -> (result: Result<
        ClientTransportVisitReport,
        ClientTransportVisitError<T::Error, V>,
    >)
        requires
            forall|frame: ClientInboundFrameRef<'_>|
                frame.wf() && frame_for(frame.model(), old(self).config.client_id)
                    ==> #[trigger] call_requires(visitor, (frame,)),
        ensures
            exists|
                packets: Seq<InboundPacket>,
                answers: Seq<Result<Option<InboundPacket>, T::Error>>,
                links: Seq<T>,
            |
                {
                    &&& #[trigger] final(self).visited::<T, V, F>(
                        *old(self),
                        max_packets,
                        visitor,
                        packets,
                        answers,
                        result,
                    )
                    &&& #[trigger] linked(links, answers, *old(transport), *final(transport))
                    &&& forall|i: int| #[trigger]
                        asked(answers, i) ==> exists|receiver: &mut T| #[trigger]
                            call_ensures(T::try_recv, (receiver,), answers[i]) && *receiver == links[i]
                                && *final(receiver) == links[i + 1]
                },
    {
        let ghost before = *self;
        let mut visit = visitor;
        let ghost config = self.config;
        let ghost zero = ClientTransportStats::zero();
        let ghost mut packets: Seq<InboundPacket> = Seq::empty();
        let ghost mut answers: Seq<Result<Option<InboundPacket>, T::Error>> = Seq::empty();
        let ghost mut links: Seq<T> = seq![*transport];
        let mut report = ClientTransportVisitReport {
            packets_received: 0,
            bytes_received: 0,
            command_acks_received: 0,
            replication_frames_received: 0,
            barrier_frames_received: 0,
            entities_received: 0,
            components_received: 0,
        };
        let mut taken: usize = 0;
        while taken < max_packets
            invariant
                before == *old(self),
                visit == visitor,
                config == before.config,
                zero == ClientTransportStats::zero(),
                taken <= max_packets,
                packets.len() == taken,
                self.config == config,
                self.stats == before.stats.with_packets(config, packets),
                report == visit_report(zero.with_packets(config, packets)),
                handed_out(answers, packets, None),
                linked(links, answers, *old(transport), *transport),
                forall|i: int| #[trigger]
                    asked(answers, i) ==> exists|receiver: &mut T| #[trigger]
                        call_ensures(T::try_recv, (receiver,), answers[i]) && *receiver == links[i]
                            && *final(receiver) == links[i + 1],
                forall|i: int|
                    0 <= i < taken ==> verdict(config, #[trigger] packets[i]) is Ok,
                forall|i: int|
                    0 <= i < taken ==> was_visited::<V, F>(
                        visitor,
                        verdict(config, #[trigger] packets[i])->Ok_0,
                    ),
                forall|frame: ClientInboundFrameRef<'_>|
                    frame.wf() && frame_for(frame.model(), config.client_id)
                        ==> #[trigger] call_requires(visitor, (frame,)),
            decreases max_packets - taken,
        {
            let answer = transport.try_recv();
            proof {
                lemma_received(links, answers, *transport, answer);
                links = links.push(*transport);
                answers = answers.push(answer);
            }
            assert(linked(links, answers, *old(transport), *transport));
            let packet = match answer {
                Ok(Some(packet)) => packet,
                Ok(None) => {
                    let ended = Ok(report);
                    assert(self.visited::<T, V, F>(before, max_packets, visitor, packets, answers, ended));
                    return ended;
                },
                Err(error) => {
                    let ended = Err(
                        ClientTransportVisitError::Receive(
                            ClientTransportBridgeError::Transport(error),
                        ),
                    );
                    assert(self.visited::<T, V, F>(before, max_packets, visitor, packets, answers, ended));
                    return ended;
                },
            };
            let ghost next = packets.push(packet);
            proof {
                assert(next.drop_last() =~= packets);
            }
            let frame = match self.accept_ref(&packet) {
                Ok(frame) => frame,
                Err(rejection) => {
                    let ended = Err(ClientTransportVisitError::Receive(rejection.into_error()));
                    assert(self.visited::<T, V, F>(before, max_packets, visitor, next, answers, ended));
                    return ended;
                },
            };
            report.add_frame(packet.bytes.len(), &frame);
            assert(report == visit_report(zero.with_packets(config, next)));
            let ghost model = frame.model();
            match visit(frame) {
                Ok(()) => {},
                Err(error) => {
                    assert(visit_failed::<V, F>(visitor, model, error));
                    let ended = Err(ClientTransportVisitError::Visitor(error));
                    assert(self.visited::<T, V, F>(before, max_packets, visitor, next, answers, ended));
                    return ended;
                },
            }
            assert(was_visited::<V, F>(visitor, model));
            taken = taken + 1;
            proof {
                packets = next;
            }
        }
        let ended = Ok(report);
        assert(self.visited::<T, V, F>(before, max_packets, visitor, packets, answers, ended));
        ended
    }
}

/// As many packets are counted as accepted or rejected as were received.
pub open spec fn balanced(stats: ClientTransportStats) -> bool {
    stats.command_acks_received + stats.replication_frames_received
        + stats.barrier_frames_received + stats.frames_rejected_decode
        + stats.frames_rejected_unexpected + stats.frames_rejected_source
        + stats.frames_rejected_target == stats.packets_received
}

/// Packets received over several calls.
pub open spec fn call_total(calls: Seq<Seq<InboundPacket>>) -> nat
    decreases calls.len(),
{
    if calls.len() == 0 {
        0
    } else {
        call_total(calls.drop_last()) + calls.last().len()
    }
}

/// The counts of a new bridge once several calls received these packets.
pub open spec fn counted_over(config: ClientTransportConfig, calls: Seq<Seq<InboundPacket>>) -> ClientTransportStats
    decreases calls.len(),
{
    if calls.len() == 0 {
        ClientTransportStats::zero()
    } else {
        counted_over(config, calls.drop_last()).with_packets(config, calls.last())
    }
}

proof fn lemma_balance(
    stats: ClientTransportStats,
    config: ClientTransportConfig,
    packets: Seq<InboundPacket>,
)
    requires
        balanced(stats),
        stats.packets_received + packets.len() <= usize::MAX,
    ensures
        balanced(stats.with_packets(config, packets)),
        stats.with_packets(config, packets).packets_received == stats.packets_received
            + packets.len(),
    decreases packets.len(),
{
    if packets.len() > 0 {
        lemma_balance(stats, config, packets.drop_last());
        let judged = verdict(config, packets.last());
        assert(judged is Ok || judged is Err);
    }
}

/// Over any calls, however they end, every received packet is counted once: as an accepted frame, or
/// under the reason for which it was rejected.
pub proof fn law_every_packet_is_counted_once(config: ClientTransportConfig, calls: Seq<Seq<InboundPacket>>)
    requires
        call_total(calls) <= usize::MAX,
    ensures
        counted_over(config, calls).packets_received == call_total(calls),
        balanced(counted_over(config, calls)),
    decreases calls.len(),
{
    if calls.len() > 0 {
        law_every_packet_is_counted_once(config, calls.drop_last());
        lemma_balance(counted_over(config, calls.drop_last()), config, calls.last());
    }
}

} // verus!
