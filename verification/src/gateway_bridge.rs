//! Client command packets pumped through the gateway command pipeline.

use vstd::prelude::*;

use crate::frames::{CommandFrame, CommandModel, EnvelopeModel};
use crate::gateway::{
    decoded_command, fate_report, may_befall, CommandFate, CommandGateway, GatewayCommandPipeline,
    GatewayCommandPipelineConfig, GatewayCommandPipelineError, GatewayCommandPipelineReport,
    GatewayCommandPipelineStats, StationCommandQueue,
};
use crate::ids::{ClientId, Tick};
use crate::ordered_map::OrderedMap;
use crate::packets::{
    asked, copy_slice, failure_of, linked, InboundPacket, OutboundPacket, TransportReceiver,
    TransportSink,
};
use crate::wire_spec::BinaryDecodeError;

verus! {

/// Gateway-side client command transport bridge statistics.
#[derive(Clone, Copy, Debug, Default, PartialEq, Eq, Structural)]
pub struct GatewayClientTransportStats {
    /// Client packets consumed from transport.
    pub packets_received: usize,
    /// Client packet bytes consumed from transport.
    pub bytes_received: usize,
    /// Command frames decoded from client packets.
    pub command_frames_received: usize,
    /// Packets rejected because transport source and command client differed.
    pub source_mismatches: usize,
    /// Commands accepted by the gateway command pipeline.
    pub commands_accepted: usize,
    /// Commands rejected by the gateway command pipeline.
    pub commands_rejected: usize,
    /// Command ACK frames submitted to client transport.
    pub acks_sent: usize,
    /// Command ACK bytes submitted to client transport.
    pub ack_bytes_sent: usize,
}

/// Why a packet is not taken as a command.
#[derive(Clone, Debug, PartialEq, Eq)]
pub enum IngressRejection {
    /// Wire decoding failed.
    Decode(BinaryDecodeError),
    /// Packet decoded as a non-command frame.
    NonCommandFrame,
    /// Transport source client and command frame client disagreed.
    SourceMismatch {
        /// Client identified by the transport.
        packet_client_id: ClientId,
        /// Client encoded inside the command frame.
        frame_client_id: ClientId,
    },
}

/// Error produced while pumping gateway-side client command packets.
#[derive(Clone, Debug, PartialEq, Eq)]
pub enum GatewayClientTransportError<E> {
    /// Underlying client transport failed while receiving or sending acknowledgements.
    Transport(E),
    /// Wire decoding failed.
    Decode(BinaryDecodeError),
    /// Packet decoded as a non-command frame.
    NonCommandFrame,
    /// Transport source client and command frame client disagreed.
    SourceMismatch {
        /// Client identified by the transport.
        packet_client_id: ClientId,
        /// Client encoded inside the command frame.
        frame_client_id: ClientId,
    },
}

impl IngressRejection {
    /// The transport error that reports this rejection.
    pub open spec fn error<E>(self) -> GatewayClientTransportError<E> {
        match self {
            IngressRejection::Decode(error) => GatewayClientTransportError::Decode(error),
            IngressRejection::NonCommandFrame => GatewayClientTransportError::NonCommandFrame,
            IngressRejection::SourceMismatch {
                packet_client_id,
                frame_client_id,
            } => GatewayClientTransportError::SourceMismatch { packet_client_id, frame_client_id },
        }
    }

    /// Reports the rejection as a transport error.
    pub fn into_error<E>(self) -> (error: GatewayClientTransportError<E>)
        ensures
            error == self.error::<E>(),
    {
        match self {
            Self::Decode(error) => GatewayClientTransportError::Decode(error),
            Self::NonCommandFrame => GatewayClientTransportError::NonCommandFrame,
            Self::SourceMismatch {
                packet_client_id,
                frame_client_id,
            } => GatewayClientTransportError::SourceMismatch { packet_client_id, frame_client_id },
        }
    }
}

/// What a packet is taken for: its bytes first, then its source.
pub open spec fn ingress_verdict(packet: InboundPacket) -> Result<CommandModel, IngressRejection> {
    match decoded_command(packet.bytes@) {
        Err(GatewayCommandPipelineError::Decode(error)) => Err(IngressRejection::Decode(error)),
        Err(_) => Err(IngressRejection::NonCommandFrame),
        Ok(command) => if packet.client_id is Some && packet.client_id != Some(command.client_id) {
            Err(
                IngressRejection::SourceMismatch {
                    packet_client_id: packet.client_id->0,
                    frame_client_id: command.client_id,
                },
            )
        } else {
            Ok(command)
        },
    }
}

/// A command packet and what became of the command in it.
pub struct IngressStep {
    /// The packet.
    pub packet: InboundPacket,
    /// The fate of its command.
    pub fate: CommandFate,
}

impl IngressStep {
    /// The acknowledgement that answers the packet, if one does.
    pub open spec fn ack(self, config: GatewayCommandPipelineConfig, now: Tick) -> Option<Seq<u8>> {
        fate_report(config, ingress_verdict(self.packet)->Ok_0, now, self.fate).ack
    }

    /// The packet holds a command, and the command may meet this fate.
    pub open spec fn arises<G: CommandGateway, Q: StationCommandQueue>(
        self,
        now: Tick,
        ingress: Q::Ingress,
    ) -> bool {
        &&& ingress_verdict(self.packet) matches Ok(command)
        &&& may_befall::<G, Q>(EnvelopeModel { command, received_at: now }, ingress, self.fate)
    }

    /// What passes between the bridge and the transport for the packet, given how the sending of the
    /// acknowledgement, if there is one, fails.
    pub open spec fn exchanges<E>(
        self,
        config: GatewayCommandPipelineConfig,
        now: Tick,
        failure: Option<E>,
    ) -> Seq<Exchange<E>> {
        let received = Exchange::Receive(Ok(Some(self.packet)));
        match self.ack(config, now) {
            Some(bytes) => seq![
                received,
                Exchange::Send {
                    client_id: ingress_verdict(self.packet)->Ok_0.client_id,
                    bytes,
                    failure,
                },
            ],
            None => seq![received],
        }
    }
}

/// One call of the transport.
pub enum Exchange<E> {
    /// It was asked for a packet, and answered so.
    Receive(Result<Option<InboundPacket>, E>),
    /// It was handed bytes for a client, and took them or failed.
    Send {
        /// The client.
        client_id: ClientId,
        /// The bytes.
        bytes: Seq<u8>,
        /// The error, if it failed.
        failure: Option<E>,
    },
}

/// What passes between the bridge and the transport for several packets that were answered.
pub open spec fn step_exchanges<E>(
    config: GatewayCommandPipelineConfig,
    now: Tick,
    steps: Seq<IngressStep>,
) -> Seq<Exchange<E>>
    decreases steps.len(),
{
    if steps.len() == 0 {
        Seq::empty()
    } else {
        step_exchanges::<E>(config, now, steps.drop_last()) + steps.last().exchanges::<E>(
            config,
            now,
            None,
        )
    }
}

/// One more call extends the chain of the transport's states.
proof fn lemma_exchanged<E, T: TransportReceiver<Error = E> + TransportSink<Error = E>>(
    links: Seq<T>,
    exchanges: Seq<Exchange<E>>,
    link: T,
    last: Exchange<E>,
)
    requires
        links.len() == exchanges.len() + 1,
        forall|i: int| #[trigger]
            asked(exchanges, i) ==> match exchanges[i] {
                Exchange::Receive(answer) => exists|receiver: &mut T| #[trigger]
                    call_ensures(T::try_recv, (receiver,), answer) && *receiver == links[i]
                        && *final(receiver) == links[i + 1],
                Exchange::Send { client_id, bytes, failure } => exists|
                    sender: &mut T,
                    packet: OutboundPacket,
                    outcome: Result<(), E>,
                |
                    #![trigger call_ensures(T::send, (sender, packet), outcome)]
                    {
                        &&& call_ensures(T::send, (sender, packet), outcome)
                        &&& *sender == links[i]
                        &&& *final(sender) == links[i + 1]
                        &&& packet.client_id == client_id
                        &&& packet.bytes@ == bytes
                        &&& failure == failure_of(outcome)
                    },
            },
        match last {
            Exchange::Receive(answer) => exists|receiver: &mut T| #[trigger]
                call_ensures(T::try_recv, (receiver,), answer) && *receiver == links.last()
                    && *final(receiver) == link,
            Exchange::Send { client_id, bytes, failure } => exists|
                sender: &mut T,
                packet: OutboundPacket,
                outcome: Result<(), E>,
            |
                #![trigger call_ensures(T::send, (sender, packet), outcome)]
                {
                    &&& call_ensures(T::send, (sender, packet), outcome)
                    &&& *sender == links.last()
                    &&& *final(sender) == link
                    &&& packet.client_id == client_id
                    &&& packet.bytes@ == bytes
                    &&& failure == failure_of(outcome)
                },
        },
    ensures
        forall|i: int| #[trigger]
            asked(exchanges.push(last), i) ==> match exchanges.push(last)[i] {
                Exchange::Receive(answer) => exists|receiver: &mut T| #[trigger]
                    call_ensures(T::try_recv, (receiver,), answer) && *receiver == links.push(link)[i]
                        && *final(receiver) == links.push(link)[i + 1],
                Exchange::Send { client_id, bytes, failure } => exists|
                    sender: &mut T,
                    packet: OutboundPacket,
                    outcome: Result<(), E>,
                |
                    #![trigger call_ensures(T::send, (sender, packet), outcome)]
                    {
                        &&& call_ensures(T::send, (sender, packet), outcome)
                        &&& *sender == links.push(link)[i]
                        &&& *final(sender) == links.push(link)[i + 1]
                        &&& packet.client_id == client_id
                        &&& packet.bytes@ == bytes
                        &&& failure == failure_of(outcome)
                    },
            },
{
    assert forall|i: int| #[trigger] asked(exchanges.push(last), i) implies match exchanges.push(last)[i] {
        Exchange::Receive(answer) => exists|receiver: &mut T| #[trigger]
            call_ensures(T::try_recv, (receiver,), answer) && *receiver == links.push(link)[i]
                && *final(receiver) == links.push(link)[i + 1],
        Exchange::Send { client_id, bytes, failure } => exists|
            sender: &mut T,
            packet: OutboundPacket,
            outcome: Result<(), E>,
        |
            #![trigger call_ensures(T::send, (sender, packet), outcome)]
            {
                &&& call_ensures(T::send, (sender, packet), outcome)
                &&& *sender == links.push(link)[i]
                &&& *final(sender) == links.push(link)[i + 1]
                &&& packet.client_id == client_id
                &&& packet.bytes@ == bytes
                &&& failure == failure_of(outcome)
            },
    } by {
        if i < exchanges.len() {
            assert(asked(exchanges, i));
            assert(exchanges.push(last)[i] == exchanges[i]);
        } else {
            assert(exchanges.push(last)[i] == last);
        }
    }
}

/// How a pass over the waiting command packets ends.
pub enum IngressEnd<E> {
    /// The limit was reached, or no packet is left.
    Drained,
    /// The transport failed to receive.
    ReceiveFailed(E),
    /// A packet is not taken as a command.
    Rejected(InboundPacket),
    /// The transport failed to send the acknowledgement of a command.
    AckFailed(IngressStep, E),
}

impl GatewayClientTransportStats {
    /// All counts at zero.
    pub open spec fn zero() -> Self {
        GatewayClientTransportStats {
            packets_received: 0,
            bytes_received: 0,
            command_frames_received: 0,
            source_mismatches: 0,
            commands_accepted: 0,
            commands_rejected: 0,
            acks_sent: 0,
            ack_bytes_sent: 0,
        }
    }

    /// The counts once a packet was consumed and judged.
    pub open spec fn with_packet(self, packet: InboundPacket) -> Self {
        let decoded = decoded_command(packet.bytes@) is Ok;
        let mismatched = ingress_verdict(packet) matches Err(
            IngressRejection::SourceMismatch { .. },
        );
        GatewayClientTransportStats {
            packets_received: self.packets_received.saturating_add(1),
            bytes_received: self.bytes_received.saturating_add(packet.bytes@.len() as usize),
            command_frames_received: if decoded {
                self.command_frames_received.saturating_add(1)
            } else {
                self.command_frames_received
            },
            source_mismatches: if mismatched {
                self.source_mismatches.saturating_add(1)
            } else {
                self.source_mismatches
            },
            ..self
        }
    }

    /// The counts once a command met its fate.
    pub open spec fn with_fate(self, fate: CommandFate) -> Self {
        if fate is Enqueued {
            GatewayClientTransportStats {
                commands_accepted: self.commands_accepted.saturating_add(1),
                ..self
            }
        } else {
            GatewayClientTransportStats {
                commands_rejected: self.commands_rejected.saturating_add(1),
                ..self
            }
        }
    }

    /// The counts once an acknowledgement was sent, if there is one.
    pub open spec fn with_ack(self, ack: Option<Seq<u8>>) -> Self {
        match ack {
            Some(bytes) => GatewayClientTransportStats {
                acks_sent: self.acks_sent.saturating_add(1),
                ack_bytes_sent: self.ack_bytes_sent.saturating_add(bytes.len() as usize),
                ..self
            },
            None => self,
        }
    }

    /// The counts once several packets were consumed and answered.
    pub open spec fn with_steps(
        self,
        config: GatewayCommandPipelineConfig,
        now: Tick,
        steps: Seq<IngressStep>,
    ) -> Self
        decreases steps.len(),
    {
        if steps.len() == 0 {
            self
        } else {
            let step = steps.last();
            self.with_steps(config, now, steps.drop_last()).with_packet(step.packet).with_fate(
                step.fate,
            ).with_ack(step.ack(config, now))
        }
    }

    /// The counts once a pass ended.
    pub open spec fn with_end<E>(self, end: IngressEnd<E>) -> Self {
        match end {
            IngressEnd::Drained | IngressEnd::ReceiveFailed(_) => self,
            IngressEnd::Rejected(packet) => self.with_packet(packet),
            IngressEnd::AckFailed(step, _) => self.with_packet(step.packet).with_fate(step.fate),
        }
    }
}

/// Statistics of the pipeline once a command packet met its fate.
pub open spec fn pipeline_with_step(
    stats: GatewayCommandPipelineStats,
    config: GatewayCommandPipelineConfig,
    now: Tick,
    step: IngressStep,
) -> GatewayCommandPipelineStats {
    stats.with_decoded(decoded_command(step.packet.bytes@)).with_fate(step.fate).with_ack(
        step.ack(config, now) is Some,
    )
}

/// Statistics of the pipeline once several command packets met their fate.
pub open spec fn pipeline_with_steps(
    stats: GatewayCommandPipelineStats,
    config: GatewayCommandPipelineConfig,
    now: Tick,
    steps: Seq<IngressStep>,
) -> GatewayCommandPipelineStats
    decreases steps.len(),
{
    if steps.len() == 0 {
        stats
    } else {
        pipeline_with_step(
            pipeline_with_steps(stats, config, now, steps.drop_last()),
            config,
            now,
            steps.last(),
        )
    }
}

/// Statistics of the pipeline once a pass ended.
pub open spec fn pipeline_with_end<E>(
    stats: GatewayCommandPipelineStats,
    config: GatewayCommandPipelineConfig,
    now: Tick,
    end: IngressEnd<E>,
) -> GatewayCommandPipelineStats {
    match end {
        IngressEnd::Drained | IngressEnd::ReceiveFailed(_) => stats,
        IngressEnd::Rejected(packet) => stats.with_decoded(decoded_command(packet.bytes@)),
        IngressEnd::AckFailed(step, _) => pipeline_with_step(stats, config, now, step),
    }
}

/// Number of accepted reports.
pub open spec fn accepted_total(reports: Seq<GatewayCommandPipelineReport>) -> nat
    decreases reports.len(),
{
    if reports.len() == 0 {
        0
    } else if reports.last().accepted {
        accepted_total(reports.drop_last()) + 1
    } else {
        accepted_total(reports.drop_last())
    }
}

/// Result of pumping gateway-side client command packets.
#[derive(Clone, Debug, Default, PartialEq, Eq)]
pub struct GatewayClientTransportPump {
    /// Client packets consumed from transport.
    pub packets_received: usize,
    /// Client packet bytes consumed from transport.
    pub bytes_received: usize,
    /// Gateway pipeline reports produced from accepted or rejected commands.
    pub reports: Vec<GatewayCommandPipelineReport>,
    /// Command ACK frames submitted to client transport.
    pub acks_sent: usize,
    /// Command ACK bytes submitted to client transport.
    pub ack_bytes_sent: usize,
}

impl GatewayClientTransportPump {
    /// Returns processed command count.
    pub fn commands_processed(&self) -> (count: usize)
        ensures
            count == self.reports@.len(),
    {
        self.reports.len()
    }

    /// Returns accepted command count.
    pub fn commands_accepted(&self) -> (count: usize)
        ensures
            count == accepted_total(self.reports@),
            count <= self.reports@.len(),
    {
        let mut count: usize = 0;
        let mut index: usize = 0;
        assert(self.reports@.take(0) =~= Seq::empty());
        while index < self.reports.len()
            invariant
                index <= self.reports.len(),
                count == accepted_total(self.reports@.take(index as int)),
                count <= index,
            decreases self.reports.len() - index,
        {
            assert(self.reports@.take(index + 1).drop_last() =~= self.reports@.take(index as int));
            if self.reports[index].accepted {
                count = count + 1;
            }
            index = index + 1;
        }
        assert(self.reports@.take(index as int) =~= self.reports@);
        count
    }

    /// Returns rejected command count.
    pub fn commands_rejected(&self) -> (count: usize)
        ensures
            count + accepted_total(self.reports@) == self.reports@.len(),
    {
        self.reports.len() - self.commands_accepted()
    }
}

/// Compact result of pumping gateway commands without retaining per-command reports.
#[derive(Clone, Copy, Debug, Default, PartialEq, Eq, Structural)]
pub struct GatewayClientTransportSummary {
    /// Client packets consumed from transport.
    pub packets_received: usize,
    /// Client packet bytes consumed from transport.
    pub bytes_received: usize,
    /// Commands accepted by the gateway pipeline.
    pub commands_accepted: usize,
    /// Commands rejected by the gateway pipeline.
    pub commands_rejected: usize,
    /// Command ACK frames submitted to client transport.
    pub acks_sent: usize,
    /// Command ACK bytes submitted to client transport.
    pub ack_bytes_sent: usize,
}

/// The part of bridge statistics that a summary holds.
pub open spec fn summary_of(stats: GatewayClientTransportStats) -> GatewayClientTransportSummary {
    GatewayClientTransportSummary {
        packets_received: stats.packets_received,
        bytes_received: stats.bytes_received,
        commands_accepted: stats.commands_accepted,
        commands_rejected: stats.commands_rejected,
        acks_sent: stats.acks_sent,
        ack_bytes_sent: stats.ack_bytes_sent,
    }
}

/// The pump holds one report per step and the counts of the steps.
pub open spec fn pump_holds(
    pump: GatewayClientTransportPump,
    config: GatewayCommandPipelineConfig,
    now: Tick,
    steps: Seq<IngressStep>,
) -> bool {
    let stats = GatewayClientTransportStats::zero().with_steps(config, now, steps);
    &&& pump.packets_received == stats.packets_received
    &&& pump.bytes_received == stats.bytes_received
    &&& pump.acks_sent == stats.acks_sent
    &&& pump.ack_bytes_sent == stats.ack_bytes_sent
    &&& pump.reports@.len() == steps.len()
    &&& forall|i: int|
        0 <= i < steps.len() ==> (#[trigger] pump.reports@[i])@ == fate_report(
            config,
            ingress_verdict(steps[i].packet)->Ok_0,
            now,
            steps[i].fate,
        )
}

/// The completed steps of a pass that goes on.
#[verifier::opaque]
pub open spec fn reached<G: CommandGateway, Q: StationCommandQueue>(
    before: GatewayClientTransportBridge,
    bridge: GatewayClientTransportBridge,
    pipeline_before: GatewayCommandPipeline,
    pipeline: GatewayCommandPipeline,
    now: Tick,
    ingress: Q::Ingress,
    steps: Seq<IngressStep>,
) -> bool {
    let config = pipeline_before.config;
    &&& pipeline.config == config
    &&& bridge.stats == before.stats.with_steps(config, now, steps)
    &&& pipeline.stats == pipeline_with_steps(pipeline_before.stats, config, now, steps)
    &&& forall|i: int|
        0 <= i < steps.len() ==> (#[trigger] steps[i]).arises::<G, Q>(now, ingress)
}

proof fn lemma_extend<G: CommandGateway, Q: StationCommandQueue>(
    before: GatewayClientTransportBridge,
    bridge: GatewayClientTransportBridge,
    judged: GatewayClientTransportBridge,
    after: GatewayClientTransportBridge,
    pipeline_before: GatewayCommandPipeline,
    pipeline: GatewayCommandPipeline,
    pipeline_after: GatewayCommandPipeline,
    now: Tick,
    ingress: Q::Ingress,
    steps: Seq<IngressStep>,
    step: IngressStep,
    report: GatewayCommandPipelineReport,
)
    requires
        reached::<G, Q>(
            before,
            bridge,
            pipeline_before,
            pipeline,
            now,
            ingress,
            steps,
        ),
        ingress_verdict(step.packet) is Ok,
        processed_as::<G, Q>(
            bridge,
            judged,
            pipeline,
            pipeline_after,
            step.packet,
            now,
            ingress,
            report,
            step.fate,
        ),
        after.stats == judged.stats.with_ack(report@.ack),
    ensures
        reached::<G, Q>(
            before,
            after,
            pipeline_before,
            pipeline_after,
            now,
            ingress,
            steps.push(step),
        ),
        pipeline.config == pipeline_before.config,
        report@.ack == step.ack(pipeline_before.config, now),
{
    reveal(reached);
    let next = steps.push(step);
    assert(next.drop_last() =~= steps);
    assert(step.arises::<G, Q>(now, ingress));
    assert forall|i: int| 0 <= i < next.len() implies (#[trigger] next[i]).arises::<G, Q>(
        now,
        ingress,
    ) by {
        if i < steps.len() {
            assert(next[i] == steps[i]);
        }
    }
}

proof fn lemma_end<E, G: CommandGateway, Q: StationCommandQueue>(
    before: GatewayClientTransportBridge,
    bridge: GatewayClientTransportBridge,
    after: GatewayClientTransportBridge,
    pipeline_before: GatewayCommandPipeline,
    pipeline: GatewayCommandPipeline,
    pipeline_after: GatewayCommandPipeline,
    now: Tick,
    ingress: Q::Ingress,
    max_packets: usize,
    steps: Seq<IngressStep>,
    end: IngressEnd<E>,
)
    requires
        reached::<G, Q>(
            before,
            bridge,
            pipeline_before,
            pipeline,
            now,
            ingress,
            steps,
        ),
        pipeline_after.config == pipeline.config,
        after.stats == bridge.stats.with_end(end),
        pipeline_after.stats == pipeline_with_end(
            pipeline.stats,
            pipeline_before.config,
            now,
            end,
        ),
        steps.len() <= max_packets,
        ends_by::<E, G, Q>(
            pipeline_before.config,
            now,
            ingress,
            max_packets,
            steps.len(),
            end,
        ),
    ensures
        after.pumped::<E, G, Q>(
            before,
            pipeline_after,
            pipeline_before,
            now,
            ingress,
            max_packets,
            steps,
            end,
        ),
{
    reveal(reached);
}

/// How a pass that completed some steps may end.
pub open spec fn ends_by<E, G: CommandGateway, Q: StationCommandQueue>(
    config: GatewayCommandPipelineConfig,
    now: Tick,
    ingress: Q::Ingress,
    max_packets: usize,
    done: nat,
    end: IngressEnd<E>,
) -> bool {
    match end {
        IngressEnd::Drained => done <= max_packets,
        IngressEnd::ReceiveFailed(_) => done < max_packets,
        IngressEnd::Rejected(packet) => done < max_packets && ingress_verdict(packet) is Err,
        IngressEnd::AckFailed(step, _) => {
            &&& done < max_packets
            &&& step.arises::<G, Q>(now, ingress)
            &&& step.ack(config, now) is Some
        },
    }
}

/// Low-level bridge from client packet transport into the gateway command pipeline.
#[derive(Clone, Debug)]
pub struct GatewayClientTransportBridge {
    /// Accumulated statistics.
    pub stats: GatewayClientTransportStats,
}

impl Default for GatewayClientTransportBridge {
    fn default() -> (bridge: Self)
        ensures
            bridge.stats == GatewayClientTransportStats::zero(),
    {
        Self::new()
    }
}

impl GatewayClientTransportBridge {
    /// Creates a gateway client transport bridge.
    pub fn new() -> (bridge: Self)
        ensures
            bridge.stats == GatewayClientTransportStats::zero(),
    {
        Self {
            stats: GatewayClientTransportStats {
                packets_received: 0,
                bytes_received: 0,
                command_frames_received: 0,
                source_mismatches: 0,
                commands_accepted: 0,
                commands_rejected: 0,
                acks_sent: 0,
                ack_bytes_sent: 0,
            },
        }
    }

    /// Returns accumulated statistics.
    pub fn stats(&self) -> (stats: GatewayClientTransportStats)
        ensures
            stats == self.stats,
    {
        self.stats
    }

    /// What a pass over the waiting command packets comes to: the steps that were completed, then
    /// how the pass ended.
    pub open spec fn pumped<E, G: CommandGateway, Q: StationCommandQueue>(
        self,
        before: Self,
        pipeline: GatewayCommandPipeline,
        pipeline_before: GatewayCommandPipeline,
        now: Tick,
        ingress: Q::Ingress,
        max_packets: usize,
        steps: Seq<IngressStep>,
        end: IngressEnd<E>,
    ) -> bool {
        let config = pipeline_before.config;
        &&& pipeline.config == config
        &&& self.stats == before.stats.with_steps(config, now, steps).with_end(end)
        &&& pipeline.stats == pipeline_with_end(
            pipeline_with_steps(pipeline_before.stats, config, now, steps),
            config,
            now,
            end,
        )
        &&& steps.len() <= max_packets
        &&& forall|i: int|
            0 <= i < steps.len() ==> (#[trigger] steps[i]).arises::<G, Q>(now, ingress)
        &&& ends_by::<E, G, Q>(config, now, ingress, max_packets, steps.len(), end)
    }

    /// Pumps up to `max_packets` client command packets into station queues and
    /// sends produced ACKs back through the same bounded client transport.
    #[verifier::rlimit(80)]
    #[verifier::spinoff_prover]
    pub fn pump_ingress<
        E,
        T: TransportReceiver<Error = E> + TransportSink<Error = E>,
        G: CommandGateway,
        Q: StationCommandQueue,
    >(
        &mut self,
        transport: &mut T,
        pipeline: &mut GatewayCommandPipeline,
        gateway: &mut G,
        station_queues: &mut OrderedMap<Q>,
        now: Tick,
        ingress: Q::Ingress,
        max_packets: usize,
    ) -> (result: Result<GatewayClientTransportPump, GatewayClientTransportError<E>>)
        requires
            old(station_queues).wf(),
        ensures
            final(station_queues).wf(),
            exists|
                steps: Seq<IngressStep>,
                end: IngressEnd<E>,
                gateways: Seq<G>,
                tables: Seq<OrderedMap<Q>>,
                links: Seq<T>,
            |
                #![trigger
                    final(self).pumped::<E, G, Q>(
                        *old(self),
                        *final(pipeline),
                        *old(pipeline),
                        now,
                        ingress,
                        max_packets,
                        steps,
                        end,
                    ),
                    linked(gateways, end.judged(steps), *old(gateway), *final(gateway)),
                    linked(tables, end.judged(steps), *old(station_queues), *final(station_queues)),
                    linked(
                        links,
                        end.exchanges(old(pipeline).config, now, max_packets, steps),
                        *old(transport),
                        *final(transport),
                    )
                ]
                {
                    &&& final(self).pumped::<E, G, Q>(
                        *old(self),
                        *final(pipeline),
                        *old(pipeline),
                        now,
                        ingress,
                        max_packets,
                        steps,
                        end,
                    )
                    &&& linked(
                        links,
                        end.exchanges(old(pipeline).config, now, max_packets, steps),
                        *old(transport),
                        *final(transport),
                    )
                    &&& forall|i: int| #[trigger]
                        asked(end.exchanges(old(pipeline).config, now, max_packets, steps), i)
                            ==> match end.exchanges(old(pipeline).config, now, max_packets, steps)[i] {
                            Exchange::Receive(answer) => exists|receiver: &mut T| #[trigger]
                                call_ensures(T::try_recv, (receiver,), answer) && *receiver == links[i]
                                    && *final(receiver) == links[i + 1],
                            Exchange::Send { client_id, bytes, failure } => exists|
                                sender: &mut T,
                                packet: OutboundPacket,
                                outcome: Result<(), E>,
                            |
                                #![trigger call_ensures(T::send, (sender, packet), outcome)]
                                {
                                    &&& call_ensures(T::send, (sender, packet), outcome)
                                    &&& *sender == links[i]
                                    &&& *final(sender) == links[i + 1]
                                    &&& packet.client_id == client_id
                                    &&& packet.bytes@ == bytes
                                    &&& failure == failure_of(outcome)
                                },
                        }
                    &&& linked(gateways, end.judged(steps), *old(gateway), *final(gateway))
                    &&& linked(
                        tables,
                        end.judged(steps),
                        *old(station_queues),
                        *final(station_queues),
                    )
                    &&& forall|i: int|
                        0 <= i < end.judged(steps).len() ==> ingress_verdict(
                            (#[trigger] end.judged(steps)[i]).packet,
                        ) is Ok && exists|
                            worker: &mut GatewayCommandPipeline,
                            session: &mut G,
                            queues: &mut OrderedMap<Q>,
                            frame: CommandFrame,
                            report: GatewayCommandPipelineReport,
                        |
                            #![trigger call_ensures(
                                GatewayCommandPipeline::process_command_frame::<G, Q>,
                                (worker, session, queues, frame, now, ingress),
                                report,
                            )]
                            {
                                &&& call_ensures(
                                    GatewayCommandPipeline::process_command_frame::<G, Q>,
                                    (worker, session, queues, frame, now, ingress),
                                    report,
                                )
                                &&& frame@ == ingress_verdict(end.judged(steps)[i].packet)->Ok_0
                                &&& *session == gateways[i]
                                &&& *final(session) == gateways[i + 1]
                                &&& *queues == tables[i]
                                &&& *final(queues) == tables[i + 1]
                                &&& report@ == fate_report(old(pipeline).config, frame@, now, end.judged(steps)[i].fate)
                            }
                    &&& match result {
                        Ok(pump) => end is Drained && pump_holds(
                            pump,
                            old(pipeline).config,
                            now,
                            steps,
                        ),
                        Err(error) => end.error() == Some(error),
                    }
                },
    {
        let ghost before = *self;
        let ghost pipeline_before = *pipeline;
        let ghost config = pipeline.config;
        let ghost zero = GatewayClientTransportStats::zero();
        let ghost mut steps: Seq<IngressStep> = Seq::empty();
        let ghost mut gateways: Seq<G> = seq![*gateway];
        let ghost mut tables: Seq<OrderedMap<Q>> = seq![*station_queues];
        let ghost mut exchanges: Seq<Exchange<E>> = Seq::empty();
        let ghost mut links: Seq<T> = seq![*transport];
        let mut pump = GatewayClientTransportPump {
            packets_received: 0,
            bytes_received: 0,
            reports: Vec::new(),
            acks_sent: 0,
            ack_bytes_sent: 0,
        };
        let mut taken: usize = 0;
        assert(reached::<G, Q>(
            before,
            *self,
            pipeline_before,
            *pipeline,
            now,
            ingress,
            steps,
        )) by {
            reveal(reached);
        }
        while taken < max_packets
            invariant
                before == *old(self),
                pipeline_before == *old(pipeline),
                config == pipeline_before.config,
                zero == GatewayClientTransportStats::zero(),
                station_queues.wf(),
                taken <= max_packets,
                steps.len() == taken,
                pump_holds(pump, config, now, steps),
                reached::<G, Q>(
                    before,
                    *self,
                    pipeline_before,
                    *pipeline,
                    now,
                    ingress,
                    steps,
                ),
                exchanges == step_exchanges::<E>(config, now, steps),
                linked(links, exchanges, *old(transport), *transport),
                forall|i: int| #[trigger]
                    asked(exchanges, i) ==> match exchanges[i] {
                        Exchange::Receive(answer) => exists|receiver: &mut T| #[trigger]
                            call_ensures(T::try_recv, (receiver,), answer) && *receiver == links[i]
                                && *final(receiver) == links[i + 1],
                        Exchange::Send { client_id, bytes, failure } => exists|
                            sender: &mut T,
                            packet: OutboundPacket,
                            outcome: Result<(), E>,
                        |
                            #![trigger call_ensures(T::send, (sender, packet), outcome)]
                            {
                                &&& call_ensures(T::send, (sender, packet), outcome)
                                &&& *sender == links[i]
                                &&& *final(sender) == links[i + 1]
                                &&& packet.client_id == client_id
                                &&& packet.bytes@ == bytes
                                &&& failure == failure_of(outcome)
                            },
                    },
                linked(gateways, steps, *old(gateway), *gateway),
                linked(tables, steps, *old(station_queues), *station_queues),
                forall|i: int|
                    0 <= i < steps.len() ==> ingress_verdict((#[trigger] steps[i]).packet) is Ok && exists|
                        worker: &mut GatewayCommandPipeline,
                        session: &mut G,
                        queues: &mut OrderedMap<Q>,
                        frame: CommandFrame,
                        report: GatewayCommandPipelineReport,
                    |
                        #![trigger call_ensures(
                            GatewayCommandPipeline::process_command_frame::<G, Q>,
                            (worker, session, queues, frame, now, ingress),
                            report,
                        )]
                        {
                            &&& call_ensures(
                                GatewayCommandPipeline::process_command_frame::<G, Q>,
                                (worker, session, queues, frame, now, ingress),
                                report,
                            )
                            &&& frame@ == ingress_verdict(steps[i].packet)->Ok_0
                            &&& *session == gateways[i]
                            &&& *final(session) == gateways[i + 1]
                            &&& *queues == tables[i]
                            &&& *final(queues) == tables[i + 1]
                            &&& report@ == fate_report(config, frame@, now, steps[i].fate)
                        },
            decreases max_packets - taken,
        {
            let answer = transport.try_recv();
            proof {
                lemma_exchanged(links, exchanges, *transport, Exchange::Receive(answer));
                links = links.push(*transport);
                exchanges = exchanges.push(Exchange::Receive(answer));
            }
            assert(linked(links, exchanges, *old(transport), *transport));
            let packet = match answer {
                Ok(Some(packet)) => packet,
                Ok(None) => {
                    proof {
                        let end: IngressEnd<E> = IngressEnd::Drained;
                        assert(end.judged(steps) == steps);
                        assert(exchanges =~= end.exchanges(config, now, max_packets, steps));
                        lemma_end::<E, G, Q>(
                            before,
                            *self,
                            *self,
                            pipeline_before,
                            *pipeline,
                            *pipeline,
                            now,
                            ingress,
                            max_packets,
                            steps,
                            IngressEnd::Drained,
                        );
                    }
                    return Ok(pump);
                },
                Err(error) => {
                    proof {
                        let end: IngressEnd<E> = IngressEnd::ReceiveFailed(error);
                        assert(end.judged(steps) == steps);
                        assert(exchanges =~= end.exchanges(config, now, max_packets, steps));
                        lemma_end::<E, G, Q>(
                            before,
                            *self,
                            *self,
                            pipeline_before,
                            *pipeline,
                            *pipeline,
                            now,
                            ingress,
                            max_packets,
                            steps,
                            IngressEnd::ReceiveFailed(error),
                        );
                    }
                    return Err(GatewayClientTransportError::Transport(error));
                },
            };
            let ghost reached_bridge = *self;
            let ghost reached_pipeline = *pipeline;
            assert(reached_pipeline.config == config) by {
                reveal(reached);
            }
            let (ack_client_id, packet_bytes, report) = match self.process_ingress_packet(
                pipeline,
                gateway,
                station_queues,
                &packet,
                now,
                ingress,
            ) {
                Ok(processed) => processed,
                Err(rejection) => {
                    let error = rejection.into_error();
                    proof {
                        let end: IngressEnd<E> = IngressEnd::Rejected(packet);
                        assert(end.judged(steps) == steps);
                        assert(exchanges =~= end.exchanges(config, now, max_packets, steps));
                        lemma_end::<E, G, Q>(
                            before,
                            reached_bridge,
                            *self,
                            pipeline_before,
                            reached_pipeline,
                            *pipeline,
                            now,
                            ingress,
                            max_packets,
                            steps,
                            IngressEnd::Rejected(packet),
                        );
                    }
                    return Err(error);
                },
            };
            let ghost fate = choose|fate: CommandFate|
                processed_as::<G, Q>(
                    reached_bridge,
                    *self,
                    reached_pipeline,
                    *pipeline,
                    packet,
                    now,
                    ingress,
                    report,
                    fate,
                );
            let ghost step = IngressStep { packet, fate };
            let ghost next = steps.push(step);
            let ghost judged = *self;
            let ghost outcome = report;
            let ghost earlier_gateways = gateways;
            let ghost earlier_tables = tables;
            proof {
                gateways = gateways.push(*gateway);
                tables = tables.push(*station_queues);
            }
            assert forall|i: int| 0 <= i < next.len() implies ingress_verdict(
                (#[trigger] next[i]).packet,
            ) is Ok && exists|
                    worker: &mut GatewayCommandPipeline,
                    session: &mut G,
                    queues: &mut OrderedMap<Q>,
                    frame: CommandFrame,
                    report: GatewayCommandPipelineReport,
                |
                    #![trigger call_ensures(
                        GatewayCommandPipeline::process_command_frame::<G, Q>,
                        (worker, session, queues, frame, now, ingress),
                        report,
                    )]
                    {
                        &&& call_ensures(
                            GatewayCommandPipeline::process_command_frame::<G, Q>,
                            (worker, session, queues, frame, now, ingress),
                            report,
                        )
                        &&& frame@ == ingress_verdict(next[i].packet)->Ok_0
                        &&& *session == gateways[i]
                        &&& *final(session) == gateways[i + 1]
                        &&& *queues == tables[i]
                        &&& *final(queues) == tables[i + 1]
                        &&& report@ == fate_report(config, frame@, now, next[i].fate)
                    } by {
                assert(gateways[i] == earlier_gateways[i]);
                assert(tables[i] == earlier_tables[i]);
                if i < steps.len() {
                    assert(next[i] == steps[i]);
                    assert(gateways[i + 1] == earlier_gateways[i + 1]);
                    assert(tables[i + 1] == earlier_tables[i + 1]);
                }
            }
            proof {
                assert(next.drop_last() =~= steps);
                assert(step.arises::<G, Q>(now, ingress));
            }
            pump.packets_received = pump.packets_received.saturating_add(1);
            pump.bytes_received = pump.bytes_received.saturating_add(packet_bytes);
            if let Some(bytes) = &report.ack_bytes {
                let ack_len: usize = bytes.len();
                let ghost sent = bytes@;
                let acked = self.send_ack(transport, ack_client_id, copy_slice(bytes.as_slice()));
                proof {
                    let exchange = Exchange::Send {
                        client_id: ack_client_id,
                        bytes: sent,
                        failure: failure_of(acked),
                    };
                    lemma_exchanged(links, exchanges, *transport, exchange);
                    links = links.push(*transport);
                    exchanges = exchanges.push(exchange);
                }
                assert(linked(links, exchanges, *old(transport), *transport));
                match acked {
                    Ok(()) => {},
                    Err(error) => {
                        proof {
                            lemma_end::<E, G, Q>(
                                before,
                                reached_bridge,
                                *self,
                                pipeline_before,
                                reached_pipeline,
                                *pipeline,
                                now,
                                ingress,
                                max_packets,
                                steps,
                                IngressEnd::AckFailed(step, error),
                            );
                            let end: IngressEnd<E> = IngressEnd::AckFailed(step, error);
                            assert(end.judged(steps) == next);
                            assert(exchanges =~= end.exchanges(config, now, max_packets, steps));
                            assert(linked(gateways, next, *old(gateway), *gateway));
                            assert(linked(tables, next, *old(station_queues), *station_queues));
                        }
                        return Err(GatewayClientTransportError::Transport(error));
                    },
                }
                pump.acks_sent = pump.acks_sent.saturating_add(1);
                pump.ack_bytes_sent = pump.ack_bytes_sent.saturating_add(ack_len);
            }
            pump.reports.push(report);
            taken = taken + 1;
            proof {
                lemma_extend::<G, Q>(
                    before,
                    reached_bridge,
                    judged,
                    *self,
                    pipeline_before,
                    reached_pipeline,
                    *pipeline,
                    now,
                    ingress,
                    steps,
                    step,
                    outcome,
                );
                assert(exchanges =~= step_exchanges::<E>(config, now, next));
                steps = next;
            }
        }
        proof {
            let end: IngressEnd<E> = IngressEnd::Drained;
            assert(end.judged(steps) == steps);
            assert(exchanges =~= end.exchanges(config, now, max_packets, steps));
            lemma_end::<E, G, Q>(
                before,
                *self,
                *self,
                pipeline_before,
                *pipeline,
                *pipeline,
                now,
                ingress,
                max_packets,
                steps,
                IngressEnd::Drained,
            );
        }
        Ok(pump)
    }

    /// Pumps commands and moves ACK buffers directly into transport without
    /// retaining per-command pipeline reports.
    ///
    /// Use [`Self::pump_ingress`] when the caller needs detailed error reports
    /// or encoded ACK bytes after sending.
    #[verifier::rlimit(80)]
    #[verifier::spinoff_prover]
    pub fn pump_ingress_compact<
        E,
        T: TransportReceiver<Error = E> + TransportSink<Error = E>,
        G: CommandGateway,
        Q: StationCommandQueue,
    >(
        &mut self,
        transport: &mut T,
        pipeline: &mut GatewayCommandPipeline,
        gateway: &mut G,
        station_queues: &mut OrderedMap<Q>,
        now: Tick,
        ingress: Q::Ingress,
        max_packets: usize,
    ) -> (result: Result<GatewayClientTransportSummary, GatewayClientTransportError<E>>)
        requires
            old(station_queues).wf(),
        ensures
            final(station_queues).wf(),
            exists|
                steps: Seq<IngressStep>,
                end: IngressEnd<E>,
                gateways: Seq<G>,
                tables: Seq<OrderedMap<Q>>,
                links: Seq<T>,
            |
                #![trigger
                    final(self).pumped::<E, G, Q>(
                        *old(self),
                        *final(pipeline),
                        *old(pipeline),
                        now,
                        ingress,
                        max_packets,
                        steps,
                        end,
                    ),
                    linked(gateways, end.judged(steps), *old(gateway), *final(gateway)),
                    linked(tables, end.judged(steps), *old(station_queues), *final(station_queues)),
                    linked(
                        links,
                        end.exchanges(old(pipeline).config, now, max_packets, steps),
                        *old(transport),
                        *final(transport),
                    )
                ]
                {
                    &&& final(self).pumped::<E, G, Q>(
                        *old(self),
                        *final(pipeline),
                        *old(pipeline),
                        now,
                        ingress,
                        max_packets,
                        steps,
                        end,
                    )
                    &&& linked(
                        links,
                        end.exchanges(old(pipeline).config, now, max_packets, steps),
                        *old(transport),
                        *final(transport),
                    )
                    &&& forall|i: int| #[trigger]
                        asked(end.exchanges(old(pipeline).config, now, max_packets, steps), i)
                            ==> match end.exchanges(old(pipeline).config, now, max_packets, steps)[i] {
                            Exchange::Receive(answer) => exists|receiver: &mut T| #[trigger]
                                call_ensures(T::try_recv, (receiver,), answer) && *receiver == links[i]
                                    && *final(receiver) == links[i + 1],
                            Exchange::Send { client_id, bytes, failure } => exists|
                                sender: &mut T,
                                packet: OutboundPacket,
                                outcome: Result<(), E>,
                            |
                                #![trigger call_ensures(T::send, (sender, packet), outcome)]
                                {
                                    &&& call_ensures(T::send, (sender, packet), outcome)
                                    &&& *sender == links[i]
                                    &&& *final(sender) == links[i + 1]
                                    &&& packet.client_id == client_id
                                    &&& packet.bytes@ == bytes
                                    &&& failure == failure_of(outcome)
                                },
                        }
                    &&& linked(gateways, end.judged(steps), *old(gateway), *final(gateway))
                    &&& linked(
                        tables,
                        end.judged(steps),
                        *old(station_queues),
                        *final(station_queues),
                    )
                    &&& forall|i: int|
                        0 <= i < end.judged(steps).len() ==> ingress_verdict(
                            (#[trigger] end.judged(steps)[i]).packet,
                        ) is Ok && exists|
                            worker: &mut GatewayCommandPipeline,
                            session: &mut G,
                            queues: &mut OrderedMap<Q>,
                            frame: CommandFrame,
                            report: GatewayCommandPipelineReport,
                        |
                            #![trigger call_ensures(
                                GatewayCommandPipeline::process_command_frame::<G, Q>,
                                (worker, session, queues, frame, now, ingress),
                                report,
                            )]
                            {
                                &&& call_ensures(
                                    GatewayCommandPipeline::process_command_frame::<G, Q>,
                                    (worker, session, queues, frame, now, ingress),
                                    report,
                                )
                                &&& frame@ == ingress_verdict(end.judged(steps)[i].packet)->Ok_0
                                &&& *session == gateways[i]
                                &&& *final(session) == gateways[i + 1]
                                &&& *queues == tables[i]
                                &&& *final(queues) == tables[i + 1]
                                &&& report@ == fate_report(old(pipeline).config, frame@, now, end.judged(steps)[i].fate)
                            }
                    &&& match result {
                        Ok(summary) => end is Drained && summary == summary_of(
                            GatewayClientTransportStats::zero().with_steps(
                                old(pipeline).config,
                                now,
                                steps,
                            ),
                        ),
                        Err(error) => end.error() == Some(error),
                    }
                },
    {
        let ghost before = *self;
        let ghost pipeline_before = *pipeline;
        let ghost config = pipeline.config;
        let ghost zero = GatewayClientTransportStats::zero();
        let ghost mut steps: Seq<IngressStep> = Seq::empty();
        let ghost mut gateways: Seq<G> = seq![*gateway];
        let ghost mut tables: Seq<OrderedMap<Q>> = seq![*station_queues];
        let ghost mut exchanges: Seq<Exchange<E>> = Seq::empty();
        let ghost mut links: Seq<T> = seq![*transport];
        let mut summary = GatewayClientTransportSummary {
            packets_received: 0,
            bytes_received: 0,
            commands_accepted: 0,
            commands_rejected: 0,
            acks_sent: 0,
            ack_bytes_sent: 0,
        };
        let mut taken: usize = 0;
        assert(reached::<G, Q>(
            before,
            *self,
            pipeline_before,
            *pipeline,
            now,
            ingress,
            steps,
        )) by {
            reveal(reached);
        }
        while taken < max_packets
            invariant
                before == *old(self),
                pipeline_before == *old(pipeline),
                config == pipeline_before.config,
                zero == GatewayClientTransportStats::zero(),
                station_queues.wf(),
                taken <= max_packets,
                steps.len() == taken,
                summary == summary_of(zero.with_steps(config, now, steps)),
                reached::<G, Q>(
                    before,
                    *self,
                    pipeline_before,
                    *pipeline,
                    now,
                    ingress,
                    steps,
                ),
                exchanges == step_exchanges::<E>(config, now, steps),
                linked(links, exchanges, *old(transport), *transport),
                forall|i: int| #[trigger]
                    asked(exchanges, i) ==> match exchanges[i] {
                        Exchange::Receive(answer) => exists|receiver: &mut T| #[trigger]
                            call_ensures(T::try_recv, (receiver,), answer) && *receiver == links[i]
                                && *final(receiver) == links[i + 1],
                        Exchange::Send { client_id, bytes, failure } => exists|
                            sender: &mut T,
                            packet: OutboundPacket,
                            outcome: Result<(), E>,
                        |
                            #![trigger call_ensures(T::send, (sender, packet), outcome)]
                            {
                                &&& call_ensures(T::send, (sender, packet), outcome)
                                &&& *sender == links[i]
                                &&& *final(sender) == links[i + 1]
                                &&& packet.client_id == client_id
                                &&& packet.bytes@ == bytes
                                &&& failure == failure_of(outcome)
                            },
                    },
                linked(gateways, steps, *old(gateway), *gateway),
                linked(tables, steps, *old(station_queues), *station_queues),
                forall|i: int|
                    0 <= i < steps.len() ==> ingress_verdict((#[trigger] steps[i]).packet) is Ok && exists|
                        worker: &mut GatewayCommandPipeline,
                        session: &mut G,
                        queues: &mut OrderedMap<Q>,
                        frame: CommandFrame,
                        report: GatewayCommandPipelineReport,
                    |
                        #![trigger call_ensures(
                            GatewayCommandPipeline::process_command_frame::<G, Q>,
                            (worker, session, queues, frame, now, ingress),
                            report,
                        )]
                        {
                            &&& call_ensures(
                                GatewayCommandPipeline::process_command_frame::<G, Q>,
                                (worker, session, queues, frame, now, ingress),
                                report,
                            )
                            &&& frame@ == ingress_verdict(steps[i].packet)->Ok_0
                            &&& *session == gateways[i]
                            &&& *final(session) == gateways[i + 1]
                            &&& *queues == tables[i]
                            &&& *final(queues) == tables[i + 1]
                            &&& report@ == fate_report(config, frame@, now, steps[i].fate)
                        },
            decreases max_packets - taken,
        {
            let answer = transport.try_recv();
            proof {
                lemma_exchanged(links, exchanges, *transport, Exchange::Receive(answer));
                links = links.push(*transport);
                exchanges = exchanges.push(Exchange::Receive(answer));
            }
            assert(linked(links, exchanges, *old(transport), *transport));
            let packet = match answer {
                Ok(Some(packet)) => packet,
                Ok(None) => {
                    proof {
                        let end: IngressEnd<E> = IngressEnd::Drained;
                        assert(end.judged(steps) == steps);
                        assert(exchanges =~= end.exchanges(config, now, max_packets, steps));
                        lemma_end::<E, G, Q>(
                            before,
                            *self,
                            *self,
                            pipeline_before,
                            *pipeline,
                            *pipeline,
                            now,
                            ingress,
                            max_packets,
                            steps,
                            IngressEnd::Drained,
                        );
                    }
                    return Ok(summary);
                },
                Err(error) => {
                    proof {
                        let end: IngressEnd<E> = IngressEnd::ReceiveFailed(error);
                        assert(end.judged(steps) == steps);
                        assert(exchanges =~= end.exchanges(config, now, max_packets, steps));
                        lemma_end::<E, G, Q>(
                            before,
                            *self,
                            *self,
                            pipeline_before,
                            *pipeline,
                            *pipeline,
                            now,
                            ingress,
                            max_packets,
                            steps,
                            IngressEnd::ReceiveFailed(error),
                        );
                    }
                    return Err(GatewayClientTransportError::Transport(error));
                },
            };
            let ghost reached_bridge = *self;
            let ghost reached_pipeline = *pipeline;
            assert(reached_pipeline.config == config) by {
                reveal(reached);
            }
            let (ack_client_id, packet_bytes, report) = match self.process_ingress_packet(
                pipeline,
                gateway,
                station_queues,
                &packet,
                now,
                ingress,
            ) {
                Ok(processed) => processed,
                Err(rejection) => {
                    let error = rejection.into_error();
                    proof {
                        let end: IngressEnd<E> = IngressEnd::Rejected(packet);
                        assert(end.judged(steps) == steps);
                        assert(exchanges =~= end.exchanges(config, now, max_packets, steps));
                        lemma_end::<E, G, Q>(
                            before,
                            reached_bridge,
                            *self,
                            pipeline_before,
                            reached_pipeline,
                            *pipeline,
                            now,
                            ingress,
                            max_packets,
                            steps,
                            IngressEnd::Rejected(packet),
                        );
                    }
                    return Err(error);
                },
            };
            let ghost fate = choose|fate: CommandFate|
                processed_as::<G, Q>(
                    reached_bridge,
                    *self,
                    reached_pipeline,
                    *pipeline,
                    packet,
                    now,
                    ingress,
                    report,
                    fate,
                );
            let ghost step = IngressStep { packet, fate };
            let ghost next = steps.push(step);
            let ghost judged = *self;
            let ghost outcome = report;
            let ghost earlier_gateways = gateways;
            let ghost earlier_tables = tables;
            proof {
                gateways = gateways.push(*gateway);
                tables = tables.push(*station_queues);
            }
            assert forall|i: int| 0 <= i < next.len() implies ingress_verdict(
                (#[trigger] next[i]).packet,
            ) is Ok && exists|
                    worker: &mut GatewayCommandPipeline,
                    session: &mut G,
                    queues: &mut OrderedMap<Q>,
                    frame: CommandFrame,
                    report: GatewayCommandPipelineReport,
                |
                    #![trigger call_ensures(
                        GatewayCommandPipeline::process_command_frame::<G, Q>,
                        (worker, session, queues, frame, now, ingress),
                        report,
                    )]
                    {
                        &&& call_ensures(
                            GatewayCommandPipeline::process_command_frame::<G, Q>,
                            (worker, session, queues, frame, now, ingress),
                            report,
                        )
                        &&& frame@ == ingress_verdict(next[i].packet)->Ok_0
                        &&& *session == gateways[i]
                        &&& *final(session) == gateways[i + 1]
                        &&& *queues == tables[i]
                        &&& *final(queues) == tables[i + 1]
                        &&& report@ == fate_report(config, frame@, now, next[i].fate)
                    } by {
                assert(gateways[i] == earlier_gateways[i]);
                assert(tables[i] == earlier_tables[i]);
                if i < steps.len() {
                    assert(next[i] == steps[i]);
                    assert(gateways[i + 1] == earlier_gateways[i + 1]);
                    assert(tables[i + 1] == earlier_tables[i + 1]);
                }
            }
            proof {
                assert(next.drop_last() =~= steps);
                assert(step.arises::<G, Q>(now, ingress));
            }
            summary.packets_received = summary.packets_received.saturating_add(1);
            summary.bytes_received = summary.bytes_received.saturating_add(packet_bytes);
            if report.accepted {
                summary.commands_accepted = summary.commands_accepted.saturating_add(1);
            } else {
                summary.commands_rejected = summary.commands_rejected.saturating_add(1);
            }
            if let Some(bytes) = report.ack_bytes {
                let ack_len: usize = bytes.len();
                let ghost sent = bytes@;
                let acked = self.send_ack(transport, ack_client_id, bytes);
                proof {
                    let exchange = Exchange::Send {
                        client_id: ack_client_id,
                        bytes: sent,
                        failure: failure_of(acked),
                    };
                    lemma_exchanged(links, exchanges, *transport, exchange);
                    links = links.push(*transport);
                    exchanges = exchanges.push(exchange);
                }
                assert(linked(links, exchanges, *old(transport), *transport));
                match acked {
                    Ok(()) => {},
                    Err(error) => {
                        proof {
                            lemma_end::<E, G, Q>(
                                before,
                                reached_bridge,
                                *self,
                                pipeline_before,
                                reached_pipeline,
                                *pipeline,
                                now,
                                ingress,
                                max_packets,
                                steps,
                                IngressEnd::AckFailed(step, error),
                            );
                            let end: IngressEnd<E> = IngressEnd::AckFailed(step, error);
                            assert(end.judged(steps) == next);
                            assert(exchanges =~= end.exchanges(config, now, max_packets, steps));
                            assert(linked(gateways, next, *old(gateway), *gateway));
                            assert(linked(tables, next, *old(station_queues), *station_queues));
                        }
                        return Err(GatewayClientTransportError::Transport(error));
                    },
                }
                summary.acks_sent = summary.acks_sent.saturating_add(1);
                summary.ack_bytes_sent = summary.ack_bytes_sent.saturating_add(ack_len);
            }
            taken = taken + 1;
            proof {
                lemma_extend::<G, Q>(
                    before,
                    reached_bridge,
                    judged,
                    *self,
                    pipeline_before,
                    reached_pipeline,
                    *pipeline,
                    now,
                    ingress,
                    steps,
                    step,
                    outcome,
                );
                assert(exchanges =~= step_exchanges::<E>(config, now, next));
                steps = next;
            }
        }
        proof {
            let end: IngressEnd<E> = IngressEnd::Drained;
            assert(end.judged(steps) == steps);
            assert(exchanges =~= end.exchanges(config, now, max_packets, steps));
            lemma_end::<E, G, Q>(
                before,
                *self,
                *self,
                pipeline_before,
                *pipeline,
                *pipeline,
                now,
                ingress,
                max_packets,
                steps,
                IngressEnd::Drained,
            );
        }
        Ok(summary)
    }

    /// Sends an acknowledgement to a client.
    fn send_ack<T: TransportSink>(
        &mut self,
        transport: &mut T,
        client_id: ClientId,
        bytes: Vec<u8>,
    ) -> (result: Result<(), T::Error>)
        ensures
            exists|sender: &mut T, packet: OutboundPacket, outcome: Result<(), T::Error>|
                #![trigger call_ensures(T::send, (sender, packet), outcome)]
                {
                    &&& call_ensures(T::send, (sender, packet), outcome)
                    &&& *sender == *old(transport)
                    &&& *final(sender) == *final(transport)
                    &&& packet.client_id == client_id
                    &&& packet.bytes@ == bytes@
                    &&& failure_of(result) == failure_of(outcome)
                },
            final(self).stats == (if result is Ok {
                old(self).stats.with_ack(Some(bytes@))
            } else {
                old(self).stats
            }),
    {
        let ack_len: usize = bytes.len();
        match transport.send(OutboundPacket { client_id, bytes }) {
            Ok(()) => {},
            Err(error) => {
                return Err(error);
            },
        }
        self.stats.acks_sent = self.stats.acks_sent.saturating_add(1);
        self.stats.ack_bytes_sent = self.stats.ack_bytes_sent.saturating_add(ack_len);
        Ok(())
    }

    /// Consumes one packet and brings the command in it before the gateway.
    pub fn process_ingress_packet<G: CommandGateway, Q: StationCommandQueue>(
        &mut self,
        pipeline: &mut GatewayCommandPipeline,
        gateway: &mut G,
        station_queues: &mut OrderedMap<Q>,
        packet: &InboundPacket,
        now: Tick,
        ingress: Q::Ingress,
    ) -> (result: Result<(ClientId, usize, GatewayCommandPipelineReport), IngressRejection>)
        requires
            old(station_queues).wf(),
        ensures
            final(station_queues).wf(),
            match ingress_verdict(*packet) {
                Err(rejection) => {
                    &&& result == Err::<
                        (ClientId, usize, GatewayCommandPipelineReport),
                        IngressRejection,
                    >(rejection)
                    &&& final(self).stats == old(self).stats.with_packet(*packet)
                    &&& final(pipeline).config == old(pipeline).config
                    &&& final(pipeline).stats == old(pipeline).stats.with_decoded(
                        decoded_command(packet.bytes@),
                    )
                    &&& *final(gateway) == *old(gateway)
                    &&& *final(station_queues) == *old(station_queues)
                },
                Ok(command) => {
                    &&& result matches Ok((ack_client_id, packet_bytes, report))
                    &&& ack_client_id == command.client_id
                    &&& packet_bytes == packet.bytes@.len()
                    &&& exists|fate: CommandFate| #[trigger]
                        processed_as::<G, Q>(
                            *old(self),
                            *final(self),
                            *old(pipeline),
                            *final(pipeline),
                            *packet,
                            now,
                            ingress,
                            report,
                            fate,
                        )
                    &&& exists|
                        worker: &mut GatewayCommandPipeline,
                        session: &mut G,
                        queues: &mut OrderedMap<Q>,
                        frame: CommandFrame,
                    |
                        #![trigger call_ensures(
                            GatewayCommandPipeline::process_command_frame::<G, Q>,
                            (worker, session, queues, frame, now, ingress),
                            report,
                        )]
                        {
                            &&& call_ensures(
                                GatewayCommandPipeline::process_command_frame::<G, Q>,
                                (worker, session, queues, frame, now, ingress),
                                report,
                            )
                            &&& frame@ == command
                            &&& *session == *old(gateway)
                            &&& *final(session) == *final(gateway)
                            &&& *queues == *old(station_queues)
                            &&& *final(queues) == *final(station_queues)
                        }
                },
            },
    {
        let packet_bytes: usize = packet.bytes.len();
        self.stats.packets_received = self.stats.packets_received.saturating_add(1);
        self.stats.bytes_received = self.stats.bytes_received.saturating_add(packet_bytes);
        let command_frame = match pipeline.decode_command_frame(packet.bytes.as_slice()) {
            Ok(command_frame) => command_frame,
            Err(GatewayCommandPipelineError::Decode(error)) => {
                return Err(IngressRejection::Decode(error));
            },
            Err(_) => {
                return Err(IngressRejection::NonCommandFrame);
            },
        };
        self.stats.command_frames_received = self.stats.command_frames_received.saturating_add(1);
        if let Some(packet_client_id) = packet.client_id {
            if packet_client_id.0 != command_frame.client_id.0 {
                self.stats.source_mismatches = self.stats.source_mismatches.saturating_add(1);
                return Err(
                    IngressRejection::SourceMismatch {
                        packet_client_id,
                        frame_client_id: command_frame.client_id,
                    },
                );
            }
        }
        let ack_client_id = command_frame.client_id;
        let ghost decoded = *pipeline;
        let ghost command = command_frame@;
        let report = pipeline.process_command_frame(
            gateway,
            station_queues,
            command_frame,
            now,
            ingress,
        );
        if report.accepted {
            self.stats.commands_accepted = self.stats.commands_accepted.saturating_add(1);
        } else {
            self.stats.commands_rejected = self.stats.commands_rejected.saturating_add(1);
        }
        proof {
            assert forall|fate: CommandFate|
                {
                    &&& #[trigger] may_befall::<G, Q>(
                        EnvelopeModel { command, received_at: now },
                        ingress,
                        fate,
                    )
                    &&& report@ == fate_report(decoded.config, command, now, fate)
                    &&& pipeline.stats == decoded.stats.with_fate(fate).with_ack(
                        report@.ack is Some,
                    )
                } implies processed_as::<G, Q>(
                *old(self),
                *self,
                *old(pipeline),
                *pipeline,
                *packet,
                now,
                ingress,
                report,
                fate,
            ) by {
                assert(report@.accepted <==> fate is Enqueued);
            }
        }
        Ok((ack_client_id, packet_bytes, report))
    }
}

/// The command in a packet met this fate, and it was counted and reported.
pub open spec fn processed_as<G: CommandGateway, Q: StationCommandQueue>(
    before: GatewayClientTransportBridge,
    after: GatewayClientTransportBridge,
    pipeline_before: GatewayCommandPipeline,
    pipeline_after: GatewayCommandPipeline,
    packet: InboundPacket,
    now: Tick,
    ingress: Q::Ingress,
    report: GatewayCommandPipelineReport,
    fate: CommandFate,
) -> bool {
    let config = pipeline_before.config;
    let command = ingress_verdict(packet)->Ok_0;
    &&& may_befall::<G, Q>(EnvelopeModel { command, received_at: now }, ingress, fate)
    &&& report@ == fate_report(config, command, now, fate)
    &&& after.stats == before.stats.with_packet(packet).with_fate(fate)
    &&& pipeline_after.config == config
    &&& pipeline_after.stats == pipeline_with_step(
        pipeline_before.stats,
        config,
        now,
        IngressStep { packet, fate },
    )
}

impl<E> IngressEnd<E> {
    /// The commands that reached the gateway in a pass: those of the completed steps, and the one
    /// whose acknowledgement could not be sent.
    pub open spec fn judged(self, steps: Seq<IngressStep>) -> Seq<IngressStep> {
        match self {
            IngressEnd::AckFailed(step, _) => steps.push(step),
            _ => steps,
        }
    }

    /// What passes between the bridge and the transport in a pass that completed these steps.
    pub open spec fn exchanges(
        self,
        config: GatewayCommandPipelineConfig,
        now: Tick,
        max_packets: usize,
        steps: Seq<IngressStep>,
    ) -> Seq<Exchange<E>> {
        step_exchanges::<E>(config, now, steps) + (match self {
            IngressEnd::Drained => if steps.len() == max_packets {
                Seq::empty()
            } else {
                seq![Exchange::Receive(Ok(None))]
            },
            IngressEnd::ReceiveFailed(error) => seq![Exchange::Receive(Err(error))],
            IngressEnd::Rejected(packet) => seq![Exchange::Receive(Ok(Some(packet)))],
            IngressEnd::AckFailed(step, error) => step.exchanges(config, now, Some(error)),
        })
    }

    /// The error that reports how the pass ended, if it failed.
    pub open spec fn error(self) -> Option<GatewayClientTransportError<E>> {
        match self {
            IngressEnd::Drained => None,
            IngressEnd::ReceiveFailed(error) => Some(GatewayClientTransportError::Transport(error)),
            IngressEnd::Rejected(packet) => Some(ingress_verdict(packet)->Err_0.error::<E>()),
            IngressEnd::AckFailed(_, error) => Some(GatewayClientTransportError::Transport(error)),
        }
    }
}

/// Every command that reached the gateway is counted once, as accepted or as rejected, and no more
/// acknowledgements are sent than commands were received.
pub proof fn law_every_command_is_counted_once(
    config: GatewayCommandPipelineConfig,
    now: Tick,
    steps: Seq<IngressStep>,
)
    requires
        steps.len() <= usize::MAX,
        forall|i: int| 0 <= i < steps.len() ==> ingress_verdict((#[trigger] steps[i]).packet) is Ok,
    ensures
        ({
            let stats = GatewayClientTransportStats::zero().with_steps(config, now, steps);
            &&& stats.packets_received == steps.len()
            &&& stats.command_frames_received == steps.len()
            &&& stats.source_mismatches == 0
            &&& stats.commands_accepted + stats.commands_rejected == steps.len()
            &&& stats.commands_accepted <= stats.acks_sent <= steps.len()
            &&& config.ack_rejections ==> stats.acks_sent == steps.len()
        }),
    decreases steps.len(),
{
    if steps.len() > 0 {
        let before = steps.drop_last();
        assert forall|i: int| 0 <= i < before.len() implies ingress_verdict(
            (#[trigger] before[i]).packet,
        ) is Ok by {
            assert(before[i] == steps[i]);
        }
        law_every_command_is_counted_once(config, now, before);
        let last = steps.last();
        assert(ingress_verdict(steps[steps.len() - 1].packet) is Ok);
        assert(decoded_command(last.packet.bytes@) is Ok);
        let fate = last.fate;
        assert(fate is Refused || fate is MissingQueue || fate is QueueRefused || fate is Enqueued);
    }
}

/// Every decoded command is counted as accepted, as rejected or as coming from another client.
pub open spec fn balanced(stats: GatewayClientTransportStats) -> bool {
    stats.commands_accepted + stats.commands_rejected + stats.source_mismatches
        == stats.command_frames_received
}

proof fn lemma_steps_balance(
    stats: GatewayClientTransportStats,
    config: GatewayCommandPipelineConfig,
    now: Tick,
    steps: Seq<IngressStep>,
)
    requires
        balanced(stats),
        stats.packets_received + steps.len() <= usize::MAX,
        stats.command_frames_received <= stats.packets_received,
        forall|i: int| 0 <= i < steps.len() ==> ingress_verdict((#[trigger] steps[i]).packet) is Ok,
    ensures
        ({
            let after = stats.with_steps(config, now, steps);
            &&& balanced(after)
            &&& after.packets_received == stats.packets_received + steps.len()
            &&& after.command_frames_received <= after.packets_received
        }),
    decreases steps.len(),
{
    if steps.len() > 0 {
        let before = steps.drop_last();
        assert forall|i: int| 0 <= i < before.len() implies ingress_verdict(
            (#[trigger] before[i]).packet,
        ) is Ok by {
            assert(before[i] == steps[i]);
        }
        lemma_steps_balance(stats, config, now, before);
        assert(ingress_verdict(steps[steps.len() - 1].packet) is Ok);
    }
}

/// Every pass, however it ends, keeps the books balanced: each command frame that was decoded is
/// counted once, as accepted, as rejected or as a source mismatch, and there are no more command
/// frames than packets.
pub proof fn law_passes_keep_the_counts_balanced<E>(
    stats: GatewayClientTransportStats,
    config: GatewayCommandPipelineConfig,
    now: Tick,
    steps: Seq<IngressStep>,
    end: IngressEnd<E>,
)
    requires
        balanced(stats),
        stats.packets_received + steps.len() < usize::MAX,
        stats.command_frames_received <= stats.packets_received,
        forall|i: int| 0 <= i < steps.len() ==> ingress_verdict((#[trigger] steps[i]).packet) is Ok,
        end matches IngressEnd::Rejected(packet) ==> ingress_verdict(packet) is Err,
        end matches IngressEnd::AckFailed(step, _) ==> ingress_verdict(step.packet) is Ok,
    ensures
        ({
            let after = stats.with_steps(config, now, steps).with_end(end);
            &&& balanced(after)
            &&& after.command_frames_received <= after.packets_received
        }),
{
    lemma_steps_balance(stats, config, now, steps);
}

proof fn lemma_accepted_total(
    reports: Seq<GatewayCommandPipelineReport>,
    config: GatewayCommandPipelineConfig,
    now: Tick,
    steps: Seq<IngressStep>,
)
    requires
        reports.len() == steps.len(),
        steps.len() <= usize::MAX,
        forall|i: int|
            0 <= i < steps.len() ==> (#[trigger] reports[i])@ == fate_report(
                config,
                ingress_verdict(steps[i].packet)->Ok_0,
                now,
                steps[i].fate,
            ),
    ensures
        ({
            let stats = GatewayClientTransportStats::zero().with_steps(config, now, steps);
            &&& stats.commands_accepted == accepted_total(reports)
            &&& stats.commands_accepted + stats.commands_rejected == steps.len()
        }),
    decreases steps.len(),
{
    if steps.len() > 0 {
        let before = reports.drop_last();
        let earlier = steps.drop_last();
        assert forall|i: int| 0 <= i < earlier.len() implies (#[trigger] before[i])@ == fate_report(
            config,
            ingress_verdict(earlier[i].packet)->Ok_0,
            now,
            earlier[i].fate,
        ) by {
            assert(before[i] == reports[i]);
        }
        lemma_accepted_total(before, config, now, earlier);
        let last = reports[reports.len() - 1];
        assert(last@.accepted <==> steps.last().fate is Enqueued);
    }
}

/// The compact summary of a pass says the same as the detailed result of a pass over the same
/// commands.
pub proof fn law_summaries_agree_with_reports(
    pump: GatewayClientTransportPump,
    config: GatewayCommandPipelineConfig,
    now: Tick,
    steps: Seq<IngressStep>,
)
    requires
        pump_holds(pump, config, now, steps),
        steps.len() <= usize::MAX,
    ensures
        summary_of(GatewayClientTransportStats::zero().with_steps(config, now, steps)) == (
        GatewayClientTransportSummary {
            packets_received: pump.packets_received,
            bytes_received: pump.bytes_received,
            commands_accepted: accepted_total(pump.reports@) as usize,
            commands_rejected: (pump.reports@.len() - accepted_total(pump.reports@)) as usize,
            acks_sent: pump.acks_sent,
            ack_bytes_sent: pump.ack_bytes_sent,
        }),
{
    lemma_accepted_total(pump.reports@, config, now, steps);
}

} // verus!
