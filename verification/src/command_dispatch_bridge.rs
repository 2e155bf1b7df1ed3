//! Stamped commands carried by the station packet transport.

use vstd::prelude::*;
use vstd::std_specs::convert::FromSpecImpl;

use crate::frames::{
    CommandDispatchFrame, DispatchModel, EnvelopeModel, FrameDecoder, FrameEncoder, FrameModel,
    RuntimeFrame,
};
use crate::gateway::{CommandQueueError, StationCommandQueue};
use crate::ids::{CommandEnvelope, StationId};
use crate::num::clamp_usize;
use crate::ordered_map::OrderedMap;
use crate::packets::{
    asked, handed_out, lemma_received_for, linked, received_bytes_total, StationInboundPacket,
    StationOutboundPacket, StationTransportReceiver, StationTransportSink,
};
use crate::wire_codec::{BinaryFrameDecoder, BinaryFrameEncoder};
use crate::wire_spec::{decoded_frame, dispatch_bytes, BinaryDecodeError, BinaryEncodeError};

verus! {

/// Statistics for command dispatch transport bridging.
#[derive(Clone, Copy, Debug, Default, PartialEq, Eq, Structural)]
pub struct CommandDispatchTransportStats {
    /// Commands encoded and submitted to station transport.
    pub commands_sent: usize,
    /// Bytes submitted to station transport.
    pub bytes_sent: usize,
    /// Packets received from station transport.
    pub packets_received: usize,
    /// Bytes received from station transport.
    pub bytes_received: usize,
    /// Commands decoded and enqueued at the target station.
    pub commands_enqueued: usize,
    /// Commands rejected by target station queues.
    pub commands_rejected_queue: usize,
}

impl CommandDispatchTransportStats {
    /// All counts at zero.
    pub open spec fn zero() -> Self {
        CommandDispatchTransportStats {
            commands_sent: 0,
            bytes_sent: 0,
            packets_received: 0,
            bytes_received: 0,
            commands_enqueued: 0,
            commands_rejected_queue: 0,
        }
    }

    /// The counts once a command of the given size was sent.
    pub open spec fn with_sent(self, bytes: usize) -> Self {
        CommandDispatchTransportStats {
            commands_sent: self.commands_sent.saturating_add(1),
            bytes_sent: self.bytes_sent.saturating_add(bytes),
            ..self
        }
    }

    /// The counts once a pass came to this report.
    pub open spec fn with_report(self, report: CommandDispatchPumpReport) -> Self {
        CommandDispatchTransportStats {
            packets_received: self.packets_received.saturating_add(report.packets_received),
            bytes_received: self.bytes_received.saturating_add(report.bytes_received),
            commands_enqueued: self.commands_enqueued.saturating_add(report.commands_enqueued),
            ..self
        }
    }

    /// The counts once a pass also failed: a refusal by a queue is counted.
    pub open spec fn with_failure<E>(self, error: CommandDispatchTransportError<E>) -> Self {
        if error is Queue {
            CommandDispatchTransportStats {
                commands_rejected_queue: self.commands_rejected_queue.saturating_add(1),
                ..self
            }
        } else {
            self
        }
    }
}

/// Result of pumping command dispatch packets for one target.
#[derive(Clone, Copy, Debug, Default, PartialEq, Eq, Structural)]
pub struct CommandDispatchPumpReport {
    /// Target station pumped.
    pub target_station: StationId,
    /// Packets consumed from station transport.
    pub packets_received: usize,
    /// Bytes consumed from station transport.
    pub bytes_received: usize,
    /// Commands enqueued into the target queue.
    pub commands_enqueued: usize,
}

/// Why a packet is not taken as a dispatched command.
#[derive(Clone, Debug, PartialEq, Eq)]
pub enum DispatchRejection {
    /// Wire decoding failed.
    Decode(BinaryDecodeError),
    /// Packet decoded as a non-command-dispatch frame.
    UnexpectedFrame,
    /// Packet envelope and decoded dispatch frame disagreed about the target.
    EndpointMismatch {
        /// Packet source station.
        packet_source: StationId,
        /// Packet target station.
        packet_target: StationId,
        /// Decoded command dispatch target station.
        dispatch_target: StationId,
    },
}

/// Error produced while bridging command dispatch frames through station packet transport.
#[derive(Clone, Debug, PartialEq, Eq)]
pub enum CommandDispatchTransportError<E> {
    /// Underlying station transport failed.
    Transport(E),
    /// Wire encoding failed.
    Encode(BinaryEncodeError),
    /// Wire decoding failed.
    Decode(BinaryDecodeError),
    /// Packet decoded as a non-command-dispatch frame.
    UnexpectedFrame,
    /// Packet envelope and decoded dispatch frame disagreed about the target.
    EndpointMismatch {
        /// Packet source station.
        packet_source: StationId,
        /// Packet target station.
        packet_target: StationId,
        /// Decoded command dispatch target station.
        dispatch_target: StationId,
    },
    /// Target station queue was not registered.
    MissingQueue(StationId),
    /// Target station queue rejected the command.
    Queue(CommandQueueError),
}

impl<E> From<BinaryEncodeError> for CommandDispatchTransportError<E> {
    fn from(error: BinaryEncodeError) -> (converted: Self) {
        Self::Encode(error)
    }
}

impl<E> FromSpecImpl<BinaryEncodeError> for CommandDispatchTransportError<E> {
    open spec fn obeys_from_spec() -> bool {
        true
    }

    open spec fn from_spec(error: BinaryEncodeError) -> Self {
        CommandDispatchTransportError::Encode(error)
    }
}

impl<E> From<BinaryDecodeError> for CommandDispatchTransportError<E> {
    fn from(error: BinaryDecodeError) -> (converted: Self) {
        Self::Decode(error)
    }
}

impl<E> FromSpecImpl<BinaryDecodeError> for CommandDispatchTransportError<E> {
    open spec fn obeys_from_spec() -> bool {
        true
    }

    open spec fn from_spec(error: BinaryDecodeError) -> Self {
        CommandDispatchTransportError::Decode(error)
    }
}

impl<E> From<CommandQueueError> for CommandDispatchTransportError<E> {
    fn from(error: CommandQueueError) -> (converted: Self) {
        Self::Queue(error)
    }
}

impl<E> FromSpecImpl<CommandQueueError> for CommandDispatchTransportError<E> {
    open spec fn obeys_from_spec() -> bool {
        true
    }

    open spec fn from_spec(error: CommandQueueError) -> Self {
        CommandDispatchTransportError::Queue(error)
    }
}

impl DispatchRejection {
    /// The transport error that reports this rejection.
    pub open spec fn error<E>(self) -> CommandDispatchTransportError<E> {
        match self {
            DispatchRejection::Decode(error) => CommandDispatchTransportError::Decode(error),
            DispatchRejection::UnexpectedFrame => CommandDispatchTransportError::UnexpectedFrame,
            DispatchRejection::EndpointMismatch {
                packet_source,
                packet_target,
                dispatch_target,
            } => CommandDispatchTransportError::EndpointMismatch {
                packet_source,
                packet_target,
                dispatch_target,
            },
        }
    }

    /// Reports the rejection as a transport error.
    pub fn into_error<E>(self) -> (error: CommandDispatchTransportError<E>)
        ensures
            error == self.error::<E>(),
    {
        match self {
            Self::Decode(error) => CommandDispatchTransportError::Decode(error),
            Self::UnexpectedFrame => CommandDispatchTransportError::UnexpectedFrame,
            Self::EndpointMismatch {
                packet_source,
                packet_target,
                dispatch_target,
            } => CommandDispatchTransportError::EndpointMismatch {
                packet_source,
                packet_target,
                dispatch_target,
            },
        }
    }
}

/// What a packet is taken for: its bytes first, then its target.
pub open spec fn dispatch_verdict(packet: StationInboundPacket) -> Result<
    DispatchModel,
    DispatchRejection,
> {
    match decoded_frame(packet.bytes@) {
        Err(error) => Err(DispatchRejection::Decode(error)),
        Ok(FrameModel::CommandDispatch(frame)) => if frame.station_id != packet.target_station {
            Err(
                DispatchRejection::EndpointMismatch {
                    packet_source: packet.source_station,
                    packet_target: packet.target_station,
                    dispatch_target: frame.station_id,
                },
            )
        } else {
            Ok(frame)
        },
        Ok(_) => Err(DispatchRejection::UnexpectedFrame),
    }
}

/// Decodes the command in a packet and checks its target.
pub fn decode_dispatch(packet: &StationInboundPacket) -> (result: Result<
    CommandDispatchFrame,
    DispatchRejection,
>)
    ensures
        match dispatch_verdict(*packet) {
            Ok(model) => result matches Ok(frame) && frame@ == model,
            Err(rejection) => result == Err::<CommandDispatchFrame, DispatchRejection>(rejection),
        },
{
    let mut decoder = BinaryFrameDecoder;
    let frame = match decoder.decode(packet.bytes.as_slice()) {
        Ok(RuntimeFrame::CommandDispatch(frame)) => frame,
        Ok(_) => {
            return Err(DispatchRejection::UnexpectedFrame);
        },
        Err(error) => {
            return Err(DispatchRejection::Decode(error));
        },
    };
    if frame.station_id.0 != packet.target_station.0 {
        return Err(
            DispatchRejection::EndpointMismatch {
                packet_source: packet.source_station,
                packet_target: packet.target_station,
                dispatch_target: frame.station_id,
            },
        );
    }
    Ok(frame)
}

/// A queue took a command with these contents, or refused it.
pub open spec fn was_answered<Q: StationCommandQueue>(
    command: EnvelopeModel,
    ingress: Q::Ingress,
    refusal: Option<CommandQueueError>,
) -> bool {
    exists|queue: &mut Q, envelope: CommandEnvelope, answer: Result<(), CommandQueueError>|
        #![trigger call_ensures(Q::push, (queue, envelope, ingress), answer)]
        {
            &&& call_ensures(Q::push, (queue, envelope, ingress), answer)
            &&& envelope@ == command
            &&& refusal == (match answer {
                Ok(()) => None,
                Err(error) => Some(error),
            })
        }
}

/// The command in the packet was queued.
#[verifier::opaque]
pub open spec fn was_delivered<Q: StationCommandQueue>(
    stations: Set<u128>,
    ingress: Q::Ingress,
    packet: StationInboundPacket,
) -> bool {
    &&& dispatch_verdict(packet) matches Ok(frame)
    &&& stations.contains(frame.station_id.0 as u128)
    &&& was_answered::<Q>(frame.envelope, ingress, None)
}

/// The packet holds no command that can be queued.
#[verifier::opaque]
pub open spec fn delivery_failed<E, Q: StationCommandQueue>(
    stations: Set<u128>,
    ingress: Q::Ingress,
    packet: StationInboundPacket,
    error: CommandDispatchTransportError<E>,
) -> bool {
    match dispatch_verdict(packet) {
        Err(rejection) => error == rejection.error::<E>(),
        Ok(frame) => if !stations.contains(frame.station_id.0 as u128) {
            error == CommandDispatchTransportError::<E>::MissingQueue(frame.station_id)
        } else {
            &&& error matches CommandDispatchTransportError::Queue(refusal)
            &&& was_answered::<Q>(frame.envelope, ingress, Some(refusal))
        },
    }
}

/// The commands in the packets were queued, each in the queues as the earlier ones left them.
pub open spec fn delivered_all<Q: StationCommandQueue>(
    stations: Set<u128>,
    ingress: Q::Ingress,
    packets: Seq<StationInboundPacket>,
    tables: Seq<Map<u128, Q>>,
) -> bool {
    &&& tables.len() == packets.len() + 1
    &&& forall|i: int|
        0 <= i < packets.len() ==> was_delivered::<Q>(stations, ingress, #[trigger] packets[i])
}

/// How a pass ends that received some packets, of which the first `done` were delivered, given what
/// the transport answered.
pub open spec fn delivery_ends<E, Q: StationCommandQueue>(
    stations: Set<u128>,
    ingress: Q::Ingress,
    max_packets: usize,
    received: Seq<StationInboundPacket>,
    done: nat,
    answers: Seq<Result<Option<StationInboundPacket>, E>>,
    failure: Option<CommandDispatchTransportError<E>>,
) -> bool {
    match failure {
        None => {
            &&& received.len() == done
            &&& done <= max_packets
            &&& handed_out(
                answers,
                received,
                if done == max_packets {
                    None
                } else {
                    Some(Ok(None))
                },
            )
        },
        Some(CommandDispatchTransportError::Transport(error)) => {
            &&& received.len() == done
            &&& done < max_packets
            &&& handed_out(answers, received, Some(Err(error)))
        },
        Some(error) => {
            &&& received.len() == done + 1
            &&& done < max_packets
            &&& handed_out(answers, received, None)
            &&& delivery_failed::<E, Q>(stations, ingress, received.last(), error)
        },
    }
}

/// The report of a pass that received these packets and delivered this many of them.
pub open spec fn delivery_report(
    target_station: StationId,
    packets: Seq<StationInboundPacket>,
    delivered: nat,
) -> CommandDispatchPumpReport {
    CommandDispatchPumpReport {
        target_station,
        packets_received: packets.len() as usize,
        bytes_received: clamp_usize(received_bytes_total(packets)),
        commands_enqueued: delivered as usize,
    }
}

/// Bridge between stamped command envelopes and bounded station packet transport.
#[derive(Clone, Debug)]
pub struct CommandDispatchTransportBridge {
    /// Statistics.
    pub stats: CommandDispatchTransportStats,
}

impl Default for CommandDispatchTransportBridge {
    fn default() -> (bridge: Self)
        ensures
            bridge.stats == CommandDispatchTransportStats::zero(),
    {
        Self {
            stats: CommandDispatchTransportStats {
                commands_sent: 0,
                bytes_sent: 0,
                packets_received: 0,
                bytes_received: 0,
                commands_enqueued: 0,
                commands_rejected_queue: 0,
            },
        }
    }
}

impl CommandDispatchTransportBridge {
    /// Returns bridge statistics.
    pub fn stats(&self) -> (stats: CommandDispatchTransportStats)
        ensures
            stats == self.stats,
    {
        self.stats
    }

    /// Encodes and sends a stamped command envelope to a station node.
    ///
    /// A payload that does not fit the frame is an encode error, and nothing is sent.
    pub fn send_envelope<T: StationTransportSink>(
        &mut self,
        transport: &mut T,
        source_station: StationId,
        target_station: StationId,
        command: &CommandEnvelope,
    ) -> (result: Result<(), CommandDispatchTransportError<T::Error>>)
        ensures
            match dispatch_bytes(
                DispatchModel { station_id: target_station, envelope: command@ },
            ).1 {
                Some(error) => {
                    &&& result == Err::<(), CommandDispatchTransportError<T::Error>>(
                        CommandDispatchTransportError::Encode(error),
                    )
                    &&& *final(self) == *old(self)
                    &&& *final(transport) == *old(transport)
                },
                None => exists|
                    sink: &mut T,
                    packet: StationOutboundPacket,
                    outcome: Result<(), T::Error>,
                |
                    #![trigger call_ensures(T::send_station, (sink, packet), outcome)]
                    {
                        &&& call_ensures(T::send_station, (sink, packet), outcome)
                        &&& *sink == *old(transport)
                        &&& *final(sink) == *final(transport)
                        &&& packet.source_station == source_station
                        &&& packet.target_station == target_station
                        &&& packet.bytes@ == dispatch_bytes(
                            DispatchModel { station_id: target_station, envelope: command@ },
                        ).0
                        &&& match outcome {
                            Ok(()) => {
                                &&& result is Ok
                                &&& final(self).stats == old(self).stats.with_sent(
                                    packet.bytes@.len() as usize,
                                )
                            },
                            Err(error) => {
                                &&& result == Err::<(), CommandDispatchTransportError<T::Error>>(
                                    CommandDispatchTransportError::Transport(error),
                                )
                                &&& final(self).stats == old(self).stats
                            },
                        }
                    },
            },
    {
        let mut bytes: Vec<u8> = Vec::with_capacity(64usize.saturating_add(command.payload.len()));
        let ghost encoded = dispatch_bytes(
            DispatchModel { station_id: target_station, envelope: command@ },
        );
        let encoder = BinaryFrameEncoder;
        match encoder.encode_command_dispatch_envelope(target_station, command, &mut bytes) {
            Ok(()) => {},
            Err(error) => {
                return Err(CommandDispatchTransportError::Encode(error));
            },
        }
        assert(bytes@ =~= encoded.0);
        self.send_encoded(transport, source_station, target_station, bytes)
    }

    /// Encodes and sends a command dispatch frame to its target station.
    ///
    /// A payload that does not fit the frame is an encode error, and nothing is sent.
    pub fn send_frame<T: StationTransportSink>(
        &mut self,
        transport: &mut T,
        source_station: StationId,
        frame: &CommandDispatchFrame,
    ) -> (result: Result<(), CommandDispatchTransportError<T::Error>>)
        ensures
            match dispatch_bytes(frame@).1 {
                Some(error) => {
                    &&& result == Err::<(), CommandDispatchTransportError<T::Error>>(
                        CommandDispatchTransportError::Encode(error),
                    )
                    &&& *final(self) == *old(self)
                    &&& *final(transport) == *old(transport)
                },
                None => exists|
                    sink: &mut T,
                    packet: StationOutboundPacket,
                    outcome: Result<(), T::Error>,
                |
                    #![trigger call_ensures(T::send_station, (sink, packet), outcome)]
                    {
                        &&& call_ensures(T::send_station, (sink, packet), outcome)
                        &&& *sink == *old(transport)
                        &&& *final(sink) == *final(transport)
                        &&& packet.source_station == source_station
                        &&& packet.target_station == frame.station_id
                        &&& packet.bytes@ == dispatch_bytes(frame@).0
                        &&& match outcome {
                            Ok(()) => {
                                &&& result is Ok
                                &&& final(self).stats == old(self).stats.with_sent(
                                    packet.bytes@.len() as usize,
                                )
                            },
                            Err(error) => {
                                &&& result == Err::<(), CommandDispatchTransportError<T::Error>>(
                                    CommandDispatchTransportError::Transport(error),
                                )
                                &&& final(self).stats == old(self).stats
                            },
                        }
                    },
            },
    {
        let mut bytes: Vec<u8> = Vec::with_capacity(64);
        let mut encoder = BinaryFrameEncoder;
        match encoder.encode_command_dispatch(frame, &mut bytes) {
            Ok(()) => {},
            Err(error) => {
                return Err(CommandDispatchTransportError::Encode(error));
            },
        }
        assert(bytes@ =~= dispatch_bytes(frame@).0);
        self.send_encoded(transport, source_station, frame.station_id, bytes)
    }

    fn send_encoded<T: StationTransportSink>(
        &mut self,
        transport: &mut T,
        source_station: StationId,
        target_station: StationId,
        bytes: Vec<u8>,
    ) -> (result: Result<(), CommandDispatchTransportError<T::Error>>)
        ensures
            exists|sink: &mut T, packet: StationOutboundPacket, outcome: Result<(), T::Error>|
                #![trigger call_ensures(T::send_station, (sink, packet), outcome)]
                {
                    &&& call_ensures(T::send_station, (sink, packet), outcome)
                    &&& *sink == *old(transport)
                    &&& *final(sink) == *final(transport)
                    &&& packet == (StationOutboundPacket { source_station, target_station, bytes })
                    &&& match outcome {
                        Ok(()) => {
                            &&& result is Ok
                            &&& final(self).stats == old(self).stats.with_sent(
                                bytes@.len() as usize,
                            )
                        },
                        Err(error) => {
                            &&& result == Err::<(), CommandDispatchTransportError<T::Error>>(
                                CommandDispatchTransportError::Transport(error),
                            )
                            &&& final(self).stats == old(self).stats
                        },
                    }
                },
    {
        let byte_len: usize = bytes.len();
        match transport.send_station(
            StationOutboundPacket { source_station, target_station, bytes },
        ) {
            Ok(()) => {},
            Err(error) => {
                return Err(CommandDispatchTransportError::Transport(error));
            },
        }
        self.stats.commands_sent = self.stats.commands_sent.saturating_add(1);
        self.stats.bytes_sent = self.stats.bytes_sent.saturating_add(byte_len);
        Ok(())
    }

    /// Decodes a packet and queues the command in it.
    fn deliver_packet<E, Q: StationCommandQueue>(
        station_queues: &mut OrderedMap<Q>,
        packet: &StationInboundPacket,
        ingress: Q::Ingress,
    ) -> (result: Result<(), CommandDispatchTransportError<E>>)
        requires
            old(station_queues).wf(),
        ensures
            final(station_queues).wf(),
            final(station_queues)@.dom() == old(station_queues)@.dom(),
            match dispatch_verdict(*packet) {
                Ok(frame) => if old(station_queues)@.contains_key(frame.station_id.0 as u128) {
                    exists|
                        queue: &mut Q,
                        envelope: CommandEnvelope,
                        answer: Result<(), CommandQueueError>,
                    |
                        #![trigger call_ensures(Q::push, (queue, envelope, ingress), answer)]
                        {
                            &&& call_ensures(Q::push, (queue, envelope, ingress), answer)
                            &&& envelope@ == frame.envelope
                            &&& *queue == old(station_queues)@[frame.station_id.0 as u128]
                            &&& final(station_queues)@ == old(station_queues)@.insert(frame.station_id.0 as u128, *final(queue))
                            &&& match answer {
                                Ok(()) => result is Ok,
                                Err(refusal) => result == Err::<
                                    (),
                                    CommandDispatchTransportError<E>,
                                >(CommandDispatchTransportError::Queue(refusal)),
                            }
                        }
                } else {
                    final(station_queues)@ == old(station_queues)@
                },
                Err(_) => final(station_queues)@ == old(station_queues)@,
            },
            match result {
                Ok(()) => was_delivered::<Q>(old(station_queues)@.dom(), ingress, *packet),
                Err(error) => {
                    &&& !(error is Transport)
                    &&& delivery_failed::<E, Q>(
                        old(station_queues)@.dom(),
                        ingress,
                        *packet,
                        error,
                    )
                },
            },
    {
        reveal(was_delivered);
        reveal(delivery_failed);
        let frame = match decode_dispatch(packet) {
            Ok(frame) => frame,
            Err(rejection) => {
                return Err(rejection.into_error());
            },
        };
        let ghost stations = station_queues@.dom();
        let ghost model = frame@;
        let station_id = frame.station_id;
        assert(stations.contains(station_id.0 as u128) <==> station_queues@.contains_key(
            station_id.0 as u128,
        ));
        let result = match station_queues.get_mut(station_id.0 as u128) {
            Some(queue) => {
                match queue.push(frame.into_envelope(), ingress) {
                    Ok(()) => {
                        assert(was_answered::<Q>(model.envelope, ingress, None));
                        Ok(())
                    },
                    Err(error) => {
                        assert(was_answered::<Q>(model.envelope, ingress, Some(error)));
                        Err(CommandDispatchTransportError::Queue(error))
                    },
                }
            },
            None => Err(CommandDispatchTransportError::MissingQueue(station_id)),
        };
        assert(station_queues@.dom() =~= stations);
        result
    }

    /// Adds the counts of a pass.
    fn count(&mut self, report: &CommandDispatchPumpReport)
        ensures
            final(self).stats == old(self).stats.with_report(*report),
    {
        self.stats.packets_received =
        self.stats.packets_received.saturating_add(report.packets_received);
        self.stats.bytes_received = self.stats.bytes_received.saturating_add(report.bytes_received);
        self.stats.commands_enqueued =
        self.stats.commands_enqueued.saturating_add(report.commands_enqueued);
    }

    /// Receives up to `max_packets` for `target_station`, decodes command
    /// dispatch frames, and enqueues stamped commands into `station_queues`.
    ///
    /// The packets are taken in the order in which the transport hands them out. The first whose
    /// command cannot be queued, or the first failure of the transport, ends the pass with its
    /// error. The statistics count what was received and queued either way.
    pub fn pump_target<T: StationTransportReceiver, Q: StationCommandQueue>(
        &mut self,
        transport: &mut T,
        station_queues: &mut OrderedMap<Q>,
        target_station: StationId,
        max_packets: usize,
        ingress: Q::Ingress,
    ) -> (result: Result<CommandDispatchPumpReport, CommandDispatchTransportError<T::Error>>)
        requires
            old(station_queues).wf(),
        ensures
            final(station_queues).wf(),
            final(station_queues)@.dom() == old(station_queues)@.dom(),
            exists|
                packets: Seq<StationInboundPacket>,
                tables: Seq<Map<u128, Q>>,
                answers: Seq<Result<Option<StationInboundPacket>, T::Error>>,
                links: Seq<T>,
            |
                {
                    &&& #[trigger] delivered_all::<Q>(
                        old(station_queues)@.dom(),
                        ingress,
                        packets.take(tables.len() - 1),
                        tables,
                    )
                    &&& tables[0] == old(station_queues)@
                    &&& forall|i: int|
                        0 <= i < tables.len() - 1 ==> dispatch_verdict(#[trigger] packets[i]) is Ok && exists|
                            queue: &mut Q,
                            envelope: CommandEnvelope,
                            answer: Result<(), CommandQueueError>,
                        |
                            #![trigger call_ensures(Q::push, (queue, envelope, ingress), answer)]
                            {
                                let frame = dispatch_verdict(packets[i])->Ok_0;
                                let station = frame.station_id.0 as u128;
                                &&& call_ensures(Q::push, (queue, envelope, ingress), answer)
                                &&& envelope@ == frame.envelope
                                &&& *queue == tables[i][station]
                                &&& tables[i + 1] == tables[i].insert(station, *final(queue))
                                &&& answer is Ok
                            }
                    &&& #[trigger] linked(links, answers, *old(transport), *final(transport))
                    &&& forall|i: int| #[trigger]
                        asked(answers, i) ==> exists|receiver: &mut T| #[trigger]
                            call_ensures(T::try_recv_station, (receiver, target_station), answers[i])
                                && *receiver == links[i] && *final(receiver) == links[i + 1]
                    &&& delivery_ends::<T::Error, Q>(
                        old(station_queues)@.dom(),
                        ingress,
                        max_packets,
                        packets,
                        (tables.len() - 1) as nat,
                        answers,
                        match result {
                            Ok(_) => None,
                            Err(error) => Some(error),
                        },
                    )
                    &&& match result {
                        Ok(report) => {
                            &&& final(station_queues)@ == tables.last()
                            &&& report == delivery_report(
                                target_station,
                                packets,
                                (tables.len() - 1) as nat,
                            )
                            &&& final(self).stats == old(self).stats.with_report(report)
                        },
                        Err(error) => {
                            &&& match error {
                                CommandDispatchTransportError::Queue(refusal) => exists|
                                    queue: &mut Q,
                                    envelope: CommandEnvelope,
                                    answer: Result<(), CommandQueueError>,
                                |
                                    #![trigger call_ensures(Q::push, (queue, envelope, ingress), answer)]
                                    {
                                        let frame = dispatch_verdict(packets.last())->Ok_0;
                                        let station = frame.station_id.0 as u128;
                                        &&& call_ensures(Q::push, (queue, envelope, ingress), answer)
                                        &&& answer == Err::<(), CommandQueueError>(refusal)
                                        &&& envelope@ == frame.envelope
                                        &&& *queue == tables.last()[station]
                                        &&& final(station_queues)@ == tables.last().insert(
                                            station,
                                            *final(queue),
                                        )
                                    },
                                _ => final(station_queues)@ == tables.last(),
                            }
                            &&& final(self).stats == old(self).stats.with_failure(
                                error,
                            ).with_report(
                                delivery_report(
                                    target_station,
                                    packets,
                                    (tables.len() - 1) as nat,
                                ),
                            )
                        },
                    }
                },
    {
        let ghost stations = station_queues@.dom();
        let ghost mut packets: Seq<StationInboundPacket> = Seq::empty();
        let ghost mut tables: Seq<Map<u128, Q>> = seq![station_queues@];
        let ghost mut answers: Seq<Result<Option<StationInboundPacket>, T::Error>> = Seq::empty();
        let ghost mut links: Seq<T> = seq![*transport];
        let mut report = CommandDispatchPumpReport {
            target_station,
            packets_received: 0,
            bytes_received: 0,
            commands_enqueued: 0,
        };
        assert(packets.take(0) =~= packets);
        while report.packets_received < max_packets
            invariant
                stations == old(station_queues)@.dom(),
                station_queues.wf(),
                station_queues@.dom() == stations,
                *self == *old(self),
                report == delivery_report(target_station, packets, packets.len()),
                packets.len() <= max_packets,
                packets.take(tables.len() - 1) == packets,
                delivered_all::<Q>(stations, ingress, packets, tables),
                tables[0] == old(station_queues)@,
                tables.last() == station_queues@,
                forall|i: int|
                    0 <= i < tables.len() - 1 ==> dispatch_verdict(#[trigger] packets[i]) is Ok && exists|
                        queue: &mut Q,
                        envelope: CommandEnvelope,
                        answer: Result<(), CommandQueueError>,
                    |
                        #![trigger call_ensures(Q::push, (queue, envelope, ingress), answer)]
                        {
                            let frame = dispatch_verdict(packets[i])->Ok_0;
                            let station = frame.station_id.0 as u128;
                            &&& call_ensures(Q::push, (queue, envelope, ingress), answer)
                            &&& envelope@ == frame.envelope
                            &&& *queue == tables[i][station]
                            &&& tables[i + 1] == tables[i].insert(station, *final(queue))
                            &&& answer is Ok
                        },
                handed_out(answers, packets, None),
                linked(links, answers, *old(transport), *transport),
                forall|i: int| #[trigger]
                    asked(answers, i) ==> exists|receiver: &mut T| #[trigger]
                        call_ensures(T::try_recv_station, (receiver, target_station), answers[i])
                            && *receiver == links[i] && *final(receiver) == links[i + 1],
            decreases max_packets - report.packets_received,
        {
            let answer = transport.try_recv_station(target_station);
            proof {
                lemma_received_for(target_station, links, answers, *transport, answer);
                links = links.push(*transport);
                answers = answers.push(answer);
            }
            assert(linked(links, answers, *old(transport), *transport));
            let packet = match answer {
                Ok(Some(packet)) => packet,
                Ok(None) => {
                    self.count(&report);
                    return Ok(report);
                },
                Err(error) => {
                    self.count(&report);
                    return Err(CommandDispatchTransportError::Transport(error));
                },
            };
            report.packets_received = report.packets_received.saturating_add(1);
            report.bytes_received = report.bytes_received.saturating_add(packet.bytes.len());
            let ghost earlier = packets;
            proof {
                packets = packets.push(packet);
                assert(packets.drop_last() =~= earlier);
                assert(packets.take(tables.len() - 1) =~= earlier);
            }
            match Self::deliver_packet::<T::Error, Q>(station_queues, &packet, ingress) {
                Ok(()) => {},
                Err(error) => {
                    if matches!(error, CommandDispatchTransportError::Queue(_)) {
                        self.stats.commands_rejected_queue =
                        self.stats.commands_rejected_queue.saturating_add(1);
                    }
                    self.count(&report);
                    proof {
                        reveal(delivery_failed);
                    }
                    return Err(error);
                },
            }
            report.commands_enqueued = report.commands_enqueued.saturating_add(1);
            let ghost reached = tables;
            proof {
                reveal(was_delivered);
                tables = tables.push(station_queues@);
                assert(packets.take(tables.len() - 1) =~= packets);
            }
            assert forall|i: int|
                0 <= i < tables.len() - 1 implies dispatch_verdict(#[trigger] packets[i]) is Ok && exists|
                    queue: &mut Q,
                    envelope: CommandEnvelope,
                    answer: Result<(), CommandQueueError>,
                |
                    #![trigger call_ensures(Q::push, (queue, envelope, ingress), answer)]
                    {
                        let frame = dispatch_verdict(packets[i])->Ok_0;
                        let station = frame.station_id.0 as u128;
                        &&& call_ensures(Q::push, (queue, envelope, ingress), answer)
                        &&& envelope@ == frame.envelope
                        &&& *queue == tables[i][station]
                        &&& tables[i + 1] == tables[i].insert(station, *final(queue))
                        &&& answer is Ok
                    } by {
                assert(tables[i] == reached[i]);
                if i < earlier.len() {
                    assert(packets[i] == earlier[i]);
                    assert(tables[i + 1] == reached[i + 1]);
                }
            }
        }
        self.count(&report);
        Ok(report)
    }
}

/// A packet that carries a command to its station is taken for that command, with the tick at
/// which the gateway stamped it.
pub proof fn law_sent_commands_are_taken(frame: DispatchModel, packet: StationInboundPacket)
    requires
        dispatch_bytes(frame).1 is None,
        packet.target_station == frame.station_id,
        packet.bytes@ == dispatch_bytes(frame).0,
    ensures
        dispatch_verdict(packet) == Ok::<DispatchModel, DispatchRejection>(frame),
{
    crate::wire_laws::law_decode_inverts_encode(FrameModel::CommandDispatch(frame));
}

} // verus!
