//! Replication frames received by a client.

use vstd::prelude::*;
use vstd::std_specs::convert::FromSpecImpl;

use crate::frame_ref::{count_components, ReplicationFrameRef, ReplicationFrameRefDecodeError};
use crate::frames::{
    count_delta_components, count_frame_components, count_frame_entities, frames_component_total,
    frames_entity_total, FrameDecoder, FrameModel, ReplicationFrame, ReplicationFrameModel,
    RuntimeFrame,
};
use crate::ids::ClientId;
use crate::num::clamp_usize;
use crate::packets::{asked, handed_out, lemma_received, linked, InboundPacket, TransportReceiver};
use crate::wire_codec::BinaryFrameDecoder;
use crate::wire_laws::law_decode_inverts_encode;
use crate::wire_spec::{decoded_frame, frame_bytes, BinaryDecodeError};

verus! {

/// Replication receive bridge configuration.
#[derive(Clone, Copy, Debug, PartialEq, Eq, Structural)]
pub struct ReplicationReceiveConfig {
    /// Local client id expected inside replication frames.
    pub client_id: ClientId,
    /// Expected remote sender identity when the transport can identify it.
    pub expected_source: Option<ClientId>,
}

impl ReplicationReceiveConfig {
    /// Creates receive configuration for a local client.
    pub fn new(client_id: ClientId) -> (config: Self)
        ensures
            config == (ReplicationReceiveConfig { client_id, expected_source: None }),
    {
        Self { client_id, expected_source: None }
    }

    /// Returns a copy that expects packets from `source`.
    #[must_use]
    pub fn with_expected_source(self, source: ClientId) -> (config: Self)
        ensures
            config == (ReplicationReceiveConfig { expected_source: Some(source), ..self }),
    {
        Self { client_id: self.client_id, expected_source: Some(source) }
    }
}

/// Why a packet is not taken as a replication frame.
#[derive(Clone, Debug, PartialEq, Eq)]
pub enum ReplicationRejection {
    /// Wire decoding failed.
    Decode(BinaryDecodeError),
    /// Packet decoded as a non-replication frame.
    UnexpectedFrame,
    /// Packet source did not match expected remote.
    SourceMismatch {
        /// Expected source.
        expected: ClientId,
        /// Actual source if transport identified one.
        actual: Option<ClientId>,
    },
    /// Replication frame targeted another client.
    TargetMismatch {
        /// Expected local client id.
        expected: ClientId,
        /// Actual frame target.
        actual: ClientId,
    },
}

/// Error produced while receiving replication frames.
#[derive(Clone, Debug, PartialEq, Eq)]
pub enum ReplicationReceiveError<E> {
    /// Underlying client transport failed.
    Transport(E),
    /// Wire decoding failed.
    Decode(BinaryDecodeError),
    /// Packet decoded as a non-replication frame.
    UnexpectedFrame,
    /// Packet source did not match expected remote.
    SourceMismatch {
        /// Expected source.
        expected: ClientId,
        /// Actual source if transport identified one.
        actual: Option<ClientId>,
    },
    /// Replication frame targeted another client.
    TargetMismatch {
        /// Expected local client id.
        expected: ClientId,
        /// Actual frame target.
        actual: ClientId,
    },
}

impl<E> From<BinaryDecodeError> for ReplicationReceiveError<E> {
    fn from(error: BinaryDecodeError) -> (converted: Self) {
        Self::Decode(error)
    }
}

impl<E> FromSpecImpl<BinaryDecodeError> for ReplicationReceiveError<E> {
    open spec fn obeys_from_spec() -> bool {
        true
    }

    open spec fn from_spec(error: BinaryDecodeError) -> Self {
        ReplicationReceiveError::Decode(error)
    }
}

impl ReplicationRejection {
    /// The receive error that reports this rejection.
    pub open spec fn error<E>(self) -> ReplicationReceiveError<E> {
        match self {
            ReplicationRejection::Decode(error) => ReplicationReceiveError::Decode(error),
            ReplicationRejection::UnexpectedFrame => ReplicationReceiveError::UnexpectedFrame,
            ReplicationRejection::SourceMismatch {
                expected,
                actual,
            } => ReplicationReceiveError::SourceMismatch { expected, actual },
            ReplicationRejection::TargetMismatch {
                expected,
                actual,
            } => ReplicationReceiveError::TargetMismatch { expected, actual },
        }
    }

    /// Reports the rejection as a receive error.
    pub fn into_error<E>(self) -> (error: ReplicationReceiveError<E>)
        ensures
            error == self.error::<E>(),
    {
        match self {
            Self::Decode(error) => ReplicationReceiveError::Decode(error),
            Self::UnexpectedFrame => ReplicationReceiveError::UnexpectedFrame,
            Self::SourceMismatch { expected, actual } => ReplicationReceiveError::SourceMismatch {
                expected,
                actual,
            },
            Self::TargetMismatch { expected, actual } => ReplicationReceiveError::TargetMismatch {
                expected,
                actual,
            },
        }
    }
}

/// Error produced while visiting borrowed replication frames.
#[derive(Clone, Debug, PartialEq, Eq)]
pub enum ReplicationReceiveVisitError<T, V> {
    /// Packet receive, validation, or frame decoding failed.
    Receive(ReplicationReceiveError<T>),
    /// The caller-provided frame visitor failed.
    Visitor(V),
}

/// Replication receive bridge statistics.
#[derive(Clone, Copy, Debug, Default, PartialEq, Eq, Structural)]
pub struct ReplicationReceiveStats {
    /// Packets consumed from client transport.
    pub packets_received: usize,
    /// Bytes consumed from client transport.
    pub bytes_received: usize,
    /// Replication frames decoded and accepted.
    pub frames_received: usize,
    /// Packets rejected by wire decoding.
    pub frames_rejected_decode: usize,
    /// Packets rejected because they were not replication frames.
    pub frames_rejected_unexpected: usize,
    /// Packets rejected because the transport source did not match.
    pub frames_rejected_source: usize,
    /// Packets rejected because the frame target did not match this client.
    pub frames_rejected_target: usize,
    /// Entity deltas received.
    pub entities_received: usize,
    /// Component deltas received.
    pub components_received: usize,
}

/// How far a packet is decoded before its kind is judged.
#[derive(Clone, Copy, Debug, PartialEq, Eq, Structural)]
pub enum DecodeDepth {
    /// The whole packet is decoded first, so a damaged packet of another kind is a decode error.
    Whole,
    /// The kind byte is judged first, so a damaged packet of another kind is unexpected.
    KindFirst,
}

/// What a packet is taken for: source first, then its bytes, then its target.
pub open spec fn verdict(
    config: ReplicationReceiveConfig,
    packet: InboundPacket,
    depth: DecodeDepth,
) -> Result<ReplicationFrameModel, ReplicationRejection> {
    let bytes = packet.bytes@;
    if config.expected_source is Some && packet.client_id != config.expected_source {
        Err(
            ReplicationRejection::SourceMismatch {
                expected: config.expected_source->0,
                actual: packet.client_id,
            },
        )
    } else if depth == DecodeDepth::KindFirst && bytes.len() > 0 && 0 < bytes[0] <= 5 {
        Err(ReplicationRejection::UnexpectedFrame)
    } else {
        match decoded_frame(bytes) {
            Err(error) => Err(ReplicationRejection::Decode(error)),
            Ok(FrameModel::Replication(frame)) => if frame.client_id != config.client_id {
                Err(
                    ReplicationRejection::TargetMismatch {
                        expected: config.client_id,
                        actual: frame.client_id,
                    },
                )
            } else {
                Ok(frame)
            },
            Ok(_) => Err(ReplicationRejection::UnexpectedFrame),
        }
    }
}

impl ReplicationReceiveStats {
    /// All counts at zero.
    pub open spec fn zero() -> Self {
        ReplicationReceiveStats {
            packets_received: 0,
            bytes_received: 0,
            frames_received: 0,
            frames_rejected_decode: 0,
            frames_rejected_unexpected: 0,
            frames_rejected_source: 0,
            frames_rejected_target: 0,
            entities_received: 0,
            components_received: 0,
        }
    }

    /// The counts once a packet of the given size was consumed.
    pub open spec fn with_bytes(self, bytes: usize) -> Self {
        ReplicationReceiveStats {
            packets_received: self.packets_received.saturating_add(1),
            bytes_received: self.bytes_received.saturating_add(bytes),
            ..self
        }
    }

    /// The counts once a packet was judged.
    pub open spec fn with_verdict(
        self,
        verdict: Result<ReplicationFrameModel, ReplicationRejection>,
    ) -> Self {
        match verdict {
            Ok(frame) => ReplicationReceiveStats {
                frames_received: self.frames_received.saturating_add(1),
                entities_received: self.entities_received.saturating_add(
                    clamp_usize(frame.entities.len()),
                ),
                components_received: self.components_received.saturating_add(
                    clamp_usize(frame.component_total()),
                ),
                ..self
            },
            Err(ReplicationRejection::Decode(_)) => ReplicationReceiveStats {
                frames_rejected_decode: self.frames_rejected_decode.saturating_add(1),
                ..self
            },
            Err(ReplicationRejection::UnexpectedFrame) => ReplicationReceiveStats {
                frames_rejected_unexpected: self.frames_rejected_unexpected.saturating_add(1),
                ..self
            },
            Err(ReplicationRejection::SourceMismatch { .. }) => ReplicationReceiveStats {
                frames_rejected_source: self.frames_rejected_source.saturating_add(1),
                ..self
            },
            Err(ReplicationRejection::TargetMismatch { .. }) => ReplicationReceiveStats {
                frames_rejected_target: self.frames_rejected_target.saturating_add(1),
                ..self
            },
        }
    }

    /// The counts once a packet was consumed and judged.
    pub open spec fn with_packet(
        self,
        config: ReplicationReceiveConfig,
        packet: InboundPacket,
        depth: DecodeDepth,
    ) -> Self {
        self.with_bytes(packet.bytes@.len() as usize).with_verdict(verdict(config, packet, depth))
    }

    /// The counts once several packets were consumed and judged.
    pub open spec fn with_packets(
        self,
        config: ReplicationReceiveConfig,
        packets: Seq<InboundPacket>,
        depth: DecodeDepth,
    ) -> Self
        decreases packets.len(),
    {
        if packets.len() == 0 {
            self
        } else {
            self.with_packets(config, packets.drop_last(), depth).with_packet(
                config,
                packets.last(),
                depth,
            )
        }
    }
}

/// Result of pumping replication packets.
#[derive(Clone, Debug, Default, PartialEq, Eq)]
pub struct ReplicationReceivePump {
    /// Packets consumed from client transport.
    pub packets_received: usize,
    /// Bytes consumed from client transport.
    pub bytes_received: usize,
    /// Decoded replication frames.
    pub frames: Vec<ReplicationFrame>,
}

impl ReplicationReceivePump {
    /// Returns accepted frame count.
    pub fn frames_received(&self) -> (count: usize)
        ensures
            count == self.frames@.len(),
    {
        self.frames.len()
    }

    /// Returns received entity delta count.
    pub fn entities_received(&self) -> (count: usize)
        ensures
            count == clamp_usize(frames_entity_total(self.frames@)),
    {
        count_frame_entities(&self.frames)
    }

    /// Returns received component delta count.
    pub fn components_received(&self) -> (count: usize)
        ensures
            count == clamp_usize(frames_component_total(self.frames@)),
    {
        count_frame_components(&self.frames)
    }
}

/// Allocation-free summary from visiting replication packets immediately.
#[derive(Clone, Copy, Debug, Default, PartialEq, Eq, Structural)]
pub struct ReplicationReceiveVisitReport {
    /// Packets consumed from client transport.
    pub packets_received: usize,
    /// Bytes consumed from client transport.
    pub bytes_received: usize,
    /// Replication frames accepted and passed to the visitor.
    pub frames_received: usize,
    /// Entity deltas observed across accepted frames.
    pub entities_received: usize,
    /// Component deltas observed across accepted frames.
    pub components_received: usize,
}

/// The part of receive statistics that a visit reports.
pub open spec fn visit_report(stats: ReplicationReceiveStats) -> ReplicationReceiveVisitReport {
    ReplicationReceiveVisitReport {
        packets_received: stats.packets_received,
        bytes_received: stats.bytes_received,
        frames_received: stats.frames_received,
        entities_received: stats.entities_received,
        components_received: stats.components_received,
    }
}

/// The visitor took a frame with the given contents.
pub open spec fn was_visited<V, F: FnMut(ReplicationFrameRef<'_>) -> Result<(), V>>(
    visitor: F,
    frame: ReplicationFrameModel,
) -> bool {
    exists|visited: ReplicationFrameRef<'_>, outcome: Result<(), V>|
        #![trigger call_ensures(visitor, (visited,), outcome)]
        call_ensures(visitor, (visited,), outcome) && outcome is Ok && visited.wf()
            && visited.model() == frame
}

/// The visitor refused a frame with the given contents.
pub open spec fn visit_failed<V, F: FnMut(ReplicationFrameRef<'_>) -> Result<(), V>>(
    visitor: F,
    frame: ReplicationFrameModel,
    error: V,
) -> bool {
    exists|visited: ReplicationFrameRef<'_>, outcome: Result<(), V>|
        #![trigger call_ensures(visitor, (visited,), outcome)]
        call_ensures(visitor, (visited,), outcome) && outcome == Err::<(), V>(error) && visited.wf()
            && visited.model() == frame
}

/// Every packet up to the last one was accepted.
pub open spec fn accepted_before_last(
    config: ReplicationReceiveConfig,
    packets: Seq<InboundPacket>,
    depth: DecodeDepth,
) -> bool {
    forall|i: int|
        0 <= i < packets.len() - 1 ==> verdict(config, #[trigger] packets[i], depth) is Ok
}

/// Bridge between client packet transport and decoded replication frames.
#[derive(Clone, Debug)]
pub struct ReplicationReceiveBridge {
    /// Configuration.
    pub config: ReplicationReceiveConfig,
    /// Accumulated statistics.
    pub stats: ReplicationReceiveStats,
}

impl ReplicationReceiveBridge {
    /// Creates a receive bridge.
    pub fn new(config: ReplicationReceiveConfig) -> (bridge: Self)
        ensures
            bridge.config == config,
            bridge.stats == ReplicationReceiveStats::zero(),
    {
        Self {
            config,
            stats: ReplicationReceiveStats {
                packets_received: 0,
                bytes_received: 0,
                frames_received: 0,
                frames_rejected_decode: 0,
                frames_rejected_unexpected: 0,
                frames_rejected_source: 0,
                frames_rejected_target: 0,
                entities_received: 0,
                components_received: 0,
            },
        }
    }

    /// Returns configuration.
    pub fn config(&self) -> (config: ReplicationReceiveConfig)
        ensures
            config == self.config,
    {
        self.config
    }

    /// Returns accumulated statistics.
    pub fn stats(&self) -> (stats: ReplicationReceiveStats)
        ensures
            stats == self.stats,
    {
        self.stats
    }

    fn count_packet(&mut self, packet: &InboundPacket)
        ensures
            final(self).config == old(self).config,
            final(self).stats == old(self).stats.with_bytes(packet.bytes@.len() as usize),
    {
        self.stats.packets_received = self.stats.packets_received.saturating_add(1);
        self.stats.bytes_received = self.stats.bytes_received.saturating_add(packet.bytes.len());
    }

    fn check_source(&mut self, packet: &InboundPacket) -> (result: Result<(), ReplicationRejection>)
        ensures
            final(self).config == old(self).config,
            match result {
                Ok(()) => {
                    &&& old(self).config.expected_source is Some ==> packet.client_id == old(
                        self,
                    ).config.expected_source
                    &&& final(self).stats == old(self).stats
                },
                Err(rejection) => {
                    &&& old(self).config.expected_source is Some
                    &&& packet.client_id != old(self).config.expected_source
                    &&& rejection == (ReplicationRejection::SourceMismatch {
                        expected: old(self).config.expected_source->0,
                        actual: packet.client_id,
                    })
                    &&& final(self).stats == old(self).stats.with_verdict(Err(rejection))
                },
            },
    {
        if let Some(expected) = self.config.expected_source {
            let matches: bool = match packet.client_id {
                Some(actual) => actual.0 == expected.0,
                None => false,
            };
            if !matches {
                self.stats.frames_rejected_source =
                self.stats.frames_rejected_source.saturating_add(1);
                return Err(
                    ReplicationRejection::SourceMismatch { expected, actual: packet.client_id },
                );
            }
        }
        Ok(())
    }

    fn check_target(&mut self, client_id: ClientId) -> (result: Result<(), ReplicationRejection>)
        ensures
            final(self).config == old(self).config,
            match result {
                Ok(()) => client_id == old(self).config.client_id && final(self).stats == old(
                    self,
                ).stats,
                Err(rejection) => {
                    &&& client_id != old(self).config.client_id
                    &&& rejection == (ReplicationRejection::TargetMismatch {
                        expected: old(self).config.client_id,
                        actual: client_id,
                    })
                    &&& final(self).stats == old(self).stats.with_verdict(Err(rejection))
                },
            },
    {
        if client_id.0 != self.config.client_id.0 {
            self.stats.frames_rejected_target = self.stats.frames_rejected_target.saturating_add(1);
            return Err(
                ReplicationRejection::TargetMismatch {
                    expected: self.config.client_id,
                    actual: client_id,
                },
            );
        }
        Ok(())
    }

    fn count_frame(&mut self, entities: usize, components: usize)
        ensures
            final(self).config == old(self).config,
            final(self).stats == (ReplicationReceiveStats {
                frames_received: old(self).stats.frames_received.saturating_add(1),
                entities_received: old(self).stats.entities_received.saturating_add(entities),
                components_received: old(self).stats.components_received.saturating_add(components),
                ..old(self).stats
            }),
    {
        self.stats.frames_received = self.stats.frames_received.saturating_add(1);
        self.stats.entities_received = self.stats.entities_received.saturating_add(entities);
        self.stats.components_received = self.stats.components_received.saturating_add(components);
    }

    /// Consumes one packet and decodes it into an owned frame.
    pub fn accept(&mut self, packet: &InboundPacket) -> (result: Result<
        ReplicationFrame,
        ReplicationRejection,
    >)
        ensures
            final(self).config == old(self).config,
            final(self).stats == old(self).stats.with_packet(
                old(self).config,
                *packet,
                DecodeDepth::Whole,
            ),
            match verdict(old(self).config, *packet, DecodeDepth::Whole) {
                Ok(model) => result matches Ok(frame) && frame@ == model,
                Err(rejection) => result == Err::<ReplicationFrame, ReplicationRejection>(
                    rejection,
                ),
            },
    {
        self.count_packet(packet);
        self.check_source(packet)?;
        let mut decoder = BinaryFrameDecoder;
        let frame = match decoder.decode(packet.bytes.as_slice()) {
            Ok(RuntimeFrame::Replication(frame)) => frame,
            Ok(_) => {
                self.stats.frames_rejected_unexpected =
                self.stats.frames_rejected_unexpected.saturating_add(1);
                return Err(ReplicationRejection::UnexpectedFrame);
            },
            Err(error) => {
                self.stats.frames_rejected_decode =
                self.stats.frames_rejected_decode.saturating_add(1);
                return Err(ReplicationRejection::Decode(error));
            },
        };
        self.check_target(frame.client_id)?;
        self.count_frame(frame.entities.len(), count_delta_components(&frame.entities));
        Ok(frame)
    }

    /// Consumes one packet and borrows the frame in it.
    pub fn accept_ref<'a>(&mut self, packet: &'a InboundPacket) -> (result: Result<
        ReplicationFrameRef<'a>,
        ReplicationRejection,
    >)
        ensures
            final(self).config == old(self).config,
            final(self).stats == old(self).stats.with_packet(
                old(self).config,
                *packet,
                DecodeDepth::KindFirst,
            ),
            match verdict(old(self).config, *packet, DecodeDepth::KindFirst) {
                Ok(model) => result matches Ok(frame) && frame.wf() && frame.model() == model,
                Err(rejection) => result == Err::<ReplicationFrameRef<'a>, ReplicationRejection>(
                    rejection,
                ),
            },
    {
        self.count_packet(packet);
        self.check_source(packet)?;
        let decoder = BinaryFrameDecoder;
        let frame = match decoder.decode_replication(packet.bytes.as_slice()) {
            Ok(frame) => frame,
            Err(ReplicationFrameRefDecodeError::Binary(error)) => {
                self.stats.frames_rejected_decode =
                self.stats.frames_rejected_decode.saturating_add(1);
                return Err(ReplicationRejection::Decode(error));
            },
            Err(ReplicationFrameRefDecodeError::UnexpectedFrameKind(_)) => {
                self.stats.frames_rejected_unexpected =
                self.stats.frames_rejected_unexpected.saturating_add(1);
                return Err(ReplicationRejection::UnexpectedFrame);
            },
        };
        self.check_target(frame.client_id)?;
        let entities = frame.entities();
        self.count_frame(frame.encoded_entity_count(), count_components(&entities));
        Ok(frame)
    }

    /// What receiving the given packets comes to.
    pub open spec fn pumped<T: TransportReceiver>(
        self,
        before: Self,
        max_packets: usize,
        packets: Seq<InboundPacket>,
        answers: Seq<Result<Option<InboundPacket>, T::Error>>,
        result: Result<ReplicationReceivePump, ReplicationReceiveError<T::Error>>,
    ) -> bool {
        let config = before.config;
        let depth = DecodeDepth::Whole;
        let zero = ReplicationReceiveStats::zero();
        let all = packets.len() > 0 ==> verdict(config, packets.last(), depth) is Ok;
        &&& self.config == config
        &&& self.stats == before.stats.with_packets(config, packets, depth)
        &&& packets.len() <= max_packets
        &&& accepted_before_last(config, packets, depth)
        &&& match result {
            Ok(pump) => {
                &&& all
                &&& handed_out(
                    answers,
                    packets,
                    if packets.len() == max_packets {
                        None
                    } else {
                        Some(Ok(None))
                    },
                )
                &&& pump.packets_received == zero.with_packets(
                    config,
                    packets,
                    depth,
                ).packets_received
                &&& pump.bytes_received == zero.with_packets(config, packets, depth).bytes_received
                &&& pump.frames@.len() == packets.len()
                &&& forall|i: int|
                    0 <= i < packets.len() ==> (#[trigger] pump.frames@[i])@ == verdict(
                        config,
                        packets[i],
                        depth,
                    )->Ok_0
            },
            Err(ReplicationReceiveError::Transport(error)) => {
                &&& all
                &&& packets.len() < max_packets
                &&& handed_out(answers, packets, Some(Err(error)))
            },
            Err(error) => {
                &&& packets.len() > 0
                &&& handed_out(answers, packets, None)
                &&& verdict(config, packets.last(), depth) matches Err(rejection)
                &&& error == rejection.error::<T::Error>()
            },
        }
    }

    /// Receives and decodes up to `max_packets` replication frames.
    ///
    /// The packets are taken in the order in which the transport hands them out. The first that is
    /// rejected, or the first failure of the transport, ends the pass with its error.
    pub fn pump_owned<T: TransportReceiver>(&mut self, transport: &mut T, max_packets: usize) -> (result:
        Result<ReplicationReceivePump, ReplicationReceiveError<T::Error>>)
        ensures
            exists|
                packets: Seq<InboundPacket>,
                answers: Seq<Result<Option<InboundPacket>, T::Error>>,
                links: Seq<T>,
            |
                {
                    &&& #[trigger] final(self).pumped::<T>(
                        *old(self),
                        max_packets,
                        packets,
                        answers,
                        result,
                    )
                    &&& #[trigger] linked(links, answers, *old(transport), *final(transport))
                    &&& forall|i: int| #[trigger]
                        asked(answers, i) ==> exists|receiver: &mut T| #[trigger]
                            call_ensures(T::try_recv, (receiver,), answers[i]) && *receiver == links[i]
                                && *final(receiver) == links[i + 1]
                },
    {
        let ghost before = *self;
        let ghost config = self.config;
        let ghost depth = DecodeDepth::Whole;
        let ghost zero = ReplicationReceiveStats::zero();
        let ghost mut packets: Seq<InboundPacket> = Seq::empty();
        let ghost mut answers: Seq<Result<Option<InboundPacket>, T::Error>> = Seq::empty();
        let ghost mut links: Seq<T> = seq![*transport];
        let mut pump = ReplicationReceivePump {
            packets_received: 0,
            bytes_received: 0,
            frames: Vec::new(),
        };
        let mut taken: usize = 0;
        while taken < max_packets
            invariant
                before == *old(self),
                config == before.config,
                depth == DecodeDepth::Whole,
                zero == ReplicationReceiveStats::zero(),
                taken <= max_packets,
                packets.len() == taken,
                pump.frames@.len() == taken,
                self.config == config,
                self.stats == before.stats.with_packets(config, packets, depth),
                pump.packets_received == zero.with_packets(
                    config,
                    packets,
                    depth,
                ).packets_received,
                pump.bytes_received == zero.with_packets(config, packets, depth).bytes_received,
                handed_out(answers, packets, None),
                linked(links, answers, *old(transport), *transport),
                forall|i: int| #[trigger]
                    asked(answers, i) ==> exists|receiver: &mut T| #[trigger]
                        call_ensures(T::try_recv, (receiver,), answers[i]) && *receiver == links[i]
                            && *final(receiver) == links[i + 1],
                forall|i: int|
                    0 <= i < taken ==> verdict(config, #[trigger] packets[i], depth) is Ok,
                forall|i: int|
                    0 <= i < taken ==> (#[trigger] pump.frames@[i])@ == verdict(
                        config,
                        packets[i],
                        depth,
                    )->Ok_0,
            decreases max_packets - taken,
        {
            let answer = transport.try_recv();
            proof {
                lemma_received(links, answers, *transport, answer);
                links = links.push(*transport);
                answers = answers.push(answer);
            }
            assert(linked(links, answers, *old(transport), *transport));
            let packet = match answer {
                Ok(Some(packet)) => packet,
                Ok(None) => {
                    let ended = Ok(pump);
                    assert(self.pumped::<T>(before, max_packets, packets, answers, ended));
                    return ended;
                },
                Err(error) => {
                    let ended = Err(ReplicationReceiveError::Transport(error));
                    assert(self.pumped::<T>(before, max_packets, packets, answers, ended));
                    return ended;
                },
            };
            let ghost next = packets.push(packet);
            proof {
                assert(next.drop_last() =~= packets);
            }
            pump.packets_received = pump.packets_received.saturating_add(1);
            pump.bytes_received = pump.bytes_received.saturating_add(packet.bytes.len());
            match self.accept(&packet) {
                Ok(frame) => {
                    pump.frames.push(frame);
                },
                Err(rejection) => {
                    let ended = Err(rejection.into_error());
                    assert(self.pumped::<T>(before, max_packets, next, answers, ended));
                    return ended;
                },
            }
            taken = taken + 1;
            proof {
                packets = next;
            }
        }
        let ended = Ok(pump);
        assert(self.pumped::<T>(before, max_packets, packets, answers, ended));
        ended
    }

    /// What receiving and visiting the given packets comes to.
    pub open spec fn visited<T: TransportReceiver, V, F: FnMut(ReplicationFrameRef<'_>) -> Result<
        (),
        V,
    >>(
        self,
        before: Self,
        max_packets: usize,
        visitor: F,
        packets: Seq<InboundPacket>,
        answers: Seq<Result<Option<InboundPacket>, T::Error>>,
        result: Result<ReplicationReceiveVisitReport, ReplicationReceiveVisitError<T::Error, V>>,
    ) -> bool {
        let config = before.config;
        let depth = DecodeDepth::KindFirst;
        let zero = ReplicationReceiveStats::zero();
        let last = verdict(config, packets.last(), depth);
        let all = packets.len() > 0 ==> last is Ok && was_visited::<V, F>(visitor, last->Ok_0);
        &&& self.config == config
        &&& self.stats == before.stats.with_packets(config, packets, depth)
        &&& packets.len() <= max_packets
        &&& accepted_before_last(config, packets, depth)
        &&& forall|i: int|
            0 <= i < packets.len() - 1 ==> was_visited::<V, F>(
                visitor,
                verdict(config, #[trigger] packets[i], depth)->Ok_0,
            )
        &&& match result {
            Ok(report) => {
                &&& all
                &&& handed_out(
                    answers,
                    packets,
                    if packets.len() == max_packets {
                        None
                    } else {
                        Some(Ok(None))
                    },
                )
                &&& report == visit_report(zero.with_packets(config, packets, depth))
            },
            Err(
                ReplicationReceiveVisitError::Receive(ReplicationReceiveError::Transport(error)),
            ) => {
                &&& all
                &&& packets.len() < max_packets
                &&& handed_out(answers, packets, Some(Err(error)))
            },
            Err(ReplicationReceiveVisitError::Receive(error)) => {
                &&& packets.len() > 0
                &&& handed_out(answers, packets, None)
                &&& last matches Err(rejection)
                &&& error == rejection.error::<T::Error>()
            },
            Err(ReplicationReceiveVisitError::Visitor(error)) => {
                &&& packets.len() > 0
                &&& handed_out(answers, packets, None)
                &&& last matches Ok(frame)
                &&& visit_failed::<V, F>(visitor, frame, error)
            },
        }
    }

    /// Receives validated replication frames and visits borrowed deltas without materializing
    /// nested owned frame storage.
    ///
    /// The visitor gets no frame but those for this client, so it need only take those. It must
    /// consume borrowed component bytes before returning. Its error is surfaced
    /// separately from transport and frame-validation errors. A frame is counted as accepted after
    /// source/wire/target validation and before visitor invocation; accumulated bridge statistics
    /// are not rolled back when the visitor returns an error.
    pub fn pump<T: TransportReceiver, V, F: FnMut(ReplicationFrameRef<'_>) -> Result<(), V>>(
        &mut self,
        transport: &mut T,
        max_packets: usize,
        visitor: F,
    ) -> (result: Result<
        ReplicationReceiveVisitReport,
        ReplicationReceiveVisitError<T::Error, V>,
    >)
        requires
            forall|frame: ReplicationFrameRef<'_>|
                frame.wf() && frame.model().client_id == old(self).config.client_id
                    ==> #[trigger] call_requires(visitor, (frame,)),
        ensures
            exists|
                packets: Seq<InboundPacket>,
                answers: Seq<Result<Option<InboundPacket>, T::Error>>,
                links: Seq<T>,
            |
                {
                    &&& #[trigger] final(self).visited::<T, V, F>(
                        *old(self),
                        max_packets,
                        visitor,
                        packets,
                        answers,
                        result,
                    )
                    &&& #[trigger] linked(links, answers, *old(transport), *final(transport))
                    &&& forall|i: int| #[trigger]
                        asked(answers, i) ==> exists|receiver: &mut T| #[trigger]
                            call_ensures(T::try_recv, (receiver,), answers[i]) && *receiver == links[i]
                                && *final(receiver) == links[i + 1]
                },
    {
        let ghost before = *self;
        let mut visit = visitor;
        let ghost config = self.config;
        let ghost depth = DecodeDepth::KindFirst;
        let ghost zero = ReplicationReceiveStats::zero();
        let ghost mut packets: Seq<InboundPacket> = Seq::empty();
        let ghost mut answers: Seq<Result<Option<InboundPacket>, T::Error>> = Seq::empty();
        let ghost mut links: Seq<T> = seq![*transport];
        let mut report = ReplicationReceiveVisitReport {
            packets_received: 0,
            bytes_received: 0,
            frames_received: 0,
            entities_received: 0,
            components_received: 0,
        };
        let mut taken: usize = 0;
        while taken < max_packets
            invariant
                before == *old(self),
                visit == visitor,
                config == before.config,
                depth == DecodeDepth::KindFirst,
                zero == ReplicationReceiveStats::zero(),
                taken <= max_packets,
                packets.len() == taken,
                self.config == config,
                self.stats == before.stats.with_packets(config, packets, depth),
                report == visit_report(zero.with_packets(config, packets, depth)),
                handed_out(answers, packets, None),
                linked(links, answers, *old(transport), *transport),
                forall|i: int| #[trigger]
                    asked(answers, i) ==> exists|receiver: &mut T| #[trigger]
                        call_ensures(T::try_recv, (receiver,), answers[i]) && *receiver == links[i]
                            && *final(receiver) == links[i + 1],
                forall|i: int|
                    0 <= i < taken ==> verdict(config, #[trigger] packets[i], depth) is Ok,
                forall|i: int|
                    0 <= i < taken ==> was_visited::<V, F>(
                        visitor,
                        verdict(config, #[trigger] packets[i], depth)->Ok_0,
                    ),
                forall|frame: ReplicationFrameRef<'_>|
                    frame.wf() && frame.model().client_id == config.client_id
                        ==> #[trigger] call_requires(visitor, (frame,)),
            decreases max_packets - taken,
        {
            let answer = transport.try_recv();
            proof {
                lemma_received(links, answers, *transport, answer);
                links = links.push(*transport);
                answers = answers.push(answer);
            }
            assert(linked(links, answers, *old(transport), *transport));
            let packet = match answer {
                Ok(Some(packet)) => packet,
                Ok(None) => {
                    let ended = Ok(report);
                    assert(self.visited::<T, V, F>(before, max_packets, visitor, packets, answers, ended));
                    return ended;
                },
                Err(error) => {
                    let ended = Err(
                        ReplicationReceiveVisitError::Receive(
                            ReplicationReceiveError::Transport(error),
                        ),
                    );
                    assert(self.visited::<T, V, F>(before, max_packets, visitor, packets, answers, ended));
                    return ended;
                },
            };
            let ghost next = packets.push(packet);
            proof {
                assert(next.drop_last() =~= packets);
            }
            report.packets_received = report.packets_received.saturating_add(1);
            report.bytes_received = report.bytes_received.saturating_add(packet.bytes.len());
            let frame = match self.accept_ref(&packet) {
                Ok(frame) => frame,
                Err(rejection) => {
                    let ended = Err(ReplicationReceiveVisitError::Receive(rejection.into_error()));
                    assert(self.visited::<T, V, F>(before, max_packets, visitor, next, answers, ended));
                    return ended;
                },
            };
            let entities: usize = frame.encoded_entity_count();
            let components: usize = count_components(&frame.entities());
            report.frames_received = report.frames_received.saturating_add(1);
            report.entities_received = report.entities_received.saturating_add(entities);
            report.components_received = report.components_received.saturating_add(components);
            let ghost model = frame.model();
            match visit(frame) {
                Ok(()) => {},
                Err(error) => {
                    assert(visit_failed::<V, F>(visitor, model, error));
                    let ended = Err(ReplicationReceiveVisitError::Visitor(error));
                    assert(self.visited::<T, V, F>(before, max_packets, visitor, next, answers, ended));
                    return ended;
                },
            }
            assert(was_visited::<V, F>(visitor, model));
            taken = taken + 1;
            proof {
                packets = next;
            }
        }
        let ended = Ok(report);
        assert(self.visited::<T, V, F>(before, max_packets, visitor, packets, answers, ended));
        ended
    }
}

/// As many packets are counted as accepted or rejected as were received.
pub open spec fn balanced(stats: ReplicationReceiveStats) -> bool {
    stats.frames_received + stats.frames_rejected_decode
        + stats.frames_rejected_unexpected + stats.frames_rejected_source
        + stats.frames_rejected_target == stats.packets_received
}

/// Packets received over several calls.
pub open spec fn call_total(calls: Seq<(Seq<InboundPacket>, DecodeDepth)>) -> nat
    decreases calls.len(),
{
    if calls.len() == 0 {
        0
    } else {
        call_total(calls.drop_last()) + calls.last().0.len()
    }
}

/// The counts of a new bridge once several calls received these packets.
pub open spec fn counted_over(config: ReplicationReceiveConfig, calls: Seq<(Seq<InboundPacket>, DecodeDepth)>) -> ReplicationReceiveStats
    decreases calls.len(),
{
    if calls.len() == 0 {
        ReplicationReceiveStats::zero()
    } else {
        counted_over(config, calls.drop_last()).with_packets(config, calls.last().0, calls.last().1)
    }
}

proof fn lemma_balance(
    stats: ReplicationReceiveStats,
    config: ReplicationReceiveConfig,
    packets: Seq<InboundPacket>,
    depth: DecodeDepth,
)
    requires
        balanced(stats),
        stats.packets_received + packets.len() <= usize::MAX,
    ensures
        balanced(stats.with_packets(config, packets, depth)),
        stats.with_packets(config, packets, depth).packets_received == stats.packets_received
            + packets.len(),
    decreases packets.len(),
{
    if packets.len() > 0 {
        lemma_balance(stats, config, packets.drop_last(), depth);
        let judged = verdict(config, packets.last(), depth);
        assert(judged is Ok || judged is Err);
    }
}

/// Over any calls, however they end, every received packet is counted once: as an accepted frame, or
/// under the reason for which it was rejected.
pub proof fn law_every_packet_is_counted_once(config: ReplicationReceiveConfig, calls: Seq<(Seq<InboundPacket>, DecodeDepth)>)
    requires
        call_total(calls) <= usize::MAX,
    ensures
        counted_over(config, calls).packets_received == call_total(calls),
        balanced(counted_over(config, calls)),
    decreases calls.len(),
{
    if calls.len() > 0 {
        law_every_packet_is_counted_once(config, calls.drop_last());
        lemma_balance(counted_over(config, calls.drop_last()), config, calls.last().0, calls.last().1);
    }
}

/// A replication frame for this client is accepted as it was encoded, however far the packet is
/// decoded first.
pub proof fn law_sent_frames_are_accepted(
    config: ReplicationReceiveConfig,
    frame: ReplicationFrameModel,
    packet: InboundPacket,
    depth: DecodeDepth,
)
    requires
        frame_bytes(FrameModel::Replication(frame)).1 is None,
        packet.bytes@ == frame_bytes(FrameModel::Replication(frame)).0,
        config.expected_source is None || packet.client_id == config.expected_source,
        frame.client_id == config.client_id,
    ensures
        verdict(config, packet, depth) == Ok::<ReplicationFrameModel, ReplicationRejection>(frame),
{
    law_decode_inverts_encode(FrameModel::Replication(frame));
    assert(packet.bytes@[0] == 0);
}

} // verus!
