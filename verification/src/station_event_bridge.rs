//! Station events carried by the station packet transport.

use vstd::prelude::*;
use vstd::std_specs::convert::FromSpecImpl;

use crate::event_router::{
    EventRouter, EventRouterError, EventRouterStats, PushOutcome, StationEventQueue,
};
use crate::frames::{FrameDecoder, FrameEncoder, FrameModel, RuntimeFrame, StationEventFrame};
use crate::ids::{StationEvent, StationId};
use crate::num::clamp_usize;
use crate::packets::{
    asked, handed_out, lemma_received_for, linked, received_bytes_total, StationInboundPacket,
    StationOutboundPacket, StationTransportReceiver, StationTransportSink,
};
use crate::wire_codec::{BinaryFrameDecoder, BinaryFrameEncoder};
use crate::wire_spec::{decoded_frame, station_event_bytes, BinaryDecodeError, BinaryEncodeError};

verus! {

/// Statistics for station event transport bridging.
#[derive(Clone, Copy, Debug, Default, PartialEq, Eq, Structural)]
pub struct StationEventTransportStats {
    /// Events encoded and submitted to station transport.
    pub events_sent: usize,
    /// Bytes submitted to station transport.
    pub bytes_sent: usize,
    /// Packets received from station transport.
    pub packets_received: usize,
    /// Bytes received from station transport.
    pub bytes_received: usize,
    /// Events decoded and accepted by the target router.
    pub events_routed: usize,
}

impl StationEventTransportStats {
    /// All counts at zero.
    pub open spec fn zero() -> Self {
        StationEventTransportStats {
            events_sent: 0,
            bytes_sent: 0,
            packets_received: 0,
            bytes_received: 0,
            events_routed: 0,
        }
    }

    /// The counts once an event of the given size was sent.
    pub open spec fn with_sent(self, bytes: usize) -> Self {
        StationEventTransportStats {
            events_sent: self.events_sent.saturating_add(1),
            bytes_sent: self.bytes_sent.saturating_add(bytes),
            ..self
        }
    }

    /// The counts once a pass came to this report.
    pub open spec fn with_report(self, report: StationEventPumpReport) -> Self {
        StationEventTransportStats {
            packets_received: self.packets_received.saturating_add(report.packets_received),
            bytes_received: self.bytes_received.saturating_add(report.bytes_received),
            events_routed: self.events_routed.saturating_add(report.events_routed),
            ..self
        }
    }
}

/// Result of pumping station event packets for one target.
#[derive(Clone, Copy, Debug, Default, PartialEq, Eq, Structural)]
pub struct StationEventPumpReport {
    /// Target station pumped.
    pub target_station: StationId,
    /// Packets consumed from the station transport.
    pub packets_received: usize,
    /// Bytes consumed from the station transport.
    pub bytes_received: usize,
    /// Events accepted by the target router.
    pub events_routed: usize,
}

/// Why a packet is not taken as an event.
#[derive(Clone, Debug, PartialEq, Eq)]
pub enum EventRejection {
    /// Wire decoding failed.
    Decode(BinaryDecodeError),
    /// Packet decoded as a non-event frame.
    UnexpectedFrame,
    /// Packet envelope and decoded event disagreed about endpoints.
    EndpointMismatch {
        /// Packet source station.
        packet_source: StationId,
        /// Packet target station.
        packet_target: StationId,
        /// Decoded event source station.
        event_source: StationId,
        /// Decoded event target station.
        event_target: StationId,
    },
}

/// Error produced while bridging station events through packet transport.
#[derive(Clone, Debug, PartialEq, Eq)]
pub enum StationEventTransportError<E, R> {
    /// Underlying station transport failed.
    Transport(E),
    /// Wire encoding failed.
    Encode(BinaryEncodeError),
    /// Wire decoding failed.
    Decode(BinaryDecodeError),
    /// Packet decoded as a non-event frame.
    UnexpectedFrame,
    /// Packet envelope and decoded event disagreed about endpoints.
    EndpointMismatch {
        /// Packet source station.
        packet_source: StationId,
        /// Packet target station.
        packet_target: StationId,
        /// Decoded event source station.
        event_source: StationId,
        /// Decoded event target station.
        event_target: StationId,
    },
    /// Event router rejected the decoded event.
    Router(EventRouterError<R>),
}

impl<E, R> From<BinaryEncodeError> for StationEventTransportError<E, R> {
    fn from(error: BinaryEncodeError) -> (converted: Self) {
        Self::Encode(error)
    }
}

impl<E, R> FromSpecImpl<BinaryEncodeError> for StationEventTransportError<E, R> {
    open spec fn obeys_from_spec() -> bool {
        true
    }

    open spec fn from_spec(error: BinaryEncodeError) -> Self {
        StationEventTransportError::Encode(error)
    }
}

impl<E, R> From<BinaryDecodeError> for StationEventTransportError<E, R> {
    fn from(error: BinaryDecodeError) -> (converted: Self) {
        Self::Decode(error)
    }
}

impl<E, R> FromSpecImpl<BinaryDecodeError> for StationEventTransportError<E, R> {
    open spec fn obeys_from_spec() -> bool {
        true
    }

    open spec fn from_spec(error: BinaryDecodeError) -> Self {
        StationEventTransportError::Decode(error)
    }
}

impl<E, R> From<EventRouterError<R>> for StationEventTransportError<E, R> {
    fn from(error: EventRouterError<R>) -> (converted: Self) {
        Self::Router(error)
    }
}

impl<E, R> FromSpecImpl<EventRouterError<R>> for StationEventTransportError<E, R> {
    open spec fn obeys_from_spec() -> bool {
        true
    }

    open spec fn from_spec(error: EventRouterError<R>) -> Self {
        StationEventTransportError::Router(error)
    }
}

impl EventRejection {
    /// The transport error that reports this rejection.
    pub open spec fn error<E, R>(self) -> StationEventTransportError<E, R> {
        match self {
            EventRejection::Decode(error) => StationEventTransportError::Decode(error),
            EventRejection::UnexpectedFrame => StationEventTransportError::UnexpectedFrame,
            EventRejection::EndpointMismatch {
                packet_source,
                packet_target,
                event_source,
                event_target,
            } => StationEventTransportError::EndpointMismatch {
                packet_source,
                packet_target,
                event_source,
                event_target,
            },
        }
    }

    /// Reports the rejection as a transport error.
    pub fn into_error<E, R>(self) -> (error: StationEventTransportError<E, R>)
        ensures
            error == self.error::<E, R>(),
    {
        match self {
            Self::Decode(error) => StationEventTransportError::Decode(error),
            Self::UnexpectedFrame => StationEventTransportError::UnexpectedFrame,
            Self::EndpointMismatch {
                packet_source,
                packet_target,
                event_source,
                event_target,
            } => StationEventTransportError::EndpointMismatch {
                packet_source,
                packet_target,
                event_source,
                event_target,
            },
        }
    }
}

/// What a packet is taken for: its bytes first, then its endpoints.
pub open spec fn event_verdict(packet: StationInboundPacket) -> Result<
    StationEvent,
    EventRejection,
> {
    match decoded_frame(packet.bytes@) {
        Err(error) => Err(EventRejection::Decode(error)),
        Ok(FrameModel::StationEvent(frame)) => if frame.source_station != packet.source_station
            || frame.target_station != packet.target_station {
            Err(
                EventRejection::EndpointMismatch {
                    packet_source: packet.source_station,
                    packet_target: packet.target_station,
                    event_source: frame.source_station,
                    event_target: frame.target_station,
                },
            )
        } else {
            Ok(frame.event())
        },
        Ok(_) => Err(EventRejection::UnexpectedFrame),
    }
}

/// Decodes the event in a packet and checks its endpoints.
pub fn decode_event(packet: &StationInboundPacket) -> (result: Result<StationEvent, EventRejection>)
    ensures
        result == event_verdict(*packet),
{
    let mut decoder = BinaryFrameDecoder;
    let frame = match decoder.decode(packet.bytes.as_slice()) {
        Ok(RuntimeFrame::StationEvent(frame)) => frame,
        Ok(_) => {
            return Err(EventRejection::UnexpectedFrame);
        },
        Err(error) => {
            return Err(EventRejection::Decode(error));
        },
    };
    if frame.source_station.0 != packet.source_station.0 || frame.target_station.0
        != packet.target_station.0 {
        return Err(
            EventRejection::EndpointMismatch {
                packet_source: packet.source_station,
                packet_target: packet.target_station,
                event_source: frame.source_station,
                event_target: frame.target_station,
            },
        );
    }
    Ok(frame.into_event())
}

/// A queue accepted an event.
pub open spec fn was_queued<Q: StationEventQueue>(event: StationEvent, queued: PushOutcome) -> bool {
    exists|queue: &mut Q, outcome: Result<PushOutcome, Q::Error>|
        #![trigger call_ensures(Q::push, (queue, event), outcome)]
        call_ensures(Q::push, (queue, event), outcome) && outcome == Ok::<PushOutcome, Q::Error>(
            queued,
        )
}

/// A queue refused an event.
pub open spec fn was_refused<Q: StationEventQueue>(event: StationEvent, error: Q::Error) -> bool {
    exists|queue: &mut Q, outcome: Result<PushOutcome, Q::Error>|
        #![trigger call_ensures(Q::push, (queue, event), outcome)]
        call_ensures(Q::push, (queue, event), outcome) && outcome == Err::<PushOutcome, Q::Error>(
            error,
        )
}

/// Router statistics once several events were queued.
pub open spec fn router_with_queued(
    stats: EventRouterStats,
    queued: Seq<PushOutcome>,
) -> EventRouterStats
    decreases queued.len(),
{
    if queued.len() == 0 {
        stats
    } else {
        router_with_queued(stats, queued.drop_last()).with_routed(queued.last())
    }
}

/// The event in the packet was queued.
#[verifier::opaque]
pub open spec fn was_routed<Q: StationEventQueue>(
    stations: Set<u128>,
    packet: StationInboundPacket,
    queued: PushOutcome,
) -> bool {
    &&& event_verdict(packet) matches Ok(event)
    &&& stations.contains(event.target.0 as u128)
    &&& was_queued::<Q>(event, queued)
}

/// The packet holds no event that can be queued.
#[verifier::opaque]
pub open spec fn routing_failed<E, Q: StationEventQueue>(
    stations: Set<u128>,
    packet: StationInboundPacket,
    error: StationEventTransportError<E, Q::Error>,
) -> bool {
    match event_verdict(packet) {
        Err(rejection) => error == rejection.error::<E, Q::Error>(),
        Ok(event) => if !stations.contains(event.target.0 as u128) {
            error == StationEventTransportError::<E, Q::Error>::Router(
                EventRouterError::MissingTarget(event.target),
            )
        } else {
            &&& error matches StationEventTransportError::Router(EventRouterError::Queue(refusal))
            &&& was_refused::<Q>(event, refusal)
        },
    }
}

/// The events in the packets were queued, each by the router as the earlier ones left it.
pub open spec fn routed_all<Q: StationEventQueue>(
    routers: Seq<EventRouter<Q>>,
    packets: Seq<StationInboundPacket>,
    queued: Seq<PushOutcome>,
) -> bool {
    &&& queued.len() == packets.len()
    &&& routers.len() == packets.len() + 1
    &&& routers.last().limits == routers[0].limits
    &&& routers.last().queues@.dom() == routers[0].queues@.dom()
    &&& routers.last().stats == router_with_queued(routers[0].stats, queued)
    &&& forall|i: int|
        0 <= i < packets.len() ==> was_routed::<Q>(
            routers[0].queues@.dom(),
            #[trigger] packets[i],
            queued[i],
        )
}

/// How a pass ends that received some packets, of which the first `done` were routed, given what the
/// transport answered.
pub open spec fn routing_ends<E, Q: StationEventQueue>(
    stations: Set<u128>,
    max_packets: usize,
    received: Seq<StationInboundPacket>,
    done: nat,
    answers: Seq<Result<Option<StationInboundPacket>, E>>,
    failure: Option<StationEventTransportError<E, Q::Error>>,
) -> bool {
    match failure {
        None => {
            &&& received.len() == done
            &&& done <= max_packets
            &&& handed_out(
                answers,
                received,
                if done == max_packets {
                    None
                } else {
                    Some(Ok(None))
                },
            )
        },
        Some(StationEventTransportError::Transport(error)) => {
            &&& received.len() == done
            &&& done < max_packets
            &&& handed_out(answers, received, Some(Err(error)))
        },
        Some(error) => {
            &&& received.len() == done + 1
            &&& done < max_packets
            &&& handed_out(answers, received, None)
            &&& routing_failed::<E, Q>(stations, received.last(), error)
        },
    }
}

/// Bridge between typed station events and bounded station packet transport.
#[derive(Clone, Debug)]
pub struct StationEventTransportBridge {
    /// Statistics.
    pub stats: StationEventTransportStats,
}

impl Default for StationEventTransportBridge {
    fn default() -> (bridge: Self)
        ensures
            bridge.stats == StationEventTransportStats::zero(),
    {
        Self {
            stats: StationEventTransportStats {
                events_sent: 0,
                bytes_sent: 0,
                packets_received: 0,
                bytes_received: 0,
                events_routed: 0,
            },
        }
    }
}

impl StationEventTransportBridge {
    /// Returns bridge statistics.
    pub fn stats(&self) -> (stats: StationEventTransportStats)
        ensures
            stats == self.stats,
    {
        self.stats
    }

    /// Encodes and sends one station event through the station transport.
    pub fn send_event<T: StationTransportSink>(
        &mut self,
        transport: &mut T,
        event: &StationEvent,
    ) -> (result: Result<(), StationEventTransportError<T::Error, ()>>)
        ensures
            exists|sink: &mut T, packet: StationOutboundPacket, outcome: Result<(), T::Error>|
                #![trigger call_ensures(T::send_station, (sink, packet), outcome)]
                {
                    &&& call_ensures(T::send_station, (sink, packet), outcome)
                    &&& *sink == *old(transport)
                    &&& *final(sink) == *final(transport)
                    &&& packet.source_station == event.source
                    &&& packet.target_station == event.target
                    &&& packet.bytes@ == station_event_bytes(StationEventFrame::of_event(*event))
                    &&& match outcome {
                        Ok(()) => {
                            &&& result is Ok
                            &&& final(self).stats == old(self).stats.with_sent(
                                packet.bytes@.len() as usize,
                            )
                        },
                        Err(error) => {
                            &&& result == Err::<(), StationEventTransportError<T::Error, ()>>(
                                StationEventTransportError::Transport(error),
                            )
                            &&& final(self).stats == old(self).stats
                        },
                    }
                },
    {
        let frame = StationEventFrame::from_event(event);
        let mut bytes: Vec<u8> = Vec::with_capacity(64);
        let mut encoder = BinaryFrameEncoder;
        match encoder.encode_station_event(&frame, &mut bytes) {
            Ok(()) => {},
            Err(error) => {
                return Err(StationEventTransportError::Encode(error));
            },
        }
        assert(bytes@ =~= station_event_bytes(frame));
        let byte_len: usize = bytes.len();
        match transport.send_station(
            StationOutboundPacket {
                source_station: event.source,
                target_station: event.target,
                bytes,
            },
        ) {
            Ok(()) => {},
            Err(error) => {
                return Err(StationEventTransportError::Transport(error));
            },
        }
        self.stats.events_sent = self.stats.events_sent.saturating_add(1);
        self.stats.bytes_sent = self.stats.bytes_sent.saturating_add(byte_len);
        Ok(())
    }

    /// Decodes a packet and routes the event in it.
    fn route_packet<E, Q: StationEventQueue>(
        router: &mut EventRouter<Q>,
        packet: &StationInboundPacket,
    ) -> (result: Result<PushOutcome, StationEventTransportError<E, Q::Error>>)
        requires
            old(router).wf(),
        ensures
            final(router).wf(),
            final(router).limits == old(router).limits,
            final(router).queues@.dom() == old(router).queues@.dom(),
            match result {
                Ok(queued) => {
                    &&& final(router).stats == old(router).stats.with_routed(queued)
                    &&& was_routed::<Q>(old(router).queues@.dom(), *packet, queued)
                    &&& event_verdict(*packet) is Ok
                    &&& exists|
                        before: &mut EventRouter<Q>,
                        outcome: Result<PushOutcome, EventRouterError<Q::Error>>,
                    |
                        #![trigger call_ensures(
                            EventRouter::<Q>::route,
                            (before, event_verdict(*packet)->Ok_0),
                            outcome,
                        )]
                        call_ensures(
                            EventRouter::<Q>::route,
                            (before, event_verdict(*packet)->Ok_0),
                            outcome,
                        ) && *before == *old(router) && *final(before) == *final(router) && outcome == Ok::<
                            PushOutcome,
                            EventRouterError<Q::Error>,
                        >(queued)
                },
                Err(error) => {
                    &&& final(router).stats == old(router).stats
                    &&& !(error is Transport)
                    &&& match error {
                        StationEventTransportError::Router(refusal) => exists|
                            before: &mut EventRouter<Q>,
                            outcome: Result<PushOutcome, EventRouterError<Q::Error>>,
                        |
                            #![trigger call_ensures(
                                EventRouter::<Q>::route,
                                (before, event_verdict(*packet)->Ok_0),
                                outcome,
                            )]
                            call_ensures(
                                EventRouter::<Q>::route,
                                (before, event_verdict(*packet)->Ok_0),
                                outcome,
                            ) && *before == *old(router) && *final(before) == *final(router) && outcome == Err::<
                                PushOutcome,
                                EventRouterError<Q::Error>,
                            >(refusal),
                        _ => *final(router) == *old(router),
                    }
                    &&& routing_failed::<E, Q>(old(router).queues@.dom(), *packet, error)
                },
            },
    {
        reveal(was_routed);
        reveal(routing_failed);
        let event = match decode_event(packet) {
            Ok(event) => event,
            Err(rejection) => {
                return Err(rejection.into_error());
            },
        };
        let ghost stations = router.queues@.dom();
        assert(stations.contains(event.target.0 as u128) <==> router.queues@.contains_key(
            event.target.0 as u128,
        ));
        match router.route(event) {
            Ok(queued) => {
                assert(router.queues@.dom() =~= stations);
                assert(was_queued::<Q>(event, queued));
                Ok(queued)
            },
            Err(error) => {
                assert(router.queues@.dom() =~= stations);
                assert(stations.contains(event.target.0 as u128) ==> (error matches
                    EventRouterError::Queue(refusal) && was_refused::<Q>(event, refusal)));
                Err(StationEventTransportError::Router(error))
            },
        }
    }

    /// Adds the counts of a pass.
    fn count(&mut self, report: &StationEventPumpReport)
        ensures
            final(self).stats == old(self).stats.with_report(*report),
    {
        self.stats.packets_received =
        self.stats.packets_received.saturating_add(report.packets_received);
        self.stats.bytes_received = self.stats.bytes_received.saturating_add(report.bytes_received);
        self.stats.events_routed = self.stats.events_routed.saturating_add(report.events_routed);
    }

    /// Receives up to `max_packets` for `target_station`, decodes station
    /// events, and routes them into `router`.
    ///
    /// The packets are taken in the order in which the transport hands them out. The first that
    /// cannot be routed, or the first failure of the transport, ends the pass with its error. The
    /// statistics count what was received and routed either way.
    pub fn pump_target<T: StationTransportReceiver, Q: StationEventQueue>(
        &mut self,
        transport: &mut T,
        router: &mut EventRouter<Q>,
        target_station: StationId,
        max_packets: usize,
    ) -> (result: Result<StationEventPumpReport, StationEventTransportError<T::Error, Q::Error>>)
        requires
            old(router).wf(),
        ensures
            final(router).wf(),
            exists|
                packets: Seq<StationInboundPacket>,
                queued: Seq<PushOutcome>,
                routers: Seq<EventRouter<Q>>,
                answers: Seq<Result<Option<StationInboundPacket>, T::Error>>,
                links: Seq<T>,
            |
                {
                    &&& #[trigger] routed_all::<Q>(
                        routers,
                        packets.take(queued.len() as int),
                        queued,
                    )
                    &&& routers[0] == *old(router)
                    &&& forall|i: int|
                        0 <= i < queued.len() ==> event_verdict(#[trigger] packets[i]) is Ok && exists|
                            before: &mut EventRouter<Q>,
                            outcome: Result<PushOutcome, EventRouterError<Q::Error>>,
                        |
                            #![trigger call_ensures(
                                EventRouter::<Q>::route,
                                (before, event_verdict(packets[i])->Ok_0),
                                outcome,
                            )]
                            call_ensures(
                                EventRouter::<Q>::route,
                                (before, event_verdict(packets[i])->Ok_0),
                                outcome,
                            ) && *before == routers[i] && *final(before) == routers[i + 1] && outcome == Ok::<
                                PushOutcome,
                                EventRouterError<Q::Error>,
                            >(queued[i])
                    &&& #[trigger] linked(links, answers, *old(transport), *final(transport))
                    &&& forall|i: int| #[trigger]
                        asked(answers, i) ==> exists|receiver: &mut T| #[trigger]
                            call_ensures(T::try_recv_station, (receiver, target_station), answers[i])
                                && *receiver == links[i] && *final(receiver) == links[i + 1]
                    &&& routing_ends::<T::Error, Q>(
                        old(router).queues@.dom(),
                        max_packets,
                        packets,
                        queued.len(),
                        answers,
                        match result {
                            Ok(_) => None,
                            Err(error) => Some(error),
                        },
                    )
                    &&& final(self).stats == old(self).stats.with_report(
                        pump_report(target_station, packets, queued.len()),
                    )
                    &&& match result {
                        Ok(report) => {
                            &&& *final(router) == routers.last()
                            &&& report == pump_report(target_station, packets, queued.len())
                        },
                        Err(StationEventTransportError::Router(refusal)) => exists|
                            before: &mut EventRouter<Q>,
                            outcome: Result<PushOutcome, EventRouterError<Q::Error>>,
                        |
                            #![trigger call_ensures(
                                EventRouter::<Q>::route,
                                (before, event_verdict(packets.last())->Ok_0),
                                outcome,
                            )]
                            call_ensures(
                                EventRouter::<Q>::route,
                                (before, event_verdict(packets.last())->Ok_0),
                                outcome,
                            ) && *before == routers.last() && *final(before) == *final(router)
                                && outcome == Err::<PushOutcome, EventRouterError<Q::Error>>(
                                refusal,
                            ),
                        Err(_) => *final(router) == routers.last(),
                    }
                },
    {
        let ghost mut routers: Seq<EventRouter<Q>> = seq![*router];
        let ghost mut packets: Seq<StationInboundPacket> = Seq::empty();
        let ghost mut queued: Seq<PushOutcome> = Seq::empty();
        let ghost mut answers: Seq<Result<Option<StationInboundPacket>, T::Error>> = Seq::empty();
        let ghost mut links: Seq<T> = seq![*transport];
        let mut report = StationEventPumpReport {
            target_station,
            packets_received: 0,
            bytes_received: 0,
            events_routed: 0,
        };
        assert(packets.take(0) =~= packets);
        while report.packets_received < max_packets
            invariant
                router.wf(),
                *self == *old(self),
                report == pump_report(target_station, packets, queued.len()),
                packets.len() == queued.len(),
                packets.len() <= max_packets,
                packets.take(queued.len() as int) == packets,
                routed_all::<Q>(routers, packets, queued),
                routers[0] == *old(router),
                routers.last() == *router,
                forall|i: int|
                    0 <= i < queued.len() ==> event_verdict(#[trigger] packets[i]) is Ok && exists|
                        before: &mut EventRouter<Q>,
                        outcome: Result<PushOutcome, EventRouterError<Q::Error>>,
                    |
                        #![trigger call_ensures(
                            EventRouter::<Q>::route,
                            (before, event_verdict(packets[i])->Ok_0),
                            outcome,
                        )]
                        call_ensures(
                            EventRouter::<Q>::route,
                            (before, event_verdict(packets[i])->Ok_0),
                            outcome,
                        ) && *before == routers[i] && *final(before) == routers[i + 1] && outcome == Ok::<
                            PushOutcome,
                            EventRouterError<Q::Error>,
                        >(queued[i]),
                handed_out(answers, packets, None),
                linked(links, answers, *old(transport), *transport),
                forall|i: int| #[trigger]
                    asked(answers, i) ==> exists|receiver: &mut T| #[trigger]
                        call_ensures(T::try_recv_station, (receiver, target_station), answers[i])
                            && *receiver == links[i] && *final(receiver) == links[i + 1],
            decreases max_packets - report.packets_received,
        {
            let answer = transport.try_recv_station(target_station);
            proof {
                lemma_received_for(target_station, links, answers, *transport, answer);
                links = links.push(*transport);
                answers = answers.push(answer);
            }
            assert(linked(links, answers, *old(transport), *transport));
            let packet = match answer {
                Ok(Some(packet)) => packet,
                Ok(None) => {
                    self.count(&report);
                    return Ok(report);
                },
                Err(error) => {
                    self.count(&report);
                    return Err(StationEventTransportError::Transport(error));
                },
            };
            report.packets_received = report.packets_received.saturating_add(1);
            report.bytes_received = report.bytes_received.saturating_add(packet.bytes.len());
            let ghost earlier = packets;
            proof {
                packets = packets.push(packet);
                assert(packets.drop_last() =~= earlier);
                assert(packets.take(queued.len() as int) =~= earlier);
            }
            let outcome = match Self::route_packet::<T::Error, Q>(router, &packet) {
                Ok(outcome) => outcome,
                Err(error) => {
                    self.count(&report);
                    return Err(error);
                },
            };
            report.events_routed = report.events_routed.saturating_add(1);
            let ghost answered = queued;
            let ghost reached = routers;
            proof {
                queued = queued.push(outcome);
                routers = routers.push(*router);
                assert(queued.drop_last() =~= answered);
                assert(packets.take(queued.len() as int) =~= packets);
            }
            assert forall|i: int|
                0 <= i < queued.len() implies event_verdict(#[trigger] packets[i]) is Ok && exists|
                    before: &mut EventRouter<Q>,
                    outcome: Result<PushOutcome, EventRouterError<Q::Error>>,
                |
                    #![trigger call_ensures(
                        EventRouter::<Q>::route,
                        (before, event_verdict(packets[i])->Ok_0),
                        outcome,
                    )]
                    call_ensures(
                        EventRouter::<Q>::route,
                        (before, event_verdict(packets[i])->Ok_0),
                        outcome,
                    ) && *before == routers[i] && *final(before) == routers[i + 1] && outcome == Ok::<
                        PushOutcome,
                        EventRouterError<Q::Error>,
                    >(queued[i]) by {
                assert(routers[i] == reached[i]);
                if i < earlier.len() {
                    assert(packets[i] == earlier[i]);
                    assert(queued[i] == answered[i]);
                    assert(routers[i + 1] == reached[i + 1]);
                }
            }
        }
        self.count(&report);
        Ok(report)
    }
}

/// The report of a pass that received these packets and routed this many of them.
pub open spec fn pump_report(
    target_station: StationId,
    packets: Seq<StationInboundPacket>,
    routed: nat,
) -> StationEventPumpReport {
    StationEventPumpReport {
        target_station,
        packets_received: packets.len() as usize,
        bytes_received: clamp_usize(received_bytes_total(packets)),
        events_routed: routed as usize,
    }
}

/// A packet that carries an event between the event's own stations is taken for that event.
pub proof fn law_sent_events_are_taken(event: StationEvent, packet: StationInboundPacket)
    requires
        packet.source_station == event.source,
        packet.target_station == event.target,
        packet.bytes@ == station_event_bytes(StationEventFrame::of_event(event)),
    ensures
        event_verdict(packet) == Ok::<StationEvent, EventRejection>(event),
{
    crate::wire_laws::law_decode_inverts_encode(FrameModel::StationEvent(StationEventFrame::of_event(event)));
}

} // verus!
