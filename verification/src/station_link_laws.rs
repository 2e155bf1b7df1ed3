//! What the links between stations promise: events and commands arrive as they were sent, and reach
//! the queue of the station that they are for.

use vstd::prelude::*;

use crate::command_dispatch_bridge::{
    decode_dispatch, delivered_all, delivery_failed, delivery_report, dispatch_verdict,
    was_answered, was_delivered, CommandDispatchPumpReport, CommandDispatchTransportBridge,
    CommandDispatchTransportError, DispatchRejection,
};
use crate::event_router::{EventRouter, EventRouterError, PushOutcome, StationEventQueue};
use crate::frames::{
    CommandDispatchFrame, DispatchModel, EnvelopeModel, FrameModel, StationEventFrame,
};
use crate::gateway::StationCommandQueue;
use crate::gateway_laws::counts;
use crate::ids::{CommandEnvelope, StationEvent, StationId};
use crate::ordered_map::OrderedMap;
use crate::packets::{
    asked, handed_out, linked, StationInboundPacket, StationOutboundPacket,
    StationTransportReceiver, StationTransportSink,
};
use crate::station_event_bridge::{
    decode_event, event_verdict, routed_all, routing_failed, was_queued, was_refused, was_routed,
    EventRejection, StationEventPumpReport, StationEventTransportBridge,
    StationEventTransportError,
};
use crate::wire_laws::law_decode_inverts_encode;
use crate::wire_spec::{decoded_frame, frame_bytes, BinaryDecodeError};

verus! {

/// The frame says everything of the event.
pub open spec fn tells(frame: StationEventFrame, event: StationEvent) -> bool {
    &&& frame.event_id == event.id
    &&& frame.source_station == event.source
    &&& frame.target_station == event.target
    &&& frame.source_tick == event.source_tick
    &&& frame.target_tick == event.target_tick
    &&& frame.priority == event.priority
    &&& frame.kind == event.kind
}

/// The packet carries this event between the event's own stations.
pub open spec fn carries_event(packet: StationInboundPacket, event: StationEvent) -> bool {
    &&& packet.source_station == event.source
    &&& packet.target_station == event.target
    &&& decoded_frame(packet.bytes@) matches Ok(FrameModel::StationEvent(frame))
    &&& tells(frame, event)
}

/// The packet carries this command to the command's own station.
pub open spec fn carries_command(packet: StationInboundPacket, command: EnvelopeModel) -> bool {
    decoded_frame(packet.bytes@) == Ok::<FrameModel, BinaryDecodeError>(
        FrameModel::CommandDispatch(
            DispatchModel { station_id: packet.target_station, envelope: command },
        ),
    )
}

/// A packet is read as the event that it carries between the event's own stations. Any other packet
/// is refused for what is wrong with it.
pub proof fn law_events_are_read_with_their_endpoints(
    packet: &StationInboundPacket,
    result: Result<StationEvent, EventRejection>,
)
    requires
        call_ensures(decode_event, (packet,), result),
    ensures
        match result {
            Ok(event) => carries_event(*packet, event),
            Err(EventRejection::Decode(error)) => decoded_frame(packet.bytes@) == Err::<
                FrameModel,
                BinaryDecodeError,
            >(error),
            Err(EventRejection::UnexpectedFrame) => decoded_frame(packet.bytes@) is Ok && !(
            decoded_frame(packet.bytes@)->Ok_0 is StationEvent),
            Err(
                EventRejection::EndpointMismatch {
                    packet_source,
                    packet_target,
                    event_source,
                    event_target,
                },
            ) => {
                &&& decoded_frame(packet.bytes@) matches Ok(FrameModel::StationEvent(frame))
                &&& packet_source == packet.source_station
                &&& packet_target == packet.target_station
                &&& event_source == frame.source_station
                &&& event_target == frame.target_station
                &&& packet_source != event_source || packet_target != event_target
            },
        },
        result is Err ==> forall|event: StationEvent| !#[trigger] carries_event(*packet, event),
{
}

/// A packet is read as the command that it carries to the command's own station. Any other packet is
/// refused for what is wrong with it.
pub proof fn law_commands_are_read_at_their_station(
    packet: &StationInboundPacket,
    result: Result<CommandDispatchFrame, DispatchRejection>,
)
    requires
        call_ensures(decode_dispatch, (packet,), result),
    ensures
        match result {
            Ok(frame) => carries_command(*packet, frame@.envelope) && frame@.station_id
                == packet.target_station,
            Err(DispatchRejection::Decode(error)) => decoded_frame(packet.bytes@) == Err::<
                FrameModel,
                BinaryDecodeError,
            >(error),
            Err(DispatchRejection::UnexpectedFrame) => decoded_frame(packet.bytes@) is Ok && !(
            decoded_frame(packet.bytes@)->Ok_0 is CommandDispatch),
            Err(
                DispatchRejection::EndpointMismatch { packet_source, packet_target, dispatch_target },
            ) => {
                &&& decoded_frame(packet.bytes@) matches Ok(FrameModel::CommandDispatch(frame))
                &&& packet_source == packet.source_station
                &&& packet_target == packet.target_station
                &&& dispatch_target == frame.station_id
                &&& packet_target != dispatch_target
            },
        },
        result is Err ==> forall|command: EnvelopeModel| !#[trigger] carries_command(
            *packet,
            command,
        ),
{
}

/// An event is sent between its own stations, in bytes that decode to the whole event. What the
/// transport took is counted, and nothing else is.
pub proof fn law_events_are_sent_whole<T: StationTransportSink>(event: &StationEvent)
    ensures
        forall|
            bridge: &mut StationEventTransportBridge,
            transport: &mut T,
            result: Result<(), StationEventTransportError<T::Error, ()>>,
        |
            #[trigger] call_ensures(
                StationEventTransportBridge::send_event::<T>,
                (bridge, transport, event),
                result,
            ) ==> {
                &&& exists|sink: &mut T, packet: StationOutboundPacket, outcome: Result<(), T::Error>|
                    #![trigger call_ensures(T::send_station, (sink, packet), outcome)]
                    {
                        &&& call_ensures(T::send_station, (sink, packet), outcome)
                        &&& *sink == *transport
                        &&& *final(sink) == *final(transport)
                        &&& packet.source_station == event.source
                        &&& packet.target_station == event.target
                        &&& decoded_frame(packet.bytes@) is Ok
                        &&& decoded_frame(packet.bytes@)->Ok_0 is StationEvent
                        &&& tells(decoded_frame(packet.bytes@)->Ok_0->StationEvent_0, *event)
                        &&& result is Ok <==> outcome is Ok
                        &&& outcome matches Err(error) ==> result == Err::<
                            (),
                            StationEventTransportError<T::Error, ()>,
                        >(StationEventTransportError::Transport(error))
                        &&& final(bridge).stats.bytes_sent == if result is Ok {
                            bridge.stats.bytes_sent.saturating_add(packet.bytes@.len() as usize)
                        } else {
                            bridge.stats.bytes_sent
                        }
                    }
                &&& counts(
                    bridge.stats.events_sent,
                    final(bridge).stats.events_sent,
                    result is Ok,
                )
                &&& final(bridge).stats.events_routed == bridge.stats.events_routed
                &&& final(bridge).stats.bytes_received == bridge.stats.bytes_received
            },
{
    law_decode_inverts_encode(FrameModel::StationEvent(StationEventFrame::of_event(*event)));
}

/// The transport was handed a packet from `source` to `target` that decodes to the command, and
/// answered this way.
pub open spec fn posts<T: StationTransportSink>(
    before: T,
    source: StationId,
    target: StationId,
    command: EnvelopeModel,
    outcome: Result<(), T::Error>,
) -> bool {
    exists|sink: &mut T, packet: StationOutboundPacket|
        #![trigger call_ensures(T::send_station, (sink, packet), outcome)]
        {
            &&& call_ensures(T::send_station, (sink, packet), outcome)
            &&& *sink == before
            &&& packet.source_station == source
            &&& packet.target_station == target
            &&& decoded_frame(packet.bytes@) == Ok::<FrameModel, BinaryDecodeError>(
                FrameModel::CommandDispatch(DispatchModel { station_id: target, envelope: command }),
            )
        }
}

/// A command is sent to its station in bytes that decode to it, with the tick at which it was
/// received. What the transport took is counted. A command that does not fit its frame reaches no
/// transport.
pub proof fn law_commands_are_sent_whole<T: StationTransportSink>(
    source: StationId,
    target: StationId,
    command: &CommandEnvelope,
)
    ensures
        forall|
            bridge: &mut CommandDispatchTransportBridge,
            transport: &mut T,
            result: Result<(), CommandDispatchTransportError<T::Error>>,
        |
            #[trigger] call_ensures(
                CommandDispatchTransportBridge::send_envelope::<T>,
                (bridge, transport, source, target, command),
                result,
            ) ==> {
                &&& result is Ok ==> exists|outcome: Result<(), T::Error>| #[trigger]
                    posts::<T>(*transport, source, target, command@, outcome) && outcome is Ok
                &&& result matches Err(CommandDispatchTransportError::Transport(error)) ==> exists|
                    outcome: Result<(), T::Error>,
                | #[trigger]
                    posts::<T>(*transport, source, target, command@, outcome) && outcome == Err::<
                        (),
                        T::Error,
                    >(error)
                &&& result matches Err(error) ==> error is Transport || error is Encode
                &&& result matches Err(CommandDispatchTransportError::Encode(_))
                    ==> *final(transport) == *transport
                &&& counts(
                    bridge.stats.commands_sent,
                    final(bridge).stats.commands_sent,
                    result is Ok,
                )
                &&& final(bridge).stats.commands_enqueued == bridge.stats.commands_enqueued
            },
        forall|
            bridge: &mut CommandDispatchTransportBridge,
            transport: &mut T,
            frame: &CommandDispatchFrame,
            result: Result<(), CommandDispatchTransportError<T::Error>>,
        |
            #[trigger] call_ensures(
                CommandDispatchTransportBridge::send_frame::<T>,
                (bridge, transport, source, frame),
                result,
            ) ==> {
                &&& result is Ok ==> exists|outcome: Result<(), T::Error>| #[trigger]
                    posts::<T>(*transport, source, frame.station_id, frame@.envelope, outcome)
                        && outcome is Ok
                &&& result matches Err(error) ==> error is Transport || error is Encode
                &&& result matches Err(CommandDispatchTransportError::Encode(_))
                    ==> *final(transport) == *transport
                &&& counts(
                    bridge.stats.commands_sent,
                    final(bridge).stats.commands_sent,
                    result is Ok,
                )
            },
{
    let model = DispatchModel { station_id: target, envelope: command@ };
    if frame_bytes(FrameModel::CommandDispatch(model)).1 is None {
        law_decode_inverts_encode(FrameModel::CommandDispatch(model));
    }
    assert forall|frame: DispatchModel| (#[trigger] frame_bytes(FrameModel::CommandDispatch(frame))).1
        is None implies decoded_frame(frame_bytes(FrameModel::CommandDispatch(frame)).0) == Ok::<
        FrameModel,
        BinaryDecodeError,
    >(FrameModel::CommandDispatch(frame)) by {
        law_decode_inverts_encode(FrameModel::CommandDispatch(frame));
    }
    assert forall|
        bridge: &mut CommandDispatchTransportBridge,
        transport: &mut T,
        result: Result<(), CommandDispatchTransportError<T::Error>>,
    |
        #[trigger] call_ensures(
            CommandDispatchTransportBridge::send_envelope::<T>,
            (bridge, transport, source, target, command),
            result,
        ) && frame_bytes(FrameModel::CommandDispatch(model)).1 is None implies exists|
        outcome: Result<(), T::Error>,
    | #[trigger]
        posts::<T>(*transport, source, target, command@, outcome) && (outcome is Ok <==> result is Ok)
            && (outcome matches Err(error) ==> result == Err::<
            (),
            CommandDispatchTransportError<T::Error>,
        >(CommandDispatchTransportError::Transport(error))) by {
        let (sink, packet, outcome) = choose|
            sink: &mut T,
            packet: StationOutboundPacket,
            outcome: Result<(), T::Error>,
        |
            #![trigger call_ensures(T::send_station, (sink, packet), outcome)]
            {
                &&& call_ensures(T::send_station, (sink, packet), outcome)
                &&& *sink == *transport
                &&& packet.source_station == source
                &&& packet.target_station == target
                &&& packet.bytes@ == frame_bytes(FrameModel::CommandDispatch(model)).0
                &&& outcome is Ok <==> result is Ok
                &&& outcome matches Err(error) ==> result == Err::<
                    (),
                    CommandDispatchTransportError<T::Error>,
                >(CommandDispatchTransportError::Transport(error))
            };
        assert(posts::<T>(*transport, source, target, command@, outcome));
    }
    assert forall|
        bridge: &mut CommandDispatchTransportBridge,
        transport: &mut T,
        frame: &CommandDispatchFrame,
        result: Result<(), CommandDispatchTransportError<T::Error>>,
    |
        #[trigger] call_ensures(
            CommandDispatchTransportBridge::send_frame::<T>,
            (bridge, transport, source, frame),
            result,
        ) && frame_bytes(FrameModel::CommandDispatch(frame@)).1 is None implies exists|
        outcome: Result<(), T::Error>,
    | #[trigger]
        posts::<T>(*transport, source, frame.station_id, frame@.envelope, outcome) && (outcome is Ok
            <==> result is Ok) by {
        let (sink, packet, outcome) = choose|
            sink: &mut T,
            packet: StationOutboundPacket,
            outcome: Result<(), T::Error>,
        |
            #![trigger call_ensures(T::send_station, (sink, packet), outcome)]
            {
                &&& call_ensures(T::send_station, (sink, packet), outcome)
                &&& *sink == *transport
                &&& packet.source_station == source
                &&& packet.target_station == frame.station_id
                &&& packet.bytes@ == frame_bytes(FrameModel::CommandDispatch(frame@)).0
                &&& outcome is Ok <==> result is Ok
            };
        assert(posts::<T>(*transport, source, frame.station_id, frame@.envelope, outcome));
    }
}

/// An event goes to the queue of its target and to no other. It is refused only where its target is
/// unknown or the queue refuses it, and only what was queued is counted.
pub proof fn law_events_reach_their_target<Q: StationEventQueue>(event: StationEvent)
    ensures
        forall|
            router: &mut EventRouter<Q>,
            result: Result<PushOutcome, EventRouterError<Q::Error>>,
        |
            #[trigger] call_ensures(EventRouter::<Q>::route, (router, event), result)
                && router.wf() ==> {
                let key = event.target.0 as u128;
                &&& !router.queues@.contains_key(key) ==> {
                    &&& result == Err::<PushOutcome, EventRouterError<Q::Error>>(
                        EventRouterError::MissingTarget(event.target),
                    )
                    &&& *final(router) == *router
                }
                &&& router.queues@.contains_key(key) ==> exists|
                    queue: &mut Q,
                    outcome: Result<PushOutcome, Q::Error>,
                |
                    #![trigger call_ensures(Q::push, (queue, event), outcome)]
                    {
                        &&& call_ensures(Q::push, (queue, event), outcome)
                        &&& *queue == router.queues@[key]
                        &&& *final(queue) == final(router).queues@[key]
                        &&& outcome matches Ok(pushed) ==> result == Ok::<
                            PushOutcome,
                            EventRouterError<Q::Error>,
                        >(pushed)
                        &&& outcome matches Err(error) ==> result == Err::<
                            PushOutcome,
                            EventRouterError<Q::Error>,
                        >(EventRouterError::Queue(error))
                    }
                &&& keep_other_queues(router.queues@, final(router).queues@, key)
                &&& result is Err ==> final(router).stats == router.stats
            },
{
}

/// Every queue but that of `key` is what it was.
pub open spec fn keep_other_queues<Q>(before: Map<u128, Q>, after: Map<u128, Q>, key: u128) -> bool {
    forall|other: u128|
        {
            &&& #[trigger] after.contains_key(other) <==> before.contains_key(other)
            &&& before.contains_key(other) && other != key ==> after[other] == before[other]
        }
}

/// The packet carries an event for a known station, and a queue took it.
pub open spec fn queues_event<Q: StationEventQueue>(
    stations: Set<u128>,
    packet: StationInboundPacket,
) -> bool {
    exists|event: StationEvent, queued: PushOutcome|
        carries_event(packet, event) && stations.contains(event.target.0 as u128)
            && #[trigger] was_queued::<Q>(event, queued)
}

/// What a pass over these packets comes to.
pub open spec fn routes_events<E, Q: StationEventQueue>(
    stations: Set<u128>,
    max_packets: usize,
    packets: Seq<StationInboundPacket>,
    answers: Seq<Result<Option<StationInboundPacket>, E>>,
    result: Result<StationEventPumpReport, StationEventTransportError<E, Q::Error>>,
) -> bool {
    &&& packets.len() <= max_packets
    &&& forall|i: int|
        0 <= i < packets.len() - 1 ==> queues_event::<Q>(stations, #[trigger] packets[i])
    &&& result matches Ok(report) ==> {
        &&& forall|i: int|
            0 <= i < packets.len() ==> queues_event::<Q>(stations, #[trigger] packets[i])
        &&& report.packets_received == packets.len()
        &&& report.events_routed == packets.len()
        &&& packets.len() < max_packets ==> handed_out(answers, packets, Some(Ok(None)))
        &&& packets.len() == max_packets ==> handed_out(answers, packets, None)
    }
    &&& result matches Err(StationEventTransportError::Transport(error)) ==> {
        &&& packets.len() < max_packets
        &&& handed_out(answers, packets, Some(Err(error)))
    }
    &&& result matches Err(error) ==> !(error is Transport) ==> {
        &&& packets.len() > 0
        &&& error matches StationEventTransportError::Router(EventRouterError::MissingTarget(target))
            ==> !stations.contains(target.0 as u128)
        &&& error matches StationEventTransportError::Router(EventRouterError::Queue(refusal))
            ==> exists|event: StationEvent| #[trigger]
            carries_event(packets.last(), event) && was_refused::<Q>(event, refusal)
        &&& !(error is Router) ==> forall|event: StationEvent| !#[trigger] carries_event(
            packets.last(),
            event,
        )
    }
}

/// A pass takes packets for the station until none is left or the limit is reached, and queues the
/// event of every one of them, in order. It ends early only with the first event that cannot be
/// queued, or when the transport fails.
pub proof fn law_passes_route_every_event<T: StationTransportReceiver, Q: StationEventQueue>(
    target: StationId,
    max_packets: usize,
)
    ensures
        forall|
            bridge: &mut StationEventTransportBridge,
            transport: &mut T,
            router: &mut EventRouter<Q>,
            result: Result<StationEventPumpReport, StationEventTransportError<T::Error, Q::Error>>,
        |
            #[trigger] call_ensures(
                StationEventTransportBridge::pump_target::<T, Q>,
                (bridge, transport, router, target, max_packets),
                result,
            ) && router.wf() ==> exists|
                packets: Seq<StationInboundPacket>,
                answers: Seq<Result<Option<StationInboundPacket>, T::Error>>,
                links: Seq<T>,
            |
                {
                    &&& #[trigger] routes_events::<T::Error, Q>(router.queues@.dom(), max_packets, packets, answers, result)
                    &&& #[trigger] linked(links, answers, *transport, *final(transport))
                    &&& forall|i: int| #[trigger]
                        asked(answers, i) ==> exists|receiver: &mut T| #[trigger]
                            call_ensures(T::try_recv_station, (receiver, target), answers[i]) && *receiver
                                == links[i] && *final(receiver) == links[i + 1]
                },
{
    reveal(was_routed);
    reveal(routing_failed);
    assert forall|
        bridge: &mut StationEventTransportBridge,
        transport: &mut T,
        router: &mut EventRouter<Q>,
        result: Result<StationEventPumpReport, StationEventTransportError<T::Error, Q::Error>>,
    |
        #[trigger] call_ensures(
            StationEventTransportBridge::pump_target::<T, Q>,
            (bridge, transport, router, target, max_packets),
            result,
        ) && router.wf() implies exists|
                packets: Seq<StationInboundPacket>,
                answers: Seq<Result<Option<StationInboundPacket>, T::Error>>,
                links: Seq<T>,
            |
                {
                    &&& #[trigger] routes_events::<T::Error, Q>(router.queues@.dom(), max_packets, packets, answers, result)
                    &&& #[trigger] linked(links, answers, *transport, *final(transport))
                    &&& forall|i: int| #[trigger]
                        asked(answers, i) ==> exists|receiver: &mut T| #[trigger]
                            call_ensures(T::try_recv_station, (receiver, target), answers[i]) && *receiver
                                == links[i] && *final(receiver) == links[i + 1]
                } by {
        let stations = router.queues@.dom();
        let failure = match result {
            Ok(_) => None,
            Err(error) => Some(error),
        };
        let (packets, queued, routers, answers, links) = choose|
            packets: Seq<StationInboundPacket>,
            queued: Seq<PushOutcome>,
            routers: Seq<EventRouter<Q>>,
            answers: Seq<Result<Option<StationInboundPacket>, T::Error>>,
            links: Seq<T>,
        |
            {
                &&& #[trigger] routed_all::<Q>(routers, packets.take(queued.len() as int), queued)
                &&& routers[0] == *router
                &&& #[trigger] crate::station_event_bridge::routing_ends::<T::Error, Q>(
                    stations,
                    max_packets,
                    packets,
                    queued.len(),
                    answers,
                    failure,
                )
                &&& result matches Ok(report) ==> report
                    == crate::station_event_bridge::pump_report(target, packets, queued.len())
                &&& #[trigger] linked(links, answers, *transport, *final(transport))
                &&& forall|i: int| #[trigger]
                    asked(answers, i) ==> exists|receiver: &mut T| #[trigger]
                        call_ensures(T::try_recv_station, (receiver, target), answers[i]) && *receiver == links[i]
                            && *final(receiver) == links[i + 1]
            };
        let done = packets.take(queued.len() as int);
        assert(queued.len() <= packets.len());
        assert forall|i: int| 0 <= i < queued.len() implies queues_event::<Q>(
            stations,
            #[trigger] packets[i],
        ) by {
            assert(done[i] == packets[i]);
            assert(was_routed::<Q>(routers[0].queues@.dom(), done[i], queued[i]));
            let event = event_verdict(packets[i])->Ok_0;
            assert(carries_event(packets[i], event));
            assert(was_queued::<Q>(event, queued[i]));
        }
        if packets.len() > 0 {
            if let Ok(event) = event_verdict(packets.last()) {
                assert(carries_event(packets.last(), event));
            }
        }
        assert(routes_events::<T::Error, Q>(stations, max_packets, packets, answers, result));
    }
}

/// The packet carries a command for a known station, and a queue took it.
pub open spec fn queues_command<Q: StationCommandQueue>(
    stations: Set<u128>,
    ingress: Q::Ingress,
    packet: StationInboundPacket,
) -> bool {
    exists|command: EnvelopeModel| #[trigger]
        carries_command(packet, command) && stations.contains(packet.target_station.0 as u128)
            && was_answered::<Q>(command, ingress, None)
}

/// What a pass over these packets comes to.
pub open spec fn queues_commands<E, Q: StationCommandQueue>(
    stations: Set<u128>,
    ingress: Q::Ingress,
    max_packets: usize,
    packets: Seq<StationInboundPacket>,
    answers: Seq<Result<Option<StationInboundPacket>, E>>,
    result: Result<CommandDispatchPumpReport, CommandDispatchTransportError<E>>,
) -> bool {
    &&& packets.len() <= max_packets
    &&& forall|i: int|
        0 <= i < packets.len() - 1 ==> queues_command::<Q>(stations, ingress, #[trigger] packets[i])
    &&& result matches Ok(report) ==> {
        &&& forall|i: int|
            0 <= i < packets.len() ==> queues_command::<Q>(stations, ingress, #[trigger] packets[i])
        &&& report.packets_received == packets.len()
        &&& report.commands_enqueued == packets.len()
        &&& packets.len() < max_packets ==> handed_out(answers, packets, Some(Ok(None)))
        &&& packets.len() == max_packets ==> handed_out(answers, packets, None)
    }
    &&& result matches Err(CommandDispatchTransportError::Transport(error)) ==> {
        &&& packets.len() < max_packets
        &&& handed_out(answers, packets, Some(Err(error)))
    }
    &&& result matches Err(error) ==> !(error is Transport) ==> {
        &&& packets.len() > 0
        &&& error matches CommandDispatchTransportError::MissingQueue(station_id) ==> {
            &&& station_id == packets.last().target_station
            &&& !stations.contains(station_id.0 as u128)
        }
        &&& error matches CommandDispatchTransportError::Queue(refusal) ==> exists|
            command: EnvelopeModel,
        | #[trigger]
            carries_command(packets.last(), command) && was_answered::<Q>(
                command,
                ingress,
                Some(refusal),
            )
        &&& !(error is MissingQueue) && !(error is Queue) ==> forall|command: EnvelopeModel|
            !#[trigger] carries_command(packets.last(), command)
    }
}

/// A pass takes packets for the station until none is left or the limit is reached, and queues the
/// command of every one of them, in order. It ends early only with the first command that cannot be
/// queued, or when the transport fails.
pub proof fn law_passes_queue_every_command<T: StationTransportReceiver, Q: StationCommandQueue>(
    target: StationId,
    max_packets: usize,
    ingress: Q::Ingress,
)
    ensures
        forall|
            bridge: &mut CommandDispatchTransportBridge,
            transport: &mut T,
            queues: &mut OrderedMap<Q>,
            result: Result<CommandDispatchPumpReport, CommandDispatchTransportError<T::Error>>,
        |
            #[trigger] call_ensures(
                CommandDispatchTransportBridge::pump_target::<T, Q>,
                (bridge, transport, queues, target, max_packets, ingress),
                result,
            ) && queues.wf() ==> exists|
                packets: Seq<StationInboundPacket>,
                answers: Seq<Result<Option<StationInboundPacket>, T::Error>>,
                links: Seq<T>,
            |
                {
                    &&& #[trigger] queues_commands::<T::Error, Q>(
                    queues@.dom(),
                    ingress,
                    max_packets,
                    packets,
                    answers,
                    result,
                )
                    &&& #[trigger] linked(links, answers, *transport, *final(transport))
                    &&& forall|i: int| #[trigger]
                        asked(answers, i) ==> exists|receiver: &mut T| #[trigger]
                            call_ensures(T::try_recv_station, (receiver, target), answers[i]) && *receiver
                                == links[i] && *final(receiver) == links[i + 1]
                },
{
    reveal(was_delivered);
    reveal(delivery_failed);
    assert forall|
        bridge: &mut CommandDispatchTransportBridge,
        transport: &mut T,
        queues: &mut OrderedMap<Q>,
        result: Result<CommandDispatchPumpReport, CommandDispatchTransportError<T::Error>>,
    |
        #[trigger] call_ensures(
            CommandDispatchTransportBridge::pump_target::<T, Q>,
            (bridge, transport, queues, target, max_packets, ingress),
            result,
        ) && queues.wf() implies exists|
                packets: Seq<StationInboundPacket>,
                answers: Seq<Result<Option<StationInboundPacket>, T::Error>>,
                links: Seq<T>,
            |
                {
                    &&& #[trigger] queues_commands::<T::Error, Q>(queues@.dom(), ingress, max_packets, packets, answers, result)
                    &&& #[trigger] linked(links, answers, *transport, *final(transport))
                    &&& forall|i: int| #[trigger]
                        asked(answers, i) ==> exists|receiver: &mut T| #[trigger]
                            call_ensures(T::try_recv_station, (receiver, target), answers[i]) && *receiver
                                == links[i] && *final(receiver) == links[i + 1]
                } by {
        let stations = queues@.dom();
        let failure = match result {
            Ok(_) => None,
            Err(error) => Some(error),
        };
        let (packets, tables, answers, links) = choose|
            packets: Seq<StationInboundPacket>,
            tables: Seq<Map<u128, Q>>,
            answers: Seq<Result<Option<StationInboundPacket>, T::Error>>,
            links: Seq<T>,
        |
            {
                &&& #[trigger] delivered_all::<Q>(
                    stations,
                    ingress,
                    packets.take(tables.len() - 1),
                    tables,
                )
                &&& #[trigger] crate::command_dispatch_bridge::delivery_ends::<T::Error, Q>(
                    stations,
                    ingress,
                    max_packets,
                    packets,
                    (tables.len() - 1) as nat,
                    answers,
                    failure,
                )
                &&& result matches Ok(report) ==> report == delivery_report(
                    target,
                    packets,
                    (tables.len() - 1) as nat,
                )
                &&& #[trigger] linked(links, answers, *transport, *final(transport))
                &&& forall|i: int| #[trigger]
                    asked(answers, i) ==> exists|receiver: &mut T| #[trigger]
                        call_ensures(T::try_recv_station, (receiver, target), answers[i]) && *receiver == links[i]
                            && *final(receiver) == links[i + 1]
            };
        let done = packets.take(tables.len() - 1);
        assert forall|i: int| 0 <= i < tables.len() - 1 implies queues_command::<Q>(
            stations,
            ingress,
            #[trigger] packets[i],
        ) by {
            assert(done[i] == packets[i]);
            assert(was_delivered::<Q>(stations, ingress, done[i]));
            let frame = dispatch_verdict(packets[i])->Ok_0;
            assert(carries_command(packets[i], frame.envelope));
        }
        if packets.len() > 0 {
            if let Ok(frame) = dispatch_verdict(packets.last()) {
                assert(carries_command(packets.last(), frame.envelope));
            }
        }
        assert(queues_commands::<T::Error, Q>(stations, ingress, max_packets, packets, answers, result));
    }
}

} // verus!
