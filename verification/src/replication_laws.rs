//! What replication promises its clients: every frame for a client is taken in order, and what is
//! sent is what was planned.

use vstd::prelude::*;

use crate::frame_builder::{countable, BuildInput, ComponentSelection};
use crate::frame_laws::{
    carries_planned, component_count, lemma_bounded_frame, misses_what_does_not_fit,
};
use crate::frame_ref::ReplicationFrameRef;
use crate::frames::{
    component_count_total, EntityDeltaModel, FrameModel, ReplicationFrame, ReplicationFrameModel,
};
use crate::gateway_laws::counts;
use crate::ids::{ClientId, EntityHandle, Tick};
use crate::packets::{
    asked, handed_out, linked, InboundPacket, OutboundPacket, TransportReceiver, TransportSink,
};
use crate::replication_bridge::{
    ReplicationTransportBridge, ReplicationTransportError, ReplicationTransportReport,
};
use crate::replication_receive::{
    verdict, visit_failed, was_visited, DecodeDepth, ReplicationReceiveBridge,
    ReplicationReceiveConfig, ReplicationReceiveError, ReplicationReceivePump,
    ReplicationReceiveStats, ReplicationReceiveVisitError, ReplicationReceiveVisitReport,
    ReplicationRejection,
};
use crate::station::{ComponentStore, ReplicationPlan, Station};
use crate::wire_laws::law_decode_inverts_encode;
use crate::wire_spec::{decoded_frame, BinaryDecodeError};

verus! {

/// The packet may come from this sender: any sender may where none is expected.
pub open spec fn is_trusted(config: ReplicationReceiveConfig, packet: InboundPacket) -> bool {
    config.expected_source matches Some(source) ==> packet.client_id == Some(source)
}

/// The packet comes from an accepted sender and holds this replication frame for this client.
pub open spec fn brings(
    config: ReplicationReceiveConfig,
    packet: InboundPacket,
    frame: ReplicationFrameModel,
) -> bool {
    &&& is_trusted(config, packet)
    &&& decoded_frame(packet.bytes@) == Ok::<FrameModel, BinaryDecodeError>(
        FrameModel::Replication(frame),
    )
    &&& frame.client_id == config.client_id
}

/// The packet holds a replication frame for this client from an accepted sender.
pub open spec fn brings_some(config: ReplicationReceiveConfig, packet: InboundPacket) -> bool {
    exists|frame: ReplicationFrameModel| #[trigger] brings(config, packet, frame)
}

/// The rejection names what is wrong with the packet. Where only the kind of another frame was looked
/// at, its bytes may be damaged behind it.
pub open spec fn is_reason(
    config: ReplicationReceiveConfig,
    packet: InboundPacket,
    rejection: ReplicationRejection,
) -> bool {
    let decoded = decoded_frame(packet.bytes@);
    match rejection {
        ReplicationRejection::SourceMismatch { expected, actual } => {
            &&& !is_trusted(config, packet)
            &&& config.expected_source == Some(expected)
            &&& actual == packet.client_id
        },
        ReplicationRejection::Decode(error) => {
            &&& is_trusted(config, packet)
            &&& decoded == Err::<FrameModel, BinaryDecodeError>(error)
        },
        ReplicationRejection::UnexpectedFrame => {
            &&& is_trusted(config, packet)
            &&& !(decoded is Ok && decoded->Ok_0 is Replication)
        },
        ReplicationRejection::TargetMismatch { expected, actual } => {
            &&& is_trusted(config, packet)
            &&& decoded matches Ok(FrameModel::Replication(frame))
            &&& frame.client_id == actual
            &&& actual != config.client_id
            &&& expected == config.client_id
        },
    }
}

/// A packet is counted with its bytes, and once as what it was taken or rejected for.
pub open spec fn counts_packet(
    before: ReplicationReceiveStats,
    after: ReplicationReceiveStats,
    packet: InboundPacket,
    judged: Result<ReplicationFrameModel, ReplicationRejection>,
) -> bool {
    &&& counts(before.packets_received, after.packets_received, true)
    &&& after.bytes_received == before.bytes_received.saturating_add(packet.bytes@.len() as usize)
    &&& counts(before.frames_received, after.frames_received, judged is Ok)
    &&& counts(
        before.frames_rejected_decode,
        after.frames_rejected_decode,
        judged is Err && judged->Err_0 is Decode,
    )
    &&& counts(
        before.frames_rejected_unexpected,
        after.frames_rejected_unexpected,
        judged is Err && judged->Err_0 is UnexpectedFrame,
    )
    &&& counts(
        before.frames_rejected_source,
        after.frames_rejected_source,
        judged is Err && judged->Err_0 is SourceMismatch,
    )
    &&& counts(
        before.frames_rejected_target,
        after.frames_rejected_target,
        judged is Err && judged->Err_0 is TargetMismatch,
    )
    &&& judged matches Ok(frame) ==> frame.entities.len() <= usize::MAX ==> after.entities_received
        == before.entities_received.saturating_add(frame.entities.len() as usize)
    &&& judged matches Ok(frame) ==> component_count(frame.entities) <= usize::MAX
        ==> after.components_received == before.components_received.saturating_add(
        component_count(frame.entities) as usize,
    )
    &&& judged is Err ==> after.entities_received == before.entities_received
        && after.components_received == before.components_received
}

proof fn lemma_components(entities: Seq<EntityDeltaModel>)
    ensures
        component_count(entities) == component_count_total(entities),
    decreases entities.len(),
{
    if entities.len() > 0 {
        lemma_components(entities.drop_last());
    }
}

/// A packet whose first byte is that of another kind holds no replication frame.
proof fn lemma_other_kinds(bytes: Seq<u8>)
    requires
        bytes.len() > 0,
        0 < bytes[0] <= 5,
    ensures
        !(decoded_frame(bytes) matches Ok(FrameModel::Replication(_))),
{
    reveal(decoded_frame);
}

/// A packet is taken exactly where it comes from an accepted sender and holds a replication frame for
/// this client. Any other is rejected for what is wrong with it. Borrowing the frame takes the same
/// packets and counts them alike.
pub proof fn law_receivers_take_what_is_for_them(packet: &InboundPacket)
    ensures
        forall|
            bridge: &mut ReplicationReceiveBridge,
            result: Result<ReplicationFrame, ReplicationRejection>,
        |
            #[trigger] call_ensures(ReplicationReceiveBridge::accept, (bridge, packet), result)
                ==> {
                &&& result matches Ok(frame) ==> brings(bridge.config, *packet, frame@)
                    && counts_packet(bridge.stats, final(bridge).stats, *packet, Ok(frame@))
                &&& result matches Err(rejection) ==> {
                    &&& is_reason(bridge.config, *packet, rejection)
                    &&& rejection is UnexpectedFrame ==> decoded_frame(packet.bytes@) is Ok
                    &&& !brings_some(bridge.config, *packet)
                    &&& counts_packet(bridge.stats, final(bridge).stats, *packet, Err(rejection))
                }
                &&& final(bridge).config == bridge.config
            },
        forall|
            bridge: &mut ReplicationReceiveBridge,
            result: Result<ReplicationFrameRef<'_>, ReplicationRejection>,
        |
            #[trigger] call_ensures(ReplicationReceiveBridge::accept_ref, (bridge, packet), result)
                ==> {
                &&& result matches Ok(frame) ==> brings(bridge.config, *packet, frame.model())
                    && frame.wf() && counts_packet(
                    bridge.stats,
                    final(bridge).stats,
                    *packet,
                    Ok(frame.model()),
                )
                &&& result matches Err(rejection) ==> {
                    &&& is_reason(bridge.config, *packet, rejection)
                    &&& !brings_some(bridge.config, *packet)
                    &&& counts_packet(bridge.stats, final(bridge).stats, *packet, Err(rejection))
                }
                &&& final(bridge).config == bridge.config
            },
{
    assert forall|entities: Seq<EntityDeltaModel>| #[trigger]
        component_count(entities) == component_count_total(entities) by {
        lemma_components(entities);
    }
    if packet.bytes@.len() > 0 && 0 < packet.bytes@[0] <= 5 {
        lemma_other_kinds(packet.bytes@);
    }
}

/// What a pass over these packets comes to.
pub open spec fn passes<T: TransportReceiver>(
    config: ReplicationReceiveConfig,
    max_packets: usize,
    packets: Seq<InboundPacket>,
    answers: Seq<Result<Option<InboundPacket>, T::Error>>,
    result: Result<ReplicationReceivePump, ReplicationReceiveError<T::Error>>,
) -> bool {
    &&& packets.len() <= max_packets
    &&& forall|i: int|
        0 <= i < packets.len() - 1 ==> brings_some(config, #[trigger] packets[i])
    &&& result matches Ok(pump) ==> {
        &&& pump.frames@.len() == packets.len()
        &&& forall|i: int|
            0 <= i < packets.len() ==> brings(config, packets[i], (#[trigger] pump.frames@[i])@)
        &&& pump.packets_received == packets.len()
        &&& packets.len() < max_packets ==> handed_out(answers, packets, Some(Ok(None)))
        &&& packets.len() == max_packets ==> handed_out(answers, packets, None)
    }
    &&& result matches Err(ReplicationReceiveError::Transport(error)) ==> {
        &&& packets.len() < max_packets
        &&& handed_out(answers, packets, Some(Err(error)))
    }
    &&& result matches Err(error) ==> !(error is Transport) ==> {
        &&& packets.len() > 0
        &&& !brings_some(config, packets.last())
        &&& exists|rejection: ReplicationRejection| #[trigger]
            is_reason(config, packets.last(), rejection) && error == rejection.error::<T::Error>()
    }
}

proof fn lemma_counted(
    config: ReplicationReceiveConfig,
    packets: Seq<InboundPacket>,
    depth: DecodeDepth,
)
    requires
        packets.len() <= usize::MAX,
    ensures
        ReplicationReceiveStats::zero().with_packets(config, packets, depth).packets_received
            == packets.len(),
    decreases packets.len(),
{
    if packets.len() > 0 {
        lemma_counted(config, packets.drop_last(), depth);
    }
}

proof fn lemma_brought(
    config: ReplicationReceiveConfig,
    packet: InboundPacket,
    depth: DecodeDepth,
)
    ensures
        verdict(config, packet, depth) matches Ok(frame) ==> brings(config, packet, frame),
        verdict(config, packet, depth) matches Err(rejection) ==> !brings_some(config, packet)
            && is_reason(config, packet, rejection),
{
    if packet.bytes@.len() > 0 && 0 < packet.bytes@[0] <= 5 {
        lemma_other_kinds(packet.bytes@);
    }
}

/// A pass takes packets until none is left or the limit is reached, and hands out the frame of every
/// one of them, in order. It ends early only with the first packet that is not for this client, or
/// when the transport fails.
pub proof fn law_passes_hand_out_every_frame<T: TransportReceiver>(max_packets: usize)
    ensures
        forall|
            bridge: &mut ReplicationReceiveBridge,
            transport: &mut T,
            result: Result<ReplicationReceivePump, ReplicationReceiveError<T::Error>>,
        |
            #[trigger] call_ensures(
                ReplicationReceiveBridge::pump_owned::<T>,
                (bridge, transport, max_packets),
                result,
            ) ==> exists|
                packets: Seq<InboundPacket>,
                answers: Seq<Result<Option<InboundPacket>, T::Error>>,
                links: Seq<T>,
            |
                {
                    &&& #[trigger] passes::<T>(bridge.config, max_packets, packets, answers, result)
                    &&& #[trigger] linked(links, answers, *transport, *final(transport))
                    &&& forall|i: int| #[trigger]
                        asked(answers, i) ==> exists|receiver: &mut T| #[trigger]
                            call_ensures(T::try_recv, (receiver,), answers[i]) && *receiver
                                == links[i] && *final(receiver) == links[i + 1]
                },
{
    assert forall|
        bridge: &mut ReplicationReceiveBridge,
        transport: &mut T,
        result: Result<ReplicationReceivePump, ReplicationReceiveError<T::Error>>,
    |
        #[trigger] call_ensures(
            ReplicationReceiveBridge::pump_owned::<T>,
            (bridge, transport, max_packets),
            result,
        ) implies exists|
                packets: Seq<InboundPacket>,
                answers: Seq<Result<Option<InboundPacket>, T::Error>>,
                links: Seq<T>,
            |
                {
                    &&& #[trigger] passes::<T>(bridge.config, max_packets, packets, answers, result)
                    &&& #[trigger] linked(links, answers, *transport, *final(transport))
                    &&& forall|i: int| #[trigger]
                        asked(answers, i) ==> exists|receiver: &mut T| #[trigger]
                            call_ensures(T::try_recv, (receiver,), answers[i]) && *receiver
                                == links[i] && *final(receiver) == links[i + 1]
                } by {
        let config = bridge.config;
        let depth = DecodeDepth::Whole;
        let (packets, answers, links) = choose|
            packets: Seq<InboundPacket>,
            answers: Seq<Result<Option<InboundPacket>, T::Error>>,
            links: Seq<T>,
        |
            {
                &&& #[trigger] final(bridge).pumped::<T>(*bridge, max_packets, packets, answers, result)
                &&& #[trigger] linked(links, answers, *transport, *final(transport))
                &&& forall|i: int| #[trigger]
                    asked(answers, i) ==> exists|receiver: &mut T| #[trigger]
                        call_ensures(T::try_recv, (receiver,), answers[i]) && *receiver == links[i]
                            && *final(receiver) == links[i + 1]
            };
        assert forall|i: int| 0 <= i < packets.len() - 1 implies brings_some(
            config,
            #[trigger] packets[i],
        ) by {
            lemma_brought(config, packets[i], depth);
        }
        if packets.len() > 0 {
            lemma_brought(config, packets.last(), depth);
        }
        if let Ok(pump) = result {
            lemma_counted(config, packets, depth);
            assert forall|i: int| 0 <= i < packets.len() implies brings(
                config,
                packets[i],
                (#[trigger] pump.frames@[i])@,
            ) by {
                lemma_brought(config, packets[i], depth);
                if i == packets.len() - 1 {
                    assert(packets[i] == packets.last());
                }
            }
        }
        assert(passes::<T>(config, max_packets, packets, answers, result));
    }
}

/// The packet holds a replication frame for this client, and the visitor took it.
pub open spec fn shows_frame<V, F: FnMut(ReplicationFrameRef<'_>) -> Result<(), V>>(
    config: ReplicationReceiveConfig,
    visitor: F,
    packet: InboundPacket,
) -> bool {
    exists|frame: ReplicationFrameModel| #[trigger]
        brings(config, packet, frame) && was_visited::<V, F>(visitor, frame)
}

/// What a visiting pass over these packets comes to.
pub open spec fn shows_frames<
    T: TransportReceiver,
    V,
    F: FnMut(ReplicationFrameRef<'_>) -> Result<(), V>,
>(
    config: ReplicationReceiveConfig,
    max_packets: usize,
    visitor: F,
    packets: Seq<InboundPacket>,
    answers: Seq<Result<Option<InboundPacket>, T::Error>>,
    result: Result<ReplicationReceiveVisitReport, ReplicationReceiveVisitError<T::Error, V>>,
) -> bool {
    &&& packets.len() <= max_packets
    &&& forall|i: int|
        0 <= i < packets.len() - 1 ==> shows_frame::<V, F>(config, visitor, #[trigger] packets[i])
    &&& result matches Ok(report) ==> {
        &&& forall|i: int|
            0 <= i < packets.len() ==> shows_frame::<V, F>(config, visitor, #[trigger] packets[i])
        &&& report.packets_received == packets.len()
        &&& packets.len() < max_packets ==> handed_out(answers, packets, Some(Ok(None)))
        &&& packets.len() == max_packets ==> handed_out(answers, packets, None)
    }
    &&& result matches Err(ReplicationReceiveVisitError::Visitor(error)) ==> {
        &&& packets.len() > 0
        &&& exists|frame: ReplicationFrameModel| #[trigger]
            brings(config, packets.last(), frame) && visit_failed::<V, F>(visitor, frame, error)
    }
    &&& result matches Err(ReplicationReceiveVisitError::Receive(error)) ==> {
        &&& error matches ReplicationReceiveError::Transport(failure) ==> packets.len()
            < max_packets && handed_out(answers, packets, Some(Err(failure)))
        &&& !(error is Transport) ==> {
            &&& packets.len() > 0
            &&& !brings_some(config, packets.last())
            &&& exists|rejection: ReplicationRejection| #[trigger]
                is_reason(config, packets.last(), rejection) && error == rejection.error::<
                    T::Error,
                >()
        }
    }
}

/// A visiting pass shows the visitor the frame of every packet that it takes, until none is left or
/// the limit is reached. It ends early only with the first packet that is not for this client, when
/// the visitor refuses a frame, or when the transport fails.
pub proof fn law_visits_show_every_replication_frame<
    T: TransportReceiver,
    V,
    F: FnMut(ReplicationFrameRef<'_>) -> Result<(), V>,
>(max_packets: usize, visitor: F)
    ensures
        forall|
            bridge: &mut ReplicationReceiveBridge,
            transport: &mut T,
            result: Result<
                ReplicationReceiveVisitReport,
                ReplicationReceiveVisitError<T::Error, V>,
            >,
        |
            #[trigger] call_ensures(
                ReplicationReceiveBridge::pump::<T, V, F>,
                (bridge, transport, max_packets, visitor),
                result,
            ) ==> exists|
                packets: Seq<InboundPacket>,
                answers: Seq<Result<Option<InboundPacket>, T::Error>>,
                links: Seq<T>,
            |
                {
                    &&& #[trigger] shows_frames::<T, V, F>(bridge.config, max_packets, visitor, packets, answers, result)
                    &&& #[trigger] linked(links, answers, *transport, *final(transport))
                    &&& forall|i: int| #[trigger]
                        asked(answers, i) ==> exists|receiver: &mut T| #[trigger]
                            call_ensures(T::try_recv, (receiver,), answers[i]) && *receiver
                                == links[i] && *final(receiver) == links[i + 1]
                },
{
    assert forall|
        bridge: &mut ReplicationReceiveBridge,
        transport: &mut T,
        result: Result<ReplicationReceiveVisitReport, ReplicationReceiveVisitError<T::Error, V>>,
    |
        #[trigger] call_ensures(
            ReplicationReceiveBridge::pump::<T, V, F>,
            (bridge, transport, max_packets, visitor),
            result,
        ) implies exists|
                packets: Seq<InboundPacket>,
                answers: Seq<Result<Option<InboundPacket>, T::Error>>,
                links: Seq<T>,
            |
                {
                    &&& #[trigger] shows_frames::<T, V, F>(bridge.config, max_packets, visitor, packets, answers, result)
                    &&& #[trigger] linked(links, answers, *transport, *final(transport))
                    &&& forall|i: int| #[trigger]
                        asked(answers, i) ==> exists|receiver: &mut T| #[trigger]
                            call_ensures(T::try_recv, (receiver,), answers[i]) && *receiver
                                == links[i] && *final(receiver) == links[i + 1]
                } by {
        let config = bridge.config;
        let depth = DecodeDepth::KindFirst;
        let (packets, answers, links) = choose|
            packets: Seq<InboundPacket>,
            answers: Seq<Result<Option<InboundPacket>, T::Error>>,
            links: Seq<T>,
        |
            {
                &&& #[trigger] final(bridge).visited::<T, V, F>(
                *bridge,
                max_packets,
                visitor,
                packets,
                answers,
                result,
            )
                &&& #[trigger] linked(links, answers, *transport, *final(transport))
                &&& forall|i: int| #[trigger]
                    asked(answers, i) ==> exists|receiver: &mut T| #[trigger]
                        call_ensures(T::try_recv, (receiver,), answers[i]) && *receiver == links[i]
                            && *final(receiver) == links[i + 1]
            };
        assert forall|i: int| 0 <= i < packets.len() - 1 implies shows_frame::<V, F>(
            config,
            visitor,
            #[trigger] packets[i],
        ) by {
            lemma_brought(config, packets[i], depth);
        }
        if packets.len() > 0 {
            lemma_brought(config, packets.last(), depth);
        }
        if let Ok(report) = result {
            lemma_counted(config, packets, depth);
            assert forall|i: int| 0 <= i < packets.len() implies shows_frame::<V, F>(
                config,
                visitor,
                #[trigger] packets[i],
            ) by {
                if i == packets.len() - 1 {
                    assert(packets[i] == packets.last());
                }
            }
        }
        assert(shows_frames::<T, V, F>(config, max_packets, visitor, packets, answers, result));
    }
}

/// The packet carries what the plan has to tell the client, as far as the byte budget goes.
pub open spec fn tells_the_plan(
    bridge: ReplicationTransportBridge,
    client_id: ClientId,
    server_tick: Tick,
    input: BuildInput,
    handles: Seq<EntityHandle>,
    bytes: Seq<u8>,
    report: ReplicationTransportReport,
) -> bool {
    let budget = bridge.config.budget.max_bytes;
    exists|frame: ReplicationFrameModel, places: Seq<int>|
        {
            &&& decoded_frame(bytes) == Ok::<FrameModel, BinaryDecodeError>(
                FrameModel::Replication(frame),
            )
            &&& frame.client_id == client_id
            &&& frame.server_tick == server_tick
            &&& #[trigger] carries_planned(input, handles, frame.entities, places)
            &&& misses_what_does_not_fit(input, handles, frame.entities, places, budget as nat)
            &&& frame.entities.len() > 0 ==> bytes.len() <= budget
            &&& report.encoded_entities == frame.entities.len()
            &&& report.encoded_components == component_count(frame.entities)
        }
}

/// No planned entity has news that fits the byte budget.
pub open spec fn has_nothing_to_tell(
    bridge: ReplicationTransportBridge,
    input: BuildInput,
    handles: Seq<EntityHandle>,
) -> bool {
    misses_what_does_not_fit(
        input,
        handles,
        Seq::empty(),
        Seq::empty(),
        bridge.config.budget.max_bytes as nat,
    )
}

/// A plan is sent to its client as one frame that carries the planned entities with news, within the
/// byte budget. Nothing is sent only where no planned entity has news that fits and empty frames are
/// not wanted. What went out is counted.
pub proof fn law_plans_are_sent_to_their_client<T: TransportSink>(
    client_id: ClientId,
    server_tick: Tick,
    station: &Station,
    components: &ComponentStore,
    selection: &ComponentSelection,
    plan: &ReplicationPlan,
)
    requires
        countable(plan.entities@.len(), selection.component_ids@.len()),
    ensures
        forall|
            bridge: &mut ReplicationTransportBridge,
            transport: &mut T,
            result: Result<ReplicationTransportReport, ReplicationTransportError<T::Error>>,
        |
            #[trigger] call_ensures(
                ReplicationTransportBridge::send_plan::<T>,
                (
                    bridge,
                    transport,
                    client_id,
                    server_tick,
                    station,
                    components,
                    selection,
                    plan,
                ),
                result,
            ) ==> {
                let input = bridge.builder.input(*station, *components, *selection);
                &&& result matches Ok(report) ==> {
                    &&& report.client_id == client_id
                    &&& report.selected_entities == plan.stats.selected
                    &&& report.sent ==> exists|
                        sink: &mut T,
                        packet: OutboundPacket,
                        outcome: Result<(), T::Error>,
                    |
                        #![trigger call_ensures(T::send, (sink, packet), outcome)]
                        {
                            &&& call_ensures(T::send, (sink, packet), outcome)
                            &&& outcome is Ok
                            &&& *sink == *transport
                            &&& *final(sink) == *final(transport)
                            &&& packet.client_id == client_id
                            &&& packet.bytes.len() == report.bytes_sent
                            &&& tells_the_plan(
                                *bridge,
                                client_id,
                                server_tick,
                                input,
                                plan.entities@,
                                packet.bytes@,
                                report,
                            )
                        }
                    &&& !report.sent ==> {
                        &&& *final(transport) == *transport
                        &&& report.bytes_sent == 0
                        &&& !bridge.config.send_empty_frames
                        &&& has_nothing_to_tell(*bridge, input, plan.entities@)
                    }
                    &&& counts(
                        bridge.stats.frames_sent,
                        final(bridge).stats.frames_sent,
                        report.sent,
                    )
                    &&& counts(
                        bridge.stats.frames_skipped_empty,
                        final(bridge).stats.frames_skipped_empty,
                        !report.sent,
                    )
                    &&& final(bridge).stats.bytes_sent == bridge.stats.bytes_sent.saturating_add(
                        report.bytes_sent,
                    )
                    &&& final(bridge).stats.entities_encoded
                        == bridge.stats.entities_encoded.saturating_add(report.encoded_entities)
                }
                &&& result is Err ==> final(bridge).stats.frames_sent == bridge.stats.frames_sent
                    && final(bridge).stats.bytes_sent == bridge.stats.bytes_sent
                &&& counts(
                    bridge.stats.viewers_planned,
                    final(bridge).stats.viewers_planned,
                    true,
                )
                &&& final(bridge).config == bridge.config
            },
{
    assert forall|
        bridge: &mut ReplicationTransportBridge,
        transport: &mut T,
        result: Result<ReplicationTransportReport, ReplicationTransportError<T::Error>>,
    |
        #[trigger] call_ensures(
            ReplicationTransportBridge::send_plan::<T>,
            (bridge, transport, client_id, server_tick, station, components, selection, plan),
            result,
        ) && result is Ok implies {
        let input = bridge.builder.input(*station, *components, *selection);
        let encoded = bridge.encoded(
            client_id,
            server_tick,
            *station,
            *components,
            *selection,
            *plan,
        );
        &&& result->Ok_0.sent ==> tells_the_plan(
            *bridge,
            client_id,
            server_tick,
            input,
            plan.entities@,
            encoded.0,
            result->Ok_0,
        )
        &&& !result->Ok_0.sent ==> has_nothing_to_tell(*bridge, input, plan.entities@)
    } by {
        let input = bridge.builder.input(*station, *components, *selection);
        assert(plan.entities.len() == plan.entities@.len());
        let (frame, places) = lemma_bounded_frame(
            input,
            client_id,
            server_tick,
            plan.entities@,
            bridge.config.budget.max_bytes,
        );
        law_decode_inverts_encode(FrameModel::Replication(frame));
        assert(carries_planned(input, plan.entities@, frame.entities, places));
        if !result->Ok_0.sent {
            assert(frame.entities =~= Seq::empty());
            assert(places =~= Seq::empty());
        }
    }
}

} // verus!
