//! What a client's bridge promises: it takes every frame that is for its client, in order, and
//! nothing else.

use vstd::prelude::*;

use crate::client_bridge::{
    acks_in, barriers_in, frame_models, replication_in, verdict, visit_failed, was_visited,
    ClientCommandSendReport, ClientInboundFrameKind, ClientInboundFrameRef, ClientRejection,
    ClientTransportBridge, ClientTransportBridgeError, ClientTransportConfig, ClientTransportPump,
    ClientTransportStats, ClientTransportVisitError, ClientTransportVisitReport,
};
use crate::frame_laws::component_count;
use crate::frames::{
    component_count_total, CommandFrame, EntityDeltaModel, FrameModel, RuntimeFrame,
};
use crate::gateway_laws::counts;
use crate::ids::ClientId;
use crate::packets::{
    asked, handed_out, linked, InboundPacket, OutboundPacket, TransportReceiver, TransportSink,
};
use crate::wire_laws::law_decode_inverts_encode;
use crate::wire_spec::{decoded_frame, frame_bytes, BinaryDecodeError};

verus! {

/// The client that a frame is for, where clients get such frames.
pub open spec fn addressee(frame: FrameModel) -> Option<ClientId> {
    match frame {
        FrameModel::CommandAck(ack) => Some(ack.client_id),
        FrameModel::Replication(replication) => Some(replication.client_id),
        FrameModel::Barrier(barrier) => Some(barrier.client_id),
        _ => None,
    }
}

/// The packet may come from this sender: any sender may where none is expected.
pub open spec fn is_trusted(config: ClientTransportConfig, packet: InboundPacket) -> bool {
    config.expected_source matches Some(source) ==> packet.client_id == Some(source)
}

/// The packet comes from an accepted sender and holds this frame for this client.
pub open spec fn brings(
    config: ClientTransportConfig,
    packet: InboundPacket,
    frame: FrameModel,
) -> bool {
    &&& is_trusted(config, packet)
    &&& decoded_frame(packet.bytes@) == Ok::<FrameModel, BinaryDecodeError>(frame)
    &&& addressee(frame) == Some(config.client_id)
}

/// The packet holds no frame for this client from an accepted sender.
pub open spec fn brings_none(config: ClientTransportConfig, packet: InboundPacket) -> bool {
    forall|frame: FrameModel| !#[trigger] brings(config, packet, frame)
}

/// The packet holds a frame for this client from an accepted sender.
pub open spec fn brings_some(config: ClientTransportConfig, packet: InboundPacket) -> bool {
    exists|frame: FrameModel| #[trigger] brings(config, packet, frame)
}

/// The rejection names what is wrong with the packet: a wrong sender, unreadable bytes, a frame that
/// clients do not get, or another client's frame.
pub open spec fn is_reason(
    config: ClientTransportConfig,
    packet: InboundPacket,
    rejection: ClientRejection,
) -> bool {
    match rejection {
        ClientRejection::SourceMismatch { expected, actual } => {
            &&& !is_trusted(config, packet)
            &&& config.expected_source == Some(expected)
            &&& actual == packet.client_id
        },
        ClientRejection::Decode(error) => {
            &&& is_trusted(config, packet)
            &&& decoded_frame(packet.bytes@) == Err::<FrameModel, BinaryDecodeError>(error)
        },
        ClientRejection::UnexpectedFrame => {
            &&& is_trusted(config, packet)
            &&& decoded_frame(packet.bytes@) matches Ok(frame) && addressee(frame) is None
        },
        ClientRejection::TargetMismatch { kind, expected, actual } => {
            &&& is_trusted(config, packet)
            &&& decoded_frame(packet.bytes@) matches Ok(frame)
            &&& addressee(frame) == Some(actual)
            &&& actual != config.client_id
            &&& expected == config.client_id
            &&& kind == ClientInboundFrameKind::CommandAck <==> frame is CommandAck
            &&& kind == ClientInboundFrameKind::Replication <==> frame is Replication
        },
    }
}

/// A packet is counted with its bytes, and once as what it was taken or rejected for.
pub open spec fn counts_packet(
    before: ClientTransportStats,
    after: ClientTransportStats,
    packet: InboundPacket,
    judged: Result<FrameModel, ClientRejection>,
) -> bool {
    &&& counts(before.packets_received, after.packets_received, true)
    &&& after.bytes_received == before.bytes_received.saturating_add(packet.bytes@.len() as usize)
    &&& counts(
        before.command_acks_received,
        after.command_acks_received,
        judged is Ok && judged->Ok_0 is CommandAck,
    )
    &&& counts(
        before.replication_frames_received,
        after.replication_frames_received,
        judged is Ok && judged->Ok_0 is Replication,
    )
    &&& counts(
        before.barrier_frames_received,
        after.barrier_frames_received,
        judged is Ok && judged->Ok_0 is Barrier,
    )
    &&& counts(
        before.frames_rejected_decode,
        after.frames_rejected_decode,
        judged is Err && judged->Err_0 is Decode,
    )
    &&& counts(
        before.frames_rejected_unexpected,
        after.frames_rejected_unexpected,
        judged is Err && judged->Err_0 is UnexpectedFrame,
    )
    &&& counts(
        before.frames_rejected_source,
        after.frames_rejected_source,
        judged is Err && judged->Err_0 is SourceMismatch,
    )
    &&& counts(
        before.frames_rejected_target,
        after.frames_rejected_target,
        judged is Err && judged->Err_0 is TargetMismatch,
    )
    &&& after.commands_sent == before.commands_sent
    &&& after.command_bytes_sent == before.command_bytes_sent
    &&& judged matches Ok(FrameModel::Replication(frame)) ==> frame.entities.len() <= usize::MAX
        ==> after.entities_received == before.entities_received.saturating_add(
        frame.entities.len() as usize,
    )
    &&& judged matches Ok(FrameModel::Replication(frame)) ==> component_count(frame.entities)
        <= usize::MAX ==> after.components_received == before.components_received.saturating_add(
        component_count(frame.entities) as usize,
    )
    &&& !(judged is Ok && judged->Ok_0 is Replication) ==> after.entities_received
        == before.entities_received && after.components_received == before.components_received
}

/// A packet is taken exactly where it comes from an accepted sender and holds a frame for this
/// client. Any other is rejected for what is wrong with it. Borrowing the frame judges and counts
/// alike.
pub proof fn law_clients_take_what_is_for_them(packet: &InboundPacket)
    ensures
        forall|bridge: &mut ClientTransportBridge, result: Result<RuntimeFrame, ClientRejection>|
            #[trigger] call_ensures(ClientTransportBridge::accept, (bridge, packet), result) ==> {
                &&& result matches Ok(frame) ==> brings(bridge.config, *packet, frame@)
                    && counts_packet(bridge.stats, final(bridge).stats, *packet, Ok(frame@))
                &&& result matches Err(rejection) ==> {
                    &&& is_reason(bridge.config, *packet, rejection)
                    &&& brings_none(bridge.config, *packet)
                    &&& counts_packet(bridge.stats, final(bridge).stats, *packet, Err(rejection))
                }
                &&& final(bridge).config == bridge.config
            },
        forall|
            bridge: &mut ClientTransportBridge,
            result: Result<ClientInboundFrameRef<'_>, ClientRejection>,
        |
            #[trigger] call_ensures(ClientTransportBridge::accept_ref, (bridge, packet), result)
                ==> {
                &&& result matches Ok(frame) ==> brings(bridge.config, *packet, frame.model())
                    && frame.wf() && counts_packet(
                    bridge.stats,
                    final(bridge).stats,
                    *packet,
                    Ok(frame.model()),
                )
                &&& result matches Err(rejection) ==> {
                    &&& is_reason(bridge.config, *packet, rejection)
                    &&& brings_none(bridge.config, *packet)
                    &&& counts_packet(bridge.stats, final(bridge).stats, *packet, Err(rejection))
                }
                &&& final(bridge).config == bridge.config
            },
{
    assert forall|entities: Seq<EntityDeltaModel>| #[trigger]
        component_count(entities) == component_count_total(entities) by {
        lemma_components(entities);
    }
}

proof fn lemma_components(entities: Seq<EntityDeltaModel>)
    ensures
        component_count(entities) == component_count_total(entities),
    decreases entities.len(),
{
    if entities.len() > 0 {
        lemma_components(entities.drop_last());
    }
}

/// The packets hold a frame of each list at its place: as many frames of its kind came before it as
/// stand before it in the list.
pub open spec fn keeps_in_order(
    pump: ClientTransportPump,
    config: ClientTransportConfig,
    packets: Seq<InboundPacket>,
) -> bool {
    &&& pump.command_acks@.len() + pump.replication_frames@.len() + pump.barriers@.len()
        == packets.len()
    &&& forall|i: int| 0 <= i < packets.len() ==> is_kept(pump, config, packets, i)
}

/// The frame of the packet at `i` stands at its place in the pump.
pub open spec fn is_kept(
    pump: ClientTransportPump,
    config: ClientTransportConfig,
    packets: Seq<InboundPacket>,
    i: int,
) -> bool {
    exists|frame: FrameModel| #[trigger]
        brings(config, packets[i], frame) && match frame {
            FrameModel::CommandAck(ack) => {
                let at = before_it(packets, i, |other: FrameModel| other is CommandAck);
                at < pump.command_acks@.len() && pump.command_acks@[at as int] == ack
            },
            FrameModel::Replication(replication) => {
                let at = before_it(packets, i, |other: FrameModel| other is Replication);
                at < pump.replication_frames@.len() && pump.replication_frames@[at as int]@
                    == replication
            },
            FrameModel::Barrier(barrier) => {
                let at = before_it(packets, i, |other: FrameModel| other is Barrier);
                at < pump.barriers@.len() && pump.barriers@[at as int] == barrier
            },
            _ => false,
        }
}

/// Number of frames of a kind among the first `upto` packets.
pub open spec fn before_it(
    packets: Seq<InboundPacket>,
    upto: int,
    kind: spec_fn(FrameModel) -> bool,
) -> nat
    decreases upto,
{
    if upto <= 0 {
        0
    } else {
        before_it(packets, upto - 1, kind) + if decoded_frame(packets[upto - 1].bytes@) is Ok
            && kind(decoded_frame(packets[upto - 1].bytes@)->Ok_0) {
            1nat
        } else {
            0
        }
    }
}

proof fn lemma_lists(config: ClientTransportConfig, packets: Seq<InboundPacket>, upto: int)
    requires
        0 <= upto <= packets.len(),
        forall|i: int| 0 <= i < packets.len() ==> verdict(config, #[trigger] packets[i]) is Ok,
    ensures
        acks_in(config, packets.take(upto)).len() == before_it(
            packets,
            upto,
            |other: FrameModel| other is CommandAck,
        ),
        replication_in(config, packets.take(upto)).len() == before_it(
            packets,
            upto,
            |other: FrameModel| other is Replication,
        ),
        barriers_in(config, packets.take(upto)).len() == before_it(
            packets,
            upto,
            |other: FrameModel| other is Barrier,
        ),
        acks_in(config, packets.take(upto)).len() + replication_in(
            config,
            packets.take(upto),
        ).len() + barriers_in(config, packets.take(upto)).len() == upto,
    decreases upto,
{
    if upto > 0 {
        lemma_lists(config, packets, upto - 1);
        assert(packets.take(upto).drop_last() =~= packets.take(upto - 1));
        assert(packets.take(upto).last() == packets[upto - 1]);
        assert(verdict(config, packets[upto - 1]) is Ok);
    }
}

proof fn lemma_placed(
    config: ClientTransportConfig,
    packets: Seq<InboundPacket>,
    i: int,
    upto: int,
)
    requires
        0 <= i < upto <= packets.len(),
        forall|k: int| 0 <= k < packets.len() ==> verdict(config, #[trigger] packets[k]) is Ok,
    ensures
        match verdict(config, packets[i]) {
            Ok(FrameModel::CommandAck(ack)) => {
                let at = before_it(packets, i, |other: FrameModel| other is CommandAck);
                at < acks_in(config, packets.take(upto)).len() && acks_in(
                    config,
                    packets.take(upto),
                )[at as int] == ack
            },
            Ok(FrameModel::Replication(replication)) => {
                let at = before_it(packets, i, |other: FrameModel| other is Replication);
                at < replication_in(config, packets.take(upto)).len() && replication_in(
                    config,
                    packets.take(upto),
                )[at as int] == replication
            },
            Ok(FrameModel::Barrier(barrier)) => {
                let at = before_it(packets, i, |other: FrameModel| other is Barrier);
                at < barriers_in(config, packets.take(upto)).len() && barriers_in(
                    config,
                    packets.take(upto),
                )[at as int] == barrier
            },
            _ => false,
        },
    decreases upto,
{
    assert(packets.take(upto).drop_last() =~= packets.take(upto - 1));
    assert(packets.take(upto).last() == packets[upto - 1]);
    lemma_lists(config, packets, upto - 1);
    assert(verdict(config, packets[i]) is Ok);
    assert(verdict(config, packets[upto - 1]) is Ok);
    if i < upto - 1 {
        lemma_placed(config, packets, i, upto - 1);
    }
}

/// What a pass over these packets comes to.
pub open spec fn passes<T: TransportReceiver>(
    config: ClientTransportConfig,
    max_packets: usize,
    packets: Seq<InboundPacket>,
    answers: Seq<Result<Option<InboundPacket>, T::Error>>,
    result: Result<ClientTransportPump, ClientTransportBridgeError<T::Error>>,
) -> bool {
    &&& packets.len() <= max_packets
    &&& forall|i: int|
        0 <= i < packets.len() - 1 ==> brings_some(config, #[trigger] packets[i])
    &&& result matches Ok(pump) ==> {
        &&& keeps_in_order(pump, config, packets)
        &&& pump.packets_received == packets.len()
        &&& packets.len() < max_packets ==> handed_out(answers, packets, Some(Ok(None)))
        &&& packets.len() == max_packets ==> handed_out(answers, packets, None)
    }
    &&& result matches Err(ClientTransportBridgeError::Transport(error)) ==> {
        &&& packets.len() < max_packets
        &&& handed_out(answers, packets, Some(Err(error)))
    }
    &&& result matches Err(error) ==> !(error is Transport) ==> {
        &&& packets.len() > 0
        &&& brings_none(config, packets.last())
        &&& exists|rejection: ClientRejection| #[trigger]
            is_reason(config, packets.last(), rejection) && error == rejection.error::<T::Error>()
    }
}

proof fn lemma_counted(
    before: ClientTransportStats,
    config: ClientTransportConfig,
    packets: Seq<InboundPacket>,
)
    requires
        before.packets_received + packets.len() <= usize::MAX,
    ensures
        before.with_packets(config, packets).packets_received == before.packets_received
            + packets.len(),
    decreases packets.len(),
{
    if packets.len() > 0 {
        lemma_counted(before, config, packets.drop_last());
    }
}

/// A pass takes packets until none is left or the limit is reached, and keeps the frame of every one
/// of them in its list, in order. It ends early only with the first packet that is not for this
/// client, or when the transport fails.
pub proof fn law_passes_keep_every_frame<T: TransportReceiver>(max_packets: usize)
    ensures
        forall|
            bridge: &mut ClientTransportBridge,
            transport: &mut T,
            result: Result<ClientTransportPump, ClientTransportBridgeError<T::Error>>,
        |
            #[trigger] call_ensures(
                ClientTransportBridge::pump_owned::<T>,
                (bridge, transport, max_packets),
                result,
            ) ==> exists|
                packets: Seq<InboundPacket>,
                answers: Seq<Result<Option<InboundPacket>, T::Error>>,
                links: Seq<T>,
            |
                {
                    &&& #[trigger] passes::<T>(bridge.config, max_packets, packets, answers, result)
                    &&& #[trigger] linked(links, answers, *transport, *final(transport))
                    &&& forall|i: int| #[trigger]
                        asked(answers, i) ==> exists|receiver: &mut T| #[trigger]
                            call_ensures(T::try_recv, (receiver,), answers[i]) && *receiver
                                == links[i] && *final(receiver) == links[i + 1]
                },
{
    assert forall|
        bridge: &mut ClientTransportBridge,
        transport: &mut T,
        result: Result<ClientTransportPump, ClientTransportBridgeError<T::Error>>,
    |
        #[trigger] call_ensures(
            ClientTransportBridge::pump_owned::<T>,
            (bridge, transport, max_packets),
            result,
        ) implies exists|
                packets: Seq<InboundPacket>,
                answers: Seq<Result<Option<InboundPacket>, T::Error>>,
                links: Seq<T>,
            |
                {
                    &&& #[trigger] passes::<T>(bridge.config, max_packets, packets, answers, result)
                    &&& #[trigger] linked(links, answers, *transport, *final(transport))
                    &&& forall|i: int| #[trigger]
                        asked(answers, i) ==> exists|receiver: &mut T| #[trigger]
                            call_ensures(T::try_recv, (receiver,), answers[i]) && *receiver
                                == links[i] && *final(receiver) == links[i + 1]
                } by {
        let config = bridge.config;
        let (packets, answers, links) = choose|
            packets: Seq<InboundPacket>,
            answers: Seq<Result<Option<InboundPacket>, T::Error>>,
            links: Seq<T>,
        |
            {
                &&& #[trigger] final(bridge).pumped::<T>(*bridge, max_packets, packets, answers, result)
                &&& #[trigger] linked(links, answers, *transport, *final(transport))
                &&& forall|i: int| #[trigger]
                    asked(answers, i) ==> exists|receiver: &mut T| #[trigger]
                        call_ensures(T::try_recv, (receiver,), answers[i]) && *receiver == links[i]
                            && *final(receiver) == links[i + 1]
            };
        assert forall|i: int| 0 <= i < packets.len() - 1 implies brings_some(
            config,
            #[trigger] packets[i],
        ) by {
            assert(brings(config, packets[i], verdict(config, packets[i])->Ok_0));
        }
        match result {
            Ok(pump) => {
                assert forall|i: int| 0 <= i < packets.len() implies verdict(
                    config,
                    #[trigger] packets[i],
                ) is Ok by {
                    if i == packets.len() - 1 {
                        assert(packets[i] == packets.last());
                    }
                }
                lemma_lists(config, packets, packets.len() as int);
                assert(packets.take(packets.len() as int) =~= packets);
                lemma_counted(ClientTransportStats::zero(), config, packets);
                assert(pump.replication_frames@.len() == frame_models(
                    pump.replication_frames@,
                ).len());
                assert forall|i: int| 0 <= i < packets.len() implies is_kept(
                    pump,
                    config,
                    packets,
                    i,
                ) by {
                    lemma_placed(config, packets, i, packets.len() as int);
                    let frame = verdict(config, packets[i])->Ok_0;
                    assert(brings(config, packets[i], frame));
                    if let FrameModel::Replication(_) = frame {
                        let at = before_it(packets, i, |other: FrameModel| other is Replication);
                        assert(frame_models(pump.replication_frames@)[at as int]
                            == pump.replication_frames@[at as int]@);
                    }
                }
            },
            Err(error) => {
                if !(error is Transport) {
                    assert(is_reason(
                        config,
                        packets.last(),
                        verdict(config, packets.last())->Err_0,
                    ));
                }
            },
        }
        assert(passes::<T>(config, max_packets, packets, answers, result));
    }
}

/// What a visiting pass over these packets comes to.
pub open spec fn shows_frames<
    T: TransportReceiver,
    V,
    F: FnMut(ClientInboundFrameRef<'_>) -> Result<(), V>,
>(
    config: ClientTransportConfig,
    max_packets: usize,
    visitor: F,
    packets: Seq<InboundPacket>,
    answers: Seq<Result<Option<InboundPacket>, T::Error>>,
    result: Result<ClientTransportVisitReport, ClientTransportVisitError<T::Error, V>>,
) -> bool {
    &&& packets.len() <= max_packets
    &&& forall|i: int|
        0 <= i < packets.len() - 1 ==> shows_frame::<V, F>(config, visitor, #[trigger] packets[i])
    &&& result matches Ok(report) ==> {
        &&& forall|i: int|
            0 <= i < packets.len() ==> shows_frame::<V, F>(config, visitor, #[trigger] packets[i])
        &&& report.packets_received == packets.len()
        &&& report.command_acks_received + report.replication_frames_received
            + report.barrier_frames_received == packets.len()
        &&& packets.len() < max_packets ==> handed_out(answers, packets, Some(Ok(None)))
        &&& packets.len() == max_packets ==> handed_out(answers, packets, None)
    }
    &&& result matches Err(ClientTransportVisitError::Visitor(error)) ==> {
        &&& packets.len() > 0
        &&& exists|frame: FrameModel| #[trigger]
            brings(config, packets.last(), frame) && visit_failed::<V, F>(visitor, frame, error)
    }
    &&& result matches Err(ClientTransportVisitError::Receive(error)) ==> {
        &&& error matches ClientTransportBridgeError::Transport(failure) ==> packets.len()
            < max_packets && handed_out(answers, packets, Some(Err(failure)))
        &&& !(error is Transport) ==> {
            &&& packets.len() > 0
            &&& brings_none(config, packets.last())
            &&& exists|rejection: ClientRejection| #[trigger]
                is_reason(config, packets.last(), rejection) && error == rejection.error::<
                    T::Error,
                >()
        }
    }
}

/// The packet holds a frame for this client, and the visitor took it.
pub open spec fn shows_frame<V, F: FnMut(ClientInboundFrameRef<'_>) -> Result<(), V>>(
    config: ClientTransportConfig,
    visitor: F,
    packet: InboundPacket,
) -> bool {
    exists|frame: FrameModel| #[trigger]
        brings(config, packet, frame) && was_visited::<V, F>(visitor, frame)
}

proof fn lemma_all_counted(config: ClientTransportConfig, packets: Seq<InboundPacket>)
    requires
        packets.len() <= usize::MAX,
        forall|i: int| 0 <= i < packets.len() ==> verdict(config, #[trigger] packets[i]) is Ok,
    ensures
        ({
            let after = ClientTransportStats::zero().with_packets(config, packets);
            &&& after.packets_received == packets.len()
            &&& after.command_acks_received + after.replication_frames_received
                + after.barrier_frames_received == packets.len()
        }),
    decreases packets.len(),
{
    if packets.len() > 0 {
        let fewer = packets.drop_last();
        assert forall|i: int| 0 <= i < fewer.len() implies verdict(config, #[trigger] fewer[i]) is Ok by {
            assert(fewer[i] == packets[i]);
        }
        lemma_all_counted(config, fewer);
        assert(verdict(config, packets[packets.len() - 1]) is Ok);
    }
}

/// A visiting pass shows the visitor the frame of every packet that it takes, until none is left or
/// the limit is reached. It ends early only with the first packet that is not for this client, when
/// the visitor refuses a frame, or when the transport fails.
pub proof fn law_visits_show_every_frame<
    T: TransportReceiver,
    V,
    F: FnMut(ClientInboundFrameRef<'_>) -> Result<(), V>,
>(max_packets: usize, visitor: F)
    ensures
        forall|
            bridge: &mut ClientTransportBridge,
            transport: &mut T,
            result: Result<ClientTransportVisitReport, ClientTransportVisitError<T::Error, V>>,
        |
            #[trigger] call_ensures(
                ClientTransportBridge::pump::<T, V, F>,
                (bridge, transport, max_packets, visitor),
                result,
            ) ==> exists|
                packets: Seq<InboundPacket>,
                answers: Seq<Result<Option<InboundPacket>, T::Error>>,
                links: Seq<T>,
            |
                {
                    &&& #[trigger] shows_frames::<T, V, F>(bridge.config, max_packets, visitor, packets, answers, result)
                    &&& #[trigger] linked(links, answers, *transport, *final(transport))
                    &&& forall|i: int| #[trigger]
                        asked(answers, i) ==> exists|receiver: &mut T| #[trigger]
                            call_ensures(T::try_recv, (receiver,), answers[i]) && *receiver
                                == links[i] && *final(receiver) == links[i + 1]
                },
{
    assert forall|
        bridge: &mut ClientTransportBridge,
        transport: &mut T,
        result: Result<ClientTransportVisitReport, ClientTransportVisitError<T::Error, V>>,
    |
        #[trigger] call_ensures(
            ClientTransportBridge::pump::<T, V, F>,
            (bridge, transport, max_packets, visitor),
            result,
        ) implies exists|
                packets: Seq<InboundPacket>,
                answers: Seq<Result<Option<InboundPacket>, T::Error>>,
                links: Seq<T>,
            |
                {
                    &&& #[trigger] shows_frames::<T, V, F>(bridge.config, max_packets, visitor, packets, answers, result)
                    &&& #[trigger] linked(links, answers, *transport, *final(transport))
                    &&& forall|i: int| #[trigger]
                        asked(answers, i) ==> exists|receiver: &mut T| #[trigger]
                            call_ensures(T::try_recv, (receiver,), answers[i]) && *receiver
                                == links[i] && *final(receiver) == links[i + 1]
                } by {
        let config = bridge.config;
        let (packets, answers, links) = choose|
            packets: Seq<InboundPacket>,
            answers: Seq<Result<Option<InboundPacket>, T::Error>>,
            links: Seq<T>,
        |
            {
                &&& #[trigger] final(bridge).visited::<T, V, F>(
                *bridge,
                max_packets,
                visitor,
                packets,
                answers,
                result,
            )
                &&& #[trigger] linked(links, answers, *transport, *final(transport))
                &&& forall|i: int| #[trigger]
                    asked(answers, i) ==> exists|receiver: &mut T| #[trigger]
                        call_ensures(T::try_recv, (receiver,), answers[i]) && *receiver == links[i]
                            && *final(receiver) == links[i + 1]
            };
        assert forall|i: int| 0 <= i < packets.len() - 1 implies shows_frame::<V, F>(
            config,
            visitor,
            #[trigger] packets[i],
        ) by {
            assert(brings(config, packets[i], verdict(config, packets[i])->Ok_0));
        }
        if packets.len() > 0 && verdict(config, packets.last()) is Ok {
            assert(brings(config, packets.last(), verdict(config, packets.last())->Ok_0));
        }
        match result {
            Ok(report) => {
                assert forall|i: int| 0 <= i < packets.len() implies verdict(
                    config,
                    #[trigger] packets[i],
                ) is Ok && shows_frame::<V, F>(config, visitor, packets[i]) by {
                    if i == packets.len() - 1 {
                        assert(packets[i] == packets.last());
                    }
                }
                lemma_all_counted(config, packets);
            },
            Err(ClientTransportVisitError::Receive(error)) => {
                if !(error is Transport) {
                    assert(is_reason(
                        config,
                        packets.last(),
                        verdict(config, packets.last())->Err_0,
                    ));
                }
            },
            _ => {},
        }
        assert(shows_frames::<T, V, F>(config, max_packets, visitor, packets, answers, result));
    }
}

/// A command of this client goes to its server as a packet that decodes to the command. A command of
/// another client is refused before anything is sent. Only what the transport took is counted.
pub proof fn law_commands_reach_the_server<T: TransportSink>(frame: &CommandFrame)
    ensures
        forall|
            bridge: &mut ClientTransportBridge,
            transport: &mut T,
            result: Result<ClientCommandSendReport, ClientTransportBridgeError<T::Error>>,
        |
            #[trigger] call_ensures(
                ClientTransportBridge::send_command_frame::<T>,
                (bridge, transport, frame),
                result,
            ) ==> {
                &&& frame.client_id != bridge.config.client_id ==> {
                    &&& result == Err::<
                        ClientCommandSendReport,
                        ClientTransportBridgeError<T::Error>,
                    >(
                        ClientTransportBridgeError::CommandClientMismatch {
                            expected: bridge.config.client_id,
                            actual: frame.client_id,
                        },
                    )
                    &&& *final(transport) == *transport
                }
                &&& result is Err ==> *final(bridge) == *bridge
                &&& result matches Ok(report) ==> {
                    &&& frame.client_id == bridge.config.client_id
                    &&& report.command_id == frame.command_id
                    &&& counts(
                        bridge.stats.commands_sent,
                        final(bridge).stats.commands_sent,
                        true,
                    )
                    &&& final(bridge).stats.command_bytes_sent
                        == bridge.stats.command_bytes_sent.saturating_add(report.bytes_sent)
                    &&& exists|sink: &mut T, packet: OutboundPacket, outcome: Result<(), T::Error>|
                        #![trigger call_ensures(T::send, (sink, packet), outcome)]
                        {
                            &&& call_ensures(T::send, (sink, packet), outcome)
                            &&& outcome is Ok
                            &&& *sink == *transport
                            &&& *final(sink) == *final(transport)
                            &&& packet.client_id == bridge.config.server_id
                            &&& packet.bytes.len() == report.bytes_sent
                            &&& decoded_frame(packet.bytes@) == Ok::<FrameModel, BinaryDecodeError>(
                                FrameModel::Command(frame@),
                            )
                        }
                }
            },
{
    if frame_bytes(FrameModel::Command(frame@)).1 is None {
        law_decode_inverts_encode(FrameModel::Command(frame@));
    }
}

} // verus!
