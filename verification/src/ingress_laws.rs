//! What the gateway's ingress promises: every waiting command is brought before the gateway under its
//! own client, and every answer goes back to that client.

use vstd::prelude::*;

use crate::frames::{CommandModel, EnvelopeModel, FrameModel};
use crate::gateway::{
    fate_report, law_acks_decode_to_their_command, CommandGateway, GatewayCommandPipeline,
    GatewayCommandPipelineConfig, GatewayCommandPipelineReport, StationCommandQueue,
};
use crate::gateway_bridge::{
    ingress_verdict, step_exchanges, Exchange, GatewayClientTransportBridge,
    GatewayClientTransportError, GatewayClientTransportPump, GatewayClientTransportStats,
    IngressEnd, IngressRejection, IngressStep,
};
use crate::gateway_laws::{
    answers, counts, is_queued_or_refused, law_commands_are_queued_or_answered,
};
use crate::ids::{ClientId, Tick};
use crate::ordered_map::OrderedMap;
use crate::packets::{
    asked, failure_of, linked, InboundPacket, OutboundPacket, TransportReceiver, TransportSink,
};
use crate::wire_spec::{decoded_frame, BinaryDecodeError};

verus! {

/// The packet holds this command, and does not come from another client than the command's own.
pub open spec fn brings_command(packet: InboundPacket, command: CommandModel) -> bool {
    &&& decoded_frame(packet.bytes@) == Ok::<FrameModel, BinaryDecodeError>(
        FrameModel::Command(command),
    )
    &&& packet.client_id matches Some(sender) ==> sender == command.client_id
}

/// The rejection names what is wrong with the packet.
pub open spec fn is_reason(packet: InboundPacket, rejection: IngressRejection) -> bool {
    let decoded = decoded_frame(packet.bytes@);
    match rejection {
        IngressRejection::Decode(error) => decoded == Err::<FrameModel, BinaryDecodeError>(error),
        IngressRejection::NonCommandFrame => decoded is Ok && !(decoded->Ok_0 is Command),
        IngressRejection::SourceMismatch { packet_client_id, frame_client_id } => {
            &&& decoded matches Ok(FrameModel::Command(command))
            &&& command.client_id == frame_client_id
            &&& packet.client_id == Some(packet_client_id)
            &&& packet_client_id != frame_client_id
        },
    }
}

/// A command packet is brought before the gateway where it does not come from another client than the
/// command's own, and its answer is for that client. Any other packet touches neither the gateway nor
/// a queue. Each packet is counted once as what it was.
pub proof fn law_ingress_packets_are_judged_by_their_client<G: CommandGateway, Q: StationCommandQueue>(
    packet: &InboundPacket,
    now: Tick,
    ingress: Q::Ingress,
)
    ensures
        forall|
            bridge: &mut GatewayClientTransportBridge,
            pipeline: &mut GatewayCommandPipeline,
            gateway: &mut G,
            queues: &mut OrderedMap<Q>,
            result: Result<(ClientId, usize, GatewayCommandPipelineReport), IngressRejection>,
        |
            #[trigger] call_ensures(
                GatewayClientTransportBridge::process_ingress_packet::<G, Q>,
                (bridge, pipeline, gateway, queues, packet, now, ingress),
                result,
            ) && queues.wf() ==> {
                &&& result matches Ok((client_id, bytes, report)) ==> {
                    let command = decoded_frame(packet.bytes@)->Ok_0->Command_0;
                    let envelope = EnvelopeModel { command, received_at: now };
                    &&& brings_command(*packet, command)
                    &&& client_id == command.client_id
                    &&& bytes == packet.bytes@.len()
                    &&& is_queued_or_refused(
                        *gateway,
                        queues@,
                        final(queues)@,
                        envelope,
                        ingress,
                        report@,
                    )
                    &&& answers(pipeline.config, envelope, report@)
                    &&& counts(
                        bridge.stats.commands_accepted,
                        final(bridge).stats.commands_accepted,
                        report.accepted,
                    )
                    &&& counts(
                        bridge.stats.commands_rejected,
                        final(bridge).stats.commands_rejected,
                        !report.accepted,
                    )
                }
                &&& result matches Err(rejection) ==> {
                    &&& is_reason(*packet, rejection)
                    &&& *final(gateway) == *gateway
                    &&& *final(queues) == *queues
                    &&& final(bridge).stats.commands_accepted == bridge.stats.commands_accepted
                    &&& final(bridge).stats.commands_rejected == bridge.stats.commands_rejected
                }
                &&& counts(
                    bridge.stats.packets_received,
                    final(bridge).stats.packets_received,
                    true,
                )
                &&& final(bridge).stats.bytes_received == bridge.stats.bytes_received.saturating_add(
                    packet.bytes@.len() as usize,
                )
                &&& counts(
                    bridge.stats.source_mismatches,
                    final(bridge).stats.source_mismatches,
                    result is Err && result->Err_0 is SourceMismatch,
                )
                &&& counts(
                    bridge.stats.command_frames_received,
                    final(bridge).stats.command_frames_received,
                    result is Ok || result->Err_0 is SourceMismatch,
                )
                &&& final(bridge).stats.acks_sent == bridge.stats.acks_sent
            },
{
    law_commands_are_queued_or_answered::<G, Q>();
    assert forall|
        bridge: &mut GatewayClientTransportBridge,
        pipeline: &mut GatewayCommandPipeline,
        gateway: &mut G,
        queues: &mut OrderedMap<Q>,
        result: Result<(ClientId, usize, GatewayCommandPipelineReport), IngressRejection>,
    |
        #[trigger] call_ensures(
            GatewayClientTransportBridge::process_ingress_packet::<G, Q>,
            (bridge, pipeline, gateway, queues, packet, now, ingress),
            result,
        ) && queues.wf() && result is Ok implies {
        let command = decoded_frame(packet.bytes@)->Ok_0->Command_0;
        let envelope = EnvelopeModel { command, received_at: now };
        let report = result->Ok_0.2;
        &&& is_queued_or_refused(*gateway, queues@, final(queues)@, envelope, ingress, report@)
        &&& answers(pipeline.config, envelope, report@)
    } by {
        let command = decoded_frame(packet.bytes@)->Ok_0->Command_0;
        let report = result->Ok_0.2;
        law_acks_decode_to_their_command(command, now, report.accepted, report.reason_code);
    }
}

/// Number of reports that come with an acknowledgement.
pub open spec fn answered(reports: Seq<GatewayCommandPipelineReport>) -> nat
    decreases reports.len(),
{
    if reports.len() == 0 {
        0
    } else {
        answered(reports.drop_last()) + if reports.last().ack_bytes is Some {
            1nat
        } else {
            0
        }
    }
}

/// The report at `i` answers the command of the packet at `i`, and its acknowledgement was handed to
/// the transport for the command's client.
pub open spec fn is_answered<E>(
    config: GatewayCommandPipelineConfig,
    now: Tick,
    packet: InboundPacket,
    report: GatewayCommandPipelineReport,
    exchanges: Seq<Exchange<E>>,
) -> bool {
    exists|command: CommandModel| #[trigger]
        brings_command(packet, command) && {
            &&& answers(config, EnvelopeModel { command, received_at: now }, report@)
            &&& report@.ack matches Some(bytes) ==> sends_to(
                exchanges,
                command.client_id,
                bytes,
            )
        }
}

/// The transport took these bytes for the client.
pub open spec fn sends_to<E>(
    exchanges: Seq<Exchange<E>>,
    client_id: ClientId,
    bytes: Seq<u8>,
) -> bool {
    exchanges.contains(Exchange::Send { client_id, bytes, failure: None })
}

/// What a finished pass comes to.
pub open spec fn answers_all<E>(
    config: GatewayCommandPipelineConfig,
    now: Tick,
    max_packets: usize,
    packets: Seq<InboundPacket>,
    exchanges: Seq<Exchange<E>>,
    pump: GatewayClientTransportPump,
) -> bool {
    &&& packets.len() <= max_packets
    &&& pump.reports@.len() == packets.len()
    &&& forall|i: int|
        0 <= i < packets.len() ==> is_answered(
            config,
            now,
            packets[i],
            #[trigger] pump.reports@[i],
            exchanges,
        )
    &&& packets.len() < max_packets ==> exchanges.len() > 0 && exchanges.last()
        == Exchange::<E>::Receive(Ok(None))
    &&& pump.packets_received == packets.len()
    &&& pump.acks_sent == answered(pump.reports@)
}

proof fn lemma_sent<E>(
    config: GatewayCommandPipelineConfig,
    now: Tick,
    steps: Seq<IngressStep>,
    i: int,
)
    requires
        0 <= i < steps.len(),
        steps[i].ack(config, now) is Some,
    ensures
        sends_to(
            step_exchanges::<E>(config, now, steps),
            ingress_verdict(steps[i].packet)->Ok_0.client_id,
            steps[i].ack(config, now)->0,
        ),
    decreases steps.len(),
{
    let fewer = steps.drop_last();
    let rest = step_exchanges::<E>(config, now, fewer);
    let all = step_exchanges::<E>(config, now, steps);
    let sent = Exchange::<E>::Send {
        client_id: ingress_verdict(steps[i].packet)->Ok_0.client_id,
        bytes: steps[i].ack(config, now)->0,
        failure: None,
    };
    if i < steps.len() - 1 {
        lemma_sent::<E>(config, now, fewer, i);
        assert(fewer[i] == steps[i]);
        let k = choose|k: int| 0 <= k < rest.len() && rest[k] == sent;
        assert(all[k] == sent);
    } else {
        assert(all[rest.len() as int + 1] == sent);
    }
}

proof fn lemma_acks(
    config: GatewayCommandPipelineConfig,
    now: Tick,
    steps: Seq<IngressStep>,
    reports: Seq<GatewayCommandPipelineReport>,
)
    requires
        steps.len() == reports.len(),
        steps.len() <= usize::MAX,
        forall|i: int|
            0 <= i < steps.len() ==> (#[trigger] reports[i])@ == fate_report(
                config,
                ingress_verdict(steps[i].packet)->Ok_0,
                now,
                steps[i].fate,
            ),
    ensures
        ({
            let stats = GatewayClientTransportStats::zero().with_steps(config, now, steps);
            &&& stats.packets_received == steps.len()
            &&& stats.acks_sent == answered(reports)
        }),
        answered(reports) <= reports.len(),
    decreases steps.len(),
{
    if steps.len() > 0 {
        assert forall|i: int| 0 <= i < steps.len() - 1 implies (#[trigger] reports.drop_last()[i])@
            == fate_report(
            config,
            ingress_verdict(steps.drop_last()[i].packet)->Ok_0,
            now,
            steps.drop_last()[i].fate,
        ) by {
            assert(reports.drop_last()[i] == reports[i]);
        }
        lemma_acks(config, now, steps.drop_last(), reports.drop_last());
        assert(reports[reports.len() - 1]@.ack is Some <==> reports.last().ack_bytes is Some);
    }
}

/// A pass that ends well brings every packet that it takes before the gateway as the command of its
/// own client. It reports each in order, and hands the acknowledgement of each to the transport for
/// that client.
pub proof fn law_passes_answer_every_command<
    E,
    T: TransportReceiver<Error = E> + TransportSink<Error = E>,
    G: CommandGateway,
    Q: StationCommandQueue,
>(now: Tick, ingress: Q::Ingress, max_packets: usize)
    ensures
        forall|
            bridge: &mut GatewayClientTransportBridge,
            transport: &mut T,
            pipeline: &mut GatewayCommandPipeline,
            gateway: &mut G,
            queues: &mut OrderedMap<Q>,
            result: Result<GatewayClientTransportPump, GatewayClientTransportError<E>>,
        |
            #[trigger] call_ensures(
                GatewayClientTransportBridge::pump_ingress::<E, T, G, Q>,
                (bridge, transport, pipeline, gateway, queues, now, ingress, max_packets),
                result,
            ) && queues.wf() && result is Ok ==> exists|
                packets: Seq<InboundPacket>,
                exchanges: Seq<Exchange<E>>,
                links: Seq<T>,
            |
                {
                    &&& #[trigger] answers_all(
                        pipeline.config,
                        now,
                        max_packets,
                        packets,
                        exchanges,
                        result->Ok_0,
                    )
                    &&& #[trigger] linked(links, exchanges, *transport, *final(transport))
                    &&& forall|i: int| #[trigger]
                        asked(exchanges, i) ==> match exchanges[i] {
                            Exchange::Receive(answer) => exists|receiver: &mut T| #[trigger]
                                call_ensures(T::try_recv, (receiver,), answer) && *receiver
                                    == links[i] && *final(receiver) == links[i + 1],
                            Exchange::Send { client_id, bytes, failure } => exists|
                                sender: &mut T,
                                packet: OutboundPacket,
                                outcome: Result<(), E>,
                            |
                                #![trigger call_ensures(T::send, (sender, packet), outcome)]
                                {
                                    &&& call_ensures(T::send, (sender, packet), outcome)
                                    &&& *sender == links[i]
                                    &&& *final(sender) == links[i + 1]
                                    &&& packet.client_id == client_id
                                    &&& packet.bytes@ == bytes
                                    &&& failure == failure_of(outcome)
                                },
                        }
                },
{
    assert forall|
        bridge: &mut GatewayClientTransportBridge,
        transport: &mut T,
        pipeline: &mut GatewayCommandPipeline,
        gateway: &mut G,
        queues: &mut OrderedMap<Q>,
        result: Result<GatewayClientTransportPump, GatewayClientTransportError<E>>,
    |
        #[trigger] call_ensures(
            GatewayClientTransportBridge::pump_ingress::<E, T, G, Q>,
            (bridge, transport, pipeline, gateway, queues, now, ingress, max_packets),
            result,
        ) && queues.wf() && result is Ok implies exists|
        packets: Seq<InboundPacket>,
        exchanges: Seq<Exchange<E>>,
        links: Seq<T>,
    |
        {
            &&& #[trigger] answers_all(
                pipeline.config,
                now,
                max_packets,
                packets,
                exchanges,
                result->Ok_0,
            )
            &&& #[trigger] linked(links, exchanges, *transport, *final(transport))
            &&& forall|i: int| #[trigger]
                asked(exchanges, i) ==> match exchanges[i] {
                    Exchange::Receive(answer) => exists|receiver: &mut T| #[trigger]
                        call_ensures(T::try_recv, (receiver,), answer) && *receiver
                            == links[i] && *final(receiver) == links[i + 1],
                    Exchange::Send { client_id, bytes, failure } => exists|
                        sender: &mut T,
                        packet: OutboundPacket,
                        outcome: Result<(), E>,
                    |
                        #![trigger call_ensures(T::send, (sender, packet), outcome)]
                        {
                            &&& call_ensures(T::send, (sender, packet), outcome)
                            &&& *sender == links[i]
                            &&& *final(sender) == links[i + 1]
                            &&& packet.client_id == client_id
                            &&& packet.bytes@ == bytes
                            &&& failure == failure_of(outcome)
                        },
                }
        } by {
        let config = pipeline.config;
        let pump = result->Ok_0;
        let (steps, end, links) = choose|
            steps: Seq<IngressStep>,
            end: IngressEnd<E>,
            links: Seq<T>,
        |
            {
                &&& #[trigger] final(bridge).pumped::<E, G, Q>(
                    *bridge,
                    *final(pipeline),
                    *pipeline,
                    now,
                    ingress,
                    max_packets,
                    steps,
                    end,
                )
                &&& end is Drained
                &&& crate::gateway_bridge::pump_holds(pump, config, now, steps)
                &&& #[trigger] linked(
                    links,
                    end.exchanges(config, now, max_packets, steps),
                    *transport,
                    *final(transport),
                )
                &&& forall|i: int| #[trigger]
                    asked(end.exchanges(config, now, max_packets, steps), i) ==> match end.exchanges(
                        config,
                        now,
                        max_packets,
                        steps,
                    )[i] {
                        Exchange::Receive(answer) => exists|receiver: &mut T| #[trigger]
                            call_ensures(T::try_recv, (receiver,), answer) && *receiver == links[i]
                                && *final(receiver) == links[i + 1],
                        Exchange::Send { client_id, bytes, failure } => exists|
                            sender: &mut T,
                            packet: OutboundPacket,
                            outcome: Result<(), E>,
                        |
                            #![trigger call_ensures(T::send, (sender, packet), outcome)]
                            {
                                &&& call_ensures(T::send, (sender, packet), outcome)
                                &&& *sender == links[i]
                                &&& *final(sender) == links[i + 1]
                                &&& packet.client_id == client_id
                                &&& packet.bytes@ == bytes
                                &&& failure == failure_of(outcome)
                            },
                    }
            };
        let packets = steps.map_values(|step: IngressStep| step.packet);
        let exchanges = end.exchanges(config, now, max_packets, steps);
        let talk = step_exchanges::<E>(config, now, steps);
        lemma_acks(config, now, steps, pump.reports@);
        assert forall|i: int| 0 <= i < packets.len() implies is_answered(
            config,
            now,
            packets[i],
            #[trigger] pump.reports@[i],
            exchanges,
        ) by {
            let command = ingress_verdict(steps[i].packet)->Ok_0;
            assert(steps[i].arises::<G, Q>(now, ingress));
            assert(brings_command(packets[i], command));
            let report = pump.reports@[i];
            law_acks_decode_to_their_command(command, now, report.accepted, report.reason_code);
            if let Some(bytes) = report@.ack {
                lemma_sent::<E>(config, now, steps, i);
                let sent = Exchange::<E>::Send {
                    client_id: command.client_id,
                    bytes,
                    failure: None,
                };
                let k = choose|k: int| 0 <= k < talk.len() && talk[k] == sent;
                assert(exchanges[k] == sent);
            }
        }
        assert(answers_all(config, now, max_packets, packets, exchanges, pump));
    }
}

} // verus!
