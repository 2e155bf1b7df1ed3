//! What the gateway promises of a command: it reaches the queue or the node that its route names, or
//! its client learns why not.

use vstd::prelude::*;

use crate::deployment::{DeploymentError, DeploymentNodeState, DeploymentRouteTable, GatewayRoute};
use crate::deployment_laws::{is_in_state, stands_on};
use crate::frames::{CommandAckFrame, CommandFrame, EnvelopeModel, FrameModel};
use crate::gateway::{
    law_acks_decode_to_their_command, CommandGateway, CommandQueueError, GatewayAdmission,
    GatewayCommandPipeline, GatewayCommandPipelineConfig, GatewayCommandPipelineError,
    GatewayCommandPipelineReport, GatewayCommandPipelineStats, GatewayError, ReportModel,
    StationCommandQueue,
};
use crate::ids::{CommandEnvelope, Tick};
use crate::ordered_map::OrderedMap;
use crate::wire_spec::{decoded_frame, BinaryDecodeError};

verus! {

/// A count is one higher where something happened, and what it was where it did not. A count at its
/// greatest value stays there.
pub open spec fn counts(before: usize, after: usize, happened: bool) -> bool {
    after == if happened && before < usize::MAX {
        before + 1
    } else {
        before as int
    }
}

/// Admission of the command may come out this way.
pub open spec fn may_admit<G: CommandGateway>(
    gateway: G,
    command: EnvelopeModel,
    outcome: Result<GatewayAdmission, GatewayError>,
) -> bool {
    exists|session: &mut G, envelope: CommandEnvelope|
        #![trigger call_ensures(G::admit_command, (session, &envelope), outcome)]
        {
            &&& call_ensures(G::admit_command, (session, &envelope), outcome)
            &&& *session == gateway
            &&& envelope@ == command
        }
}

/// Queueing the command may come out this way.
pub open spec fn may_push<Q: StationCommandQueue>(
    queue: Q,
    command: EnvelopeModel,
    ingress: Q::Ingress,
    pushed: Result<(), CommandQueueError>,
) -> bool {
    exists|target: &mut Q, envelope: CommandEnvelope|
        #![trigger call_ensures(Q::push, (target, envelope, ingress), pushed)]
        {
            &&& call_ensures(Q::push, (target, envelope, ingress), pushed)
            &&& *target == queue
            &&& envelope@ == command
        }
}

/// The report names its command, and the acknowledgement decodes to the report's verdict. A
/// rejection goes without one only where rejections are not acknowledged.
pub open spec fn answers(
    config: GatewayCommandPipelineConfig,
    command: EnvelopeModel,
    report: ReportModel,
) -> bool {
    &&& report.client_id == Some(command.command.client_id)
    &&& report.command_id == Some(command.command.command_id)
    &&& report.accepted <==> report.reason_code == 0
    &&& report.accepted <==> report.error is None
    &&& report.ack is Some <==> report.accepted || config.ack_rejections
    &&& report.ack matches Some(ack) ==> decoded_frame(ack) == Ok::<FrameModel, BinaryDecodeError>(
        FrameModel::CommandAck(
            CommandAckFrame {
                client_id: command.command.client_id,
                command_id: command.command.command_id,
                server_tick: command.received_at,
                accepted: report.accepted,
                reason_code: report.reason_code,
            },
        ),
    )
}

/// The gateway itself turned the command away: the client is told whether it sent too fast, too late
/// or was not welcome at all.
pub open spec fn turns_away(report: ReportModel, error: GatewayError) -> bool {
    &&& !report.accepted
    &&& report.error == Some(GatewayCommandPipelineError::Gateway(error))
    &&& report.station_id is None
    &&& report.node_id is None
    &&& report.delivery is None
    &&& report.command is None
    &&& report.reason_code == 2 <==> error is RateLimited
    &&& report.reason_code == 3 <==> error is ReplayOrStale
    &&& report.reason_code == 1 <==> !(error is RateLimited) && !(error is ReplayOrStale)
}

/// The command stands in the queue of its station, or its client learns why not. No other queue
/// changes.
pub open spec fn is_queued_or_refused<G: CommandGateway, Q: StationCommandQueue>(
    gateway: G,
    before: Map<u128, Q>,
    after: Map<u128, Q>,
    command: EnvelopeModel,
    ingress: Q::Ingress,
    report: ReportModel,
) -> bool {
    exists|outcome: Result<GatewayAdmission, GatewayError>| #[trigger]
        may_admit(gateway, command, outcome) && match outcome {
            Err(error) => turns_away(report, error) && after == before,
            Ok(admission) => {
                let key = admission.route.station_id.0 as u128;
                &&& report.station_id == Some(admission.route.station_id)
                &&& report.node_id is None
                &&& report.delivery is None
                &&& report.command is None
                &&& forall|other: u128|
                    other != key ==> {
                        &&& #[trigger] after.contains_key(other) <==> before.contains_key(other)
                        &&& before.contains_key(other) ==> after[other] == before[other]
                    }
                &&& !before.contains_key(key) ==> {
                    &&& after == before
                    &&& report.reason_code == 6
                    &&& report.error == Some(
                        GatewayCommandPipelineError::MissingQueue(admission.route.station_id),
                    )
                }
                &&& before.contains_key(key) ==> exists|pushed: Result<(), CommandQueueError>|
                    #[trigger] may_push(before[key], command, ingress, pushed) && {
                        &&& report.accepted <==> pushed is Ok
                        &&& pushed matches Err(error) ==> {
                            &&& report.error == Some(GatewayCommandPipelineError::Queue(error))
                            &&& report.reason_code == 4 <==> error is QueueFull
                            &&& report.reason_code == 5 <==> error is RejectedByBarrier
                        }
                    }
            },
        }
}

/// Every command that is to be queued is counted once as what became of it.
pub open spec fn counts_queueing(
    before: GatewayCommandPipelineStats,
    after: GatewayCommandPipelineStats,
    report: ReportModel,
) -> bool {
    let turned_away = report.error is Some && report.error->0 is Gateway;
    &&& after.frames_rejected_decode == before.frames_rejected_decode
    &&& after.frames_rejected_non_command == before.frames_rejected_non_command
    &&& counts(before.commands_admitted, after.commands_admitted, !turned_away)
    &&& counts(before.commands_enqueued, after.commands_enqueued, report.accepted)
    &&& counts(before.commands_rejected_gateway, after.commands_rejected_gateway, turned_away)
    &&& counts(
        before.commands_rejected_queue,
        after.commands_rejected_queue,
        !report.accepted && !turned_away,
    )
    &&& after.commands_routed_deployment == before.commands_routed_deployment
    &&& after.commands_rejected_deployment == before.commands_rejected_deployment
    &&& counts(before.acks_encoded, after.acks_encoded, report.ack is Some)
}

/// A command goes to the queue of the station that its admission names, and its client is answered
/// with what the queue said. A command that was not admitted, or whose station has no queue, changes
/// no queue and says so in its answer. It is counted once.
pub proof fn law_commands_are_queued_or_answered<G: CommandGateway, Q: StationCommandQueue>()
    ensures
        forall|
            pipeline: &mut GatewayCommandPipeline,
            gateway: &mut G,
            queues: &mut OrderedMap<Q>,
            frame: CommandFrame,
            now: Tick,
            ingress: Q::Ingress,
            report: GatewayCommandPipelineReport,
        |
            #[trigger] call_ensures(
                GatewayCommandPipeline::process_command_frame::<G, Q>,
                (pipeline, gateway, queues, frame, now, ingress),
                report,
            ) ==> {
                let command = EnvelopeModel { command: frame@, received_at: now };
                &&& is_queued_or_refused(
                    *gateway,
                    queues@,
                    final(queues)@,
                    command,
                    ingress,
                    report@,
                )
                &&& answers(pipeline.config, command, report@)
                &&& counts_queueing(pipeline.stats, final(pipeline).stats, report@)
                &&& final(pipeline).stats.command_frames_decoded
                    == pipeline.stats.command_frames_decoded
                &&& final(pipeline).config == pipeline.config
            },
{
    assert forall|
        pipeline: &mut GatewayCommandPipeline,
        gateway: &mut G,
        queues: &mut OrderedMap<Q>,
        frame: CommandFrame,
        now: Tick,
        ingress: Q::Ingress,
        report: GatewayCommandPipelineReport,
    |
        #[trigger] call_ensures(
            GatewayCommandPipeline::process_command_frame::<G, Q>,
            (pipeline, gateway, queues, frame, now, ingress),
            report,
        ) implies {
        let command = EnvelopeModel { command: frame@, received_at: now };
        &&& is_queued_or_refused(*gateway, queues@, final(queues)@, command, ingress, report@)
        &&& answers(pipeline.config, command, report@)
        &&& counts_queueing(pipeline.stats, final(pipeline).stats, report@)
        &&& final(pipeline).stats.command_frames_decoded == pipeline.stats.command_frames_decoded
        &&& final(pipeline).config == pipeline.config
    } by {
        let command = EnvelopeModel { command: frame@, received_at: now };
        law_acks_decode_to_their_command(frame@, now, report.accepted, report.reason_code);
        let (session, envelope, outcome) = choose|
            session: &mut G,
            envelope: CommandEnvelope,
            outcome: Result<GatewayAdmission, GatewayError>,
        |
            #![trigger call_ensures(G::admit_command, (session, &envelope), outcome)]
            {
                &&& envelope@ == command
                &&& call_ensures(G::admit_command, (session, &envelope), outcome)
                &&& *session == *gateway
                &&& match outcome {
                    Err(error) => {
                        &&& *final(queues) == *queues
                        &&& turns_away(report@, error)
                    },
                    Ok(admission) => {
                        let key = admission.route.station_id.0 as u128;
                        &&& report@.station_id == Some(admission.route.station_id)
                        &&& !queues@.contains_key(key) ==> {
                            &&& *final(queues) == *queues
                            &&& report@.reason_code == 6
                            &&& report@.error == Some(
                                GatewayCommandPipelineError::MissingQueue(
                                    admission.route.station_id,
                                ),
                            )
                        }
                        &&& queues@.contains_key(key) ==> exists|
                            queue: &mut Q,
                            pushed: Result<(), CommandQueueError>,
                        |
                            #![trigger call_ensures(Q::push, (queue, envelope, ingress), pushed)]
                            {
                                &&& call_ensures(Q::push, (queue, envelope, ingress), pushed)
                                &&& *queue == queues@[key]
                                &&& final(queues)@ == queues@.insert(key, *final(queue))
                                &&& report@.accepted <==> pushed is Ok
                                &&& pushed matches Err(error) ==> {
                                    &&& report@.error == Some(
                                        GatewayCommandPipelineError::Queue(error),
                                    )
                                    &&& report@.reason_code == 4 <==> error is QueueFull
                                    &&& report@.reason_code == 5 <==> error is RejectedByBarrier
                                }
                            }
                    },
                }
            };
        assert(may_admit(*gateway, command, outcome));
        if let Ok(admission) = outcome {
            let key = admission.route.station_id.0 as u128;
            if queues@.contains_key(key) {
                let (queue, pushed) = choose|queue: &mut Q, pushed: Result<(), CommandQueueError>|
                    #![trigger call_ensures(Q::push, (queue, envelope, ingress), pushed)]
                    {
                        &&& call_ensures(Q::push, (queue, envelope, ingress), pushed)
                        &&& *queue == queues@[key]
                        &&& final(queues)@ == queues@.insert(key, *final(queue))
                        &&& report@.accepted <==> pushed is Ok
                        &&& pushed matches Err(error) ==> {
                            &&& report@.error == Some(GatewayCommandPipelineError::Queue(error))
                            &&& report@.reason_code == 4 <==> error is QueueFull
                            &&& report@.reason_code == 5 <==> error is RejectedByBarrier
                        }
                    };
                assert(may_push(queues@[key], command, ingress, pushed));
            }
        }
    }
}

/// A packet with a command is decoded and treated as that command. Any other packet is turned away
/// unanswered, counted by what was wrong with it, and changes neither the gateway nor a queue.
pub proof fn law_command_packets_are_queued_or_answered<G: CommandGateway, Q: StationCommandQueue>()
    ensures
        forall|
            pipeline: &mut GatewayCommandPipeline,
            gateway: &mut G,
            queues: &mut OrderedMap<Q>,
            input: &[u8],
            now: Tick,
            ingress: Q::Ingress,
            report: GatewayCommandPipelineReport,
        |
            #[trigger] call_ensures(
                GatewayCommandPipeline::process::<G, Q>,
                (pipeline, gateway, queues, input, now, ingress),
                report,
            ) ==> match decoded_frame(input@) {
                Ok(FrameModel::Command(frame)) => {
                    let command = EnvelopeModel { command: frame, received_at: now };
                    &&& is_queued_or_refused(
                        *gateway,
                        queues@,
                        final(queues)@,
                        command,
                        ingress,
                        report@,
                    )
                    &&& answers(pipeline.config, command, report@)
                    &&& counts_queueing(pipeline.stats, final(pipeline).stats, report@)
                    &&& counts(
                        pipeline.stats.command_frames_decoded,
                        final(pipeline).stats.command_frames_decoded,
                        true,
                    )
                },
                decoded => {
                    &&& *final(gateway) == *gateway
                    &&& *final(queues) == *queues
                    &&& is_unreadable(decoded, pipeline.stats, final(pipeline).stats, report@)
                },
            },
{
    assert forall|
        pipeline: &mut GatewayCommandPipeline,
        gateway: &mut G,
        queues: &mut OrderedMap<Q>,
        input: &[u8],
        now: Tick,
        ingress: Q::Ingress,
        report: GatewayCommandPipelineReport,
    |
        #[trigger] call_ensures(
            GatewayCommandPipeline::process::<G, Q>,
            (pipeline, gateway, queues, input, now, ingress),
            report,
        ) implies match decoded_frame(input@) {
        Ok(FrameModel::Command(frame)) => {
            let command = EnvelopeModel { command: frame, received_at: now };
            &&& is_queued_or_refused(*gateway, queues@, final(queues)@, command, ingress, report@)
            &&& answers(pipeline.config, command, report@)
            &&& counts_queueing(pipeline.stats, final(pipeline).stats, report@)
            &&& counts(
                pipeline.stats.command_frames_decoded,
                final(pipeline).stats.command_frames_decoded,
                true,
            )
        },
        decoded => {
            &&& *final(gateway) == *gateway
            &&& *final(queues) == *queues
            &&& is_unreadable(decoded, pipeline.stats, final(pipeline).stats, report@)
        },
    } by {
        law_commands_are_queued_or_answered::<G, Q>();
        if let Ok(FrameModel::Command(frame)) = decoded_frame(input@) {
            law_acks_decode_to_their_command(frame, now, report.accepted, report.reason_code);
        }
    }
}

/// What is known of a packet without a command.
pub open spec fn is_unreadable(
    decoded: Result<FrameModel, BinaryDecodeError>,
    before: GatewayCommandPipelineStats,
    after: GatewayCommandPipelineStats,
    report: ReportModel,
) -> bool {
    &&& !report.accepted
    &&& report.reason_code == 1
    &&& report.ack is None
    &&& report.client_id is None
    &&& report.command_id is None
    &&& report.station_id is None
    &&& report.node_id is None
    &&& report.delivery is None
    &&& report.command is None
    &&& decoded matches Err(error) ==> report.error == Some(
        GatewayCommandPipelineError::Decode(error),
    )
    &&& decoded is Ok ==> report.error == Some(GatewayCommandPipelineError::NonCommandFrame)
    &&& counts(before.frames_rejected_decode, after.frames_rejected_decode, decoded is Err)
    &&& counts(before.frames_rejected_non_command, after.frames_rejected_non_command, decoded is Ok)
    &&& after == (GatewayCommandPipelineStats {
        frames_rejected_decode: after.frames_rejected_decode,
        frames_rejected_non_command: after.frames_rejected_non_command,
        ..before
    })
}

/// The command leads to the node of its station while that node is not offline, or its client learns
/// why not.
pub open spec fn is_routed_or_refused<G: CommandGateway>(
    gateway: G,
    deployment: DeploymentRouteTable,
    command: EnvelopeModel,
    report: ReportModel,
) -> bool {
    exists|outcome: Result<GatewayAdmission, GatewayError>| #[trigger]
        may_admit(gateway, command, outcome) && match outcome {
            Err(error) => turns_away(report, error),
            Ok(admission) => leads_to_its_node(deployment, admission.route, command, report),
        }
}

/// An admitted command leads to the node of its station while that node is not offline.
pub open spec fn leads_to_its_node(
    deployment: DeploymentRouteTable,
    route: GatewayRoute,
    command: EnvelopeModel,
    report: ReportModel,
) -> bool {
    let key = route.station_id.0 as u128;
    let node_id = deployment.stations@[key].node_id;
    &&& report.station_id == Some(route.station_id)
    &&& report.accepted <==> stands_on(deployment, route.station_id, node_id) && !is_in_state(
        deployment,
        node_id,
        DeploymentNodeState::Offline,
    )
    &&& report.accepted ==> {
        &&& report.node_id == Some(node_id)
        &&& report.command == Some(command)
        &&& report.delivery matches Some(delivery)
        &&& delivery.client_id == route.client_id
        &&& delivery.station_id == route.station_id
        &&& delivery.node_id == node_id
        &&& delivery.station_route_epoch == deployment.stations@[key].route_epoch
    }
    &&& !report.accepted ==> {
        &&& report.node_id is None
        &&& report.command is None
        &&& report.delivery is None
        &&& report.reason_code == 7
        &&& report.error == Some(
            GatewayCommandPipelineError::Deployment(
                if deployment.stations@.contains_key(key) {
                    DeploymentError::NodeUnavailable {
                        node_id,
                        state: DeploymentNodeState::Offline,
                    }
                } else {
                    DeploymentError::MissingStation(route.station_id)
                },
            ),
        )
    }
}

/// Every command that is to be dispatched is counted once as what became of it.
pub open spec fn counts_dispatch(
    before: GatewayCommandPipelineStats,
    after: GatewayCommandPipelineStats,
    report: ReportModel,
) -> bool {
    let turned_away = report.error is Some && report.error->0 is Gateway;
    &&& after.frames_rejected_decode == before.frames_rejected_decode
    &&& after.frames_rejected_non_command == before.frames_rejected_non_command
    &&& counts(before.commands_admitted, after.commands_admitted, !turned_away)
    &&& after.commands_enqueued == before.commands_enqueued
    &&& counts(before.commands_rejected_gateway, after.commands_rejected_gateway, turned_away)
    &&& after.commands_rejected_queue == before.commands_rejected_queue
    &&& counts(before.commands_routed_deployment, after.commands_routed_deployment, report.accepted)
    &&& counts(
        before.commands_rejected_deployment,
        after.commands_rejected_deployment,
        !report.accepted && !turned_away,
    )
    &&& counts(before.acks_encoded, after.acks_encoded, report.ack is Some)
}

/// An admitted command is handed on, with its delivery route, to the node of its station unless that
/// node is offline. Its client is answered either way. It is counted once.
pub proof fn law_commands_are_routed_or_answered<G: CommandGateway>()
    ensures
        forall|
            pipeline: &mut GatewayCommandPipeline,
            gateway: &mut G,
            deployment: &DeploymentRouteTable,
            frame: CommandFrame,
            now: Tick,
            report: GatewayCommandPipelineReport,
        |
            #[trigger] call_ensures(
                GatewayCommandPipeline::dispatch_command_frame::<G>,
                (pipeline, gateway, deployment, frame, now),
                report,
            ) && deployment.wf() ==> {
                let command = EnvelopeModel { command: frame@, received_at: now };
                &&& is_routed_or_refused(*gateway, *deployment, command, report@)
                &&& answers(pipeline.config, command, report@)
                &&& counts_dispatch(pipeline.stats, final(pipeline).stats, report@)
                &&& final(pipeline).stats.command_frames_decoded
                    == pipeline.stats.command_frames_decoded
                &&& final(pipeline).config == pipeline.config
            },
{
    assert forall|
        pipeline: &mut GatewayCommandPipeline,
        gateway: &mut G,
        deployment: &DeploymentRouteTable,
        frame: CommandFrame,
        now: Tick,
        report: GatewayCommandPipelineReport,
    |
        #[trigger] call_ensures(
            GatewayCommandPipeline::dispatch_command_frame::<G>,
            (pipeline, gateway, deployment, frame, now),
            report,
        ) && deployment.wf() implies {
        let command = EnvelopeModel { command: frame@, received_at: now };
        &&& is_routed_or_refused(*gateway, *deployment, command, report@)
        &&& answers(pipeline.config, command, report@)
        &&& counts_dispatch(pipeline.stats, final(pipeline).stats, report@)
        &&& final(pipeline).stats.command_frames_decoded == pipeline.stats.command_frames_decoded
        &&& final(pipeline).config == pipeline.config
    } by {
        let command = EnvelopeModel { command: frame@, received_at: now };
        law_acks_decode_to_their_command(frame@, now, report.accepted, report.reason_code);
        let (session, envelope, outcome) = choose|
            session: &mut G,
            envelope: CommandEnvelope,
            outcome: Result<GatewayAdmission, GatewayError>,
        |
            #![trigger call_ensures(G::admit_command, (session, &envelope), outcome)]
            {
                &&& envelope@ == command
                &&& call_ensures(G::admit_command, (session, &envelope), outcome)
                &&& *session == *gateway
                &&& match outcome {
                    Err(error) => turns_away(report@, error),
                    Ok(admission) => leads_to_its_node(
                        *deployment,
                        admission.route,
                        command,
                        report@,
                    ),
                }
            };
        assert(may_admit(*gateway, command, outcome));
    }
}

/// A packet with a command is decoded and dispatched as that command. Any other packet is turned
/// away unanswered and does not reach the gateway.
pub proof fn law_command_packets_are_routed_or_answered<G: CommandGateway>()
    ensures
        forall|
            pipeline: &mut GatewayCommandPipeline,
            gateway: &mut G,
            deployment: &DeploymentRouteTable,
            input: &[u8],
            now: Tick,
            report: GatewayCommandPipelineReport,
        |
            #[trigger] call_ensures(
                GatewayCommandPipeline::dispatch::<G>,
                (pipeline, gateway, deployment, input, now),
                report,
            ) && deployment.wf() ==> match decoded_frame(input@) {
                Ok(FrameModel::Command(frame)) => {
                    let command = EnvelopeModel { command: frame, received_at: now };
                    &&& is_routed_or_refused(*gateway, *deployment, command, report@)
                    &&& answers(pipeline.config, command, report@)
                    &&& counts_dispatch(pipeline.stats, final(pipeline).stats, report@)
                    &&& counts(
                        pipeline.stats.command_frames_decoded,
                        final(pipeline).stats.command_frames_decoded,
                        true,
                    )
                },
                decoded => {
                    &&& *final(gateway) == *gateway
                    &&& is_unreadable(decoded, pipeline.stats, final(pipeline).stats, report@)
                },
            },
{
    assert forall|
        pipeline: &mut GatewayCommandPipeline,
        gateway: &mut G,
        deployment: &DeploymentRouteTable,
        input: &[u8],
        now: Tick,
        report: GatewayCommandPipelineReport,
    |
        #[trigger] call_ensures(
            GatewayCommandPipeline::dispatch::<G>,
            (pipeline, gateway, deployment, input, now),
            report,
        ) && deployment.wf() implies match decoded_frame(input@) {
        Ok(FrameModel::Command(frame)) => {
            let command = EnvelopeModel { command: frame, received_at: now };
            &&& is_routed_or_refused(*gateway, *deployment, command, report@)
            &&& answers(pipeline.config, command, report@)
            &&& counts_dispatch(pipeline.stats, final(pipeline).stats, report@)
            &&& counts(
                pipeline.stats.command_frames_decoded,
                final(pipeline).stats.command_frames_decoded,
                true,
            )
        },
        decoded => {
            &&& *final(gateway) == *gateway
            &&& is_unreadable(decoded, pipeline.stats, final(pipeline).stats, report@)
        },
    } by {
        if let Ok(FrameModel::Command(frame)) = decoded_frame(input@) {
            let command = EnvelopeModel { command: frame, received_at: now };
            law_acks_decode_to_their_command(frame, now, report.accepted, report.reason_code);
            let (session, envelope, outcome) = choose|
                session: &mut G,
                envelope: CommandEnvelope,
                outcome: Result<GatewayAdmission, GatewayError>,
            |
                #![trigger call_ensures(G::admit_command, (session, &envelope), outcome)]
                {
                    &&& envelope@ == command
                    &&& call_ensures(G::admit_command, (session, &envelope), outcome)
                    &&& *session == *gateway
                    &&& match outcome {
                        Err(error) => turns_away(report@, error),
                        Ok(admission) => leads_to_its_node(
                            *deployment,
                            admission.route,
                            command,
                            report@,
                        ),
                    }
                };
            assert(may_admit(*gateway, command, outcome));
        }
    }
}

} // verus!
