//! Gateway command pipeline: command packets in, station queues or delivery routes and
//! acknowledgements out.

use vstd::prelude::*;

use crate::deployment::{DeploymentError, DeploymentRouteTable, GatewayDeliveryRoute, GatewayRoute};
use crate::frames::{
    CommandAckFrame, CommandFrame, CommandModel, EnvelopeModel, FrameDecoder, FrameEncoder,
    FrameModel, RuntimeFrame,
};
use crate::ids::{ClientId, CommandEnvelope, CommandId, CommandPriority, NodeId, StationId, Tick};
use crate::ordered_map::OrderedMap;
use crate::wire_codec::{BinaryFrameDecoder, BinaryFrameEncoder};
use crate::wire_spec::{command_ack_bytes, decoded_frame, BinaryDecodeError, BinaryEncodeError};

verus! {

/// Accepted command ACK reason code.
pub const GATEWAY_COMMAND_ACK_ACCEPTED: u16 = 0;

/// Command was rejected by generic gateway/session state.
pub const GATEWAY_COMMAND_ACK_GATEWAY_REJECTED: u16 = 1;

/// Command was rejected by gateway rate limiting.
pub const GATEWAY_COMMAND_ACK_RATE_LIMITED: u16 = 2;

/// Command was rejected as stale or replayed.
pub const GATEWAY_COMMAND_ACK_REPLAY_OR_STALE: u16 = 3;

/// Command could not be queued because a target station queue was full.
pub const GATEWAY_COMMAND_ACK_QUEUE_FULL: u16 = 4;

/// Command was rejected by the station barrier ingress policy.
pub const GATEWAY_COMMAND_ACK_BARRIER_REJECTED: u16 = 5;

/// Command route pointed at a station queue that was not registered.
pub const GATEWAY_COMMAND_ACK_MISSING_QUEUE: u16 = 6;

/// Command could not be resolved through deployment metadata.
pub const GATEWAY_COMMAND_ACK_DEPLOYMENT_REJECTED: u16 = 7;

/// Why the gateway refuses a command.
#[derive(Clone, Copy, Debug, PartialEq, Eq, Structural)]
pub enum GatewayError {
    /// The client has no session.
    MissingSession(ClientId),
    /// The session is disconnected.
    SessionDisconnected {
        /// Client of the session.
        client_id: ClientId,
    },
    /// The session was replaced by a newer one.
    BadGeneration {
        /// Client of the session.
        client_id: ClientId,
    },
    /// The session table is full.
    CapacityFull {
        /// Configured capacity.
        capacity: usize,
    },
    /// The command is not newer than the last one admitted.
    ReplayOrStale {
        /// Client of the session.
        client_id: ClientId,
        /// Sequence of the command.
        sequence: u64,
    },
    /// The client sent too many commands in this tick.
    RateLimited {
        /// Client of the session.
        client_id: ClientId,
        /// Configured limit.
        limit: usize,
    },
}

/// A command that the gateway admits.
#[derive(Clone, Copy, Debug, PartialEq, Eq, Structural)]
pub struct GatewayAdmission {
    /// Where the command goes.
    pub route: GatewayRoute,
}

/// Session state that admits commands.
pub trait CommandGateway {
    /// Admits a command, or refuses it.
    fn admit_command(&mut self, command: &CommandEnvelope) -> Result<
        GatewayAdmission,
        GatewayError,
    >;
}

/// Why a station queue refuses a command.
#[derive(Clone, Copy, Debug, PartialEq, Eq, Structural)]
pub enum CommandQueueError {
    /// The queue of this priority is full.
    QueueFull(CommandPriority),
    /// A barrier refuses commands of this priority.
    RejectedByBarrier(CommandPriority),
}

/// Command queue of one station.
pub trait StationCommandQueue {
    /// What the queue is told of the station's state.
    type Ingress: Copy;

    /// Queues a command, or refuses it.
    fn push(&mut self, command: CommandEnvelope, ingress: Self::Ingress) -> Result<
        (),
        CommandQueueError,
    >;
}

/// Gateway command pipeline configuration.
#[derive(Clone, Copy, Debug, PartialEq, Eq, Structural)]
pub struct GatewayCommandPipelineConfig {
    /// Encode negative ACKs for gateway/queue rejections.
    pub ack_rejections: bool,
}

impl Default for GatewayCommandPipelineConfig {
    fn default() -> (config: Self)
        ensures
            config.ack_rejections,
    {
        Self { ack_rejections: true }
    }
}

/// Gateway command pipeline error.
#[derive(Clone, Debug, PartialEq, Eq)]
pub enum GatewayCommandPipelineError {
    /// Wire decode failed.
    Decode(BinaryDecodeError),
    /// Frame decoded correctly but was not a command frame.
    NonCommandFrame,
    /// Gateway/session metadata rejected the command.
    Gateway(GatewayError),
    /// Gateway route pointed at a missing station queue.
    MissingQueue(StationId),
    /// Target station queue rejected the command.
    Queue(CommandQueueError),
    /// Deployment route metadata rejected command delivery.
    Deployment(DeploymentError),
    /// ACK encode failed.
    Encode(BinaryEncodeError),
}

/// What became of a command that was to be queued.
#[derive(Clone, Copy, Debug, PartialEq, Eq, Structural)]
pub enum CommandFate {
    /// The gateway refused it.
    Refused(GatewayError),
    /// It was admitted for a station without a queue.
    MissingQueue(StationId),
    /// It was admitted, and the station's queue refused it.
    QueueRefused(StationId, CommandQueueError),
    /// It was admitted and queued.
    Enqueued(StationId),
}

/// What became of a command that was to be dispatched.
#[derive(Clone, Copy, Debug, PartialEq, Eq, Structural)]
pub enum DispatchFate {
    /// The gateway refused it.
    Refused(GatewayError),
    /// It was admitted for a station that it cannot be delivered to.
    Undeliverable(StationId, DeploymentError),
    /// It was admitted and routed.
    Routed(GatewayDeliveryRoute),
}

/// ACK reason code of a gateway refusal.
pub open spec fn gateway_reason(error: GatewayError) -> u16 {
    match error {
        GatewayError::ReplayOrStale { .. } => GATEWAY_COMMAND_ACK_REPLAY_OR_STALE,
        GatewayError::RateLimited { .. } => GATEWAY_COMMAND_ACK_RATE_LIMITED,
        _ => GATEWAY_COMMAND_ACK_GATEWAY_REJECTED,
    }
}

fn gateway_reject_reason_code(error: GatewayError) -> (code: u16)
    ensures
        code == gateway_reason(error),
{
    match error {
        GatewayError::ReplayOrStale { .. } => GATEWAY_COMMAND_ACK_REPLAY_OR_STALE,
        GatewayError::RateLimited { .. } => GATEWAY_COMMAND_ACK_RATE_LIMITED,
        GatewayError::MissingSession(_)
        | GatewayError::SessionDisconnected { .. }
        | GatewayError::BadGeneration { .. }
        | GatewayError::CapacityFull { .. } => GATEWAY_COMMAND_ACK_GATEWAY_REJECTED,
    }
}

/// ACK reason code of a queue refusal.
pub open spec fn queue_reason(error: CommandQueueError) -> u16 {
    match error {
        CommandQueueError::QueueFull(_) => GATEWAY_COMMAND_ACK_QUEUE_FULL,
        CommandQueueError::RejectedByBarrier(_) => GATEWAY_COMMAND_ACK_BARRIER_REJECTED,
    }
}

fn queue_reject_reason_code(error: CommandQueueError) -> (code: u16)
    ensures
        code == queue_reason(error),
{
    match error {
        CommandQueueError::QueueFull(_) => GATEWAY_COMMAND_ACK_QUEUE_FULL,
        CommandQueueError::RejectedByBarrier(_) => GATEWAY_COMMAND_ACK_BARRIER_REJECTED,
    }
}

/// Gateway command pipeline statistics.
#[derive(Clone, Copy, Debug, Default, PartialEq, Eq, Structural)]
pub struct GatewayCommandPipelineStats {
    /// Command frames decoded.
    pub command_frames_decoded: usize,
    /// Frames rejected by the binary decoder.
    pub frames_rejected_decode: usize,
    /// Non-command frames rejected by this pipeline.
    pub frames_rejected_non_command: usize,
    /// Commands admitted by gateway/session metadata.
    pub commands_admitted: usize,
    /// Commands enqueued into target station queues.
    pub commands_enqueued: usize,
    /// Commands rejected by gateway/session metadata.
    pub commands_rejected_gateway: usize,
    /// Commands rejected by station queue or station queue lookup.
    pub commands_rejected_queue: usize,
    /// Commands resolved to deployment node delivery routes.
    pub commands_routed_deployment: usize,
    /// Commands rejected by deployment node/station route metadata.
    pub commands_rejected_deployment: usize,
    /// ACK frames encoded.
    pub acks_encoded: usize,
}

impl GatewayCommandPipelineStats {
    /// All counts at zero.
    pub open spec fn zero() -> Self {
        GatewayCommandPipelineStats {
            command_frames_decoded: 0,
            frames_rejected_decode: 0,
            frames_rejected_non_command: 0,
            commands_admitted: 0,
            commands_enqueued: 0,
            commands_rejected_gateway: 0,
            commands_rejected_queue: 0,
            commands_routed_deployment: 0,
            commands_rejected_deployment: 0,
            acks_encoded: 0,
        }
    }

    /// The counts once an input was decoded.
    pub open spec fn with_decoded(
        self,
        decoded: Result<CommandModel, GatewayCommandPipelineError>,
    ) -> Self {
        match decoded {
            Ok(_) => GatewayCommandPipelineStats {
                command_frames_decoded: self.command_frames_decoded.saturating_add(1),
                ..self
            },
            Err(GatewayCommandPipelineError::Decode(_)) => GatewayCommandPipelineStats {
                frames_rejected_decode: self.frames_rejected_decode.saturating_add(1),
                ..self
            },
            Err(_) => GatewayCommandPipelineStats {
                frames_rejected_non_command: self.frames_rejected_non_command.saturating_add(1),
                ..self
            },
        }
    }

    /// The counts once an acknowledgement was encoded, if one was.
    pub open spec fn with_ack(self, encoded: bool) -> Self {
        GatewayCommandPipelineStats {
            acks_encoded: if encoded {
                self.acks_encoded.saturating_add(1)
            } else {
                self.acks_encoded
            },
            ..self
        }
    }

    /// The counts once a command met its fate.
    pub open spec fn with_fate(self, fate: CommandFate) -> Self {
        match fate {
            CommandFate::Refused(_) => GatewayCommandPipelineStats {
                commands_rejected_gateway: self.commands_rejected_gateway.saturating_add(1),
                ..self
            },
            CommandFate::MissingQueue(_) | CommandFate::QueueRefused(_, _) =>
            GatewayCommandPipelineStats {
                commands_admitted: self.commands_admitted.saturating_add(1),
                commands_rejected_queue: self.commands_rejected_queue.saturating_add(1),
                ..self
            },
            CommandFate::Enqueued(_) => GatewayCommandPipelineStats {
                commands_admitted: self.commands_admitted.saturating_add(1),
                commands_enqueued: self.commands_enqueued.saturating_add(1),
                ..self
            },
        }
    }

    /// The counts once a dispatched command met its fate.
    pub open spec fn with_dispatch(self, fate: DispatchFate) -> Self {
        match fate {
            DispatchFate::Refused(_) => GatewayCommandPipelineStats {
                commands_rejected_gateway: self.commands_rejected_gateway.saturating_add(1),
                ..self
            },
            DispatchFate::Undeliverable(_, _) => GatewayCommandPipelineStats {
                commands_admitted: self.commands_admitted.saturating_add(1),
                commands_rejected_deployment: self.commands_rejected_deployment.saturating_add(1),
                ..self
            },
            DispatchFate::Routed(_) => GatewayCommandPipelineStats {
                commands_admitted: self.commands_admitted.saturating_add(1),
                commands_routed_deployment: self.commands_routed_deployment.saturating_add(1),
                ..self
            },
        }
    }
}

/// Gateway command pipeline result.
#[derive(Clone, Debug, Default, PartialEq, Eq)]
pub struct GatewayCommandPipelineReport {
    /// Client id when a command frame was decoded.
    pub client_id: Option<ClientId>,
    /// Command id when a command frame was decoded.
    pub command_id: Option<CommandId>,
    /// Target station when gateway routing succeeded.
    pub station_id: Option<StationId>,
    /// Target node when deployment routing succeeded.
    pub node_id: Option<NodeId>,
    /// Resolved deployment delivery route.
    pub delivery: Option<GatewayDeliveryRoute>,
    /// Stamped command envelope for external dispatch, when not enqueued locally.
    pub command: Option<CommandEnvelope>,
    /// Whether the command was queued for station application.
    pub accepted: bool,
    /// ACK reason code. Zero means accepted.
    pub reason_code: u16,
    /// Encoded ACK bytes, when an ACK was produced.
    pub ack_bytes: Option<Vec<u8>>,
    /// Decode, gateway, queue, or encode error detail.
    pub error: Option<GatewayCommandPipelineError>,
}

/// Model of a pipeline report.
#[verifier::ext_equal]
pub struct ReportModel {
    pub client_id: Option<ClientId>,
    pub command_id: Option<CommandId>,
    pub station_id: Option<StationId>,
    pub node_id: Option<NodeId>,
    pub delivery: Option<GatewayDeliveryRoute>,
    pub command: Option<EnvelopeModel>,
    pub accepted: bool,
    pub reason_code: u16,
    pub ack: Option<Seq<u8>>,
    pub error: Option<GatewayCommandPipelineError>,
}

impl View for GatewayCommandPipelineReport {
    type V = ReportModel;

    open spec fn view(&self) -> ReportModel {
        ReportModel {
            client_id: self.client_id,
            command_id: self.command_id,
            station_id: self.station_id,
            node_id: self.node_id,
            delivery: self.delivery,
            command: match self.command {
                Some(command) => Some(command@),
                None => None,
            },
            accepted: self.accepted,
            reason_code: self.reason_code,
            ack: match self.ack_bytes {
                Some(bytes) => Some(bytes@),
                None => None,
            },
            error: self.error,
        }
    }
}

/// The command that an input holds.
pub open spec fn decoded_command(input: Seq<u8>) -> Result<
    CommandModel,
    GatewayCommandPipelineError,
> {
    match decoded_frame(input) {
        Err(error) => Err(GatewayCommandPipelineError::Decode(error)),
        Ok(FrameModel::Command(command)) => Ok(command),
        Ok(_) => Err(GatewayCommandPipelineError::NonCommandFrame),
    }
}

/// Report of an input that holds no command.
pub open spec fn undecoded_report(error: GatewayCommandPipelineError) -> ReportModel {
    ReportModel {
        client_id: None,
        command_id: None,
        station_id: None,
        node_id: None,
        delivery: None,
        command: None,
        accepted: false,
        reason_code: GATEWAY_COMMAND_ACK_GATEWAY_REJECTED,
        ack: None,
        error: Some(error),
    }
}

/// Bytes of the acknowledgement of a command.
pub open spec fn ack_of(command: CommandModel, now: Tick, accepted: bool, reason_code: u16) -> Seq<
    u8,
> {
    command_ack_bytes(
        CommandAckFrame {
            client_id: command.client_id,
            command_id: command.command_id,
            server_tick: now,
            accepted,
            reason_code,
        },
    )
}

/// Report of a rejected command.
pub open spec fn rejection(
    config: GatewayCommandPipelineConfig,
    command: CommandModel,
    station_id: Option<StationId>,
    now: Tick,
    reason_code: u16,
    error: GatewayCommandPipelineError,
) -> ReportModel {
    ReportModel {
        client_id: Some(command.client_id),
        command_id: Some(command.command_id),
        station_id,
        node_id: None,
        delivery: None,
        command: None,
        accepted: false,
        reason_code,
        ack: if config.ack_rejections {
            Some(ack_of(command, now, false, reason_code))
        } else {
            None
        },
        error: Some(error),
    }
}

/// Report of a command that was to be queued.
pub open spec fn fate_report(
    config: GatewayCommandPipelineConfig,
    command: CommandModel,
    now: Tick,
    fate: CommandFate,
) -> ReportModel {
    match fate {
        CommandFate::Refused(error) => rejection(
            config,
            command,
            None,
            now,
            gateway_reason(error),
            GatewayCommandPipelineError::Gateway(error),
        ),
        CommandFate::MissingQueue(station_id) => rejection(
            config,
            command,
            Some(station_id),
            now,
            GATEWAY_COMMAND_ACK_MISSING_QUEUE,
            GatewayCommandPipelineError::MissingQueue(station_id),
        ),
        CommandFate::QueueRefused(station_id, error) => rejection(
            config,
            command,
            Some(station_id),
            now,
            queue_reason(error),
            GatewayCommandPipelineError::Queue(error),
        ),
        CommandFate::Enqueued(station_id) => ReportModel {
            client_id: Some(command.client_id),
            command_id: Some(command.command_id),
            station_id: Some(station_id),
            node_id: None,
            delivery: None,
            command: None,
            accepted: true,
            reason_code: GATEWAY_COMMAND_ACK_ACCEPTED,
            ack: Some(ack_of(command, now, true, GATEWAY_COMMAND_ACK_ACCEPTED)),
            error: None,
        },
    }
}

/// Report of a command that was to be dispatched.
pub open spec fn dispatch_fate_report(
    config: GatewayCommandPipelineConfig,
    command: CommandModel,
    now: Tick,
    fate: DispatchFate,
) -> ReportModel {
    match fate {
        DispatchFate::Refused(error) => rejection(
            config,
            command,
            None,
            now,
            gateway_reason(error),
            GatewayCommandPipelineError::Gateway(error),
        ),
        DispatchFate::Undeliverable(station_id, error) => rejection(
            config,
            command,
            Some(station_id),
            now,
            GATEWAY_COMMAND_ACK_DEPLOYMENT_REJECTED,
            GatewayCommandPipelineError::Deployment(error),
        ),
        DispatchFate::Routed(delivery) => ReportModel {
            client_id: Some(command.client_id),
            command_id: Some(command.command_id),
            station_id: Some(delivery.station_id),
            node_id: Some(delivery.node_id),
            delivery: Some(delivery),
            command: Some(EnvelopeModel { command, received_at: now }),
            accepted: true,
            reason_code: GATEWAY_COMMAND_ACK_ACCEPTED,
            ack: Some(ack_of(command, now, true, GATEWAY_COMMAND_ACK_ACCEPTED)),
            error: None,
        },
    }
}

/// A fate that the gateway and the queues may bring on a command.
pub open spec fn may_befall<G: CommandGateway, Q: StationCommandQueue>(
    command: EnvelopeModel,
    ingress: Q::Ingress,
    fate: CommandFate,
) -> bool {
    exists|
        gateway: &mut G,
        envelope: CommandEnvelope,
        outcome: Result<GatewayAdmission, GatewayError>,
    |
        #![trigger call_ensures(G::admit_command, (gateway, &envelope), outcome)]
        {
            &&& envelope@ == command
            &&& call_ensures(G::admit_command, (gateway, &envelope), outcome)
            &&& match outcome {
                Err(error) => fate == CommandFate::Refused(error),
                Ok(admission) => {
                    let station_id = admission.route.station_id;
                    ||| fate == CommandFate::MissingQueue(station_id)
                    ||| exists|queue: &mut Q, pushed: Result<(), CommandQueueError>|
                        #![trigger call_ensures(Q::push, (queue, envelope, ingress), pushed)]
                        {
                            &&& call_ensures(Q::push, (queue, envelope, ingress), pushed)
                            &&& fate == (match pushed {
                                Ok(()) => CommandFate::Enqueued(station_id),
                                Err(error) => CommandFate::QueueRefused(station_id, error),
                            })
                        }
                },
            }
        }
}

/// Business-agnostic gateway command frame pipeline.
#[derive(Clone, Debug)]
pub struct GatewayCommandPipeline {
    /// Configuration.
    pub config: GatewayCommandPipelineConfig,
    /// Statistics.
    pub stats: GatewayCommandPipelineStats,
}

impl GatewayCommandPipeline {
    /// Creates a pipeline.
    pub fn new(config: GatewayCommandPipelineConfig) -> (pipeline: Self)
        ensures
            pipeline.config == config,
            pipeline.stats == GatewayCommandPipelineStats::zero(),
    {
        Self {
            config,
            stats: GatewayCommandPipelineStats {
                command_frames_decoded: 0,
                frames_rejected_decode: 0,
                frames_rejected_non_command: 0,
                commands_admitted: 0,
                commands_enqueued: 0,
                commands_rejected_gateway: 0,
                commands_rejected_queue: 0,
                commands_routed_deployment: 0,
                commands_rejected_deployment: 0,
                acks_encoded: 0,
            },
        }
    }

    /// Returns configuration.
    pub fn config(&self) -> (config: GatewayCommandPipelineConfig)
        ensures
            config == self.config,
    {
        self.config
    }

    /// Returns statistics.
    pub fn stats(&self) -> (stats: GatewayCommandPipelineStats)
        ensures
            stats == self.stats,
    {
        self.stats
    }

    /// Processes one decoded-transport command packet and optionally produces an encoded command
    /// ACK.
    pub fn process<G: CommandGateway, Q: StationCommandQueue>(
        &mut self,
        gateway: &mut G,
        station_queues: &mut OrderedMap<Q>,
        input: &[u8],
        now: Tick,
        ingress: Q::Ingress,
    ) -> (report: GatewayCommandPipelineReport)
        requires
            old(station_queues).wf(),
        ensures
            final(station_queues).wf(),
            final(self).config == old(self).config,
            ({
                let decoded = decoded_command(input@);
                let counted = old(self).stats.with_decoded(decoded);
                match decoded {
                    Err(error) => {
                        &&& report@ == undecoded_report(error)
                        &&& final(self).stats == counted
                        &&& *final(gateway) == *old(gateway)
                        &&& *final(station_queues) == *old(station_queues)
                    },
                    Ok(command) => {
                        &&& exists|fate: CommandFate|
                            {
                                &&& #[trigger] may_befall::<G, Q>(
                                    EnvelopeModel { command, received_at: now },
                                    ingress,
                                    fate,
                                )
                                &&& report@ == fate_report(old(self).config, command, now, fate)
                                &&& final(self).stats == counted.with_fate(fate).with_ack(
                                    report@.ack is Some,
                                )
                            }
                        &&& exists|
                            pipeline: &mut Self,
                            session: &mut G,
                            queues: &mut OrderedMap<Q>,
                            frame: CommandFrame,
                        |
                            #![trigger call_ensures(
                                GatewayCommandPipeline::process_command_frame::<G, Q>,
                                (pipeline, session, queues, frame, now, ingress),
                                report,
                            )]
                            {
                                &&& call_ensures(
                                    GatewayCommandPipeline::process_command_frame::<G, Q>,
                                    (pipeline, session, queues, frame, now, ingress),
                                    report,
                                )
                                &&& frame@ == command
                                &&& pipeline.stats == counted
                                &&& *final(pipeline) == *final(self)
                                &&& *session == *old(gateway)
                                &&& *final(session) == *final(gateway)
                                &&& *queues == *old(station_queues)
                                &&& *final(queues) == *final(station_queues)
                            }
                    },
                }
            }),
    {
        let command_frame = match self.decode_command_frame(input) {
            Ok(command_frame) => command_frame,
            Err(error) => {
                return Self::undecoded(error);
            },
        };
        self.process_command_frame(gateway, station_queues, command_frame, now, ingress)
    }

    /// Decodes and admits one command packet, then resolves a deployment route for external node
    /// dispatch without touching local station queues.
    pub fn dispatch<G: CommandGateway>(
        &mut self,
        gateway: &mut G,
        deployment: &DeploymentRouteTable,
        input: &[u8],
        now: Tick,
    ) -> (report: GatewayCommandPipelineReport)
        requires
            deployment.wf(),
        ensures
            final(self).config == old(self).config,
            ({
                let decoded = decoded_command(input@);
                let counted = old(self).stats.with_decoded(decoded);
                match decoded {
                    Err(error) => {
                        &&& report@ == undecoded_report(error)
                        &&& final(self).stats == counted
                        &&& *final(gateway) == *old(gateway)
                    },
                    Ok(command) => exists|
                        session: &mut G,
                        envelope: CommandEnvelope,
                        outcome: Result<GatewayAdmission, GatewayError>,
                    |
                        #![trigger call_ensures(G::admit_command, (session, &envelope), outcome)]
                        {
                            &&& envelope@ == (EnvelopeModel { command, received_at: now })
                            &&& call_ensures(G::admit_command, (session, &envelope), outcome)
                            &&& *session == *old(gateway)
                            &&& *final(session) == *final(gateway)
                            &&& report@ == dispatch_fate_report(
                                old(self).config,
                                command,
                                now,
                                dispatch_fate(*deployment, outcome),
                            )
                            &&& final(self).stats == counted.with_dispatch(
                                dispatch_fate(*deployment, outcome),
                            ).with_ack(report@.ack is Some)
                        },
                }
            }),
    {
        let command_frame = match self.decode_command_frame(input) {
            Ok(command_frame) => command_frame,
            Err(error) => {
                return Self::undecoded(error);
            },
        };
        self.dispatch_command_frame(gateway, deployment, command_frame, now)
    }

    fn undecoded(error: GatewayCommandPipelineError) -> (report: GatewayCommandPipelineReport)
        ensures
            report@ == undecoded_report(error),
    {
        GatewayCommandPipelineReport {
            client_id: None,
            command_id: None,
            station_id: None,
            node_id: None,
            delivery: None,
            command: None,
            accepted: false,
            reason_code: GATEWAY_COMMAND_ACK_GATEWAY_REJECTED,
            ack_bytes: None,
            error: Some(error),
        }
    }

    /// Decodes an input that should hold a command.
    pub fn decode_command_frame(&mut self, input: &[u8]) -> (result: Result<
        CommandFrame,
        GatewayCommandPipelineError,
    >)
        ensures
            final(self).config == old(self).config,
            final(self).stats == old(self).stats.with_decoded(decoded_command(input@)),
            match decoded_command(input@) {
                Ok(command) => result matches Ok(frame) && frame@ == command,
                Err(error) => result == Err::<CommandFrame, GatewayCommandPipelineError>(error)
                    && (error is Decode || error is NonCommandFrame),
            },
    {
        let mut decoder = BinaryFrameDecoder;
        match decoder.decode(input) {
            Ok(RuntimeFrame::Command(command_frame)) => {
                self.stats.command_frames_decoded =
                self.stats.command_frames_decoded.saturating_add(1);
                Ok(command_frame)
            },
            Ok(_) => {
                self.stats.frames_rejected_non_command =
                self.stats.frames_rejected_non_command.saturating_add(1);
                Err(GatewayCommandPipelineError::NonCommandFrame)
            },
            Err(error) => {
                self.stats.frames_rejected_decode =
                self.stats.frames_rejected_decode.saturating_add(1);
                Err(GatewayCommandPipelineError::Decode(error))
            },
        }
    }

    /// Admits a decoded command and queues it at its station.
    pub fn process_command_frame<G: CommandGateway, Q: StationCommandQueue>(
        &mut self,
        gateway: &mut G,
        station_queues: &mut OrderedMap<Q>,
        command_frame: CommandFrame,
        now: Tick,
        ingress: Q::Ingress,
    ) -> (report: GatewayCommandPipelineReport)
        requires
            old(station_queues).wf(),
        ensures
            final(station_queues).wf(),
            final(self).config == old(self).config,
            exists|
                session: &mut G,
                envelope: CommandEnvelope,
                outcome: Result<GatewayAdmission, GatewayError>,
            |
                #![trigger call_ensures(G::admit_command, (session, &envelope), outcome)]
                {
                    &&& envelope@ == (EnvelopeModel { command: command_frame@, received_at: now })
                    &&& call_ensures(G::admit_command, (session, &envelope), outcome)
                    &&& *session == *old(gateway)
                    &&& *final(session) == *final(gateway)
                    &&& match outcome {
                        Err(error) => {
                            &&& *final(station_queues) == *old(station_queues)
                            &&& report@ == fate_report(
                                old(self).config,
                                command_frame@,
                                now,
                                CommandFate::Refused(error),
                            )
                        },
                        Ok(admission) => {
                            let station_id = admission.route.station_id;
                            let key = station_id.0 as u128;
                            if !old(station_queues)@.contains_key(key) {
                                &&& *final(station_queues) == *old(station_queues)
                                &&& report@ == fate_report(
                                    old(self).config,
                                    command_frame@,
                                    now,
                                    CommandFate::MissingQueue(station_id),
                                )
                            } else {
                                exists|queue: &mut Q, pushed: Result<(), CommandQueueError>|
                                    #![trigger call_ensures(Q::push, (queue, envelope, ingress), pushed)]
                                    {
                                        &&& call_ensures(
                                            Q::push,
                                            (queue, envelope, ingress),
                                            pushed,
                                        )
                                        &&& *queue == old(station_queues)@[key]
                                        &&& final(station_queues)@ == old(station_queues)@.insert(
                                            key,
                                            *final(queue),
                                        )
                                        &&& report@ == fate_report(
                                            old(self).config,
                                            command_frame@,
                                            now,
                                            match pushed {
                                                Ok(()) => CommandFate::Enqueued(station_id),
                                                Err(error) => CommandFate::QueueRefused(
                                                    station_id,
                                                    error,
                                                ),
                                            },
                                        )
                                    }
                            }
                        },
                    }
                },
            exists|fate: CommandFate|
                {
                    &&& #[trigger] may_befall::<G, Q>(
                        EnvelopeModel { command: command_frame@, received_at: now },
                        ingress,
                        fate,
                    )
                    &&& report@ == fate_report(old(self).config, command_frame@, now, fate)
                    &&& final(self).stats == old(self).stats.with_fate(fate).with_ack(
                        report@.ack is Some,
                    )
                },
    {
        let client_id = command_frame.client_id;
        let command_id = command_frame.command_id;
        let ghost model = command_frame@;
        let ghost stamped = EnvelopeModel { command: model, received_at: now };
        let command = command_frame.into_envelope(now);
        let station_id = match gateway.admit_command(&command) {
            Ok(admission) => admission.route.station_id,
            Err(error) => {
                let fate = CommandFate::Refused(error);
                assert(may_befall::<G, Q>(stamped, ingress, fate));
                return self.conclude(client_id, command_id, now, fate, Ghost(model));
            },
        };
        let fate = match station_queues.get_mut(station_id.0 as u128) {
            Some(queue) => match queue.push(command, ingress) {
                Ok(()) => CommandFate::Enqueued(station_id),
                Err(error) => CommandFate::QueueRefused(station_id, error),
            },
            None => CommandFate::MissingQueue(station_id),
        };
        assert(may_befall::<G, Q>(stamped, ingress, fate));
        self.conclude(client_id, command_id, now, fate, Ghost(model))
    }

    /// Counts and reports the fate of a command.
    fn conclude(
        &mut self,
        client_id: ClientId,
        command_id: CommandId,
        now: Tick,
        fate: CommandFate,
        Ghost(command): Ghost<CommandModel>,
    ) -> (report: GatewayCommandPipelineReport)
        requires
            command.client_id == client_id,
            command.command_id == command_id,
        ensures
            final(self).config == old(self).config,
            report@ == fate_report(old(self).config, command, now, fate),
            final(self).stats == old(self).stats.with_fate(fate).with_ack(report@.ack is Some),
    {
        match fate {
            CommandFate::Refused(error) => {
                self.stats.commands_rejected_gateway =
                self.stats.commands_rejected_gateway.saturating_add(1);
                self.rejected_report(
                    client_id,
                    command_id,
                    None,
                    now,
                    gateway_reject_reason_code(error),
                    GatewayCommandPipelineError::Gateway(error),
                )
            },
            CommandFate::MissingQueue(station_id) => {
                self.stats.commands_admitted = self.stats.commands_admitted.saturating_add(1);
                self.stats.commands_rejected_queue =
                self.stats.commands_rejected_queue.saturating_add(1);
                self.rejected_report(
                    client_id,
                    command_id,
                    Some(station_id),
                    now,
                    GATEWAY_COMMAND_ACK_MISSING_QUEUE,
                    GatewayCommandPipelineError::MissingQueue(station_id),
                )
            },
            CommandFate::QueueRefused(station_id, error) => {
                self.stats.commands_admitted = self.stats.commands_admitted.saturating_add(1);
                self.stats.commands_rejected_queue =
                self.stats.commands_rejected_queue.saturating_add(1);
                self.rejected_report(
                    client_id,
                    command_id,
                    Some(station_id),
                    now,
                    queue_reject_reason_code(error),
                    GatewayCommandPipelineError::Queue(error),
                )
            },
            CommandFate::Enqueued(station_id) => {
                self.stats.commands_admitted = self.stats.commands_admitted.saturating_add(1);
                self.stats.commands_enqueued = self.stats.commands_enqueued.saturating_add(1);
                self.accepted_report(client_id, command_id, station_id, now)
            },
        }
    }

    /// Admits a decoded command and resolves the node that it is delivered to.
    pub fn dispatch_command_frame<G: CommandGateway>(
        &mut self,
        gateway: &mut G,
        deployment: &DeploymentRouteTable,
        command_frame: CommandFrame,
        now: Tick,
    ) -> (report: GatewayCommandPipelineReport)
        requires
            deployment.wf(),
        ensures
            final(self).config == old(self).config,
            exists|
                session: &mut G,
                envelope: CommandEnvelope,
                outcome: Result<GatewayAdmission, GatewayError>,
            |
                #![trigger call_ensures(G::admit_command, (session, &envelope), outcome)]
                {
                    &&& envelope@ == (EnvelopeModel { command: command_frame@, received_at: now })
                    &&& call_ensures(G::admit_command, (session, &envelope), outcome)
                    &&& *session == *old(gateway)
                    &&& *final(session) == *final(gateway)
                    &&& report@ == dispatch_fate_report(
                        old(self).config,
                        command_frame@,
                        now,
                        dispatch_fate(*deployment, outcome),
                    )
                    &&& final(self).stats == old(self).stats.with_dispatch(
                        dispatch_fate(*deployment, outcome),
                    ).with_ack(report@.ack is Some)
                },
    {
        let client_id = command_frame.client_id;
        let command_id = command_frame.command_id;
        let command = command_frame.into_envelope(now);
        let admission = match gateway.admit_command(&command) {
            Ok(admission) => admission,
            Err(error) => {
                self.stats.commands_rejected_gateway =
                self.stats.commands_rejected_gateway.saturating_add(1);
                return self.rejected_report(
                    client_id,
                    command_id,
                    None,
                    now,
                    gateway_reject_reason_code(error),
                    GatewayCommandPipelineError::Gateway(error),
                );
            },
        };
        self.stats.commands_admitted = self.stats.commands_admitted.saturating_add(1);
        let delivery = match deployment.resolve_gateway_route(admission.route) {
            Ok(delivery) => delivery,
            Err(error) => {
                self.stats.commands_rejected_deployment =
                self.stats.commands_rejected_deployment.saturating_add(1);
                return self.rejected_report(
                    client_id,
                    command_id,
                    Some(admission.route.station_id),
                    now,
                    GATEWAY_COMMAND_ACK_DEPLOYMENT_REJECTED,
                    GatewayCommandPipelineError::Deployment(error),
                );
            },
        };
        self.stats.commands_routed_deployment =
        self.stats.commands_routed_deployment.saturating_add(1);
        self.dispatch_report(command, delivery, now)
    }

    fn accepted_report(
        &mut self,
        client_id: ClientId,
        command_id: CommandId,
        station_id: StationId,
        now: Tick,
    ) -> (report: GatewayCommandPipelineReport)
        ensures
            final(self).config == old(self).config,
            final(self).stats == old(self).stats.with_ack(true),
            forall|command: CommandModel|
                command.client_id == client_id && command.command_id == command_id ==> report@
                    == #[trigger] fate_report(
                    old(self).config,
                    command,
                    now,
                    CommandFate::Enqueued(station_id),
                ),
    {
        let ack = CommandAckFrame {
            client_id,
            command_id,
            server_tick: now,
            accepted: true,
            reason_code: GATEWAY_COMMAND_ACK_ACCEPTED,
        };
        match self.encode_ack(&ack) {
            Ok(ack_bytes) => GatewayCommandPipelineReport {
                client_id: Some(client_id),
                command_id: Some(command_id),
                station_id: Some(station_id),
                node_id: None,
                delivery: None,
                command: None,
                accepted: true,
                reason_code: GATEWAY_COMMAND_ACK_ACCEPTED,
                ack_bytes: Some(ack_bytes),
                error: None,
            },
            Err(error) => GatewayCommandPipelineReport {
                client_id: Some(client_id),
                command_id: Some(command_id),
                station_id: Some(station_id),
                node_id: None,
                delivery: None,
                command: None,
                accepted: false,
                reason_code: GATEWAY_COMMAND_ACK_ACCEPTED,
                ack_bytes: None,
                error: Some(GatewayCommandPipelineError::Encode(error)),
            },
        }
    }

    fn dispatch_report(
        &mut self,
        command: CommandEnvelope,
        delivery: GatewayDeliveryRoute,
        now: Tick,
    ) -> (report: GatewayCommandPipelineReport)
        requires
            command@.received_at == now,
        ensures
            final(self).config == old(self).config,
            final(self).stats == old(self).stats.with_ack(true),
            report@ == dispatch_fate_report(
                old(self).config,
                command@.command,
                now,
                DispatchFate::Routed(delivery),
            ),
    {
        let ack = CommandAckFrame {
            client_id: command.client_id,
            command_id: command.id,
            server_tick: now,
            accepted: true,
            reason_code: GATEWAY_COMMAND_ACK_ACCEPTED,
        };
        match self.encode_ack(&ack) {
            Ok(ack_bytes) => GatewayCommandPipelineReport {
                client_id: Some(command.client_id),
                command_id: Some(command.id),
                station_id: Some(delivery.station_id),
                node_id: Some(delivery.node_id),
                delivery: Some(delivery),
                command: Some(command),
                accepted: true,
                reason_code: GATEWAY_COMMAND_ACK_ACCEPTED,
                ack_bytes: Some(ack_bytes),
                error: None,
            },
            Err(error) => GatewayCommandPipelineReport {
                client_id: Some(command.client_id),
                command_id: Some(command.id),
                station_id: Some(delivery.station_id),
                node_id: Some(delivery.node_id),
                delivery: Some(delivery),
                command: None,
                accepted: false,
                reason_code: GATEWAY_COMMAND_ACK_ACCEPTED,
                ack_bytes: None,
                error: Some(GatewayCommandPipelineError::Encode(error)),
            },
        }
    }

    fn rejected_report(
        &mut self,
        client_id: ClientId,
        command_id: CommandId,
        station_id: Option<StationId>,
        now: Tick,
        reason_code: u16,
        error: GatewayCommandPipelineError,
    ) -> (report: GatewayCommandPipelineReport)
        ensures
            final(self).config == old(self).config,
            final(self).stats == old(self).stats.with_ack(old(self).config.ack_rejections),
            forall|command: CommandModel|
                command.client_id == client_id && command.command_id == command_id ==> report@
                    == #[trigger] rejection(
                    old(self).config,
                    command,
                    station_id,
                    now,
                    reason_code,
                    error,
                ),
    {
        let ack_bytes = if self.config.ack_rejections {
            let ack = CommandAckFrame {
                client_id,
                command_id,
                server_tick: now,
                accepted: false,
                reason_code,
            };
            match self.encode_ack(&ack) {
                Ok(bytes) => Some(bytes),
                Err(encode_error) => {
                    return GatewayCommandPipelineReport {
                        client_id: Some(client_id),
                        command_id: Some(command_id),
                        station_id,
                        node_id: None,
                        delivery: None,
                        command: None,
                        accepted: false,
                        reason_code,
                        ack_bytes: None,
                        error: Some(GatewayCommandPipelineError::Encode(encode_error)),
                    };
                },
            }
        } else {
            None
        };
        GatewayCommandPipelineReport {
            client_id: Some(client_id),
            command_id: Some(command_id),
            station_id,
            node_id: None,
            delivery: None,
            command: None,
            accepted: false,
            reason_code,
            ack_bytes,
            error: Some(error),
        }
    }

    fn encode_ack(&mut self, ack: &CommandAckFrame) -> (result: Result<Vec<u8>, BinaryEncodeError>)
        ensures
            final(self).config == old(self).config,
            final(self).stats == old(self).stats.with_ack(true),
            result matches Ok(bytes) && bytes@ == command_ack_bytes(*ack),
    {
        let mut out: Vec<u8> = Vec::new();
        let mut encoder = BinaryFrameEncoder;
        encoder.encode_command_ack(ack, &mut out)?;
        assert(out@ =~= command_ack_bytes(*ack));
        self.stats.acks_encoded = self.stats.acks_encoded.saturating_add(1);
        Ok(out)
    }
}

/// What becomes of a command to be dispatched, by the gateway's answer and the route table.
pub open spec fn dispatch_fate(
    deployment: DeploymentRouteTable,
    outcome: Result<GatewayAdmission, GatewayError>,
) -> DispatchFate {
    match outcome {
        Err(error) => DispatchFate::Refused(error),
        Ok(admission) => match deployment.resolved(admission.route) {
            Ok(delivery) => DispatchFate::Routed(delivery),
            Err(error) => DispatchFate::Undeliverable(admission.route.station_id, error),
        },
    }
}

impl Default for GatewayCommandPipeline {
    fn default() -> (pipeline: Self)
        ensures
            pipeline.config.ack_rejections,
            pipeline.stats == GatewayCommandPipelineStats::zero(),
    {
        Self::new(GatewayCommandPipelineConfig::default())
    }
}

/// A report that agrees with itself: it is positive exactly where its reason code is the accepted
/// one, and exactly where it holds no error.
pub open spec fn agrees(report: ReportModel) -> bool {
    &&& report.accepted <==> report.reason_code == GATEWAY_COMMAND_ACK_ACCEPTED
    &&& report.accepted <==> report.error is None
}

/// Every report agrees with its reason code, whether its command was queued, dispatched or never
/// found in the input. The acknowledgement of a command says the same as its report, and is missing
/// only where a rejection is not to be acknowledged.
pub proof fn law_reports_agree_with_reason_codes(
    config: GatewayCommandPipelineConfig,
    command: CommandModel,
    now: Tick,
    fate: CommandFate,
    dispatched: DispatchFate,
    error: GatewayCommandPipelineError,
)
    ensures
        ({
            let report = fate_report(config, command, now, fate);
            &&& agrees(report)
            &&& report.accepted <==> fate is Enqueued
            &&& report.ack matches Some(ack) ==> ack == ack_of(
                command,
                now,
                report.accepted,
                report.reason_code,
            )
            &&& report.ack is None <==> !report.accepted && !config.ack_rejections
        }),
        ({
            let report = dispatch_fate_report(config, command, now, dispatched);
            &&& agrees(report)
            &&& report.accepted <==> dispatched is Routed
            &&& report.ack matches Some(ack) ==> ack == ack_of(
                command,
                now,
                report.accepted,
                report.reason_code,
            )
            &&& report.ack is None <==> !report.accepted && !config.ack_rejections
        }),
        agrees(undecoded_report(error)),
        !undecoded_report(error).accepted,
{
}

/// Every acknowledgement decodes to the command it answers, with the report's verdict.
pub proof fn law_acks_decode_to_their_command(
    command: CommandModel,
    now: Tick,
    accepted: bool,
    reason_code: u16,
)
    ensures
        decoded_frame(ack_of(command, now, accepted, reason_code)) == Ok::<
            FrameModel,
            BinaryDecodeError,
        >(
            FrameModel::CommandAck(
                CommandAckFrame {
                    client_id: command.client_id,
                    command_id: command.command_id,
                    server_tick: now,
                    accepted,
                    reason_code,
                },
            ),
        ),
{
    let frame = FrameModel::CommandAck(
        CommandAckFrame {
            client_id: command.client_id,
            command_id: command.command_id,
            server_tick: now,
            accepted,
            reason_code,
        },
    );
    crate::wire_laws::law_decode_inverts_encode(frame);
}

} // verus!
