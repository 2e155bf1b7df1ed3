//! Replication plans sent to clients as encoded frames.

use vstd::prelude::*;
use vstd::std_specs::convert::FromSpecImpl;

use crate::frame_builder::{
    countable, direct_entities, direct_outcome, sampled_hint, ComponentSelection,
    ReplicationFrameBuildStats, ReplicationFrameBuilder,
};
use crate::ids::{ClientId, Tick};
use crate::num::min_usize;
use crate::packets::{OutboundPacket, TransportSink};
use crate::station::{ComponentStore, ReplicationPlan, ReplicationPlanStats, Station};
use crate::wire_spec::BinaryEncodeError;

verus! {

/// Limits of one viewer's replication.
#[derive(Clone, Copy, Debug, PartialEq, Eq, Structural)]
pub struct ReplicationBudget {
    /// Maximum bytes per frame.
    pub max_bytes: usize,
}

/// Client replication transport bridge configuration.
#[derive(Clone, Copy, Debug, PartialEq, Eq, Structural)]
pub struct ReplicationTransportConfig {
    /// Planner budget used for every viewer unless the caller builds frames manually.
    pub budget: ReplicationBudget,
    /// Whether to send replication frames with no encoded entity deltas.
    pub send_empty_frames: bool,
}

/// Client replication transport bridge statistics.
#[derive(Clone, Copy, Debug, Default, PartialEq, Eq, Structural)]
pub struct ReplicationTransportStats {
    /// Viewer queries planned.
    pub viewers_planned: usize,
    /// Frames skipped because they had no encoded entity deltas.
    pub frames_skipped_empty: usize,
    /// Frames encoded and sent to client transport.
    pub frames_sent: usize,
    /// Bytes sent through client transport.
    pub bytes_sent: usize,
    /// Initial packet byte capacity requested from bounded wire hints.
    pub packet_capacity_hint_bytes: usize,
    /// Entities selected by AOI planning.
    pub entities_selected: usize,
    /// Entities skipped by replication planner budget.
    pub entities_skipped_by_budget: usize,
    /// Entities skipped by replication planner cadence.
    pub entities_skipped_by_cadence: usize,
    /// Entity deltas encoded into replication frames.
    pub entities_encoded: usize,
    /// Component deltas encoded into replication frames.
    pub components_encoded: usize,
    /// Entities rolled back because the concrete frame byte budget filled.
    pub entities_skipped_by_frame_bytes: usize,
}

impl ReplicationTransportStats {
    /// All counts at zero.
    pub open spec fn zero() -> Self {
        ReplicationTransportStats {
            viewers_planned: 0,
            frames_skipped_empty: 0,
            frames_sent: 0,
            bytes_sent: 0,
            packet_capacity_hint_bytes: 0,
            entities_selected: 0,
            entities_skipped_by_budget: 0,
            entities_skipped_by_cadence: 0,
            entities_encoded: 0,
            components_encoded: 0,
            entities_skipped_by_frame_bytes: 0,
        }
    }

    /// The counts once a plan was taken up with the given capacity hint.
    pub open spec fn with_plan(self, plan: ReplicationPlanStats, hint: usize) -> Self {
        ReplicationTransportStats {
            viewers_planned: self.viewers_planned.saturating_add(1),
            entities_selected: self.entities_selected.saturating_add(plan.selected),
            entities_skipped_by_budget: self.entities_skipped_by_budget.saturating_add(
                plan.skipped_by_budget,
            ),
            entities_skipped_by_cadence: self.entities_skipped_by_cadence.saturating_add(
                plan.skipped_by_cadence,
            ),
            packet_capacity_hint_bytes: self.packet_capacity_hint_bytes.saturating_add(hint),
            ..self
        }
    }

    /// The counts once a frame was encoded.
    pub open spec fn with_build(self, build: ReplicationFrameBuildStats) -> Self {
        ReplicationTransportStats {
            entities_encoded: self.entities_encoded.saturating_add(build.encoded_entities),
            components_encoded: self.components_encoded.saturating_add(build.encoded_components),
            entities_skipped_by_frame_bytes: self.entities_skipped_by_frame_bytes.saturating_add(
                build.skipped_entities_by_frame_bytes,
            ),
            ..self
        }
    }

    /// The counts once an empty frame was left out.
    pub open spec fn with_skipped_frame(self) -> Self {
        ReplicationTransportStats {
            frames_skipped_empty: self.frames_skipped_empty.saturating_add(1),
            ..self
        }
    }

    /// The counts once a frame of the given size went out.
    pub open spec fn with_sent_frame(self, bytes: usize) -> Self {
        ReplicationTransportStats {
            frames_sent: self.frames_sent.saturating_add(1),
            bytes_sent: self.bytes_sent.saturating_add(bytes),
            ..self
        }
    }
}

/// Result of one viewer replication send attempt.
#[derive(Clone, Copy, Debug, PartialEq, Eq, Structural)]
pub struct ReplicationTransportReport {
    /// Target client.
    pub client_id: ClientId,
    /// Candidate entities selected by the replication planner.
    pub selected_entities: usize,
    /// Entity deltas encoded into the frame.
    pub encoded_entities: usize,
    /// Component deltas encoded into the frame.
    pub encoded_components: usize,
    /// Estimated bytes from the replication planner.
    pub estimated_plan_bytes: usize,
    /// Candidate entities skipped because the planner budget was exhausted.
    pub skipped_by_budget: usize,
    /// Candidate entities skipped because cadence had not elapsed.
    pub skipped_by_cadence: usize,
    /// Entities rolled back because the concrete frame byte budget filled.
    pub skipped_by_frame_bytes: usize,
    /// Encoded wire bytes submitted to transport.
    pub bytes_sent: usize,
    /// Whether a frame was sent.
    pub sent: bool,
}

impl Default for ReplicationTransportReport {
    fn default() -> (report: Self)
        ensures
            report == (ReplicationTransportReport {
                client_id: ClientId(0),
                selected_entities: 0,
                encoded_entities: 0,
                encoded_components: 0,
                estimated_plan_bytes: 0,
                skipped_by_budget: 0,
                skipped_by_cadence: 0,
                skipped_by_frame_bytes: 0,
                bytes_sent: 0,
                sent: false,
            }),
    {
        Self {
            client_id: ClientId(0),
            selected_entities: 0,
            encoded_entities: 0,
            encoded_components: 0,
            estimated_plan_bytes: 0,
            skipped_by_budget: 0,
            skipped_by_cadence: 0,
            skipped_by_frame_bytes: 0,
            bytes_sent: 0,
            sent: false,
        }
    }
}

/// Error produced while planning, building, encoding, or sending replication.
#[derive(Clone, Debug, PartialEq, Eq)]
pub enum ReplicationTransportError<E> {
    /// Wire encoding failed.
    Encode(BinaryEncodeError),
    /// Underlying client transport failed.
    Transport(E),
}

impl<E> From<BinaryEncodeError> for ReplicationTransportError<E> {
    fn from(error: BinaryEncodeError) -> (converted: Self) {
        Self::Encode(error)
    }
}

impl<E> FromSpecImpl<BinaryEncodeError> for ReplicationTransportError<E> {
    open spec fn obeys_from_spec() -> bool {
        true
    }

    open spec fn from_spec(error: BinaryEncodeError) -> Self {
        ReplicationTransportError::Encode(error)
    }
}

/// The report of one send attempt.
pub open spec fn report_of(
    client_id: ClientId,
    plan: ReplicationPlanStats,
    build: ReplicationFrameBuildStats,
    bytes_sent: usize,
    sent: bool,
) -> ReplicationTransportReport {
    ReplicationTransportReport {
        client_id,
        selected_entities: plan.selected,
        encoded_entities: build.encoded_entities,
        encoded_components: build.encoded_components,
        estimated_plan_bytes: plan.estimated_bytes,
        skipped_by_budget: plan.skipped_by_budget,
        skipped_by_cadence: plan.skipped_by_cadence,
        skipped_by_frame_bytes: build.skipped_entities_by_frame_bytes,
        bytes_sent,
        sent,
    }
}

fn replication_report(
    client_id: ClientId,
    plan: &ReplicationPlan,
    build_stats: ReplicationFrameBuildStats,
    bytes_sent: usize,
    sent: bool,
) -> (report: ReplicationTransportReport)
    ensures
        report == report_of(client_id, plan.stats, build_stats, bytes_sent, sent),
{
    ReplicationTransportReport {
        client_id,
        selected_entities: plan.stats.selected,
        encoded_entities: build_stats.encoded_entities,
        encoded_components: build_stats.encoded_components,
        estimated_plan_bytes: plan.stats.estimated_bytes,
        skipped_by_budget: plan.stats.skipped_by_budget,
        skipped_by_cadence: plan.stats.skipped_by_cadence,
        skipped_by_frame_bytes: build_stats.skipped_entities_by_frame_bytes,
        bytes_sent,
        sent,
    }
}

/// Bridge between replication planning/frame building and client packet transport.
#[derive(Clone, Debug)]
pub struct ReplicationTransportBridge {
    /// Configuration.
    pub config: ReplicationTransportConfig,
    /// Frame builder.
    pub builder: ReplicationFrameBuilder,
    /// Accumulated statistics.
    pub stats: ReplicationTransportStats,
}

impl ReplicationTransportBridge {
    /// Creates a replication transport bridge.
    pub fn new(config: ReplicationTransportConfig, builder: ReplicationFrameBuilder) -> (bridge: Self)
        ensures
            bridge.config == config,
            bridge.builder == builder,
            bridge.stats == ReplicationTransportStats::zero(),
    {
        Self {
            config,
            builder,
            stats: ReplicationTransportStats {
                viewers_planned: 0,
                frames_skipped_empty: 0,
                frames_sent: 0,
                bytes_sent: 0,
                packet_capacity_hint_bytes: 0,
                entities_selected: 0,
                entities_skipped_by_budget: 0,
                entities_skipped_by_cadence: 0,
                entities_encoded: 0,
                components_encoded: 0,
                entities_skipped_by_frame_bytes: 0,
            },
        }
    }

    /// Returns configuration.
    pub fn config(&self) -> (config: ReplicationTransportConfig)
        ensures
            config == self.config,
    {
        self.config
    }

    /// Returns frame builder configuration.
    pub fn builder(&self) -> (builder: ReplicationFrameBuilder)
        ensures
            builder == self.builder,
    {
        self.builder
    }

    /// Returns accumulated statistics.
    pub fn stats(&self) -> (stats: ReplicationTransportStats)
        ensures
            stats == self.stats,
    {
        self.stats
    }

    /// What encoding a plan yields under the byte budget: the frame's bytes, and the build
    /// statistics or the error.
    pub open spec fn encoded(
        self,
        client_id: ClientId,
        server_tick: Tick,
        station: Station,
        components: ComponentStore,
        selection: ComponentSelection,
        plan: ReplicationPlan,
    ) -> (Seq<u8>, Result<ReplicationFrameBuildStats, BinaryEncodeError>) {
        let pass = direct_entities(
            self.builder.input(station, components, selection),
            Some(self.config.budget.max_bytes as nat),
            plan.entities@,
        );
        direct_outcome(client_id, server_tick, plan.entities@.len(), pass)
    }

    /// Capacity that a packet is given from the start: the sampled hint, within the byte budget.
    pub open spec fn hint(
        self,
        station: Station,
        components: ComponentStore,
        selection: ComponentSelection,
        plan: ReplicationPlan,
    ) -> usize {
        let sampled = sampled_hint(
            self.builder.input(station, components, selection),
            plan.entities@,
        );
        if sampled < self.config.budget.max_bytes {
            sampled
        } else {
            self.config.budget.max_bytes
        }
    }

    /// Builds, encodes, and sends a caller-provided replication plan.
    pub fn send_plan<T: TransportSink>(
        &mut self,
        transport: &mut T,
        client_id: ClientId,
        server_tick: Tick,
        station: &Station,
        components: &ComponentStore,
        selection: &ComponentSelection,
        plan: &ReplicationPlan,
    ) -> (result: Result<ReplicationTransportReport, ReplicationTransportError<T::Error>>)
        requires
            countable(plan.entities@.len(), selection.component_ids@.len()),
        ensures
            final(self).config == old(self).config,
            final(self).builder == old(self).builder,
            ({
                let encoded = old(self).encoded(
                    client_id,
                    server_tick,
                    *station,
                    *components,
                    *selection,
                    *plan,
                );
                let planned = old(self).stats.with_plan(
                    plan.stats,
                    old(self).hint(*station, *components, *selection, *plan),
                );
                match encoded.1 {
                    Err(error) => {
                        &&& result == Err::<
                            ReplicationTransportReport,
                            ReplicationTransportError<T::Error>,
                        >(ReplicationTransportError::Encode(error))
                        &&& final(self).stats == planned
                        &&& *final(transport) == *old(transport)
                    },
                    Ok(build) => {
                        let built = planned.with_build(build);
                        if build.encoded_entities == 0 && !old(self).config.send_empty_frames {
                            &&& result == Ok::<
                                ReplicationTransportReport,
                                ReplicationTransportError<T::Error>,
                            >(report_of(client_id, plan.stats, build, 0, false))
                            &&& final(self).stats == built.with_skipped_frame()
                            &&& *final(transport) == *old(transport)
                        } else {
                            exists|
                                sink: &mut T,
                                packet: OutboundPacket,
                                outcome: Result<(), T::Error>,
                            |
                                #![trigger call_ensures(T::send, (sink, packet), outcome)]
                                {
                                    &&& call_ensures(T::send, (sink, packet), outcome)
                                    &&& *sink == *old(transport)
                                    &&& *final(sink) == *final(transport)
                                    &&& packet.client_id == client_id
                                    &&& packet.bytes@ == encoded.0
                                    &&& match outcome {
                                        Err(error) => {
                                            &&& result == Err::<
                                                ReplicationTransportReport,
                                                ReplicationTransportError<T::Error>,
                                            >(ReplicationTransportError::Transport(error))
                                            &&& final(self).stats == built
                                        },
                                        Ok(()) => {
                                            let bytes = encoded.0.len() as usize;
                                            &&& result == Ok::<
                                                ReplicationTransportReport,
                                                ReplicationTransportError<T::Error>,
                                            >(report_of(client_id, plan.stats, build, bytes, true))
                                            &&& final(self).stats == built.with_sent_frame(bytes)
                                        },
                                    }
                                }
                        }
                    },
                }
            }),
    {
        self.stats.viewers_planned = self.stats.viewers_planned.saturating_add(1);
        self.stats.entities_selected =
        self.stats.entities_selected.saturating_add(plan.stats.selected);
        self.stats.entities_skipped_by_budget =
        self.stats.entities_skipped_by_budget.saturating_add(plan.stats.skipped_by_budget);
        self.stats.entities_skipped_by_cadence =
        self.stats.entities_skipped_by_cadence.saturating_add(plan.stats.skipped_by_cadence);
        let capacity_hint: usize = min_usize(
            self.builder.sampled_binary_capacity_hint(station, plan, components, selection),
            self.config.budget.max_bytes,
        );
        let mut bytes: Vec<u8> = Vec::with_capacity(capacity_hint);
        self.stats.packet_capacity_hint_bytes =
        self.stats.packet_capacity_hint_bytes.saturating_add(capacity_hint);
        let build_stats = match self.builder.encode_binary_bounded_into(
            client_id,
            server_tick,
            station,
            plan,
            components,
            selection,
            self.config.budget.max_bytes,
            &mut bytes,
        ) {
            Ok(build_stats) => build_stats,
            Err(error) => {
                return Err(ReplicationTransportError::Encode(error));
            },
        };
        proof {
            let encoded = old(self).encoded(
                client_id,
                server_tick,
                *station,
                *components,
                *selection,
                *plan,
            );
            assert(bytes@ =~= encoded.0);
        }
        self.stats.entities_encoded =
        self.stats.entities_encoded.saturating_add(build_stats.encoded_entities);
        self.stats.components_encoded =
        self.stats.components_encoded.saturating_add(build_stats.encoded_components);
        self.stats.entities_skipped_by_frame_bytes =
        self.stats.entities_skipped_by_frame_bytes.saturating_add(
            build_stats.skipped_entities_by_frame_bytes,
        );
        if build_stats.encoded_entities == 0 && !self.config.send_empty_frames {
            self.stats.frames_skipped_empty = self.stats.frames_skipped_empty.saturating_add(1);
            return Ok(replication_report(client_id, plan, build_stats, 0, false));
        }
        let byte_len: usize = bytes.len();
        match transport.send(OutboundPacket { client_id, bytes }) {
            Ok(()) => {},
            Err(error) => {
                return Err(ReplicationTransportError::Transport(error));
            },
        }
        self.stats.frames_sent = self.stats.frames_sent.saturating_add(1);
        self.stats.bytes_sent = self.stats.bytes_sent.saturating_add(byte_len);
        Ok(replication_report(client_id, plan, build_stats, byte_len, true))
    }
}

} // verus!
