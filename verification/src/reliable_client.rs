//! Reliable client links: bounded send windows with retries, and receivers that acknowledge every
//! packet and deliver each once.

use vstd::prelude::*;

use crate::ids::ClientId;
use crate::lookup_set::{lemma_pair_key_injective, pair_key};
use crate::memory::vec_capacity;
use crate::num::clamp_usize;
use crate::packets::{asked, linked, InboundPacket, OutboundPacket, TransportSink};
use crate::pair_history::{law_retained_pair_is_refused, retained, retained_all, PairHistory};
use crate::reliable_frame::{
    decoded_reliable, law_reliable_decode_inverts_encode, reliable_bytes, reuse_reliable_payload, LinkKind, ReliableClientDecodeError,
    ReliableClientEncodeError, ReliableClientFrame, ReliableClientFrameRef, ReliableModel,
    ReliableStationDecodeError,
    DEFAULT_RELIABLE_CLIENT_DELIVERED_HISTORY, DEFAULT_RELIABLE_CLIENT_MAX_PAYLOAD_BYTES,
};
use crate::reliable_window::{
    due_pairs, is_dropped, is_resent, retry_pass, retry_step, InFlightPacket, ReliableRetryReport,
    ReliableWindow,
};

verus! {

/// Bounded reliable client link configuration.
#[derive(Clone, Copy, Debug, PartialEq, Eq, Structural)]
pub struct ReliableClientConfig {
    /// Maximum in-flight reliable packets per peer client.
    pub max_in_flight_per_peer: usize,
    /// Number of ticks to wait before retrying an unacknowledged packet.
    pub retry_after_ticks: u64,
    /// Maximum send attempts before dropping an in-flight packet.
    pub max_attempts: u8,
    /// Maximum payload bytes before reliable envelope overhead.
    pub max_payload_bytes: usize,
    /// Maximum recently delivered packet ids retained for duplicate suppression. Set to zero to
    /// disable duplicate suppression history.
    pub max_delivered_history: usize,
}

impl Default for ReliableClientConfig {
    fn default() -> (config: Self)
        ensures
            config == (ReliableClientConfig {
                max_in_flight_per_peer: 1024,
                retry_after_ticks: 2,
                max_attempts: 4,
                max_payload_bytes: 16367,
                max_delivered_history: 4096,
            }),
    {
        Self {
            max_in_flight_per_peer: 1024,
            retry_after_ticks: 2,
            max_attempts: 4,
            max_payload_bytes: DEFAULT_RELIABLE_CLIENT_MAX_PAYLOAD_BYTES,
            max_delivered_history: DEFAULT_RELIABLE_CLIENT_DELIVERED_HISTORY,
        }
    }
}

/// Reliable client endpoint statistics.
#[derive(Clone, Copy, Debug, Default, PartialEq, Eq, Structural)]
pub struct ReliableClientStats {
    /// New reliable data packets sent.
    pub data_sent: usize,
    /// Retry data packets sent.
    pub retries_sent: usize,
    /// ACK packets sent.
    pub acks_sent: usize,
    /// ACK packets received.
    pub acks_received: usize,
    /// Unique data packets delivered to the caller.
    pub data_delivered: usize,
    /// Duplicate data packets suppressed.
    pub duplicates_suppressed: usize,
    /// In-flight packets dropped after exhausting attempts.
    pub timed_out: usize,
}

impl ReliableClientStats {
    /// All counts at zero.
    pub open spec fn zero() -> Self {
        ReliableClientStats {
            data_sent: 0,
            retries_sent: 0,
            acks_sent: 0,
            acks_received: 0,
            data_delivered: 0,
            duplicates_suppressed: 0,
            timed_out: 0,
        }
    }

    fn none() -> (stats: Self)
        ensures
            stats == Self::zero(),
    {
        Self {
            data_sent: 0,
            retries_sent: 0,
            acks_sent: 0,
            acks_received: 0,
            data_delivered: 0,
            duplicates_suppressed: 0,
            timed_out: 0,
        }
    }

    /// The counts after a retry pass.
    pub open spec fn after_retries(self, retried: nat, timed_out: nat) -> Self {
        ReliableClientStats {
            retries_sent: clamp_usize(self.retries_sent as nat + retried),
            timed_out: clamp_usize(self.timed_out as nat + timed_out),
            ..self
        }
    }
}

/// Error produced by reliable client endpoints.
#[derive(Debug)]
pub enum ReliableClientError<E> {
    /// Underlying transport failed.
    Transport(E),
    /// Inbound packet did not contain a source client id.
    MissingSourceClient,
    /// Payload exceeded configured byte budget.
    PayloadTooLarge {
        /// Configured byte budget.
        budget: usize,
        /// Actual byte count.
        actual: usize,
    },
    /// Peer client in-flight window is full.
    WindowFull {
        /// Peer client.
        peer_client: ClientId,
        /// Configured in-flight capacity.
        capacity: usize,
    },
    /// Reliable frame encode failed.
    Encode(ReliableClientEncodeError),
    /// Reliable frame decode failed.
    Decode(ReliableClientDecodeError),
}

/// Whether a packet takes the given bytes along the given route.
pub open spec fn carries(packet: OutboundPacket, route: ClientId, bytes: Seq<u8>) -> bool {
    packet.client_id == route && packet.bytes@ == bytes
}

/// Bytes of the data frame that carries a packet in flight.
pub open spec fn data_bytes(sequence: u64, payload: Seq<u8>) -> Seq<u8> {
    reliable_bytes(LinkKind::Client, ReliableModel::Data { sequence, payload })
}

/// Bytes of an acknowledgement.
pub open spec fn ack_bytes(sequence: u64) -> Seq<u8> {
    reliable_bytes(LinkKind::Client, ReliableModel::Ack { sequence })
}

/// What a sender reports of the transport's answer.
pub open spec fn sent_result<E>(outcome: Result<(), E>) -> Result<(), ReliableClientError<E>> {
    match outcome {
        Ok(()) => Ok(()),
        Err(error) => Err(ReliableClientError::Transport(error)),
    }
}

/// The packet that a retry pass over the given pairs sends again at a place, if it sends one there.
pub open spec fn resent_at(
    packets: Map<u128, InFlightPacket<ClientId>>,
    pairs: Seq<(u64, u64)>,
    at: int,
    max_attempts: u8,
    now: u64,
) -> Option<InFlightPacket<ClientId>> {
    let left = retry_pass(packets, pairs.take(at), max_attempts, now).0;
    if is_resent(left, pairs[at], max_attempts) {
        Some(left[pair_key(pairs[at].0, pairs[at].1)])
    } else {
        None
    }
}

/// Caller-owned reusable storage for reliable client retry scans.
#[derive(Clone, Debug, Default)]
pub struct ReliableClientRetryScratch {
    /// Peer and sequence of the packets found due.
    pub due_keys: Vec<(u64, u64)>,
}

impl ReliableClientRetryScratch {
    /// Creates empty retry storage.
    pub fn new() -> (scratch: Self)
        ensures
            scratch.due_keys@ == Seq::<(u64, u64)>::empty(),
    {
        Self { due_keys: Vec::new() }
    }

    /// Due-key capacity retained across retry passes.
    pub fn retained_key_capacity(&self) -> (capacity: usize)
        ensures
            capacity >= self.due_keys@.len(),
    {
        vec_capacity(&self.due_keys)
    }
}

/// Bounded reliable client sender state.
#[derive(Clone, Debug)]
pub struct ReliableClientSender {
    /// Sender configuration.
    pub config: ReliableClientConfig,
    /// Sequence numbers and packets in flight.
    pub window: ReliableWindow<ClientId>,
    /// Sender statistics.
    pub stats: ReliableClientStats,
}

impl ReliableClientSender {
    /// The window is well-formed, and no peer has more packets in flight than the limit.
    pub open spec fn wf(self) -> bool {
        self.window.wf() && self.window.bounded(self.config.max_in_flight_per_peer as nat)
    }

    /// Creates a reliable client sender.
    pub fn new(config: ReliableClientConfig) -> (sender: Self)
        ensures
            sender.wf(),
            sender.config == config,
            sender.stats == ReliableClientStats::zero(),
            sender.window@ == Map::<u128, InFlightPacket<ClientId>>::empty(),
            sender.window.next_sequence@ == Map::<u128, u64>::empty(),
    {
        Self { config, window: ReliableWindow::new(), stats: ReliableClientStats::none() }
    }

    /// Returns sender configuration.
    pub fn config(&self) -> (config: ReliableClientConfig)
        ensures
            config == self.config,
    {
        self.config
    }

    /// Returns sender statistics.
    pub fn stats(&self) -> (stats: ReliableClientStats)
        ensures
            stats == self.stats,
    {
        self.stats
    }

    /// Returns total in-flight reliable packets.
    pub fn in_flight_len(&self) -> (count: usize)
        requires
            self.wf(),
        ensures
            count == self.window@.dom().len(),
    {
        self.window.len()
    }

    /// Returns in-flight reliable packets for one peer client.
    pub fn in_flight_for(&self, peer_client: ClientId) -> (count: usize)
        requires
            self.wf(),
        ensures
            count == self.window.count(peer_client.0),
    {
        self.window.count_for(peer_client.0)
    }

    /// Sends a new reliable packet and stores it until acknowledged or timed out. A sequence number
    /// is used up even where the transport refuses the packet.
    pub fn send<T: TransportSink>(
        &mut self,
        transport: &mut T,
        packet: OutboundPacket,
        now_tick: u64,
    ) -> (result: Result<u64, ReliableClientError<T::Error>>)
        requires
            old(self).wf(),
        ensures
            final(self).wf(),
            final(self).config == old(self).config,
            ({
                let config = old(self).config;
                let peer = packet.client_id.0;
                let size = packet.bytes@.len();
                let sequence = old(self).window.upcoming(peer);
                if size > config.max_payload_bytes {
                    &&& result == Err::<u64, ReliableClientError<T::Error>>(
                        ReliableClientError::PayloadTooLarge {
                            budget: config.max_payload_bytes,
                            actual: size as usize,
                        },
                    )
                    &&& *final(self) == *old(self)
                    &&& *final(transport) == *old(transport)
                } else if old(self).window.count(peer) >= config.max_in_flight_per_peer {
                    &&& result == Err::<u64, ReliableClientError<T::Error>>(
                        ReliableClientError::WindowFull {
                            peer_client: packet.client_id,
                            capacity: config.max_in_flight_per_peer,
                        },
                    )
                    &&& *final(self) == *old(self)
                    &&& *final(transport) == *old(transport)
                } else {
                    &&& final(self).window.next_sequence@ == old(self).window.next_sequence@.insert(
                        peer as u128,
                        sequence.saturating_add(1),
                    )
                    &&& size > u32::MAX ==> {
                        &&& result == Err::<u64, ReliableClientError<T::Error>>(
                            ReliableClientError::Encode(
                                ReliableClientEncodeError::PayloadTooLarge { actual: size as usize },
                            ),
                        )
                        &&& final(self).window@ == old(self).window@
                        &&& final(self).stats == old(self).stats
                        &&& *final(transport) == *old(transport)
                    }
                    &&& size <= u32::MAX ==> exists|
                        sink: &mut T,
                        sent: OutboundPacket,
                        outcome: Result<(), T::Error>,
                    |
                        #![trigger call_ensures(T::send, (sink, sent), outcome)]
                        {
                            &&& call_ensures(T::send, (sink, sent), outcome)
                            &&& *sink == *old(transport)
                            &&& *final(sink) == *final(transport)
                            &&& carries(
                                sent,
                                packet.client_id,
                                data_bytes(sequence, packet.bytes@),
                            )
                            &&& match outcome {
                                Ok(()) => {
                                    &&& result == Ok::<u64, ReliableClientError<T::Error>>(sequence)
                                    &&& final(self).window@ == old(self).window@.insert(
                                        pair_key(peer, sequence),
                                        InFlightPacket {
                                            route: packet.client_id,
                                            peer,
                                            sequence,
                                            payload: packet.bytes,
                                            first_sent_tick: now_tick,
                                            last_sent_tick: now_tick,
                                            attempts: 1,
                                        },
                                    )
                                    &&& final(self).stats == (ReliableClientStats {
                                        data_sent: old(self).stats.data_sent.saturating_add(1),
                                        ..old(self).stats
                                    })
                                },
                                Err(error) => {
                                    &&& result == Err::<u64, ReliableClientError<T::Error>>(
                                        ReliableClientError::Transport(error),
                                    )
                                    &&& final(self).window@ == old(self).window@
                                    &&& final(self).stats == old(self).stats
                                },
                            }
                        }
                }
            }),
    {
        if packet.bytes.len() > self.config.max_payload_bytes {
            return Err(
                ReliableClientError::PayloadTooLarge {
                    budget: self.config.max_payload_bytes,
                    actual: packet.bytes.len(),
                },
            );
        }
        let peer: u64 = packet.client_id.0;
        if self.window.count_for(peer) >= self.config.max_in_flight_per_peer {
            return Err(
                ReliableClientError::WindowFull {
                    peer_client: packet.client_id,
                    capacity: self.config.max_in_flight_per_peer,
                },
            );
        }
        let sequence: u64 = self.window.allocate_sequence(peer);
        let route = packet.client_id;
        Self::send_data_frame(transport, route, sequence, packet.bytes.as_slice())?;
        self.window.insert_in_flight(
            InFlightPacket {
                route,
                peer,
                sequence,
                payload: packet.bytes,
                first_sent_tick: now_tick,
                last_sent_tick: now_tick,
                attempts: 1,
            },
        );
        self.stats.data_sent = self.stats.data_sent.saturating_add(1);
        Ok(sequence)
    }

    /// Processes an ACK from `ack_source_client`.
    pub fn acknowledge(&mut self, ack_source_client: ClientId, sequence: u64) -> (removed: bool)
        requires
            old(self).wf(),
        ensures
            final(self).wf(),
            final(self).config == old(self).config,
            final(self).window.next_sequence == old(self).window.next_sequence,
            ({
                let key = pair_key(ack_source_client.0, sequence);
                &&& removed <==> old(self).window@.contains_key(key)
                &&& final(self).window@ == old(self).window@.remove(key)
                &&& final(self).stats == (if removed {
                    ReliableClientStats {
                        acks_received: old(self).stats.acks_received.saturating_add(1),
                        ..old(self).stats
                    }
                } else {
                    old(self).stats
                })
            }),
    {
        let removed: bool = self.window.remove_in_flight(ack_source_client.0, sequence).is_some();
        if removed {
            self.stats.acks_received = self.stats.acks_received.saturating_add(1);
        }
        removed
    }

    /// Retries due in-flight packets.
    pub fn retry_due<T: TransportSink>(&mut self, transport: &mut T, now_tick: u64) -> (result: Result<
        ReliableRetryReport,
        ReliableClientError<T::Error>,
    >)
        requires
            old(self).wf(),
        ensures
            final(self).wf(),
            exists|done: nat, links: Seq<T>|
                {
                    &&& #[trigger] final(self).retried_from(
                        *old(self),
                        now_tick,
                        done,
                        result,
                    )
                    &&& #[trigger] linked(
                        links,
                        old(self).due(now_tick).take(done as int),
                        *old(transport),
                        links.last(),
                    )
                    &&& forall|i: int| #[trigger]
                        asked(old(self).due(now_tick).take(done as int), i) ==> match resent_at(
                            old(self).window@,
                            old(self).due(now_tick),
                            i,
                            old(self).config.max_attempts,
                            now_tick,
                        ) {
                            Some(packet) => exists|sink: &mut T, sent: OutboundPacket, outcome: Result<(), T::Error>|
                                #![trigger call_ensures(T::send, (sink, sent), outcome)]
                                {
                                    &&& call_ensures(T::send, (sink, sent), outcome)
                                    &&& outcome is Ok
                                    &&& carries(sent, packet.route, data_bytes(packet.sequence, packet.payload@))
                                    &&& *sink == links[i]
                                    &&& *final(sink) == links[i + 1]
                                },
                            None => links[i + 1] == links[i],
                        }
                    &&& match result {
                        Err(ReliableClientError::Transport(error)) => exists|
                            sink: &mut T,
                            sent: OutboundPacket,
                            outcome: Result<(), T::Error>,
                        |
                            #![trigger call_ensures(T::send, (sink, sent), outcome)]
                            {
                                let packet = resent_at(
                                    old(self).window@,
                                    old(self).due(now_tick),
                                    done as int,
                                    old(self).config.max_attempts,
                                    now_tick,
                                )->0;
                                &&& call_ensures(T::send, (sink, sent), outcome)
                                &&& outcome == Err::<(), T::Error>(error)
                                &&& carries(
                                    sent,
                                    packet.route,
                                    data_bytes(packet.sequence, packet.payload@),
                                )
                                &&& *sink == links.last()
                                &&& *final(sink) == *final(transport)
                            },
                        _ => *final(transport) == links.last(),
                    }
                },
    {
        let mut scratch = ReliableClientRetryScratch::new();
        self.retry_due_with_scratch(transport, now_tick, &mut scratch)
    }

    /// The pairs that are due, in ascending order.
    pub open spec fn due(self, now_tick: u64) -> Seq<(u64, u64)> {
        due_pairs(self.window.in_flight.entries@, now_tick, self.config.retry_after_ticks)
    }

    /// What a retry pass leaves behind. The due packets are taken in ascending order; a packet whose
    /// attempts are used up is dropped, and any other is sent again. The pass ends early where a
    /// packet cannot be sent: that packet, and those behind it, stay as they were.
    pub open spec fn retried_from<E>(
        self,
        before: Self,
        now_tick: u64,
        done: nat,
        result: Result<ReliableRetryReport, ReliableClientError<E>>,
    ) -> bool {
        let max_attempts = before.config.max_attempts;
        let due = before.due(now_tick);
        &&& self.config == before.config
        &&& self.window.next_sequence == before.window.next_sequence
        &&& done <= due.len()
        &&& self.passed(before, due, done, now_tick)
        &&& match result {
            Ok(report) => {
                let pass = retry_pass(before.window@, due, max_attempts, now_tick);
                done == due.len() && report.retried == pass.1 && report.timed_out == pass.2
            },
            Err(error) => {
                &&& done < due.len()
                &&& resent_at(before.window@, due, done as int, max_attempts, now_tick) matches Some(
                    packet,
                )
                &&& if packet.payload@.len() > u32::MAX {
                    error == ReliableClientError::<E>::Encode(
                        ReliableClientEncodeError::PayloadTooLarge {
                            actual: packet.payload@.len() as usize,
                        },
                    )
                } else {
                    error is Transport
                }
            },
        }
    }

    /// State after the first `done` due packets were dealt with.
    pub open spec fn passed(
        self,
        before: Self,
        due: Seq<(u64, u64)>,
        done: nat,
        now_tick: u64,
    ) -> bool {
        let max_attempts = before.config.max_attempts;
        let pass = retry_pass(before.window@, due.take(done as int), max_attempts, now_tick);
        &&& self.window@ == pass.0
        &&& self.stats == before.stats.after_retries(pass.1, pass.2)
    }

    /// Retries due packets using caller-owned scan storage.
    pub fn retry_due_with_scratch<T: TransportSink>(
        &mut self,
        transport: &mut T,
        now_tick: u64,
        scratch: &mut ReliableClientRetryScratch,
    ) -> (result: Result<ReliableRetryReport, ReliableClientError<T::Error>>)
        requires
            old(self).wf(),
        ensures
            final(self).wf(),
            exists|done: nat, links: Seq<T>|
                {
                    &&& #[trigger] final(self).retried_from(
                        *old(self),
                        now_tick,
                        done,
                        result,
                    )
                    &&& #[trigger] linked(
                        links,
                        old(self).due(now_tick).take(done as int),
                        *old(transport),
                        links.last(),
                    )
                    &&& forall|i: int| #[trigger]
                        asked(old(self).due(now_tick).take(done as int), i) ==> match resent_at(
                            old(self).window@,
                            old(self).due(now_tick),
                            i,
                            old(self).config.max_attempts,
                            now_tick,
                        ) {
                            Some(packet) => exists|sink: &mut T, sent: OutboundPacket, outcome: Result<(), T::Error>|
                                #![trigger call_ensures(T::send, (sink, sent), outcome)]
                                {
                                    &&& call_ensures(T::send, (sink, sent), outcome)
                                    &&& outcome is Ok
                                    &&& carries(sent, packet.route, data_bytes(packet.sequence, packet.payload@))
                                    &&& *sink == links[i]
                                    &&& *final(sink) == links[i + 1]
                                },
                            None => links[i + 1] == links[i],
                        }
                    &&& match result {
                        Err(ReliableClientError::Transport(error)) => exists|
                            sink: &mut T,
                            sent: OutboundPacket,
                            outcome: Result<(), T::Error>,
                        |
                            #![trigger call_ensures(T::send, (sink, sent), outcome)]
                            {
                                let packet = resent_at(
                                    old(self).window@,
                                    old(self).due(now_tick),
                                    done as int,
                                    old(self).config.max_attempts,
                                    now_tick,
                                )->0;
                                &&& call_ensures(T::send, (sink, sent), outcome)
                                &&& outcome == Err::<(), T::Error>(error)
                                &&& carries(
                                    sent,
                                    packet.route,
                                    data_bytes(packet.sequence, packet.payload@),
                                )
                                &&& *sink == links.last()
                                &&& *final(sink) == *final(transport)
                            },
                        _ => *final(transport) == links.last(),
                    }
                },
            final(scratch).due_keys@ == old(self).due(now_tick),
    {
        let ghost before = *self;
        let ghost mut links: Seq<T> = seq![*transport];
        let ghost max_attempts = self.config.max_attempts;
        self.window.collect_due(now_tick, self.config.retry_after_ticks, &mut scratch.due_keys);
        let ghost due = scratch.due_keys@;
        let mut report = ReliableRetryReport { retried: 0, timed_out: 0 };
        let mut index: usize = 0;
        assert(due.take(0) =~= Seq::empty());
        while index < scratch.due_keys.len()
            invariant
                index <= scratch.due_keys@.len(),
                scratch.due_keys@ == due,
                due == before.due(now_tick),
                before == *old(self),
                max_attempts == before.config.max_attempts,
                self.wf(),
                self.config == before.config,
                self.window.next_sequence == before.window.next_sequence,
                self.passed(before, due, index as nat, now_tick),
                linked(links, due.take(index as int), *old(transport), *transport),
                forall|i: int| #[trigger]
                    asked(due.take(index as int), i) ==> match resent_at(
                        before.window@,
                        due,
                        i,
                        before.config.max_attempts,
                        now_tick,
                    ) {
                        Some(packet) => exists|sink: &mut T, sent: OutboundPacket, outcome: Result<(), T::Error>|
                            #![trigger call_ensures(T::send, (sink, sent), outcome)]
                            {
                                &&& call_ensures(T::send, (sink, sent), outcome)
                                &&& outcome is Ok
                                &&& carries(sent, packet.route, data_bytes(packet.sequence, packet.payload@))
                                &&& *sink == links[i]
                                &&& *final(sink) == links[i + 1]
                            },
                        None => links[i + 1] == links[i],
                    },
                report.retried + report.timed_out <= index,
                ({
                    let pass = retry_pass(
                        before.window@,
                        due.take(index as int),
                        max_attempts,
                        now_tick,
                    );
                    report.retried == pass.1 && report.timed_out == pass.2
                }),
            decreases scratch.due_keys@.len() - index,
        {
            let ghost done = index as nat;
            let ghost pair = due[index as int];
            proof {
                assert(due.take(index + 1).drop_last() =~= due.take(index as int));
                assert(due.take(index + 1).last() == pair);
            }
            let (peer, sequence) = scratch.due_keys[index];
            match self.retry_one(transport, (peer, sequence), now_tick, &mut report) {
                Err(error) => {
                    assert(self.retried_from::<T::Error>(before, now_tick, done, Err(error)));
                    assert(linked(links, due.take(done as int), *old(transport), links.last()));
                    return Err(error);
                },
                Ok(()) => {},
            }
            index = index + 1;
            let ghost reached = links;
            proof {
                links = links.push(*transport);
            }
            assert forall|i: int| #[trigger]
                asked(due.take(index as int), i) implies match resent_at(
                    before.window@,
                    due,
                    i,
                    before.config.max_attempts,
                    now_tick,
                ) {
                    Some(packet) => exists|sink: &mut T, sent: OutboundPacket, outcome: Result<(), T::Error>|
                        #![trigger call_ensures(T::send, (sink, sent), outcome)]
                        {
                            &&& call_ensures(T::send, (sink, sent), outcome)
                            &&& outcome is Ok
                            &&& carries(sent, packet.route, data_bytes(packet.sequence, packet.payload@))
                            &&& *sink == links[i]
                            &&& *final(sink) == links[i + 1]
                        },
                    None => links[i + 1] == links[i],
                } by {
                assert(links[i] == reached[i]);
                if i < done {
                    assert(asked(due.take(done as int), i));
                    assert(links[i + 1] == reached[i + 1]);
                }
            }
        }
        assert(due.take(index as int) =~= due);
        assert(self.retried_from::<T::Error>(before, now_tick, index as nat, Ok(report)));
        Ok(report)
    }

    /// Deals with one due packet.
    fn retry_one<T: TransportSink>(
        &mut self,
        transport: &mut T,
        pair: (u64, u64),
        now_tick: u64,
        report: &mut ReliableRetryReport,
    ) -> (result: Result<(), ReliableClientError<T::Error>>)
        requires
            old(self).wf(),
            old(report).retried + old(report).timed_out < usize::MAX,
        ensures
            final(self).wf(),
            final(self).config == old(self).config,
            final(self).window.next_sequence == old(self).window.next_sequence,
            ({
                let max_attempts = old(self).config.max_attempts;
                let packet = old(self).window@[pair_key(pair.0, pair.1)];
                let again = is_resent(old(self).window@, pair, max_attempts);
                let dropped = is_dropped(old(self).window@, pair, max_attempts);
                match result {
                    Ok(()) => {
                        &&& final(self).window@ == retry_step(
                            old(self).window@,
                            pair,
                            max_attempts,
                            now_tick,
                        )
                        &&& again ==> exists|sink: &mut T, sent: OutboundPacket, outcome: Result<(), T::Error>|
                            #![trigger call_ensures(T::send, (sink, sent), outcome)]
                            {
                                &&& call_ensures(T::send, (sink, sent), outcome)
                                &&& outcome is Ok
                                &&& carries(
                                    sent,
                                    packet.route,
                                    data_bytes(packet.sequence, packet.payload@),
                                )
                                &&& *sink == *old(transport)
                                &&& *final(sink) == *final(transport)
                            }
                        &&& !again ==> *final(transport) == *old(transport)
                        &&& final(report).retried == old(report).retried + (if again {
                            1int
                        } else {
                            0
                        })
                        &&& final(report).timed_out == old(report).timed_out + (if dropped {
                            1int
                        } else {
                            0
                        })
                        &&& final(self).stats == old(self).stats.after_retries(
                            if again {
                                1
                            } else {
                                0
                            },
                            if dropped {
                                1
                            } else {
                                0
                            },
                        )
                    },
                    Err(error) => {
                        &&& *final(self) == *old(self)
                        &&& *final(report) == *old(report)
                        &&& again
                        &&& if packet.payload@.len() > u32::MAX {
                            error == ReliableClientError::<T::Error>::Encode(
                                ReliableClientEncodeError::PayloadTooLarge {
                                    actual: packet.payload@.len() as usize,
                                },
                            )
                        } else {
                            error is Transport
                        }
                        &&& match error {
                            ReliableClientError::Transport(failure) => exists|sink: &mut T, sent: OutboundPacket, outcome: Result<(), T::Error>|
                                #![trigger call_ensures(T::send, (sink, sent), outcome)]
                                {
                                    &&& call_ensures(T::send, (sink, sent), outcome)
                                    &&& outcome == Err::<(), T::Error>(failure)
                                    &&& carries(
                                        sent,
                                        packet.route,
                                        data_bytes(packet.sequence, packet.payload@),
                                    )
                                    &&& *sink == *old(transport)
                                    &&& *final(sink) == *final(transport)
                                },
                            _ => *final(transport) == *old(transport),
                        }
                    },
                }
            }),
    {
        let (peer, sequence) = pair;
        let attempts: u8 = match self.window.packet(peer, sequence) {
            None => {
                return Ok(());
            },
            Some(packet) => packet.attempts,
        };
        if attempts >= self.config.max_attempts {
            self.window.remove_in_flight(peer, sequence);
            self.stats.timed_out = self.stats.timed_out.saturating_add(1);
            report.timed_out = report.timed_out.saturating_add(1);
            return Ok(());
        }
        if let Some(packet) = self.window.packet(peer, sequence) {
            Self::send_data_frame(transport, packet.route, sequence, packet.payload.as_slice())?;
        }
        self.window.mark_resent(peer, sequence, now_tick);
        self.stats.retries_sent = self.stats.retries_sent.saturating_add(1);
        report.retried = report.retried.saturating_add(1);
        Ok(())
    }

    fn send_data_frame<T: TransportSink>(
        transport: &mut T,
        route: ClientId,
        sequence: u64,
        payload: &[u8],
    ) -> (result: Result<(), ReliableClientError<T::Error>>)
        ensures
            payload@.len() > u32::MAX ==> {
                &&& *final(transport) == *old(transport)
                &&& result == Err::<(), ReliableClientError<T::Error>>(
                    ReliableClientError::Encode(
                        ReliableClientEncodeError::PayloadTooLarge {
                            actual: payload@.len() as usize,
                        },
                    ),
                )
            },
            payload@.len() <= u32::MAX ==> exists|
                sink: &mut T,
                sent: OutboundPacket,
                outcome: Result<(), T::Error>,
            |
                #![trigger call_ensures(T::send, (sink, sent), outcome)]
                {
                    &&& call_ensures(T::send, (sink, sent), outcome)
                    &&& *sink == *old(transport)
                    &&& *final(sink) == *final(transport)
                    &&& carries(sent, route, data_bytes(sequence, payload@))
                    &&& result == sent_result(outcome)
                },
    {
        let mut bytes: Vec<u8> = Vec::new();
        match ReliableClientFrame::encode_data(sequence, payload, &mut bytes) {
            Ok(()) => {},
            Err(error) => {
                return Err(ReliableClientError::Encode(error));
            },
        }
        assert(bytes@ =~= data_bytes(sequence, payload@));
        match transport.send(OutboundPacket { client_id: route, bytes }) {
            Ok(()) => Ok(()),
            Err(error) => Err(ReliableClientError::Transport(error)),
        }
    }
}

impl Default for ReliableClientSender {
    fn default() -> (sender: Self)
        ensures
            sender.wf(),
            sender.stats == ReliableClientStats::zero(),
            sender.window@ == Map::<u128, InFlightPacket<ClientId>>::empty(),
            sender.window.next_sequence@ == Map::<u128, u64>::empty(),
            sender.config.max_in_flight_per_peer == 1024,
            sender.config.retry_after_ticks == 2,
            sender.config.max_attempts == 4,
            sender.config.max_payload_bytes == 16367,
            sender.config.max_delivered_history == 4096,
    {
        Self::new(ReliableClientConfig::default())
    }
}

/// Whether a receiver has delivered a packet already, as far as its history reaches.
pub open spec fn is_duplicate(max_history: nat, order: Seq<(u64, u64)>, pair: (u64, u64)) -> bool {
    max_history != 0 && order.contains(pair)
}

/// Bounded reliable client receiver state.
#[derive(Clone, Debug)]
pub struct ReliableClientReceiver {
    /// Receiver configuration.
    pub config: ReliableClientConfig,
    /// Recently delivered packets.
    pub delivered: PairHistory,
    /// Receiver statistics.
    pub stats: ReliableClientStats,
}

impl ReliableClientReceiver {
    /// The history is well-formed and has the configured size.
    pub open spec fn wf(self) -> bool {
        self.delivered.wf() && self.delivered.max_pairs == self.config.max_delivered_history
    }

    /// Statistics after an acknowledged packet.
    pub open spec fn stats_after(self, pair: (u64, u64)) -> ReliableClientStats {
        let stats = ReliableClientStats {
            acks_sent: self.stats.acks_sent.saturating_add(1),
            ..self.stats
        };
        if is_duplicate(self.config.max_delivered_history as nat, self.delivered@, pair) {
            ReliableClientStats {
                duplicates_suppressed: stats.duplicates_suppressed.saturating_add(1),
                ..stats
            }
        } else {
            ReliableClientStats { data_delivered: stats.data_delivered.saturating_add(1), ..stats }
        }
    }

    /// Creates a bounded reliable client receiver.
    pub fn new(config: ReliableClientConfig) -> (receiver: Self)
        ensures
            receiver.wf(),
            receiver.config == config,
            receiver.delivered@ == Seq::<(u64, u64)>::empty(),
            receiver.stats == ReliableClientStats::zero(),
    {
        Self {
            config,
            delivered: PairHistory::new(config.max_delivered_history),
            stats: ReliableClientStats::none(),
        }
    }

    /// Returns receiver configuration.
    pub fn config(&self) -> (config: ReliableClientConfig)
        ensures
            config == self.config,
    {
        self.config
    }

    /// Returns receiver statistics.
    pub fn stats(&self) -> (stats: ReliableClientStats)
        ensures
            stats == self.stats,
    {
        self.stats
    }

    /// Handles a reliable data packet, sends an ACK, and returns a payload only for first delivery.
    pub fn handle_data<T: TransportSink>(
        &mut self,
        transport: &mut T,
        packet: InboundPacket,
        source_client: ClientId,
        sequence: u64,
        payload: Vec<u8>,
    ) -> (result: Result<Option<InboundPacket>, ReliableClientError<T::Error>>)
        requires
            old(self).wf(),
        ensures
            final(self).wf(),
            final(self).config == old(self).config,
            exists|sink: &mut T, sent: OutboundPacket, outcome: Result<(), T::Error>|
                #![trigger call_ensures(T::send, (sink, sent), outcome)]
                {
                    let max_history = old(self).config.max_delivered_history as nat;
                    let pair = (source_client.0, sequence);
                    &&& call_ensures(T::send, (sink, sent), outcome)
                    &&& *sink == *old(transport)
                    &&& *final(sink) == *final(transport)
                    &&& carries(sent, source_client, ack_bytes(sequence))
                    &&& match outcome {
                        Err(error) => {
                            &&& result == Err::<Option<InboundPacket>, ReliableClientError<T::Error>>(
                                ReliableClientError::Transport(error),
                            )
                            &&& *final(self) == *old(self)
                        },
                        Ok(()) => {
                            &&& final(self).stats == old(self).stats_after(pair)
                            &&& final(self).delivered@ == retained(
                                max_history,
                                old(self).delivered@,
                                pair,
                            )
                            &&& result == Ok::<Option<InboundPacket>, ReliableClientError<T::Error>>(
                                if is_duplicate(max_history, old(self).delivered@, pair) {
                                    None
                                } else {
                                    Some(
                                        InboundPacket {
                                            client_id: Some(source_client),
                                            remote_addr: packet.remote_addr,
                                            bytes: payload,
                                        },
                                    )
                                },
                            )
                        },
                    }
                },
    {
        self.send_ack(transport, source_client, sequence)?;
        if !self.delivered.accept(source_client.0, sequence) {
            self.stats.duplicates_suppressed = self.stats.duplicates_suppressed.saturating_add(1);
            return Ok(None);
        }
        self.stats.data_delivered = self.stats.data_delivered.saturating_add(1);
        Ok(
            Some(
                InboundPacket {
                    client_id: Some(source_client),
                    remote_addr: packet.remote_addr,
                    bytes: payload,
                },
            ),
        )
    }

    fn send_ack<T: TransportSink>(&mut self, transport: &mut T, route: ClientId, sequence: u64) -> (result:
        Result<(), ReliableClientError<T::Error>>)
        ensures
            final(self).config == old(self).config,
            final(self).delivered == old(self).delivered,
            exists|sink: &mut T, sent: OutboundPacket, outcome: Result<(), T::Error>|
                #![trigger call_ensures(T::send, (sink, sent), outcome)]
                {
                    &&& call_ensures(T::send, (sink, sent), outcome)
                    &&& *sink == *old(transport)
                    &&& *final(sink) == *final(transport)
                    &&& carries(sent, route, ack_bytes(sequence))
                    &&& result == sent_result(outcome)
                },
            final(self).stats == (if result is Ok {
                ReliableClientStats {
                    acks_sent: old(self).stats.acks_sent.saturating_add(1),
                    ..old(self).stats
                }
            } else {
                old(self).stats
            }),
    {
        let mut bytes: Vec<u8> = Vec::new();
        match (ReliableClientFrame::Ack { sequence }).encode(&mut bytes) {
            Ok(()) => {},
            Err(error) => {
                return Err(ReliableClientError::Encode(error));
            },
        }
        assert(bytes@ =~= ack_bytes(sequence));
        match transport.send(OutboundPacket { client_id: route, bytes }) {
            Ok(()) => {},
            Err(error) => {
                return Err(ReliableClientError::Transport(error));
            },
        }
        self.stats.acks_sent = self.stats.acks_sent.saturating_add(1);
        Ok(())
    }
}

impl Default for ReliableClientReceiver {
    fn default() -> (receiver: Self)
        ensures
            receiver.wf(),
            receiver.delivered@ == Seq::<(u64, u64)>::empty(),
            receiver.stats == ReliableClientStats::zero(),
            receiver.config.max_in_flight_per_peer == 1024,
            receiver.config.retry_after_ticks == 2,
            receiver.config.max_attempts == 4,
            receiver.config.max_payload_bytes == 16367,
            receiver.config.max_delivered_history == 4096,
    {
        Self::new(ReliableClientConfig::default())
    }
}

/// Reliable client endpoint combining sender and receiver state.
#[derive(Clone, Debug)]
pub struct ReliableClientEndpoint {
    /// Sender state.
    pub sender: ReliableClientSender,
    /// Receiver state.
    pub receiver: ReliableClientReceiver,
}

impl ReliableClientEndpoint {
    /// Sender and receiver are well-formed.
    pub open spec fn wf(self) -> bool {
        self.sender.wf() && self.receiver.wf()
    }

    /// Creates a reliable client endpoint.
    pub fn new(config: ReliableClientConfig) -> (endpoint: Self)
        ensures
            endpoint.wf(),
            endpoint.sender.config == config,
            endpoint.sender.stats == ReliableClientStats::zero(),
            endpoint.sender.window@ == Map::<u128, InFlightPacket<ClientId>>::empty(),
            endpoint.sender.window.next_sequence@ == Map::<u128, u64>::empty(),
            endpoint.receiver.config == config,
            endpoint.receiver.delivered@ == Seq::<(u64, u64)>::empty(),
            endpoint.receiver.stats == ReliableClientStats::zero(),
    {
        Self {
            sender: ReliableClientSender::new(config),
            receiver: ReliableClientReceiver::new(config),
        }
    }

    /// Sends a new reliable packet to a peer client.
    pub fn send<T: TransportSink>(
        &mut self,
        transport: &mut T,
        packet: OutboundPacket,
        now_tick: u64,
    ) -> (result: Result<u64, ReliableClientError<T::Error>>)
        requires
            old(self).wf(),
        ensures
            final(self).wf(),
            final(self).receiver == old(self).receiver,
            exists|sender: &mut ReliableClientSender, sink: &mut T|
                #![trigger call_ensures(
                    ReliableClientSender::send::<T>,
                    (sender, sink, packet, now_tick),
                    result,
                )]
                {
                    &&& call_ensures(
                        ReliableClientSender::send::<T>,
                        (sender, sink, packet, now_tick),
                        result,
                    )
                    &&& *sender == old(self).sender
                    &&& *final(sender) == final(self).sender
                    &&& *sink == *old(transport)
                    &&& *final(sink) == *final(transport)
                },
    {
        self.sender.send(transport, packet, now_tick)
    }

    /// Retries due reliable client packets.
    pub fn retry_due<T: TransportSink>(&mut self, transport: &mut T, now_tick: u64) -> (result: Result<
        ReliableRetryReport,
        ReliableClientError<T::Error>,
    >)
        requires
            old(self).wf(),
        ensures
            final(self).wf(),
            final(self).receiver == old(self).receiver,
            exists|sender: &mut ReliableClientSender, sink: &mut T|
                #![trigger call_ensures(ReliableClientSender::retry_due::<T>, (sender, sink, now_tick), result)]
                {
                    &&& call_ensures(ReliableClientSender::retry_due::<T>, (sender, sink, now_tick), result)
                    &&& *sender == old(self).sender
                    &&& *final(sender) == final(self).sender
                    &&& *sink == *old(transport)
                    &&& *final(sink) == *final(transport)
                },
    {
        self.sender.retry_due(transport, now_tick)
    }

    /// Retries due reliable client packets using caller-owned scan storage.
    pub fn retry_due_with_scratch<T: TransportSink>(
        &mut self,
        transport: &mut T,
        now_tick: u64,
        scratch: &mut ReliableClientRetryScratch,
    ) -> (result: Result<ReliableRetryReport, ReliableClientError<T::Error>>)
        requires
            old(self).wf(),
        ensures
            final(self).wf(),
            final(self).receiver == old(self).receiver,
            exists|sender: &mut ReliableClientSender, sink: &mut T, storage: &mut ReliableClientRetryScratch|
                #![trigger call_ensures(ReliableClientSender::retry_due_with_scratch::<T>, (sender, sink, now_tick, storage), result)]
                {
                    &&& call_ensures(ReliableClientSender::retry_due_with_scratch::<T>, (sender, sink, now_tick, storage), result)
                    &&& *sender == old(self).sender
                    &&& *final(sender) == final(self).sender
                    &&& *sink == *old(transport)
                    &&& *final(sink) == *final(transport)
                    &&& *storage == *old(scratch)
                    &&& *final(storage) == *final(scratch)
                },
    {
        self.sender.retry_due_with_scratch(transport, now_tick, scratch)
    }

    /// Handles one inbound reliable client packet: a data frame is acknowledged and delivered once,
    /// an ACK takes the packet it names out of flight.
    pub fn handle_inbound<T: TransportSink>(&mut self, transport: &mut T, packet: InboundPacket) -> (result: Result<
        Option<InboundPacket>,
        ReliableClientError<T::Error>,
    >)
        requires
            old(self).wf(),
        ensures
            final(self).wf(),
            final(self).sender.config == old(self).sender.config,
            final(self).receiver.config == old(self).receiver.config,
            packet.client_id is None ==> {
                &&& result == Err::<Option<InboundPacket>, ReliableClientError<T::Error>>(
                    ReliableClientError::MissingSourceClient,
                )
                &&& *final(self) == *old(self)
                &&& *final(transport) == *old(transport)
            },
            packet.client_id matches Some(source) ==> match decoded_reliable(LinkKind::Client, packet.bytes@) {
                Err(fault) => {
                    &&& result == Err::<Option<InboundPacket>, ReliableClientError<T::Error>>(
                        ReliableClientError::Decode(ReliableClientDecodeError::like(fault)),
                    )
                    &&& *final(self) == *old(self)
                    &&& *final(transport) == *old(transport)
                },
                Ok(ReliableModel::Ack { sequence }) => {
                    let key = pair_key(source.0, sequence);
                    let known = old(self).sender.window@.contains_key(key);
                    &&& result == Ok::<Option<InboundPacket>, ReliableClientError<T::Error>>(None)
                    &&& *final(transport) == *old(transport)
                    &&& final(self).receiver == old(self).receiver
                    &&& final(self).sender.window@ == old(self).sender.window@.remove(key)
                    &&& final(self).sender.window.next_sequence == old(
                        self,
                    ).sender.window.next_sequence
                    &&& final(self).sender.stats == (if known {
                        ReliableClientStats {
                            acks_received: old(self).sender.stats.acks_received.saturating_add(1),
                            ..old(self).sender.stats
                        }
                    } else {
                        old(self).sender.stats
                    })
                },
                Ok(ReliableModel::Data { sequence, payload }) => {
                    &&& final(self).sender == old(self).sender
                    &&& exists|sink: &mut T, sent: OutboundPacket, outcome: Result<(), T::Error>|
                        #![trigger call_ensures(T::send, (sink, sent), outcome)]
                        {
                            let before = old(self).receiver;
                            let max_history = before.config.max_delivered_history as nat;
                            let pair = (source.0, sequence);
                            &&& call_ensures(T::send, (sink, sent), outcome)
                            &&& *sink == *old(transport)
                            &&& *final(sink) == *final(transport)
                            &&& carries(sent, source, ack_bytes(sequence))
                            &&& match outcome {
                                Err(error) => {
                                    &&& result == Err::<
                                        Option<InboundPacket>,
                                        ReliableClientError<T::Error>,
                                    >(ReliableClientError::Transport(error))
                                    &&& final(self).receiver == before
                                },
                                Ok(()) => {
                                    &&& final(self).receiver.stats == before.stats_after(pair)
                                    &&& final(self).receiver.delivered@ == retained(
                                        max_history,
                                        before.delivered@,
                                        pair,
                                    )
                                    &&& result matches Ok(delivered)
                                    &&& delivered is None <==> is_duplicate(
                                        max_history,
                                        before.delivered@,
                                        pair,
                                    )
                                    &&& delivered matches Some(inner) ==> {
                                        &&& inner.client_id == Some(source)
                                        &&& inner.remote_addr == packet.remote_addr
                                        &&& inner.bytes@ == payload
                                    }
                                },
                            }
                        }
                },
            },
    {
        let source_client = match packet.client_id {
            Some(source_client) => source_client,
            None => {
                return Err(ReliableClientError::MissingSourceClient);
            },
        };
        let remote_addr = packet.remote_addr;
        let (sequence, payload_len): (u64, usize) = match ReliableClientFrame::decode_ref(
            packet.bytes.as_slice(),
        ) {
            Err(error) => {
                return Err(ReliableClientError::Decode(error));
            },
            Ok(ReliableClientFrameRef::Ack { sequence }) => {
                self.sender.acknowledge(source_client, sequence);
                return Ok(None);
            },
            Ok(ReliableClientFrameRef::Data { sequence, payload }) => (sequence, payload.len()),
        };
        let offset: usize = packet.bytes.len() - payload_len;
        let payload = reuse_reliable_payload(packet.bytes, offset, payload_len);
        self.receiver.handle_data(
            transport,
            InboundPacket { client_id: Some(source_client), remote_addr, bytes: Vec::new() },
            source_client,
            sequence,
            payload,
        )
    }
}

impl Default for ReliableClientEndpoint {
    fn default() -> (endpoint: Self)
        ensures
            endpoint.wf(),
            endpoint.sender.stats == ReliableClientStats::zero(),
            endpoint.receiver.stats == ReliableClientStats::zero(),
            endpoint.sender.window@ == Map::<u128, InFlightPacket<ClientId>>::empty(),
            endpoint.sender.window.next_sequence@ == Map::<u128, u64>::empty(),
            endpoint.receiver.delivered@ == Seq::<(u64, u64)>::empty(),
            endpoint.sender.config.max_in_flight_per_peer == 1024,
            endpoint.sender.config.retry_after_ticks == 2,
            endpoint.sender.config.max_attempts == 4,
            endpoint.sender.config.max_payload_bytes == 16367,
            endpoint.sender.config.max_delivered_history == 4096,
            endpoint.receiver.config.max_in_flight_per_peer == 1024,
            endpoint.receiver.config.retry_after_ticks == 2,
            endpoint.receiver.config.max_attempts == 4,
            endpoint.receiver.config.max_payload_bytes == 16367,
            endpoint.receiver.config.max_delivered_history == 4096,
    {
        Self::new(ReliableClientConfig::default())
    }
}

/// What a client sends reliably is what its peer reads: the data frame of a packet holds the packet's
/// sequence number and payload.
pub proof fn law_data_frames_are_read_back(sequence: u64, payload: Seq<u8>)
    requires
        payload.len() <= u32::MAX,
    ensures
        decoded_reliable(LinkKind::Client, data_bytes(sequence, payload)) == Ok::<
            ReliableModel,
            ReliableStationDecodeError,
        >(ReliableModel::Data { sequence, payload }),
{
    law_reliable_decode_inverts_encode(
        LinkKind::Client,
        ReliableModel::Data { sequence, payload },
    );
}

/// An acknowledgement names the packet it is for, and takes that packet, and no other, out of
/// flight.
pub proof fn law_acknowledgements_release_their_packet(
    packets: Map<u128, InFlightPacket<ClientId>>,
    peer: u64,
    sequence: u64,
)
    ensures
        decoded_reliable(LinkKind::Client, ack_bytes(sequence)) == Ok::<
            ReliableModel,
            ReliableStationDecodeError,
        >(ReliableModel::Ack { sequence }),
        !packets.remove(pair_key(peer, sequence)).contains_key(pair_key(peer, sequence)),
        forall|other: (u64, u64)| #[trigger]
            packets.contains_key(pair_key(other.0, other.1)) && other != (peer, sequence)
                ==> packets.remove(pair_key(peer, sequence)).contains_key(
                pair_key(other.0, other.1),
            ),
{
    law_reliable_decode_inverts_encode(LinkKind::Client, ReliableModel::Ack { sequence });
    assert forall|other: (u64, u64)| #[trigger]
        packets.contains_key(pair_key(other.0, other.1)) && other != (
        peer,
        sequence,
    ) implies packets.remove(pair_key(peer, sequence)).contains_key(pair_key(other.0, other.1)) by {
        if pair_key(other.0, other.1) == pair_key(peer, sequence) {
            lemma_pair_key_injective(other, (peer, sequence));
        }
    }
}

/// A packet is delivered once: sent again, it is suppressed for as long as fewer packets than the
/// history holds came in since.
pub proof fn law_packets_are_delivered_once(
    max_history: nat,
    order: Seq<(u64, u64)>,
    pair: (u64, u64),
    later: Seq<(u64, u64)>,
)
    requires
        max_history > 0,
        order.len() <= max_history,
        !is_duplicate(max_history, order, pair),
        later.len() < max_history,
    ensures
        is_duplicate(
            max_history,
            retained_all(max_history, retained(max_history, order, pair), later),
            pair,
        ),
{
    law_retained_pair_is_refused(max_history, order, pair, later);
}

} // verus!
