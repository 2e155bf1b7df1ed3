//! Barrier notifications sent to clients.

use vstd::prelude::*;
use vstd::std_specs::convert::FromSpecImpl;

use crate::barrier::RuntimeBarrier;
use crate::bytes::lemma_le_bytes_len;
use crate::frames::{BarrierFrame, FrameEncoder};
use crate::ids::{BarrierId, BarrierState, ClientId, Tick};
use crate::num::clamp_usize;
use crate::packets::{asked, linked, OutboundPacket, TransportSink};
use crate::wire_codec::BinaryFrameEncoder;
use crate::wire_spec::{barrier_bytes, BinaryEncodeError};

verus! {

/// Bytes of an encoded barrier notification.
pub const BARRIER_FRAME_BYTES: usize = 26;

/// Runtime barrier notification transport statistics.
#[derive(Clone, Copy, Debug, Default, PartialEq, Eq, Structural)]
pub struct BarrierTransportStats {
    /// Barrier notifications encoded and submitted.
    pub notifications_sent: usize,
    /// Clients notified.
    pub clients_notified: usize,
    /// Bytes submitted through client transport.
    pub bytes_sent: usize,
}

impl BarrierTransportStats {
    /// All counts at zero.
    pub open spec fn zero() -> Self {
        BarrierTransportStats { notifications_sent: 0, clients_notified: 0, bytes_sent: 0 }
    }

    /// The counts after several more notifications.
    pub open spec fn after(self, count: nat) -> Self {
        BarrierTransportStats {
            notifications_sent: clamp_usize(self.notifications_sent as nat + count),
            clients_notified: clamp_usize(self.clients_notified as nat + count),
            bytes_sent: clamp_usize(self.bytes_sent as nat + count * BARRIER_FRAME_BYTES as nat),
        }
    }
}

/// Result of one barrier notification broadcast.
#[derive(Clone, Copy, Debug, PartialEq, Eq, Structural)]
pub struct BarrierTransportReport {
    /// Barrier id.
    pub barrier_id: BarrierId,
    /// Barrier state sent.
    pub state: BarrierState,
    /// Server tick sent with the notification.
    pub server_tick: Tick,
    /// Clients requested for notification.
    pub clients_requested: usize,
    /// Clients notified.
    pub clients_sent: usize,
    /// Bytes submitted through client transport.
    pub bytes_sent: usize,
}

/// Error produced while encoding or sending barrier notifications.
#[derive(Clone, Debug, PartialEq, Eq)]
pub enum BarrierTransportError<E> {
    /// Wire encoding failed.
    Encode(BinaryEncodeError),
    /// Underlying client transport failed.
    Transport(E),
}

impl<E> From<BinaryEncodeError> for BarrierTransportError<E> {
    fn from(error: BinaryEncodeError) -> (converted: Self) {
        Self::Encode(error)
    }
}

impl<E> FromSpecImpl<BinaryEncodeError> for BarrierTransportError<E> {
    open spec fn obeys_from_spec() -> bool {
        true
    }

    open spec fn from_spec(error: BinaryEncodeError) -> Self {
        BarrierTransportError::Encode(error)
    }
}

/// Low-level bridge for sending runtime barrier notifications to clients.
#[derive(Clone, Debug)]
pub struct BarrierTransportBridge {
    /// Accumulated statistics.
    pub stats: BarrierTransportStats,
}

impl Default for BarrierTransportBridge {
    fn default() -> (bridge: Self)
        ensures
            bridge.stats == BarrierTransportStats::zero(),
    {
        Self::new()
    }
}

impl BarrierTransportBridge {
    /// Creates a barrier transport bridge.
    pub fn new() -> (bridge: Self)
        ensures
            bridge.stats == BarrierTransportStats::zero(),
    {
        Self {
            stats: BarrierTransportStats {
                notifications_sent: 0,
                clients_notified: 0,
                bytes_sent: 0,
            },
        }
    }

    /// Returns accumulated statistics.
    pub fn stats(&self) -> (stats: BarrierTransportStats)
        ensures
            stats == self.stats,
    {
        self.stats
    }

    /// Encodes and sends one barrier state notification, and returns its size.
    pub fn send_state<T: TransportSink>(
        &mut self,
        transport: &mut T,
        client_id: ClientId,
        barrier_id: BarrierId,
        server_tick: Tick,
        state: BarrierState,
    ) -> (result: Result<usize, BarrierTransportError<T::Error>>)
        ensures
            exists|sink: &mut T, packet: OutboundPacket, outcome: Result<(), T::Error>|
                #![trigger call_ensures(T::send, (sink, packet), outcome)]
                {
                    &&& call_ensures(T::send, (sink, packet), outcome)
                    &&& *sink == *old(transport)
                    &&& *final(sink) == *final(transport)
                    &&& packet.client_id == client_id
                    &&& packet.bytes@ == barrier_bytes(
                        BarrierFrame { client_id, barrier_id, server_tick, state },
                    )
                    &&& match outcome {
                        Ok(()) => {
                            &&& result == Ok::<usize, BarrierTransportError<T::Error>>(
                                BARRIER_FRAME_BYTES,
                            )
                            &&& final(self).stats == old(self).stats.after(1)
                        },
                        Err(error) => {
                            &&& result == Err::<usize, BarrierTransportError<T::Error>>(
                                BarrierTransportError::Transport(error),
                            )
                            &&& *final(self) == *old(self)
                        },
                    }
                },
    {
        let frame = BarrierFrame { client_id, barrier_id, server_tick, state };
        let mut bytes: Vec<u8> = Vec::new();
        let mut encoder = BinaryFrameEncoder;
        match encoder.encode_barrier(&frame, &mut bytes) {
            Ok(()) => {},
            Err(error) => {
                return Err(BarrierTransportError::Encode(error));
            },
        }
        proof {
            assert(bytes@ =~= barrier_bytes(frame));
            lemma_le_bytes_len(client_id.0 as nat, 8);
            lemma_le_bytes_len(barrier_id.0 as nat, 8);
            lemma_le_bytes_len(server_tick.0 as nat, 8);
        }
        let bytes_sent: usize = bytes.len();
        match transport.send(OutboundPacket { client_id, bytes }) {
            Ok(()) => {},
            Err(error) => {
                return Err(BarrierTransportError::Transport(error));
            },
        }
        self.stats.notifications_sent = self.stats.notifications_sent.saturating_add(1);
        self.stats.clients_notified = self.stats.clients_notified.saturating_add(1);
        self.stats.bytes_sent = self.stats.bytes_sent.saturating_add(bytes_sent);
        Ok(bytes_sent)
    }

    /// Sends the current state of a runtime barrier to one client.
    pub fn send_barrier<T: TransportSink>(
        &mut self,
        transport: &mut T,
        client_id: ClientId,
        barrier: RuntimeBarrier,
    ) -> (result: Result<usize, BarrierTransportError<T::Error>>)
        ensures
            exists|sink: &mut T, packet: OutboundPacket, outcome: Result<(), T::Error>|
                #![trigger call_ensures(T::send, (sink, packet), outcome)]
                {
                    &&& call_ensures(T::send, (sink, packet), outcome)
                    &&& *sink == *old(transport)
                    &&& *final(sink) == *final(transport)
                    &&& packet.client_id == client_id
                    &&& packet.bytes@ == barrier_bytes(
                        BarrierFrame {
                            client_id,
                            barrier_id: barrier.id,
                            server_tick: barrier.target_tick,
                            state: barrier.state,
                        },
                    )
                    &&& match outcome {
                        Ok(()) => {
                            &&& result == Ok::<usize, BarrierTransportError<T::Error>>(
                                BARRIER_FRAME_BYTES,
                            )
                            &&& final(self).stats == old(self).stats.after(1)
                        },
                        Err(error) => {
                            &&& result == Err::<usize, BarrierTransportError<T::Error>>(
                                BarrierTransportError::Transport(error),
                            )
                            &&& *final(self) == *old(self)
                        },
                    }
                },
    {
        self.send_state(transport, client_id, barrier.id, barrier.target_tick, barrier.state)
    }

    /// What a broadcast comes to that notified the first `done` clients.
    pub open spec fn broadcast<E>(
        self,
        before: Self,
        clients: Seq<ClientId>,
        barrier_id: BarrierId,
        server_tick: Tick,
        state: BarrierState,
        done: nat,
        result: Result<BarrierTransportReport, BarrierTransportError<E>>,
    ) -> bool {
        &&& done <= clients.len()
        &&& self.stats == before.stats.after(done)
        &&& match result {
            Ok(report) => {
                &&& done == clients.len()
                &&& report == (BarrierTransportReport {
                    barrier_id,
                    state,
                    server_tick,
                    clients_requested: clients.len() as usize,
                    clients_sent: clients.len() as usize,
                    bytes_sent: clamp_usize(clients.len() * BARRIER_FRAME_BYTES as nat),
                })
            },
            Err(BarrierTransportError::Encode(_)) => false,
            Err(BarrierTransportError::Transport(_)) => done < clients.len(),
        }
    }

    /// Sends one barrier state notification to each client, in order, up to the first failure.
    pub fn broadcast_state<T: TransportSink>(
        &mut self,
        transport: &mut T,
        clients: &[ClientId],
        barrier_id: BarrierId,
        server_tick: Tick,
        state: BarrierState,
    ) -> (result: Result<BarrierTransportReport, BarrierTransportError<T::Error>>)
        ensures
            exists|done: nat, links: Seq<T>|
                {
                    &&& #[trigger] final(self).broadcast(
                        *old(self),
                        clients@,
                        barrier_id,
                        server_tick,
                        state,
                        done,
                        result,
                    )
                    &&& #[trigger] linked(
                        links,
                        clients@.take(done as int),
                        *old(transport),
                        links.last(),
                    )
                    &&& forall|i: int| #[trigger]
                        asked(clients@.take(done as int), i) ==> exists|sink: &mut T, packet: OutboundPacket, outcome: Result<(), T::Error>|
                            #![trigger call_ensures(T::send, (sink, packet), outcome)]
                            {
                                &&& call_ensures(T::send, (sink, packet), outcome)
                                &&& outcome is Ok
                                &&& packet.client_id == clients@[i]
                                &&& packet.bytes@ == barrier_bytes(
                                    BarrierFrame { client_id: clients@[i], barrier_id, server_tick, state },
                                )
                                &&& *sink == links[i]
                                &&& *final(sink) == links[i + 1]
                            }
                    &&& match result {
                        Err(BarrierTransportError::Transport(error)) => exists|sink: &mut T, packet: OutboundPacket, outcome: Result<(), T::Error>|
                            #![trigger call_ensures(T::send, (sink, packet), outcome)]
                            {
                                &&& call_ensures(T::send, (sink, packet), outcome)
                                &&& outcome == Err::<(), T::Error>(error)
                                &&& packet.client_id == clients@[done as int]
                                &&& packet.bytes@ == barrier_bytes(
                                    BarrierFrame { client_id: clients@[done as int], barrier_id, server_tick, state },
                                )
                                &&& *sink == links.last()
                                &&& *final(sink) == *final(transport)
                            },
                        _ => *final(transport) == links.last(),
                    }
                },
    {
        let ghost before = *self;
        let ghost mut links: Seq<T> = seq![*transport];
        let mut report = BarrierTransportReport {
            barrier_id,
            state,
            server_tick,
            clients_requested: 0,
            clients_sent: 0,
            bytes_sent: 0,
        };
        let mut index: usize = 0;
        while index < clients.len()
            invariant
                before == *old(self),
                index <= clients@.len(),
                self.stats == before.stats.after(index as nat),
                linked(links, clients@.take(index as int), *old(transport), *transport),
                forall|i: int| #[trigger]
                    asked(clients@.take(index as int), i) ==> exists|sink: &mut T, packet: OutboundPacket, outcome: Result<(), T::Error>|
                        #![trigger call_ensures(T::send, (sink, packet), outcome)]
                        {
                            &&& call_ensures(T::send, (sink, packet), outcome)
                            &&& outcome is Ok
                            &&& packet.client_id == clients@[i]
                            &&& packet.bytes@ == barrier_bytes(
                                BarrierFrame { client_id: clients@[i], barrier_id, server_tick, state },
                            )
                            &&& *sink == links[i]
                            &&& *final(sink) == links[i + 1]
                        },
                report == (BarrierTransportReport {
                    barrier_id,
                    state,
                    server_tick,
                    clients_requested: index,
                    clients_sent: index,
                    bytes_sent: clamp_usize(index as nat * BARRIER_FRAME_BYTES as nat),
                }),
            decreases clients@.len() - index,
        {
            let ghost done = index as nat;
            report.clients_requested = report.clients_requested.saturating_add(1);
            let client_id = clients[index];
            let bytes_sent: usize = match self.send_state(
                transport,
                client_id,
                barrier_id,
                server_tick,
                state,
            ) {
                Ok(bytes_sent) => bytes_sent,
                Err(error) => {
                    proof {
                        assert(self.broadcast::<T::Error>(
                            before,
                            clients@,
                            barrier_id,
                            server_tick,
                            state,
                            done,
                            Err(error),
                        ));
                        assert(linked(
                            links,
                            clients@.take(done as int),
                            *old(transport),
                            links.last(),
                        ));
                    }
                    return Err(error);
                },
            };
            report.clients_sent = report.clients_sent.saturating_add(1);
            report.bytes_sent = report.bytes_sent.saturating_add(bytes_sent);
            index = index + 1;
            let ghost reached = links;
            proof {
                links = links.push(*transport);
            }
            assert forall|i: int| #[trigger] asked(clients@.take(index as int), i) implies exists|sink: &mut T, packet: OutboundPacket, outcome: Result<(), T::Error>|
                #![trigger call_ensures(T::send, (sink, packet), outcome)]
                {
                    &&& call_ensures(T::send, (sink, packet), outcome)
                    &&& outcome is Ok
                    &&& packet.client_id == clients@[i]
                    &&& packet.bytes@ == barrier_bytes(
                        BarrierFrame { client_id: clients@[i], barrier_id, server_tick, state },
                    )
                    &&& *sink == links[i]
                    &&& *final(sink) == links[i + 1]
                } by {
                assert(links[i] == reached[i]);
                if i < done {
                    assert(asked(clients@.take(done as int), i));
                    assert(links[i + 1] == reached[i + 1]);
                }
            }
        }
        assert(self.broadcast::<T::Error>(
            before,
            clients@,
            barrier_id,
            server_tick,
            state,
            index as nat,
            Ok(report),
        ));
        Ok(report)
    }

    /// Sends the current state of a runtime barrier to each client.
    pub fn broadcast_barrier<T: TransportSink>(
        &mut self,
        transport: &mut T,
        clients: &[ClientId],
        barrier: RuntimeBarrier,
    ) -> (result: Result<BarrierTransportReport, BarrierTransportError<T::Error>>)
        ensures
            exists|bridge: &mut Self, sink: &mut T|
                #![trigger call_ensures(
                    Self::broadcast_state::<T>,
                    (bridge, sink, clients, barrier.id, barrier.target_tick, barrier.state),
                    result,
                )]
                {
                    &&& call_ensures(
                        Self::broadcast_state::<T>,
                        (bridge, sink, clients, barrier.id, barrier.target_tick, barrier.state),
                        result,
                    )
                    &&& *bridge == *old(self)
                    &&& *final(bridge) == *final(self)
                    &&& *sink == *old(transport)
                    &&& *final(sink) == *final(transport)
                },
    {
        self.broadcast_state(transport, clients, barrier.id, barrier.target_tick, barrier.state)
    }
}

} // verus!
