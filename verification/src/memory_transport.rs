//! Bounded in-memory packet transports, and the address book of network transports.

use std::collections::VecDeque;

use vstd::prelude::*;

use crate::ids::{ClientId, StationId};
use crate::num::clamp_usize;
use crate::ordered_map::{lemma_map_of, OrderedMap};
use crate::packets::{
    InboundPacket, OutboundPacket, PeerAddress, StationInboundPacket, StationOutboundPacket,
    StationTransportReceiver, StationTransportSink,
};

verus! {

// Stations.

/// Bounded in-memory station transport limits.
#[derive(Clone, Copy, Debug, PartialEq, Eq, Structural)]
pub struct StationTransportLimits {
    /// Maximum queued packets per target station.
    pub max_queued_packets_per_station: usize,
    /// Maximum bytes accepted per packet.
    pub max_packet_bytes: usize,
}

impl Default for StationTransportLimits {
    fn default() -> (limits: Self)
        ensures
            limits.max_queued_packets_per_station == 4096,
            limits.max_packet_bytes == 16384,
    {
        Self { max_queued_packets_per_station: 4096, max_packet_bytes: 16 * 1024 }
    }
}

/// Statistics for the bounded in-memory station transport.
#[derive(Clone, Copy, Debug, Default, PartialEq, Eq, Structural)]
pub struct InMemoryStationTransportStats {
    /// Packets accepted for delivery.
    pub packets_sent: usize,
    /// Packets received by target stations.
    pub packets_received: usize,
    /// Bytes accepted for delivery.
    pub bytes_sent: usize,
    /// Bytes received by target stations.
    pub bytes_received: usize,
    /// Packets rejected because the target station queue was full.
    pub packets_rejected_full: usize,
    /// Packets rejected because they exceeded the packet byte budget.
    pub packets_rejected_bytes: usize,
}

/// Error produced by bounded in-memory station transport.
#[derive(Clone, Copy, Debug, PartialEq, Eq, Structural)]
pub enum StationTransportError {
    /// Target station was not registered.
    MissingTarget(StationId),
    /// Target station queue is full.
    QueueFull {
        /// Target station.
        station_id: StationId,
        /// Configured queue capacity.
        capacity: usize,
    },
    /// Packet exceeded the byte budget.
    PacketTooLarge {
        /// Configured byte budget.
        budget: usize,
        /// Actual byte count.
        actual: usize,
    },
}

/// Bounded in-memory station-to-station packet transport.
#[derive(Clone, Debug)]
pub struct InMemoryStationTransport {
    /// Limits.
    pub limits: StationTransportLimits,
    /// Packets waiting by target station, oldest first.
    pub queues: OrderedMap<VecDeque<StationInboundPacket>>,
    /// Statistics.
    pub stats: InMemoryStationTransportStats,
}

/// The packet that arrives when `packet` was sent.
pub open spec fn arriving(packet: StationOutboundPacket) -> StationInboundPacket {
    StationInboundPacket {
        source_station: packet.source_station,
        target_station: packet.target_station,
        bytes: packet.bytes,
    }
}

/// Why a station packet is not taken, if it is not.
pub open spec fn station_refusal(
    limits: StationTransportLimits,
    queues: Map<u128, VecDeque<StationInboundPacket>>,
    packet: StationOutboundPacket,
) -> Option<StationTransportError> {
    let target = packet.target_station.0 as u128;
    if packet.bytes@.len() > limits.max_packet_bytes {
        Some(
            StationTransportError::PacketTooLarge {
                budget: limits.max_packet_bytes,
                actual: packet.bytes@.len() as usize,
            },
        )
    } else if !queues.contains_key(target) {
        Some(StationTransportError::MissingTarget(packet.target_station))
    } else if queues[target]@.len() >= limits.max_queued_packets_per_station {
        Some(
            StationTransportError::QueueFull {
                station_id: packet.target_station,
                capacity: limits.max_queued_packets_per_station,
            },
        )
    } else {
        None
    }
}

impl InMemoryStationTransport {
    /// Queues are kept in station order, and none is over its capacity.
    pub open spec fn wf(self) -> bool {
        &&& self.queues.wf()
        &&& forall|station: u128| #[trigger]
            self.queues@.contains_key(station) ==> self.queues@[station]@.len()
                <= self.limits.max_queued_packets_per_station
    }

    /// Packets waiting for a station, oldest first.
    pub open spec fn waiting(self, station_id: StationId) -> Seq<StationInboundPacket> {
        self.queues@[station_id.0 as u128]@
    }

    /// Whether a station has a queue.
    pub open spec fn registered(self, station_id: StationId) -> bool {
        self.queues@.contains_key(station_id.0 as u128)
    }

    /// Creates an empty bounded station transport.
    pub fn new(limits: StationTransportLimits) -> (transport: Self)
        ensures
            transport.wf(),
            transport.limits == limits,
            transport.queues@ == Map::<u128, VecDeque<StationInboundPacket>>::empty(),
            transport.stats == no_station_stats(),
    {
        Self {
            limits,
            queues: OrderedMap::new(),
            stats: InMemoryStationTransportStats {
                packets_sent: 0,
                packets_received: 0,
                bytes_sent: 0,
                bytes_received: 0,
                packets_rejected_full: 0,
                packets_rejected_bytes: 0,
            },
        }
    }

    /// Registers a target station queue. A station that is already registered keeps its queue.
    pub fn register_station(&mut self, station_id: StationId)
        requires
            old(self).wf(),
        ensures
            final(self).wf(),
            final(self).limits == old(self).limits,
            final(self).stats == old(self).stats,
            final(self).registered(station_id),
            old(self).registered(station_id) ==> final(self).queues@ == old(self).queues@,
            !old(self).registered(station_id) ==> {
                &&& final(self).waiting(station_id) == Seq::<StationInboundPacket>::empty()
                &&& final(self).queues@ == old(self).queues@.insert(
                    station_id.0 as u128,
                    final(self).queues@[station_id.0 as u128],
                )
            },
    {
        if !self.queues.contains_key(station_id.0 as u128) {
            self.queues.insert(station_id.0 as u128, VecDeque::new());
        }
    }

    /// Returns queued packet count for a station.
    pub fn queued_len(&self, station_id: StationId) -> (count: Option<usize>)
        requires
            self.wf(),
        ensures
            match count {
                Some(count) => self.registered(station_id) && count == self.waiting(
                    station_id,
                ).len(),
                None => !self.registered(station_id),
            },
    {
        match self.queues.get(station_id.0 as u128) {
            Some(queue) => Some(queue.len()),
            None => None,
        }
    }

    /// Returns configured limits.
    pub fn limits(&self) -> (limits: StationTransportLimits)
        ensures
            limits == self.limits,
    {
        self.limits
    }

    /// Returns transport statistics.
    pub fn stats(&self) -> (stats: InMemoryStationTransportStats)
        ensures
            stats == self.stats,
    {
        self.stats
    }
}

impl StationTransportSink for InMemoryStationTransport {
    type Error = StationTransportError;

    fn send_station(&mut self, packet: StationOutboundPacket) -> (result: Result<
        (),
        StationTransportError,
    >)
        ensures
            old(self).wf() ==> {
                let target = packet.target_station.0 as u128;
                &&& final(self).wf()
                &&& final(self).limits == old(self).limits
                &&& match station_refusal(old(self).limits, old(self).queues@, packet) {
                    Some(error) => {
                        &&& result == Err::<(), StationTransportError>(error)
                        &&& final(self).queues@ == old(self).queues@
                        &&& final(self).stats == refused_stats(old(self).stats, error)
                    },
                    None => {
                        &&& result is Ok
                        &&& final(self).queues@ == old(self).queues@.insert(
                            target,
                            final(self).queues@[target],
                        )
                        &&& final(self).waiting(packet.target_station) == old(self).waiting(
                            packet.target_station,
                        ).push(arriving(packet))
                        &&& final(self).stats == (InMemoryStationTransportStats {
                            packets_sent: old(self).stats.packets_sent.saturating_add(1),
                            bytes_sent: clamp_usize(
                                old(self).stats.bytes_sent as nat + packet.bytes@.len(),
                            ),
                            ..old(self).stats
                        })
                    },
                }
            },
    {
        let actual: usize = packet.bytes.len();
        let target: u128 = packet.target_station.0 as u128;
        if actual > self.limits.max_packet_bytes {
            self.stats.packets_rejected_bytes = self.stats.packets_rejected_bytes.saturating_add(1);
            return Err(
                StationTransportError::PacketTooLarge {
                    budget: self.limits.max_packet_bytes,
                    actual,
                },
            );
        }
        match self.queues.get_mut(target) {
            None => Err(StationTransportError::MissingTarget(packet.target_station)),
            Some(queue) => {
                if queue.len() >= self.limits.max_queued_packets_per_station {
                    self.stats.packets_rejected_full = self.stats.packets_rejected_full.saturating_add(
                        1,
                    );
                    assert(old(self).wf() ==> old(self).queues@.insert(
                        target,
                        old(self).queues@[target],
                    ) =~= old(self).queues@);
                    Err(
                        StationTransportError::QueueFull {
                            station_id: packet.target_station,
                            capacity: self.limits.max_queued_packets_per_station,
                        },
                    )
                } else {
                    self.stats.packets_sent = self.stats.packets_sent.saturating_add(1);
                    self.stats.bytes_sent = self.stats.bytes_sent.saturating_add(actual);
                    queue.push_back(
                        StationInboundPacket {
                            source_station: packet.source_station,
                            target_station: packet.target_station,
                            bytes: packet.bytes,
                        },
                    );
                    Ok(())
                }
            },
        }
    }
}

impl StationTransportReceiver for InMemoryStationTransport {
    type Error = StationTransportError;

    fn try_recv_station(&mut self, target_station: StationId) -> (result: Result<
        Option<StationInboundPacket>,
        StationTransportError,
    >)
        ensures
            old(self).wf() ==> {
                let target = target_station.0 as u128;
                &&& final(self).wf()
                &&& final(self).limits == old(self).limits
                &&& if !old(self).registered(target_station) {
                    &&& result == Err::<Option<StationInboundPacket>, StationTransportError>(
                        StationTransportError::MissingTarget(target_station),
                    )
                    &&& final(self).queues@ == old(self).queues@
                    &&& final(self).stats == old(self).stats
                } else if old(self).waiting(target_station).len() == 0 {
                    &&& result == Ok::<Option<StationInboundPacket>, StationTransportError>(None)
                    &&& final(self).queues@ == old(self).queues@.insert(
                        target,
                        final(self).queues@[target],
                    )
                    &&& final(self).waiting(target_station) == old(self).waiting(target_station)
                    &&& final(self).stats == old(self).stats
                } else {
                    let packet = old(self).waiting(target_station)[0];
                    &&& result == Ok::<Option<StationInboundPacket>, StationTransportError>(
                        Some(packet),
                    )
                    &&& final(self).queues@ == old(self).queues@.insert(
                        target,
                        final(self).queues@[target],
                    )
                    &&& final(self).waiting(target_station) == old(self).waiting(
                        target_station,
                    ).drop_first()
                    &&& final(self).stats == (InMemoryStationTransportStats {
                        packets_received: old(self).stats.packets_received.saturating_add(1),
                        bytes_received: clamp_usize(
                            old(self).stats.bytes_received as nat + packet.bytes@.len(),
                        ),
                        ..old(self).stats
                    })
                }
            },
    {
        match self.queues.get_mut(target_station.0 as u128) {
            None => Err(StationTransportError::MissingTarget(target_station)),
            Some(queue) => match queue.pop_front() {
                None => Ok(None),
                Some(packet) => {
                    self.stats.packets_received = self.stats.packets_received.saturating_add(1);
                    self.stats.bytes_received = self.stats.bytes_received.saturating_add(
                        packet.bytes.len(),
                    );
                    Ok(Some(packet))
                },
            },
        }
    }
}

/// Statistics after a refusal.
pub open spec fn refused_stats(
    stats: InMemoryStationTransportStats,
    error: StationTransportError,
) -> InMemoryStationTransportStats {
    match error {
        StationTransportError::PacketTooLarge { .. } => InMemoryStationTransportStats {
            packets_rejected_bytes: stats.packets_rejected_bytes.saturating_add(1),
            ..stats
        },
        StationTransportError::QueueFull { .. } => InMemoryStationTransportStats {
            packets_rejected_full: stats.packets_rejected_full.saturating_add(1),
            ..stats
        },
        StationTransportError::MissingTarget(_) => stats,
    }
}

/// Statistics of a fresh station transport.
pub open spec fn no_station_stats() -> InMemoryStationTransportStats {
    InMemoryStationTransportStats {
        packets_sent: 0,
        packets_received: 0,
        bytes_sent: 0,
        bytes_received: 0,
        packets_rejected_full: 0,
        packets_rejected_bytes: 0,
    }
}

impl Default for InMemoryStationTransport {
    fn default() -> (transport: Self)
        ensures
            transport.wf(),
            transport.limits.max_queued_packets_per_station == 4096,
            transport.limits.max_packet_bytes == 16384,
            transport.queues@ == Map::<u128, VecDeque<StationInboundPacket>>::empty(),
            transport.stats == no_station_stats(),
    {
        Self::new(StationTransportLimits::default())
    }
}

/// Packets arrive at a station in the order in which they were sent, behind those that were waiting.
pub proof fn law_station_packets_are_fifo(
    queue: Seq<StationInboundPacket>,
    sent: Seq<StationOutboundPacket>,
)
    ensures
        ({
            let arrived = queue + Seq::new(sent.len(), |i: int| arriving(sent[i]));
            &&& forall|i: int| 0 <= i < queue.len() ==> arrived[i] == queue[i]
            &&& forall|i: int|
                0 <= i < sent.len() ==> arrived[queue.len() + i] == arriving(#[trigger] sent[i])
            &&& queued_after(queue, sent) == arrived
        }),
    decreases sent.len(),
{
    if sent.len() == 0 {
        assert(queue + Seq::new(sent.len(), |i: int| arriving(sent[i])) =~= queue);
    } else {
        law_station_packets_are_fifo(queue, sent.drop_last());
        assert(queued_after(queue, sent) =~= queue + Seq::new(
            sent.len(),
            |i: int| arriving(sent[i]),
        ));
    }
}

/// A queue after packets were taken in turn.
pub open spec fn queued_after(
    queue: Seq<StationInboundPacket>,
    sent: Seq<StationOutboundPacket>,
) -> Seq<StationInboundPacket>
    decreases sent.len(),
{
    if sent.len() == 0 {
        queue
    } else {
        queued_after(queue, sent.drop_last()).push(arriving(sent.last()))
    }
}

// Clients.

/// Bounded in-memory client transport limits.
#[derive(Clone, Copy, Debug, PartialEq, Eq, Structural)]
pub struct ClientTransportLimits {
    /// Maximum queued packets per target client.
    pub max_queued_packets_per_client: usize,
    /// Maximum bytes accepted per packet.
    pub max_packet_bytes: usize,
}

impl Default for ClientTransportLimits {
    fn default() -> (limits: Self)
        ensures
            limits.max_queued_packets_per_client == 4096,
            limits.max_packet_bytes == 16384,
    {
        Self { max_queued_packets_per_client: 4096, max_packet_bytes: 16 * 1024 }
    }
}

/// Statistics for the bounded in-memory client transport.
#[derive(Clone, Copy, Debug, Default, PartialEq, Eq, Structural)]
pub struct InMemoryTransportStats {
    /// Packets accepted for delivery.
    pub packets_sent: usize,
    /// Packets received by local endpoints.
    pub packets_received: usize,
    /// Bytes accepted for delivery.
    pub bytes_sent: usize,
    /// Bytes received by local endpoints.
    pub bytes_received: usize,
    /// Packets rejected because the target queue was full.
    pub packets_rejected_full: usize,
    /// Packets rejected because they exceeded the packet byte budget.
    pub packets_rejected_bytes: usize,
}

/// Error produced by bounded in-memory client transport.
#[derive(Clone, Copy, Debug, PartialEq, Eq, Structural)]
pub enum InMemoryTransportError {
    /// Local endpoint has not been registered.
    MissingLocal(ClientId),
    /// Target client was not registered.
    MissingTarget(ClientId),
    /// Target client queue is full.
    QueueFull {
        /// Target client.
        client_id: ClientId,
        /// Configured queue capacity.
        capacity: usize,
    },
    /// Packet exceeded the byte budget.
    PacketTooLarge {
        /// Configured byte budget.
        budget: usize,
        /// Actual byte count.
        actual: usize,
    },
    /// Shared in-memory transport state was poisoned.
    Poisoned,
}

/// Address book of network peers: each peer has at most one address, and each address at most one
/// peer.
#[derive(Clone, Debug)]
pub struct PeerAddresses {
    /// Addresses by peer id.
    pub book: OrderedMap<PeerAddress>,
}

/// No two peers share an address.
pub open spec fn one_to_one(book: Map<u128, PeerAddress>) -> bool {
    forall|a: u128, b: u128| #[trigger]
        book.contains_key(a) && #[trigger] book.contains_key(b) && book[a] == book[b] ==> a == b
}

/// The book without whoever else holds `address`.
pub open spec fn evicted(
    book: Map<u128, PeerAddress>,
    peer: u128,
    address: PeerAddress,
) -> Map<u128, PeerAddress> {
    book.restrict(
        Set::new(|other: u128| book.contains_key(other) && (other == peer || book[other] != address)),
    )
}

impl PeerAddresses {
    /// Peers are kept in id order and no two share an address.
    pub open spec fn wf(self) -> bool {
        &&& self.book.wf()
        &&& one_to_one(self.book@)
        &&& forall|peer: u128| #[trigger] self.book@.contains_key(peer) ==> peer <= u64::MAX
    }

    /// Creates an empty address book.
    pub fn new() -> (addresses: Self)
        ensures
            addresses.wf(),
            addresses.book@ == Map::<u128, PeerAddress>::empty(),
    {
        Self { book: OrderedMap::new() }
    }

    /// Registers or replaces the address of a peer, and returns the previous one. Another peer that
    /// held the address loses it.
    pub fn register(&mut self, peer: u64, address: PeerAddress) -> (previous: Option<PeerAddress>)
        requires
            old(self).wf(),
        ensures
            final(self).wf(),
            final(self).book@ == evicted(old(self).book@, peer as u128, address).insert(
                peer as u128,
                address,
            ),
            previous == (if old(self).book@.contains_key(peer as u128) {
                Some(old(self).book@[peer as u128])
            } else {
                None
            }),
    {
        let ghost before = self.book@;
        if let Some(holder) = self.holder(address) {
            if holder != peer {
                self.book.remove(holder as u128);
            }
        }
        proof {
            assert(self.book@ =~= evicted(before, peer as u128, address));
        }
        self.book.insert(peer as u128, address)
    }

    /// Removes the address of a peer.
    pub fn unregister(&mut self, peer: u64) -> (removed: Option<PeerAddress>)
        requires
            old(self).wf(),
        ensures
            final(self).wf(),
            final(self).book@ == old(self).book@.remove(peer as u128),
            removed == (if old(self).book@.contains_key(peer as u128) {
                Some(old(self).book@[peer as u128])
            } else {
                None
            }),
    {
        self.book.remove(peer as u128)
    }

    /// Returns the address of a peer.
    pub fn address_of(&self, peer: u64) -> (address: Option<PeerAddress>)
        requires
            self.wf(),
        ensures
            address == (if self.book@.contains_key(peer as u128) {
                Some(self.book@[peer as u128])
            } else {
                None
            }),
    {
        match self.book.get(peer as u128) {
            Some(address) => Some(*address),
            None => None,
        }
    }

    /// Returns the peer that holds an address.
    pub fn holder(&self, address: PeerAddress) -> (peer: Option<u64>)
        requires
            self.wf(),
        ensures
            match peer {
                Some(peer) => self.book@.contains_key(peer as u128) && self.book@[peer as u128]
                    == address,
                None => forall|peer: u128| #[trigger]
                    self.book@.contains_key(peer) ==> self.book@[peer] != address,
            },
    {
        let mut index: usize = 0;
        proof {
            lemma_map_of(self.book.entries@);
        }
        while index < self.book.entries.len()
            invariant
                index <= self.book.entries.len(),
                self.wf(),
                forall|i: int|
                    0 <= i < self.book.entries@.len() ==> self.book@.contains_key(
                        (#[trigger] self.book.entries@[i]).0,
                    ) && self.book@[self.book.entries@[i].0] == self.book.entries@[i].1,
                forall|i: int|
                    0 <= i < index ==> (#[trigger] self.book.entries@[i]).1 != address,
            decreases self.book.entries.len() - index,
        {
            let (peer, held) = self.book.entries[index];
            if held == address {
                assert(self.book@.contains_key(self.book.entries@[index as int].0));
                return Some(peer as u64);
            }
            index = index + 1;
        }
        proof {
            assert forall|other: u128| #[trigger] self.book@.contains_key(other) implies self.book@[other]
                != address by {
                let i = choose|i: int|
                    0 <= i < self.book.entries@.len() && (#[trigger] self.book.entries@[i]).0
                        == other;
                assert(self.book.entries@[i].1 == self.book@[other]);
            }
        }
        None
    }
}

/// One client of a packet hub.
#[derive(Clone, Debug)]
pub struct HubClient {
    /// Address of the client.
    pub remote_addr: PeerAddress,
    /// Packets that wait for the client, oldest first.
    pub queue: VecDeque<InboundPacket>,
}

/// Bounded in-memory client packet hub.
#[derive(Clone, Debug)]
pub struct InMemoryTransportHub {
    /// Limits.
    pub limits: ClientTransportLimits,
    /// Clients by id.
    pub clients: OrderedMap<HubClient>,
    /// Statistics.
    pub stats: InMemoryTransportStats,
}

/// Why a client packet is not taken, if it is not.
pub open spec fn client_refusal(
    limits: ClientTransportLimits,
    clients: Map<u128, HubClient>,
    local: ClientId,
    packet: OutboundPacket,
) -> Option<InMemoryTransportError> {
    let target = packet.client_id.0 as u128;
    if packet.bytes@.len() > limits.max_packet_bytes {
        Some(
            InMemoryTransportError::PacketTooLarge {
                budget: limits.max_packet_bytes,
                actual: packet.bytes@.len() as usize,
            },
        )
    } else if !clients.contains_key(local.0 as u128) {
        Some(InMemoryTransportError::MissingLocal(local))
    } else if !clients.contains_key(target) {
        Some(InMemoryTransportError::MissingTarget(packet.client_id))
    } else if clients[target].queue@.len() >= limits.max_queued_packets_per_client {
        Some(
            InMemoryTransportError::QueueFull {
                client_id: packet.client_id,
                capacity: limits.max_queued_packets_per_client,
            },
        )
    } else {
        None
    }
}

/// Statistics after a refusal.
pub open spec fn hub_refused_stats(
    stats: InMemoryTransportStats,
    error: InMemoryTransportError,
) -> InMemoryTransportStats {
    match error {
        InMemoryTransportError::PacketTooLarge { .. } => InMemoryTransportStats {
            packets_rejected_bytes: stats.packets_rejected_bytes.saturating_add(1),
            ..stats
        },
        InMemoryTransportError::QueueFull { .. } => InMemoryTransportStats {
            packets_rejected_full: stats.packets_rejected_full.saturating_add(1),
            ..stats
        },
        _ => stats,
    }
}

/// No two clients share an address.
pub open spec fn distinct_addresses(clients: Map<u128, HubClient>) -> bool {
    forall|a: u128, b: u128| #[trigger]
        clients.contains_key(a) && #[trigger] clients.contains_key(b) && clients[a].remote_addr
            == clients[b].remote_addr ==> a == b
}

impl InMemoryTransportHub {
    /// Clients are kept in id order, no two share an address, and no queue is over its capacity.
    pub open spec fn wf(self) -> bool {
        &&& self.clients.wf()
        &&& distinct_addresses(self.clients@)
        &&& forall|client: u128| #[trigger]
            self.clients@.contains_key(client) ==> self.clients@[client].queue@.len()
                <= self.limits.max_queued_packets_per_client
    }

    /// Whether a client is registered.
    pub open spec fn registered(self, client_id: ClientId) -> bool {
        self.clients@.contains_key(client_id.0 as u128)
    }

    /// A registered client.
    pub open spec fn client(self, client_id: ClientId) -> HubClient {
        self.clients@[client_id.0 as u128]
    }

    /// Creates an empty in-memory transport hub.
    pub fn new(limits: ClientTransportLimits) -> (hub: Self)
        ensures
            hub.wf(),
            hub.limits == limits,
            hub.clients@ == Map::<u128, HubClient>::empty(),
            hub.stats == no_hub_stats(),
    {
        Self {
            limits,
            clients: OrderedMap::new(),
            stats: InMemoryTransportStats {
                packets_sent: 0,
                packets_received: 0,
                bytes_sent: 0,
                bytes_received: 0,
                packets_rejected_full: 0,
                packets_rejected_bytes: 0,
            },
        }
    }

    fn holder(&self, address: PeerAddress) -> (client: Option<u128>)
        requires
            self.wf(),
        ensures
            match client {
                Some(client) => self.clients@.contains_key(client)
                    && self.clients@[client].remote_addr == address,
                None => forall|client: u128| #[trigger]
                    self.clients@.contains_key(client) ==> self.clients@[client].remote_addr
                        != address,
            },
    {
        let mut index: usize = 0;
        proof {
            lemma_map_of(self.clients.entries@);
        }
        while index < self.clients.entries.len()
            invariant
                index <= self.clients.entries.len(),
                self.wf(),
                forall|i: int|
                    0 <= i < self.clients.entries@.len() ==> self.clients@.contains_key(
                        (#[trigger] self.clients.entries@[i]).0,
                    ) && self.clients@[self.clients.entries@[i].0] == self.clients.entries@[i].1,
                forall|i: int|
                    0 <= i < index ==> (#[trigger] self.clients.entries@[i]).1.remote_addr
                        != address,
            decreases self.clients.entries.len() - index,
        {
            if self.clients.entries[index].1.remote_addr == address {
                assert(self.clients@.contains_key(self.clients.entries@[index as int].0));
                return Some(self.clients.entries[index].0);
            }
            index = index + 1;
        }
        proof {
            assert forall|other: u128| #[trigger]
                self.clients@.contains_key(other) implies self.clients@[other].remote_addr
                != address by {
                let i = choose|i: int|
                    0 <= i < self.clients.entries@.len() && (#[trigger] self.clients.entries@[i]).0
                        == other;
                assert(self.clients.entries@[i].1 == self.clients@[other]);
            }
        }
        None
    }

    /// Registers a client endpoint address with an empty queue, and returns the client's previous
    /// address. Another client at that address is dropped.
    pub fn register_client(&mut self, client_id: ClientId, remote_addr: PeerAddress) -> (previous:
        Option<PeerAddress>)
        requires
            old(self).wf(),
        ensures
            final(self).wf(),
            final(self).limits == old(self).limits,
            final(self).stats == old(self).stats,
            previous == (if old(self).registered(client_id) {
                Some(old(self).client(client_id).remote_addr)
            } else {
                None
            }),
            final(self).registered(client_id),
            final(self).client(client_id).remote_addr == remote_addr,
            final(self).client(client_id).queue@ == Seq::<InboundPacket>::empty(),
            forall|other: u128| #[trigger]
                final(self).clients@.contains_key(other) && other != client_id.0 as u128 <==> old(
                    self).clients@.contains_key(other) && other != client_id.0 as u128 && old(
                    self).clients@[other].remote_addr != remote_addr,
            forall|other: u128| #[trigger]
                final(self).clients@.contains_key(other) && other != client_id.0 as u128
                    ==> final(self).clients@[other] == old(self).clients@[other],
    {
        let holder = self.holder(remote_addr);
        let previous = match self.clients.insert(
            client_id.0 as u128,
            HubClient { remote_addr, queue: VecDeque::new() },
        ) {
            Some(replaced) => Some(replaced.remote_addr),
            None => None,
        };
        if let Some(holder) = holder {
            if holder != client_id.0 as u128 {
                self.clients.remove(holder);
            }
        }
        previous
    }

    /// Returns queued packet count for a client.
    pub fn queued_len(&self, client_id: ClientId) -> (count: Option<usize>)
        requires
            self.wf(),
        ensures
            match count {
                Some(count) => self.registered(client_id) && count == self.client(
                    client_id,
                ).queue@.len(),
                None => !self.registered(client_id),
            },
    {
        match self.clients.get(client_id.0 as u128) {
            Some(client) => Some(client.queue.len()),
            None => None,
        }
    }

    /// Returns the address of a client.
    pub fn client_addr(&self, client_id: ClientId) -> (address: Option<PeerAddress>)
        requires
            self.wf(),
        ensures
            address == (if self.registered(client_id) {
                Some(self.client(client_id).remote_addr)
            } else {
                None
            }),
    {
        match self.clients.get(client_id.0 as u128) {
            Some(client) => Some(client.remote_addr),
            None => None,
        }
    }

    /// Returns configured limits.
    pub fn limits(&self) -> (limits: ClientTransportLimits)
        ensures
            limits == self.limits,
    {
        self.limits
    }

    /// Returns transport statistics.
    pub fn stats(&self) -> (stats: InMemoryTransportStats)
        ensures
            stats == self.stats,
    {
        self.stats
    }

    /// Sends one packet from the endpoint of `local`.
    pub fn send_from(&mut self, local: ClientId, packet: OutboundPacket) -> (result: Result<
        (),
        InMemoryTransportError,
    >)
        requires
            old(self).wf(),
        ensures
            final(self).wf(),
            final(self).limits == old(self).limits,
            match client_refusal(old(self).limits, old(self).clients@, local, packet) {
                Some(error) => {
                    &&& result == Err::<(), InMemoryTransportError>(error)
                    &&& final(self).clients@ == old(self).clients@
                    &&& final(self).stats == hub_refused_stats(old(self).stats, error)
                },
                None => {
                    let target = packet.client_id.0 as u128;
                    &&& result is Ok
                    &&& final(self).clients@ == old(self).clients@.insert(
                        target,
                        final(self).clients@[target],
                    )
                    &&& final(self).client(packet.client_id).remote_addr == old(self).client(
                        packet.client_id,
                    ).remote_addr
                    &&& final(self).client(packet.client_id).queue@ == old(self).client(
                        packet.client_id,
                    ).queue@.push(
                        arriving_from(local, old(self).client(local).remote_addr, packet),
                    )
                    &&& final(self).stats == (InMemoryTransportStats {
                        packets_sent: old(self).stats.packets_sent.saturating_add(1),
                        bytes_sent: clamp_usize(
                            old(self).stats.bytes_sent as nat + packet.bytes@.len(),
                        ),
                        ..old(self).stats
                    })
                },
            },
    {
        let actual: usize = packet.bytes.len();
        let target: u128 = packet.client_id.0 as u128;
        let ghost before = self.clients@;
        if actual > self.limits.max_packet_bytes {
            self.stats.packets_rejected_bytes = self.stats.packets_rejected_bytes.saturating_add(1);
            return Err(
                InMemoryTransportError::PacketTooLarge {
                    budget: self.limits.max_packet_bytes,
                    actual,
                },
            );
        }
        let source_addr = match self.clients.get(local.0 as u128) {
            Some(client) => client.remote_addr,
            None => {
                return Err(InMemoryTransportError::MissingLocal(local));
            },
        };
        match self.clients.get_mut(target) {
            None => Err(InMemoryTransportError::MissingTarget(packet.client_id)),
            Some(client) => {
                if client.queue.len() >= self.limits.max_queued_packets_per_client {
                    self.stats.packets_rejected_full = self.stats.packets_rejected_full.saturating_add(
                        1,
                    );
                    assert(before.insert(target, before[target]) =~= before);
                    Err(
                        InMemoryTransportError::QueueFull {
                            client_id: packet.client_id,
                            capacity: self.limits.max_queued_packets_per_client,
                        },
                    )
                } else {
                    self.stats.packets_sent = self.stats.packets_sent.saturating_add(1);
                    self.stats.bytes_sent = self.stats.bytes_sent.saturating_add(actual);
                    client.queue.push_back(
                        InboundPacket {
                            client_id: Some(local),
                            remote_addr: source_addr,
                            bytes: packet.bytes,
                        },
                    );
                    Ok(())
                }
            },
        }
    }

    /// Takes the oldest packet that waits for the endpoint of `local`.
    pub fn receive_for(&mut self, local: ClientId) -> (result: Result<
        Option<InboundPacket>,
        InMemoryTransportError,
    >)
        requires
            old(self).wf(),
        ensures
            final(self).wf(),
            final(self).limits == old(self).limits,
            if !old(self).registered(local) {
                &&& result == Err::<Option<InboundPacket>, InMemoryTransportError>(
                    InMemoryTransportError::MissingLocal(local),
                )
                &&& final(self).clients@ == old(self).clients@
                &&& final(self).stats == old(self).stats
            } else {
                let target = local.0 as u128;
                let waiting = old(self).client(local).queue@;
                &&& final(self).clients@ == old(self).clients@.insert(
                    target,
                    final(self).clients@[target],
                )
                &&& final(self).client(local).remote_addr == old(self).client(local).remote_addr
                &&& if waiting.len() == 0 {
                    &&& result == Ok::<Option<InboundPacket>, InMemoryTransportError>(None)
                    &&& final(self).client(local).queue@ == waiting
                    &&& final(self).stats == old(self).stats
                } else {
                    &&& result == Ok::<Option<InboundPacket>, InMemoryTransportError>(
                        Some(waiting[0]),
                    )
                    &&& final(self).client(local).queue@ == waiting.drop_first()
                    &&& final(self).stats == (InMemoryTransportStats {
                        packets_received: old(self).stats.packets_received.saturating_add(1),
                        bytes_received: clamp_usize(
                            old(self).stats.bytes_received as nat + waiting[0].bytes@.len(),
                        ),
                        ..old(self).stats
                    })
                }
            },
    {
        match self.clients.get_mut(local.0 as u128) {
            None => Err(InMemoryTransportError::MissingLocal(local)),
            Some(client) => match client.queue.pop_front() {
                None => Ok(None),
                Some(packet) => {
                    self.stats.packets_received = self.stats.packets_received.saturating_add(1);
                    self.stats.bytes_received = self.stats.bytes_received.saturating_add(
                        packet.bytes.len(),
                    );
                    Ok(Some(packet))
                },
            },
        }
    }
}

/// Statistics of a fresh hub.
pub open spec fn no_hub_stats() -> InMemoryTransportStats {
    InMemoryTransportStats {
        packets_sent: 0,
        packets_received: 0,
        bytes_sent: 0,
        bytes_received: 0,
        packets_rejected_full: 0,
        packets_rejected_bytes: 0,
    }
}

impl Default for InMemoryTransportHub {
    fn default() -> (hub: Self)
        ensures
            hub.wf(),
            hub.limits.max_queued_packets_per_client == 4096,
            hub.limits.max_packet_bytes == 16384,
            hub.clients@ == Map::<u128, HubClient>::empty(),
            hub.stats == no_hub_stats(),
    {
        Self::new(ClientTransportLimits::default())
    }
}

/// The packet that arrives when a client sent `packet` from an address.
pub open spec fn arriving_from(
    local: ClientId,
    remote_addr: PeerAddress,
    packet: OutboundPacket,
) -> InboundPacket {
    InboundPacket { client_id: Some(local), remote_addr, bytes: packet.bytes }
}

/// A client's queue after packets of one sender were taken in turn.
pub open spec fn hub_queued_after(
    queue: Seq<InboundPacket>,
    local: ClientId,
    remote_addr: PeerAddress,
    sent: Seq<OutboundPacket>,
) -> Seq<InboundPacket>
    decreases sent.len(),
{
    if sent.len() == 0 {
        queue
    } else {
        hub_queued_after(queue, local, remote_addr, sent.drop_last()).push(
            arriving_from(local, remote_addr, sent.last()),
        )
    }
}

/// Packets of one client arrive at another in the order in which they were sent, behind those that
/// were waiting.
pub proof fn law_client_packets_are_fifo(
    queue: Seq<InboundPacket>,
    local: ClientId,
    remote_addr: PeerAddress,
    sent: Seq<OutboundPacket>,
)
    ensures
        hub_queued_after(queue, local, remote_addr, sent) == queue + Seq::new(
            sent.len(),
            |i: int| arriving_from(local, remote_addr, sent[i]),
        ),
    decreases sent.len(),
{
    if sent.len() == 0 {
        assert(queue + Seq::new(sent.len(), |i: int| arriving_from(local, remote_addr, sent[i]))
            =~= queue);
    } else {
        law_client_packets_are_fifo(queue, local, remote_addr, sent.drop_last());
        assert(hub_queued_after(queue, local, remote_addr, sent) =~= queue + Seq::new(
            sent.len(),
            |i: int| arriving_from(local, remote_addr, sent[i]),
        ));
    }
}

} // verus!
