//! Routing decisions of datagram transports: which address a packet goes to, and whom a datagram
//! comes from.

use vstd::prelude::*;

use crate::ids::{ClientId, StationId};
use crate::memory_transport::{evicted, PeerAddresses};
use crate::packets::PeerAddress;

verus! {

/// Statistics for a UDP station transport adapter.
#[derive(Clone, Copy, Debug, Default, PartialEq, Eq, Structural)]
pub struct UdpStationTransportStats {
    /// Packets sent by this local station transport.
    pub packets_sent: usize,
    /// Packets received by this local station transport.
    pub packets_received: usize,
    /// Bytes sent by this local station transport.
    pub bytes_sent: usize,
    /// Bytes received by this local station transport.
    pub bytes_received: usize,
}

/// Why a station packet cannot be routed.
#[derive(Clone, Copy, Debug, PartialEq, Eq, Structural)]
pub enum StationRouteError {
    /// No address has been registered for the target station.
    UnknownStation(StationId),
    /// A packet arrived from an unregistered remote address.
    UnknownRemote(PeerAddress),
    /// Outbound packet source did not match the local station.
    LocalStationMismatch {
        /// Local station owned by this transport.
        local_station: StationId,
        /// Packet source station.
        packet_source: StationId,
    },
    /// Receive was requested for a station not owned by this transport.
    TargetStationMismatch {
        /// Local station owned by this transport.
        local_station: StationId,
        /// Requested target station.
        requested_target: StationId,
    },
}

/// Address that a book holds for a peer.
pub open spec fn held(book: Map<u128, PeerAddress>, peer: u128) -> Option<PeerAddress> {
    if book.contains_key(peer) {
        Some(book[peer])
    } else {
        None
    }
}

/// The peer holds the address, or nobody does.
pub open spec fn is_holder(
    book: Map<u128, PeerAddress>,
    address: PeerAddress,
    peer: Option<u128>,
) -> bool {
    match peer {
        Some(peer) => held(book, peer) == Some(address),
        None => forall|other: u128| #[trigger] book.contains_key(other) ==> book[other] != address,
    }
}

/// Routes of one local station socket.
#[derive(Clone, Debug)]
pub struct UdpStationRoutes {
    /// Station that owns the socket.
    pub local_station: StationId,
    /// Addresses by station number.
    pub stations: PeerAddresses,
    /// Statistics.
    pub stats: UdpStationTransportStats,
}

impl UdpStationRoutes {
    /// The address book is well-formed and holds station numbers.
    pub open spec fn wf(self) -> bool {
        &&& self.stations.wf()
        &&& forall|peer: u128| #[trigger]
            self.stations.book@.contains_key(peer) ==> peer <= u32::MAX
    }

    /// Creates routes without registered stations.
    pub fn new(local_station: StationId) -> (routes: Self)
        ensures
            routes.wf(),
            routes.local_station == local_station,
            routes.stations.book@ == Map::<u128, PeerAddress>::empty(),
            routes.stats == (UdpStationTransportStats {
                packets_sent: 0,
                packets_received: 0,
                bytes_sent: 0,
                bytes_received: 0,
            }),
    {
        Self {
            local_station,
            stations: PeerAddresses::new(),
            stats: UdpStationTransportStats {
                packets_sent: 0,
                packets_received: 0,
                bytes_sent: 0,
                bytes_received: 0,
            },
        }
    }

    /// Registers or replaces the network address for a station, and returns the previous one.
    /// Another station that held the address loses it.
    pub fn register_station(&mut self, station_id: StationId, address: PeerAddress) -> (previous:
        Option<PeerAddress>)
        requires
            old(self).wf(),
        ensures
            final(self).wf(),
            final(self).local_station == old(self).local_station,
            final(self).stats == old(self).stats,
            final(self).stations.book@ == evicted(
                old(self).stations.book@,
                station_id.0 as u128,
                address,
            ).insert(station_id.0 as u128, address),
            previous == held(old(self).stations.book@, station_id.0 as u128),
    {
        self.stations.register(station_id.0 as u64, address)
    }

    /// Removes a registered station address.
    pub fn unregister_station(&mut self, station_id: StationId) -> (removed: Option<PeerAddress>)
        requires
            old(self).wf(),
        ensures
            final(self).wf(),
            final(self).local_station == old(self).local_station,
            final(self).stats == old(self).stats,
            final(self).stations.book@ == old(self).stations.book@.remove(station_id.0 as u128),
            removed == held(old(self).stations.book@, station_id.0 as u128),
    {
        self.stations.unregister(station_id.0 as u64)
    }

    /// Returns a registered address for a station.
    pub fn station_addr(&self, station_id: StationId) -> (address: Option<PeerAddress>)
        requires
            self.wf(),
        ensures
            address == held(self.stations.book@, station_id.0 as u128),
    {
        self.stations.address_of(station_id.0 as u64)
    }

    /// Returns the registered station id for a remote address.
    pub fn station_for_addr(&self, address: PeerAddress) -> (station_id: Option<StationId>)
        requires
            self.wf(),
        ensures
            is_holder(
                self.stations.book@,
                address,
                match station_id {
                    Some(station_id) => Some(station_id.0 as u128),
                    None => None,
                },
            ),
    {
        match self.stations.holder(address) {
            Some(peer) => Some(StationId(peer as u32)),
            None => None,
        }
    }

    /// Finds the address that a packet goes to: the packet must come from the local station, and
    /// its target must be registered.
    pub fn outbound(&self, packet_source: StationId, target_station: StationId) -> (result: Result<
        PeerAddress,
        StationRouteError,
    >)
        requires
            self.wf(),
        ensures
            result == (if packet_source != self.local_station {
                Err(
                    StationRouteError::LocalStationMismatch {
                        local_station: self.local_station,
                        packet_source,
                    },
                )
            } else {
                match held(self.stations.book@, target_station.0 as u128) {
                    Some(address) => Ok(address),
                    None => Err(StationRouteError::UnknownStation(target_station)),
                }
            }),
    {
        if packet_source.0 != self.local_station.0 {
            return Err(
                StationRouteError::LocalStationMismatch {
                    local_station: self.local_station,
                    packet_source,
                },
            );
        }
        match self.station_addr(target_station) {
            Some(address) => Ok(address),
            None => Err(StationRouteError::UnknownStation(target_station)),
        }
    }

    /// Checks that packets are asked for on behalf of the local station.
    pub fn check_target(&self, target_station: StationId) -> (result: Result<(), StationRouteError>)
        ensures
            match result {
                Ok(()) => target_station == self.local_station,
                Err(error) => target_station != self.local_station && error
                    == (StationRouteError::TargetStationMismatch {
                    local_station: self.local_station,
                    requested_target: target_station,
                }),
            },
    {
        if target_station.0 != self.local_station.0 {
            return Err(
                StationRouteError::TargetStationMismatch {
                    local_station: self.local_station,
                    requested_target: target_station,
                },
            );
        }
        Ok(())
    }

    /// Finds the station that a datagram comes from, and counts the datagram. One from an
    /// unregistered address is not counted.
    pub fn inbound(&mut self, remote: PeerAddress, bytes: usize) -> (result: Result<
        StationId,
        StationRouteError,
    >)
        requires
            old(self).wf(),
        ensures
            final(self).wf(),
            final(self).local_station == old(self).local_station,
            final(self).stations == old(self).stations,
            match result {
                Ok(station_id) => {
                    &&& is_holder(
                        old(self).stations.book@,
                        remote,
                        Some(station_id.0 as u128),
                    )
                    &&& final(self).stats == (UdpStationTransportStats {
                        packets_received: old(self).stats.packets_received.saturating_add(1),
                        bytes_received: old(self).stats.bytes_received.saturating_add(bytes),
                        ..old(self).stats
                    })
                },
                Err(error) => {
                    &&& is_holder(old(self).stations.book@, remote, None)
                    &&& error == StationRouteError::UnknownRemote(remote)
                    &&& final(self).stats == old(self).stats
                },
            },
    {
        match self.station_for_addr(remote) {
            Some(station_id) => {
                self.stats.packets_received = self.stats.packets_received.saturating_add(1);
                self.stats.bytes_received = self.stats.bytes_received.saturating_add(bytes);
                Ok(station_id)
            },
            None => Err(StationRouteError::UnknownRemote(remote)),
        }
    }

    /// Counts a datagram that was sent.
    pub fn sent(&mut self, bytes: usize)
        ensures
            final(self).local_station == old(self).local_station,
            final(self).stations == old(self).stations,
            final(self).stats == (UdpStationTransportStats {
                packets_sent: old(self).stats.packets_sent.saturating_add(1),
                bytes_sent: old(self).stats.bytes_sent.saturating_add(bytes),
                ..old(self).stats
            }),
    {
        self.stats.packets_sent = self.stats.packets_sent.saturating_add(1);
        self.stats.bytes_sent = self.stats.bytes_sent.saturating_add(bytes);
    }
}

/// Addresses of the clients of one socket.
#[derive(Clone, Debug)]
pub struct UdpClientRoutes {
    /// Addresses by client number.
    pub clients: PeerAddresses,
}

impl UdpClientRoutes {
    /// The address book is well-formed.
    pub open spec fn wf(self) -> bool {
        self.clients.wf()
    }

    /// Creates routes without registered clients.
    pub fn new() -> (routes: Self)
        ensures
            routes.wf(),
            routes.clients.book@ == Map::<u128, PeerAddress>::empty(),
    {
        Self { clients: PeerAddresses::new() }
    }

    /// Registers or replaces the address for a client, and returns the previous one. Another client
    /// that held the address loses it.
    pub fn register_client(&mut self, client_id: ClientId, address: PeerAddress) -> (previous:
        Option<PeerAddress>)
        requires
            old(self).wf(),
        ensures
            final(self).wf(),
            final(self).clients.book@ == evicted(
                old(self).clients.book@,
                client_id.0 as u128,
                address,
            ).insert(client_id.0 as u128, address),
            previous == held(old(self).clients.book@, client_id.0 as u128),
    {
        self.clients.register(client_id.0, address)
    }

    /// Removes a registered client address.
    pub fn unregister_client(&mut self, client_id: ClientId) -> (removed: Option<PeerAddress>)
        requires
            old(self).wf(),
        ensures
            final(self).wf(),
            final(self).clients.book@ == old(self).clients.book@.remove(client_id.0 as u128),
            removed == held(old(self).clients.book@, client_id.0 as u128),
    {
        self.clients.unregister(client_id.0)
    }

    /// Returns a registered address for a client.
    pub fn client_addr(&self, client_id: ClientId) -> (address: Option<PeerAddress>)
        requires
            self.wf(),
        ensures
            address == held(self.clients.book@, client_id.0 as u128),
    {
        self.clients.address_of(client_id.0)
    }

    /// Returns the registered client id for a remote address.
    pub fn client_for_addr(&self, address: PeerAddress) -> (client_id: Option<ClientId>)
        requires
            self.wf(),
        ensures
            is_holder(
                self.clients.book@,
                address,
                match client_id {
                    Some(client_id) => Some(client_id.0 as u128),
                    None => None,
                },
            ),
    {
        match self.clients.holder(address) {
            Some(peer) => Some(ClientId(peer)),
            None => None,
        }
    }
}

/// A registered station and its address find each other: packets to the station go to the address,
/// and datagrams from the address come from the station.
pub proof fn law_registered_stations_are_found(
    book: Map<u128, PeerAddress>,
    peer: u128,
    address: PeerAddress,
    holder: Option<u128>,
)
    requires
        ({
            let after = evicted(book, peer, address).insert(peer, address);
            is_holder(after, address, holder)
        }),
    ensures
        ({
            let after = evicted(book, peer, address).insert(peer, address);
            held(after, peer) == Some(address) && holder == Some(peer)
        }),
{
    let after = evicted(book, peer, address).insert(peer, address);
    assert(after.contains_key(peer));
    if let Some(other) = holder {
        if other != peer {
            assert(after.contains_key(other));
            assert(after[other] == book[other]);
        }
    }
}

} // verus!
