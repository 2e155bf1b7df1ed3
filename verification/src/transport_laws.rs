//! What transports promise: a packet that was taken arrives once and in order, and limits hold.

use vstd::prelude::*;

use crate::gateway_laws::counts;
use crate::ids::{ClientId, StationId};
use crate::memory_transport::{
    InMemoryStationTransport, InMemoryTransportError, InMemoryTransportHub, StationTransportError,
};
use crate::packets::{
    InboundPacket, OutboundPacket, PeerAddress, StationInboundPacket, StationOutboundPacket,
    StationTransportReceiver, StationTransportSink,
};
use crate::udp_routes::{StationRouteError, UdpStationRoutes};

verus! {

/// The queues of all stations but one are what they were.
pub open spec fn other_queues_stay(
    before: InMemoryStationTransport,
    after: InMemoryStationTransport,
    station_id: StationId,
) -> bool {
    forall|other: StationId|
        {
            &&& #[trigger] after.registered(other) <==> before.registered(other)
            &&& before.registered(other) && other != station_id ==> after.waiting(other)
                == before.waiting(other)
        }
}

/// A station packet is taken exactly where it is small enough, its target is known and there is room
/// in the target's queue. It then waits as the last for its target, and no other queue changes. A
/// refused packet changes no queue, and its refusal names the limit.
pub proof fn law_station_packets_wait_for_their_target(packet: StationOutboundPacket)
    ensures
        forall|transport: &mut InMemoryStationTransport, result: Result<(), StationTransportError>|
            #[trigger] call_ensures(
                InMemoryStationTransport::send_station,
                (transport, packet),
                result,
            ) && transport.wf() ==> {
                let target = packet.target_station;
                let fits = packet.bytes@.len() <= transport.limits.max_packet_bytes;
                let room = transport.waiting(target).len()
                    < transport.limits.max_queued_packets_per_station;
                &&& result is Ok <==> fits && transport.registered(target) && room
                &&& result is Ok ==> {
                    let before = transport.waiting(target);
                    let after = final(transport).waiting(target);
                    &&& after.len() == before.len() + 1
                    &&& forall|i: int| 0 <= i < before.len() ==> after[i] == before[i]
                    &&& after.last().source_station == packet.source_station
                    &&& after.last().target_station == target
                    &&& after.last().bytes@ == packet.bytes@
                }
                &&& result is Err ==> final(transport).queues@ == transport.queues@
                &&& other_queues_stay(*transport, *final(transport), target)
                &&& result is Err && !fits ==> result->Err_0 is PacketTooLarge
                &&& result is Err && fits && !transport.registered(target) ==> result == Err::<
                    (),
                    StationTransportError,
                >(StationTransportError::MissingTarget(target))
                &&& result is Err && fits && transport.registered(target) ==> result
                    == Err::<(), StationTransportError>(
                    StationTransportError::QueueFull {
                        station_id: target,
                        capacity: transport.limits.max_queued_packets_per_station,
                    },
                )
                &&& counts(
                    transport.stats.packets_sent,
                    final(transport).stats.packets_sent,
                    result is Ok,
                )
                &&& counts(
                    transport.stats.packets_rejected_full,
                    final(transport).stats.packets_rejected_full,
                    result is Err && fits && transport.registered(target),
                )
                &&& counts(
                    transport.stats.packets_rejected_bytes,
                    final(transport).stats.packets_rejected_bytes,
                    !fits,
                )
                &&& final(transport).stats.packets_received == transport.stats.packets_received
                &&& final(transport).limits == transport.limits
            },
{
}

/// A station takes the packet that waited longest for it, and nothing only where none waits. The rest
/// of its queue moves up, and no other queue changes.
pub proof fn law_stations_take_their_oldest_packet(station_id: StationId)
    ensures
        forall|
            transport: &mut InMemoryStationTransport,
            result: Result<Option<StationInboundPacket>, StationTransportError>,
        |
            #[trigger] call_ensures(
                InMemoryStationTransport::try_recv_station,
                (transport, station_id),
                result,
            ) && transport.wf() ==> {
                let before = transport.waiting(station_id);
                let after = final(transport).waiting(station_id);
                let known = transport.registered(station_id);
                &&& result is Err <==> !known
                &&& !known ==> result == Err::<
                    Option<StationInboundPacket>,
                    StationTransportError,
                >(StationTransportError::MissingTarget(station_id))
                &&& known && before.len() == 0 ==> result == Ok::<
                    Option<StationInboundPacket>,
                    StationTransportError,
                >(None) && after.len() == 0
                &&& known && before.len() > 0 ==> {
                    &&& result == Ok::<Option<StationInboundPacket>, StationTransportError>(
                        Some(before[0]),
                    )
                    &&& after.len() == before.len() - 1
                    &&& forall|i: int| 0 <= i < after.len() ==> after[i] == before[i + 1]
                }
                &&& other_queues_stay(*transport, *final(transport), station_id)
                &&& counts(
                    transport.stats.packets_received,
                    final(transport).stats.packets_received,
                    known && before.len() > 0,
                )
                &&& final(transport).stats.packets_sent == transport.stats.packets_sent
                &&& final(transport).limits == transport.limits
            },
{
}

/// A station that registers gets an empty queue, unless it has one: then its packets stay.
pub proof fn law_registered_stations_keep_their_packets(station_id: StationId)
    ensures
        forall|transport: &mut InMemoryStationTransport|
            #[trigger] call_ensures(
                InMemoryStationTransport::register_station,
                (transport, station_id),
                (),
            ) && transport.wf() ==> {
                &&& final(transport).registered(station_id)
                &&& final(transport).waiting(station_id) == if transport.registered(station_id) {
                    transport.waiting(station_id)
                } else {
                    Seq::empty()
                }
                &&& forall|other: StationId| #[trigger]
                    final(transport).registered(other) <==> other == station_id
                        || transport.registered(other)
                &&& forall|other: StationId| #[trigger]
                    transport.registered(other) ==> final(transport).waiting(other)
                        == transport.waiting(other)
            },
{
}

/// The queues of all clients but one are what they were.
pub open spec fn other_clients_stay(
    before: InMemoryTransportHub,
    after: InMemoryTransportHub,
    client_id: ClientId,
) -> bool {
    forall|other: ClientId|
        {
            &&& #[trigger] after.registered(other) <==> before.registered(other)
            &&& before.registered(other) ==> after.client(other).remote_addr == before.client(
                other,
            ).remote_addr
            &&& before.registered(other) && other != client_id ==> after.client(other)
                == before.client(other)
        }
}

/// A client packet is taken exactly where it is small enough, both ends are known and there is room
/// in the target's queue. It then waits as the last for its target, with its sender and the sender's
/// address. A refused packet changes no queue.
pub proof fn law_client_packets_wait_for_their_target(local: ClientId, packet: OutboundPacket)
    ensures
        forall|hub: &mut InMemoryTransportHub, result: Result<(), InMemoryTransportError>|
            #[trigger] call_ensures(InMemoryTransportHub::send_from, (hub, local, packet), result)
                && hub.wf() ==> {
                let target = packet.client_id;
                let fits = packet.bytes@.len() <= hub.limits.max_packet_bytes;
                let room = hub.client(target).queue@.len()
                    < hub.limits.max_queued_packets_per_client;
                &&& result is Ok <==> fits && hub.registered(local) && hub.registered(target)
                    && room
                &&& result is Ok ==> {
                    let before = hub.client(target).queue@;
                    let after = final(hub).client(target).queue@;
                    &&& after.len() == before.len() + 1
                    &&& forall|i: int| 0 <= i < before.len() ==> after[i] == before[i]
                    &&& after.last().client_id == Some(local)
                    &&& after.last().remote_addr == hub.client(local).remote_addr
                    &&& after.last().bytes@ == packet.bytes@
                }
                &&& result is Err ==> final(hub).clients@ == hub.clients@
                &&& other_clients_stay(*hub, *final(hub), target)
                &&& result is Err && !fits ==> result->Err_0 is PacketTooLarge
                &&& result is Err && fits && !hub.registered(local) ==> result == Err::<
                    (),
                    InMemoryTransportError,
                >(InMemoryTransportError::MissingLocal(local))
                &&& result is Err && fits && hub.registered(local) && !hub.registered(target)
                    ==> result == Err::<(), InMemoryTransportError>(
                    InMemoryTransportError::MissingTarget(target),
                )
                &&& result is Err && fits && hub.registered(local) && hub.registered(target)
                    ==> result == Err::<(), InMemoryTransportError>(
                    InMemoryTransportError::QueueFull {
                        client_id: target,
                        capacity: hub.limits.max_queued_packets_per_client,
                    },
                )
                &&& counts(hub.stats.packets_sent, final(hub).stats.packets_sent, result is Ok)
                &&& counts(
                    hub.stats.packets_rejected_bytes,
                    final(hub).stats.packets_rejected_bytes,
                    !fits,
                )
                &&& counts(
                    hub.stats.packets_rejected_full,
                    final(hub).stats.packets_rejected_full,
                    result is Err && result->Err_0 is QueueFull,
                )
                &&& final(hub).limits == hub.limits
            },
{
}

/// A client takes the packet that waited longest for it, and nothing only where none waits.
pub proof fn law_clients_take_their_oldest_packet(local: ClientId)
    ensures
        forall|
            hub: &mut InMemoryTransportHub,
            result: Result<Option<InboundPacket>, InMemoryTransportError>,
        |
            #[trigger] call_ensures(InMemoryTransportHub::receive_for, (hub, local), result)
                && hub.wf() ==> {
                let before = hub.client(local).queue@;
                let after = final(hub).client(local).queue@;
                let known = hub.registered(local);
                &&& result is Err <==> !known
                &&& !known ==> result == Err::<Option<InboundPacket>, InMemoryTransportError>(
                    InMemoryTransportError::MissingLocal(local),
                )
                &&& known && before.len() == 0 ==> result == Ok::<
                    Option<InboundPacket>,
                    InMemoryTransportError,
                >(None) && after.len() == 0
                &&& known && before.len() > 0 ==> {
                    &&& result == Ok::<Option<InboundPacket>, InMemoryTransportError>(
                        Some(before[0]),
                    )
                    &&& after.len() == before.len() - 1
                    &&& forall|i: int| 0 <= i < after.len() ==> after[i] == before[i + 1]
                }
                &&& other_clients_stay(*hub, *final(hub), local)
                &&& counts(
                    hub.stats.packets_received,
                    final(hub).stats.packets_received,
                    known && before.len() > 0,
                )
                &&& final(hub).stats.packets_sent == hub.stats.packets_sent
            },
{
}

/// A client that registers stands at its address with an empty queue. No two clients stand at one
/// address: whoever stood there is dropped, and every other client stays.
pub proof fn law_addresses_belong_to_one_client(client_id: ClientId, address: PeerAddress)
    ensures
        forall|hub: &mut InMemoryTransportHub, previous: Option<PeerAddress>|
            #[trigger] call_ensures(
                InMemoryTransportHub::register_client,
                (hub, client_id, address),
                previous,
            ) && hub.wf() ==> {
                &&& final(hub).registered(client_id)
                &&& final(hub).client(client_id).remote_addr == address
                &&& final(hub).client(client_id).queue@.len() == 0
                &&& previous is Some <==> hub.registered(client_id)
                &&& previous matches Some(old_address) ==> old_address == hub.client(
                    client_id,
                ).remote_addr
                &&& forall|other: ClientId| #[trigger]
                    final(hub).registered(other) && other != client_id ==> hub.registered(other)
                        && final(hub).client(other) == hub.client(other) && hub.client(
                        other,
                    ).remote_addr != address
                &&& forall|other: ClientId| #[trigger]
                    hub.registered(other) && other != client_id && hub.client(other).remote_addr
                        != address ==> final(hub).registered(other)
            },
{
}

/// The station is known to stand at this address.
pub open spec fn stands_at(
    routes: UdpStationRoutes,
    station_id: StationId,
    address: PeerAddress,
) -> bool {
    routes.stations.book@.contains_key(station_id.0 as u128)
        && routes.stations.book@[station_id.0 as u128] == address
}

/// No address is known for the station.
pub open spec fn stands_nowhere(routes: UdpStationRoutes, station_id: StationId) -> bool {
    forall|address: PeerAddress| !#[trigger] stands_at(routes, station_id, address)
}

/// A packet leaves only from the local station, and goes to the address of its target. A datagram is
/// read as coming from the station at its address, and is counted only where there is one.
pub proof fn law_datagrams_follow_the_address_book(
    source: StationId,
    target: StationId,
    remote: PeerAddress,
    bytes: usize,
)
    ensures
        forall|routes: &UdpStationRoutes, result: Result<PeerAddress, StationRouteError>|
            #[trigger] call_ensures(UdpStationRoutes::outbound, (routes, source, target), result)
                && routes.wf() ==> {
                &&& result matches Ok(address) ==> source == routes.local_station && stands_at(
                    *routes,
                    target,
                    address,
                )
                &&& source != routes.local_station ==> result == Err::<
                    PeerAddress,
                    StationRouteError,
                >(
                    StationRouteError::LocalStationMismatch {
                        local_station: routes.local_station,
                        packet_source: source,
                    },
                )
                &&& source == routes.local_station && result is Err ==> {
                    &&& result == Err::<PeerAddress, StationRouteError>(
                        StationRouteError::UnknownStation(target),
                    )
                    &&& stands_nowhere(*routes, target)
                }
            },
        forall|routes: &mut UdpStationRoutes, result: Result<StationId, StationRouteError>|
            #[trigger] call_ensures(UdpStationRoutes::inbound, (routes, remote, bytes), result)
                && routes.wf() ==> {
                &&& result matches Ok(station_id) ==> stands_at(*routes, station_id, remote)
                &&& result matches Err(error) ==> {
                    &&& error == StationRouteError::UnknownRemote(remote)
                    &&& nobody_stands_at(*routes, remote)
                }
                &&& counts(
                    routes.stats.packets_received,
                    final(routes).stats.packets_received,
                    result is Ok,
                )
                &&& final(routes).stats.bytes_received == if result is Ok {
                    routes.stats.bytes_received.saturating_add(bytes)
                } else {
                    routes.stats.bytes_received
                }
                &&& final(routes).stats.packets_sent == routes.stats.packets_sent
                &&& final(routes).stations == routes.stations
            },
        forall|routes: &UdpStationRoutes, result: Result<(), StationRouteError>|
            #[trigger] call_ensures(UdpStationRoutes::check_target, (routes, target), result) ==> (
            result is Ok <==> target == routes.local_station),
{
}

/// No station is known to stand at this address.
pub open spec fn nobody_stands_at(routes: UdpStationRoutes, address: PeerAddress) -> bool {
    forall|station_id: StationId| !#[trigger] stands_at(routes, station_id, address)
}

/// A station that registers stands at its address and at no other, alone. Every other station stays,
/// unless it stood there.
pub proof fn law_addresses_belong_to_one_station(station_id: StationId, address: PeerAddress)
    ensures
        forall|routes: &mut UdpStationRoutes, previous: Option<PeerAddress>|
            #[trigger] call_ensures(
                UdpStationRoutes::register_station,
                (routes, station_id, address),
                previous,
            ) && routes.wf() ==> {
                &&& stands_at(*final(routes), station_id, address)
                &&& previous matches Some(old_address) ==> stands_at(
                    *routes,
                    station_id,
                    old_address,
                )
                &&& forall|other: StationId, place: PeerAddress|
                    other != station_id ==> (#[trigger] stands_at(*final(routes), other, place)
                        <==> stands_at(*routes, other, place) && place != address)
            },
        forall|routes: &mut UdpStationRoutes, removed: Option<PeerAddress>|
            #[trigger] call_ensures(
                UdpStationRoutes::unregister_station,
                (routes, station_id),
                removed,
            ) && routes.wf() ==> {
                &&& removed matches Some(old_address) ==> stands_at(
                    *routes,
                    station_id,
                    old_address,
                )
                &&& forall|other: StationId, place: PeerAddress| #[trigger]
                    stands_at(*final(routes), other, place) <==> stands_at(*routes, other, place)
                        && other != station_id
            },
{
}

} // verus!
