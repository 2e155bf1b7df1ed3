//! What reliable endpoints promise: they send as their sender does, and acknowledgements reach it.

use vstd::prelude::*;

use crate::gateway_laws::counts;
use crate::lookup_set::pair_key;
use crate::packets::{
    InboundPacket, OutboundPacket, StationInboundPacket, StationOutboundPacket,
    StationTransportSink, TransportSink,
};
use crate::reliable_client::{ReliableClientEndpoint, ReliableClientError, ReliableClientSender};
use crate::reliable_frame::{decoded_reliable, LinkKind, ReliableModel};
use crate::reliable_station::{
    ReliableStationEndpoint, ReliableStationError, ReliableStationSender,
};
use crate::reliable_window::ReliableRetryReport;
use crate::station_link_laws::keep_other_queues;

verus! {

/// An acknowledgement releases the packet that it names from its sender and touches nothing else. What
/// cannot be read changes nothing, and neither is handed on.
pub proof fn law_client_endpoints_take_acknowledgements<T: TransportSink>(packet: InboundPacket)
    ensures
        forall|
            endpoint: &mut ReliableClientEndpoint,
            transport: &mut T,
            result: Result<Option<InboundPacket>, ReliableClientError<T::Error>>,
        |
            #[trigger] call_ensures(
                ReliableClientEndpoint::handle_inbound::<T>,
                (endpoint, transport, packet),
                result,
            ) && endpoint.wf() ==> {
                let decoded = decoded_reliable(LinkKind::Client, packet.bytes@);
                &&& decoded is Err || packet.client_id is None ==> {
                    &&& result is Err
                    &&& *final(endpoint) == *endpoint
                    &&& *final(transport) == *transport
                }
                &&& decoded matches Ok(ReliableModel::Ack { sequence }) ==> packet.client_id is Some ==> {
                    let key = pair_key((packet.client_id->0).0, sequence);
                    let before = endpoint.sender.window@;
                    let after = final(endpoint).sender.window@;
                    &&& result is Ok
                    &&& result->Ok_0 is None
                    &&& *final(transport) == *transport
                    &&& final(endpoint).receiver == endpoint.receiver
                    &&& !after.contains_key(key)
                    &&& keep_other_queues(before.remove(key), after, key)
                    &&& counts(
                        endpoint.sender.stats.acks_received,
                        final(endpoint).sender.stats.acks_received,
                        before.contains_key(key),
                    )
                }
            },
{
}

/// An endpoint sends and retries as its sender does, and leaves its receiver alone.
pub proof fn law_client_endpoints_send_as_their_sender<T: TransportSink>(now: u64)
    ensures
        forall|
            endpoint: &mut ReliableClientEndpoint,
            transport: &mut T,
            packet: OutboundPacket,
            result: Result<u64, ReliableClientError<T::Error>>,
        |
            #[trigger] call_ensures(
                ReliableClientEndpoint::send::<T>,
                (endpoint, transport, packet, now),
                result,
            ) && endpoint.wf() ==> final(endpoint).receiver == endpoint.receiver && exists|
                sender: &mut ReliableClientSender,
                sink: &mut T,
            |
                #![trigger call_ensures(
                    ReliableClientSender::send::<T>,
                    (sender, sink, packet, now),
                    result,
                )]
                {
                    &&& call_ensures(
                        ReliableClientSender::send::<T>,
                        (sender, sink, packet, now),
                        result,
                    )
                    &&& *sender == endpoint.sender
                    &&& *final(sender) == final(endpoint).sender
                    &&& *sink == *transport
                    &&& *final(sink) == *final(transport)
                },
        forall|
            endpoint: &mut ReliableClientEndpoint,
            transport: &mut T,
            result: Result<ReliableRetryReport, ReliableClientError<T::Error>>,
        |
            #[trigger] call_ensures(
                ReliableClientEndpoint::retry_due::<T>,
                (endpoint, transport, now),
                result,
            ) && endpoint.wf() ==> final(endpoint).receiver == endpoint.receiver && exists|
                sender: &mut ReliableClientSender,
                sink: &mut T,
            |
                #![trigger call_ensures(
                    ReliableClientSender::retry_due::<T>,
                    (sender, sink, now),
                    result,
                )]
                {
                    &&& call_ensures(
                        ReliableClientSender::retry_due::<T>,
                        (sender, sink, now),
                        result,
                    )
                    &&& *sender == endpoint.sender
                    &&& *final(sender) == final(endpoint).sender
                    &&& *sink == *transport
                    &&& *final(sink) == *final(transport)
                },
{
}

/// An acknowledgement releases the packet that it names from its sender and touches nothing else. What
/// cannot be read changes nothing, and neither is handed on.
pub proof fn law_station_endpoints_take_acknowledgements<T: StationTransportSink>(packet: StationInboundPacket)
    ensures
        forall|
            endpoint: &mut ReliableStationEndpoint,
            transport: &mut T,
            result: Result<Option<StationInboundPacket>, ReliableStationError<T::Error>>,
        |
            #[trigger] call_ensures(
                ReliableStationEndpoint::handle_inbound::<T>,
                (endpoint, transport, packet),
                result,
            ) && endpoint.wf() ==> {
                let decoded = decoded_reliable(LinkKind::Station, packet.bytes@);
                &&& decoded is Err ==> {
                    &&& result is Err
                    &&& *final(endpoint) == *endpoint
                    &&& *final(transport) == *transport
                }
                &&& decoded matches Ok(ReliableModel::Ack { sequence }) ==> {
                    let key = pair_key(packet.source_station.0 as u64, sequence);
                    let before = endpoint.sender.window@;
                    let after = final(endpoint).sender.window@;
                    &&& result is Ok
                    &&& result->Ok_0 is None
                    &&& *final(transport) == *transport
                    &&& final(endpoint).receiver == endpoint.receiver
                    &&& !after.contains_key(key)
                    &&& keep_other_queues(before.remove(key), after, key)
                    &&& counts(
                        endpoint.sender.stats.acks_received,
                        final(endpoint).sender.stats.acks_received,
                        before.contains_key(key),
                    )
                }
            },
{
}

/// An endpoint sends and retries as its sender does, and leaves its receiver alone.
pub proof fn law_station_endpoints_send_as_their_sender<T: StationTransportSink>(now: u64)
    ensures
        forall|
            endpoint: &mut ReliableStationEndpoint,
            transport: &mut T,
            packet: StationOutboundPacket,
            result: Result<u64, ReliableStationError<T::Error>>,
        |
            #[trigger] call_ensures(
                ReliableStationEndpoint::send::<T>,
                (endpoint, transport, packet, now),
                result,
            ) && endpoint.wf() ==> final(endpoint).receiver == endpoint.receiver && exists|
                sender: &mut ReliableStationSender,
                sink: &mut T,
            |
                #![trigger call_ensures(
                    ReliableStationSender::send::<T>,
                    (sender, sink, packet, now),
                    result,
                )]
                {
                    &&& call_ensures(
                        ReliableStationSender::send::<T>,
                        (sender, sink, packet, now),
                        result,
                    )
                    &&& *sender == endpoint.sender
                    &&& *final(sender) == final(endpoint).sender
                    &&& *sink == *transport
                    &&& *final(sink) == *final(transport)
                },
        forall|
            endpoint: &mut ReliableStationEndpoint,
            transport: &mut T,
            result: Result<ReliableRetryReport, ReliableStationError<T::Error>>,
        |
            #[trigger] call_ensures(
                ReliableStationEndpoint::retry_due::<T>,
                (endpoint, transport, now),
                result,
            ) && endpoint.wf() ==> final(endpoint).receiver == endpoint.receiver && exists|
                sender: &mut ReliableStationSender,
                sink: &mut T,
            |
                #![trigger call_ensures(
                    ReliableStationSender::retry_due::<T>,
                    (sender, sink, now),
                    result,
                )]
                {
                    &&& call_ensures(
                        ReliableStationSender::retry_due::<T>,
                        (sender, sink, now),
                        result,
                    )
                    &&& *sender == endpoint.sender
                    &&& *final(sender) == final(endpoint).sender
                    &&& *sink == *transport
                    &&& *final(sink) == *final(transport)
                },
{
}

} // verus!
