//! Packets, batches and the transport interfaces that carry them.

use vstd::prelude::*;

use crate::bytes::push_all;
use crate::ids::{ClientId, StationId};
use crate::num::clamp_usize;

verus! {

/// Default maximum datagram bytes read by a UDP adapter.
pub const DEFAULT_UDP_RECV_BUFFER_SIZE: usize = 16 * 1024;

/// Network address of a peer.
#[derive(Clone, Copy, Debug, PartialEq, Eq, PartialOrd, Ord, Hash, Structural)]
pub struct PeerAddress {
    /// Whether `host` is an IPv6 address.
    pub v6: bool,
    /// Host address as a number.
    pub host: u128,
    /// Port.
    pub port: u16,
    /// IPv6 flow information, zero for IPv4.
    pub flow_info: u32,
    /// IPv6 scope id, zero for IPv4.
    pub scope_id: u32,
}

impl PeerAddress {
    /// An IPv4 address.
    pub fn v4(host: u32, port: u16) -> (address: Self)
        ensures
            address == (PeerAddress {
                v6: false,
                host: host as u128,
                port,
                flow_info: 0,
                scope_id: 0,
            }),
    {
        Self { v6: false, host: host as u128, port, flow_info: 0, scope_id: 0 }
    }
}

/// Outbound packet after wire encoding.
#[derive(Clone, Debug, PartialEq, Eq)]
pub struct OutboundPacket {
    /// Target client.
    pub client_id: ClientId,
    /// Encoded bytes.
    pub bytes: Vec<u8>,
}

/// Inbound packet before wire decoding.
#[derive(Clone, Debug, PartialEq, Eq)]
pub struct InboundPacket {
    /// Known client id for `remote_addr`, if the transport has one registered.
    pub client_id: Option<ClientId>,
    /// Address the datagram came from.
    pub remote_addr: PeerAddress,
    /// Encoded bytes.
    pub bytes: Vec<u8>,
}

/// Borrowed inbound packet backed by a transport-owned receive buffer.
#[derive(Clone, Copy, Debug, PartialEq, Eq)]
pub struct InboundPacketRef<'a> {
    /// Known client id for `remote_addr`, if the transport has one registered.
    pub client_id: Option<ClientId>,
    /// Address the datagram came from.
    pub remote_addr: PeerAddress,
    /// Encoded bytes valid until the transport is mutably reused.
    pub bytes: &'a [u8],
}

/// Copies a byte slice.
pub(crate) fn copy_slice(bytes: &[u8]) -> (copy: Vec<u8>)
    ensures
        copy@ == bytes@,
{
    let mut copy: Vec<u8> = Vec::new();
    push_all(&mut copy, bytes);
    assert(copy@ =~= bytes@);
    copy
}

impl<'a> InboundPacketRef<'a> {
    /// Materializes the compatible owned packet shape.
    pub fn to_owned(self) -> (packet: InboundPacket)
        ensures
            packet.client_id == self.client_id,
            packet.remote_addr == self.remote_addr,
            packet.bytes@ == self.bytes@,
    {
        InboundPacket {
            client_id: self.client_id,
            remote_addr: self.remote_addr,
            bytes: copy_slice(self.bytes),
        }
    }
}

/// Outbound station-to-station packet after wire encoding.
#[derive(Clone, Debug, PartialEq, Eq)]
pub struct StationOutboundPacket {
    /// Source station.
    pub source_station: StationId,
    /// Target station.
    pub target_station: StationId,
    /// Encoded bytes.
    pub bytes: Vec<u8>,
}

/// Inbound station-to-station packet before wire decoding.
#[derive(Clone, Debug, PartialEq, Eq)]
pub struct StationInboundPacket {
    /// Source station.
    pub source_station: StationId,
    /// Target station.
    pub target_station: StationId,
    /// Encoded bytes.
    pub bytes: Vec<u8>,
}

/// Borrowed station packet backed by a transport-owned receive buffer.
#[derive(Clone, Copy, Debug, PartialEq, Eq)]
pub struct StationInboundPacketRef<'a> {
    /// Source station resolved from the remote address.
    pub source_station: StationId,
    /// Target station owned by the receiving adapter.
    pub target_station: StationId,
    /// Encoded bytes valid until the transport is mutably reused.
    pub bytes: &'a [u8],
}

impl<'a> StationInboundPacketRef<'a> {
    /// Materializes the compatible owned packet shape.
    pub fn to_owned(self) -> (packet: StationInboundPacket)
        ensures
            packet.source_station == self.source_station,
            packet.target_station == self.target_station,
            packet.bytes@ == self.bytes@,
    {
        StationInboundPacket {
            source_station: self.source_station,
            target_station: self.target_station,
            bytes: copy_slice(self.bytes),
        }
    }
}

/// Total byte count of station packets.
pub open spec fn station_bytes_total(packets: Seq<StationOutboundPacket>) -> nat
    decreases packets.len(),
{
    if packets.len() == 0 {
        0
    } else {
        station_bytes_total(packets.drop_last()) + packets.last().bytes@.len()
    }
}

/// Batch of outbound station-to-station packets.
#[derive(Clone, Debug, Default, PartialEq, Eq)]
pub struct StationPacketBatch {
    /// Packets to send together.
    pub packets: Vec<StationOutboundPacket>,
}

impl StationPacketBatch {
    /// Creates an empty station packet batch.
    pub fn new() -> (batch: Self)
        ensures
            batch.packets@ == Seq::<StationOutboundPacket>::empty(),
    {
        Self { packets: Vec::new() }
    }

    /// Adds one packet to the batch.
    pub fn push(&mut self, packet: StationOutboundPacket)
        ensures
            final(self).packets@ == old(self).packets@.push(packet),
    {
        self.packets.push(packet);
    }

    /// Returns packet count.
    pub fn len(&self) -> (count: usize)
        ensures
            count == self.packets@.len(),
    {
        self.packets.len()
    }

    /// Returns whether the batch is empty.
    pub fn is_empty(&self) -> (empty: bool)
        ensures
            empty <==> self.packets@.len() == 0,
    {
        self.packets.len() == 0
    }

    /// Returns total byte count, clamped to what a `usize` holds.
    pub fn bytes_len(&self) -> (total: usize)
        ensures
            total == clamp_usize(station_bytes_total(self.packets@)),
    {
        let mut total: usize = 0;
        let mut index: usize = 0;
        assert(self.packets@.take(0) =~= Seq::empty());
        while index < self.packets.len()
            invariant
                index <= self.packets.len(),
                total == clamp_usize(station_bytes_total(self.packets@.take(index as int))),
            decreases self.packets.len() - index,
        {
            assert(self.packets@.take(index + 1).drop_last() =~= self.packets@.take(index as int));
            total = total.saturating_add(self.packets[index].bytes.len());
            index = index + 1;
        }
        assert(self.packets@.take(index as int) =~= self.packets@);
        total
    }
}

/// Total byte count of client packets.
pub open spec fn bytes_total(packets: Seq<OutboundPacket>) -> nat
    decreases packets.len(),
{
    if packets.len() == 0 {
        0
    } else {
        bytes_total(packets.drop_last()) + packets.last().bytes@.len()
    }
}

/// Batch of outbound packets.
#[derive(Clone, Debug, Default, PartialEq, Eq)]
pub struct PacketBatch {
    /// Packets to send together.
    pub packets: Vec<OutboundPacket>,
}

impl PacketBatch {
    /// Creates an empty batch.
    pub fn new() -> (batch: Self)
        ensures
            batch.packets@ == Seq::<OutboundPacket>::empty(),
    {
        Self { packets: Vec::new() }
    }

    /// Adds one packet to the batch.
    pub fn push(&mut self, packet: OutboundPacket)
        ensures
            final(self).packets@ == old(self).packets@.push(packet),
    {
        self.packets.push(packet);
    }

    /// Returns packet count.
    pub fn len(&self) -> (count: usize)
        ensures
            count == self.packets@.len(),
    {
        self.packets.len()
    }

    /// Returns whether the batch is empty.
    pub fn is_empty(&self) -> (empty: bool)
        ensures
            empty <==> self.packets@.len() == 0,
    {
        self.packets.len() == 0
    }

    /// Returns total byte count, clamped to what a `usize` holds.
    pub fn bytes_len(&self) -> (total: usize)
        ensures
            total == clamp_usize(bytes_total(self.packets@)),
    {
        let mut total: usize = 0;
        let mut index: usize = 0;
        assert(self.packets@.take(0) =~= Seq::empty());
        while index < self.packets.len()
            invariant
                index <= self.packets.len(),
                total == clamp_usize(bytes_total(self.packets@.take(index as int))),
            decreases self.packets.len() - index,
        {
            assert(self.packets@.take(index + 1).drop_last() =~= self.packets@.take(index as int));
            total = total.saturating_add(self.packets[index].bytes.len());
            index = index + 1;
        }
        assert(self.packets@.take(index as int) =~= self.packets@);
        total
    }
}

/// An answer stands at this place.
pub open spec fn asked<A>(answers: Seq<A>, i: int) -> bool {
    0 <= i < answers.len()
}

/// A state stands before every answer and after the last one, from `first` to `last`.
pub open spec fn linked<T, A>(links: Seq<T>, answers: Seq<A>, first: T, last: T) -> bool {
    &&& links.len() == answers.len() + 1
    &&& links[0] == first
    &&& links.last() == last
}

/// The answers of a transport that handed out these packets and then gave `last`, where it was asked
/// once more.
pub open spec fn handed_out<P, E>(
    answers: Seq<Result<Option<P>, E>>,
    packets: Seq<P>,
    last: Option<Result<Option<P>, E>>,
) -> bool {
    &&& answers.len() == packets.len() + (if last is Some {
        1int
    } else {
        0int
    })
    &&& forall|i: int|
        0 <= i < packets.len() ==> #[trigger] answers[i] == Ok::<Option<P>, E>(Some(packets[i]))
    &&& last matches Some(answer) ==> answers.last() == answer
}

/// The error of a send, if it failed.
pub open spec fn failure_of<E>(outcome: Result<(), E>) -> Option<E> {
    match outcome {
        Ok(()) => None,
        Err(error) => Some(error),
    }
}

/// How sending `count` packets in turn went: all were taken, or those up to the first failure.
pub open spec fn sent_in_turn<E>(failures: Seq<Option<E>>, count: nat, failure: Option<E>) -> bool {
    &&& forall|i: int| 0 <= i < failures.len() - 1 ==> (#[trigger] failures[i]) is None
    &&& match failure {
        None => failures.len() == count && (count > 0 ==> failures.last() is None),
        Some(error) => 0 < failures.len() <= count && failures.last() == Some(error),
    }
}

/// Packet sink abstraction. Real network transports should implement this at batch boundaries
/// rather than per-entity boundaries.
pub trait TransportSink {
    /// Transport error type.
    type Error;

    /// Sends one encoded packet.
    fn send(&mut self, packet: OutboundPacket) -> Result<(), Self::Error>;

    /// Sends a packet batch, in order, up to the first failure.
    fn send_batch(&mut self, batch: PacketBatch) -> (result: Result<(), Self::Error>)
        default_ensures
            exists|links: Seq<&Self>, failures: Seq<Option<Self::Error>>|
                {
                    &&& #[trigger] linked(links, failures, &*old(self), &*final(self))
                    &&& #[trigger] sent_in_turn(failures, batch.packets@.len(), failure_of(result))
                    &&& forall|i: int| #[trigger]
                        asked(failures, i) ==> exists|sink: &mut Self, outcome: Result<(), Self::Error>|
                            #![trigger call_ensures(Self::send, (sink, batch.packets@[i]), outcome)]
                            {
                                &&& call_ensures(Self::send, (sink, batch.packets@[i]), outcome)
                                &&& &*sink == links[i]
                                &&& &*final(sink) == links[i + 1]
                                &&& failures[i] == failure_of(outcome)
                            }
                },
    {
        let ghost packets = batch.packets@;
        let mut pending = batch.packets;
        let ghost mut failures: Seq<Option<Self::Error>> = Seq::empty();
        let ghost mut links: Seq<&Self> = seq![&*self];
        assert(packets.skip(0) =~= packets);
        while pending.len() > 0
            invariant
                packets == batch.packets@,
                failures.len() <= packets.len(),
                pending@ == packets.skip(failures.len() as int),
                forall|i: int| 0 <= i < failures.len() ==> (#[trigger] failures[i]) is None,
                linked(links, failures, &*old(self), &*self),
                forall|i: int| #[trigger]
                    asked(failures, i) ==> exists|sink: &mut Self, outcome: Result<(), Self::Error>|
                        #![trigger call_ensures(Self::send, (sink, packets[i]), outcome)]
                        {
                            &&& call_ensures(Self::send, (sink, packets[i]), outcome)
                            &&& &*sink == links[i]
                            &&& &*final(sink) == links[i + 1]
                            &&& failures[i] == failure_of(outcome)
                        },
            decreases pending.len(),
        {
            let ghost earlier = failures;
            let ghost reached = links;
            let packet = pending.remove(0);
            assert(pending@ =~= packets.skip(failures.len() as int + 1));
            let answer = self.send(packet);
            proof {
                failures = failures.push(failure_of(answer));
                links = links.push(&*self);
            }
            assert(linked(links, failures, &*old(self), &*self));
            assert forall|i: int| #[trigger]
                asked(failures, i) implies exists|sink: &mut Self, outcome: Result<(), Self::Error>|
                    #![trigger call_ensures(Self::send, (sink, packets[i]), outcome)]
                    {
                        &&& call_ensures(Self::send, (sink, packets[i]), outcome)
                        &&& &*sink == links[i]
                        &&& &*final(sink) == links[i + 1]
                        &&& failures[i] == failure_of(outcome)
                    } by {
                assert(links[i] == reached[i]);
                if i < earlier.len() {
                    assert(asked(earlier, i));
                    assert(failures[i] == earlier[i]);
                    assert(links[i + 1] == reached[i + 1]);
                } else {
                    assert(packets[i] == packet);
                }
            }
            match answer {
                Ok(()) => {},
                Err(error) => {
                    assert(sent_in_turn(failures, packets.len(), Some(error)));
                    return Err(error);
                },
            }
        }
        assert(sent_in_turn(failures, packets.len(), None));
        Ok(())
    }
}

/// Non-blocking packet receive abstraction.
pub trait TransportReceiver {
    /// Transport error type.
    type Error;

    /// Attempts to receive one encoded packet.
    ///
    /// Implementations should return `Ok(None)` when no packet is currently available instead of
    /// blocking the caller's station tick.
    fn try_recv(&mut self) -> Result<Option<InboundPacket>, Self::Error>;
}

/// One more answer extends the chain of a receiver's states.
pub proof fn lemma_received<T: TransportReceiver>(
    links: Seq<T>,
    answers: Seq<Result<Option<InboundPacket>, T::Error>>,
    link: T,
    last: Result<Option<InboundPacket>, T::Error>,
)
    requires
        links.len() == answers.len() + 1,
        forall|i: int| #[trigger]
            asked(answers, i) ==> exists|receiver: &mut T| #[trigger]
                call_ensures(T::try_recv, (receiver,), answers[i]) && *receiver == links[i]
                    && *final(receiver) == links[i + 1],
        exists|receiver: &mut T| #[trigger]
            call_ensures(T::try_recv, (receiver,), last) && *receiver == links.last()
                && *final(receiver) == link,
    ensures
        forall|i: int| #[trigger]
            asked(answers.push(last), i) ==> exists|receiver: &mut T| #[trigger]
                call_ensures(T::try_recv, (receiver,), answers.push(last)[i]) && *receiver
                    == links.push(link)[i] && *final(receiver) == links.push(link)[i + 1],
{
    assert forall|i: int| #[trigger] asked(answers.push(last), i) implies exists|
        receiver: &mut T,
    | #[trigger]
        call_ensures(T::try_recv, (receiver,), answers.push(last)[i]) && *receiver == links.push(
            link,
        )[i] && *final(receiver) == links.push(link)[i + 1] by {
        if i < answers.len() {
            assert(asked(answers, i));
            assert(answers.push(last)[i] == answers[i]);
        } else {
            assert(answers.push(last)[i] == last);
        }
    }
}

/// Station-to-station packet sink abstraction.
pub trait StationTransportSink {
    /// Transport error type.
    type Error;

    /// Sends one encoded station packet.
    fn send_station(&mut self, packet: StationOutboundPacket) -> Result<(), Self::Error>;

    /// Sends a station packet batch, in order, up to the first failure.
    fn send_station_batch(&mut self, batch: StationPacketBatch) -> (result: Result<(), Self::Error>)
        default_ensures
            exists|links: Seq<&Self>, failures: Seq<Option<Self::Error>>|
                {
                    &&& #[trigger] linked(links, failures, &*old(self), &*final(self))
                    &&& #[trigger] sent_in_turn(failures, batch.packets@.len(), failure_of(result))
                    &&& forall|i: int| #[trigger]
                        asked(failures, i) ==> exists|sink: &mut Self, outcome: Result<(), Self::Error>|
                            #![trigger call_ensures(Self::send_station, (sink, batch.packets@[i]), outcome)]
                            {
                                &&& call_ensures(Self::send_station, (sink, batch.packets@[i]), outcome)
                                &&& &*sink == links[i]
                                &&& &*final(sink) == links[i + 1]
                                &&& failures[i] == failure_of(outcome)
                            }
                },
    {
        let ghost packets = batch.packets@;
        let mut pending = batch.packets;
        let ghost mut failures: Seq<Option<Self::Error>> = Seq::empty();
        let ghost mut links: Seq<&Self> = seq![&*self];
        assert(packets.skip(0) =~= packets);
        while pending.len() > 0
            invariant
                packets == batch.packets@,
                failures.len() <= packets.len(),
                pending@ == packets.skip(failures.len() as int),
                forall|i: int| 0 <= i < failures.len() ==> (#[trigger] failures[i]) is None,
                linked(links, failures, &*old(self), &*self),
                forall|i: int| #[trigger]
                    asked(failures, i) ==> exists|sink: &mut Self, outcome: Result<(), Self::Error>|
                        #![trigger call_ensures(Self::send_station, (sink, packets[i]), outcome)]
                        {
                            &&& call_ensures(Self::send_station, (sink, packets[i]), outcome)
                            &&& &*sink == links[i]
                            &&& &*final(sink) == links[i + 1]
                            &&& failures[i] == failure_of(outcome)
                        },
            decreases pending.len(),
        {
            let ghost earlier = failures;
            let ghost reached = links;
            let packet = pending.remove(0);
            assert(pending@ =~= packets.skip(failures.len() as int + 1));
            let answer = self.send_station(packet);
            proof {
                failures = failures.push(failure_of(answer));
                links = links.push(&*self);
            }
            assert(linked(links, failures, &*old(self), &*self));
            assert forall|i: int| #[trigger]
                asked(failures, i) implies exists|sink: &mut Self, outcome: Result<(), Self::Error>|
                    #![trigger call_ensures(Self::send_station, (sink, packets[i]), outcome)]
                    {
                        &&& call_ensures(Self::send_station, (sink, packets[i]), outcome)
                        &&& &*sink == links[i]
                        &&& &*final(sink) == links[i + 1]
                        &&& failures[i] == failure_of(outcome)
                    } by {
                assert(links[i] == reached[i]);
                if i < earlier.len() {
                    assert(asked(earlier, i));
                    assert(failures[i] == earlier[i]);
                    assert(links[i + 1] == reached[i + 1]);
                } else {
                    assert(packets[i] == packet);
                }
            }
            match answer {
                Ok(()) => {},
                Err(error) => {
                    assert(sent_in_turn(failures, packets.len(), Some(error)));
                    return Err(error);
                },
            }
        }
        assert(sent_in_turn(failures, packets.len(), None));
        Ok(())
    }
}

/// Non-blocking station-to-station receive abstraction.
pub trait StationTransportReceiver {
    /// Transport error type.
    type Error;

    /// Attempts to receive one encoded packet for `target_station`.
    fn try_recv_station(&mut self, target_station: StationId) -> Result<
        Option<StationInboundPacket>,
        Self::Error,
    >;
}

/// One more answer extends the chain of a station receiver's states.
pub proof fn lemma_received_for<T: StationTransportReceiver>(
    target_station: StationId,
    links: Seq<T>,
    answers: Seq<Result<Option<StationInboundPacket>, T::Error>>,
    link: T,
    last: Result<Option<StationInboundPacket>, T::Error>,
)
    requires
        links.len() == answers.len() + 1,
        forall|i: int| #[trigger]
            asked(answers, i) ==> exists|receiver: &mut T| #[trigger]
                call_ensures(T::try_recv_station, (receiver, target_station), answers[i]) && *receiver == links[i]
                    && *final(receiver) == links[i + 1],
        exists|receiver: &mut T| #[trigger]
            call_ensures(T::try_recv_station, (receiver, target_station), last) && *receiver == links.last()
                && *final(receiver) == link,
    ensures
        forall|i: int| #[trigger]
            asked(answers.push(last), i) ==> exists|receiver: &mut T| #[trigger]
                call_ensures(T::try_recv_station, (receiver, target_station), answers.push(last)[i]) && *receiver
                    == links.push(link)[i] && *final(receiver) == links.push(link)[i + 1],
{
    assert forall|i: int| #[trigger] asked(answers.push(last), i) implies exists|
        receiver: &mut T,
    | #[trigger]
        call_ensures(T::try_recv_station, (receiver, target_station), answers.push(last)[i]) && *receiver == links.push(
            link,
        )[i] && *final(receiver) == links.push(link)[i + 1] by {
        if i < answers.len() {
            assert(asked(answers, i));
            assert(answers.push(last)[i] == answers[i]);
        } else {
            assert(answers.push(last)[i] == last);
        }
    }
}

/// Total byte count of received station packets.
pub open spec fn received_bytes_total(packets: Seq<StationInboundPacket>) -> nat
    decreases packets.len(),
{
    if packets.len() == 0 {
        0
    } else {
        received_bytes_total(packets.drop_last()) + packets.last().bytes@.len()
    }
}

/// Transport sink error produced by wrappers.
#[derive(Clone, Copy, Debug, PartialEq, Eq)]
pub enum TransportError<E> {
    /// Inner sink failed.
    Inner(E),
    /// A packet or batch exceeded byte budget.
    ByteBudgetExceeded {
        /// Configured budget.
        budget: usize,
        /// Actual bytes.
        actual: usize,
    },
}

/// Byte-budget guard for any transport sink.
#[derive(Clone, Debug)]
pub struct BudgetedTransport<T> {
    /// Guarded transport.
    pub inner: T,
    /// Byte budget of one packet.
    pub max_packet_bytes: usize,
    /// Byte budget of one batch.
    pub max_batch_bytes: usize,
}

impl<T> BudgetedTransport<T> {
    /// Creates a budgeted transport wrapper.
    pub fn new(inner: T, max_packet_bytes: usize, max_batch_bytes: usize) -> (transport: Self)
        ensures
            transport == (BudgetedTransport { inner, max_packet_bytes, max_batch_bytes }),
    {
        Self { inner, max_packet_bytes, max_batch_bytes }
    }

    /// Returns the inner transport.
    pub fn into_inner(self) -> (inner: T)
        ensures
            inner == self.inner,
    {
        self.inner
    }

    /// Borrows the inner transport.
    pub fn inner(&self) -> (inner: &T)
        ensures
            *inner == self.inner,
    {
        &self.inner
    }
}

/// First packet in `packets` over the byte budget of one packet.
pub open spec fn oversized(packets: Seq<OutboundPacket>, budget: usize) -> Option<usize>
    decreases packets.len(),
{
    if packets.len() == 0 {
        None
    } else if packets[0].bytes@.len() > budget {
        Some(packets[0].bytes@.len() as usize)
    } else {
        oversized(packets.drop_first(), budget)
    }
}

/// The budget that a batch breaks, with the actual byte count: the batch budget first, then the
/// packet budget in packet order.
pub open spec fn batch_overrun(
    packets: Seq<OutboundPacket>,
    max_packet_bytes: usize,
    max_batch_bytes: usize,
) -> Option<(usize, usize)> {
    let total = clamp_usize(bytes_total(packets));
    if total > max_batch_bytes {
        Some((max_batch_bytes, total))
    } else {
        match oversized(packets, max_packet_bytes) {
            Some(actual) => Some((max_packet_bytes, actual)),
            None => None,
        }
    }
}

impl<T: TransportSink> TransportSink for BudgetedTransport<T> {
    type Error = TransportError<T::Error>;

    fn send(&mut self, packet: OutboundPacket) -> (result: Result<(), TransportError<T::Error>>)
        ensures
            final(self).max_packet_bytes == old(self).max_packet_bytes,
            final(self).max_batch_bytes == old(self).max_batch_bytes,
            packet.bytes@.len() > old(self).max_packet_bytes ==> result == Err::<
                (),
                TransportError<T::Error>,
            >(
                TransportError::ByteBudgetExceeded {
                    budget: old(self).max_packet_bytes,
                    actual: packet.bytes@.len() as usize,
                },
            ) && final(self).inner == old(self).inner,
            packet.bytes@.len() <= old(self).max_packet_bytes ==> exists|
                inner: &mut T,
                outcome: Result<(), T::Error>,
            |
                #![trigger call_ensures(T::send, (inner, packet), outcome)]
                call_ensures(T::send, (inner, packet), outcome) && *inner == old(self).inner
                    && *final(inner) == final(self).inner && result == (match outcome {
                    Ok(()) => Ok::<(), TransportError<T::Error>>(()),
                    Err(error) => Err(TransportError::Inner(error)),
                }),
    {
        let bytes: usize = packet.bytes.len();
        if bytes > self.max_packet_bytes {
            return Err(
                TransportError::ByteBudgetExceeded { budget: self.max_packet_bytes, actual: bytes },
            );
        }
        match self.inner.send(packet) {
            Ok(()) => Ok(()),
            Err(error) => Err(TransportError::Inner(error)),
        }
    }

    fn send_batch(&mut self, batch: PacketBatch) -> (result: Result<(), TransportError<T::Error>>)
        ensures
            final(self).max_packet_bytes == old(self).max_packet_bytes,
            final(self).max_batch_bytes == old(self).max_batch_bytes,
            match batch_overrun(
                batch.packets@,
                old(self).max_packet_bytes,
                old(self).max_batch_bytes,
            ) {
                Some((budget, actual)) => {
                    &&& result == Err::<(), TransportError<T::Error>>(
                        TransportError::ByteBudgetExceeded { budget, actual },
                    )
                    &&& final(self).inner == old(self).inner
                },
                None => exists|inner: &mut T, outcome: Result<(), T::Error>|
                    #![trigger call_ensures(T::send_batch, (inner, batch), outcome)]
                    call_ensures(T::send_batch, (inner, batch), outcome) && *inner == old(
                        self).inner && *final(inner) == final(self).inner && result == (
                    match outcome {
                        Ok(()) => Ok::<(), TransportError<T::Error>>(()),
                        Err(error) => Err(TransportError::Inner(error)),
                    }),
            },
    {
        let bytes: usize = batch.bytes_len();
        if bytes > self.max_batch_bytes {
            return Err(
                TransportError::ByteBudgetExceeded { budget: self.max_batch_bytes, actual: bytes },
            );
        }
        let ghost packets = batch.packets@;
        let mut index: usize = 0;
        assert(packets.skip(0) =~= packets);
        while index < batch.packets.len()
            invariant
                index <= batch.packets.len(),
                packets == batch.packets@,
                *self == *old(self),
                clamp_usize(bytes_total(packets)) <= self.max_batch_bytes,
                oversized(packets, self.max_packet_bytes) == oversized(
                    packets.skip(index as int),
                    self.max_packet_bytes,
                ),
            decreases batch.packets.len() - index,
        {
            assert(packets.skip(index as int).drop_first() =~= packets.skip(index + 1));
            let actual: usize = batch.packets[index].bytes.len();
            if actual > self.max_packet_bytes {
                return Err(
                    TransportError::ByteBudgetExceeded { budget: self.max_packet_bytes, actual },
                );
            }
            index = index + 1;
        }
        match self.inner.send_batch(batch) {
            Ok(()) => Ok(()),
            Err(error) => Err(TransportError::Inner(error)),
        }
    }
}

/// Fake transport for benchmarks and tests: it counts what it is given. The counters stay at their
/// last value once reached.
#[derive(Clone, Debug, Default, PartialEq, Eq)]
pub struct FakeTransport {
    /// Packets sent.
    pub packets: usize,
    /// Bytes sent.
    pub bytes: usize,
    /// Batches sent.
    pub batches: usize,
}

/// Something handed to a transport.
pub enum Submission {
    /// One packet.
    Packet(OutboundPacket),
    /// A batch of packets.
    Batch(PacketBatch),
}

impl Submission {
    /// Number of packets.
    pub open spec fn packets(self) -> nat {
        match self {
            Submission::Packet(_) => 1,
            Submission::Batch(batch) => batch.packets@.len(),
        }
    }

    /// Number of bytes.
    pub open spec fn bytes(self) -> nat {
        match self {
            Submission::Packet(packet) => packet.bytes@.len(),
            Submission::Batch(batch) => bytes_total(batch.packets@),
        }
    }

    /// Number of batches.
    pub open spec fn batches(self) -> nat {
        match self {
            Submission::Packet(_) => 0,
            Submission::Batch(_) => 1,
        }
    }
}

/// Packets, bytes and batches over several submissions.
pub open spec fn submitted(submissions: Seq<Submission>) -> (nat, nat, nat)
    decreases submissions.len(),
{
    if submissions.len() == 0 {
        (0, 0, 0)
    } else {
        let before = submitted(submissions.drop_last());
        let last = submissions.last();
        (before.0 + last.packets(), before.1 + last.bytes(), before.2 + last.batches())
    }
}

impl FakeTransport {
    /// The counts once something was sent.
    pub open spec fn after(self, submission: Submission) -> Self {
        FakeTransport {
            packets: clamp_usize(self.packets as nat + submission.packets()),
            bytes: clamp_usize(self.bytes as nat + submission.bytes()),
            batches: clamp_usize(self.batches as nat + submission.batches()),
        }
    }

    /// The counts once several things were sent.
    pub open spec fn after_all(self, submissions: Seq<Submission>) -> Self
        decreases submissions.len(),
    {
        if submissions.len() == 0 {
            self
        } else {
            self.after_all(submissions.drop_last()).after(submissions.last())
        }
    }

    /// Returns sent packet count.
    pub fn packets_sent(&self) -> (count: usize)
        ensures
            count == self.packets,
    {
        self.packets
    }

    /// Returns sent byte count.
    pub fn bytes_sent(&self) -> (count: usize)
        ensures
            count == self.bytes,
    {
        self.bytes
    }

    /// Returns sent batch count.
    pub fn batches_sent(&self) -> (count: usize)
        ensures
            count == self.batches,
    {
        self.batches
    }
}

impl TransportSink for FakeTransport {
    type Error = core::convert::Infallible;

    fn send(&mut self, packet: OutboundPacket) -> (result: Result<(), core::convert::Infallible>)
        ensures
            result is Ok,
            *final(self) == old(self).after(Submission::Packet(packet)),
    {
        self.packets = self.packets.saturating_add(1);
        self.bytes = self.bytes.saturating_add(packet.bytes.len());
        Ok(())
    }

    fn send_batch(&mut self, batch: PacketBatch) -> (result: Result<(), core::convert::Infallible>)
        ensures
            result is Ok,
            *final(self) == old(self).after(Submission::Batch(batch)),
    {
        self.batches = self.batches.saturating_add(1);
        self.packets = self.packets.saturating_add(batch.packets.len());
        self.bytes = self.bytes.saturating_add(batch.bytes_len());
        Ok(())
    }
}

/// Over any run the fake transport counts every packet, byte and batch it is given, up to the last
/// value of its counters.
pub proof fn law_fake_counts_add_up(transport: FakeTransport, submissions: Seq<Submission>)
    ensures
        ({
            let (packets, bytes, batches) = submitted(submissions);
            transport.after_all(submissions) == (FakeTransport {
                packets: clamp_usize(transport.packets as nat + packets),
                bytes: clamp_usize(transport.bytes as nat + bytes),
                batches: clamp_usize(transport.batches as nat + batches),
            })
        }),
    decreases submissions.len(),
{
    if submissions.len() > 0 {
        law_fake_counts_add_up(transport, submissions.drop_last());
    }
}

} // verus!
