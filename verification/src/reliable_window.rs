//! Send window of a reliable link: sequence numbers per peer, and the packets that wait for an
//! acknowledgement.

use vstd::prelude::*;

use crate::lookup_set::{lemma_pair_key_injective, pack_pair, pair_key};
use crate::ordered_map::{lemma_map_of, OrderedMap};

verus! {

/// Retry pass report.
#[derive(Clone, Copy, Debug, Default, PartialEq, Eq, Structural)]
pub struct ReliableRetryReport {
    /// Packets resent.
    pub retried: usize,
    /// Packets dropped after exhausting attempts.
    pub timed_out: usize,
}

/// A packet that waits for its acknowledgement.
#[derive(Clone, Debug, PartialEq, Eq)]
pub struct InFlightPacket<R> {
    /// Ends of the link that the packet travels.
    pub route: R,
    /// Number of the peer that acknowledges it.
    pub peer: u64,
    /// Sequence number scoped to the peer.
    pub sequence: u64,
    /// Payload to send again.
    pub payload: Vec<u8>,
    /// Tick of the first attempt.
    pub first_sent_tick: u64,
    /// Tick of the latest attempt.
    pub last_sent_tick: u64,
    /// Attempts so far.
    pub attempts: u8,
}

/// Keys of the packets in flight to one peer.
pub open spec fn keys_of_peer<R>(packets: Map<u128, InFlightPacket<R>>, peer: u64) -> Set<u128> {
    Set::new(|key: u128| packets.contains_key(key) && packets[key].peer == peer)
}

/// Whether a packet has waited long enough for another attempt.
pub open spec fn is_due<R>(packet: InFlightPacket<R>, now: u64, after: u64) -> bool {
    now.saturating_sub(packet.last_sent_tick) >= after
}

/// Peer and sequence of the packets that are due, in ascending order.
pub open spec fn due_pairs<R>(
    entries: Seq<(u128, InFlightPacket<R>)>,
    now: u64,
    after: u64,
) -> Seq<(u64, u64)>
    decreases entries.len(),
{
    if entries.len() == 0 {
        Seq::empty()
    } else {
        let rest = due_pairs(entries.drop_last(), now, after);
        let packet = entries.last().1;
        if is_due(packet, now, after) {
            rest.push((packet.peer, packet.sequence))
        } else {
            rest
        }
    }
}

/// A packet after another attempt.
pub open spec fn resent<R>(packet: InFlightPacket<R>, now: u64) -> InFlightPacket<R> {
    InFlightPacket {
        last_sent_tick: now,
        attempts: packet.attempts.saturating_add(1),
        ..packet
    }
}

/// What a retry pass does about one pair: nothing where its packet is gone, a drop where its
/// attempts are used up, another attempt otherwise.
pub open spec fn retry_step<R>(
    packets: Map<u128, InFlightPacket<R>>,
    pair: (u64, u64),
    max_attempts: u8,
    now: u64,
) -> Map<u128, InFlightPacket<R>> {
    let key = pair_key(pair.0, pair.1);
    if !packets.contains_key(key) {
        packets
    } else if packets[key].attempts >= max_attempts {
        packets.remove(key)
    } else {
        packets.insert(key, resent(packets[key], now))
    }
}

/// Whether a retry pass sends the packet of a pair again.
pub open spec fn is_resent<R>(
    packets: Map<u128, InFlightPacket<R>>,
    pair: (u64, u64),
    max_attempts: u8,
) -> bool {
    let key = pair_key(pair.0, pair.1);
    packets.contains_key(key) && packets[key].attempts < max_attempts
}

/// Whether a retry pass drops the packet of a pair.
pub open spec fn is_dropped<R>(
    packets: Map<u128, InFlightPacket<R>>,
    pair: (u64, u64),
    max_attempts: u8,
) -> bool {
    let key = pair_key(pair.0, pair.1);
    packets.contains_key(key) && packets[key].attempts >= max_attempts
}

/// Packets in flight, packets resent and packets dropped after a pass over several pairs.
pub open spec fn retry_pass<R>(
    packets: Map<u128, InFlightPacket<R>>,
    pairs: Seq<(u64, u64)>,
    max_attempts: u8,
    now: u64,
) -> (Map<u128, InFlightPacket<R>>, nat, nat)
    decreases pairs.len(),
{
    if pairs.len() == 0 {
        (packets, 0, 0)
    } else {
        let (left, retried, dropped) = retry_pass(packets, pairs.drop_last(), max_attempts, now);
        (
            retry_step(left, pairs.last(), max_attempts, now),
            if is_resent(left, pairs.last(), max_attempts) {
                retried + 1
            } else {
                retried
            },
            if is_dropped(left, pairs.last(), max_attempts) {
                dropped + 1
            } else {
                dropped
            },
        )
    }
}

/// A retry pass never attempts a packet more often than the limit allows.
pub proof fn law_attempts_are_bounded<R>(
    packets: Map<u128, InFlightPacket<R>>,
    pairs: Seq<(u64, u64)>,
    max_attempts: u8,
    now: u64,
)
    requires
        forall|key: u128| #[trigger]
            packets.contains_key(key) ==> packets[key].attempts <= 1 || packets[key].attempts
                <= max_attempts,
    ensures
        ({
            let after = retry_pass(packets, pairs, max_attempts, now).0;
            forall|key: u128| #[trigger]
                after.contains_key(key) ==> after[key].attempts <= 1 || after[key].attempts
                    <= max_attempts
        }),
    decreases pairs.len(),
{
    if pairs.len() > 0 {
        law_attempts_are_bounded(packets, pairs.drop_last(), max_attempts, now);
        let left = retry_pass(packets, pairs.drop_last(), max_attempts, now).0;
        let after = retry_pass(packets, pairs, max_attempts, now).0;
        assert(after == retry_step(left, pairs.last(), max_attempts, now));
        assert forall|key: u128| #[trigger] after.contains_key(key) implies after[key].attempts <= 1
            || after[key].attempts <= max_attempts by {
            assert(left.contains_key(key));
        }
    }
}

/// A packet that is not in flight, such as an acknowledged one, is never put back by a retry pass.
pub proof fn law_acknowledged_packets_are_not_retried<R>(
    packets: Map<u128, InFlightPacket<R>>,
    pair: (u64, u64),
    pairs: Seq<(u64, u64)>,
    max_attempts: u8,
    now: u64,
)
    requires
        !packets.contains_key(pair_key(pair.0, pair.1)),
    ensures
        ({
            let after = retry_pass(packets, pairs, max_attempts, now).0;
            !after.contains_key(pair_key(pair.0, pair.1)) && !is_resent(after, pair, max_attempts)
        }),
    decreases pairs.len(),
{
    if pairs.len() > 0 {
        law_acknowledged_packets_are_not_retried(
            packets,
            pair,
            pairs.drop_last(),
            max_attempts,
            now,
        );
    }
}

/// A retry pass adds no packet to those in flight.
pub proof fn law_retry_pass_adds_no_packet<R>(
    packets: Map<u128, InFlightPacket<R>>,
    pairs: Seq<(u64, u64)>,
    max_attempts: u8,
    now: u64,
)
    ensures
        retry_pass(packets, pairs, max_attempts, now).0.dom().subset_of(packets.dom()),
    decreases pairs.len(),
{
    if pairs.len() > 0 {
        law_retry_pass_adds_no_packet(packets, pairs.drop_last(), max_attempts, now);
    }
}

/// Send window of one endpoint.
#[derive(Clone, Debug)]
pub struct ReliableWindow<R> {
    /// Sequence number that the next packet to a peer gets.
    pub next_sequence: OrderedMap<u64>,
    /// Packets in flight by peer and sequence.
    pub in_flight: OrderedMap<InFlightPacket<R>>,
    /// Number of packets in flight by peer; a peer without any has no entry.
    pub in_flight_by_peer: OrderedMap<usize>,
}

impl<R> View for ReliableWindow<R> {
    type V = Map<u128, InFlightPacket<R>>;

    open spec fn view(&self) -> Map<u128, InFlightPacket<R>> {
        self.in_flight@
    }
}

proof fn lemma_keys_of_peer_finite<R>(packets: Map<u128, InFlightPacket<R>>, peer: u64)
    requires
        packets.dom().finite(),
    ensures
        keys_of_peer(packets, peer).finite(),
        keys_of_peer(packets, peer).len() <= packets.dom().len(),
{
    assert(keys_of_peer(packets, peer).subset_of(packets.dom()));
    vstd::set_lib::lemma_len_subset(keys_of_peer(packets, peer), packets.dom());
}

impl<R> ReliableWindow<R> {
    /// Every packet stands under its own pair, and the counts are those of the packets.
    pub open spec fn wf(self) -> bool {
        &&& self.next_sequence.wf()
        &&& self.in_flight.wf()
        &&& self.in_flight_by_peer.wf()
        &&& forall|key: u128| #[trigger]
            self.in_flight@.contains_key(key) ==> key == pair_key(
                self.in_flight@[key].peer,
                self.in_flight@[key].sequence,
            )
        &&& forall|peer: u64|
            (#[trigger] keys_of_peer(self.in_flight@, peer)).len() == (
            if self.in_flight_by_peer@.contains_key(peer as u128) {
                self.in_flight_by_peer@[peer as u128] as nat
            } else {
                0
            })
        &&& forall|key: u128| #[trigger]
            self.in_flight_by_peer@.contains_key(key) ==> self.in_flight_by_peer@[key] > 0
    }

    /// At most `limit` packets are in flight to any peer.
    pub open spec fn bounded(self, limit: nat) -> bool {
        forall|peer: u64| (#[trigger] keys_of_peer(self.in_flight@, peer)).len() <= limit
    }

    /// Number of packets in flight to one peer.
    pub open spec fn count(self, peer: u64) -> nat {
        keys_of_peer(self.in_flight@, peer).len()
    }

    /// Sequence number of the next packet to one peer.
    pub open spec fn upcoming(self, peer: u64) -> u64 {
        if self.next_sequence@.contains_key(peer as u128) {
            self.next_sequence@[peer as u128]
        } else {
            1
        }
    }

    /// Creates an empty window.
    pub fn new() -> (window: Self)
        ensures
            window.wf(),
            window@ == Map::<u128, InFlightPacket<R>>::empty(),
            window.next_sequence@ == Map::<u128, u64>::empty(),
            window.bounded(0),
    {
        let window = Self {
            next_sequence: OrderedMap::new(),
            in_flight: OrderedMap::new(),
            in_flight_by_peer: OrderedMap::new(),
        };
        assert forall|peer: u64| (#[trigger] keys_of_peer(window.in_flight@, peer)).len() == 0 by {
            assert(keys_of_peer(window.in_flight@, peer) =~= Set::empty());
        }
        window
    }

    /// Returns the number of packets in flight.
    pub fn len(&self) -> (count: usize)
        requires
            self.wf(),
        ensures
            count == self@.dom().len(),
    {
        self.in_flight.len()
    }

    /// Returns the number of packets in flight to one peer.
    pub fn count_for(&self, peer: u64) -> (count: usize)
        requires
            self.wf(),
        ensures
            count == self.count(peer),
    {
        proof {
            assert(keys_of_peer(self.in_flight@, peer).len() == self.count(peer));
        }
        match self.in_flight_by_peer.get(peer as u128) {
            Some(count) => *count,
            None => 0,
        }
    }

    /// Hands out the next sequence number for a peer.
    pub fn allocate_sequence(&mut self, peer: u64) -> (sequence: u64)
        requires
            old(self).wf(),
        ensures
            final(self).wf(),
            sequence == old(self).upcoming(peer),
            final(self).next_sequence@ == old(self).next_sequence@.insert(
                peer as u128,
                sequence.saturating_add(1),
            ),
            final(self)@ == old(self)@,
            final(self).in_flight.entries@ == old(self).in_flight.entries@,
            forall|limit: nat| #[trigger] old(self).bounded(limit) ==> final(self).bounded(limit),
    {
        let sequence: u64 = match self.next_sequence.get(peer as u128) {
            Some(next) => *next,
            None => 1,
        };
        self.next_sequence.insert(peer as u128, sequence.saturating_add(1));
        sequence
    }

    /// Puts a packet in flight.
    pub fn insert_in_flight(&mut self, packet: InFlightPacket<R>)
        requires
            old(self).wf(),
        ensures
            final(self).wf(),
            final(self)@ == old(self)@.insert(pair_key(packet.peer, packet.sequence), packet),
            final(self).next_sequence == old(self).next_sequence,
            forall|limit: nat| #[trigger]
                old(self).bounded(limit) && old(self).count(packet.peer) < limit ==> final(self)
                    .bounded(limit),
    {
        let key: u128 = pack_pair(packet.peer, packet.sequence);
        let peer: u64 = packet.peer;
        let ghost before = self.in_flight@;
        let ghost counts = self.in_flight_by_peer@;
        let ghost sequence = packet.sequence;
        proof {
            lemma_map_of(self.in_flight.entries@);
        }
        let previous = self.in_flight.insert(key, packet);
        let ghost after = self.in_flight@;
        proof {
            lemma_map_of(self.in_flight.entries@);
            if before.contains_key(key) {
                lemma_pair_key_injective(
                    (before[key].peer, before[key].sequence),
                    (peer, sequence),
                );
            }
            assert forall|other: u64| #[trigger] keys_of_peer(after, other) == (if other == peer {
                keys_of_peer(before, other).insert(key)
            } else {
                keys_of_peer(before, other)
            }) by {
                assert(keys_of_peer(after, other) =~= (if other == peer {
                    keys_of_peer(before, other).insert(key)
                } else {
                    keys_of_peer(before, other)
                }));
            }
            lemma_keys_of_peer_finite(before, peer);
            lemma_keys_of_peer_finite(after, peer);
            assert(keys_of_peer(after, peer) == keys_of_peer(before, peer).insert(key));
        }
        if previous.is_none() {
            assert(self.in_flight.entries@.len() == self.in_flight.entries.len());
            let count: usize = match self.in_flight_by_peer.get(peer as u128) {
                Some(count) => *count,
                None => 0,
            };
            assert(keys_of_peer(before, peer).len() == count);
            self.in_flight_by_peer.insert(peer as u128, count + 1);
            assert forall|other: u64|
                (#[trigger] keys_of_peer(self.in_flight@, other)).len() == (
                if self.in_flight_by_peer@.contains_key(other as u128) {
                    self.in_flight_by_peer@[other as u128] as nat
                } else {
                    0
                }) by {
                assert(keys_of_peer(before, other).len() == (if counts.contains_key(other as u128) {
                    counts[other as u128] as nat
                } else {
                    0
                }));
            }
        } else {
            assert forall|other: u64|
                (#[trigger] keys_of_peer(self.in_flight@, other)).len() == (
                if self.in_flight_by_peer@.contains_key(other as u128) {
                    self.in_flight_by_peer@[other as u128] as nat
                } else {
                    0
                }) by {
                assert(keys_of_peer(before, other).contains(key) || other != peer);
                assert(keys_of_peer(before, other).insert(key) =~= keys_of_peer(before, other)
                    || other != peer);
            }
        }
    }

    /// Takes a packet out of flight.
    pub fn remove_in_flight(&mut self, peer: u64, sequence: u64) -> (removed: Option<
        InFlightPacket<R>,
    >)
        requires
            old(self).wf(),
        ensures
            final(self).wf(),
            final(self)@ == old(self)@.remove(pair_key(peer, sequence)),
            final(self).next_sequence == old(self).next_sequence,
            match removed {
                Some(packet) => old(self)@.contains_key(pair_key(peer, sequence)) && packet == old(
                    self,
                )@[pair_key(peer, sequence)],
                None => !old(self)@.contains_key(pair_key(peer, sequence)),
            },
            forall|limit: nat| #[trigger] old(self).bounded(limit) ==> final(self).bounded(limit),
    {
        let key: u128 = pack_pair(peer, sequence);
        let ghost before = self.in_flight@;
        let ghost counts = self.in_flight_by_peer@;
        proof {
            lemma_map_of(self.in_flight.entries@);
        }
        let removed = self.in_flight.remove(key);
        let ghost after = self.in_flight@;
        if removed.is_none() {
            assert(after =~= before);
            return removed;
        }
        proof {
            lemma_pair_key_injective((before[key].peer, before[key].sequence), (peer, sequence));
            assert forall|other: u64| #[trigger] keys_of_peer(after, other) == (if other == peer {
                keys_of_peer(before, other).remove(key)
            } else {
                keys_of_peer(before, other)
            }) by {
                assert(keys_of_peer(after, other) =~= (if other == peer {
                    keys_of_peer(before, other).remove(key)
                } else {
                    keys_of_peer(before, other)
                }));
            }
            lemma_keys_of_peer_finite(before, peer);
            assert(keys_of_peer(before, peer).contains(key));
            assert(keys_of_peer(before, peer).len() > 0);
        }
        let count: usize = match self.in_flight_by_peer.get(peer as u128) {
            Some(count) => *count,
            None => 0,
        };
        assert(keys_of_peer(before, peer).len() == count);
        if count <= 1 {
            self.in_flight_by_peer.remove(peer as u128);
        } else {
            self.in_flight_by_peer.insert(peer as u128, count - 1);
        }
        assert forall|other: u64|
            (#[trigger] keys_of_peer(self.in_flight@, other)).len() == (
            if self.in_flight_by_peer@.contains_key(other as u128) {
                self.in_flight_by_peer@[other as u128] as nat
            } else {
                0
            }) by {
            assert(keys_of_peer(before, other).len() == (if counts.contains_key(other as u128) {
                counts[other as u128] as nat
            } else {
                0
            }));
        }
        removed
    }

    /// Notes another attempt at a packet in flight.
    pub fn mark_resent(&mut self, peer: u64, sequence: u64, now: u64)
        requires
            old(self).wf(),
            old(self)@.contains_key(pair_key(peer, sequence)),
        ensures
            final(self).wf(),
            final(self)@ == old(self)@.insert(
                pair_key(peer, sequence),
                resent(old(self)@[pair_key(peer, sequence)], now),
            ),
            final(self).next_sequence == old(self).next_sequence,
            forall|limit: nat| #[trigger] old(self).bounded(limit) ==> final(self).bounded(limit),
    {
        let key: u128 = pack_pair(peer, sequence);
        let ghost before = self.in_flight@;
        if let Some(stored) = self.in_flight.get_mut(key) {
            stored.last_sent_tick = now;
            stored.attempts = stored.attempts.saturating_add(1);
        }
        let ghost after = self.in_flight@;
        assert(after =~= before.insert(key, resent(before[key], now)));
        assert forall|other: u64| #[trigger] keys_of_peer(after, other) == keys_of_peer(
            before,
            other,
        ) by {
            assert(keys_of_peer(after, other) =~= keys_of_peer(before, other));
        }
    }

    /// Borrows a packet in flight.
    pub fn packet(&self, peer: u64, sequence: u64) -> (packet: Option<&InFlightPacket<R>>)
        requires
            self.wf(),
        ensures
            match packet {
                Some(packet) => {
                    &&& self@.contains_key(pair_key(peer, sequence))
                    &&& *packet == self@[pair_key(peer, sequence)]
                    &&& packet.peer == peer
                    &&& packet.sequence == sequence
                },
                None => !self@.contains_key(pair_key(peer, sequence)),
            },
    {
        let key: u128 = pack_pair(peer, sequence);
        proof {
            if self@.contains_key(key) {
                lemma_pair_key_injective((self@[key].peer, self@[key].sequence), (peer, sequence));
            }
        }
        self.in_flight.get(key)
    }

    /// Collects the pairs whose packets are due.
    pub fn collect_due(&self, now: u64, after: u64, pairs: &mut Vec<(u64, u64)>)
        ensures
            final(pairs)@ == due_pairs(self.in_flight.entries@, now, after),
    {
        pairs.clear();
        let mut index: usize = 0;
        assert(self.in_flight.entries@.take(0) =~= Seq::empty());
        while index < self.in_flight.entries.len()
            invariant
                index <= self.in_flight.entries@.len(),
                pairs@ == due_pairs(self.in_flight.entries@.take(index as int), now, after),
            decreases self.in_flight.entries@.len() - index,
        {
            let packet = &self.in_flight.entries[index].1;
            assert(self.in_flight.entries@.take(index + 1).drop_last()
                =~= self.in_flight.entries@.take(index as int));
            if now.saturating_sub(packet.last_sent_tick) >= after {
                pairs.push((packet.peer, packet.sequence));
            }
            index = index + 1;
        }
        assert(self.in_flight.entries@.take(index as int) =~= self.in_flight.entries@);
    }
}

} // verus!
