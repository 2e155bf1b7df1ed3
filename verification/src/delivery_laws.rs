//! What reliable delivery promises: every packet is sent, sent again while it waits, given up after
//! its last attempt, released by its acknowledgement, and delivered once.

use vstd::prelude::*;

use crate::ids::{ClientId, StationId};
use crate::lookup_set::{lemma_pair_key_injective, pair_key};
use crate::ordered_map::{ascending, lemma_map_of, map_of};
use crate::pair_history::retained;
use crate::packets::{
    asked, InboundPacket, OutboundPacket, StationInboundPacket, StationOutboundPacket,
    StationTransportSink, TransportSink,
};
use crate::reliable_client::{
    ReliableClientEndpoint, ReliableClientError, ReliableClientRetryScratch, ReliableClientSender,
};
use crate::reliable_frame::{
    decoded_reliable, law_reliable_decode_inverts_encode, LinkKind, ReliableModel,
    ReliableStationDecodeError,
};
use crate::reliable_station::{
    ReliableStationEndpoint, ReliableStationError, ReliableStationRetryScratch,
    ReliableStationSender,
};
use crate::reliable_window::{due_pairs, retry_pass, InFlightPacket, ReliableRetryReport};

verus! {

/// The packet has waited for its acknowledgement at least as long as it should.
pub open spec fn has_waited<R>(packet: InFlightPacket<R>, now: u64, retry_after: u64) -> bool {
    retry_after == 0 || now >= packet.last_sent_tick + retry_after
}

/// The packet as it stands after one more attempt at this tick.
pub open spec fn tried_again<R>(
    before: InFlightPacket<R>,
    after: InFlightPacket<R>,
    now: u64,
) -> bool {
    &&& after.last_sent_tick == now
    &&& after.attempts == before.attempts + 1
    &&& after.route == before.route
    &&& after.peer == before.peer
    &&& after.sequence == before.sequence
    &&& after.payload == before.payload
    &&& after.first_sent_tick == before.first_sent_tick
}

/// Keys of the packets that a pass sends again.
pub open spec fn to_resend<R>(
    packets: Map<u128, InFlightPacket<R>>,
    now: u64,
    retry_after: u64,
    max_attempts: u8,
) -> Set<u128> {
    Set::new(
        |key: u128|
            packets.contains_key(key) && has_waited(packets[key], now, retry_after)
                && packets[key].attempts < max_attempts,
    )
}

/// Keys of the packets that a pass gives up.
pub open spec fn to_drop<R>(
    packets: Map<u128, InFlightPacket<R>>,
    now: u64,
    retry_after: u64,
    max_attempts: u8,
) -> Set<u128> {
    Set::new(
        |key: u128|
            packets.contains_key(key) && has_waited(packets[key], now, retry_after)
                && packets[key].attempts >= max_attempts,
    )
}

/// A pass attends to every packet that has waited: it is tried again, or gone where its attempts are
/// used up. Every other packet stays as it was, and none comes in.
pub open spec fn attends_to_all<R>(
    before: Map<u128, InFlightPacket<R>>,
    after: Map<u128, InFlightPacket<R>>,
    now: u64,
    retry_after: u64,
    max_attempts: u8,
) -> bool {
    forall|key: u128|
        if !before.contains_key(key) {
            !#[trigger] after.contains_key(key)
        } else if !has_waited(before[key], now, retry_after) {
            after.contains_key(key) && after[key] == before[key]
        } else if before[key].attempts >= max_attempts {
            !after.contains_key(key)
        } else {
            after.contains_key(key) && tried_again(before[key], after[key], now)
        }
}

/// A pass that ended early left every packet as it was, or attended to it.
pub open spec fn attends_or_leaves<R>(
    before: Map<u128, InFlightPacket<R>>,
    after: Map<u128, InFlightPacket<R>>,
    now: u64,
    retry_after: u64,
    max_attempts: u8,
) -> bool {
    forall|key: u128|
        if !before.contains_key(key) {
            !#[trigger] after.contains_key(key)
        } else {
            ||| after.contains_key(key) && after[key] == before[key]
            ||| has_waited(before[key], now, retry_after) && before[key].attempts >= max_attempts
                && !after.contains_key(key)
            ||| has_waited(before[key], now, retry_after) && before[key].attempts < max_attempts
                && after.contains_key(key) && tried_again(before[key], after[key], now)
        }
}

/// The entries are those of a window: in ascending order, each packet under its own pair.
spec fn in_order<R>(entries: Seq<(u128, InFlightPacket<R>)>) -> bool {
    &&& ascending(entries)
    &&& forall|i: int|
        0 <= i < entries.len() ==> (#[trigger] entries[i]).0 == pair_key(
            entries[i].1.peer,
            entries[i].1.sequence,
        )
}

/// What a pass over the listed packets does about one key.
spec fn dealt_with<R>(
    packets: Map<u128, InFlightPacket<R>>,
    listed: Map<u128, InFlightPacket<R>>,
    after: Map<u128, InFlightPacket<R>>,
    key: u128,
    now: u64,
    retry_after: u64,
    max_attempts: u8,
) -> bool {
    if !listed.contains_key(key) {
        (after.contains_key(key) <==> packets.contains_key(key)) && (packets.contains_key(key)
            ==> after[key] == packets[key])
    } else if !has_waited(listed[key], now, retry_after) {
        after.contains_key(key) && after[key] == listed[key]
    } else if listed[key].attempts >= max_attempts {
        !after.contains_key(key)
    } else {
        after.contains_key(key) && tried_again(listed[key], after[key], now)
    }
}

proof fn lemma_pass<R>(
    packets: Map<u128, InFlightPacket<R>>,
    entries: Seq<(u128, InFlightPacket<R>)>,
    now: u64,
    retry_after: u64,
    max_attempts: u8,
)
    requires
        in_order(entries),
        forall|i: int|
            0 <= i < entries.len() ==> packets.contains_key((#[trigger] entries[i]).0)
                && packets[entries[i].0] == entries[i].1,
    ensures
        ({
            let listed = map_of(entries);
            let pass = retry_pass(
                packets,
                due_pairs(entries, now, retry_after),
                max_attempts,
                now,
            );
            &&& to_resend(listed, now, retry_after, max_attempts).finite()
            &&& to_drop(listed, now, retry_after, max_attempts).finite()
            &&& pass.1 == to_resend(listed, now, retry_after, max_attempts).len()
            &&& pass.2 == to_drop(listed, now, retry_after, max_attempts).len()
            &&& forall|key: u128| #[trigger]
                dealt_with(packets, listed, pass.0, key, now, retry_after, max_attempts)
        }),
    decreases entries.len(),
{
    if entries.len() == 0 {
        assert(to_resend(map_of(entries), now, retry_after, max_attempts) =~= Set::empty());
        assert(to_drop(map_of(entries), now, retry_after, max_attempts) =~= Set::empty());
    } else {
        let front = entries.drop_last();
        let (key, packet) = entries.last();
        assert(in_order(front)) by {
            assert forall|i: int, j: int| 0 <= i < j < front.len() implies (#[trigger] front[i]).0
                < (#[trigger] front[j]).0 by {
                assert(entries[i].0 < entries[j].0);
            }
            assert forall|i: int| 0 <= i < front.len() implies (#[trigger] front[i]).0 == pair_key(
                front[i].1.peer,
                front[i].1.sequence,
            ) by {
                assert(entries[i].0 == front[i].0);
            }
        }
        assert forall|i: int| 0 <= i < front.len() implies packets.contains_key(
            (#[trigger] front[i]).0,
        ) && packets[front[i].0] == front[i].1 by {
            assert(entries[i] == front[i]);
        }
        lemma_pass(packets, front, now, retry_after, max_attempts);
        lemma_map_of(front);
        lemma_map_of(entries);
        assert(!map_of(front).contains_key(key)) by {
            if map_of(front).contains_key(key) {
                let i = choose|i: int| 0 <= i < front.len() && (#[trigger] front[i]).0 == key;
                assert(entries[i].0 < entries[entries.len() - 1].0);
            }
        }
        assert(entries[entries.len() - 1].0 == pair_key(packet.peer, packet.sequence));
        assert(packets.contains_key(key) && packets[key] == packet);
        let listed = map_of(front);
        let pairs = due_pairs(front, now, retry_after);
        let left = retry_pass(packets, pairs, max_attempts, now).0;
        assert(dealt_with(packets, listed, left, key, now, retry_after, max_attempts));
        assert(left.contains_key(key) && left[key] == packet);
        let resend = to_resend(listed, now, retry_after, max_attempts);
        let dropped = to_drop(listed, now, retry_after, max_attempts);
        if has_waited(packet, now, retry_after) {
            let all = due_pairs(entries, now, retry_after);
            assert(all.drop_last() =~= pairs);
            assert(all.last() == (packet.peer, packet.sequence));
            if packet.attempts < max_attempts {
                assert(to_resend(map_of(entries), now, retry_after, max_attempts)
                    =~= resend.insert(key));
                assert(to_drop(map_of(entries), now, retry_after, max_attempts) =~= dropped);
            } else {
                assert(to_drop(map_of(entries), now, retry_after, max_attempts)
                    =~= dropped.insert(key));
                assert(to_resend(map_of(entries), now, retry_after, max_attempts) =~= resend);
            }
        } else {
            assert(to_resend(map_of(entries), now, retry_after, max_attempts) =~= resend);
            assert(to_drop(map_of(entries), now, retry_after, max_attempts) =~= dropped);
        }
        let after = retry_pass(
            packets,
            due_pairs(entries, now, retry_after),
            max_attempts,
            now,
        ).0;
        assert forall|other: u128| #[trigger]
            dealt_with(packets, map_of(entries), after, other, now, retry_after, max_attempts) by {
            assert(dealt_with(packets, listed, left, other, now, retry_after, max_attempts));
        }
    }
}

proof fn lemma_retained(max_pairs: nat, order: Seq<(u64, u64)>, pair: (u64, u64))
    ensures
        max_pairs > 0 ==> retained(max_pairs, order, pair).contains(pair),
{
    if max_pairs > 0 && !order.contains(pair) {
        let kept = retained(max_pairs, order, pair);
        assert(kept[kept.len() - 1] == pair);
    }
}

proof fn lemma_due_prefix<R>(
    entries: Seq<(u128, InFlightPacket<R>)>,
    now: u64,
    retry_after: u64,
    done: nat,
) -> (upto: int)
    requires
        done <= due_pairs(entries, now, retry_after).len(),
    ensures
        0 <= upto <= entries.len(),
        due_pairs(entries.take(upto), now, retry_after) == due_pairs(entries, now, retry_after).take(
            done as int,
        ),
    decreases entries.len(),
{
    let pairs = due_pairs(entries, now, retry_after);
    if done == pairs.len() {
        assert(entries.take(entries.len() as int) =~= entries);
        assert(pairs.take(done as int) =~= pairs);
        entries.len() as int
    } else {
        let front = entries.drop_last();
        let before = due_pairs(front, now, retry_after);
        assert(before.len() <= pairs.len() <= before.len() + 1);
        let upto = lemma_due_prefix(front, now, retry_after, done);
        assert(front.take(upto) =~= entries.take(upto));
        assert(before.take(done as int) =~= pairs.take(done as int));
        upto
    }
}

/// A due packet is taken at some place of the pass, as it was before the pass.
proof fn lemma_taken<R>(
    packets: Map<u128, InFlightPacket<R>>,
    entries: Seq<(u128, InFlightPacket<R>)>,
    now: u64,
    retry_after: u64,
    max_attempts: u8,
    at: int,
) -> (place: int)
    requires
        in_order(entries),
        packets == map_of(entries),
        0 <= at < entries.len(),
        has_waited(entries[at].1, now, retry_after),
    ensures
        ({
            let pairs = due_pairs(entries, now, retry_after);
            let left = retry_pass(packets, pairs.take(place), max_attempts, now).0;
            &&& 0 <= place < pairs.len()
            &&& pairs[place] == (entries[at].1.peer, entries[at].1.sequence)
            &&& left.contains_key(entries[at].0)
            &&& left[entries[at].0] == entries[at].1
        }),
{
    let part = entries.take(at);
    let pairs = due_pairs(entries, now, retry_after);
    let place = due_pairs(part, now, retry_after).len() as int;
    lemma_due_extends(entries, now, retry_after, at);
    lemma_due_extends(entries, now, retry_after, at + 1);
    assert(entries.take(at + 1).drop_last() =~= part);
    assert(due_pairs(entries.take(at + 1), now, retry_after)[place] == pairs[place]);
    lemma_map_of(entries);
    lemma_map_of_part(entries, at);
    assert forall|i: int| 0 <= i < part.len() implies packets.contains_key(
        (#[trigger] part[i]).0,
    ) && packets[part[i].0] == part[i].1 by {
        assert(entries[i] == part[i]);
    }
    lemma_pass(packets, part, now, retry_after, max_attempts);
    lemma_map_of(part);
    let key = entries[at].0;
    if map_of(part).contains_key(key) {
        let i = choose|i: int| 0 <= i < part.len() && (#[trigger] part[i]).0 == key;
        assert(entries[i].0 < entries[at].0);
    }
    let left = retry_pass(packets, pairs.take(place), max_attempts, now).0;
    assert(dealt_with(packets, map_of(part), left, key, now, retry_after, max_attempts));
    place
}

proof fn lemma_map_of_part<R>(entries: Seq<(u128, InFlightPacket<R>)>, upto: int)
    requires
        in_order(entries),
        0 <= upto <= entries.len(),
    ensures
        in_order(entries.take(upto)),
{
    let part = entries.take(upto);
    assert forall|i: int, j: int| 0 <= i < j < part.len() implies (#[trigger] part[i]).0 < (
    #[trigger] part[j]).0 by {
        assert(entries[i].0 < entries[j].0);
    }
    assert forall|i: int| 0 <= i < part.len() implies (#[trigger] part[i]).0 == pair_key(
        part[i].1.peer,
        part[i].1.sequence,
    ) by {
        assert(entries[i].0 == part[i].0);
    }
}

proof fn lemma_due_extends<R>(
    entries: Seq<(u128, InFlightPacket<R>)>,
    now: u64,
    retry_after: u64,
    upto: int,
)
    requires
        0 <= upto <= entries.len(),
    ensures
        ({
            let part = due_pairs(entries.take(upto), now, retry_after);
            let whole = due_pairs(entries, now, retry_after);
            &&& part.len() <= whole.len()
            &&& whole.take(part.len() as int) == part
        }),
    decreases entries.len(),
{
    let part = due_pairs(entries.take(upto), now, retry_after);
    let whole = due_pairs(entries, now, retry_after);
    if upto == entries.len() {
        assert(entries.take(upto) =~= entries);
        assert(whole.take(part.len() as int) =~= part);
    } else {
        lemma_due_extends(entries.drop_last(), now, retry_after, upto);
        assert(entries.drop_last().take(upto) =~= entries.take(upto));
        let before = due_pairs(entries.drop_last(), now, retry_after);
        assert(whole.take(part.len() as int) =~= before.take(part.len() as int));
    }
}

proof fn lemma_partial_pass<R>(
    packets: Map<u128, InFlightPacket<R>>,
    entries: Seq<(u128, InFlightPacket<R>)>,
    now: u64,
    retry_after: u64,
    max_attempts: u8,
    done: nat,
)
    requires
        in_order(entries),
        packets == map_of(entries),
        done <= due_pairs(entries, now, retry_after).len(),
    ensures
        ({
            let pairs = due_pairs(entries, now, retry_after);
            let after = retry_pass(packets, pairs.take(done as int), max_attempts, now).0;
            &&& attends_or_leaves(packets, after, now, retry_after, max_attempts)
            &&& done == pairs.len() ==> {
                let pass = retry_pass(packets, pairs, max_attempts, now);
                &&& pairs.take(done as int) == pairs
                &&& attends_to_all(packets, pass.0, now, retry_after, max_attempts)
                &&& pass.1 == to_resend(packets, now, retry_after, max_attempts).len()
                &&& pass.2 == to_drop(packets, now, retry_after, max_attempts).len()
            }
        }),
{
    lemma_map_of(entries);
    let pairs = due_pairs(entries, now, retry_after);
    if done == pairs.len() {
        assert(pairs.take(done as int) =~= pairs);
        lemma_pass(packets, entries, now, retry_after, max_attempts);
        let after = retry_pass(packets, pairs, max_attempts, now).0;
        assert forall|key: u128|
            if !packets.contains_key(key) {
                !#[trigger] after.contains_key(key)
            } else if !has_waited(packets[key], now, retry_after) {
                after.contains_key(key) && after[key] == packets[key]
            } else if packets[key].attempts >= max_attempts {
                !after.contains_key(key)
            } else {
                after.contains_key(key) && tried_again(packets[key], after[key], now)
            } by {
            assert(dealt_with(packets, packets, after, key, now, retry_after, max_attempts));
        }
    } else {
        let upto = lemma_due_prefix(entries, now, retry_after, done);
        let part = entries.take(upto);
        assert(in_order(part)) by {
            assert forall|i: int, j: int| 0 <= i < j < part.len() implies (#[trigger] part[i]).0 < (
            #[trigger] part[j]).0 by {
                assert(entries[i].0 < entries[j].0);
            }
            assert forall|i: int| 0 <= i < part.len() implies (#[trigger] part[i]).0 == pair_key(
                part[i].1.peer,
                part[i].1.sequence,
            ) by {
                assert(entries[i].0 == part[i].0);
            }
        }
        assert forall|i: int| 0 <= i < part.len() implies packets.contains_key(
            (#[trigger] part[i]).0,
        ) && packets[part[i].0] == part[i].1 by {
            assert(entries[i] == part[i]);
        }
        lemma_pass(packets, part, now, retry_after, max_attempts);
        lemma_map_of(part);
        let listed = map_of(part);
        let after = retry_pass(packets, pairs.take(done as int), max_attempts, now).0;
        assert forall|key: u128|
            if !packets.contains_key(key) {
                !#[trigger] after.contains_key(key)
            } else {
                ||| after.contains_key(key) && after[key] == packets[key]
                ||| has_waited(packets[key], now, retry_after) && packets[key].attempts
                    >= max_attempts && !after.contains_key(key)
                ||| has_waited(packets[key], now, retry_after) && packets[key].attempts
                    < max_attempts && after.contains_key(key) && tried_again(
                    packets[key],
                    after[key],
                    now,
                )
            } by {
            assert(dealt_with(packets, listed, after, key, now, retry_after, max_attempts));
            if listed.contains_key(key) {
                let i = choose|i: int| 0 <= i < part.len() && (#[trigger] part[i]).0 == key;
                assert(packets.contains_key(part[i].0) && packets[part[i].0] == part[i].1);
            }
        }
    }
}

/// Every packet that a pass to the end sends again goes to its peer as a data frame with its own
/// number and payload.
pub proof fn law_client_retries_send_the_packet_again<T: TransportSink>(now: u64)
    ensures
        forall|
            sender: &mut ReliableClientSender,
            transport: &mut T,
            report: ReliableRetryReport,
            key: u128,
        |
            #![trigger
                call_ensures(
                    ReliableClientSender::retry_due::<T>,
                    (sender, transport, now),
                    Ok::<ReliableRetryReport, ReliableClientError<T::Error>>(report),
                ),
                sender.window@.contains_key(key)
            ]
            call_ensures(
                ReliableClientSender::retry_due::<T>,
                (sender, transport, now),
                Ok::<ReliableRetryReport, ReliableClientError<T::Error>>(report),
            ) && sender.wf() && sender.window@.contains_key(key) && has_waited(
                sender.window@[key],
                now,
                sender.config.retry_after_ticks,
            ) && sender.window@[key].attempts < sender.config.max_attempts
                && sender.window@[key].payload@.len() <= u32::MAX ==> exists|
                sink: &mut T,
                sent: OutboundPacket,
                outcome: Result<(), T::Error>,
            |
                #![trigger call_ensures(T::send, (sink, sent), outcome)]
                {
                    let packet = sender.window@[key];
                    &&& call_ensures(T::send, (sink, sent), outcome)
                    &&& outcome is Ok
                    &&& sent.client_id == packet.route
                    &&& decoded_reliable(LinkKind::Client, sent.bytes@) == Ok::<
                        ReliableModel,
                        ReliableStationDecodeError,
                    >(
                        ReliableModel::Data {
                            sequence: packet.sequence,
                            payload: packet.payload@,
                        },
                    )
                },
{
    assert forall|
        sender: &mut ReliableClientSender,
        transport: &mut T,
        report: ReliableRetryReport,
        key: u128,
    |
        #![trigger
            call_ensures(
                ReliableClientSender::retry_due::<T>,
                (sender, transport, now),
                Ok::<ReliableRetryReport, ReliableClientError<T::Error>>(report),
            ),
            sender.window@.contains_key(key)
        ]
        call_ensures(
            ReliableClientSender::retry_due::<T>,
            (sender, transport, now),
            Ok::<ReliableRetryReport, ReliableClientError<T::Error>>(report),
        ) && sender.wf() && sender.window@.contains_key(key) && has_waited(
            sender.window@[key],
            now,
            sender.config.retry_after_ticks,
        ) && sender.window@[key].attempts < sender.config.max_attempts
            && sender.window@[key].payload@.len() <= u32::MAX implies exists|
        sink: &mut T,
        sent: OutboundPacket,
        outcome: Result<(), T::Error>,
    |
        #![trigger call_ensures(T::send, (sink, sent), outcome)]
        {
            let packet = sender.window@[key];
            &&& call_ensures(T::send, (sink, sent), outcome)
            &&& outcome is Ok
            &&& sent.client_id == packet.route
            &&& decoded_reliable(LinkKind::Client, sent.bytes@) == Ok::<
                ReliableModel,
                ReliableStationDecodeError,
            >(ReliableModel::Data { sequence: packet.sequence, payload: packet.payload@ })
        } by {
        let packet = sender.window@[key];
        let entries = sender.window.in_flight.entries@;
        let due = sender.due(now);
        lemma_map_of(entries);
        assert forall|i: int| 0 <= i < entries.len() implies (#[trigger] entries[i]).0 == pair_key(
            entries[i].1.peer,
            entries[i].1.sequence,
        ) by {
            assert(sender.window@.contains_key(entries[i].0));
        }
        let at = choose|i: int| 0 <= i < entries.len() && (#[trigger] entries[i]).0 == key;
        let place = lemma_taken(
            sender.window@,
            entries,
            now,
            sender.config.retry_after_ticks,
            sender.config.max_attempts,
            at,
        );
        assert(due.take(due.len() as int) =~= due);
        assert(asked(due.take(due.len() as int), place));
        law_reliable_decode_inverts_encode(
            LinkKind::Client,
            ReliableModel::Data { sequence: packet.sequence, payload: packet.payload@ },
        );
    }
}

/// A retry pass to the end attends to every packet that has waited: it is sent again, or given up
/// after its last attempt. The report and the statistics count both.
pub proof fn law_client_retries_attend_to_every_waiting_packet<T: TransportSink>(now: u64)
    ensures
        forall|
            sender: &mut ReliableClientSender,
            transport: &mut T,
            report: ReliableRetryReport,
        | #[trigger]
            call_ensures(
                ReliableClientSender::retry_due::<T>,
                (sender, transport, now),
                Ok::<ReliableRetryReport, ReliableClientError<T::Error>>(report),
            ) && sender.wf() ==> {
                let config = sender.config;
                let before = sender.window@;
                let resend = to_resend(before, now, config.retry_after_ticks, config.max_attempts);
                let dropped = to_drop(before, now, config.retry_after_ticks, config.max_attempts);
                &&& attends_to_all(
                    before,
                    final(sender).window@,
                    now,
                    config.retry_after_ticks,
                    config.max_attempts,
                )
                &&& report.retried == resend.len()
                &&& report.timed_out == dropped.len()
                &&& final(sender).config == config
                &&& final(sender).window.next_sequence == sender.window.next_sequence
                &&& sender.stats.retries_sent + report.retried <= usize::MAX ==> final(sender).stats.retries_sent == sender.stats.retries_sent + report.retried
                &&& sender.stats.timed_out + report.timed_out <= usize::MAX ==> final(sender).stats.timed_out == sender.stats.timed_out + report.timed_out
            },
{
    assert forall|
        sender: &mut ReliableClientSender,
        transport: &mut T,
        report: ReliableRetryReport,
    | #[trigger]
        call_ensures(
            ReliableClientSender::retry_due::<T>,
            (sender, transport, now),
            Ok::<ReliableRetryReport, ReliableClientError<T::Error>>(report),
        ) && sender.wf() implies {
        let config = sender.config;
        let before = sender.window@;
        let resend = to_resend(before, now, config.retry_after_ticks, config.max_attempts);
        let dropped = to_drop(before, now, config.retry_after_ticks, config.max_attempts);
        &&& attends_to_all(
            before,
            final(sender).window@,
            now,
            config.retry_after_ticks,
            config.max_attempts,
        )
        &&& report.retried == resend.len()
        &&& report.timed_out == dropped.len()
        &&& final(sender).config == config
        &&& final(sender).window.next_sequence == sender.window.next_sequence
        &&& sender.stats.retries_sent + report.retried <= usize::MAX ==> final(sender).stats.retries_sent == sender.stats.retries_sent + report.retried
        &&& sender.stats.timed_out + report.timed_out <= usize::MAX ==> final(sender).stats.timed_out == sender.stats.timed_out + report.timed_out
    } by {
        lemma_client_pass(*sender, now, sender.due(now).len());
    }
}

/// The same holds with storage for the scan, whatever it held before.
pub proof fn law_client_retries_with_scratch_attend_to_every_waiting_packet<T: TransportSink>(
    now: u64,
)
    ensures
        forall|
            sender: &mut ReliableClientSender,
            transport: &mut T,
            scratch: &mut ReliableClientRetryScratch,
            report: ReliableRetryReport,
        | #[trigger]
            call_ensures(
                ReliableClientSender::retry_due_with_scratch::<T>,
                (sender, transport, now, scratch),
                Ok::<ReliableRetryReport, ReliableClientError<T::Error>>(report),
            ) && sender.wf() ==> attends_to_all(
                sender.window@,
                final(sender).window@,
                now,
                sender.config.retry_after_ticks,
                sender.config.max_attempts,
            ) && report.retried == to_resend(
                sender.window@,
                now,
                sender.config.retry_after_ticks,
                sender.config.max_attempts,
            ).len() && report.timed_out == to_drop(
                sender.window@,
                now,
                sender.config.retry_after_ticks,
                sender.config.max_attempts,
            ).len(),
        forall|
            sender: &mut ReliableClientSender,
            transport: &mut T,
            scratch: &mut ReliableClientRetryScratch,
            result: Result<ReliableRetryReport, ReliableClientError<T::Error>>,
        | #[trigger]
            call_ensures(
                ReliableClientSender::retry_due_with_scratch::<T>,
                (sender, transport, now, scratch),
                result,
            ) && sender.wf() ==> attends_or_leaves(
                sender.window@,
                final(sender).window@,
                now,
                sender.config.retry_after_ticks,
                sender.config.max_attempts,
            ),
{
    assert forall|
        sender: &mut ReliableClientSender,
        transport: &mut T,
        scratch: &mut ReliableClientRetryScratch,
        result: Result<ReliableRetryReport, ReliableClientError<T::Error>>,
    | #[trigger]
        call_ensures(
            ReliableClientSender::retry_due_with_scratch::<T>,
            (sender, transport, now, scratch),
            result,
        ) && sender.wf() implies attends_or_leaves(
        sender.window@,
        final(sender).window@,
        now,
        sender.config.retry_after_ticks,
        sender.config.max_attempts,
    ) && (result matches Ok(report) ==> attends_to_all(
        sender.window@,
        final(sender).window@,
        now,
        sender.config.retry_after_ticks,
        sender.config.max_attempts,
    ) && report.retried == to_resend(
        sender.window@,
        now,
        sender.config.retry_after_ticks,
        sender.config.max_attempts,
    ).len() && report.timed_out == to_drop(
        sender.window@,
        now,
        sender.config.retry_after_ticks,
        sender.config.max_attempts,
    ).len()) by {
        let done = choose|done: nat| #[trigger]
            final(sender).retried_from(*sender, now, done, result);
        lemma_client_pass(*sender, now, done);
    }
}

proof fn lemma_client_pass(sender: ReliableClientSender, now: u64, done: nat)
    requires
        sender.wf(),
        done <= sender.due(now).len(),
    ensures
        ({
            let config = sender.config;
            let due = sender.due(now);
            let after = retry_pass(
                sender.window@,
                due.take(done as int),
                config.max_attempts,
                now,
            ).0;
            &&& attends_or_leaves(
                sender.window@,
                after,
                now,
                config.retry_after_ticks,
                config.max_attempts,
            )
            &&& done == due.len() ==> {
                let pass = retry_pass(sender.window@, due, config.max_attempts, now);
                &&& due.take(done as int) == due
                &&& attends_to_all(
                    sender.window@,
                    pass.0,
                    now,
                    config.retry_after_ticks,
                    config.max_attempts,
                )
                &&& pass.1 == to_resend(
                    sender.window@,
                    now,
                    config.retry_after_ticks,
                    config.max_attempts,
                ).len()
                &&& pass.2 == to_drop(
                    sender.window@,
                    now,
                    config.retry_after_ticks,
                    config.max_attempts,
                ).len()
            }
        }),
{
    let entries = sender.window.in_flight.entries@;
    lemma_map_of(entries);
    assert forall|i: int| 0 <= i < entries.len() implies (#[trigger] entries[i]).0 == pair_key(
        entries[i].1.peer,
        entries[i].1.sequence,
    ) by {
        assert(sender.window@.contains_key(entries[i].0));
    }
    lemma_partial_pass(
        sender.window@,
        entries,
        now,
        sender.config.retry_after_ticks,
        sender.config.max_attempts,
        done,
    );
}

/// A packet that was sent went to its peer as a data frame with the sequence number that the call
/// returns, and waits for its acknowledgement from then on. The next packet to that peer gets the
/// next number, and nothing changes for other packets and peers.
pub proof fn law_client_packets_are_sent_and_kept<T: TransportSink>(
    packet: OutboundPacket,
    now: u64,
)
    ensures
        forall|sender: &mut ReliableClientSender, transport: &mut T, sequence: u64| #[trigger]
            call_ensures(
                ReliableClientSender::send::<T>,
                (sender, transport, packet, now),
                Ok::<u64, ReliableClientError<T::Error>>(sequence),
            ) && sender.wf() ==> {
                let peer = packet.client_id.0;
                let key = pair_key(peer, sequence);
                let after = final(sender).window@;
                &&& packet.bytes@.len() <= sender.config.max_payload_bytes
                &&& exists|sink: &mut T, sent: OutboundPacket, outcome: Result<(), T::Error>|
                    #![trigger call_ensures(T::send, (sink, sent), outcome)]
                    {
                        &&& call_ensures(T::send, (sink, sent), outcome)
                        &&& outcome is Ok
                        &&& *sink == *transport
                        &&& *final(sink) == *final(transport)
                        &&& sent.client_id == packet.client_id
                        &&& decoded_reliable(LinkKind::Client, sent.bytes@) == Ok::<
                            ReliableModel,
                            ReliableStationDecodeError,
                        >(ReliableModel::Data { sequence, payload: packet.bytes@ })
                    }
                &&& after.contains_key(key)
                &&& after[key].peer == peer
                &&& after[key].sequence == sequence
                &&& after[key].payload == packet.bytes
                &&& after[key].attempts == 1
                &&& after[key].first_sent_tick == now
                &&& after[key].last_sent_tick == now
                &&& after[key].route == packet.client_id
                &&& forall|other: u128|
                    other != key ==> (#[trigger] after.contains_key(other)
                        <==> sender.window@.contains_key(other)) && (sender.window@.contains_key(
                        other,
                    ) ==> after[other] == sender.window@[other])
                &&& sequence < u64::MAX ==> final(sender).window.upcoming(peer) == sequence + 1
                &&& forall|other: u64|
                    other != peer ==> #[trigger] final(sender).window.upcoming(other)
                        == sender.window.upcoming(other)
            },
        forall|
            sender: &mut ReliableClientSender,
            transport: &mut T,
            error: ReliableClientError<T::Error>,
        | #[trigger]
            call_ensures(
                ReliableClientSender::send::<T>,
                (sender, transport, packet, now),
                Err::<u64, ReliableClientError<T::Error>>(error),
            ) && sender.wf() ==> final(sender).window@ == sender.window@ && final(sender).stats
                == sender.stats,
{
    assert forall|sender: &mut ReliableClientSender, transport: &mut T, sequence: u64| #[trigger]
        call_ensures(
            ReliableClientSender::send::<T>,
            (sender, transport, packet, now),
            Ok::<u64, ReliableClientError<T::Error>>(sequence),
        ) && sender.wf() implies {
        let peer = packet.client_id.0;
        let key = pair_key(peer, sequence);
        let after = final(sender).window@;
        &&& packet.bytes@.len() <= sender.config.max_payload_bytes
        &&& exists|sink: &mut T, sent: OutboundPacket, outcome: Result<(), T::Error>|
            #![trigger call_ensures(T::send, (sink, sent), outcome)]
            {
                &&& call_ensures(T::send, (sink, sent), outcome)
                &&& outcome is Ok
                &&& *sink == *transport
                &&& *final(sink) == *final(transport)
                &&& sent.client_id == packet.client_id
                &&& decoded_reliable(LinkKind::Client, sent.bytes@) == Ok::<
                    ReliableModel,
                    ReliableStationDecodeError,
                >(ReliableModel::Data { sequence, payload: packet.bytes@ })
            }
    } by {
        law_reliable_decode_inverts_encode(
            LinkKind::Client,
            ReliableModel::Data { sequence, payload: packet.bytes@ },
        );
    }
}

/// An acknowledgement takes the packet that it names out of flight, and no other; it counts only
/// where the packet waited.
pub proof fn law_client_acknowledgements_release_one_packet(source: ClientId, sequence: u64)
    ensures
        forall|sender: &mut ReliableClientSender, removed: bool| #[trigger]
            call_ensures(
                ReliableClientSender::acknowledge,
                (sender, source, sequence),
                removed,
            ) && sender.wf() ==> {
                let before = sender.window@;
                let after = final(sender).window@;
                &&& !after.contains_key(pair_key(source.0 as u64, sequence))
                &&& removed <==> before.contains_key(pair_key(source.0 as u64, sequence))
                &&& forall|peer: u64, other: u64|
                    (peer, other) != (source.0 as u64, sequence) ==> {
                        let key = #[trigger] pair_key(peer, other);
                        &&& after.contains_key(key) <==> before.contains_key(key)
                        &&& before.contains_key(key) ==> after[key] == before[key]
                    }
                &&& !removed ==> final(sender).stats == sender.stats
                &&& removed && sender.stats.acks_received < usize::MAX ==> final(sender).stats.acks_received == sender.stats.acks_received + 1
            },
{
    assert forall|sender: &mut ReliableClientSender, removed: bool| #[trigger]
        call_ensures(
            ReliableClientSender::acknowledge,
            (sender, source, sequence),
            removed,
        ) && sender.wf() implies forall|peer: u64, other: u64|
        (peer, other) != (source.0 as u64, sequence) ==> {
            let key = #[trigger] pair_key(peer, other);
            &&& final(sender).window@.contains_key(key) <==> sender.window@.contains_key(key)
            &&& sender.window@.contains_key(key) ==> final(sender).window@[key]
                == sender.window@[key]
        } by {
        assert forall|peer: u64, other: u64|
            (peer, other) != (source.0 as u64, sequence) implies #[trigger] pair_key(peer, other)
            != pair_key(source.0 as u64, sequence) by {
            if pair_key(peer, other) == pair_key(source.0 as u64, sequence) {
                lemma_pair_key_injective((peer, other), (source.0 as u64, sequence));
            }
        }
    }
}

/// An inbound data packet is acknowledged to its sender under its own number, and handed on with its
/// payload where it is new. One that the history still holds is acknowledged again and kept back.
/// Where the history holds anything, it holds the packet afterwards.
pub proof fn law_client_data_is_acknowledged_and_delivered_once<T: TransportSink>(
    packet: InboundPacket,
    sequence: u64,
    payload: Seq<u8>,
)
    requires
        packet.client_id is Some,
        decoded_reliable(LinkKind::Client, packet.bytes@) == Ok::<
            ReliableModel,
            ReliableStationDecodeError,
        >(ReliableModel::Data { sequence, payload }),
    ensures
        forall|
            endpoint: &mut ReliableClientEndpoint,
            transport: &mut T,
            delivered: Option<InboundPacket>,
        | #[trigger]
            call_ensures(
                ReliableClientEndpoint::handle_inbound::<T>,
                (endpoint, transport, packet),
                Ok::<Option<InboundPacket>, ReliableClientError<T::Error>>(delivered),
            ) && endpoint.wf() ==> {
                let pair = ((packet.client_id->0).0 as u64, sequence);
                let history = endpoint.receiver.config.max_delivered_history;
                &&& exists|sink: &mut T, sent: OutboundPacket, outcome: Result<(), T::Error>|
                    #![trigger call_ensures(T::send, (sink, sent), outcome)]
                    {
                        &&& call_ensures(T::send, (sink, sent), outcome)
                        &&& outcome is Ok
                        &&& *sink == *transport
                        &&& *final(sink) == *final(transport)
                        &&& sent.client_id == packet.client_id->0
                        &&& decoded_reliable(LinkKind::Client, sent.bytes@) == Ok::<
                            ReliableModel,
                            ReliableStationDecodeError,
                        >(ReliableModel::Ack { sequence })
                    }
                &&& delivered is None <==> history > 0 && endpoint.receiver.delivered@.contains(
                    pair,
                )
                &&& delivered matches Some(inner) ==> inner.bytes@ == payload && inner.client_id
                    == packet.client_id && inner.remote_addr == packet.remote_addr
                &&& history > 0 ==> final(endpoint).receiver.delivered@.contains(pair)
                &&& final(endpoint).sender == endpoint.sender
                &&& delivered is Some && endpoint.receiver.stats.data_delivered < usize::MAX
                    ==> final(endpoint).receiver.stats.data_delivered
                    == endpoint.receiver.stats.data_delivered + 1
                &&& delivered is None && endpoint.receiver.stats.duplicates_suppressed
                    < usize::MAX ==> final(endpoint).receiver.stats.duplicates_suppressed
                    == endpoint.receiver.stats.duplicates_suppressed + 1
            },
{
    assert forall|
        endpoint: &mut ReliableClientEndpoint,
        transport: &mut T,
        delivered: Option<InboundPacket>,
    | #[trigger]
        call_ensures(
            ReliableClientEndpoint::handle_inbound::<T>,
            (endpoint, transport, packet),
            Ok::<Option<InboundPacket>, ReliableClientError<T::Error>>(delivered),
        ) && endpoint.wf() implies {
        let pair = ((packet.client_id->0).0 as u64, sequence);
        let history = endpoint.receiver.config.max_delivered_history;
        &&& exists|sink: &mut T, sent: OutboundPacket, outcome: Result<(), T::Error>|
            #![trigger call_ensures(T::send, (sink, sent), outcome)]
            {
                &&& call_ensures(T::send, (sink, sent), outcome)
                &&& outcome is Ok
                &&& *sink == *transport
                &&& *final(sink) == *final(transport)
                &&& sent.client_id == packet.client_id->0
                &&& decoded_reliable(LinkKind::Client, sent.bytes@) == Ok::<
                    ReliableModel,
                    ReliableStationDecodeError,
                >(ReliableModel::Ack { sequence })
            }
        &&& history > 0 ==> final(endpoint).receiver.delivered@.contains(pair)
    } by {
        law_reliable_decode_inverts_encode(LinkKind::Client, ReliableModel::Ack { sequence });
        lemma_retained(
            endpoint.receiver.config.max_delivered_history as nat,
            endpoint.receiver.delivered@,
            ((packet.client_id->0).0 as u64, sequence),
        );
    }
}

/// Every packet that a pass to the end sends again goes to its peer as a data frame with its own
/// number and payload.
pub proof fn law_station_retries_send_the_packet_again<T: StationTransportSink>(now: u64)
    ensures
        forall|
            sender: &mut ReliableStationSender,
            transport: &mut T,
            report: ReliableRetryReport,
            key: u128,
        |
            #![trigger
                call_ensures(
                    ReliableStationSender::retry_due::<T>,
                    (sender, transport, now),
                    Ok::<ReliableRetryReport, ReliableStationError<T::Error>>(report),
                ),
                sender.window@.contains_key(key)
            ]
            call_ensures(
                ReliableStationSender::retry_due::<T>,
                (sender, transport, now),
                Ok::<ReliableRetryReport, ReliableStationError<T::Error>>(report),
            ) && sender.wf() && sender.window@.contains_key(key) && has_waited(
                sender.window@[key],
                now,
                sender.config.retry_after_ticks,
            ) && sender.window@[key].attempts < sender.config.max_attempts
                && sender.window@[key].payload@.len() <= u32::MAX ==> exists|
                sink: &mut T,
                sent: StationOutboundPacket,
                outcome: Result<(), T::Error>,
            |
                #![trigger call_ensures(T::send_station, (sink, sent), outcome)]
                {
                    let packet = sender.window@[key];
                    &&& call_ensures(T::send_station, (sink, sent), outcome)
                    &&& outcome is Ok
                    &&& sent.source_station == packet.route.source && sent.target_station
                        == packet.route.target
                    &&& decoded_reliable(LinkKind::Station, sent.bytes@) == Ok::<
                        ReliableModel,
                        ReliableStationDecodeError,
                    >(
                        ReliableModel::Data {
                            sequence: packet.sequence,
                            payload: packet.payload@,
                        },
                    )
                },
{
    assert forall|
        sender: &mut ReliableStationSender,
        transport: &mut T,
        report: ReliableRetryReport,
        key: u128,
    |
        #![trigger
            call_ensures(
                ReliableStationSender::retry_due::<T>,
                (sender, transport, now),
                Ok::<ReliableRetryReport, ReliableStationError<T::Error>>(report),
            ),
            sender.window@.contains_key(key)
        ]
        call_ensures(
            ReliableStationSender::retry_due::<T>,
            (sender, transport, now),
            Ok::<ReliableRetryReport, ReliableStationError<T::Error>>(report),
        ) && sender.wf() && sender.window@.contains_key(key) && has_waited(
            sender.window@[key],
            now,
            sender.config.retry_after_ticks,
        ) && sender.window@[key].attempts < sender.config.max_attempts
            && sender.window@[key].payload@.len() <= u32::MAX implies exists|
        sink: &mut T,
        sent: StationOutboundPacket,
        outcome: Result<(), T::Error>,
    |
        #![trigger call_ensures(T::send_station, (sink, sent), outcome)]
        {
            let packet = sender.window@[key];
            &&& call_ensures(T::send_station, (sink, sent), outcome)
            &&& outcome is Ok
            &&& sent.source_station == packet.route.source && sent.target_station
                        == packet.route.target
            &&& decoded_reliable(LinkKind::Station, sent.bytes@) == Ok::<
                ReliableModel,
                ReliableStationDecodeError,
            >(ReliableModel::Data { sequence: packet.sequence, payload: packet.payload@ })
        } by {
        let packet = sender.window@[key];
        let entries = sender.window.in_flight.entries@;
        let due = sender.due(now);
        lemma_map_of(entries);
        assert forall|i: int| 0 <= i < entries.len() implies (#[trigger] entries[i]).0 == pair_key(
            entries[i].1.peer,
            entries[i].1.sequence,
        ) by {
            assert(sender.window@.contains_key(entries[i].0));
        }
        let at = choose|i: int| 0 <= i < entries.len() && (#[trigger] entries[i]).0 == key;
        let place = lemma_taken(
            sender.window@,
            entries,
            now,
            sender.config.retry_after_ticks,
            sender.config.max_attempts,
            at,
        );
        assert(due.take(due.len() as int) =~= due);
        assert(asked(due.take(due.len() as int), place));
        law_reliable_decode_inverts_encode(
            LinkKind::Station,
            ReliableModel::Data { sequence: packet.sequence, payload: packet.payload@ },
        );
    }
}

/// A retry pass to the end attends to every packet that has waited: it is sent again, or given up
/// after its last attempt. The report and the statistics count both.
pub proof fn law_station_retries_attend_to_every_waiting_packet<T: StationTransportSink>(now: u64)
    ensures
        forall|
            sender: &mut ReliableStationSender,
            transport: &mut T,
            report: ReliableRetryReport,
        | #[trigger]
            call_ensures(
                ReliableStationSender::retry_due::<T>,
                (sender, transport, now),
                Ok::<ReliableRetryReport, ReliableStationError<T::Error>>(report),
            ) && sender.wf() ==> {
                let config = sender.config;
                let before = sender.window@;
                let resend = to_resend(before, now, config.retry_after_ticks, config.max_attempts);
                let dropped = to_drop(before, now, config.retry_after_ticks, config.max_attempts);
                &&& attends_to_all(
                    before,
                    final(sender).window@,
                    now,
                    config.retry_after_ticks,
                    config.max_attempts,
                )
                &&& report.retried == resend.len()
                &&& report.timed_out == dropped.len()
                &&& final(sender).config == config
                &&& final(sender).window.next_sequence == sender.window.next_sequence
                &&& sender.stats.retries_sent + report.retried <= usize::MAX ==> final(sender).stats.retries_sent == sender.stats.retries_sent + report.retried
                &&& sender.stats.timed_out + report.timed_out <= usize::MAX ==> final(sender).stats.timed_out == sender.stats.timed_out + report.timed_out
            },
{
    assert forall|
        sender: &mut ReliableStationSender,
        transport: &mut T,
        report: ReliableRetryReport,
    | #[trigger]
        call_ensures(
            ReliableStationSender::retry_due::<T>,
            (sender, transport, now),
            Ok::<ReliableRetryReport, ReliableStationError<T::Error>>(report),
        ) && sender.wf() implies {
        let config = sender.config;
        let before = sender.window@;
        let resend = to_resend(before, now, config.retry_after_ticks, config.max_attempts);
        let dropped = to_drop(before, now, config.retry_after_ticks, config.max_attempts);
        &&& attends_to_all(
            before,
            final(sender).window@,
            now,
            config.retry_after_ticks,
            config.max_attempts,
        )
        &&& report.retried == resend.len()
        &&& report.timed_out == dropped.len()
        &&& final(sender).config == config
        &&& final(sender).window.next_sequence == sender.window.next_sequence
        &&& sender.stats.retries_sent + report.retried <= usize::MAX ==> final(sender).stats.retries_sent == sender.stats.retries_sent + report.retried
        &&& sender.stats.timed_out + report.timed_out <= usize::MAX ==> final(sender).stats.timed_out == sender.stats.timed_out + report.timed_out
    } by {
        lemma_station_pass(*sender, now, sender.due(now).len());
    }
}

/// The same holds with storage for the scan, whatever it held before.
pub proof fn law_station_retries_with_scratch_attend_to_every_waiting_packet<T: StationTransportSink>(
    now: u64,
)
    ensures
        forall|
            sender: &mut ReliableStationSender,
            transport: &mut T,
            scratch: &mut ReliableStationRetryScratch,
            report: ReliableRetryReport,
        | #[trigger]
            call_ensures(
                ReliableStationSender::retry_due_with_scratch::<T>,
                (sender, transport, now, scratch),
                Ok::<ReliableRetryReport, ReliableStationError<T::Error>>(report),
            ) && sender.wf() ==> attends_to_all(
                sender.window@,
                final(sender).window@,
                now,
                sender.config.retry_after_ticks,
                sender.config.max_attempts,
            ) && report.retried == to_resend(
                sender.window@,
                now,
                sender.config.retry_after_ticks,
                sender.config.max_attempts,
            ).len() && report.timed_out == to_drop(
                sender.window@,
                now,
                sender.config.retry_after_ticks,
                sender.config.max_attempts,
            ).len(),
        forall|
            sender: &mut ReliableStationSender,
            transport: &mut T,
            scratch: &mut ReliableStationRetryScratch,
            result: Result<ReliableRetryReport, ReliableStationError<T::Error>>,
        | #[trigger]
            call_ensures(
                ReliableStationSender::retry_due_with_scratch::<T>,
                (sender, transport, now, scratch),
                result,
            ) && sender.wf() ==> attends_or_leaves(
                sender.window@,
                final(sender).window@,
                now,
                sender.config.retry_after_ticks,
                sender.config.max_attempts,
            ),
{
    assert forall|
        sender: &mut ReliableStationSender,
        transport: &mut T,
        scratch: &mut ReliableStationRetryScratch,
        result: Result<ReliableRetryReport, ReliableStationError<T::Error>>,
    | #[trigger]
        call_ensures(
            ReliableStationSender::retry_due_with_scratch::<T>,
            (sender, transport, now, scratch),
            result,
        ) && sender.wf() implies attends_or_leaves(
        sender.window@,
        final(sender).window@,
        now,
        sender.config.retry_after_ticks,
        sender.config.max_attempts,
    ) && (result matches Ok(report) ==> attends_to_all(
        sender.window@,
        final(sender).window@,
        now,
        sender.config.retry_after_ticks,
        sender.config.max_attempts,
    ) && report.retried == to_resend(
        sender.window@,
        now,
        sender.config.retry_after_ticks,
        sender.config.max_attempts,
    ).len() && report.timed_out == to_drop(
        sender.window@,
        now,
        sender.config.retry_after_ticks,
        sender.config.max_attempts,
    ).len()) by {
        let done = choose|done: nat| #[trigger]
            final(sender).retried_from(*sender, now, done, result);
        lemma_station_pass(*sender, now, done);
    }
}

proof fn lemma_station_pass(sender: ReliableStationSender, now: u64, done: nat)
    requires
        sender.wf(),
        done <= sender.due(now).len(),
    ensures
        ({
            let config = sender.config;
            let due = sender.due(now);
            let after = retry_pass(
                sender.window@,
                due.take(done as int),
                config.max_attempts,
                now,
            ).0;
            &&& attends_or_leaves(
                sender.window@,
                after,
                now,
                config.retry_after_ticks,
                config.max_attempts,
            )
            &&& done == due.len() ==> {
                let pass = retry_pass(sender.window@, due, config.max_attempts, now);
                &&& due.take(done as int) == due
                &&& attends_to_all(
                    sender.window@,
                    pass.0,
                    now,
                    config.retry_after_ticks,
                    config.max_attempts,
                )
                &&& pass.1 == to_resend(
                    sender.window@,
                    now,
                    config.retry_after_ticks,
                    config.max_attempts,
                ).len()
                &&& pass.2 == to_drop(
                    sender.window@,
                    now,
                    config.retry_after_ticks,
                    config.max_attempts,
                ).len()
            }
        }),
{
    let entries = sender.window.in_flight.entries@;
    lemma_map_of(entries);
    assert forall|i: int| 0 <= i < entries.len() implies (#[trigger] entries[i]).0 == pair_key(
        entries[i].1.peer,
        entries[i].1.sequence,
    ) by {
        assert(sender.window@.contains_key(entries[i].0));
    }
    lemma_partial_pass(
        sender.window@,
        entries,
        now,
        sender.config.retry_after_ticks,
        sender.config.max_attempts,
        done,
    );
}

/// A packet that was sent went to its peer as a data frame with the sequence number that the call
/// returns, and waits for its acknowledgement from then on. The next packet to that peer gets the
/// next number, and nothing changes for other packets and peers.
pub proof fn law_station_packets_are_sent_and_kept<T: StationTransportSink>(
    packet: StationOutboundPacket,
    now: u64,
)
    ensures
        forall|sender: &mut ReliableStationSender, transport: &mut T, sequence: u64| #[trigger]
            call_ensures(
                ReliableStationSender::send::<T>,
                (sender, transport, packet, now),
                Ok::<u64, ReliableStationError<T::Error>>(sequence),
            ) && sender.wf() ==> {
                let peer = packet.target_station.0 as u64;
                let key = pair_key(peer, sequence);
                let after = final(sender).window@;
                &&& packet.bytes@.len() <= sender.config.max_payload_bytes
                &&& exists|sink: &mut T, sent: StationOutboundPacket, outcome: Result<(), T::Error>|
                    #![trigger call_ensures(T::send_station, (sink, sent), outcome)]
                    {
                        &&& call_ensures(T::send_station, (sink, sent), outcome)
                        &&& outcome is Ok
                        &&& *sink == *transport
                        &&& *final(sink) == *final(transport)
                        &&& sent.source_station == packet.source_station && sent.target_station
                            == packet.target_station
                        &&& decoded_reliable(LinkKind::Station, sent.bytes@) == Ok::<
                            ReliableModel,
                            ReliableStationDecodeError,
                        >(ReliableModel::Data { sequence, payload: packet.bytes@ })
                    }
                &&& after.contains_key(key)
                &&& after[key].peer == peer
                &&& after[key].sequence == sequence
                &&& after[key].payload == packet.bytes
                &&& after[key].attempts == 1
                &&& after[key].first_sent_tick == now
                &&& after[key].last_sent_tick == now
                &&& after[key].route.source == packet.source_station && after[key].route.target
                    == packet.target_station
                &&& forall|other: u128|
                    other != key ==> (#[trigger] after.contains_key(other)
                        <==> sender.window@.contains_key(other)) && (sender.window@.contains_key(
                        other,
                    ) ==> after[other] == sender.window@[other])
                &&& sequence < u64::MAX ==> final(sender).window.upcoming(peer) == sequence + 1
                &&& forall|other: u64|
                    other != peer ==> #[trigger] final(sender).window.upcoming(other)
                        == sender.window.upcoming(other)
            },
        forall|
            sender: &mut ReliableStationSender,
            transport: &mut T,
            error: ReliableStationError<T::Error>,
        | #[trigger]
            call_ensures(
                ReliableStationSender::send::<T>,
                (sender, transport, packet, now),
                Err::<u64, ReliableStationError<T::Error>>(error),
            ) && sender.wf() ==> final(sender).window@ == sender.window@ && final(sender).stats
                == sender.stats,
{
    assert forall|sender: &mut ReliableStationSender, transport: &mut T, sequence: u64| #[trigger]
        call_ensures(
            ReliableStationSender::send::<T>,
            (sender, transport, packet, now),
            Ok::<u64, ReliableStationError<T::Error>>(sequence),
        ) && sender.wf() implies {
        let peer = packet.target_station.0 as u64;
        let key = pair_key(peer, sequence);
        let after = final(sender).window@;
        &&& packet.bytes@.len() <= sender.config.max_payload_bytes
        &&& exists|sink: &mut T, sent: StationOutboundPacket, outcome: Result<(), T::Error>|
            #![trigger call_ensures(T::send_station, (sink, sent), outcome)]
            {
                &&& call_ensures(T::send_station, (sink, sent), outcome)
                &&& outcome is Ok
                &&& *sink == *transport
                &&& *final(sink) == *final(transport)
                &&& sent.source_station == packet.source_station && sent.target_station
                            == packet.target_station
                &&& decoded_reliable(LinkKind::Station, sent.bytes@) == Ok::<
                    ReliableModel,
                    ReliableStationDecodeError,
                >(ReliableModel::Data { sequence, payload: packet.bytes@ })
            }
    } by {
        law_reliable_decode_inverts_encode(
            LinkKind::Station,
            ReliableModel::Data { sequence, payload: packet.bytes@ },
        );
    }
}

/// An acknowledgement takes the packet that it names out of flight, and no other; it counts only
/// where the packet waited.
pub proof fn law_station_acknowledgements_release_one_packet(source: StationId, sequence: u64)
    ensures
        forall|sender: &mut ReliableStationSender, removed: bool| #[trigger]
            call_ensures(
                ReliableStationSender::acknowledge,
                (sender, source, sequence),
                removed,
            ) && sender.wf() ==> {
                let before = sender.window@;
                let after = final(sender).window@;
                &&& !after.contains_key(pair_key(source.0 as u64, sequence))
                &&& removed <==> before.contains_key(pair_key(source.0 as u64, sequence))
                &&& forall|peer: u64, other: u64|
                    (peer, other) != (source.0 as u64, sequence) ==> {
                        let key = #[trigger] pair_key(peer, other);
                        &&& after.contains_key(key) <==> before.contains_key(key)
                        &&& before.contains_key(key) ==> after[key] == before[key]
                    }
                &&& !removed ==> final(sender).stats == sender.stats
                &&& removed && sender.stats.acks_received < usize::MAX ==> final(sender).stats.acks_received == sender.stats.acks_received + 1
            },
{
    assert forall|sender: &mut ReliableStationSender, removed: bool| #[trigger]
        call_ensures(
            ReliableStationSender::acknowledge,
            (sender, source, sequence),
            removed,
        ) && sender.wf() implies forall|peer: u64, other: u64|
        (peer, other) != (source.0 as u64, sequence) ==> {
            let key = #[trigger] pair_key(peer, other);
            &&& final(sender).window@.contains_key(key) <==> sender.window@.contains_key(key)
            &&& sender.window@.contains_key(key) ==> final(sender).window@[key]
                == sender.window@[key]
        } by {
        assert forall|peer: u64, other: u64|
            (peer, other) != (source.0 as u64, sequence) implies #[trigger] pair_key(peer, other)
            != pair_key(source.0 as u64, sequence) by {
            if pair_key(peer, other) == pair_key(source.0 as u64, sequence) {
                lemma_pair_key_injective((peer, other), (source.0 as u64, sequence));
            }
        }
    }
}

/// An inbound data packet is acknowledged to its sender under its own number, and handed on with its
/// payload where it is new. One that the history still holds is acknowledged again and kept back.
/// Where the history holds anything, it holds the packet afterwards.
pub proof fn law_station_data_is_acknowledged_and_delivered_once<T: StationTransportSink>(
    packet: StationInboundPacket,
    sequence: u64,
    payload: Seq<u8>,
)
    requires
        decoded_reliable(LinkKind::Station, packet.bytes@) == Ok::<
            ReliableModel,
            ReliableStationDecodeError,
        >(ReliableModel::Data { sequence, payload }),
    ensures
        forall|
            endpoint: &mut ReliableStationEndpoint,
            transport: &mut T,
            delivered: Option<StationInboundPacket>,
        | #[trigger]
            call_ensures(
                ReliableStationEndpoint::handle_inbound::<T>,
                (endpoint, transport, packet),
                Ok::<Option<StationInboundPacket>, ReliableStationError<T::Error>>(delivered),
            ) && endpoint.wf() ==> {
                let pair = (packet.source_station.0 as u64, sequence);
                let history = endpoint.receiver.config.max_delivered_history;
                &&& exists|sink: &mut T, sent: StationOutboundPacket, outcome: Result<(), T::Error>|
                    #![trigger call_ensures(T::send_station, (sink, sent), outcome)]
                    {
                        &&& call_ensures(T::send_station, (sink, sent), outcome)
                        &&& outcome is Ok
                        &&& *sink == *transport
                        &&& *final(sink) == *final(transport)
                        &&& sent.source_station == packet.target_station && sent.target_station
                            == packet.source_station
                        &&& decoded_reliable(LinkKind::Station, sent.bytes@) == Ok::<
                            ReliableModel,
                            ReliableStationDecodeError,
                        >(ReliableModel::Ack { sequence })
                    }
                &&& delivered is None <==> history > 0 && endpoint.receiver.delivered@.contains(
                    pair,
                )
                &&& delivered matches Some(inner) ==> inner.bytes@ == payload && inner.source_station
                    == packet.source_station && inner.target_station == packet.target_station
                &&& history > 0 ==> final(endpoint).receiver.delivered@.contains(pair)
                &&& final(endpoint).sender == endpoint.sender
                &&& delivered is Some && endpoint.receiver.stats.data_delivered < usize::MAX
                    ==> final(endpoint).receiver.stats.data_delivered
                    == endpoint.receiver.stats.data_delivered + 1
                &&& delivered is None && endpoint.receiver.stats.duplicates_suppressed
                    < usize::MAX ==> final(endpoint).receiver.stats.duplicates_suppressed
                    == endpoint.receiver.stats.duplicates_suppressed + 1
            },
{
    assert forall|
        endpoint: &mut ReliableStationEndpoint,
        transport: &mut T,
        delivered: Option<StationInboundPacket>,
    | #[trigger]
        call_ensures(
            ReliableStationEndpoint::handle_inbound::<T>,
            (endpoint, transport, packet),
            Ok::<Option<StationInboundPacket>, ReliableStationError<T::Error>>(delivered),
        ) && endpoint.wf() implies {
        let pair = (packet.source_station.0 as u64, sequence);
        let history = endpoint.receiver.config.max_delivered_history;
        &&& exists|sink: &mut T, sent: StationOutboundPacket, outcome: Result<(), T::Error>|
            #![trigger call_ensures(T::send_station, (sink, sent), outcome)]
            {
                &&& call_ensures(T::send_station, (sink, sent), outcome)
                &&& outcome is Ok
                &&& *sink == *transport
                &&& *final(sink) == *final(transport)
                &&& sent.source_station == packet.target_station && sent.target_station
                            == packet.source_station
                &&& decoded_reliable(LinkKind::Station, sent.bytes@) == Ok::<
                    ReliableModel,
                    ReliableStationDecodeError,
                >(ReliableModel::Ack { sequence })
            }
        &&& history > 0 ==> final(endpoint).receiver.delivered@.contains(pair)
    } by {
        law_reliable_decode_inverts_encode(LinkKind::Station, ReliableModel::Ack { sequence });
        lemma_retained(
            endpoint.receiver.config.max_delivered_history as nat,
            endpoint.receiver.delivered@,
            (packet.source_station.0 as u64, sequence),
        );
    }
}

} // verus!
