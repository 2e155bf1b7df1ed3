//! What parallel planning promises: every batch is planned once, in its place, however the work is
//! shared out.

use core::ops::Range;

use vstd::prelude::*;

use crate::event_router::{EventRouter, EventRouterError, StationEventQueue};
use crate::ids::{StationEvent, StationId, Tick};
use crate::packets::{bytes_total, BudgetedTransport, PacketBatch, TransportError, TransportSink};
use crate::parallel::{
    is_plan, is_slot_for, law_every_batch_is_planned, law_partitions_tile_the_items,
    partition_bounds, was_merged, ParallelReplicationScratch, ParallelReplicationView,
    ReplicationThreadPool, ReplicationThreadPoolConfig, StationBatchPlanner,
};
use crate::station_link_laws::keep_other_queues;

verus! {

/// Every output is the plan of the batch at its place, made in a retained slot or a new one.
pub open spec fn plans_each<B, P: StationBatchPlanner<B>>(
    planner: &P,
    batches: Seq<B>,
    retained: Seq<P::Output>,
    outputs: Seq<P::Output>,
) -> bool {
    &&& outputs.len() == batches.len()
    &&& forall|i: int|
        0 <= i < batches.len() ==> plans_one::<B, P>(
            planner,
            batches[i],
            retained,
            i,
            #[trigger] outputs[i],
        )
}

/// The output is the plan of the batch, made in the retained slot at `i` or a new one.
pub open spec fn plans_one<B, P: StationBatchPlanner<B>>(
    planner: &P,
    batch: B,
    retained: Seq<P::Output>,
    i: int,
    output: P::Output,
) -> bool {
    exists|slot: P::Output|
        is_slot_for::<B, P>(planner, retained, i, slot) && #[trigger] is_plan::<B, P>(
            planner,
            batch,
            slot,
            output,
        )
}

/// Planning on several workers yields one plan for every batch, at the batch's place, and the merged
/// statistics of just these plans. No more lanes are kept than there are batches or workers.
pub proof fn law_every_batch_gets_its_plan<B: Sync, P: StationBatchPlanner<B>>(
    pool: &ReplicationThreadPool,
    batches: &[B],
    planner: &P,
)
    requires
        pool.threads > 0,
    ensures
        forall|
            scratch: &mut ParallelReplicationScratch<P::Lane, P::Output>,
            view: ParallelReplicationView<'_, P::Output, P::Stats>,
        |
            #[trigger] call_ensures(
                ReplicationThreadPool::plan_station_batches_into::<B, P>,
                (pool, batches, planner, scratch),
                view,
            ) ==> {
                &&& plans_each::<B, P>(planner, batches@, scratch.batches@, view.batches@)
                &&& exists|stages: Seq<P::Stats>| #[trigger]
                    was_merged::<B, P>(planner, view.batches@, stages) && view.stats
                        == stages.last()
                &&& final(scratch).lanes@.len() <= batches@.len()
                &&& final(scratch).lanes@.len() <= pool.threads
            },
{
    assert forall|
        scratch: &mut ParallelReplicationScratch<P::Lane, P::Output>,
        view: ParallelReplicationView<'_, P::Output, P::Stats>,
    |
        #[trigger] call_ensures(
            ReplicationThreadPool::plan_station_batches_into::<B, P>,
            (pool, batches, planner, scratch),
            view,
        ) implies plans_each::<B, P>(planner, batches@, scratch.batches@, view.batches@) by {
        let count = batches@.len();
        let lanes = crate::parallel::smaller(pool.threads as nat, count);
        let (slots, started) = choose|slots: Seq<P::Output>, started: Seq<P::Lane>|
            {
                &&& slots.len() == count
                &&& started.len() == lanes
                &&& crate::parallel::are_slots::<B, P>(planner, scratch.batches@, slots)
                &&& #[trigger] crate::parallel::lanes_ran::<B, P>(
                    planner,
                    batches@,
                    slots,
                    view.batches@,
                    crate::num::ceil_div(count, lanes) as int,
                    crate::parallel::chunk_count(count, lanes) as int,
                    started,
                    final(scratch).lanes@,
                )
            };
        if count > 0 {
            law_every_batch_is_planned::<B, P>(
                planner,
                batches@,
                slots,
                view.batches@,
                lanes,
                started,
                final(scratch).lanes@,
            );
            assert forall|i: int| 0 <= i < count implies plans_one::<B, P>(
                planner,
                batches@[i],
                scratch.batches@,
                i,
                #[trigger] view.batches@[i],
            ) by {
                assert(is_slot_for::<B, P>(planner, scratch.batches@, i, slots[i]));
                assert(is_plan::<B, P>(planner, batches@[i], slots[i], view.batches@[i]));
            }
        }
    }
}

/// The partitions of a batch lie next to each other, the first at the beginning and the last at the
/// end, and none holds two items more than another.
pub proof fn law_partitions_share_the_items(
    items: usize,
    partitions: usize,
    left: usize,
    right: usize,
    first: Range<usize>,
    second: Range<usize>,
)
    requires
        left < partitions,
        right < partitions,
        call_ensures(partition_bounds, (items, partitions, left), first),
        call_ensures(partition_bounds, (items, partitions, right), second),
    ensures
        first.start <= first.end <= items,
        left == 0 ==> first.start == 0,
        left + 1 == partitions ==> first.end == items,
        left + 1 == right ==> first.end == second.start,
        first.end - first.start <= second.end - second.start + 1,
{
    law_partitions_tile_the_items(items as nat, partitions as nat, left as nat, right as nat);
    law_partitions_tile_the_items(items as nat, partitions as nat, right as nat, left as nat);
    lemma_within(items as nat, partitions as nat, left as nat + 1);
}

proof fn lemma_within(items: nat, partitions: nat, upto: nat)
    requires
        upto <= partitions,
        partitions > 0,
    ensures
        crate::parallel::partition_start(items, partitions, upto) <= items,
    decreases partitions - upto,
{
    if upto < partitions {
        lemma_within(items, partitions, upto + 1);
        law_partitions_tile_the_items(items, partitions, upto, upto);
    } else {
        law_partitions_tile_the_items(items, partitions, 0, 0);
    }
}

/// A pool has at least one worker, and no more than were asked for, than its bound or than the host
/// has. Where no number was asked for it takes half of the host, rounded up, within its bound.
pub proof fn law_pools_stay_within_their_bounds(
    config: ReplicationThreadPoolConfig,
    available: usize,
    threads: usize,
)
    requires
        call_ensures(ReplicationThreadPoolConfig::resolve, (config, available), threads),
    ensures
        threads >= 1,
        available > 0 ==> threads <= available,
        config.max_threads > 0 ==> threads <= config.max_threads,
        config.requested_threads > 0 ==> threads <= config.requested_threads,
        config.requested_threads > 0 && config.requested_threads <= config.max_threads
            && config.requested_threads <= available ==> threads == config.requested_threads,
        config.requested_threads == 0 && available > 0 && available <= config.max_threads
            ==> 2 * threads == available || 2 * threads == available + 1,
        config.requested_threads == 0 && config.max_threads > 0 && 2 * config.max_threads
            <= available ==> threads == config.max_threads,
{
    if config.requested_threads == 0 && available > 0 {
        let half = crate::num::ceil_div(available as nat, 2);
        assert(2 * half == available || 2 * half == available + 1);
    }
}

/// Draining a station asks its own queue for what is ready at the tick, and hands out all of it. No
/// other queue changes, and an unknown station drains nothing.
pub proof fn law_stations_drain_their_own_queue<Q: StationEventQueue>(
    station_id: StationId,
    tick: Tick,
)
    ensures
        forall|
            router: &mut EventRouter<Q>,
            result: Result<Vec<StationEvent>, EventRouterError<Q::Error>>,
        |
            #[trigger] call_ensures(EventRouter::<Q>::drain_ready, (router, station_id, tick), result)
                && router.wf() ==> {
                let key = station_id.0 as u128;
                &&& result is Ok <==> router.queues@.contains_key(key)
                &&& result is Err ==> *final(router) == *router
                &&& keep_other_queues(router.queues@, final(router).queues@, key)
                &&& result matches Ok(ready) ==> exists|
                    queue: &mut Q,
                    storage: &mut Vec<StationEvent>,
                    drained: usize,
                |
                    {
                        &&& #[trigger] call_ensures(
                            Q::drain_ready_into,
                            (queue, tick, storage),
                            drained,
                        )
                        &&& *queue == router.queues@[key]
                        &&& *final(queue) == final(router).queues@[key]
                        &&& storage@.len() == 0
                        &&& final(storage)@ == ready@
                        &&& final(router).stats.drained_events
                            == router.stats.drained_events.saturating_add(drained)
                    }
            },
        forall|
            router: &mut EventRouter<Q>,
            ready: &mut Vec<StationEvent>,
            result: Result<usize, EventRouterError<Q::Error>>,
        |
            #[trigger] call_ensures(
                EventRouter::<Q>::append_ready,
                (router, station_id, tick, ready),
                result,
            ) && router.wf() ==> {
                let key = station_id.0 as u128;
                &&& result is Ok <==> router.queues@.contains_key(key)
                &&& result is Err ==> *final(router) == *router && *final(ready) == *ready
                &&& keep_other_queues(router.queues@, final(router).queues@, key)
            },
{
}

/// A station that registers gets a queue of its own and keeps it, and a station that unregisters loses
/// its queue. No other queue changes.
pub proof fn law_registered_stations_have_a_queue<Q: StationEventQueue>(station_id: StationId)
    ensures
        forall|router: &mut EventRouter<Q>|
            #[trigger] call_ensures(EventRouter::<Q>::register_station, (router, station_id), ())
                && router.wf() ==> {
                let key = station_id.0 as u128;
                &&& final(router).queues@.contains_key(key)
                &&& router.queues@.contains_key(key) ==> final(router).queues@[key]
                    == router.queues@[key]
                &&& forall|other: u128|
                    other != key ==> {
                        &&& #[trigger] final(router).queues@.contains_key(other)
                            <==> router.queues@.contains_key(other)
                        &&& router.queues@.contains_key(other) ==> final(router).queues@[other]
                            == router.queues@[other]
                    }
            },
        forall|router: &mut EventRouter<Q>, dropped: Option<usize>|
            #[trigger] call_ensures(
                EventRouter::<Q>::unregister_station,
                (router, station_id),
                dropped,
            ) && router.wf() ==> {
                let key = station_id.0 as u128;
                &&& dropped is Some <==> router.queues@.contains_key(key)
                &&& forall|other: u128| #[trigger]
                    final(router).queues@.contains_key(other) <==> other != key
                        && router.queues@.contains_key(other)
                &&& forall|other: u128| #[trigger]
                    final(router).queues@.contains_key(other) ==> final(router).queues@[other]
                        == router.queues@[other]
            },
{
}

/// A guarded transport sees a packet only where it keeps to the packet budget, and a batch only where
/// its packets do and its total keeps to the batch budget. It then says what the transport said.
pub proof fn law_budgets_guard_the_transport<T: TransportSink>(batch: PacketBatch)
    requires
        bytes_total(batch.packets@) <= usize::MAX,
    ensures
        forall|transport: &mut BudgetedTransport<T>, result: Result<(), TransportError<T::Error>>|
            #[trigger] call_ensures(
                BudgetedTransport::<T>::send_batch,
                (transport, batch),
                result,
            ) ==> {
                let fits = bytes_total(batch.packets@) <= transport.max_batch_bytes && forall|
                    i: int,
                |
                    0 <= i < batch.packets@.len() ==> (#[trigger] batch.packets@[i]).bytes@.len()
                        <= transport.max_packet_bytes;
                &&& !fits ==> result is Err && final(transport).inner == transport.inner
                &&& fits ==> exists|inner: &mut T, outcome: Result<(), T::Error>|
                    #![trigger call_ensures(T::send_batch, (inner, batch), outcome)]
                    {
                        &&& call_ensures(T::send_batch, (inner, batch), outcome)
                        &&& *inner == transport.inner
                        &&& *final(inner) == final(transport).inner
                        &&& result is Ok <==> outcome is Ok
                    }
            },
{
    assert forall|budget: usize| (#[trigger] crate::packets::oversized(batch.packets@, budget)) is None
        <==> forall|i: int|
        0 <= i < batch.packets@.len() ==> (#[trigger] batch.packets@[i]).bytes@.len() <= budget by {
        lemma_oversized(batch.packets@, budget);
    }
}

proof fn lemma_oversized(packets: Seq<crate::packets::OutboundPacket>, budget: usize)
    ensures
        crate::packets::oversized(packets, budget) is None <==> forall|i: int|
            0 <= i < packets.len() ==> (#[trigger] packets[i]).bytes@.len() <= budget,
    decreases packets.len(),
{
    if packets.len() > 0 {
        let rest = packets.drop_first();
        lemma_oversized(rest, budget);
        if packets[0].bytes@.len() <= budget {
            if forall|i: int| 0 <= i < rest.len() ==> (#[trigger] rest[i]).bytes@.len() <= budget {
                assert forall|i: int| 0 <= i < packets.len() implies (
                #[trigger] packets[i]).bytes@.len() <= budget by {
                    if i > 0 {
                        assert(rest[i - 1] == packets[i]);
                    }
                }
            }
            if forall|i: int|
                0 <= i < packets.len() ==> (#[trigger] packets[i]).bytes@.len() <= budget {
                assert forall|i: int| 0 <= i < rest.len() implies (#[trigger] rest[i]).bytes@.len()
                    <= budget by {
                    assert(rest[i] == packets[i + 1]);
                }
            }
        }
    }
}

} // verus!
