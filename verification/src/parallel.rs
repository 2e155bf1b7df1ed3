//! Explicit, bounded parallel replication planning.

use std::ops::Range;

use rayon::iter::{IntoParallelIterator, ParallelIterator};
use vstd::prelude::*;
use vstd::string::StringExecFns;

use crate::num::{ceil_div, clamp_usize, div_ceil_usize, min_usize};

verus! {

/// Worker pool of the `rayon` crate.
#[verifier::external_type_specification]
#[verifier::external_body]
pub struct ExThreadPool(rayon::ThreadPool);

/// Configuration for an explicitly created replication planning thread pool.
#[derive(Clone, Copy, Debug, PartialEq, Eq, Structural)]
pub struct ReplicationThreadPoolConfig {
    /// Requested workers. Zero selects half of host logical parallelism.
    pub requested_threads: usize,
    /// Upper bound applied after host parallelism is detected.
    pub max_threads: usize,
}

impl Default for ReplicationThreadPoolConfig {
    fn default() -> (config: Self)
        ensures
            config == (ReplicationThreadPoolConfig { requested_threads: 0, max_threads: 8 }),
    {
        Self { requested_threads: 0, max_threads: 8 }
    }
}

/// The larger of two sizes.
pub open spec fn larger(left: nat, right: nat) -> nat {
    if left >= right {
        left
    } else {
        right
    }
}

/// The smaller of two sizes.
pub open spec fn smaller(left: nat, right: nat) -> nat {
    if left <= right {
        left
    } else {
        right
    }
}

impl ReplicationThreadPoolConfig {
    /// Creates an explicit bounded configuration.
    pub fn new(requested_threads: usize, max_threads: usize) -> (config: Self)
        ensures
            config == (ReplicationThreadPoolConfig { requested_threads, max_threads }),
    {
        Self { requested_threads, max_threads }
    }

    /// Workers that a host gets: the requested ones, or half of the host's, rounded up; at least
    /// one, and no more than the bound or the host allow.
    pub open spec fn resolved(self, available: usize) -> nat {
        let host = larger(available as nat, 1);
        let requested = if self.requested_threads == 0 {
            ceil_div(host, 2)
        } else {
            self.requested_threads as nat
        };
        smaller(requested, smaller(larger(self.max_threads as nat, 1), host))
    }

    /// Returns the number of workers for a host with `available` logical processors.
    pub fn resolve(self, available: usize) -> (threads: usize)
        ensures
            threads == self.resolved(available),
            threads >= 1,
            threads <= larger(available as nat, 1),
            threads <= larger(self.max_threads as nat, 1),
    {
        let host: usize = if available >= 1 {
            available
        } else {
            1
        };
        let requested: usize = if self.requested_threads == 0 {
            div_ceil_usize(host, 2)
        } else {
            self.requested_threads
        };
        let bound: usize = if self.max_threads >= 1 {
            self.max_threads
        } else {
            1
        };
        min_usize(requested, min_usize(bound, host))
    }
}

/// Items in a partition: the first ones hold one more where the items do not divide evenly.
pub open spec fn partition_len(items: nat, partitions: nat, partition: nat) -> nat {
    if partition < items % partitions {
        items / partitions + 1
    } else {
        items / partitions
    }
}

/// Items before a partition.
pub open spec fn partition_start(items: nat, partitions: nat, partition: nat) -> nat
    decreases partition,
{
    if partition == 0 {
        0
    } else {
        partition_start(items, partitions, (partition - 1) as nat) + partition_len(
            items,
            partitions,
            (partition - 1) as nat,
        )
    }
}

proof fn lemma_partition_start(items: nat, partitions: nat, partition: nat)
    requires
        partitions > 0,
        partition <= partitions,
    ensures
        partition_start(items, partitions, partition) == partition * (items / partitions) + smaller(
            partition,
            items % partitions,
        ),
        partition_start(items, partitions, partition) <= items,
        partition_start(items, partitions, partitions) == items,
    decreases partitions - partition,
{
    lemma_start_formula(items, partitions, partition);
    lemma_start_formula(items, partitions, partitions);
    let base = items / partitions;
    let rest = items % partitions;
    assert(rest < partitions && partitions * base + rest == items) by (nonlinear_arith)
        requires
            partitions > 0,
            base == items / partitions,
            rest == items % partitions,
    ;
    assert(partition * base <= partitions * base) by (nonlinear_arith)
        requires
            partition <= partitions,
    ;
}

proof fn lemma_start_formula(items: nat, partitions: nat, partition: nat)
    requires
        partitions > 0,
    ensures
        partition_start(items, partitions, partition) == partition * (items / partitions) + smaller(
            partition,
            items % partitions,
        ),
    decreases partition,
{
    let base = items / partitions;
    if partition > 0 {
        let before = (partition - 1) as nat;
        lemma_start_formula(items, partitions, before);
        assert(partition * base == before * base + base) by (nonlinear_arith)
            requires
                partition == before + 1,
        ;
    } else {
        assert(partition * base == 0) by (nonlinear_arith)
            requires
                partition == 0,
        ;
    }
}

/// Returns the items of one of several near-equal contiguous partitions.
pub fn partition_bounds(items: usize, partitions: usize, partition: usize) -> (bounds: Range<usize>)
    requires
        partition < partitions,
    ensures
        bounds.start == partition_start(items as nat, partitions as nat, partition as nat),
        bounds.end == partition_start(items as nat, partitions as nat, partition as nat + 1),
{
    let base: usize = items / partitions;
    let remainder: usize = items % partitions;
    proof {
        lemma_partition_start(items as nat, partitions as nat, partition as nat);
        lemma_partition_start(items as nat, partitions as nat, partition as nat + 1);
        assert(partition * base <= items) by (nonlinear_arith)
            requires
                partition * base + smaller(partition as nat, remainder as nat) <= items,
        ;
    }
    let start: usize = partition * base + min_usize(partition, remainder);
    let len: usize = if partition < remainder {
        base + 1
    } else {
        base
    };
    Range { start, end: start + len }
}

/// The partitions of a batch follow each other without gap, from its first item to its last, and no
/// partition holds two items more than another.
pub proof fn law_partitions_tile_the_items(
    items: nat,
    partitions: nat,
    left: nat,
    right: nat,
)
    requires
        left < partitions,
        right < partitions,
    ensures
        partition_start(items, partitions, 0) == 0,
        partition_start(items, partitions, left + 1) == partition_start(items, partitions, left)
            + partition_len(items, partitions, left),
        partition_start(items, partitions, partitions) == items,
        partition_len(items, partitions, left) <= partition_len(items, partitions, right) + 1,
{
    lemma_partition_start(items, partitions, left);
}

/// Number of contiguous chunks that the items fall into.
pub open spec fn chunk_count(items: nat, retained_lanes: nat) -> nat {
    if retained_lanes == 0 {
        0
    } else {
        ceil_div(items, ceil_div(items, retained_lanes))
    }
}

proof fn lemma_ceil_div(count: nat, size: nat)
    requires
        size > 0,
    ensures
        count > 0 ==> ceil_div(count, size) > 0,
        ceil_div(count, size) * size >= count,
        count > 0 ==> (ceil_div(count, size) - 1) * size < count,
        ceil_div(count, size) <= count,
{
    let whole = count / size;
    let rest = count % size;
    assert(count == whole * size + rest && rest < size) by (nonlinear_arith)
        requires
            size > 0,
            whole == count / size,
            rest == count % size,
    ;
    let groups = ceil_div(count, size);
    if rest == 0 {
        assert((groups - 1) * size == groups * size - size) by (nonlinear_arith);
        assert(groups <= groups * size) by (nonlinear_arith)
            requires
                size > 0,
        ;
        if count > 0 && groups == 0 {
            assert(groups * size == 0) by (nonlinear_arith)
                requires
                    groups == 0,
            ;
        }
    } else {
        assert(groups * size == whole * size + size) by (nonlinear_arith)
            requires
                groups == whole + 1,
        ;
        assert((groups - 1) * size == whole * size) by (nonlinear_arith)
            requires
                groups == whole + 1,
        ;
        assert(whole <= whole * size) by (nonlinear_arith)
            requires
                size > 0,
        ;
    }
}

/// No more chunks are formed than lanes are retained, and some chunk is formed where there are
/// items.
pub proof fn law_chunks_fit_the_lanes(items: nat, retained_lanes: nat)
    requires
        0 < items,
    ensures
        chunk_count(items, retained_lanes) <= retained_lanes,
        retained_lanes > 0 ==> chunk_count(items, retained_lanes) > 0,
{
    if retained_lanes > 0 {
        let size = ceil_div(items, retained_lanes);
        lemma_ceil_div(items, retained_lanes);
        lemma_ceil_div(items, size);
        let chunks = ceil_div(items, size);
        if chunks > retained_lanes {
            assert((chunks - 1) * size >= retained_lanes * size) by (nonlinear_arith)
                requires
                    chunks > retained_lanes,
                    size > 0,
            ;
            assert(retained_lanes * size == size * retained_lanes) by (nonlinear_arith);
        }
    }
}

/// Returns the number of logical lanes that the chunks of a batch use.
pub fn chunked_logical_lanes(items: usize, retained_lanes: usize) -> (lanes: usize)
    requires
        retained_lanes > 0 ==> items > 0,
    ensures
        lanes == chunk_count(items as nat, retained_lanes as nat),
        lanes <= retained_lanes,
{
    if retained_lanes == 0 {
        0
    } else {
        proof {
            law_chunks_fit_the_lanes(items as nat, retained_lanes as nat);
            lemma_ceil_div(items as nat, retained_lanes as nat);
        }
        div_ceil_usize(items, div_ceil_usize(items, retained_lanes))
    }
}

/// Decimal digits of a number.
pub open spec fn decimal(value: nat) -> Seq<char>
    decreases value,
{
    if value < 10 {
        seq![digit(value)]
    } else {
        decimal(value / 10).push(digit(value % 10))
    }
}

/// Decimal digit of a number below ten.
pub open spec fn digit(value: nat) -> char {
    if value == 0 {
        '0'
    } else if value == 1 {
        '1'
    } else if value == 2 {
        '2'
    } else if value == 3 {
        '3'
    } else if value == 4 {
        '4'
    } else if value == 5 {
        '5'
    } else if value == 6 {
        '6'
    } else if value == 7 {
        '7'
    } else if value == 8 {
        '8'
    } else {
        '9'
    }
}

fn digit_text(value: usize) -> (text: &'static str)
    requires
        value < 10,
    ensures
        text@ == seq![digit(value as nat)],
{
    proof {
        reveal_strlit("0");
        reveal_strlit("1");
        reveal_strlit("2");
        reveal_strlit("3");
        reveal_strlit("4");
        reveal_strlit("5");
        reveal_strlit("6");
        reveal_strlit("7");
        reveal_strlit("8");
        reveal_strlit("9");
    }
    let text = match value {
        0 => "0",
        1 => "1",
        2 => "2",
        3 => "3",
        4 => "4",
        5 => "5",
        6 => "6",
        7 => "7",
        8 => "8",
        _ => "9",
    };
    assert(text@ =~= seq![digit(value as nat)]);
    text
}

fn append_decimal(text: &mut String, value: usize)
    ensures
        final(text)@ == old(text)@ + decimal(value as nat),
    decreases value,
{
    if value >= 10 {
        append_decimal(text, value / 10);
    }
    text.append(digit_text(value % 10));
    assert(text@ =~= old(text)@ + decimal(value as nat));
}

/// Returns the name of a worker thread.
pub fn worker_name(index: usize) -> (name: String)
    ensures
        name@ == "sectorsync-replication-"@ + decimal(index as nat),
{
    let mut name: String = String::from_str("sectorsync-replication-");
    append_decimal(&mut name, index);
    name
}

/// Error returned when the explicit worker pool cannot be created.
#[derive(Clone, Debug, PartialEq, Eq)]
pub struct ReplicationThreadPoolBuildError {
    /// What the pool builder reports.
    pub message: String,
}

/// Largest number of workers that a pool gets in full on every machine.
pub const PORTABLE_POOL_THREADS: usize = 255;

/// Workers of a pool, as `rayon::ThreadPool::current_num_threads` counts them.
pub uninterp spec fn pool_workers(pool: rayon::ThreadPool) -> nat;

/// Calls `rayon::ThreadPoolBuilder::build` for a pool of `threads` workers, named by
/// [`worker_name`]. Claimed: a pool that is built has that many workers, or fewer where `threads` is
/// over what the pool can count on this machine. Whether the host can start the workers is known
/// only when it tries, so nothing is claimed of when the call succeeds. A failure is handed back as
/// the text that the builder's error displays.
#[verifier::external_body]
fn build_pool(threads: usize) -> (result: Result<rayon::ThreadPool, String>)
    requires
        threads >= 1,
    ensures
        result matches Ok(pool) ==> 1 <= pool_workers(pool) <= threads,
        result matches Ok(pool) ==> threads <= PORTABLE_POOL_THREADS ==> pool_workers(pool)
            == threads,
{
    rayon::ThreadPoolBuilder::new()
        .num_threads(threads)
        .thread_name(|index| worker_name(index))
        .build()
        .map_err(|error| error.to_string())
}

/// The pool has this many workers, or as many of them as it can count.
pub open spec fn has_workers(pool: rayon::ThreadPool, threads: nat) -> bool {
    &&& 1 <= pool_workers(pool) <= threads
    &&& threads <= PORTABLE_POOL_THREADS ==> pool_workers(pool) == threads
}

/// Calls `rayon`'s parallel `map` and `collect` inside `rayon::ThreadPool::install`. Claimed: the
/// operation is applied to every input, and the results stand in the order of the inputs.
#[verifier::external_body]
fn map_in_pool<T: Send, R: Send, F: Fn(T) -> R + Send + Sync>(
    pool: &rayon::ThreadPool,
    inputs: Vec<T>,
    operation: F,
) -> (outputs: Vec<R>)
    requires
        forall|i: int| 0 <= i < inputs@.len() ==> call_requires(operation, (#[trigger] inputs@[i],)),
    ensures
        outputs@.len() == inputs@.len(),
        forall|i: int|
            0 <= i < outputs@.len() ==> call_ensures(
                operation,
                (inputs@[i],),
                #[trigger] outputs@[i],
            ),
{
    pool.install(|| inputs.into_par_iter().map(operation).collect())
}

/// Planning of one Station batch.
pub trait StationBatchPlanner<B>: Sync {
    /// Scratch that one lane keeps from batch to batch.
    type Lane: Send;

    /// Output slot of one batch, reused by later calls.
    type Output: Send;

    /// Statistics over several batches.
    type Stats;

    /// Creates an empty lane.
    fn new_lane(&self) -> Self::Lane;

    /// Creates an empty output slot.
    fn new_output(&self) -> Self::Output;

    /// Plans a batch into its output slot, and hands the lane back for the next batch.
    fn plan(&self, batch: &B, lane: Self::Lane, output: Self::Output) -> (Self::Lane, Self::Output);

    /// Statistics before the first batch.
    fn no_stats(&self) -> Self::Stats;

    /// Adds the statistics of a planned batch.
    fn merge_stats(&self, stats: Self::Stats, output: &Self::Output) -> Self::Stats;
}

/// The planner turned an output slot into the plan of a batch, and left its lane as `next`.
pub open spec fn was_planned<B, P: StationBatchPlanner<B>>(
    planner: &P,
    batch: B,
    lane: P::Lane,
    slot: P::Output,
    next: P::Lane,
    output: P::Output,
) -> bool {
    call_ensures(P::plan, (planner, &batch, lane, slot), (next, output))
}

/// A lane as the planner creates it.
pub open spec fn is_new_lane<B, P: StationBatchPlanner<B>>(planner: &P, lane: P::Lane) -> bool {
    call_ensures(P::new_lane, (planner,), lane)
}

/// Lanes for a call, kept where they were retained.
pub open spec fn are_lanes<B, P: StationBatchPlanner<B>>(
    planner: &P,
    retained: Seq<P::Lane>,
    lanes: Seq<P::Lane>,
) -> bool {
    forall|i: int|
        0 <= i < lanes.len() ==> if i < retained.len() {
            #[trigger] lanes[i] == retained[i]
        } else {
            is_new_lane::<B, P>(planner, lanes[i])
        }
}

/// A slot as the planner creates it.
pub open spec fn is_new_slot<B, P: StationBatchPlanner<B>>(planner: &P, slot: P::Output) -> bool {
    call_ensures(P::new_output, (planner,), slot)
}

/// The statistics of the outputs, merged in order.
pub open spec fn was_merged<B, P: StationBatchPlanner<B>>(
    planner: &P,
    outputs: Seq<P::Output>,
    stages: Seq<P::Stats>,
) -> bool {
    &&& stages.len() == outputs.len() + 1
    &&& call_ensures(P::no_stats, (planner,), stages[0])
    &&& forall|i: int|
        0 <= i < outputs.len() ==> call_ensures(
            P::merge_stats,
            (planner, stages[i], &(#[trigger] outputs[i])),
            stages[i + 1],
        )
}

/// A lane with the output slots of its contiguous partition.
pub struct LaneChunk<L, O> {
    /// First batch of the partition.
    pub start: usize,
    /// Scratch of the lane.
    pub lane: L,
    /// Output slots of the partition.
    pub outputs: Vec<O>,
}

/// Caller-owned worker scratch lanes retained across parallel planning calls.
///
/// Lane count is bounded by the pool thread count rather than the number of
/// Station batches. Each lane processes a deterministic contiguous partition.
#[derive(Clone, Debug)]
pub struct ParallelReplicationScratch<L, O> {
    /// Worker lanes.
    pub lanes: Vec<L>,
    /// Output slots.
    pub batches: Vec<O>,
    /// Slots used by the completed planning call.
    pub active_batches: usize,
    /// Lane partitions used by the completed planning call.
    pub active_lanes: usize,
}

impl<L, O> Default for ParallelReplicationScratch<L, O> {
    fn default() -> (scratch: Self)
        ensures
            scratch.is_empty(),
    {
        Self::new()
    }
}

impl<L, O> ParallelReplicationScratch<L, O> {
    /// Nothing is retained.
    pub open spec fn is_empty(self) -> bool {
        &&& self.lanes@.len() == 0
        &&& self.batches@.len() == 0
        &&& self.active_batches == 0
        &&& self.active_lanes == 0
    }

    /// Creates empty scratch storage. Worker lanes are allocated on first use.
    pub fn new() -> (scratch: Self)
        ensures
            scratch.is_empty(),
    {
        Self { lanes: Vec::new(), batches: Vec::new(), active_batches: 0, active_lanes: 0 }
    }

    /// Number of worker scratch lanes currently retained.
    pub fn lanes(&self) -> (count: usize)
        ensures
            count == self.lanes@.len(),
    {
        self.lanes.len()
    }

    /// Number of logical lane partitions used by the completed planning call.
    pub fn active_lanes(&self) -> (count: usize)
        ensures
            count == self.active_lanes,
    {
        self.active_lanes
    }

    /// Number of Station batch output slots retained for later calls.
    pub fn retained_batch_slots(&self) -> (count: usize)
        ensures
            count == self.batches@.len(),
    {
        self.batches.len()
    }
}

/// An output slot that keeps room for selected entities.
pub trait RetainsEntities {
    /// Number of selected entities that the slot has room for.
    fn retained_entity_capacity(&self) -> usize;
}

/// Sum of several capacities.
pub open spec fn capacity_total(capacities: Seq<usize>) -> nat
    decreases capacities.len(),
{
    if capacities.len() == 0 {
        0
    } else {
        capacity_total(capacities.drop_last()) + capacities.last() as nat
    }
}

/// What the slots say of their room, one answer each.
pub open spec fn are_capacities<O: RetainsEntities>(slots: Seq<O>, capacities: Seq<usize>) -> bool {
    &&& capacities.len() == slots.len()
    &&& forall|i: int|
        0 <= i < slots.len() ==> call_ensures(
            O::retained_entity_capacity,
            (&(#[trigger] slots[i]),),
            capacities[i],
        )
}

impl<L, O: RetainsEntities> ParallelReplicationScratch<L, O> {
    /// Total selected-entity capacity retained by all Station batch outputs, clamped to what a
    /// `usize` holds.
    pub fn retained_entity_capacity(&self) -> (capacity: usize)
        ensures
            exists|capacities: Seq<usize>| #[trigger]
                are_capacities(self.batches@, capacities) && capacity == clamp_usize(
                    capacity_total(capacities),
                ),
    {
        let mut capacity: usize = 0;
        let mut index: usize = 0;
        let ghost mut capacities: Seq<usize> = Seq::empty();
        assert(self.batches@.take(0) =~= Seq::empty());
        while index < self.batches.len()
            invariant
                index <= self.batches@.len(),
                are_capacities(self.batches@.take(index as int), capacities),
                capacity == clamp_usize(capacity_total(capacities)),
            decreases self.batches@.len() - index,
        {
            let room: usize = self.batches[index].retained_entity_capacity();
            capacity = capacity.saturating_add(room);
            let ghost earlier = capacities;
            proof {
                capacities = capacities.push(room);
                assert(capacities.drop_last() =~= earlier);
            }
            index = index + 1;
            proof {
                let slots = self.batches@.take(index as int);
                assert forall|i: int| 0 <= i < slots.len() implies call_ensures(
                    O::retained_entity_capacity,
                    (&(#[trigger] slots[i]),),
                    capacities[i],
                ) by {
                    if i < index - 1 {
                        assert(slots[i] == self.batches@.take(index - 1)[i]);
                        assert(capacities[i] == earlier[i]);
                    }
                }
            }
        }
        assert(self.batches@.take(index as int) =~= self.batches@);
        capacity
    }
}

/// Borrowed ordered Station results produced from reusable parallel storage.
#[derive(Clone, Copy, Debug)]
pub struct ParallelReplicationView<'a, O, S> {
    /// One reusable batch slot per input Station batch, retaining input order.
    pub batches: &'a [O],
    /// Aggregate statistics merged in Station input order.
    pub stats: S,
}

/// The slot that a batch is planned into: the retained one, or a new one where there was none.
pub open spec fn is_slot_for<B, P: StationBatchPlanner<B>>(
    planner: &P,
    retained: Seq<P::Output>,
    index: int,
    slot: P::Output,
) -> bool {
    if index < retained.len() {
        slot == retained[index]
    } else {
        is_new_slot::<B, P>(planner, slot)
    }
}

/// A lane planned the batches from `start` up to `end` in order, each in its slot and each in the
/// state that the one before left.
pub open spec fn lane_planned<B, P: StationBatchPlanner<B>>(
    planner: &P,
    batches: Seq<B>,
    slots: Seq<P::Output>,
    outputs: Seq<P::Output>,
    start: int,
    end: int,
    stages: Seq<P::Lane>,
) -> bool {
    &&& stages.len() == end - start + 1
    &&& forall|i: int|
        start <= i < end ==> was_planned::<B, P>(
            planner,
            batches[i],
            stages[i - start],
            slots[i],
            stages[i - start + 1],
            #[trigger] outputs[i],
        )
}

/// The lane of a partition planned all of it, and went from one state to another.
pub open spec fn lane_ran<B, P: StationBatchPlanner<B>>(
    planner: &P,
    batches: Seq<B>,
    slots: Seq<P::Output>,
    outputs: Seq<P::Output>,
    size: int,
    position: int,
    first: P::Lane,
    last: P::Lane,
) -> bool {
    exists|stages: Seq<P::Lane>|
        {
            &&& #[trigger] lane_planned::<B, P>(
                planner,
                batches,
                slots,
                outputs,
                chunk_edge(position, size, batches.len() as int),
                chunk_edge(position + 1, size, batches.len() as int),
                stages,
            )
            &&& stages[0] == first
            &&& stages.last() == last
        }
}

/// The first lanes planned their partitions, and the others are as they were.
pub open spec fn lanes_ran<B, P: StationBatchPlanner<B>>(
    planner: &P,
    batches: Seq<B>,
    slots: Seq<P::Output>,
    outputs: Seq<P::Output>,
    size: int,
    active: int,
    before: Seq<P::Lane>,
    after: Seq<P::Lane>,
) -> bool {
    &&& after.len() == before.len()
    &&& forall|k: int|
        0 <= k < after.len() ==> if k < active {
            lane_ran::<B, P>(
                planner,
                batches,
                slots,
                outputs,
                size,
                k,
                before[k],
                #[trigger] after[k],
            )
        } else {
            after[k] == before[k]
        }
}

proof fn lemma_lane_ran_on<B, P: StationBatchPlanner<B>>(
    planner: &P,
    batches: Seq<B>,
    slots: Seq<P::Output>,
    outputs: Seq<P::Output>,
    longer: Seq<P::Output>,
    size: int,
    position: int,
    first: P::Lane,
    last: P::Lane,
)
    requires
        lane_ran::<B, P>(planner, batches, slots, outputs, size, position, first, last),
        chunk_edge(position + 1, size, batches.len() as int) <= outputs.len() <= longer.len(),
        0 <= chunk_edge(position, size, batches.len() as int),
        forall|i: int| 0 <= i < outputs.len() ==> #[trigger] longer[i] == outputs[i],
    ensures
        lane_ran::<B, P>(planner, batches, slots, longer, size, position, first, last),
{
    let start = chunk_edge(position, size, batches.len() as int);
    let end = chunk_edge(position + 1, size, batches.len() as int);
    let stages = choose|stages: Seq<P::Lane>|
        {
            &&& #[trigger] lane_planned::<B, P>(
                planner,
                batches,
                slots,
                outputs,
                start,
                end,
                stages,
            )
            &&& stages[0] == first
            &&& stages.last() == last
        };
    assert forall|i: int| start <= i < end implies was_planned::<B, P>(
        planner,
        batches[i],
        stages[i - start],
        slots[i],
        stages[i - start + 1],
        #[trigger] longer[i],
    ) by {
        assert(longer[i] == outputs[i]);
    }
    assert(lane_planned::<B, P>(planner, batches, slots, longer, start, end, stages));
}

/// Slots for the batches, kept where they were retained.
pub open spec fn are_slots<B, P: StationBatchPlanner<B>>(
    planner: &P,
    retained: Seq<P::Output>,
    slots: Seq<P::Output>,
) -> bool {
    forall|i: int|
        0 <= i < slots.len() ==> is_slot_for::<B, P>(planner, retained, i, #[trigger] slots[i])
}

/// The partition lies within the batches.
pub open spec fn chunk_fits<L, O>(chunk: LaneChunk<L, O>, batches: nat) -> bool {
    chunk.start + chunk.outputs@.len() <= batches
}

/// The lane planned every batch of its partition in order, through these states.
pub open spec fn chunk_stages<B, P: StationBatchPlanner<B>>(
    planner: &P,
    batches: Seq<B>,
    before: LaneChunk<P::Lane, P::Output>,
    outputs: Seq<P::Output>,
    stages: Seq<P::Lane>,
) -> bool {
    &&& stages.len() == outputs.len() + 1
    &&& stages[0] == before.lane
    &&& forall|i: int|
        0 <= i < outputs.len() ==> was_planned::<B, P>(
            planner,
            batches[before.start + i],
            stages[i],
            before.outputs@[i],
            stages[i + 1],
            #[trigger] outputs[i],
        )
}

/// The lane planned every batch of its partition.
pub open spec fn chunk_planned<B, P: StationBatchPlanner<B>>(
    planner: &P,
    batches: Seq<B>,
    before: LaneChunk<P::Lane, P::Output>,
    after: LaneChunk<P::Lane, P::Output>,
) -> bool {
    &&& after.start == before.start
    &&& after.outputs@.len() == before.outputs@.len()
    &&& exists|stages: Seq<P::Lane>|
        #[trigger] chunk_stages::<B, P>(planner, batches, before, after.outputs@, stages)
            && stages.last() == after.lane
}

/// Plans the batches of one partition in order.
fn plan_chunk<B, P: StationBatchPlanner<B>>(
    planner: &P,
    batches: &[B],
    chunk: LaneChunk<P::Lane, P::Output>,
) -> (planned: LaneChunk<P::Lane, P::Output>)
    requires
        chunk_fits(chunk, batches@.len()),
    ensures
        chunk_planned::<B, P>(planner, batches@, chunk, planned),
{
    let ghost slots = chunk.outputs@;
    let start: usize = chunk.start;
    let count: usize = chunk.outputs.len();
    let total: usize = batches.len();
    let mut lane = chunk.lane;
    let mut pending = reversed(chunk.outputs);
    let mut outputs: Vec<P::Output> = Vec::new();
    let ghost mut stages: Seq<P::Lane> = seq![lane];
    let mut index: usize = 0;
    while index < count
        invariant
            start == chunk.start,
            slots == chunk.outputs@,
            start + count <= total,
            total == batches@.len(),
            slots.len() == count,
            index <= count,
            pending@.len() == count - index,
            forall|i: int|
                0 <= i < pending@.len() ==> #[trigger] pending@[i] == slots[count - 1 - i],
            outputs@.len() == index,
            chunk_stages::<B, P>(planner, batches@, chunk, outputs@, stages),
            stages.last() == lane,
        decreases count - index,
    {
        let ghost slot = pending@.last();
        assert(slot == slots[index as int]);
        if let Some(output) = pending.pop() {
            assert(output == slot);
            let ghost earlier = outputs@;
            let ghost reached = stages;
            let ghost current = lane;
            let (next, planned) = planner.plan(&batches[start + index], lane, output);
            assert(was_planned::<B, P>(
                planner,
                batches@[start + index],
                current,
                slot,
                next,
                planned,
            ));
            lane = next;
            outputs.push(planned);
            proof {
                stages = stages.push(next);
                assert forall|i: int| 0 <= i < outputs@.len() implies was_planned::<B, P>(
                    planner,
                    batches@[start + i],
                    stages[i],
                    slots[i],
                    stages[i + 1],
                    #[trigger] outputs@[i],
                ) by {
                    assert(stages[i] == reached[i]);
                    if i < earlier.len() {
                        assert(outputs@[i] == earlier[i]);
                        assert(stages[i + 1] == reached[i + 1]);
                    }
                }
            }
        }
        index = index + 1;
    }
    LaneChunk { start, lane, outputs }
}

/// Returns the items in reverse order.
fn reversed<O>(items: Vec<O>) -> (turned: Vec<O>)
    ensures
        turned@.len() == items@.len(),
        forall|i: int|
            0 <= i < turned@.len() ==> #[trigger] turned@[i] == items@[items@.len() - 1 - i],
{
    let mut left = items;
    let mut turned: Vec<O> = Vec::new();
    while left.len() > 0
        invariant
            left@.len() + turned@.len() == items@.len(),
            left@ == items@.take(left@.len() as int),
            forall|i: int|
                0 <= i < turned@.len() ==> #[trigger] turned@[i] == items@[items@.len() - 1 - i],
        decreases left@.len(),
    {
        let ghost before = left@;
        assert(before.last() == items@[before.len() - 1]);
        if let Some(item) = left.pop() {
            assert(left@ =~= items@.take(left@.len() as int));
            turned.push(item);
        }
    }
    turned
}

/// Explicit worker pool used only when the embedding application constructs it.
pub struct ReplicationThreadPool {
    /// Workers.
    pub pool: rayon::ThreadPool,
    /// Number of workers.
    pub threads: usize,
}

impl ReplicationThreadPool {
    /// There is at least one worker, and the pool was built for their number.
    pub open spec fn wf(self) -> bool {
        self.threads >= 1 && has_workers(self.pool, self.threads as nat)
    }

    /// The outcome of building workers: a pool of `threads` where they started, and the builder's
    /// message where they did not.
    pub open spec fn outcome(
        threads: usize,
        built: Result<rayon::ThreadPool, String>,
        result: Result<Self, ReplicationThreadPoolBuildError>,
    ) -> bool {
        match built {
            Ok(pool) => result == Ok::<Self, ReplicationThreadPoolBuildError>(
                Self { pool, threads },
            ),
            Err(message) => result == Err::<Self, ReplicationThreadPoolBuildError>(
                ReplicationThreadPoolBuildError { message },
            ),
        }
    }

    /// Wraps `threads` workers that were built, or the message of the builder that failed.
    pub fn from_build(threads: usize, built: Result<rayon::ThreadPool, String>) -> (result: Result<
        Self,
        ReplicationThreadPoolBuildError,
    >)
        ensures
            Self::outcome(threads, built, result),
    {
        match built {
            Ok(pool) => Ok(Self { pool, threads }),
            Err(message) => Err(ReplicationThreadPoolBuildError { message }),
        }
    }

    /// Creates a bounded worker pool for a host with `available` logical processors. No threads
    /// exist before this call.
    ///
    /// Whether the workers start is up to the host. [`ReplicationThreadPool::from_build`] says what
    /// is returned in either case.
    pub fn new(config: ReplicationThreadPoolConfig, available: usize) -> (result: Result<
        Self,
        ReplicationThreadPoolBuildError,
    >)
        ensures
            result matches Ok(pool) ==> pool.wf() && pool.threads == config.resolved(available),
    {
        let threads: usize = config.resolve(available);
        Self::from_build(threads, build_pool(threads))
    }

    /// Creates a conservative host-sized pool using [`ReplicationThreadPoolConfig::default`].
    pub fn for_host(available: usize) -> (result: Result<Self, ReplicationThreadPoolBuildError>)
        ensures
            result matches Ok(pool) ==> pool.wf() && pool.threads == (ReplicationThreadPoolConfig {
                requested_threads: 0,
                max_threads: 8,
            }).resolved(available),
    {
        Self::new(ReplicationThreadPoolConfig::default(), available)
    }

    /// Number of worker threads created in this pool.
    pub fn threads(&self) -> (count: usize)
        ensures
            count == self.threads,
    {
        self.threads
    }

    /// Maps an owned batch synchronously and retains input order.
    ///
    /// Work runs only for the duration of this call. The pool does not retain
    /// inputs, outputs, jobs, or cross-client state after it returns.
    pub fn map_ordered<T: Send, R: Send, F: Fn(T) -> R + Send + Sync>(
        &self,
        inputs: Vec<T>,
        operation: F,
    ) -> (outputs: Vec<R>)
        requires
            forall|i: int|
                0 <= i < inputs@.len() ==> call_requires(operation, (#[trigger] inputs@[i],)),
        ensures
            outputs@.len() == inputs@.len(),
            forall|i: int|
                0 <= i < outputs@.len() ==> call_ensures(
                    operation,
                    (inputs@[i],),
                    #[trigger] outputs@[i],
                ),
    {
        map_in_pool(&self.pool, inputs, operation)
    }

    /// Plans Station batches into caller-owned reusable Station outputs.
    ///
    /// The batches are split into contiguous partitions, at most one per worker, and each lane
    /// plans its partition in order.
    pub fn plan_station_batches_into<'a, B: Sync, P: StationBatchPlanner<B>>(
        &self,
        batches: &[B],
        planner: &P,
        scratch: &'a mut ParallelReplicationScratch<P::Lane, P::Output>,
    ) -> (view: ParallelReplicationView<'a, P::Output, P::Stats>)
        requires
            self.wf(),
        ensures
            ({
                let count = batches@.len();
                let lanes = smaller(self.threads as nat, count);
                let retained = old(scratch).batches@;
                let kept = final(scratch).batches@;
                &&& view.batches@.len() == count
                &&& exists|slots: Seq<P::Output>, started: Seq<P::Lane>|
                    {
                        &&& slots.len() == count
                        &&& started.len() == lanes
                        &&& are_slots::<B, P>(planner, retained, slots)
                        &&& are_lanes::<B, P>(planner, old(scratch).lanes@, started)
                        &&& #[trigger] lanes_ran::<B, P>(
                            planner,
                            batches@,
                            slots,
                            view.batches@,
                            ceil_div(count, lanes) as int,
                            chunk_count(count, lanes) as int,
                            started,
                            final(scratch).lanes@,
                        )
                    }
                &&& exists|stages: Seq<P::Stats>| #[trigger]
                    was_merged::<B, P>(planner, view.batches@, stages) && view.stats
                        == stages.last()
                &&& kept.len() == larger(retained.len(), count)
                &&& kept.take(count as int) == view.batches@
                &&& forall|i: int| count <= i < kept.len() ==> #[trigger] kept[i] == retained[i]
                &&& final(scratch).lanes@.len() == lanes
                &&& final(scratch).active_lanes == chunk_count(count, lanes)
                &&& final(scratch).active_batches == count
            }),
    {
        let ghost retained = scratch.batches@;
        let count: usize = batches.len();
        let lanes: usize = min_usize(self.threads, count);
        prepare_lanes::<B, P>(scratch, planner, lanes);
        prepare_output::<B, P>(scratch, planner, count);
        scratch.active_lanes = chunked_logical_lanes(count, lanes);
        let ghost prepared = scratch.batches@;
        let ghost slots = prepared.take(count as int);
        let ghost started = scratch.lanes@;
        if lanes != 0 {
            self.plan_chunks::<B, P>(batches, planner, scratch, lanes);
        }
        proof {
            assert(are_slots::<B, P>(planner, retained, slots)) by {
                assert forall|i: int| 0 <= i < slots.len() implies is_slot_for::<B, P>(
                    planner,
                    retained,
                    i,
                    #[trigger] slots[i],
                ) by {
                    assert(slots[i] == prepared[i]);
                }
            }
        }
        let ghost kept = scratch.batches@;
        assert(lanes_ran::<B, P>(
            planner,
            batches@,
            slots,
            kept.take(count as int),
            ceil_div(count as nat, lanes as nat) as int,
            chunk_count(count as nat, lanes as nat) as int,
            started,
            scratch.lanes@,
        ));
        reusable_view::<B, P>(scratch, planner)
    }

    fn plan_chunks<B: Sync, P: StationBatchPlanner<B>>(
        &self,
        batches: &[B],
        planner: &P,
        scratch: &mut ParallelReplicationScratch<P::Lane, P::Output>,
        lanes: usize,
    )
        requires
            0 < lanes <= batches@.len(),
            old(scratch).lanes@.len() == lanes,
            old(scratch).batches@.len() >= batches@.len(),
            old(scratch).active_lanes == chunk_count(batches@.len(), lanes as nat),
        ensures
            final(scratch).active_lanes == old(scratch).active_lanes,
            final(scratch).active_batches == old(scratch).active_batches,
            final(scratch).lanes@.len() == lanes,
            final(scratch).batches@.len() == old(scratch).batches@.len(),
            lanes_ran::<B, P>(
                planner,
                batches@,
                old(scratch).batches@.take(batches@.len() as int),
                final(scratch).batches@.take(batches@.len() as int),
                ceil_div(batches@.len(), lanes as nat) as int,
                old(scratch).active_lanes as int,
                old(scratch).lanes@,
                final(scratch).lanes@,
            ),
            forall|i: int|
                batches@.len() <= i < old(scratch).batches@.len() ==> old(scratch).batches@[i]
                    == #[trigger] final(scratch).batches@[i],
    {
        let ghost prepared = scratch.batches@;
        let ghost started = scratch.lanes@;
        let count: usize = batches.len();
        let ghost slots = prepared.take(count as int);
        let size: usize = div_ceil_usize(count, lanes);
        let active: usize = scratch.active_lanes;
        proof {
            lemma_ceil_div(count as nat, lanes as nat);
            lemma_ceil_div(count as nat, size as nat);
            law_chunks_fit_the_lanes(count as nat, lanes as nat);
        }
        let mut spare_slots = scratch.batches.split_off(count);
        let mut spare_lanes = scratch.lanes.split_off(active);
        let mut chunks: Vec<LaneChunk<P::Lane, P::Output>> = Vec::new();
        let mut left: usize = active;
        assert(scratch.batches@ =~= slots);
        assert(scratch.lanes@ =~= started.take(active as int));
        assert(spare_lanes@ =~= started.skip(active as int));
        assert(slots.take(chunk_edge(active as int, size as int, count as int)) =~= slots);
        while left > 0
            invariant
                0 < size,
                left <= active,
                active * size >= count,
                (active - 1) * size < count,
                count == slots.len(),
                count == batches@.len(),
                scratch.active_lanes == active,
                scratch.active_batches == old(scratch).active_batches,
                started.len() >= active,
                scratch.lanes@ == started.take(left as int),
                scratch.batches@ == slots.take(
                    chunk_edge(left as int, size as int, count as int),
                ),
                chunks@.len() == active - left,
                forall|k: int|
                    0 <= k < chunks@.len() ==> holds_chunk(
                        #[trigger] chunks@[k],
                        slots,
                        started,
                        active - 1 - k,
                        size as int,
                    ),
            decreases left,
        {
            let ghost above = chunk_edge(left as int, size as int, count as int);
            left = left - 1;
            proof {
                assert(left * size <= (active - 1) * size) by (nonlinear_arith)
                    requires
                        left <= active - 1,
                        size > 0,
                ;
                assert((left + 1) * size == left * size + size) by (nonlinear_arith);
                assert(chunk_edge(left as int, size as int, count as int) == left * size);
            }
            let start: usize = left * size;
            let outputs = scratch.batches.split_off(start);
            assert(outputs@ =~= slots.subrange(start as int, above));
            assert(scratch.batches@ =~= slots.take(start as int));
            assert(scratch.lanes@.last() == started[left as int]);
            if let Some(lane) = scratch.lanes.pop() {
                assert(scratch.lanes@ =~= started.take(left as int));
                let ghost before = chunks@;
                chunks.push(LaneChunk { start, lane, outputs });
                assert(holds_chunk(
                    chunks@[chunks@.len() - 1],
                    slots,
                    started,
                    left as int,
                    size as int,
                ));
                assert forall|k: int| 0 <= k < chunks@.len() implies holds_chunk(
                    #[trigger] chunks@[k],
                    slots,
                    started,
                    active - 1 - k,
                    size as int,
                ) by {
                    if k < before.len() {
                        assert(chunks@[k] == before[k]);
                    }
                }
            }
        }
        assert(scratch.batches@.len() == 0) by {
            assert(0 * size == 0) by (nonlinear_arith);
        }
        let ghost waiting = chunks@;
        proof {
            assert forall|k: int| 0 <= k < waiting.len() implies chunk_fits(
                #[trigger] waiting[k],
                count as nat,
            ) by {
                assert(holds_chunk(waiting[k], slots, started, active - 1 - k, size as int));
            }
        }
        let operation = |chunk: LaneChunk<P::Lane, P::Output>| -> (done: LaneChunk<
            P::Lane,
            P::Output,
        >)
            requires
                chunk_fits(chunk, batches@.len()),
            ensures
                chunk_planned(planner, batches@, chunk, done),
        {
            plan_chunk(planner, batches, chunk)
        };
        let mut planned = self.map_ordered(chunks, operation);
        proof {
            assert forall|k: int| 0 <= k < planned@.len() implies chunk_planned::<B, P>(
                planner,
                batches@,
                waiting[k],
                #[trigger] planned@[k],
            ) by {}
        }
        while planned.len() > 0
            invariant
                0 < size,
                active * size >= count,
                (active - 1) * size < count,
                count == slots.len(),
                count == batches@.len(),
                waiting.len() == active,
                planned@.len() <= active,
                scratch.active_lanes == active,
                scratch.active_batches == old(scratch).active_batches,
                scratch.lanes@.len() == active - planned@.len(),
                scratch.batches@.len() == chunk_edge(
                    active - planned@.len(),
                    size as int,
                    count as int,
                ),
                forall|k: int|
                    0 <= k < scratch.lanes@.len() ==> lane_ran::<B, P>(
                        planner,
                        batches@,
                        slots,
                        scratch.batches@,
                        size as int,
                        k,
                        started[k],
                        #[trigger] scratch.lanes@[k],
                    ),
                forall|k: int|
                    0 <= k < waiting.len() ==> holds_chunk(
                        #[trigger] waiting[k],
                        slots,
                        started,
                        active - 1 - k,
                        size as int,
                    ),
                forall|k: int|
                    0 <= k < planned@.len() ==> chunk_planned::<B, P>(
                        planner,
                        batches@,
                        waiting[k],
                        #[trigger] planned@[k],
                    ),
            decreases planned@.len(),
        {
            let ghost at = planned@.len() - 1;
            let ghost chunk_at = active - 1 - at;
            let ghost before = scratch.batches@;
            let ghost lanes_before = scratch.lanes@;
            let ghost last = planned@[at];
            proof {
                assert(holds_chunk(waiting[at], slots, started, chunk_at, size as int));
                assert(chunk_planned::<B, P>(planner, batches@, waiting[at], last));
                assert(chunk_at * size <= (active - 1) * size) by (nonlinear_arith)
                    requires
                        chunk_at <= active - 1,
                        size > 0,
                ;
                assert((chunk_at + 1) * size == chunk_at * size + size) by (nonlinear_arith);
            }
            if let Some(chunk) = planned.pop() {
                let mut outputs = chunk.outputs;
                scratch.batches.append(&mut outputs);
                scratch.lanes.push(chunk.lane);
            }
            proof {
                let now = scratch.batches@;
                assert(now =~= before + last.outputs@);
                let start = chunk_edge(chunk_at, size as int, count as int);
                let end = chunk_edge(chunk_at + 1, size as int, count as int);
                let stages = choose|stages: Seq<P::Lane>|
                    #[trigger] chunk_stages::<B, P>(
                        planner,
                        batches@,
                        waiting[at],
                        last.outputs@,
                        stages,
                    ) && stages.last() == last.lane;
                assert forall|i: int| start <= i < end implies was_planned::<B, P>(
                    planner,
                    batches@[i],
                    stages[i - start],
                    slots[i],
                    stages[i - start + 1],
                    #[trigger] now[i],
                ) by {
                    let within = i - before.len();
                    assert(now[i] == last.outputs@[within]);
                    assert(waiting[at].outputs@[within] == slots[i]);
                    assert(batches@[waiting[at].start + within] == batches@[i]);
                }
                assert(lane_planned::<B, P>(planner, batches@, slots, now, start, end, stages));
                assert forall|k: int| 0 <= k < scratch.lanes@.len() implies lane_ran::<B, P>(
                    planner,
                    batches@,
                    slots,
                    now,
                    size as int,
                    k,
                    started[k],
                    #[trigger] scratch.lanes@[k],
                ) by {
                    if k < lanes_before.len() {
                        assert(scratch.lanes@[k] == lanes_before[k]);
                        assert((k + 1) * size <= chunk_at * size) by (nonlinear_arith)
                            requires
                                k + 1 <= chunk_at,
                                size > 0,
                        ;
                        assert(k * size >= 0) by (nonlinear_arith)
                            requires
                                k >= 0,
                                size > 0,
                        ;
                        lemma_lane_ran_on::<B, P>(
                            planner,
                            batches@,
                            slots,
                            before,
                            now,
                            size as int,
                            k,
                            started[k],
                            lanes_before[k],
                        );
                    }
                }
            }
        }
        let ghost outputs = scratch.batches@;
        assert(outputs.len() == count);
        let ghost ran = scratch.lanes@;
        scratch.batches.append(&mut spare_slots);
        scratch.lanes.append(&mut spare_lanes);
        assert(scratch.batches@.take(count as int) =~= outputs);
        assert forall|k: int| 0 <= k < scratch.lanes@.len() implies (if k < active {
            lane_ran::<B, P>(
                planner,
                batches@,
                slots,
                outputs,
                size as int,
                k,
                started[k],
                #[trigger] scratch.lanes@[k],
            )
        } else {
            scratch.lanes@[k] == started[k]
        }) by {
            if k < active {
                assert(scratch.lanes@[k] == ran[k]);
            } else {
                assert(scratch.lanes@[k] == started.skip(active as int)[k - active]);
            }
        }
    }
}

/// End of the first chunks of a batch.
pub open spec fn chunk_edge(chunks: int, size: int, count: int) -> int {
    if chunks * size < count {
        chunks * size
    } else {
        count
    }
}

/// The planner makes this output from a batch and a slot, in some lane.
pub open spec fn is_plan<B, P: StationBatchPlanner<B>>(
    planner: &P,
    batch: B,
    slot: P::Output,
    output: P::Output,
) -> bool {
    exists|lane: P::Lane, next: P::Lane|
        #[trigger] was_planned::<B, P>(planner, batch, lane, slot, next, output)
}

/// Every batch is planned: each output was made from the batch and the slot at its place, however
/// many lanes there are.
pub proof fn law_every_batch_is_planned<B, P: StationBatchPlanner<B>>(
    planner: &P,
    batches: Seq<B>,
    slots: Seq<P::Output>,
    outputs: Seq<P::Output>,
    lanes: nat,
    started: Seq<P::Lane>,
    ended: Seq<P::Lane>,
)
    requires
        0 < lanes,
        started.len() == lanes,
        lanes_ran::<B, P>(
            planner,
            batches,
            slots,
            outputs,
            ceil_div(batches.len(), lanes) as int,
            chunk_count(batches.len(), lanes) as int,
            started,
            ended,
        ),
    ensures
        forall|i: int|
            0 <= i < batches.len() ==> is_plan::<B, P>(
                planner,
                batches[i],
                slots[i],
                #[trigger] outputs[i],
            ),
{
    let count = batches.len();
    if count > 0 {
        let size = ceil_div(count, lanes);
        let active = chunk_count(count, lanes);
        lemma_ceil_div(count, lanes);
        lemma_ceil_div(count, size);
        law_chunks_fit_the_lanes(count, lanes);
        assert forall|i: int| 0 <= i < count implies is_plan::<B, P>(
            planner,
            batches[i],
            slots[i],
            #[trigger] outputs[i],
        ) by {
            let k = i / size as int;
            assert(0 <= k && k * size <= i && i < (k + 1) * size) by (nonlinear_arith)
                requires
                    k == i / size as int,
                    0 <= i,
                    0 < size,
            ;
            if k >= active {
                assert(k * size >= active * size) by (nonlinear_arith)
                    requires
                        k >= active,
                        0 < size,
                ;
            }
            assert(lane_ran::<B, P>(
                planner,
                batches,
                slots,
                outputs,
                size as int,
                k,
                started[k],
                ended[k],
            ));
            let start = chunk_edge(k, size as int, count as int);
            let end = chunk_edge(k + 1, size as int, count as int);
            let stages = choose|stages: Seq<P::Lane>|
                {
                    &&& #[trigger] lane_planned::<B, P>(
                        planner,
                        batches,
                        slots,
                        outputs,
                        start,
                        end,
                        stages,
                    )
                    &&& stages[0] == started[k]
                    &&& stages.last() == ended[k]
                };
            assert(was_planned::<B, P>(
                planner,
                batches[i],
                stages[i - start],
                slots[i],
                stages[i - start + 1],
                outputs[i],
            ));
        }
    }
}

/// Where the plan of a batch depends on the batch alone, planning on several lanes gives what
/// planning the batches one after another gives.
pub proof fn law_lanes_agree_with_serial_planning<B, P: StationBatchPlanner<B>>(
    planner: &P,
    batches: Seq<B>,
    slots: Seq<P::Output>,
    outputs: Seq<P::Output>,
    lanes: nat,
    started: Seq<P::Lane>,
    ended: Seq<P::Lane>,
    plan_of: spec_fn(B) -> P::Output,
)
    requires
        0 < lanes,
        started.len() == lanes,
        outputs.len() == batches.len(),
        lanes_ran::<B, P>(
            planner,
            batches,
            slots,
            outputs,
            ceil_div(batches.len(), lanes) as int,
            chunk_count(batches.len(), lanes) as int,
            started,
            ended,
        ),
        forall|batch: B, lane: P::Lane, slot: P::Output, next: P::Lane, output: P::Output|
            #[trigger] was_planned::<B, P>(planner, batch, lane, slot, next, output) ==> output
                == plan_of(batch),
    ensures
        outputs == batches.map_values(plan_of),
{
    law_every_batch_is_planned::<B, P>(planner, batches, slots, outputs, lanes, started, ended);
    assert forall|i: int| 0 <= i < batches.len() implies outputs[i] == batches.map_values(
        plan_of,
    )[i] by {
        assert(is_plan::<B, P>(planner, batches[i], slots[i], outputs[i]));
    }
    assert(outputs =~= batches.map_values(plan_of));
}

/// The chunk holds its lane and the slots of its contiguous partition.
pub open spec fn holds_chunk<L, O>(
    chunk: LaneChunk<L, O>,
    slots: Seq<O>,
    started: Seq<L>,
    position: int,
    size: int,
) -> bool {
    let count = slots.len() as int;
    &&& chunk.lane == started[position]
    &&& chunk.start == position * size
    &&& chunk.start <= chunk_edge(position + 1, size, count) <= count
    &&& chunk.outputs@ == slots.subrange(
        chunk.start as int,
        chunk_edge(position + 1, size, count),
    )
}

fn prepare_lanes<B, P: StationBatchPlanner<B>>(
    scratch: &mut ParallelReplicationScratch<P::Lane, P::Output>,
    planner: &P,
    lanes: usize,
)
    ensures
        final(scratch).lanes@.len() == lanes,
        final(scratch).batches == old(scratch).batches,
        are_lanes::<B, P>(planner, old(scratch).lanes@, final(scratch).lanes@),
{
    let ghost retained = scratch.lanes@;
    if scratch.lanes.len() > lanes {
        scratch.lanes.truncate(lanes);
    }
    while scratch.lanes.len() < lanes
        invariant
            retained == old(scratch).lanes@,
            scratch.lanes@.len() < lanes ==> scratch.lanes@.len() >= retained.len(),
            are_lanes::<B, P>(planner, retained, scratch.lanes@),
            scratch.lanes@.len() <= lanes,
            scratch.batches == old(scratch).batches,
        decreases lanes - scratch.lanes@.len(),
    {
        let lane = planner.new_lane();
        assert(is_new_lane::<B, P>(planner, lane));
        scratch.lanes.push(lane);
    }
}

fn prepare_output<B, P: StationBatchPlanner<B>>(
    scratch: &mut ParallelReplicationScratch<P::Lane, P::Output>,
    planner: &P,
    batches: usize,
)
    ensures
        final(scratch).lanes == old(scratch).lanes,
        final(scratch).active_batches == batches,
        final(scratch).batches@.len() == larger(old(scratch).batches@.len(), batches as nat),
        are_slots::<B, P>(planner, old(scratch).batches@, final(scratch).batches@),
{
    let ghost retained = scratch.batches@;
    while scratch.batches.len() < batches
        invariant
            retained == old(scratch).batches@,
            scratch.lanes == old(scratch).lanes,
            retained.len() <= scratch.batches@.len() <= larger(retained.len(), batches as nat),
            are_slots::<B, P>(planner, retained, scratch.batches@),
        decreases batches - scratch.batches@.len(),
    {
        let slot = planner.new_output();
        assert(is_new_slot::<B, P>(planner, slot));
        scratch.batches.push(slot);
    }
    scratch.active_batches = batches;
}

fn reusable_view<'a, B, P: StationBatchPlanner<B>>(
    scratch: &'a ParallelReplicationScratch<P::Lane, P::Output>,
    planner: &P,
) -> (view: ParallelReplicationView<'a, P::Output, P::Stats>)
    requires
        scratch.active_batches <= scratch.batches@.len(),
    ensures
        view.batches@ == scratch.batches@.take(scratch.active_batches as int),
        exists|stages: Seq<P::Stats>| #[trigger]
            was_merged::<B, P>(planner, view.batches@, stages) && view.stats == stages.last(),
{
    let batches = vstd::slice::slice_subrange(scratch.batches.as_slice(), 0, scratch.active_batches);
    assert(batches@ =~= scratch.batches@.take(scratch.active_batches as int));
    let mut stats = planner.no_stats();
    let ghost mut stages: Seq<P::Stats> = seq![stats];
    let mut index: usize = 0;
    assert(batches@.take(0) =~= Seq::empty());
    while index < batches.len()
        invariant
            index <= batches@.len(),
            was_merged::<B, P>(planner, batches@.take(index as int), stages),
            stats == stages.last(),
        decreases batches@.len() - index,
    {
        let ghost shorter = batches@.take(index as int);
        let ghost longer = batches@.take(index + 1);
        let ghost before = stages;
        stats = planner.merge_stats(stats, &batches[index]);
        proof {
            stages = stages.push(stats);
            assert forall|i: int| 0 <= i < longer.len() implies call_ensures(
                P::merge_stats,
                (planner, stages[i], &(#[trigger] longer[i])),
                stages[i + 1],
            ) by {
                assert(stages[i] == before[i]);
                if i < index {
                    assert(longer[i] == shorter[i]);
                    assert(stages[i + 1] == before[i + 1]);
                }
            }
        }
        index = index + 1;
    }
    assert(batches@.take(index as int) =~= batches@);
    let view = ParallelReplicationView { batches, stats };
    assert(was_merged::<B, P>(planner, view.batches@, stages));
    assert(view.stats == stages.last());
    view
}

} // verus!
