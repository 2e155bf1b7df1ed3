//! Worker pools, partitions and parallel planning.

use sectorsync::parallel::{
    chunked_logical_lanes, partition_bounds, worker_name, ParallelReplicationScratch,
    ReplicationThreadPool, ReplicationThreadPoolConfig, RetainsEntities, StationBatchPlanner,
};

const AVAILABLE: usize = 4;

/// Plans a batch of numbers by squaring them.
struct Squares;

/// Numbers of one station.
struct Batch {
    numbers: Vec<u64>,
}

impl StationBatchPlanner<Batch> for Squares {
    type Lane = Vec<u64>;
    type Output = Vec<u64>;
    type Stats = usize;

    fn new_lane(&self) -> Vec<u64> {
        Vec::new()
    }

    fn new_output(&self) -> Vec<u64> {
        Vec::new()
    }

    fn plan(&self, batch: &Batch, lane: Vec<u64>, output: Vec<u64>) -> (Vec<u64>, Vec<u64>) {
        let mut lane = lane;
        lane.clear();
        lane.extend(batch.numbers.iter().map(|number| number * number));
        let mut output = output;
        output.clear();
        output.extend_from_slice(&lane);
        (lane, output)
    }

    fn no_stats(&self) -> usize {
        0
    }

    fn merge_stats(&self, stats: usize, output: &Vec<u64>) -> usize {
        stats + output.len()
    }
}

fn batches(count: u64) -> Vec<Batch> {
    (0..count)
        .map(|station| Batch {
            numbers: (0..4).map(|offset| station * 10 + offset).collect(),
        })
        .collect()
}

#[test]
fn auto_thread_resolution_is_conservative_and_bounded() {
    assert_eq!(ReplicationThreadPoolConfig::default().resolve(12), 6);
    assert_eq!(ReplicationThreadPoolConfig::default().resolve(1), 1);
    assert_eq!(ReplicationThreadPoolConfig::new(64, 4).resolve(12), 4);
    assert_eq!(partition_bounds(10, 3, 0), 0..4);
    assert_eq!(partition_bounds(10, 3, 1), 4..7);
    assert_eq!(partition_bounds(10, 3, 2), 7..10);
    assert_eq!(chunked_logical_lanes(5, 4), 3);
}

#[test]
fn parallel_station_batches_match_serial_order() {
    let batches = batches(6);
    let pool = ReplicationThreadPool::new(ReplicationThreadPoolConfig::new(2, 2), AVAILABLE)
        .expect("pool builds");
    let mut parallel_scratch = ParallelReplicationScratch::new();
    let parallel = pool.plan_station_batches_into(&batches, &Squares, &mut parallel_scratch);

    for (batch_index, batch) in batches.iter().enumerate() {
        let (_, serial) = Squares.plan(batch, Vec::new(), Vec::new());
        assert_eq!(parallel.batches[batch_index], serial);
    }
    assert_eq!(parallel.stats, 24);
    assert_eq!(parallel_scratch.lanes(), 2);
}

#[test]
fn reusable_parallel_output_matches_repeated_results_and_retains_capacity() {
    let batches = batches(6);
    let pool = ReplicationThreadPool::new(ReplicationThreadPoolConfig::new(2, 2), AVAILABLE)
        .expect("pool builds");
    let mut reusable_scratch = ParallelReplicationScratch::new();
    let first = pool.plan_station_batches_into(&batches, &Squares, &mut reusable_scratch);
    let expected_stats = first.stats;
    let expected = first.batches.to_vec();

    {
        let reusable = pool.plan_station_batches_into(&batches, &Squares, &mut reusable_scratch);
        assert_eq!(reusable.stats, expected_stats);
        for (actual, expected) in reusable.batches.iter().zip(&expected) {
            assert_eq!(actual, expected);
        }
    }
    let retained_capacity: usize = reusable_scratch.batches.iter().map(Vec::capacity).sum();
    assert_eq!(reusable_scratch.retained_batch_slots(), batches.len());
    assert!(retained_capacity > 0);

    let reduced = pool.plan_station_batches_into(&batches[..2], &Squares, &mut reusable_scratch);
    assert_eq!(reduced.batches.len(), 2);
    assert_eq!(reduced.stats, 8);
    assert_eq!(reusable_scratch.retained_batch_slots(), batches.len());
    assert_eq!(
        reusable_scratch
            .batches
            .iter()
            .map(Vec::capacity)
            .sum::<usize>(),
        retained_capacity
    );
}

#[test]
fn ordered_map_retains_input_order() {
    let pool = ReplicationThreadPool::new(ReplicationThreadPoolConfig::new(2, 2), AVAILABLE)
        .expect("pool builds");

    let output = pool.map_ordered(vec![3_u32, 1, 2], |value| value * value);

    assert_eq!(output, vec![9, 1, 4]);
}

#[test]
fn empty_station_batch_retains_no_scratch_lanes() {
    let pool = ReplicationThreadPool::new(ReplicationThreadPoolConfig::new(2, 2), AVAILABLE)
        .expect("pool builds");
    let mut scratch = ParallelReplicationScratch::new();
    let none: [Batch; 0] = [];
    let reusable = pool.plan_station_batches_into(&none, &Squares, &mut scratch);
    assert!(reusable.batches.is_empty());
    assert_eq!(reusable.stats, 0);
    assert_eq!(scratch.lanes(), 0);
}

#[test]
fn uneven_batches_use_fewer_lanes_than_workers() {
    let pool = ReplicationThreadPool::new(ReplicationThreadPoolConfig::new(4, 4), AVAILABLE)
        .expect("pool builds");
    assert_eq!(pool.threads(), 4);
    let mut scratch = ParallelReplicationScratch::new();
    let batches = batches(5);
    let view = pool.plan_station_batches_into(&batches, &Squares, &mut scratch);
    assert_eq!(view.batches.len(), 5);
    assert_eq!(view.batches[4], vec![1600, 1681, 1764, 1849]);
    assert_eq!(scratch.lanes(), 4);
    assert_eq!(scratch.active_lanes(), 3);
}

#[test]
fn partitions_cover_every_item_once() {
    for (items, partitions) in [(0, 3), (1, 3), (7, 3), (9, 3), (2, 5)] {
        let mut next = 0;
        for partition in 0..partitions {
            let bounds = partition_bounds(items, partitions, partition);
            assert_eq!(bounds.start, next);
            next = bounds.end;
        }
        assert_eq!(next, items);
    }
}

#[test]
fn workers_are_named_by_number() {
    assert_eq!(worker_name(0), "sectorsync-replication-0");
    assert_eq!(worker_name(907), "sectorsync-replication-907");
    let pool = ReplicationThreadPool::for_host(AVAILABLE).expect("pool builds");
    assert_eq!(pool.threads(), 2);
}

#[test]
fn a_failed_build_keeps_the_message() {
    match ReplicationThreadPool::from_build(2, Err("no workers".to_string())) {
        Ok(_) => panic!("nothing was built"),
        Err(error) => assert_eq!(error.message, "no workers"),
    }
}

#[test]
fn a_built_pool_keeps_its_workers() {
    let workers = rayon::ThreadPoolBuilder::new()
        .num_threads(2)
        .build()
        .map_err(|error| error.to_string());
    let pool = ReplicationThreadPool::from_build(2, workers).expect("workers were built");
    assert_eq!(pool.threads(), 2);
    assert_eq!(pool.map_ordered(vec![3, 1, 2], |value: u64| value + 1), vec![4, 2, 3]);
}

/// A slot that says how much it has room for.
struct Slot(usize);

impl RetainsEntities for Slot {
    fn retained_entity_capacity(&self) -> usize {
        self.0
    }
}

#[test]
fn retained_entity_room_adds_up() {
    let mut scratch: ParallelReplicationScratch<(), Slot> = ParallelReplicationScratch::new();
    assert_eq!(scratch.retained_entity_capacity(), 0);
    scratch.batches = vec![Slot(3), Slot(0), Slot(4)];
    assert_eq!(scratch.retained_entity_capacity(), 7);
    scratch.batches.push(Slot(usize::MAX));
    assert_eq!(scratch.retained_entity_capacity(), usize::MAX);
}

/// Numbers the batches that a lane has planned.
struct Counting;

impl StationBatchPlanner<Batch> for Counting {
    type Lane = u64;
    type Output = u64;
    type Stats = u64;

    fn new_lane(&self) -> u64 {
        0
    }

    fn new_output(&self) -> u64 {
        0
    }

    fn plan(&self, _batch: &Batch, lane: u64, _output: u64) -> (u64, u64) {
        (lane + 1, lane + 1)
    }

    fn no_stats(&self) -> u64 {
        0
    }

    fn merge_stats(&self, stats: u64, output: &u64) -> u64 {
        stats + output
    }
}

#[test]
fn lanes_go_on_from_batch_to_batch_and_from_call_to_call() {
    let batches = batches(5);
    let pool = ReplicationThreadPool::new(ReplicationThreadPoolConfig::new(2, 2), AVAILABLE)
        .expect("pool builds");
    let mut scratch = ParallelReplicationScratch::new();
    let first = pool.plan_station_batches_into(&batches, &Counting, &mut scratch);
    assert_eq!(first.batches, &[1, 2, 3, 1, 2]);
    assert_eq!(first.stats, 9);
    let second = pool.plan_station_batches_into(&batches, &Counting, &mut scratch);
    assert_eq!(second.batches, &[4, 5, 6, 3, 4]);
    assert_eq!(second.stats, 22);
}
