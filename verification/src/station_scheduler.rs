//! Station clocks: which stations advance, and the events that become ready.

use std::cmp::Ordering;
use std::collections::HashMap;

use vstd::prelude::*;

use crate::event_router::{EventRouter, EventRouterError, EventRouterStats, StationEventQueue};
use crate::ids::{StationEvent, StationId, Tick};
use crate::load_sampler::StationLoadSample;
use crate::memory::{map_capacity, vec_capacity};
use crate::split_scheduler::{load_score, station_load_score};
use crate::station::Station;
use crate::station_registry::position_of;
use crate::station_set::StationSet;

verus! {

/// Budget for a load-aware scheduler step.
#[derive(Clone, Copy, Debug, PartialEq, Eq, Structural)]
pub struct StationScheduleConfig {
    /// Maximum stations that may advance during one scheduler step.
    pub max_station_advances_per_step: usize,
}

impl Default for StationScheduleConfig {
    fn default() -> (config: Self)
        ensures
            config.max_station_advances_per_step == usize::MAX,
    {
        Self { max_station_advances_per_step: usize::MAX }
    }
}

/// Candidate selected by the load-aware station scheduler.
#[derive(Clone, Copy, Debug, PartialEq, Eq, Structural)]
pub struct StationScheduleCandidate {
    /// Station selected for advancement.
    pub station_id: StationId,
    /// Deterministic pressure score derived from the latest load sample.
    pub load_score: u64,
    /// How far this station is behind the most advanced station in the set.
    pub tick_lag: u64,
}

/// Result of one load-aware station scheduling pass.
#[derive(Clone, Debug, Default, PartialEq, Eq)]
pub struct StationSchedulePlan {
    /// Stations considered by this pass.
    pub candidates_considered: usize,
    /// Stations selected by this pass.
    pub stations_selected: usize,
    /// Station tick advances requested by this pass.
    pub total_advances: usize,
    /// Selected stations in deterministic execution order.
    pub selected: Vec<StationScheduleCandidate>,
}

/// Borrowed deterministic result from reusable Station scheduling storage.
#[derive(Clone, Copy, Debug, PartialEq, Eq)]
pub struct StationScheduleView<'a> {
    /// Stations considered by this pass.
    pub candidates_considered: usize,
    /// Stations selected by this pass.
    pub stations_selected: usize,
    /// Station tick advances requested by this pass.
    pub total_advances: usize,
    /// Selected stations in deterministic execution order.
    pub selected: &'a [StationScheduleCandidate],
}

/// Schedule score of a load sample whose most loaded cell has the given pressure.
pub open spec fn schedule_score(sample: StationLoadSample, max_cell_pressure: u64) -> u64 {
    load_score(sample).saturating_add(max_cell_pressure)
}

/// Returns the schedule score of a load sample.
pub fn station_schedule_score(sample: &StationLoadSample, max_cell_pressure: u64) -> (score: u64)
    ensures
        score == schedule_score(*sample, max_cell_pressure),
{
    station_load_score(sample).saturating_add(max_cell_pressure)
}

/// Pressure at a position, or none behind the last one.
pub open spec fn pressure_at(pressures: Seq<u64>, index: int) -> u64 {
    if 0 <= index < pressures.len() {
        pressures[index]
    } else {
        0
    }
}

/// Score of a station: that of its last sample, or zero without one.
pub open spec fn score_of(
    samples: Seq<StationLoadSample>,
    pressures: Seq<u64>,
    station_id: StationId,
) -> u64
    decreases samples.len(),
{
    if samples.len() == 0 {
        0
    } else if samples.last().station_id == station_id {
        schedule_score(samples.last(), pressure_at(pressures, samples.len() - 1))
    } else {
        score_of(samples.drop_last(), pressures, station_id)
    }
}

/// Tick of the most advanced station.
pub open spec fn latest_tick(entries: Seq<(StationId, Station)>) -> u64
    decreases entries.len(),
{
    if entries.len() == 0 {
        0
    } else {
        let tick = entries.last().1.tick.0;
        let before = latest_tick(entries.drop_last());
        if tick > before {
            tick
        } else {
            before
        }
    }
}

/// Candidate for a station.
pub open spec fn candidate_of(
    station: Station,
    samples: Seq<StationLoadSample>,
    pressures: Seq<u64>,
    latest: u64,
) -> StationScheduleCandidate {
    StationScheduleCandidate {
        station_id: station.config.station_id,
        load_score: score_of(samples, pressures, station.config.station_id),
        tick_lag: latest.saturating_sub(station.tick.0),
    }
}

/// Candidates for all stations in registration order.
pub open spec fn candidates_of(
    entries: Seq<(StationId, Station)>,
    samples: Seq<StationLoadSample>,
    pressures: Seq<u64>,
) -> Seq<StationScheduleCandidate> {
    Seq::new(
        entries.len(),
        |i: int| candidate_of(entries[i].1, samples, pressures, latest_tick(entries)),
    )
}

/// `left` comes before `right`, or they are equal: higher score first, then longer lag, then lower
/// station id.
pub open spec fn ahead(left: StationScheduleCandidate, right: StationScheduleCandidate) -> bool {
    if left.load_score != right.load_score {
        left.load_score > right.load_score
    } else if left.tick_lag != right.tick_lag {
        left.tick_lag > right.tick_lag
    } else {
        left.station_id.0 <= right.station_id.0
    }
}

/// The first `limit` of `ranked` are the leading candidates in order, and the rest follow them.
pub open spec fn leads(ranked: Seq<StationScheduleCandidate>, limit: int) -> bool {
    forall|i: int, j: int|
        0 <= i < limit && i <= j < ranked.len() ==> ahead(#[trigger] ranked[i], #[trigger] ranked[j])
}

/// `ranked` holds the candidates, with the leading ones in front.
pub open spec fn ranks(
    ranked: Seq<StationScheduleCandidate>,
    candidates: Seq<StationScheduleCandidate>,
    limit: int,
) -> bool {
    &&& ranked.to_multiset() == candidates.to_multiset()
    &&& ranked.len() == candidates.len()
    &&& leads(ranked, limit)
}

/// `selected` are the leading candidates in order.
pub open spec fn selects(
    selected: Seq<StationScheduleCandidate>,
    candidates: Seq<StationScheduleCandidate>,
    limit: int,
) -> bool {
    exists|ranked: Seq<StationScheduleCandidate>| #[trigger]
        ranks(ranked, candidates, limit) && limit <= ranked.len() && selected == ranked.take(limit)
}

/// Number of stations that a pass advances.
pub open spec fn advance_limit(config: StationScheduleConfig, stations: nat) -> int {
    if config.max_station_advances_per_step < stations {
        config.max_station_advances_per_step as int
    } else {
        stations as int
    }
}

/// Compares two candidates by schedule order.
pub fn compare_station_schedule_candidates(
    left: &StationScheduleCandidate,
    right: &StationScheduleCandidate,
) -> (order: Ordering)
    ensures
        match order {
            Ordering::Less => ahead(*left, *right) && left != right,
            Ordering::Equal => left == right,
            Ordering::Greater => ahead(*right, *left) && left != right,
        },
{
    if left.load_score != right.load_score {
        if left.load_score > right.load_score {
            Ordering::Less
        } else {
            Ordering::Greater
        }
    } else if left.tick_lag != right.tick_lag {
        if left.tick_lag > right.tick_lag {
            Ordering::Less
        } else {
            Ordering::Greater
        }
    } else if left.station_id.0 != right.station_id.0 {
        if left.station_id.0 < right.station_id.0 {
            Ordering::Less
        } else {
            Ordering::Greater
        }
    } else {
        Ordering::Equal
    }
}

fn overtakes(left: &StationScheduleCandidate, right: &StationScheduleCandidate) -> (before: bool)
    ensures
        before <==> ahead(*left, *right) && left != right,
{
    match compare_station_schedule_candidates(left, right) {
        Ordering::Less => true,
        _ => false,
    }
}

/// Position of the leading candidate from `start` on.
fn leading(candidates: &Vec<StationScheduleCandidate>, start: usize) -> (best: usize)
    requires
        start < candidates@.len(),
    ensures
        start <= best < candidates@.len(),
        forall|i: int| start <= i < candidates@.len() ==> ahead(
            candidates@[best as int],
            #[trigger] candidates@[i],
        ),
{
    let mut best: usize = start;
    assert(candidates@.len() == candidates.len());
    let mut index: usize = start + 1;
    while index < candidates.len()
        invariant
            start <= best < index <= candidates@.len(),
            forall|i: int| start <= i < index ==> ahead(
                candidates@[best as int],
                #[trigger] candidates@[i],
            ),
        decreases candidates@.len() - index,
    {
        if overtakes(&candidates[index], &candidates[best]) {
            best = index;
        }
        index = index + 1;
    }
    best
}

/// Brings the `limit` leading candidates to the front, in order.
pub fn prioritize_station_candidates(
    candidates: &mut Vec<StationScheduleCandidate>,
    limit: usize,
)
    requires
        limit <= old(candidates)@.len(),
    ensures
        ranks(final(candidates)@, old(candidates)@, limit as int),
{
    let ghost given = candidates@;
    let mut placed: usize = 0;
    while placed < limit
        invariant
            given == old(candidates)@,
            placed <= limit <= candidates@.len(),
            ranks(candidates@, given, placed as int),
        decreases limit - placed,
    {
        let ghost before = candidates@;
        let best: usize = leading(candidates, placed);
        let first = candidates[placed];
        let lead = candidates[best];
        candidates.set(placed, lead);
        candidates.set(best, first);
        proof {
            let half = before.update(placed as int, lead);
            vstd::seq_lib::to_multiset_update(before, placed as int, lead);
            vstd::seq_lib::to_multiset_update(half, best as int, first);
            vstd::seq_lib::to_multiset_contains(before, before[placed as int]);
            assert(candidates@.to_multiset() =~= before.to_multiset());
            assert forall|i: int, j: int| 0 <= i < placed + 1 && i <= j < candidates@.len() implies
                ahead(#[trigger] candidates@[i], #[trigger] candidates@[j]) by {
                let from = if j == placed {
                    best as int
                } else if j == best {
                    placed as int
                } else {
                    j
                };
                assert(candidates@[j] == before[from]);
                if i < placed {
                    assert(candidates@[i] == before[i]);
                } else {
                    assert(candidates@[i] == before[best as int]);
                }
            }
        }
        placed = placed + 1;
    }
}

/// Caller-owned reusable storage for load-aware Station scheduling.
///
/// Storage contains only derived pressure scores and stateless candidates. It
/// does not retain scheduling decisions, cooldowns, or gameplay state.
#[derive(Clone, Debug)]
pub struct StationScheduleScratch {
    /// Scores by station number.
    pub scores: HashMap<u32, u64>,
    /// Candidates.
    pub candidates: Vec<StationScheduleCandidate>,
}

impl Default for StationScheduleScratch {
    fn default() -> (scratch: Self)
        ensures
            scratch.scores@ == Map::<u32, u64>::empty(),
            scratch.candidates@.len() == 0,
    {
        Self::new()
    }
}

/// The map holds the score of every sampled station.
pub open spec fn holds_scores(
    scores: Map<u32, u64>,
    samples: Seq<StationLoadSample>,
    pressures: Seq<u64>,
) -> bool {
    forall|id: u32| #[trigger] score_of(samples, pressures, StationId(id)) == (if scores.contains_key(id) {
        scores[id]
    } else {
        0
    })
}

impl StationScheduleScratch {
    /// Creates empty scheduling scratch.
    pub fn new() -> (scratch: Self)
        ensures
            scratch.scores@ == Map::<u32, u64>::empty(),
            scratch.candidates@.len() == 0,
    {
        Self { scores: HashMap::new(), candidates: Vec::new() }
    }

    /// Hash-table capacity retained for sampled Station scores.
    pub fn score_capacity(&self) -> (capacity: usize)
        ensures
            capacity >= self.scores@.dom().len(),
    {
        map_capacity(&self.scores)
    }

    /// Candidate capacity retained across scheduling passes.
    pub fn candidate_capacity(&self) -> (capacity: usize)
        ensures
            capacity >= self.candidates@.len(),
    {
        vec_capacity(&self.candidates)
    }

    fn collect_scores(&mut self, samples: &[StationLoadSample], pressures: &[u64])
        ensures
            holds_scores(final(self).scores@, samples@, pressures@),
            final(self).candidates == old(self).candidates,
    {
        broadcast use vstd::std_specs::hash::group_hash_axioms;

        self.scores.clear();
        self.scores.reserve(samples.len());
        let mut index: usize = 0;
        assert(samples@.take(0) =~= Seq::empty());
        while index < samples.len()
            invariant
                index <= samples@.len(),
                self.candidates == old(self).candidates,
                holds_scores(self.scores@, samples@.take(index as int), pressures@),
            decreases samples@.len() - index,
        {
            broadcast use vstd::std_specs::hash::group_hash_axioms;

            let pressure: u64 = if index < pressures.len() {
                pressures[index]
            } else {
                0
            };
            let sample = &samples[index];
            let ghost before = self.scores@;
            let ghost shorter = samples@.take(index as int);
            let ghost longer = samples@.take(index + 1);
            self.scores.insert(sample.station_id.0, station_schedule_score(sample, pressure));
            proof {
                assert(longer.drop_last() =~= shorter);
                assert(longer.last() == samples@[index as int]);
                assert forall|id: u32| #[trigger]
                    score_of(longer, pressures@, StationId(id)) == (if self.scores@.contains_key(
                        id,
                    ) {
                        self.scores@[id]
                    } else {
                        0
                    }) by {
                    assert(score_of(shorter, pressures@, StationId(id)) == (if before.contains_key(
                        id,
                    ) {
                        before[id]
                    } else {
                        0
                    }));
                    assert(longer.last().station_id == StationId(id) <==> sample.station_id.0 == id);
                }
            }
            index = index + 1;
        }
        assert(samples@.take(index as int) =~= samples@);
    }

    fn collect_candidates(
        &mut self,
        stations: &StationSet,
        Ghost(samples): Ghost<Seq<StationLoadSample>>,
        Ghost(pressures): Ghost<Seq<u64>>,
    )
        requires
            holds_scores(old(self).scores@, samples, pressures),
        ensures
            final(self).candidates@ == candidates_of(
                stations.registry.entries@,
                samples,
                pressures,
            ),
    {
        broadcast use vstd::std_specs::hash::group_hash_axioms;

        let ghost entries = stations.registry.entries@;
        let max_tick: u64 = most_advanced(stations);
        self.candidates.clear();
        self.candidates.reserve(stations.len());
        let mut index: usize = 0;
        while index < stations.registry.entries.len()
            invariant
                entries == stations.registry.entries@,
                max_tick == latest_tick(entries),
                index <= entries.len(),
                holds_scores(self.scores@, samples, pressures),
                self.candidates@.len() == index,
                forall|i: int|
                    0 <= i < index ==> #[trigger] self.candidates@[i] == candidate_of(
                        entries[i].1,
                        samples,
                        pressures,
                        max_tick,
                    ),
            decreases entries.len() - index,
        {
            broadcast use vstd::std_specs::hash::group_hash_axioms;

            let station = &stations.registry.entries[index].1;
            let station_id = station.config.station_id;
            let load_score: u64 = match self.scores.get(&station_id.0) {
                Some(score) => *score,
                None => 0,
            };
            assert(load_score == score_of(samples, pressures, StationId(station_id.0)));
            self.candidates.push(
                StationScheduleCandidate {
                    station_id,
                    load_score,
                    tick_lag: max_tick.saturating_sub(station.tick.0),
                },
            );
            index = index + 1;
        }
        assert(self.candidates@ =~= candidates_of(entries, samples, pressures));
    }
}

fn most_advanced(stations: &StationSet) -> (tick: u64)
    ensures
        tick == latest_tick(stations.registry.entries@),
{
    let ghost entries = stations.registry.entries@;
    let mut latest: u64 = 0;
    let mut index: usize = 0;
    assert(entries.take(0) =~= Seq::empty());
    while index < stations.registry.entries.len()
        invariant
            entries == stations.registry.entries@,
            index <= entries.len(),
            latest == latest_tick(entries.take(index as int)),
        decreases entries.len() - index,
    {
        assert(entries.take(index + 1).drop_last() =~= entries.take(index as int));
        let tick: u64 = stations.registry.entries[index].1.tick.0;
        if tick > latest {
            latest = tick;
        }
        index = index + 1;
    }
    assert(entries.take(index as int) =~= entries);
    latest
}

/// The station at a position moves to its next tick.
pub open spec fn with_advance(entries: Seq<(StationId, Station)>, at: int) -> Seq<
    (StationId, Station),
> {
    let station = entries[at].1;
    entries.update(
        at,
        (entries[at].0, Station { tick: Tick(station.tick.0.saturating_add(1)), ..station }),
    )
}

/// Position that the lookup of a candidate finds.
pub open spec fn candidate_position(
    entries: Seq<(StationId, Station)>,
    candidate: StationScheduleCandidate,
) -> Option<int> {
    position_of(Seq::new(entries.len(), |i: int| entries[i].0.0), candidate.station_id.0)
}

/// The selected stations move to their next tick, one after the other.
pub open spec fn with_advances(
    entries: Seq<(StationId, Station)>,
    selected: Seq<StationScheduleCandidate>,
) -> Seq<(StationId, Station)>
    decreases selected.len(),
{
    if selected.len() == 0 {
        entries
    } else {
        let before = with_advances(entries, selected.drop_last());
        match candidate_position(before, selected.last()) {
            Some(at) => with_advance(before, at),
            None => before,
        }
    }
}

/// Tick advances counted once the selected stations moved.
pub open spec fn advances_counted(
    advanced_ticks: u64,
    entries: Seq<(StationId, Station)>,
    selected: Seq<StationScheduleCandidate>,
) -> u64
    decreases selected.len(),
{
    if selected.len() == 0 {
        advanced_ticks
    } else {
        let before = advances_counted(advanced_ticks, entries, selected.drop_last());
        match candidate_position(with_advances(entries, selected.drop_last()), selected.last()) {
            Some(_) => before.saturating_add(1),
            None => before,
        }
    }
}

/// Every station moves to its next tick.
pub open spec fn all_advanced(entries: Seq<(StationId, Station)>, count: int) -> Seq<
    (StationId, Station),
> {
    Seq::new(
        entries.len(),
        |i: int|
            if i < count {
                (
                    entries[i].0,
                    Station {
                        tick: Tick(entries[i].1.tick.0.saturating_add(1)),
                        ..entries[i].1
                    },
                )
            } else {
                entries[i]
            },
    )
}

/// The stages of a drain: queues and output before each step, and what each step drained.
pub open spec fn drain_stages<Q>(
    queues: Seq<Map<u128, Q>>,
    outputs: Seq<Vec<StationEvent>>,
    drained: Seq<usize>,
) -> bool {
    &&& queues.len() == drained.len() + 1
    &&& outputs.len() == drained.len() + 1
    &&& outputs[0]@.len() == 0
}

/// One step of a drain: the queue of one station and the output, before and after.
pub open spec fn drain_step<Q>(
    queues: Seq<Map<u128, Q>>,
    outputs: Seq<Vec<StationEvent>>,
    step: int,
    key: u128,
    queue: Q,
    queue_after: Q,
    output: Vec<StationEvent>,
    output_after: Vec<StationEvent>,
) -> bool {
    &&& queue == queues[step][key]
    &&& queues[step + 1] == queues[step].insert(key, queue_after)
    &&& output == outputs[step]
    &&& output_after == outputs[step + 1]
}

/// Router statistics once several queues were drained.
pub open spec fn router_with_drained(
    stats: EventRouterStats,
    drained: Seq<usize>,
) -> EventRouterStats
    decreases drained.len(),
{
    if drained.len() == 0 {
        stats
    } else {
        router_with_drained(stats, drained.drop_last()).with_drained(drained.last())
    }
}

/// Basic in-process station scheduler.
#[derive(Clone, Debug)]
pub struct StationScheduler {
    /// Total station ticks advanced by this scheduler.
    pub advanced_ticks: u64,
}

impl Default for StationScheduler {
    fn default() -> (scheduler: Self)
        ensures
            scheduler.advanced_ticks == 0,
    {
        Self { advanced_ticks: 0 }
    }
}

impl StationScheduler {
    /// Advances every station by one tick.
    pub fn advance_all(&mut self, stations: &mut StationSet)
        requires
            old(stations).wf(),
        ensures
            final(stations).wf(),
            final(stations).registry.entries@ == all_advanced(
                old(stations).registry.entries@,
                old(stations).registry.entries@.len() as int,
            ),
            final(self).advanced_ticks == old(self).advanced_ticks.saturating_add(
                old(stations).registry.entries@.len() as u64,
            ),
    {
        let ghost entries = stations.registry.entries@;
        let ghost ids = stations.registry.ids();
        let count: usize = stations.len();
        let mut index: usize = 0;
        assert(stations.registry.entries@ =~= all_advanced(entries, 0));
        while index < count
            invariant
                entries == old(stations).registry.entries@,
                count == entries.len(),
                index <= count,
                ids == old(stations).registry.ids(),
                stations.registry.ids() == ids,
                stations.wf(),
                stations.registry.entries@ == all_advanced(entries, index as int),
                self.advanced_ticks == old(self).advanced_ticks.saturating_add(index as u64),
            decreases count - index,
        {
            if let Some(station) = stations.get_at_mut(index) {
                station.advance_tick();
            }
            self.advanced_ticks = self.advanced_ticks.saturating_add(1);
            proof {
                assert(stations.registry.entries@ =~= all_advanced(entries, index + 1));
                assert(stations.registry.ids() =~= ids);
            }
            index = index + 1;
        }
    }

    /// Plans a bounded station advancement pass from load samples.
    ///
    /// `pressures` holds the pressure of the most loaded cell of each sample.
    pub fn plan_loaded(
        &self,
        stations: &StationSet,
        samples: &[StationLoadSample],
        pressures: &[u64],
        config: StationScheduleConfig,
    ) -> (plan: StationSchedulePlan)
        ensures
            ({
                let entries = stations.registry.entries@;
                let limit = advance_limit(config, entries.len());
                &&& plan.candidates_considered == entries.len()
                &&& plan.stations_selected == limit
                &&& plan.total_advances == limit
                &&& plan.selected@.len() == limit
                &&& selects(plan.selected@, candidates_of(entries, samples@, pressures@), limit)
            }),
    {
        let mut scratch = StationScheduleScratch::new();
        let view = self.plan_loaded_into(stations, samples, pressures, config, &mut scratch);
        StationSchedulePlan {
            candidates_considered: view.candidates_considered,
            stations_selected: view.stations_selected,
            total_advances: view.total_advances,
            selected: copy_candidates(view.selected),
        }
    }

    /// Plans into caller-owned storage and returns a borrowed deterministic top-k view.
    ///
    /// `pressures` holds the pressure of the most loaded cell of each sample.
    pub fn plan_loaded_into<'a>(
        &self,
        stations: &StationSet,
        samples: &[StationLoadSample],
        pressures: &[u64],
        config: StationScheduleConfig,
        scratch: &'a mut StationScheduleScratch,
    ) -> (view: StationScheduleView<'a>)
        ensures
            ({
                let entries = stations.registry.entries@;
                let limit = advance_limit(config, entries.len());
                &&& view.candidates_considered == entries.len()
                &&& view.stations_selected == limit
                &&& view.total_advances == limit
                &&& view.selected@.len() == limit
                &&& selects(view.selected@, candidates_of(entries, samples@, pressures@), limit)
            }),
    {
        let candidates_considered: usize = stations.len();
        let limit: usize = if config.max_station_advances_per_step < candidates_considered {
            config.max_station_advances_per_step
        } else {
            candidates_considered
        };
        let ghost candidates = candidates_of(stations.registry.entries@, samples@, pressures@);
        scratch.collect_scores(samples, pressures);
        scratch.collect_candidates(stations, Ghost(samples@), Ghost(pressures@));
        prioritize_station_candidates(&mut scratch.candidates, limit);
        let ghost ranked = scratch.candidates@;
        assert(ranks(ranked, candidates, limit as int));
        let selected = vstd::slice::slice_subrange(scratch.candidates.as_slice(), 0, limit);
        assert(selected@ =~= ranked.take(limit as int));
        StationScheduleView {
            candidates_considered,
            stations_selected: selected.len(),
            total_advances: selected.len(),
            selected,
        }
    }

    /// Advances a bounded set of high-load stations by one tick each.
    ///
    /// `pressures` holds the pressure of the most loaded cell of each sample.
    pub fn advance_loaded(
        &mut self,
        stations: &mut StationSet,
        samples: &[StationLoadSample],
        pressures: &[u64],
        config: StationScheduleConfig,
    ) -> (plan: StationSchedulePlan)
        requires
            old(stations).wf(),
        ensures
            ({
                let entries = old(stations).registry.entries@;
                let limit = advance_limit(config, entries.len());
                &&& plan.candidates_considered == entries.len()
                &&& plan.stations_selected == limit
                &&& plan.total_advances == limit
                &&& plan.selected@.len() == limit
                &&& selects(plan.selected@, candidates_of(entries, samples@, pressures@), limit)
                &&& final(stations).wf()
                &&& final(stations).registry.entries@ == with_advances(entries, plan.selected@)
                &&& final(self).advanced_ticks == advances_counted(
                    old(self).advanced_ticks,
                    entries,
                    plan.selected@,
                )
            }),
    {
        let plan = self.plan_loaded(stations, samples, pressures, config);
        self.advance_selected(stations, plan.selected.as_slice());
        plan
    }

    /// Advances a bounded top-k set using reusable caller-owned scheduling storage.
    ///
    /// `pressures` holds the pressure of the most loaded cell of each sample.
    pub fn advance_loaded_into<'a>(
        &mut self,
        stations: &mut StationSet,
        samples: &[StationLoadSample],
        pressures: &[u64],
        config: StationScheduleConfig,
        scratch: &'a mut StationScheduleScratch,
    ) -> (view: StationScheduleView<'a>)
        requires
            old(stations).wf(),
        ensures
            ({
                let entries = old(stations).registry.entries@;
                let limit = advance_limit(config, entries.len());
                &&& view.candidates_considered == entries.len()
                &&& view.stations_selected == limit
                &&& view.total_advances == limit
                &&& view.selected@.len() == limit
                &&& selects(view.selected@, candidates_of(entries, samples@, pressures@), limit)
                &&& final(stations).wf()
                &&& final(stations).registry.entries@ == with_advances(entries, view.selected@)
                &&& final(self).advanced_ticks == advances_counted(
                    old(self).advanced_ticks,
                    entries,
                    view.selected@,
                )
            }),
    {
        let view = self.plan_loaded_into(stations, samples, pressures, config, scratch);
        self.advance_selected(stations, view.selected);
        view
    }

    fn advance_selected(
        &mut self,
        stations: &mut StationSet,
        selected: &[StationScheduleCandidate],
    )
        requires
            old(stations).wf(),
        ensures
            final(stations).wf(),
            final(stations).registry.entries@ == with_advances(
                old(stations).registry.entries@,
                selected@,
            ),
            final(self).advanced_ticks == advances_counted(
                old(self).advanced_ticks,
                old(stations).registry.entries@,
                selected@,
            ),
    {
        let ghost entries = stations.registry.entries@;
        let mut index: usize = 0;
        assert(selected@.take(0) =~= Seq::empty());
        while index < selected.len()
            invariant
                entries == old(stations).registry.entries@,
                index <= selected@.len(),
                stations.wf(),
                stations.registry.entries@ == with_advances(entries, selected@.take(index as int)),
                self.advanced_ticks == advances_counted(
                    old(self).advanced_ticks,
                    entries,
                    selected@.take(index as int),
                ),
            decreases selected@.len() - index,
        {
            let ghost before = stations.registry.entries@;
            assert(selected@.take(index + 1).drop_last() =~= selected@.take(index as int));
            assert(stations.registry.ids() =~= Seq::new(
                before.len(),
                |i: int| before[i].0.0,
            ));
            if let Some(station) = stations.get_mut(selected[index].station_id) {
                station.advance_tick();
                self.advanced_ticks = self.advanced_ticks.saturating_add(1);
            }
            index = index + 1;
        }
        assert(selected@.take(index as int) =~= selected@);
    }

    /// Drains router events ready for each station's current tick, as
    /// [`Self::drain_ready_events_into`] does into empty storage.
    pub fn drain_ready_events<Q: StationEventQueue>(
        &mut self,
        stations: &StationSet,
        router: &mut EventRouter<Q>,
    ) -> (result: Result<Vec<StationEvent>, EventRouterError<Q::Error>>)
        requires
            old(router).wf(),
        ensures
            final(router).wf(),
            exists|
                scheduler: &mut Self,
                routing: &mut EventRouter<Q>,
                storage: &mut Vec<StationEvent>,
                outcome: Result<(), EventRouterError<Q::Error>>,
            |
                {
                    &&& #[trigger] call_ensures(
                        Self::drain_ready_events_into::<Q>,
                        (scheduler, stations, routing, storage),
                        outcome,
                    )
                    &&& *scheduler == *old(self)
                    &&& *final(scheduler) == *final(self)
                    &&& *routing == *old(router)
                    &&& *final(routing) == *final(router)
                    &&& storage@.len() == 0
                    &&& result == (match outcome {
                        Ok(()) => Ok(*final(storage)),
                        Err(error) => Err(error),
                    })
                },
    {
        let mut events: Vec<StationEvent> = Vec::new();
        match self.drain_ready_events_into(stations, router, &mut events) {
            Ok(()) => Ok(events),
            Err(error) => Err(error),
        }
    }

    /// Drains all Station-ready events into reusable caller-owned output.
    #[verifier::spinoff_prover]
    pub fn drain_ready_events_into<Q: StationEventQueue>(
        &mut self,
        stations: &StationSet,
        router: &mut EventRouter<Q>,
        events: &mut Vec<StationEvent>,
    ) -> (result: Result<(), EventRouterError<Q::Error>>)
        requires
            old(router).wf(),
        ensures
            final(router).wf(),
            *final(self) == *old(self),
            final(router).limits == old(router).limits,
            final(router).queues@.dom() == old(router).queues@.dom(),
            exists|
                queues: Seq<Map<u128, Q>>,
                outputs: Seq<Vec<StationEvent>>,
                drained: Seq<usize>,
            |
                {
                    &&& #[trigger] drain_stages(queues, outputs, drained)
                    &&& queues[0] == old(router).queues@
                    &&& final(router).queues@ == queues.last()
                    &&& *final(events) == outputs.last()
                    &&& final(router).stats == router_with_drained(old(router).stats, drained)
                    &&& drained.len() <= stations.registry.entries@.len()
                    &&& forall|i: int|
                        0 <= i < drained.len() ==> {
                            let key = stations.registry.entries@[i].1.config.station_id.0 as u128;
                            &&& (#[trigger] queues[i]).contains_key(key)
                            &&& exists|queue: &mut Q, storage: &mut Vec<StationEvent>|
                                {
                                    &&& #[trigger] call_ensures(
                                        Q::drain_ready_into,
                                        (queue, stations.registry.entries@[i].1.tick, storage),
                                        drained[i],
                                    )
                                    &&& drain_step(
                                        queues,
                                        outputs,
                                        i,
                                        key,
                                        *queue,
                                        *final(queue),
                                        *storage,
                                        *final(storage),
                                    )
                                }
                        }
                    &&& match result {
                        Ok(()) => drained.len() == stations.registry.entries@.len(),
                        Err(error) => {
                            let at = drained.len() as int;
                            &&& at < stations.registry.entries@.len()
                            &&& error == EventRouterError::<Q::Error>::MissingTarget(
                                stations.registry.entries@[at].1.config.station_id,
                            )
                            &&& !old(router).queues@.contains_key(
                                stations.registry.entries@[at].1.config.station_id.0 as u128,
                            )
                        },
                    }
                },
    {
        events.clear();
        let ghost entries = stations.registry.entries@;
        let ghost mut queues: Seq<Map<u128, Q>> = seq![router.queues@];
        let ghost mut outputs: Seq<Vec<StationEvent>> = seq![*events];
        let ghost mut drained: Seq<usize> = Seq::empty();
        let mut index: usize = 0;
        while index < stations.registry.entries.len()
            invariant
                entries == stations.registry.entries@,
                index <= entries.len(),
                drained.len() == index,
                router.wf(),
                *self == *old(self),
                router.limits == old(router).limits,
                router.queues@.dom() == old(router).queues@.dom(),
                drain_stages(queues, outputs, drained),
                queues[0] == old(router).queues@,
                router.queues@ == queues.last(),
                *events == outputs.last(),
                router.stats == router_with_drained(old(router).stats, drained),
                forall|i: int|
                    0 <= i < drained.len() ==> {
                        let key = stations.registry.entries@[i].1.config.station_id.0 as u128;
                        &&& (#[trigger] queues[i]).contains_key(key)
                        &&& exists|queue: &mut Q, storage: &mut Vec<StationEvent>|
                            {
                                &&& #[trigger] call_ensures(
                                    Q::drain_ready_into,
                                    (queue, stations.registry.entries@[i].1.tick, storage),
                                    drained[i],
                                )
                                &&& drain_step(
                                    queues,
                                    outputs,
                                    i,
                                    key,
                                    *queue,
                                    *final(queue),
                                    *storage,
                                    *final(storage),
                                )
                            }
                    },
            decreases entries.len() - index,
        {
            let station = &stations.registry.entries[index].1;
            let ghost before = router.queues@;
            let ghost key = station.config.station_id.0 as u128;
            if !router.queues.contains_key(station.config.station_id.0 as u128) {
                assert(before.dom().contains(key) <==> before.contains_key(key));
                assert(old(router).queues@.dom().contains(key) <==> old(
                    router,
                ).queues@.contains_key(key));
                return Err(EventRouterError::MissingTarget(station.config.station_id));
            }
            let count: usize = match router.append_ready(
                station.config.station_id,
                station.tick,
                events,
            ) {
                Ok(count) => count,
                Err(error) => {
                    return Err(error);
                },
            };
            proof {
                assert(router.queues@.dom() =~= before.dom());
                let more_queues = queues.push(router.queues@);
                let more_outputs = outputs.push(*events);
                let more_drained = drained.push(count);
                assert(more_drained.drop_last() =~= drained);
                assert forall|i: int| 0 <= i < more_drained.len() implies {
                    let key = stations.registry.entries@[i].1.config.station_id.0 as u128;
                    &&& (#[trigger] more_queues[i]).contains_key(key)
                    &&& exists|queue: &mut Q, storage: &mut Vec<StationEvent>|
                        {
                            &&& #[trigger] call_ensures(
                                Q::drain_ready_into,
                                (queue, stations.registry.entries@[i].1.tick, storage),
                                more_drained[i],
                            )
                            &&& drain_step(
                                more_queues,
                                more_outputs,
                                i,
                                key,
                                *queue,
                                *final(queue),
                                *storage,
                                *final(storage),
                            )
                        }
                } by {
                    assert(more_queues[i] == queues[i]);
                    assert(more_outputs[i] == outputs[i]);
                    if i < drained.len() {
                        assert(more_queues[i + 1] == queues[i + 1]);
                        assert(more_outputs[i + 1] == outputs[i + 1]);
                        assert(more_drained[i] == drained[i]);
                    } else {
                        assert(more_drained[i] == count);
                        assert(more_queues[i + 1] == router.queues@);
                        assert(more_outputs[i + 1] == *events);
                    }
                }
                queues = more_queues;
                outputs = more_outputs;
                drained = more_drained;
            }
            index = index + 1;
        }
        Ok(())
    }
}

fn copy_candidates(candidates: &[StationScheduleCandidate]) -> (copy: Vec<
    StationScheduleCandidate,
>)
    ensures
        copy@ == candidates@,
{
    let mut copy: Vec<StationScheduleCandidate> = Vec::new();
    let mut index: usize = 0;
    while index < candidates.len()
        invariant
            index <= candidates@.len(),
            copy@ == candidates@.take(index as int),
        decreases candidates@.len() - index,
    {
        copy.push(candidates[index]);
        index = index + 1;
        assert(copy@ =~= candidates@.take(index as int));
    }
    assert(copy@ =~= candidates@);
    copy
}

proof fn lemma_prefixes_agree(
    left: Seq<StationScheduleCandidate>,
    right: Seq<StationScheduleCandidate>,
    limit: int,
    count: int,
)
    requires
        left.to_multiset() == right.to_multiset(),
        left.len() == right.len(),
        leads(left, limit),
        leads(right, limit),
        0 <= count <= limit <= left.len(),
    ensures
        left.take(count) == right.take(count),
    decreases count,
{
    if count > 0 {
        let at = count - 1;
        lemma_prefixes_agree(left, right, limit, at);
        let front = left.take(at);
        assert(left =~= front + left.skip(at));
        assert(right =~= front + right.skip(at));
        vstd::seq_lib::lemma_multiset_commutative(front, left.skip(at));
        vstd::seq_lib::lemma_multiset_commutative(front, right.skip(at));
        let head = front.to_multiset();
        let ahead_left = left.skip(at).to_multiset();
        let ahead_right = right.skip(at).to_multiset();
        assert(left.to_multiset() =~= head.add(ahead_left));
        assert(right.to_multiset() =~= head.add(ahead_right));
        assert(ahead_left =~= ahead_right) by {
            broadcast use vstd::multiset::group_multiset_axioms;

            assert forall|candidate: StationScheduleCandidate| #[trigger]
                ahead_left.count(candidate) == ahead_right.count(candidate) by {
                assert(head.add(ahead_left).count(candidate) == head.add(ahead_right).count(
                    candidate,
                ));
            }
        }
        assert(left.skip(at)[0] == left[at]);
        assert(right.skip(at)[0] == right[at]);
        vstd::seq_lib::to_multiset_contains(left.skip(at), left[at]);
        vstd::seq_lib::to_multiset_contains(right.skip(at), left[at]);
        vstd::seq_lib::to_multiset_contains(right.skip(at), right[at]);
        vstd::seq_lib::to_multiset_contains(left.skip(at), right[at]);
        let there = choose|j: int| 0 <= j < right.skip(at).len() && right.skip(at)[j] == left[at];
        let here = choose|j: int| 0 <= j < left.skip(at).len() && left.skip(at)[j] == right[at];
        assert(right[at + there] == left[at]);
        assert(left[at + here] == right[at]);
        assert(left.take(count) =~= front.push(left[at]));
        assert(right.take(count) =~= front.push(right[at]));
    }
}

/// The stations and samples alone decide which stations a pass selects, and in what order.
pub proof fn law_selection_is_deterministic(
    left: Seq<StationScheduleCandidate>,
    right: Seq<StationScheduleCandidate>,
    candidates: Seq<StationScheduleCandidate>,
    limit: int,
)
    requires
        0 <= limit,
        selects(left, candidates, limit),
        selects(right, candidates, limit),
    ensures
        left == right,
{
    let one = choose|ranked: Seq<StationScheduleCandidate>| #[trigger]
        ranks(ranked, candidates, limit) && limit <= ranked.len() && left == ranked.take(limit);
    let other = choose|ranked: Seq<StationScheduleCandidate>| #[trigger]
        ranks(ranked, candidates, limit) && limit <= ranked.len() && right == ranked.take(limit);
    lemma_prefixes_agree(one, other, limit, limit);
}

/// A pass never selects a station while one that comes before it is left out.
pub proof fn law_selected_stations_lead(
    ranked: Seq<StationScheduleCandidate>,
    candidates: Seq<StationScheduleCandidate>,
    limit: int,
    candidate: StationScheduleCandidate,
    chosen: int,
)
    requires
        ranks(ranked, candidates, limit),
        0 <= chosen < limit <= ranked.len(),
        candidates.contains(candidate),
        !ranked.take(limit).contains(candidate),
    ensures
        ahead(ranked[chosen], candidate),
{
    vstd::seq_lib::to_multiset_contains(candidates, candidate);
    vstd::seq_lib::to_multiset_contains(ranked, candidate);
    let at = choose|j: int| 0 <= j < ranked.len() && ranked[j] == candidate;
    if at < limit {
        assert(ranked.take(limit)[at] == candidate);
    }
}

} // verus!
