//! In-process routing of station events to per-station queues.

use vstd::prelude::*;

use crate::ids::{StationEvent, StationId, Tick};
use crate::ordered_map::OrderedMap;
use crate::station_set::StationSet;

verus! {

/// What became of an event that a queue accepted.
#[derive(Clone, Copy, Debug, PartialEq, Eq, Structural)]
pub enum PushOutcome {
    /// The event was queued.
    Queued,
    /// The event was queued, and the oldest best-effort event was dropped for it.
    DroppedOldestBestEffort,
}

/// Bounded event queue of one station.
pub trait StationEventQueue: Sized {
    /// Queue limits.
    type Limits: Copy;

    /// Why a queue refuses an event.
    type Error;

    /// Creates an empty queue.
    fn with_limits(limits: Self::Limits) -> Self;

    /// Queues an event.
    fn push(&mut self, event: StationEvent) -> Result<PushOutcome, Self::Error>;

    /// Appends the events that are ready at a tick, takes them off the queue, and returns how many
    /// there were.
    fn drain_ready_into(&mut self, current_tick: Tick, ready: &mut Vec<StationEvent>) -> usize;

    /// Returns the number of queued events.
    fn len(&self) -> usize;
}

/// Event router statistics.
#[derive(Clone, Copy, Debug, Default, PartialEq, Eq, Structural)]
pub struct EventRouterStats {
    /// Events accepted by target queues.
    pub routed_events: usize,
    /// Ready events drained for station application.
    pub drained_events: usize,
    /// Best-effort events dropped by bounded target queues.
    pub dropped_best_effort_events: usize,
}

impl EventRouterStats {
    /// The counts after events were drained.
    pub open spec fn with_drained(self, drained: usize) -> Self {
        EventRouterStats { drained_events: self.drained_events.saturating_add(drained), ..self }
    }

    /// The counts after a queue accepted an event.
    pub open spec fn with_routed(self, outcome: PushOutcome) -> Self {
        EventRouterStats {
            routed_events: self.routed_events.saturating_add(1),
            dropped_best_effort_events: if outcome == PushOutcome::DroppedOldestBestEffort {
                self.dropped_best_effort_events.saturating_add(1)
            } else {
                self.dropped_best_effort_events
            },
            ..self
        }
    }
}

/// Event router error.
#[derive(Clone, Copy, Debug, PartialEq, Eq)]
pub enum EventRouterError<E> {
    /// Target station was not registered with the router.
    MissingTarget(StationId),
    /// Underlying target queue rejected the event.
    Queue(E),
}

/// In-process station event router.
#[derive(Clone, Debug)]
pub struct EventRouter<Q: StationEventQueue> {
    /// Limits of every queue.
    pub limits: Q::Limits,
    /// Queues by station number.
    pub queues: OrderedMap<Q>,
    /// Statistics.
    pub stats: EventRouterStats,
}

/// A queue as it was created.
pub open spec fn is_fresh<Q: StationEventQueue>(limits: Q::Limits, queue: Q) -> bool {
    call_ensures(Q::with_limits, (limits,), queue)
}

/// A count that a queue may report as its length.
pub open spec fn has_len<Q: StationEventQueue>(queue: Q, count: usize) -> bool {
    call_ensures(Q::len, (&queue,), count)
}

impl<Q: StationEventQueue> EventRouter<Q> {
    /// The queue table is well-formed.
    pub open spec fn wf(self) -> bool {
        self.queues.wf()
    }

    /// A count that the router may report for a station: none without a queue.
    pub open spec fn reports(self, station_id: StationId, count: Option<usize>) -> bool {
        match count {
            Some(count) => self.queues@.contains_key(station_id.0 as u128) && has_len(
                self.queues@[station_id.0 as u128],
                count,
            ),
            None => !self.queues@.contains_key(station_id.0 as u128),
        }
    }

    /// Creates an empty event router.
    pub fn new(limits: Q::Limits) -> (router: Self)
        ensures
            router.wf(),
            router.limits == limits,
            router.queues@ == Map::<u128, Q>::empty(),
            router.stats == (EventRouterStats {
                routed_events: 0,
                drained_events: 0,
                dropped_best_effort_events: 0,
            }),
    {
        Self {
            limits,
            queues: OrderedMap::new(),
            stats: EventRouterStats {
                routed_events: 0,
                drained_events: 0,
                dropped_best_effort_events: 0,
            },
        }
    }

    /// Registers a station target queue. A queue that exists already is kept.
    pub fn register_station(&mut self, station_id: StationId)
        requires
            old(self).wf(),
        ensures
            final(self).wf(),
            final(self).limits == old(self).limits,
            final(self).stats == old(self).stats,
            ({
                let key = station_id.0 as u128;
                if old(self).queues@.contains_key(key) {
                    final(self).queues@ == old(self).queues@
                } else {
                    &&& final(self).queues@ == old(self).queues@.insert(
                        key,
                        final(self).queues@[key],
                    )
                    &&& is_fresh(old(self).limits, final(self).queues@[key])
                }
            }),
    {
        let key: u128 = station_id.0 as u128;
        if !self.queues.contains_key(key) {
            let queue = Q::with_limits(self.limits);
            assert(is_fresh(self.limits, queue));
            self.queues.insert(key, queue);
        }
    }

    /// Registers all stations in a set.
    pub fn register_stations(&mut self, stations: &StationSet)
        requires
            old(self).wf(),
        ensures
            final(self).wf(),
            final(self).limits == old(self).limits,
            final(self).stats == old(self).stats,
            forall|key: u128| #[trigger]
                final(self).queues@.contains_key(key) <==> old(self).queues@.contains_key(key)
                    || exists|i: int|
                    0 <= i < stations.registry.entries@.len() && (
                    #[trigger] stations.registry.entries@[i]).1.config.station_id.0 == key,
            forall|key: u128| #[trigger]
                final(self).queues@.contains_key(key) ==> if old(self).queues@.contains_key(key) {
                    final(self).queues@[key] == old(self).queues@[key]
                } else {
                    is_fresh(old(self).limits, final(self).queues@[key])
                },
    {
        let mut index: usize = 0;
        while index < stations.registry.entries.len()
            invariant
                index <= stations.registry.entries@.len(),
                self.wf(),
                self.limits == old(self).limits,
                self.stats == old(self).stats,
                forall|key: u128| #[trigger]
                    self.queues@.contains_key(key) <==> old(self).queues@.contains_key(key)
                        || exists|i: int|
                        0 <= i < index && (
                        #[trigger] stations.registry.entries@[i]).1.config.station_id.0 == key,
                forall|key: u128| #[trigger]
                    self.queues@.contains_key(key) ==> if old(self).queues@.contains_key(key) {
                        self.queues@[key] == old(self).queues@[key]
                    } else {
                        is_fresh(old(self).limits, self.queues@[key])
                    },
            decreases stations.registry.entries@.len() - index,
        {
            let ghost before = self.queues@;
            let station_id = stations.registry.entries[index].1.config.station_id;
            self.register_station(station_id);
            index = index + 1;
            proof {
                assert forall|key: u128| #[trigger] self.queues@.contains_key(key) <==> (old(
                    self,
                ).queues@.contains_key(key) || exists|i: int|
                    0 <= i < index && (
                    #[trigger] stations.registry.entries@[i]).1.config.station_id.0 == key) by {
                    assert(self.queues@.contains_key(key) <==> before.contains_key(key)
                        || station_id.0 == key);
                    if station_id.0 == key {
                        assert(stations.registry.entries@[index - 1].1.config.station_id.0 == key);
                    }
                }
                assert forall|key: u128| #[trigger] self.queues@.contains_key(key) implies (if old(
                    self,
                ).queues@.contains_key(key) {
                    self.queues@[key] == old(self).queues@[key]
                } else {
                    is_fresh(old(self).limits, self.queues@[key])
                }) by {
                    if key != station_id.0 {
                        assert(before.contains_key(key));
                    } else if before.contains_key(key) {
                        assert(self.queues@[key] == before[key]);
                    }
                }
            }
        }
    }

    /// Unregisters a station queue and returns the number of queued events dropped.
    pub fn unregister_station(&mut self, station_id: StationId) -> (dropped: Option<usize>)
        requires
            old(self).wf(),
        ensures
            final(self).wf(),
            final(self).limits == old(self).limits,
            final(self).stats == old(self).stats,
            final(self).queues@ == old(self).queues@.remove(station_id.0 as u128),
            old(self).reports(station_id, dropped),
    {
        match self.queues.remove(station_id.0 as u128) {
            Some(queue) => {
                let count: usize = queue.len();
                assert(has_len(queue, count));
                Some(count)
            },
            None => None,
        }
    }

    /// Routes an event to its target station queue.
    pub fn route(&mut self, event: StationEvent) -> (result: Result<
        PushOutcome,
        EventRouterError<Q::Error>,
    >)
        requires
            old(self).wf(),
        ensures
            final(self).wf(),
            final(self).limits == old(self).limits,
            ({
                let key = event.target.0 as u128;
                if !old(self).queues@.contains_key(key) {
                    &&& result == Err::<PushOutcome, EventRouterError<Q::Error>>(
                        EventRouterError::MissingTarget(event.target),
                    )
                    &&& *final(self) == *old(self)
                } else {
                    exists|queue: &mut Q, outcome: Result<PushOutcome, Q::Error>|
                        #![trigger call_ensures(Q::push, (queue, event), outcome)]
                        {
                            &&& call_ensures(Q::push, (queue, event), outcome)
                            &&& *queue == old(self).queues@[key]
                            &&& final(self).queues@ == old(self).queues@.insert(key, *final(queue))
                            &&& match outcome {
                                Ok(outcome) => {
                                    &&& result == Ok::<PushOutcome, EventRouterError<Q::Error>>(
                                        outcome,
                                    )
                                    &&& final(self).stats == old(self).stats.with_routed(outcome)
                                },
                                Err(error) => {
                                    &&& result == Err::<PushOutcome, EventRouterError<Q::Error>>(
                                        EventRouterError::Queue(error),
                                    )
                                    &&& final(self).stats == old(self).stats
                                },
                            }
                        }
                }
            }),
    {
        let outcome = match self.queues.get_mut(event.target.0 as u128) {
            Some(queue) => match queue.push(event) {
                Ok(outcome) => outcome,
                Err(error) => {
                    return Err(EventRouterError::Queue(error));
                },
            },
            None => {
                return Err(EventRouterError::MissingTarget(event.target));
            },
        };
        self.stats.routed_events = self.stats.routed_events.saturating_add(1);
        if outcome == PushOutcome::DroppedOldestBestEffort {
            self.stats.dropped_best_effort_events =
            self.stats.dropped_best_effort_events.saturating_add(1);
        }
        Ok(outcome)
    }

    /// Drains events whose `target_tick` is ready for application.
    pub fn drain_ready(&mut self, station_id: StationId, current_tick: Tick) -> (result: Result<
        Vec<StationEvent>,
        EventRouterError<Q::Error>,
    >)
        requires
            old(self).wf(),
        ensures
            final(self).wf(),
            final(self).limits == old(self).limits,
            ({
                let key = station_id.0 as u128;
                if !old(self).queues@.contains_key(key) {
                    &&& result == Err::<Vec<StationEvent>, EventRouterError<Q::Error>>(
                        EventRouterError::MissingTarget(station_id),
                    )
                    &&& *final(self) == *old(self)
                } else {
                    exists|queue: &mut Q, storage: &mut Vec<StationEvent>, drained: usize|
                        {
                            &&& #[trigger] call_ensures(
                                Q::drain_ready_into,
                                (queue, current_tick, storage),
                                drained,
                            )
                            &&& *queue == old(self).queues@[key]
                            &&& storage@.len() == 0
                            &&& final(self).queues@ == old(self).queues@.insert(key, *final(queue))
                            &&& result == Ok::<Vec<StationEvent>, EventRouterError<Q::Error>>(
                                *final(storage),
                            )
                            &&& final(self).stats == old(self).stats.with_drained(drained)
                        }
                }
            }),
    {
        let mut ready: Vec<StationEvent> = Vec::new();
        match self.queues.get_mut(station_id.0 as u128) {
            Some(queue) => {
                let drained: usize = queue.drain_ready_into(current_tick, &mut ready);
                self.stats.drained_events = self.stats.drained_events.saturating_add(drained);
                Ok(ready)
            },
            None => Err(EventRouterError::MissingTarget(station_id)),
        }
    }

    /// Drains ready events into caller-owned storage while retaining its capacity.
    pub fn drain_ready_into(
        &mut self,
        station_id: StationId,
        current_tick: Tick,
        ready: &mut Vec<StationEvent>,
    ) -> (result: Result<(), EventRouterError<Q::Error>>)
        requires
            old(self).wf(),
        ensures
            final(self).wf(),
            final(self).limits == old(self).limits,
            ({
                let key = station_id.0 as u128;
                if !old(self).queues@.contains_key(key) {
                    &&& result == Err::<(), EventRouterError<Q::Error>>(
                        EventRouterError::MissingTarget(station_id),
                    )
                    &&& *final(self) == *old(self)
                    &&& final(ready)@.len() == 0
                } else {
                    exists|queue: &mut Q, storage: &mut Vec<StationEvent>, drained: usize|
                        {
                            &&& #[trigger] call_ensures(
                                Q::drain_ready_into,
                                (queue, current_tick, storage),
                                drained,
                            )
                            &&& *queue == old(self).queues@[key]
                            &&& storage@.len() == 0
                            &&& *final(storage) == *final(ready)
                            &&& final(self).queues@ == old(self).queues@.insert(key, *final(queue))
                            &&& result is Ok
                            &&& final(self).stats == old(self).stats.with_drained(drained)
                        }
                }
            }),
    {
        ready.clear();
        match self.append_ready(station_id, current_tick, ready) {
            Ok(_) => Ok(()),
            Err(error) => Err(error),
        }
    }

    /// Drains ready events behind what caller-owned storage holds, and returns how many there were.
    pub fn append_ready(
        &mut self,
        station_id: StationId,
        current_tick: Tick,
        ready: &mut Vec<StationEvent>,
    ) -> (result: Result<usize, EventRouterError<Q::Error>>)
        requires
            old(self).wf(),
        ensures
            final(self).wf(),
            final(self).limits == old(self).limits,
            ({
                let key = station_id.0 as u128;
                if !old(self).queues@.contains_key(key) {
                    &&& result == Err::<usize, EventRouterError<Q::Error>>(
                        EventRouterError::MissingTarget(station_id),
                    )
                    &&& *final(self) == *old(self)
                    &&& *final(ready) == *old(ready)
                } else {
                    exists|queue: &mut Q, storage: &mut Vec<StationEvent>, drained: usize|
                        {
                            &&& #[trigger] call_ensures(
                                Q::drain_ready_into,
                                (queue, current_tick, storage),
                                drained,
                            )
                            &&& *queue == old(self).queues@[key]
                            &&& *storage == *old(ready)
                            &&& *final(storage) == *final(ready)
                            &&& final(self).queues@ == old(self).queues@.insert(key, *final(queue))
                            &&& result == Ok::<usize, EventRouterError<Q::Error>>(drained)
                            &&& final(self).stats == old(self).stats.with_drained(drained)
                        }
                }
            }),
    {
        match self.queues.get_mut(station_id.0 as u128) {
            Some(queue) => {
                let drained: usize = queue.drain_ready_into(current_tick, ready);
                self.stats.drained_events = self.stats.drained_events.saturating_add(drained);
                Ok(drained)
            },
            None => Err(EventRouterError::MissingTarget(station_id)),
        }
    }

    /// Returns queued event count for one station.
    pub fn queued_len(&self, station_id: StationId) -> (count: Option<usize>)
        requires
            self.wf(),
        ensures
            self.reports(station_id, count),
    {
        match self.queues.get(station_id.0 as u128) {
            Some(queue) => {
                let count: usize = queue.len();
                assert(has_len(*queue, count));
                Some(count)
            },
            None => None,
        }
    }

    /// Returns router statistics.
    pub fn stats(&self) -> (stats: EventRouterStats)
        ensures
            stats == self.stats,
    {
        self.stats
    }
}

} // verus!
