//! What split planning is for: hot stations are relieved by the least loaded station that may take
//! their cells.

use vstd::prelude::*;

use crate::ids::Tick;
use crate::load_sampler::StationLoadSample;
use crate::ownership::SplitProposal;
use crate::split_scheduler::{
    law_selected_target_is_best, load_score, HotspotDecision, HotspotSeverity, SplitAction,
    SplitActionModel, SplitInput, SplitSchedule, SplitScheduleView, SplitScheduler,
    SplitSchedulerScratch, SplitSchedulerState,
};

verus! {

/// Station `taker` may take the cells that station `giver` proposes: it is another station, cool
/// enough, enough less loaded, and not overloaded by the cells.
pub open spec fn may_take(input: SplitInput, giver: int, taker: int) -> bool {
    let config = input.config;
    let giver_score = load_score(input.samples[giver]);
    let taker_score = load_score(input.samples[taker]);
    let moved = input.proposals[giver].moved_pressure_score;
    &&& input.samples[giver].station_id != input.samples[taker].station_id
    &&& match input.decisions[taker].severity {
        HotspotSeverity::Normal => true,
        HotspotSeverity::Warm => config.allow_warm_targets,
        HotspotSeverity::Hot => false,
    }
    &&& config.min_score_improvement == 0 || taker_score + config.min_score_improvement
        <= giver_score
    &&& config.max_target_score_after_move == u64::MAX || taker_score + moved
        <= config.max_target_score_after_move
}

/// Station `taker` is the one that should take the cells of `giver`: a cooler station goes first, of
/// equally warm ones the least loaded, and of equally loaded ones that of the least id.
pub open spec fn is_best_taker(input: SplitInput, giver: int, taker: int) -> bool {
    &&& 0 <= taker < input.samples.len()
    &&& may_take(input, giver, taker)
    &&& forall|other: int|
        0 <= other < input.samples.len() && #[trigger] may_take(input, giver, other) ==> {
            &&& input.decisions[taker].severity is Normal || input.decisions[other].severity is Warm
            &&& input.decisions[taker].severity == input.decisions[other].severity ==> {
                &&& load_score(input.samples[taker]) <= load_score(input.samples[other])
                &&& load_score(input.samples[taker]) == load_score(input.samples[other])
                    ==> input.samples[taker].station_id.0 <= input.samples[other].station_id.0
            }
        }
}

/// The station was split less than the cooldown ago.
pub open spec fn is_resting(input: SplitInput, station: int) -> bool {
    let key = input.samples[station].station_id.0 as u128;
    &&& input.config.split_cooldown_ticks > 0
    &&& input.last_split.contains_key(key)
    &&& input.now.0 < input.last_split[key].0 + input.config.split_cooldown_ticks
}

/// The station is hot, rested and has cells to give away.
pub open spec fn wants_relief(input: SplitInput, station: int) -> bool {
    &&& input.decisions[station].severity is Hot
    &&& !is_resting(input, station)
    &&& input.proposals[station].cells_to_move@.len() > 0
}

/// The action hands the proposed cells of a station that wants relief to the station that should
/// take them.
pub open spec fn relieves(input: SplitInput, giver: int, action: SplitAction) -> bool {
    &&& 0 <= giver < input.samples.len()
    &&& wants_relief(input, giver)
    &&& action.source_station == input.samples[giver].station_id
    &&& action.proposal.source_station == input.proposals[giver].source_station
    &&& action.proposal.cells_to_move@ == input.proposals[giver].cells_to_move@
    &&& action.proposal.moved_pressure_score == input.proposals[giver].moved_pressure_score
    &&& action.source_score == load_score(input.samples[giver])
    &&& exists|taker: int| #[trigger]
        is_best_taker(input, giver, taker) && action.target_station
            == input.samples[taker].station_id && action.target_score == load_score(
            input.samples[taker],
        ) && (action.estimated_target_score_after_move == action.target_score
            + action.proposal.moved_pressure_score || (action.estimated_target_score_after_move
            == u64::MAX && action.target_score + action.proposal.moved_pressure_score > u64::MAX))
}

/// The actions relieve stations in the order of the samples, at most one action each, and pass over
/// a station that could be relieved only once the pass is full.
pub open spec fn relieve_in_order(
    input: SplitInput,
    actions: Seq<SplitAction>,
    givers: Seq<int>,
) -> bool {
    &&& givers.len() == actions.len()
    &&& actions.len() <= input.config.max_actions_per_pass
    &&& forall|i: int, j: int| 0 <= i < j < givers.len() ==> givers[i] < givers[j]
    &&& forall|i: int| 0 <= i < actions.len() ==> relieves(input, givers[i], #[trigger] actions[i])
    &&& forall|giver: int, taker: int|
        0 <= giver < input.samples.len() && 0 <= taker < input.samples.len() && wants_relief(
            input,
            giver,
        ) && #[trigger] may_take(input, giver, taker) && !givers.contains(giver) ==> {
            &&& actions.len() == input.config.max_actions_per_pass
            &&& forall|i: int| 0 <= i < givers.len() ==> #[trigger] givers[i] < giver
        }
}

spec fn relieves_model(input: SplitInput, giver: int, action: SplitActionModel) -> bool {
    &&& 0 <= giver < input.samples.len()
    &&& wants_relief(input, giver)
    &&& exists|taker: int| #[trigger]
        is_best_taker(input, giver, taker) && action == input.action(giver, taker)
}

proof fn lemma_verdict(input: SplitInput, giver: int, taker: int)
    requires
        input.wf(),
        0 <= giver < input.samples.len(),
        0 <= taker < input.samples.len(),
    ensures
        input.target_verdict(giver, taker) is Admissible <==> may_take(input, giver, taker),
{
}

proof fn lemma_selected(input: SplitInput, giver: int)
    requires
        input.wf(),
        0 <= giver < input.samples.len(),
    ensures
        match input.select(giver, input.samples.len()).target {
            Some(taker) => is_best_taker(input, giver, taker),
            None => forall|taker: int|
                0 <= taker < input.samples.len() ==> !#[trigger] may_take(input, giver, taker),
        },
{
    law_selected_target_is_best(input, giver, input.samples.len());
    match input.select(giver, input.samples.len()).target {
        Some(taker) => {
            lemma_verdict(input, giver, taker);
            assert forall|other: int|
                0 <= other < input.samples.len() && #[trigger] may_take(
                    input,
                    giver,
                    other,
                ) implies {
                &&& input.decisions[taker].severity is Normal
                    || input.decisions[other].severity is Warm
                &&& input.decisions[taker].severity == input.decisions[other].severity ==> {
                    &&& load_score(input.samples[taker]) <= load_score(input.samples[other])
                    &&& load_score(input.samples[taker]) == load_score(input.samples[other])
                        ==> input.samples[taker].station_id.0 <= input.samples[other].station_id.0
                }
            } by {
                lemma_verdict(input, giver, other);
                assert(input.target_verdict(giver, other) is Admissible);
            }
        },
        None => {
            assert forall|taker: int| 0 <= taker < input.samples.len() implies !#[trigger] may_take(
                input,
                giver,
                taker,
            ) by {
                lemma_verdict(input, giver, taker);
            }
        },
    }
}

proof fn lemma_planned(input: SplitInput, upto: nat) -> (givers: Seq<int>)
    requires
        input.wf(),
        upto <= input.samples.len(),
    ensures
        givers.len() == input.plan_upto(upto).actions.len(),
        givers.len() <= input.config.max_actions_per_pass,
        forall|i: int| 0 <= i < givers.len() ==> 0 <= #[trigger] givers[i] < upto,
        forall|i: int, j: int| 0 <= i < j < givers.len() ==> givers[i] < givers[j],
        forall|i: int|
            0 <= i < givers.len() ==> relieves_model(
                input,
                #[trigger] givers[i],
                input.plan_upto(upto).actions[i],
            ),
        forall|giver: int, taker: int|
            0 <= giver < upto && 0 <= taker < input.samples.len() && wants_relief(input, giver)
                && #[trigger] may_take(input, giver, taker) && !givers.contains(giver) ==> {
                &&& givers.len() == input.config.max_actions_per_pass
                &&& forall|i: int| 0 <= i < givers.len() ==> #[trigger] givers[i] < giver
            },
    decreases upto,
{
    if upto == 0 {
        Seq::empty()
    } else {
        let giver = upto - 1;
        let before = lemma_planned(input, giver as nat);
        let plan = input.plan_upto(giver as nat);
        lemma_selected(input, giver);
        let target = input.select(giver, input.samples.len()).target;
        let acted = plan.actions.len() < input.config.max_actions_per_pass && wants_relief(
            input,
            giver,
        ) && target is Some;
        let givers = if acted {
            before.push(giver)
        } else {
            before
        };
        if acted {
            assert(input.plan_upto(upto).actions == plan.actions.push(
                input.action(giver, target->0),
            ));
            assert(givers[givers.len() - 1] == giver);
        } else {
            assert(input.plan_upto(upto).actions == plan.actions);
        }
        assert forall|i: int| 0 <= i < givers.len() implies relieves_model(
            input,
            #[trigger] givers[i],
            input.plan_upto(upto).actions[i],
        ) by {
            if i < before.len() {
                assert(givers[i] == before[i]);
            }
        }
        assert forall|other: int, taker: int|
            0 <= other < upto && 0 <= taker < input.samples.len() && wants_relief(input, other)
                && #[trigger] may_take(input, other, taker) && !givers.contains(other) implies {
            &&& givers.len() == input.config.max_actions_per_pass
            &&& forall|i: int| 0 <= i < givers.len() ==> #[trigger] givers[i] < other
        } by {
            if before.contains(other) {
                let i = choose|i: int| 0 <= i < before.len() && before[i] == other;
                assert(givers[i] == other);
            }
            if other < giver {
                assert(before.len() == input.config.max_actions_per_pass);
            }
        }
        givers
    }
}

proof fn lemma_relieved(input: SplitInput, actions: Seq<SplitAction>)
    requires
        input.wf(),
        crate::split_scheduler::action_models(actions) == input.plan().actions,
    ensures
        exists|givers: Seq<int>| #[trigger] relieve_in_order(input, actions, givers),
{
    let givers = lemma_planned(input, input.samples.len());
    let models = crate::split_scheduler::action_models(actions);
    assert forall|i: int| 0 <= i < actions.len() implies relieves(
        input,
        givers[i],
        #[trigger] actions[i],
    ) by {
        assert(models[i] == actions[i]@);
        assert(relieves_model(input, givers[i], models[i]));
        let taker = choose|taker: int| #[trigger]
            is_best_taker(input, givers[i], taker) && models[i] == input.action(givers[i], taker);
        assert(is_best_taker(input, givers[i], taker));
    }
    assert(relieve_in_order(input, actions, givers));
}

/// A schedule relieves hot stations, in the order of their samples and while the pass has room. Each
/// hands its cells to a cooler station before a warmer one, and of those to the least loaded that
/// may take them.
pub proof fn law_hot_stations_are_relieved_by_the_least_loaded(
    scheduler: &SplitScheduler,
    samples: &[StationLoadSample],
    decisions: &[HotspotDecision],
    proposals: &[SplitProposal],
    state: Option<&SplitSchedulerState>,
    now: Tick,
    schedule: SplitSchedule,
)
    requires
        scheduler.input(samples@, decisions@, proposals@, state, now).wf(),
        state matches Some(state) ==> state.wf(),
        call_ensures(
            SplitScheduler::plan_with_state,
            (scheduler, samples, decisions, proposals, state, now),
            schedule,
        ),
    ensures
        exists|givers: Seq<int>| #[trigger]
            relieve_in_order(
                scheduler.input(samples@, decisions@, proposals@, state, now),
                schedule.actions@,
                givers,
            ),
{
    lemma_relieved(
        scheduler.input(samples@, decisions@, proposals@, state, now),
        schedule.actions@,
    );
}

/// The same holds of a schedule that was planned without state, when no station rests.
pub proof fn law_planning_without_state_relieves_hot_stations(
    scheduler: &SplitScheduler,
    samples: &[StationLoadSample],
    decisions: &[HotspotDecision],
    proposals: &[SplitProposal],
    schedule: SplitSchedule,
)
    requires
        scheduler.input(samples@, decisions@, proposals@, None, Tick(0)).wf(),
        call_ensures(SplitScheduler::plan, (scheduler, samples, decisions, proposals), schedule),
    ensures
        exists|givers: Seq<int>| #[trigger]
            relieve_in_order(
                scheduler.input(samples@, decisions@, proposals@, None, Tick(0)),
                schedule.actions@,
                givers,
            ),
        forall|i: int|
            0 <= i < samples@.len() ==> !#[trigger] is_resting(
                scheduler.input(samples@, decisions@, proposals@, None, Tick(0)),
                i,
            ),
{
    lemma_relieved(
        scheduler.input(samples@, decisions@, proposals@, None, Tick(0)),
        schedule.actions@,
    );
}

/// The same holds of schedules that are planned into reusable storage, whatever it held before.
pub proof fn law_planning_into_storage_relieves_hot_stations(
    scheduler: &SplitScheduler,
    samples: &[StationLoadSample],
    decisions: &[HotspotDecision],
    proposals: &[SplitProposal],
    state: Option<&SplitSchedulerState>,
    now: Tick,
)
    requires
        scheduler.input(samples@, decisions@, proposals@, state, now).wf(),
        state matches Some(state) ==> state.wf(),
    ensures
        forall|scratch: &mut SplitSchedulerScratch, view: SplitScheduleView<'_>| #[trigger]
            call_ensures(
                SplitScheduler::plan_with_state_into,
                (scheduler, samples, decisions, proposals, state, now, scratch),
                view,
            ) ==> exists|givers: Seq<int>| #[trigger]
                relieve_in_order(
                    scheduler.input(samples@, decisions@, proposals@, state, now),
                    view.actions@,
                    givers,
                ),
        forall|scratch: &mut SplitSchedulerScratch, view: SplitScheduleView<'_>| #[trigger]
            call_ensures(
                SplitScheduler::plan_into,
                (scheduler, samples, decisions, proposals, scratch),
                view,
            ) ==> exists|givers: Seq<int>| #[trigger]
                relieve_in_order(
                    scheduler.input(samples@, decisions@, proposals@, None, Tick(0)),
                    view.actions@,
                    givers,
                ),
{
    assert forall|scratch: &mut SplitSchedulerScratch, view: SplitScheduleView<'_>| #[trigger]
        call_ensures(
            SplitScheduler::plan_with_state_into,
            (scheduler, samples, decisions, proposals, state, now, scratch),
            view,
        ) implies exists|givers: Seq<int>| #[trigger]
        relieve_in_order(
            scheduler.input(samples@, decisions@, proposals@, state, now),
            view.actions@,
            givers,
        ) by {
        lemma_relieved(
            scheduler.input(samples@, decisions@, proposals@, state, now),
            view.actions@,
        );
    }
    assert forall|scratch: &mut SplitSchedulerScratch, view: SplitScheduleView<'_>| #[trigger]
        call_ensures(
            SplitScheduler::plan_into,
            (scheduler, samples, decisions, proposals, scratch),
            view,
        ) implies exists|givers: Seq<int>| #[trigger]
        relieve_in_order(
            scheduler.input(samples@, decisions@, proposals@, None, Tick(0)),
            view.actions@,
            givers,
        ) by {
        lemma_relieved(
            scheduler.input(samples@, decisions@, proposals@, None, Tick(0)),
            view.actions@,
        );
    }
}

/// How many of the first `upto` stations satisfy a condition.
pub open spec fn tally(upto: nat, condition: spec_fn(int) -> bool) -> nat
    decreases upto,
{
    if upto == 0 {
        0
    } else if condition(upto - 1) {
        tally((upto - 1) as nat, condition) + 1
    } else {
        tally((upto - 1) as nat, condition)
    }
}

/// A station that wants relief finds another station at all.
pub open spec fn has_company(input: SplitInput, station: int) -> bool {
    exists|other: int|
        0 <= other < input.samples.len() && (#[trigger] input.samples[other]).station_id
            != input.samples[station].station_id
}

/// Some station may take the cells of this one.
pub open spec fn has_taker(input: SplitInput, station: int) -> bool {
    exists|other: int|
        0 <= other < input.samples.len() && #[trigger] may_take(input, station, other)
}

/// Every other station is too warm to take cells.
pub open spec fn all_too_warm(input: SplitInput, station: int) -> bool {
    forall|other: int|
        0 <= other < input.samples.len() && (#[trigger] input.samples[other]).station_id
            != input.samples[station].station_id ==> input.decisions[other].severity is Hot || (
        input.decisions[other].severity is Warm && !input.config.allow_warm_targets)
}

proof fn lemma_considered(input: SplitInput, giver: int, upto: nat)
    requires
        input.wf(),
        0 <= giver < input.samples.len(),
        upto <= input.samples.len(),
    ensures
        ({
            let selection = input.select(giver, upto);
            &&& selection.by_severity <= selection.considered
            &&& selection.considered == 0 <==> forall|other: int|
                0 <= other < upto ==> (#[trigger] input.samples[other]).station_id
                    == input.samples[giver].station_id
            &&& selection.by_severity == selection.considered <==> forall|other: int|
                0 <= other < upto && (#[trigger] input.samples[other]).station_id
                    != input.samples[giver].station_id ==> input.decisions[other].severity is Hot
                    || (input.decisions[other].severity is Warm
                    && !input.config.allow_warm_targets)
        }),
    decreases upto,
{
    if upto > 0 {
        let last = upto - 1;
        lemma_considered(input, giver, last as nat);
        let before = input.select(giver, last as nat);
        let selection = input.select(giver, upto);
        assert(input.samples[last] == input.samples[last]);
        if selection.considered == 0 {
            assert forall|other: int| 0 <= other < upto implies (
            #[trigger] input.samples[other]).station_id == input.samples[giver].station_id by {}
        }
    }
}

proof fn lemma_skips(input: SplitInput, upto: nat)
    requires
        input.wf(),
        upto <= input.samples.len(),
        input.plan_upto(upto).actions.len() < input.config.max_actions_per_pass,
    ensures
        ({
            let plan = input.plan_upto(upto);
            let hot = |s: int| input.decisions[s].severity is Hot;
            &&& plan.actions.len() == tally(
                upto,
                |s: int| wants_relief(input, s) && has_taker(input, s),
            )
            &&& plan.skipped_cooldown == tally(upto, |s: int| hot(s) && is_resting(input, s))
            &&& plan.skipped_no_cells == tally(
                upto,
                |s: int|
                    hot(s) && !is_resting(input, s) && input.proposals[s].cells_to_move@.len() == 0,
            )
            &&& plan.skipped_no_target == tally(
                upto,
                |s: int| wants_relief(input, s) && !has_company(input, s),
            )
            &&& plan.skipped_target_severity == tally(
                upto,
                |s: int|
                    wants_relief(input, s) && has_company(input, s) && all_too_warm(input, s),
            )
        }),
    decreases upto,
{
    if upto > 0 {
        let giver = upto - 1;
        let before = input.plan_upto(giver as nat);
        let plan = input.plan_upto(upto);
        assert(before.actions.len() <= plan.actions.len());
        lemma_skips(input, giver as nat);
        lemma_selected(input, giver);
        lemma_considered(input, giver, input.samples.len());
        let selection = input.select(giver, input.samples.len());
        if let Some(taker) = selection.target {
            assert(may_take(input, giver, taker));
            assert(input.samples[taker].station_id != input.samples[giver].station_id);
        }
        if selection.considered > 0 {
            assert(has_company(input, giver));
        }
    }
}

/// Where a pass never fills up, every hot station is accounted for: relieved if a station may take
/// its cells, or counted as resting, as having no cells, as being alone, or as facing only stations
/// that are too warm.
pub proof fn law_hot_stations_are_accounted_for(
    scheduler: &SplitScheduler,
    samples: &[StationLoadSample],
    decisions: &[HotspotDecision],
    proposals: &[SplitProposal],
    state: Option<&SplitSchedulerState>,
    now: Tick,
    schedule: SplitSchedule,
)
    requires
        scheduler.input(samples@, decisions@, proposals@, state, now).wf(),
        state matches Some(state) ==> state.wf(),
        call_ensures(
            SplitScheduler::plan_with_state,
            (scheduler, samples, decisions, proposals, state, now),
            schedule,
        ),
        schedule.actions@.len() < scheduler.config.max_actions_per_pass,
    ensures
        ({
            let input = scheduler.input(samples@, decisions@, proposals@, state, now);
            let count = samples@.len();
            let hot = |s: int| decisions@[s].severity is Hot;
            &&& schedule.actions@.len() == tally(
                count,
                |s: int| wants_relief(input, s) && has_taker(input, s),
            )
            &&& schedule.skipped_cooldown == tally(count, |s: int| hot(s) && is_resting(input, s))
            &&& schedule.skipped_no_cells == tally(
                count,
                |s: int|
                    hot(s) && !is_resting(input, s) && proposals@[s].cells_to_move@.len() == 0,
            )
            &&& schedule.skipped_no_target == tally(
                count,
                |s: int| wants_relief(input, s) && !has_company(input, s),
            )
            &&& schedule.skipped_target_severity == tally(
                count,
                |s: int|
                    wants_relief(input, s) && has_company(input, s) && all_too_warm(input, s),
            )
        }),
{
    let input = scheduler.input(samples@, decisions@, proposals@, state, now);
    assert(schedule.plan() == input.plan());
    assert(schedule.plan().actions.len() == schedule.actions@.len());
    lemma_skips(input, samples@.len());
}

/// Load adds up: of two stations, where one has at least as much of everything, its score is higher
/// by eight points for each further entity, four for each further subscriber, one for each further
/// event, cost unit and 256 bytes. A station without any load scores nothing.
pub proof fn law_load_scores_add_up(less: StationLoadSample, more: StationLoadSample)
    requires
        more.owned_entities + more.ghost_entities <= usize::MAX,
        less.owned_entities + less.ghost_entities <= more.owned_entities + more.ghost_entities,
        less.subscribers <= more.subscribers,
        less.queued_events <= more.queued_events,
        less.estimated_bytes <= more.estimated_bytes,
        less.tick_cost_units <= more.tick_cost_units,
    ensures
        load_score(less) <= load_score(more),
        load_score(more) < u64::MAX ==> load_score(more) - load_score(less) == 8 * (
        more.owned_entities + more.ghost_entities - less.owned_entities - less.ghost_entities) + 4
            * (more.subscribers - less.subscribers) + (more.queued_events - less.queued_events) + (
        more.estimated_bytes / 256 - less.estimated_bytes / 256) + (more.tick_cost_units
            - less.tick_cost_units),
        more.owned_entities == 0 && more.ghost_entities == 0 && more.subscribers == 0
            && more.queued_events == 0 && more.estimated_bytes == 0 && more.tick_cost_units == 0
            ==> load_score(more) == 0,
{
}

} // verus!
