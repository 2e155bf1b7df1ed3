//! Conservative planning of station splits from load samples.

use vstd::prelude::*;

use crate::ids::{StationId, Tick};
use crate::load_sampler::StationLoadSample;
use crate::memory::vec_capacity;
use crate::num::{clamp_u64, clamp_usize, saturating_mul_u64};
use crate::ordered_map::OrderedMap;
use crate::ownership::SplitProposal;
use crate::station::CellCoord3;

verus! {

/// How loaded a station is.
#[derive(Clone, Copy, Debug, PartialEq, Eq, Structural)]
pub enum HotspotSeverity {
    /// Below every threshold.
    Normal,
    /// Above a warning threshold.
    Warm,
    /// Above a split threshold.
    Hot,
}

/// A reason for a verdict, by the number under which its judge knows it.
#[derive(Clone, Copy, Debug, PartialEq, Eq, Structural)]
pub struct HotspotReason(pub u16);

/// Verdict on the load of one station.
#[derive(Clone, Debug, PartialEq, Eq)]
pub struct HotspotDecision {
    /// Judged station.
    pub station_id: StationId,
    /// How loaded it is.
    pub severity: HotspotSeverity,
    /// Why it is judged so.
    pub reasons: Vec<HotspotReason>,
}

/// Model of a verdict.
#[verifier::ext_equal]
pub struct DecisionModel {
    pub station_id: StationId,
    pub severity: HotspotSeverity,
    pub reasons: Seq<HotspotReason>,
}

impl View for HotspotDecision {
    type V = DecisionModel;

    open spec fn view(&self) -> DecisionModel {
        DecisionModel {
            station_id: self.station_id,
            severity: self.severity,
            reasons: self.reasons@,
        }
    }
}

/// Models of several verdicts.
pub open spec fn decision_models(decisions: Seq<HotspotDecision>) -> Seq<DecisionModel> {
    Seq::new(decisions.len(), |i: int| decisions[i]@)
}

impl HotspotDecision {
    /// Writes the verdict into a slot, and keeps the slot's storage.
    fn write_into(&self, slot: &mut HotspotDecision)
        ensures
            final(slot)@ == self@,
    {
        slot.station_id = self.station_id;
        slot.severity = self.severity;
        slot.reasons.clear();
        let mut index: usize = 0;
        while index < self.reasons.len()
            invariant
                index <= self.reasons@.len(),
                slot.station_id == self.station_id,
                slot.severity == self.severity,
                slot.reasons@ == self.reasons@.take(index as int),
            decreases self.reasons@.len() - index,
        {
            slot.reasons.push(self.reasons[index]);
            index = index + 1;
        }
        assert(self.reasons@.take(index as int) =~= self.reasons@);
    }

    /// Copies the verdict.
    pub fn duplicate(&self) -> (copy: Self)
        ensures
            copy@ == self@,
    {
        let mut copy = HotspotDecision {
            station_id: self.station_id,
            severity: self.severity,
            reasons: Vec::new(),
        };
        self.write_into(&mut copy);
        copy
    }
}

/// Number of reasons over several verdicts.
pub open spec fn reason_total(decisions: Seq<HotspotDecision>) -> nat
    decreases decisions.len(),
{
    if decisions.len() == 0 {
        0
    } else {
        reason_total(decisions.drop_last()) + decisions.last().reasons@.len()
    }
}

/// Automatic split scheduler configuration.
#[derive(Clone, Copy, Debug, PartialEq, Eq, Structural)]
pub struct SplitSchedulerConfig {
    /// Maximum split actions to create per scheduling pass.
    pub max_actions_per_pass: usize,
    /// Maximum cells to move in each split action.
    pub max_cells_per_action: usize,
    /// Source ghost TTL used during migration execution.
    pub ghost_ttl_ticks: u64,
    /// Minimum load-score gap required between source and target.
    pub min_score_improvement: u64,
    /// Maximum permitted target load score after moved cell pressure is added.
    pub max_target_score_after_move: u64,
    /// Ticks a source station must wait before another split can be planned.
    pub split_cooldown_ticks: u64,
    /// Whether warm target stations may receive split cells.
    pub allow_warm_targets: bool,
}

impl Default for SplitSchedulerConfig {
    fn default() -> (config: Self)
        ensures
            config == (SplitSchedulerConfig {
                max_actions_per_pass: 4,
                max_cells_per_action: 4,
                ghost_ttl_ticks: 4,
                min_score_improvement: 1,
                max_target_score_after_move: u64::MAX,
                split_cooldown_ticks: 0,
                allow_warm_targets: true,
            }),
    {
        Self {
            max_actions_per_pass: 4,
            max_cells_per_action: 4,
            ghost_ttl_ticks: 4,
            min_score_improvement: 1,
            max_target_score_after_move: u64::MAX,
            split_cooldown_ticks: 0,
            allow_warm_targets: true,
        }
    }
}

/// One scheduled split action.
#[derive(Clone, Debug, PartialEq, Eq)]
pub struct SplitAction {
    /// Source station selected for split.
    pub source_station: StationId,
    /// Target station selected to receive cells.
    pub target_station: StationId,
    /// Cell split proposal.
    pub proposal: SplitProposal,
    /// Source load score observed when planning.
    pub source_score: u64,
    /// Target load score observed when planning.
    pub target_score: u64,
    /// Estimated target score after moving proposed cell pressure.
    pub estimated_target_score_after_move: u64,
}

/// Model of a split action.
#[verifier::ext_equal]
pub struct SplitActionModel {
    pub source_station: StationId,
    pub target_station: StationId,
    pub proposed_by: StationId,
    pub cells: Seq<CellCoord3>,
    pub moved_pressure_score: u64,
    pub source_score: u64,
    pub target_score: u64,
    pub estimated_target_score_after_move: u64,
}

impl View for SplitAction {
    type V = SplitActionModel;

    open spec fn view(&self) -> SplitActionModel {
        SplitActionModel {
            source_station: self.source_station,
            target_station: self.target_station,
            proposed_by: self.proposal.source_station,
            cells: self.proposal.cells_to_move@,
            moved_pressure_score: self.proposal.moved_pressure_score,
            source_score: self.source_score,
            target_score: self.target_score,
            estimated_target_score_after_move: self.estimated_target_score_after_move,
        }
    }
}

/// Models of a sequence of actions.
pub open spec fn action_models(actions: Seq<SplitAction>) -> Seq<SplitActionModel> {
    Seq::new(actions.len(), |i: int| actions[i]@)
}

fn copy_cells(cells: &[CellCoord3]) -> (copy: Vec<CellCoord3>)
    ensures
        copy@ == cells@,
{
    let mut copy: Vec<CellCoord3> = Vec::new();
    let mut index: usize = 0;
    while index < cells.len()
        invariant
            index <= cells@.len(),
            copy@ == cells@.take(index as int),
        decreases cells@.len() - index,
    {
        copy.push(cells[index]);
        index = index + 1;
    }
    assert(cells@.take(index as int) =~= cells@);
    copy
}

impl Default for SplitAction {
    fn default() -> (action: Self)
        ensures
            action@ == (SplitActionModel {
                source_station: StationId(0),
                target_station: StationId(0),
                proposed_by: StationId(0),
                cells: Seq::empty(),
                moved_pressure_score: 0,
                source_score: 0,
                target_score: 0,
                estimated_target_score_after_move: 0,
            }),
    {
        Self {
            source_station: StationId(0),
            target_station: StationId(0),
            proposal: SplitProposal {
                source_station: StationId(0),
                cells_to_move: Vec::new(),
                moved_pressure_score: 0,
            },
            source_score: 0,
            target_score: 0,
            estimated_target_score_after_move: 0,
        }
    }
}

impl SplitAction {
    /// Copies an action.
    fn duplicate(&self) -> (copy: Self)
        ensures
            copy@ == self@,
    {
        Self {
            source_station: self.source_station,
            target_station: self.target_station,
            proposal: SplitProposal {
                source_station: self.proposal.source_station,
                cells_to_move: copy_cells(self.proposal.cells_to_move.as_slice()),
                moved_pressure_score: self.proposal.moved_pressure_score,
            },
            source_score: self.source_score,
            target_score: self.target_score,
            estimated_target_score_after_move: self.estimated_target_score_after_move,
        }
    }
}

/// What a planning pass decides.
#[verifier::ext_equal]
pub struct SplitPlan {
    pub actions: Seq<SplitActionModel>,
    pub skipped_no_target: nat,
    pub skipped_no_cells: nat,
    pub skipped_cooldown: nat,
    pub skipped_target_severity: nat,
    pub skipped_target_capacity: nat,
    pub skipped_insufficient_improvement: nat,
}

/// Split schedule produced from a load snapshot.
#[derive(Clone, Debug, Default, PartialEq, Eq)]
pub struct SplitSchedule {
    /// Hotspot decisions for every input station.
    pub decisions: Vec<HotspotDecision>,
    /// Actions selected for execution.
    pub actions: Vec<SplitAction>,
    /// Hot stations skipped because no distinct target existed.
    pub skipped_no_target: usize,
    /// Hot stations skipped because no cells were proposed.
    pub skipped_no_cells: usize,
    /// Hot stations skipped because source station is inside split cooldown.
    pub skipped_cooldown: usize,
    /// Hot stations skipped because all targets were too warm or hot.
    pub skipped_target_severity: usize,
    /// Hot stations skipped because target capacity would be exceeded.
    pub skipped_target_capacity: usize,
    /// Hot stations skipped because target score improvement was too small.
    pub skipped_insufficient_improvement: usize,
}

impl SplitSchedule {
    /// The plan that the schedule holds.
    pub open spec fn plan(self) -> SplitPlan {
        SplitPlan {
            actions: action_models(self.actions@),
            skipped_no_target: self.skipped_no_target as nat,
            skipped_no_cells: self.skipped_no_cells as nat,
            skipped_cooldown: self.skipped_cooldown as nat,
            skipped_target_severity: self.skipped_target_severity as nat,
            skipped_target_capacity: self.skipped_target_capacity as nat,
            skipped_insufficient_improvement: self.skipped_insufficient_improvement as nat,
        }
    }
}

/// Borrowed split schedule produced from reusable scheduler output slots.
#[derive(Clone, Copy, Debug, PartialEq, Eq)]
pub struct SplitScheduleView<'a> {
    /// Hotspot decisions in input sample order.
    pub decisions: &'a [HotspotDecision],
    /// Admitted split actions in deterministic source order.
    pub actions: &'a [SplitAction],
    /// Hot stations skipped because no distinct target existed.
    pub skipped_no_target: usize,
    /// Hot stations skipped because no cells were proposed.
    pub skipped_no_cells: usize,
    /// Hot stations skipped because source station is inside split cooldown.
    pub skipped_cooldown: usize,
    /// Hot stations skipped because all targets were too warm or hot.
    pub skipped_target_severity: usize,
    /// Hot stations skipped because target capacity would be exceeded.
    pub skipped_target_capacity: usize,
    /// Hot stations skipped because target score improvement was too small.
    pub skipped_insufficient_improvement: usize,
}

impl<'a> SplitScheduleView<'a> {
    /// The plan that the view holds.
    pub open spec fn plan(self) -> SplitPlan {
        SplitPlan {
            actions: action_models(self.actions@),
            skipped_no_target: self.skipped_no_target as nat,
            skipped_no_cells: self.skipped_no_cells as nat,
            skipped_cooldown: self.skipped_cooldown as nat,
            skipped_target_severity: self.skipped_target_severity as nat,
            skipped_target_capacity: self.skipped_target_capacity as nat,
            skipped_insufficient_improvement: self.skipped_insufficient_improvement as nat,
        }
    }

    /// Copies the view into an owned schedule.
    pub fn to_schedule(self) -> (schedule: SplitSchedule)
        ensures
            decision_models(schedule.decisions@) == decision_models(self.decisions@),
            schedule.plan() == self.plan(),
    {
        let mut decisions: Vec<HotspotDecision> = Vec::new();
        let mut index: usize = 0;
        while index < self.decisions.len()
            invariant
                index <= self.decisions@.len(),
                decisions@.len() == index,
                forall|i: int| 0 <= i < index ==> (#[trigger] decisions@[i])@ == self.decisions@[i]@,
            decreases self.decisions@.len() - index,
        {
            decisions.push(self.decisions[index].duplicate());
            index = index + 1;
        }
        assert(decision_models(decisions@) =~= decision_models(self.decisions@));
        let mut actions: Vec<SplitAction> = Vec::new();
        let mut at: usize = 0;
        while at < self.actions.len()
            invariant
                at <= self.actions@.len(),
                actions@.len() == at,
                forall|i: int| 0 <= i < at ==> (#[trigger] actions@[i])@ == self.actions@[i]@,
            decreases self.actions@.len() - at,
        {
            actions.push(self.actions[at].duplicate());
            at = at + 1;
        }
        assert(action_models(actions@) =~= action_models(self.actions@));
        SplitSchedule {
            decisions,
            actions,
            skipped_no_target: self.skipped_no_target,
            skipped_no_cells: self.skipped_no_cells,
            skipped_cooldown: self.skipped_cooldown,
            skipped_target_severity: self.skipped_target_severity,
            skipped_target_capacity: self.skipped_target_capacity,
            skipped_insufficient_improvement: self.skipped_insufficient_improvement,
        }
    }
}

/// Number of proposed cells over several actions.
pub open spec fn proposed_cell_total(actions: Seq<SplitAction>) -> nat
    decreases actions.len(),
{
    if actions.len() == 0 {
        0
    } else {
        proposed_cell_total(actions.drop_last()) + actions.last().proposal.cells_to_move@.len()
    }
}

/// Caller-owned reusable output storage for split scheduling.
#[derive(Clone, Debug)]
pub struct SplitSchedulerScratch {
    /// Decision slots.
    pub decisions: Vec<HotspotDecision>,
    /// Action slots.
    pub actions: Vec<SplitAction>,
    /// Action slots in use.
    pub active_actions: usize,
    /// Hot stations skipped because no distinct target existed.
    pub skipped_no_target: usize,
    /// Hot stations skipped because no cells were proposed.
    pub skipped_no_cells: usize,
    /// Hot stations skipped because source station is inside split cooldown.
    pub skipped_cooldown: usize,
    /// Hot stations skipped because all targets were too warm or hot.
    pub skipped_target_severity: usize,
    /// Hot stations skipped because target capacity would be exceeded.
    pub skipped_target_capacity: usize,
    /// Hot stations skipped because target score improvement was too small.
    pub skipped_insufficient_improvement: usize,
}

impl Default for SplitSchedulerScratch {
    fn default() -> (scratch: Self)
        ensures
            scratch.decisions@.len() == 0,
            scratch.actions@.len() == 0,
            scratch.active_actions == 0,
            scratch.plan() == SplitPlan::empty(),
    {
        Self::new()
    }
}

impl SplitSchedulerScratch {
    /// Creates empty scheduler storage.
    pub fn new() -> (scratch: Self)
        ensures
            scratch.decisions@.len() == 0,
            scratch.actions@.len() == 0,
            scratch.active_actions == 0,
            scratch.plan() == SplitPlan::empty(),
    {
        Self {
            decisions: Vec::new(),
            actions: Vec::new(),
            active_actions: 0,
            skipped_no_target: 0,
            skipped_no_cells: 0,
            skipped_cooldown: 0,
            skipped_target_severity: 0,
            skipped_target_capacity: 0,
            skipped_insufficient_improvement: 0,
        }
    }

    /// Decision slots retained across passes.
    pub fn retained_decision_slots(&self) -> (slots: usize)
        ensures
            slots == self.decisions@.len(),
    {
        self.decisions.len()
    }

    /// Action slots retained across passes.
    pub fn retained_action_slots(&self) -> (slots: usize)
        ensures
            slots == self.actions@.len(),
    {
        self.actions.len()
    }

    /// Total reason capacity retained across decision slots, clamped to what a `usize` holds.
    pub fn retained_reason_capacity(&self) -> (capacity: usize)
        ensures
            capacity >= clamp_usize(reason_total(self.decisions@)),
    {
        let mut capacity: usize = 0;
        let mut index: usize = 0;
        assert(self.decisions@.take(0) =~= Seq::empty());
        while index < self.decisions.len()
            invariant
                index <= self.decisions@.len(),
                capacity >= clamp_usize(reason_total(self.decisions@.take(index as int))),
            decreases self.decisions@.len() - index,
        {
            assert(self.decisions@.take(index + 1).drop_last() =~= self.decisions@.take(
                index as int,
            ));
            capacity = capacity.saturating_add(vec_capacity(&self.decisions[index].reasons));
            index = index + 1;
        }
        assert(self.decisions@.take(index as int) =~= self.decisions@);
        capacity
    }

    /// Total cell-coordinate capacity retained across action proposal slots.
    pub fn retained_action_cell_capacity(&self) -> (capacity: usize)
        ensures
            capacity >= clamp_usize(proposed_cell_total(self.actions@)),
    {
        let mut capacity: usize = 0;
        let mut index: usize = 0;
        assert(self.actions@.take(0) =~= Seq::empty());
        while index < self.actions.len()
            invariant
                index <= self.actions@.len(),
                capacity >= clamp_usize(proposed_cell_total(self.actions@.take(index as int))),
            decreases self.actions@.len() - index,
        {
            assert(self.actions@.take(index + 1).drop_last() =~= self.actions@.take(index as int));
            capacity =
            capacity.saturating_add(vec_capacity(&self.actions[index].proposal.cells_to_move));
            index = index + 1;
        }
        assert(self.actions@.take(index as int) =~= self.actions@);
        capacity
    }

    /// The plan in the slots in use.
    pub open spec fn plan(self) -> SplitPlan {
        SplitPlan {
            actions: action_models(self.actions@.take(self.active_actions as int)),
            skipped_no_target: self.skipped_no_target as nat,
            skipped_no_cells: self.skipped_no_cells as nat,
            skipped_cooldown: self.skipped_cooldown as nat,
            skipped_target_severity: self.skipped_target_severity as nat,
            skipped_target_capacity: self.skipped_target_capacity as nat,
            skipped_insufficient_improvement: self.skipped_insufficient_improvement as nat,
        }
    }

    fn prepare(&mut self, decisions: &[HotspotDecision])
        ensures
            final(self).plan() == SplitPlan::empty(),
            final(self).active_actions == 0,
            final(self).actions == old(self).actions,
            final(self).decisions@.len() == (if old(self).decisions@.len() < decisions@.len() {
                decisions@.len()
            } else {
                old(self).decisions@.len()
            }),
            decision_models(final(self).decisions@.take(decisions@.len() as int))
                == decision_models(decisions@),
    {
        let mut index: usize = 0;
        while index < decisions.len()
            invariant
                index <= decisions@.len(),
                self.actions == old(self).actions,
                self.decisions@.len() == (if old(self).decisions@.len() < index {
                    index as nat
                } else {
                    old(self).decisions@.len()
                }),
                forall|i: int|
                    0 <= i < index ==> (#[trigger] self.decisions@[i])@ == decisions@[i]@,
            decreases decisions@.len() - index,
        {
            if index < self.decisions.len() {
                let slot = &mut self.decisions[index];
                decisions[index].write_into(slot);
            } else {
                self.decisions.push(decisions[index].duplicate());
            }
            index = index + 1;
        }
        assert(decision_models(self.decisions@.take(decisions@.len() as int)) =~= decision_models(
            decisions@,
        ));
        self.active_actions = 0;
        self.skipped_no_target = 0;
        self.skipped_no_cells = 0;
        self.skipped_cooldown = 0;
        self.skipped_target_severity = 0;
        self.skipped_target_capacity = 0;
        self.skipped_insufficient_improvement = 0;
        assert(action_models(self.actions@.take(0)) =~= Seq::empty());
    }

    /// Writes an action into the next slot.
    fn add_action(&mut self, action: SplitAction)
        requires
            old(self).active_actions <= old(self).actions@.len(),
        ensures
            final(self).active_actions <= final(self).actions@.len(),
            final(self).plan() == (SplitPlan {
                actions: old(self).plan().actions.push(action@),
                ..old(self).plan()
            }),
            final(self).decisions == old(self).decisions,
            final(self).actions@.len() == (if old(self).active_actions == old(self).actions@.len() {
                old(self).actions@.len() + 1
            } else {
                old(self).actions@.len()
            }),
            final(self).active_actions == old(self).active_actions + 1,
    {
        let ghost before = self.actions@;
        let at: usize = self.active_actions;
        if at == self.actions.len() {
            self.actions.push(action);
        } else {
            self.actions.set(at, action);
        }
        assert(self.actions@.len() == self.actions.len());
        self.active_actions = at + 1;
        assert(action_models(self.actions@.take(at + 1)) =~= action_models(
            before.take(at as int),
        ).push(action@));
    }
}

impl SplitPlan {
    /// A plan without actions.
    pub open spec fn empty() -> Self {
        SplitPlan {
            actions: Seq::empty(),
            skipped_no_target: 0,
            skipped_no_cells: 0,
            skipped_cooldown: 0,
            skipped_target_severity: 0,
            skipped_target_capacity: 0,
            skipped_insufficient_improvement: 0,
        }
    }
}

/// Latest split ticks once several actions were recorded.
pub open spec fn recorded(
    last: Map<u128, Tick>,
    actions: Seq<SplitActionModel>,
    tick: Tick,
) -> Map<u128, Tick>
    decreases actions.len(),
{
    if actions.len() == 0 {
        last
    } else {
        recorded(last, actions.drop_last(), tick).insert(
            actions.last().source_station.0 as u128,
            tick,
        )
    }
}

/// Whether a station split too recently.
pub open spec fn cooling(
    last: Map<u128, Tick>,
    station_id: StationId,
    now: Tick,
    cooldown: u64,
) -> bool {
    let key = station_id.0 as u128;
    cooldown != 0 && last.contains_key(key) && now.0.saturating_sub(last[key].0) < cooldown
}

/// Mutable planning state for conservative split scheduling.
#[derive(Clone, Debug, PartialEq, Eq)]
pub struct SplitSchedulerState {
    /// Latest split tick by station number.
    pub last_split_at: OrderedMap<Tick>,
}

impl View for SplitSchedulerState {
    type V = Map<u128, Tick>;

    open spec fn view(&self) -> Map<u128, Tick> {
        self.last_split_at@
    }
}

impl Default for SplitSchedulerState {
    fn default() -> (state: Self)
        ensures
            state.wf(),
            state@ == Map::<u128, Tick>::empty(),
    {
        Self { last_split_at: OrderedMap::new() }
    }
}

impl SplitSchedulerState {
    /// The tick table is well-formed.
    pub open spec fn wf(self) -> bool {
        self.last_split_at.wf()
    }

    /// Returns the last split tick for a source station.
    pub fn last_split_at(&self, station_id: StationId) -> (tick: Option<Tick>)
        requires
            self.wf(),
        ensures
            tick == (if self@.contains_key(station_id.0 as u128) {
                Some(self@[station_id.0 as u128])
            } else {
                None
            }),
    {
        match self.last_split_at.get(station_id.0 as u128) {
            Some(tick) => Some(*tick),
            None => None,
        }
    }

    /// Records one executed or externally accepted split action.
    pub fn record_action(&mut self, action: &SplitAction, tick: Tick)
        requires
            old(self).wf(),
        ensures
            final(self).wf(),
            final(self)@ == old(self)@.insert(action.source_station.0 as u128, tick),
    {
        self.last_split_at.insert(action.source_station.0 as u128, tick);
    }

    fn record_actions(&mut self, actions: &[SplitAction], tick: Tick)
        requires
            old(self).wf(),
        ensures
            final(self).wf(),
            final(self)@ == recorded(old(self)@, action_models(actions@), tick),
    {
        let ghost models = action_models(actions@);
        let mut index: usize = 0;
        assert(models.take(0) =~= Seq::empty());
        while index < actions.len()
            invariant
                models == action_models(actions@),
                index <= actions@.len(),
                self.wf(),
                self@ == recorded(old(self)@, models.take(index as int), tick),
            decreases actions@.len() - index,
        {
            assert(models.take(index + 1).drop_last() =~= models.take(index as int));
            self.record_action(&actions[index], tick);
            index = index + 1;
        }
        assert(models.take(index as int) =~= models);
    }

    /// Records all actions in a schedule at the same tick.
    pub fn record_schedule(&mut self, schedule: &SplitSchedule, tick: Tick)
        requires
            old(self).wf(),
        ensures
            final(self).wf(),
            final(self)@ == recorded(old(self)@, action_models(schedule.actions@), tick),
    {
        self.record_actions(schedule.actions.as_slice(), tick);
    }

    /// Records all actions from a borrowed reusable schedule view.
    pub fn record_schedule_view(&mut self, schedule: SplitScheduleView<'_>, tick: Tick)
        requires
            old(self).wf(),
        ensures
            final(self).wf(),
            final(self)@ == recorded(old(self)@, action_models(schedule.actions@), tick),
    {
        self.record_actions(schedule.actions, tick);
    }

    /// Returns whether a station is inside split cooldown.
    pub fn is_in_cooldown(&self, station_id: StationId, current_tick: Tick, cooldown_ticks: u64) -> (inside:
        bool)
        requires
            self.wf(),
        ensures
            inside == cooling(self@, station_id, current_tick, cooldown_ticks),
    {
        if cooldown_ticks == 0 {
            return false;
        }
        match self.last_split_at(station_id) {
            Some(last_split) => current_tick.0.saturating_sub(last_split.0) < cooldown_ticks,
            None => false,
        }
    }
}

/// Load score of a station.
pub open spec fn load_score(sample: StationLoadSample) -> u64 {
    clamp_u64(
        (sample.entity_total() * 8 + sample.subscribers * 4 + sample.queued_events
            + sample.estimated_bytes / 256 + sample.tick_cost_units) as nat,
    )
}

pub(crate) fn station_load_score(sample: &StationLoadSample) -> (score: u64)
    ensures
        score == load_score(*sample),
{
    saturating_mul_u64(sample.total_entities() as u64, 8).saturating_add(
        saturating_mul_u64(sample.subscribers as u64, 4),
    ).saturating_add(sample.queued_events as u64).saturating_add(
        (sample.estimated_bytes / 256) as u64,
    ).saturating_add(sample.tick_cost_units)
}

/// Rank of a severity among split targets.
pub open spec fn severity_order(severity: HotspotSeverity) -> u8 {
    match severity {
        HotspotSeverity::Normal => 0,
        HotspotSeverity::Warm => 1,
        HotspotSeverity::Hot => 2,
    }
}

fn severity_rank(severity: HotspotSeverity) -> (rank: u8)
    ensures
        rank == severity_order(severity),
{
    match severity {
        HotspotSeverity::Normal => 0,
        HotspotSeverity::Warm => 1,
        HotspotSeverity::Hot => 2,
    }
}

/// What speaks for or against a station as the target of a split.
pub enum TargetVerdict {
    /// It is the source itself.
    Source,
    /// It is too loaded already.
    Severity,
    /// Its score is too close to the source's.
    Improvement,
    /// Its score would rise too high.
    Capacity,
    /// It may receive the cells.
    Admissible,
}

/// What a planning pass reads.
pub struct SplitInput {
    pub config: SplitSchedulerConfig,
    pub samples: Seq<StationLoadSample>,
    pub decisions: Seq<HotspotDecision>,
    pub proposals: Seq<SplitProposal>,
    pub last_split: Map<u128, Tick>,
    pub now: Tick,
}

/// Targets counted by verdict, and the best admissible one so far.
#[verifier::ext_equal]
pub struct Selection {
    pub target: Option<int>,
    pub considered: nat,
    pub by_severity: nat,
    pub by_capacity: nat,
    pub by_improvement: nat,
}

impl SplitInput {
    /// One decision and one proposal per sample, each decision for its own sample.
    pub open spec fn wf(self) -> bool {
        &&& self.decisions.len() == self.samples.len()
        &&& self.proposals.len() == self.samples.len()
        &&& forall|i: int|
            0 <= i < self.samples.len() ==> (#[trigger] self.decisions[i]).station_id
                == self.samples[i].station_id
    }

    /// Verdict on station `target` for a split of station `source`.
    pub open spec fn target_verdict(self, source: int, target: int) -> TargetVerdict {
        let severity = self.decisions[target].severity;
        let score = load_score(self.samples[target]);
        if self.samples[target].station_id == self.samples[source].station_id {
            TargetVerdict::Source
        } else if severity == HotspotSeverity::Hot || (severity == HotspotSeverity::Warm
            && !self.config.allow_warm_targets) {
            TargetVerdict::Severity
        } else if load_score(self.samples[source]).saturating_sub(score)
            < self.config.min_score_improvement {
            TargetVerdict::Improvement
        } else if score.saturating_add(self.proposals[source].moved_pressure_score)
            > self.config.max_target_score_after_move {
            TargetVerdict::Capacity
        } else {
            TargetVerdict::Admissible
        }
    }

    /// Whether target `left` goes before target `right`: by severity, then by score, then by id.
    pub open spec fn better(self, left: int, right: int) -> bool {
        let a = severity_order(self.decisions[left].severity);
        let b = severity_order(self.decisions[right].severity);
        let p = load_score(self.samples[left]);
        let q = load_score(self.samples[right]);
        a < b || (a == b && (p < q || (p == q && self.samples[left].station_id.0
            < self.samples[right].station_id.0)))
    }

    /// Selection among the first `upto` stations.
    pub open spec fn select(self, source: int, upto: nat) -> Selection
        decreases upto,
    {
        if upto == 0 {
            Selection {
                target: None,
                considered: 0,
                by_severity: 0,
                by_capacity: 0,
                by_improvement: 0,
            }
        } else {
            let before = self.select(source, (upto - 1) as nat);
            let candidate = upto - 1;
            match self.target_verdict(source, candidate) {
                TargetVerdict::Source => before,
                TargetVerdict::Severity => Selection {
                    considered: before.considered + 1,
                    by_severity: before.by_severity + 1,
                    ..before
                },
                TargetVerdict::Improvement => Selection {
                    considered: before.considered + 1,
                    by_improvement: before.by_improvement + 1,
                    ..before
                },
                TargetVerdict::Capacity => Selection {
                    considered: before.considered + 1,
                    by_capacity: before.by_capacity + 1,
                    ..before
                },
                TargetVerdict::Admissible => Selection {
                    considered: before.considered + 1,
                    target: match before.target {
                        None => Some(candidate),
                        Some(best) => if self.better(candidate, best) {
                            Some(candidate)
                        } else {
                            Some(best)
                        },
                    },
                    ..before
                },
            }
        }
    }

    /// The action that splits `source` towards `target`.
    pub open spec fn action(self, source: int, target: int) -> SplitActionModel {
        let score = load_score(self.samples[target]);
        SplitActionModel {
            source_station: self.samples[source].station_id,
            target_station: self.samples[target].station_id,
            proposed_by: self.proposals[source].source_station,
            cells: self.proposals[source].cells_to_move@,
            moved_pressure_score: self.proposals[source].moved_pressure_score,
            source_score: load_score(self.samples[source]),
            target_score: score,
            estimated_target_score_after_move: score.saturating_add(
                self.proposals[source].moved_pressure_score,
            ),
        }
    }

    /// A plan extended by one station.
    pub open spec fn step(self, plan: SplitPlan, source: int) -> SplitPlan {
        let selection = self.select(source, self.samples.len());
        if plan.actions.len() >= self.config.max_actions_per_pass {
            plan
        } else if self.decisions[source].severity != HotspotSeverity::Hot {
            plan
        } else if cooling(
            self.last_split,
            self.samples[source].station_id,
            self.now,
            self.config.split_cooldown_ticks,
        ) {
            SplitPlan { skipped_cooldown: plan.skipped_cooldown + 1, ..plan }
        } else if self.proposals[source].cells_to_move@.len() == 0 {
            SplitPlan { skipped_no_cells: plan.skipped_no_cells + 1, ..plan }
        } else {
            match selection.target {
                Some(target) => SplitPlan {
                    actions: plan.actions.push(self.action(source, target)),
                    ..plan
                },
                None => if selection.considered == 0 {
                    SplitPlan { skipped_no_target: plan.skipped_no_target + 1, ..plan }
                } else {
                    SplitPlan {
                        skipped_target_severity: plan.skipped_target_severity + one_if(
                            selection.by_severity == selection.considered,
                        ),
                        skipped_target_capacity: plan.skipped_target_capacity + one_if(
                            selection.by_capacity > 0,
                        ),
                        skipped_insufficient_improvement: plan.skipped_insufficient_improvement
                            + one_if(selection.by_improvement > 0),
                        ..plan
                    }
                },
            }
        }
    }

    /// The plan for the first `upto` stations.
    pub open spec fn plan_upto(self, upto: nat) -> SplitPlan
        decreases upto,
    {
        if upto == 0 {
            SplitPlan::empty()
        } else {
            self.step(self.plan_upto((upto - 1) as nat), upto - 1)
        }
    }

    /// The plan for all stations.
    pub open spec fn plan(self) -> SplitPlan {
        self.plan_upto(self.samples.len())
    }
}

/// One where a condition holds, zero otherwise.
pub open spec fn one_if(condition: bool) -> nat {
    if condition {
        1
    } else {
        0
    }
}

struct SplitTargetSelection {
    target: Option<usize>,
    considered_targets: usize,
    rejected_by_severity: usize,
    rejected_by_capacity: usize,
    rejected_by_improvement: usize,
}

impl SplitTargetSelection {
    spec fn model(self) -> Selection {
        Selection {
            target: match self.target {
                Some(target) => Some(target as int),
                None => None,
            },
            considered: self.considered_targets as nat,
            by_severity: self.rejected_by_severity as nat,
            by_capacity: self.rejected_by_capacity as nat,
            by_improvement: self.rejected_by_improvement as nat,
        }
    }
}

fn select_split_target(
    source: usize,
    proposal: &SplitProposal,
    samples: &[StationLoadSample],
    decisions: &[HotspotDecision],
    config: SplitSchedulerConfig,
    Ghost(input): Ghost<SplitInput>,
) -> (selection: SplitTargetSelection)
    requires
        input.wf(),
        input.config == config,
        input.samples == samples@,
        input.decisions == decisions@,
        source < samples@.len(),
        input.proposals[source as int] == *proposal,
    ensures
        selection.model() == input.select(source as int, samples@.len()),
        selection.target matches Some(target) ==> target < samples@.len(),
{
    let mut selection = SplitTargetSelection {
        target: None,
        considered_targets: 0,
        rejected_by_severity: 0,
        rejected_by_capacity: 0,
        rejected_by_improvement: 0,
    };
    let source_score: u64 = station_load_score(&samples[source]);
    let mut index: usize = 0;
    while index < samples.len()
        invariant
            input.wf(),
            input.config == config,
            input.samples == samples@,
            input.decisions == decisions@,
            source < samples@.len(),
            input.proposals[source as int] == *proposal,
            source_score == load_score(samples@[source as int]),
            index <= samples@.len(),
            selection.model() == input.select(source as int, index as nat),
            selection.target matches Some(target) ==> target < index,
            selection.considered_targets <= index,
            selection.rejected_by_severity <= index,
            selection.rejected_by_capacity <= index,
            selection.rejected_by_improvement <= index,
        decreases samples@.len() - index,
    {
        let at: usize = index;
        index = index + 1;
        let target = &samples[at];
        if target.station_id.0 == samples[source].station_id.0 {
            continue ;
        }
        selection.considered_targets = selection.considered_targets + 1;
        let severity = decisions[at].severity;
        if severity == HotspotSeverity::Hot || (severity == HotspotSeverity::Warm
            && !config.allow_warm_targets) {
            selection.rejected_by_severity = selection.rejected_by_severity + 1;
            continue ;
        }
        let target_score: u64 = station_load_score(target);
        if source_score.saturating_sub(target_score) < config.min_score_improvement {
            selection.rejected_by_improvement = selection.rejected_by_improvement + 1;
            continue ;
        }
        if target_score.saturating_add(proposal.moved_pressure_score)
            > config.max_target_score_after_move {
            selection.rejected_by_capacity = selection.rejected_by_capacity + 1;
            continue ;
        }
        let better: bool = match selection.target {
            None => true,
            Some(best) => {
                let rank: u8 = severity_rank(severity);
                let best_rank: u8 = severity_rank(decisions[best].severity);
                let best_score: u64 = station_load_score(&samples[best]);
                rank < best_rank || (rank == best_rank && (target_score < best_score || (
                target_score == best_score && target.station_id.0 < samples[best].station_id.0)))
            },
        };
        if better {
            selection.target = Some(at);
        }
    }
    selection
}

/// Conservative automatic split scheduler.
#[derive(Clone, Copy, Debug)]
pub struct SplitScheduler {
    /// Scheduler configuration.
    pub config: SplitSchedulerConfig,
}

impl SplitScheduler {
    /// Creates a split scheduler.
    pub fn new(config: SplitSchedulerConfig) -> (scheduler: Self)
        ensures
            scheduler.config == config,
    {
        Self { config }
    }

    /// What a pass over the given samples reads. Without state no station is in cooldown.
    pub open spec fn input(
        self,
        samples: Seq<StationLoadSample>,
        decisions: Seq<HotspotDecision>,
        proposals: Seq<SplitProposal>,
        state: Option<&SplitSchedulerState>,
        now: Tick,
    ) -> SplitInput {
        SplitInput {
            config: self.config,
            samples,
            decisions,
            proposals,
            last_split: match state {
                Some(state) => state@,
                None => Map::empty(),
            },
            now,
        }
    }

    /// Plans split actions from station load samples.
    pub fn plan(
        &self,
        samples: &[StationLoadSample],
        decisions: &[HotspotDecision],
        proposals: &[SplitProposal],
    ) -> (schedule: SplitSchedule)
        requires
            self.input(samples@, decisions@, proposals@, None, Tick(0)).wf(),
        ensures
            decision_models(schedule.decisions@) == decision_models(decisions@),
            schedule.plan() == self.input(
                samples@,
                decisions@,
                proposals@,
                None,
                Tick(0),
            ).plan(),
    {
        let mut scratch = SplitSchedulerScratch::new();
        self.plan_into(samples, decisions, proposals, &mut scratch).to_schedule()
    }

    /// Plans into fully reusable caller-owned output and working storage.
    ///
    /// Whoever judges the stations and proposes the cells keeps the storage for the candidate cells;
    /// planning itself needs none.
    pub fn plan_into<'a>(
        &self,
        samples: &[StationLoadSample],
        decisions: &[HotspotDecision],
        proposals: &[SplitProposal],
        scratch: &'a mut SplitSchedulerScratch,
    ) -> (view: SplitScheduleView<'a>)
        requires
            self.input(samples@, decisions@, proposals@, None, Tick(0)).wf(),
        ensures
            decision_models(view.decisions@) == decision_models(decisions@),
            view.plan() == self.input(samples@, decisions@, proposals@, None, Tick(0)).plan(),
            final(scratch).plan() == view.plan(),
    {
        self.plan_with_state_into(samples, decisions, proposals, None, Tick(0), scratch)
    }

    /// Plans split actions using optional cooldown state.
    pub fn plan_with_state(
        &self,
        samples: &[StationLoadSample],
        decisions: &[HotspotDecision],
        proposals: &[SplitProposal],
        state: Option<&SplitSchedulerState>,
        current_tick: Tick,
    ) -> (schedule: SplitSchedule)
        requires
            self.input(samples@, decisions@, proposals@, state, current_tick).wf(),
            state matches Some(state) ==> state.wf(),
        ensures
            decision_models(schedule.decisions@) == decision_models(decisions@),
            schedule.plan() == self.input(
                samples@,
                decisions@,
                proposals@,
                state,
                current_tick,
            ).plan(),
    {
        let mut scratch = SplitSchedulerScratch::new();
        self.plan_with_state_into(
            samples,
            decisions,
            proposals,
            state,
            current_tick,
            &mut scratch,
        ).to_schedule()
    }

    /// Plans with optional cooldown state into fully reusable scheduler storage.
    ///
    /// `decisions` and `proposals` hold the hotspot verdict and the proposed cell split of every
    /// sample, in sample order. A station is split where it is hot, not in cooldown, has cells to
    /// give away and some other station may take them; the best such station is the target.
    pub fn plan_with_state_into<'a>(
        &self,
        samples: &[StationLoadSample],
        decisions: &[HotspotDecision],
        proposals: &[SplitProposal],
        state: Option<&SplitSchedulerState>,
        current_tick: Tick,
        scratch: &'a mut SplitSchedulerScratch,
    ) -> (view: SplitScheduleView<'a>)
        requires
            self.input(samples@, decisions@, proposals@, state, current_tick).wf(),
            state matches Some(state) ==> state.wf(),
        ensures
            decision_models(view.decisions@) == decision_models(decisions@),
            view.plan() == self.input(
                samples@,
                decisions@,
                proposals@,
                state,
                current_tick,
            ).plan(),
            final(scratch).plan() == view.plan(),
    {
        let ghost input = self.input(samples@, decisions@, proposals@, state, current_tick);
        scratch.prepare(decisions);
        let mut source: usize = 0;
        while source < samples.len()
            invariant
                input == self.input(samples@, decisions@, proposals@, state, current_tick),
                input.wf(),
                state matches Some(state) ==> state.wf(),
                source <= samples@.len(),
                decision_models(scratch.decisions@.take(decisions@.len() as int))
                    == decision_models(decisions@),
                scratch.decisions@.len() >= decisions@.len(),
                scratch.active_actions <= scratch.actions@.len(),
                scratch.active_actions <= source,
                scratch.skipped_no_target <= source,
                scratch.skipped_no_cells <= source,
                scratch.skipped_cooldown <= source,
                scratch.skipped_target_severity <= source,
                scratch.skipped_target_capacity <= source,
                scratch.skipped_insufficient_improvement <= source,
                scratch.plan() == input.plan_upto(source as nat),
            decreases samples@.len() - source,
        {
            let at: usize = source;
            source = source + 1;
            if scratch.active_actions >= self.config.max_actions_per_pass {
                continue ;
            }
            if decisions[at].severity != HotspotSeverity::Hot {
                continue ;
            }
            let cooling: bool = match state {
                Some(state) => state.is_in_cooldown(
                    samples[at].station_id,
                    current_tick,
                    self.config.split_cooldown_ticks,
                ),
                None => false,
            };
            if cooling {
                scratch.skipped_cooldown = scratch.skipped_cooldown.saturating_add(1);
                continue ;
            }
            let proposal = &proposals[at];
            if proposal.cells_to_move.len() == 0 {
                scratch.skipped_no_cells = scratch.skipped_no_cells.saturating_add(1);
                continue ;
            }
            let selection = select_split_target(
                at,
                proposal,
                samples,
                decisions,
                self.config,
                Ghost(input),
            );
            match selection.target {
                None => {
                    if selection.considered_targets == 0 {
                        scratch.skipped_no_target = scratch.skipped_no_target.saturating_add(1);
                    } else {
                        if selection.rejected_by_severity == selection.considered_targets {
                            scratch.skipped_target_severity =
                            scratch.skipped_target_severity.saturating_add(1);
                        }
                        if selection.rejected_by_capacity > 0 {
                            scratch.skipped_target_capacity =
                            scratch.skipped_target_capacity.saturating_add(1);
                        }
                        if selection.rejected_by_improvement > 0 {
                            scratch.skipped_insufficient_improvement =
                            scratch.skipped_insufficient_improvement.saturating_add(1);
                        }
                    }
                },
                Some(target) => {
                    let target_score: u64 = station_load_score(&samples[target]);
                    scratch.add_action(
                        SplitAction {
                            source_station: samples[at].station_id,
                            target_station: samples[target].station_id,
                            proposal: SplitProposal {
                                source_station: proposal.source_station,
                                cells_to_move: copy_cells(proposal.cells_to_move.as_slice()),
                                moved_pressure_score: proposal.moved_pressure_score,
                            },
                            source_score: station_load_score(&samples[at]),
                            target_score,
                            estimated_target_score_after_move: target_score.saturating_add(
                                proposal.moved_pressure_score,
                            ),
                        },
                    );
                },
            }
        }
        let view = SplitScheduleView {
            decisions: vstd::slice::slice_subrange(scratch.decisions.as_slice(), 0, decisions.len()),
            actions: vstd::slice::slice_subrange(
                scratch.actions.as_slice(),
                0,
                scratch.active_actions,
            ),
            skipped_no_target: scratch.skipped_no_target,
            skipped_no_cells: scratch.skipped_no_cells,
            skipped_cooldown: scratch.skipped_cooldown,
            skipped_target_severity: scratch.skipped_target_severity,
            skipped_target_capacity: scratch.skipped_target_capacity,
            skipped_insufficient_improvement: scratch.skipped_insufficient_improvement,
        };
        view
    }
}

impl Default for SplitScheduler {
    fn default() -> (scheduler: Self)
        ensures
            scheduler.config == (SplitSchedulerConfig {
                max_actions_per_pass: 4,
                max_cells_per_action: 4,
                ghost_ttl_ticks: 4,
                min_score_improvement: 1,
                max_target_score_after_move: u64::MAX,
                split_cooldown_ticks: 0,
                allow_warm_targets: true,
            }),
    {
        Self::new(SplitSchedulerConfig::default())
    }
}

/// A selected target is admissible, and no admissible target goes before it. Without a selected
/// target none is admissible.
pub proof fn law_selected_target_is_best(input: SplitInput, source: int, upto: nat)
    requires
        input.wf(),
        0 <= source < input.samples.len(),
        upto <= input.samples.len(),
    ensures
        match input.select(source, upto).target {
            Some(target) => {
                &&& 0 <= target < upto
                &&& input.target_verdict(source, target) is Admissible
                &&& forall|other: int|
                    0 <= other < upto && (#[trigger] input.target_verdict(source, other)
                        is Admissible) ==> !input.better(other, target)
            },
            None => forall|other: int|
                0 <= other < upto ==> !(#[trigger] input.target_verdict(
                    source,
                    other,
                ) is Admissible),
        },
    decreases upto,
{
    if upto > 0 {
        law_selected_target_is_best(input, source, (upto - 1) as nat);
    }
}

/// A plan has no more actions than a pass may take, moves at least one cell with each, and never
/// moves cells from a station to itself.
pub proof fn law_plans_are_bounded(input: SplitInput, upto: nat)
    requires
        input.wf(),
        upto <= input.samples.len(),
    ensures
        ({
            let plan = input.plan_upto(upto);
            &&& plan.actions.len() <= input.config.max_actions_per_pass
            &&& forall|i: int|
                0 <= i < plan.actions.len() ==> {
                    &&& (#[trigger] plan.actions[i]).source_station
                        != plan.actions[i].target_station
                    &&& plan.actions[i].cells.len() > 0
                    &&& plan.actions[i].estimated_target_score_after_move
                        <= input.config.max_target_score_after_move
                    &&& plan.actions[i].source_score.saturating_sub(plan.actions[i].target_score)
                        >= input.config.min_score_improvement
                }
        }),
    decreases upto,
{
    if upto > 0 {
        law_plans_are_bounded(input, (upto - 1) as nat);
        law_selected_target_is_best(input, upto - 1, input.samples.len());
        let before = input.plan_upto((upto - 1) as nat);
        let plan = input.plan_upto(upto);
        assert forall|i: int| 0 <= i < plan.actions.len() implies {
            &&& (#[trigger] plan.actions[i]).source_station != plan.actions[i].target_station
            &&& plan.actions[i].cells.len() > 0
            &&& plan.actions[i].estimated_target_score_after_move
                <= input.config.max_target_score_after_move
            &&& plan.actions[i].source_score.saturating_sub(plan.actions[i].target_score)
                >= input.config.min_score_improvement
        } by {
            if i < before.actions.len() {
                assert(plan.actions[i] == before.actions[i]);
            }
        }
    }
}

/// A station whose split was recorded is not split again until its cooldown has passed.
pub proof fn law_recorded_stations_cool_down(
    last: Map<u128, Tick>,
    actions: Seq<SplitActionModel>,
    tick: Tick,
    now: Tick,
    cooldown: u64,
    index: int,
)
    requires
        0 <= index < actions.len(),
        tick.0 <= now.0,
        now.0 - tick.0 < cooldown,
    ensures
        cooling(recorded(last, actions, tick), actions[index].source_station, now, cooldown),
    decreases actions.len(),
{
    if index < actions.len() - 1 {
        law_recorded_stations_cool_down(last, actions.drop_last(), tick, now, cooldown, index);
    }
}

} // verus!
