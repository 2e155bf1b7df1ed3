//! Ownership of grid cells by stations.

use vstd::prelude::*;

use crate::cell_index::{cell_key, cell_number, lemma_cell_number_injective};
use crate::ids::StationId;
use crate::ordered_map::OrderedMap;
use crate::station::CellCoord3;

verus! {

/// Cells that a hot station proposes to give away.
#[derive(Clone, Debug, PartialEq, Eq)]
pub struct SplitProposal {
    /// Station that gives the cells away.
    pub source_station: StationId,
    /// Cells to move.
    pub cells_to_move: Vec<CellCoord3>,
    /// Load pressure that moves with the cells.
    pub moved_pressure_score: u64,
}

/// Result of applying cell ownership changes.
#[derive(Clone, Debug, PartialEq, Eq)]
pub struct CellOwnershipUpdate {
    /// Previous/source station.
    pub source_station: StationId,
    /// New/target station.
    pub target_station: StationId,
    /// Cells whose owner changed.
    pub moved_cells: Vec<CellCoord3>,
}

impl Default for CellOwnershipUpdate {
    fn default() -> (update: Self)
        ensures
            update.is_blank(),
    {
        Self::empty()
    }
}

impl CellOwnershipUpdate {
    /// An update of nothing.
    pub open spec fn is_blank(self) -> bool {
        &&& self.source_station == StationId(0)
        &&& self.target_station == StationId(0)
        &&& self.moved_cells@ == Seq::<CellCoord3>::empty()
    }

    /// Two updates with the same contents.
    pub open spec fn is_like(self, other: Self) -> bool {
        &&& self.source_station == other.source_station
        &&& self.target_station == other.target_station
        &&& self.moved_cells@ == other.moved_cells@
    }

    /// An update without moved cells.
    pub fn empty() -> (update: Self)
        ensures
            update.is_blank(),
    {
        Self {
            source_station: StationId(0),
            target_station: StationId(0),
            moved_cells: Vec::new(),
        }
    }
}

/// Owners once every given cell belongs to `target`.
pub open spec fn assigned(
    owners: Map<u128, StationId>,
    cells: Seq<CellCoord3>,
    target: StationId,
) -> Map<u128, StationId>
    decreases cells.len(),
{
    if cells.len() == 0 {
        owners
    } else {
        assigned(owners, cells.drop_last(), target).insert(cell_number(cells.last()), target)
    }
}

/// Cells whose owner changes when they are assigned to `target` in turn.
pub open spec fn moved(
    owners: Map<u128, StationId>,
    cells: Seq<CellCoord3>,
    target: StationId,
) -> Seq<CellCoord3>
    decreases cells.len(),
{
    if cells.len() == 0 {
        Seq::empty()
    } else {
        let rest = moved(owners, cells.drop_last(), target);
        let before = assigned(owners, cells.drop_last(), target);
        let key = cell_number(cells.last());
        if before.contains_key(key) && before[key] == target {
            rest
        } else {
            rest.push(cells.last())
        }
    }
}

/// Dynamic ownership table for fixed 3D cells.
#[derive(Clone, Debug, PartialEq, Eq)]
pub struct CellOwnershipTable {
    /// Owners by cell number.
    pub owners: OrderedMap<StationId>,
}

impl View for CellOwnershipTable {
    type V = Map<u128, StationId>;

    open spec fn view(&self) -> Map<u128, StationId> {
        self.owners@
    }
}

impl Default for CellOwnershipTable {
    fn default() -> (table: Self)
        ensures
            table.wf(),
            table@ == Map::<u128, StationId>::empty(),
    {
        Self { owners: OrderedMap::new() }
    }
}

impl CellOwnershipTable {
    /// The owner table is well-formed.
    pub open spec fn wf(self) -> bool {
        self.owners.wf()
    }

    /// Owner of a cell.
    pub open spec fn owner(self, cell: CellCoord3) -> Option<StationId> {
        if self@.contains_key(cell_number(cell)) {
            Some(self@[cell_number(cell)])
        } else {
            None
        }
    }

    /// Assigns one cell to a station and returns the previous owner.
    pub fn assign(&mut self, cell: CellCoord3, station_id: StationId) -> (previous: Option<
        StationId,
    >)
        requires
            old(self).wf(),
        ensures
            final(self).wf(),
            previous == old(self).owner(cell),
            final(self)@ == old(self)@.insert(cell_number(cell), station_id),
    {
        self.owners.insert(cell_key(cell), station_id)
    }

    /// Returns the current owner for one cell.
    pub fn owner_of(&self, cell: CellCoord3) -> (owner: Option<StationId>)
        requires
            self.wf(),
        ensures
            owner == self.owner(cell),
    {
        match self.owners.get(cell_key(cell)) {
            Some(owner) => Some(*owner),
            None => None,
        }
    }

    /// Applies a split proposal by assigning all proposed cells to `target_station`.
    pub fn apply_split(&mut self, proposal: &SplitProposal, target_station: StationId) -> (update:
        CellOwnershipUpdate)
        requires
            old(self).wf(),
        ensures
            final(self).wf(),
            final(self)@ == assigned(old(self)@, proposal.cells_to_move@, target_station),
            update.source_station == proposal.source_station,
            update.target_station == target_station,
            update.moved_cells@ == moved(old(self)@, proposal.cells_to_move@, target_station),
    {
        let mut update = CellOwnershipUpdate::empty();
        self.apply_split_into(proposal, target_station, &mut update);
        update
    }

    /// Applies a split into caller-owned reusable update storage.
    pub fn apply_split_into(
        &mut self,
        proposal: &SplitProposal,
        target_station: StationId,
        update: &mut CellOwnershipUpdate,
    )
        requires
            old(self).wf(),
        ensures
            final(self).wf(),
            final(self)@ == assigned(old(self)@, proposal.cells_to_move@, target_station),
            final(update).source_station == proposal.source_station,
            final(update).target_station == target_station,
            final(update).moved_cells@ == moved(
                old(self)@,
                proposal.cells_to_move@,
                target_station,
            ),
    {
        update.source_station = proposal.source_station;
        update.target_station = target_station;
        update.moved_cells.clear();
        let ghost cells = proposal.cells_to_move@;
        let mut index: usize = 0;
        assert(cells.take(0) =~= Seq::empty());
        while index < proposal.cells_to_move.len()
            invariant
                cells == proposal.cells_to_move@,
                index <= cells.len(),
                self.wf(),
                update.source_station == proposal.source_station,
                update.target_station == target_station,
                self@ == assigned(old(self)@, cells.take(index as int), target_station),
                update.moved_cells@ == moved(
                    old(self)@,
                    cells.take(index as int),
                    target_station,
                ),
            decreases cells.len() - index,
        {
            assert(cells.take(index + 1).drop_last() =~= cells.take(index as int));
            let cell = proposal.cells_to_move[index];
            let unchanged: bool = match self.assign(cell, target_station) {
                Some(previous) => previous.0 == target_station.0,
                None => false,
            };
            if !unchanged {
                update.moved_cells.push(cell);
            }
            index = index + 1;
        }
        assert(cells.take(index as int) =~= cells);
    }

    /// Number of explicitly assigned cells.
    pub fn len(&self) -> (count: usize)
        requires
            self.wf(),
        ensures
            count == self@.dom().len(),
    {
        self.owners.len()
    }

    /// Returns whether no cells are explicitly assigned.
    pub fn is_empty(&self) -> (empty: bool)
        requires
            self.wf(),
        ensures
            empty <==> self@.dom().len() == 0,
    {
        self.owners.len() == 0
    }
}

/// After a split every proposed cell belongs to the target, and every other cell keeps its owner.
pub proof fn law_split_assigns_the_proposed_cells(
    owners: Map<u128, StationId>,
    cells: Seq<CellCoord3>,
    target: StationId,
    cell: CellCoord3,
)
    ensures
        ({
            let after = assigned(owners, cells, target);
            let key = cell_number(cell);
            if cells.contains(cell) {
                after.contains_key(key) && after[key] == target
            } else {
                &&& after.contains_key(key) <==> owners.contains_key(key)
                &&& owners.contains_key(key) ==> after[key] == owners[key]
            }
        }),
    decreases cells.len(),
{
    if cells.len() > 0 {
        law_split_assigns_the_proposed_cells(owners, cells.drop_last(), target, cell);
        lemma_cell_number_injective(cell, cells.last());
        if cells.contains(cell) {
            let i = choose|i: int| 0 <= i < cells.len() && cells[i] == cell;
            if i < cells.len() - 1 {
                assert(cells.drop_last()[i] == cell);
            }
        }
        if cells.drop_last().contains(cell) {
            let i = choose|i: int| 0 <= i < cells.len() - 1 && cells.drop_last()[i] == cell;
            assert(cells[i] == cell);
        }
        assert(cells[cells.len() - 1] == cells.last());
    }
}

/// Assigning the same cells to the same station again moves nothing.
pub proof fn law_repeated_split_moves_nothing(
    owners: Map<u128, StationId>,
    cells: Seq<CellCoord3>,
    again: Seq<CellCoord3>,
    target: StationId,
)
    requires
        forall|cell: CellCoord3| #[trigger] again.contains(cell) ==> cells.contains(cell),
    ensures
        moved(assigned(owners, cells, target), again, target) == Seq::<CellCoord3>::empty(),
        assigned(assigned(owners, cells, target), again, target) == assigned(owners, cells, target),
    decreases again.len(),
{
    if again.len() > 0 {
        let first = assigned(owners, cells, target);
        assert forall|cell: CellCoord3| #[trigger] again.drop_last().contains(
            cell,
        ) implies cells.contains(cell) by {
            let i = choose|i: int| 0 <= i < again.len() - 1 && again.drop_last()[i] == cell;
            assert(again[i] == cell);
            assert(again.contains(cell));
        }
        law_repeated_split_moves_nothing(owners, cells, again.drop_last(), target);
        assert(again.contains(again.last())) by {
            assert(again[again.len() - 1] == again.last());
        }
        law_split_assigns_the_proposed_cells(owners, cells, target, again.last());
        assert(first.insert(cell_number(again.last()), target) =~= first);
    }
}

} // verus!
