//! What cell ownership promises: a split hands exactly the proposed cells to its target, and says
//! which of them changed hands.

use vstd::prelude::*;

use crate::cell_index::{
    cell_number, law_removal_leaves_the_other_handles, lemma_cell_number_injective, CellIndex,
};
use crate::ids::{EntityHandle, StationId};
use crate::ownership::{
    assigned, law_split_assigns_the_proposed_cells, moved, CellOwnershipTable, CellOwnershipUpdate,
    SplitProposal,
};
use crate::station::CellCoord3;

verus! {

/// Every proposed cell belongs to the target, and every other cell to whom it did.
pub open spec fn hands_over_cells(
    before: CellOwnershipTable,
    after: CellOwnershipTable,
    cells: Seq<CellCoord3>,
    target: StationId,
) -> bool {
    forall|cell: CellCoord3| #[trigger]
        after.owner(cell) == if cells.contains(cell) {
            Some(target)
        } else {
            before.owner(cell)
        }
}

/// The listed cells are the proposed ones that did not belong to the target, each once.
pub open spec fn lists_changes(
    before: CellOwnershipTable,
    cells: Seq<CellCoord3>,
    target: StationId,
    listed: Seq<CellCoord3>,
) -> bool {
    &&& listed.no_duplicates()
    &&& forall|cell: CellCoord3| #[trigger]
        listed.contains(cell) <==> cells.contains(cell) && before.owner(cell) != Some(target)
}

/// The cells that a split lists are the proposed ones that did not belong to its target, each once.
pub proof fn lemma_moved(owners: Map<u128, StationId>, cells: Seq<CellCoord3>, target: StationId)
    ensures
        moved(owners, cells, target).no_duplicates(),
        forall|cell: CellCoord3| #[trigger]
            moved(owners, cells, target).contains(cell) <==> cells.contains(cell) && !(
            owners.contains_key(cell_number(cell)) && owners[cell_number(cell)] == target),
    decreases cells.len(),
{
    let listed = moved(owners, cells, target);
    if cells.len() > 0 {
        let fewer = cells.drop_last();
        let last = cells.last();
        let rest = moved(owners, fewer, target);
        lemma_moved(owners, fewer, target);
        law_split_assigns_the_proposed_cells(owners, fewer, target, last);
        assert forall|cell: CellCoord3| #[trigger] cells.contains(cell) <==> (fewer.contains(cell)
            || cell == last) by {
            if cells.contains(cell) {
                let i = choose|i: int| 0 <= i < cells.len() && cells[i] == cell;
                if i < fewer.len() {
                    assert(fewer[i] == cell);
                }
            }
            if fewer.contains(cell) {
                let i = choose|i: int| 0 <= i < fewer.len() && fewer[i] == cell;
                assert(cells[i] == cell);
            }
            if cell == last {
                assert(cells[cells.len() - 1] == cell);
            }
        }
        let changes = !fewer.contains(last) && !(owners.contains_key(cell_number(last))
            && owners[cell_number(last)] == target);
        if changes {
            assert(listed == rest.push(last));
            assert(!rest.contains(last));
            assert forall|cell: CellCoord3| #[trigger] listed.contains(cell) <==> (rest.contains(
                cell,
            ) || cell == last) by {
                if listed.contains(cell) {
                    let i = choose|i: int| 0 <= i < listed.len() && listed[i] == cell;
                    if i < rest.len() {
                        assert(rest[i] == cell);
                    }
                }
                if rest.contains(cell) {
                    let i = choose|i: int| 0 <= i < rest.len() && rest[i] == cell;
                    assert(listed[i] == cell);
                }
                if cell == last {
                    assert(listed[rest.len() as int] == cell);
                }
            }
        } else {
            assert(listed == rest);
        }
    }
}

proof fn lemma_assigned(
    before: CellOwnershipTable,
    after: CellOwnershipTable,
    cells: Seq<CellCoord3>,
    target: StationId,
)
    requires
        after@ == assigned(before@, cells, target),
    ensures
        hands_over_cells(before, after, cells, target),
{
    assert forall|cell: CellCoord3| #[trigger] after.owner(cell) == if cells.contains(cell) {
        Some(target)
    } else {
        before.owner(cell)
    } by {
        law_split_assigns_the_proposed_cells(before@, cells, target, cell);
    }
}

/// A split hands every proposed cell to its target and touches no other cell. It lists the cells that
/// changed hands, each once, and leaves out those that belonged to the target already.
pub proof fn law_splits_hand_over_the_proposed_cells(proposal: &SplitProposal, target: StationId)
    ensures
        forall|table: &mut CellOwnershipTable, update: CellOwnershipUpdate|
            #[trigger] call_ensures(
                CellOwnershipTable::apply_split,
                (table, proposal, target),
                update,
            ) && table.wf() ==> {
                &&& hands_over_cells(*table, *final(table), proposal.cells_to_move@, target)
                &&& lists_changes(
                    *table,
                    proposal.cells_to_move@,
                    target,
                    update.moved_cells@,
                )
                &&& update.source_station == proposal.source_station
                &&& update.target_station == target
            },
        forall|table: &mut CellOwnershipTable, update: &mut CellOwnershipUpdate|
            #[trigger] call_ensures(
                CellOwnershipTable::apply_split_into,
                (table, proposal, target, update),
                (),
            ) && table.wf() ==> {
                &&& hands_over_cells(*table, *final(table), proposal.cells_to_move@, target)
                &&& lists_changes(
                    *table,
                    proposal.cells_to_move@,
                    target,
                    final(update).moved_cells@,
                )
                &&& final(update).source_station == proposal.source_station
                &&& final(update).target_station == target
            },
{
    assert forall|table: &mut CellOwnershipTable, update: CellOwnershipUpdate|
        #[trigger] call_ensures(CellOwnershipTable::apply_split, (table, proposal, target), update)
            && table.wf() implies {
        &&& hands_over_cells(*table, *final(table), proposal.cells_to_move@, target)
        &&& lists_changes(*table, proposal.cells_to_move@, target, update.moved_cells@)
        &&& update.source_station == proposal.source_station
        &&& update.target_station == target
    } by {
        lemma_assigned(*table, *final(table), proposal.cells_to_move@, target);
        lemma_moved(table@, proposal.cells_to_move@, target);
    }
    assert forall|table: &mut CellOwnershipTable, update: &mut CellOwnershipUpdate|
        #[trigger] call_ensures(
            CellOwnershipTable::apply_split_into,
            (table, proposal, target, update),
            (),
        ) && table.wf() implies {
        &&& hands_over_cells(*table, *final(table), proposal.cells_to_move@, target)
        &&& lists_changes(*table, proposal.cells_to_move@, target, final(update).moved_cells@)
        &&& final(update).source_station == proposal.source_station
        &&& final(update).target_station == target
    } by {
        lemma_assigned(*table, *final(table), proposal.cells_to_move@, target);
        lemma_moved(table@, proposal.cells_to_move@, target);
    }
}

/// An assigned cell belongs to its new owner, no other cell changes hands, and the owner that it had
/// is handed back. A lookup finds the owner.
pub proof fn law_assigned_cells_have_one_owner(cell: CellCoord3, station_id: StationId)
    ensures
        forall|table: &mut CellOwnershipTable, previous: Option<StationId>|
            #[trigger] call_ensures(
                CellOwnershipTable::assign,
                (table, cell, station_id),
                previous,
            ) && table.wf() ==> {
                &&& previous == table.owner(cell)
                &&& hands_over_cells(*table, *final(table), seq![cell], station_id)
            },
        forall|table: &CellOwnershipTable, owner: Option<StationId>|
            #[trigger] call_ensures(CellOwnershipTable::owner_of, (table, cell), owner)
                && table.wf() ==> owner == table.owner(cell),
{
    assert forall|table: &mut CellOwnershipTable, previous: Option<StationId>|
        #[trigger] call_ensures(CellOwnershipTable::assign, (table, cell, station_id), previous)
            && table.wf() implies {
        &&& previous == table.owner(cell)
        &&& hands_over_cells(*table, *final(table), seq![cell], station_id)
    } by {
        assert(seq![cell][0] == cell);
        assert forall|other: CellCoord3| #[trigger] final(table).owner(other) == if seq![
            cell,
        ].contains(other) {
            Some(station_id)
        } else {
            table.owner(other)
        } by {
            lemma_cell_number_injective(cell, other);
        }
    }
}

/// The handle stands in the index at exactly these cells, and every other handle where it did.
pub open spec fn stands_only_at(
    before: CellIndex,
    after: CellIndex,
    handle: EntityHandle,
    cells: Seq<CellCoord3>,
) -> bool {
    &&& forall|cell: CellCoord3| #[trigger]
        after.handles_in(cell).contains(handle) <==> cells.contains(cell)
    &&& forall|cell: CellCoord3, other: EntityHandle|
        other != handle ==> (#[trigger] after.handles_in(cell).contains(other)
            <==> before.handles_in(cell).contains(other))
}

proof fn lemma_stands(
    before: CellIndex,
    after: CellIndex,
    handle: EntityHandle,
    cells: Seq<CellCoord3>,
)
    requires
        crate::migration::placed_at(before, after, handle, cells),
    ensures
        stands_only_at(before, after, handle, cells),
{
    assert forall|cell: CellCoord3| #[trigger]
        after.handles_in(cell).contains(handle) <==> cells.contains(cell) by {
        let kept = crate::cell_index::without(before.handles_in(cell), handle);
        law_removal_leaves_the_other_handles(before.handles_in(cell), handle);
        if cells.contains(cell) {
            assert(after.handles_in(cell)[kept.len() as int] == handle);
        }
    }
    assert forall|cell: CellCoord3, other: EntityHandle| other != handle implies (
    #[trigger] after.handles_in(cell).contains(other) <==> before.handles_in(cell).contains(other)) by {
        let kept = crate::cell_index::without(before.handles_in(cell), handle);
        law_removal_leaves_the_other_handles(before.handles_in(cell), handle);
        let now = after.handles_in(cell);
        assert(kept.contains(other) <==> before.handles_in(cell).contains(other));
        if now.contains(other) {
            let i = choose|i: int| 0 <= i < now.len() && now[i] == other;
            assert(i < kept.len());
            assert(kept[i] == other);
        }
        if kept.contains(other) {
            let i = choose|i: int| 0 <= i < kept.len() && kept[i] == other;
            assert(now[i] == other);
        }
    }
}

/// An entity that is indexed anew stands at its new cells and at no other, an entity that is removed
/// stands nowhere, and every other entity stays where it was.
pub proof fn law_indexed_entities_stand_at_their_cells(handle: EntityHandle, cells: &[CellCoord3])
    ensures
        forall|index: &mut CellIndex|
            #[trigger] call_ensures(CellIndex::upsert, (index, handle, cells), ()) && index.wf()
                ==> stands_only_at(*index, *final(index), handle, cells@),
        forall|index: &mut CellIndex|
            #[trigger] call_ensures(CellIndex::remove, (index, handle), ()) && index.wf()
                ==> stands_only_at(*index, *final(index), handle, Seq::empty()),
{
    assert forall|index: &mut CellIndex|
        #[trigger] call_ensures(CellIndex::upsert, (index, handle, cells), ())
            && index.wf() implies stands_only_at(*index, *final(index), handle, cells@) by {
        lemma_stands(*index, *final(index), handle, cells@);
    }
    assert forall|index: &mut CellIndex|
        #[trigger] call_ensures(CellIndex::remove, (index, handle), ())
            && index.wf() implies stands_only_at(*index, *final(index), handle, Seq::empty()) by {
        lemma_stands(*index, *final(index), handle, Seq::empty());
    }
}

} // verus!
