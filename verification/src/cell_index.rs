//! Spatial index of a station: entity handles by cell.

use vstd::prelude::*;

use crate::ids::EntityHandle;
use crate::ordered_map::{lemma_map_of, map_of, OrderedMap};
use crate::station::CellCoord3;

verus! {

/// Number of a cell. Numbers ascend as cells do, by `x`, then `y`, then `z`.
pub open spec fn cell_number(cell: CellCoord3) -> u128 {
    ((cell.x + 0x8000_0000) * 0x1_0000_0000_0000_0000 + (cell.y + 0x8000_0000) * 0x1_0000_0000 + (
    cell.z + 0x8000_0000)) as u128
}

/// Distinct cells have distinct numbers.
pub proof fn lemma_cell_number_injective(a: CellCoord3, b: CellCoord3)
    ensures
        cell_number(a) == cell_number(b) ==> a == b,
{
}

/// Computes the number of a cell.
pub fn cell_key(cell: CellCoord3) -> (key: u128)
    ensures
        key == cell_number(cell),
{
    let x: u128 = (cell.x as i64 + 0x8000_0000) as u128;
    let y: u128 = (cell.y as i64 + 0x8000_0000) as u128;
    let z: u128 = (cell.z as i64 + 0x8000_0000) as u128;
    x * 0x1_0000_0000_0000_0000 + y * 0x1_0000_0000 + z
}

/// Handles of one cell.
#[derive(Clone, Debug, PartialEq, Eq)]
pub struct CellEntry {
    /// The cell.
    pub cell: CellCoord3,
    /// Handles in the cell, in the order in which they entered it.
    pub handles: Vec<EntityHandle>,
}

/// Handles without one of them.
pub open spec fn without(handles: Seq<EntityHandle>, handle: EntityHandle) -> Seq<EntityHandle>
    decreases handles.len(),
{
    if handles.len() == 0 {
        Seq::empty()
    } else {
        let rest = without(handles.drop_last(), handle);
        if handles.last() == handle {
            rest
        } else {
            rest.push(handles.last())
        }
    }
}

/// Cells that hold a handle, in ascending order.
pub open spec fn occupied_in(entries: Seq<(u128, CellEntry)>) -> Seq<CellCoord3>
    decreases entries.len(),
{
    if entries.len() == 0 {
        Seq::empty()
    } else {
        let rest = occupied_in(entries.drop_last());
        if entries.last().1.handles@.len() > 0 {
            rest.push(entries.last().1.cell)
        } else {
            rest
        }
    }
}

/// Entity handles by cell.
#[derive(Clone, Debug)]
pub struct CellIndex {
    /// Cells by number.
    pub cells: OrderedMap<CellEntry>,
}

fn filtered(handles: &Vec<EntityHandle>, handle: EntityHandle) -> (kept: Vec<EntityHandle>)
    ensures
        kept@ == without(handles@, handle),
{
    let mut kept: Vec<EntityHandle> = Vec::new();
    let mut index: usize = 0;
    assert(handles@.take(0) =~= Seq::empty());
    while index < handles.len()
        invariant
            index <= handles@.len(),
            kept@ == without(handles@.take(index as int), handle),
        decreases handles@.len() - index,
    {
        assert(handles@.take(index + 1).drop_last() =~= handles@.take(index as int));
        if handles[index] != handle {
            kept.push(handles[index]);
        }
        index = index + 1;
    }
    assert(handles@.take(index as int) =~= handles@);
    kept
}

/// Whether the cell at a position stands at an earlier one too.
fn entered_before(cells: &[CellCoord3], at: usize) -> (entered: bool)
    requires
        at < cells@.len(),
    ensures
        entered == cells@.take(at as int).contains(cells@[at as int]),
{
    let mut index: usize = 0;
    while index < at
        invariant
            index <= at < cells@.len(),
            forall|i: int| 0 <= i < index ==> cells@[i] != cells@[at as int],
        decreases at - index,
    {
        if cells[index] == cells[at] {
            assert(cells@.take(at as int)[index as int] == cells@[at as int]);
            return true;
        }
        index = index + 1;
    }
    false
}

fn copied(handles: &Vec<EntityHandle>) -> (copy: Vec<EntityHandle>)
    ensures
        copy@ == handles@,
{
    let mut copy: Vec<EntityHandle> = Vec::new();
    let mut index: usize = 0;
    while index < handles.len()
        invariant
            index <= handles@.len(),
            copy@ == handles@.take(index as int),
        decreases handles@.len() - index,
    {
        copy.push(handles[index]);
        index = index + 1;
    }
    assert(handles@.take(index as int) =~= handles@);
    copy
}

impl CellIndex {
    /// Every cell stands under its own number.
    pub open spec fn wf(self) -> bool {
        &&& self.cells.wf()
        &&& forall|key: u128| #[trigger]
            self.cells@.contains_key(key) ==> cell_number(self.cells@[key].cell) == key
    }

    /// Handles in a cell.
    pub open spec fn handles_in(self, cell: CellCoord3) -> Seq<EntityHandle> {
        if self.cells@.contains_key(cell_number(cell)) {
            self.cells@[cell_number(cell)].handles@
        } else {
            Seq::empty()
        }
    }

    /// Creates an empty index.
    pub fn new() -> (index: Self)
        ensures
            index.wf(),
            forall|cell: CellCoord3| (#[trigger] index.handles_in(cell)).len() == 0,
            index.cells.entries@.len() == 0,
    {
        Self { cells: OrderedMap::new() }
    }

    /// Returns the handles in a cell.
    pub fn handles_in_cell(&self, cell: CellCoord3) -> (handles: Vec<EntityHandle>)
        requires
            self.wf(),
        ensures
            handles@ == self.handles_in(cell),
    {
        match self.cells.get(cell_key(cell)) {
            Some(entry) => copied(&entry.handles),
            None => Vec::new(),
        }
    }

    /// Lists the cells that hold a handle, in ascending order.
    pub fn cell_occupancy_into(&self, occupied: &mut Vec<CellCoord3>)
        ensures
            final(occupied)@ == occupied_in(self.cells.entries@),
    {
        occupied.clear();
        let mut index: usize = 0;
        let ghost entries = self.cells.entries@;
        assert(entries.take(0) =~= Seq::empty());
        while index < self.cells.entries.len()
            invariant
                entries == self.cells.entries@,
                index <= entries.len(),
                occupied@ == occupied_in(entries.take(index as int)),
            decreases entries.len() - index,
        {
            assert(entries.take(index + 1).drop_last() =~= entries.take(index as int));
            if self.cells.entries[index].1.handles.len() > 0 {
                occupied.push(self.cells.entries[index].1.cell);
            }
            index = index + 1;
        }
        assert(entries.take(index as int) =~= entries);
    }

    /// Takes a handle out of every cell.
    pub fn remove(&mut self, handle: EntityHandle)
        requires
            old(self).wf(),
        ensures
            final(self).wf(),
            forall|cell: CellCoord3| #[trigger]
                final(self).handles_in(cell) == without(old(self).handles_in(cell), handle),
    {
        let ghost before = self.cells.entries@;
        let mut index: usize = 0;
        while index < self.cells.entries.len()
            invariant
                before == old(self).cells.entries@,
                index <= before.len(),
                self.cells.entries@.len() == before.len(),
                forall|i: int|
                    0 <= i < before.len() ==> (#[trigger] self.cells.entries@[i]).0 == before[i].0
                        && self.cells.entries@[i].1.cell == before[i].1.cell,
                forall|i: int|
                    0 <= i < index ==> (#[trigger] self.cells.entries@[i]).1.handles@ == without(
                        before[i].1.handles@,
                        handle,
                    ),
                forall|i: int|
                    index <= i < before.len() ==> (#[trigger] self.cells.entries@[i]).1.handles@
                        == before[i].1.handles@,
            decreases before.len() - index,
        {
            let kept = filtered(&self.cells.entries[index].1.handles, handle);
            let entry = &mut self.cells.entries[index];
            entry.1.handles = kept;
            index = index + 1;
        }
        proof {
            let after = self.cells.entries@;
            lemma_map_of(before);
            assert forall|i: int, j: int| 0 <= i < j < after.len() implies (#[trigger] after[i]).0 < (
            #[trigger] after[j]).0 by {
                assert(before[i].0 < before[j].0);
            }
            lemma_map_of(after);
            assert forall|key: u128| #[trigger] self.cells@.contains_key(key) <==> map_of(
                before,
            ).contains_key(key) by {
                if map_of(before).contains_key(key) {
                    let i = choose|i: int| 0 <= i < before.len() && (#[trigger] before[i]).0 == key;
                    assert(after[i].0 == key);
                }
                if self.cells@.contains_key(key) {
                    let i = choose|i: int| 0 <= i < after.len() && (#[trigger] after[i]).0 == key;
                    assert(before[i].0 == key);
                }
            }
            assert forall|key: u128| #[trigger] self.cells@.contains_key(key) implies (
            cell_number(self.cells@[key].cell) == key && self.cells@[key].cell == map_of(
                before,
            )[key].cell && self.cells@[key].handles@ == without(
                map_of(before)[key].handles@,
                handle,
            )) by {
                assert(old(self).cells@.contains_key(key));
                let i = choose|i: int| 0 <= i < after.len() && (#[trigger] after[i]).0 == key;
                assert(before[i].0 == key);
            }
        }
    }

    /// Puts a handle behind the others of a cell.
    fn enter(&mut self, handle: EntityHandle, cell: CellCoord3)
        requires
            old(self).wf(),
        ensures
            final(self).wf(),
            forall|other: CellCoord3| #[trigger]
                final(self).handles_in(other) == (if other == cell {
                    old(self).handles_in(other).push(handle)
                } else {
                    old(self).handles_in(other)
                }),
    {
        let ghost before = *self;
        let mut handles = self.handles_in_cell(cell);
        handles.push(handle);
        let key: u128 = cell_key(cell);
        self.cells.insert(key, CellEntry { cell, handles });
        proof {
            assert forall|other: CellCoord3| #[trigger] self.handles_in(other) == (if other == cell {
                before.handles_in(other).push(handle)
            } else {
                before.handles_in(other)
            }) by {
                lemma_cell_number_injective(other, cell);
            }
        }
    }

    /// Puts a handle into the given cells, once into each, and out of any other.
    pub fn upsert(&mut self, handle: EntityHandle, cells: &[CellCoord3])
        requires
            old(self).wf(),
        ensures
            final(self).wf(),
            forall|cell: CellCoord3| #[trigger]
                final(self).handles_in(cell) == (if cells@.contains(cell) {
                    without(old(self).handles_in(cell), handle).push(handle)
                } else {
                    without(old(self).handles_in(cell), handle)
                }),
    {
        self.remove(handle);
        let mut index: usize = 0;
        while index < cells.len()
            invariant
                index <= cells@.len(),
                self.wf(),
                forall|cell: CellCoord3| #[trigger]
                    self.handles_in(cell) == (if cells@.take(index as int).contains(cell) {
                        without(old(self).handles_in(cell), handle).push(handle)
                    } else {
                        without(old(self).handles_in(cell), handle)
                    }),
            decreases cells@.len() - index,
        {
            let entered: bool = entered_before(cells, index);
            if !entered {
                self.enter(handle, cells[index]);
            }
            proof {
                let seen = cells@.take(index as int);
                let next = cells@.take(index + 1);
                assert(next =~= seen.push(cells@[index as int]));
                assert forall|cell: CellCoord3| next.contains(cell) <==> seen.contains(cell) || cell
                    == cells@[index as int] by {
                    if seen.contains(cell) {
                        let i = choose|i: int| 0 <= i < seen.len() && seen[i] == cell;
                        assert(next[i] == cell);
                    }
                    if cell == cells@[index as int] {
                        assert(next[index as int] == cell);
                    }
                }
            }
            index = index + 1;
        }
        assert(cells@.take(index as int) =~= cells@);
    }
}

impl Default for CellIndex {
    fn default() -> (index: Self)
        ensures
            index.wf(),
            forall|cell: CellCoord3| (#[trigger] index.handles_in(cell)).len() == 0,
    {
        Self::new()
    }
}

/// Taking a handle out of a cell leaves the other handles in it, and only them. So after an update a
/// handle stands in its new cells and in no other.
pub proof fn law_removal_leaves_the_other_handles(handles: Seq<EntityHandle>, handle: EntityHandle)
    ensures
        !without(handles, handle).contains(handle),
        forall|other: EntityHandle|
            other != handle ==> (#[trigger] without(handles, handle).contains(other)
                <==> handles.contains(other)),
    decreases handles.len(),
{
    if handles.len() > 0 {
        let front = handles.drop_last();
        law_removal_leaves_the_other_handles(front, handle);
        let rest = without(front, handle);
        let whole = without(handles, handle);
        assert(handles =~= front.push(handles.last()));
        assert forall|other: EntityHandle| #[trigger] whole.contains(other) <==> (other != handle
            && handles.contains(other)) by {
            if rest.contains(other) {
                let i = choose|i: int| 0 <= i < rest.len() && rest[i] == other;
                assert(whole[i] == other);
            }
            if whole.contains(other) {
                let i = choose|i: int| 0 <= i < whole.len() && whole[i] == other;
                if i < rest.len() {
                    assert(rest[i] == other);
                    assert(rest.contains(other));
                }
            }
            if handles.contains(other) {
                let i = choose|i: int| 0 <= i < handles.len() && handles[i] == other;
                if i < front.len() {
                    assert(front[i] == other);
                    assert(front.contains(other));
                } else if other != handle {
                    assert(whole[rest.len() as int] == other);
                }
            }
            if front.contains(other) {
                let i = choose|i: int| 0 <= i < front.len() && front[i] == other;
                assert(handles[i] == other);
            }
        }
    }
}

} // verus!
