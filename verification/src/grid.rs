//! The witness grid: one slot per column and row, and the selector flags.

use crate::column::{Cell, ColumnKind, Selector};
use crate::field::Fe;
use vstd::prelude::*;

verus! {

/// The table of column x row -> field value that synthesis fills, together
/// with the per-row selector flags.
pub struct Grid {
    rows: usize,
    advice: Vec<Vec<Option<Fe>>>,
    fixed: Vec<Vec<Option<Fe>>>,
    instance: Vec<Vec<Option<Fe>>>,
    table: Vec<Vec<Option<Fe>>>,
    selectors: Vec<Vec<bool>>,
}

/// A block of `width` columns of `rows` empty slots each.
fn empty_columns(width: usize, rows: usize) -> (cols: Vec<Vec<Option<Fe>>>)
    ensures
        cols@.len() == width,
        forall|i: int|
            0 <= i < width ==> (#[trigger] cols@[i])@ =~= Seq::new(rows as nat, |r: int| None::<Fe>),
{
    let mut cols: Vec<Vec<Option<Fe>>> = Vec::new();
    let mut i: usize = 0;
    while i < width
        invariant
            i <= width,
            cols@.len() == i,
            forall|j: int|
                0 <= j < i ==> (#[trigger] cols@[j])@ =~= Seq::new(rows as nat, |r: int| None::<Fe>),
        decreases width - i,
    {
        let mut col: Vec<Option<Fe>> = Vec::new();
        let mut r: usize = 0;
        while r < rows
            invariant
                r <= rows,
                col@ =~= Seq::new(r as nat, |r: int| None::<Fe>),
            decreases rows - r,
        {
            col.push(None);
            r = r + 1;
        }
        cols.push(col);
        i = i + 1;
    }
    cols
}

/// A block of `width` selector columns, switched off on every row.
fn cleared_flags(width: usize, rows: usize) -> (cols: Vec<Vec<bool>>)
    ensures
        cols@.len() == width,
        forall|i: int|
            0 <= i < width ==> (#[trigger] cols@[i])@ =~= Seq::new(rows as nat, |r: int| false),
{
    let mut cols: Vec<Vec<bool>> = Vec::new();
    let mut i: usize = 0;
    while i < width
        invariant
            i <= width,
            cols@.len() == i,
            forall|j: int|
                0 <= j < i ==> (#[trigger] cols@[j])@ =~= Seq::new(rows as nat, |r: int| false),
        decreases width - i,
    {
        let mut col: Vec<bool> = Vec::new();
        let mut r: usize = 0;
        while r < rows
            invariant
                r <= rows,
                col@ =~= Seq::new(r as nat, |r: int| false),
            decreases rows - r,
        {
            col.push(false);
            r = r + 1;
        }
        cols.push(col);
        i = i + 1;
    }
    cols
}

impl Grid {
    spec fn block(&self, kind: ColumnKind) -> Seq<Vec<Option<Fe>>> {
        match kind {
            ColumnKind::Advice => self.advice@,
            ColumnKind::Fixed => self.fixed@,
            ColumnKind::Instance => self.instance@,
            ColumnKind::LookupTable => self.table@,
        }
    }

    spec fn slot(&self, cell: Cell) -> Option<Fe> {
        let cols = self.block(cell.column.kind);
        if cell.column.index < cols.len() && cell.row < self.rows {
            cols[cell.column.index as int]@[cell.row as int]
        } else {
            None
        }
    }

    /// Every column, of whatever kind, has one slot per row.
    pub closed spec fn wf(&self) -> bool {
        &&& forall|i: int| 0 <= i < self.advice@.len() ==> (#[trigger] self.advice@[i])@.len() == self.rows
        &&& forall|i: int| 0 <= i < self.fixed@.len() ==> (#[trigger] self.fixed@[i])@.len() == self.rows
        &&& forall|i: int|
            0 <= i < self.instance@.len() ==> (#[trigger] self.instance@[i])@.len() == self.rows
        &&& forall|i: int| 0 <= i < self.table@.len() ==> (#[trigger] self.table@[i])@.len() == self.rows
        &&& forall|i: int|
            0 <= i < self.selectors@.len() ==> (#[trigger] self.selectors@[i])@.len() == self.rows
    }

    /// The number of rows.
    pub closed spec fn height(&self) -> nat {
        self.rows as nat
    }

    /// The number of columns of a kind.
    pub closed spec fn width(&self, kind: ColumnKind) -> nat {
        self.block(kind).len()
    }

    /// The number of selectors.
    pub closed spec fn selector_count(&self) -> nat {
        self.selectors@.len()
    }

    /// The assigned cells and their values.
    pub closed spec fn cells(&self) -> Map<Cell, Fe> {
        Map::new(|c: Cell| self.slot(c) is Some, |c: Cell| self.slot(c).unwrap())
    }

    spec fn flag(&self, selector: Selector, row: int) -> bool {
        &&& selector.index < self.selectors@.len()
        &&& 0 <= row < self.rows
        &&& self.selectors@[selector.index as int]@[row]
    }

    /// The pairs of a selector and a row at which it is switched on.
    pub closed spec fn flags(&self) -> Set<(Selector, int)> {
        Set::new(|p: (Selector, int)| self.flag(p.0, p.1))
    }

    /// Whether a selector is switched on at a row.
    pub open spec fn enabled(&self, selector: Selector, row: int) -> bool {
        self.flags().contains((selector, row))
    }

    /// Whether a cell lies inside the grid.
    pub open spec fn contains(&self, cell: Cell) -> bool {
        &&& cell.column.index < self.width(cell.column.kind)
        &&& cell.row < self.height()
    }

    /// Only cells inside the grid are ever assigned.
    pub proof fn lemma_cells_inside(&self, cell: Cell)
        requires
            self.cells().contains_key(cell),
        ensures
            self.contains(cell),
    {
    }

    /// An empty grid of the given shape.
    pub fn new(
        rows: usize,
        advice: usize,
        fixed: usize,
        instance: usize,
        table: usize,
        selectors: usize,
    ) -> (g: Grid)
        ensures
            g.wf(),
            g.height() == rows,
            g.width(ColumnKind::Advice) == advice,
            g.width(ColumnKind::Fixed) == fixed,
            g.width(ColumnKind::Instance) == instance,
            g.width(ColumnKind::LookupTable) == table,
            g.selector_count() == selectors,
            g.cells() == Map::<Cell, Fe>::empty(),
            g.flags() == Set::<(Selector, int)>::empty(),
    {
        let g = Grid {
            rows,
            advice: empty_columns(advice, rows),
            fixed: empty_columns(fixed, rows),
            instance: empty_columns(instance, rows),
            table: empty_columns(table, rows),
            selectors: cleared_flags(selectors, rows),
        };
        assert(g.cells() =~= Map::<Cell, Fe>::empty());
        assert(g.flags() =~= Set::<(Selector, int)>::empty());
        g
    }

    /// The number of rows.
    pub fn rows(&self) -> (n: usize)
        ensures
            n == self.height(),
    {
        self.rows
    }

    /// The value of a cell, if it is assigned.
    pub fn get(&self, cell: Cell) -> (o: Option<Fe>)
        requires
            self.wf(),
        ensures
            o is Some <==> self.cells().contains_key(cell),
            o is Some ==> o.unwrap() == self.cells()[cell],
    {
        if cell.row >= self.rows {
            return None;
        }
        match cell.column.kind {
            ColumnKind::Advice => {
                if cell.column.index < self.advice.len() {
                    self.advice[cell.column.index][cell.row]
                } else {
                    None
                }
            },
            ColumnKind::Fixed => {
                if cell.column.index < self.fixed.len() {
                    self.fixed[cell.column.index][cell.row]
                } else {
                    None
                }
            },
            ColumnKind::Instance => {
                if cell.column.index < self.instance.len() {
                    self.instance[cell.column.index][cell.row]
                } else {
                    None
                }
            },
            ColumnKind::LookupTable => {
                if cell.column.index < self.table.len() {
                    self.table[cell.column.index][cell.row]
                } else {
                    None
                }
            },
        }
    }

    /// Writes a value into a cell, assigned before or not, and says whether
    /// the cell lies in the grid; a cell outside it changes nothing.
    pub fn set(&mut self, cell: Cell, value: Fe) -> (done: bool)
        requires
            old(self).wf(),
        ensures
            final(self).wf(),
            final(self).same_shape(*old(self)),
            final(self).flags() == old(self).flags(),
            done == old(self).contains(cell),
            final(self).cells() == (if done {
                old(self).cells().insert(cell, value)
            } else {
                old(self).cells()
            }),
    {
        let c: usize = cell.column.index;
        let r: usize = cell.row;
        if r >= self.rows {
            return false;
        }
        match cell.column.kind {
            ColumnKind::Advice => {
                if c >= self.advice.len() {
                    return false;
                }
                self.advice[c][r] = Some(value);
            },
            ColumnKind::Fixed => {
                if c >= self.fixed.len() {
                    return false;
                }
                self.fixed[c][r] = Some(value);
            },
            ColumnKind::Instance => {
                if c >= self.instance.len() {
                    return false;
                }
                self.instance[c][r] = Some(value);
            },
            ColumnKind::LookupTable => {
                if c >= self.table.len() {
                    return false;
                }
                self.table[c][r] = Some(value);
            },
        }
        assert(self.flags() =~= old(self).flags());
        assert(self.cells() =~= old(self).cells().insert(cell, value)) by {
            assert forall|k: Cell| self.slot(k) == (if k == cell {
                Some(value)
            } else {
                old(self).slot(k)
            }) by {}
        }
        true
    }

    /// Whether a selector is switched on at a row.
    pub fn is_enabled(&self, selector: Selector, row: usize) -> (b: bool)
        requires
            self.wf(),
        ensures
            b == self.enabled(selector, row as int),
    {
        selector.index < self.selectors.len() && row < self.rows
            && self.selectors[selector.index][row]
    }

    /// Switches a selector on at a row, and says whether the grid has the
    /// selector and the row; where it has not, nothing changes.
    pub fn enable(&mut self, selector: Selector, row: usize) -> (done: bool)
        requires
            old(self).wf(),
        ensures
            final(self).wf(),
            final(self).same_shape(*old(self)),
            final(self).cells() == old(self).cells(),
            done == (selector.index < old(self).selector_count() && row < old(self).height()),
            final(self).flags() == (if done {
                old(self).flags().insert((selector, row as int))
            } else {
                old(self).flags()
            }),
    {
        if selector.index >= self.selectors.len() || row >= self.rows {
            return false;
        }
        self.selectors[selector.index][row] = true;
        assert(self.flags() =~= old(self).flags().insert((selector, row as int))) by {
            assert forall|p: (Selector, int)| self.flag(p.0, p.1) == (old(self).flag(p.0, p.1) || p
                == (selector, row as int)) by {}
        }
        assert(self.cells() =~= old(self).cells()) by {
            assert forall|k: Cell| self.slot(k) == old(self).slot(k) by {}
        }
        true
    }

    /// Two grids have the same numbers of rows, columns and selectors.
    pub open spec fn same_shape(&self, other: Grid) -> bool {
        &&& self.height() == other.height()
        &&& forall|k: ColumnKind| self.width(k) == other.width(k)
        &&& self.selector_count() == other.selector_count()
    }
}

} // verus!
