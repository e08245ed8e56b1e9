//! The region assignment layer: it maps a circuit's operations onto cells of
//! the grid, records copy constraints and enables selectors.

use crate::column::{Cell, Column, ColumnKind, Selector};
use crate::constraint_system::{ConstraintSystem, Shape};
use crate::field::{prod_mod, sum_mod, Fe};
use crate::grid::Grid;
use vstd::arithmetic::power2::{lemma2_to64, lemma_pow2_strictly_increases, lemma_pow2_unfold, pow2};
use vstd::prelude::*;

verus! {

/// Why an assignment step was refused.
#[derive(Clone, Copy, Debug, PartialEq, Eq, Structural)]
pub enum AssignmentError {
    /// The grid would need more rows than this machine can number.
    GridTooLarge,
    /// The instance values do not fit the instance columns of the system.
    BadInstance,
    /// A column is not allocated, or is of a kind that the call cannot take.
    InvalidColumn,
    /// A selector is not allocated.
    UnknownSelector,
    /// A row lies outside the grid.
    OutOfBounds,
    /// The value to assign is not known.
    UnknownValue,
    /// The cell already holds a value.
    DoubleAssignment,
    /// A column of a copy constraint does not have equality enabled.
    EqualityNotEnabled,
    /// A cell that is read does not hold a value.
    UnassignedCell,
}

/// A witness value, which is unknown while only the shape of a circuit is
/// wanted.
#[derive(Clone, Copy, Debug, PartialEq, Eq)]
pub enum Value {
    Known(Fe),
    Unknown,
}

impl Value {
    /// A known value.
    pub fn known(v: Fe) -> (r: Value)
        ensures
            r == Value::Known(v),
    {
        Value::Known(v)
    }

    /// The unknown value.
    pub fn unknown() -> (r: Value)
        ensures
            r == Value::Unknown,
    {
        Value::Unknown
    }

    /// The sum of two values, in the field; unknown if either is.
    pub open spec fn plus(self, rhs: Value) -> Value {
        match (self, rhs) {
            (Value::Known(a), Value::Known(b)) => Value::Known(
                Fe::of(sum_mod(a.value(), b.value())),
            ),
            _ => Value::Unknown,
        }
    }

    /// The product of two values, in the field; unknown if either is.
    pub open spec fn times(self, rhs: Value) -> Value {
        match (self, rhs) {
            (Value::Known(a), Value::Known(b)) => Value::Known(
                Fe::of(prod_mod(a.value(), b.value())),
            ),
            _ => Value::Unknown,
        }
    }

    /// The square of the value; unknown if the value is.
    pub fn square(&self) -> (r: Value)
        ensures
            r == self.times(*self),
    {
        match self {
            Value::Known(a) => Value::Known(a.square()),
            Value::Unknown => Value::Unknown,
        }
    }

    /// The sum of two values; unknown if either is.
    pub fn add(&self, rhs: &Value) -> (r: Value)
        ensures
            r == self.plus(*rhs),
    {
        match (self, rhs) {
            (Value::Known(a), Value::Known(b)) => Value::Known(a.add(*b)),
            _ => Value::Unknown,
        }
    }

    /// The product of two values; unknown if either is.
    pub fn mul(&self, rhs: &Value) -> (r: Value)
        ensures
            r == self.times(*rhs),
    {
        match (self, rhs) {
            (Value::Known(a), Value::Known(b)) => Value::Known(a.mul(*b)),
            _ => Value::Unknown,
        }
    }
}

/// A cell together with the value that was assigned to it.
#[derive(Clone, Copy, Debug, PartialEq, Eq)]
pub struct AssignedCell {
    pub cell: Cell,
    pub value: Value,
}

impl AssignedCell {
    /// The cell.
    pub fn cell(&self) -> (c: Cell)
        ensures
            c == self.cell,
    {
        self.cell
    }

    /// The value that was assigned.
    pub fn value(&self) -> (v: Value)
        ensures
            v == self.value,
    {
        self.value
    }

    /// Assigns the value that this cell holds in the grid to the cell at
    /// `offset` of `column` in the current region, and constrains the two
    /// cells to be equal.
    pub fn copy_advice(&self, layouter: &mut Layouter, column: Column, offset: usize) -> (r: Result<
        AssignedCell,
        AssignmentError,
    >)
        requires
            old(layouter).wf(),
        ensures
            final(layouter).wf(),
            (final(layouter)@, failure(r)) == old(layouter)@.step(
                Step::Copy(self.cell, column, offset),
            ),
            r matches Ok(a) ==> a == (AssignedCell {
                cell: old(layouter)@.region_cell(column, offset),
                value: Value::Known(old(layouter)@.cells[self.cell]),
            }),
    {
        layouter.copy_advice(self.cell, column, offset)
    }
}

/// The error of a result, if it is one.
pub open spec fn failure<T>(r: Result<T, AssignmentError>) -> Option<AssignmentError> {
    match r {
        Ok(_) => None,
        Err(e) => Some(e),
    }
}

/// One step of synthesis.
pub enum Step {
    /// Open a new region of the given name below the current one.
    Region(&'static str),
    /// Switch a selector on at an offset of the current region.
    Enable(Selector, usize),
    /// Assign a value to a cell of an advice or fixed column, at an offset of
    /// the current region.
    Assign(ColumnKind, Column, usize, Value),
    /// Copy the value of a cell to a cell of an advice column, at an offset of
    /// the current region, and constrain the two to be equal.
    Copy(Cell, Column, usize),
    /// Bind a cell to a row of an instance column.
    Bind(Cell, Column, usize),
    /// Assign a value to a row of a lookup-table column.
    Table(Column, usize, Value),
    /// Replace the value of an assigned cell.
    Overwrite(Cell, Fe),
}

/// A layout in the course of a sequence of steps: the layout so far, and the
/// error of the step that was refused, after which nothing changes.
pub struct Progress {
    pub layout: Layout,
    pub error: Option<AssignmentError>,
}

impl Progress {
    /// The next step, which is taken unless a step before it was refused.
    pub open spec fn next(self, s: Step) -> Progress {
        if self.error is Some {
            self
        } else {
            let (layout, error) = self.layout.step(s);
            Progress { layout, error }
        }
    }
}

/// What a layouter holds.
pub struct Layout {
    /// The sealed constraint system.
    pub cs: Shape,
    /// The number of rows of the grid.
    pub rows: nat,
    /// The assigned cells and their values.
    pub cells: Map<Cell, Fe>,
    /// The pairs of a selector and a row at which it is switched on.
    pub flags: Set<(Selector, int)>,
    /// The copy constraints, in the order in which they were recorded.
    pub copies: Seq<(Cell, Cell)>,
    /// The cells bound to instance cells, in the order in which they were
    /// bound.
    pub bindings: Seq<(Cell, Cell)>,
    /// The name of the current region.
    pub region_name: &'static str,
    /// The first row of the current region.
    pub region_start: nat,
    /// The number of rows that the current region has used.
    pub region_rows: nat,
}

impl Layout {
    /// Whether a handle names an assigned cell and the value that it holds.
    pub open spec fn holds(self, a: AssignedCell) -> bool {
        self.cells.contains_key(a.cell) && a.value == Value::Known(self.cells[a.cell])
    }

    /// Whether a handle names an assigned cell and the value that it holds,
    /// in a column with equality enabled.
    pub open spec fn copyable(self, a: AssignedCell) -> bool {
        self.holds(a) && self.cs.equality(a.cell.column)
    }

    /// The first row below the current region.
    pub open spec fn frontier(self) -> nat {
        self.region_start + self.region_rows
    }

    /// The cell of a column on the first row below the current region.
    pub open spec fn frontier_cell(self, column: Column) -> Cell {
        Cell { column, row: self.frontier() as usize }
    }

    /// The cell at an offset of the current region.
    pub open spec fn region_cell(self, column: Column, offset: usize) -> Cell {
        Cell { column, row: (self.region_start + offset) as usize }
    }

    /// The layout after an offset of the current region was used.
    pub open spec fn touched(self, offset: usize) -> Layout {
        Layout {
            region_rows: if offset + 1 > self.region_rows {
                (offset + 1) as nat
            } else {
                self.region_rows
            },
            ..self
        }
    }

    /// Why an assignment to an advice or fixed cell is refused, if it is.
    pub open spec fn assign_error(
        self,
        kind: ColumnKind,
        column: Column,
        offset: usize,
        value: Value,
    ) -> Option<AssignmentError> {
        if column.kind != kind || !self.cs.has_column(column) {
            Some(AssignmentError::InvalidColumn)
        } else if self.region_start + offset >= self.rows {
            Some(AssignmentError::OutOfBounds)
        } else if value is Unknown {
            Some(AssignmentError::UnknownValue)
        } else if self.cells.contains_key(self.region_cell(column, offset)) {
            Some(AssignmentError::DoubleAssignment)
        } else {
            None
        }
    }

    /// Why a copy is refused, if it is.
    pub open spec fn copy_error(self, source: Cell, column: Column, offset: usize) -> Option<
        AssignmentError,
    > {
        if !self.cs.equality(source.column) || !self.cs.equality(column) {
            Some(AssignmentError::EqualityNotEnabled)
        } else if !self.cells.contains_key(source) {
            Some(AssignmentError::UnassignedCell)
        } else {
            self.assign_error(ColumnKind::Advice, column, offset, Value::Known(self.cells[source]))
        }
    }

    /// Why a binding to an instance cell is refused, if it is.
    pub open spec fn bind_error(self, cell: Cell, instance: Column, row: usize) -> Option<
        AssignmentError,
    > {
        if instance.kind != ColumnKind::Instance || !self.cs.has_column(instance) {
            Some(AssignmentError::InvalidColumn)
        } else if !self.cs.equality(cell.column) || !self.cs.equality(instance) {
            Some(AssignmentError::EqualityNotEnabled)
        } else if row >= self.rows {
            Some(AssignmentError::OutOfBounds)
        } else if !self.cells.contains_key(cell) {
            Some(AssignmentError::UnassignedCell)
        } else {
            None
        }
    }

    /// Why an assignment to a lookup-table cell is refused, if it is.
    pub open spec fn table_error(self, column: Column, row: usize, value: Value) -> Option<
        AssignmentError,
    > {
        if column.kind != ColumnKind::LookupTable || !self.cs.has_column(column) {
            Some(AssignmentError::InvalidColumn)
        } else if row >= self.rows {
            Some(AssignmentError::OutOfBounds)
        } else if value is Unknown {
            Some(AssignmentError::UnknownValue)
        } else if self.cells.contains_key(Cell { column, row }) {
            Some(AssignmentError::DoubleAssignment)
        } else {
            None
        }
    }

    /// Why switching a selector on is refused, if it is.
    pub open spec fn enable_error(self, selector: Selector, offset: usize) -> Option<
        AssignmentError,
    > {
        if selector.index >= self.cs.selectors {
            Some(AssignmentError::UnknownSelector)
        } else if self.region_start + offset >= self.rows {
            Some(AssignmentError::OutOfBounds)
        } else {
            None
        }
    }

    /// The layout after a step, and the error if the step is refused. A
    /// refused step leaves the layout as it was.
    #[verifier::opaque]
    pub open spec fn step(self, s: Step) -> (Layout, Option<AssignmentError>) {
        match s {
            Step::Region(name) => (
                Layout {
                    region_name: name,
                    region_start: self.frontier(),
                    region_rows: 0,
                    ..self
                },
                None,
            ),
            Step::Enable(selector, offset) => match self.enable_error(selector, offset) {
                Some(e) => (self, Some(e)),
                None => (
                    Layout {
                        flags: self.flags.insert((selector, self.region_start + offset)),
                        ..self.touched(offset)
                    },
                    None,
                ),
            },
            Step::Assign(kind, column, offset, value) => match self.assign_error(
                kind,
                column,
                offset,
                value,
            ) {
                Some(e) => (self, Some(e)),
                None => (
                    Layout {
                        cells: self.cells.insert(self.region_cell(column, offset), value->Known_0),
                        ..self.touched(offset)
                    },
                    None,
                ),
            },
            Step::Copy(source, column, offset) => match self.copy_error(source, column, offset) {
                Some(e) => (self, Some(e)),
                None => (
                    Layout {
                        cells: self.cells.insert(
                            self.region_cell(column, offset),
                            self.cells[source],
                        ),
                        copies: self.copies.push((source, self.region_cell(column, offset))),
                        ..self.touched(offset)
                    },
                    None,
                ),
            },
            Step::Bind(cell, instance, row) => match self.bind_error(cell, instance, row) {
                Some(e) => (self, Some(e)),
                None => (
                    Layout {
                        bindings: self.bindings.push((cell, Cell { column: instance, row })),
                        ..self
                    },
                    None,
                ),
            },
            Step::Table(column, row, value) => match self.table_error(column, row, value) {
                Some(e) => (self, Some(e)),
                None => (
                    Layout {
                        cells: self.cells.insert(Cell { column, row }, value->Known_0),
                        ..self
                    },
                    None,
                ),
            },
            Step::Overwrite(cell, value) => if self.cells.contains_key(cell) {
                (Layout { cells: self.cells.insert(cell, value), ..self }, None)
            } else {
                (self, Some(AssignmentError::UnassignedCell))
            },
        }
    }

    /// The start of a sequence of steps.
    pub open spec fn begin(self) -> Progress {
        Progress { layout: self, error: None }
    }

    /// Whether a cell belongs to a region, as advice and fixed cells do.
    pub open spec fn regional(cell: Cell) -> bool {
        cell.column.kind == ColumnKind::Advice || cell.column.kind == ColumnKind::Fixed
    }

    /// The layout is in order: the system is sealed, every assigned cell and
    /// every flag lies in the grid, those of regions lie above the frontier,
    /// every instance cell is assigned, and copy constraints and bindings
    /// speak of assigned cells.
    pub open spec fn wf(self) -> bool {
        &&& self.cs.wf()
        &&& self.cs.sealed
        &&& self.frontier() <= self.rows
        &&& self.rows <= usize::MAX
        &&& forall|c: Cell| #[trigger]
            self.cells.contains_key(c) ==> self.cs.has_column(c.column) && c.row < self.rows
        &&& forall|c: Cell| #[trigger]
            self.cells.contains_key(c) && Self::regional(c) ==> c.row < self.frontier()
        &&& forall|s: Selector, r: int| #[trigger]
            self.flags.contains((s, r)) ==> s.index < self.cs.selectors && 0 <= r
                < self.frontier()
        &&& forall|c: Cell|
            c.column.kind == ColumnKind::Instance && self.cs.has_column(c.column) && c.row
                < self.rows ==> #[trigger] self.cells.contains_key(c)
        &&& forall|i: int|
            0 <= i < self.copies.len() ==> self.cells.contains_key((#[trigger] self.copies[i]).0)
                && self.cells.contains_key(self.copies[i].1)
        &&& forall|i: int|
            0 <= i < self.bindings.len() ==> self.cells.contains_key(
                (#[trigger] self.bindings[i]).0,
            ) && self.cells.contains_key(self.bindings[i].1)
    }

    /// A step keeps a layout in order.
    pub proof fn lemma_step_wf(self, s: Step)
        requires
            self.wf(),
        ensures
            self.step(s).0.wf(),
    {
        reveal(Layout::step);
        let next = self.step(s).0;
        match s {
            Step::Copy(source, column, offset) => {
                if self.copy_error(source, column, offset) is None {
                    assert forall|i: int| 0 <= i < next.copies.len() implies next.cells.contains_key(
                        (#[trigger] next.copies[i]).0,
                    ) && next.cells.contains_key(next.copies[i].1) by {
                        if i < self.copies.len() {
                            assert(self.cells.contains_key(self.copies[i].0));
                        }
                    }
                }
            },
            Step::Bind(cell, instance, row) => {
                if self.bind_error(cell, instance, row) is None {
                    assert forall|i: int|
                        0 <= i < next.bindings.len() implies next.cells.contains_key(
                        (#[trigger] next.bindings[i]).0,
                    ) && next.cells.contains_key(next.bindings[i].1) by {
                        if i < self.bindings.len() {
                            assert(self.cells.contains_key(self.bindings[i].0));
                        }
                    }
                }
            },
            _ => {},
        }
    }
}

/// The region assignment layer. It owns the sealed constraint system and the
/// grid while a circuit is synthesized.
pub struct Layouter {
    cs: ConstraintSystem,
    grid: Grid,
    copies: Vec<(Cell, Cell)>,
    bindings: Vec<(Cell, Cell)>,
    region_name: &'static str,
    region_start: usize,
    region_rows: usize,
}

impl View for Layouter {
    type V = Layout;

    closed spec fn view(&self) -> Layout {
        Layout {
            cs: self.cs@,
            rows: self.grid.height(),
            cells: self.grid.cells(),
            flags: self.grid.flags(),
            copies: self.copies@,
            bindings: self.bindings@,
            region_name: self.region_name,
            region_start: self.region_start as nat,
            region_rows: self.region_rows as nat,
        }
    }
}

/// The value that a fresh grid holds on a row of an instance column: the
/// value given for it, or zero on the rows after the values given.
pub open spec fn instance_value(instance: Seq<Seq<Fe>>, cell: Cell) -> Fe {
    if cell.row < instance[cell.column.index as int].len() {
        instance[cell.column.index as int][cell.row as int]
    } else {
        Fe::of(0)
    }
}

/// The cells of a fresh grid: every row of every instance column.
pub open spec fn instance_cells(instance: Seq<Seq<Fe>>, rows: nat) -> Map<Cell, Fe> {
    Map::new(
        |c: Cell|
            c.column.kind == ColumnKind::Instance && c.column.index < instance.len() && c.row
                < rows,
        |c: Cell| instance_value(instance, c),
    )
}

impl Layout {
    /// The layout that synthesis starts from: the sealed system, a grid of
    /// `2^k` rows that holds the instance values and nothing else, no flag,
    /// no copy constraint and no binding.
    pub open spec fn fresh(cs: Shape, k: u32, instance: Seq<Seq<Fe>>) -> Layout {
        Layout {
            cs: Shape { sealed: true, ..cs },
            rows: pow2(k as nat),
            cells: instance_cells(instance, pow2(k as nat)),
            flags: Set::empty(),
            copies: Seq::empty(),
            bindings: Seq::empty(),
            region_name: "",
            region_start: 0,
            region_rows: 0,
        }
    }
}

/// The values of each column, as a sequence of sequences.
pub open spec fn columns_view(instance: Vec<Vec<Fe>>) -> Seq<Seq<Fe>> {
    Seq::new(instance@.len(), |i: int| instance@[i]@)
}

/// Why a layouter cannot be made, if it cannot.
pub open spec fn new_error(cs: Shape, k: u32, instance: Seq<Seq<Fe>>) -> Option<AssignmentError> {
    if k >= 31 {
        Some(AssignmentError::GridTooLarge)
    } else if instance.len() != cs.instance.len() || exists|i: int|
        0 <= i < instance.len() && (#[trigger] instance[i]).len() > pow2(k as nat) {
        Some(AssignmentError::BadInstance)
    } else {
        None
    }
}

/// `2^k`.
fn two_to(k: u32) -> (n: usize)
    requires
        k < 31,
    ensures
        n == pow2(k as nat),
        0 < n < 0x8000_0000,
{
    let mut n: usize = 1;
    let mut i: u32 = 0;
    proof {
        lemma2_to64();
    }
    while i < k
        invariant
            i <= k,
            k < 31,
            n == pow2(i as nat),
            0 < n,
            pow2(31) == 0x8000_0000,
        decreases k - i,
    {
        proof {
            lemma_pow2_unfold((i + 1) as nat);
            lemma_pow2_strictly_increases((i + 1) as nat, 31);
        }
        n = n * 2;
        i = i + 1;
    }
    proof {
        if k < 30 {
            lemma_pow2_strictly_increases((k + 1) as nat, 31);
        }
        lemma_pow2_strictly_increases(k as nat, 31);
    }
    n
}

impl Layouter {
    /// The layouter is in order, inside and as seen from outside.
    pub closed spec fn wf(&self) -> bool {
        &&& self.grid.wf()
        &&& forall|k: ColumnKind| self.grid.width(k) == self.cs@.width(k)
        &&& self.grid.selector_count() == self.cs@.selectors
        &&& self@.wf()
    }

    /// What is seen of a layouter that is in order, is in order.
    pub proof fn lemma_wf(&self)
        requires
            self.wf(),
        ensures
            self@.wf(),
    {
    }

    /// Seals the constraint system and lays out an empty grid of `2^k` rows
    /// for it, with the given values in the instance columns. It fails with
    /// `GridTooLarge` for `k` of 31 or more, and with `BadInstance` where the
    /// number of instance columns differs from that of the system or a
    /// column has more values than the grid has rows.
    pub fn new(cs: ConstraintSystem, k: u32, instance: Vec<Vec<Fe>>) -> (r: Result<
        Layouter,
        AssignmentError,
    >)
        requires
            cs@.wf(),
        ensures
            failure(r) == new_error(cs@, k, columns_view(instance)),
            r matches Ok(l) ==> l.wf() && l@ == Layout::fresh(cs@, k, columns_view(instance)),
    {
        if k >= 31 {
            return Err(AssignmentError::GridTooLarge);
        }
        let rows: usize = two_to(k);
        let ghost cols = columns_view(instance);
        if instance.len() != cs.num_columns(ColumnKind::Instance) {
            return Err(AssignmentError::BadInstance);
        }
        let mut j: usize = 0;
        while j < instance.len()
            invariant
                j <= instance.len(),
                k < 31,
                rows == pow2(k as nat),
                cols == columns_view(instance),
                instance.len() == cs@.instance.len(),
                forall|i: int| 0 <= i < j ==> (#[trigger] cols[i]).len() <= rows,
            decreases instance.len() - j,
        {
            if instance[j].len() > rows {
                assert(cols[j as int].len() > rows);
                return Err(AssignmentError::BadInstance);
            }
            j = j + 1;
        }
        let mut cs = cs;
        proof {
            reveal(Shape::step);
        }
        cs.seal();
        let mut grid = Grid::new(
            rows,
            cs.num_columns(ColumnKind::Advice),
            cs.num_columns(ColumnKind::Fixed),
            cs.num_columns(ColumnKind::Instance),
            cs.num_columns(ColumnKind::LookupTable),
            cs.num_selectors(),
        );
        let zero = Fe::zero();
        let ghost shape = grid;
        let mut c: usize = 0;
        while c < instance.len()
            invariant
                c <= instance.len(),
                cols == columns_view(instance),
                zero == Fe::of(0),
                forall|i: int| 0 <= i < cols.len() ==> (#[trigger] cols[i]).len() <= rows,
                grid.wf(),
                grid.same_shape(shape),
                grid.height() == rows,
                grid.width(ColumnKind::Instance) == instance.len(),
                grid.flags() == Set::<(Selector, int)>::empty(),
                forall|x: Cell| #[trigger]
                    grid.cells().contains_key(x) <==> x.column.kind == ColumnKind::Instance
                        && x.column.index < c && x.row < rows,
                forall|x: Cell| #[trigger]
                    grid.cells().contains_key(x) ==> grid.cells()[x] == instance_value(cols, x),
            decreases instance.len() - c,
        {
            let column = Column { kind: ColumnKind::Instance, index: c };
            let mut r: usize = 0;
            while r < rows
                invariant
                    r <= rows,
                    c < instance.len(),
                    cols == columns_view(instance),
                    zero == Fe::of(0),
                    cols[c as int].len() <= rows,
                    column == (Column { kind: ColumnKind::Instance, index: c }),
                    grid.wf(),
                    grid.same_shape(shape),
                    grid.height() == rows,
                    grid.width(ColumnKind::Instance) == instance.len(),
                    grid.flags() == Set::<(Selector, int)>::empty(),
                    forall|x: Cell| #[trigger]
                        grid.cells().contains_key(x) <==> x.column.kind == ColumnKind::Instance && (
                        x.column.index < c && x.row < rows || x.column.index == c && x.row < r),
                    forall|x: Cell| #[trigger]
                        grid.cells().contains_key(x) ==> grid.cells()[x] == instance_value(cols, x),
                decreases rows - r,
            {
                let v = if r < instance[c].len() {
                    instance[c][r]
                } else {
                    zero
                };
                grid.set(Cell { column, row: r }, v);
                r = r + 1;
            }
            c = c + 1;
        }
        let l = Layouter {
            cs,
            grid,
            copies: Vec::new(),
            bindings: Vec::new(),
            region_name: "",
            region_start: 0,
            region_rows: 0,
        };
        assert(l@.cells =~= instance_cells(cols, rows as nat));
        Ok(l)
    }

    /// The number of rows of the grid.
    pub fn rows(&self) -> (n: usize)
        ensures
            n == self@.rows,
    {
        self.grid.rows()
    }

    /// The sealed constraint system.
    pub fn constraint_system(&self) -> (cs: &ConstraintSystem)
        ensures
            cs@ == self@.cs,
    {
        &self.cs
    }

    /// The grid.
    pub fn grid(&self) -> (g: &Grid)
        requires
            self.wf(),
        ensures
            g.wf(),
            g.height() == self@.rows,
            g.cells() == self@.cells,
            g.flags() == self@.flags,
    {
        &self.grid
    }

    /// The copy constraints, in the order in which they were recorded.
    pub fn copies(&self) -> (v: &Vec<(Cell, Cell)>)
        ensures
            v@ == self@.copies,
    {
        &self.copies
    }

    /// The cells bound to instance cells, each with the instance cell, in the
    /// order in which they were bound.
    pub fn bindings(&self) -> (v: &Vec<(Cell, Cell)>)
        ensures
            v@ == self@.bindings,
    {
        &self.bindings
    }

    /// The name of the current region.
    pub fn region_name(&self) -> (name: &'static str)
        ensures
            name == self@.region_name,
    {
        self.region_name
    }

    /// The value of a cell, if it is assigned.
    pub fn value_of(&self, cell: Cell) -> (o: Option<Fe>)
        requires
            self.wf(),
        ensures
            o is Some <==> self@.cells.contains_key(cell),
            o is Some ==> o.unwrap() == self@.cells[cell],
    {
        self.grid.get(cell)
    }

    /// Opens a new region, below every row that the regions before it used.
    pub fn assign_region(&mut self, name: &'static str)
        requires
            old(self).wf(),
        ensures
            final(self).wf(),
            (final(self)@, None::<AssignmentError>) == old(self)@.step(Step::Region(name)),
    {
        proof {
            reveal(Layout::step);
            old(self)@.lemma_step_wf(Step::Region(name));
        }
        self.region_name = name;
        self.region_start = self.region_start + self.region_rows;
        self.region_rows = 0;
    }

    /// Marks an offset of the current region as used.
    fn touch(&mut self, offset: usize)
        requires
            old(self).region_start + offset < usize::MAX,
        ensures
            final(self).cs == old(self).cs,
            final(self).grid == old(self).grid,
            final(self).copies == old(self).copies,
            final(self).bindings == old(self).bindings,
            final(self).region_name == old(self).region_name,
            final(self).region_start == old(self).region_start,
            final(self).region_rows == old(self)@.touched(offset).region_rows,
    {
        if offset + 1 > self.region_rows {
            self.region_rows = offset + 1;
        }
    }

    /// Switches a selector on at an offset of the current region. It fails
    /// with `UnknownSelector` for a selector that is not allocated, and with
    /// `OutOfBounds` where the row lies outside the grid.
    pub fn enable_selector(&mut self, selector: Selector, offset: usize) -> (r: Result<
        (),
        AssignmentError,
    >)
        requires
            old(self).wf(),
        ensures
            final(self).wf(),
            (final(self)@, failure(r)) == old(self)@.step(Step::Enable(selector, offset)),
    {
        proof {
            reveal(Layout::step);
            old(self)@.lemma_step_wf(Step::Enable(selector, offset));
        }
        if selector.index >= self.cs.num_selectors() {
            return Err(AssignmentError::UnknownSelector);
        }
        if offset >= self.grid.rows() - self.region_start {
            return Err(AssignmentError::OutOfBounds);
        }
        self.grid.enable(selector, self.region_start + offset);
        self.touch(offset);
        Ok(())
    }

    /// Assigns a value to a cell of a column of the given kind.
    fn assign(&mut self, kind: ColumnKind, column: Column, offset: usize, value: Value) -> (r:
        Result<AssignedCell, AssignmentError>)
        requires
            old(self).wf(),
            kind == ColumnKind::Advice || kind == ColumnKind::Fixed,
        ensures
            final(self).wf(),
            (final(self)@, failure(r)) == old(self)@.step(Step::Assign(kind, column, offset, value)),
            r matches Ok(a) ==> a == (AssignedCell {
                cell: old(self)@.region_cell(column, offset),
                value,
            }),
    {
        proof {
            reveal(Layout::step);
            old(self)@.lemma_step_wf(Step::Assign(kind, column, offset, value));
        }
        let same_kind = match (kind, column.kind) {
            (ColumnKind::Advice, ColumnKind::Advice) => true,
            (ColumnKind::Fixed, ColumnKind::Fixed) => true,
            _ => false,
        };
        if !same_kind || column.index >= self.cs.num_columns(kind) {
            return Err(AssignmentError::InvalidColumn);
        }
        if offset >= self.grid.rows() - self.region_start {
            return Err(AssignmentError::OutOfBounds);
        }
        let v = match value {
            Value::Known(v) => v,
            Value::Unknown => {
                return Err(AssignmentError::UnknownValue);
            },
        };
        let cell = Cell { column, row: self.region_start + offset };
        if self.grid.get(cell).is_some() {
            return Err(AssignmentError::DoubleAssignment);
        }
        self.grid.set(cell, v);
        self.touch(offset);
        Ok(AssignedCell { cell, value })
    }

    /// Assigns a value to the cell at `offset` of an advice column in the
    /// current region. It fails with `InvalidColumn` for a column that is not
    /// an allocated advice column, with `OutOfBounds` where the row lies
    /// outside the grid, with `UnknownValue` for an unknown value, and with
    /// `DoubleAssignment` where the cell is assigned already.
    pub fn assign_advice(&mut self, column: Column, offset: usize, value: Value) -> (r: Result<
        AssignedCell,
        AssignmentError,
    >)
        requires
            old(self).wf(),
        ensures
            final(self).wf(),
            (final(self)@, failure(r)) == old(self)@.step(
                Step::Assign(ColumnKind::Advice, column, offset, value),
            ),
            r matches Ok(a) ==> a == (AssignedCell {
                cell: old(self)@.region_cell(column, offset),
                value,
            }),
    {
        self.assign(ColumnKind::Advice, column, offset, value)
    }

    /// Assigns a value to the cell at `offset` of a fixed column in the
    /// current region. It fails as `assign_advice` does, with `InvalidColumn`
    /// for a column that is not an allocated fixed column.
    pub fn assign_fixed(&mut self, column: Column, offset: usize, value: Value) -> (r: Result<
        AssignedCell,
        AssignmentError,
    >)
        requires
            old(self).wf(),
        ensures
            final(self).wf(),
            (final(self)@, failure(r)) == old(self)@.step(
                Step::Assign(ColumnKind::Fixed, column, offset, value),
            ),
            r matches Ok(a) ==> a == (AssignedCell {
                cell: old(self)@.region_cell(column, offset),
                value,
            }),
    {
        self.assign(ColumnKind::Fixed, column, offset, value)
    }

    /// Assigns the value of `source` to the cell at `offset` of an advice
    /// column in the current region, and records that the two cells must be
    /// equal. It fails with `EqualityNotEnabled` unless both columns have
    /// equality enabled, with `UnassignedCell` where `source` holds no value,
    /// and otherwise as `assign_advice` does.
    pub fn copy_advice(&mut self, source: Cell, column: Column, offset: usize) -> (r: Result<
        AssignedCell,
        AssignmentError,
    >)
        requires
            old(self).wf(),
        ensures
            final(self).wf(),
            (final(self)@, failure(r)) == old(self)@.step(Step::Copy(source, column, offset)),
            r matches Ok(a) ==> a == (AssignedCell {
                cell: old(self)@.region_cell(column, offset),
                value: Value::Known(old(self)@.cells[source]),
            }),
    {
        proof {
            reveal(Layout::step);
            old(self)@.lemma_step_wf(Step::Copy(source, column, offset));
        }
        if !self.cs.equality_enabled(source.column) || !self.cs.equality_enabled(column) {
            return Err(AssignmentError::EqualityNotEnabled);
        }
        let v = match self.grid.get(source) {
            Some(v) => v,
            None => {
                return Err(AssignmentError::UnassignedCell);
            },
        };
        let a = self.assign(ColumnKind::Advice, column, offset, Value::Known(v))?;
        self.copies.push((source, a.cell));
        Ok(a)
    }

    /// Binds a cell to a row of an instance column: verification checks that
    /// the two hold the same value. It fails with `InvalidColumn` for a
    /// column that is not an allocated instance column, with
    /// `EqualityNotEnabled` unless both columns have equality enabled, with
    /// `OutOfBounds` where the row lies outside the grid, and with
    /// `UnassignedCell` where the cell holds no value.
    pub fn constrain_instance(&mut self, cell: Cell, instance: Column, row: usize) -> (r: Result<
        (),
        AssignmentError,
    >)
        requires
            old(self).wf(),
        ensures
            final(self).wf(),
            (final(self)@, failure(r)) == old(self)@.step(Step::Bind(cell, instance, row)),
    {
        proof {
            reveal(Layout::step);
            old(self)@.lemma_step_wf(Step::Bind(cell, instance, row));
        }
        match instance.kind {
            ColumnKind::Instance => {},
            _ => {
                return Err(AssignmentError::InvalidColumn);
            },
        }
        if instance.index >= self.cs.num_columns(ColumnKind::Instance) {
            return Err(AssignmentError::InvalidColumn);
        }
        if !self.cs.equality_enabled(cell.column) || !self.cs.equality_enabled(instance) {
            return Err(AssignmentError::EqualityNotEnabled);
        }
        if row >= self.grid.rows() {
            return Err(AssignmentError::OutOfBounds);
        }
        if self.grid.get(cell).is_none() {
            return Err(AssignmentError::UnassignedCell);
        }
        self.bindings.push((cell, Cell { column: instance, row }));
        Ok(())
    }

    /// Assigns a value to a row of a lookup-table column. It fails with
    /// `InvalidColumn` for a column that is not an allocated lookup-table
    /// column, with `OutOfBounds` where the row lies outside the grid, with
    /// `UnknownValue` for an unknown value, and with `DoubleAssignment` where
    /// the cell is assigned already.
    pub fn assign_table_cell(&mut self, column: Column, row: usize, value: Value) -> (r: Result<
        (),
        AssignmentError,
    >)
        requires
            old(self).wf(),
        ensures
            final(self).wf(),
            (final(self)@, failure(r)) == old(self)@.step(Step::Table(column, row, value)),
    {
        proof {
            reveal(Layout::step);
            old(self)@.lemma_step_wf(Step::Table(column, row, value));
        }
        match column.kind {
            ColumnKind::LookupTable => {},
            _ => {
                return Err(AssignmentError::InvalidColumn);
            },
        }
        if column.index >= self.cs.num_columns(ColumnKind::LookupTable) {
            return Err(AssignmentError::InvalidColumn);
        }
        if row >= self.grid.rows() {
            return Err(AssignmentError::OutOfBounds);
        }
        let v = match value {
            Value::Known(v) => v,
            Value::Unknown => {
                return Err(AssignmentError::UnknownValue);
            },
        };
        let cell = Cell { column, row };
        if self.grid.get(cell).is_some() {
            return Err(AssignmentError::DoubleAssignment);
        }
        self.grid.set(cell, v);
        Ok(())
    }

    /// Replaces the value of an assigned cell, and leaves every copy
    /// constraint and binding as it was recorded. It fails with
    /// `UnassignedCell` where the cell holds no value.
    pub fn overwrite(&mut self, cell: Cell, value: Fe) -> (r: Result<(), AssignmentError>)
        requires
            old(self).wf(),
        ensures
            final(self).wf(),
            (final(self)@, failure(r)) == old(self)@.step(Step::Overwrite(cell, value)),
    {
        proof {
            reveal(Layout::step);
            old(self)@.lemma_step_wf(Step::Overwrite(cell, value));
        }
        if self.grid.get(cell).is_none() {
            return Err(AssignmentError::UnassignedCell);
        }
        proof {
            self.grid.lemma_cells_inside(cell);
        }
        self.grid.set(cell, value);
        Ok(())
    }
}

} // verus!
