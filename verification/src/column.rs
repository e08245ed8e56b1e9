//! The column space: typed slots of the witness grid, selectors and cells.

use vstd::prelude::*;

verus! {

/// What a column holds.
#[derive(Clone, Copy, Debug, PartialEq, Eq, Hash, Structural)]
pub enum ColumnKind {
    /// Values that the prover supplies during synthesis.
    Advice,
    /// Constants baked into the circuit.
    Fixed,
    /// Publicly known values.
    Instance,
    /// Static reference rows of a lookup table.
    LookupTable,
}

/// A column: its kind, and its index among the columns of that kind.
#[derive(Clone, Copy, Debug, PartialEq, Eq, Hash, Structural)]
pub struct Column {
    pub kind: ColumnKind,
    pub index: usize,
}

/// A per-row flag that switches a gate or a lookup on.
#[derive(Clone, Copy, Debug, PartialEq, Eq, Hash, Structural)]
pub struct Selector {
    pub index: usize,
}

/// A position in the grid.
#[derive(Clone, Copy, Debug, PartialEq, Eq, Hash, Structural)]
pub struct Cell {
    pub column: Column,
    pub row: usize,
}

/// A row offset relative to the row at which an expression is evaluated.
#[derive(Clone, Copy, Debug, PartialEq, Eq, Hash, Structural)]
pub struct Rotation {
    pub offset: i32,
}

impl Rotation {
    /// The current row.
    pub fn cur() -> (r: Rotation)
        ensures
            r.offset == 0,
    {
        Rotation { offset: 0 }
    }

    /// The row after the current one.
    pub fn next() -> (r: Rotation)
        ensures
            r.offset == 1,
    {
        Rotation { offset: 1 }
    }

    /// The row before the current one.
    pub fn prev() -> (r: Rotation)
        ensures
            r.offset == -1,
    {
        Rotation { offset: -1 }
    }
}

/// An advice column, by its index.
pub open spec fn advice_at(index: nat) -> Column {
    Column { kind: ColumnKind::Advice, index: index as usize }
}

} // verus!
