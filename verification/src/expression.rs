//! Polynomial expressions over the cells of the grid.

use crate::column::{Cell, Column, Rotation};
use crate::field::{diff_mod, neg_mod, prod_mod, sum_mod, Fe};
use crate::grid::Grid;
use vstd::prelude::*;

verus! {

/// A polynomial over cell values, read at offsets from the row at which it
/// is evaluated.
#[derive(Debug)]
pub enum Expression {
    /// A constant of the field.
    Constant(Fe),
    /// The value of a column at an offset from the current row.
    ColumnRef { column: Column, rotation: Rotation },
    /// The additive inverse of an expression.
    Neg(Box<Expression>),
    /// The sum of two expressions.
    Add(Box<Expression>, Box<Expression>),
    /// The difference of two expressions.
    Sub(Box<Expression>, Box<Expression>),
    /// The product of two expressions.
    Mul(Box<Expression>, Box<Expression>),
}

/// Whether a rotation from a row stays within the rows that a `usize` numbers.
pub open spec fn reachable(rotation: Rotation, row: int) -> bool {
    0 <= row + rotation.offset <= usize::MAX
}

/// The cell that a column reference reads when evaluated at a row.
pub open spec fn target(column: Column, rotation: Rotation, row: int) -> Cell {
    Cell { column, row: (row + rotation.offset) as usize }
}

/// A reference to a column at an offset from the current row.
pub open spec fn cell_ref(column: Column, offset: i32) -> Expression {
    Expression::ColumnRef { column, rotation: Rotation { offset } }
}

/// A reference to an assigned cell is defined and evaluates to the value of
/// that cell.
pub proof fn lemma_cell_ref(cells: Map<Cell, Fe>, column: Column, offset: i32, row: int)
    requires
        0 <= row + offset <= usize::MAX,
        cells.contains_key(Cell { column, row: (row + offset) as usize }),
    ensures
        cell_ref(column, offset).defined(cells, row),
        cell_ref(column, offset).eval(cells, row) == cells[Cell {
            column,
            row: (row + offset) as usize,
        }].value(),
{
}

impl Expression {
    /// Whether every cell that the expression reads at `row` is assigned.
    pub open spec fn defined(self, cells: Map<Cell, Fe>, row: int) -> bool
        decreases self,
    {
        match self {
            Expression::Constant(_) => true,
            Expression::ColumnRef { column, rotation } => reachable(rotation, row)
                && cells.contains_key(target(column, rotation, row)),
            Expression::Neg(a) => a.defined(cells, row),
            Expression::Add(a, b) => a.defined(cells, row) && b.defined(cells, row),
            Expression::Sub(a, b) => a.defined(cells, row) && b.defined(cells, row),
            Expression::Mul(a, b) => a.defined(cells, row) && b.defined(cells, row),
        }
    }

    /// The value of the expression at `row`, as an integer of the field. A
    /// cell that is not assigned reads as zero.
    pub open spec fn eval(self, cells: Map<Cell, Fe>, row: int) -> nat
        decreases self,
    {
        match self {
            Expression::Constant(c) => c.value(),
            Expression::ColumnRef { column, rotation } => if reachable(rotation, row)
                && cells.contains_key(target(column, rotation, row)) {
                cells[target(column, rotation, row)].value()
            } else {
                0
            },
            Expression::Neg(a) => neg_mod(a.eval(cells, row)),
            Expression::Add(a, b) => sum_mod(a.eval(cells, row), b.eval(cells, row)),
            Expression::Sub(a, b) => diff_mod(a.eval(cells, row), b.eval(cells, row)),
            Expression::Mul(a, b) => prod_mod(a.eval(cells, row), b.eval(cells, row)),
        }
    }

    /// A constant.
    pub fn constant(c: Fe) -> (e: Expression)
        ensures
            e == Expression::Constant(c),
    {
        Expression::Constant(c)
    }

    /// A reference to a column at a rotation.
    pub fn query(column: Column, rotation: Rotation) -> (e: Expression)
        ensures
            e == (Expression::ColumnRef { column, rotation }),
    {
        Expression::ColumnRef { column, rotation }
    }

    /// `-self`.
    pub fn neg(self) -> (e: Expression)
        ensures
            e == Expression::Neg(Box::new(self)),
    {
        Expression::Neg(Box::new(self))
    }

    /// `self + rhs`.
    pub fn add(self, rhs: Expression) -> (e: Expression)
        ensures
            e == Expression::Add(Box::new(self), Box::new(rhs)),
    {
        Expression::Add(Box::new(self), Box::new(rhs))
    }

    /// `self - rhs`.
    pub fn sub(self, rhs: Expression) -> (e: Expression)
        ensures
            e == Expression::Sub(Box::new(self), Box::new(rhs)),
    {
        Expression::Sub(Box::new(self), Box::new(rhs))
    }

    /// `self * rhs`.
    pub fn mul(self, rhs: Expression) -> (e: Expression)
        ensures
            e == Expression::Mul(Box::new(self), Box::new(rhs)),
    {
        Expression::Mul(Box::new(self), Box::new(rhs))
    }

    /// A copy of the expression.
    pub fn duplicate(&self) -> (e: Expression)
        ensures
            e == *self,
        decreases *self,
    {
        match self {
            Expression::Constant(c) => Expression::Constant(*c),
            Expression::ColumnRef { column, rotation } => Expression::ColumnRef {
                column: *column,
                rotation: *rotation,
            },
            Expression::Neg(a) => Expression::Neg(Box::new(a.duplicate())),
            Expression::Add(a, b) => Expression::Add(
                Box::new(a.duplicate()),
                Box::new(b.duplicate()),
            ),
            Expression::Sub(a, b) => Expression::Sub(
                Box::new(a.duplicate()),
                Box::new(b.duplicate()),
            ),
            Expression::Mul(a, b) => Expression::Mul(
                Box::new(a.duplicate()),
                Box::new(b.duplicate()),
            ),
        }
    }

    /// The value of the expression at a row of the grid, or `None` where it
    /// reads a cell that is not assigned.
    pub fn evaluate(&self, grid: &Grid, row: usize) -> (o: Option<Fe>)
        requires
            grid.wf(),
        ensures
            o is Some <==> self.defined(grid.cells(), row as int),
            o is Some ==> o.unwrap().value() == self.eval(grid.cells(), row as int),
        decreases *self,
    {
        match self {
            Expression::Constant(c) => Some(*c),
            Expression::ColumnRef { column, rotation } => {
                match shifted(row, *rotation) {
                    Some(r) => grid.get(Cell { column: *column, row: r }),
                    None => None,
                }
            },
            Expression::Neg(a) => {
                match a.evaluate(grid, row) {
                    Some(x) => Some(x.neg()),
                    None => None,
                }
            },
            Expression::Add(a, b) => {
                match (a.evaluate(grid, row), b.evaluate(grid, row)) {
                    (Some(x), Some(y)) => Some(x.add(y)),
                    _ => None,
                }
            },
            Expression::Sub(a, b) => {
                match (a.evaluate(grid, row), b.evaluate(grid, row)) {
                    (Some(x), Some(y)) => Some(x.sub(y)),
                    _ => None,
                }
            },
            Expression::Mul(a, b) => {
                match (a.evaluate(grid, row), b.evaluate(grid, row)) {
                    (Some(x), Some(y)) => Some(x.mul(y)),
                    _ => None,
                }
            },
        }
    }

    /// Assigning further cells does not change the value of an expression
    /// whose cells were all assigned before.
    pub proof fn lemma_eval_stable(self, before: Map<Cell, Fe>, after: Map<Cell, Fe>, row: int)
        requires
            self.defined(before, row),
            before.submap_of(after),
        ensures
            self.defined(after, row),
            self.eval(after, row) == self.eval(before, row),
        decreases self,
    {
        match self {
            Expression::Constant(_) => {},
            Expression::ColumnRef { column, rotation } => {
                assert(before.dom().contains(target(column, rotation, row)));
            },
            Expression::Neg(a) => {
                a.lemma_eval_stable(before, after, row);
            },
            Expression::Add(a, b) => {
                a.lemma_eval_stable(before, after, row);
                b.lemma_eval_stable(before, after, row);
            },
            Expression::Sub(a, b) => {
                a.lemma_eval_stable(before, after, row);
                b.lemma_eval_stable(before, after, row);
            },
            Expression::Mul(a, b) => {
                a.lemma_eval_stable(before, after, row);
                b.lemma_eval_stable(before, after, row);
            },
        }
    }
}

/// The row that a rotation leads to from `row`, if a `usize` can number it.
pub fn shifted(row: usize, rotation: Rotation) -> (o: Option<usize>)
    ensures
        o is Some <==> reachable(rotation, row as int),
        o is Some ==> o.unwrap() == row + rotation.offset,
{
    if rotation.offset >= 0 {
        row.checked_add(rotation.offset as usize)
    } else {
        let back: usize = (-(rotation.offset as i64)) as usize;
        row.checked_sub(back)
    }
}

} // verus!
