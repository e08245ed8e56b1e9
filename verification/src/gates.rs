//! Facts about the polynomials that the chips use for their gates.

use crate::column::{Cell, Column};
use crate::expression::{cell_ref, lemma_cell_ref, Expression};
use crate::field::{lemma_diff_self, prod_mod, sum_mod, Fe};
use vstd::prelude::*;

verus! {

/// `a * b * constant - out`, on the current row.
pub open spec fn mul_poly(a: Column, b: Column, constant: Column, out: Column) -> Expression {
    Expression::Sub(
        Box::new(
            Expression::Mul(
                Box::new(Expression::Mul(Box::new(cell_ref(a, 0)), Box::new(cell_ref(b, 0)))),
                Box::new(cell_ref(constant, 0)),
            ),
        ),
        Box::new(cell_ref(out, 0)),
    )
}

/// `a + b + c` in the field.
pub open spec fn sum3(a: nat, b: nat, c: nat) -> nat {
    sum_mod(sum_mod(a, b), c)
}

/// `a * b * c` in the field.
pub open spec fn prod3(a: nat, b: nat, c: nat) -> nat {
    prod_mod(prod_mod(a, b), c)
}

/// `a^2 + b^2 + a*b*c` in the field.
pub open spec fn combined(a: Fe, b: Fe, c: Fe) -> Fe {
    Fe::of(
        sum3(
            prod_mod(a.value(), a.value()),
            prod_mod(b.value(), b.value()),
            prod3(a.value(), b.value(), c.value()),
        ),
    )
}

/// The three-term add gate vanishes on a row that holds three values and,
/// where it reads the sum, their sum.
pub proof fn lemma_add3_vanishes(
    poly: Expression,
    cells: Map<Cell, Fe>,
    row: int,
    x: Cell,
    y: Cell,
    z: Cell,
    out: Cell,
    out_offset: i32,
)
    requires
        0 <= row,
        row + 1 <= usize::MAX,
        out_offset == 0 || out_offset == 1,
        x.row == row && y.row == row && z.row == row && out.row == row + out_offset,
        poly == Expression::Sub(
            Box::new(
                Expression::Add(
                    Box::new(
                        Expression::Add(
                            Box::new(cell_ref(x.column, 0)),
                            Box::new(cell_ref(y.column, 0)),
                        ),
                    ),
                    Box::new(cell_ref(z.column, 0)),
                ),
            ),
            Box::new(cell_ref(out.column, out_offset)),
        ),
        cells.contains_key(x) && cells.contains_key(y) && cells.contains_key(z)
            && cells.contains_key(out),
        cells[out].value() == sum3(cells[x].value(), cells[y].value(), cells[z].value()),
    ensures
        poly.defined(cells, row),
        poly.eval(cells, row) == 0,
{
    reveal_with_fuel(Expression::eval, 4);
    reveal_with_fuel(Expression::defined, 4);
    lemma_cell_ref(cells, x.column, 0, row);
    lemma_cell_ref(cells, y.column, 0, row);
    lemma_cell_ref(cells, z.column, 0, row);
    lemma_cell_ref(cells, out.column, out_offset, row);
    lemma_diff_self(cells[out].value());
}

/// The multiply gate vanishes on a row that holds two values, the constant
/// and their product.
pub proof fn lemma_mul_vanishes(
    cells: Map<Cell, Fe>,
    row: int,
    x: Cell,
    y: Cell,
    c: Cell,
    out: Cell,
)
    requires
        0 <= row <= usize::MAX,
        x.row == row && y.row == row && c.row == row && out.row == row,
        cells.contains_key(x) && cells.contains_key(y) && cells.contains_key(c)
            && cells.contains_key(out),
        cells[out].value() == prod3(cells[x].value(), cells[y].value(), cells[c].value()),
    ensures
        mul_poly(x.column, y.column, c.column, out.column).defined(cells, row),
        mul_poly(x.column, y.column, c.column, out.column).eval(cells, row) == 0,
{
    reveal_with_fuel(Expression::eval, 4);
    reveal_with_fuel(Expression::defined, 4);
    lemma_cell_ref(cells, x.column, 0, row);
    lemma_cell_ref(cells, y.column, 0, row);
    lemma_cell_ref(cells, c.column, 0, row);
    lemma_cell_ref(cells, out.column, 0, row);
    lemma_diff_self(cells[out].value());
}

/// A square gate vanishes on a row that holds a value and, where it reads
/// the square, its square.
pub proof fn lemma_square_vanishes(
    poly: Expression,
    cells: Map<Cell, Fe>,
    row: int,
    x: Cell,
    out: Cell,
    out_offset: i32,
)
    requires
        0 <= row,
        row + 1 <= usize::MAX,
        out_offset == 0 || out_offset == 1,
        x.row == row && out.row == row + out_offset,
        poly == Expression::Sub(
            Box::new(
                Expression::Mul(Box::new(cell_ref(x.column, 0)), Box::new(cell_ref(x.column, 0))),
            ),
            Box::new(cell_ref(out.column, out_offset)),
        ),
        cells.contains_key(x) && cells.contains_key(out),
        cells[out].value() == prod_mod(cells[x].value(), cells[x].value()),
    ensures
        poly.defined(cells, row),
        poly.eval(cells, row) == 0,
{
    reveal_with_fuel(Expression::eval, 4);
    reveal_with_fuel(Expression::defined, 4);
    lemma_cell_ref(cells, x.column, 0, row);
    lemma_cell_ref(cells, out.column, out_offset, row);
    lemma_diff_self(cells[out].value());
}

/// An add gate of two terms vanishes on a row that holds two values and their
/// sum.
pub proof fn lemma_add_vanishes(
    poly: Expression,
    cells: Map<Cell, Fe>,
    row: int,
    x: Cell,
    y: Cell,
    out: Cell,
)
    requires
        0 <= row <= usize::MAX,
        x.row == row && y.row == row && out.row == row,
        poly == Expression::Sub(
            Box::new(
                Expression::Add(Box::new(cell_ref(x.column, 0)), Box::new(cell_ref(y.column, 0))),
            ),
            Box::new(cell_ref(out.column, 0)),
        ),
        cells.contains_key(x) && cells.contains_key(y) && cells.contains_key(out),
        cells[out].value() == sum_mod(cells[x].value(), cells[y].value()),
    ensures
        poly.defined(cells, row),
        poly.eval(cells, row) == 0,
{
    reveal_with_fuel(Expression::eval, 3);
    reveal_with_fuel(Expression::defined, 3);
    lemma_cell_ref(cells, x.column, 0, row);
    lemma_cell_ref(cells, y.column, 0, row);
    lemma_cell_ref(cells, out.column, 0, row);
    lemma_diff_self(cells[out].value());
}

} // verus!
