//! A chip with compact add, multiply and square gates, and the circuit that
//! proves knowledge of `a` and `b` with `a^2 + b^2 + a*b*c` equal to a public
//! value, for a constant `c`.
//!
//! | a0  | a1  | a2   | const | s_add | s_mul | s_sq |
//! |-----|-----|------|-------|-------|-------|------|
//! | a   |     |      |       |   0   |   0   |  1   |
//! | a^2 |     |      |       |   0   |   0   |  0   |
//! | a   | b   | ab*c | c     |   0   |   1   |  0   |
//! | x   | y   | z    |       |   1   |   0   |  0   |
//! | sum |     |      |       |   0   |   0   |  0   |

use crate::column::{advice_at, Cell, Column, ColumnKind, Rotation, Selector};
use crate::constraint_system::{
    refusal, ConfigStep, ConfigurationError, ConstraintSystem, Gate, Setup, Shape,
};
use crate::error::Error;
use crate::expression::{cell_ref, Expression};
use crate::field::{prod_mod, sum_mod, Fe};
use crate::gates::{
    combined, lemma_add3_vanishes, lemma_mul_vanishes, lemma_square_vanishes, mul_poly, prod3, sum3,
};
use crate::layouter::{
    columns_view, failure, instance_value, new_error, AssignedCell, AssignmentError, Layout,
    Layouter, Progress, Step, Value,
};
use crate::mock_prover::{scan_list, MockProver, VerificationFailure};
use vstd::arithmetic::power2::{lemma2_to64, lemma_pow2_strictly_increases, pow2};
use vstd::prelude::*;

verus! {

/// `a + b + c - sum`, with `sum` read from the next row of `a`'s column.
pub open spec fn add_next_poly(a: Column, b: Column, c: Column) -> Expression {
    Expression::Sub(
        Box::new(
            Expression::Add(
                Box::new(Expression::Add(Box::new(cell_ref(a, 0)), Box::new(cell_ref(b, 0)))),
                Box::new(cell_ref(c, 0)),
            ),
        ),
        Box::new(cell_ref(a, 1)),
    )
}

/// `a * a - out`, with `out` read from the next row of `a`'s column.
pub open spec fn square_next_poly(a: Column) -> Expression {
    Expression::Sub(
        Box::new(Expression::Mul(Box::new(cell_ref(a, 0)), Box::new(cell_ref(a, 0)))),
        Box::new(cell_ref(a, 1)),
    )
}

/// The three gates read allocated columns if the chip's columns are
/// allocated.
pub proof fn lemma_polys_ok(cs: Shape, config: OptimizedFieldConfig)
    requires
        forall|k: int| 0 <= k < 3 ==> cs.queryable(#[trigger] config.advice[k]),
        cs.queryable(config.constant),
    ensures
        cs.expression_ok(config.poly_of(config.s_add)),
        cs.expression_ok(config.poly_of(config.s_mul)),
        cs.expression_ok(config.poly_of(config.s_sq)),
        cs.expression_ok(add_next_poly(config.advice[0], config.advice[1], config.advice[2])),
        cs.expression_ok(
            mul_poly(config.advice[0], config.advice[1], config.constant, config.advice[2]),
        ),
        cs.expression_ok(square_next_poly(config.advice[0])),
{
    reveal_with_fuel(Shape::expression_ok, 4);
    assert(cs.queryable(config.advice[0]));
    assert(cs.queryable(config.advice[1]));
    assert(cs.queryable(config.advice[2]));
}

/// The columns and selectors of the optimized chip.
#[derive(Clone, Copy, Debug)]
pub struct OptimizedFieldConfig {
    /// Three advice columns.
    pub advice: [Column; 3],
    /// The instance column, for the public output.
    pub instance: Column,
    /// The fixed column, for the constant.
    pub constant: Column,
    /// Guards the add gate: `a0 + a1 + a2 = a0` of the next row.
    pub s_add: Selector,
    /// Guards the multiply gate: `a0 * a1 * const = a2`.
    pub s_mul: Selector,
    /// Guards the square gate: `a0 * a0 = a0` of the next row.
    pub s_sq: Selector,
}

impl OptimizedFieldConfig {
    /// The polynomial of every gate that a selector of the chip guards.
    pub open spec fn poly_of(self, s: Selector) -> Expression {
        if s == self.s_add {
            add_next_poly(self.advice[0], self.advice[1], self.advice[2])
        } else if s == self.s_mul {
            mul_poly(self.advice[0], self.advice[1], self.constant, self.advice[2])
        } else {
            square_next_poly(self.advice[0])
        }
    }

    /// Whether a selector is one of the chip's.
    pub open spec fn owns(self, s: Selector) -> bool {
        s == self.s_add || s == self.s_mul || s == self.s_sq
    }

    /// The configuration fits a constraint system: its columns are allocated
    /// with equality enabled, its selectors are allocated, and they guard the
    /// chip's three gates and nothing else.
    pub open spec fn valid(self, cs: Shape) -> bool {
        &&& forall|k: int|
            0 <= k < 3 ==> (#[trigger] self.advice[k]).kind == ColumnKind::Advice
                && cs.has_column(self.advice[k]) && cs.equality(self.advice[k])
        &&& self.advice[0] != self.advice[1]
        &&& self.advice[0] != self.advice[2]
        &&& self.advice[1] != self.advice[2]
        &&& self.instance.kind == ColumnKind::Instance
        &&& cs.has_column(self.instance)
        &&& cs.equality(self.instance)
        &&& self.constant.kind == ColumnKind::Fixed
        &&& cs.has_column(self.constant)
        &&& self.s_add.index < cs.selectors
        &&& self.s_mul.index < cs.selectors
        &&& self.s_sq.index < cs.selectors
        &&& self.s_add != self.s_mul
        &&& self.s_add != self.s_sq
        &&& self.s_mul != self.s_sq
        &&& forall|i: int|
            0 <= i < cs.gates.len() && self.owns((#[trigger] cs.gates[i]).selector)
                ==> cs.gates[i].poly == self.poly_of(cs.gates[i].selector)
        &&& forall|i: int|
            0 <= i < cs.lookups.len() ==> !self.owns((#[trigger] cs.lookups[i]).selector)
    }
}

/// A value that the optimized chip has assigned.
#[derive(Clone, Copy, Debug)]
pub struct Number(pub AssignedCell);

/// The optimized chip.
#[derive(Clone, Copy, Debug)]
pub struct OptimizedFieldChip {
    pub config: OptimizedFieldConfig,
}

impl OptimizedFieldChip {
    /// A chip with the given configuration.
    pub fn construct(config: OptimizedFieldConfig) -> (chip: OptimizedFieldChip)
        ensures
            chip.config == config,
    {
        OptimizedFieldChip { config }
    }

    /// The configuration that the chip was made with.
    pub fn config(&self) -> (c: &OptimizedFieldConfig)
        ensures
            *c == self.config,
    {
        &self.config
    }

    /// The chip holds no loaded state.
    pub fn loaded(&self) {
    }

    /// The configuration that `configure` returns on success.
    pub open spec fn config_for(
        cs: Shape,
        advice: [Column; 3],
        instance: Column,
        constant: Column,
    ) -> OptimizedFieldConfig {
        OptimizedFieldConfig {
            advice,
            instance,
            constant,
            s_add: cs.next_selector(),
            s_mul: Selector { index: (cs.selectors + 1) as usize },
            s_sq: Selector { index: (cs.selectors + 2) as usize },
        }
    }

    /// The configuration steps of the chip: equality on the instance
    /// column, the column of constants, equality on the three advice
    /// columns, three selectors, and the add, multiply and square gates.
    pub open spec fn configuring(
        s: Setup,
        advice: [Column; 3],
        instance: Column,
        constant: Column,
    ) -> Setup {
        let config = Self::config_for(s.shape, advice, instance, constant);
        s.next(ConfigStep::Equality(instance)).next(ConfigStep::Constant(constant)).next(
            ConfigStep::Equality(advice[0]),
        ).next(ConfigStep::Equality(advice[1])).next(ConfigStep::Equality(advice[2])).next(
            ConfigStep::Selector,
        ).next(ConfigStep::Selector).next(ConfigStep::Selector).next(
            ConfigStep::Gate(
                Gate {
                    name: "add_gate",
                    selector: config.s_add,
                    poly: config.poly_of(config.s_add),
                },
            ),
        ).next(
            ConfigStep::Gate(
                Gate {
                    name: "mul_gate",
                    selector: config.s_mul,
                    poly: config.poly_of(config.s_mul),
                },
            ),
        ).next(
            ConfigStep::Gate(
                Gate {
                    name: "square_gate",
                    selector: config.s_sq,
                    poly: config.poly_of(config.s_sq),
                },
            ),
        )
    }

    /// Whether the columns are three different advice columns, an instance
    /// column and a fixed column.
    pub open spec fn columns_fit(advice: [Column; 3], instance: Column, constant: Column) -> bool {
        &&& forall|k: int| 0 <= k < 3 ==> (#[trigger] advice[k]).kind == ColumnKind::Advice
        &&& advice[0] != advice[1]
        &&& advice[0] != advice[2]
        &&& advice[1] != advice[2]
        &&& instance.kind == ColumnKind::Instance
        &&& constant.kind == ColumnKind::Fixed
    }

    /// Registers the chip's constraints. It succeeds exactly if the system
    /// is not sealed, the columns are allocated, `constant` is a fixed
    /// column and three selectors are left; the first step that is refused
    /// ends it with that step's error.
    #[verifier::rlimit(60)]
    pub fn configure(
        meta: &mut ConstraintSystem,
        advice: [Column; 3],
        instance: Column,
        constant: Column,
    ) -> (r: Result<OptimizedFieldConfig, ConfigurationError>)
        ensures
            (Setup { shape: final(meta)@, error: refusal(r) }) == Self::configuring(
                old(meta)@.begin(),
                advice,
                instance,
                constant,
            ),
            r matches Ok(config) ==> config == Self::config_for(
                old(meta)@,
                advice,
                instance,
                constant,
            ) && (old(meta)@.wf() && Self::columns_fit(advice, instance, constant) ==> config.valid(
                final(meta)@,
            ) && old(meta)@.precedes(final(meta)@)),
            r is Ok <==> !old(meta)@.sealed && old(meta)@.queryable(instance) && constant.kind
                == ColumnKind::Fixed && old(meta)@.has_column(constant) && (forall|k: int|
                0 <= k < 3 ==> old(meta)@.queryable(#[trigger] advice[k])) && old(meta)@.selectors
                + 3 <= usize::MAX,
            r is Ok ==> old(meta)@.grown(final(meta)@, 3),
            old(meta)@.wf() ==> final(meta)@.wf(),
    {
        meta.enable_equality(instance)?;
        meta.enable_constant(constant)?;
        meta.enable_equality(advice[0])?;
        meta.enable_equality(advice[1])?;
        meta.enable_equality(advice[2])?;
        let s_add = meta.selector()?;
        let s_mul = meta.selector()?;
        let s_sq = meta.selector()?;

        let a0 = Expression::query(advice[0], Rotation::cur());
        let a1 = Expression::query(advice[1], Rotation::cur());
        let a2 = Expression::query(advice[2], Rotation::cur());
        let sum = Expression::query(advice[0], Rotation::next());
        proof {
            lemma_polys_ok(meta@, Self::config_for(old(meta)@, advice, instance, constant));
        }
        meta.create_gate("add_gate", s_add, a0.add(a1).add(a2).sub(sum))?;

        let a0 = Expression::query(advice[0], Rotation::cur());
        let a1 = Expression::query(advice[1], Rotation::cur());
        let a2 = Expression::query(advice[2], Rotation::cur());
        let const_val = Expression::query(constant, Rotation::cur());
        proof {
            lemma_polys_ok(meta@, Self::config_for(old(meta)@, advice, instance, constant));
        }
        meta.create_gate("mul_gate", s_mul, a0.mul(a1).mul(const_val).sub(a2))?;

        let a0 = Expression::query(advice[0], Rotation::cur());
        let a0_sq = Expression::query(advice[0], Rotation::next());
        proof {
            lemma_polys_ok(meta@, Self::config_for(old(meta)@, advice, instance, constant));
        }
        meta.create_gate("square_gate", s_sq, a0.duplicate().mul(a0).sub(a0_sq))?;
        Ok(OptimizedFieldConfig { advice, instance, constant, s_add, s_mul, s_sq })
    }

    /// The steps of `load_private`: a new region, and the value in the first
    /// advice column on its first row.
    pub open spec fn loading(&self, p: Progress, value: Value) -> Progress {
        p.next(Step::Region("load private")).next(Step::Assign(ColumnKind::Advice, self.config.advice[0], 0, value))
    }

    /// Loads a private input into a region of its own. With a configuration
    /// that fits, it succeeds exactly if the value is known and a row is
    /// left, and a witness that met its constraints still does so.
    pub fn load_private(&self, layouter: &mut Layouter, value: Value) -> (r: Result<
        Number,
        AssignmentError,
    >)
        requires
            old(layouter).wf(),
        ensures
            final(layouter).wf(),
            (Progress { layout: final(layouter)@, error: failure(r) }) == self.loading(
                old(layouter)@.begin(),
                value,
            ),
            r matches Ok(out) ==> out.0 == (AssignedCell {
                cell: old(layouter)@.frontier_cell(self.config.advice[0]),
                value,
            }) && old(layouter)@.advanced(final(layouter)@, out.0, 1),
            self.config.valid(old(layouter)@.cs) ==> (r is Ok <==> value is Known && old(layouter)@.frontier() < old(layouter)@.rows),
            r is Ok && old(layouter)@.sound() ==> final(layouter)@.sound(),
    {
        proof {
            reveal(Layout::step);
            old(layouter).lemma_wf();
        }
        layouter.assign_region("load private");
        let out = layouter.assign_advice(self.config.advice[0], 0, value)?;
        proof {
            let before = old(layouter)@;
            let after = layouter@;
            assert(before.extends(after));
            if before.sound() {
                before.lemma_sound_extends(after);
            }
        }
        Ok(Number(out))
    }

    /// The steps of `square`: a new region with the square selector on, a
    /// copy of the input on its first row and the square below it, both in
    /// the first advice column.
    pub open spec fn squaring(&self, p: Progress, a: Number) -> Progress {
        let config = self.config;
        p.next(Step::Region("square")).next(Step::Enable(config.s_sq, 0)).next(
            Step::Copy(a.0.cell, config.advice[0], 0),
        ).next(Step::Assign(ColumnKind::Advice, config.advice[0], 1, a.0.value.times(a.0.value)))
    }

    /// Squares a value in a region of its own. With a configuration that
    /// fits and an input that can be copied, it succeeds exactly if two rows
    /// are left, and a witness that met its constraints still does so.
    pub fn square(&self, layouter: &mut Layouter, a: Number) -> (r: Result<Number, AssignmentError>)
        requires
            old(layouter).wf(),
        ensures
            final(layouter).wf(),
            (Progress { layout: final(layouter)@, error: failure(r) }) == self.squaring(
                old(layouter)@.begin(),
                a,
            ),
            r matches Ok(out) ==> out.0 == (AssignedCell {
                cell: Cell {
                    column: self.config.advice[0],
                    row: (old(layouter)@.frontier() + 1) as usize,
                },
                value: a.0.value.times(a.0.value),
            }) && old(layouter)@.advanced(final(layouter)@, out.0, 2),
            self.config.valid(old(layouter)@.cs) && old(layouter)@.copyable(a.0) ==> (r is Ok
                <==> old(layouter)@.frontier() + 1 < old(layouter)@.rows),
            r is Ok && self.config.valid(old(layouter)@.cs) && old(layouter)@.holds(a.0) && old(layouter)@.sound() ==> final(layouter)@.sound(),
    {
        proof {
            reveal(Layout::step);
            old(layouter).lemma_wf();
        }
        layouter.assign_region("square");
        layouter.enable_selector(self.config.s_sq, 0)?;
        a.0.copy_advice(layouter, self.config.advice[0], 0)?;
        let value_sq = a.0.value().square();
        let out = layouter.assign_advice(self.config.advice[0], 1, value_sq)?;
        proof {
            let before = old(layouter)@;
            let after = layouter@;
            let config = self.config;
            assert(before.extends(after));
            if config.valid(before.cs) && before.holds(a.0) && before.sound() {
                let row = before.frontier() as int;
                let v = before.cells[a.0.cell].value();
                Fe::lemma_value_of(prod_mod(v, v));
                lemma_square_vanishes(
                    config.poly_of(config.s_sq),
                    after.cells,
                    row,
                    Cell { column: config.advice[0], row: row as usize },
                    Cell { column: config.advice[0], row: (row + 1) as usize },
                    1,
                );
                before.lemma_sound_one_gate(after, config.s_sq, row, config.poly_of(config.s_sq));
            }
        }
        Ok(Number(out))
    }

    /// The steps of `mul_with_constant`: a new region with the multiply
    /// selector on, the constant in the fixed column, copies of the two
    /// inputs in the first two advice columns and the product in the third.
    pub open spec fn multiplying(&self, p: Progress, a: Number, b: Number, constant: Fe) -> Progress {
        let config = self.config;
        p.next(Step::Region("mul with constant")).next(Step::Enable(config.s_mul, 0)).next(
            Step::Assign(ColumnKind::Fixed, config.constant, 0, Value::Known(constant)),
        ).next(Step::Copy(a.0.cell, config.advice[0], 0)).next(
            Step::Copy(b.0.cell, config.advice[1], 0),
        ).next(
            Step::Assign(
                ColumnKind::Advice,
                config.advice[2],
                0,
                a.0.value.times(b.0.value).times(Value::Known(constant)),
            ),
        )
    }

    /// Multiplies two values and a constant in a region of its own. With a
    /// configuration that fits and inputs that can be copied, it succeeds
    /// exactly if a row is left, and a witness that met its constraints
    /// still does so.
    pub fn mul_with_constant(&self, layouter: &mut Layouter, a: Number, b: Number, constant: Fe) -> (r:
        Result<Number, AssignmentError>)
        requires
            old(layouter).wf(),
        ensures
            final(layouter).wf(),
            (Progress { layout: final(layouter)@, error: failure(r) }) == self.multiplying(
                old(layouter)@.begin(),
                a,
                b,
                constant,
            ),
            r matches Ok(out) ==> out.0 == (AssignedCell {
                cell: old(layouter)@.frontier_cell(self.config.advice[2]),
                value: a.0.value.times(b.0.value).times(Value::Known(constant)),
            }) && old(layouter)@.advanced(final(layouter)@, out.0, 1),
            self.config.valid(old(layouter)@.cs) && old(layouter)@.copyable(a.0) && old(layouter)@.copyable(b.0) ==> (r is Ok <==> old(layouter)@.frontier() < old(layouter)@.rows),
            r is Ok && self.config.valid(old(layouter)@.cs) && old(layouter)@.holds(a.0) && old(layouter)@.holds(b.0) && old(layouter)@.sound() ==> final(layouter)@.sound(),
    {
        proof {
            reveal(Layout::step);
            old(layouter).lemma_wf();
        }
        layouter.assign_region("mul with constant");
        layouter.enable_selector(self.config.s_mul, 0)?;
        layouter.assign_fixed(self.config.constant, 0, Value::known(constant))?;
        a.0.copy_advice(layouter, self.config.advice[0], 0)?;
        b.0.copy_advice(layouter, self.config.advice[1], 0)?;
        let result = a.0.value().mul(&b.0.value()).mul(&Value::known(constant));
        let out = layouter.assign_advice(self.config.advice[2], 0, result)?;
        proof {
            let before = old(layouter)@;
            let after = layouter@;
            let config = self.config;
            assert(before.extends(after));
            if config.valid(before.cs) && before.holds(a.0) && before.holds(b.0) && before.sound() {
                let row = before.frontier() as int;
                let x = before.cells[a.0.cell].value();
                let y = before.cells[b.0.cell].value();
                Fe::lemma_value_of(prod_mod(x, y));
                Fe::lemma_value_of(prod3(x, y, constant.value()));
                lemma_mul_vanishes(
                    after.cells,
                    row,
                    Cell { column: config.advice[0], row: row as usize },
                    Cell { column: config.advice[1], row: row as usize },
                    Cell { column: config.constant, row: row as usize },
                    Cell { column: config.advice[2], row: row as usize },
                );
                before.lemma_sound_one_gate(after, config.s_mul, row, config.poly_of(config.s_mul));
            }
        }
        Ok(Number(out))
    }

    /// The steps of `add_three`: a new region with the add selector on,
    /// copies of the three inputs on its first row and their sum in the
    /// first advice column on its second row.
    pub open spec fn adding(&self, p: Progress, a: Number, b: Number, c: Number) -> Progress {
        let config = self.config;
        p.next(Step::Region("add three")).next(Step::Enable(config.s_add, 0)).next(
            Step::Copy(a.0.cell, config.advice[0], 0),
        ).next(Step::Copy(b.0.cell, config.advice[1], 0)).next(
            Step::Copy(c.0.cell, config.advice[2], 0),
        ).next(
            Step::Assign(
                ColumnKind::Advice,
                config.advice[0],
                1,
                a.0.value.plus(b.0.value).plus(c.0.value),
            ),
        )
    }

    /// Adds three values in a region of its own. With a configuration that
    /// fits and inputs that can be copied, it succeeds exactly if two rows
    /// are left, and a witness that met its constraints still does so.
    pub fn add_three(&self, layouter: &mut Layouter, a: Number, b: Number, c: Number) -> (r: Result<
        Number,
        AssignmentError,
    >)
        requires
            old(layouter).wf(),
        ensures
            final(layouter).wf(),
            (Progress { layout: final(layouter)@, error: failure(r) }) == self.adding(
                old(layouter)@.begin(),
                a,
                b,
                c,
            ),
            r matches Ok(out) ==> out.0 == (AssignedCell {
                cell: Cell {
                    column: self.config.advice[0],
                    row: (old(layouter)@.frontier() + 1) as usize,
                },
                value: a.0.value.plus(b.0.value).plus(c.0.value),
            }) && old(layouter)@.advanced(final(layouter)@, out.0, 2),
            self.config.valid(old(layouter)@.cs) && old(layouter)@.copyable(a.0) && old(layouter)@.copyable(b.0) && old(layouter)@.copyable(c.0) ==> (r is Ok <==> old(layouter)@.frontier() + 1 < old(layouter)@.rows),
            r is Ok && self.config.valid(old(layouter)@.cs) && old(layouter)@.holds(a.0) && old(layouter)@.holds(b.0) && old(layouter)@.holds(c.0) && old(layouter)@.sound() ==> final(layouter)@.sound(),
    {
        proof {
            reveal(Layout::step);
            old(layouter).lemma_wf();
        }
        layouter.assign_region("add three");
        layouter.enable_selector(self.config.s_add, 0)?;
        a.0.copy_advice(layouter, self.config.advice[0], 0)?;
        b.0.copy_advice(layouter, self.config.advice[1], 0)?;
        c.0.copy_advice(layouter, self.config.advice[2], 0)?;
        let sum = a.0.value().add(&b.0.value()).add(&c.0.value());
        let out = layouter.assign_advice(self.config.advice[0], 1, sum)?;
        proof {
            let before = old(layouter)@;
            let after = layouter@;
            let config = self.config;
            assert(before.extends(after));
            if config.valid(before.cs) && before.holds(a.0) && before.holds(b.0) && before.holds(c.0)
                && before.sound() {
                let row = before.frontier() as int;
                let x = before.cells[a.0.cell].value();
                let y = before.cells[b.0.cell].value();
                let z = before.cells[c.0.cell].value();
                Fe::lemma_value_of(sum_mod(x, y));
                Fe::lemma_value_of(sum3(x, y, z));
                lemma_add3_vanishes(
                    config.poly_of(config.s_add),
                    after.cells,
                    row,
                    Cell { column: config.advice[0], row: row as usize },
                    Cell { column: config.advice[1], row: row as usize },
                    Cell { column: config.advice[2], row: row as usize },
                    Cell { column: config.advice[0], row: (row + 1) as usize },
                    1,
                );
                before.lemma_sound_one_gate(after, config.s_add, row, config.poly_of(config.s_add));
            }
        }
        Ok(Number(out))
    }

    /// Binds a value to a row of the instance column. With a configuration
    /// that fits and a value that can be copied, it succeeds exactly if the
    /// row lies in the grid.
    pub fn expose_public(&self, layouter: &mut Layouter, num: Number, row: usize) -> (r: Result<
        (),
        AssignmentError,
    >)
        requires
            old(layouter).wf(),
        ensures
            final(layouter).wf(),
            (final(layouter)@, failure(r)) == old(layouter)@.step(
                Step::Bind(num.0.cell, self.config.instance, row),
            ),
            self.config.valid(old(layouter)@.cs) && old(layouter)@.copyable(num.0) ==> (r is Ok
                <==> row < old(layouter)@.rows),
            r is Ok ==> old(layouter)@.bound(
                final(layouter)@,
                num.0.cell,
                Cell { column: self.config.instance, row },
            ),
    {
        proof {
            reveal(Layout::step);
        }
        layouter.constrain_instance(num.0.cell(), self.config.instance, row)
    }
}

/// The circuit that proves knowledge of `a` and `b` with
/// `a^2 + b^2 + a*b*constant` equal to the public value on the first row of
/// the instance column.
#[derive(Clone, Copy, Debug)]
pub struct OptimizedCircuit {
    pub constant: Fe,
    pub a: Value,
    pub b: Value,
}

impl Default for OptimizedCircuit {
    fn default() -> (c: OptimizedCircuit)
        ensures
            c == (OptimizedCircuit { constant: Fe::of(0), a: Value::Unknown, b: Value::Unknown }),
    {
        OptimizedCircuit { constant: Fe::zero(), a: Value::Unknown, b: Value::Unknown }
    }
}

impl OptimizedCircuit {
    /// The circuit without its witnesses.
    pub fn without_witnesses(&self) -> (c: OptimizedCircuit)
        ensures
            c == (OptimizedCircuit { constant: Fe::of(0), a: Value::Unknown, b: Value::Unknown }),
    {
        OptimizedCircuit { constant: Fe::zero(), a: Value::Unknown, b: Value::Unknown }
    }

    /// The three advice columns that `configure` allocates.
    pub open spec fn advice_for(cs: Shape) -> [Column; 3] {
        let n = cs.advice.len();
        [advice_at(n), advice_at(n + 1), advice_at(n + 2)]
    }

    /// The configuration that `configure` returns on success.
    pub open spec fn config_for(cs: Shape) -> OptimizedFieldConfig {
        OptimizedFieldChip::config_for(
            cs,
            Self::advice_for(cs),
            cs.next_column(ColumnKind::Instance),
            cs.next_column(ColumnKind::Fixed),
        )
    }

    /// The configuration steps of the circuit: three advice columns, an
    /// instance column, a fixed column, and the steps of the chip.
    pub open spec fn configured(cs: Shape) -> Setup {
        let columns = cs.begin().next(ConfigStep::Column(ColumnKind::Advice)).next(
            ConfigStep::Column(ColumnKind::Advice),
        ).next(ConfigStep::Column(ColumnKind::Advice)).next(
            ConfigStep::Column(ColumnKind::Instance),
        ).next(ConfigStep::Column(ColumnKind::Fixed));
        OptimizedFieldChip::configuring(
            columns,
            Self::advice_for(cs),
            cs.next_column(ColumnKind::Instance),
            cs.next_column(ColumnKind::Fixed),
        )
    }

    /// Allocates the circuit's columns and configures its chip. It succeeds
    /// exactly if the system is not sealed and has room for three advice
    /// columns, an instance column, a fixed column and three selectors; then
    /// the configuration fits the system.
    pub fn configure(meta: &mut ConstraintSystem) -> (r: Result<
        OptimizedFieldConfig,
        ConfigurationError,
    >)
        ensures
            (Setup { shape: final(meta)@, error: refusal(r) }) == Self::configured(old(meta)@),
            r matches Ok(config) ==> config == Self::config_for(old(meta)@) && (old(meta)@.wf()
                ==> config.valid(final(meta)@) && old(meta)@.precedes(final(meta)@)),
            r is Ok <==> !old(meta)@.sealed && old(meta)@.advice.len() + 3 <= usize::MAX && old(meta)@.instance.len() < usize::MAX && old(meta)@.fixed.len() < usize::MAX && old(meta)@.selectors + 3 <= usize::MAX,
            r is Ok ==> final(meta)@.advice.len() == old(meta)@.advice.len() + 3 && final(meta)@.instance.len()
                == old(meta)@.instance.len() + 1 && final(meta)@.fixed.len() == old(meta)@.fixed.len()
                + 1 && final(meta)@.tables == old(meta)@.tables,
            old(meta)@.wf() ==> final(meta)@.wf(),
    {
        let a0 = meta.advice_column()?;
        let a1 = meta.advice_column()?;
        let a2 = meta.advice_column()?;
        let advice = [a0, a1, a2];
        let instance = meta.instance_column()?;
        let constant = meta.fixed_column()?;
        assert(advice == Self::advice_for(old(meta)@));
        let ghost middle = meta@;
        let r = OptimizedFieldChip::configure(meta, advice, instance, constant);
        proof {
            if r is Ok {
                middle.lemma_same_widths(meta@);
                if old(meta)@.wf() {
                    assert(old(meta)@.precedes(middle));
                    old(meta)@.lemma_precedes_transitive(middle, meta@);
                }
            }
        }
        r
    }

    /// The steps of `synthesize`: both inputs loaded, both squared, their
    /// product with the constant, the three terms added, and the sum bound
    /// to the first row of the instance column.
    pub open spec fn synthesized(&self, config: OptimizedFieldConfig, l: Layout) -> Progress {
        let chip = OptimizedFieldChip { config };
        let p0 = l.begin();
        let a = Number(
            AssignedCell { cell: p0.layout.frontier_cell(config.advice[0]), value: self.a },
        );
        let p1 = chip.loading(p0, self.a);
        let b = Number(
            AssignedCell { cell: p1.layout.frontier_cell(config.advice[0]), value: self.b },
        );
        let p2 = chip.loading(p1, self.b);
        let a_sq = Number(
            AssignedCell {
                cell: Cell { column: config.advice[0], row: (p2.layout.frontier() + 1) as usize },
                value: self.a.times(self.a),
            },
        );
        let p3 = chip.squaring(p2, a);
        let b_sq = Number(
            AssignedCell {
                cell: Cell { column: config.advice[0], row: (p3.layout.frontier() + 1) as usize },
                value: self.b.times(self.b),
            },
        );
        let p4 = chip.squaring(p3, b);
        let ab_const = Number(
            AssignedCell {
                cell: p4.layout.frontier_cell(config.advice[2]),
                value: self.a.times(self.b).times(Value::Known(self.constant)),
            },
        );
        let p5 = chip.multiplying(p4, a, b, self.constant);
        let result = Cell { column: config.advice[0], row: (p5.layout.frontier() + 1) as usize };
        let p6 = chip.adding(p5, a_sq, b_sq, ab_const);
        p6.next(Step::Bind(result, config.instance, 0))
    }

    /// Lays the circuit out: it loads `a` and `b`, squares both, multiplies
    /// them with the constant, adds the three terms and binds the sum to the
    /// first row of the instance column. With a configuration that fits, it
    /// succeeds exactly if both inputs are known and nine rows are left;
    /// then a witness that met its constraints still does so, and the one
    /// binding added is that of the cell that holds
    /// `a^2 + b^2 + a*b*constant`.
    #[verifier::rlimit(60)]
    pub fn synthesize(&self, config: OptimizedFieldConfig, layouter: &mut Layouter) -> (r: Result<
        (),
        AssignmentError,
    >)
        requires
            old(layouter).wf(),
        ensures
            final(layouter).wf(),
            (Progress { layout: final(layouter)@, error: failure(r) }) == self.synthesized(
                config,
                old(layouter)@,
            ),
            config.valid(old(layouter)@.cs) ==> (r is Ok <==> self.a is Known && self.b is Known
                && old(layouter)@.frontier() + 9 <= old(layouter)@.rows),
            r is Ok && config.valid(old(layouter)@.cs) ==> {
                let result = Cell {
                    column: config.advice[0],
                    row: (old(layouter)@.frontier() + 8) as usize,
                };
                &&& old(layouter)@.extends(final(layouter)@)
                &&& final(layouter)@.bindings == old(layouter)@.bindings.push(
                    (result, Cell { column: config.instance, row: 0 }),
                )
                &&& final(layouter)@.cells[result] == combined(
                    self.a->Known_0,
                    self.b->Known_0,
                    self.constant,
                )
                &&& old(layouter)@.sound() ==> final(layouter)@.sound()
            },
    {
        let field_chip = OptimizedFieldChip::construct(config);
        let ghost l0 = layouter@;
        let a = field_chip.load_private(layouter, self.a)?;
        let ghost l1 = layouter@;
        let b = field_chip.load_private(layouter, self.b)?;
        let ghost l2 = layouter@;
        proof {
            l1.lemma_holds_later(l2, a.0);
        }
        let a_sq = field_chip.square(layouter, a)?;
        let ghost l3 = layouter@;
        proof {
            l2.lemma_holds_later(l3, a.0);
            l2.lemma_holds_later(l3, b.0);
        }
        let b_sq = field_chip.square(layouter, b)?;
        let ghost l4 = layouter@;
        proof {
            l3.lemma_holds_later(l4, a.0);
            l3.lemma_holds_later(l4, b.0);
            l3.lemma_holds_later(l4, a_sq.0);
        }
        let ab_const = field_chip.mul_with_constant(layouter, a, b, self.constant)?;
        let ghost l5 = layouter@;
        proof {
            l4.lemma_holds_later(l5, a_sq.0);
            l4.lemma_holds_later(l5, b_sq.0);
        }
        let result = field_chip.add_three(layouter, a_sq, b_sq, ab_const)?;
        let ghost l6 = layouter@;
        let r = field_chip.expose_public(layouter, result, 0);
        proof {
            if r is Ok {
                l0.lemma_extends_transitive(l1, l2);
                l0.lemma_extends_transitive(l2, l3);
                l0.lemma_extends_transitive(l3, l4);
                l0.lemma_extends_transitive(l4, l5);
                l0.lemma_extends_transitive(l5, l6);
                l0.lemma_extends_transitive(l6, layouter@);
                if config.valid(l0.cs) {
                    let av = (self.a->Known_0).value();
                    let bv = (self.b->Known_0).value();
                    let cv = self.constant.value();
                    Fe::lemma_value_of(prod_mod(av, av));
                    Fe::lemma_value_of(prod_mod(bv, bv));
                    Fe::lemma_value_of(prod_mod(av, bv));
                    Fe::lemma_value_of(prod3(av, bv, cv));
                    Fe::lemma_value_of(sum_mod(prod_mod(av, av), prod_mod(bv, bv)));
                }
            }
        }
        r
    }

    /// The constraint system of the circuit, configured from nothing.
    pub open spec fn system() -> Shape {
        Self::configured(Shape::empty()).shape
    }

    /// The public value that the circuit is verified against: the first
    /// value of the instance column, or zero where none is given.
    pub open spec fn public(instance: Seq<Seq<Fe>>) -> Fe {
        instance_value(
            instance,
            Cell { column: Column { kind: ColumnKind::Instance, index: 0 }, row: 0 },
        )
    }

    /// Why `run` fails, if it does: the error of laying out the grid, or
    /// else that of the first step of synthesis that is refused.
    pub open spec fn run_error(&self, k: u32, instance: Seq<Seq<Fe>>) -> Option<Error> {
        match new_error(Self::system(), k, instance) {
            Some(e) => Some(Error::Assignment(e)),
            None => match self.synthesized(
                Self::config_for(Shape::empty()),
                Layout::fresh(Self::system(), k, instance),
            ).error {
                Some(e) => Some(Error::Assignment(e)),
                None => None,
            },
        }
    }

    /// Configures the circuit, synthesizes it on a grid of `2^k` rows with
    /// the given instance values, and seals the witness. It succeeds exactly
    /// if `k` is at least 4 and below 31, one instance column is given with
    /// at most `2^k` values, and both inputs are known. Verification of the
    /// witness then succeeds if the public value is
    /// `a^2 + b^2 + a*b*constant`, and for every other public value it
    /// reports one instance mismatch.
    pub fn run(&self, k: u32, instance: Vec<Vec<Fe>>) -> (r: Result<MockProver, Error>)
        ensures
            r is Ok <==> 4 <= k < 31 && instance.len() == 1 && instance[0].len() <= pow2(k as nat)
                && self.a is Known && self.b is Known,
            self.run_error(k, columns_view(instance)) == (match r {
                Ok(_) => None::<Error>,
                Err(e) => Some(e),
            }),
            r matches Ok(p) ==> {
                let public = Self::public(columns_view(instance));
                let out = combined(self.a->Known_0, self.b->Known_0, self.constant);
                &&& p.wf()
                &&& p@ == self.synthesized(
                    Self::config_for(Shape::empty()),
                    Layout::fresh(Self::system(), k, columns_view(instance)),
                ).layout
                &&& p@.verdict() == (if public == out {
                    Ok::<(), VerificationFailure>(())
                } else {
                    Err(
                        VerificationFailure::InstanceMismatch {
                            column: 0,
                            row: 0,
                            expected: public,
                            actual: out,
                        },
                    )
                })
            },
    {
        let mut cs = ConstraintSystem::new();
        let config = match Self::configure(&mut cs) {
            Ok(config) => config,
            Err(e) => {
                return Err(Error::Configuration(e));
            },
        };
        let ghost cols = columns_view(instance);
        let ghost public = Self::public(cols);
        proof {
            lemma2_to64();
            if k < 31 {
                if k < 4 {
                    lemma_pow2_strictly_increases(k as nat, 4);
                } else if k > 4 {
                    lemma_pow2_strictly_increases(4, k as nat);
                }
            }
            assert(cols.len() == instance.len());
            if instance.len() == 1 {
                assert(cols[0] == instance[0]@);
            }
        }
        let mut layouter = match Layouter::new(cs, k, instance) {
            Ok(layouter) => layouter,
            Err(e) => {
                return Err(Error::Assignment(e));
            },
        };
        let ghost fresh = layouter@;
        proof {
            layouter.lemma_wf();
            assert(fresh.sound());
            let c = Cell { column: config.instance, row: 0 };
            assert(fresh.cells.dom().contains(c));
            assert(fresh.cells[c] == public);
        }
        match self.synthesize(config, &mut layouter) {
            Ok(()) => {},
            Err(e) => {
                return Err(Error::Assignment(e));
            },
        }
        proof {
            layouter.lemma_wf();
            let after = layouter@;
            let result = Cell { column: config.advice[0], row: 8 };
            let c = Cell { column: config.instance, row: 0 };
            after.lemma_sound_complete();
            after.lemma_sound_failures();
            assert(after.cells.dom().contains(c));
            assert(after.cells[c] == public);
            assert(after.bindings =~= seq![(result, c)]);
            reveal_with_fuel(scan_list, 2);
            assert(after.binding_failures() == scan_list(after.binding_check(), 1));
        }
        match layouter.seal() {
            Ok(p) => Ok(p),
            Err(e) => Err(Error::Assignment(e)),
        }
    }
}

} // verus!
