//! Three chips, for squaring, for adding three values and for multiplying
//! with a constant, each with columns of its own, and the circuit that
//! composes them to prove knowledge of `a` and `b` with `a^2 + b^2 + a*b*c`
//! equal to a public value, for a constant `c`.

use crate::column::{advice_at, Cell, Column, ColumnKind, Rotation, Selector};
use crate::constraint_system::{
    refusal, ConfigStep, ConfigurationError, ConstraintSystem, Gate, Setup, Shape,
};
use crate::error::Error;
use crate::expression::{cell_ref, Expression};
use crate::field::{prod_mod, sum_mod, Fe};
use crate::gates::{
    combined, lemma_add3_vanishes, lemma_mul_vanishes, lemma_square_vanishes, mul_poly, prod3, sum3,
};
use crate::layouter::{
    columns_view, failure, instance_value, new_error, AssignedCell, AssignmentError, Layout,
    Layouter, Progress, Step, Value,
};
use crate::mock_prover::{scan_list, MockProver, VerificationFailure};
use vstd::arithmetic::power2::{lemma2_to64, lemma_pow2_strictly_increases, pow2};
use vstd::prelude::*;

verus! {

/// `input * input - output`, on the current row.
pub open spec fn square_poly(input: Column, output: Column) -> Expression {
    Expression::Sub(
        Box::new(Expression::Mul(Box::new(cell_ref(input, 0)), Box::new(cell_ref(input, 0)))),
        Box::new(cell_ref(output, 0)),
    )
}

/// `a + b + c - sum`, on the current row.
pub open spec fn add_three_poly(a: Column, b: Column, c: Column, sum: Column) -> Expression {
    Expression::Sub(
        Box::new(
            Expression::Add(
                Box::new(Expression::Add(Box::new(cell_ref(a, 0)), Box::new(cell_ref(b, 0)))),
                Box::new(cell_ref(c, 0)),
            ),
        ),
        Box::new(cell_ref(sum, 0)),
    )
}

/// The gates of the three chips read allocated columns if their columns are
/// allocated.
pub proof fn lemma_polys_ok(cs: Shape, a: Column, b: Column, c: Column, d: Column)
    requires
        cs.queryable(a),
        cs.queryable(b),
        cs.queryable(c),
        cs.queryable(d),
    ensures
        cs.expression_ok(square_poly(a, b)),
        cs.expression_ok(add_three_poly(a, b, c, d)),
        cs.expression_ok(mul_poly(a, b, c, d)),
{
    reveal_with_fuel(Shape::expression_ok, 4);
}

/// The columns and the selector of the square chip.
#[derive(Clone, Copy, Debug)]
pub struct SquareConfig {
    /// The input column and the output column.
    pub advice: [Column; 2],
    pub s_square: Selector,
}

impl SquareConfig {
    /// The configuration fits a constraint system: its columns are allocated
    /// with equality enabled, and its selector is allocated and guards the
    /// square gate and nothing else.
    pub open spec fn valid(self, cs: Shape) -> bool {
        &&& forall|k: int|
            0 <= k < 2 ==> (#[trigger] self.advice[k]).kind == ColumnKind::Advice
                && cs.has_column(self.advice[k]) && cs.equality(self.advice[k])
        &&& self.advice[0] != self.advice[1]
        &&& self.s_square.index < cs.selectors
        &&& forall|i: int|
            0 <= i < cs.gates.len() && (#[trigger] cs.gates[i]).selector == self.s_square
                ==> cs.gates[i].poly == square_poly(self.advice[0], self.advice[1])
        &&& forall|i: int|
            0 <= i < cs.lookups.len() ==> (#[trigger] cs.lookups[i]).selector != self.s_square
    }

    /// A configuration that fits a constraint system fits every later state
    /// of it.
    pub proof fn lemma_valid_later(self, cs: Shape, later: Shape)
        requires
            self.valid(cs),
            cs.precedes(later),
        ensures
            self.valid(later),
    {
        assert forall|k: int| 0 <= k < 2 implies later.has_column(#[trigger] self.advice[k]) by {
            assert(cs.width(self.advice[k].kind) <= later.width(self.advice[k].kind));
        }
        assert forall|i: int|
            0 <= i < later.gates.len() && (#[trigger] later.gates[i]).selector
                == self.s_square implies later.gates[i].poly == square_poly(
            self.advice[0],
            self.advice[1],
        ) by {
            if i < cs.gates.len() {
                assert(later.gates[i] == cs.gates[i]);
            }
        }
        assert forall|i: int| 0 <= i < later.lookups.len() implies (
        #[trigger] later.lookups[i]).selector != self.s_square by {
            if i < cs.lookups.len() {
                assert(later.lookups[i] == cs.lookups[i]);
            }
        }
    }
}

/// The square chip.
#[derive(Clone, Copy, Debug)]
pub struct SquareChip {
    pub config: SquareConfig,
}

impl SquareChip {
    /// A chip with the given configuration.
    pub fn construct(config: SquareConfig) -> (chip: SquareChip)
        ensures
            chip.config == config,
    {
        SquareChip { config }
    }

    /// The configuration that the chip was made with.
    pub fn config(&self) -> (c: &SquareConfig)
        ensures
            *c == self.config,
    {
        &self.config
    }

    /// The chip holds no loaded state.
    pub fn loaded(&self) {
    }

    /// The configuration steps of the chip: a selector, equality on the two
    /// columns, and the square gate.
    pub open spec fn configuring(s: Setup, advice: [Column; 2]) -> Setup {
        s.next(ConfigStep::Selector).next(ConfigStep::Equality(advice[0])).next(
            ConfigStep::Equality(advice[1]),
        ).next(
            ConfigStep::Gate(
                Gate {
                    name: "square_gate",
                    selector: s.shape.next_selector(),
                    poly: square_poly(advice[0], advice[1]),
                },
            ),
        )
    }

    /// Registers the chip's constraints. It succeeds exactly if the system
    /// is not sealed, the columns are allocated and a selector is left; the
    /// first step that is refused ends it with that step's error.
    pub fn configure(meta: &mut ConstraintSystem, advice: [Column; 2]) -> (r: Result<
        SquareConfig,
        ConfigurationError,
    >)
        ensures
            (Setup { shape: final(meta)@, error: refusal(r) }) == Self::configuring(
                old(meta)@.begin(),
                advice,
            ),
            r matches Ok(config) ==> config == (SquareConfig {
                advice,
                s_square: old(meta)@.next_selector(),
            }) && (old(meta)@.wf() && advice[0].kind == ColumnKind::Advice && advice[1].kind
                == ColumnKind::Advice && advice[0] != advice[1] ==> config.valid(final(meta)@)
                && old(meta)@.precedes(final(meta)@)),
            r is Ok <==> !old(meta)@.sealed && old(meta)@.queryable(advice[0]) && old(meta)@.queryable(advice[1]) && old(meta)@.selectors < usize::MAX,
            r is Ok ==> old(meta)@.grown(final(meta)@, 1),
            old(meta)@.wf() ==> final(meta)@.wf(),
    {
        let s_square = meta.selector()?;
        meta.enable_equality(advice[0])?;
        meta.enable_equality(advice[1])?;
        let input = Expression::query(advice[0], Rotation::cur());
        let output = Expression::query(advice[1], Rotation::cur());
        proof {
            lemma_polys_ok(meta@, advice[0], advice[1], advice[0], advice[0]);
        }
        meta.create_gate("square_gate", s_square, input.duplicate().mul(input).sub(output))?;
        Ok(SquareConfig { advice, s_square })
    }

    /// The steps of `square`: a new region with the selector on, a copy of
    /// the input in the first column and its square in the second.
    pub open spec fn squaring(&self, p: Progress, input: AssignedCell) -> Progress {
        let config = self.config;
        p.next(Step::Region("square operation")).next(Step::Enable(config.s_square, 0)).next(
            Step::Copy(input.cell, config.advice[0], 0),
        ).next(
            Step::Assign(ColumnKind::Advice, config.advice[1], 0, input.value.times(input.value)),
        )
    }

    /// Squares a value in a region of its own. With a configuration that
    /// fits and an input that can be copied, it succeeds exactly if a row is
    /// left, and a witness that met its constraints still does so.
    pub fn square(&self, layouter: &mut Layouter, input: AssignedCell) -> (r: Result<
        AssignedCell,
        AssignmentError,
    >)
        requires
            old(layouter).wf(),
        ensures
            final(layouter).wf(),
            (Progress { layout: final(layouter)@, error: failure(r) }) == self.squaring(
                old(layouter)@.begin(),
                input,
            ),
            r matches Ok(out) ==> out == (AssignedCell {
                cell: old(layouter)@.frontier_cell(self.config.advice[1]),
                value: input.value.times(input.value),
            }) && old(layouter)@.advanced(final(layouter)@, out, 1),
            self.config.valid(old(layouter)@.cs) && old(layouter)@.copyable(input) ==> (r is Ok
                <==> old(layouter)@.frontier() < old(layouter)@.rows),
            r is Ok && self.config.valid(old(layouter)@.cs) && old(layouter)@.holds(input) && old(layouter)@.sound() ==> final(layouter)@.sound(),
    {
        proof {
            reveal(Layout::step);
            old(layouter).lemma_wf();
        }
        layouter.assign_region("square operation");
        layouter.enable_selector(self.config.s_square, 0)?;
        input.copy_advice(layouter, self.config.advice[0], 0)?;
        let output_value = input.value().square();
        let out = layouter.assign_advice(self.config.advice[1], 0, output_value)?;
        proof {
            let before = old(layouter)@;
            let after = layouter@;
            let config = self.config;
            assert(before.extends(after));
            if config.valid(before.cs) && before.holds(input) && before.sound() {
                let row = before.frontier() as int;
                let v = before.cells[input.cell].value();
                let poly = square_poly(config.advice[0], config.advice[1]);
                Fe::lemma_value_of(prod_mod(v, v));
                lemma_square_vanishes(
                    poly,
                    after.cells,
                    row,
                    Cell { column: config.advice[0], row: row as usize },
                    Cell { column: config.advice[1], row: row as usize },
                    0,
                );
                before.lemma_sound_one_gate(after, config.s_square, row, poly);
            }
        }
        Ok(out)
    }
}

/// The columns and the selector of the add chip.
#[derive(Clone, Copy, Debug)]
pub struct AddConfig {
    /// The columns of the three terms and the column of the sum.
    pub advice: [Column; 4],
    pub s_add: Selector,
}

impl AddConfig {
    /// The polynomial of the chip's gate.
    pub open spec fn poly(self) -> Expression {
        add_three_poly(self.advice[0], self.advice[1], self.advice[2], self.advice[3])
    }

    /// Whether the four columns are advice columns and differ from each
    /// other.
    pub open spec fn columns_fit(advice: [Column; 4]) -> bool {
        &&& forall|k: int| 0 <= k < 4 ==> (#[trigger] advice[k]).kind == ColumnKind::Advice
        &&& forall|j: int, k: int| 0 <= j < k < 4 ==> advice[j] != advice[k]
    }

    /// The configuration fits a constraint system: its columns are allocated
    /// with equality enabled, and its selector is allocated and guards the
    /// add gate and nothing else.
    pub open spec fn valid(self, cs: Shape) -> bool {
        &&& Self::columns_fit(self.advice)
        &&& forall|k: int|
            0 <= k < 4 ==> cs.has_column(#[trigger] self.advice[k]) && cs.equality(self.advice[k])
        &&& self.s_add.index < cs.selectors
        &&& forall|i: int|
            0 <= i < cs.gates.len() && (#[trigger] cs.gates[i]).selector == self.s_add
                ==> cs.gates[i].poly == self.poly()
        &&& forall|i: int|
            0 <= i < cs.lookups.len() ==> (#[trigger] cs.lookups[i]).selector != self.s_add
    }

    /// A configuration that fits a constraint system fits every later state
    /// of it.
    pub proof fn lemma_valid_later(self, cs: Shape, later: Shape)
        requires
            self.valid(cs),
            cs.precedes(later),
        ensures
            self.valid(later),
    {
        assert forall|k: int| 0 <= k < 4 implies later.has_column(#[trigger] self.advice[k])
            && later.equality(self.advice[k]) by {
            assert(cs.width(self.advice[k].kind) <= later.width(self.advice[k].kind));
        }
        assert forall|i: int|
            0 <= i < later.gates.len() && (#[trigger] later.gates[i]).selector
                == self.s_add implies later.gates[i].poly == self.poly() by {
            if i < cs.gates.len() {
                assert(later.gates[i] == cs.gates[i]);
            }
        }
        assert forall|i: int| 0 <= i < later.lookups.len() implies (
        #[trigger] later.lookups[i]).selector != self.s_add by {
            if i < cs.lookups.len() {
                assert(later.lookups[i] == cs.lookups[i]);
            }
        }
    }
}

/// The add chip.
#[derive(Clone, Copy, Debug)]
pub struct AddChip {
    pub config: AddConfig,
}

impl AddChip {
    /// A chip with the given configuration.
    pub fn construct(config: AddConfig) -> (chip: AddChip)
        ensures
            chip.config == config,
    {
        AddChip { config }
    }

    /// The configuration that the chip was made with.
    pub fn config(&self) -> (c: &AddConfig)
        ensures
            *c == self.config,
    {
        &self.config
    }

    /// The chip holds no loaded state.
    pub fn loaded(&self) {
    }

    /// The configuration steps of the chip: a selector, equality on the four
    /// columns, and the add gate.
    pub open spec fn configuring(s: Setup, advice: [Column; 4]) -> Setup {
        s.next(ConfigStep::Selector).next(ConfigStep::Equality(advice[0])).next(
            ConfigStep::Equality(advice[1]),
        ).next(ConfigStep::Equality(advice[2])).next(ConfigStep::Equality(advice[3])).next(
            ConfigStep::Gate(
                Gate {
                    name: "add_three_gate",
                    selector: s.shape.next_selector(),
                    poly: add_three_poly(advice[0], advice[1], advice[2], advice[3]),
                },
            ),
        )
    }

    /// Registers the chip's constraints. It succeeds exactly if the system
    /// is not sealed, the columns are allocated and a selector is left; the
    /// first step that is refused ends it with that step's error.
    pub fn configure(meta: &mut ConstraintSystem, advice: [Column; 4]) -> (r: Result<
        AddConfig,
        ConfigurationError,
    >)
        ensures
            (Setup { shape: final(meta)@, error: refusal(r) }) == Self::configuring(
                old(meta)@.begin(),
                advice,
            ),
            r matches Ok(config) ==> config == (AddConfig {
                advice,
                s_add: old(meta)@.next_selector(),
            }) && (old(meta)@.wf() && AddConfig::columns_fit(advice) ==> config.valid(
                final(meta)@,
            ) && old(meta)@.precedes(final(meta)@)),
            r is Ok <==> !old(meta)@.sealed && (forall|k: int|
                0 <= k < 4 ==> old(meta)@.queryable(#[trigger] advice[k])) && old(meta)@.selectors
                < usize::MAX,
            r is Ok ==> old(meta)@.grown(final(meta)@, 1),
            old(meta)@.wf() ==> final(meta)@.wf(),
    {
        let s_add = meta.selector()?;
        meta.enable_equality(advice[0])?;
        meta.enable_equality(advice[1])?;
        meta.enable_equality(advice[2])?;
        meta.enable_equality(advice[3])?;
        let a = Expression::query(advice[0], Rotation::cur());
        let b = Expression::query(advice[1], Rotation::cur());
        let c = Expression::query(advice[2], Rotation::cur());
        let sum = Expression::query(advice[3], Rotation::cur());
        proof {
            lemma_polys_ok(meta@, advice[0], advice[1], advice[2], advice[3]);
        }
        meta.create_gate("add_three_gate", s_add, a.add(b).add(c).sub(sum))?;
        Ok(AddConfig { advice, s_add })
    }

    /// The steps of `add_three`: a new region with the selector on, copies
    /// of the three inputs in the first three columns and their sum in the
    /// fourth.
    pub open spec fn adding(
        &self,
        p: Progress,
        a: AssignedCell,
        b: AssignedCell,
        c: AssignedCell,
    ) -> Progress {
        let config = self.config;
        p.next(Step::Region("add three numbers")).next(Step::Enable(config.s_add, 0)).next(
            Step::Copy(a.cell, config.advice[0], 0),
        ).next(Step::Copy(b.cell, config.advice[1], 0)).next(
            Step::Copy(c.cell, config.advice[2], 0),
        ).next(
            Step::Assign(
                ColumnKind::Advice,
                config.advice[3],
                0,
                a.value.plus(b.value).plus(c.value),
            ),
        )
    }

    /// Adds three values in a region of its own. With a configuration that
    /// fits and inputs that can be copied, it succeeds exactly if a row is
    /// left, and a witness that met its constraints still does so.
    pub fn add_three(
        &self,
        layouter: &mut Layouter,
        a: AssignedCell,
        b: AssignedCell,
        c: AssignedCell,
    ) -> (r: Result<AssignedCell, AssignmentError>)
        requires
            old(layouter).wf(),
        ensures
            final(layouter).wf(),
            (Progress { layout: final(layouter)@, error: failure(r) }) == self.adding(
                old(layouter)@.begin(),
                a,
                b,
                c,
            ),
            r matches Ok(out) ==> out == (AssignedCell {
                cell: old(layouter)@.frontier_cell(self.config.advice[3]),
                value: a.value.plus(b.value).plus(c.value),
            }) && old(layouter)@.advanced(final(layouter)@, out, 1),
            self.config.valid(old(layouter)@.cs) && old(layouter)@.copyable(a) && old(layouter)@.copyable(b) && old(layouter)@.copyable(c) ==> (r is Ok <==> old(layouter)@.frontier() < old(layouter)@.rows),
            r is Ok && self.config.valid(old(layouter)@.cs) && old(layouter)@.holds(a) && old(layouter)@.holds(b) && old(layouter)@.holds(c) && old(layouter)@.sound() ==> final(layouter)@.sound(),
    {
        proof {
            reveal(Layout::step);
            old(layouter).lemma_wf();
            assert(AddConfig::columns_fit(self.config.advice) ==> self.config.advice[0]
                != self.config.advice[3] && self.config.advice[1] != self.config.advice[3]
                && self.config.advice[2] != self.config.advice[3] && self.config.advice[0]
                != self.config.advice[1] && self.config.advice[0] != self.config.advice[2]
                && self.config.advice[1] != self.config.advice[2]);
        }
        layouter.assign_region("add three numbers");
        layouter.enable_selector(self.config.s_add, 0)?;
        a.copy_advice(layouter, self.config.advice[0], 0)?;
        b.copy_advice(layouter, self.config.advice[1], 0)?;
        c.copy_advice(layouter, self.config.advice[2], 0)?;
        let sum_value = a.value().add(&b.value()).add(&c.value());
        let out = layouter.assign_advice(self.config.advice[3], 0, sum_value)?;
        proof {
            let before = old(layouter)@;
            let after = layouter@;
            let config = self.config;
            assert(before.extends(after));
            if config.valid(before.cs) && before.holds(a) && before.holds(b) && before.holds(c)
                && before.sound() {
                let row = before.frontier() as int;
                let x = before.cells[a.cell].value();
                let y = before.cells[b.cell].value();
                let z = before.cells[c.cell].value();
                Fe::lemma_value_of(sum_mod(x, y));
                Fe::lemma_value_of(sum3(x, y, z));
                lemma_add3_vanishes(
                    config.poly(),
                    after.cells,
                    row,
                    Cell { column: config.advice[0], row: row as usize },
                    Cell { column: config.advice[1], row: row as usize },
                    Cell { column: config.advice[2], row: row as usize },
                    Cell { column: config.advice[3], row: row as usize },
                    0,
                );
                before.lemma_sound_one_gate(after, config.s_add, row, config.poly());
            }
        }
        Ok(out)
    }
}

/// The columns and the selector of the multiply chip.
#[derive(Clone, Copy, Debug)]
pub struct MulConfig {
    /// The columns of the two factors and the column of the product.
    pub advice: [Column; 3],
    /// The fixed column, for the constant.
    pub constant: Column,
    pub s_mul: Selector,
}

impl MulConfig {
    /// The polynomial of the chip's gate.
    pub open spec fn poly(self) -> Expression {
        mul_poly(self.advice[0], self.advice[1], self.constant, self.advice[2])
    }

    /// Whether the three columns are advice columns that differ from each
    /// other, and the column of the constant is a fixed column.
    pub open spec fn columns_fit(advice: [Column; 3], constant: Column) -> bool {
        &&& forall|k: int| 0 <= k < 3 ==> (#[trigger] advice[k]).kind == ColumnKind::Advice
        &&& advice[0] != advice[1]
        &&& advice[0] != advice[2]
        &&& advice[1] != advice[2]
        &&& constant.kind == ColumnKind::Fixed
    }

    /// The configuration fits a constraint system: its columns are
    /// allocated, the advice columns with equality enabled, and its selector
    /// is allocated and guards the multiply gate and nothing else.
    pub open spec fn valid(self, cs: Shape) -> bool {
        &&& Self::columns_fit(self.advice, self.constant)
        &&& forall|k: int|
            0 <= k < 3 ==> cs.has_column(#[trigger] self.advice[k]) && cs.equality(self.advice[k])
        &&& cs.has_column(self.constant)
        &&& self.s_mul.index < cs.selectors
        &&& forall|i: int|
            0 <= i < cs.gates.len() && (#[trigger] cs.gates[i]).selector == self.s_mul
                ==> cs.gates[i].poly == self.poly()
        &&& forall|i: int|
            0 <= i < cs.lookups.len() ==> (#[trigger] cs.lookups[i]).selector != self.s_mul
    }

    /// A configuration that fits a constraint system fits every later state
    /// of it.
    pub proof fn lemma_valid_later(self, cs: Shape, later: Shape)
        requires
            self.valid(cs),
            cs.precedes(later),
        ensures
            self.valid(later),
    {
        assert forall|k: int| 0 <= k < 3 implies later.has_column(#[trigger] self.advice[k])
            && later.equality(self.advice[k]) by {
            assert(cs.width(self.advice[k].kind) <= later.width(self.advice[k].kind));
        }
        assert(cs.width(self.constant.kind) <= later.width(self.constant.kind));
        assert forall|i: int|
            0 <= i < later.gates.len() && (#[trigger] later.gates[i]).selector
                == self.s_mul implies later.gates[i].poly == self.poly() by {
            if i < cs.gates.len() {
                assert(later.gates[i] == cs.gates[i]);
            }
        }
        assert forall|i: int| 0 <= i < later.lookups.len() implies (
        #[trigger] later.lookups[i]).selector != self.s_mul by {
            if i < cs.lookups.len() {
                assert(later.lookups[i] == cs.lookups[i]);
            }
        }
    }
}

/// The multiply chip.
#[derive(Clone, Copy, Debug)]
pub struct MulChip {
    pub config: MulConfig,
}

impl MulChip {
    /// A chip with the given configuration.
    pub fn construct(config: MulConfig) -> (chip: MulChip)
        ensures
            chip.config == config,
    {
        MulChip { config }
    }

    /// The configuration that the chip was made with.
    pub fn config(&self) -> (c: &MulConfig)
        ensures
            *c == self.config,
    {
        &self.config
    }

    /// The chip holds no loaded state.
    pub fn loaded(&self) {
    }

    /// The configuration steps of the chip: a selector, the column of
    /// constants, equality on the three advice columns, and the multiply
    /// gate.
    pub open spec fn configuring(s: Setup, advice: [Column; 3], constant: Column) -> Setup {
        s.next(ConfigStep::Selector).next(ConfigStep::Constant(constant)).next(
            ConfigStep::Equality(advice[0]),
        ).next(ConfigStep::Equality(advice[1])).next(ConfigStep::Equality(advice[2])).next(
            ConfigStep::Gate(
                Gate {
                    name: "mul_with_constant_gate",
                    selector: s.shape.next_selector(),
                    poly: mul_poly(advice[0], advice[1], constant, advice[2]),
                },
            ),
        )
    }

    /// Registers the chip's constraints. It succeeds exactly if the system
    /// is not sealed, the columns are allocated, `constant` is a fixed
    /// column and a selector is left; the first step that is refused ends it
    /// with that step's error.
    pub fn configure(meta: &mut ConstraintSystem, advice: [Column; 3], constant: Column) -> (r:
        Result<MulConfig, ConfigurationError>)
        ensures
            (Setup { shape: final(meta)@, error: refusal(r) }) == Self::configuring(
                old(meta)@.begin(),
                advice,
                constant,
            ),
            r matches Ok(config) ==> config == (MulConfig {
                advice,
                constant,
                s_mul: old(meta)@.next_selector(),
            }) && (old(meta)@.wf() && MulConfig::columns_fit(advice, constant) ==> config.valid(
                final(meta)@,
            ) && old(meta)@.precedes(final(meta)@)),
            r is Ok <==> !old(meta)@.sealed && constant.kind == ColumnKind::Fixed && old(meta)@.has_column(constant) && (forall|k: int|
                0 <= k < 3 ==> old(meta)@.queryable(#[trigger] advice[k])) && old(meta)@.selectors
                < usize::MAX,
            r is Ok ==> old(meta)@.grown(final(meta)@, 1),
            old(meta)@.wf() ==> final(meta)@.wf(),
    {
        let s_mul = meta.selector()?;
        meta.enable_constant(constant)?;
        meta.enable_equality(advice[0])?;
        meta.enable_equality(advice[1])?;
        meta.enable_equality(advice[2])?;
        let a = Expression::query(advice[0], Rotation::cur());
        let b = Expression::query(advice[1], Rotation::cur());
        let product = Expression::query(advice[2], Rotation::cur());
        let constant_value = Expression::query(constant, Rotation::cur());
        proof {
            lemma_polys_ok(meta@, advice[0], advice[1], constant, advice[2]);
        }
        meta.create_gate("mul_with_constant_gate", s_mul, a.mul(b).mul(constant_value).sub(product))?;
        Ok(MulConfig { advice, constant, s_mul })
    }

    /// The steps of `mul_with_constant`: a new region with the selector on,
    /// the constant in the fixed column, copies of the two inputs in the
    /// first two advice columns and the product in the third.
    pub open spec fn multiplying(
        &self,
        p: Progress,
        a: AssignedCell,
        b: AssignedCell,
        constant: Fe,
    ) -> Progress {
        let config = self.config;
        p.next(Step::Region("multiply with constant")).next(Step::Enable(config.s_mul, 0)).next(
            Step::Assign(ColumnKind::Fixed, config.constant, 0, Value::Known(constant)),
        ).next(Step::Copy(a.cell, config.advice[0], 0)).next(
            Step::Copy(b.cell, config.advice[1], 0),
        ).next(
            Step::Assign(
                ColumnKind::Advice,
                config.advice[2],
                0,
                a.value.times(b.value).times(Value::Known(constant)),
            ),
        )
    }

    /// Multiplies two values and a constant in a region of its own. With a
    /// configuration that fits and inputs that can be copied, it succeeds
    /// exactly if a row is left, and a witness that met its constraints
    /// still does so.
    pub fn mul_with_constant(
        &self,
        layouter: &mut Layouter,
        a: AssignedCell,
        b: AssignedCell,
        constant: Fe,
    ) -> (r: Result<AssignedCell, AssignmentError>)
        requires
            old(layouter).wf(),
        ensures
            final(layouter).wf(),
            (Progress { layout: final(layouter)@, error: failure(r) }) == self.multiplying(
                old(layouter)@.begin(),
                a,
                b,
                constant,
            ),
            r matches Ok(out) ==> out == (AssignedCell {
                cell: old(layouter)@.frontier_cell(self.config.advice[2]),
                value: a.value.times(b.value).times(Value::Known(constant)),
            }) && old(layouter)@.advanced(final(layouter)@, out, 1),
            self.config.valid(old(layouter)@.cs) && old(layouter)@.copyable(a) && old(layouter)@.copyable(b) ==> (r is Ok <==> old(layouter)@.frontier() < old(layouter)@.rows),
            r is Ok && self.config.valid(old(layouter)@.cs) && old(layouter)@.holds(a) && old(layouter)@.holds(b) && old(layouter)@.sound() ==> final(layouter)@.sound(),
    {
        proof {
            reveal(Layout::step);
            old(layouter).lemma_wf();
        }
        layouter.assign_region("multiply with constant");
        layouter.enable_selector(self.config.s_mul, 0)?;
        layouter.assign_fixed(self.config.constant, 0, Value::known(constant))?;
        a.copy_advice(layouter, self.config.advice[0], 0)?;
        b.copy_advice(layouter, self.config.advice[1], 0)?;
        let product_value = a.value().mul(&b.value()).mul(&Value::known(constant));
        let out = layouter.assign_advice(self.config.advice[2], 0, product_value)?;
        proof {
            let before = old(layouter)@;
            let after = layouter@;
            let config = self.config;
            assert(before.extends(after));
            if config.valid(before.cs) && before.holds(a) && before.holds(b) && before.sound() {
                let row = before.frontier() as int;
                let x = before.cells[a.cell].value();
                let y = before.cells[b.cell].value();
                Fe::lemma_value_of(prod_mod(x, y));
                Fe::lemma_value_of(prod3(x, y, constant.value()));
                lemma_mul_vanishes(
                    after.cells,
                    row,
                    Cell { column: config.advice[0], row: row as usize },
                    Cell { column: config.advice[1], row: row as usize },
                    Cell { column: config.constant, row: row as usize },
                    Cell { column: config.advice[2], row: row as usize },
                );
                before.lemma_sound_one_gate(after, config.s_mul, row, config.poly());
            }
        }
        Ok(out)
    }
}

/// The configurations of the three chips, and the instance column.
#[derive(Clone, Copy, Debug)]
pub struct MultiChipConfig {
    pub square_config: SquareConfig,
    pub add_config: AddConfig,
    pub mul_config: MulConfig,
    pub instance: Column,
}

impl MultiChipConfig {
    /// The configuration fits a constraint system: each chip's does, and the
    /// instance column is allocated with equality enabled.
    pub open spec fn valid(self, cs: Shape) -> bool {
        &&& self.square_config.valid(cs)
        &&& self.add_config.valid(cs)
        &&& self.mul_config.valid(cs)
        &&& self.instance.kind == ColumnKind::Instance
        &&& cs.has_column(self.instance)
        &&& cs.equality(self.instance)
    }
}

/// The circuit that proves knowledge of `a` and `b` with
/// `a^2 + b^2 + a*b*constant` equal to the public value on the first row of
/// the instance column, with one chip for each operation.
#[derive(Clone, Copy, Debug)]
pub struct MultiChipCircuit {
    pub constant: Fe,
    pub a: Value,
    pub b: Value,
}

impl Default for MultiChipCircuit {
    fn default() -> (c: MultiChipCircuit)
        ensures
            c == (MultiChipCircuit { constant: Fe::of(0), a: Value::Unknown, b: Value::Unknown }),
    {
        MultiChipCircuit { constant: Fe::zero(), a: Value::Unknown, b: Value::Unknown }
    }
}

/// Loads a value into a region of its own, on the first row of a column.
fn load(layouter: &mut Layouter, name: &'static str, column: Column, value: Value) -> (r: Result<
    AssignedCell,
    AssignmentError,
>)
    requires
        old(layouter).wf(),
    ensures
        final(layouter).wf(),
        (Progress { layout: final(layouter)@, error: failure(r) }) == old(layouter)@.begin().next(Step::Region(name)).next(Step::Assign(ColumnKind::Advice, column, 0, value)),
        r matches Ok(out) ==> out == (AssignedCell {
            cell: old(layouter)@.frontier_cell(column),
            value,
        }) && old(layouter)@.advanced(final(layouter)@, out, 1),
        column.kind == ColumnKind::Advice && old(layouter)@.cs.has_column(column) ==> (r is Ok
            <==> value is Known && old(layouter)@.frontier() < old(layouter)@.rows),
        r is Ok && old(layouter)@.sound() ==> final(layouter)@.sound(),
{
    proof {
        reveal(Layout::step);
        old(layouter).lemma_wf();
    }
    layouter.assign_region(name);
    let out = layouter.assign_advice(column, 0, value)?;
    proof {
        let before = old(layouter)@;
        let after = layouter@;
        assert(before.extends(after));
        if before.sound() {
            before.lemma_sound_extends(after);
        }
    }
    Ok(out)
}

/// Binds a cell to a row of an instance column.
fn bind(layouter: &mut Layouter, cell: AssignedCell, instance: Column, row: usize) -> (r: Result<
    (),
    AssignmentError,
>)
    requires
        old(layouter).wf(),
    ensures
        final(layouter).wf(),
        (final(layouter)@, failure(r)) == old(layouter)@.step(Step::Bind(cell.cell, instance, row)),
        instance.kind == ColumnKind::Instance && old(layouter)@.cs.has_column(instance) && old(layouter)@.cs.equality(instance) && old(layouter)@.copyable(cell) ==> (r is Ok <==> row < old(layouter)@.rows),
        r is Ok ==> old(layouter)@.bound(
            final(layouter)@,
            cell.cell,
            Cell { column: instance, row },
        ),
        r is Ok && old(layouter)@.sound() ==> final(layouter)@.sound(),
{
    proof {
        reveal(Layout::step);
        old(layouter).lemma_wf();
    }
    let r = layouter.constrain_instance(cell.cell(), instance, row);
    proof {
        if r is Ok && old(layouter)@.sound() {
            old(layouter)@.lemma_sound_extends(layouter@);
        }
    }
    r
}

impl MultiChipCircuit {
    /// The circuit without its witnesses.
    pub fn without_witnesses(&self) -> (c: MultiChipCircuit)
        ensures
            c == (MultiChipCircuit { constant: Fe::of(0), a: Value::Unknown, b: Value::Unknown }),
    {
        MultiChipCircuit { constant: Fe::zero(), a: Value::Unknown, b: Value::Unknown }
    }

    /// The configuration that `configure` returns on success: the square
    /// chip has the first two advice columns that are allocated, the add
    /// chip the next four and the multiply chip the last three.
    pub open spec fn config_for(cs: Shape) -> MultiChipConfig {
        let n = cs.advice.len();
        MultiChipConfig {
            square_config: SquareConfig {
                advice: [advice_at(n), advice_at(n + 1)],
                s_square: cs.next_selector(),
            },
            add_config: AddConfig {
                advice: [advice_at(n + 2), advice_at(n + 3), advice_at(n + 4), advice_at(n + 5)],
                s_add: Selector { index: (cs.selectors + 1) as usize },
            },
            mul_config: MulConfig {
                advice: [advice_at(n + 6), advice_at(n + 7), advice_at(n + 8)],
                constant: cs.next_column(ColumnKind::Fixed),
                s_mul: Selector { index: (cs.selectors + 2) as usize },
            },
            instance: cs.next_column(ColumnKind::Instance),
        }
    }

    /// The configuration steps of the circuit: the instance column with
    /// equality enabled, then for each chip its columns and its own steps.
    pub open spec fn configured(cs: Shape) -> Setup {
        let config = Self::config_for(cs);
        let s0 = cs.begin().next(ConfigStep::Column(ColumnKind::Instance)).next(
            ConfigStep::Equality(config.instance),
        );
        let s1 = s0.next(ConfigStep::Column(ColumnKind::Advice)).next(
            ConfigStep::Column(ColumnKind::Advice),
        );
        let s2 = SquareChip::configuring(s1, config.square_config.advice);
        let s3 = s2.next(ConfigStep::Column(ColumnKind::Advice)).next(
            ConfigStep::Column(ColumnKind::Advice),
        ).next(ConfigStep::Column(ColumnKind::Advice)).next(ConfigStep::Column(ColumnKind::Advice));
        let s4 = AddChip::configuring(s3, config.add_config.advice);
        let s5 = s4.next(ConfigStep::Column(ColumnKind::Advice)).next(
            ConfigStep::Column(ColumnKind::Advice),
        ).next(ConfigStep::Column(ColumnKind::Advice)).next(ConfigStep::Column(ColumnKind::Fixed));
        MulChip::configuring(s5, config.mul_config.advice, config.mul_config.constant)
    }

    /// Allocates the circuit's columns and configures its three chips. It
    /// succeeds exactly if the system is not sealed and has room for nine
    /// advice columns, an instance column, a fixed column and three
    /// selectors; then the configuration fits the system.
    #[verifier::rlimit(100)]
    pub fn configure(meta: &mut ConstraintSystem) -> (r: Result<
        MultiChipConfig,
        ConfigurationError,
    >)
        ensures
            (Setup { shape: final(meta)@, error: refusal(r) }) == Self::configured(old(meta)@),
            r matches Ok(config) ==> config == Self::config_for(old(meta)@) && (old(meta)@.wf()
                ==> config.valid(final(meta)@) && old(meta)@.precedes(final(meta)@)),
            r is Ok <==> !old(meta)@.sealed && old(meta)@.advice.len() + 9 <= usize::MAX && old(meta)@.instance.len() < usize::MAX && old(meta)@.fixed.len() < usize::MAX && old(meta)@.selectors + 3 <= usize::MAX,
            r is Ok ==> final(meta)@.advice.len() == old(meta)@.advice.len() + 9 && final(meta)@.instance.len() == old(meta)@.instance.len() + 1 && final(meta)@.fixed.len() == old(meta)@.fixed.len() + 1 && final(meta)@.tables == old(meta)@.tables,
            old(meta)@.wf() ==> final(meta)@.wf(),
    {
        let ghost c0 = meta@;
        let instance = meta.instance_column()?;
        meta.enable_equality(instance)?;

        let square_advice = [meta.advice_column()?, meta.advice_column()?];
        let ghost c1 = meta@;
        assert(square_advice == Self::config_for(c0).square_config.advice);
        let square_config = SquareChip::configure(meta, square_advice)?;
        let ghost c2 = meta@;
        proof {
            c1.lemma_same_widths(c2);
        }

        let add_advice = [
            meta.advice_column()?,
            meta.advice_column()?,
            meta.advice_column()?,
            meta.advice_column()?,
        ];
        let ghost c3 = meta@;
        assert(add_advice == Self::config_for(c0).add_config.advice);
        assert forall|k: int| 0 <= k < 4 implies c3.queryable(#[trigger] add_advice[k]) by {}
        let add_config = AddChip::configure(meta, add_advice)?;
        let ghost c4 = meta@;
        proof {
            c3.lemma_same_widths(c4);
        }

        let mul_advice = [meta.advice_column()?, meta.advice_column()?, meta.advice_column()?];
        let mul_constant = meta.fixed_column()?;
        let ghost c5 = meta@;
        assert(mul_advice == Self::config_for(c0).mul_config.advice);
        assert forall|k: int| 0 <= k < 3 implies c5.queryable(#[trigger] mul_advice[k]) by {}
        let mul_config = MulChip::configure(meta, mul_advice, mul_constant)?;
        proof {
            let c6 = meta@;
            c5.lemma_same_widths(c6);
            if c0.wf() {
                assert(c0.precedes(c1));
                assert(c2.precedes(c3));
                assert(c4.precedes(c5));
                assert(c1.precedes(c2));
                assert(c3.precedes(c4));
                assert(c5.precedes(c6));
                c2.lemma_precedes_transitive(c3, c4);
                c2.lemma_precedes_transitive(c4, c5);
                c2.lemma_precedes_transitive(c5, c6);
                c4.lemma_precedes_transitive(c5, c6);
                c0.lemma_precedes_transitive(c1, c2);
                c0.lemma_precedes_transitive(c2, c6);
                square_config.lemma_valid_later(c2, c6);
                add_config.lemma_valid_later(c4, c6);
            }
        }
        Ok(MultiChipConfig { square_config, add_config, mul_config, instance })
    }

    /// The steps of `synthesize`: both inputs loaded into the input column
    /// of the square chip, both squared, their product with the constant,
    /// the three terms added, and the sum bound to the first row of the
    /// instance column.
    pub open spec fn synthesized(&self, config: MultiChipConfig, l: Layout) -> Progress {
        let square_chip = SquareChip { config: config.square_config };
        let add_chip = AddChip { config: config.add_config };
        let mul_chip = MulChip { config: config.mul_config };
        let temp_advice = config.square_config.advice[0];
        let p0 = l.begin();
        let a = AssignedCell { cell: p0.layout.frontier_cell(temp_advice), value: self.a };
        let p1 = p0.next(Step::Region("load a")).next(
            Step::Assign(ColumnKind::Advice, temp_advice, 0, self.a),
        );
        let b = AssignedCell { cell: p1.layout.frontier_cell(temp_advice), value: self.b };
        let p2 = p1.next(Step::Region("load b")).next(
            Step::Assign(ColumnKind::Advice, temp_advice, 0, self.b),
        );
        let a_squared = AssignedCell {
            cell: p2.layout.frontier_cell(config.square_config.advice[1]),
            value: self.a.times(self.a),
        };
        let p3 = square_chip.squaring(p2, a);
        let b_squared = AssignedCell {
            cell: p3.layout.frontier_cell(config.square_config.advice[1]),
            value: self.b.times(self.b),
        };
        let p4 = square_chip.squaring(p3, b);
        let ab_const = AssignedCell {
            cell: p4.layout.frontier_cell(config.mul_config.advice[2]),
            value: self.a.times(self.b).times(Value::Known(self.constant)),
        };
        let p5 = mul_chip.multiplying(p4, a, b, self.constant);
        let result = p5.layout.frontier_cell(config.add_config.advice[3]);
        let p6 = add_chip.adding(p5, a_squared, b_squared, ab_const);
        p6.next(Step::Bind(result, config.instance, 0))
    }

    /// Lays the circuit out: it loads `a` and `b`, squares both with the
    /// square chip, multiplies them with the constant with the multiply
    /// chip, adds the three terms with the add chip and binds the sum to the
    /// first row of the instance column. With a configuration that fits, it
    /// succeeds exactly if both inputs are known and six rows are left; then
    /// a witness that met its constraints still does so, and the one binding
    /// added is that of the cell that holds `a^2 + b^2 + a*b*constant`.
    #[verifier::rlimit(100)]
    pub fn synthesize(&self, config: MultiChipConfig, layouter: &mut Layouter) -> (r: Result<
        (),
        AssignmentError,
    >)
        requires
            old(layouter).wf(),
        ensures
            final(layouter).wf(),
            (Progress { layout: final(layouter)@, error: failure(r) }) == self.synthesized(
                config,
                old(layouter)@,
            ),
            config.valid(old(layouter)@.cs) ==> (r is Ok <==> self.a is Known && self.b is Known
                && old(layouter)@.frontier() + 6 <= old(layouter)@.rows),
            r is Ok && config.valid(old(layouter)@.cs) ==> {
                let result = Cell {
                    column: config.add_config.advice[3],
                    row: (old(layouter)@.frontier() + 5) as usize,
                };
                &&& old(layouter)@.extends(final(layouter)@)
                &&& final(layouter)@.bindings == old(layouter)@.bindings.push(
                    (result, Cell { column: config.instance, row: 0 }),
                )
                &&& final(layouter)@.cells[result] == combined(
                    self.a->Known_0,
                    self.b->Known_0,
                    self.constant,
                )
                &&& old(layouter)@.sound() ==> final(layouter)@.sound()
            },
    {
        let square_chip = SquareChip::construct(config.square_config);
        let add_chip = AddChip::construct(config.add_config);
        let mul_chip = MulChip::construct(config.mul_config);
        let temp_advice = config.square_config.advice[0];

        let ghost l0 = layouter@;
        let a = load(layouter, "load a", temp_advice, self.a)?;
        let ghost l1 = layouter@;
        let b = load(layouter, "load b", temp_advice, self.b)?;
        let ghost l2 = layouter@;
        proof {
            l1.lemma_holds_later(l2, a);
        }
        let a_squared = square_chip.square(layouter, a)?;
        let ghost l3 = layouter@;
        proof {
            l2.lemma_holds_later(l3, a);
            l2.lemma_holds_later(l3, b);
        }
        let b_squared = square_chip.square(layouter, b)?;
        let ghost l4 = layouter@;
        proof {
            l3.lemma_holds_later(l4, a);
            l3.lemma_holds_later(l4, b);
            l3.lemma_holds_later(l4, a_squared);
        }
        let ab_const = mul_chip.mul_with_constant(layouter, a, b, self.constant)?;
        let ghost l5 = layouter@;
        proof {
            l4.lemma_holds_later(l5, a_squared);
            l4.lemma_holds_later(l5, b_squared);
        }
        let result = add_chip.add_three(layouter, a_squared, b_squared, ab_const)?;
        let ghost l6 = layouter@;
        let r = bind(layouter, result, config.instance, 0);
        proof {
            if r is Ok {
                l0.lemma_extends_transitive(l1, l2);
                l0.lemma_extends_transitive(l2, l3);
                l0.lemma_extends_transitive(l3, l4);
                l0.lemma_extends_transitive(l4, l5);
                l0.lemma_extends_transitive(l5, l6);
                l0.lemma_extends_transitive(l6, layouter@);
                if config.valid(l0.cs) {
                    let av = (self.a->Known_0).value();
                    let bv = (self.b->Known_0).value();
                    let cv = self.constant.value();
                    Fe::lemma_value_of(prod_mod(av, av));
                    Fe::lemma_value_of(prod_mod(bv, bv));
                    Fe::lemma_value_of(prod_mod(av, bv));
                    Fe::lemma_value_of(prod3(av, bv, cv));
                    Fe::lemma_value_of(sum_mod(prod_mod(av, av), prod_mod(bv, bv)));
                }
            }
        }
        r
    }

    /// The constraint system of the circuit, configured from nothing.
    pub open spec fn system() -> Shape {
        Self::configured(Shape::empty()).shape
    }

    /// The public value that the circuit is verified against: the first
    /// value of the instance column, or zero where none is given.
    pub open spec fn public(instance: Seq<Seq<Fe>>) -> Fe {
        instance_value(
            instance,
            Cell { column: Column { kind: ColumnKind::Instance, index: 0 }, row: 0 },
        )
    }

    /// Why `run` fails, if it does: the error of laying out the grid, or
    /// else that of the first step of synthesis that is refused.
    pub open spec fn run_error(&self, k: u32, instance: Seq<Seq<Fe>>) -> Option<Error> {
        match new_error(Self::system(), k, instance) {
            Some(e) => Some(Error::Assignment(e)),
            None => match self.synthesized(
                Self::config_for(Shape::empty()),
                Layout::fresh(Self::system(), k, instance),
            ).error {
                Some(e) => Some(Error::Assignment(e)),
                None => None,
            },
        }
    }

    /// Configures the circuit, synthesizes it on a grid of `2^k` rows with
    /// the given instance values, and seals the witness. It succeeds exactly
    /// if `k` is at least 3 and below 31, one instance column is given with
    /// at most `2^k` values, and both inputs are known. Verification of the
    /// witness then succeeds if the public value is
    /// `a^2 + b^2 + a*b*constant`, and for every other public value it
    /// reports one instance mismatch.
    pub fn run(&self, k: u32, instance: Vec<Vec<Fe>>) -> (r: Result<MockProver, Error>)
        ensures
            r is Ok <==> 3 <= k < 31 && instance.len() == 1 && instance[0].len() <= pow2(k as nat)
                && self.a is Known && self.b is Known,
            self.run_error(k, columns_view(instance)) == (match r {
                Ok(_) => None::<Error>,
                Err(e) => Some(e),
            }),
            r matches Ok(p) ==> {
                let public = Self::public(columns_view(instance));
                let out = combined(self.a->Known_0, self.b->Known_0, self.constant);
                &&& p.wf()
                &&& p@ == self.synthesized(
                    Self::config_for(Shape::empty()),
                    Layout::fresh(Self::system(), k, columns_view(instance)),
                ).layout
                &&& p@.verdict() == (if public == out {
                    Ok::<(), VerificationFailure>(())
                } else {
                    Err(
                        VerificationFailure::InstanceMismatch {
                            column: 0,
                            row: 0,
                            expected: public,
                            actual: out,
                        },
                    )
                })
            },
    {
        let mut cs = ConstraintSystem::new();
        let config = match Self::configure(&mut cs) {
            Ok(config) => config,
            Err(e) => {
                return Err(Error::Configuration(e));
            },
        };
        let ghost cols = columns_view(instance);
        let ghost public = Self::public(cols);
        proof {
            lemma2_to64();
            if k < 31 {
                if k < 3 {
                    lemma_pow2_strictly_increases(k as nat, 3);
                } else if k > 3 {
                    lemma_pow2_strictly_increases(3, k as nat);
                }
            }
            assert(cols.len() == instance.len());
            if instance.len() == 1 {
                assert(cols[0] == instance[0]@);
            }
        }
        let mut layouter = match Layouter::new(cs, k, instance) {
            Ok(layouter) => layouter,
            Err(e) => {
                return Err(Error::Assignment(e));
            },
        };
        let ghost fresh = layouter@;
        proof {
            layouter.lemma_wf();
            assert(fresh.sound());
            let c = Cell { column: config.instance, row: 0 };
            assert(fresh.cells.dom().contains(c));
            assert(fresh.cells[c] == public);
            assert(config.square_config.valid(fresh.cs));
            assert(config.add_config.valid(fresh.cs));
            assert(config.mul_config.valid(fresh.cs));
        }
        match self.synthesize(config, &mut layouter) {
            Ok(()) => {},
            Err(e) => {
                return Err(Error::Assignment(e));
            },
        }
        proof {
            layouter.lemma_wf();
            let after = layouter@;
            let result = Cell { column: config.add_config.advice[3], row: 5 };
            let c = Cell { column: config.instance, row: 0 };
            after.lemma_sound_complete();
            after.lemma_sound_failures();
            assert(after.cells.dom().contains(c));
            assert(after.cells[c] == public);
            assert(after.bindings =~= seq![(result, c)]);
            reveal_with_fuel(scan_list, 2);
            assert(after.binding_failures() == scan_list(after.binding_check(), 1));
        }
        match layouter.seal() {
            Ok(p) => Ok(p),
            Err(e) => Err(Error::Assignment(e)),
        }
    }
}

} // verus!
