//! A chip with a square gate and an add gate, and the circuit that proves
//! knowledge of `a` and `b` with `a^2 + b^2` equal to a public value.

use crate::column::{advice_at, Cell, Column, ColumnKind, Rotation, Selector};
use crate::constraint_system::{
    refusal, ConfigStep, ConfigurationError, ConstraintSystem, Gate, Setup, Shape,
};
use crate::error::Error;
use crate::expression::{cell_ref, Expression};
use crate::field::{lemma_successor_differs, prod_mod, sum_mod, Fe};
use crate::gates::{lemma_add_vanishes, lemma_square_vanishes};
use crate::layouter::{
    columns_view, failure, instance_value, new_error, AssignedCell, AssignmentError, Layout,
    Layouter, Progress, Step, Value,
};
use crate::mock_prover::{scan_list, MockProver, VerificationFailure};
use vstd::arithmetic::power2::{lemma2_to64, lemma_pow2_strictly_increases, pow2};
use vstd::prelude::*;

verus! {

/// `a * a - out`, on the current row.
pub open spec fn square_poly(a: Column, out: Column) -> Expression {
    Expression::Sub(
        Box::new(Expression::Mul(Box::new(cell_ref(a, 0)), Box::new(cell_ref(a, 0)))),
        Box::new(cell_ref(out, 0)),
    )
}

/// `a + b - out`, on the current row.
pub open spec fn add_poly(a: Column, b: Column, out: Column) -> Expression {
    Expression::Sub(
        Box::new(Expression::Add(Box::new(cell_ref(a, 0)), Box::new(cell_ref(b, 0)))),
        Box::new(cell_ref(out, 0)),
    )
}

/// The two gates read allocated columns if the chip's columns are allocated.
pub proof fn lemma_polys_ok(cs: Shape, a: Column, b: Column, c: Column)
    requires
        cs.queryable(a),
        cs.queryable(b),
        cs.queryable(c),
    ensures
        cs.expression_ok(square_poly(a, b)),
        cs.expression_ok(add_poly(a, b, c)),
{
    reveal_with_fuel(Shape::expression_ok, 4);
}

/// The columns and selectors of the square-sum chip.
#[derive(Clone, Copy, Debug)]
pub struct SquareSumConfig {
    /// Three advice columns.
    pub advice: [Column; 3],
    /// The instance column.
    pub instance: Column,
    /// Guards the square gate.
    pub s_square: Selector,
    /// Guards the add gate.
    pub s_add: Selector,
}

impl SquareSumConfig {
    /// The polynomial of every gate that a selector of the chip guards.
    pub open spec fn poly_of(self, s: Selector) -> Expression {
        if s == self.s_square {
            square_poly(self.advice[0], self.advice[1])
        } else {
            add_poly(self.advice[0], self.advice[1], self.advice[2])
        }
    }

    /// Whether a selector is one of the chip's.
    pub open spec fn owns(self, s: Selector) -> bool {
        s == self.s_square || s == self.s_add
    }

    /// The configuration fits a constraint system: its columns are allocated
    /// with equality enabled, its selectors are allocated, and they guard the
    /// square gate and the add gate and nothing else.
    pub open spec fn valid(self, cs: Shape) -> bool {
        &&& SquareSumChip::columns_fit(self.advice, self.instance)
        &&& forall|k: int|
            0 <= k < 3 ==> cs.has_column(#[trigger] self.advice[k]) && cs.equality(self.advice[k])
        &&& cs.has_column(self.instance)
        &&& cs.equality(self.instance)
        &&& self.s_square.index < cs.selectors
        &&& self.s_add.index < cs.selectors
        &&& self.s_square != self.s_add
        &&& forall|i: int|
            0 <= i < cs.gates.len() && self.owns((#[trigger] cs.gates[i]).selector)
                ==> cs.gates[i].poly == self.poly_of(cs.gates[i].selector)
        &&& forall|i: int|
            0 <= i < cs.lookups.len() ==> !self.owns((#[trigger] cs.lookups[i]).selector)
    }
}

/// The square-sum chip.
#[derive(Clone, Copy, Debug)]
pub struct SquareSumChip {
    pub config: SquareSumConfig,
}

impl SquareSumChip {
    /// A chip with the given configuration.
    pub fn construct(config: SquareSumConfig) -> (chip: SquareSumChip)
        ensures
            chip.config == config,
    {
        SquareSumChip { config }
    }

    /// The configuration that the chip was made with.
    pub fn config(&self) -> (c: &SquareSumConfig)
        ensures
            *c == self.config,
    {
        &self.config
    }

    /// The chip holds no loaded state.
    pub fn loaded(&self) {
    }

    /// The configuration that `configure` returns on success.
    pub open spec fn config_for(cs: Shape, advice: [Column; 3], instance: Column) -> SquareSumConfig {
        SquareSumConfig {
            advice,
            instance,
            s_square: cs.next_selector(),
            s_add: Selector { index: (cs.selectors + 1) as usize },
        }
    }

    /// The configuration steps of the chip: equality on the instance column
    /// and on the three advice columns, two selectors, the square gate and
    /// the add gate.
    pub open spec fn configuring(s: Setup, advice: [Column; 3], instance: Column) -> Setup {
        let config = Self::config_for(s.shape, advice, instance);
        s.next(ConfigStep::Equality(instance)).next(ConfigStep::Equality(advice[0])).next(
            ConfigStep::Equality(advice[1]),
        ).next(ConfigStep::Equality(advice[2])).next(ConfigStep::Selector).next(
            ConfigStep::Selector,
        ).next(
            ConfigStep::Gate(
                Gate {
                    name: "square",
                    selector: config.s_square,
                    poly: square_poly(advice[0], advice[1]),
                },
            ),
        ).next(
            ConfigStep::Gate(
                Gate {
                    name: "add",
                    selector: config.s_add,
                    poly: add_poly(advice[0], advice[1], advice[2]),
                },
            ),
        )
    }

    /// Whether the columns are three different advice columns and an
    /// instance column.
    pub open spec fn columns_fit(advice: [Column; 3], instance: Column) -> bool {
        &&& forall|k: int| 0 <= k < 3 ==> (#[trigger] advice[k]).kind == ColumnKind::Advice
        &&& advice[0] != advice[1]
        &&& advice[0] != advice[2]
        &&& advice[1] != advice[2]
        &&& instance.kind == ColumnKind::Instance
    }

    /// Registers the chip's constraints: it enables equality on its columns,
    /// allocates its two selectors and creates the square gate and the add
    /// gate. It succeeds exactly if the system is not sealed, the columns are
    /// allocated and two selectors are left; the first step that is refused
    /// ends it with that step's error.
    #[verifier::rlimit(60)]
    pub fn configure(meta: &mut ConstraintSystem, advice: [Column; 3], instance: Column) -> (r:
        Result<SquareSumConfig, ConfigurationError>)
        ensures
            (Setup { shape: final(meta)@, error: refusal(r) }) == Self::configuring(
                old(meta)@.begin(),
                advice,
                instance,
            ),
            r matches Ok(config) ==> config == Self::config_for(old(meta)@, advice, instance) && (
            old(meta)@.wf() && Self::columns_fit(advice, instance) ==> config.valid(final(meta)@)
                && old(meta)@.precedes(final(meta)@)),
            r is Ok <==> !old(meta)@.sealed && old(meta)@.queryable(instance) && (forall|k: int|
                0 <= k < 3 ==> old(meta)@.queryable(#[trigger] advice[k])) && old(meta)@.selectors
                + 2 <= usize::MAX,
            r is Ok ==> old(meta)@.grown(final(meta)@, 2),
            old(meta)@.wf() ==> final(meta)@.wf(),
    {
        meta.enable_equality(instance)?;
        meta.enable_equality(advice[0])?;
        meta.enable_equality(advice[1])?;
        meta.enable_equality(advice[2])?;
        let s_square = meta.selector()?;
        let s_add = meta.selector()?;

        let a = Expression::query(advice[0], Rotation::cur());
        let a_squared = Expression::query(advice[1], Rotation::cur());
        proof {
            lemma_polys_ok(meta@, advice[0], advice[1], advice[2]);
        }
        meta.create_gate("square", s_square, a.duplicate().mul(a).sub(a_squared))?;

        let a = Expression::query(advice[0], Rotation::cur());
        let b = Expression::query(advice[1], Rotation::cur());
        let c = Expression::query(advice[2], Rotation::cur());
        proof {
            lemma_polys_ok(meta@, advice[0], advice[1], advice[2]);
        }
        meta.create_gate("add", s_add, a.add(b).sub(c))?;

        Ok(SquareSumConfig { advice, instance, s_square, s_add })
    }

    /// The steps of `load_private`: a new region, and the value in the first
    /// advice column on its first row.
    pub open spec fn loading(&self, p: Progress, value: Value) -> Progress {
        p.next(Step::Region("load private")).next(
            Step::Assign(ColumnKind::Advice, self.config.advice[0], 0, value),
        )
    }

    /// Loads a private input into a region of its own. With a configuration
    /// that fits, it succeeds exactly if the value is known and a row is
    /// left, and a witness that met its constraints still does so.
    pub fn load_private(&self, layouter: &mut Layouter, value: Value) -> (r: Result<
        AssignedCell,
        AssignmentError,
    >)
        requires
            old(layouter).wf(),
        ensures
            final(layouter).wf(),
            (Progress { layout: final(layouter)@, error: failure(r) }) == self.loading(
                old(layouter)@.begin(),
                value,
            ),
            r matches Ok(out) ==> out == (AssignedCell {
                cell: old(layouter)@.frontier_cell(self.config.advice[0]),
                value,
            }) && old(layouter)@.advanced(final(layouter)@, out, 1),
            self.config.valid(old(layouter)@.cs) ==> (r is Ok <==> value is Known && old(
                layouter,
            )@.frontier() < old(layouter)@.rows),
            r is Ok && old(layouter)@.sound() ==> final(layouter)@.sound(),
    {
        proof {
            reveal(Layout::step);
            old(layouter).lemma_wf();
        }
        layouter.assign_region("load private");
        let out = layouter.assign_advice(self.config.advice[0], 0, value)?;
        proof {
            let before = old(layouter)@;
            let after = layouter@;
            assert(before.extends(after));
            if before.sound() {
                before.lemma_sound_extends(after);
            }
        }
        Ok(out)
    }

    /// The steps of `square`: a new region with the square selector on, a
    /// copy of the input in the first advice column and its square in the
    /// second.
    pub open spec fn squaring(&self, p: Progress, value: AssignedCell) -> Progress {
        let config = self.config;
        p.next(Step::Region("square")).next(Step::Enable(config.s_square, 0)).next(
            Step::Copy(value.cell, config.advice[0], 0),
        ).next(
            Step::Assign(ColumnKind::Advice, config.advice[1], 0, value.value.times(value.value)),
        )
    }

    /// Squares a value in a region of its own. With a configuration that
    /// fits and an input that can be copied, it succeeds exactly if a row is
    /// left, and a witness that met its constraints still does so.
    pub fn square(&self, layouter: &mut Layouter, value: AssignedCell) -> (r: Result<
        AssignedCell,
        AssignmentError,
    >)
        requires
            old(layouter).wf(),
        ensures
            final(layouter).wf(),
            (Progress { layout: final(layouter)@, error: failure(r) }) == self.squaring(
                old(layouter)@.begin(),
                value,
            ),
            r matches Ok(out) ==> out == (AssignedCell {
                cell: old(layouter)@.frontier_cell(self.config.advice[1]),
                value: value.value.times(value.value),
            }) && old(layouter)@.advanced(final(layouter)@, out, 1),
            self.config.valid(old(layouter)@.cs) && old(layouter)@.copyable(value) ==> (r is Ok
                <==> old(layouter)@.frontier() < old(layouter)@.rows),
            r is Ok && self.config.valid(old(layouter)@.cs) && old(layouter)@.holds(value) && old(
                layouter,
            )@.sound() ==> final(layouter)@.sound(),
    {
        proof {
            reveal(Layout::step);
            old(layouter).lemma_wf();
        }
        layouter.assign_region("square");
        layouter.enable_selector(self.config.s_square, 0)?;
        value.copy_advice(layouter, self.config.advice[0], 0)?;
        let value_squared = value.value().square();
        let out = layouter.assign_advice(self.config.advice[1], 0, value_squared)?;
        proof {
            let before = old(layouter)@;
            let after = layouter@;
            let config = self.config;
            assert(before.extends(after));
            if config.valid(before.cs) && before.holds(value) && before.sound() {
                let row = before.frontier() as int;
                let v = before.cells[value.cell].value();
                Fe::lemma_value_of(prod_mod(v, v));
                lemma_square_vanishes(
                    config.poly_of(config.s_square),
                    after.cells,
                    row,
                    Cell { column: config.advice[0], row: row as usize },
                    Cell { column: config.advice[1], row: row as usize },
                    0,
                );
                before.lemma_sound_one_gate(
                    after,
                    config.s_square,
                    row,
                    config.poly_of(config.s_square),
                );
            }
        }
        Ok(out)
    }

    /// The steps of `add`: a new region with the add selector on, copies of
    /// the two inputs in the first two advice columns and their sum in the
    /// third.
    pub open spec fn adding(&self, p: Progress, a: AssignedCell, b: AssignedCell) -> Progress {
        let config = self.config;
        p.next(Step::Region("add")).next(Step::Enable(config.s_add, 0)).next(
            Step::Copy(a.cell, config.advice[0], 0),
        ).next(Step::Copy(b.cell, config.advice[1], 0)).next(
            Step::Assign(ColumnKind::Advice, config.advice[2], 0, a.value.plus(b.value)),
        )
    }

    /// Adds two values in a region of its own. With a configuration that
    /// fits and inputs that can be copied, it succeeds exactly if a row is
    /// left, and a witness that met its constraints still does so.
    pub fn add(&self, layouter: &mut Layouter, a: AssignedCell, b: AssignedCell) -> (r: Result<
        AssignedCell,
        AssignmentError,
    >)
        requires
            old(layouter).wf(),
        ensures
            final(layouter).wf(),
            (Progress { layout: final(layouter)@, error: failure(r) }) == self.adding(
                old(layouter)@.begin(),
                a,
                b,
            ),
            r matches Ok(out) ==> out == (AssignedCell {
                cell: old(layouter)@.frontier_cell(self.config.advice[2]),
                value: a.value.plus(b.value),
            }) && old(layouter)@.advanced(final(layouter)@, out, 1),
            self.config.valid(old(layouter)@.cs) && old(layouter)@.copyable(a) && old(
                layouter,
            )@.copyable(b) ==> (r is Ok <==> old(layouter)@.frontier() < old(layouter)@.rows),
            r is Ok && self.config.valid(old(layouter)@.cs) && old(layouter)@.holds(a) && old(
                layouter,
            )@.holds(b) && old(layouter)@.sound() ==> final(layouter)@.sound(),
    {
        proof {
            reveal(Layout::step);
            old(layouter).lemma_wf();
        }
        layouter.assign_region("add");
        layouter.enable_selector(self.config.s_add, 0)?;
        a.copy_advice(layouter, self.config.advice[0], 0)?;
        b.copy_advice(layouter, self.config.advice[1], 0)?;
        let sum = a.value().add(&b.value());
        let out = layouter.assign_advice(self.config.advice[2], 0, sum)?;
        proof {
            let before = old(layouter)@;
            let after = layouter@;
            let config = self.config;
            assert(before.extends(after));
            if config.valid(before.cs) && before.holds(a) && before.holds(b) && before.sound() {
                let row = before.frontier() as int;
                let x = before.cells[a.cell].value();
                let y = before.cells[b.cell].value();
                Fe::lemma_value_of(sum_mod(x, y));
                lemma_add_vanishes(
                    config.poly_of(config.s_add),
                    after.cells,
                    row,
                    Cell { column: config.advice[0], row: row as usize },
                    Cell { column: config.advice[1], row: row as usize },
                    Cell { column: config.advice[2], row: row as usize },
                );
                before.lemma_sound_one_gate(after, config.s_add, row, config.poly_of(config.s_add));
            }
        }
        Ok(out)
    }

    /// Binds a cell to a row of the instance column. With a configuration
    /// that fits and a cell that can be copied, it succeeds exactly if the
    /// row lies in the grid.
    pub fn expose_public(&self, layouter: &mut Layouter, cell: AssignedCell, row: usize) -> (r:
        Result<(), AssignmentError>)
        requires
            old(layouter).wf(),
        ensures
            final(layouter).wf(),
            (final(layouter)@, failure(r)) == old(layouter)@.step(
                Step::Bind(cell.cell, self.config.instance, row),
            ),
            self.config.valid(old(layouter)@.cs) && old(layouter)@.copyable(cell) ==> (r is Ok
                <==> row < old(layouter)@.rows),
            r is Ok ==> old(layouter)@.bound(
                final(layouter)@,
                cell.cell,
                Cell { column: self.config.instance, row },
            ),
    {
        proof {
            reveal(Layout::step);
        }
        layouter.constrain_instance(cell.cell(), self.config.instance, row)
    }
}

/// The circuit that proves knowledge of `a` and `b` with `a^2 + b^2` equal to
/// the public value on the first row of the instance column.
#[derive(Clone, Copy, Debug)]
pub struct SquareSumCircuit {
    pub a: Value,
    pub b: Value,
}

impl Default for SquareSumCircuit {
    fn default() -> (c: SquareSumCircuit)
        ensures
            c == (SquareSumCircuit { a: Value::Unknown, b: Value::Unknown }),
    {
        SquareSumCircuit { a: Value::Unknown, b: Value::Unknown }
    }
}

/// `a^2 + b^2` in the field.
pub open spec fn square_sum(a: Fe, b: Fe) -> Fe {
    Fe::of(sum_mod(prod_mod(a.value(), a.value()), prod_mod(b.value(), b.value())))
}

impl SquareSumCircuit {
    /// The circuit without its witnesses.
    pub fn without_witnesses(&self) -> (c: SquareSumCircuit)
        ensures
            c == (SquareSumCircuit { a: Value::Unknown, b: Value::Unknown }),
    {
        SquareSumCircuit { a: Value::Unknown, b: Value::Unknown }
    }

    /// The three advice columns that `configure` allocates.
    pub open spec fn advice_for(cs: Shape) -> [Column; 3] {
        let n = cs.advice.len();
        [advice_at(n), advice_at(n + 1), advice_at(n + 2)]
    }

    /// The configuration that `configure` returns on success.
    pub open spec fn config_for(cs: Shape) -> SquareSumConfig {
        SquareSumChip::config_for(
            cs,
            Self::advice_for(cs),
            cs.next_column(ColumnKind::Instance),
        )
    }

    /// The configuration steps of the circuit: three advice columns, an
    /// instance column, and the steps of the chip.
    pub open spec fn configured(cs: Shape) -> Setup {
        let columns = cs.begin().next(ConfigStep::Column(ColumnKind::Advice)).next(
            ConfigStep::Column(ColumnKind::Advice),
        ).next(ConfigStep::Column(ColumnKind::Advice)).next(
            ConfigStep::Column(ColumnKind::Instance),
        );
        SquareSumChip::configuring(
            columns,
            Self::advice_for(cs),
            cs.next_column(ColumnKind::Instance),
        )
    }

    /// Allocates the circuit's columns and configures its chip. It succeeds
    /// exactly if the system is not sealed and has room for three advice
    /// columns, an instance column and two selectors; then the configuration
    /// fits the system.
    pub fn configure(meta: &mut ConstraintSystem) -> (r: Result<
        SquareSumConfig,
        ConfigurationError,
    >)
        ensures
            (Setup { shape: final(meta)@, error: refusal(r) }) == Self::configured(old(meta)@),
            r matches Ok(config) ==> config == Self::config_for(old(meta)@) && (old(meta)@.wf()
                ==> config.valid(final(meta)@) && old(meta)@.precedes(final(meta)@)),
            r is Ok <==> !old(meta)@.sealed && old(meta)@.advice.len() + 3 <= usize::MAX && old(
                meta,
            )@.instance.len() < usize::MAX && old(meta)@.selectors + 2 <= usize::MAX,
            r is Ok ==> final(meta)@.advice.len() == old(meta)@.advice.len() + 3 && final(meta)@.instance.len() == old(meta)@.instance.len() + 1 && final(meta)@.fixed.len() == old(
                meta,
            )@.fixed.len() && final(meta)@.tables == old(meta)@.tables,
            old(meta)@.wf() ==> final(meta)@.wf(),
    {
        let a0 = meta.advice_column()?;
        let a1 = meta.advice_column()?;
        let a2 = meta.advice_column()?;
        let advice = [a0, a1, a2];
        let instance = meta.instance_column()?;
        assert(advice == Self::advice_for(old(meta)@));
        let ghost middle = meta@;
        let r = SquareSumChip::configure(meta, advice, instance);
        proof {
            if r is Ok {
                middle.lemma_same_widths(meta@);
                if old(meta)@.wf() {
                    assert(old(meta)@.precedes(middle));
                    old(meta)@.lemma_precedes_transitive(middle, meta@);
                }
            }
        }
        r
    }

    /// The steps of `synthesize`: both inputs loaded, both squared, the
    /// squares added, and the sum bound to the first row of the instance
    /// column.
    pub open spec fn synthesized(&self, config: SquareSumConfig, l: Layout) -> Progress {
        let chip = SquareSumChip { config };
        let p0 = l.begin();
        let a = AssignedCell { cell: p0.layout.frontier_cell(config.advice[0]), value: self.a };
        let p1 = chip.loading(p0, self.a);
        let b = AssignedCell { cell: p1.layout.frontier_cell(config.advice[0]), value: self.b };
        let p2 = chip.loading(p1, self.b);
        let a2 = AssignedCell {
            cell: p2.layout.frontier_cell(config.advice[1]),
            value: self.a.times(self.a),
        };
        let p3 = chip.squaring(p2, a);
        let b2 = AssignedCell {
            cell: p3.layout.frontier_cell(config.advice[1]),
            value: self.b.times(self.b),
        };
        let p4 = chip.squaring(p3, b);
        let sum = p4.layout.frontier_cell(config.advice[2]);
        let p5 = chip.adding(p4, a2, b2);
        p5.next(Step::Bind(sum, config.instance, 0))
    }

    /// Lays the circuit out: it loads `a` and `b`, squares both, adds the
    /// squares and binds the sum to the first row of the instance column.
    /// With a configuration that fits, it succeeds exactly if both inputs
    /// are known and five rows are left; then a witness that met its
    /// constraints still does so, and the one binding added is that of the
    /// cell that holds `a^2 + b^2`.
    #[verifier::rlimit(60)]
    pub fn synthesize(&self, config: SquareSumConfig, layouter: &mut Layouter) -> (r: Result<
        (),
        AssignmentError,
    >)
        requires
            old(layouter).wf(),
        ensures
            final(layouter).wf(),
            (Progress { layout: final(layouter)@, error: failure(r) }) == self.synthesized(
                config,
                old(layouter)@,
            ),
            config.valid(old(layouter)@.cs) ==> (r is Ok <==> self.a is Known && self.b is Known
                && old(layouter)@.frontier() + 5 <= old(layouter)@.rows),
            r is Ok && config.valid(old(layouter)@.cs) ==> {
                let sum = Cell {
                    column: config.advice[2],
                    row: (old(layouter)@.frontier() + 4) as usize,
                };
                &&& old(layouter)@.extends(final(layouter)@)
                &&& final(layouter)@.bindings == old(layouter)@.bindings.push(
                    (sum, Cell { column: config.instance, row: 0 }),
                )
                &&& final(layouter)@.cells[sum] == square_sum(self.a->Known_0, self.b->Known_0)
                &&& old(layouter)@.sound() ==> final(layouter)@.sound()
            },
    {
        let chip = SquareSumChip::construct(config);
        let ghost l0 = layouter@;
        let a = chip.load_private(layouter, self.a)?;
        let ghost l1 = layouter@;
        let b = chip.load_private(layouter, self.b)?;
        let ghost l2 = layouter@;
        proof {
            l1.lemma_holds_later(l2, a);
        }
        let a_squared = chip.square(layouter, a)?;
        let ghost l3 = layouter@;
        proof {
            l2.lemma_holds_later(l3, b);
        }
        let b_squared = chip.square(layouter, b)?;
        let ghost l4 = layouter@;
        proof {
            l3.lemma_holds_later(l4, a_squared);
        }
        let result = chip.add(layouter, a_squared, b_squared)?;
        let ghost l5 = layouter@;
        let r = chip.expose_public(layouter, result, 0);
        proof {
            if r is Ok {
                l0.lemma_extends_transitive(l1, l2);
                l0.lemma_extends_transitive(l2, l3);
                l0.lemma_extends_transitive(l3, l4);
                l0.lemma_extends_transitive(l4, l5);
                l0.lemma_extends_transitive(l5, layouter@);
                if config.valid(l0.cs) {
                    let av = (self.a->Known_0).value();
                    let bv = (self.b->Known_0).value();
                    Fe::lemma_value_of(prod_mod(av, av));
                    Fe::lemma_value_of(prod_mod(bv, bv));
                }
            }
        }
        r
    }

    /// The constraint system of the circuit, configured from nothing.
    pub open spec fn system() -> Shape {
        Self::configured(Shape::empty()).shape
    }

    /// The public value that the circuit is verified against: the first
    /// value of the instance column, or zero where none is given.
    pub open spec fn public(instance: Seq<Seq<Fe>>) -> Fe {
        instance_value(
            instance,
            Cell { column: Column { kind: ColumnKind::Instance, index: 0 }, row: 0 },
        )
    }

    /// Why `run` fails, if it does: the error of laying out the grid, or
    /// else that of the first step of synthesis that is refused.
    pub open spec fn run_error(&self, k: u32, instance: Seq<Seq<Fe>>) -> Option<Error> {
        match new_error(Self::system(), k, instance) {
            Some(e) => Some(Error::Assignment(e)),
            None => match self.synthesized(
                Self::config_for(Shape::empty()),
                Layout::fresh(Self::system(), k, instance),
            ).error {
                Some(e) => Some(Error::Assignment(e)),
                None => None,
            },
        }
    }

    /// Configures the circuit, synthesizes it on a grid of `2^k` rows with
    /// the given instance values, and seals the witness. It succeeds exactly
    /// if `k` is at least 3 and below 31, one instance column is given with
    /// at most `2^k` values, and both inputs are known. Verification of the
    /// witness then succeeds if the public value is `a^2 + b^2`, and else
    /// reports one instance mismatch, as it does for `a^2 + b^2 + 1`.
    pub fn run(&self, k: u32, instance: Vec<Vec<Fe>>) -> (r: Result<MockProver, Error>)
        ensures
            r is Ok <==> 3 <= k < 31 && instance.len() == 1 && instance[0].len() <= pow2(k as nat)
                && self.a is Known && self.b is Known,
            self.run_error(k, columns_view(instance)) == (match r {
                Ok(_) => None::<Error>,
                Err(e) => Some(e),
            }),
            r matches Ok(p) ==> {
                let public = Self::public(columns_view(instance));
                let sum = square_sum(self.a->Known_0, self.b->Known_0);
                &&& p.wf()
                &&& p@ == self.synthesized(
                    Self::config_for(Shape::empty()),
                    Layout::fresh(Self::system(), k, columns_view(instance)),
                ).layout
                &&& p@.verdict() == (if public == sum {
                    Ok::<(), VerificationFailure>(())
                } else {
                    Err(
                        VerificationFailure::InstanceMismatch {
                            column: 0,
                            row: 0,
                            expected: public,
                            actual: sum,
                        },
                    )
                })
                &&& public == Fe::of(sum_mod(sum.value(), 1)) ==> p@.verdict() is Err
            },
    {
        let mut cs = ConstraintSystem::new();
        let config = match Self::configure(&mut cs) {
            Ok(config) => config,
            Err(e) => {
                return Err(Error::Configuration(e));
            },
        };
        let ghost cols = columns_view(instance);
        let ghost public = Self::public(cols);
        proof {
            lemma2_to64();
            if k < 31 {
                if k < 3 {
                    lemma_pow2_strictly_increases(k as nat, 3);
                } else if k > 3 {
                    lemma_pow2_strictly_increases(3, k as nat);
                }
            }
            assert(cols.len() == instance.len());
            if instance.len() == 1 {
                assert(cols[0] == instance[0]@);
            }
        }
        let mut layouter = match Layouter::new(cs, k, instance) {
            Ok(layouter) => layouter,
            Err(e) => {
                return Err(Error::Assignment(e));
            },
        };
        let ghost fresh = layouter@;
        proof {
            layouter.lemma_wf();
            assert(fresh.sound());
            let c = Cell { column: config.instance, row: 0 };
            assert(fresh.cells.dom().contains(c));
            assert(fresh.cells[c] == public);
        }
        match self.synthesize(config, &mut layouter) {
            Ok(()) => {},
            Err(e) => {
                return Err(Error::Assignment(e));
            },
        }
        proof {
            layouter.lemma_wf();
            let after = layouter@;
            let av = self.a->Known_0;
            let bv = self.b->Known_0;
            let sum = Cell { column: config.advice[2], row: 4 };
            let c = Cell { column: config.instance, row: 0 };
            after.lemma_sound_complete();
            after.lemma_sound_failures();
            assert(after.cells.dom().contains(c));
            assert(after.cells[c] == public);
            assert(after.bindings =~= seq![(sum, c)]);
            reveal_with_fuel(scan_list, 2);
            assert(after.binding_failures() == scan_list(after.binding_check(), 1));
            Fe::lemma_value_of(
                sum_mod(prod_mod(av.value(), av.value()), prod_mod(bv.value(), bv.value())),
            );
            lemma_successor_differs(square_sum(av, bv).value());
            if public == Fe::of(sum_mod(square_sum(av, bv).value(), 1)) {
                Fe::lemma_value_of(sum_mod(square_sum(av, bv).value(), 1));
            }
        }
        match layouter.seal() {
            Ok(p) => Ok(p),
            Err(e) => Err(Error::Assignment(e)),
        }
    }
}

} // verus!
