//! Two ways to check that a value lies in `[0, 2^32)`: four byte limbs, each
//! looked up in a table of 256 rows, or thirty-two bit limbs, each held to 0
//! or 1 by a gate of its own.

use crate::column::{advice_at, Cell, Column, ColumnKind, Rotation, Selector};
use crate::constraint_system::{
    refusal, ConfigStep, ConfigurationError, ConstraintSystem, Gate, Lookup, Setup, Shape,
};
use crate::error::Error;
use crate::expression::{cell_ref, lemma_cell_ref, Expression};
use crate::field::{
    diff_mod, lemma_diff_self, lemma_modulus_large, lemma_residue, prod_mod, sum_mod, Fe,
};
use crate::layouter::{
    columns_view, failure, new_error, AssignedCell, AssignmentError, Layout, Layouter, Progress,
    Step, Value,
};
use crate::mock_prover::{MockProver, VerificationFailure};
use vstd::arithmetic::power2::{lemma2_to64, lemma_pow2_strictly_increases, pow2};
use vstd::prelude::*;

verus! {

/// The number of rows of the byte table.
pub const BYTE_TABLE_ROWS: usize = 256;

/// `value - (b0 + b1 * 2^8 + b2 * 2^16 + b3 * 2^24)`, on the current row.
pub open spec fn decomposition_poly(value: Column, bytes: [Column; 4]) -> Expression {
    let shifted = |k: int, weight: nat|
        Expression::Mul(
            Box::new(cell_ref(bytes[k], 0)),
            Box::new(Expression::Constant(Fe::of(weight))),
        );
    Expression::Sub(
        Box::new(cell_ref(value, 0)),
        Box::new(
            Expression::Add(
                Box::new(
                    Expression::Add(
                        Box::new(
                            Expression::Add(
                                Box::new(cell_ref(bytes[0], 0)),
                                Box::new(shifted(1, 0x100)),
                            ),
                        ),
                        Box::new(shifted(2, 0x1_0000)),
                    ),
                ),
                Box::new(shifted(3, 0x100_0000)),
            ),
        ),
    )
}

/// The byte of a 32-bit value with the given index, the least significant
/// first.
pub open spec fn byte_of(value: u32, k: int) -> nat {
    ((value >> ((8 * k) as u32)) & 0xFF) as nat
}

/// The four bytes of a 32-bit value are below 256 and spell the value.
pub proof fn lemma_bytes(value: u32)
    ensures
        forall|k: int| 0 <= k < 4 ==> #[trigger] byte_of(value, k) < 256,
        value == byte_of(value, 0) + byte_of(value, 1) * 0x100 + byte_of(value, 2) * 0x1_0000
            + byte_of(value, 3) * 0x100_0000,
{
    let b0 = (value >> 0u32) & 0xFF;
    let b1 = (value >> 8u32) & 0xFF;
    let b2 = (value >> 16u32) & 0xFF;
    let b3 = (value >> 24u32) & 0xFF;
    assert(b0 < 256 && b1 < 256 && b2 < 256 && b3 < 256 && value == b0 + b1 * 0x100 + b2 * 0x1_0000
        + b3 * 0x100_0000) by (bit_vector)
        requires
            b0 == (value >> 0u32) & 0xFF,
            b1 == (value >> 8u32) & 0xFF,
            b2 == (value >> 16u32) & 0xFF,
            b3 == (value >> 24u32) & 0xFF,
    ;
    assert(byte_of(value, 0) == b0);
    assert(byte_of(value, 1) == b1);
    assert(byte_of(value, 2) == b2);
    assert(byte_of(value, 3) == b3);
    assert forall|k: int| 0 <= k < 4 implies #[trigger] byte_of(value, k) < 256 by {
        if k == 0 {
        } else if k == 1 {
        } else if k == 2 {
        } else {
            assert(k == 3);
        }
    }
}

/// The decomposition gate vanishes on a row that holds a 32-bit value and
/// its four bytes.
pub proof fn lemma_decomposition_vanishes(
    cells: Map<Cell, Fe>,
    row: int,
    value_column: Column,
    bytes: [Column; 4],
    value: u32,
)
    requires
        0 <= row <= usize::MAX,
        cells.contains_key(Cell { column: value_column, row: row as usize }),
        cells[Cell { column: value_column, row: row as usize }].value() == value,
        forall|k: int|
            0 <= k < 4 ==> cells.contains_key(Cell { column: #[trigger] bytes[k], row: row as usize })
                && cells[Cell { column: bytes[k], row: row as usize }].value() == byte_of(value, k),
    ensures
        decomposition_poly(value_column, bytes).defined(cells, row),
        decomposition_poly(value_column, bytes).eval(cells, row) == 0,
{
    reveal_with_fuel(Expression::eval, 6);
    reveal_with_fuel(Expression::defined, 6);
    lemma_bytes(value);
    lemma_modulus_large();
    let b0 = byte_of(value, 0);
    let b1 = byte_of(value, 1);
    let b2 = byte_of(value, 2);
    let b3 = byte_of(value, 3);
    assert(cells.contains_key(Cell { column: bytes[0], row: row as usize }));
    assert(cells.contains_key(Cell { column: bytes[1], row: row as usize }));
    assert(cells.contains_key(Cell { column: bytes[2], row: row as usize }));
    assert(cells.contains_key(Cell { column: bytes[3], row: row as usize }));
    lemma_cell_ref(cells, value_column, 0, row);
    lemma_cell_ref(cells, bytes[0], 0, row);
    lemma_cell_ref(cells, bytes[1], 0, row);
    lemma_cell_ref(cells, bytes[2], 0, row);
    lemma_cell_ref(cells, bytes[3], 0, row);
    Fe::lemma_value_of(0x100);
    Fe::lemma_value_of(0x1_0000);
    Fe::lemma_value_of(0x100_0000);
    lemma_residue(b1 * 0x100);
    lemma_residue(b2 * 0x1_0000);
    lemma_residue(b3 * 0x100_0000);
    lemma_residue(b0 + b1 * 0x100);
    lemma_residue(b0 + b1 * 0x100 + b2 * 0x1_0000);
    lemma_residue(b0 + b1 * 0x100 + b2 * 0x1_0000 + b3 * 0x100_0000);
    lemma_diff_self(value as nat);
}

/// The columns and selectors of the byte-decomposition range check.
#[derive(Clone, Copy, Debug)]
pub struct BitDecompositionConfig {
    /// The column of the value.
    pub value: Column,
    /// The columns of the four bytes, the least significant first.
    pub bytes: [Column; 4],
    /// The lookup table of the values 0 to 255.
    pub byte_table: Column,
    /// Guards the decomposition gate.
    pub s_decomp: Selector,
    /// Guards the lookups of the bytes.
    pub s_lookup: Selector,
}

impl BitDecompositionConfig {
    /// Whether the columns are five different advice columns and a
    /// lookup-table column.
    pub open spec fn columns_fit(value: Column, bytes: [Column; 4], byte_table: Column) -> bool {
        &&& value.kind == ColumnKind::Advice
        &&& forall|k: int|
            0 <= k < 4 ==> (#[trigger] bytes[k]).kind == ColumnKind::Advice && bytes[k] != value
        &&& forall|j: int, k: int| 0 <= j < k < 4 ==> bytes[j] != bytes[k]
        &&& byte_table.kind == ColumnKind::LookupTable
    }

    /// The configuration fits a constraint system: its columns are
    /// allocated, its selectors are allocated, the one guards the
    /// decomposition gate and nothing else, and the other guards lookups of
    /// the byte columns in the byte table and nothing else.
    pub open spec fn valid(self, cs: Shape) -> bool {
        &&& Self::columns_fit(self.value, self.bytes, self.byte_table)
        &&& cs.has_column(self.value)
        &&& forall|k: int| 0 <= k < 4 ==> cs.has_column(#[trigger] self.bytes[k])
        &&& cs.has_column(self.byte_table)
        &&& self.s_decomp.index < cs.selectors
        &&& self.s_lookup.index < cs.selectors
        &&& self.s_decomp != self.s_lookup
        &&& forall|i: int|
            0 <= i < cs.gates.len() ==> (#[trigger] cs.gates[i]).selector != self.s_lookup && (
            cs.gates[i].selector == self.s_decomp ==> cs.gates[i].poly == decomposition_poly(
                self.value,
                self.bytes,
            ))
        &&& forall|i: int|
            0 <= i < cs.lookups.len() ==> (#[trigger] cs.lookups[i]).selector != self.s_decomp && (
            cs.lookups[i].selector == self.s_lookup ==> cs.lookups[i].table == self.byte_table
                && exists|k: int|
                0 <= k < 4 && cs.lookups[i].input == cell_ref(#[trigger] self.bytes[k], 0))
    }

    /// Whether the byte table holds every value from 0 to 255.
    pub open spec fn table_loaded(self, l: Layout) -> bool {
        forall|v: nat| v < 256 ==> #[trigger] l.table_has(self.byte_table, v)
    }

    /// The configuration that `configure` returns on success.
    pub open spec fn config_for(
        cs: Shape,
        value: Column,
        bytes: [Column; 4],
        byte_table: Column,
    ) -> BitDecompositionConfig {
        BitDecompositionConfig {
            value,
            bytes,
            byte_table,
            s_decomp: cs.next_selector(),
            s_lookup: Selector { index: (cs.selectors + 1) as usize },
        }
    }

    /// The lookup of one byte column in the byte table.
    pub open spec fn byte_lookup(self, k: int) -> Lookup {
        Lookup {
            name: "byte_lookup",
            selector: self.s_lookup,
            input: cell_ref(self.bytes[k], 0),
            table: self.byte_table,
        }
    }

    /// The configuration steps of the range check: two selectors, equality
    /// on the value column and on the four byte columns, the decomposition
    /// gate, and one lookup for each byte column.
    pub open spec fn configuring(
        s: Setup,
        value: Column,
        bytes: [Column; 4],
        byte_table: Column,
    ) -> Setup {
        let config = Self::config_for(s.shape, value, bytes, byte_table);
        s.next(ConfigStep::Selector).next(ConfigStep::Selector).next(
            ConfigStep::Equality(value),
        ).next(ConfigStep::Equality(bytes[0])).next(ConfigStep::Equality(bytes[1])).next(
            ConfigStep::Equality(bytes[2]),
        ).next(ConfigStep::Equality(bytes[3])).next(
            ConfigStep::Gate(
                Gate {
                    name: "bit_decomposition",
                    selector: config.s_decomp,
                    poly: decomposition_poly(value, bytes),
                },
            ),
        ).next(ConfigStep::Lookup(config.byte_lookup(0))).next(
            ConfigStep::Lookup(config.byte_lookup(1)),
        ).next(ConfigStep::Lookup(config.byte_lookup(2))).next(
            ConfigStep::Lookup(config.byte_lookup(3)),
        )
    }

    /// Gate and lookups read allocated columns if the value column
    /// and the byte columns are allocated.
    pub proof fn lemma_polys_ok(cs: Shape, value: Column, bytes: [Column; 4])
        requires
            cs.queryable(value),
            forall|k: int| 0 <= k < 4 ==> cs.queryable(#[trigger] bytes[k]),
        ensures
            cs.expression_ok(decomposition_poly(value, bytes)),
            forall|k: int| 0 <= k < 4 ==> cs.expression_ok(cell_ref(#[trigger] bytes[k], 0)),
    {
        reveal_with_fuel(Shape::expression_ok, 6);
        assert(cs.queryable(bytes[0]));
        assert(cs.queryable(bytes[1]));
        assert(cs.queryable(bytes[2]));
        assert(cs.queryable(bytes[3]));
    }

    /// Registers the constraints of the range check. It succeeds exactly if
    /// the system is not sealed, the value column and the byte columns are
    /// allocated, the byte table is an allocated lookup-table column and two
    /// selectors are left; the first step that is refused ends it with that
    /// step's error.
    #[verifier::rlimit(60)]
    pub fn configure(
        meta: &mut ConstraintSystem,
        value: Column,
        bytes: [Column; 4],
        byte_table: Column,
    ) -> (r: Result<BitDecompositionConfig, ConfigurationError>)
        ensures
            (Setup { shape: final(meta)@, error: refusal(r) }) == Self::configuring(
                old(meta)@.begin(),
                value,
                bytes,
                byte_table,
            ),
            r matches Ok(config) ==> config == Self::config_for(
                old(meta)@,
                value,
                bytes,
                byte_table,
            ) && (old(meta)@.wf() && Self::columns_fit(value, bytes, byte_table) ==> config.valid(
                final(meta)@,
            ) && old(meta)@.precedes(final(meta)@)),
            r is Ok <==> !old(meta)@.sealed && old(meta)@.queryable(value) && (forall|k: int|
                0 <= k < 4 ==> old(meta)@.queryable(#[trigger] bytes[k])) && byte_table.kind
                == ColumnKind::LookupTable && old(meta)@.has_column(byte_table) && old(meta)@.selectors + 2 <= usize::MAX,
            r is Ok ==> old(meta)@.grown(final(meta)@, 2),
            old(meta)@.wf() ==> final(meta)@.wf(),
    {
        let ghost config = Self::config_for(old(meta)@, value, bytes, byte_table);
        let s_decomp = meta.selector()?;
        let s_lookup = meta.complex_selector()?;

        meta.enable_equality(value)?;
        meta.enable_equality(bytes[0])?;
        meta.enable_equality(bytes[1])?;
        meta.enable_equality(bytes[2])?;
        meta.enable_equality(bytes[3])?;
        proof {
            Self::lemma_polys_ok(meta@, value, bytes);
        }

        let v = Expression::query(value, Rotation::cur());
        let byte0 = Expression::query(bytes[0], Rotation::cur());
        let byte1 = Expression::query(bytes[1], Rotation::cur());
        let byte2 = Expression::query(bytes[2], Rotation::cur());
        let byte3 = Expression::query(bytes[3], Rotation::cur());
        let decomposition = byte0.add(byte1.mul(Expression::constant(Fe::from_u64(256)))).add(
            byte2.mul(Expression::constant(Fe::from_u64(256 * 256))),
        ).add(byte3.mul(Expression::constant(Fe::from_u64(256 * 256 * 256))));
        meta.create_gate("bit_decomposition", s_decomp, v.sub(decomposition))?;

        proof {
            Self::lemma_polys_ok(meta@, value, bytes);
        }
        meta.lookup("byte_lookup", s_lookup, Expression::query(bytes[0], Rotation::cur()), byte_table)?;
        proof {
            Self::lemma_polys_ok(meta@, value, bytes);
        }
        meta.lookup("byte_lookup", s_lookup, Expression::query(bytes[1], Rotation::cur()), byte_table)?;
        proof {
            Self::lemma_polys_ok(meta@, value, bytes);
        }
        meta.lookup("byte_lookup", s_lookup, Expression::query(bytes[2], Rotation::cur()), byte_table)?;
        proof {
            Self::lemma_polys_ok(meta@, value, bytes);
        }
        meta.lookup("byte_lookup", s_lookup, Expression::query(bytes[3], Rotation::cur()), byte_table)?;
        proof {
            if old(meta)@.wf() && Self::columns_fit(value, bytes, byte_table) {
                let before = old(meta)@;
                let after = meta@;
                assert(after.lookups =~= before.lookups.push(config.byte_lookup(0)).push(
                    config.byte_lookup(1),
                ).push(config.byte_lookup(2)).push(config.byte_lookup(3)));
                assert forall|i: int| 0 <= i < after.lookups.len() implies (
                #[trigger] after.lookups[i]).selector != config.s_decomp && (
                after.lookups[i].selector == config.s_lookup ==> after.lookups[i].table
                    == config.byte_table && exists|k: int|
                    0 <= k < 4 && after.lookups[i].input == cell_ref(
                        #[trigger] config.bytes[k],
                        0,
                    )) by {
                    if i < before.lookups.len() {
                        assert(before.lookup_ok(before.lookups[i]));
                    } else {
                        let k = i - before.lookups.len();
                        assert(after.lookups[i] == config.byte_lookup(k));
                        assert(after.lookups[i].input == cell_ref(config.bytes[k], 0));
                    }
                }
                assert forall|i: int| 0 <= i < after.gates.len() implies (
                #[trigger] after.gates[i]).selector != config.s_lookup && (after.gates[i].selector
                    == config.s_decomp ==> after.gates[i].poly == decomposition_poly(
                    config.value,
                    config.bytes,
                )) by {
                    if i < before.gates.len() {
                        assert(before.gate_ok(before.gates[i]));
                    }
                }
                assert(config.valid(after));
                assert(before.precedes(after));
            }
        }
        Ok(BitDecompositionConfig { value, bytes, byte_table, s_decomp, s_lookup })
    }

    /// The steps of loading the first `n` rows of the byte table: row `v`
    /// holds the value `v`.
    pub open spec fn table_loading(self, p: Progress, n: nat) -> Progress
        decreases n,
    {
        if n == 0 {
            p
        } else {
            self.table_loading(p, (n - 1) as nat).next(
                Step::Table(self.byte_table, (n - 1) as usize, Value::Known(Fe::of((n - 1) as nat))),
            )
        }
    }

    /// Once a step was refused, further rows change nothing.
    pub proof fn lemma_table_loading_stuck(self, p: Progress, m: nat, n: nat)
        requires
            m <= n,
            self.table_loading(p, m).error is Some,
        ensures
            self.table_loading(p, n) == self.table_loading(p, m),
        decreases n,
    {
        if m < n {
            self.lemma_table_loading_stuck(p, m, (n - 1) as nat);
        }
    }

    /// Whether no row of the byte table below `n` is assigned.
    pub open spec fn table_empty(self, l: Layout, n: nat) -> bool {
        forall|row: int|
            0 <= row < n ==> !(#[trigger] l.cells.contains_key(
                Cell { column: self.byte_table, row: row as usize },
            ))
    }

    /// Loads the byte table: row `v` holds the value `v`, for `v` from 0 to
    /// 255. With a configuration that fits and a table that is still empty,
    /// it succeeds exactly if the grid has 256 rows; then the table holds
    /// every byte, and a witness that met its constraints still does so.
    pub fn load_byte_table(&self, layouter: &mut Layouter) -> (r: Result<(), AssignmentError>)
        requires
            old(layouter).wf(),
        ensures
            final(layouter).wf(),
            (Progress { layout: final(layouter)@, error: failure(r) }) == self.table_loading(
                old(layouter)@.begin(),
                256,
            ),
            self.valid(old(layouter)@.cs) && self.table_empty(old(layouter)@, 256) ==> (r is Ok
                <==> old(layouter)@.rows >= 256),
            r is Ok ==> {
                &&& old(layouter)@.extends(final(layouter)@)
                &&& final(layouter)@.frontier() == old(layouter)@.frontier()
                &&& final(layouter)@.region_start == old(layouter)@.region_start
                &&& final(layouter)@.bindings == old(layouter)@.bindings
                &&& final(layouter)@.copies == old(layouter)@.copies
                &&& final(layouter)@.flags == old(layouter)@.flags
                &&& self.table_loaded(final(layouter)@)
                &&& old(layouter)@.sound() ==> final(layouter)@.sound()
            },
    {
        let ghost before = old(layouter)@;
        let ghost start = before.begin();
        proof {
            old(layouter).lemma_wf();
        }
        let mut value: usize = 0;
        while value < BYTE_TABLE_ROWS
            invariant
                value <= 256,
                layouter.wf(),
                before.wf(),
                before == old(layouter)@,
                start == before.begin(),
                (Progress { layout: layouter@, error: None }) == self.table_loading(
                    start,
                    value as nat,
                ),
                before.cs == layouter@.cs,
                before.rows == layouter@.rows,
                before.flags == layouter@.flags,
                before.copies == layouter@.copies,
                before.bindings == layouter@.bindings,
                before.region_start == layouter@.region_start,
                before.region_rows == layouter@.region_rows,
                before.cells.submap_of(layouter@.cells),
                value <= before.rows,
                forall|c: Cell| #[trigger]
                    layouter@.cells.contains_key(c) ==> before.cells.contains_key(c) || (c.column
                        == self.byte_table && c.row < value),
                forall|v: int|
                    0 <= v < value ==> #[trigger] layouter@.cells.contains_key(
                        Cell { column: self.byte_table, row: v as usize },
                    ) && layouter@.cells[Cell { column: self.byte_table, row: v as usize }]
                        == Fe::of(v as nat),
            decreases 256 - value,
        {
            let fe = Fe::from_u64(value as u64);
            let r = layouter.assign_table_cell(self.byte_table, value, Value::known(fe));
            proof {
                reveal(Layout::step);
                assert(self.table_loading(start, (value + 1) as nat) == self.table_loading(
                    start,
                    value as nat,
                ).next(
                    Step::Table(self.byte_table, value as usize, Value::Known(Fe::of(value as nat))),
                ));
                if r is Err {
                    self.lemma_table_loading_stuck(start, (value + 1) as nat, 256);
                    if self.valid(before.cs) && self.table_empty(before, 256) {
                        assert(!before.cells.contains_key(
                            Cell { column: self.byte_table, row: (value as int) as usize },
                        ));
                    }
                }
            }
            match r {
                Ok(()) => {},
                Err(e) => {
                    return Err(e);
                },
            }
            value = value + 1;
        }
        proof {
            assert(before.extends(layouter@));
            assert forall|v: nat| v < 256 implies #[trigger] layouter@.table_has(
                self.byte_table,
                v,
            ) by {
                let c = Cell { column: self.byte_table, row: (v as int) as usize };
                assert(layouter@.cells.contains_key(c));
                Fe::lemma_value_of(v);
                lemma_modulus_large();
            }
            if before.sound() {
                before.lemma_sound_extends(layouter@);
            }
        }
        Ok(())
    }

    /// The steps of `assign_and_decompose`: a new region with both selectors
    /// on, the value in the value column and its four bytes in the byte
    /// columns.
    pub open spec fn decomposing(self, p: Progress, value: u32) -> Progress {
        let byte = |k: int| Value::Known(Fe::of(byte_of(value, k)));
        p.next(Step::Region("bit decomposition")).next(Step::Enable(self.s_decomp, 0)).next(
            Step::Enable(self.s_lookup, 0),
        ).next(
            Step::Assign(ColumnKind::Advice, self.value, 0, Value::Known(Fe::of(value as nat))),
        ).next(Step::Assign(ColumnKind::Advice, self.bytes[0], 0, byte(0))).next(
            Step::Assign(ColumnKind::Advice, self.bytes[1], 0, byte(1)),
        ).next(Step::Assign(ColumnKind::Advice, self.bytes[2], 0, byte(2))).next(
            Step::Assign(ColumnKind::Advice, self.bytes[3], 0, byte(3)),
        )
    }

    /// Assigns a value and its four bytes to a region of its own, with the
    /// decomposition gate and the byte lookups switched on. With a
    /// configuration that fits, it succeeds exactly if a row is left; then
    /// byte `k` of the row is `(value >> 8k) & 0xFF`, and with a loaded byte
    /// table a witness that met its constraints still does so.
    pub fn assign_and_decompose(&self, layouter: &mut Layouter, value: u32) -> (r: Result<
        AssignedCell,
        AssignmentError,
    >)
        requires
            old(layouter).wf(),
        ensures
            final(layouter).wf(),
            (Progress { layout: final(layouter)@, error: failure(r) }) == self.decomposing(
                old(layouter)@.begin(),
                value,
            ),
            self.valid(old(layouter)@.cs) ==> (r is Ok <==> old(layouter)@.frontier() < old(layouter)@.rows),
            r matches Ok(out) ==> {
                &&& out == (AssignedCell {
                    cell: old(layouter)@.frontier_cell(self.value),
                    value: Value::Known(Fe::of(value as nat)),
                })
                &&& old(layouter)@.advanced(final(layouter)@, out, 1)
                &&& self.valid(old(layouter)@.cs) ==> forall|k: int|
                    0 <= k < 4 ==> final(layouter)@.cells.contains_key(
                        old(layouter)@.frontier_cell(#[trigger] self.bytes[k]),
                    ) && final(layouter)@.cells[old(layouter)@.frontier_cell(self.bytes[k])]
                        == Fe::of(byte_of(value, k))
                &&& self.valid(old(layouter)@.cs) && self.table_loaded(old(layouter)@) && old(layouter)@.sound() ==> final(layouter)@.sound()
            },
    {
        let byte0: u64 = (value & 0xFF) as u64;
        let byte1: u64 = ((value >> 8) & 0xFF) as u64;
        let byte2: u64 = ((value >> 16) & 0xFF) as u64;
        let byte3: u64 = ((value >> 24) & 0xFF) as u64;
        proof {
            reveal(Layout::step);
            old(layouter).lemma_wf();
            assert(value >> 0u32 == value) by (bit_vector);
            assert(byte0 == byte_of(value, 0));
            assert(byte1 == byte_of(value, 1));
            assert(byte2 == byte_of(value, 2));
            assert(byte3 == byte_of(value, 3));
            assert(BitDecompositionConfig::columns_fit(self.value, self.bytes, self.byte_table)
                ==> self.bytes[0] != self.bytes[1] && self.bytes[0] != self.bytes[2]
                && self.bytes[0] != self.bytes[3] && self.bytes[1] != self.bytes[2]
                && self.bytes[1] != self.bytes[3] && self.bytes[2] != self.bytes[3]
                && self.bytes[0] != self.value && self.bytes[1] != self.value && self.bytes[2]
                != self.value && self.bytes[3] != self.value);
        }
        layouter.assign_region("bit decomposition");
        layouter.enable_selector(self.s_decomp, 0)?;
        layouter.enable_selector(self.s_lookup, 0)?;
        let value_cell = layouter.assign_advice(
            self.value,
            0,
            Value::known(Fe::from_u64(value as u64)),
        )?;
        layouter.assign_advice(self.bytes[0], 0, Value::known(Fe::from_u64(byte0)))?;
        layouter.assign_advice(self.bytes[1], 0, Value::known(Fe::from_u64(byte1)))?;
        layouter.assign_advice(self.bytes[2], 0, Value::known(Fe::from_u64(byte2)))?;
        layouter.assign_advice(self.bytes[3], 0, Value::known(Fe::from_u64(byte3)))?;
        proof {
            let before = old(layouter)@;
            let after = layouter@;
            assert(before.extends(after));
            if self.valid(before.cs) {
                let row = before.frontier() as int;
                lemma_bytes(value);
                lemma_modulus_large();
                assert forall|k: int| 0 <= k < 4 implies after.cells.contains_key(
                    before.frontier_cell(#[trigger] self.bytes[k]),
                ) && after.cells[before.frontier_cell(self.bytes[k])] == Fe::of(
                    byte_of(value, k),
                ) by {
                    if k == 0 {
                    } else if k == 1 {
                    } else if k == 2 {
                    } else {
                        assert(k == 3);
                    }
                }
                if self.table_loaded(before) && before.sound() {
                    Fe::lemma_value_of(value as nat);
                    assert forall|k: int| 0 <= k < 4 implies after.cells.contains_key(
                        Cell { column: #[trigger] self.bytes[k], row: row as usize },
                    ) && after.cells[Cell { column: self.bytes[k], row: row as usize }].value()
                        == byte_of(value, k) by {
                        assert(before.frontier_cell(self.bytes[k]) == Cell {
                            column: self.bytes[k],
                            row: row as usize,
                        });
                        Fe::lemma_value_of(byte_of(value, k));
                    }
                    lemma_decomposition_vanishes(after.cells, row, self.value, self.bytes, value);
                    assert forall|i: int, r: int|
                        0 <= i < after.cs.gates.len() && #[trigger] after.flags.contains(
                            (after.cs.gates[i].selector, r),
                        ) && !before.flags.contains(
                            (after.cs.gates[i].selector, r),
                        ) implies after.cs.gates[i].poly.defined(after.cells, r)
                        && after.cs.gates[i].poly.eval(after.cells, r) == 0 by {
                        assert(after.cs.gates[i].selector == self.s_decomp && r == row);
                    }
                    assert forall|i: int, r: int|
                        0 <= i < after.cs.lookups.len() && #[trigger] after.flags.contains(
                            (after.cs.lookups[i].selector, r),
                        ) && !before.flags.contains(
                            (after.cs.lookups[i].selector, r),
                        ) implies after.cs.lookups[i].input.defined(after.cells, r)
                        && after.table_has(
                        after.cs.lookups[i].table,
                        after.cs.lookups[i].input.eval(after.cells, r),
                    ) by {
                        let l = after.cs.lookups[i];
                        assert(l.selector == self.s_lookup && r == row);
                        let k = choose|k: int|
                            0 <= k < 4 && l.input == cell_ref(#[trigger] self.bytes[k], 0);
                        lemma_cell_ref(after.cells, self.bytes[k], 0, row);
                        assert(before.table_has(self.byte_table, byte_of(value, k)));
                        before.lemma_table_grows(after, self.byte_table, byte_of(value, k));
                    }
                    before.lemma_sound_extends(after);
                }
            }
        }
        Ok(value_cell)
    }
}

/// The circuit that checks a 32-bit value by its four bytes.
#[derive(Clone, Copy, Debug)]
pub struct BitDecompositionCircuit {
    pub value: u32,
}

impl Default for BitDecompositionCircuit {
    fn default() -> (c: BitDecompositionCircuit)
        ensures
            c == (BitDecompositionCircuit { value: 0 }),
    {
        BitDecompositionCircuit { value: 0 }
    }
}

impl BitDecompositionCircuit {
    /// The circuit without its witness.
    pub fn without_witnesses(&self) -> (c: BitDecompositionCircuit)
        ensures
            c == (BitDecompositionCircuit { value: 0 }),
    {
        BitDecompositionCircuit { value: 0 }
    }

    /// The configuration that `configure` returns on success: the value
    /// column is the first advice column that is allocated, and the byte
    /// columns are the next four.
    pub open spec fn config_for(cs: Shape) -> BitDecompositionConfig {
        let n = cs.advice.len();
        BitDecompositionConfig::config_for(
            cs,
            advice_at(n),
            [advice_at(n + 1), advice_at(n + 2), advice_at(n + 3), advice_at(n + 4)],
            cs.next_column(ColumnKind::LookupTable),
        )
    }

    /// The configuration steps of the circuit: five advice columns, a
    /// lookup-table column, and the steps of the range check.
    pub open spec fn configured(cs: Shape) -> Setup {
        let config = Self::config_for(cs);
        let columns = cs.begin().next(ConfigStep::Column(ColumnKind::Advice)).next(
            ConfigStep::Column(ColumnKind::Advice),
        ).next(ConfigStep::Column(ColumnKind::Advice)).next(
            ConfigStep::Column(ColumnKind::Advice),
        ).next(ConfigStep::Column(ColumnKind::Advice)).next(
            ConfigStep::Column(ColumnKind::LookupTable),
        );
        BitDecompositionConfig::configuring(columns, config.value, config.bytes, config.byte_table)
    }

    /// Allocates the circuit's columns and configures the range check. It
    /// succeeds exactly if the system is not sealed and has room for five
    /// advice columns, a lookup-table column and two selectors; then the
    /// configuration fits the system.
    pub fn configure(meta: &mut ConstraintSystem) -> (r: Result<
        BitDecompositionConfig,
        ConfigurationError,
    >)
        ensures
            (Setup { shape: final(meta)@, error: refusal(r) }) == Self::configured(old(meta)@),
            r matches Ok(config) ==> config == Self::config_for(old(meta)@) && (old(meta)@.wf()
                ==> config.valid(final(meta)@) && old(meta)@.precedes(final(meta)@)),
            r is Ok <==> !old(meta)@.sealed && old(meta)@.advice.len() + 5 <= usize::MAX && old(meta)@.tables < usize::MAX && old(meta)@.selectors + 2 <= usize::MAX,
            r is Ok ==> final(meta)@.advice.len() == old(meta)@.advice.len() + 5 && final(meta)@.instance.len() == old(meta)@.instance.len() && final(meta)@.fixed.len() == old(meta)@.fixed.len() && final(meta)@.tables == old(meta)@.tables + 1,
            old(meta)@.wf() ==> final(meta)@.wf(),
    {
        let ghost c0 = meta@;
        let value = meta.advice_column()?;
        let bytes = [
            meta.advice_column()?,
            meta.advice_column()?,
            meta.advice_column()?,
            meta.advice_column()?,
        ];
        let byte_table = meta.lookup_table_column()?;
        let ghost c1 = meta@;
        proof {
            assert(bytes == Self::config_for(c0).bytes);
            assert forall|k: int| 0 <= k < 4 implies c1.queryable(#[trigger] bytes[k]) by {}
        }
        let r = BitDecompositionConfig::configure(meta, value, bytes, byte_table);
        proof {
            if r is Ok {
                c1.lemma_same_widths(meta@);
                if c0.wf() {
                    assert(c0.precedes(c1));
                    c0.lemma_precedes_transitive(c1, meta@);
                }
            }
        }
        r
    }

    /// The steps of `synthesize`: the byte table loaded, then the value and
    /// its bytes assigned.
    pub open spec fn synthesized(&self, config: BitDecompositionConfig, l: Layout) -> Progress {
        config.decomposing(config.table_loading(l.begin(), 256), self.value)
    }

    /// Lays the circuit out: it loads the byte table and assigns the value
    /// with its bytes. With a configuration that fits and a byte table that
    /// is still empty, it succeeds exactly if the grid has 256 rows and a
    /// row is left; then byte `k` of the row is `(value >> 8k) & 0xFF`, and
    /// a witness that met its constraints still does so.
    pub fn synthesize(&self, config: BitDecompositionConfig, layouter: &mut Layouter) -> (r: Result<
        (),
        AssignmentError,
    >)
        requires
            old(layouter).wf(),
        ensures
            final(layouter).wf(),
            (Progress { layout: final(layouter)@, error: failure(r) }) == self.synthesized(
                config,
                old(layouter)@,
            ),
            config.valid(old(layouter)@.cs) && config.table_empty(old(layouter)@, 256) ==> (r
                is Ok <==> old(layouter)@.rows >= 256 && old(layouter)@.frontier() < old(layouter)@.rows),
            r is Ok && config.valid(old(layouter)@.cs) ==> {
                &&& old(layouter)@.extends(final(layouter)@)
                &&& final(layouter)@.bindings == old(layouter)@.bindings
                &&& forall|k: int|
                    0 <= k < 4 ==> final(layouter)@.cells.contains_key(
                        old(layouter)@.frontier_cell(#[trigger] config.bytes[k]),
                    ) && final(layouter)@.cells[old(layouter)@.frontier_cell(config.bytes[k])]
                        == Fe::of(byte_of(self.value, k))
                &&& old(layouter)@.sound() ==> final(layouter)@.sound()
            },
    {
        let ghost l0 = layouter@;
        config.load_byte_table(layouter)?;
        let ghost l1 = layouter@;
        let r = config.assign_and_decompose(layouter, self.value);
        proof {
            if r is Ok {
                l0.lemma_extends_transitive(l1, layouter@);
                if config.valid(l0.cs) {
                    assert forall|k: int| 0 <= k < 4 implies l0.frontier_cell(
                        #[trigger] config.bytes[k],
                    ) == l1.frontier_cell(config.bytes[k]) by {}
                }
            }
        }
        match r {
            Ok(_) => Ok(()),
            Err(e) => Err(e),
        }
    }

    /// The constraint system of the circuit, configured from nothing.
    pub open spec fn system() -> Shape {
        Self::configured(Shape::empty()).shape
    }

    /// Why `run` fails, if it does: the error of laying out the grid, or
    /// else that of the first step of synthesis that is refused.
    pub open spec fn run_error(&self, k: u32, instance: Seq<Seq<Fe>>) -> Option<Error> {
        match new_error(Self::system(), k, instance) {
            Some(e) => Some(Error::Assignment(e)),
            None => match self.synthesized(
                Self::config_for(Shape::empty()),
                Layout::fresh(Self::system(), k, instance),
            ).error {
                Some(e) => Some(Error::Assignment(e)),
                None => None,
            },
        }
    }

    /// Configures the circuit, synthesizes it on a grid of `2^k` rows and
    /// seals the witness; the circuit has no instance column. It succeeds
    /// exactly if `k` is at least 8 and below 31 and no instance column is
    /// given. Then verification of the witness succeeds, and byte `k` of the
    /// first row is `(value >> 8k) & 0xFF`.
    pub fn run(&self, k: u32, instance: Vec<Vec<Fe>>) -> (r: Result<MockProver, Error>)
        ensures
            r is Ok <==> 8 <= k < 31 && instance.len() == 0,
            self.run_error(k, columns_view(instance)) == (match r {
                Ok(_) => None::<Error>,
                Err(e) => Some(e),
            }),
            r matches Ok(p) ==> {
                let config = Self::config_for(Shape::empty());
                &&& p.wf()
                &&& p@ == self.synthesized(
                    config,
                    Layout::fresh(Self::system(), k, columns_view(instance)),
                ).layout
                &&& p@.failures().len() == 0
                &&& p@.verdict() is Ok
                &&& forall|i: int|
                    0 <= i < 4 ==> p@.cells[Cell { column: #[trigger] config.bytes[i], row: 0 }]
                        == Fe::of(byte_of(self.value, i))
            },
    {
        let mut cs = ConstraintSystem::new();
        let config = match Self::configure(&mut cs) {
            Ok(config) => config,
            Err(e) => {
                return Err(Error::Configuration(e));
            },
        };
        let ghost cols = columns_view(instance);
        proof {
            lemma2_to64();
            if k < 31 {
                if k < 8 {
                    lemma_pow2_strictly_increases(k as nat, 8);
                } else if k > 8 {
                    lemma_pow2_strictly_increases(8, k as nat);
                }
            }
            assert(cols.len() == instance.len());
        }
        let mut layouter = match Layouter::new(cs, k, instance) {
            Ok(layouter) => layouter,
            Err(e) => {
                return Err(Error::Assignment(e));
            },
        };
        let ghost fresh = layouter@;
        proof {
            layouter.lemma_wf();
            assert(fresh.sound());
            assert(config.table_empty(fresh, 256));
        }
        match self.synthesize(config, &mut layouter) {
            Ok(()) => {},
            Err(e) => {
                return Err(Error::Assignment(e));
            },
        }
        proof {
            let after = layouter@;
            after.lemma_sound_complete();
            after.lemma_sound_failures();
            assert(after.bindings =~= Seq::empty());
            assert forall|i: int| 0 <= i < 4 implies after.cells[Cell {
                column: #[trigger] config.bytes[i],
                row: 0,
            }] == Fe::of(byte_of(self.value, i)) by {
                assert(fresh.frontier_cell(config.bytes[i]) == Cell {
                    column: config.bytes[i],
                    row: 0,
                });
            }
        }
        match layouter.seal() {
            Ok(p) => Ok(p),
            Err(e) => Err(Error::Assignment(e)),
        }
    }
}

/// The number of bits of the binary range check.
pub const BITS: usize = 32;

/// `bit * (bit - 1)`, on the current row.
pub open spec fn bit_poly(bit: Column) -> Expression {
    Expression::Mul(
        Box::new(cell_ref(bit, 0)),
        Box::new(
            Expression::Sub(
                Box::new(cell_ref(bit, 0)),
                Box::new(Expression::Constant(Fe::of(1))),
            ),
        ),
    )
}

/// `bit_0 * 2^0 + ... + bit_(n-1) * 2^(n-1)`, on the current row, summed from
/// zero upwards.
pub open spec fn composition(bits: Seq<Column>, n: nat) -> Expression
    decreases n,
{
    if n == 0 {
        Expression::Constant(Fe::of(0))
    } else {
        Expression::Add(
            Box::new(composition(bits, (n - 1) as nat)),
            Box::new(
                Expression::Mul(
                    Box::new(cell_ref(bits[n - 1], 0)),
                    Box::new(Expression::Constant(Fe::of(pow2((n - 1) as nat)))),
                ),
            ),
        )
    }
}

/// `value - (bit_0 * 2^0 + ... + bit_31 * 2^31)`, on the current row.
pub open spec fn composition_poly(value: Column, bits: Seq<Column>) -> Expression {
    Expression::Sub(Box::new(cell_ref(value, 0)), Box::new(composition(bits, 32)))
}

/// The bit of a 32-bit value with the given index, the least significant
/// first.
pub open spec fn bit_of(value: u32, k: nat) -> nat {
    ((value >> (k as u32)) & 1) as nat
}

/// The sum of the values of the first `n` bit cells of a row, each weighted
/// by its power of two.
pub open spec fn weighted_sum(cells: Map<Cell, Fe>, bits: Seq<Column>, row: int, n: nat) -> nat
    decreases n,
{
    if n == 0 {
        0
    } else {
        weighted_sum(cells, bits, row, (n - 1) as nat) + cells[Cell {
            column: bits[n - 1],
            row: row as usize,
        }].value() * pow2((n - 1) as nat)
    }
}

/// A bit of a value is 0 or 1, and the value modulo `2^(k+1)` is the value
/// modulo `2^k` plus the bit with index `k` times `2^k`.
pub proof fn lemma_bit_step(value: u32, k: nat)
    requires
        k < 32,
    ensures
        bit_of(value, k) <= 1,
        pow2(k) <= 0x8000_0000,
        (value as nat) % pow2(k + 1) == (value as nat) % pow2(k) + bit_of(value, k) * pow2(k),
{
    let shifted = value >> (k as u32);
    vstd::bits::lemma_u32_shr_is_div(value, k as u32);
    assert(shifted & 1 == shifted % 2) by (bit_vector);
    assert(bit_of(value, k) == ((value as nat) / pow2(k)) % 2);
    vstd::arithmetic::power2::lemma_pow2_pos(k);
    vstd::arithmetic::div_mod::lemma_mod_breakdown(value as int, pow2(k) as int, 2);
    vstd::arithmetic::power2::lemma_pow2_unfold(k + 1);
    assert(pow2(k + 1) == pow2(k) * 2) by (nonlinear_arith)
        requires
            pow2(k + 1) == 2 * pow2(k),
    ;
    lemma2_to64();
    if k < 31 {
        lemma_pow2_strictly_increases(k, 31);
    }
    assert(pow2(k) * (((value as int) / (pow2(k) as int)) % 2) == bit_of(value, k) * pow2(k))
        by (nonlinear_arith)
        requires
            bit_of(value, k) == ((value as int) / (pow2(k) as int)) % 2,
    ;
}

/// The bit gate vanishes on a row whose bit cell holds 0 or 1.
pub proof fn lemma_bit_vanishes(cells: Map<Cell, Fe>, row: int, bit: Column)
    requires
        0 <= row <= usize::MAX,
        cells.contains_key(Cell { column: bit, row: row as usize }),
        cells[Cell { column: bit, row: row as usize }].value() <= 1,
    ensures
        bit_poly(bit).defined(cells, row),
        bit_poly(bit).eval(cells, row) == 0,
{
    reveal_with_fuel(Expression::eval, 4);
    reveal_with_fuel(Expression::defined, 4);
    lemma_cell_ref(cells, bit, 0, row);
    Fe::lemma_value_of(1);
    lemma_modulus_large();
    lemma_diff_self(1);
    lemma_residue(0);
    let b = cells[Cell { column: bit, row: row as usize }].value();
    if b == 0 {
        assert(prod_mod(0, diff_mod(0, 1)) == 0) by {
            assert(0 * diff_mod(0, 1) == 0) by (nonlinear_arith);
        }
    } else {
        assert(prod_mod(1, 0) == 0) by {
            assert(1 * 0 == 0);
        }
    }
}

/// On a row whose bit cells hold the bits of a value, the weighted sum of
/// the first `n` bit cells, and the value of the composition of the first
/// `n` bits, are the value modulo `2^n`.
pub proof fn lemma_composition(cells: Map<Cell, Fe>, row: int, bits: Seq<Column>, value: u32, n: nat)
    requires
        0 <= row <= usize::MAX,
        n <= 32,
        bits.len() == 32,
        forall|k: int|
            0 <= k < 32 ==> cells.contains_key(Cell { column: #[trigger] bits[k], row: row as usize })
                && cells[Cell { column: bits[k], row: row as usize }].value() == bit_of(
                value,
                k as nat,
            ),
    ensures
        composition(bits, n).defined(cells, row),
        composition(bits, n).eval(cells, row) == (value as nat) % pow2(n),
        weighted_sum(cells, bits, row, n) == (value as nat) % pow2(n),
    decreases n,
{
    lemma2_to64();
    lemma_modulus_large();
    if n == 0 {
        Fe::lemma_value_of(0);
    } else {
        let k = (n - 1) as nat;
        lemma_composition(cells, row, bits, value, k);
        lemma_bit_step(value, k);
        let c = Cell { column: bits[k as int], row: row as usize };
        assert(cells.contains_key(c));
        lemma_cell_ref(cells, bits[k as int], 0, row);
        Fe::lemma_value_of(pow2(k));
        let low = (value as nat) % pow2(k);
        let b = bit_of(value, k);
        vstd::arithmetic::power2::lemma_pow2_pos(k);
        assert(low < pow2(k)) by {
            vstd::arithmetic::div_mod::lemma_mod_bound(value as int, pow2(k) as int);
        }
        assert(b * pow2(k) <= pow2(k)) by (nonlinear_arith)
            requires
                b <= 1,
        ;
        lemma_residue(b * pow2(k));
        lemma_residue(low + b * pow2(k));
        let rest = composition(bits, k);
        let term = Expression::Mul(
            Box::new(cell_ref(bits[k as int], 0)),
            Box::new(Expression::Constant(Fe::of(pow2(k)))),
        );
        assert(term.defined(cells, row) && term.eval(cells, row) == prod_mod(b, pow2(k))) by {
            reveal_with_fuel(Expression::eval, 2);
            reveal_with_fuel(Expression::defined, 2);
        }
        assert(composition(bits, n) == Expression::Add(Box::new(rest), Box::new(term)));
        assert(composition(bits, n).defined(cells, row) && composition(bits, n).eval(cells, row)
            == sum_mod(rest.eval(cells, row), term.eval(cells, row))) by {
            reveal_with_fuel(Expression::eval, 1);
            reveal_with_fuel(Expression::defined, 1);
        }
    }
}

/// The composition gate vanishes on a row that holds a 32-bit value and its
/// bits, and the weighted sum of the bit cells is the value.
pub proof fn lemma_composition_vanishes(
    cells: Map<Cell, Fe>,
    row: int,
    value_column: Column,
    bits: Seq<Column>,
    value: u32,
)
    requires
        0 <= row <= usize::MAX,
        bits.len() == 32,
        cells.contains_key(Cell { column: value_column, row: row as usize }),
        cells[Cell { column: value_column, row: row as usize }].value() == value,
        forall|k: int|
            0 <= k < 32 ==> cells.contains_key(Cell { column: #[trigger] bits[k], row: row as usize })
                && cells[Cell { column: bits[k], row: row as usize }].value() == bit_of(
                value,
                k as nat,
            ),
    ensures
        composition_poly(value_column, bits).defined(cells, row),
        composition_poly(value_column, bits).eval(cells, row) == 0,
        weighted_sum(cells, bits, row, 32) == value,
{
    lemma_composition(cells, row, bits, value, 32);
    lemma2_to64();
    vstd::arithmetic::div_mod::lemma_small_mod(value as nat, pow2(32));
    lemma_cell_ref(cells, value_column, 0, row);
    lemma_diff_self(value as nat);
    reveal_with_fuel(Expression::eval, 1);
    reveal_with_fuel(Expression::defined, 1);
}

/// The composition of allocated bit columns reads allocated columns.
pub proof fn lemma_composition_ok(cs: Shape, bits: Seq<Column>, n: nat)
    requires
        n <= bits.len(),
        forall|k: int| 0 <= k < bits.len() ==> cs.queryable(#[trigger] bits[k]),
    ensures
        cs.expression_ok(composition(bits, n)),
    decreases n,
{
    reveal_with_fuel(Shape::expression_ok, 3);
    if n > 0 {
        lemma_composition_ok(cs, bits, (n - 1) as nat);
        assert(cs.queryable(bits[n - 1]));
    }
}

/// The columns and selectors of the binary range check.
#[derive(Clone, Copy, Debug)]
pub struct BinaryRangeConfig {
    /// The column of the value.
    pub value: Column,
    /// The columns of the thirty-two bits, the least significant first.
    pub bits: [Column; 32],
    /// Guards the gates that hold each bit to 0 or 1.
    pub s_binary: Selector,
    /// Guards the composition gate.
    pub s_composition: Selector,
}

/// The configuration steps that enable equality on the first `n` bit
/// columns.
pub open spec fn equalities(s: Setup, bits: Seq<Column>, n: nat) -> Setup
    decreases n,
{
    if n == 0 {
        s
    } else {
        equalities(s, bits, (n - 1) as nat).next(ConfigStep::Equality(bits[n - 1]))
    }
}

/// A gate that holds one bit column to 0 or 1.
pub open spec fn bit_gate(selector: Selector, bit: Column) -> Gate {
    Gate { name: "binary_constraint", selector, poly: bit_poly(bit) }
}

/// The configuration steps that register the gates of the first `n` bit
/// columns.
pub open spec fn bit_gates(s: Setup, selector: Selector, bits: Seq<Column>, n: nat) -> Setup
    decreases n,
{
    if n == 0 {
        s
    } else {
        bit_gates(s, selector, bits, (n - 1) as nat).next(
            ConfigStep::Gate(bit_gate(selector, bits[n - 1])),
        )
    }
}

/// Once a step was refused, further equality steps change nothing.
pub proof fn lemma_equalities_stuck(s: Setup, bits: Seq<Column>, m: nat, n: nat)
    requires
        m <= n,
    ensures
        equalities(s, bits, m).error is Some ==> equalities(s, bits, n) == equalities(s, bits, m),
    decreases n,
{
    if m < n {
        lemma_equalities_stuck(s, bits, m, (n - 1) as nat);
    }
}

/// Once a step was refused, further gate steps change nothing.
pub proof fn lemma_bit_gates_stuck(s: Setup, selector: Selector, bits: Seq<Column>, m: nat, n: nat)
    requires
        m <= n,
    ensures
        bit_gates(s, selector, bits, m).error is Some ==> bit_gates(s, selector, bits, n)
            == bit_gates(s, selector, bits, m),
    decreases n,
{
    if m < n {
        lemma_bit_gates_stuck(s, selector, bits, m, (n - 1) as nat);
    }
}

/// The assignment steps of the first `n` bits of a value, each on the first
/// row of the current region.
pub open spec fn bit_assigning(p: Progress, bits: Seq<Column>, value: u32, n: nat) -> Progress
    decreases n,
{
    if n == 0 {
        p
    } else {
        bit_assigning(p, bits, value, (n - 1) as nat).next(
            Step::Assign(
                ColumnKind::Advice,
                bits[n - 1],
                0,
                Value::Known(Fe::of(bit_of(value, (n - 1) as nat))),
            ),
        )
    }
}

/// Once a step was refused, further assignment steps change nothing.
pub proof fn lemma_bit_assigning_stuck(p: Progress, bits: Seq<Column>, value: u32, m: nat, n: nat)
    requires
        m <= n,
    ensures
        bit_assigning(p, bits, value, m).error is Some ==> bit_assigning(p, bits, value, n)
            == bit_assigning(p, bits, value, m),
    decreases n,
{
    if m < n {
        lemma_bit_assigning_stuck(p, bits, value, m, (n - 1) as nat);
    }
}

/// Whether a column is one of the first `n` bit columns.
pub open spec fn among(bits: Seq<Column>, n: nat, column: Column) -> bool {
    exists|k: int| 0 <= k < n && #[trigger] bits[k] == column
}

impl BinaryRangeConfig {
    /// Whether the columns are thirty-three different advice columns.
    pub open spec fn columns_fit(value: Column, bits: [Column; 32]) -> bool {
        &&& value.kind == ColumnKind::Advice
        &&& forall|k: int|
            0 <= k < 32 ==> (#[trigger] bits[k]).kind == ColumnKind::Advice && bits[k] != value
        &&& forall|j: int, k: int| 0 <= j < k < 32 ==> bits[j] != bits[k]
    }

    /// Whether a polynomial is that of a gate of one of the bit columns.
    pub open spec fn is_bit_poly(self, poly: Expression) -> bool {
        exists|k: int| 0 <= k < 32 && poly == bit_poly(#[trigger] self.bits[k])
    }

    /// Whether a constraint system holds a gate for the bit column with
    /// index `k`.
    pub open spec fn has_bit_gate(self, cs: Shape, k: int) -> bool {
        exists|i: int|
            0 <= i < cs.gates.len() && #[trigger] cs.gates[i] == bit_gate(
                self.s_binary,
                self.bits[k],
            )
    }

    /// The configuration fits a constraint system: its columns are
    /// allocated, its selectors are allocated, the one guards a gate for
    /// each bit column and nothing else, and the other guards the
    /// composition gate and nothing else.
    pub open spec fn valid(self, cs: Shape) -> bool {
        &&& Self::columns_fit(self.value, self.bits)
        &&& cs.has_column(self.value)
        &&& forall|k: int| 0 <= k < 32 ==> cs.has_column(#[trigger] self.bits[k])
        &&& self.s_binary.index < cs.selectors
        &&& self.s_composition.index < cs.selectors
        &&& self.s_binary != self.s_composition
        &&& forall|i: int|
            0 <= i < cs.gates.len() ==> ((#[trigger] cs.gates[i]).selector == self.s_binary
                ==> self.is_bit_poly(cs.gates[i].poly)) && (cs.gates[i].selector
                == self.s_composition ==> cs.gates[i].poly == composition_poly(
                self.value,
                self.bits@,
            ))
        &&& forall|k: int| 0 <= k < 32 ==> #[trigger] self.has_bit_gate(cs, k)
        &&& forall|i: int|
            0 <= i < cs.lookups.len() ==> (#[trigger] cs.lookups[i]).selector != self.s_binary
                && cs.lookups[i].selector != self.s_composition
    }

    /// A configuration that fits a constraint system fits every later state
    /// of it.
    pub proof fn lemma_valid_later(self, cs: Shape, later: Shape)
        requires
            self.valid(cs),
            cs.precedes(later),
        ensures
            self.valid(later),
    {
        assert(cs.width(self.value.kind) <= later.width(self.value.kind));
        assert forall|k: int| 0 <= k < 32 implies later.has_column(#[trigger] self.bits[k]) by {
            assert(cs.width(self.bits[k].kind) <= later.width(self.bits[k].kind));
        }
        assert forall|i: int| 0 <= i < later.gates.len() implies ((
        #[trigger] later.gates[i]).selector == self.s_binary ==> self.is_bit_poly(
            later.gates[i].poly,
        )) && (later.gates[i].selector == self.s_composition ==> later.gates[i].poly
            == composition_poly(self.value, self.bits@)) by {
            if i < cs.gates.len() {
                assert(later.gates[i] == cs.gates[i]);
            }
        }
        assert forall|k: int| 0 <= k < 32 implies #[trigger] self.has_bit_gate(later, k) by {
            assert(self.has_bit_gate(cs, k));
            let i = choose|i: int|
                0 <= i < cs.gates.len() && #[trigger] cs.gates[i] == bit_gate(
                    self.s_binary,
                    self.bits[k],
                );
            assert(later.gates[i] == cs.gates[i]);
        }
        assert forall|i: int| 0 <= i < later.lookups.len() implies (
        #[trigger] later.lookups[i]).selector != self.s_binary && later.lookups[i].selector
            != self.s_composition by {
            if i < cs.lookups.len() {
                assert(later.lookups[i] == cs.lookups[i]);
            }
        }
    }

    /// The configuration that `configure` returns on success.
    pub open spec fn config_for(cs: Shape, value: Column, bits: [Column; 32]) -> BinaryRangeConfig {
        BinaryRangeConfig {
            value,
            bits,
            s_binary: cs.next_selector(),
            s_composition: Selector { index: (cs.selectors + 1) as usize },
        }
    }

    /// The configuration steps of the range check: two selectors, equality
    /// on the value column and on the bit columns, a gate for each bit
    /// column, and the composition gate.
    pub open spec fn configuring(s: Setup, value: Column, bits: [Column; 32]) -> Setup {
        let config = Self::config_for(s.shape, value, bits);
        let start = s.next(ConfigStep::Selector).next(ConfigStep::Selector).next(
            ConfigStep::Equality(value),
        );
        bit_gates(equalities(start, bits@, 32), config.s_binary, bits@, 32).next(
            ConfigStep::Gate(
                Gate {
                    name: "composition_constraint",
                    selector: config.s_composition,
                    poly: composition_poly(value, bits@),
                },
            ),
        )
    }

    /// Registers the constraints of the range check. It succeeds exactly if
    /// the system is not sealed, the value column and the bit columns are
    /// allocated and two selectors are left; the first step that is refused
    /// ends it with that step's error.
    #[verifier::rlimit(100)]
    pub fn configure(meta: &mut ConstraintSystem, value: Column, bits: [Column; 32]) -> (r: Result<
        BinaryRangeConfig,
        ConfigurationError,
    >)
        ensures
            (Setup { shape: final(meta)@, error: refusal(r) }) == Self::configuring(
                old(meta)@.begin(),
                value,
                bits,
            ),
            r matches Ok(config) ==> config == Self::config_for(old(meta)@, value, bits) && (old(meta)@.wf() && Self::columns_fit(value, bits) ==> config.valid(final(meta)@) && old(meta)@.precedes(final(meta)@)),
            r is Ok <==> !old(meta)@.sealed && old(meta)@.queryable(value) && (forall|k: int|
                0 <= k < 32 ==> old(meta)@.queryable(#[trigger] bits[k])) && old(meta)@.selectors
                + 2 <= usize::MAX,
            r is Ok ==> old(meta)@.grown(final(meta)@, 2),
            old(meta)@.wf() ==> final(meta)@.wf(),
    {
        let ghost before = meta@;
        let ghost config = Self::config_for(before, value, bits);
        let ghost start = before.begin().next(ConfigStep::Selector).next(ConfigStep::Selector).next(
            ConfigStep::Equality(value),
        );
        let ghost enabled = equalities(start, bits@, 32);
        proof {
            lemma_equalities_stuck(start, bits@, 0, 32);
            lemma_bit_gates_stuck(enabled, config.s_binary, bits@, 0, 32);
        }
        let s_binary = meta.selector()?;
        let s_composition = meta.selector()?;
        meta.enable_equality(value)?;

        let mut i: usize = 0;
        while i < BITS
            invariant
                i <= 32,
                before == old(meta)@,
                config == Self::config_for(before, value, bits),
                start == before.begin().next(ConfigStep::Selector).next(ConfigStep::Selector).next(
                    ConfigStep::Equality(value),
                ),
                enabled == equalities(start, bits@, 32),
                (Setup { shape: meta@, error: None }) == equalities(start, bits@, i as nat),
                bit_gates(enabled, config.s_binary, bits@, 0).error is Some ==> bit_gates(
                    enabled,
                    config.s_binary,
                    bits@,
                    32,
                ) == enabled,
                before.grown(meta@, 2),
                meta@.gates == before.gates,
                meta@.lookups == before.lookups,
                before.precedes(meta@),
                before.wf() ==> meta@.wf(),
                before.queryable(value),
                forall|k: int| 0 <= k < i ==> before.queryable(#[trigger] bits[k]),
            decreases 32 - i,
        {
            let ghost current = meta@;
            let r = meta.enable_equality(bits[i]);
            proof {
                assert(bits@[i as int] == bits[i as int]);
                assert(current.width(bits[i as int].kind) == before.width(bits[i as int].kind));
                if r is Ok {
                    before.lemma_precedes_transitive(current, meta@);
                    assert forall|k: ColumnKind| meta@.width(k) == before.width(k) by {
                        assert(current.width(k) == before.width(k));
                    }
                } else {
                    lemma_equalities_stuck(start, bits@, (i + 1) as nat, 32);
                }
            }
            match r {
                Ok(()) => {},
                Err(e) => {
                    return Err(e);
                },
            }
            i = i + 1;
        }
        let ghost plain = meta@;
        let mut i: usize = 0;
        while i < BITS
            invariant
                i <= 32,
                before == old(meta)@,
                config == Self::config_for(before, value, bits),
                s_binary == config.s_binary,
                start == before.begin().next(ConfigStep::Selector).next(ConfigStep::Selector).next(
                    ConfigStep::Equality(value),
                ),
                enabled == equalities(start, bits@, 32),
                (Setup { shape: plain, error: None }) == enabled,
                (Setup { shape: meta@, error: None }) == bit_gates(
                    enabled,
                    config.s_binary,
                    bits@,
                    i as nat,
                ),
                before.grown(plain, 2),
                before.precedes(plain),
                !before.sealed,
                meta@ == (Shape { gates: meta@.gates, ..plain }),
                plain.gates == before.gates,
                plain.lookups == before.lookups,
                meta@.gates.len() == before.gates.len() + i,
                forall|j: int| 0 <= j < before.gates.len() ==> meta@.gates[j] == before.gates[j],
                forall|k: int|
                    0 <= k < i ==> #[trigger] meta@.gates[before.gates.len() + k] == bit_gate(
                        config.s_binary,
                        bits[k],
                    ),
                before.wf() ==> meta@.wf(),
                before.queryable(value),
                forall|k: int| 0 <= k < 32 ==> before.queryable(#[trigger] bits[k]),
            decreases 32 - i,
        {
            let bit = Expression::query(bits[i], Rotation::cur());
            let poly = bit.duplicate().mul(bit.sub(Expression::constant(Fe::one())));
            let ghost current = meta@;
            proof {
                assert(bits@[i as int] == bits[i as int]);
                assert(poly == bit_poly(bits[i as int]));
                assert(before.queryable(bits[i as int]));
                assert(current.width(bits[i as int].kind) == before.width(bits[i as int].kind));
                reveal_with_fuel(Shape::expression_ok, 4);
                assert(current.expression_ok(poly));
            }
            let r = meta.create_gate("binary_constraint", s_binary, poly);
            proof {
                if r is Err {
                    lemma_bit_gates_stuck(enabled, config.s_binary, bits@, (i + 1) as nat, 32);
                }
            }
            match r {
                Ok(()) => {},
                Err(e) => {
                    return Err(e);
                },
            }
            i = i + 1;
        }
        let mut sum = Expression::constant(Fe::zero());
        let mut power: u64 = 1;
        let mut i: usize = 0;
        proof {
            lemma2_to64();
        }
        while i < BITS
            invariant
                i <= 32,
                sum == composition(bits@, i as nat),
                power == pow2(i as nat),
                power <= 0x1_0000_0000,
            decreases 32 - i,
        {
            proof {
                lemma2_to64();
                if i < 31 {
                    lemma_pow2_strictly_increases(i as nat, 31);
                }
                vstd::arithmetic::power2::lemma_pow2_unfold((i + 1) as nat);
                assert(bits@[i as int] == bits[i as int]);
            }
            let bit = Expression::query(bits[i], Rotation::cur());
            sum = sum.add(bit.mul(Expression::constant(Fe::from_u64(power))));
            power = power * 2;
            i = i + 1;
        }
        let v = Expression::query(value, Rotation::cur());
        proof {
            assert forall|k: int| 0 <= k < bits@.len() implies meta@.queryable(
                #[trigger] bits@[k],
            ) by {
                assert(before.queryable(bits[k]));
                assert(meta@.width(bits[k].kind) == before.width(bits[k].kind));
            }
            lemma_composition_ok(meta@, bits@, 32);
            assert(meta@.width(value.kind) == before.width(value.kind));
            reveal_with_fuel(Shape::expression_ok, 2);
        }
        let ghost gated = meta@;
        meta.create_gate("composition_constraint", s_composition, v.sub(sum))?;
        proof {
            if before.wf() && Self::columns_fit(value, bits) {
                let after = meta@;
                assert forall|i: int| 0 <= i < after.gates.len() implies ((
                #[trigger] after.gates[i]).selector == config.s_binary ==> config.is_bit_poly(
                    after.gates[i].poly,
                )) && (after.gates[i].selector == config.s_composition ==> after.gates[i].poly
                    == composition_poly(config.value, config.bits@)) by {
                    if i < before.gates.len() {
                        assert(after.gates[i] == before.gates[i]);
                        assert(before.gate_ok(before.gates[i]));
                    } else if i < before.gates.len() + 32 {
                        let k = i - before.gates.len();
                        assert(gated.gates[before.gates.len() + k] == bit_gate(
                            config.s_binary,
                            bits[k],
                        ));
                        assert(after.gates[i].poly == bit_poly(config.bits[k]));
                    }
                }
                assert forall|k: int| 0 <= k < 32 implies #[trigger] config.has_bit_gate(
                    after,
                    k,
                ) by {
                    assert(gated.gates[before.gates.len() + k] == bit_gate(
                        config.s_binary,
                        bits[k],
                    ));
                    assert(after.gates[before.gates.len() + k] == bit_gate(
                        config.s_binary,
                        config.bits[k],
                    ));
                }
                assert forall|i: int| 0 <= i < after.lookups.len() implies (
                #[trigger] after.lookups[i]).selector != config.s_binary
                    && after.lookups[i].selector != config.s_composition by {
                    assert(before.lookup_ok(before.lookups[i]));
                }
                assert forall|k: int| 0 <= k < 32 implies after.has_column(
                    #[trigger] config.bits[k],
                ) by {
                    assert(before.queryable(bits[k]));
                    assert(after.width(bits[k].kind) == before.width(bits[k].kind));
                }
                assert(config.valid(after));
                assert forall|i: int| before.gates.len() <= i < after.gates.len() implies (
                #[trigger] after.gates[i]).selector.index >= before.selectors by {
                    if i < before.gates.len() + 32 {
                        let k = i - before.gates.len();
                        assert(gated.gates[before.gates.len() + k] == bit_gate(
                            config.s_binary,
                            bits[k],
                        ));
                    }
                }
                assert(before.precedes(after));
            }
        }
        Ok(BinaryRangeConfig { value, bits, s_binary, s_composition })
    }

    /// The steps of `assign_and_decompose`: a new region with both selectors
    /// on, the value in the value column and its bits in the bit columns.
    pub open spec fn decomposing(self, p: Progress, value: u32) -> Progress {
        bit_assigning(
            p.next(Step::Region("binary decomposition")).next(Step::Enable(self.s_binary, 0)).next(
                Step::Enable(self.s_composition, 0),
            ).next(
                Step::Assign(ColumnKind::Advice, self.value, 0, Value::Known(Fe::of(value as nat))),
            ),
            self.bits@,
            value,
            32,
        )
    }

    /// Assigns a value and its thirty-two bits to a region of its own, with
    /// the bit gates and the composition gate switched on. With a
    /// configuration that fits, it succeeds exactly if a row is left; then
    /// bit `k` of the row is `(value >> k) & 1`, the weighted sum of the bit
    /// cells is the value, and a witness that met its constraints still
    /// does so.
    #[verifier::rlimit(100)]
    pub fn assign_and_decompose(&self, layouter: &mut Layouter, value: u32) -> (r: Result<
        AssignedCell,
        AssignmentError,
    >)
        requires
            old(layouter).wf(),
        ensures
            final(layouter).wf(),
            (Progress { layout: final(layouter)@, error: failure(r) }) == self.decomposing(
                old(layouter)@.begin(),
                value,
            ),
            self.valid(old(layouter)@.cs) ==> (r is Ok <==> old(layouter)@.frontier() < old(layouter)@.rows),
            r matches Ok(out) ==> {
                &&& out == (AssignedCell {
                    cell: old(layouter)@.frontier_cell(self.value),
                    value: Value::Known(Fe::of(value as nat)),
                })
                &&& old(layouter)@.advanced(final(layouter)@, out, 1)
                &&& final(layouter)@.flags == old(layouter)@.flags.insert(
                    (self.s_binary, old(layouter)@.frontier() as int),
                ).insert((self.s_composition, old(layouter)@.frontier() as int))
                &&& self.valid(old(layouter)@.cs) ==> {
                    &&& forall|k: int|
                        0 <= k < 32 ==> final(layouter)@.cells.contains_key(
                            old(layouter)@.frontier_cell(#[trigger] self.bits[k]),
                        ) && final(layouter)@.cells[old(layouter)@.frontier_cell(self.bits[k])]
                            == Fe::of(bit_of(value, k as nat))
                    &&& weighted_sum(
                        final(layouter)@.cells,
                        self.bits@,
                        old(layouter)@.frontier() as int,
                        32,
                    ) == value
                    &&& old(layouter)@.sound() ==> final(layouter)@.sound()
                }
            },
    {
        let ghost before = layouter@;
        let ghost row = before.frontier() as int;
        let ghost opened = before.begin().next(Step::Region("binary decomposition")).next(
            Step::Enable(self.s_binary, 0),
        ).next(Step::Enable(self.s_composition, 0)).next(
            Step::Assign(ColumnKind::Advice, self.value, 0, Value::Known(Fe::of(value as nat))),
        );
        proof {
            reveal(Layout::step);
            old(layouter).lemma_wf();
            lemma_bit_assigning_stuck(opened, self.bits@, value, 0, 32);
        }
        layouter.assign_region("binary decomposition");
        layouter.enable_selector(self.s_binary, 0)?;
        layouter.enable_selector(self.s_composition, 0)?;
        let value_cell = layouter.assign_advice(
            self.value,
            0,
            Value::known(Fe::from_u64(value as u64)),
        )?;
        let ghost base = layouter@;
        proof {
            assert(before.extends(base));
        }
        let mut i: usize = 0;
        while i < BITS
            invariant
                i <= 32,
                layouter.wf(),
                before == old(layouter)@,
                before.wf(),
                row == before.frontier(),
                row < before.rows,
                opened == (Progress { layout: base, error: None }),
                self.decomposing(before.begin(), value) == bit_assigning(
                    opened,
                    self.bits@,
                    value,
                    32,
                ),
                value_cell == (AssignedCell {
                    cell: Cell { column: self.value, row: row as usize },
                    value: Value::Known(Fe::of(value as nat)),
                }),
                (Progress { layout: layouter@, error: None }) == bit_assigning(
                    opened,
                    self.bits@,
                    value,
                    i as nat,
                ),
                base.cs == before.cs,
                base.rows == before.rows,
                base.region_start == row,
                base.region_rows == 1,
                base.cells == before.cells.insert(
                    Cell { column: self.value, row: row as usize },
                    Fe::of(value as nat),
                ),
                layouter@ == (Layout { cells: layouter@.cells, ..base }),
                base.cells.submap_of(layouter@.cells),
                forall|c: Cell| #[trigger]
                    layouter@.cells.contains_key(c) ==> base.cells.contains_key(c) || (c.row == row
                        && among(self.bits@, i as nat, c.column)),
                forall|k: int|
                    0 <= k < i ==> layouter@.cells.contains_key(
                        Cell { column: #[trigger] self.bits[k], row: row as usize },
                    ) && layouter@.cells[Cell { column: self.bits[k], row: row as usize }]
                        == Fe::of(bit_of(value, k as nat)),
            decreases 32 - i,
        {
            let bit: u32 = (value >> (i as u32)) & 1;
            let ghost current = layouter@;
            proof {
                assert(bit == bit_of(value, i as nat));
                assert(self.bits@[i as int] == self.bits[i as int]);
            }
            let r = layouter.assign_advice(self.bits[i], 0, Value::known(Fe::from_u64(bit as u64)));
            proof {
                reveal(Layout::step);
                let target = Cell { column: self.bits[i as int], row: row as usize };
                if self.valid(before.cs) {
                    assert(self.bits[i as int].kind == ColumnKind::Advice);
                    assert(before.cs.has_column(self.bits[i as int]));
                    if current.cells.contains_key(target) {
                        if base.cells.contains_key(target) {
                            assert(self.bits[i as int] != self.value);
                            assert(before.cells.contains_key(target));
                            assert(false);
                        } else {
                            let k = choose|k: int|
                                0 <= k < i && #[trigger] self.bits@[k] == self.bits[i as int];
                            assert(self.bits[k] != self.bits[i as int]);
                            assert(false);
                        }
                    }
                    assert(r is Ok);
                }
                if r is Err {
                    lemma_bit_assigning_stuck(opened, self.bits@, value, (i + 1) as nat, 32);
                } else {
                    assert forall|c: Cell| #[trigger] layouter@.cells.contains_key(c) implies (
                    base.cells.contains_key(c) || (c.row == row && among(
                        self.bits@,
                        (i + 1) as nat,
                        c.column,
                    ))) by {
                        if c == target {
                            assert(self.bits@[i as int] == c.column);
                        } else {
                            assert(current.cells.contains_key(c));
                            if !base.cells.contains_key(c) {
                                let k = choose|k: int|
                                    0 <= k < i && #[trigger] self.bits@[k] == c.column;
                                assert(self.bits@[k] == c.column);
                            }
                        }
                    }
                }
            }
            match r {
                Ok(_) => {},
                Err(e) => {
                    return Err(e);
                },
            }
            i = i + 1;
        }
        proof {
            let after = layouter@;
            assert(base.extends(after));
            before.lemma_extends_transitive(base, after);
            assert(base.cells.contains_key(value_cell.cell));
            assert(base.cells.dom().contains(value_cell.cell));
            assert(after.cells.dom().contains(value_cell.cell));
            if self.valid(before.cs) {
                lemma_modulus_large();
                Fe::lemma_value_of(value as nat);
                assert forall|k: int| 0 <= k < 32 implies after.cells.contains_key(
                    Cell { column: #[trigger] self.bits@[k], row: row as usize },
                ) && after.cells[Cell { column: self.bits@[k], row: row as usize }].value()
                    == bit_of(value, k as nat) by {
                    assert(self.bits@[k] == self.bits[k]);
                    lemma_bit_step(value, k as nat);
                    Fe::lemma_value_of(bit_of(value, k as nat));
                }
                lemma_composition_vanishes(after.cells, row, self.value, self.bits@, value);
                assert forall|k: int| 0 <= k < 32 implies after.cells.contains_key(
                    before.frontier_cell(#[trigger] self.bits[k]),
                ) && after.cells[before.frontier_cell(self.bits[k])] == Fe::of(
                    bit_of(value, k as nat),
                ) by {
                    assert(before.frontier_cell(self.bits[k]) == Cell {
                        column: self.bits[k],
                        row: row as usize,
                    });
                }
                if before.sound() {
                    assert forall|i: int, r: int|
                        0 <= i < after.cs.gates.len() && #[trigger] after.flags.contains(
                            (after.cs.gates[i].selector, r),
                        ) && !before.flags.contains(
                            (after.cs.gates[i].selector, r),
                        ) implies after.cs.gates[i].poly.defined(after.cells, r)
                        && after.cs.gates[i].poly.eval(after.cells, r) == 0 by {
                        let g = after.cs.gates[i];
                        assert(r == row);
                        if g.selector == self.s_binary {
                            assert(self.is_bit_poly(g.poly));
                            let k = choose|k: int|
                                0 <= k < 32 && g.poly == bit_poly(#[trigger] self.bits[k]);
                            assert(self.bits@[k] == self.bits[k]);
                            lemma_bit_step(value, k as nat);
                            lemma_bit_vanishes(after.cells, row, self.bits[k]);
                        } else {
                            assert(g.selector == self.s_composition);
                        }
                    }
                    assert forall|i: int, r: int|
                        0 <= i < after.cs.lookups.len() && #[trigger] after.flags.contains(
                            (after.cs.lookups[i].selector, r),
                        ) && !before.flags.contains(
                            (after.cs.lookups[i].selector, r),
                        ) implies after.cs.lookups[i].input.defined(after.cells, r)
                        && after.table_has(
                        after.cs.lookups[i].table,
                        after.cs.lookups[i].input.eval(after.cells, r),
                    ) by {
                        assert(after.cs.lookups[i].selector != self.s_binary);
                    }
                    before.lemma_sound_extends(after);
                }
            }
        }
        Ok(value_cell)
    }

    /// Where a bit cell holds a value for which `bit * (bit - 1)` is not
    /// zero, on a row at which the bit selector is on, verification reports
    /// a violation of that bit's gate on that row.
    pub proof fn lemma_bad_bit_reported(self, l: Layout, k: int, row: int)
        requires
            l.wf(),
            self.valid(l.cs),
            0 <= k < 32,
            l.flags.contains((self.s_binary, row)),
            bit_poly(self.bits[k]).eval(l.cells, row) != 0,
        ensures
            exists|i: int|
                0 <= i < l.cs.gates.len() && #[trigger] l.cs.gates[i] == bit_gate(
                    self.s_binary,
                    self.bits[k],
                ) && l.failures().contains(
                    VerificationFailure::GateViolation {
                        gate_index: i as usize,
                        gate_name: "binary_constraint",
                        row: row as usize,
                        value: Fe::of(bit_poly(self.bits[k]).eval(l.cells, row)),
                    },
                ),
            l.verdict() is Err,
    {
        assert(self.has_bit_gate(l.cs, k));
        let i = choose|i: int|
            0 <= i < l.cs.gates.len() && #[trigger] l.cs.gates[i] == bit_gate(
                self.s_binary,
                self.bits[k],
            );
        l.lemma_gate_violation_reported(i, row);
    }
}

impl BinaryRangeConfig {
    /// Where a bit cell of a row at which the bit selector is on is
    /// overwritten with a value for which `bit * (bit - 1)` is not zero,
    /// verification reports a violation of that bit's gate on that row.
    pub proof fn lemma_tampered_bit_reported(self, l: Layout, k: int, row: int, value: Fe)
        requires
            l.wf(),
            self.valid(l.cs),
            0 <= k < 32,
            l.flags.contains((self.s_binary, row)),
            l.cells.contains_key(Cell { column: self.bits[k], row: row as usize }),
            prod_mod(value.value(), diff_mod(value.value(), 1)) != 0,
        ensures
            ({
                let (later, error) = l.step(
                    Step::Overwrite(Cell { column: self.bits[k], row: row as usize }, value),
                );
                &&& error is None
                &&& later.verdict() is Err
                &&& exists|i: int|
                    0 <= i < l.cs.gates.len() && #[trigger] l.cs.gates[i] == bit_gate(
                        self.s_binary,
                        self.bits[k],
                    ) && later.failures().contains(
                        VerificationFailure::GateViolation {
                            gate_index: i as usize,
                            gate_name: "binary_constraint",
                            row: row as usize,
                            value: Fe::of(prod_mod(value.value(), diff_mod(value.value(), 1))),
                        },
                    )
            }),
    {
        reveal(Layout::step);
        let cell = Cell { column: self.bits[k], row: row as usize };
        let later = l.step(Step::Overwrite(cell, value)).0;
        l.lemma_step_wf(Step::Overwrite(cell, value));
        assert(0 <= row < l.rows);
        assert(bit_poly(self.bits[k]).eval(later.cells, row) == prod_mod(
            value.value(),
            diff_mod(value.value(), 1),
        )) by {
            reveal_with_fuel(Expression::eval, 4);
            lemma_cell_ref(later.cells, self.bits[k], 0, row);
            Fe::lemma_value_of(1);
            lemma_modulus_large();
        }
        self.lemma_bad_bit_reported(later, k, row);
    }
}

/// The circuit that checks a 32-bit value by its thirty-two bits.
#[derive(Clone, Copy, Debug)]
pub struct BinaryRangeCircuit {
    pub value: u32,
}

impl Default for BinaryRangeCircuit {
    fn default() -> (c: BinaryRangeCircuit)
        ensures
            c == (BinaryRangeCircuit { value: 0 }),
    {
        BinaryRangeCircuit { value: 0 }
    }
}

/// The configuration steps that allocate `n` advice columns.
pub open spec fn advice_columns(s: Setup, n: nat) -> Setup
    decreases n,
{
    if n == 0 {
        s
    } else {
        advice_columns(s, (n - 1) as nat).next(ConfigStep::Column(ColumnKind::Advice))
    }
}

/// Once a step was refused, further allocations change nothing.
pub proof fn lemma_advice_columns_stuck(s: Setup, m: nat, n: nat)
    requires
        m <= n,
    ensures
        advice_columns(s, m).error is Some ==> advice_columns(s, n) == advice_columns(s, m),
    decreases n,
{
    if m < n {
        lemma_advice_columns_stuck(s, m, (n - 1) as nat);
    }
}

impl BinaryRangeCircuit {
    /// The circuit without its witness.
    pub fn without_witnesses(&self) -> (c: BinaryRangeCircuit)
        ensures
            c == (BinaryRangeCircuit { value: 0 }),
    {
        BinaryRangeCircuit { value: 0 }
    }

    /// The bit columns that `configure` allocates: the thirty-two advice
    /// columns after the value column.
    pub open spec fn bits_for(cs: Shape) -> [Column; 32] {
        let n = cs.advice.len();
        [
            advice_at(n + 1),
            advice_at(n + 2),
            advice_at(n + 3),
            advice_at(n + 4),
            advice_at(n + 5),
            advice_at(n + 6),
            advice_at(n + 7),
            advice_at(n + 8),
            advice_at(n + 9),
            advice_at(n + 10),
            advice_at(n + 11),
            advice_at(n + 12),
            advice_at(n + 13),
            advice_at(n + 14),
            advice_at(n + 15),
            advice_at(n + 16),
            advice_at(n + 17),
            advice_at(n + 18),
            advice_at(n + 19),
            advice_at(n + 20),
            advice_at(n + 21),
            advice_at(n + 22),
            advice_at(n + 23),
            advice_at(n + 24),
            advice_at(n + 25),
            advice_at(n + 26),
            advice_at(n + 27),
            advice_at(n + 28),
            advice_at(n + 29),
            advice_at(n + 30),
            advice_at(n + 31),
            advice_at(n + 32),
        ]
    }

    /// The configuration that `configure` returns on success: the value
    /// column is the first advice column that is allocated, and the bit
    /// columns are the next thirty-two.
    pub open spec fn config_for(cs: Shape) -> BinaryRangeConfig {
        BinaryRangeConfig::config_for(cs, advice_at(cs.advice.len()), Self::bits_for(cs))
    }

    /// The configuration steps of the circuit: thirty-three advice columns,
    /// and the steps of the range check.
    pub open spec fn configured(cs: Shape) -> Setup {
        BinaryRangeConfig::configuring(
            advice_columns(cs.begin(), 33),
            advice_at(cs.advice.len()),
            Self::bits_for(cs),
        )
    }

    /// Allocates the circuit's columns and configures the range check. It
    /// succeeds exactly if the system is not sealed and has room for
    /// thirty-three advice columns and two selectors; then the
    /// configuration fits the system.
    pub fn configure(meta: &mut ConstraintSystem) -> (r: Result<
        BinaryRangeConfig,
        ConfigurationError,
    >)
        ensures
            (Setup { shape: final(meta)@, error: refusal(r) }) == Self::configured(old(meta)@),
            r matches Ok(config) ==> config == Self::config_for(old(meta)@) && (old(meta)@.wf()
                ==> config.valid(final(meta)@) && old(meta)@.precedes(final(meta)@)),
            r is Ok <==> !old(meta)@.sealed && old(meta)@.advice.len() + 33 <= usize::MAX && old(meta)@.selectors + 2 <= usize::MAX,
            r is Ok ==> final(meta)@.advice.len() == old(meta)@.advice.len() + 33 && final(meta)@.instance.len() == old(meta)@.instance.len() && final(meta)@.fixed.len() == old(meta)@.fixed.len() && final(meta)@.tables == old(meta)@.tables,
            old(meta)@.wf() ==> final(meta)@.wf(),
    {
        let ghost before = meta@;
        let ghost n = before.advice.len();
        let ghost allocated = advice_columns(before.begin(), 33);
        proof {
            lemma_advice_columns_stuck(before.begin(), 1, 33);
            reveal_with_fuel(advice_columns, 2);
            lemma_stuck_configuring(allocated, advice_at(n), Self::bits_for(before));
        }
        let value = meta.advice_column()?;
        let mut bits = [value;32];
        let mut i: usize = 0;
        while i < BITS
            invariant
                i <= 32,
                before == old(meta)@,
                n == before.advice.len(),
                allocated == advice_columns(before.begin(), 33),
                allocated.error is Some ==> BinaryRangeConfig::configuring(
                    allocated,
                    advice_at(n),
                    Self::bits_for(before),
                ) == allocated,
                (Setup { shape: meta@, error: None }) == advice_columns(
                    before.begin(),
                    (i + 1) as nat,
                ),
                value == advice_at(n),
                forall|k: int| 0 <= k < i ==> #[trigger] bits[k] == advice_at((n + 1 + k) as nat),
                !before.sealed,
                meta@ == (Shape { advice: meta@.advice, ..before }),
                meta@.advice.len() == n + 1 + i,
                n + 1 + i <= usize::MAX,
                before.precedes(meta@),
                before.wf() ==> meta@.wf(),
            decreases 32 - i,
        {
            let ghost current = meta@;
            let r = meta.advice_column();
            proof {
                if r is Err {
                    lemma_advice_columns_stuck(before.begin(), (i + 2) as nat, 33);
                } else {
                    before.lemma_precedes_transitive(current, meta@);
                }
            }
            match r {
                Ok(column) => {
                    bits[i] = column;
                },
                Err(e) => {
                    return Err(e);
                },
            }
            i = i + 1;
        }
        let ghost middle = meta@;
        proof {
            assert(bits =~= Self::bits_for(before));
            assert forall|k: int| 0 <= k < 32 implies middle.queryable(#[trigger] bits[k]) by {}
            assert(BinaryRangeConfig::columns_fit(value, bits));
        }
        let r = BinaryRangeConfig::configure(meta, value, bits);
        proof {
            if r is Ok {
                middle.lemma_same_widths(meta@);
                if before.wf() {
                    before.lemma_precedes_transitive(middle, meta@);
                }
            }
        }
        r
    }

    /// The steps of `synthesize`: the value and its bits assigned.
    pub open spec fn synthesized(&self, config: BinaryRangeConfig, l: Layout) -> Progress {
        config.decomposing(l.begin(), self.value)
    }

    /// Lays the circuit out: it assigns the value with its bits. With a
    /// configuration that fits, it succeeds exactly if a row is left; then
    /// bit `k` of the row is `(value >> k) & 1`, the weighted sum of the bit
    /// cells is the value, and a witness that met its constraints still
    /// does so.
    pub fn synthesize(&self, config: BinaryRangeConfig, layouter: &mut Layouter) -> (r: Result<
        (),
        AssignmentError,
    >)
        requires
            old(layouter).wf(),
        ensures
            final(layouter).wf(),
            (Progress { layout: final(layouter)@, error: failure(r) }) == self.synthesized(
                config,
                old(layouter)@,
            ),
            config.valid(old(layouter)@.cs) ==> (r is Ok <==> old(layouter)@.frontier() < old(layouter)@.rows),
            r is Ok ==> {
                &&& old(layouter)@.extends(final(layouter)@)
                &&& final(layouter)@.bindings == old(layouter)@.bindings
                &&& final(layouter)@.flags == old(layouter)@.flags.insert(
                    (config.s_binary, old(layouter)@.frontier() as int),
                ).insert((config.s_composition, old(layouter)@.frontier() as int))
                &&& config.valid(old(layouter)@.cs) ==> {
                    &&& forall|k: int|
                        0 <= k < 32 ==> final(layouter)@.cells.contains_key(
                            old(layouter)@.frontier_cell(#[trigger] config.bits[k]),
                        ) && final(layouter)@.cells[old(layouter)@.frontier_cell(config.bits[k])]
                            == Fe::of(bit_of(self.value, k as nat))
                    &&& weighted_sum(
                        final(layouter)@.cells,
                        config.bits@,
                        old(layouter)@.frontier() as int,
                        32,
                    ) == self.value
                    &&& old(layouter)@.sound() ==> final(layouter)@.sound()
                }
            },
    {
        match config.assign_and_decompose(layouter, self.value) {
            Ok(_) => Ok(()),
            Err(e) => Err(e),
        }
    }

    /// The constraint system of the circuit, configured from nothing.
    pub open spec fn system() -> Shape {
        Self::configured(Shape::empty()).shape
    }

    /// Why `run` fails, if it does: the error of laying out the grid, or
    /// else that of the first step of synthesis that is refused.
    pub open spec fn run_error(&self, k: u32, instance: Seq<Seq<Fe>>) -> Option<Error> {
        match new_error(Self::system(), k, instance) {
            Some(e) => Some(Error::Assignment(e)),
            None => match self.synthesized(
                Self::config_for(Shape::empty()),
                Layout::fresh(Self::system(), k, instance),
            ).error {
                Some(e) => Some(Error::Assignment(e)),
                None => None,
            },
        }
    }

    /// Configures the circuit, synthesizes it on a grid of `2^k` rows and
    /// seals the witness; the circuit has no instance column. It succeeds
    /// exactly if `k` is below 31 and no instance column is given. Then
    /// verification of the witness succeeds, bit `k` of the first row is
    /// `(value >> k) & 1`, and the weighted sum of the bit cells is the
    /// value.
    pub fn run(&self, k: u32, instance: Vec<Vec<Fe>>) -> (r: Result<MockProver, Error>)
        ensures
            r is Ok <==> k < 31 && instance.len() == 0,
            self.run_error(k, columns_view(instance)) == (match r {
                Ok(_) => None::<Error>,
                Err(e) => Some(e),
            }),
            r matches Ok(p) ==> {
                let config = Self::config_for(Shape::empty());
                &&& p.wf()
                &&& p@ == self.synthesized(
                    config,
                    Layout::fresh(Self::system(), k, columns_view(instance)),
                ).layout
                &&& config.valid(p@.cs)
                &&& p@.flags == Set::<(Selector, int)>::empty().insert(
                    (config.s_binary, 0),
                ).insert((config.s_composition, 0))
                &&& p@.failures().len() == 0
                &&& p@.verdict() is Ok
                &&& forall|i: int|
                    0 <= i < 32 ==> p@.cells[Cell { column: #[trigger] config.bits[i], row: 0 }]
                        == Fe::of(bit_of(self.value, i as nat))
                &&& weighted_sum(p@.cells, config.bits@, 0, 32) == self.value
            },
    {
        let mut cs = ConstraintSystem::new();
        let config = match Self::configure(&mut cs) {
            Ok(config) => config,
            Err(e) => {
                return Err(Error::Configuration(e));
            },
        };
        let ghost cols = columns_view(instance);
        proof {
            lemma2_to64();
            vstd::arithmetic::power2::lemma_pow2_pos(k as nat);
            assert(cols.len() == instance.len());
        }
        let mut layouter = match Layouter::new(cs, k, instance) {
            Ok(layouter) => layouter,
            Err(e) => {
                return Err(Error::Assignment(e));
            },
        };
        let ghost fresh = layouter@;
        proof {
            layouter.lemma_wf();
            assert(fresh.sound());
            assert(Self::system().precedes(fresh.cs));
            config.lemma_valid_later(Self::system(), fresh.cs);
        }
        match self.synthesize(config, &mut layouter) {
            Ok(()) => {},
            Err(e) => {
                return Err(Error::Assignment(e));
            },
        }
        proof {
            let after = layouter@;
            after.lemma_sound_complete();
            after.lemma_sound_failures();
            assert(after.bindings =~= Seq::empty());
            assert forall|i: int| 0 <= i < 32 implies after.cells[Cell {
                column: #[trigger] config.bits[i],
                row: 0,
            }] == Fe::of(bit_of(self.value, i as nat)) by {
                assert(fresh.frontier_cell(config.bits[i]) == Cell {
                    column: config.bits[i],
                    row: 0,
                });
            }
        }
        match layouter.seal() {
            Ok(p) => Ok(p),
            Err(e) => Err(Error::Assignment(e)),
        }
    }
}

/// A refused step before the range check's own steps leaves them without
/// effect.
pub proof fn lemma_stuck_configuring(s: Setup, value: Column, bits: [Column; 32])
    ensures
        s.error is Some ==> BinaryRangeConfig::configuring(s, value, bits) == s,
{
    let start = s.next(ConfigStep::Selector).next(ConfigStep::Selector).next(
        ConfigStep::Equality(value),
    );
    lemma_equalities_stuck(start, bits@, 0, 32);
    lemma_bit_gates_stuck(
        equalities(start, bits@, 32),
        BinaryRangeConfig::config_for(s.shape, value, bits).s_binary,
        bits@,
        0,
        32,
    );
}

/// The two range checks behind one operation: a caller picks the policy once,
/// by the width of its values and by whether it can afford a lookup table.
#[derive(Clone, Copy, Debug)]
pub enum RangeCheck {
    /// Four byte limbs, each looked up in the byte table.
    Lookup(BitDecompositionConfig),
    /// Thirty-two bit limbs, each held to 0 or 1 by a gate.
    Binary(BinaryRangeConfig),
}

impl RangeCheck {
    /// The steps of `assign_and_decompose`: those of the policy.
    pub open spec fn decomposing(self, p: Progress, value: u32) -> Progress {
        match self {
            RangeCheck::Lookup(config) => config.decomposing(p, value),
            RangeCheck::Binary(config) => config.decomposing(p, value),
        }
    }

    /// Whether the configuration of the policy fits a constraint system.
    pub open spec fn valid(self, cs: Shape) -> bool {
        match self {
            RangeCheck::Lookup(config) => config.valid(cs),
            RangeCheck::Binary(config) => config.valid(cs),
        }
    }

    /// Whether the policy has what it needs besides its row: the byte
    /// policy needs its table loaded.
    pub open spec fn ready(self, l: Layout) -> bool {
        match self {
            RangeCheck::Lookup(config) => config.table_loaded(l),
            RangeCheck::Binary(_) => true,
        }
    }

    /// The column of the value.
    pub open spec fn value_column(self) -> Column {
        match self {
            RangeCheck::Lookup(config) => config.value,
            RangeCheck::Binary(config) => config.value,
        }
    }

    /// Assigns a value and its limbs to a region of its own and switches the
    /// constraints of the policy on. With a configuration that fits, it
    /// succeeds exactly if a row is left; then the cell that is returned
    /// holds the value, and with a policy that is ready a witness that met
    /// its constraints still does so.
    pub fn assign_and_decompose(&self, layouter: &mut Layouter, value: u32) -> (r: Result<
        AssignedCell,
        AssignmentError,
    >)
        requires
            old(layouter).wf(),
        ensures
            final(layouter).wf(),
            (Progress { layout: final(layouter)@, error: failure(r) }) == self.decomposing(
                old(layouter)@.begin(),
                value,
            ),
            self.valid(old(layouter)@.cs) ==> (r is Ok <==> old(layouter)@.frontier() < old(layouter)@.rows),
            r matches Ok(out) ==> {
                &&& out == (AssignedCell {
                    cell: old(layouter)@.frontier_cell(self.value_column()),
                    value: Value::Known(Fe::of(value as nat)),
                })
                &&& old(layouter)@.advanced(final(layouter)@, out, 1)
                &&& self.valid(old(layouter)@.cs) && self.ready(old(layouter)@) && old(layouter)@.sound() ==> final(layouter)@.sound()
            },
    {
        match self {
            RangeCheck::Lookup(config) => config.assign_and_decompose(layouter, value),
            RangeCheck::Binary(config) => config.assign_and_decompose(layouter, value),
        }
    }
}

} // verus!
