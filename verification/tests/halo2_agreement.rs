//! What the library lays out is handed to halo2's own mock prover, which has
//! to come to the same verdict.

use std::collections::HashMap;

use arith_circuits::column::{Cell, Column as LibColumn, ColumnKind, Selector as LibSelector};
use arith_circuits::constraint_system::ConstraintSystem as LibSystem;
use arith_circuits::expression::Expression as LibExpression;
use arith_circuits::field::Fe;
use arith_circuits::layouter::{Layouter as LibLayouter, Value as LibValue};
use arith_circuits::multi_chip::MultiChipCircuit;
use arith_circuits::optimized::OptimizedCircuit;
use arith_circuits::range_check::{BinaryRangeCircuit, BitDecompositionCircuit};
use arith_circuits::square_sum::SquareSumCircuit;
use halo2_proofs::circuit::{Cell as HaloCell, Layouter, SimpleFloorPlanner, Value};
use halo2_proofs::dev::MockProver;
use halo2_proofs::pasta::Fp;
use halo2_proofs::plonk::{
    Advice, Circuit, Column, ConstraintSystem, Error, Expression, Fixed, Instance, Selector,
    TableColumn, VirtualCells,
};
use halo2_proofs::poly::Rotation;

const SQUARE_SUM: u8 = 0;
const OPTIMIZED: u8 = 1;
const MULTI_CHIP: u8 = 2;
const BYTES: u8 = 3;
const BITS: u8 = 4;

/// One of the library's circuits, by its number, with its inputs and with
/// the cell to overwrite after synthesis, if any.
#[derive(Clone, Copy)]
struct Bridged<const W: u8> {
    k: u32,
    a: u64,
    b: u64,
    constant: u64,
    tamper: Option<(Cell, u64)>,
}

#[derive(Clone, Debug)]
struct Columns {
    advice: Vec<Column<Advice>>,
    fixed: Vec<Column<Fixed>>,
    instance: Vec<Column<Instance>>,
    tables: Vec<TableColumn>,
    selectors: Vec<Selector>,
}

fn to_fp(x: Fe) -> Fp {
    Fp::from_raw(x.to_limbs())
}

fn system(which: u8) -> LibSystem {
    let mut cs = LibSystem::new();
    match which {
        SQUARE_SUM => SquareSumCircuit::configure(&mut cs).map(|_| ()),
        OPTIMIZED => OptimizedCircuit::configure(&mut cs).map(|_| ()),
        MULTI_CHIP => MultiChipCircuit::configure(&mut cs).map(|_| ()),
        BYTES => BitDecompositionCircuit::configure(&mut cs).map(|_| ()),
        _ => BinaryRangeCircuit::configure(&mut cs).map(|_| ()),
    }
    .unwrap();
    cs
}

impl<const W: u8> Bridged<W> {
    fn new(k: u32, a: u64, b: u64, constant: u64) -> Self {
        Bridged { k, a, b, constant, tamper: None }
    }

    /// The layout with nothing in the instance columns, and with the cell
    /// overwritten that is to be.
    fn layout(&self) -> LibLayouter {
        let instance = vec![vec![]; system(W).num_columns(ColumnKind::Instance)];
        self.layout_with(instance)
    }

    /// Whether halo2's mock prover accepts the layout with these values in
    /// the instance column.
    fn halo2_accepts(&self, public: Vec<u64>) -> bool {
        let instance: Vec<Vec<Fp>> = if system(W).num_columns(ColumnKind::Instance) == 0 {
            vec![]
        } else {
            vec![public.into_iter().map(Fp::from).collect()]
        };
        MockProver::run(self.k, self, instance).unwrap().verify().is_ok()
    }

    /// Whether the library accepts the layout with these values in the
    /// instance column.
    fn library_accepts(&self, public: Vec<u64>) -> bool {
        let instance: Vec<Vec<Fe>> = if system(W).num_columns(ColumnKind::Instance) == 0 {
            vec![]
        } else {
            vec![public.into_iter().map(Fe::from_u64).collect()]
        };
        self.layout_with(instance).seal().unwrap().verify().is_ok()
    }

    fn layout_with(&self, instance: Vec<Vec<Fe>>) -> LibLayouter {
        let a = LibValue::known(Fe::from_u64(self.a));
        let b = LibValue::known(Fe::from_u64(self.b));
        let constant = Fe::from_u64(self.constant);
        let mut cs = LibSystem::new();
        let mut layouter;
        match W {
            SQUARE_SUM => {
                let config = SquareSumCircuit::configure(&mut cs).unwrap();
                layouter = LibLayouter::new(cs, self.k, instance).unwrap();
                SquareSumCircuit { a, b }.synthesize(config, &mut layouter).unwrap();
            }
            OPTIMIZED => {
                let config = OptimizedCircuit::configure(&mut cs).unwrap();
                layouter = LibLayouter::new(cs, self.k, instance).unwrap();
                OptimizedCircuit { constant, a, b }.synthesize(config, &mut layouter).unwrap();
            }
            MULTI_CHIP => {
                let config = MultiChipCircuit::configure(&mut cs).unwrap();
                layouter = LibLayouter::new(cs, self.k, instance).unwrap();
                MultiChipCircuit { constant, a, b }.synthesize(config, &mut layouter).unwrap();
            }
            BYTES => {
                let config = BitDecompositionCircuit::configure(&mut cs).unwrap();
                layouter = LibLayouter::new(cs, self.k, instance).unwrap();
                BitDecompositionCircuit { value: self.a as u32 }
                    .synthesize(config, &mut layouter)
                    .unwrap();
            }
            _ => {
                let config = BinaryRangeCircuit::configure(&mut cs).unwrap();
                layouter = LibLayouter::new(cs, self.k, instance).unwrap();
                BinaryRangeCircuit { value: self.a as u32 }
                    .synthesize(config, &mut layouter)
                    .unwrap();
            }
        }
        if let Some((cell, value)) = self.tamper {
            layouter.overwrite(cell, Fe::from_u64(value)).unwrap();
        }
        layouter
    }
}

fn convert(
    e: &LibExpression,
    cells: &mut VirtualCells<'_, Fp>,
    columns: &Columns,
) -> Expression<Fp> {
    match e {
        LibExpression::Constant(c) => Expression::Constant(to_fp(*c)),
        LibExpression::ColumnRef { column, rotation } => match column.kind {
            ColumnKind::Advice => {
                cells.query_advice(columns.advice[column.index], Rotation(rotation.offset))
            }
            ColumnKind::Fixed => {
                assert_eq!(rotation.offset, 0);
                cells.query_fixed(columns.fixed[column.index])
            }
            ColumnKind::Instance => {
                cells.query_instance(columns.instance[column.index], Rotation(rotation.offset))
            }
            ColumnKind::LookupTable => unreachable!(),
        },
        LibExpression::Neg(a) => -convert(a, cells, columns),
        LibExpression::Add(a, b) => convert(a, cells, columns) + convert(b, cells, columns),
        LibExpression::Sub(a, b) => convert(a, cells, columns) - convert(b, cells, columns),
        LibExpression::Mul(a, b) => convert(a, cells, columns) * convert(b, cells, columns),
    }
}

impl<const W: u8> Circuit<Fp> for Bridged<W> {
    type Config = Columns;
    type FloorPlanner = SimpleFloorPlanner;

    fn without_witnesses(&self) -> Self {
        *self
    }

    fn configure(meta: &mut ConstraintSystem<Fp>) -> Columns {
        let cs = system(W);
        let kind = |kind, index| LibColumn { kind, index };
        let advice: Vec<_> =
            (0..cs.num_columns(ColumnKind::Advice)).map(|_| meta.advice_column()).collect();
        let fixed: Vec<_> =
            (0..cs.num_columns(ColumnKind::Fixed)).map(|_| meta.fixed_column()).collect();
        let instance: Vec<_> =
            (0..cs.num_columns(ColumnKind::Instance)).map(|_| meta.instance_column()).collect();
        let tables: Vec<_> = (0..cs.num_columns(ColumnKind::LookupTable))
            .map(|_| meta.lookup_table_column())
            .collect();
        let selectors: Vec<_> = (0..cs.num_selectors())
            .map(|s| {
                if (0..cs.num_lookups()).any(|i| cs.lookup_at(i).selector.index == s) {
                    meta.complex_selector()
                } else {
                    meta.selector()
                }
            })
            .collect();
        for (i, c) in advice.iter().enumerate() {
            if cs.equality_enabled(kind(ColumnKind::Advice, i)) {
                meta.enable_equality(*c);
            }
        }
        for (i, c) in fixed.iter().enumerate() {
            if cs.equality_enabled(kind(ColumnKind::Fixed, i)) {
                meta.enable_constant(*c);
            }
        }
        for (i, c) in instance.iter().enumerate() {
            if cs.equality_enabled(kind(ColumnKind::Instance, i)) {
                meta.enable_equality(*c);
            }
        }
        let columns = Columns { advice, fixed, instance, tables, selectors };
        for i in 0..cs.num_gates() {
            let gate = cs.gate(i);
            meta.create_gate(gate.name, |cells| {
                let s = cells.query_selector(columns.selectors[gate.selector.index]);
                vec![s * convert(&gate.poly, cells, &columns)]
            });
        }
        for i in 0..cs.num_lookups() {
            let lookup = cs.lookup_at(i);
            meta.lookup(|cells| {
                let s = cells.query_selector(columns.selectors[lookup.selector.index]);
                vec![(
                    s * convert(&lookup.input, cells, &columns),
                    columns.tables[lookup.table.index],
                )]
            });
        }
        columns
    }

    fn synthesize(&self, columns: Columns, mut layouter: impl Layouter<Fp>) -> Result<(), Error> {
        let layout = self.layout();
        let rows = layout.rows();
        let kind = |kind, index| LibColumn { kind, index };
        let known = |cell: Cell| layout.value_of(cell).map(to_fp);

        for (t, table_column) in columns.tables.iter().enumerate() {
            layouter.assign_table(
                || "table",
                |mut table| {
                    for row in 0..rows {
                        if let Some(v) = known(Cell { column: kind(ColumnKind::LookupTable, t), row })
                        {
                            table.assign_cell(|| "row", *table_column, row, || Value::known(v))?;
                        }
                    }
                    Ok(())
                },
            )?;
        }

        let cells: HashMap<Cell, HaloCell> = layouter.assign_region(
            || "witness",
            |mut region| {
                let mut cells = HashMap::new();
                for (i, c) in columns.advice.iter().enumerate() {
                    for row in 0..rows {
                        let cell = Cell { column: kind(ColumnKind::Advice, i), row };
                        if let Some(v) = known(cell) {
                            let assigned =
                                region.assign_advice(|| "advice", *c, row, || Value::known(v))?;
                            cells.insert(cell, assigned.cell());
                        }
                    }
                }
                for (i, c) in columns.fixed.iter().enumerate() {
                    for row in 0..rows {
                        let cell = Cell { column: kind(ColumnKind::Fixed, i), row };
                        if let Some(v) = known(cell) {
                            let assigned =
                                region.assign_fixed(|| "fixed", *c, row, || Value::known(v))?;
                            cells.insert(cell, assigned.cell());
                        }
                    }
                }
                for (s, selector) in columns.selectors.iter().enumerate() {
                    for row in 0..rows {
                        if layout.grid().is_enabled(LibSelector { index: s }, row) {
                            selector.enable(&mut region, row)?;
                        }
                    }
                }
                for (a, b) in layout.copies().iter() {
                    region.constrain_equal(cells[a], cells[b])?;
                }
                Ok(cells)
            },
        )?;

        for (cell, public) in layout.bindings().iter() {
            layouter.constrain_instance(
                cells[cell],
                columns.instance[public.column.index],
                public.row,
            )?;
        }
        Ok(())
    }
}

fn advice(index: usize, row: usize) -> Cell {
    Cell { column: LibColumn { kind: ColumnKind::Advice, index }, row }
}

#[test]
fn halo2_agrees_on_the_square_sum() {
    let circuit = Bridged::<SQUARE_SUM>::new(4, 3, 4, 0);
    for public in [25u64, 26, 24, 0] {
        assert_eq!(circuit.halo2_accepts(vec![public]), public == 25);
        assert_eq!(circuit.library_accepts(vec![public]), public == 25);
    }
}

#[test]
fn halo2_agrees_on_the_optimized_circuit() {
    let circuit = Bridged::<OPTIMIZED>::new(6, 4, 5, 3);
    for public in [101u64, 102, 100, 41] {
        assert_eq!(circuit.halo2_accepts(vec![public]), public == 101);
        assert_eq!(circuit.library_accepts(vec![public]), public == 101);
    }
}

#[test]
fn halo2_agrees_on_the_multi_chip_circuit() {
    let circuit = Bridged::<MULTI_CHIP>::new(8, 4, 5, 3);
    for public in [101u64, 102, 100, 41] {
        assert_eq!(circuit.halo2_accepts(vec![public]), public == 101);
        assert_eq!(circuit.library_accepts(vec![public]), public == 101);
    }
}

#[test]
fn halo2_agrees_on_the_range_checks() {
    for value in [0u64, 1, 0x12345678, 0xFFFFFFFF] {
        let bytes = Bridged::<BYTES>::new(10, value, 0, 0);
        assert!(bytes.halo2_accepts(vec![]));
        assert!(bytes.library_accepts(vec![]));
        let bits = Bridged::<BITS>::new(10, value, 0, 0);
        assert!(bits.halo2_accepts(vec![]));
        assert!(bits.library_accepts(vec![]));
    }
}

#[test]
fn halo2_agrees_on_tampered_witnesses() {
    // the square of `a`, in the second advice column on the third row
    let mut squares = Bridged::<SQUARE_SUM>::new(4, 3, 4, 0);
    squares.tamper = Some((advice(1, 2), 10));
    assert!(!squares.halo2_accepts(vec![25]));
    assert!(!squares.library_accepts(vec![25]));
    assert!(!squares.halo2_accepts(vec![26]));
    assert!(!squares.library_accepts(vec![26]));

    // the copy of `a` in the multiply region: only the copy constraint breaks
    let mut copied = Bridged::<OPTIMIZED>::new(6, 0, 5, 3);
    copied.tamper = Some((advice(0, 0), 7));
    assert!(!copied.halo2_accepts(vec![25]));
    assert!(!copied.library_accepts(vec![25]));

    // a byte out of range, and a byte in range that spells another value
    let mut bytes = Bridged::<BYTES>::new(10, 0x12345678, 0, 0);
    bytes.tamper = Some((advice(1, 0), 0x178));
    assert!(!bytes.halo2_accepts(vec![]));
    assert!(!bytes.library_accepts(vec![]));
    bytes.tamper = Some((advice(1, 0), 0x79));
    assert!(!bytes.halo2_accepts(vec![]));
    assert!(!bytes.library_accepts(vec![]));

    // a bit that is no bit, and a bit that is flipped
    let mut bits = Bridged::<BITS>::new(10, 0b1010, 0, 0);
    bits.tamper = Some((advice(6, 0), 2));
    assert!(!bits.halo2_accepts(vec![]));
    assert!(!bits.library_accepts(vec![]));
    bits.tamper = Some((advice(1, 0), 1));
    assert!(!bits.halo2_accepts(vec![]));
    assert!(!bits.library_accepts(vec![]));
    bits.tamper = None;
    assert!(bits.halo2_accepts(vec![]));
    assert!(bits.library_accepts(vec![]));
}
