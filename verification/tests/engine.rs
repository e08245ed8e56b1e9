use arith_circuits::column::{Cell, Column, ColumnKind, Rotation, Selector};
use arith_circuits::constraint_system::{ConfigurationError, ConstraintSystem};
use arith_circuits::expression::Expression;
use arith_circuits::field::Fe;
use arith_circuits::grid::Grid;
use arith_circuits::layouter::{AssignmentError, Layouter, Value};
use arith_circuits::mock_prover::VerificationFailure;

fn advice(index: usize) -> Column {
    Column { kind: ColumnKind::Advice, index }
}

/// One advice column pair with a doubling gate: `b = a + a`.
fn doubling() -> (ConstraintSystem, Column, Column, Selector) {
    let mut cs = ConstraintSystem::new();
    let a = cs.advice_column().unwrap();
    let b = cs.advice_column().unwrap();
    cs.enable_equality(a).unwrap();
    cs.enable_equality(b).unwrap();
    let s = cs.selector().unwrap();
    let qa = Expression::query(a, Rotation::cur());
    let qb = Expression::query(b, Rotation::cur());
    cs.create_gate("double", s, qa.duplicate().add(qa).sub(qb)).unwrap();
    (cs, a, b, s)
}

#[test]
fn columns_and_selectors_are_numbered_by_kind() {
    let mut cs = ConstraintSystem::new();
    assert_eq!(cs.advice_column(), Ok(advice(0)));
    assert_eq!(cs.advice_column(), Ok(advice(1)));
    assert_eq!(cs.fixed_column(), Ok(Column { kind: ColumnKind::Fixed, index: 0 }));
    assert_eq!(cs.instance_column(), Ok(Column { kind: ColumnKind::Instance, index: 0 }));
    assert_eq!(cs.lookup_table_column(), Ok(Column { kind: ColumnKind::LookupTable, index: 0 }));
    assert_eq!(cs.allocate_column(ColumnKind::Advice), Ok(advice(2)));
    assert_eq!(cs.selector(), Ok(Selector { index: 0 }));
    assert_eq!(cs.complex_selector(), Ok(Selector { index: 1 }));
    assert_eq!(cs.num_columns(ColumnKind::Advice), 3);
    assert_eq!(cs.num_columns(ColumnKind::LookupTable), 1);
    assert_eq!(cs.num_selectors(), 2);
    assert!(!cs.equality_enabled(advice(1)));
    assert_eq!(cs.enable_equality(advice(1)), Ok(()));
    assert!(cs.equality_enabled(advice(1)));
    assert!(!cs.equality_enabled(advice(0)));
}

#[test]
fn configuration_errors() {
    let mut cs = ConstraintSystem::new();
    let a = cs.advice_column().unwrap();
    let table = cs.lookup_table_column().unwrap();
    let s = cs.selector().unwrap();
    let q = || Expression::query(advice(0), Rotation::cur());

    assert_eq!(cs.enable_equality(advice(1)), Err(ConfigurationError::InvalidColumn));
    assert_eq!(cs.enable_equality(table), Err(ConfigurationError::InvalidColumn));
    assert_eq!(cs.enable_constant(a), Err(ConfigurationError::InvalidColumn));
    assert_eq!(
        cs.enable_constant(Column { kind: ColumnKind::Fixed, index: 0 }),
        Err(ConfigurationError::InvalidColumn)
    );
    assert_eq!(
        cs.create_gate("g", Selector { index: 1 }, q()),
        Err(ConfigurationError::UnknownSelector)
    );
    assert_eq!(
        cs.create_gate("g", s, Expression::query(advice(3), Rotation::next())),
        Err(ConfigurationError::InvalidColumn)
    );
    assert_eq!(
        cs.create_gate("g", s, q().mul(Expression::query(table, Rotation::cur()))),
        Err(ConfigurationError::InvalidColumn)
    );
    assert_eq!(cs.lookup("l", s, q(), a), Err(ConfigurationError::InvalidColumn));
    assert_eq!(
        cs.lookup("l", s, q(), Column { kind: ColumnKind::LookupTable, index: 1 }),
        Err(ConfigurationError::InvalidColumn)
    );
    assert_eq!(
        cs.lookup("l", Selector { index: 9 }, q(), table),
        Err(ConfigurationError::UnknownSelector)
    );
    assert_eq!(cs.num_gates(), 0);
    assert_eq!(cs.num_lookups(), 0);
    assert_eq!(cs.create_gate("g", s, q().neg()), Ok(()));
    assert_eq!(cs.lookup("l", s, q(), table), Ok(()));

    assert!(!cs.is_sealed());
    cs.seal();
    assert!(cs.is_sealed());
    assert_eq!(cs.advice_column(), Err(ConfigurationError::Closed));
    assert_eq!(cs.allocate_column(ColumnKind::Fixed), Err(ConfigurationError::Closed));
    assert_eq!(cs.selector(), Err(ConfigurationError::Closed));
    assert_eq!(cs.enable_equality(a), Err(ConfigurationError::Closed));
    assert_eq!(cs.enable_constant(a), Err(ConfigurationError::Closed));
    assert_eq!(cs.create_gate("g", s, q()), Err(ConfigurationError::Closed));
    assert_eq!(cs.lookup("l", s, q(), table), Err(ConfigurationError::Closed));
    assert_eq!(cs.num_gates(), 1);
}

#[test]
fn layouter_seals_the_system() {
    let (cs, _, _, _) = doubling();
    let layouter = Layouter::new(cs, 2, vec![]).unwrap();
    assert!(layouter.constraint_system().is_sealed());
    assert_eq!(layouter.rows(), 4);
}

#[test]
fn expressions_evaluate_on_the_grid() {
    let mut grid = Grid::new(4, 2, 0, 0, 0, 1);
    let a = advice(0);
    let b = advice(1);
    assert!(grid.set(Cell { column: a, row: 1 }, Fe::from_u64(6)));
    assert!(grid.set(Cell { column: a, row: 2 }, Fe::from_u64(7)));
    assert!(grid.set(Cell { column: b, row: 1 }, Fe::from_u64(10)));
    assert!(!grid.set(Cell { column: b, row: 4 }, Fe::one()));
    assert!(!grid.set(Cell { column: advice(2), row: 0 }, Fe::one()));
    assert!(!grid.set(Cell { column: Column { kind: ColumnKind::Fixed, index: 0 }, row: 0 }, Fe::one()));
    assert_eq!(grid.rows(), 4);
    let cur_a = || Expression::query(a, Rotation::cur());
    let next_a = || Expression::query(a, Rotation::next());
    let prev_a = || Expression::query(a, Rotation::prev());
    let cur_b = || Expression::query(b, Rotation::cur());
    assert_eq!(cur_a().evaluate(&grid, 1), Some(Fe::from_u64(6)));
    assert_eq!(next_a().evaluate(&grid, 1), Some(Fe::from_u64(7)));
    assert_eq!(prev_a().evaluate(&grid, 2), Some(Fe::from_u64(6)));
    assert_eq!(cur_a().evaluate(&grid, 0), None);
    assert_eq!(prev_a().evaluate(&grid, 0), None);
    assert_eq!(next_a().evaluate(&grid, 3), None);
    assert_eq!(next_a().evaluate(&grid, usize::MAX), None);
    assert_eq!(
        cur_a().mul(next_a()).add(cur_b()).evaluate(&grid, 1),
        Some(Fe::from_u64(52))
    );
    assert_eq!(cur_b().sub(cur_a()).evaluate(&grid, 1), Some(Fe::from_u64(4)));
    assert_eq!(cur_a().sub(cur_b()).evaluate(&grid, 1), Some(Fe::from_u64(4).neg()));
    assert_eq!(cur_a().neg().evaluate(&grid, 1), Some(Fe::from_u64(6).neg()));
    assert_eq!(
        Expression::constant(Fe::from_u64(5)).mul(cur_a()).evaluate(&grid, 2),
        Some(Fe::from_u64(35))
    );
    assert_eq!(cur_a().add(cur_b()).evaluate(&grid, 2), None);
    assert_eq!(Expression::constant(Fe::one()).evaluate(&grid, 100), Some(Fe::one()));
    assert!(!grid.is_enabled(Selector { index: 0 }, 1));
    assert!(grid.enable(Selector { index: 0 }, 1));
    assert!(!grid.enable(Selector { index: 1 }, 1));
    assert!(!grid.enable(Selector { index: 0 }, 4));
    assert!(grid.is_enabled(Selector { index: 0 }, 1));
    assert!(!grid.is_enabled(Selector { index: 0 }, 2));
    assert!(!grid.is_enabled(Selector { index: 1 }, 1));
    assert_eq!(grid.get(Cell { column: a, row: 9 }), None);
    assert_eq!(grid.get(Cell { column: advice(2), row: 0 }), None);
}

#[test]
fn regions_are_stacked_below_each_other() {
    let (cs, a, b, s) = doubling();
    let mut layouter = Layouter::new(cs, 3, vec![]).unwrap();
    layouter.assign_region("first");
    assert_eq!(layouter.region_name(), "first");
    let x = layouter.assign_advice(a, 0, Value::known(Fe::from_u64(1))).unwrap();
    assert_eq!(x.cell(), Cell { column: a, row: 0 });
    let y = layouter.assign_advice(a, 2, Value::known(Fe::from_u64(2))).unwrap();
    assert_eq!(y.cell(), Cell { column: a, row: 2 });
    layouter.assign_region("second");
    // the first region used three rows
    let z = layouter.assign_advice(b, 0, Value::known(Fe::from_u64(3))).unwrap();
    assert_eq!(z.cell(), Cell { column: b, row: 3 });
    layouter.enable_selector(s, 1).unwrap();
    layouter.assign_region("third");
    let w = layouter.assign_advice(a, 0, Value::known(Fe::from_u64(4))).unwrap();
    assert_eq!(w.cell(), Cell { column: a, row: 5 });
    // an empty region uses no row
    layouter.assign_region("fourth");
    assert_eq!(layouter.region_name(), "fourth");
    layouter.assign_region("fifth");
    let v = layouter.assign_advice(a, 0, Value::known(Fe::from_u64(5))).unwrap();
    assert_eq!(v.cell(), Cell { column: a, row: 6 });
}

#[test]
fn assignment_errors() {
    let mut cs = ConstraintSystem::new();
    let a = cs.advice_column().unwrap();
    let b = cs.advice_column().unwrap();
    let f = cs.fixed_column().unwrap();
    let inst = cs.instance_column().unwrap();
    let table = cs.lookup_table_column().unwrap();
    let s = cs.selector().unwrap();
    cs.enable_equality(a).unwrap();
    cs.enable_equality(inst).unwrap();
    let one = Value::known(Fe::one());

    assert_eq!(
        Layouter::new(ConstraintSystem::new(), 31, vec![]).err(),
        Some(AssignmentError::GridTooLarge)
    );
    let mut layouter = Layouter::new(cs, 2, vec![vec![Fe::from_u64(9)]]).unwrap();
    layouter.assign_region("r");

    assert_eq!(layouter.assign_advice(f, 0, one).err(), Some(AssignmentError::InvalidColumn));
    assert_eq!(
        layouter.assign_advice(advice(2), 0, one).err(),
        Some(AssignmentError::InvalidColumn)
    );
    assert_eq!(layouter.assign_fixed(a, 0, one).err(), Some(AssignmentError::InvalidColumn));
    assert_eq!(layouter.assign_advice(a, 4, one).err(), Some(AssignmentError::OutOfBounds));
    assert_eq!(
        layouter.assign_advice(a, usize::MAX, one).err(),
        Some(AssignmentError::OutOfBounds)
    );
    assert_eq!(
        layouter.assign_advice(a, 0, Value::unknown()).err(),
        Some(AssignmentError::UnknownValue)
    );
    let x = layouter.assign_advice(a, 0, one).unwrap();
    assert_eq!(layouter.assign_advice(a, 0, one).err(), Some(AssignmentError::DoubleAssignment));
    let y = layouter.assign_advice(b, 0, one).unwrap();
    assert!(layouter.assign_fixed(f, 0, one).is_ok());
    assert_eq!(layouter.assign_fixed(f, 0, one).err(), Some(AssignmentError::DoubleAssignment));

    assert_eq!(
        layouter.enable_selector(Selector { index: 1 }, 0),
        Err(AssignmentError::UnknownSelector)
    );
    assert_eq!(layouter.enable_selector(s, 4), Err(AssignmentError::OutOfBounds));

    // `b` has no equality enabled
    assert_eq!(
        x.copy_advice(&mut layouter, b, 1).err(),
        Some(AssignmentError::EqualityNotEnabled)
    );
    assert_eq!(
        y.copy_advice(&mut layouter, a, 1).err(),
        Some(AssignmentError::EqualityNotEnabled)
    );
    assert_eq!(
        layouter.copy_advice(Cell { column: a, row: 3 }, a, 1).err(),
        Some(AssignmentError::UnassignedCell)
    );
    assert_eq!(x.copy_advice(&mut layouter, a, 0).err(), Some(AssignmentError::DoubleAssignment));
    assert_eq!(x.copy_advice(&mut layouter, a, 9).err(), Some(AssignmentError::OutOfBounds));
    let copy = x.copy_advice(&mut layouter, a, 1).unwrap();
    assert_eq!(copy.cell(), Cell { column: a, row: 1 });
    assert_eq!(copy.value(), one);
    assert_eq!(layouter.copies(), &vec![(x.cell(), copy.cell())]);

    assert_eq!(
        layouter.constrain_instance(x.cell(), a, 0),
        Err(AssignmentError::InvalidColumn)
    );
    assert_eq!(
        layouter.constrain_instance(x.cell(), Column { kind: ColumnKind::Instance, index: 1 }, 0),
        Err(AssignmentError::InvalidColumn)
    );
    assert_eq!(
        layouter.constrain_instance(y.cell(), inst, 0),
        Err(AssignmentError::EqualityNotEnabled)
    );
    assert_eq!(layouter.constrain_instance(x.cell(), inst, 4), Err(AssignmentError::OutOfBounds));
    assert_eq!(
        layouter.constrain_instance(Cell { column: a, row: 3 }, inst, 0),
        Err(AssignmentError::UnassignedCell)
    );
    assert_eq!(layouter.constrain_instance(x.cell(), inst, 0), Ok(()));

    assert_eq!(layouter.assign_table_cell(a, 0, one), Err(AssignmentError::InvalidColumn));
    assert_eq!(layouter.assign_table_cell(table, 4, one), Err(AssignmentError::OutOfBounds));
    assert_eq!(
        layouter.assign_table_cell(table, 0, Value::unknown()),
        Err(AssignmentError::UnknownValue)
    );
    assert_eq!(layouter.assign_table_cell(table, 3, one), Ok(()));
    assert_eq!(layouter.assign_table_cell(table, 3, one), Err(AssignmentError::DoubleAssignment));

    assert_eq!(
        layouter.overwrite(Cell { column: a, row: 2 }, Fe::zero()),
        Err(AssignmentError::UnassignedCell)
    );
    assert_eq!(layouter.overwrite(x.cell(), Fe::from_u64(5)), Ok(()));
    assert_eq!(layouter.value_of(x.cell()), Some(Fe::from_u64(5)));
    // the instance column is padded with zero
    assert_eq!(layouter.value_of(Cell { column: inst, row: 0 }), Some(Fe::from_u64(9)));
    assert_eq!(layouter.value_of(Cell { column: inst, row: 3 }), Some(Fe::zero()));
    assert_eq!(layouter.value_of(Cell { column: inst, row: 4 }), None);
}

#[test]
fn sealing_refuses_a_gate_that_reads_an_unassigned_cell() {
    let (cs, a, _, s) = doubling();
    let mut layouter = Layouter::new(cs, 2, vec![]).unwrap();
    layouter.assign_region("half");
    layouter.enable_selector(s, 0).unwrap();
    layouter.assign_advice(a, 0, Value::known(Fe::from_u64(2))).unwrap();
    assert_eq!(layouter.seal().err(), Some(AssignmentError::UnassignedCell));
}

#[test]
fn gates_are_checked_where_their_selector_is_on() {
    let (cs, a, b, s) = doubling();
    let mut layouter = Layouter::new(cs, 2, vec![]).unwrap();
    layouter.assign_region("good");
    layouter.enable_selector(s, 0).unwrap();
    layouter.assign_advice(a, 0, Value::known(Fe::from_u64(2))).unwrap();
    layouter.assign_advice(b, 0, Value::known(Fe::from_u64(4))).unwrap();
    layouter.assign_region("unchecked");
    layouter.assign_advice(a, 0, Value::known(Fe::from_u64(2))).unwrap();
    layouter.assign_advice(b, 0, Value::known(Fe::from_u64(5))).unwrap();
    layouter.assign_region("bad");
    layouter.enable_selector(s, 0).unwrap();
    layouter.assign_advice(a, 0, Value::known(Fe::from_u64(3))).unwrap();
    layouter.assign_advice(b, 0, Value::known(Fe::from_u64(5))).unwrap();
    layouter.assign_region("worse");
    layouter.enable_selector(s, 0).unwrap();
    layouter.assign_advice(a, 0, Value::known(Fe::from_u64(3))).unwrap();
    layouter.assign_advice(b, 0, Value::known(Fe::from_u64(3))).unwrap();
    let prover = layouter.seal().unwrap();
    let first = VerificationFailure::GateViolation {
        gate_index: 0,
        gate_name: "double",
        row: 2,
        value: Fe::one(),
    };
    let second = VerificationFailure::GateViolation {
        gate_index: 0,
        gate_name: "double",
        row: 3,
        value: Fe::from_u64(3),
    };
    assert_eq!(prover.verify(), Err(first));
    assert_eq!(prover.verify_all(), vec![first, second]);
}

#[test]
fn verification_is_repeatable() {
    let (cs, a, b, s) = doubling();
    let mut layouter = Layouter::new(cs, 1, vec![]).unwrap();
    layouter.assign_region("bad");
    layouter.enable_selector(s, 0).unwrap();
    let x = layouter.assign_advice(a, 0, Value::known(Fe::from_u64(3))).unwrap();
    layouter.assign_advice(b, 0, Value::known(Fe::from_u64(5))).unwrap();
    layouter.assign_region("copy");
    x.copy_advice(&mut layouter, a, 0).unwrap();
    layouter.overwrite(x.cell(), Fe::from_u64(2)).unwrap();
    let prover = layouter.seal().unwrap();
    let first = prover.verify_all();
    let second = prover.verify_all();
    assert_eq!(first.len(), 2);
    assert_eq!(first, second);
    assert_eq!(prover.verify(), prover.verify());
    assert_eq!(prover.verify(), Err(first[0]));
    assert_eq!(prover.verify_all(), first);
}

#[test]
fn overwritten_copy_is_a_copy_mismatch() {
    let (cs, a, b, _) = doubling();
    let mut layouter = Layouter::new(cs, 2, vec![]).unwrap();
    layouter.assign_region("source");
    let x = layouter.assign_advice(a, 0, Value::known(Fe::from_u64(3))).unwrap();
    layouter.assign_region("copy");
    let y = x.copy_advice(&mut layouter, b, 0).unwrap();
    assert_eq!(layouter.value_of(y.cell()), Some(Fe::from_u64(3)));

    // untouched, the copy holds
    let mut ok = Layouter::new(doubling().0, 2, vec![]).unwrap();
    ok.assign_region("source");
    let x2 = ok.assign_advice(a, 0, Value::known(Fe::from_u64(3))).unwrap();
    x2.copy_advice(&mut ok, b, 1).unwrap();
    assert_eq!(ok.seal().unwrap().verify(), Ok(()));

    layouter.overwrite(y.cell(), Fe::from_u64(4)).unwrap();
    let prover = layouter.seal().unwrap();
    let mismatch = VerificationFailure::CopyMismatch { cell_a: x.cell(), cell_b: y.cell() };
    assert_eq!(prover.verify(), Err(mismatch));
    assert_eq!(prover.verify_all(), vec![mismatch]);
}

#[test]
fn overwritten_source_is_a_copy_mismatch_too() {
    let (cs, a, b, _) = doubling();
    let mut layouter = Layouter::new(cs, 2, vec![]).unwrap();
    layouter.assign_region("source");
    let x = layouter.assign_advice(a, 0, Value::known(Fe::from_u64(3))).unwrap();
    layouter.assign_region("copy");
    let y = x.copy_advice(&mut layouter, b, 0).unwrap();
    layouter.overwrite(x.cell(), Fe::zero()).unwrap();
    assert_eq!(
        layouter.seal().unwrap().verify_all(),
        vec![VerificationFailure::CopyMismatch { cell_a: x.cell(), cell_b: y.cell() }]
    );
}

#[test]
fn lookups_are_checked_where_their_selector_is_on() {
    let mut cs = ConstraintSystem::new();
    let a = cs.advice_column().unwrap();
    let table = cs.lookup_table_column().unwrap();
    let s = cs.complex_selector().unwrap();
    cs.lookup("small", s, Expression::query(a, Rotation::cur()), table).unwrap();
    let mut layouter = Layouter::new(cs, 2, vec![]).unwrap();
    layouter.assign_table_cell(table, 0, Value::known(Fe::from_u64(10))).unwrap();
    layouter.assign_table_cell(table, 2, Value::known(Fe::from_u64(30))).unwrap();
    layouter.assign_region("values");
    for (row, v) in [30u64, 20, 10, 40].iter().enumerate() {
        layouter.assign_advice(a, row, Value::known(Fe::from_u64(*v))).unwrap();
    }
    layouter.enable_selector(s, 0).unwrap();
    layouter.enable_selector(s, 1).unwrap();
    layouter.enable_selector(s, 2).unwrap();
    let prover = layouter.seal().unwrap();
    let miss = VerificationFailure::LookupMiss {
        lookup_index: 0,
        lookup_name: "small",
        row: 1,
        value: Fe::from_u64(20),
    };
    assert_eq!(prover.verify(), Err(miss));
    assert_eq!(prover.verify_all(), vec![miss]);
}

#[test]
fn failures_come_in_the_order_of_their_kinds() {
    let mut cs = ConstraintSystem::new();
    let a = cs.advice_column().unwrap();
    let inst = cs.instance_column().unwrap();
    let table = cs.lookup_table_column().unwrap();
    cs.enable_equality(a).unwrap();
    cs.enable_equality(inst).unwrap();
    let s = cs.selector().unwrap();
    cs.create_gate("zero", s, Expression::query(a, Rotation::cur())).unwrap();
    cs.lookup("in_table", s, Expression::query(a, Rotation::cur()), table).unwrap();
    let mut layouter = Layouter::new(cs, 2, vec![vec![Fe::from_u64(8)]]).unwrap();
    layouter.assign_table_cell(table, 0, Value::known(Fe::zero())).unwrap();
    layouter.assign_region("r");
    layouter.enable_selector(s, 0).unwrap();
    let x = layouter.assign_advice(a, 0, Value::known(Fe::from_u64(7))).unwrap();
    let y = x.copy_advice(&mut layouter, a, 1).unwrap();
    layouter.constrain_instance(y.cell(), inst, 0).unwrap();
    layouter.constrain_instance(y.cell(), inst, 1).unwrap();
    layouter.overwrite(y.cell(), Fe::from_u64(6)).unwrap();
    let failures = layouter.seal().unwrap().verify_all();
    assert_eq!(
        failures,
        vec![
            VerificationFailure::GateViolation {
                gate_index: 0,
                gate_name: "zero",
                row: 0,
                value: Fe::from_u64(7),
            },
            VerificationFailure::LookupMiss {
                lookup_index: 0,
                lookup_name: "in_table",
                row: 0,
                value: Fe::from_u64(7),
            },
            VerificationFailure::CopyMismatch { cell_a: x.cell(), cell_b: y.cell() },
            VerificationFailure::InstanceMismatch {
                column: 0,
                row: 0,
                expected: Fe::from_u64(8),
                actual: Fe::from_u64(6),
            },
            VerificationFailure::InstanceMismatch {
                column: 0,
                row: 1,
                expected: Fe::zero(),
                actual: Fe::from_u64(6),
            },
        ]
    );
}

#[test]
fn values_propagate_the_unknown() {
    let three = Value::known(Fe::from_u64(3));
    let four = Value::known(Fe::from_u64(4));
    assert_eq!(three.add(&four), Value::known(Fe::from_u64(7)));
    assert_eq!(three.mul(&four), Value::known(Fe::from_u64(12)));
    assert_eq!(three.square(), Value::known(Fe::from_u64(9)));
    assert_eq!(three.add(&Value::unknown()), Value::unknown());
    assert_eq!(Value::unknown().mul(&four), Value::unknown());
    assert_eq!(Value::unknown().square(), Value::unknown());
}
