use arith_circuits::column::{Cell, Column, ColumnKind};
use arith_circuits::constraint_system::ConstraintSystem;
use arith_circuits::error::Error;
use arith_circuits::field::Fe;
use arith_circuits::layouter::{AssignmentError, Layouter, Value};
use arith_circuits::mock_prover::VerificationFailure;
use arith_circuits::square_sum::{SquareSumChip, SquareSumCircuit};

#[test]
fn test_square_sum_circuit() {
    let k = 4;

    // a = 3, b = 4
    let a = Fe::from_u64(3);
    let b = Fe::from_u64(4);
    let c = a.square().add(b.square()); // 9 + 16 = 25

    let circuit = SquareSumCircuit { a: Value::known(a), b: Value::known(b) };

    let public_inputs = vec![c];

    let prover = circuit.run(k, vec![public_inputs.clone()]).unwrap();
    assert_eq!(prover.verify(), Ok(()));

    let wrong_public_inputs = vec![c.add(Fe::one())];
    let prover = circuit.run(k, vec![wrong_public_inputs]).unwrap();
    assert!(prover.verify().is_err());

    println!("square-sum circuit test passed");
}

#[test]
fn square_sum_of_three_and_four_is_twenty_five() {
    let circuit =
        SquareSumCircuit { a: Value::known(Fe::from_u64(3)), b: Value::known(Fe::from_u64(4)) };
    let prover = circuit.run(3, vec![vec![Fe::from_u64(25)]]).unwrap();
    assert_eq!(prover.verify(), Ok(()));
    assert!(prover.verify_all().is_empty());
    // the sum sits in the third advice column on the fifth row
    let sum = Cell { column: Column { kind: ColumnKind::Advice, index: 2 }, row: 4 };
    assert_eq!(prover.value_of(sum), Some(Fe::from_u64(25)));
}

#[test]
fn square_sum_wrong_public_value_is_an_instance_mismatch() {
    let circuit =
        SquareSumCircuit { a: Value::known(Fe::from_u64(3)), b: Value::known(Fe::from_u64(4)) };
    let prover = circuit.run(4, vec![vec![Fe::from_u64(26)]]).unwrap();
    let expected = VerificationFailure::InstanceMismatch {
        column: 0,
        row: 0,
        expected: Fe::from_u64(26),
        actual: Fe::from_u64(25),
    };
    assert_eq!(prover.verify(), Err(expected));
    assert_eq!(prover.verify_all(), vec![expected]);
}

#[test]
fn square_sum_missing_public_value_reads_as_zero() {
    let circuit =
        SquareSumCircuit { a: Value::known(Fe::from_u64(3)), b: Value::known(Fe::from_u64(4)) };
    let prover = circuit.run(4, vec![vec![]]).unwrap();
    assert_eq!(
        prover.verify(),
        Err(VerificationFailure::InstanceMismatch {
            column: 0,
            row: 0,
            expected: Fe::zero(),
            actual: Fe::from_u64(25),
        })
    );
    let zero = SquareSumCircuit { a: Value::known(Fe::zero()), b: Value::known(Fe::zero()) };
    assert_eq!(zero.run(4, vec![vec![]]).unwrap().verify(), Ok(()));
}

#[test]
fn square_sum_needs_eight_rows() {
    let circuit =
        SquareSumCircuit { a: Value::known(Fe::from_u64(3)), b: Value::known(Fe::from_u64(4)) };
    let public = vec![vec![Fe::from_u64(25)]];
    assert_eq!(
        circuit.run(0, public.clone()).err(),
        Some(Error::Assignment(AssignmentError::OutOfBounds))
    );
    assert_eq!(
        circuit.run(2, public.clone()).err(),
        Some(Error::Assignment(AssignmentError::OutOfBounds))
    );
    assert!(circuit.run(3, public.clone()).is_ok());
    assert_eq!(
        circuit.run(31, public.clone()).err(),
        Some(Error::Assignment(AssignmentError::GridTooLarge))
    );
}

#[test]
fn square_sum_instance_columns_must_fit() {
    let circuit =
        SquareSumCircuit { a: Value::known(Fe::from_u64(3)), b: Value::known(Fe::from_u64(4)) };
    assert_eq!(circuit.run(4, vec![]).err(), Some(Error::Assignment(AssignmentError::BadInstance)));
    assert_eq!(
        circuit.run(4, vec![vec![], vec![]]).err(),
        Some(Error::Assignment(AssignmentError::BadInstance))
    );
    let too_long = vec![Fe::zero(); 17];
    assert_eq!(
        circuit.run(4, vec![too_long]).err(),
        Some(Error::Assignment(AssignmentError::BadInstance))
    );
    assert!(circuit.run(4, vec![vec![Fe::from_u64(25); 16]]).is_ok());
}

#[test]
fn square_sum_without_witnesses_cannot_be_assigned() {
    let circuit =
        SquareSumCircuit { a: Value::known(Fe::from_u64(3)), b: Value::known(Fe::from_u64(4)) };
    let blank = circuit.without_witnesses();
    assert_eq!(blank.a, Value::unknown());
    assert_eq!(blank.b, Value::unknown());
    assert_eq!(
        blank.run(4, vec![vec![]]).err(),
        Some(Error::Assignment(AssignmentError::UnknownValue))
    );
    let half = SquareSumCircuit { a: Value::known(Fe::one()), b: Value::unknown() };
    assert_eq!(
        half.run(4, vec![vec![]]).err(),
        Some(Error::Assignment(AssignmentError::UnknownValue))
    );
}

#[test]
fn square_sum_chip_step_by_step() {
    let mut cs = ConstraintSystem::new();
    let config = SquareSumCircuit::configure(&mut cs).unwrap();
    assert_eq!(config.advice[0], Column { kind: ColumnKind::Advice, index: 0 });
    assert_eq!(config.advice[2], Column { kind: ColumnKind::Advice, index: 2 });
    assert_eq!(config.instance, Column { kind: ColumnKind::Instance, index: 0 });
    assert_eq!(config.s_square.index, 0);
    assert_eq!(config.s_add.index, 1);
    assert_eq!(cs.num_gates(), 2);
    assert_eq!(cs.gate(0).name, "square");
    assert_eq!(cs.gate(1).name, "add");

    let mut layouter = Layouter::new(cs, 3, vec![vec![Fe::from_u64(74)]]).unwrap();
    let chip = SquareSumChip::construct(config);
    assert_eq!(chip.config().s_add.index, 1);
    let a = chip.load_private(&mut layouter, Value::known(Fe::from_u64(5))).unwrap();
    let b = chip.load_private(&mut layouter, Value::known(Fe::from_u64(7))).unwrap();
    assert_eq!(a.cell(), Cell { column: config.advice[0], row: 0 });
    assert_eq!(b.cell(), Cell { column: config.advice[0], row: 1 });
    let a2 = chip.square(&mut layouter, a).unwrap();
    assert_eq!(a2.value(), Value::known(Fe::from_u64(25)));
    assert_eq!(a2.cell(), Cell { column: config.advice[1], row: 2 });
    let b2 = chip.square(&mut layouter, b).unwrap();
    assert_eq!(b2.value(), Value::known(Fe::from_u64(49)));
    let sum = chip.add(&mut layouter, a2, b2).unwrap();
    assert_eq!(sum.value(), Value::known(Fe::from_u64(74)));
    assert_eq!(layouter.value_of(sum.cell()), Some(Fe::from_u64(74)));
    assert_eq!(layouter.copies().len(), 4);
    chip.expose_public(&mut layouter, sum, 0).unwrap();
    assert_eq!(layouter.bindings().len(), 1);
    // the grid is full now
    assert_eq!(
        chip.load_private(&mut layouter, Value::known(Fe::one())).map(|_| ()),
        Ok(())
    );
    let prover = layouter.seal().unwrap();
    assert_eq!(prover.verify(), Ok(()));
}
