use arith_circuits::column::{Cell, Column, ColumnKind};
use arith_circuits::constraint_system::ConstraintSystem;
use arith_circuits::error::Error;
use arith_circuits::field::Fe;
use arith_circuits::layouter::{AssignmentError, Layouter, Value};
use arith_circuits::mock_prover::VerificationFailure;
use arith_circuits::optimized::{OptimizedCircuit, OptimizedFieldChip};

#[test]
fn test_optimized_circuit() {
    let k = 6;

    let constant = Fe::from_u64(3);
    let a = Fe::from_u64(4);
    let b = Fe::from_u64(5);

    // a^2 + b^2 + a*b*const = 16 + 25 + 60 = 101
    let expected_output = a.square().add(b.square()).add(a.mul(b).mul(constant));
    println!("Expected output: {:?}", expected_output);

    let circuit = OptimizedCircuit { constant, a: Value::known(a), b: Value::known(b) };

    let public_inputs = vec![expected_output];

    let prover = circuit.run(k, vec![public_inputs.clone()]).unwrap();
    assert_eq!(prover.verify(), Ok(()));

    let wrong_public_inputs = vec![expected_output.add(Fe::one())];
    let prover = circuit.run(k, vec![wrong_public_inputs]).unwrap();
    assert!(prover.verify().is_err());

    println!("optimized circuit test passed");
}

#[test]
fn optimized_output_of_four_five_three_is_a_hundred_and_one() {
    let circuit = OptimizedCircuit {
        constant: Fe::from_u64(3),
        a: Value::known(Fe::from_u64(4)),
        b: Value::known(Fe::from_u64(5)),
    };
    let prover = circuit.run(4, vec![vec![Fe::from_u64(101)]]).unwrap();
    assert_eq!(prover.verify(), Ok(()));
    let result = Cell { column: Column { kind: ColumnKind::Advice, index: 0 }, row: 8 };
    assert_eq!(prover.value_of(result), Some(Fe::from_u64(101)));
    let product = Cell { column: Column { kind: ColumnKind::Advice, index: 2 }, row: 6 };
    assert_eq!(prover.value_of(product), Some(Fe::from_u64(60)));
    let constant = Cell { column: Column { kind: ColumnKind::Fixed, index: 0 }, row: 6 };
    assert_eq!(prover.value_of(constant), Some(Fe::from_u64(3)));

    let wrong = circuit.run(4, vec![vec![Fe::from_u64(100)]]).unwrap();
    assert_eq!(
        wrong.verify(),
        Err(VerificationFailure::InstanceMismatch {
            column: 0,
            row: 0,
            expected: Fe::from_u64(100),
            actual: Fe::from_u64(101),
        })
    );
}

#[test]
fn optimized_needs_sixteen_rows() {
    let circuit = OptimizedCircuit {
        constant: Fe::from_u64(3),
        a: Value::known(Fe::from_u64(4)),
        b: Value::known(Fe::from_u64(5)),
    };
    assert_eq!(
        circuit.run(3, vec![vec![Fe::from_u64(101)]]).err(),
        Some(Error::Assignment(AssignmentError::OutOfBounds))
    );
    assert!(circuit.run(4, vec![vec![Fe::from_u64(101)]]).is_ok());
    let blank = circuit.without_witnesses();
    assert_eq!(blank.constant, Fe::zero());
    assert_eq!(
        blank.run(4, vec![vec![]]).err(),
        Some(Error::Assignment(AssignmentError::UnknownValue))
    );
}

#[test]
fn optimized_chip_step_by_step() {
    let mut cs = ConstraintSystem::new();
    let config = OptimizedCircuit::configure(&mut cs).unwrap();
    assert_eq!(cs.num_gates(), 3);
    assert_eq!(cs.gate(0).name, "add_gate");
    assert_eq!(cs.gate(1).name, "mul_gate");
    assert_eq!(cs.gate(2).name, "square_gate");
    assert_eq!((config.s_add.index, config.s_mul.index, config.s_sq.index), (0, 1, 2));
    assert!(cs.equality_enabled(config.constant));

    let mut layouter = Layouter::new(cs, 4, vec![vec![]]).unwrap();
    let chip = OptimizedFieldChip::construct(config);
    let a = chip.load_private(&mut layouter, Value::known(Fe::from_u64(2))).unwrap();
    let b = chip.load_private(&mut layouter, Value::known(Fe::from_u64(10))).unwrap();
    let a_sq = chip.square(&mut layouter, a).unwrap();
    assert_eq!(a_sq.0.cell(), Cell { column: config.advice[0], row: 3 });
    assert_eq!(a_sq.0.value(), Value::known(Fe::from_u64(4)));
    let product = chip.mul_with_constant(&mut layouter, a, b, Fe::from_u64(7)).unwrap();
    assert_eq!(product.0.value(), Value::known(Fe::from_u64(140)));
    let sum = chip.add_three(&mut layouter, a, b, product).unwrap();
    assert_eq!(sum.0.value(), Value::known(Fe::from_u64(152)));
    assert_eq!(sum.0.cell(), Cell { column: config.advice[0], row: 6 });
    let prover = layouter.seal().unwrap();
    assert_eq!(prover.verify(), Ok(()));
}
