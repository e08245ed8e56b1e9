use arith_circuits::column::{Cell, Column, ColumnKind};
use arith_circuits::constraint_system::ConstraintSystem;
use arith_circuits::error::Error;
use arith_circuits::field::Fe;
use arith_circuits::layouter::{AssignmentError, Layouter, Value};
use arith_circuits::mock_prover::VerificationFailure;
use arith_circuits::multi_chip::{AddChip, MulChip, MultiChipCircuit, SquareChip};

#[test]
fn test_multi_chip_circuit() {
    let k = 8;

    let constant = Fe::from_u64(3);
    let a = Fe::from_u64(4);
    let b = Fe::from_u64(5);

    // a^2 + b^2 + a*b*const = 16 + 25 + 60 = 101
    let expected_output = a.square().add(b.square()).add(a.mul(b).mul(constant));
    println!("computation:");
    println!("   a = {}, b = {}, const = {}", 4, 5, 3);
    println!("   a^2 = {}", 16);
    println!("   b^2 = {}", 25);
    println!("   a*b*const = {}*{}*{} = {}", 4, 5, 3, 60);
    println!("   final = 16 + 25 + 60 = {}", 101);
    println!("   expected_output = {:?}", expected_output);

    let circuit = MultiChipCircuit { constant, a: Value::known(a), b: Value::known(b) };

    let public_inputs = vec![expected_output];

    let prover = circuit.run(k, vec![public_inputs.clone()]).unwrap();
    assert_eq!(prover.verify(), Ok(()));

    let wrong_public_inputs = vec![expected_output.add(Fe::one())];
    let prover = circuit.run(k, vec![wrong_public_inputs]).unwrap();
    assert!(prover.verify().is_err());

    println!("multi-chip circuit test passed");
}

#[test]
fn multi_chip_output_of_four_five_three_is_a_hundred_and_one() {
    let circuit = MultiChipCircuit {
        constant: Fe::from_u64(3),
        a: Value::known(Fe::from_u64(4)),
        b: Value::known(Fe::from_u64(5)),
    };
    let prover = circuit.run(3, vec![vec![Fe::from_u64(101)]]).unwrap();
    assert_eq!(prover.verify(), Ok(()));
    // the sum is in the fourth column of the add chip, the sixth advice column
    let result = Cell { column: Column { kind: ColumnKind::Advice, index: 5 }, row: 5 };
    assert_eq!(prover.value_of(result), Some(Fe::from_u64(101)));

    let wrong = circuit.run(3, vec![vec![Fe::from_u64(102)]]).unwrap();
    assert_eq!(
        wrong.verify_all(),
        vec![VerificationFailure::InstanceMismatch {
            column: 0,
            row: 0,
            expected: Fe::from_u64(102),
            actual: Fe::from_u64(101),
        }]
    );
    assert_eq!(
        circuit.run(2, vec![vec![Fe::from_u64(101)]]).err(),
        Some(Error::Assignment(AssignmentError::OutOfBounds))
    );
}

#[test]
fn multi_chip_configuration_keeps_chips_apart() {
    let mut cs = ConstraintSystem::new();
    let config = MultiChipCircuit::configure(&mut cs).unwrap();
    assert_eq!(cs.num_columns(ColumnKind::Advice), 9);
    assert_eq!(cs.num_columns(ColumnKind::Fixed), 1);
    assert_eq!(cs.num_columns(ColumnKind::Instance), 1);
    assert_eq!(cs.num_selectors(), 3);
    assert_eq!(cs.num_gates(), 3);
    assert_eq!(cs.gate(0).name, "square_gate");
    assert_eq!(cs.gate(1).name, "add_three_gate");
    assert_eq!(cs.gate(2).name, "mul_with_constant_gate");
    assert_eq!(config.square_config.advice[1].index, 1);
    assert_eq!(config.add_config.advice[0].index, 2);
    assert_eq!(config.add_config.advice[3].index, 5);
    assert_eq!(config.mul_config.advice[2].index, 8);
    assert_eq!(config.square_config.s_square.index, 0);
    assert_eq!(config.add_config.s_add.index, 1);
    assert_eq!(config.mul_config.s_mul.index, 2);

    let mut layouter = Layouter::new(cs, 3, vec![vec![]]).unwrap();
    let square_chip = SquareChip::construct(config.square_config);
    let add_chip = AddChip::construct(config.add_config);
    let mul_chip = MulChip::construct(config.mul_config);
    layouter.assign_region("load");
    let x = layouter
        .assign_advice(config.square_config.advice[0], 0, Value::known(Fe::from_u64(6)))
        .unwrap();
    let x2 = square_chip.square(&mut layouter, x).unwrap();
    assert_eq!(x2.value(), Value::known(Fe::from_u64(36)));
    let x3 = mul_chip.mul_with_constant(&mut layouter, x, x2, Fe::from_u64(2)).unwrap();
    assert_eq!(x3.value(), Value::known(Fe::from_u64(432)));
    let sum = add_chip.add_three(&mut layouter, x, x2, x3).unwrap();
    assert_eq!(sum.value(), Value::known(Fe::from_u64(474)));
    assert_eq!(sum.cell(), Cell { column: config.add_config.advice[3], row: 3 });
    assert_eq!(layouter.seal().unwrap().verify(), Ok(()));
}
