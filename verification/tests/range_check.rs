use arith_circuits::column::{Cell, Column, ColumnKind};
use arith_circuits::constraint_system::ConstraintSystem;
use arith_circuits::error::Error;
use arith_circuits::field::Fe;
use arith_circuits::layouter::{AssignmentError, Layouter, Value};
use arith_circuits::mock_prover::VerificationFailure;
use arith_circuits::range_check::{BinaryRangeCircuit, BitDecompositionCircuit, RangeCheck};

fn advice(index: usize, row: usize) -> Cell {
    Cell { column: Column { kind: ColumnKind::Advice, index }, row }
}

#[test]
fn test_bit_decomposition_range_check() {
    let k = 10;

    let test_value = 0x12345678u32; // 305419896

    let circuit = BitDecompositionCircuit { value: test_value };

    let prover = circuit.run(k, vec![]).unwrap();
    assert_eq!(prover.verify(), Ok(()));

    println!("byte decomposition passed; value: 0x{:08X} = {}", test_value, test_value);
}

#[test]
fn test_binary_range_check() {
    let k = 10;

    let test_value = 0xFFFFFFFFu32; // the largest 32-bit value

    let circuit = BinaryRangeCircuit { value: test_value };

    let prover = circuit.run(k, vec![]).unwrap();
    assert_eq!(prover.verify(), Ok(()));

    println!("binary decomposition passed; value: 0x{:08X} = {}", test_value, test_value);
}

#[test]
fn byte_limbs_are_the_bytes_of_the_value() {
    for &v in [0u32, 1, 0xFF, 0x100, 0x12345678, 0xDEADBEEF, 0xFFFFFFFF].iter() {
        let prover = BitDecompositionCircuit { value: v }.run(8, vec![]).unwrap();
        assert_eq!(prover.verify(), Ok(()));
        assert!(prover.verify_all().is_empty());
        assert_eq!(prover.value_of(advice(0, 0)), Some(Fe::from_u64(v as u64)));
        for i in 0..4 {
            let byte = ((v >> (8 * i)) & 0xFF) as u64;
            assert_eq!(prover.value_of(advice(1 + i, 0)), Some(Fe::from_u64(byte)));
        }
    }
    let prover = BitDecompositionCircuit { value: 0x12345678 }.run(8, vec![]).unwrap();
    assert_eq!(prover.value_of(advice(1, 0)), Some(Fe::from_u64(0x78)));
    assert_eq!(prover.value_of(advice(2, 0)), Some(Fe::from_u64(0x56)));
    assert_eq!(prover.value_of(advice(3, 0)), Some(Fe::from_u64(0x34)));
    assert_eq!(prover.value_of(advice(4, 0)), Some(Fe::from_u64(0x12)));
}

#[test]
fn byte_table_holds_every_byte_once() {
    let prover = BitDecompositionCircuit { value: 7 }.run(8, vec![]).unwrap();
    let table = Column { kind: ColumnKind::LookupTable, index: 0 };
    for row in 0..256usize {
        assert_eq!(prover.value_of(Cell { column: table, row }), Some(Fe::from_u64(row as u64)));
    }
    let larger = BitDecompositionCircuit { value: 7 }.run(9, vec![]).unwrap();
    assert_eq!(larger.value_of(Cell { column: table, row: 255 }), Some(Fe::from_u64(255)));
    assert_eq!(larger.value_of(Cell { column: table, row: 256 }), None);
}

#[test]
fn byte_decomposition_needs_a_table_of_256_rows() {
    let circuit = BitDecompositionCircuit { value: 0x12345678 };
    assert_eq!(
        circuit.run(7, vec![]).err(),
        Some(Error::Assignment(AssignmentError::OutOfBounds))
    );
    assert!(circuit.run(8, vec![]).is_ok());
    assert_eq!(
        circuit.run(8, vec![vec![]]).err(),
        Some(Error::Assignment(AssignmentError::BadInstance))
    );
    assert_eq!(circuit.without_witnesses().value, 0);
}

#[test]
fn tampered_byte_is_a_lookup_miss_and_a_violation() {
    let circuit = BitDecompositionCircuit { value: 0x12345678 };
    let mut cs = ConstraintSystem::new();
    let config = BitDecompositionCircuit::configure(&mut cs).unwrap();
    assert_eq!(cs.num_lookups(), 4);
    assert_eq!(cs.lookup_at(2).name, "byte_lookup");
    assert_eq!(cs.lookup_at(2).table, config.byte_table);
    let mut layouter = Layouter::new(cs, 8, vec![]).unwrap();
    circuit.synthesize(config, &mut layouter).unwrap();
    // 0x178 in place of 0x78 in the lowest byte
    layouter.overwrite(advice(1, 0), Fe::from_u64(0x178)).unwrap();
    let failures = layouter.seal().unwrap().verify_all();
    assert_eq!(failures.len(), 2);
    assert_eq!(
        failures[0],
        VerificationFailure::GateViolation {
            gate_index: 0,
            gate_name: "bit_decomposition",
            row: 0,
            value: Fe::from_u64(0x100).neg(),
        }
    );
    assert_eq!(
        failures[1],
        VerificationFailure::LookupMiss {
            lookup_index: 0,
            lookup_name: "byte_lookup",
            row: 0,
            value: Fe::from_u64(0x178),
        }
    );
}

#[test]
fn bit_limbs_are_the_bits_of_the_value() {
    for &v in [0u32, 1, 2, 0x80000000, 0x12345678, 0xFFFFFFFF].iter() {
        let prover = BinaryRangeCircuit { value: v }.run(0, vec![]).unwrap();
        assert_eq!(prover.verify(), Ok(()));
        assert_eq!(prover.value_of(advice(0, 0)), Some(Fe::from_u64(v as u64)));
        let mut sum: u64 = 0;
        for i in 0..32 {
            let bit = prover.value_of(advice(1 + i, 0)).unwrap();
            assert_eq!(bit, Fe::from_u64(((v >> i) & 1) as u64));
            sum += bit.to_limbs()[0] << i;
        }
        assert_eq!(sum, v as u64);
    }
}

#[test]
fn tampered_bit_is_a_violation_of_that_bit() {
    let circuit = BinaryRangeCircuit { value: 0b1010 };
    let mut cs = ConstraintSystem::new();
    let config = BinaryRangeCircuit::configure(&mut cs).unwrap();
    assert_eq!(cs.num_gates(), 33);
    assert_eq!(cs.gate(5).name, "binary_constraint");
    assert_eq!(cs.gate(32).name, "composition_constraint");
    let mut layouter = Layouter::new(cs, 2, vec![]).unwrap();
    circuit.synthesize(config, &mut layouter).unwrap();
    // bit 5 holds 2: 2 * (2 - 1) = 2
    layouter.overwrite(Cell { column: config.bits[5], row: 0 }, Fe::from_u64(2)).unwrap();
    let prover = layouter.seal().unwrap();
    let failures = prover.verify_all();
    assert_eq!(
        failures[0],
        VerificationFailure::GateViolation {
            gate_index: 5,
            gate_name: "binary_constraint",
            row: 0,
            value: Fe::from_u64(2),
        }
    );
    // the weighted sum is off by 2 * 32 as well
    assert_eq!(
        failures[1],
        VerificationFailure::GateViolation {
            gate_index: 32,
            gate_name: "composition_constraint",
            row: 0,
            value: Fe::from_u64(64).neg(),
        }
    );
    assert_eq!(failures.len(), 2);
    assert_eq!(prover.verify(), Err(failures[0]));
}

#[test]
fn flipped_bit_breaks_the_composition_only() {
    let circuit = BinaryRangeCircuit { value: 8 };
    let mut cs = ConstraintSystem::new();
    let config = BinaryRangeCircuit::configure(&mut cs).unwrap();
    let mut layouter = Layouter::new(cs, 1, vec![]).unwrap();
    circuit.synthesize(config, &mut layouter).unwrap();
    layouter.overwrite(Cell { column: config.bits[0], row: 0 }, Fe::one()).unwrap();
    let failures = layouter.seal().unwrap().verify_all();
    assert_eq!(
        failures,
        vec![VerificationFailure::GateViolation {
            gate_index: 32,
            gate_name: "composition_constraint",
            row: 0,
            value: Fe::one().neg(),
        }]
    );
}

#[test]
fn both_policies_stand_behind_one_operation() {
    let mut cs = ConstraintSystem::new();
    let bytes = BitDecompositionCircuit::configure(&mut cs).unwrap();
    let bits = BinaryRangeCircuit::configure(&mut cs).unwrap();
    let mut layouter = Layouter::new(cs, 9, vec![]).unwrap();
    bytes.load_byte_table(&mut layouter).unwrap();
    let policies = [RangeCheck::Lookup(bytes), RangeCheck::Binary(bits)];
    for (row, policy) in policies.iter().enumerate() {
        let cell = policy.assign_and_decompose(&mut layouter, 0xCAFE).unwrap();
        assert_eq!(cell.cell().row, row);
        assert_eq!(cell.value(), Value::known(Fe::from_u64(0xCAFE)));
    }
    assert_eq!(layouter.value_of(advice(1, 0)), Some(Fe::from_u64(0xFE)));
    assert_eq!(layouter.value_of(advice(2, 0)), Some(Fe::from_u64(0xCA)));
    assert_eq!(layouter.value_of(advice(6, 1)), Some(Fe::zero()));
    assert_eq!(layouter.value_of(advice(7, 1)), Some(Fe::one()));
    assert_eq!(layouter.seal().unwrap().verify(), Ok(()));
}
