use arith_circuits::field::Fe;
use halo2_proofs::arithmetic::Field;
use halo2_proofs::pasta::group::ff::PrimeField;
use halo2_proofs::pasta::Fp;

fn to_fe(x: Fp) -> Fe {
    let r = x.to_repr();
    let limbs = [
        u64::from_le_bytes(r[0..8].try_into().unwrap()),
        u64::from_le_bytes(r[8..16].try_into().unwrap()),
        u64::from_le_bytes(r[16..24].try_into().unwrap()),
        u64::from_le_bytes(r[24..32].try_into().unwrap()),
    ];
    Fe::from_limbs(limbs).unwrap()
}

fn to_fp(x: Fe) -> Fp {
    Fp::from_raw(x.to_limbs())
}

fn samples() -> Vec<Fp> {
    let mut out = vec![
        Fp::ZERO,
        Fp::ONE,
        Fp::from(2),
        Fp::from(u64::MAX),
        -Fp::ONE,
        -Fp::from(2),
        Fp::from(0x1234_5678_9abc_def0).square(),
        Fp::from(u64::MAX).square().square().square(),
    ];
    let mut x = Fp::from(7);
    for _ in 0..8 {
        x = x.square() + Fp::from(11);
        out.push(x);
    }
    out
}

#[test]
fn constants_are_those_of_the_field() {
    assert_eq!(Fe::zero(), to_fe(Fp::ZERO));
    assert_eq!(Fe::one(), to_fe(Fp::ONE));
    assert_eq!(Fe::from_u64(0), Fe::zero());
    assert_eq!(Fe::from_u64(1), Fe::one());
    assert_eq!(Fe::from_u64(u64::MAX), to_fe(Fp::from(u64::MAX)));
    assert_eq!(Fe::from_u64(0x12345678).to_limbs(), [0x12345678, 0, 0, 0]);
    assert!(Fe::zero().is_zero());
    assert!(!Fe::one().is_zero());
}

#[test]
fn arithmetic_is_that_of_the_field() {
    for &x in samples().iter() {
        let a = to_fe(x);
        assert_eq!(to_fp(a), x);
        assert_eq!(a.neg(), to_fe(-x));
        assert_eq!(a.square(), to_fe(x.square()));
        assert_eq!(a.square(), a.mul(a));
        for &y in samples().iter() {
            let b = to_fe(y);
            assert_eq!(a.add(b), to_fe(x + y));
            assert_eq!(a.sub(b), to_fe(x - y));
            assert_eq!(a.mul(b), to_fe(x * y));
        }
    }
}

#[test]
fn small_sums_and_products() {
    let three = Fe::from_u64(3);
    let four = Fe::from_u64(4);
    assert_eq!(three.add(four), Fe::from_u64(7));
    assert_eq!(four.sub(three), Fe::one());
    assert_eq!(three.mul(four), Fe::from_u64(12));
    assert_eq!(three.square(), Fe::from_u64(9));
    assert_eq!(three.sub(three), Fe::zero());
    assert_eq!(three.add(three.neg()), Fe::zero());
    assert_eq!(Fe::zero().neg(), Fe::zero());
    // p - 1, the largest element
    let largest = Fe::one().neg();
    assert_eq!(
        largest.to_limbs(),
        [0x992d30ed00000000, 0x224698fc094cf91b, 0x0000000000000000, 0x4000000000000000]
    );
    assert_eq!(largest.add(Fe::one()), Fe::zero());
    assert_eq!(largest.square(), Fe::one());
    assert_eq!(Fe::zero().sub(Fe::one()), largest);
}

#[test]
fn limbs_at_or_above_the_modulus_are_refused() {
    let modulus = [0x992d30ed00000001, 0x224698fc094cf91b, 0x0000000000000000, 0x4000000000000000];
    assert_eq!(Fe::from_limbs(modulus), None);
    assert_eq!(Fe::from_limbs([u64::MAX; 4]), None);
    assert_eq!(Fe::from_limbs([0, 0, 1, 0x4000000000000000]), None);
    assert_eq!(Fe::from_limbs([0x992d30ed00000001, 0x224698fc094cf91c, 0, 0x4000000000000000]), None);
    let below = [0x992d30ed00000000, 0x224698fc094cf91b, 0x0000000000000000, 0x4000000000000000];
    assert_eq!(Fe::from_limbs(below), Some(Fe::one().neg()));
    assert_eq!(Fe::from_limbs([5, 0, 0, 0]), Some(Fe::from_u64(5)));
    assert_eq!(
        Fe::from_limbs([u64::MAX, u64::MAX, u64::MAX, 0x3fffffffffffffff]).map(|x| x.to_limbs()),
        Some([u64::MAX, u64::MAX, u64::MAX, 0x3fffffffffffffff])
    );
}
