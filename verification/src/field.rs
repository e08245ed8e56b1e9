//! Elements of the Pallas base field, held as four little-endian 64-bit limbs.
//!
//! The arithmetic itself is done by `halo2_proofs::pasta::Fp`; this module
//! states what each operation returns as an integer modulo the field's
//! modulus.

use halo2_proofs::arithmetic::Field;
use halo2_proofs::pasta::group::ff::PrimeField;
use halo2_proofs::pasta::Fp;
use vstd::prelude::*;

verus! {

/// The weight of the second limb, `2^64`.
pub open spec fn radix() -> nat {
    0x1_0000_0000_0000_0000
}

/// The field's modulus,
/// `0x40000000000000000000000000000000224698fc094cf91b992d30ed00000001`.
pub open spec fn modulus() -> nat {
    0x992d30ed00000001 + radix() * (0x224698fc094cf91b + radix() * radix() * 0x4000000000000000)
}

/// The sum of two integers in the field.
pub open spec fn sum_mod(a: nat, b: nat) -> nat {
    (a + b) % modulus()
}

/// The difference of two integers in the field.
pub open spec fn diff_mod(a: nat, b: nat) -> nat {
    ((a - b) % (modulus() as int)) as nat
}

/// The product of two integers in the field.
pub open spec fn prod_mod(a: nat, b: nat) -> nat {
    (a * b) % modulus()
}

/// The additive inverse of an integer in the field.
pub open spec fn neg_mod(a: nat) -> nat {
    ((0 - a) % (modulus() as int)) as nat
}

/// The modulus is above `2^64`.
pub proof fn lemma_modulus_large()
    ensures
        modulus() > radix(),
{
    assert(radix() * 0x4000000000000000 >= 0) by (nonlinear_arith);
    assert(radix() * (0x224698fc094cf91b + radix() * radix() * 0x4000000000000000) >= radix() * 1)
        by (nonlinear_arith)
        requires
            radix() * radix() * 0x4000000000000000 >= 0,
    ;
}

/// An integer below the modulus is its own residue.
pub proof fn lemma_residue(x: nat)
    requires
        x < modulus(),
    ensures
        x % modulus() == x,
{
    vstd::arithmetic::div_mod::lemma_small_mod(x, modulus());
}

/// The difference of an integer with itself is zero.
pub proof fn lemma_diff_self(a: nat)
    ensures
        diff_mod(a, a) == 0,
{
    lemma_modulus_large();
    vstd::arithmetic::div_mod::lemma_small_mod(0, modulus());
}

/// Adding one to an integer of the field gives another integer of the field.
pub proof fn lemma_successor_differs(c: nat)
    requires
        c < modulus(),
    ensures
        sum_mod(c, 1) != c,
{
    lemma_modulus_large();
    if c + 1 < modulus() {
        vstd::arithmetic::div_mod::lemma_small_mod(c + 1, modulus());
    } else {
        vstd::arithmetic::div_mod::lemma_mod_self_0(modulus() as int);
    }
}

/// The integer that four limbs spell, the least significant first.
pub open spec fn limbs_value(l: [u64; 4]) -> nat {
    l[0] as nat + radix() * (l[1] as nat + radix() * (l[2] as nat + radix() * (l[3] as nat)))
}

/// A field element in canonical form: the integer that its limbs spell is
/// below the modulus.
#[derive(Clone, Copy, Debug, PartialEq, Eq, Structural)]
pub struct Fe {
    l0: u64,
    l1: u64,
    l2: u64,
    l3: u64,
}

impl Fe {
    /// The integer that this element stands for.
    pub closed spec fn value(self) -> nat {
        self.l0 as nat + radix() * (self.l1 as nat + radix() * (self.l2 as nat + radix()
            * (self.l3 as nat)))
    }

    /// The element whose limbs are the base-`2^64` digits of `n`. It stands
    /// for `n` where `n` is below the modulus.
    pub closed spec fn of(n: nat) -> Fe {
        Fe {
            l0: (n % radix()) as u64,
            l1: (n / radix() % radix()) as u64,
            l2: (n / radix() / radix() % radix()) as u64,
            l3: (n / radix() / radix() / radix() % radix()) as u64,
        }
    }

    /// `of` and `value` are inverse to each other on canonical elements.
    pub proof fn lemma_of_value(self)
        ensures
            Fe::of(self.value()) == self,
    {
        let r = radix() as int;
        let n = self.value() as int;
        let hi1 = self.l1 as int + r * (self.l2 as int + r * (self.l3 as int));
        let hi2 = self.l2 as int + r * (self.l3 as int);
        lemma_digit(self.l0 as int, hi1);
        lemma_digit(self.l1 as int, hi2);
        lemma_digit(self.l2 as int, self.l3 as int);
        assert(n % r == self.l0 && n / r == hi1);
        assert(hi1 % r == self.l1 && hi1 / r == hi2);
        assert(hi2 % r == self.l2 && hi2 / r == self.l3);
        assert((self.l3 as int) % r == self.l3) by (nonlinear_arith)
            requires
                0 <= self.l3 as int,
                (self.l3 as int) < r,
                r > 0,
        ;
    }

    /// `of(n)` stands for `n`, for `n` below the modulus.
    pub proof fn lemma_value_of(n: nat)
        requires
            n < modulus(),
        ensures
            Fe::of(n).value() == n,
            Fe::of(n).canonical(),
    {
        let r = radix() as int;
        let n0 = n as int;
        let n1 = n0 / r;
        let n2 = n1 / r;
        let n3 = n2 / r;
        vstd::arithmetic::div_mod::lemma_fundamental_div_mod(n0, r);
        vstd::arithmetic::div_mod::lemma_fundamental_div_mod(n1, r);
        vstd::arithmetic::div_mod::lemma_fundamental_div_mod(n2, r);
        assert(0 <= n0 % r < r && 0 <= n1 % r < r && 0 <= n2 % r < r);
        assert(n1 >= 0 && n2 >= 0 && n3 >= 0);
        assert(n3 < r) by {
            if n3 >= r {
                assert(r * n3 >= r * r) by (nonlinear_arith)
                    requires
                        n3 >= r,
                        r > 0,
                ;
                assert(r * n2 >= r * (r * r)) by (nonlinear_arith)
                    requires
                        n2 >= r * r,
                        r > 0,
                ;
                assert(r * n1 >= r * (r * (r * r))) by (nonlinear_arith)
                    requires
                        n1 >= r * (r * r),
                        r > 0,
                ;
            }
        }
        assert(n3 % r == n3) by (nonlinear_arith)
            requires
                0 <= n3 < r,
        ;
    }

    /// The integer is below the modulus.
    #[verifier::type_invariant]
    pub open spec fn canonical(self) -> bool {
        self.value() < modulus()
    }

    /// Two elements that stand for the same integer are the same element.
    pub proof fn lemma_value_injective(self, other: Fe)
        requires
            self.value() == other.value(),
        ensures
            self == other,
    {
        let r = radix() as int;
        let hi_a = self.l1 as int + r * (self.l2 as int + r * (self.l3 as int));
        let hi_b = other.l1 as int + r * (other.l2 as int + r * (other.l3 as int));
        assert(self.l0 == other.l0 && hi_a == hi_b) by {
            lemma_split(self.l0 as int, hi_a, other.l0 as int, hi_b);
        }
        let top_a = self.l2 as int + r * (self.l3 as int);
        let top_b = other.l2 as int + r * (other.l3 as int);
        assert(self.l1 == other.l1 && top_a == top_b) by {
            lemma_split(self.l1 as int, top_a, other.l1 as int, top_b);
        }
        assert(self.l2 == other.l2 && self.l3 == other.l3) by {
            lemma_split(self.l2 as int, self.l3 as int, other.l2 as int, other.l3 as int);
        }
    }

    /// The additive identity.
    pub fn zero() -> (r: Fe)
        ensures
            r.value() == 0,
            r == Fe::of(0),
    {
        let r = Fe { l0: 0, l1: 0, l2: 0, l3: 0 };
        proof {
            r.lemma_of_value();
        }
        r
    }

    /// The multiplicative identity.
    pub fn one() -> (r: Fe)
        ensures
            r.value() == 1,
            r == Fe::of(1),
    {
        let r = Fe { l0: 1, l1: 0, l2: 0, l3: 0 };
        proof {
            r.lemma_of_value();
        }
        r
    }

    /// The element that the integer `v` stands for.
    pub fn from_u64(v: u64) -> (r: Fe)
        ensures
            r.value() == v,
            r == Fe::of(v as nat),
    {
        let r = Fe { l0: v, l1: 0, l2: 0, l3: 0 };
        proof {
            r.lemma_of_value();
        }
        r
    }

    /// Whether this is the additive identity.
    pub fn is_zero(&self) -> (b: bool)
        ensures
            b == (self.value() == 0),
    {
        proof {
            if self.value() == 0 {
                self.lemma_value_injective(Fe { l0: 0, l1: 0, l2: 0, l3: 0 });
            }
        }
        self.l0 == 0 && self.l1 == 0 && self.l2 == 0 && self.l3 == 0
    }

    /// The element with the given limbs, least significant first, if the
    /// integer that they spell is below the modulus.
    pub fn from_limbs(limbs: [u64; 4]) -> (r: Option<Fe>)
        ensures
            r is Some <==> limbs_value(limbs) < modulus(),
            r matches Some(x) ==> x.value() == limbs_value(limbs),
    {
        let below = limbs[3] < 0x4000000000000000 || (limbs[3] == 0x4000000000000000 && limbs[2]
            == 0 && (limbs[1] < 0x224698fc094cf91b || (limbs[1] == 0x224698fc094cf91b && limbs[0]
            < 0x992d30ed00000001)));
        proof {
            let r = radix() as int;
            let a2 = limbs[2] as int + r * (limbs[3] as int);
            let a1 = limbs[1] as int + r * a2;
            let m2 = 0 + r * 0x4000000000000000;
            let m1 = 0x224698fc094cf91b + r * m2;
            lemma_compare(limbs[2] as int, limbs[3] as int, 0, 0x4000000000000000);
            lemma_compare(limbs[1] as int, a2, 0x224698fc094cf91b, m2);
            lemma_compare(limbs[0] as int, a1, 0x992d30ed00000001, m1);
            assert(r * r * 0x4000000000000000 == r * m2) by (nonlinear_arith)
                requires
                    m2 == 0 + r * 0x4000000000000000,
            ;
        }
        if below {
            Some(Fe { l0: limbs[0], l1: limbs[1], l2: limbs[2], l3: limbs[3] })
        } else {
            None
        }
    }

    /// The four limbs, least significant first.
    pub fn to_limbs(&self) -> (l: [u64; 4])
        ensures
            self.value() == limbs_value(l),
    {
        [self.l0, self.l1, self.l2, self.l3]
    }

    /// The sum of two elements.
    pub fn add(self, rhs: Fe) -> (r: Fe)
        ensures
            r.value() == sum_mod(self.value(), rhs.value()),
            r == Fe::of(sum_mod(self.value(), rhs.value())),
    {
        let r = fp_add(self, rhs);
        proof {
            r.lemma_of_value();
        }
        r
    }

    /// The difference of two elements.
    pub fn sub(self, rhs: Fe) -> (r: Fe)
        ensures
            r.value() == diff_mod(self.value(), rhs.value()),
            r == Fe::of(diff_mod(self.value(), rhs.value())),
    {
        let r = fp_sub(self, rhs);
        proof {
            r.lemma_of_value();
        }
        r
    }

    /// The product of two elements.
    pub fn mul(self, rhs: Fe) -> (r: Fe)
        ensures
            r.value() == prod_mod(self.value(), rhs.value()),
            r == Fe::of(prod_mod(self.value(), rhs.value())),
    {
        let r = fp_mul(self, rhs);
        proof {
            r.lemma_of_value();
        }
        r
    }

    /// The additive inverse of an element.
    pub fn neg(self) -> (r: Fe)
        ensures
            r.value() == neg_mod(self.value()),
            r == Fe::of(neg_mod(self.value())),
    {
        let r = fp_neg(self);
        proof {
            r.lemma_of_value();
        }
        r
    }

    /// The product of an element with itself.
    pub fn square(self) -> (r: Fe)
        ensures
            r.value() == prod_mod(self.value(), self.value()),
            r == Fe::of(prod_mod(self.value(), self.value())),
    {
        let r = fp_square(self);
        proof {
            r.lemma_of_value();
        }
        r
    }
}

/// Base-`2^64` digits are unique.
proof fn lemma_split(lo_a: int, hi_a: int, lo_b: int, hi_b: int)
    requires
        0 <= lo_a < radix(),
        0 <= lo_b < radix(),
        lo_a + radix() * hi_a == lo_b + radix() * hi_b,
    ensures
        lo_a == lo_b,
        hi_a == hi_b,
{
    assert(radix() * hi_a - radix() * hi_b == radix() * (hi_a - hi_b)) by (nonlinear_arith);
    if hi_a > hi_b {
        assert(radix() * (hi_a - hi_b) >= radix()) by (nonlinear_arith)
            requires
                hi_a - hi_b >= 1,
        ;
    } else if hi_a < hi_b {
        assert(radix() * (hi_a - hi_b) <= -radix()) by (nonlinear_arith)
            requires
                hi_a - hi_b <= -1,
        ;
    }
}

/// Numbers in base `2^64` compare by their upper parts first.
proof fn lemma_compare(lo_a: int, hi_a: int, lo_b: int, hi_b: int)
    requires
        0 <= lo_a < radix(),
        0 <= lo_b < radix(),
    ensures
        lo_a + radix() * hi_a < lo_b + radix() * hi_b <==> hi_a < hi_b || (hi_a == hi_b && lo_a
            < lo_b),
{
    assert(radix() * hi_a - radix() * hi_b == radix() * (hi_a - hi_b)) by (nonlinear_arith);
    if hi_a > hi_b {
        assert(radix() * (hi_a - hi_b) >= radix()) by (nonlinear_arith)
            requires
                hi_a - hi_b >= 1,
        ;
    } else if hi_a < hi_b {
        assert(radix() * (hi_a - hi_b) <= -radix()) by (nonlinear_arith)
            requires
                hi_a - hi_b <= -1,
        ;
    }
}

/// The digits of `lo + 2^64 * hi`.
proof fn lemma_digit(lo: int, hi: int)
    requires
        0 <= lo < radix(),
        0 <= hi,
    ensures
        (lo + radix() * hi) % (radix() as int) == lo,
        (lo + radix() * hi) / (radix() as int) == hi,
{
    let r = radix() as int;
    vstd::arithmetic::div_mod::lemma_fundamental_div_mod_converse(lo + r * hi, r, hi, lo);
}

/// Calls `+` of `Fp` on the two elements, each brought in by `Fp::from_raw`,
/// and reads the result back through `to_repr`. The claim: the result is the
/// canonical form of the sum of the two integers modulo the field's modulus.
#[verifier::external_body]
fn fp_add(a: Fe, b: Fe) -> (r: Fe)
    ensures
        r.canonical(),
        r.value() == sum_mod(a.value(), b.value()),
{
    let x = Fp::from_raw([a.l0, a.l1, a.l2, a.l3]) + Fp::from_raw([b.l0, b.l1, b.l2, b.l3]);
    let s = x.to_repr();
    Fe {
        l0: u64::from_le_bytes(s[0..8].try_into().unwrap()),
        l1: u64::from_le_bytes(s[8..16].try_into().unwrap()),
        l2: u64::from_le_bytes(s[16..24].try_into().unwrap()),
        l3: u64::from_le_bytes(s[24..32].try_into().unwrap()),
    }
}

/// Calls `-` of `Fp` on the two elements. The claim: the result is the
/// canonical form of the difference of the two integers modulo the field's
/// modulus.
#[verifier::external_body]
fn fp_sub(a: Fe, b: Fe) -> (r: Fe)
    ensures
        r.canonical(),
        r.value() == diff_mod(a.value(), b.value()),
{
    let x = Fp::from_raw([a.l0, a.l1, a.l2, a.l3]) - Fp::from_raw([b.l0, b.l1, b.l2, b.l3]);
    let s = x.to_repr();
    Fe {
        l0: u64::from_le_bytes(s[0..8].try_into().unwrap()),
        l1: u64::from_le_bytes(s[8..16].try_into().unwrap()),
        l2: u64::from_le_bytes(s[16..24].try_into().unwrap()),
        l3: u64::from_le_bytes(s[24..32].try_into().unwrap()),
    }
}

/// Calls `*` of `Fp` on the two elements. The claim: the result is the
/// canonical form of the product of the two integers modulo the field's
/// modulus.
#[verifier::external_body]
fn fp_mul(a: Fe, b: Fe) -> (r: Fe)
    ensures
        r.canonical(),
        r.value() == prod_mod(a.value(), b.value()),
{
    let x = Fp::from_raw([a.l0, a.l1, a.l2, a.l3]) * Fp::from_raw([b.l0, b.l1, b.l2, b.l3]);
    let s = x.to_repr();
    Fe {
        l0: u64::from_le_bytes(s[0..8].try_into().unwrap()),
        l1: u64::from_le_bytes(s[8..16].try_into().unwrap()),
        l2: u64::from_le_bytes(s[16..24].try_into().unwrap()),
        l3: u64::from_le_bytes(s[24..32].try_into().unwrap()),
    }
}

/// Calls the unary `-` of `Fp`. The claim: the result is the canonical form
/// of the integer's additive inverse modulo the field's modulus.
#[verifier::external_body]
fn fp_neg(a: Fe) -> (r: Fe)
    ensures
        r.canonical(),
        r.value() == neg_mod(a.value()),
{
    let x = -Fp::from_raw([a.l0, a.l1, a.l2, a.l3]);
    let s = x.to_repr();
    Fe {
        l0: u64::from_le_bytes(s[0..8].try_into().unwrap()),
        l1: u64::from_le_bytes(s[8..16].try_into().unwrap()),
        l2: u64::from_le_bytes(s[16..24].try_into().unwrap()),
        l3: u64::from_le_bytes(s[24..32].try_into().unwrap()),
    }
}

/// Calls `Field::square` of `Fp`. The claim: the result is the canonical form
/// of the integer's square modulo the field's modulus.
#[verifier::external_body]
fn fp_square(a: Fe) -> (r: Fe)
    ensures
        r.canonical(),
        r.value() == prod_mod(a.value(), a.value()),
{
    let x = Field::square(&Fp::from_raw([a.l0, a.l1, a.l2, a.l3]));
    let s = x.to_repr();
    Fe {
        l0: u64::from_le_bytes(s[0..8].try_into().unwrap()),
        l1: u64::from_le_bytes(s[8..16].try_into().unwrap()),
        l2: u64::from_le_bytes(s[16..24].try_into().unwrap()),
        l3: u64::from_le_bytes(s[24..32].try_into().unwrap()),
    }
}

} // verus!
