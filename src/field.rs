use vstd::prelude::*;
use ark_bls12_381::Fr;
use ark_ff::{BigInt, Field, PrimeField, UniformRand};

verus! {

/// The prime order r of the scalar field of BLS12-381 (and of its groups G1, G2, GT).
/// 0x73eda753299d7d483339d80809a1d80553bda402fffe5bfeffffffff00000001
pub open spec fn modulus() -> int {
    limbs_value(0xffffffff00000001, 0x53bda402fffe5bfe, 0x3339d80809a1d805, 0x73eda753299d7d48)
}

/// 2^64, the weight of one limb.
pub open spec fn limb_base() -> int {
    0x1_0000_0000_0000_0000
}

/// The integer held by four little-endian 64-bit limbs.
pub open spec fn limbs_value(l0: u64, l1: u64, l2: u64, l3: u64) -> int {
    l0 as int + limb_base() * (l1 as int + limb_base() * (l2 as int + limb_base() * l3 as int))
}

/// The modulus exceeds every machine integer.
pub proof fn lemma_modulus_bounds()
    ensures
        modulus() > limb_base(),
        limb_base() > 1,
{
    let b = limb_base();
    let inner = 0x53bda402fffe5bfe + b * (0x3339d80809a1d805 + b * 0x73eda753299d7d48);
    assert(b * (0x3339d80809a1d805 + b * 0x73eda753299d7d48) >= 0) by (nonlinear_arith)
        requires
            b > 0,
    ;
    assert(b * inner >= b) by (nonlinear_arith)
        requires
            b > 0,
            inner >= 1,
    ;
}

/// `x` to the power `n`.
pub open spec fn power(x: int, n: nat) -> int
    decreases n,
{
    if n == 0 {
        1
    } else {
        x * power(x, (n - 1) as nat)
    }
}

/// Raising to the power `2k` is raising the square to the power `k`.
pub proof fn lemma_power_square(b: int, k: nat)
    ensures
        power(b, 2 * k) == power(b * b, k),
    decreases k,
{
    if k > 0 {
        lemma_power_square(b, (k - 1) as nat);
        assert(power(b, (2 * k - 1) as nat) == b * power(b, (2 * k - 2) as nat));
        assert(power(b, 2 * k) == b * power(b, (2 * k - 1) as nat));
        assert(b * (b * power(b, (2 * k - 2) as nat)) == (b * b) * power(b, (2 * k - 2) as nat))
            by (nonlinear_arith);
    }
}

/// Bases that agree modulo r give powers that agree modulo r.
pub proof fn lemma_power_congruent(b1: int, b2: int, n: nat)
    requires
        b1 % modulus() == b2 % modulus(),
    ensures
        power(b1, n) % modulus() == power(b2, n) % modulus(),
    decreases n,
{
    if n > 0 {
        lemma_power_congruent(b1, b2, (n - 1) as nat);
        lemma_mul_congruent(b1, b2, power(b1, (n - 1) as nat), power(b2, (n - 1) as nat));
    }
}

/// Congruence modulo r is kept by addition.
pub proof fn lemma_add_congruent(a1: int, a2: int, b1: int, b2: int)
    requires
        a1 % modulus() == a2 % modulus(),
        b1 % modulus() == b2 % modulus(),
    ensures
        (a1 + b1) % modulus() == (a2 + b2) % modulus(),
{
    let m = modulus();
    lemma_modulus_bounds();
    vstd::arithmetic::div_mod::lemma_add_mod_noop(a1, b1, m);
    vstd::arithmetic::div_mod::lemma_add_mod_noop(a2, b2, m);
}

/// Congruence modulo r is kept by subtraction.
pub proof fn lemma_sub_congruent(a1: int, a2: int, b1: int, b2: int)
    requires
        a1 % modulus() == a2 % modulus(),
        b1 % modulus() == b2 % modulus(),
    ensures
        (a1 - b1) % modulus() == (a2 - b2) % modulus(),
{
    let m = modulus();
    lemma_modulus_bounds();
    vstd::arithmetic::div_mod::lemma_sub_mod_noop(a1, b1, m);
    vstd::arithmetic::div_mod::lemma_sub_mod_noop(a2, b2, m);
}

/// Congruence modulo r is kept by multiplication.
pub proof fn lemma_mul_congruent(a1: int, a2: int, b1: int, b2: int)
    requires
        a1 % modulus() == a2 % modulus(),
        b1 % modulus() == b2 % modulus(),
    ensures
        (a1 * b1) % modulus() == (a2 * b2) % modulus(),
{
    let m = modulus();
    lemma_modulus_bounds();
    vstd::arithmetic::div_mod::lemma_mul_mod_noop_general(a1, b1, m);
    vstd::arithmetic::div_mod::lemma_mul_mod_noop_general(a2, b2, m);
}

/// A value already in the canonical range is its own residue.
pub proof fn lemma_mod_small(a: int)
    requires
        0 <= a < modulus(),
    ensures
        a % modulus() == a,
{
    lemma_modulus_bounds();
    vstd::arithmetic::div_mod::lemma_small_mod(a as nat, modulus() as nat);
}

/// Reducing twice is reducing once.
pub proof fn lemma_mod_mod(a: int)
    ensures
        (a % modulus()) % modulus() == a % modulus(),
        0 <= a % modulus() < modulus(),
{
    lemma_modulus_bounds();
    vstd::arithmetic::div_mod::lemma_mod_twice(a, modulus());
    vstd::arithmetic::div_mod::lemma_mod_bound(a, modulus());
}

/// An element of the scalar field: a residue modulo `modulus()`, held as
/// four little-endian 64-bit limbs and always in the canonical range `[0, r)`.
#[derive(Clone, Copy, Debug, PartialEq, Eq, Structural)]
pub struct FieldElement {
    pub(crate) l0: u64,
    pub(crate) l1: u64,
    pub(crate) l2: u64,
    pub(crate) l3: u64,
}

impl FieldElement {
    /// The residue this element stands for.
    pub closed spec fn value(&self) -> int {
        limbs_value(self.l0, self.l1, self.l2, self.l3)
    }

    #[verifier::type_invariant]
    closed spec fn canonical(&self) -> bool {
        self.value() < modulus()
    }

    /// The value held by the limbs is never negative.
    pub proof fn lemma_value_nonneg(&self)
        ensures
            0 <= self.value(),
    {
        let b = limb_base();
        let x3 = self.l3 as int;
        let x2 = self.l2 as int + b * x3;
        let x1 = self.l1 as int + b * x2;
        assert(b * x3 >= 0) by (nonlinear_arith)
            requires
                b > 0,
                x3 >= 0,
        ;
        assert(b * x2 >= 0) by (nonlinear_arith)
            requires
                b > 0,
                x2 >= 0,
        ;
        assert(b * x1 >= 0) by (nonlinear_arith)
            requires
                b > 0,
                x1 >= 0,
        ;
    }

    /// The element `n mod r` for a machine integer `n` (always `n` itself, since r > 2^64).
    pub fn new(n: u64) -> (r: FieldElement)
        ensures
            r.value() == n as int,
    {
        proof {
            lemma_modulus_bounds();
        }
        FieldElement { l0: n, l1: 0, l2: 0, l3: 0 }
    }

    /// The additive identity.
    pub fn zero() -> (r: FieldElement)
        ensures
            r.value() == 0,
    {
        FieldElement::new(0)
    }

    /// The multiplicative identity.
    pub fn one() -> (r: FieldElement)
        ensures
            r.value() == 1,
    {
        FieldElement::new(1)
    }

    /// Whether this is the zero element.
    pub fn is_zero(&self) -> (r: bool)
        ensures
            r == (self.value() == 0),
    {
        proof {
            use_type_invariant(self);
            let b = limb_base();
            let x3 = self.l3 as int;
            let x2 = self.l2 as int + b * x3;
            let x1 = self.l1 as int + b * x2;
            assert(b * x3 >= 0 && (x3 > 0 ==> b * x3 > 0)) by (nonlinear_arith)
                requires
                    b > 0,
                    x3 >= 0,
            ;
            assert(b * x2 >= 0 && (x2 > 0 ==> b * x2 > 0)) by (nonlinear_arith)
                requires
                    b > 0,
                    x2 >= 0,
            ;
            assert(b * x1 >= 0 && (x1 > 0 ==> b * x1 > 0)) by (nonlinear_arith)
                requires
                    b > 0,
                    x1 >= 0,
            ;
        }
        self.l0 == 0 && self.l1 == 0 && self.l2 == 0 && self.l3 == 0
    }

    /// `self` to the power `exp`, by repeated squaring.
    pub fn pow(&self, exp: u64) -> (r: FieldElement)
        ensures
            r.value() == power(self.value(), exp as nat) % modulus(),
    {
        let ghost a = self.value();
        let mut result = FieldElement::one();
        let mut base = *self;
        let mut e = exp;
        proof {
            lemma_modulus_bounds();
            assert(1 * power(a, exp as nat) == power(a, exp as nat));
        }
        while e > 0
            invariant
                (result.value() * power(base.value(), e as nat)) % modulus() == power(a, exp as nat)
                    % modulus(),
            decreases e,
        {
            let ghost r0 = result.value();
            let ghost b0 = base.value();
            let ghost e0 = e;
            let ghost k = (e0 / 2) as nat;
            proof {
                lemma_power_square(b0, k);
            }
            if e % 2 == 1 {
                result = result.mul(&base);
                proof {
                    assert(power(b0, e0 as nat) == b0 * power(b0, (2 * k) as nat));
                    lemma_mod_mod(r0 * b0);
                    lemma_mul_congruent(result.value(), r0 * b0, power(b0 * b0, k), power(b0 * b0, k));
                    assert((r0 * b0) * power(b0 * b0, k) == r0 * (b0 * power(b0 * b0, k))) by (nonlinear_arith);
                }
            } else {
                assert(e0 as nat == 2 * k);
            }
            base = base.mul(&base);
            e = e / 2;
            proof {
                lemma_mod_mod(b0 * b0);
                lemma_power_congruent(base.value(), b0 * b0, k);
                lemma_mul_congruent(result.value(), result.value(), power(base.value(), k), power(b0 * b0, k));
            }
        }
        proof {
            use_type_invariant(&result);
            self.lemma_value_nonneg();
            result.lemma_value_nonneg();
            lemma_mod_small(result.value());
        }
        result
    }

    /// The quotient `self / other`, or `None` when `other` is zero.
    pub fn div(&self, other: &FieldElement) -> (r: Option<FieldElement>)
        ensures
            r is None <==> other.value() == 0,
            r matches Some(q) ==> (q.value() * other.value()) % modulus() == self.value()
                % modulus(),
    {
        match other.inverse() {
            None => None,
            Some(inv) => {
                let q = self.mul(&inv);
                proof {
                    let s = self.value();
                    let o = other.value();
                    let i = inv.value();
                    lemma_mod_mod(s * i);
                    lemma_mul_congruent(q.value(), s * i, o, o);
                    assert((s * i) * o == s * (o * i)) by (nonlinear_arith);
                    lemma_mod_mod(o * i);
                    lemma_mul_congruent(s, s, o * i, 1);
                }
                Some(q)
            },
        }
    }

    /// Relies on `Field::inverse` for ark_bls12_381's `Fr`: `None` for zero,
    /// and otherwise the multiplicative inverse modulo r.
    #[verifier::external_body]
    pub fn inverse(&self) -> (r: Option<FieldElement>)
        ensures
            r is None <==> self.value() == 0,
            r matches Some(v) ==> (self.value() * v.value()) % modulus() == 1,
    {
        let a = Fr::from_bigint(BigInt::new([self.l0, self.l1, self.l2, self.l3])).unwrap();
        match a.inverse() {
            Some(x) => {
                let l = x.into_bigint().0;
                Some(FieldElement { l0: l[0], l1: l[1], l2: l[2], l3: l[3] })
            },
            None => None,
        }
    }

    /// Relies on the addition of ark_bls12_381's `Fr`: the sum reduced modulo r.
    #[verifier::external_body]
    pub fn add(&self, other: &FieldElement) -> (r: FieldElement)
        ensures
            r.value() == (self.value() + other.value()) % modulus(),
    {
        let a = Fr::from_bigint(BigInt::new([self.l0, self.l1, self.l2, self.l3])).unwrap();
        let b = Fr::from_bigint(BigInt::new([other.l0, other.l1, other.l2, other.l3])).unwrap();
        let l = (a + b).into_bigint().0;
        FieldElement { l0: l[0], l1: l[1], l2: l[2], l3: l[3] }
    }

    /// Relies on the subtraction of ark_bls12_381's `Fr`: the difference reduced modulo r.
    #[verifier::external_body]
    pub fn sub(&self, other: &FieldElement) -> (r: FieldElement)
        ensures
            r.value() == (self.value() - other.value()) % modulus(),
    {
        let a = Fr::from_bigint(BigInt::new([self.l0, self.l1, self.l2, self.l3])).unwrap();
        let b = Fr::from_bigint(BigInt::new([other.l0, other.l1, other.l2, other.l3])).unwrap();
        let l = (a - b).into_bigint().0;
        FieldElement { l0: l[0], l1: l[1], l2: l[2], l3: l[3] }
    }

    /// Relies on the multiplication of ark_bls12_381's `Fr`: the product reduced modulo r.
    #[verifier::external_body]
    pub fn mul(&self, other: &FieldElement) -> (r: FieldElement)
        ensures
            r.value() == (self.value() * other.value()) % modulus(),
    {
        let a = Fr::from_bigint(BigInt::new([self.l0, self.l1, self.l2, self.l3])).unwrap();
        let b = Fr::from_bigint(BigInt::new([other.l0, other.l1, other.l2, other.l3])).unwrap();
        let l = (a * b).into_bigint().0;
        FieldElement { l0: l[0], l1: l[1], l2: l[2], l3: l[3] }
    }

    /// Relies on `UniformRand` for ark_bls12_381's `Fr`, drawn from `rand::thread_rng`:
    /// a uniformly random element, about which nothing else is known.
    #[verifier::external_body]
    pub(crate) fn random() -> (r: FieldElement) {
        let l = Fr::rand(&mut rand::thread_rng()).into_bigint().0;
        FieldElement { l0: l[0], l1: l[1], l2: l[2], l3: l[3] }
    }
}

} // verus!
