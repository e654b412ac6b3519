use kzg10::field::FieldElement;

fn fe(n: u64) -> FieldElement {
    FieldElement::new(n)
}

#[test]
fn field_add_sub_mul() {
    assert!(fe(3).add(&fe(4)) == fe(7));
    assert!(fe(10).sub(&fe(4)) == fe(6));
    assert!(fe(6).mul(&fe(7)) == fe(42));
    assert!(FieldElement::one().mul(&fe(9)) == fe(9));
}

#[test]
fn field_wraps_modulo_order() {
    let minus_one = FieldElement::zero().sub(&FieldElement::one());
    assert!(!(minus_one == fe(u64::MAX)));
    assert!(minus_one.add(&FieldElement::one()) == FieldElement::zero());
    assert!(minus_one.mul(&minus_one) == FieldElement::one());
    let big = fe(u64::MAX).mul(&fe(u64::MAX));
    assert!(!big.is_zero());
    assert!(big.sub(&big).is_zero());
}

#[test]
fn field_zero_test() {
    assert!(FieldElement::zero().is_zero());
    assert!(!FieldElement::one().is_zero());
}

#[test]
fn field_pow_by_squaring() {
    assert!(fe(3).pow(0) == fe(1));
    assert!(fe(3).pow(5) == fe(243));
    assert!(fe(2).pow(63) == fe(1u64 << 63));
    assert!(fe(2).pow(64) == fe(1u64 << 63).add(&fe(1u64 << 63)));
    assert!(FieldElement::zero().pow(7).is_zero());
}

#[test]
fn field_inverse_and_div() {
    assert!(FieldElement::zero().inverse().is_none());
    let inv = fe(7).inverse().unwrap();
    assert!(inv.mul(&fe(7)) == FieldElement::one());
    assert!(!(inv == fe(7)));
    assert!(fe(42).div(&fe(6)).unwrap() == fe(7));
    assert!(fe(1).div(&fe(0)).is_none());
    let q = fe(1).div(&fe(3)).unwrap();
    assert!(q.mul(&fe(3)) == fe(1));
}
