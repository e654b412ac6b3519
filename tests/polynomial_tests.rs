use kzg10::field::FieldElement;
use kzg10::polynomial::Polynomial;

fn fe(n: u64) -> FieldElement {
    FieldElement::new(n)
}

fn poly(cs: &[u64]) -> Polynomial {
    Polynomial::new(cs.iter().map(|c| fe(*c)).collect())
}

#[test]
fn evaluate_by_horner() {
    assert!(poly(&[1, 1, 1]).evaluate(&fe(2)) == fe(7));
    assert!(poly(&[2, 4, 6]).evaluate(&fe(3)) == fe(68));
    assert!(poly(&[]).evaluate(&fe(3)) == fe(0));
}

#[test]
fn divide_by_linear_factor() {
    let (q, r) = poly(&[1, 1, 1]).divide_by_linear(&fe(2));
    assert_eq!(q.num_terms(), 2);
    assert!(q.coeffs()[0] == fe(3));
    assert!(q.coeffs()[1] == fe(1));
    assert!(r == fe(7));
    // x^2 - 4 = (x - 2)(x + 2)
    let p = poly(&[0, 0, 1]).sub(&poly(&[4]));
    let (q, r) = p.divide_by_linear(&fe(2));
    assert!(r.is_zero());
    assert!(q.coeffs()[0] == fe(2));
    assert!(q.coeffs()[1] == fe(1));
}

#[test]
fn add_and_sub_lengths() {
    let a = poly(&[1, 2, 3]);
    let b = poly(&[5, 6]);
    let s = a.add(&b);
    assert_eq!(s.num_terms(), 3);
    assert!(s.coeffs()[0] == fe(6) && s.coeffs()[1] == fe(8) && s.coeffs()[2] == fe(3));
    let d = b.sub(&a);
    assert_eq!(d.num_terms(), 3);
    assert!(d.coeffs()[0] == fe(4) && d.coeffs()[1] == fe(4));
    assert!(d.coeffs()[2] == FieldElement::zero().sub(&fe(3)));
}

#[test]
fn degree_skips_trailing_zeros() {
    assert_eq!(poly(&[1, 2, 0, 0]).degree(), 1);
    assert_eq!(poly(&[0, 0]).degree(), 0);
    assert_eq!(poly(&[]).degree(), 0);
    assert_eq!(poly(&[0, 0, 5]).degree(), 2);
}

#[test]
fn multiply_by_convolution() {
    // (1 + x)(1 + x) = 1 + 2x + x^2
    let p = poly(&[1, 1]).mul(&poly(&[1, 1]));
    assert_eq!(p.num_terms(), 3);
    assert!(p.coeffs()[0] == fe(1) && p.coeffs()[1] == fe(2) && p.coeffs()[2] == fe(1));
    // (2 + 3x)(4 + 5x + 6x^2) = 8 + 22x + 27x^2 + 18x^3
    let q = poly(&[2, 3]).mul(&poly(&[4, 5, 6]));
    assert_eq!(q.num_terms(), 4);
    assert!(q.coeffs()[0] == fe(8) && q.coeffs()[1] == fe(22));
    assert!(q.coeffs()[2] == fe(27) && q.coeffs()[3] == fe(18));
    assert!(q.evaluate(&fe(2)) == fe(8 + 44 + 108 + 144));
    assert_eq!(poly(&[]).mul(&poly(&[1, 2])).num_terms(), 0);
}
