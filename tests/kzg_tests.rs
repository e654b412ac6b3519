use kzg10::field::FieldElement;
use kzg10::group::Point;
use kzg10::kzg::{KzgError, KZG10};
use kzg10::polynomial::Polynomial;

fn fe(n: u64) -> FieldElement {
    FieldElement::new(n)
}

fn poly(cs: &[u64]) -> Polynomial {
    Polynomial::new(cs.iter().map(|c| fe(*c)).collect())
}

#[test]
fn scenario_quadratic_at_two() {
    let params = KZG10::setup(10).unwrap();
    let p = poly(&[1, 1, 1]);
    let commitment = KZG10::commit(&params, &p).unwrap();
    let z = fe(2);
    let (y, proof) = KZG10::open(&params, &p, &z).unwrap();
    assert!(y == fe(7));
    assert!(KZG10::verify(&params, &commitment, &z, &y, &proof));
    assert!(!KZG10::verify(&params, &commitment, &z, &fe(8), &proof));
}

#[test]
fn scenario_random_point_and_fake_value() {
    let params = KZG10::setup(5).unwrap();
    let p = poly(&[2, 4, 6]);
    let commitment = KZG10::commit(&params, &p).unwrap();
    let z = fe(rand::random::<u64>());
    let (y, proof) = KZG10::open(&params, &p, &z).unwrap();
    assert!(y == p.evaluate(&z));
    assert!(KZG10::verify(&params, &commitment, &z, &y, &proof));
    let mut fake_y = fe(rand::random::<u64>());
    if fake_y == y {
        fake_y = fake_y.add(&fe(1));
    }
    assert!(!KZG10::verify(&params, &commitment, &z, &fake_y, &proof));
}

#[test]
fn scenario_zero_polynomial() {
    let params = KZG10::setup(3).unwrap();
    let p = poly(&[0, 0, 0]);
    let commitment = KZG10::commit(&params, &p).unwrap();
    assert!(commitment == Point::identity());
    let z = fe(12345);
    let (y, proof) = KZG10::open(&params, &p, &z).unwrap();
    assert!(y == FieldElement::zero());
    assert!(proof == Point::identity());
    assert!(KZG10::verify(&params, &commitment, &z, &y, &proof));
}

#[test]
fn commit_is_deterministic() {
    let params = KZG10::setup(4).unwrap();
    let p = poly(&[9, 8, 7, 6]);
    let c1 = KZG10::commit(&params, &p).unwrap();
    let c2 = KZG10::commit(&params, &p).unwrap();
    assert!(c1 == c2);
}

#[test]
fn commit_is_additive() {
    let params = KZG10::setup(4).unwrap();
    let first = poly(&[1, 2, 3]);
    let second = poly(&[5, 0, 7, 11]);
    let c1 = KZG10::commit(&params, &first).unwrap();
    let c2 = KZG10::commit(&params, &second).unwrap();
    let c3 = KZG10::commit(&params, &first.add(&second)).unwrap();
    assert!(c3 == c1.add(&c2));
    assert!(!(c3 == c1));
}

#[test]
fn capacity_boundary() {
    let params = KZG10::setup(3).unwrap();
    assert_eq!(params.max_degree(), 3);
    let at_bound = poly(&[1, 2, 3, 4]);
    assert!(KZG10::commit(&params, &at_bound).is_ok());
    let over_bound = poly(&[1, 2, 3, 4, 5]);
    assert!(matches!(KZG10::commit(&params, &over_bound), Err(KzgError::PolynomialTooLarge)));
    assert!(matches!(
        KZG10::open(&params, &over_bound, &fe(3)),
        Err(KzgError::PolynomialTooLarge)
    ));
    let trailing_zeros = poly(&[1, 2, 3, 4, 0, 0]);
    assert!(KZG10::commit(&params, &trailing_zeros).unwrap() == KZG10::commit(&params, &at_bound).unwrap());
}

#[test]
fn shifted_value_is_rejected() {
    let params = KZG10::setup(2).unwrap();
    let p = poly(&[3, 0, 5]);
    let commitment = KZG10::commit(&params, &p).unwrap();
    let z = fe(4);
    let (y, proof) = KZG10::open(&params, &p, &z).unwrap();
    assert!(y == fe(83));
    assert!(KZG10::verify(&params, &commitment, &z, &y, &proof));
    assert!(!KZG10::verify(&params, &commitment, &z, &y.add(&fe(1)), &proof));
    assert!(!KZG10::verify(&params, &commitment, &fe(5), &y, &proof));
}

#[test]
fn setup_rejects_zero_degree() {
    assert!(matches!(KZG10::setup(0), Err(KzgError::InvalidMaxDegree)));
    assert!(matches!(KZG10::setup_with_secret(0, &fe(5)), Err(KzgError::InvalidMaxDegree)));
}

#[test]
fn setup_from_same_secret_gives_same_commitments() {
    let a = KZG10::setup_with_secret(2, &fe(77)).unwrap();
    let b = KZG10::setup_with_secret(2, &fe(77)).unwrap();
    let c = KZG10::setup_with_secret(2, &fe(78)).unwrap();
    let p = poly(&[4, 5, 6]);
    let ca = KZG10::commit(&a, &p).unwrap();
    assert!(ca == KZG10::commit(&b, &p).unwrap());
    assert!(!(ca == KZG10::commit(&c, &p).unwrap()));
    // With secret 77 the commitment is p(77) times the generator.
    let expected = Point::identity().add(&Point::identity());
    assert!(!(ca == expected));
}

#[test]
fn proof_is_commitment_to_quotient() {
    let params = KZG10::setup(4).unwrap();
    let p = poly(&[5, 1, 0, 9, 2]);
    let z = fe(10);
    let (y, proof) = KZG10::open(&params, &p, &z).unwrap();
    let numerator = p.sub(&Polynomial::new(vec![y]));
    let (quotient, remainder) = numerator.divide_by_linear(&z);
    assert!(remainder.is_zero());
    assert_eq!(quotient.num_terms(), 4);
    assert!(proof == KZG10::commit(&params, &quotient).unwrap());
    assert!(KZG10::verify(&params, &KZG10::commit(&params, &p).unwrap(), &z, &y, &proof));
}
