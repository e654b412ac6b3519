use vstd::prelude::*;
use ark_bls12_381::{Bls12_381, Fr, G1Projective, G2Projective};
use ark_ec::pairing::{Pairing, PairingOutput};
use ark_ec::Group;
use ark_ff::{BigInt, PrimeField};
use ark_serialize::{CanonicalDeserialize, CanonicalSerialize};
use crate::field::{modulus, FieldElement};

verus! {

/// A point of G1, the first source group of the BLS12-381 pairing.
///
/// The point is held by its canonical uncompressed encoding. Its model is
/// its discrete logarithm with respect to the standard generator of G1:
/// the ghost integer `log` such that the point equals `log` times the
/// generator. Two points are the same group element exactly when their logs
/// agree modulo the group order. Points are only ever produced by the group
/// operations below, so every encoding held here is a valid one.
pub struct Point {
    bytes: Vec<u8>,
    log: Ghost<int>,
}

/// A point of G2, the second source group, modelled like `Point` with respect
/// to the standard generator of G2.
pub struct G2Point {
    bytes: Vec<u8>,
    log: Ghost<int>,
}

/// An element of GT, the target group of the pairing, modelled by its
/// logarithm with respect to the pairing of the two standard generators.
pub struct TargetElement {
    bytes: Vec<u8>,
    log: Ghost<int>,
}

impl Point {
    /// The discrete logarithm of this point with respect to the generator of G1.
    pub closed spec fn log(&self) -> int {
        self.log@
    }

    /// Whether two points are the same group element.
    pub open spec fn same(&self, other: &Point) -> bool {
        self.log() % modulus() == other.log() % modulus()
    }

    /// Relies on `Group::generator` for ark_bls12_381's `G1Projective`.
    #[verifier::external_body]
    pub(crate) fn generator() -> (r: Point)
        ensures
            r.log() == 1,
    {
        let mut bytes = Vec::new();
        G1Projective::generator().serialize_uncompressed(&mut bytes).unwrap();
        Point { bytes, log: Ghost(1) }
    }

    /// The identity element (the point at infinity), as zero times the generator.
    pub fn identity() -> (r: Point)
        ensures
            r.log() == 0,
    {
        Point::generator().scale(&FieldElement::zero())
    }

    /// Relies on the point addition of ark_bls12_381's `G1Projective`.
    #[verifier::external_body]
    pub fn add(&self, other: &Point) -> (r: Point)
        ensures
            r.log() == self.log() + other.log(),
    {
        let a = G1Projective::deserialize_uncompressed_unchecked(&self.bytes[..]).unwrap();
        let b = G1Projective::deserialize_uncompressed_unchecked(&other.bytes[..]).unwrap();
        let mut bytes = Vec::new();
        (a + b).serialize_uncompressed(&mut bytes).unwrap();
        Point { bytes, log: Ghost(self.log@ + other.log@) }
    }

    /// Relies on the scalar multiplication of ark_bls12_381's `G1Projective` by an `Fr`.
    #[verifier::external_body]
    pub fn scale(&self, s: &FieldElement) -> (r: Point)
        ensures
            r.log() == self.log() * s.value(),
    {
        let a = G1Projective::deserialize_uncompressed_unchecked(&self.bytes[..]).unwrap();
        let k = Fr::from_bigint(BigInt::new([s.l0, s.l1, s.l2, s.l3])).unwrap();
        let mut bytes = Vec::new();
        (a * k).serialize_uncompressed(&mut bytes).unwrap();
        Point { bytes, log: Ghost(self.log@ * s.value()) }
    }

    /// Relies on the equality of ark_bls12_381's `G1Projective`, which compares
    /// group elements whatever their projective coordinates.
    #[verifier::external_body]
    fn equal(&self, other: &Point) -> (r: bool)
        ensures
            r == self.same(other),
    {
        let a = G1Projective::deserialize_uncompressed_unchecked(&self.bytes[..]).unwrap();
        let b = G1Projective::deserialize_uncompressed_unchecked(&other.bytes[..]).unwrap();
        a == b
    }
}

impl PartialEq for Point {
    fn eq(&self, other: &Point) -> (r: bool) {
        self.equal(other)
    }
}

impl vstd::std_specs::cmp::PartialEqSpecImpl for Point {
    open spec fn obeys_eq_spec() -> bool {
        true
    }

    open spec fn eq_spec(&self, other: &Point) -> bool {
        self.same(other)
    }
}

impl G2Point {
    /// The discrete logarithm of this point with respect to the generator of G2.
    pub closed spec fn log(&self) -> int {
        self.log@
    }

    /// Relies on `Group::generator` for ark_bls12_381's `G2Projective`.
    #[verifier::external_body]
    pub(crate) fn generator() -> (r: G2Point)
        ensures
            r.log() == 1,
    {
        let mut bytes = Vec::new();
        G2Projective::generator().serialize_uncompressed(&mut bytes).unwrap();
        G2Point { bytes, log: Ghost(1) }
    }

    /// Relies on the point addition of ark_bls12_381's `G2Projective`.
    #[verifier::external_body]
    pub fn add(&self, other: &G2Point) -> (r: G2Point)
        ensures
            r.log() == self.log() + other.log(),
    {
        let a = G2Projective::deserialize_uncompressed_unchecked(&self.bytes[..]).unwrap();
        let b = G2Projective::deserialize_uncompressed_unchecked(&other.bytes[..]).unwrap();
        let mut bytes = Vec::new();
        (a + b).serialize_uncompressed(&mut bytes).unwrap();
        G2Point { bytes, log: Ghost(self.log@ + other.log@) }
    }

    /// Relies on the scalar multiplication of ark_bls12_381's `G2Projective` by an `Fr`.
    #[verifier::external_body]
    pub fn scale(&self, s: &FieldElement) -> (r: G2Point)
        ensures
            r.log() == self.log() * s.value(),
    {
        let a = G2Projective::deserialize_uncompressed_unchecked(&self.bytes[..]).unwrap();
        let k = Fr::from_bigint(BigInt::new([s.l0, s.l1, s.l2, s.l3])).unwrap();
        let mut bytes = Vec::new();
        (a * k).serialize_uncompressed(&mut bytes).unwrap();
        G2Point { bytes, log: Ghost(self.log@ * s.value()) }
    }
}

impl TargetElement {
    /// The logarithm of this element with respect to the pairing of the two generators.
    pub closed spec fn log(&self) -> int {
        self.log@
    }

    /// Relies on `Pairing::pairing` for ark_bls12_381's `Bls12_381`, which is
    /// bilinear and non-degenerate: the pairing of `a` times the first generator
    /// with `b` times the second is the pairing of the generators raised to `a * b`.
    #[verifier::external_body]
    pub(crate) fn pairing(p: &Point, q: &G2Point) -> (r: TargetElement)
        ensures
            r.log() == p.log() * q.log(),
    {
        let a = G1Projective::deserialize_uncompressed_unchecked(&p.bytes[..]).unwrap();
        let b = G2Projective::deserialize_uncompressed_unchecked(&q.bytes[..]).unwrap();
        let mut bytes = Vec::new();
        Bls12_381::pairing(a, b).serialize_uncompressed(&mut bytes).unwrap();
        TargetElement { bytes, log: Ghost(p.log@ * q.log@) }
    }

    /// Relies on the equality of ark_ec's `PairingOutput` for `Bls12_381`.
    #[verifier::external_body]
    pub(crate) fn equal(&self, other: &TargetElement) -> (r: bool)
        ensures
            r == (self.log() % modulus() == other.log() % modulus()),
    {
        let a = PairingOutput::<Bls12_381>::deserialize_uncompressed_unchecked(&self.bytes[..]);
        let b = PairingOutput::<Bls12_381>::deserialize_uncompressed_unchecked(&other.bytes[..]);
        a.unwrap() == b.unwrap()
    }
}

} // verus!
