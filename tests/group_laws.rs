use ark_bls12_381::{Fr as ScalarField, G1Projective as G};
use ark_ec::{AdditiveGroup, PrimeGroup};
use ark_ff::Field;
use ark_std::{UniformRand, Zero};
use kzg_circuit::group::G1Point;
use ark_serialize::CanonicalDeserialize;

#[test]
fn group_law_on_random_elements() {
    let mut rng = ark_std::test_rng();
    let a = G::rand(&mut rng);
    let b = G::rand(&mut rng);
    assert_eq!((a + b) + (a - b), a.double());
    assert_eq!(-a + a, G::zero());
}

#[test]
fn scalar_multiplication_undone_by_inverse() {
    let mut rng = ark_std::test_rng();
    let c = G::rand(&mut rng);
    let k = ScalarField::rand(&mut rng);
    assert!(!k.is_zero());
    assert_eq!((c * k) * k.inverse().unwrap(), c);
}

#[test]
fn generator_point_decodes_to_generator() {
    let p = G1Point::generator();
    let a = ark_bls12_381::G1Affine::deserialize_uncompressed(&p.to_bytes()[..]).unwrap();
    assert_eq!(G::from(a), G::generator());
}
