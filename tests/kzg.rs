use ark_bls12_381::{Bls12_381, Fr as ScalarField, G1Affine, G2Affine};
use ark_ec::pairing::Pairing;
use ark_ec::AffineRepr;
use ark_ff::{One, PrimeField};
use ark_serialize::{CanonicalDeserialize, CanonicalSerialize};
use ark_std::UniformRand;
use kzg_circuit::field::Scalar;
use kzg_circuit::group::{G1Point, G2Point};
use kzg_circuit::kzg::{KZGParams, KzgError};

fn sc(x: ScalarField) -> Scalar {
    Scalar::from_limbs(x.into_bigint().0).unwrap()
}

fn g1(p: &G1Point) -> G1Affine {
    G1Affine::deserialize_uncompressed(&p.to_bytes()[..]).unwrap()
}

fn g2(p: &G2Point) -> G2Affine {
    G2Affine::deserialize_uncompressed(&p.to_bytes()[..]).unwrap()
}

fn random_setup<R: ark_std::rand::Rng>(degree: usize, rng: &mut R) -> KZGParams {
    let s = ScalarField::rand(rng);
    KZGParams::setup(degree, &sc(s))
}

#[test]
fn test_kgz_setup() {
    let mut rng = ark_std::test_rng();
    let params = random_setup(10, &mut rng);
    assert_eq!(params.powers_of_g.len(), 11);
    assert_eq!(g2(&params.g2), G2Affine::generator());
}

#[test]
fn test_kgz_g2_relationship() {
    let mut rng = ark_std::test_rng();
    let params = random_setup(3, &mut rng);

    let g1_s = g1(&params.powers_of_g[1]);
    let g1_gen = g1(&params.powers_of_g[0]);

    let pairing1 = Bls12_381::pairing(g1_s, g2(&params.g2));
    let pairing2 = Bls12_381::pairing(g1_gen, g2(&params.g2_s));
    assert_eq!(pairing1, pairing2);
}

#[test]
fn test_kgz_edge_cases() {
    let mut rng = ark_std::test_rng();

    let params = random_setup(0, &mut rng);
    assert_eq!(params.powers_of_g.len(), 1);
    assert_eq!(g1(&params.powers_of_g[0]), G1Affine::generator());

    let params = random_setup(1, &mut rng);
    assert_eq!(params.powers_of_g.len(), 2);
}

#[test]
fn test_kzg_commit_verify() {
    let mut rng = ark_std::test_rng();
    let params = random_setup(5, &mut rng);

    // x^2 + 2x + 3
    let poly = vec![
        sc(ScalarField::from(3u64)),
        sc(ScalarField::from(2u64)),
        sc(ScalarField::from(1u64)),
    ];

    let commitment = params.commit(&poly).unwrap();

    let z = sc(ScalarField::from(2u64));
    let (proof, value) = params.open(&poly, &z).unwrap();
    assert_eq!(value, Scalar::from_u64(11));

    assert!(params.verify(&commitment, &proof, &z, &value));

    let wrong_value = value.add(&sc(ScalarField::one()));
    assert_eq!(wrong_value, Scalar::from_u64(12));
    assert!(!params.verify(&commitment, &proof, &z, &wrong_value));
}

#[test]
fn generator_encodings_match_the_curve_library() {
    let mut b1 = Vec::new();
    G1Affine::generator().serialize_uncompressed(&mut b1).unwrap();
    assert_eq!(G1Point::generator().to_bytes(), b1);
    assert_eq!(&b1[..4], &[0x17, 0xf1, 0xd3, 0xa7]);
    assert_eq!(&b1[48..52], &[0x08, 0xb3, 0xf4, 0x81]);
    let mut b2 = Vec::new();
    G2Affine::generator().serialize_uncompressed(&mut b2).unwrap();
    assert_eq!(G2Point::generator().to_bytes(), b2);
    assert_eq!(&b2[..4], &[0x13, 0xe0, 0x2b, 0x60]);
    assert_eq!(&b2[48..52], &[0x02, 0x4a, 0xa2, 0xb2]);
    assert_eq!(&b2[96..100], &[0x06, 0x06, 0xc4, 0xa0]);
    assert_eq!(&b2[144..148], &[0x0c, 0xe5, 0xd5, 0x27]);
}

#[test]
fn setup_powers_follow_the_secret() {
    let params = KZGParams::setup(3, &Scalar::from_u64(5));
    let g = G1Affine::generator();
    let expected = [1u64, 5, 25, 125];
    for (p, e) in params.powers_of_g.iter().zip(expected.iter()) {
        assert_eq!(g1(p), g * ScalarField::from(*e));
    }
    assert_eq!(g2(&params.g2_s), G2Affine::generator() * ScalarField::from(5u64));
}

#[test]
fn commit_is_the_polynomial_at_the_secret_in_the_exponent() {
    let params = KZGParams::setup(4, &Scalar::from_u64(2));
    // 3 + 2X + X^2 at 2 is 11
    let poly = vec![Scalar::from_u64(3), Scalar::from_u64(2), Scalar::from_u64(1)];
    let c = params.commit(&poly).unwrap();
    assert_eq!(g1(&c), G1Affine::generator() * ScalarField::from(11u64));
    // trailing zeros do not change the commitment
    let padded = vec![
        Scalar::from_u64(3),
        Scalar::from_u64(2),
        Scalar::from_u64(1),
        Scalar::zero(),
        Scalar::zero(),
        Scalar::zero(),
        Scalar::zero(),
    ];
    assert_eq!(params.commit(&padded).unwrap().to_bytes(), c.to_bytes());
}

#[test]
fn commit_rejects_too_high_degree() {
    let params = KZGParams::setup(1, &Scalar::from_u64(7));
    let poly = vec![Scalar::one(), Scalar::one(), Scalar::one()];
    assert_eq!(params.commit(&poly).map(|_| ()), Err(KzgError::DegreeTooLarge));
    // the open proof commits to a quotient of one degree less
    assert!(params.open(&poly, &Scalar::from_u64(3)).is_ok());
    let poly4 = vec![Scalar::one(), Scalar::one(), Scalar::one(), Scalar::one()];
    assert_eq!(
        params.open(&poly4, &Scalar::from_u64(3)).map(|_| ()),
        Err(KzgError::DegreeTooLarge)
    );
}

#[test]
fn zero_polynomial_commits_to_identity() {
    let params = KZGParams::setup(2, &Scalar::from_u64(9));
    let c = params.commit(&vec![]).unwrap();
    assert!(g1(&c).is_zero());
    let (proof, value) = params.open(&vec![], &Scalar::from_u64(4)).unwrap();
    assert_eq!(value, Scalar::zero());
    assert!(params.verify(&c, &proof, &Scalar::from_u64(4), &value));
}

#[test]
fn completeness_and_soundness_on_random_polynomials() {
    let mut rng = ark_std::test_rng();
    let params = random_setup(6, &mut rng);
    for len in [1usize, 4, 7] {
        let poly: Vec<Scalar> = (0..len).map(|_| sc(ScalarField::rand(&mut rng))).collect();
        let z = sc(ScalarField::rand(&mut rng));
        let c = params.commit(&poly).unwrap();
        let (proof, value) = params.open(&poly, &z).unwrap();
        assert!(params.verify(&c, &proof, &z, &value));
        let other = value.add(&sc(ScalarField::rand(&mut rng)));
        assert_ne!(other, value);
        assert!(!params.verify(&c, &proof, &z, &other));
    }
}
