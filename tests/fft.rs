use ark_bls12_381::Fr as ScalarField;
use ark_ff::{FftField, Field, One, PrimeField, Zero};
use kzg_circuit::fft::{
    bit_reverse_permute, fft, ifft, interpolate, reverse_bits, EvaluationDomain, FftError,
};
use kzg_circuit::field::Scalar;

fn sc(x: ScalarField) -> Scalar {
    Scalar::from_limbs(x.into_bigint().0).unwrap()
}

fn root_of_unity_4() -> ScalarField {
    ScalarField::from(5u64).pow(&[
        0xc19139cb84c680a6u64,
        0x26fe7e3811dead04u64,
        0x154e9c24a5f559c7u64,
        0x8495b4e4c316u64,
    ])
}

#[test]
fn test_fft_ifft() {
    let mut coeffs = vec![
        sc(ScalarField::one()),
        sc(ScalarField::one()),
        sc(ScalarField::zero()),
        sc(ScalarField::zero()),
    ];
    let omega = root_of_unity_4();
    let original_coeffs = coeffs.clone();

    fft(&mut coeffs, &sc(omega)).unwrap();
    ifft(&mut coeffs, &sc(omega.inverse().unwrap())).unwrap();

    for (a, b) in coeffs.iter().zip(original_coeffs.iter()) {
        assert_eq!(a, b);
    }
}

fn primitive_root(n: u64) -> ScalarField {
    ScalarField::get_root_of_unity(n).unwrap()
}

#[test]
fn fft_evaluates_in_natural_order() {
    let omega = primitive_root(4);
    assert_eq!(omega.pow([4u64]), ScalarField::one());
    assert_ne!(omega.pow([2u64]), ScalarField::one());
    let one = ScalarField::one();
    let mut v = vec![sc(one), sc(one), sc(ScalarField::zero()), sc(ScalarField::zero())];
    fft(&mut v, &sc(omega)).unwrap();
    assert_eq!(v[0], sc(one + one));
    assert_eq!(v[1], sc(one + omega));
    assert_eq!(v[2], sc(ScalarField::zero()));
    assert_eq!(v[3], sc(one + omega.pow([3u64])));
}

#[test]
fn fft_round_trip_size_eight() {
    let omega = primitive_root(8);
    assert_ne!(omega.pow([4u64]), ScalarField::one());
    let original: Vec<Scalar> = (0..8u64).map(|i| Scalar::from_u64(i * i + 7)).collect();
    let mut v = original.clone();
    fft(&mut v, &sc(omega)).unwrap();
    assert_ne!(v, original);
    ifft(&mut v, &sc(omega.inverse().unwrap())).unwrap();
    assert_eq!(v, original);
}

#[test]
fn fft_rejects_length_not_power_of_two() {
    let mut v = vec![Scalar::one(), Scalar::one(), Scalar::one()];
    assert_eq!(fft(&mut v, &Scalar::one()), Err(FftError::DomainSizeMismatch));
    assert_eq!(v, vec![Scalar::one(), Scalar::one(), Scalar::one()]);
    let mut e: Vec<Scalar> = vec![];
    assert_eq!(ifft(&mut e, &Scalar::one()), Err(FftError::DomainSizeMismatch));
}

#[test]
fn fft_of_single_entry_is_identity() {
    let mut v = vec![Scalar::from_u64(9)];
    fft(&mut v, &Scalar::from_u64(3)).unwrap();
    assert_eq!(v, vec![Scalar::from_u64(9)]);
}

#[test]
fn reverse_bits_values() {
    assert_eq!(reverse_bits(1, 3), 4);
    assert_eq!(reverse_bits(6, 3), 3);
    assert_eq!(reverse_bits(5, 0), 0);
    assert_eq!(reverse_bits(0b1011, 4), 0b1101);
    assert_eq!(reverse_bits(1, 64), 1usize << 63);
}

#[test]
fn interpolate_recovers_coefficients() {
    let omega = primitive_root(4);
    let domain: Vec<ScalarField> = (0..4u64).map(|i| omega.pow([i])).collect();
    // p(X) = 3 + 2X + X^2
    let p = |x: ScalarField| ScalarField::from(3u64) + ScalarField::from(2u64) * x + x * x;
    let evals: Vec<Scalar> = domain.iter().map(|x| sc(p(*x))).collect();
    let dom: Vec<Scalar> = domain.iter().map(|x| sc(*x)).collect();
    let coeffs = interpolate(&evals, &dom).unwrap();
    assert_eq!(coeffs, vec![Scalar::from_u64(3), Scalar::from_u64(2), Scalar::from_u64(1)]);
}

#[test]
fn interpolate_rejects_mismatched_lengths() {
    let evals = vec![Scalar::one(), Scalar::one()];
    let dom = vec![Scalar::one()];
    assert_eq!(interpolate(&evals, &dom), Err(FftError::DomainSizeMismatch));
}

#[test]
fn domain_needs_invertible_generator() {
    assert_eq!(
        EvaluationDomain::new(4, Scalar::zero()).map(|d| d.size),
        Err(FftError::InvalidInverse)
    );
    let omega = root_of_unity_4();
    let d = EvaluationDomain::new(4, sc(omega)).unwrap();
    assert_eq!(d.size, 4);
    assert_eq!(d.omega_inv, sc(omega.inverse().unwrap()));
}

#[test]
fn scalar_arithmetic() {
    let two = Scalar::from_u64(2);
    let three = Scalar::from_u64(3);
    assert_eq!(two.mul(&three), Scalar::from_u64(6));
    assert_eq!(two.add(&three), Scalar::from_u64(5));
    assert_eq!(two.sub(&three), sc(-ScalarField::one()));
    assert_eq!(two.pow(10), Scalar::from_u64(1024));
    assert_eq!(two.inverse().unwrap().mul(&two), Scalar::one());
    assert_eq!(Scalar::zero().inverse(), None);
    assert!(Scalar::zero().is_zero());
    assert!(!Scalar::one().is_zero());
    assert_eq!(Scalar::from_limbs([u64::MAX; 4]), None);
    assert_eq!(Scalar::from_u64(77).to_limbs(), [77, 0, 0, 0]);
}

#[test]
fn bit_reverse_permutation_of_eight() {
    let mut v: Vec<Scalar> = (0..8u64).map(Scalar::from_u64).collect();
    bit_reverse_permute(&mut v, 3);
    let expected: Vec<Scalar> = [0u64, 4, 2, 6, 1, 5, 3, 7].iter().map(|x| Scalar::from_u64(*x)).collect();
    assert_eq!(v, expected);
}
