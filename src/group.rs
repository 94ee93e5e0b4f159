//! Points of the two BLS12-381 source groups and the pairing between them.
//!
//! A point is held as its uncompressed encoding, as written by
//! `ark-serialize`; the only values of these types are ones that `ark-ec`
//! produced. The group law, scalar multiplication and the pairing are done
//! by `ark-ec`; what they return is named below and carried through the
//! contracts of the commitment scheme.

use crate::field::Scalar;
use ark_bls12_381::{Bls12_381, Fr, G1Affine, G2Affine};
use ark_ec::pairing::Pairing;
use ark_ec::{AffineRepr, CurveGroup};
use ark_ff::{BigInt, PrimeField};
use ark_serialize::{CanonicalDeserialize, CanonicalSerialize};
use vstd::prelude::*;

verus! {

/// The number whose little-endian 64-bit limbs are `l0..l5` (a base-field
/// element of BLS12-381).
pub open spec fn fq_value(l0: u64, l1: u64, l2: u64, l3: u64, l4: u64, l5: u64) -> nat {
    let b: nat = 0x1_0000_0000_0000_0000;
    (l0 + b * (l1 + b * (l2 + b * (l3 + b * (l4 + b * l5))))) as nat
}

/// The `n` low bytes of `x`, most significant first.
pub open spec fn be_bytes(x: nat, n: nat) -> Seq<u8>
    decreases n,
{
    if n == 0 {
        seq![]
    } else {
        be_bytes(x / 256, (n - 1) as nat).push((x % 256) as u8)
    }
}

/// The uncompressed encoding of the generator of G1: its coordinates `x`
/// then `y`, 48 big-endian bytes each, no flag bits set.
pub open spec fn g1_generator_encoding() -> Seq<u8> {
    let x = fq_value(
        0xfb3af00adb22c6bb, 0x6c55e83ff97a1aef, 0xa14e3a3f171bac58,
        0xc3688c4f9774b905, 0x2695638c4fa9ac0f, 0x17f1d3a73197d794,
    );
    let y = fq_value(
        0x0caa232946c5e7e1, 0xd03cc744a2888ae4, 0x00db18cb2c04b3ed,
        0xfcf5e095d5d00af6, 0xa09e30ed741d8ae4, 0x08b3f481e3aaa0f1,
    );
    be_bytes(x, 48) + be_bytes(y, 48)
}

/// The uncompressed encoding of the generator of G2: `x.c1`, `x.c0`,
/// `y.c1`, `y.c0`, 48 big-endian bytes each, no flag bits set.
pub open spec fn g2_generator_encoding() -> Seq<u8> {
    let x_c0 = fq_value(
        0xd48056c8c121bdb8, 0x0bac0326a805bbef, 0xb4510b647ae3d177,
        0xc6e47ad4fa403b02, 0x260805272dc51051, 0x024aa2b2f08f0a91,
    );
    let x_c1 = fq_value(
        0xe5ac7d055d042b7e, 0x334cf11213945d57, 0xb5da61bbdc7f5049,
        0x596bd0d09920b61a, 0x7dacd3a088274f65, 0x13e02b6052719f60,
    );
    let y_c0 = fq_value(
        0xe193548608b82801, 0x923ac9cc3baca289, 0x6d429a695160d12c,
        0xadfd9baa8cbdd3a7, 0x8cc9cdc6da2e351a, 0x0ce5d527727d6e11,
    );
    let y_c1 = fq_value(
        0xaaa9075ff05f79be, 0x3f370d275cec1da1, 0x267492ab572e99ab,
        0xcb3e287e85a763af, 0x32acd2b02bc28b99, 0x0606c4a02ea734cc,
    );
    be_bytes(x_c1, 48) + be_bytes(x_c0, 48) + be_bytes(y_c1, 48) + be_bytes(y_c0, 48)
}

/// The encoding of `a + b` in G1.
pub uninterp spec fn g1_add_of(a: Seq<u8>, b: Seq<u8>) -> Seq<u8>;

/// The encoding of `a - b` in G1.
pub uninterp spec fn g1_sub_of(a: Seq<u8>, b: Seq<u8>) -> Seq<u8>;

/// The encoding of `k · p` in G1, for a scalar of value `k`.
pub uninterp spec fn g1_mul_of(p: Seq<u8>, k: int) -> Seq<u8>;

/// The encoding of `a - b` in G2.
pub uninterp spec fn g2_sub_of(a: Seq<u8>, b: Seq<u8>) -> Seq<u8>;

/// The encoding of `k · p` in G2, for a scalar of value `k`.
pub uninterp spec fn g2_mul_of(p: Seq<u8>, k: int) -> Seq<u8>;

/// The pairing of a G1 point with a G2 point (equal results exactly when
/// the target-group elements are equal).
pub uninterp spec fn pairing_of(p: Seq<u8>, q: Seq<u8>) -> Seq<u8>;

/// A point of G1.
#[derive(Debug, Clone)]
pub struct G1Point {
    bytes: Vec<u8>,
}

/// A point of G2.
#[derive(Debug, Clone)]
pub struct G2Point {
    bytes: Vec<u8>,
}

impl View for G1Point {
    type V = Seq<u8>;

    closed spec fn view(&self) -> Seq<u8> {
        self.bytes@
    }
}

impl View for G2Point {
    type V = Seq<u8>;

    closed spec fn view(&self) -> Seq<u8> {
        self.bytes@
    }
}

impl G1Point {
    /// The fixed generator of G1.
    pub fn generator() -> (r: G1Point)
        ensures
            r@ == g1_generator_encoding(),
    {
        g1_generator()
    }

    /// The uncompressed encoding.
    pub fn to_bytes(&self) -> (r: Vec<u8>)
        ensures
            r@ == self@,
    {
        self.bytes.clone()
    }
}

impl G2Point {
    /// The fixed generator of G2.
    pub fn generator() -> (r: G2Point)
        ensures
            r@ == g2_generator_encoding(),
    {
        g2_generator()
    }

    /// The uncompressed encoding.
    pub fn to_bytes(&self) -> (r: Vec<u8>)
        ensures
            r@ == self@,
    {
        self.bytes.clone()
    }
}

/// Relies on `AffineRepr::generator` for G1 (`G1_GENERATOR_X`,
/// `G1_GENERATOR_Y` of ark-bls12-381) and on its uncompressed serialization
/// (big-endian coordinates, no flags for a finite point).
#[verifier::external_body]
pub(crate) fn g1_generator() -> (r: G1Point)
    ensures
        r@ == g1_generator_encoding(),
{
    let mut bytes = Vec::new();
    G1Affine::generator().serialize_uncompressed(&mut bytes).unwrap();
    G1Point { bytes }
}

/// Relies on `AffineRepr::generator` for G2 (`G2_GENERATOR_X`,
/// `G2_GENERATOR_Y` of ark-bls12-381) and on its uncompressed serialization
/// (big-endian coordinates, `c1` before `c0`, no flags for a finite point).
#[verifier::external_body]
pub(crate) fn g2_generator() -> (r: G2Point)
    ensures
        r@ == g2_generator_encoding(),
{
    let mut bytes = Vec::new();
    G2Affine::generator().serialize_uncompressed(&mut bytes).unwrap();
    G2Point { bytes }
}

/// Relies on `Affine + Affine` in G1.
#[verifier::external_body]
pub(crate) fn g1_add(a: &G1Point, b: &G1Point) -> (r: G1Point)
    ensures
        r@ == g1_add_of(a@, b@),
{
    let x = G1Affine::deserialize_uncompressed_unchecked(&a.bytes[..]).unwrap();
    let y = G1Affine::deserialize_uncompressed_unchecked(&b.bytes[..]).unwrap();
    let mut bytes = Vec::new();
    (x + y).into_affine().serialize_uncompressed(&mut bytes).unwrap();
    G1Point { bytes }
}

/// Relies on `Affine - Affine` in G1.
#[verifier::external_body]
pub(crate) fn g1_sub(a: &G1Point, b: &G1Point) -> (r: G1Point)
    ensures
        r@ == g1_sub_of(a@, b@),
{
    let x = G1Affine::deserialize_uncompressed_unchecked(&a.bytes[..]).unwrap();
    let y = G1Affine::deserialize_uncompressed_unchecked(&b.bytes[..]).unwrap();
    let mut bytes = Vec::new();
    (x - y).into_affine().serialize_uncompressed(&mut bytes).unwrap();
    G1Point { bytes }
}

/// Relies on `Affine * Fr` (scalar multiplication) in G1; `1 · p` is `p`.
#[verifier::external_body]
pub(crate) fn g1_mul(p: &G1Point, k: &Scalar) -> (r: G1Point)
    ensures
        r@ == g1_mul_of(p@, k.value()),
        k.value() == 1 ==> r@ == p@,
{
    let x = G1Affine::deserialize_uncompressed_unchecked(&p.bytes[..]).unwrap();
    let k = Fr::from_bigint(BigInt::new([k.l0, k.l1, k.l2, k.l3])).unwrap();
    let mut bytes = Vec::new();
    (x * k).into_affine().serialize_uncompressed(&mut bytes).unwrap();
    G1Point { bytes }
}

/// Relies on `Affine - Affine` in G2.
#[verifier::external_body]
pub(crate) fn g2_sub(a: &G2Point, b: &G2Point) -> (r: G2Point)
    ensures
        r@ == g2_sub_of(a@, b@),
{
    let x = G2Affine::deserialize_uncompressed_unchecked(&a.bytes[..]).unwrap();
    let y = G2Affine::deserialize_uncompressed_unchecked(&b.bytes[..]).unwrap();
    let mut bytes = Vec::new();
    (x - y).into_affine().serialize_uncompressed(&mut bytes).unwrap();
    G2Point { bytes }
}

/// Relies on `Affine * Fr` (scalar multiplication) in G2.
#[verifier::external_body]
pub(crate) fn g2_mul(p: &G2Point, k: &Scalar) -> (r: G2Point)
    ensures
        r@ == g2_mul_of(p@, k.value()),
{
    let x = G2Affine::deserialize_uncompressed_unchecked(&p.bytes[..]).unwrap();
    let k = Fr::from_bigint(BigInt::new([k.l0, k.l1, k.l2, k.l3])).unwrap();
    let mut bytes = Vec::new();
    (x * k).into_affine().serialize_uncompressed(&mut bytes).unwrap();
    G2Point { bytes }
}

/// Relies on `Pairing::pairing` of `Bls12_381` and equality of its outputs:
/// whether `e(p1, q1) == e(p2, q2)`.
#[verifier::external_body]
pub(crate) fn pairings_equal(p1: &G1Point, q1: &G2Point, p2: &G1Point, q2: &G2Point) -> (r: bool)
    ensures
        r == (pairing_of(p1@, q1@) == pairing_of(p2@, q2@)),
{
    let a = G1Affine::deserialize_uncompressed_unchecked(&p1.bytes[..]).unwrap();
    let b = G2Affine::deserialize_uncompressed_unchecked(&q1.bytes[..]).unwrap();
    let c = G1Affine::deserialize_uncompressed_unchecked(&p2.bytes[..]).unwrap();
    let d = G2Affine::deserialize_uncompressed_unchecked(&q2.bytes[..]).unwrap();
    Bls12_381::pairing(a, b) == Bls12_381::pairing(c, d)
}

} // verus!
