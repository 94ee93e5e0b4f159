//! Scalars of the BLS12-381 scalar field, held as their canonical value in
//! four little-endian 64-bit limbs. The arithmetic itself is done by `ark-ff`.

use ark_bls12_381::Fr;
use ark_ff::{BigInt, Field, PrimeField};
use vstd::arithmetic::power::pow;
use vstd::prelude::*;

verus! {

/// 2^64.
pub open spec fn limb_base() -> int {
    0x1_0000_0000_0000_0000
}

/// The number whose little-endian 64-bit limbs are `l0..l3`.
pub open spec fn limbs_value(l0: u64, l1: u64, l2: u64, l3: u64) -> int {
    l0 + limb_base() * (l1 + limb_base() * (l2 + limb_base() * l3))
}

/// The low limb and the rest of a number written as `l + 2^64 · rest`.
proof fn lemma_limb_split(x: int, l: int, rest: int)
    requires
        0 <= l < limb_base(),
        x == l + limb_base() * rest,
    ensures
        l == x % limb_base(),
        rest == x / limb_base(),
{
    assert(x == rest * limb_base() + l) by (nonlinear_arith)
        requires
            x == l + limb_base() * rest,
    {
    }
    vstd::arithmetic::div_mod::lemma_fundamental_div_mod_converse(x, limb_base(), rest, l);
}

/// Limbs are determined by the number they spell.
proof fn lemma_limbs_injective(a0: u64, a1: u64, a2: u64, a3: u64, b0: u64, b1: u64, b2: u64, b3: u64)
    requires
        limbs_value(a0, a1, a2, a3) == limbs_value(b0, b1, b2, b3),
    ensures
        a0 == b0 && a1 == b1 && a2 == b2 && a3 == b3,
{
    let x = limbs_value(a0, a1, a2, a3);
    let ra = a1 + limb_base() * (a2 + limb_base() * a3);
    let rb = b1 + limb_base() * (b2 + limb_base() * b3);
    lemma_limb_split(x, a0 as int, ra);
    lemma_limb_split(x, b0 as int, rb);
    let sa = a2 + limb_base() * a3;
    let sb = b2 + limb_base() * b3;
    lemma_limb_split(ra, a1 as int, sa);
    lemma_limb_split(ra, b1 as int, sb);
    lemma_limb_split(sa, a2 as int, a3 as int);
    lemma_limb_split(sa, b2 as int, b3 as int);
}

/// The order r of the scalar field.
pub open spec fn modulus() -> int {
    limbs_value(0xffffffff00000001, 0x53bda402fffe5bfe, 0x3339d80809a1d805, 0x73eda753299d7d48)
}

/// A field element: the limbs of its canonical representative in [0, r).
#[derive(Debug, Clone, Copy, PartialEq, Eq, Structural)]
pub struct Scalar {
    pub(crate) l0: u64,
    pub(crate) l1: u64,
    pub(crate) l2: u64,
    pub(crate) l3: u64,
}

impl Scalar {
    /// The element as an integer in [0, r).
    pub closed spec fn value(self) -> int {
        limbs_value(self.l0, self.l1, self.l2, self.l3) % modulus()
    }

    /// The limbs hold the canonical representative.
    #[verifier::type_invariant]
    closed spec fn canonical(self) -> bool {
        limbs_value(self.l0, self.l1, self.l2, self.l3) < modulus()
    }

    /// Every element's value lies in [0, r).
    pub proof fn lemma_value_range(self)
        ensures
            0 <= self.value() < modulus(),
    {
    }

    pub fn zero() -> (r: Scalar)
        ensures
            r.value() == 0,
    {
        Scalar { l0: 0, l1: 0, l2: 0, l3: 0 }
    }

    pub fn one() -> (r: Scalar)
        ensures
            r.value() == 1,
    {
        proof {
            vstd::arithmetic::div_mod::lemma_small_mod(1, modulus() as nat);
        }
        Scalar { l0: 1, l1: 0, l2: 0, l3: 0 }
    }

    /// Whether this is the additive identity.
    pub fn is_zero(&self) -> (r: bool)
        ensures
            r == (self.value() == 0),
    {
        let r = self.l0 == 0 && self.l1 == 0 && self.l2 == 0 && self.l3 == 0;
        proof {
            use_type_invariant(self);
            vstd::arithmetic::div_mod::lemma_small_mod(
                limbs_value(self.l0, self.l1, self.l2, self.l3) as nat,
                modulus() as nat,
            );
            let (a, b, c, d) = (self.l0 as int, self.l1 as int, self.l2 as int, self.l3 as int);
            assert(limbs_value(self.l0, self.l1, self.l2, self.l3) == 0 ==> a == 0 && b == 0 && c == 0 && d == 0) by (nonlinear_arith)
                requires
                    limbs_value(self.l0, self.l1, self.l2, self.l3) == a + limb_base() * (b + limb_base() * (c + limb_base() * d)),
                    a >= 0,
                    b >= 0,
                    c >= 0,
                    d >= 0,
                    limb_base() > 0,
            {
            }
        }
        r
    }

    /// Whether the two elements are equal.
    pub fn equals(&self, o: &Scalar) -> (r: bool)
        ensures
            r == (self.value() == o.value()),
    {
        let r = self.l0 == o.l0 && self.l1 == o.l1 && self.l2 == o.l2 && self.l3 == o.l3;
        proof {
            use_type_invariant(self);
            use_type_invariant(o);
            vstd::arithmetic::div_mod::lemma_small_mod(
                limbs_value(self.l0, self.l1, self.l2, self.l3) as nat,
                modulus() as nat,
            );
            vstd::arithmetic::div_mod::lemma_small_mod(
                limbs_value(o.l0, o.l1, o.l2, o.l3) as nat,
                modulus() as nat,
            );
            if self.value() == o.value() {
                lemma_limbs_injective(self.l0, self.l1, self.l2, self.l3, o.l0, o.l1, o.l2, o.l3);
            }
        }
        r
    }

    /// Embeds an unsigned integer (every `u64` is below r).
    pub fn from_u64(x: u64) -> (r: Scalar)
        ensures
            r.value() == x,
    {
        let r = Scalar { l0: x, l1: 0, l2: 0, l3: 0 };
        proof {
            assert(limbs_value(x, 0, 0, 0) < modulus()) by (nonlinear_arith)
                requires
                    limbs_value(x, 0, 0, 0) == x as int,
                    x < limb_base(),
            {
            }
            vstd::arithmetic::div_mod::lemma_small_mod(x as nat, modulus() as nat);
        }
        r
    }

    /// The element whose canonical value has limbs `limbs`, if that value is
    /// below r.
    pub fn from_limbs(limbs: [u64; 4]) -> (r: Option<Scalar>)
        ensures
            r is Some <==> limbs_value(limbs[0], limbs[1], limbs[2], limbs[3]) < modulus(),
            r matches Some(s) ==> s.value() == limbs_value(limbs[0], limbs[1], limbs[2], limbs[3]),
    {
        from_bigint(limbs)
    }

    /// The limbs of the canonical value, least significant first.
    pub fn to_limbs(&self) -> (r: [u64; 4])
        ensures
            limbs_value(r[0], r[1], r[2], r[3]) == self.value(),
    {
        proof {
            use_type_invariant(self);
            vstd::arithmetic::div_mod::lemma_small_mod(
                limbs_value(self.l0, self.l1, self.l2, self.l3) as nat,
                modulus() as nat,
            );
        }
        [self.l0, self.l1, self.l2, self.l3]
    }

    /// `self + o` in the field.
    pub fn add(&self, o: &Scalar) -> (r: Scalar)
        ensures
            r.value() == (self.value() + o.value()) % modulus(),
    {
        fr_add(self, o)
    }

    /// `self - o` in the field.
    pub fn sub(&self, o: &Scalar) -> (r: Scalar)
        ensures
            r.value() == (self.value() - o.value()) % modulus(),
    {
        fr_sub(self, o)
    }

    /// `self * o` in the field.
    pub fn mul(&self, o: &Scalar) -> (r: Scalar)
        ensures
            r.value() == (self.value() * o.value()) % modulus(),
    {
        fr_mul(self, o)
    }

    /// `self^e` in the field.
    pub fn pow(&self, e: u64) -> (r: Scalar)
        ensures
            r.value() == pow(self.value(), e as nat) % modulus(),
    {
        fr_pow(self, e)
    }

    /// The multiplicative inverse; `None` exactly for zero.
    pub fn inverse(&self) -> (r: Option<Scalar>)
        ensures
            r is None <==> self.value() == 0,
            r matches Some(i) ==> (i.value() * self.value()) % modulus() == 1,
    {
        fr_inverse(self)
    }
}

/// Relies on `Fr::from_bigint`: `Some` exactly when the value is below r,
/// holding that value.
#[verifier::external_body]
fn from_bigint(limbs: [u64; 4]) -> (r: Option<Scalar>)
    ensures
        r is Some <==> limbs_value(limbs[0], limbs[1], limbs[2], limbs[3]) < modulus(),
        r matches Some(s) ==> s.value() == limbs_value(limbs[0], limbs[1], limbs[2], limbs[3]),
{
    let c = Fr::from_bigint(BigInt::new(limbs))?.into_bigint().0;
    Some(Scalar { l0: c[0], l1: c[1], l2: c[2], l3: c[3] })
}

/// Relies on `Fr + Fr`: addition modulo r.
#[verifier::external_body]
fn fr_add(a: &Scalar, b: &Scalar) -> (r: Scalar)
    ensures
        r.value() == (a.value() + b.value()) % modulus(),
{
    let x = Fr::from_bigint(BigInt::new([a.l0, a.l1, a.l2, a.l3])).unwrap() + Fr::from_bigint(BigInt::new([b.l0, b.l1, b.l2, b.l3])).unwrap();
    let c = x.into_bigint().0;
    Scalar { l0: c[0], l1: c[1], l2: c[2], l3: c[3] }
}

/// Relies on `Fr - Fr`: subtraction modulo r.
#[verifier::external_body]
fn fr_sub(a: &Scalar, b: &Scalar) -> (r: Scalar)
    ensures
        r.value() == (a.value() - b.value()) % modulus(),
{
    let x = Fr::from_bigint(BigInt::new([a.l0, a.l1, a.l2, a.l3])).unwrap() - Fr::from_bigint(BigInt::new([b.l0, b.l1, b.l2, b.l3])).unwrap();
    let c = x.into_bigint().0;
    Scalar { l0: c[0], l1: c[1], l2: c[2], l3: c[3] }
}

/// Relies on `Fr * Fr`: multiplication modulo r.
#[verifier::external_body]
fn fr_mul(a: &Scalar, b: &Scalar) -> (r: Scalar)
    ensures
        r.value() == (a.value() * b.value()) % modulus(),
{
    let x = Fr::from_bigint(BigInt::new([a.l0, a.l1, a.l2, a.l3])).unwrap() * Fr::from_bigint(BigInt::new([b.l0, b.l1, b.l2, b.l3])).unwrap();
    let c = x.into_bigint().0;
    Scalar { l0: c[0], l1: c[1], l2: c[2], l3: c[3] }
}

/// Relies on `Field::pow`: exponentiation modulo r.
#[verifier::external_body]
fn fr_pow(a: &Scalar, e: u64) -> (r: Scalar)
    ensures
        r.value() == pow(a.value(), e as nat) % modulus(),
{
    let x = Fr::from_bigint(BigInt::new([a.l0, a.l1, a.l2, a.l3])).unwrap().pow([e]);
    let c = x.into_bigint().0;
    Scalar { l0: c[0], l1: c[1], l2: c[2], l3: c[3] }
}

/// Relies on `Field::inverse`: `None` for zero, else the inverse modulo r.
#[verifier::external_body]
fn fr_inverse(a: &Scalar) -> (r: Option<Scalar>)
    ensures
        r is None <==> a.value() == 0,
        r matches Some(i) ==> (i.value() * a.value()) % modulus() == 1,
{
    let x = Fr::from_bigint(BigInt::new([a.l0, a.l1, a.l2, a.l3])).unwrap().inverse()?;
    let c = x.into_bigint().0;
    Some(Scalar { l0: c[0], l1: c[1], l2: c[2], l3: c[3] })
}

} // verus!
