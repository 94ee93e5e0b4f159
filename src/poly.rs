//! Dense univariate polynomials over the scalar field, as coefficient
//! vectors (entry `i` is the coefficient of `X^i`; trailing zeros allowed).
//! Evaluation and division are done by `ark-poly`.

use crate::field::{modulus, Scalar};
use ark_bls12_381::Fr;
use ark_ff::{BigInt, PrimeField};
use ark_poly::univariate::DensePolynomial;
use ark_poly::{DenseUVPolynomial, Polynomial};
use vstd::prelude::*;

verus! {

/// The coefficients as integers.
pub open spec fn values(p: Seq<Scalar>) -> Seq<int> {
    p.map_values(|c: Scalar| c.value())
}

/// `p(z) mod r`, by Horner's rule: `p0 + z * (p1 + z * (...))`.
pub open spec fn eval_at(p: Seq<int>, z: int) -> int
    decreases p.len(),
{
    if p.len() == 0 {
        0
    } else {
        (p[0] + z * eval_at(p.skip(1), z)) % modulus()
    }
}

/// Coefficient `i`, zero past the end.
pub open spec fn coeff(p: Seq<int>, i: int) -> int {
    if 0 <= i < p.len() {
        p[i]
    } else {
        0
    }
}

/// Whether two coefficient sequences are the same polynomial (they differ
/// at most by trailing zeros).
pub open spec fn same_poly(a: Seq<int>, b: Seq<int>) -> bool {
    forall|i: int| 0 <= i ==> #[trigger] coeff(a, i) == #[trigger] coeff(b, i)
}

/// Coefficient `i` of the quotient of `p` by `X - z`: the tail
/// `p[i+1..]` evaluated at `z`.
pub open spec fn quotient_coeff(p: Seq<int>, z: int, i: int) -> int {
    if 0 <= i && i + 1 < p.len() {
        eval_at(p.skip(i + 1), z)
    } else {
        0
    }
}

/// Whether `q` is the quotient of `p` by `X - z`.
pub open spec fn is_linear_quotient(q: Seq<int>, p: Seq<int>, z: int) -> bool {
    forall|i: int| 0 <= i ==> #[trigger] coeff(q, i) == quotient_coeff(p, z, i)
}

/// The length of `p` without its trailing zeros: one past the highest
/// non-zero coefficient, or 0 for the zero polynomial.
pub open spec fn trimmed(p: Seq<int>) -> nat
    decreases p.len(),
{
    if p.len() == 0 {
        0
    } else if p.last() == 0 {
        trimmed(p.drop_last())
    } else {
        p.len()
    }
}

/// `trimmed(p)` is one past the highest non-zero entry.
pub proof fn lemma_trimmed(p: Seq<int>)
    ensures
        trimmed(p) <= p.len(),
        forall|i: int| trimmed(p) <= i < p.len() ==> p[i] == 0,
        trimmed(p) > 0 ==> p[trimmed(p) - 1] != 0,
    decreases p.len(),
{
    if p.len() > 0 && p.last() == 0 {
        let q = p.drop_last();
        lemma_trimmed(q);
        assert forall|i: int| trimmed(p) <= i < p.len() implies p[i] == 0 by {
            if i < q.len() {
                assert(q[i] == p[i]);
            }
        }
    }
}

/// A polynomial whose coefficients are all zero evaluates to zero.
pub proof fn lemma_eval_zeros(p: Seq<int>, z: int)
    requires
        forall|i: int| 0 <= i < p.len() ==> p[i] == 0,
    ensures
        eval_at(p, z) == 0,
    decreases p.len(),
{
    if p.len() > 0 {
        let t = p.skip(1);
        assert forall|i: int| 0 <= i < t.len() implies t[i] == 0 by {
            assert(t[i] == p[i + 1]);
        }
        lemma_eval_zeros(t, z);
        assert(p[0] + z * eval_at(t, z) == 0);
        vstd::arithmetic::div_mod::lemma_small_mod(0, modulus() as nat);
    }
}

/// A quotient by `X - z` without trailing zeros has one coefficient fewer
/// than the dividend without its trailing zeros (none for a constant).
pub proof fn lemma_quotient_len(q: Seq<int>, p: Seq<int>, z: int)
    requires
        is_linear_quotient(q, p, z),
        q.len() > 0 ==> q.last() != 0,
        forall|i: int| 0 <= i < p.len() ==> 0 <= #[trigger] p[i] < modulus(),
    ensures
        q.len() == if trimmed(p) >= 1 { trimmed(p) - 1 } else { 0 },
{
    lemma_trimmed(p);
    let d = trimmed(p) as int;
    assert forall|i: int| 0 <= i && i >= d - 1 implies quotient_coeff(p, z, i) == 0 by {
        if i + 1 < p.len() {
            lemma_eval_zeros(p.skip(i + 1), z);
        }
    }
    if d >= 2 {
        let t = p.skip(d - 1);
        assert(t.skip(1) =~= p.skip(d));
        lemma_eval_zeros(p.skip(d), z);
        assert(eval_at(t, z) == p[d - 1] % modulus());
        vstd::arithmetic::div_mod::lemma_small_mod(p[d - 1] as nat, modulus() as nat);
        assert(quotient_coeff(p, z, d - 2) != 0);
        assert(coeff(q, d - 2) != 0);
    }
    if q.len() > 0 {
        assert(coeff(q, q.len() - 1) != 0);
    }
}

/// The length of `p` without its trailing zeros.
pub fn trimmed_len(p: &Vec<Scalar>) -> (r: usize)
    ensures
        r == trimmed(values(p@)),
        r <= p@.len(),
        forall|i: int| r <= i < p@.len() ==> (#[trigger] p@[i]).value() == 0,
        r > 0 ==> p@[r - 1].value() != 0,
{
    let mut r = p.len();
    assert(values(p@).take(r as int) =~= values(p@));
    while r > 0 && p[r - 1].is_zero()
        invariant
            r <= p@.len(),
            forall|i: int| r <= i < p@.len() ==> (#[trigger] p@[i]).value() == 0,
            trimmed(values(p@)) == trimmed(values(p@).take(r as int)),
        decreases r,
    {
        assert(values(p@).take(r as int).drop_last() =~= values(p@).take(r - 1));
        r = r - 1;
    }
    r
}

/// `p` without its trailing zeros.
pub fn trim(p: &Vec<Scalar>) -> (r: Vec<Scalar>)
    ensures
        r@.len() <= p@.len(),
        r@ == p@.subrange(0, r@.len() as int),
        forall|i: int| r@.len() <= i < p@.len() ==> (#[trigger] p@[i]).value() == 0,
        r@.len() > 0 ==> r@.last().value() != 0,
        same_poly(values(r@), values(p@)),
{
    let n = trimmed_len(p);
    let mut r: Vec<Scalar> = Vec::with_capacity(n);
    let mut i: usize = 0;
    while i < n
        invariant
            n <= p@.len(),
            i <= n,
            r@ == p@.subrange(0, i as int),
        decreases n - i,
    {
        r.push(p[i]);
        i = i + 1;
    }
    proof {
        assert forall|k: int| 0 <= k implies #[trigger] coeff(values(r@), k) == #[trigger] coeff(
            values(p@),
            k,
        ) by {
            if k < r@.len() {
                assert(r@[k] == p@[k]);
            }
        }
    }
    r
}

/// Relies on `Polynomial::evaluate` of `ark-poly`: the value of the
/// polynomial at `z`.
#[verifier::external_body]
pub(crate) fn evaluate(p: &Vec<Scalar>, z: &Scalar) -> (r: Scalar)
    ensures
        r.value() == eval_at(values(p@), z.value()),
{
    let to_fr = |c: &Scalar| Fr::from_bigint(BigInt::new([c.l0, c.l1, c.l2, c.l3])).unwrap();
    let poly = DensePolynomial::from_coefficients_vec(p.iter().map(to_fr).collect());
    let c = poly.evaluate(&to_fr(z)).into_bigint().0;
    Scalar { l0: c[0], l1: c[1], l2: c[2], l3: c[3] }
}

/// Relies on `&DensePolynomial / &DensePolynomial` of `ark-poly`, with the
/// divisor `X - z`: the quotient, without trailing zeros, of length at most
/// the degree of `p`.
#[verifier::external_body]
pub(crate) fn divide_by_linear(p: &Vec<Scalar>, z: &Scalar) -> (r: Vec<Scalar>)
    ensures
        is_linear_quotient(values(r@), values(p@), z.value()),
        r@.len() == 0 || r@.len() < p@.len(),
        r@.len() > 0 ==> r@.last().value() != 0,
{
    let to_fr = |c: &Scalar| Fr::from_bigint(BigInt::new([c.l0, c.l1, c.l2, c.l3])).unwrap();
    let poly = DensePolynomial::from_coefficients_vec(p.iter().map(to_fr).collect());
    let neg_z = -to_fr(z);
    let q = &poly / &DensePolynomial::from_coefficients_vec(vec![neg_z, Fr::from(1u64)]);
    let limbs = q.coeffs.iter().map(|c| c.into_bigint().0);
    limbs.map(|c| Scalar { l0: c[0], l1: c[1], l2: c[2], l3: c[3] }).collect()
}

} // verus!
