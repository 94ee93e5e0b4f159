//! KZG polynomial commitments: a structured reference string of powers of a
//! secret in G1, commitments as multi-scalar products against it, opening
//! proofs as commitments to the quotient by `X - z`, and the pairing check.

use crate::field::{modulus, Scalar};
use crate::group::{
    g1_add, g1_add_of, g1_generator, g1_mul, g1_mul_of, g1_sub, g1_sub_of, g2_generator, g2_mul,
    g2_mul_of, g2_sub, g2_sub_of, pairing_of, pairings_equal, G1Point, G2Point,
    g1_generator_encoding, g2_generator_encoding,
};
use crate::poly::{
    divide_by_linear, eval_at, evaluate, is_linear_quotient, lemma_quotient_len, quotient_coeff,
    trimmed, trimmed_len, values,
};
use vstd::arithmetic::power::{lemma_pow0, lemma_pow1, lemma_pow_adds, pow};
use vstd::arithmetic::div_mod::{lemma_fundamental_div_mod, lemma_mod_multiples_vanish, lemma_mul_mod_noop_left};
use vstd::prelude::*;

verus! {

/// The public parameters: `powers_of_g[i] = s^i · g1` for a secret `s`,
/// the generator `g2` of G2 and `g2_s = s · g2`. The secret itself is not
/// kept.
#[derive(Debug, Clone)]
pub struct KZGParams {
    pub powers_of_g: Vec<G1Point>,
    pub g2: G2Point,
    pub g2_s: G2Point,
}

#[derive(Debug, Clone, Copy, PartialEq, Eq, Structural)]
pub enum KzgError {
    /// The polynomial has a non-zero coefficient beyond what the parameters
    /// cover.
    DegreeTooLarge,
}

/// The encodings of a sequence of G1 points.
pub open spec fn encodings(ps: Seq<G1Point>) -> Seq<Seq<u8>> {
    ps.map_values(|p: G1Point| p@)
}

/// `0 · bases[0] + scalars[0] · bases[0] + ... + scalars[k-1] · bases[k-1]`,
/// summed from the left.
pub open spec fn msm(bases: Seq<Seq<u8>>, scalars: Seq<int>, k: nat) -> Seq<u8>
    decreases k,
{
    if k == 0 {
        g1_mul_of(bases[0], 0)
    } else {
        g1_add_of(
            msm(bases, scalars, (k - 1) as nat),
            g1_mul_of(bases[k - 1], scalars[k - 1]),
        )
    }
}

/// Whether `ps[i]` is `s^i · g` for every `i`.
pub open spec fn powers_of(ps: Seq<G1Point>, g: Seq<u8>, s: int) -> bool {
    forall|i: int| 0 <= i < ps.len() ==> (#[trigger] ps[i])@ == g1_mul_of(g, pow(s, i as nat) % modulus())
}

/// The coefficients of the quotient of `p` by `X - z`.
pub open spec fn quotient(p: Seq<int>, z: int) -> Seq<int> {
    Seq::new(p.len(), |i: int| quotient_coeff(p, z, i))
}

/// The number of coefficients of the quotient of `p` by `X - z`, trailing
/// zeros left out.
pub open spec fn quotient_len(p: Seq<int>) -> nat {
    if trimmed(p) >= 1 {
        (trimmed(p) - 1) as nat
    } else {
        0
    }
}

/// `msm` reads only the first `k` scalars.
pub proof fn lemma_msm_prefix(bases: Seq<Seq<u8>>, a: Seq<int>, b: Seq<int>, k: nat)
    requires
        forall|i: int| 0 <= i < k ==> a[i] == b[i],
    ensures
        msm(bases, a, k) == msm(bases, b, k),
    decreases k,
{
    if k > 0 {
        lemma_msm_prefix(bases, a, b, (k - 1) as nat);
    }
}

/// The quotient by `X - z` with its leading entry taken off is the quotient
/// of the tail.
proof fn lemma_quotient_split(p: Seq<int>, z: int)
    requires
        p.len() >= 2,
    ensures
        quotient(p, z) =~= seq![eval_at(p.skip(1), z)] + quotient(p.skip(1), z),
{
    let t = p.skip(1);
    assert forall|i: int| 0 <= i < t.len() implies quotient(p, z)[i + 1] == quotient(t, z)[i] by {
        if i + 2 < p.len() {
            assert(p.skip(i + 2) =~= t.skip(i + 1));
        }
    }
}

/// The division identity behind an opening: for the quotient `q` of `p` by
/// `X - z`, `p(x) - p(z) == q(x) · (x - z)` in the field, at every `x`. The
/// pairing check of `verify` tests this identity at the secret point.
pub proof fn lemma_quotient_identity(p: Seq<int>, z: int, x: int)
    ensures
        (eval_at(p, x) - eval_at(p, z)) % modulus() == (eval_at(quotient(p, z), x) * (x - z))
            % modulus(),
    decreases p.len(),
{
    let r = modulus();
    if p.len() == 0 {
        assert(quotient(p, z) =~= Seq::<int>::empty());
    } else if p.len() == 1 {
        let q = quotient(p, z);
        assert(q[0] == 0);
        assert(q.skip(1) =~= Seq::<int>::empty());
        assert(eval_at(q.skip(1), x) == 0);
        assert(eval_at(q, x) == 0int % r);
        assert(p.skip(1) =~= Seq::<int>::empty());
        assert(eval_at(p.skip(1), x) == 0);
        assert(eval_at(p.skip(1), z) == 0);
        assert(z * eval_at(p.skip(1), z) == 0);
        assert(x * eval_at(p.skip(1), x) == 0);
        assert(eval_at(p, x) == p[0] % r);
        assert(eval_at(p, z) == p[0] % r);
        assert((0int * (x - z)) == 0);
    } else {
        let t = p.skip(1);
        let c = p[0];
        lemma_quotient_identity(t, z, x);
        lemma_quotient_split(p, z);
        let q = quotient(p, z);
        let q2 = quotient(t, z);
        assert(q.skip(1) =~= q2);
        let etx = eval_at(t, x);
        let etz = eval_at(t, z);
        let g = eval_at(q2, x);
        let px = eval_at(p, x);
        let pz = eval_at(p, z);
        let qx = eval_at(q, x);
        assert(px == (c + x * etx) % r);
        assert(pz == (c + z * etz) % r);
        assert(qx == (etz + x * g) % r);
        lemma_fundamental_div_mod(c + x * etx, r);
        lemma_fundamental_div_mod(c + z * etz, r);
        lemma_fundamental_div_mod(etz + x * g, r);
        lemma_fundamental_div_mod(etx - etz, r);
        lemma_fundamental_div_mod(g * (x - z), r);
        let k1 = (c + x * etx) / r;
        let k2 = (c + z * etz) / r;
        let k3 = (etz + x * g) / r;
        let k4 = (etx - etz) / r - (g * (x - z)) / r;
        assert(etx - etz - g * (x - z) == r * k4) by (nonlinear_arith)
            requires
                etx - etz == r * ((etx - etz) / r) + (etx - etz) % r,
                g * (x - z) == r * ((g * (x - z)) / r) + (g * (x - z)) % r,
                (etx - etz) % r == (g * (x - z)) % r,
                k4 == (etx - etz) / r - (g * (x - z)) / r,
        {
        }
        let m = x * k4 + k3 * (x - z) - k1 + k2;
        assert(qx * (x - z) == etz * (x - z) + x * (g * (x - z)) - r * (k3 * (x - z)))
            by (nonlinear_arith)
            requires
                qx == etz + x * g - r * k3,
        {
        }
        assert(x * etx - z * etz - etz * (x - z) == x * (etx - etz)) by (nonlinear_arith);
        assert(x * (etx - etz) - x * (g * (x - z)) == x * (r * k4)) by (nonlinear_arith)
            requires
                etx - etz - g * (x - z) == r * k4,
        {
        }
        assert(x * (r * k4) == r * (x * k4)) by (nonlinear_arith);
        assert(r * m == r * (x * k4) + r * (k3 * (x - z)) - r * k1 + r * k2) by (nonlinear_arith)
            requires
                m == x * k4 + k3 * (x - z) - k1 + k2,
        {
        }
        assert(px - pz == qx * (x - z) + r * m);
        lemma_mod_multiples_vanish(m, qx * (x - z), r);
    }
}

impl KZGParams {
    /// The parameters cover at least the constant term.
    pub open spec fn well_formed(&self) -> bool {
        self.powers_of_g@.len() >= 1
    }

    /// Whether these are the parameters for secret `s` and degree `degree`:
    /// `degree + 1` powers `s^i · g1` of the generator `g1` of G1, the
    /// generator `g2` of G2, and `g2_s = s · g2`.
    pub open spec fn made_from(&self, s: int, degree: nat) -> bool {
        &&& self.powers_of_g@.len() == degree + 1
        &&& powers_of(self.powers_of_g@, g1_generator_encoding(), s)
        &&& self.g2@ == g2_generator_encoding()
        &&& self.g2_s@ == g2_mul_of(self.g2@, s)
    }

    /// The parameters for polynomials of degree up to `degree`, made from
    /// the secret `s` and the generators of G1 and G2.
    pub fn setup(degree: usize, s: &Scalar) -> (r: KZGParams)
        requires
            degree < usize::MAX,
        ensures
            r.well_formed(),
            r.made_from(s.value(), degree as nat),
            r.powers_of_g@[0]@ == g1_generator_encoding(),
    {
        let g1 = g1_generator();
        let g2 = g2_generator();
        let mut powers_of_g: Vec<G1Point> = Vec::with_capacity(degree + 1);
        let mut power = Scalar::one();
        let mut i: usize = 0;
        proof {
            lemma_pow0(s.value());
            vstd::arithmetic::div_mod::lemma_small_mod(1, modulus() as nat);
        }
        while i <= degree
            invariant
                degree < usize::MAX,
                i <= degree + 1,
                powers_of_g@.len() == i,
                power.value() == pow(s.value(), i as nat) % modulus(),
                i > 0 ==> powers_of_g@[0]@ == g1@,
                forall|j: int|
                    0 <= j < i ==> (#[trigger] powers_of_g@[j])@ == g1_mul_of(
                        g1@,
                        pow(s.value(), j as nat) % modulus(),
                    ),
            decreases degree + 1 - i,
        {
            let p = g1_mul(&g1, &power);
            proof {
                if i == 0 {
                    lemma_pow0(s.value());
                    vstd::arithmetic::div_mod::lemma_small_mod(1, modulus() as nat);
                    assert(power.value() == 1);
                }
            }
            powers_of_g.push(p);
            proof {
                lemma_pow_adds(s.value(), i as nat, 1);
                lemma_pow1(s.value());
                lemma_mul_mod_noop_left(pow(s.value(), i as nat), s.value(), modulus());
            }
            power = power.mul(s);
            i = i + 1;
        }
        let g2_s = g2_mul(&g2, s);
        assert(powers_of(powers_of_g@, g1@, s.value()));
        assert(powers_of_g@[0]@ == g1@);
        KZGParams { powers_of_g, g2, g2_s }
    }

    /// The commitment to the polynomial with coefficients `poly`: the sum of
    /// `poly[i] · powers_of_g[i]`, trailing zeros left out. Fails when a
    /// non-zero coefficient lies beyond the last power.
    pub fn commit(&self, poly: &Vec<Scalar>) -> (r: Result<G1Point, KzgError>)
        requires
            self.well_formed(),
        ensures
            r is Err <==> trimmed(values(poly@)) > self.powers_of_g@.len(),
            r is Err ==> r == Err::<G1Point, KzgError>(KzgError::DegreeTooLarge),
            r matches Ok(c) ==> c@ == msm(
                encodings(self.powers_of_g@),
                values(poly@),
                trimmed(values(poly@)),
            ),
    {
        let t = trimmed_len(poly);
        if t > self.powers_of_g.len() {
            return Err(KzgError::DegreeTooLarge);
        }
        let ghost bases = encodings(self.powers_of_g@);
        let ghost vals = values(poly@);
        let mut result = g1_mul(&self.powers_of_g[0], &Scalar::zero());
        let mut i: usize = 0;
        while i < t
            invariant
                t <= self.powers_of_g@.len(),
                t <= poly@.len(),
                i <= t,
                bases == encodings(self.powers_of_g@),
                vals == values(poly@),
                result@ == msm(bases, vals, i as nat),
            decreases t - i,
        {
            let term = g1_mul(&self.powers_of_g[i], &poly[i]);
            result = g1_add(&result, &term);
            i = i + 1;
        }
        Ok(result)
    }

    /// Opens the polynomial `poly` at `z`: the value `poly(z)` and the proof,
    /// the commitment to the quotient of `poly(X) - poly(z)` by `X - z`.
    /// Fails when that quotient has a non-zero coefficient beyond the last
    /// power.
    pub fn open(&self, poly: &Vec<Scalar>, z: &Scalar) -> (r: Result<(G1Point, Scalar), KzgError>)
        requires
            self.well_formed(),
        ensures
            r is Err <==> quotient_len(values(poly@)) > self.powers_of_g@.len(),
            r is Err ==> r == Err::<(G1Point, Scalar), KzgError>(KzgError::DegreeTooLarge),
            r matches Ok((proof, value)) ==> {
                let p = values(poly@);
                &&& value.value() == eval_at(p, z.value())
                &&& proof@ == msm(
                    encodings(self.powers_of_g@),
                    quotient(p, z.value()),
                    quotient_len(p),
                )
            },
    {
        let value = evaluate(poly, z);
        let mut numerator: Vec<Scalar> = Vec::with_capacity(poly.len());
        let mut i: usize = 0;
        while i < poly.len()
            invariant
                i <= poly@.len(),
                numerator@ == poly@.subrange(0, i as int),
            decreases poly@.len() - i,
        {
            numerator.push(poly[i]);
            i = i + 1;
        }
        if numerator.len() > 0 {
            let c0 = numerator[0].sub(&value);
            numerator.set(0, c0);
        }
        let q = divide_by_linear(&numerator, z);
        let ghost p = values(poly@);
        let ghost np = values(numerator@);
        proof {
            assert forall|k: int| 0 <= k implies quotient_coeff(np, z.value(), k)
                == quotient_coeff(p, z.value(), k) by {
                if k + 1 < p.len() {
                    assert(np.skip(k + 1) =~= p.skip(k + 1));
                }
            }
            assert(is_linear_quotient(values(q@), p, z.value()));
            assert forall|k: int| 0 <= k < p.len() implies 0 <= #[trigger] p[k] < modulus() by {
                poly@[k].lemma_value_range();
            }
            lemma_quotient_len(values(q@), p, z.value());
            let vq = values(q@);
            let qs = quotient(p, z.value());
            assert forall|k: int| 0 <= k < vq.len() implies vq[k] == qs[k] by {
                assert(crate::poly::coeff(vq, k) == quotient_coeff(p, z.value(), k));
            }
            if vq.len() > 0 {
                assert(vq.last() == q@.last().value());
            }
            assert(trimmed(vq) == vq.len());
            lemma_msm_prefix(encodings(self.powers_of_g@), vq, qs, vq.len());
        }
        match self.commit(&q) {
            Err(e) => Err(e),
            Ok(proof) => Ok((proof, value)),
        }
    }

    /// Checks an opening: whether
    /// `e(proof, g2_s - z · g2) == e(commitment - value · powers_of_g[0], g2)`.
    pub fn verify(&self, commitment: &G1Point, proof: &G1Point, z: &Scalar, value: &Scalar) -> (r:
        bool)
        requires
            self.well_formed(),
        ensures
            r == (pairing_of(proof@, g2_sub_of(self.g2_s@, g2_mul_of(self.g2@, z.value())))
                == pairing_of(
                g1_sub_of(commitment@, g1_mul_of(self.powers_of_g@[0]@, value.value())),
                self.g2@,
            )),
    {
        let g1_value = g1_mul(&self.powers_of_g[0], value);
        let commitment_minus_value = g1_sub(commitment, &g1_value);
        let g2_z = g2_mul(&self.g2, z);
        let g2_s_minus_z = g2_sub(&self.g2_s, &g2_z);
        pairings_equal(proof, &g2_s_minus_z, &commitment_minus_value, &self.g2)
    }
}

} // verus!
