//! Radix-2 Cooley–Tukey transforms over the scalar field: the forward
//! transform, its inverse, and interpolation from evaluations on a domain.

use crate::field::{modulus, Scalar};
use crate::poly::{same_poly, trim, values};
use vstd::arithmetic::power::{lemma_pow1, lemma_pow_adds, pow};
use vstd::arithmetic::div_mod::{lemma_mod_multiples_vanish, lemma_mul_mod_noop_left, lemma_small_mod};
use vstd::arithmetic::power2::{
    lemma2_to64, lemma_pow2_adds, lemma_pow2_pos, lemma_pow2_strictly_increases, lemma_pow2_unfold, pow2,
};
use vstd::arithmetic::div_mod::lemma_div_denominator;
use vstd::prelude::*;

verus! {

#[derive(Debug, Clone, Copy, PartialEq, Eq, Structural)]
pub enum FftError {
    /// The input lengths differ, or the length is not a power of two.
    DomainSizeMismatch,
    /// A field inverse of zero was asked for.
    InvalidInverse,
}

/// Whether `n` is a power of two.
pub open spec fn is_power_of_two(n: int) -> bool {
    exists|k: nat| pow2(k) == n
}

/// The number whose `bits` low bits are the `bits` low bits of `num` in
/// reverse order: bit `j` of `num` lands on bit `bits - 1 - j`.
pub open spec fn bit_reverse(num: nat, bits: nat) -> nat
    decreases bits,
{
    if bits == 0 {
        0
    } else {
        2 * bit_reverse(num, (bits - 1) as nat) + (num / pow2((bits - 1) as nat)) % 2
    }
}

/// A bit-reversed index stays below `2^bits`.
pub proof fn lemma_bit_reverse_bound(num: nat, bits: nat)
    ensures
        bit_reverse(num, bits) < pow2(bits),
    decreases bits,
{
    if bits == 0 {
        lemma2_to64();
    } else {
        lemma_bit_reverse_bound(num, (bits - 1) as nat);
        lemma_pow2_unfold(bits);
    }
}

/// Bit `j` of `num`.
pub open spec fn bit(num: nat, j: nat) -> nat {
    (num / pow2(j)) % 2
}

/// Bit `j` of the reversal is bit `bits - 1 - j` of the number.
pub proof fn lemma_bit_reverse_bit(num: nat, bits: nat, j: nat)
    requires
        j < bits,
    ensures
        bit(bit_reverse(num, bits), j) == bit(num, (bits - 1 - j) as nat),
    decreases bits,
{
    let r = bit_reverse(num, (bits - 1) as nat);
    let c = bit(num, (bits - 1) as nat);
    lemma_pow2_pos(j);
    if j == 0 {
        lemma2_to64();
        assert((2 * r + c) / 1 == 2 * r + c);
    } else {
        lemma_bit_reverse_bit(num, (bits - 1) as nat, (j - 1) as nat);
        lemma_pow2_unfold(j);
        lemma_pow2_pos((j - 1) as nat);
        lemma_div_denominator((2 * r + c) as int, 2, pow2((j - 1) as nat) as int);
        assert((2 * r + c) / 2 == r);
        assert(pow2(j) == 2 * pow2((j - 1) as nat));
    }
}

/// Two numbers below `2^bits` with the same bits are equal.
pub proof fn lemma_bits_determine(a: nat, b: nat, bits: nat)
    requires
        a < pow2(bits),
        b < pow2(bits),
        forall|j: nat| j < bits ==> bit(a, j) == bit(b, j),
    ensures
        a == b,
    decreases bits,
{
    lemma2_to64();
    if bits > 0 {
        lemma_pow2_unfold(bits);
        assert forall|j: nat| j < (bits - 1) as nat implies #[trigger] bit(a / 2, j) == bit(b / 2, j) by {
            lemma_pow2_pos(j);
            lemma_pow2_unfold(j + 1);
            lemma_div_denominator(a as int, 2, pow2(j) as int);
            lemma_div_denominator(b as int, 2, pow2(j) as int);
            assert(bit(a, j + 1) == bit(b, j + 1));
        }
        lemma_bits_determine(a / 2, b / 2, (bits - 1) as nat);
        assert(bit(a, 0) == bit(b, 0));
    }
}

/// Reversing twice gives the number back.
pub proof fn lemma_bit_reverse_involution(num: nat, bits: nat)
    requires
        num < pow2(bits),
    ensures
        bit_reverse(bit_reverse(num, bits), bits) == num,
{
    let r = bit_reverse(num, bits);
    lemma_bit_reverse_bound(num, bits);
    lemma_bit_reverse_bound(r, bits);
    assert forall|j: nat| j < bits implies bit(bit_reverse(r, bits), j) == bit(num, j) by {
        lemma_bit_reverse_bit(r, bits, j);
        lemma_bit_reverse_bit(num, bits, (bits - 1 - j) as nat);
    }
    lemma_bits_determine(bit_reverse(r, bits), num, bits);
}

/// Reverses the order of the `bits` low bits of `num`.
pub fn reverse_bits(num: usize, bits: usize) -> (r: usize)
    requires
        pow2(bits as nat) <= usize::MAX as nat + 1,
    ensures
        r == bit_reverse(num as nat, bits as nat),
{
    let mut x: usize = num;
    let mut result: usize = 0;
    let mut i: usize = 0;
    proof {
        lemma2_to64();
    }
    while i < bits
        invariant
            i <= bits,
            pow2(bits as nat) <= usize::MAX as nat + 1,
            x == num as nat / pow2(i as nat),
            result == bit_reverse(num as nat, i as nat),
            pow2(64) == 0x1_0000_0000_0000_0000,
        decreases bits - i,
    {
        proof {
            lemma_bit_reverse_bound(num as nat, i as nat);
            lemma_pow2_unfold((i + 1) as nat);
            if i + 1 < bits {
                lemma_pow2_strictly_increases((i + 1) as nat, bits as nat);
            }
            lemma_div_denominator(num as int, pow2(i as nat) as int, 2);
            assert(pow2((i + 1) as nat) <= pow2(bits as nat));
            assert(result * 2 + x % 2 < pow2((i + 1) as nat));
        }
        result = result * 2 + x % 2;
        x = x / 2;
        i = i + 1;
    }
    result
}

/// The exponent `k` with `2^k == n`, if there is one.
fn log2_exact(n: usize) -> (r: Option<usize>)
    ensures
        r is Some <==> is_power_of_two(n as int),
        r matches Some(k) ==> pow2(k as nat) == n && k < 64,
{
    let mut p: u128 = 1;
    let mut k: usize = 0;
    proof {
        lemma2_to64();
    }
    while p < n as u128
        invariant
            p == pow2(k as nat),
            k == 0 || pow2((k - 1) as nat) < n,
            k <= 64,
            p <= 2 * n || k == 0,
            pow2(64) == 0x1_0000_0000_0000_0000,
        decreases 65 - k,
    {
        proof {
            lemma_pow2_pos(k as nat);
            lemma_pow2_unfold((k + 1) as nat);
            if k >= 64 {
                if k > 64 {
                    lemma_pow2_strictly_increases(64, k as nat);
                }
            }
        }
        p = p * 2;
        k = k + 1;
    }
    if p == n as u128 {
        proof {
            if k >= 64 {
                if k > 64 {
                    lemma_pow2_strictly_increases(64, k as nat);
                }
            }
        }
        Some(k)
    } else {
        proof {
            assert forall|j: nat| pow2(j) != n by {
                if j > k {
                    lemma_pow2_strictly_increases(k as nat, j);
                } else if j < k {
                    if j + 1 < k {
                        lemma_pow2_strictly_increases(j, (k - 1) as nat);
                    }
                }
            }
        }
        None
    }
}

/// A multiplicative subgroup of the field: its size, a generator, and the
/// generator's inverse.
#[derive(Debug, Clone, Copy)]
pub struct EvaluationDomain {
    pub size: usize,
    pub omega: Scalar,
    pub omega_inv: Scalar,
}

impl EvaluationDomain {
    /// The domain of `size` elements generated by `omega`; fails when
    /// `omega` is zero and so has no inverse.
    pub fn new(size: usize, omega: Scalar) -> (r: Result<EvaluationDomain, FftError>)
        ensures
            r is Err <==> omega.value() == 0,
            r is Err ==> r == Err::<EvaluationDomain, FftError>(FftError::InvalidInverse),
            r matches Ok(d) ==> {
                &&& d.size == size
                &&& d.omega == omega
                &&& (d.omega_inv.value() * omega.value()) % modulus() == 1
            },
    {
        match omega.inverse() {
            None => Err(FftError::InvalidInverse),
            Some(omega_inv) => Ok(EvaluationDomain { size, omega, omega_inv }),
        }
    }
}

/// Swaps the entries at `i` and `j`.
fn swap_entries(v: &mut Vec<Scalar>, i: usize, j: usize)
    requires
        i < old(v)@.len(),
        j < old(v)@.len(),
    ensures
        final(v)@ == old(v)@.update(i as int, old(v)@[j as int]).update(j as int, old(v)@[i as int]),
{
    let t = v[i];
    let u = v[j];
    v.set(i, u);
    v.set(j, t);
}

/// Puts the entry at position `bit_reverse(p)` on position `p`, for every
/// `p`, swapping each pair of positions once.
pub fn bit_reverse_permute(v: &mut Vec<Scalar>, log_n: usize)
    requires
        old(v)@.len() == pow2(log_n as nat),
    ensures
        final(v)@.len() == old(v)@.len(),
        forall|p: int|
            0 <= p < old(v)@.len() ==> #[trigger] final(v)@[p] == old(v)@[bit_reverse(
                p as nat,
                log_n as nat,
            ) as int],
{
    let n = v.len();
    let ghost bits = log_n as nat;
    let mut i: usize = 0;
    while i < n
        invariant
            v@.len() == n,
            n == pow2(bits),
            bits == log_n,
            i <= n,
            forall|p: int|
                0 <= p < n ==> #[trigger] v@[p] == if p < i || bit_reverse(p as nat, bits) < i {
                    old(v)@[bit_reverse(p as nat, bits) as int]
                } else {
                    old(v)@[p]
                },
        decreases n - i,
    {
        let j = reverse_bits(i, log_n);
        proof {
            lemma_bit_reverse_bound(i as nat, bits);
            lemma_bit_reverse_involution(i as nat, bits);
        }
        if i < j {
            swap_entries(v, i, j);
        }
        proof {
            assert forall|p: int|
                0 <= p < n implies #[trigger] v@[p] == if p < i + 1 || bit_reverse(p as nat, bits) < i + 1 {
                    old(v)@[bit_reverse(p as nat, bits) as int]
                } else {
                    old(v)@[p]
                } by {
                lemma_bit_reverse_involution(p as nat, bits);
                lemma_bit_reverse_bound(p as nat, bits);
            }
        }
        i = i + 1;
    }
}

/// The entries reordered by bit reversal of their positions.
pub open spec fn bit_reversed(a: Seq<int>, bits: nat) -> Seq<int> {
    Seq::new(a.len(), |i: int| a[bit_reverse(i as nat, bits) as int])
}

/// The twiddled partner of the low entry `i` of its butterfly:
/// `w^j · v[i + h]`, where `j` is the offset of `i` in its block of `2h`.
pub open spec fn twiddled(v: Seq<int>, h: int, w: int, i: int) -> int {
    (pow(w, (i % (2 * h)) as nat) * v[i + h]) % modulus()
}

/// Entry `i` after one butterfly stage on blocks of `2h` entries with
/// twiddle `w`: a low entry `x` and its partner `y` (h further on) become
/// `x + w^j · y` and `x - w^j · y`.
pub open spec fn butterfly_entry(v: Seq<int>, h: int, w: int, i: int) -> int {
    if i % (2 * h) < h {
        (v[i] + twiddled(v, h, w, i)) % modulus()
    } else {
        (v[i - h] - twiddled(v, h, w, i - h)) % modulus()
    }
}

/// All entries after one butterfly stage.
pub open spec fn butterfly(v: Seq<int>, h: int, w: int) -> Seq<int> {
    Seq::new(v.len(), |i: int| butterfly_entry(v, h, w, i))
}

/// The first `s` butterfly stages of a transform of size `2^log_n` with
/// root `omega`: stage `t` works on blocks of `2^t` entries with twiddle
/// `omega^(2^(log_n - t))`.
pub open spec fn stages(v: Seq<int>, omega: int, log_n: nat, s: nat) -> Seq<int>
    decreases s,
{
    if s == 0 {
        v
    } else {
        butterfly(
            stages(v, omega, log_n, (s - 1) as nat),
            pow2((s - 1) as nat) as int,
            pow(omega, pow2((log_n - s) as nat)) % modulus(),
        )
    }
}

/// The exponent of a power of two.
pub open spec fn log2_of(n: int) -> nat {
    choose|k: nat| pow2(k) == n
}

/// The transform of `a` with root `omega`: the entries in bit-reversed
/// order, then every butterfly stage.
pub open spec fn transform(a: Seq<int>, omega: int) -> Seq<int> {
    let log_n = log2_of(a.len() as int);
    stages(bit_reversed(a, log_n), omega, log_n, log_n)
}

/// One butterfly stage in place, on blocks of `2 * half_m` entries with
/// twiddle `w_m`.
pub fn butterfly_stage(v: &mut Vec<Scalar>, half_m: usize, w_m: &Scalar)
    requires
        half_m > 0,
        2 * half_m <= old(v)@.len(),
        old(v)@.len() as int % (2 * half_m as int) == 0,
    ensures
        final(v)@.len() == old(v)@.len(),
        values(final(v)@) == butterfly(values(old(v)@), half_m as int, w_m.value()),
{
    let n = v.len();
    let m = 2 * half_m;
    let blocks = n / m;
    let ghost h = half_m as int;
    let ghost o = values(old(v)@);
    let ghost w = w_m.value();
    let ghost r = modulus();
    proof {
        vstd::arithmetic::div_mod::lemma_fundamental_div_mod(n as int, m as int);
        assert(n as int % m as int == 0);
        assert(n as int == m as int * blocks as int);
        assert(blocks * m == m * blocks) by (nonlinear_arith);
    }
    let mut blk: usize = 0;
    while blk < blocks
        invariant
            v@.len() == n,
            n == blocks * m,
            m == 2 * half_m,
            h == half_m,
            half_m > 0,
            blk <= blocks,
            o == values(old(v)@),
            o.len() == n,
            w == w_m.value(),
            r == modulus(),
            forall|p: int| 0 <= p < n ==> #[trigger] v@[p].value() == if p < blk * m {
                butterfly_entry(o, h, w, p)
            } else {
                o[p]
            },
        decreases blocks - blk,
    {
        proof {
            assert(blk * m + m <= n) by (nonlinear_arith)
                requires
                    blk < blocks,
                    n == blocks * m,
                    m > 0,
            {
            }
        }
        let k = blk * m;
        let mut wj = Scalar::one();
        let mut j: usize = 0;
        proof {
            lemma_small_mod(1, r as nat);
            vstd::arithmetic::power::lemma_pow0(w);
        }
        while j < half_m
            invariant
                v@.len() == n,
                k + m <= n,
                k == blk * m,
                m == 2 * half_m,
                h == half_m,
                j <= half_m,
                o == values(old(v)@),
                o.len() == n,
                w == w_m.value(),
                r == modulus(),
                wj.value() == pow(w, j as nat) % r,
                forall|p: int| 0 <= p < n ==> #[trigger] v@[p].value() == if p < k || (k <= p < k + j) || (
                k + h <= p < k + h + j) {
                    butterfly_entry(o, h, w, p)
                } else {
                    o[p]
                },
            decreases half_m - j,
        {
            let a = k + j;
            let b = k + j + half_m;
            let x = v[a];
            let y = v[b];
            let t = wj.mul(&y);
            proof {
                lemma_mul_mod_noop_left(pow(w, j as nat), o[b as int], r);
                lemma_mod_multiples_vanish(blk as int, j as int, m as int);
                lemma_small_mod(j as nat, m as nat);
                lemma_mod_multiples_vanish(blk as int, (j + h) as int, m as int);
                lemma_small_mod((j + h) as nat, m as nat);
                assert((k as int) == m * blk);
                assert(a as int % m as int == j);
                assert(b as int % m as int == j + h);
                assert(t.value() == twiddled(o, h, w, a as int));
            }
            v.set(a, x.add(&t));
            v.set(b, x.sub(&t));
            proof {
                lemma_pow_adds(w, j as nat, 1);
                lemma_pow1(w);
                lemma_mul_mod_noop_left(pow(w, j as nat), w, r);
            }
            wj = wj.mul(w_m);
            j = j + 1;
        }
        proof {
            assert((blk + 1) * m == blk * m + m) by (nonlinear_arith);
        }
        blk = blk + 1;
    }
    proof {
        assert(values(v@) =~= butterfly(o, h, w));
    }
}

/// In-place forward transform: the bit-reversal permutation, then the
/// butterfly stages with twiddle `omega^(n/m)` for blocks of size `m`.
/// Fails, leaving the input alone, when the length is not a power of two.
pub fn fft(poly_coeffs: &mut Vec<Scalar>, omega: &Scalar) -> (r: Result<(), FftError>)
    ensures
        final(poly_coeffs)@.len() == old(poly_coeffs)@.len(),
        r is Err <==> !is_power_of_two(old(poly_coeffs)@.len() as int),
        r is Err ==> {
            &&& r == Err::<(), FftError>(FftError::DomainSizeMismatch)
            &&& *final(poly_coeffs) == *old(poly_coeffs)
        },
        r is Ok ==> values(final(poly_coeffs)@) == transform(values(old(poly_coeffs)@), omega.value()),
{
    let n = poly_coeffs.len();
    let log_n = match log2_exact(n) {
        None => {
            return Err(FftError::DomainSizeMismatch);
        },
        Some(k) => k,
    };
    let ghost a = values(old(poly_coeffs)@);
    let ghost bits = log_n as nat;
    bit_reverse_permute(poly_coeffs, log_n);
    let ghost start = bit_reversed(a, bits);
    proof {
        assert forall|p: int| 0 <= p < n implies values(poly_coeffs@)[p] == start[p] by {
            lemma_bit_reverse_bound(p as nat, bits);
        }
        assert(values(poly_coeffs@) =~= start);
    }
    let mut m: usize = 1;
    let ghost mut s: nat = 0;
    proof {
        lemma2_to64();
    }
    while m < n
        invariant
            poly_coeffs@.len() == n,
            n == pow2(bits),
            bits == log_n,
            m == pow2(s),
            s <= bits,
            values(poly_coeffs@) == stages(start, omega.value(), bits, s),
        decreases n - m,
    {
        let half_m = m;
        proof {
            lemma_pow2_pos(s);
            lemma_pow2_unfold(s + 1);
            assert(s < bits);
            if s + 1 < bits {
                lemma_pow2_strictly_increases(s + 1, bits);
            }
            lemma_pow2_adds(s + 1, (bits - s - 1) as nat);
            assert(s + 1 + (bits - s - 1) as nat == bits);
            assert(n == pow2(s + 1) * pow2((bits - s - 1) as nat));
        }
        m = m * 2;
        proof {
            s = s + 1;
        }
        let blocks = n / m;
        proof {
            assert(blocks == pow2((bits - s) as nat)) by (nonlinear_arith)
                requires
                    n == m * pow2((bits - s) as nat),
                    m > 0,
                    blocks == n / m,
            {
            }
            lemma_mod_multiples_vanish(blocks as int, 0, m as int);
            assert(n as int == m * blocks + 0);
        }
        let w_m = omega.pow(blocks as u64);
        butterfly_stage(poly_coeffs, half_m, &w_m);
    }
    proof {
        if s < bits {
            lemma_pow2_strictly_increases(s, bits);
        }
        let k = log2_of(n as int);
        assert(pow2(bits) == n);
        assert(pow2(k) == n);
        if k < bits {
            lemma_pow2_strictly_increases(k, bits);
        } else if k > bits {
            lemma_pow2_strictly_increases(bits, k);
        }
        assert(a.len() == n);
    }
    Ok(())
}

/// Every entry multiplied by `c` in the field.
pub open spec fn scaled(t: Seq<int>, c: int) -> Seq<int> {
    Seq::new(t.len(), |i: int| (t[i] * c) % modulus())
}

/// Whether `c` is the inverse of `n` in the field.
pub open spec fn is_inverse_of(c: int, n: int) -> bool {
    (c * n) % modulus() == 1
}

/// Multiplies every entry by `c`.
fn scale_all(v: &mut Vec<Scalar>, c: &Scalar)
    ensures
        final(v)@.len() == old(v)@.len(),
        forall|i: int|
            0 <= i < old(v)@.len() ==> (#[trigger] final(v)@[i]).value() == (old(v)@[i].value()
                * c.value()) % modulus(),
{
    let mut i: usize = 0;
    while i < v.len()
        invariant
            v@.len() == old(v)@.len(),
            i <= v@.len(),
            forall|j: int|
                0 <= j < i ==> (#[trigger] v@[j]).value() == (old(v)@[j].value() * c.value())
                    % modulus(),
            forall|j: int| i <= j < v@.len() ==> #[trigger] v@[j] == old(v)@[j],
        decreases v@.len() - i,
    {
        let x = v[i].mul(c);
        v.set(i, x);
        i = i + 1;
    }
}

/// In-place inverse transform: the forward transform with the inverse root,
/// then every entry multiplied by `n^(-1)`. Fails, leaving the input alone,
/// when the length is not a power of two.
pub fn ifft(evals: &mut Vec<Scalar>, omega_inv: &Scalar) -> (r: Result<(), FftError>)
    ensures
        final(evals)@.len() == old(evals)@.len(),
        r is Err <==> !is_power_of_two(old(evals)@.len() as int),
        r is Err ==> {
            &&& r == Err::<(), FftError>(FftError::DomainSizeMismatch)
            &&& *final(evals) == *old(evals)
        },
        r is Ok ==> exists|c: int|
            #[trigger] is_inverse_of(c, old(evals)@.len() as int) && values(final(evals)@) == scaled(
                transform(values(old(evals)@), omega_inv.value()),
                c,
            ),
{
    let n = evals.len();
    match fft(evals, omega_inv) {
        Err(e) => {
            return Err(e);
        },
        Ok(()) => {},
    }
    proof {
        let k = choose|k: nat| pow2(k) == n;
        lemma_pow2_pos(k);
    }
    let n_inv = match Scalar::from_u64(n as u64).inverse() {
        None => {
            return Err(FftError::InvalidInverse);
        },
        Some(x) => x,
    };
    let ghost t = values(evals@);
    scale_all(evals, &n_inv);
    proof {
        assert(values(evals@) =~= scaled(t, n_inv.value()));
        assert(is_inverse_of(n_inv.value(), n as int));
    }
    Ok(())
}

/// The inverse of the domain's generator `domain[1]`, taken as
/// `domain[1]^(n-1)`; one for a domain of one point.
pub open spec fn domain_inverse_root(domain: Seq<Scalar>) -> int {
    if domain.len() >= 2 {
        pow(domain[1].value(), (domain.len() - 1) as nat) % modulus()
    } else {
        1
    }
}

/// The coefficients, without trailing zeros, of the polynomial that takes
/// the values `evals` on the domain `domain`, where `domain[1]` generates
/// the domain. Fails when the lengths differ or are not a power of two.
pub fn interpolate(evals: &Vec<Scalar>, domain: &Vec<Scalar>) -> (r: Result<Vec<Scalar>, FftError>)
    ensures
        r is Err <==> (evals@.len() != domain@.len() || !is_power_of_two(evals@.len() as int)),
        r is Err ==> r == Err::<Vec<Scalar>, FftError>(FftError::DomainSizeMismatch),
        r matches Ok(c) ==> {
            &&& c@.len() <= evals@.len()
            &&& c@.len() > 0 ==> c@.last().value() != 0
            &&& exists|k: int|
                #[trigger] is_inverse_of(k, evals@.len() as int) && same_poly(
                    values(c@),
                    scaled(transform(values(evals@), domain_inverse_root(domain@)), k),
                )
        },
{
    if evals.len() != domain.len() {
        return Err(FftError::DomainSizeMismatch);
    }
    let n = evals.len();
    let omega_inv = if n >= 2 {
        domain[1].pow((n - 1) as u64)
    } else {
        Scalar::one()
    };
    let mut coeffs: Vec<Scalar> = Vec::with_capacity(n);
    let mut i: usize = 0;
    while i < n
        invariant
            n == evals@.len(),
            i <= n,
            coeffs@ == evals@.subrange(0, i as int),
        decreases n - i,
    {
        coeffs.push(evals[i]);
        i = i + 1;
    }
    assert(coeffs@ =~= evals@);
    match ifft(&mut coeffs, &omega_inv) {
        Err(e) => {
            return Err(e);
        },
        Ok(()) => {},
    }
    let c = trim(&coeffs);
    proof {
        let k = choose|k: int|
            #[trigger] is_inverse_of(k, n as int) && values(coeffs@) == scaled(
                transform(values(evals@), omega_inv.value()),
                k,
            );
        assert(omega_inv.value() == domain_inverse_root(domain@));
        assert(is_inverse_of(k, evals@.len() as int));
    }
    Ok(c)
}

} // verus!
