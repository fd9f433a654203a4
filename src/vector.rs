//! Embedding components as they cross into the library: each component is the
//! IEEE-754 binary32 bit pattern of a float. The library validates these bit
//! patterns exactly and quantizes them to signed fixed point for scoring.
//!
//! Quantization truncates each component to a multiple of 2^-30 and saturates
//! at magnitude 2. For unit-length embeddings (components within [-1, 1]) the
//! fixed-point inner product, read as a real number, differs from the exact
//! inner product of the float vectors (their cosine similarity) by less than
//! 2 * sqrt(d) * 2^-30 for dimension d (under 4e-8 for d = 384); scores that
//! close may rank either way.
use vstd::arithmetic::power2::{pow2, lemma_pow2_unfold, lemma_pow2_pos};
use vstd::prelude::*;

verus! {

/// Number of fractional bits of the fixed-point representation.
pub const FRACTION_BITS: u64 = 30;

/// Largest magnitude a quantized component can take (saturation bound).
pub const FIXED_LIMIT: i64 = 0x8000_0000;

/// The 8-bit exponent field of a binary32 bit pattern.
pub open spec fn exponent_field(b: u32) -> nat {
    ((b as nat) / 0x80_0000) % 0x100
}

/// The 23-bit fraction field of a binary32 bit pattern.
pub open spec fn fraction_field(b: u32) -> nat {
    (b as nat) % 0x80_0000
}

/// Whether the sign bit is set.
pub open spec fn sign_set(b: u32) -> bool {
    (b as nat) >= 0x8000_0000
}

/// A bit pattern is finite unless its exponent field is all ones (NaN or infinity).
pub open spec fn is_finite_bits(b: u32) -> bool {
    exponent_field(b) != 0xff
}

/// A vector is degenerate when some component is NaN or infinite.
pub open spec fn all_finite(v: Seq<u32>) -> bool {
    forall|i: int| 0 <= i < v.len() ==> is_finite_bits(#[trigger] v[i])
}

/// The significand with its implicit leading bit (absent for subnormals and zero).
pub open spec fn significand(b: u32) -> nat {
    if exponent_field(b) == 0 {
        fraction_field(b)
    } else {
        fraction_field(b) + 0x80_0000
    }
}

/// The power of two that scales the significand into fixed point: the value of a
/// finite pattern is `significand * 2^(e - 150)` with `e = max(exponent, 1)`,
/// so times `2^30` it is `significand * 2^(e - 120)`.
pub open spec fn fixed_shift(b: u32) -> int {
    (if exponent_field(b) == 0 { 1int } else { exponent_field(b) as int }) - 120
}

/// The magnitude of the component times `2^30`, truncated toward zero.
pub open spec fn scaled_magnitude(b: u32) -> nat {
    if fixed_shift(b) >= 0 {
        significand(b) * pow2(fixed_shift(b) as nat)
    } else {
        significand(b) / pow2((-fixed_shift(b)) as nat)
    }
}

/// The fixed-point value of one component: its value times `2^30`, truncated
/// toward zero and saturated at `2^31` in magnitude.
pub open spec fn fixed_of(b: u32) -> int {
    let m = if scaled_magnitude(b) >= FIXED_LIMIT { FIXED_LIMIT as int } else { scaled_magnitude(b) as int };
    if sign_set(b) { -m } else { m }
}

/// The fixed-point vector of a sequence of bit patterns.
pub open spec fn fixed_vec(v: Seq<u32>) -> Seq<i64> {
    Seq::new(v.len(), |i: int| fixed_of(v[i]) as i64)
}

/// Sum of the products of the first `n` components of two fixed-point vectors.
pub open spec fn dot_upto(a: Seq<i64>, b: Seq<i64>, n: nat) -> int
    decreases n,
{
    if n == 0 {
        0
    } else {
        dot_upto(a, b, (n - 1) as nat) + (a[n - 1] as int) * (b[n - 1] as int)
    }
}

/// Inner product of two fixed-point vectors of the same length.
pub open spec fn dot(a: Seq<i64>, b: Seq<i64>) -> int {
    dot_upto(a, b, a.len())
}

/// Whether one component is finite.
pub fn is_finite(b: u32) -> (r: bool)
    ensures
        r == is_finite_bits(b),
{
    (b / 0x80_0000) % 0x100 != 0xff
}

/// Whether every component of a vector is finite.
pub fn check_finite(v: &Vec<u32>) -> (r: bool)
    ensures
        r == all_finite(v@),
{
    let mut i: usize = 0;
    while i < v.len()
        invariant
            i <= v.len(),
            forall|j: int| 0 <= j < i ==> is_finite_bits(#[trigger] v@[j]),
        decreases v.len() - i,
    {
        if !is_finite(v[i]) {
            return false;
        }
        i += 1;
    }
    true
}

proof fn lemma_halve_step(x: nat, k: nat)
    ensures
        x / pow2(k + 1) == (x / pow2(k)) / 2,
{
    lemma_pow2_unfold(k + 1);
    lemma_pow2_pos(k);
    vstd::arithmetic::div_mod::lemma_div_denominator(x as int, pow2(k) as int, 2);
}

/// The fixed-point value of one component.
pub fn fixed_component(b: u32) -> (r: i64)
    ensures
        r == fixed_of(b),
        -FIXED_LIMIT <= r <= FIXED_LIMIT,
{
    let exp: u32 = (b / 0x80_0000) % 0x100;
    let frac: u32 = b % 0x80_0000;
    let sig: u64 = if exp == 0 { frac as u64 } else { frac as u64 + 0x80_0000 };
    let e: u32 = if exp == 0 { 1 } else { exp };
    let mag: u64;
    if e >= 120 {
        let shift: u32 = e - 120;
        if shift >= 8 {
            proof {
                lemma_pow2_pos((shift - 8) as nat);
                vstd::arithmetic::power2::lemma_pow2_adds(8, (shift - 8) as nat);
                vstd::arithmetic::power2::lemma2_to64();
                vstd::arithmetic::mul::lemma_mul_inequality(0x80_0000, sig as int, pow2(shift as nat) as int);
                vstd::arithmetic::mul::lemma_mul_inequality(1, pow2((shift - 8) as nat) as int, 256);
                vstd::arithmetic::mul::lemma_mul_is_commutative(256, pow2((shift - 8) as nat) as int);
                vstd::arithmetic::mul::lemma_mul_inequality(256, pow2(shift as nat) as int, 0x80_0000);
            }
            mag = FIXED_LIMIT as u64;
        } else {
            let mut v: u64 = sig;
            let mut i: u32 = 0;
            proof {
                vstd::arithmetic::power2::lemma2_to64();
            }
            while i < shift
                invariant
                    shift < 8,
                    i <= shift,
                    sig < 0x100_0000,
                    v == sig * pow2(i as nat),
                decreases shift - i,
            {
                proof {
                    vstd::arithmetic::power2::lemma2_to64();
                    lemma_pow2_unfold((i + 1) as nat);
                    if i + 1 < 7 {
                        vstd::arithmetic::power2::lemma_pow2_strictly_increases((i + 1) as nat, 7);
                    }
                    vstd::arithmetic::mul::lemma_mul_inequality(pow2((i + 1) as nat) as int, 128, sig as int);
                    vstd::arithmetic::mul::lemma_mul_is_associative(sig as int, pow2(i as nat) as int, 2);
                    vstd::arithmetic::mul::lemma_mul_is_commutative(pow2((i + 1) as nat) as int, sig as int);
                    vstd::arithmetic::mul::lemma_mul_is_commutative(128, sig as int);
                }
                v = v * 2;
                i = i + 1;
            }
            mag = v;
        }
    } else {
        let shift: u32 = 120 - e;
        if shift >= 24 {
            proof {
                if shift > 24 {
                    vstd::arithmetic::power2::lemma_pow2_strictly_increases(24, shift as nat);
                }
                vstd::arithmetic::power2::lemma2_to64();
                vstd::arithmetic::div_mod::lemma_basic_div(sig as int, pow2(shift as nat) as int);
            }
            mag = 0;
        } else {
            let mut v: u64 = sig;
            let mut i: u32 = 0;
            proof {
                vstd::arithmetic::power2::lemma2_to64();
            }
            while i < shift
                invariant
                    i <= shift,
                    v == (sig as nat) / pow2(i as nat),
                decreases shift - i,
            {
                proof {
                    lemma_halve_step(sig as nat, i as nat);
                }
                v = v / 2;
                i = i + 1;
            }
            mag = v;
        }
    }
    let m: i64 = if mag >= FIXED_LIMIT as u64 { FIXED_LIMIT } else { mag as i64 };
    if b >= 0x8000_0000 { -m } else { m }
}

/// Twice the inner product of two vectors is at most the sum of their squared
/// norms, with equality only when the first `n` components agree.
pub proof fn lemma_dot_bound(x: Seq<i64>, y: Seq<i64>, n: nat)
    requires
        n <= x.len(),
        n <= y.len(),
    ensures
        2 * dot_upto(x, y, n) <= dot_upto(x, x, n) + dot_upto(y, y, n),
        2 * dot_upto(x, y, n) == dot_upto(x, x, n) + dot_upto(y, y, n)
            ==> forall|i: int| 0 <= i < n ==> #[trigger] x[i] == y[i],
    decreases n,
{
    if n > 0 {
        let m = (n - 1) as nat;
        lemma_dot_bound(x, y, m);
        let a = x[m as int] as int;
        let b = y[m as int] as int;
        assert(2 * (a * b) <= a * a + b * b) by (nonlinear_arith);
        assert(2 * (a * b) == a * a + b * b ==> a == b) by (nonlinear_arith);
    }
}

/// Every component lies within the saturation bound.
pub open spec fn within_limit(v: Seq<i64>) -> bool {
    forall|i: int| 0 <= i < v.len() ==> -FIXED_LIMIT <= #[trigger] v[i] <= FIXED_LIMIT
}

/// The fixed-point vector of a vector of bit patterns.
pub fn quantize(v: &Vec<u32>) -> (r: Vec<i64>)
    ensures
        r@ == fixed_vec(v@),
        within_limit(r@),
{
    let mut r: Vec<i64> = Vec::with_capacity(v.len());
    let mut i: usize = 0;
    while i < v.len()
        invariant
            i <= v.len(),
            r@.len() == i,
            forall|j: int| 0 <= j < i ==> r@[j] == fixed_of(#[trigger] v@[j]),
            within_limit(r@),
        decreases v.len() - i,
    {
        let x = fixed_component(v[i]);
        r.push(x);
        i += 1;
    }
    assert(r@ =~= fixed_vec(v@));
    r
}

proof fn lemma_product_bound(x: i64, y: i64)
    requires
        -FIXED_LIMIT <= x <= FIXED_LIMIT,
        -FIXED_LIMIT <= y <= FIXED_LIMIT,
    ensures
        -0x4000_0000_0000_0000 <= (x as int) * (y as int) <= 0x4000_0000_0000_0000,
{
    assert(-0x4000_0000_0000_0000 <= (x as int) * (y as int) <= 0x4000_0000_0000_0000) by (nonlinear_arith)
        requires
            -0x8000_0000 <= x <= 0x8000_0000,
            -0x8000_0000 <= y <= 0x8000_0000,
    ;
}

/// Inner product of two fixed-point vectors of equal length (scale `2^60`).
pub fn inner_product(a: &Vec<i64>, b: &Vec<i64>) -> (r: i128)
    requires
        a@.len() == b@.len(),
        within_limit(a@),
        within_limit(b@),
    ensures
        r == dot(a@, b@),
{
    let mut acc: i128 = 0;
    let mut i: usize = 0;
    while i < a.len()
        invariant
            i <= a@.len(),
            a@.len() == b@.len(),
            within_limit(a@),
            within_limit(b@),
            acc == dot_upto(a@, b@, i as nat),
            -(i as int) * 0x4000_0000_0000_0000 <= acc <= (i as int) * 0x4000_0000_0000_0000,
        decreases a@.len() - i,
    {
        proof {
            lemma_product_bound(a@[i as int], b@[i as int]);
        }
        let p: i128 = (a[i] as i128) * (b[i] as i128);
        acc = acc + p;
        i += 1;
    }
    acc
}

} // verus!
