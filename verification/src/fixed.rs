//! Exact integer square roots and fixed-point fractional powers.
//!
//! These are the arithmetic primitives behind the multiplicative blending
//! scheme: a weighted geometric mean is approximated deterministically by
//! binary-fraction exponentiation, where each step takes one exact integer
//! square root and one floored fixed-point multiplication.

use vstd::prelude::*;
use crate::score::SCALE;

verus! {

/// Number of binary digits used for fractional exponents.
pub const FRAC_BITS: u64 = 20;

/// `r` is the integer square root of `n`.
pub open spec fn is_isqrt(n: int, r: int) -> bool {
    0 <= r && r * r <= n && n < (r + 1) * (r + 1)
}

pub proof fn lemma_isqrt_exists(n: int)
    requires
        n >= 0,
    ensures
        exists|r: int| is_isqrt(n, r),
    decreases n,
{
    if n == 0 {
        assert(is_isqrt(0, 0));
    } else {
        lemma_isqrt_exists(n - 1);
        let r = choose|r: int| #[trigger] is_isqrt(n - 1, r);
        if (r + 1) * (r + 1) <= n {
            assert(n - 1 < (r + 1) * (r + 1));
            assert(n < (r + 2) * (r + 2)) by (nonlinear_arith)
                requires n <= (r + 1) * (r + 1) && r >= 0;
            assert(is_isqrt(n, r + 1));
        } else {
            assert(is_isqrt(n, r));
        }
    }
}

/// The integer square root of `n`, as a spec-level value.
pub open spec fn spec_isqrt(n: int) -> int {
    choose|r: int| #[trigger] is_isqrt(n, r)
}

pub proof fn lemma_isqrt(n: int)
    requires
        n >= 0,
    ensures
        is_isqrt(n, spec_isqrt(n)),
{
    lemma_isqrt_exists(n);
}

pub proof fn lemma_isqrt_unique(n: int, a: int, b: int)
    requires
        is_isqrt(n, a),
        is_isqrt(n, b),
    ensures
        a == b,
{
    assert(a == b) by (nonlinear_arith)
        requires
            0 <= a && a * a <= n && n < (a + 1) * (a + 1),
            0 <= b && b * b <= n && n < (b + 1) * (b + 1);
}

/// Exact integer square root by binary search.
pub fn isqrt(n: u128) -> (r: u128)
    ensures
        is_isqrt(n as int, r as int),
        r as int == spec_isqrt(n as int),
{
    let mut lo: u128 = 0;
    let mut hi: u128 = 18446744073709551616;  // 2^64: hi * hi exceeds any u128
    assert((hi as int) * (hi as int) > n as int) by (nonlinear_arith)
        requires hi == 18446744073709551616u128 && n <= u128::MAX;
    while lo + 1 < hi
        invariant
            lo < hi,
            hi <= 18446744073709551616,
            (lo as int) * (lo as int) <= n as int,
            (hi as int) * (hi as int) > n as int,
        decreases hi - lo,
    {
        let mid: u128 = lo + (hi - lo) / 2;
        assert(lo < mid < hi);
        assert((mid as int) * (mid as int) <= (18446744073709551615int) * (18446744073709551615int))
            by (nonlinear_arith)
            requires 0 <= mid as int <= 18446744073709551615int;
        if mid * mid <= n {
            lo = mid;
        } else {
            hi = mid;
        }
    }
    proof {
        lemma_isqrt(n as int);
        lemma_isqrt_unique(n as int, lo as int, spec_isqrt(n as int));
    }
    lo
}

/// One step of binary-fraction exponentiation: `base` is repeatedly
/// replaced by its fixed-point square root while the remaining fraction is
/// doubled; whenever a binary digit of the fraction is set, the
/// accumulator picks up the current base.
pub open spec fn spec_pow_step(base: int, rem: int, acc: int, k: nat) -> int
    decreases k,
{
    if k == 0 {
        acc
    } else {
        let next = spec_isqrt(base * SCALE);
        let doubled = rem * 2;
        if doubled >= SCALE {
            spec_pow_step(next, doubled - SCALE, acc * next / (SCALE as int), (k - 1) as nat)
        } else {
            spec_pow_step(next, doubled, acc, (k - 1) as nat)
        }
    }
}

/// `x` raised to the fractional power `f / SCALE`, in fixed point, by
/// `FRAC_BITS` rounds of binary-fraction exponentiation with floored
/// rounding at every step.
pub open spec fn spec_pow_frac(x: int, f: int) -> int {
    spec_pow_step(x, f, SCALE as int, FRAC_BITS as nat)
}

/// Fixed-point fractional power with floored rounding, the deterministic
/// realization of `(x / SCALE) ^ (f / SCALE)`.
pub fn pow_frac(x: u64, f: u64) -> (r: u64)
    requires
        x <= SCALE,
        f <= SCALE,
    ensures
        r as int == spec_pow_frac(x as int, f as int),
        r <= SCALE,
{
    let mut base: u64 = x;
    let mut rem: u64 = f;
    let mut acc: u64 = SCALE;
    let mut k: u64 = 0;
    while k < FRAC_BITS
        invariant
            k <= FRAC_BITS,
            base <= SCALE,
            rem <= SCALE,
            acc <= SCALE,
            spec_pow_step(x as int, f as int, SCALE as int, FRAC_BITS as nat) == spec_pow_step(
                base as int,
                rem as int,
                acc as int,
                (FRAC_BITS - k) as nat,
            ),
        decreases FRAC_BITS - k,
    {
        let wide: u128 = (base as u128) * (SCALE as u128);
        let root = isqrt(wide);
        proof {
            assert(is_isqrt(wide as int, root as int));
            assert(root as int <= SCALE as int) by (nonlinear_arith)
                requires
                    (root as int) * (root as int) <= wide as int,
                    wide as int <= (SCALE as int) * (SCALE as int),
                    root as int >= 0;
        }
        let next: u64 = root as u64;
        let doubled: u64 = rem * 2;
        if doubled >= SCALE {
            proof {
                assert((acc as int) * (next as int) <= (SCALE as int) * (SCALE as int))
                    by (nonlinear_arith)
                    requires
                        0 <= acc as int <= SCALE as int,
                        0 <= next as int <= SCALE as int;
                assert((acc as int) * (next as int) / (SCALE as int) <= acc as int)
                    by (nonlinear_arith)
                    requires
                        0 <= acc as int,
                        0 <= next as int <= SCALE as int,
                        SCALE as int > 0;
            }
            let stepped: u128 = (acc as u128) * (next as u128);
            acc = (stepped / (SCALE as u128)) as u64;
            rem = doubled - SCALE;
        } else {
            rem = doubled;
        }
        base = next;
        k = k + 1;
    }
    acc
}

} // verus!
