//! Binary64 numbers that rounding leaves alone, and what rounding does not see.

use crate::number::binary64::Binary64;
use crate::number::datum::Datum;
use vstd::arithmetic::div_mod::*;
use vstd::arithmetic::power2::*;
use vstd::prelude::*;

verus! {

/// Every positive quotient has a distance between neighbours.
pub proof fn lemma_quantum_exists(n: nat, d: nat)
    requires
        d > 0,
    ensures
        crate::number::datum::is_quantum(n, d, crate::number::datum::quantum(n, d)),
{
    let k = search_quantum(n, d, 0);
    crate::number::rounding::lemma_quantum_unique(n, d, k);
}

proof fn search_quantum(n: nat, d: nat, low: nat) -> (k: nat)
    requires
        d > 0,
        low == 0 || d * pow2((low + 52) as nat) <= n,
    ensures
        crate::number::datum::is_quantum(n, d, k),
    decreases
            (if n < d * pow2(low + 53) {
                0int
            } else {
                n - d * pow2(low + 53) + 1
            }),
{
    if n < d * pow2(low + 53) {
        low
    } else {
        crate::number::powers::lemma_power_order(low + 53, low + 54);
        assert(d * pow2(low + 53) < d * pow2(low + 54)) by (nonlinear_arith)
            requires
                d > 0,
                pow2(low + 53) < pow2(low + 54),
        ;
        search_quantum(n, d, low + 1)
    }
}

/// Rounding does not see a common factor of dividend and divisor.
pub proof fn lemma_nearest_scale(negative: bool, n: nat, d: nat, c: nat)
    requires
        d > 0,
        c > 0,
    ensures
        Datum::nearest(negative, n * c, d * c) == Datum::nearest(negative, n, d),
{
    let k = crate::number::datum::quantum(n, d);
    lemma_quantum_exists(n, d);
    assert(d * c > 0) by (nonlinear_arith)
        requires
            d > 0,
            c > 0,
    ;
    assert(n * c < (d * c) * pow2(k + 53)) by (nonlinear_arith)
        requires
            n < d * pow2(k + 53),
            c > 0,
    ;
    if k > 0 {
        assert((d * c) * pow2((k + 52) as nat) <= n * c) by (nonlinear_arith)
            requires
                d * pow2((k + 52) as nat) <= n,
                c > 0,
        ;
    }
    assert(crate::number::datum::is_quantum(n * c, d * c, k));
    crate::number::rounding::lemma_quantum_unique(n * c, d * c, k);
    lemma_pow2_pos(k);
    assert(d * pow2(k) > 0) by (nonlinear_arith)
        requires
            d > 0,
            pow2(k) > 0,
    ;
    crate::number::rounding::lemma_half_even_scale(n, d * pow2(k), c);
    assert((d * pow2(k)) * c == (d * c) * pow2(k)) by (nonlinear_arith);
}

/// A number with a significand of at most 53 digits is exact.
pub proof fn lemma_exact(negative: bool, m: nat, e: nat)
    requires
        m <= pow2(53),
        e <= 2044,
    ensures
        Datum::nearest(negative, m * pow2(e), 1) == (Datum::Finite {
            negative,
            units: m * pow2(e),
        }),
{
    let n = m * pow2(e);
    let k = crate::number::datum::quantum(n, 1);
    lemma_quantum_exists(n, 1);
    crate::number::powers::lemma_power_sum(53, e);
    assert(n <= pow2(53) * pow2(e)) by (nonlinear_arith)
        requires
            m <= pow2(53),
            n == m * pow2(e),
    ;
    crate::number::powers::lemma_power_order(53 + e, 2097);
    crate::number::powers::lemma_power_order(2097, 2098);
    if k <= e {
        assert(1nat * m * pow2(e) == n) by (nonlinear_arith)
            requires
                n == m * pow2(e),
        ;
        crate::number::rounding::lemma_exact_half_even(n, 1, m, e, k);
        crate::number::powers::lemma_power_sum((e - k) as nat, k);
        assert((m * pow2((e - k) as nat)) * pow2(k) == n) by (nonlinear_arith)
            requires
                pow2((e - k) as nat) * pow2(k) == pow2(e),
                n == m * pow2(e),
        ;
    } else {
        // Only the power of two just above the significands reaches a larger distance.
        crate::number::powers::lemma_power_order(53 + e, (k + 52) as nat);
        if k > e + 1 {
            crate::number::powers::lemma_power_order(53 + e, (k + 51) as nat);
            crate::number::powers::lemma_power_order((k + 51) as nat, (k + 52) as nat);
            assert(false);
        }
        assert(n == pow2((k + 52) as nat));
        crate::number::powers::lemma_power_sum(52, k);
        assert(1nat * 1nat * pow2((k + 52) as nat) == n) by (nonlinear_arith)
            requires
                n == pow2((k + 52) as nat),
        ;
        crate::number::rounding::lemma_exact_half_even(n, 1, 1, (k + 52) as nat, k);
        assert((1nat * pow2(52)) * pow2(k) == n) by (nonlinear_arith)
            requires
                pow2(52) * pow2(k) == n,
        ;
    }
}

/// Integers of at most 53 digits are exact.
pub proof fn lemma_exact_integer(n: nat)
    requires
        n <= pow2(53),
    ensures
        Datum::of_nat(n) == (Datum::Finite { negative: false, units: n * pow2(1074) }),
{
    lemma_exact(false, n, 1074);
}

impl Binary64 {
    /// The number nearest to the fraction `n / d`.
    pub fn from_ratio(n: u32, d: u32) -> (r: Binary64)
        requires
            d > 0,
        ensures
            r@ == Datum::of_ratio(n as nat, d as nat),
    {
        proof {
            crate::number::powers::lemma_small_powers();
            lemma_exact_integer(n as nat);
            lemma_exact_integer(d as nat);
            lemma_pow2_pos(1074);
            assert(d * pow2(1074) > 0) by (nonlinear_arith)
                requires
                    d > 0,
                    pow2(1074) > 0,
            ;
            lemma_nearest_scale(false, n as nat * pow2(1074), d as nat, pow2(1074));
        }
        Binary64::from_u64(n as u64).over(Binary64::from_u64(d as u64))
    }
}

} // verus!
