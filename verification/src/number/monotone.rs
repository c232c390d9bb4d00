//! Rounding keeps the order of numbers, and nothing is nearer than what it gives.

use crate::number::datum::Datum;
use vstd::arithmetic::div_mod::*;
use vstd::arithmetic::power2::*;
use vstd::prelude::*;

verus! {

/// The magnitude of `nearest` before it is cut off at infinity.
pub open spec fn nearest_units(n: nat, d: nat) -> nat {
    let k = crate::number::datum::quantum(n, d);
    crate::number::datum::half_even(n, d * pow2(k)) * pow2(k)
}

/// Rounding to an integer errs by a half at most.
pub proof fn lemma_half_even_error(n: nat, d: nat)
    requires
        d > 0,
    ensures
        2 * n - d <= 2 * (crate::number::datum::half_even(n, d) * d) <= 2 * n + d,
{
    let q = n / d;
    let r = n % d;
    lemma_fundamental_div_mod(n as int, d as int);
    lemma_mod_bound(n as int, d as int);
    assert(d * q == q * d) by (nonlinear_arith);
    assert((q + 1) * d == q * d + d) by (nonlinear_arith);
}

/// No integer is nearer than what rounding gives.
pub proof fn lemma_half_even_nearest(n: nat, d: nat, other: nat)
    requires
        d > 0,
    ensures
        ({
            let m = crate::number::datum::half_even(n, d);
            distance(m * d, n) <= distance(other * d, n)
        }),
{
    let q = n / d;
    let r = n % d;
    lemma_fundamental_div_mod(n as int, d as int);
    lemma_mod_bound(n as int, d as int);
    assert(d * q == q * d) by (nonlinear_arith);
    assert((q + 1) * d == q * d + d) by (nonlinear_arith);
    if other <= q {
        assert(other * d <= q * d) by (nonlinear_arith)
            requires
                other <= q,
        ;
    } else {
        assert(other * d >= (q + 1) * d) by (nonlinear_arith)
            requires
                other >= q + 1,
        ;
    }
}

/// How far two numbers are apart.
pub open spec fn distance(a: nat, b: nat) -> int {
    if a <= b {
        b - a
    } else {
        a - b
    }
}

/// Rounding to an integer keeps order.
pub proof fn lemma_half_even_monotone(n: nat, d: nat, n2: nat, d2: nat)
    requires
        d > 0,
        d2 > 0,
        n * d2 <= n2 * d,
    ensures
        crate::number::datum::half_even(n, d) <= crate::number::datum::half_even(n2, d2),
{
    let c = d * d2;
    crate::number::rounding::lemma_half_even_scale(n, d, d2);
    crate::number::rounding::lemma_half_even_scale(n2, d2, d);
    assert(d2 * d == c) by (nonlinear_arith)
        requires
            c == d * d2,
    ;
    let x = n * d2;
    let y = n2 * d;
    let q = x / c;
    let q2 = y / c;
    lemma_fundamental_div_mod(x as int, c as int);
    lemma_fundamental_div_mod(y as int, c as int);
    lemma_mod_bound(x as int, c as int);
    lemma_mod_bound(y as int, c as int);
    lemma_div_is_ordered(x as int, y as int, c as int);
    if q == q2 {
        assert(x % c <= y % c);
    }
}

/// Rounding keeps order.
pub proof fn lemma_nearest_units_monotone(n: nat, d: nat, n2: nat, d2: nat)
    requires
        d > 0,
        d2 > 0,
        n * d2 <= n2 * d,
    ensures
        nearest_units(n, d) <= nearest_units(n2, d2),
{
    let k = crate::number::datum::quantum(n, d);
    let k2 = crate::number::datum::quantum(n2, d2);
    crate::number::exactness::lemma_quantum_exists(n, d);
    crate::number::exactness::lemma_quantum_exists(n2, d2);
    lemma_pow2_pos(k);
    lemma_pow2_pos(k2);
    if k2 < k {
        // The smaller number would have the larger distance to its neighbours.
        crate::number::powers::lemma_power_order(k2 + 53, (k + 52) as nat);
        let p = pow2((k + 52) as nat);
        let p2 = pow2(k2 + 53);
        assert(n2 * d < n2 * d + 1);
        assert(n2 * d < (d2 * p2) * d) by (nonlinear_arith)
            requires
                n2 < d2 * p2,
                d > 0,
        ;
        assert((d2 * p2) * d <= (d * p) * d2) by (nonlinear_arith)
            requires
                p2 <= p,
        ;
        assert((d * p) * d2 <= n * d2) by (nonlinear_arith)
            requires
                d * p <= n,
        ;
        assert(false);
    }
    let e = d * pow2(k);
    let e2 = d2 * pow2(k2);
    assert(e > 0) by (nonlinear_arith)
        requires
            d > 0,
            pow2(k) > 0,
            e == d * pow2(k),
    ;
    assert(e2 > 0) by (nonlinear_arith)
        requires
            d2 > 0,
            pow2(k2) > 0,
            e2 == d2 * pow2(k2),
    ;
    let m = crate::number::datum::half_even(n, e);
    let m2 = crate::number::datum::half_even(n2, e2);
    if k == k2 {
        assert(n * e2 <= n2 * e) by (nonlinear_arith)
            requires
                n * d2 <= n2 * d,
                e == d * pow2(k),
                e2 == d2 * pow2(k),
        ;
        lemma_half_even_monotone(n, e, n2, e2);
        assert(m * pow2(k) <= m2 * pow2(k)) by (nonlinear_arith)
            requires
                m <= m2,
        ;
    } else {
        // A power of two lies between.
        crate::number::powers::lemma_power_sum(53, k);
        crate::number::powers::lemma_power_sum(52, k2);
        crate::number::powers::lemma_power_order(k + 53, (k2 + 52) as nat);
        crate::number::powers::lemma_small_powers();
        lemma_significand_range(n, d);
        lemma_significand_range(n2, d2);
        assert(m * pow2(k) <= pow2(53) * pow2(k)) by (nonlinear_arith)
            requires
                m <= pow2(53),
        ;
        assert(pow2(52) * pow2(k2) <= m2 * pow2(k2)) by (nonlinear_arith)
            requires
                pow2(52) <= m2,
        ;
    }
}

/// A rounded significand has at most 53 digits, or is the power of two above, and has them all
/// where the distance between neighbours is not the smallest.
pub proof fn lemma_significand_range(n: nat, d: nat)
    requires
        d > 0,
    ensures
        ({
            let k = crate::number::datum::quantum(n, d);
            let m = crate::number::datum::half_even(n, d * pow2(k));
            &&& m <= pow2(53)
            &&& k > 0 ==> m >= pow2(52)
        }),
{
    let k = crate::number::datum::quantum(n, d);
    let e = d * pow2(k);
    crate::number::exactness::lemma_quantum_exists(n, d);
    crate::number::powers::lemma_power_sum(53, k);
    crate::number::powers::lemma_power_sum(52, k);
    assert(e > 0) by (nonlinear_arith)
        requires
            d > 0,
            pow2(k) > 0,
            e == d * pow2(k),
    ;
    lemma_half_even_integer(pow2(53), e);
    lemma_half_even_integer(pow2(52), e);
    assert(pow2(53) * e == d * pow2(k + 53)) by (nonlinear_arith)
        requires
            e == d * pow2(k),
            pow2(53) * pow2(k) == pow2(k + 53),
    ;
    assert(n * e <= (pow2(53) * e) * e) by (nonlinear_arith)
        requires
            n <= pow2(53) * e,
    ;
    lemma_half_even_monotone(n, e, pow2(53) * e, e);
    if k > 0 {
        assert(pow2(52) * e == d * pow2((k + 52) as nat)) by (nonlinear_arith)
            requires
                e == d * pow2(k),
                pow2(52) * pow2(k) == pow2((k + 52) as nat),
        ;
        assert((pow2(52) * e) * e <= n * e) by (nonlinear_arith)
            requires
                n >= pow2(52) * e,
        ;
        lemma_half_even_monotone(pow2(52) * e, e, n, e);
    }
}

/// Rounding leaves an integer alone.
pub proof fn lemma_half_even_integer(m: nat, d: nat)
    requires
        d > 0,
    ensures
        crate::number::datum::half_even(m * d, d) == m,
{
    lemma_fundamental_div_mod_converse((m * d) as int, d as int, m as int, 0);
}

/// Rounding keeps the order of numbers: of two quotients, the one that is at most the other is
/// so when both are rounded to binary64 numbers.
pub proof fn lemma_nearest_monotone(n: nat, d: nat, n2: nat, d2: nat)
    requires
        d > 0,
        d2 > 0,
        n * d2 <= n2 * d,
    ensures
        Datum::nearest(false, n, d).at_most(Datum::nearest(false, n2, d2)),
{
    lemma_nearest_units_monotone(n, d, n2, d2);
}

/// Rounding gives the nearest: no binary64 number, which is `m * 2^e` units with a significand
/// of at most 53 digits, lies nearer to a quotient than the one that it is rounded to.
pub proof fn law_nearest_is_nearest(n: nat, d: nat, m: nat, e: nat)
    requires
        d > 0,
        m < pow2(53),
        Datum::nearest(false, n, d) is Finite,
    ensures
        distance(Datum::nearest(false, n, d)->units * d, n) <= distance((m * pow2(e)) * d, n),
{
    let k = crate::number::datum::quantum(n, d);
    let p = pow2(k);
    let step = d * p;
    let u = nearest_units(n, d);
    crate::number::exactness::lemma_quantum_exists(n, d);
    lemma_pow2_pos(k);
    assert(step > 0) by (nonlinear_arith)
        requires
            d > 0,
            p > 0,
            step == d * p,
    ;
    let best = crate::number::datum::half_even(n, step);
    assert(u * d == best * step) by (nonlinear_arith)
        requires
            u == best * p,
            step == d * p,
    ;
    if e >= k {
        let other = m * pow2((e - k) as nat);
        crate::number::powers::lemma_power_sum((e - k) as nat, k);
        assert((m * pow2(e)) * d == other * step) by (nonlinear_arith)
            requires
                other == m * pow2((e - k) as nat),
                pow2((e - k) as nat) * p == pow2(e),
                step == d * p,
        ;
        lemma_half_even_nearest(n, step, other);
    } else {
        // The other number is below a power of two that lies on this side of the quotient.
        crate::number::powers::lemma_power_order(e + 53, (k + 52) as nat);
        crate::number::powers::lemma_power_sum(53, e);
        crate::number::powers::lemma_power_sum(52, k);
        let v = m * pow2(e);
        lemma_pow2_pos(e);
        assert(v <= pow2(53) * pow2(e)) by (nonlinear_arith)
            requires
                v == m * pow2(e),
                m < pow2(53),
        ;
        assert(v * d <= pow2((k + 52) as nat) * d) by (nonlinear_arith)
            requires
                v <= pow2((k + 52) as nat),
        ;
        assert(pow2((k + 52) as nat) * d == d * pow2((k + 52) as nat)) by (nonlinear_arith);
        assert(pow2(52) * step == d * pow2((k + 52) as nat)) by (nonlinear_arith)
            requires
                pow2(52) * p == pow2((k + 52) as nat),
                step == d * p,
        ;
        lemma_half_even_nearest(n, step, pow2(52));
    }
}

} // verus!
