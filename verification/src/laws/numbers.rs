//! What holds of the arithmetic that the limits are computed with.

use crate::number::datum::Datum;
use vstd::arithmetic::div_mod::*;
use vstd::arithmetic::power2::*;
use vstd::prelude::*;

verus! {

/// A finite number that is not negative.
pub open spec fn finite(units: nat) -> Datum {
    Datum::Finite { negative: false, units }
}

/// Sums, products and quotients of numbers that are not negative are the exact results, rounded to
/// the nearest number.
pub proof fn law_arithmetic_is_rounded(u: nat, v: nat)
    ensures
        u + v > 0 ==> finite(u).plus(finite(v)) == Datum::nearest(false, u + v, 1),
        finite(u).times(finite(v)) == Datum::nearest(false, u * v, pow2(1074)),
        v > 0 ==> finite(u).over(finite(v)) == Datum::nearest(false, u * pow2(1074), v),
        finite(0).plus(finite(0)) == finite(0),
{
}

/// A sum or product does not depend on the order of its operands.
pub proof fn law_arithmetic_commutes(x: Datum, y: Datum)
    ensures
        x.plus(y) == y.plus(x),
        x.times(y) == y.times(x),
{
    if x is Finite && y is Finite {
        let a = x->Finite_units;
        let b = y->Finite_units;
        assert(a * b == b * a) by (nonlinear_arith);
    }
}

/// Numbers are ordered as their units are, and clamping gives the nearer end of the range.
pub proof fn law_order_of_numbers(u: nat, v: nat, low: nat, high: nat)
    requires
        low <= high,
    ensures
        finite(u).below(finite(v)) <==> u < v,
        finite(u).at_most(finite(v)) <==> u <= v,
        finite(u).clamped(finite(low), finite(high)) == finite(
            if u < low {
                low
            } else if u > high {
                high
            } else {
                u
            },
        ),
{
}

/// Whole numbers out of numbers: the whole part, the next whole number up, and the nearest one
/// with halves going up, each held below a bound.
pub proof fn law_whole_numbers(units: nat, max: nat)
    ensures
        ({
            let one = pow2(1074);
            let part = finite(units).truncated(max);
            let up = finite(units).rounded_up(max);
            let near = finite(units).rounded(max);
            &&& part <= max && up <= max && near <= max
            &&& part * one <= units
            &&& part < max ==> units < (part + 1) * one
            &&& up < max ==> units <= up * one
            &&& up > 0 ==> (up - 1) * one < units
            &&& near < max ==> 2 * units < (2 * near + 1) * one
            &&& near > 0 ==> (2 * near - 1) * one <= 2 * units
        }),
{
    let one = pow2(1074) as int;
    lemma_pow2_pos(1074);
    let t = units as int / one;
    let c = (units + one - 1) / one;
    let r = (2 * units + one) / (2 * one);
    lemma_fundamental_div_mod(units as int, one);
    lemma_fundamental_div_mod(units + one - 1, one);
    lemma_fundamental_div_mod(2 * units + one, 2 * one);
    lemma_mod_bound(units as int, one);
    lemma_mod_bound(units + one - 1, one);
    lemma_mod_bound(2 * units + one, 2 * one);
    lemma_div_pos_is_pos(units as int, one);
    lemma_div_pos_is_pos(units + one - 1, one);
    lemma_div_pos_is_pos(2 * units + one, 2 * one);
    let part = finite(units).truncated(max) as int;
    let up = finite(units).rounded_up(max) as int;
    let near = finite(units).rounded(max) as int;
    assert(part * one <= units && (part < max ==> units < (part + 1) * one)) by (nonlinear_arith)
        requires
            part <= t,
            part < max ==> part == t,
            one * t <= units < one * t + one,
            one > 0,
    ;
    assert((up < max ==> units <= up * one) && (up > 0 ==> (up - 1) * one < units))
        by (nonlinear_arith)
        requires
            up <= c,
            up < max ==> up == c,
            one * c <= units + one - 1 < one * c + one,
            one > 0,
    ;
    assert((near < max ==> 2 * units < (2 * near + 1) * one) && (near > 0 ==> (2 * near - 1) * one
        <= 2 * units)) by (nonlinear_arith)
        requires
            near <= r,
            near < max ==> near == r,
            (2 * one) * r <= 2 * units + one < (2 * one) * r + 2 * one,
            one > 0,
    ;
}

/// The root of an integer is the nearest number with a significand of 53 digits: of the spacing
/// `2^k` between such numbers, it is less than half a step from the root.
pub proof fn law_root_is_nearest(n: nat)
    requires
        0 < n <= u32::MAX,
    ensures
        exists|m: nat, k: nat|
            {
                &&& Datum::root(n) == finite(#[trigger] (m * pow2(k)))
                &&& pow2(52) <= m <= pow2(53)
                &&& ((2 * m - 1) * pow2(k)) * ((2 * m - 1) * pow2(k)) < 4 * n * (pow2(1074)
                    * pow2(1074))
                &&& 4 * n * (pow2(1074) * pow2(1074)) < ((2 * m + 1) * pow2(k)) * ((2 * m + 1)
                    * pow2(k))
            },
        Datum::root(0) == finite(0),
{
    crate::number::root::lemma_root_exists(n);
    let (j, m) = choose|j: nat, m: nat|
        {
            &&& j <= 1074
            &&& pow2(104) <= #[trigger] (n * pow2(2 * j)) < pow2(106)
            &&& #[trigger] crate::number::datum::is_nearest_root(n * pow2(2 * j), m)
            &&& Datum::root(n) == Datum::Finite {
                negative: false,
                units: m * pow2((1074 - j) as nat),
            }
        };
    let k = (1074 - j) as nat;
    let x = n * pow2(2 * j);
    let p = pow2(j);
    let s = pow2(k);
    let one = pow2(1074);
    crate::number::powers::lemma_power_sum(j, j);
    crate::number::powers::lemma_power_sum(j, k);
    crate::number::powers::lemma_power_sum(52, 52);
    crate::number::powers::lemma_power_sum(53, 53);
    let a = (2 * m - 1) * (2 * m - 1);
    let b = (2 * m + 1) * (2 * m + 1);
    let square = s * s;
    assert(square > 0) by (nonlinear_arith)
        requires
            s > 0,
            square == s * s,
    ;
    assert(4 * n * (one * one) == (4 * x) * square) by (nonlinear_arith)
        requires
            x == n * (p * p),
            one == p * s,
            square == s * s,
    ;
    assert(((2 * m - 1) * s) * ((2 * m - 1) * s) == a * square) by (nonlinear_arith)
        requires
            a == (2 * m - 1) * (2 * m - 1),
            square == s * s,
    ;
    assert(((2 * m + 1) * s) * ((2 * m + 1) * s) == b * square) by (nonlinear_arith)
        requires
            b == (2 * m + 1) * (2 * m + 1),
            square == s * s,
    ;
    assert(a * square < (4 * x) * square && (4 * x) * square < b * square) by (nonlinear_arith)
        requires
            a < 4 * x < b,
            square > 0,
    ;
    let low = pow2(52);
    let high = pow2(53);
    assert(low <= m) by (nonlinear_arith)
        requires
            4 * x < (2 * m + 1) * (2 * m + 1),
            low * low <= x,
            m >= 0,
            low >= 0,
    ;
    assert(m <= high) by (nonlinear_arith)
        requires
            (2 * m - 1) * (2 * m - 1) < 4 * x,
            x < high * high,
            m >= 0,
            high >= 0,
    ;
    assert(Datum::root(n) == finite(m * pow2(k)));
}

} // verus!
