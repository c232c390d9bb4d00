//! Rounding an exact quotient to the nearest binary64 number.

use crate::number::binary64::Binary64;
use crate::number::datum::Datum;
use vstd::arithmetic::div_mod::*;
use vstd::arithmetic::power2::*;
use vstd::prelude::*;

verus! {

/// Rounding to the nearest even integer does not see a common factor.
pub proof fn lemma_half_even_scale(n: nat, d: nat, c: nat)
    requires
        d > 0,
        c > 0,
    ensures
        d * c > 0,
        crate::number::datum::half_even(n * c, d * c) == crate::number::datum::half_even(n, d),
{
    let q = n / d;
    let r = n % d;
    lemma_fundamental_div_mod(n as int, d as int);
    lemma_mod_bound(n as int, d as int);
    assert(n * c == q * (d * c) + r * c) by (nonlinear_arith)
        requires
            n == d * q + r,
    ;
    assert(0 <= r * c < d * c) by (nonlinear_arith)
        requires
            0 <= r < d,
            c > 0,
    ;
    lemma_fundamental_div_mod_converse((n * c) as int, (d * c) as int, q as int, (r * c) as int);
    assert((2 * r < d) == (2 * (r * c) < d * c)) by (nonlinear_arith)
        requires
            c > 0,
    ;
    assert((2 * r == d) == (2 * (r * c) == d * c)) by (nonlinear_arith)
        requires
            c > 0,
    ;
}

/// At most one distance between neighbours fits a quotient.
pub proof fn lemma_quantum_unique(n: nat, d: nat, k: nat)
    requires
        d > 0,
        crate::number::datum::is_quantum(n, d, k),
    ensures
        crate::number::datum::quantum(n, d) == k,
{
    let j = crate::number::datum::quantum(n, d);
    assert(crate::number::datum::is_quantum(n, d, j));
    if j < k {
        crate::number::powers::lemma_power_order(j + 53, (k + 52) as nat);
        assert(d * pow2(j + 53) <= d * pow2((k + 52) as nat)) by (nonlinear_arith)
            requires
                pow2(j + 53) <= pow2((k + 52) as nat),
        ;
    }
    if k < j {
        crate::number::powers::lemma_power_order(k + 53, (j + 52) as nat);
        assert(d * pow2(k + 53) <= d * pow2((j + 52) as nat)) by (nonlinear_arith)
            requires
                pow2(k + 53) <= pow2((j + 52) as nat),
        ;
    }
}

/// Whether the quotient `n / d` units is `x * 2^(a - b)` units, or, where `sticky`, lies
/// strictly between that and `(x + 1) * 2^(a - b)` units.
pub open spec fn brackets(n: nat, d: nat, x: nat, a: nat, b: nat, sticky: bool) -> bool {
    if sticky {
        d * x * pow2(a) < n * pow2(b) < d * (x + 1) * pow2(a)
    } else {
        n * pow2(b) == d * x * pow2(a)
    }
}

/// The distance between neighbours around a bracketed quotient follows from the length of
/// `x` alone.
proof fn lemma_bracket_quantum(
    n: nat,
    d: nat,
    x: nat,
    a: nat,
    b: nat,
    sticky: bool,
    length: nat,
    k: nat,
)
    requires
        d > 0,
        brackets(n, d, x, a, b, sticky),
        0 < length,
        pow2((length - 1) as nat) <= x < pow2(length),
        length + a <= k + 53 + b,
        k > 0 ==> length + a == k + 53 + b,
    ensures
        crate::number::datum::is_quantum(n, d, k),
{
    let e = pow2(a);
    crate::number::powers::lemma_power_sum(length, a);
    crate::number::powers::lemma_power_sum((length - 1) as nat, a);
    crate::number::powers::lemma_power_sum(k + 53, b);
    crate::number::powers::lemma_power_order(length + a, k + 53 + b);
    // upper end
    let top = pow2(length);
    assert(n * pow2(b) < d * (top * e)) by (nonlinear_arith)
        requires
            n * pow2(b) < d * (x + 1) * e || n * pow2(b) == d * x * e,
            x + 1 <= top,
            d > 0,
            e > 0,
    ;
    assert(d * (top * e) <= d * (pow2(k + 53) * pow2(b))) by (nonlinear_arith)
        requires
            top * e <= pow2(k + 53) * pow2(b),
    ;
    assert(n < d * pow2(k + 53)) by (nonlinear_arith)
        requires
            n * pow2(b) < d * (pow2(k + 53) * pow2(b)),
            pow2(b) > 0,
    ;
    if k > 0 {
        crate::number::powers::lemma_power_sum((k + 52) as nat, b);
        let low = pow2((length - 1) as nat);
        assert(low * e == pow2((k + 52) as nat) * pow2(b));
        assert(d * (low * e) <= n * pow2(b)) by (nonlinear_arith)
            requires
                d * x * e <= n * pow2(b),
                low <= x,
        ;
        assert(d * pow2((k + 52) as nat) <= n) by (nonlinear_arith)
            requires
                d * (pow2((k + 52) as nat) * pow2(b)) <= n * pow2(b),
                pow2(b) > 0,
        ;
    }
}

/// The significand that `x` with `t` digits dropped rounds to.
pub open spec fn rounded_significand(x: nat, t: nat, sticky: bool) -> nat {
    let q = x / pow2(t);
    let r = x % pow2(t);
    if 2 * r < pow2(t) || (2 * r == pow2(t) && !sticky && q % 2 == 0) {
        q
    } else {
        q + 1
    }
}

/// Dropping at least one digit, the rounded significand of a bracketed quotient follows from
/// `x` and `sticky` alone.
proof fn lemma_bracket_half_even(
    n: nat,
    d: nat,
    x: nat,
    a: nat,
    b: nat,
    sticky: bool,
    k: nat,
    t: nat,
)
    requires
        d > 0,
        brackets(n, d, x, a, b, sticky),
        t > 0,
        k + b == t + a,
    ensures
        crate::number::datum::half_even(n, d * pow2(k)) == rounded_significand(x, t, sticky),
{
    let e = d * pow2(a);
    let p = pow2(t);
    let n2 = n * pow2(b);
    crate::number::powers::lemma_power_sum(k, b);
    crate::number::powers::lemma_power_sum(t, a);
    crate::number::powers::lemma_power_sum(1, (t - 1) as nat);
    crate::number::powers::lemma_small_powers();
    let half = pow2((t - 1) as nat);
    assert(p == 2 * half);
    assert(e > 0) by (nonlinear_arith)
        requires
            d > 0,
            pow2(a) > 0,
            e == d * pow2(a),
    ;
    assert(d * pow2(k) > 0) by (nonlinear_arith)
        requires
            d > 0,
            pow2(k) > 0,
    ;
    lemma_half_even_scale(n, d * pow2(k), pow2(b));
    assert((d * pow2(k)) * pow2(b) == e * p) by (nonlinear_arith)
        requires
            pow2(k) * pow2(b) == p * pow2(a),
            e == d * pow2(a),
    ;
    let delta = n2 - e * x;
    assert(0 <= delta < e && (delta == 0 <==> !sticky)) by {
        assert(d * x * pow2(a) == e * x) by (nonlinear_arith)
            requires
                e == d * pow2(a),
        ;
        assert(d * (x + 1) * pow2(a) == e * x + e) by (nonlinear_arith)
            requires
                e == d * pow2(a),
        ;
    }
    let q = x / p;
    let r = x % p;
    lemma_fundamental_div_mod(x as int, p as int);
    lemma_mod_bound(x as int, p as int);
    let rest = e * r + delta;
    assert(n2 == q * (e * p) + rest) by (nonlinear_arith)
        requires
            n2 == e * x + delta,
            x == p * q + r,
            rest == e * r + delta,
    ;
    assert(0 <= rest < e * p) by (nonlinear_arith)
        requires
            0 <= delta < e,
            0 <= r < p,
            rest == e * r + delta,
    ;
    lemma_fundamental_div_mod_converse(n2 as int, (e * p) as int, q as int, rest as int);
    if r < half {
        assert(2 * rest < e * p) by (nonlinear_arith)
            requires
                r + 1 <= half,
                p == 2 * half,
                rest == e * r + delta,
                delta < e,
        ;
    } else if r == half {
        assert(2 * rest == e * p + 2 * delta) by (nonlinear_arith)
            requires
                r == half,
                p == 2 * half,
                rest == e * r + delta,
        ;
    } else {
        assert(2 * rest > e * p) by (nonlinear_arith)
            requires
                r >= half + 1,
                p == 2 * half,
                rest == e * r + delta,
                0 <= delta,
                e > 0,
        ;
    }
}

/// Where no digit has to be dropped, the significand is exact.
pub proof fn lemma_exact_half_even(n: nat, d: nat, x: nat, scale: nat, k: nat)
    requires
        d > 0,
        n == d * x * pow2(scale),
        k <= scale,
    ensures
        crate::number::datum::half_even(n, d * pow2(k)) == x * pow2((scale - k) as nat),
{
    let m = x * pow2((scale - k) as nat);
    let e = d * pow2(k);
    crate::number::powers::lemma_power_sum(k, (scale - k) as nat);
    assert(e > 0) by (nonlinear_arith)
        requires
            d > 0,
            pow2(k) > 0,
            e == d * pow2(k),
    ;
    assert(n == m * e + 0) by (nonlinear_arith)
        requires
            n == d * x * pow2(scale),
            pow2(k) * pow2((scale - k) as nat) == pow2(scale),
            m == x * pow2((scale - k) as nat),
            e == d * pow2(k),
    ;
    lemma_fundamental_div_mod_converse(n as int, e as int, m as int, 0);
}

/// The number `significand * 2^exponent` units, infinite where it is too large.
pub(crate) fn pack(negative: bool, significand: u64, exponent: u32) -> (r: Binary64)
    requires
        significand <= 0x20_0000_0000_0000,
        exponent > 0 ==> significand >= 0x10_0000_0000_0000,
        exponent < 100_000,
    ensures
        r@ == (if significand * pow2(exponent as nat) < pow2(2098) {
            Datum::Finite { negative, units: significand as nat * pow2(exponent as nat) }
        } else {
            Datum::Infinite { negative }
        }),
{
    let sign: u64 = if negative {
        0x8000_0000_0000_0000
    } else {
        0
    };
    let (m, k): (u64, u32) = if significand == 0x20_0000_0000_0000 {
        (0x10_0000_0000_0000, exponent + 1)
    } else {
        (significand, exponent)
    };
    proof {
        crate::number::powers::lemma_small_powers();
        crate::number::powers::lemma_power_sum(1, exponent as nat);
        assert(significand * pow2(exponent as nat) == m * pow2(k as nat)) by (nonlinear_arith)
            requires
                (significand == 2 * m && pow2(k as nat) == 2 * pow2(exponent as nat)) || (
                significand == m && k == exponent),
        ;
        crate::number::powers::lemma_power_sum(52, k as nat);
        crate::number::powers::lemma_power_sum(53, k as nat);
        if k > 2045 {
            crate::number::powers::lemma_power_order(2098, (k + 52) as nat);
            assert(pow2(52) * pow2(k as nat) <= m * pow2(k as nat)) by (nonlinear_arith)
                requires
                    pow2(52) <= m,
            ;
        } else {
            crate::number::powers::lemma_power_order((k + 53) as nat, 2098);
            assert(m * pow2(k as nat) < pow2(53) * pow2(k as nat)) by (nonlinear_arith)
                requires
                    m < pow2(53),
                    pow2(k as nat) > 0,
            ;
        }
        assert(m * pow2(0) == m) by (nonlinear_arith)
            requires
                pow2(0) == 1,
        ;
    }
    if k > 2045 {
        Binary64 { bits: sign + 0x7ff0_0000_0000_0000 }
    } else if m < 0x10_0000_0000_0000 {
        Binary64 { bits: sign + m }
    } else {
        let bits: u64 = sign + (k as u64 + 1) * 0x10_0000_0000_0000 + (m - 0x10_0000_0000_0000);
        Binary64 { bits }
    }
}

/// The significand that `x` with `t` digits dropped rounds to.
fn drop_digits(x: u128, t: u32, sticky: bool) -> (m: u64)
    requires
        0 < t,
        x < pow2(127),
        x < pow2((t + 53) as nat),
    ensures
        m == rounded_significand(x as nat, t as nat, sticky),
        m <= 0x20_0000_0000_0000,
        x >= pow2((t + 52) as nat) ==> m >= 0x10_0000_0000_0000,
{
    proof {
        crate::number::powers::lemma_small_powers();
        crate::number::powers::lemma_power_sum(53, t as nat);
        crate::number::powers::lemma_power_sum(52, t as nat);
    }
    if t >= 128 {
        proof {
            crate::number::powers::lemma_power_order(127, t as nat);
            crate::number::powers::lemma_power_order(127, (t + 52) as nat);
            lemma_small_mod(x as nat, pow2(t as nat));
            lemma_basic_div(x as int, pow2(t as nat) as int);
        }
        return 0;
    }
    let p = crate::number::powers::two_to(t);
    let q = x / p;
    let r = x % p;
    let half = p / 2;
    proof {
        crate::number::powers::lemma_power_sum(1, (t - 1) as nat);
        assert(p == 2 * half);
        lemma_fundamental_div_mod(x as int, p as int);
        assert(q < pow2(53)) by (nonlinear_arith)
            requires
                x == p * q + r,
                r >= 0,
                x < pow2(53) * p,
                p > 0,
        ;
        if x >= pow2((t + 52) as nat) {
            assert(q >= pow2(52)) by (nonlinear_arith)
                requires
                    x == p * q + r,
                    r < p,
                    x >= pow2(52) * p,
                    p > 0,
            ;
        }
    }
    if r < half || (r == half && !sticky && q % 2 == 0) {
        q as u64
    } else {
        q as u64 + 1
    }
}

/// Rounds the quotient `n / d` units to the nearest binary64 number, where `x` and `scale`
/// give it exactly or, with `sticky`, up to less than `2^scale` units.
pub fn round_scaled(
    negative: bool,
    x: u128,
    scale: i32,
    sticky: bool,
    Ghost(n): Ghost<nat>,
    Ghost(d): Ghost<nat>,
) -> (r: Binary64)
    requires
        d > 0,
        x < pow2(127),
        -10_000 < scale < 10_000,
        sticky ==> x >= pow2(53),
        scale >= 0 ==> brackets(n, d, x as nat, scale as nat, 0, sticky),
        scale < 0 ==> brackets(n, d, x as nat, 0, (-scale) as nat, sticky),
    ensures
        r@ == Datum::nearest(negative, n, d),
{
    let ghost a: nat = if scale >= 0 {
        scale as nat
    } else {
        0
    };
    let ghost b: nat = if scale >= 0 {
        0
    } else {
        (-scale) as nat
    };
    proof {
        crate::number::powers::lemma_small_powers();
        crate::number::powers::lemma_power_sum(a, b);
    }
    if x == 0 {
        proof {
            assert(n == 0) by (nonlinear_arith)
                requires
                    n * pow2(b) == d * x * pow2(a),
                    x == 0,
                    pow2(b) > 0,
            ;
            assert(d * pow2(53) > 0) by (nonlinear_arith)
                requires
                    d > 0,
                    pow2(53) > 0,
            ;
            assert(crate::number::datum::is_quantum(n, d, 0));
            lemma_quantum_unique(n, d, 0);
            lemma_exact_half_even(0, d, 0, 0, 0);
            assert(d * 0nat * pow2(0) == 0) by (nonlinear_arith);
        }
        return pack(negative, 0, 0);
    }
    let length = crate::number::powers::bit_length(x);
    proof {
        if length > 127 {
            crate::number::powers::lemma_power_order(127, (length - 1) as nat);
        }
        if length < 54 && sticky {
            crate::number::powers::lemma_power_order(length as nat, 53);
        }
    }
    let top: i32 = length as i32 + scale - 53;
    let k: i32 = if top > 0 {
        top
    } else {
        0
    };
    proof {
        lemma_bracket_quantum(n, d, x as nat, a, b, sticky, length as nat, k as nat);
        lemma_quantum_unique(n, d, k as nat);
    }
    if k > scale {
        let t: u32 = (k - scale) as u32;
        proof {
            lemma_bracket_half_even(n, d, x as nat, a, b, sticky, k as nat, t as nat);
            crate::number::powers::lemma_power_order(length as nat, (t + 53) as nat);
        }
        let m = drop_digits(x, t, sticky);
        pack(negative, m, k as u32)
    } else {
        let t: u32 = (scale - k) as u32;
        proof {
            crate::number::powers::lemma_power_sum(length as nat, t as nat);
            crate::number::powers::lemma_power_sum((length - 1) as nat, t as nat);
            crate::number::powers::lemma_power_order((length + t) as nat, 53);
            assert(n == d * x * pow2(a)) by (nonlinear_arith)
                requires
                    n * pow2(b) == d * x * pow2(a),
                    pow2(b) == 1,
            ;
            lemma_exact_half_even(n, d, x as nat, a, k as nat);
            assert(x * pow2(t as nat) < pow2(length as nat) * pow2(t as nat)) by (nonlinear_arith)
                requires
                    x < pow2(length as nat),
                    pow2(t as nat) > 0,
            ;
            assert(pow2((length - 1) as nat) * pow2(t as nat) <= x * pow2(t as nat))
                by (nonlinear_arith)
                requires
                    x >= pow2((length - 1) as nat),
            ;
        }
        let p = crate::number::powers::two_to(t);
        let m: u64 = (x * p) as u64;
        pack(negative, m, k as u32)
    }
}

} // verus!
