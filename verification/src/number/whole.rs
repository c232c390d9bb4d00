//! Whole numbers out of binary64 numbers.

use crate::number::binary64::{Binary64, Parts};
use crate::number::datum::Datum;
use vstd::arithmetic::div_mod::*;
use vstd::arithmetic::power2::*;
use vstd::prelude::*;

verus! {

/// A number that is not negative, as its whole part and what the rest of it amounts to.
enum Split {
    /// At least `2^64`.
    Huge,
    Fits { whole: u64, any_rest: bool, half_rest: bool },
}

/// The three ways to get a whole number out of a number of units, from its split.
spec fn split_fits(units: nat, split: Split) -> bool {
    let one = pow2(1074);
    let down = units / one;
    let up = ((units + one - 1) / (one as int)) as nat;
    let near = (2 * units + one) / (2 * one);
    match split {
        Split::Huge => down > u64::MAX && up > u64::MAX && near > u64::MAX,
        Split::Fits { whole, any_rest, half_rest } => {
            &&& down == whole
            &&& up == whole + (if any_rest {
                1int
            } else {
                0
            })
            &&& near == whole + (if half_rest {
                1int
            } else {
                0
            })
        },
    }
}

/// Where `m * 2^e` units are a whole number, all three ways give that number.
proof fn lemma_split_whole(m: nat, e: nat)
    requires
        e >= 1074,
    ensures
        ({
            let one = pow2(1074);
            let units = m * pow2(e);
            let whole = m * pow2((e - 1074) as nat);
            &&& units / one == whole
            &&& (units + one - 1) / (one as int) == whole
            &&& (2 * units + one) / (2 * one) == whole
        }),
{
    let one = pow2(1074);
    let units = m * pow2(e);
    let whole = m * pow2((e - 1074) as nat);
    crate::number::powers::lemma_power_sum(1074, (e - 1074) as nat);
    assert(units == whole * one) by (nonlinear_arith)
        requires
            units == m * pow2(e),
            whole == m * pow2((e - 1074) as nat),
            one * pow2((e - 1074) as nat) == pow2(e),
    ;
    lemma_fundamental_div_mod_converse(units as int, one as int, whole as int, 0);
    lemma_fundamental_div_mod_converse(units + one - 1, one as int, whole as int, one - 1);
    assert(2 * units + one == whole * (2 * one) + one) by (nonlinear_arith)
        requires
            units == whole * one,
    ;
    lemma_fundamental_div_mod_converse(
        (2 * units + one) as int,
        (2 * one) as int,
        whole as int,
        one as int,
    );
}

/// The whole part `q` and the rest `r` of `m / 2^t` decide the three ways.
proof fn lemma_split_fraction(m: nat, e: nat, q: nat, r: nat, t: nat)
    requires
        e + t == 1074,
        m == q * pow2(t) + r,
        r < pow2(t),
    ensures
        ({
            let one = pow2(1074);
            let units = m * pow2(e);
            &&& units / one == q
            &&& (units + one - 1) / (one as int) == q + (if r > 0 {
                1int
            } else {
                0
            })
            &&& (2 * units + one) / (2 * one) == q + (if 2 * r >= pow2(t) {
                1int
            } else {
                0
            })
        }),
{
    let one = pow2(1074);
    let w = pow2(e);
    let p = pow2(t);
    let units = m * w;
    crate::number::powers::lemma_power_sum(e, t);
    assert(one == p * w) by (nonlinear_arith)
        requires
            w * p == one,
    ;
    let rest = r * w;
    assert(units == q * one + rest) by (nonlinear_arith)
        requires
            units == m * w,
            m == q * p + r,
            one == p * w,
            rest == r * w,
    ;
    assert(0 <= rest < one) by (nonlinear_arith)
        requires
            0 <= r < p,
            one == p * w,
            rest == r * w,
            w > 0,
    ;
    assert(rest > 0 <==> r > 0) by (nonlinear_arith)
        requires
            rest == r * w,
            w > 0,
            r >= 0,
    ;
    assert(2 * rest >= one <==> 2 * r >= p) by (nonlinear_arith)
        requires
            rest == r * w,
            one == p * w,
            w > 0,
    ;
    lemma_fundamental_div_mod_converse(units as int, one as int, q as int, rest as int);
    assert((q + 1) * one == q * one + one) by (nonlinear_arith);
    if r > 0 {
        lemma_fundamental_div_mod_converse(
            units + one - 1,
            one as int,
            q as int + 1,
            rest as int - 1,
        );
    } else {
        lemma_fundamental_div_mod_converse(units + one - 1, one as int, q as int, one - 1);
    }
    assert(q * (2 * one) == 2 * (q * one)) by (nonlinear_arith);
    assert((q + 1) * (2 * one) == 2 * (q * one) + 2 * one) by (nonlinear_arith);
    if 2 * r >= p {
        lemma_fundamental_div_mod_converse(
            (2 * units + one) as int,
            (2 * one) as int,
            q as int + 1,
            2 * rest - one,
        );
    } else {
        lemma_fundamental_div_mod_converse(
            (2 * units + one) as int,
            (2 * one) as int,
            q as int,
            (2 * rest + one) as int,
        );
    }
}

/// Splits `m * 2^e` units.
fn split(m: u64, e: u32) -> (r: Split)
    requires
        (Parts::Finite { negative: false, significand: m, exponent: e }).canonical(),
    ensures
        split_fits(m as nat * pow2(e as nat), r),
{
    proof {
        crate::number::powers::lemma_small_powers();
    }
    if e >= 1074 {
        proof {
            lemma_split_whole(m as nat, e as nat);
        }
        if e - 1074 > 11 {
            proof {
                crate::number::powers::lemma_power_sum(52, (e - 1074) as nat);
                crate::number::powers::lemma_power_order(64, (52 + e - 1074) as nat);
                assert(m * pow2((e - 1074) as nat) >= pow2(52) * pow2((e - 1074) as nat))
                    by (nonlinear_arith)
                    requires
                        m >= pow2(52),
                ;
            }
            Split::Huge
        } else {
            proof {
                crate::number::powers::lemma_power_sum(53, (e - 1074) as nat);
                crate::number::powers::lemma_power_order((53 + e - 1074) as nat, 64);
                lemma_pow2_pos((e - 1074) as nat);
                assert(m * pow2((e - 1074) as nat) < pow2(53) * pow2((e - 1074) as nat))
                    by (nonlinear_arith)
                    requires
                        m < pow2(53),
                        pow2((e - 1074) as nat) > 0,
                ;
            }
            let whole: u128 = m as u128 * crate::number::powers::two_to(e - 1074);
            Split::Fits { whole: whole as u64, any_rest: false, half_rest: false }
        }
    } else {
        let t: u32 = 1074 - e;
        if t >= 64 {
            proof {
                crate::number::powers::lemma_power_order(64, t as nat);
                assert(m == 0 * pow2(t as nat) + m);
                lemma_split_fraction(m as nat, e as nat, 0, m as nat, t as nat);
            }
            Split::Fits { whole: 0, any_rest: m > 0, half_rest: false }
        } else {
            let p = crate::number::powers::two_to(t);
            let q: u128 = m as u128 / p;
            let r: u128 = m as u128 % p;
            proof {
                lemma_fundamental_div_mod(m as int, p as int);
                assert(p * q == q * p) by (nonlinear_arith);
                crate::number::powers::lemma_power_order(t as nat, 64);
                lemma_split_fraction(m as nat, e as nat, q as nat, r as nat, t as nat);
                lemma_div_nonincreasing(m as int, p as int);
            }
            Split::Fits { whole: q as u64, any_rest: r > 0, half_rest: 2 * r >= p }
        }
    }
}

/// How a share grows by one more: by at least one for numbers from one on, and by at most one for
/// numbers up to one.
pub proof fn lemma_share_step(count: nat, units: nat)
    ensures
        crate::number::datum::whole_share(count, units) <= crate::number::datum::whole_share(
            count + 1,
            units,
        ),
        units >= pow2(1074) ==> crate::number::datum::whole_share(count, units)
            < crate::number::datum::whole_share(count + 1, units),
        units <= pow2(1074) ==> crate::number::datum::whole_share(count + 1, units)
            <= crate::number::datum::whole_share(count, units) + 1,
{
    let two = 2 * pow2(1074) as int;
    let a = ((2 * count + 1) * units) as int;
    let b = ((2 * (count + 1) + 1) * units) as int;
    lemma_pow2_pos(1074);
    assert(a >= 0 && b == a + 2 * units) by (nonlinear_arith)
        requires
            a == (2 * count + 1) * units,
            b == (2 * (count + 1) + 1) * units,
    ;
    lemma_div_is_ordered(a, b, two);
    lemma_div_plus_one(a, two);
    if units >= pow2(1074) {
        lemma_div_is_ordered(a + two, b, two);
    }
    if units <= pow2(1074) {
        lemma_div_is_ordered(b, a + two, two);
    }
}

/// One more whole divisor is one more in the quotient.
proof fn lemma_div_plus_one(a: int, d: int)
    requires
        a >= 0,
        d > 0,
    ensures
        (a + d) / d == a / d + 1,
{
    lemma_fundamental_div_mod(a, d);
    lemma_mod_bound(a, d);
    assert(a + d == (a / d + 1) * d + a % d) by (nonlinear_arith)
        requires
            a == d * (a / d) + a % d,
    ;
    lemma_fundamental_div_mod_converse(a + d, d, a / d + 1, a % d);
}

/// A quotient of units by a power of two is a quotient of significands.
proof fn lemma_share(x: nat, e: nat, t: nat)
    ensures
        (x * pow2(e)) / pow2(e + t) == x / pow2(t),
{
    let p = pow2(t);
    let s = pow2(e);
    crate::number::powers::lemma_power_sum(t, e);
    lemma_fundamental_div_mod(x as int, p as int);
    lemma_mod_bound(x as int, p as int);
    let q = x / p;
    let r = x % p;
    assert(x * s == q * (p * s) + r * s) by (nonlinear_arith)
        requires
            x == p * q + r,
    ;
    assert(0 <= r * s < p * s) by (nonlinear_arith)
        requires
            0 <= r < p,
            s > 0,
    ;
    lemma_fundamental_div_mod_converse(
        (x * s) as int,
        (p * s) as int,
        q as int,
        (r * s) as int,
    );
}

impl Binary64 {
    /// How many whole ones there are in `count` and a half times this number, which lies below
    /// one.
    pub fn share(self, count: u128) -> (r: u128)
        requires
            count <= 0x1_0000_0000_0000_0000,
            self@ matches Datum::Finite { negative, units } && !negative && units < pow2(1074),
        ensures
            r == crate::number::datum::whole_share(count as nat, self@->Finite_units),
    {
        match self.parts() {
            Parts::Finite { significand: m, exponent: e, .. } => {
                let halves: u128 = 2 * count + 1;
                proof {
                    crate::number::powers::lemma_small_powers();
                    crate::number::powers::lemma_power_sum(2, 64);
                    crate::number::powers::lemma_power_sum(1, 1);
                    crate::number::powers::lemma_power_sum(66, 53);
                    crate::number::powers::lemma_power_sum(1, 1074);
                    assert(halves * m <= pow2(66) * pow2(53)) by (nonlinear_arith)
                        requires
                            0 <= halves <= pow2(66),
                            0 <= m <= pow2(53),
                    ;
                    crate::number::powers::lemma_power_order(119, 127);
                    assert(halves * (m * pow2(e as nat)) == (halves * m) * pow2(e as nat))
                        by (nonlinear_arith);
                    if e >= 1074 {
                        crate::number::powers::lemma_power_order(1074, e as nat);
                        assert(m * pow2(e as nat) >= pow2(1074)) by (nonlinear_arith)
                            requires
                                m >= 1,
                                pow2(e as nat) >= pow2(1074),
                        ;
                    }
                    lemma_share((halves * m) as nat, e as nat, (1075 - e) as nat);
                }
                let product: u128 = halves * m as u128;
                let t: u32 = 1075 - e;
                if t > 127 {
                    proof {
                        crate::number::powers::lemma_power_order(127, t as nat);
                        crate::number::powers::lemma_power_order(119, t as nat);
                        lemma_basic_div(product as int, pow2(t as nat) as int);
                    }
                    0
                } else {
                    product / crate::number::powers::two_to(t)
                }
            },
            _ => 0,
        }
    }

    /// The whole part, held inside the integer type.
    pub fn truncate(self) -> (r: u64)
        ensures
            r == self@.truncated(u64::MAX as nat),
    {
        match self.parts() {
            Parts::Nan => 0,
            Parts::Infinite { negative } => if negative {
                0
            } else {
                u64::MAX
            },
            Parts::Finite { negative, significand, exponent } => {
                if negative {
                    0
                } else {
                    match split(significand, exponent) {
                        Split::Huge => u64::MAX,
                        Split::Fits { whole, .. } => whole,
                    }
                }
            },
        }
    }

    /// The least whole number that is not smaller, held inside the integer type.
    pub fn round_up(self) -> (r: u64)
        ensures
            r == self@.rounded_up(u64::MAX as nat),
    {
        match self.parts() {
            Parts::Nan => 0,
            Parts::Infinite { negative } => if negative {
                0
            } else {
                u64::MAX
            },
            Parts::Finite { negative, significand, exponent } => {
                if negative {
                    0
                } else {
                    match split(significand, exponent) {
                        Split::Huge => u64::MAX,
                        Split::Fits { whole, any_rest, .. } => {
                            if any_rest && whole < u64::MAX {
                                whole + 1
                            } else {
                                whole
                            }
                        },
                    }
                }
            },
        }
    }

    /// The nearest whole number, halves going up, held inside the integer type.
    pub fn round(self) -> (r: u64)
        ensures
            r == self@.rounded(u64::MAX as nat),
    {
        match self.parts() {
            Parts::Nan => 0,
            Parts::Infinite { negative } => if negative {
                0
            } else {
                u64::MAX
            },
            Parts::Finite { negative, significand, exponent } => {
                if negative {
                    0
                } else {
                    match split(significand, exponent) {
                        Split::Huge => u64::MAX,
                        Split::Fits { whole, half_rest, .. } => {
                            if half_rest && whole < u64::MAX {
                                whole + 1
                            } else {
                                whole
                            }
                        },
                    }
                }
            },
        }
    }
}

} // verus!
