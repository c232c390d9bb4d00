//! Binary64 floating-point arithmetic in integer operations.

use crate::number::datum::Datum;
use vstd::arithmetic::div_mod::*;
use vstd::arithmetic::power2::*;
use vstd::prelude::*;

verus! {

/// A binary64 floating-point number in its interchange encoding: from the top, one sign bit,
/// eleven exponent bits and fifty-two fraction bits.
#[derive(Clone, Copy, Debug, PartialEq, Eq, Structural)]
pub struct Binary64 {
    pub bits: u64,
}

impl View for Binary64 {
    type V = Datum;

    open spec fn view(&self) -> Datum {
        let negative = self.bits >= 0x8000_0000_0000_0000;
        let exponent = (self.bits / 0x10_0000_0000_0000) % 0x800;
        let fraction = self.bits % 0x10_0000_0000_0000;
        if exponent == 0x7ff {
            if fraction == 0 {
                Datum::Infinite { negative }
            } else {
                Datum::Nan
            }
        } else if exponent == 0 {
            Datum::Finite { negative, units: fraction as nat }
        } else {
            Datum::Finite {
                negative,
                units: (0x10_0000_0000_0000 + fraction) as nat * pow2((exponent - 1) as nat),
            }
        }
    }
}

/// A number taken apart.
pub(crate) enum Parts {
    Nan,
    Infinite { negative: bool },
    Finite { negative: bool, significand: u64, exponent: u32 },
}

impl Parts {
    pub(crate) open spec fn datum(self) -> Datum {
        match self {
            Parts::Nan => Datum::Nan,
            Parts::Infinite { negative } => Datum::Infinite { negative },
            Parts::Finite { negative, significand, exponent } => Datum::Finite {
                negative,
                units: significand as nat * pow2(exponent as nat),
            },
        }
    }

    pub(crate) open spec fn canonical(self) -> bool {
        self matches Parts::Finite { negative, significand, exponent } ==> {
            &&& significand < 0x20_0000_0000_0000
            &&& exponent <= 2045
            &&& exponent > 0 ==> significand >= 0x10_0000_0000_0000
        }
    }
}

impl Binary64 {
    /// The number with the given encoding.
    pub fn from_bits(bits: u64) -> (r: Binary64)
        ensures
            r.bits == bits,
    {
        Binary64 { bits }
    }

    /// The encoding of this number.
    pub fn to_bits(self) -> (bits: u64)
        ensures
            bits == self.bits,
    {
        self.bits
    }

    pub(crate) fn parts(self) -> (p: Parts)
        ensures
            p.canonical(),
            p.datum() == self@,
    {
        let negative = self.bits >= 0x8000_0000_0000_0000;
        let exponent: u64 = (self.bits / 0x10_0000_0000_0000) % 0x800;
        let fraction: u64 = self.bits % 0x10_0000_0000_0000;
        proof {
            crate::number::powers::lemma_small_powers();
            assert(fraction * pow2(0) == fraction) by (nonlinear_arith)
                requires
                    pow2(0) == 1,
            ;
        }
        if exponent == 0x7ff {
            if fraction == 0 {
                Parts::Infinite { negative }
            } else {
                Parts::Nan
            }
        } else if exponent == 0 {
            Parts::Finite { negative, significand: fraction, exponent: 0 }
        } else {
            Parts::Finite {
                negative,
                significand: 0x10_0000_0000_0000 + fraction,
                exponent: exponent as u32 - 1,
            }
        }
    }

    fn nan() -> (r: Binary64)
        ensures
            r@ is Nan,
    {
        Binary64 { bits: 0x7ff8_0000_0000_0000 }
    }

    fn infinity(negative: bool) -> (r: Binary64)
        ensures
            r@ == (Datum::Infinite { negative }),
    {
        if negative {
            Binary64 { bits: 0xfff0_0000_0000_0000 }
        } else {
            Binary64 { bits: 0x7ff0_0000_0000_0000 }
        }
    }

    fn signed_zero(negative: bool) -> (r: Binary64)
        ensures
            r@ == (Datum::Finite { negative, units: 0 }),
    {
        if negative {
            Binary64 { bits: 0x8000_0000_0000_0000 }
        } else {
            Binary64 { bits: 0 }
        }
    }

    /// The number nearest to the integer `n`.
    pub fn from_u64(n: u64) -> (r: Binary64)
        ensures
            r@ == Datum::of_nat(n as nat),
    {
        proof {
            crate::number::powers::lemma_small_powers();
            crate::number::powers::lemma_power_order(64, 127);
            assert((n as nat * pow2(1074)) * pow2(0) == 1nat * n as nat * pow2(1074))
                by (nonlinear_arith)
                requires
                    pow2(0) == 1,
            ;
        }
        crate::number::rounding::round_scaled(
            false,
            n as u128,
            1074,
            false,
            Ghost(n as nat * pow2(1074)),
            Ghost(1),
        )
    }

    /// The product.
    pub fn times(self, other: Binary64) -> (r: Binary64)
        ensures
            r@ == self@.times(other@),
    {
        match (self.parts(), other.parts()) {
            (Parts::Nan, _) => Binary64::nan(),
            (_, Parts::Nan) => Binary64::nan(),
            (Parts::Infinite { negative: s }, Parts::Infinite { negative: t }) => {
                Binary64::infinity(s != t)
            },
            (
                Parts::Infinite { negative: s },
                Parts::Finite { negative: t, significand, exponent },
            ) => {
                proof {
                    lemma_zero_units(significand, exponent);
                }
                if significand == 0 {
                    Binary64::nan()
                } else {
                    Binary64::infinity(s != t)
                }
            },
            (
                Parts::Finite { negative: s, significand, exponent },
                Parts::Infinite { negative: t },
            ) => {
                proof {
                    lemma_zero_units(significand, exponent);
                }
                if significand == 0 {
                    Binary64::nan()
                } else {
                    Binary64::infinity(s != t)
                }
            },
            (
                Parts::Finite { negative: s, significand: m, exponent: e },
                Parts::Finite { negative: t, significand: n, exponent: f },
            ) => {
                proof {
                    crate::number::powers::lemma_small_powers();
                    lemma_product_bracket(m as nat, e as nat, n as nat, f as nat);
                    assert(m * n < 0x20_0000_0000_0000 * 0x20_0000_0000_0000) by (nonlinear_arith)
                        requires
                            m < 0x20_0000_0000_0000,
                            n < 0x20_0000_0000_0000,
                    ;
                }
                let x: u128 = m as u128 * n as u128;
                let scale: i32 = e as i32 + f as i32 - 1074;
                crate::number::rounding::round_scaled(
                    s != t,
                    x,
                    scale,
                    false,
                    Ghost((m as nat * pow2(e as nat)) * (n as nat * pow2(f as nat))),
                    Ghost(pow2(1074)),
                )
            },
        }
    }

    /// The quotient.
    pub fn over(self, other: Binary64) -> (r: Binary64)
        ensures
            r@ == self@.over(other@),
    {
        match (self.parts(), other.parts()) {
            (Parts::Nan, _) => Binary64::nan(),
            (_, Parts::Nan) => Binary64::nan(),
            (Parts::Infinite { .. }, Parts::Infinite { .. }) => Binary64::nan(),
            (Parts::Infinite { negative: s }, Parts::Finite { negative: t, .. }) => {
                Binary64::infinity(s != t)
            },
            (Parts::Finite { negative: s, .. }, Parts::Infinite { negative: t }) => {
                Binary64::signed_zero(s != t)
            },
            (
                Parts::Finite { negative: s, significand: m, exponent: e },
                Parts::Finite { negative: t, significand: n, exponent: f },
            ) => {
                proof {
                    lemma_zero_units(m, e);
                    lemma_zero_units(n, f);
                }
                if n == 0 {
                    if m == 0 {
                        Binary64::nan()
                    } else {
                        Binary64::infinity(s != t)
                    }
                } else {
                    finite_quotient(s != t, m, e, n, f)
                }
            },
        }
    }

    /// The sum.
    pub fn plus(self, other: Binary64) -> (r: Binary64)
        ensures
            r@ == self@.plus(other@),
    {
        match (self.parts(), other.parts()) {
            (Parts::Nan, _) => Binary64::nan(),
            (_, Parts::Nan) => Binary64::nan(),
            (Parts::Infinite { negative: s }, Parts::Infinite { negative: t }) => {
                if s == t {
                    self
                } else {
                    Binary64::nan()
                }
            },
            (Parts::Infinite { .. }, Parts::Finite { .. }) => self,
            (Parts::Finite { .. }, Parts::Infinite { .. }) => other,
            (
                Parts::Finite { negative: s, significand: m, exponent: e },
                Parts::Finite { negative: t, significand: n, exponent: f },
            ) => {
                if e >= f {
                    finite_sum(s, m, e, t, n, f)
                } else {
                    finite_sum(t, n, f, s, m, e)
                }
            },
        }
    }

    /// Whether this number is smaller than the other; false where either is not a number.
    pub fn below(self, other: Binary64) -> (r: bool)
        ensures
            r == self@.below(other@),
    {
        match (self.parts(), other.parts()) {
            (Parts::Nan, _) => false,
            (_, Parts::Nan) => false,
            (Parts::Infinite { negative: s }, Parts::Infinite { negative: t }) => s && !t,
            (Parts::Infinite { negative: s }, Parts::Finite { .. }) => s,
            (Parts::Finite { .. }, Parts::Infinite { negative: t }) => !t,
            (
                Parts::Finite { negative: s, significand: m, exponent: e },
                Parts::Finite { negative: t, significand: n, exponent: f },
            ) => {
                proof {
                    lemma_zero_units(m, e);
                    lemma_zero_units(n, f);
                }
                if s && t {
                    smaller(n, f, m, e)
                } else if !s && !t {
                    smaller(m, e, n, f)
                } else {
                    s && (m != 0 || n != 0)
                }
            },
        }
    }

    /// Whether this number is at most the other; false where either is not a number.
    pub fn at_most(self, other: Binary64) -> (r: bool)
        ensures
            r == self@.at_most(other@),
    {
        match (self.parts(), other.parts()) {
            (Parts::Nan, _) => false,
            (_, Parts::Nan) => false,
            _ => !other.below(self),
        }
    }

    /// This number, moved to the nearer end where it lies outside `low..=high`.
    pub fn clamp(self, low: Binary64, high: Binary64) -> (r: Binary64)
        requires
            low@.at_most(high@),
        ensures
            r@ == self@.clamped(low@, high@),
    {
        if self.below(low) {
            low
        } else if high.below(self) {
            high
        } else {
            self
        }
    }
}

/// Whether `m * 2^e` units are fewer than `n * 2^f` units.
fn smaller(m: u64, e: u32, n: u64, f: u32) -> (r: bool)
    requires
        (Parts::Finite { negative: false, significand: m, exponent: e }).canonical(),
        (Parts::Finite { negative: false, significand: n, exponent: f }).canonical(),
    ensures
        r == ((m as nat * pow2(e as nat)) < (n as nat * pow2(f as nat))),
{
    proof {
        if e < f {
            lemma_smaller(m as nat, e as nat, n as nat, f as nat);
        } else if f < e {
            lemma_smaller(n as nat, f as nat, m as nat, e as nat);
        } else {
            lemma_pow2_pos(e as nat);
            assert((m * pow2(e as nat) < n * pow2(e as nat)) == (m < n)) by (nonlinear_arith)
                requires
                    pow2(e as nat) > 0,
            ;
        }
    }
    e < f || (e == f && m < n)
}

proof fn lemma_smaller(m: nat, e: nat, n: nat, f: nat)
    requires
        e < f,
        m < 0x20_0000_0000_0000,
        n >= 0x10_0000_0000_0000,
    ensures
        m * pow2(e) < n * pow2(f),
{
    crate::number::powers::lemma_power_order(e, f);
    assert(m * pow2(e) < n * pow2(f)) by (nonlinear_arith)
        requires
            m < 0x20_0000_0000_0000,
            n >= 0x10_0000_0000_0000,
            0 < pow2(e),
            2 * pow2(e) <= pow2(f),
    ;
}

/// The number of units that `m * 2^e` stands for under a sign.
spec fn signed(negative: bool, m: nat, e: nat) -> int {
    if negative {
        -((m * pow2(e)) as int)
    } else {
        (m * pow2(e)) as int
    }
}

/// The sum of `m * 2^e` and `n * 2^f` units under their signs, the larger exponent first.
fn finite_sum(s: bool, m: u64, e: u32, t: bool, n: u64, f: u32) -> (r: Binary64)
    requires
        f <= e <= 2045,
        m < 0x20_0000_0000_0000,
        n < 0x20_0000_0000_0000,
        e > 0 ==> m >= 0x10_0000_0000_0000,
    ensures
        ({
            let total = signed(s, m as nat, e as nat) + signed(t, n as nat, f as nat);
            r@ == if total == 0 {
                Datum::Finite { negative: s && t, units: 0 }
            } else if total < 0 {
                Datum::nearest(true, (-total) as nat, 1)
            } else {
                Datum::nearest(false, total as nat, 1)
            }
        }),
{
    let distance: u32 = e - f;
    let ghost total = signed(s, m as nat, e as nat) + signed(t, n as nat, f as nat);
    proof {
        crate::number::powers::lemma_small_powers();
        crate::number::powers::lemma_power_sum(0, f as nat);
    }
    if distance <= 70 {
        let p = crate::number::powers::two_to(distance);
        proof {
            crate::number::powers::lemma_power_sum(distance as nat, f as nat);
            crate::number::powers::lemma_power_sum(53, 70);
            crate::number::powers::lemma_power_order(distance as nat, 70);
            crate::number::powers::lemma_power_order(124, 127);
            crate::number::powers::lemma_power_sum(1, 123);
            crate::number::powers::lemma_power_order(53, 123);
            assert(m * p <= 0x20_0000_0000_0000 * pow2(70)) by (nonlinear_arith)
                requires
                    m < 0x20_0000_0000_0000,
                    p <= pow2(70),
            ;
        }
        let big: u128 = m as u128 * p;
        let small: u128 = n as u128;
        proof {
            assert(m as nat * pow2(e as nat) == big as nat * pow2(f as nat)) by (nonlinear_arith)
                requires
                    big == m * pow2(distance as nat),
                    pow2(e as nat) == pow2(distance as nat) * pow2(f as nat),
            ;
        }
        let (negative, x): (bool, u128) = if s == t {
            (s, big + small)
        } else if big >= small {
            (s, big - small)
        } else {
            (t, small - big)
        };
        proof {
            let w = pow2(f as nat);
            assert(s == t ==> (big + small) * w == big * w + small * w) by (nonlinear_arith);
            assert((big - small) * w == big * w - small * w) by (nonlinear_arith);
            assert((small - big) * w == small * w - big * w) by (nonlinear_arith);
            assert(total == if negative {
                -(x * w)
            } else {
                x * w
            });
            assert(x * w > 0 <==> x > 0) by (nonlinear_arith)
                requires
                    w > 0,
                    x >= 0,
            ;
            assert((x as nat * w) * pow2(0) == 1nat * x as nat * w) by (nonlinear_arith)
                requires
                    pow2(0) == 1,
            ;
            if x == 0 {
                assert(x * w == 0) by (nonlinear_arith)
                    requires
                        x == 0,
                ;
            }
        }
        if x == 0 {
            Binary64::signed_zero(s && t)
        } else {
            crate::number::rounding::round_scaled(
                negative,
                x,
                f as i32,
                false,
                Ghost(x as nat * pow2(f as nat)),
                Ghost(1),
            )
        }
    } else {
        let big: u128 = m as u128 * 0x800;
        let x: u128 = if n != 0 && s != t {
            big - 1
        } else {
            big
        };
        let ghost a = (e - 11) as nat;
        let ghost magnitude: int = if s == t {
            (m as nat * pow2(e as nat) + n as nat * pow2(f as nat)) as int
        } else {
            m as nat * pow2(e as nat) - n as nat * pow2(f as nat)
        };
        proof {
            let w = pow2(a);
            crate::number::powers::lemma_power_sum(11, a);
            crate::number::powers::lemma_power_sum(53, f as nat);
            crate::number::powers::lemma_power_order((f + 53) as nat, a);
            crate::number::powers::lemma_power_order(64, 127);
            assert(m * pow2(e as nat) == big * w) by (nonlinear_arith)
                requires
                    big == m * 0x800,
                    pow2(e as nat) == 0x800 * w,
            ;
            assert(n * pow2(f as nat) < w) by (nonlinear_arith)
                requires
                    n < pow2(53),
                    pow2(53) * pow2(f as nat) <= w,
                    pow2(f as nat) > 0,
            ;
            lemma_zero_units(n, f);
            assert((big - 1) * w == big * w - w) by (nonlinear_arith);
            assert((big + 1) * w == big * w + w) by (nonlinear_arith);
            assert(big * w >= w) by (nonlinear_arith)
                requires
                    big >= 1,
                    w > 0,
            ;
            assert(1nat * x as nat * w == x * w) by (nonlinear_arith);
            assert(1nat * (x as nat + 1) * w == (x + 1) * w) by (nonlinear_arith);
            assert(magnitude * pow2(0) == magnitude) by (nonlinear_arith)
                requires
                    pow2(0) == 1,
            ;
            assert(total == if s {
                -magnitude
            } else {
                magnitude
            });
        }
        crate::number::rounding::round_scaled(
            s,
            x,
            e as i32 - 11,
            n != 0,
            Ghost(magnitude as nat),
            Ghost(1),
        )
    }
}

/// The quotient of `m * 2^e` by `n * 2^f` units.
fn finite_quotient(negative: bool, m: u64, e: u32, n: u64, f: u32) -> (r: Binary64)
    requires
        m < 0x20_0000_0000_0000,
        0 < n < 0x20_0000_0000_0000,
        e <= 2045,
        f <= 2045,
    ensures
        r@ == Datum::nearest(
            negative,
            (m as nat * pow2(e as nat)) * pow2(1074),
            n as nat * pow2(f as nat),
        ),
{
    // Shifted so that the integer quotient has more digits than a significand.
    let length = crate::number::powers::bit_length(m as u128);
    proof {
        crate::number::powers::lemma_small_powers();
        if length > 53 {
            crate::number::powers::lemma_power_order(53, (length - 1) as nat);
        }
    }
    let shift: u32 = 117 - length;
    let p = crate::number::powers::two_to(shift);
    proof {
        crate::number::powers::lemma_power_sum(length as nat, shift as nat);
        crate::number::powers::lemma_power_order(117, 127);
        crate::number::powers::lemma_power_sum(64, 53);
        assert(m * p < pow2(length as nat) * p) by (nonlinear_arith)
            requires
                m < pow2(length as nat),
                p > 0,
        ;
        if m > 0 {
            crate::number::powers::lemma_power_sum((length - 1) as nat, shift as nat);
            crate::number::powers::lemma_power_sum(63, 53);
            assert(pow2((length - 1) as nat) * p <= m * p) by (nonlinear_arith)
                requires
                    m >= pow2((length - 1) as nat),
            ;
        }
    }
    let scaled: u128 = m as u128 * p;
    let x = scaled / n as u128;
    let rest = scaled % n as u128;
    let scale: i32 = e as i32 + 1074 - f as i32 - shift as i32;
    proof {
        lemma_fundamental_div_mod(scaled as int, n as int);
        lemma_zero_units(n, f);
        let (a, b): (nat, nat) = if scale >= 0 {
            (scale as nat, 0)
        } else {
            (0, (-scale) as nat)
        };
        lemma_quotient_bracket(
            m as nat,
            e as nat,
            n as nat,
            f as nat,
            shift as nat,
            x as nat,
            rest as nat,
            a,
            b,
        );
        assert(x <= scaled) by (nonlinear_arith)
            requires
                scaled == n * x + rest,
                n >= 1,
                rest >= 0,
        ;
        if m > 0 {
            crate::number::powers::lemma_power_order(53, 63);
            assert(x >= pow2(63)) by (nonlinear_arith)
                requires
                    scaled == n * x + rest,
                    rest < n,
                    n <= pow2(53),
                    scaled >= pow2(63) * pow2(53),
            ;
        } else {
            assert(scaled == 0) by (nonlinear_arith)
                requires
                    scaled == m * p,
                    m == 0,
            ;
            assert(rest == 0 && x == 0) by (nonlinear_arith)
                requires
                    0 == n * x + rest,
                    n >= 1,
                    rest >= 0,
                    x >= 0,
            ;
        }
    }
    crate::number::rounding::round_scaled(
        negative,
        x,
        scale,
        rest != 0,
        Ghost((m as nat * pow2(e as nat)) * pow2(1074)),
        Ghost(n as nat * pow2(f as nat)),
    )
}

proof fn lemma_quotient_bracket(
    m: nat,
    e: nat,
    n: nat,
    f: nat,
    shift: nat,
    x: nat,
    rest: nat,
    a: nat,
    b: nat,
)
    requires
        e + 1074 + b == f + a + shift,
        m * pow2(shift) == n * x + rest,
        rest < n,
    ensures
        crate::number::rounding::brackets(
            (m * pow2(e)) * pow2(1074),
            n * pow2(f),
            x,
            a,
            b,
            rest != 0,
        ),
{
    crate::number::powers::lemma_power_sum(e, 1074);
    crate::number::powers::lemma_power_sum(e + 1074, b);
    crate::number::powers::lemma_power_sum(f, a);
    crate::number::powers::lemma_power_sum(f + a, shift);
    let w = pow2(f + a);
    let dividend = (m * pow2(e)) * pow2(1074);
    let divisor = n * pow2(f);
    assert(dividend * pow2(b) == m * pow2(e + 1074 + b)) by (nonlinear_arith)
        requires
            dividend == (m * pow2(e)) * pow2(1074),
            pow2(e) * pow2(1074) == pow2(e + 1074),
            pow2(e + 1074) * pow2(b) == pow2(e + 1074 + b),
    ;
    assert(m * pow2(e + 1074 + b) == (n * x + rest) * w) by (nonlinear_arith)
        requires
            pow2(e + 1074 + b) == w * pow2(shift),
            m * pow2(shift) == n * x + rest,
    ;
    assert(divisor * x * pow2(a) == n * x * w) by (nonlinear_arith)
        requires
            divisor == n * pow2(f),
            pow2(f) * pow2(a) == w,
    ;
    assert(divisor * (x + 1) * pow2(a) == n * (x + 1) * w) by (nonlinear_arith)
        requires
            divisor == n * pow2(f),
            pow2(f) * pow2(a) == w,
    ;
    assert((n * x + rest) * w == n * x * w + rest * w) by (nonlinear_arith);
    assert(n * (x + 1) * w == n * x * w + n * w) by (nonlinear_arith);
    assert(rest * w < n * w) by (nonlinear_arith)
        requires
            rest < n,
            w > 0,
    ;
    assert(rest == 0 <==> rest * w == 0) by (nonlinear_arith)
        requires
            w > 0,
    ;
}

proof fn lemma_zero_units(significand: u64, exponent: u32)
    ensures
        significand as nat * pow2(exponent as nat) == 0 <==> significand == 0,
{
    lemma_pow2_pos(exponent as nat);
    assert(significand as nat * pow2(exponent as nat) == 0 <==> significand == 0)
        by (nonlinear_arith)
        requires
            pow2(exponent as nat) > 0,
    ;
}

proof fn lemma_product_bracket(m: nat, e: nat, n: nat, f: nat)
    ensures
        pow2(1074) > 0,
        e + f >= 1074 ==> crate::number::rounding::brackets(
            (m * pow2(e)) * (n * pow2(f)),
            pow2(1074),
            m * n,
            (e + f - 1074) as nat,
            0,
            false,
        ),
        e + f < 1074 ==> crate::number::rounding::brackets(
            (m * pow2(e)) * (n * pow2(f)),
            pow2(1074),
            m * n,
            0,
            (1074 - e - f) as nat,
            false,
        ),
{
    crate::number::powers::lemma_small_powers();
    crate::number::powers::lemma_power_sum(e, f);
    lemma_pow2_pos(1074);
    let product = (m * pow2(e)) * (n * pow2(f));
    assert(product == (m * n) * pow2(e + f)) by (nonlinear_arith)
        requires
            product == (m * pow2(e)) * (n * pow2(f)),
            pow2(e) * pow2(f) == pow2(e + f),
    ;
    if e + f >= 1074 {
        let a = (e + f - 1074) as nat;
        crate::number::powers::lemma_power_sum(1074, a);
        assert(product * pow2(0) == pow2(1074) * (m * n) * pow2(a)) by (nonlinear_arith)
            requires
                product == (m * n) * pow2(e + f),
                pow2(1074) * pow2(a) == pow2(e + f),
                pow2(0) == 1,
        ;
    } else {
        let b = (1074 - e - f) as nat;
        crate::number::powers::lemma_power_sum(e + f, b);
        assert(product * pow2(b) == pow2(1074) * (m * n) * pow2(0)) by (nonlinear_arith)
            requires
                product == (m * n) * pow2(e + f),
                pow2(e + f) * pow2(b) == pow2(1074),
                pow2(0) == 1,
        ;
    }
}

} // verus!
