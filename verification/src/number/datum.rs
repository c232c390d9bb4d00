//! The numbers that binary64 arithmetic works on, as mathematical values.
//!
//! Every finite binary64 number is a whole multiple of the smallest positive
//! one, 2^-1074. That number is the unit here: a finite number is a sign and a
//! natural number of units, and the number one is `2^1074` units.

use vstd::arithmetic::power2::*;
use vstd::prelude::*;

verus! {

/// What a binary64 floating-point number stands for.
///
/// Zero keeps its sign, as the two zeros of the format do. All the encodings of
/// "not a number" stand for the one value `Nan`.
pub enum Datum {
    Nan,
    Infinite { negative: bool },
    Finite { negative: bool, units: nat },
}

/// The natural number nearest to `n / d`, the even one of two that are equally near.
pub open spec fn half_even(n: nat, d: nat) -> nat {
    let q = n / d;
    let r = n % d;
    if 2 * r < d || (2 * r == d && q % 2 == 0) {
        q
    } else {
        q + 1
    }
}

/// Whether neighbouring binary64 numbers around `n / d` units are `2^k` units apart.
pub open spec fn is_quantum(n: nat, d: nat, k: nat) -> bool {
    &&& n < d * pow2(k + 53)
    &&& k == 0 || d * pow2((k + 52) as nat) <= n
}

/// The exponent of the distance between neighbouring binary64 numbers around `n / d` units.
pub open spec fn quantum(n: nat, d: nat) -> nat {
    choose|k: nat| is_quantum(n, d, k)
}

/// Whether `m` is the natural number nearest to the square root of `x`.
pub open spec fn is_nearest_root(x: nat, m: nat) -> bool {
    (2 * m - 1) * (2 * m - 1) < 4 * x < (2 * m + 1) * (2 * m + 1)
}

/// How many whole ones there are in `count` and a half times a number of units. The half keeps
/// counts away from the places where the rounding of the number would decide.
pub open spec fn whole_share(count: nat, units: nat) -> nat {
    ((2 * count + 1) * units) / (2 * pow2(1074))
}

impl Datum {
    /// The binary64 number nearest to `n / d` units with the given sign: ties go to the even
    /// significand, and what exceeds the largest finite number becomes infinite.
    pub open spec fn nearest(negative: bool, n: nat, d: nat) -> Datum {
        let k = quantum(n, d);
        let units = half_even(n, d * pow2(k)) * pow2(k);
        if units < pow2(2098) {
            Datum::Finite { negative, units }
        } else {
            Datum::Infinite { negative }
        }
    }

    /// The binary64 number nearest to the fraction `n / d`.
    pub open spec fn of_ratio(n: nat, d: nat) -> Datum {
        Datum::nearest(false, n * pow2(1074), d)
    }

    /// The binary64 number nearest to `n`.
    pub open spec fn of_nat(n: nat) -> Datum {
        Datum::of_ratio(n, 1)
    }

    /// The binary64 number nearest to the square root of `n`, for a positive `n` below `2^32`.
    pub open spec fn is_root_of(self, n: nat) -> bool {
        exists|j: nat, m: nat|
            {
                &&& j <= 1074
                &&& pow2(104) <= #[trigger] (n * pow2(2 * j)) < pow2(106)
                &&& #[trigger] is_nearest_root(n * pow2(2 * j), m)
                &&& self == Datum::Finite { negative: false, units: m * pow2((1074 - j) as nat) }
            }
    }

    /// The square root of `n`, rounded to the nearest binary64 number.
    pub open spec fn root(n: nat) -> Datum {
        if n == 0 {
            Datum::Finite { negative: false, units: 0 }
        } else {
            choose|r: Datum| r.is_root_of(n)
        }
    }

    /// The signed number of units of a finite number.
    pub open spec fn signed_units(self) -> int {
        match self {
            Datum::Finite { negative, units } => if negative {
                -(units as int)
            } else {
                units as int
            },
            _ => 0,
        }
    }

    /// The sum, rounded to the nearest binary64 number.
    pub open spec fn plus(self, other: Datum) -> Datum {
        match (self, other) {
            (Datum::Nan, _) => Datum::Nan,
            (_, Datum::Nan) => Datum::Nan,
            (Datum::Infinite { negative: s }, Datum::Infinite { negative: t }) => if s == t {
                self
            } else {
                Datum::Nan
            },
            (Datum::Infinite { .. }, _) => self,
            (_, Datum::Infinite { .. }) => other,
            (Datum::Finite { negative: s, .. }, Datum::Finite { negative: t, .. }) => {
                let total = self.signed_units() + other.signed_units();
                if total == 0 {
                    Datum::Finite { negative: s && t, units: 0 }
                } else if total < 0 {
                    Datum::nearest(true, (-total) as nat, 1)
                } else {
                    Datum::nearest(false, total as nat, 1)
                }
            },
        }
    }

    /// The product, rounded to the nearest binary64 number.
    pub open spec fn times(self, other: Datum) -> Datum {
        match (self, other) {
            (Datum::Nan, _) => Datum::Nan,
            (_, Datum::Nan) => Datum::Nan,
            (Datum::Infinite { negative: s }, Datum::Infinite { negative: t }) => Datum::Infinite {
                negative: s != t,
            },
            (
                Datum::Infinite { negative: s },
                Datum::Finite { negative: t, units },
            ) => if units == 0 {
                Datum::Nan
            } else {
                Datum::Infinite { negative: s != t }
            },
            (
                Datum::Finite { negative: s, units },
                Datum::Infinite { negative: t },
            ) => if units == 0 {
                Datum::Nan
            } else {
                Datum::Infinite { negative: s != t }
            },
            (
                Datum::Finite { negative: s, units: u },
                Datum::Finite { negative: t, units: v },
            ) => Datum::nearest(s != t, u * v, pow2(1074)),
        }
    }

    /// The quotient, rounded to the nearest binary64 number.
    pub open spec fn over(self, other: Datum) -> Datum {
        match (self, other) {
            (Datum::Nan, _) => Datum::Nan,
            (_, Datum::Nan) => Datum::Nan,
            (Datum::Infinite { .. }, Datum::Infinite { .. }) => Datum::Nan,
            (
                Datum::Infinite { negative: s },
                Datum::Finite { negative: t, .. },
            ) => Datum::Infinite { negative: s != t },
            (Datum::Finite { negative: s, .. }, Datum::Infinite { negative: t }) => Datum::Finite {
                negative: s != t,
                units: 0,
            },
            (
                Datum::Finite { negative: s, units: u },
                Datum::Finite { negative: t, units: v },
            ) => if v == 0 {
                if u == 0 {
                    Datum::Nan
                } else {
                    Datum::Infinite { negative: s != t }
                }
            } else {
                Datum::nearest(s != t, u * pow2(1074), v)
            },
        }
    }

    /// Whether this number is smaller than the other; false where either is not a number.
    pub open spec fn below(self, other: Datum) -> bool {
        match (self, other) {
            (Datum::Nan, _) => false,
            (_, Datum::Nan) => false,
            (Datum::Infinite { negative: s }, Datum::Infinite { negative: t }) => s && !t,
            (Datum::Infinite { negative: s }, _) => s,
            (_, Datum::Infinite { negative: t }) => !t,
            _ => self.signed_units() < other.signed_units(),
        }
    }

    /// Whether this number is at most the other; false where either is not a number.
    pub open spec fn at_most(self, other: Datum) -> bool {
        self !is Nan && other !is Nan && !other.below(self)
    }

    /// This number, moved to the nearer end where it lies outside `low..=high`.
    pub open spec fn clamped(self, low: Datum, high: Datum) -> Datum {
        if self.below(low) {
            low
        } else if high.below(self) {
            high
        } else {
            self
        }
    }

    /// The whole number that `round` makes of the units of this number, held inside `0..=max`:
    /// a negative number and "not a number" give zero.
    pub open spec fn to_nat(self, max: nat, round: spec_fn(nat) -> nat) -> nat {
        match self {
            Datum::Nan => 0,
            Datum::Infinite { negative } => if negative {
                0
            } else {
                max
            },
            Datum::Finite { negative, units } => if negative {
                0
            } else if round(units) <= max {
                round(units)
            } else {
                max
            },
        }
    }

    /// The whole part, held inside `0..=max`.
    pub open spec fn truncated(self, max: nat) -> nat {
        self.to_nat(max, |units: nat| units / pow2(1074))
    }

    /// The least whole number that is not smaller, held inside `0..=max`.
    pub open spec fn rounded_up(self, max: nat) -> nat {
        self.to_nat(max, |units: nat| ((units + pow2(1074) - 1) / (pow2(1074) as int)) as nat)
    }

    /// The nearest whole number, halves going up, held inside `0..=max`.
    pub open spec fn rounded(self, max: nat) -> nat {
        self.to_nat(max, |units: nat| (2 * units + pow2(1074)) / (2 * pow2(1074)))
    }
}

} // verus!
