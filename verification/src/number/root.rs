//! Square roots of integers as binary64 numbers.

use crate::number::binary64::Binary64;
use crate::number::datum::Datum;
use vstd::arithmetic::power2::*;
use vstd::prelude::*;

verus! {

/// The number nearest to a square root is unique.
pub proof fn lemma_root_unique(n: nat, r: Datum)
    requires
        n > 0,
        r.is_root_of(n),
    ensures
        Datum::root(n) == r,
{
    let other = Datum::root(n);
    assert(other.is_root_of(n));
    let (i, l) = choose|j: nat, m: nat|
        {
            &&& j <= 1074
            &&& pow2(104) <= #[trigger] (n * pow2(2 * j)) < pow2(106)
            &&& #[trigger] crate::number::datum::is_nearest_root(n * pow2(2 * j), m)
            &&& other == Datum::Finite { negative: false, units: m * pow2((1074 - j) as nat) }
        };
    let (j, m) = choose|j: nat, m: nat|
        {
            &&& j <= 1074
            &&& pow2(104) <= #[trigger] (n * pow2(2 * j)) < pow2(106)
            &&& #[trigger] crate::number::datum::is_nearest_root(n * pow2(2 * j), m)
            &&& r == Datum::Finite { negative: false, units: m * pow2((1074 - j) as nat) }
        };
    if i < j {
        lemma_scales_apart(n, i, j);
    }
    if j < i {
        lemma_scales_apart(n, j, i);
    }
    if l < m {
        lemma_roots_apart(n * pow2(2 * j), l, m);
    }
    if m < l {
        lemma_roots_apart(n * pow2(2 * j), m, l);
    }
}

proof fn lemma_scales_apart(n: nat, i: nat, j: nat)
    requires
        i < j,
        pow2(104) <= n * pow2(2 * i),
    ensures
        pow2(106) <= n * pow2(2 * j),
{
    crate::number::powers::lemma_small_powers();
    crate::number::powers::lemma_power_sum(2, 104);
    crate::number::powers::lemma_power_sum(2, 2 * i);
    crate::number::powers::lemma_power_order(2 + 2 * i, 2 * j);
    crate::number::powers::lemma_power_sum(1, 1);
    assert(pow2(2) == 4);
    assert(pow2(106) == 4 * pow2(104));
    assert(pow2(2 + 2 * i) == 4 * pow2(2 * i));
    assert(n * (4 * pow2(2 * i)) <= n * pow2(2 * j)) by (nonlinear_arith)
        requires
            4 * pow2(2 * i) <= pow2(2 * j),
    ;
    assert(n * (4 * pow2(2 * i)) == 4 * (n * pow2(2 * i))) by (nonlinear_arith);
}

proof fn lemma_roots_apart(x: nat, l: nat, m: nat)
    requires
        l < m,
        crate::number::datum::is_nearest_root(x, l),
    ensures
        !crate::number::datum::is_nearest_root(x, m),
{
    assert((2 * l + 1) * (2 * l + 1) <= (2 * m - 1) * (2 * m - 1)) by (nonlinear_arith)
        requires
            2 * l + 1 <= 2 * m - 1,
            l >= 0,
    ;
}

/// Out of the integers around a square root, the nearer one.
proof fn lemma_nearest_root(x: nat, r: nat)
    requires
        0 < x,
        r * r <= x < (r + 1) * (r + 1),
    ensures
        x - r * r <= r ==> crate::number::datum::is_nearest_root(x, r),
        x - r * r > r ==> crate::number::datum::is_nearest_root(x, r + 1),
{
    assert((2 * r + 1) * (2 * r + 1) == 4 * (r * r) + 4 * r + 1) by (nonlinear_arith);
    assert((2 * r - 1) * (2 * r - 1) == 4 * (r * r) - 4 * r + 1) by (nonlinear_arith);
    assert((2 * r + 3) * (2 * r + 3) == 4 * ((r + 1) * (r + 1)) + 4 * r + 5) by (nonlinear_arith);
    if r == 0 {
        assert((r + 1) * (r + 1) == 1) by (nonlinear_arith)
            requires
                r == 0,
        ;
    }
    assert(2 * (r + 1) - 1 == 2 * r + 1);
    assert(2 * (r + 1) + 1 == 2 * r + 3);
}

/// Every positive integer has a number of binary digits.
proof fn length_of(n: nat) -> (length: nat)
    requires
        n > 0,
    ensures
        length > 0,
        pow2((length - 1) as nat) <= n < pow2(length),
    decreases n,
{
    crate::number::powers::lemma_small_powers();
    if n == 1 {
        1
    } else {
        let half = length_of(n / 2);
        crate::number::powers::lemma_power_sum(1, half);
        crate::number::powers::lemma_power_sum(1, (half - 1) as nat);
        half + 1
    }
}

/// Every integer has a largest integer whose square is at most it.
proof fn integer_root_of(x: nat) -> (r: nat)
    ensures
        r * r <= x < (r + 1) * (r + 1),
    decreases x,
{
    if x == 0 {
        assert((0nat + 1) * (0nat + 1) == 1) by (nonlinear_arith);
        0
    } else {
        let r = integer_root_of((x - 1) as nat);
        if (r + 1) * (r + 1) <= x {
            let next = r + 1;
            assert(next * next < (next + 1) * (next + 1)) by (nonlinear_arith)
                requires
                    next >= 0,
            ;
            next
        } else {
            r
        }
    }
}

/// Scaled to an even number of binary digits, an integer lies where significands come from.
proof fn lemma_root_scale(n: nat, length: nat)
    requires
        0 < length <= 32,
        pow2((length - 1) as nat) <= n < pow2(length),
    ensures
        pow2(104) <= n * pow2(2 * ((106 - length) / 2) as nat) < pow2(106),
{
    let t = 2 * ((106 - length) / 2) as nat;
    crate::number::powers::lemma_power_sum(length, t);
    crate::number::powers::lemma_power_sum((length - 1) as nat, t);
    crate::number::powers::lemma_power_order(length + t, 106);
    crate::number::powers::lemma_power_order(104, (length - 1 + t) as nat);
    assert(n * pow2(t) < pow2(length) * pow2(t)) by (nonlinear_arith)
        requires
            n < pow2(length),
            pow2(t) > 0,
    ;
    assert(pow2((length - 1) as nat) * pow2(t) <= n * pow2(t)) by (nonlinear_arith)
        requires
            n >= pow2((length - 1) as nat),
    ;
}

/// Every positive integer below `2^32` has a nearest square root, which is a finite number.
pub proof fn lemma_root_exists(n: nat)
    requires
        0 < n <= u32::MAX,
    ensures
        Datum::root(n).is_root_of(n),
        Datum::root(n) matches Datum::Finite { negative, .. } && !negative,
{
    crate::number::powers::lemma_small_powers();
    let length = length_of(n);
    if length > 32 {
        crate::number::powers::lemma_power_order(32, (length - 1) as nat);
    }
    let j = ((106 - length) / 2) as nat;
    let x = n * pow2(2 * j);
    lemma_root_scale(n, length);
    lemma_pow2_pos(104);
    let r = integer_root_of(x);
    lemma_nearest_root(x, r);
    let m = if x - r * r <= r {
        r
    } else {
        r + 1
    };
    let root = Datum::Finite { negative: false, units: m * pow2((1074 - j) as nat) };
    assert(crate::number::datum::is_nearest_root(n * pow2(2 * j), m));
    assert(root.is_root_of(n));
    lemma_root_unique(n, root);
}

/// The largest integer whose square is at most `x`.
fn integer_root(x: u128) -> (r: u128)
    requires
        x < pow2(106),
    ensures
        r * r <= x < (r + 1) * (r + 1),
        r < pow2(53),
{
    proof {
        crate::number::powers::lemma_small_powers();
        crate::number::powers::lemma_power_sum(53, 53);
    }
    let mut r: u128 = 0;
    let mut step: u128 = 0x20_0000_0000_0000;
    while step > 1
        invariant
            exists|i: nat| i <= 53 && step == pow2(i),
            step <= 0x20_0000_0000_0000,
            r + step <= 0x20_0000_0000_0000,
            r * r <= x < (r + step) * (r + step),
        decreases step,
    {
        let half = step / 2;
        proof {
            let i = choose|i: nat| i <= 53 && step == pow2(i);
            crate::number::powers::lemma_small_powers();
            if i == 0 {
                assert(false);
            }
            crate::number::powers::lemma_power_sum(1, (i - 1) as nat);
            assert(half == pow2((i - 1) as nat));
            assert(step == 2 * half);
            assert((r + half) * (r + half) <= 0x20_0000_0000_0000 * 0x20_0000_0000_0000)
                by (nonlinear_arith)
                requires
                    0 <= r + half <= 0x20_0000_0000_0000,
            ;
        }
        let next: u128 = r + half;
        if next * next <= x {
            r = next;
        }
        step = half;
    }
    proof {
        let i = choose|i: nat| i <= 53 && step == pow2(i);
        lemma_pow2_pos(i);
    }
    r
}

impl Binary64 {
    /// The number nearest to the square root of `n`.
    pub fn root_of(n: u32) -> (r: Binary64)
        ensures
            r@ == Datum::root(n as nat),
    {
        if n == 0 {
            return Binary64 { bits: 0 };
        }
        let length = crate::number::powers::bit_length(n as u128);
        proof {
            crate::number::powers::lemma_small_powers();
            if length > 32 {
                crate::number::powers::lemma_power_order(32, (length - 1) as nat);
            }
        }
        let j: u32 = (106 - length) / 2;
        let p = crate::number::powers::two_to(2 * j);
        let ghost x = n as nat * pow2((2 * j) as nat);
        proof {
            lemma_root_scale(n as nat, length as nat);
            crate::number::powers::lemma_power_order(106, 127);
        }
        let scaled: u128 = n as u128 * p;
        let r = integer_root(scaled);
        proof {
            assert(r * r <= 0x20_0000_0000_0000 * 0x20_0000_0000_0000) by (nonlinear_arith)
                requires
                    0 <= r <= 0x20_0000_0000_0000,
            ;
        }
        let m: u64 = if scaled - r * r <= r {
            r as u64
        } else {
            r as u64 + 1
        };
        proof {
            crate::number::powers::lemma_power_sum(52, 52);
            lemma_pow2_pos(104);
            assert(r >= pow2(52)) by (nonlinear_arith)
                requires
                    pow2(52) * pow2(52) < (r + 1) * (r + 1),
                    r >= 0,
                    pow2(52) >= 0,
            ;
            lemma_nearest_root(x, r as nat);
        }
        let result = crate::number::rounding::pack(false, m, 1074 - j);
        proof {
            let k = (1074 - j) as nat;
            crate::number::powers::lemma_power_sum(53, k);
            crate::number::powers::lemma_power_order(53 + k, 2098);
            crate::number::powers::lemma_power_order(53 + k, 2097);
            crate::number::powers::lemma_power_order(2097, 2098);
            assert(m * pow2(k) <= pow2(53) * pow2(k)) by (nonlinear_arith)
                requires
                    m <= pow2(53),
            ;
            assert(result@ == Datum::Finite { negative: false, units: m as nat * pow2(k) });
            assert(n as nat * pow2(2 * j as nat) == x);
            assert(result@.is_root_of(n as nat));
            lemma_root_unique(n as nat, result@);
        }
        result
    }
}

} // verus!
