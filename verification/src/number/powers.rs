//! Powers of two: what the solver needs to know of them, and how to compute with them.

use vstd::arithmetic::power2::*;
use vstd::prelude::*;

verus! {

/// The powers of two that binary64 arithmetic meets, as numerals.
pub proof fn lemma_small_powers()
    ensures
        pow2(0) == 1,
        pow2(1) == 2,
        pow2(11) == 0x800,
        pow2(32) == 0x1_0000_0000,
        pow2(52) == 0x10_0000_0000_0000,
        pow2(53) == 0x20_0000_0000_0000,
        pow2(64) == 0x1_0000_0000_0000_0000,
        pow2(127) == 0x8000_0000_0000_0000_0000_0000_0000_0000,
        pow2(128) == 0x1_0000_0000_0000_0000_0000_0000_0000_0000,
{
    lemma2_to64();
    lemma2_to64_rest();
    lemma_pow2_adds(64, 63);
    lemma_pow2_adds(64, 64);
}

/// `2^a * 2^b == 2^(a + b)`, and both are positive.
pub proof fn lemma_power_sum(a: nat, b: nat)
    ensures
        pow2(a) * pow2(b) == pow2(a + b),
        pow2(a) > 0,
        pow2(b) > 0,
        pow2(a + b) > 0,
{
    lemma_pow2_adds(a, b);
    lemma_pow2_pos(a);
    lemma_pow2_pos(b);
    lemma_pow2_pos(a + b);
}

pub proof fn lemma_power_order(a: nat, b: nat)
    requires
        a <= b,
    ensures
        0 < pow2(a) <= pow2(b),
        a < b ==> 2 * pow2(a) <= pow2(b),
{
    lemma_pow2_pos(a);
    if a < b {
        lemma_pow2_adds(1, a);
        lemma2_to64();
        if a + 1 < b {
            lemma_pow2_strictly_increases(a + 1, b);
        }
    }
}

/// The power `2^t`.
pub fn two_to(t: u32) -> (r: u128)
    requires
        t <= 127,
    ensures
        r == pow2(t as nat),
        r >= 1,
{
    proof {
        lemma_small_powers();
    }
    let mut r: u128 = 1;
    let mut i: u32 = 0;
    while i < t
        invariant
            i <= t <= 127,
            r == pow2(i as nat),
            pow2(127) == 0x8000_0000_0000_0000_0000_0000_0000_0000,
        decreases t - i,
    {
        proof {
            lemma_power_order(i as nat, 127);
            lemma_pow2_unfold((i + 1) as nat);
            lemma_power_order((i + 1) as nat, 127);
        }
        r = r * 2;
        i = i + 1;
    }
    proof {
        lemma_pow2_pos(t as nat);
    }
    r
}

/// The number of binary digits of `n`.
pub fn bit_length(n: u128) -> (length: u32)
    ensures
        length <= 128,
        n < pow2(length as nat),
        n == 0 <==> length == 0,
        n > 0 ==> pow2((length - 1) as nat) <= n,
{
    proof {
        lemma_small_powers();
    }
    let mut r: u128 = n;
    let mut length: u32 = 0;
    while r > 0
        invariant
            length <= 128,
            r * pow2(length as nat) <= n < (r + 1) * pow2(length as nat),
            length > 0 ==> pow2((length - 1) as nat) <= n,
            n == 0 ==> length == 0,
            n > 0 ==> r > 0 || length > 0,
            pow2(128) == 0x1_0000_0000_0000_0000_0000_0000_0000_0000,
        decreases r,
    {
        let half = r / 2;
        proof {
            let p = pow2(length as nat);
            lemma_pow2_pos(length as nat);
            lemma_pow2_unfold((length + 1) as nat);
            assert(p <= r * p) by (nonlinear_arith)
                requires
                    r > 0,
                    p > 0,
            ;
            if length == 128 {
                assert(false);
            }
            assert(half * (2 * p) <= r * p) by (nonlinear_arith)
                requires
                    2 * half <= r,
                    p > 0,
            ;
            assert((r + 1) * p <= (half + 1) * (2 * p)) by (nonlinear_arith)
                requires
                    r + 1 <= 2 * (half + 1),
                    p > 0,
            ;
        }
        r = half;
        length = length + 1;
    }
    assert((r + 1) * pow2(length as nat) == pow2(length as nat)) by (nonlinear_arith)
        requires
            r == 0,
    ;
    length
}

} // verus!
