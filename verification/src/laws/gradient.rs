//! What holds of the Gradient2 calculation and of percentiles.

use crate::number::datum::Datum;
use crate::gradient2::Gradient2Params;
use vstd::arithmetic::div_mod::*;
use vstd::arithmetic::power2::*;
use vstd::prelude::*;

verus! {

/// A number that is zero or more.
pub open spec fn is_nonnegative(x: Datum) -> bool {
    match x {
        Datum::Nan => false,
        Datum::Infinite { negative } => !negative,
        Datum::Finite { negative, .. } => !negative,
    }
}

/// An integer is a finite number that is not negative, and larger integers are not rounded to
/// smaller numbers.
pub proof fn lemma_of_nat(n: nat)
    requires
        n <= u64::MAX,
    ensures
        Datum::of_nat(n) is Finite,
        is_nonnegative(Datum::of_nat(n)),
        n > 0 ==> Datum::of_nat(n)->units >= pow2(1074),
{
    let units = crate::number::monotone::nearest_units(n * pow2(1074), 1);
    crate::number::powers::lemma_small_powers();
    crate::number::powers::lemma_power_sum(64, 1074);
    crate::number::powers::lemma_power_order(1138, 2097);
    crate::number::powers::lemma_power_order(2097, 2098);
    // Bounded by 2^64, which is exact.
    lemma_pow2_pos(1074);
    assert((n * pow2(1074)) * 1 <= (pow2(64) * pow2(1074)) * 1) by (nonlinear_arith)
        requires
            n <= pow2(64),
    ;
    crate::number::monotone::lemma_nearest_units_monotone(
        n * pow2(1074),
        1,
        pow2(64) * pow2(1074),
        1,
    );
    crate::number::exactness::lemma_exact(false, 1, 1138);
    assert(1 * pow2(1138) == pow2(64) * pow2(1074)) by (nonlinear_arith)
        requires
            pow2(64) * pow2(1074) == pow2(1138),
    ;
    if n > 0 {
        crate::number::exactness::lemma_exact_integer(1);
        assert((1 * pow2(1074)) * 1 <= (n * pow2(1074)) * 1) by (nonlinear_arith)
            requires
                n >= 1,
        ;
        crate::number::monotone::lemma_nearest_units_monotone(1 * pow2(1074), 1, n * pow2(1074), 1);
    }
}

/// The gradient is a number that is at least one half and at most `max_gradient`, whatever the
/// round-trip times, as long as the buffer is a number.
pub proof fn law_gradient_in_range(params: Gradient2Params)
    requires
        params.measured(),
        params.computable(),
        params.min_rtt_buffer_pct@ !is Nan,
    ensures
        params.gradient() !is Nan,
        Datum::of_ratio(1, 2).at_most(params.gradient()),
        params.gradient().at_most(params.max_gradient@),
{
    lemma_buffered(params);
    lemma_of_nat(params.sample_rtt_ns as nat);
    lemma_pow2_pos(1074);
}

/// The buffered minRTT is a number.
proof fn lemma_buffered(params: Gradient2Params)
    requires
        params.measured(),
        params.min_rtt_buffer_pct@ !is Nan,
    ensures
        params.buffered_min_rtt() !is Nan,
{
    lemma_of_nat(1);
    lemma_of_nat(params.min_rtt_ns as nat);
    lemma_pow2_pos(1074);
}

/// Without both round-trip times the limit stays as it is.
pub proof fn law_unmeasured_keeps_limit(params: Gradient2Params)
    requires
        !params.measured(),
    ensures
        params.new_limit() == params.current_limit,
        params.gradient() == Datum::of_nat(1),
{
}

/// One half is a positive number.
pub proof fn lemma_half()
    ensures
        Datum::of_ratio(1, 2) == (Datum::Finite { negative: false, units: pow2(1073) }),
        pow2(1073) > 0,
{
    crate::number::powers::lemma_small_powers();
    crate::number::powers::lemma_power_sum(1, 1073);
    crate::number::exactness::lemma_exact(false, 1, 1073);
    crate::number::exactness::lemma_nearest_scale(false, pow2(1073), 1, 2);
    assert(pow2(1073) * 2 == 1 * pow2(1074));
    assert(1 * pow2(1073) == pow2(1073));
}

/// The quotient of a positive number by a larger integer is not larger.
proof fn lemma_quotient_antitone(x: Datum, n: nat, n2: nat)
    requires
        is_nonnegative(x),
        0 < n <= n2 <= u64::MAX,
    ensures
        is_nonnegative(x.over(Datum::of_nat(n))),
        x.over(Datum::of_nat(n2)).at_most(x.over(Datum::of_nat(n))),
{
    lemma_of_nat(n);
    lemma_of_nat(n2);
    lemma_pow2_pos(1074);
    assert((n * pow2(1074)) * 1 <= (n2 * pow2(1074)) * 1) by (nonlinear_arith)
        requires
            n <= n2,
    ;
    crate::number::monotone::lemma_nearest_units_monotone(n * pow2(1074), 1, n2 * pow2(1074), 1);
    if let Datum::Finite { negative, units } = x {
        let v = Datum::of_nat(n)->units;
        let v2 = Datum::of_nat(n2)->units;
        assert((units * pow2(1074)) * v <= (units * pow2(1074)) * v2) by (nonlinear_arith)
            requires
                v <= v2,
        ;
        crate::number::monotone::lemma_nearest_monotone(
            units * pow2(1074),
            v2,
            units * pow2(1074),
            v,
        );
    }
}

/// The limit that a gradient leads to.
pub open spec fn raw_limit(current: nat, gradient: Datum) -> nat {
    Datum::of_nat(current).times(gradient).plus(Datum::root(current)).rounded(u32::MAX as nat)
}

/// A square root is a finite number that is not negative, and the root of a positive integer is
/// at least one.
pub proof fn lemma_root(n: nat)
    requires
        n <= u32::MAX,
    ensures
        Datum::root(n) is Finite,
        is_nonnegative(Datum::root(n)),
        n > 0 ==> Datum::root(n)->Finite_units >= pow2(1074),
{
    if n > 0 {
        crate::number::root::lemma_root_exists(n);
        let (j, m) = choose|j: nat, m: nat|
            {
                &&& j <= 1074
                &&& pow2(104) <= #[trigger] (n * pow2(2 * j)) < pow2(106)
                &&& #[trigger] crate::number::datum::is_nearest_root(n * pow2(2 * j), m)
                &&& Datum::root(n) == Datum::Finite {
                    negative: false,
                    units: m * pow2((1074 - j) as nat),
                }
            };
        let x = n * pow2(2 * j);
        let p = pow2(j);
        crate::number::powers::lemma_power_sum(j, j);
        crate::number::powers::lemma_power_sum(j, (1074 - j) as nat);
        assert(x >= p * p) by (nonlinear_arith)
            requires
                x == n * pow2(2 * j),
                pow2(2 * j) == p * p,
                n >= 1,
        ;
        assert(m >= p) by (nonlinear_arith)
            requires
                4 * x < (2 * m + 1) * (2 * m + 1),
                x >= p * p,
                m >= 0,
                p >= 0,
        ;
        assert(p * pow2((1074 - j) as nat) <= m * pow2((1074 - j) as nat)) by (nonlinear_arith)
            requires
                p <= m,
        ;
    }
}

/// A larger gradient does not lead to a smaller limit.
pub proof fn lemma_raw_limit_monotone(current: nat, x: Datum, y: Datum)
    requires
        current <= u32::MAX,
        is_nonnegative(x),
        is_nonnegative(y),
        x.at_most(y),
    ensures
        raw_limit(current, x) <= raw_limit(current, y),
{
    let c = Datum::of_nat(current);
    let root = Datum::root(current);
    let one = pow2(1074);
    lemma_of_nat(current);
    lemma_root(current);
    lemma_pow2_pos(1074);
    if current == 0 {
        crate::number::powers::lemma_small_powers();
        crate::number::exactness::lemma_exact_integer(0);
        assert(c->units == 0);
        lemma_zero_limit(x);
        lemma_zero_limit(y);
    } else {
        let p = c.times(x);
        let q = c.times(y);
        if y is Finite {
            let v = x->Finite_units;
            let v2 = y->Finite_units;
            let a = c->units * v;
            let a2 = c->units * v2;
            assert(a * one <= a2 * one) by (nonlinear_arith)
                requires
                    a == c->units * v,
                    a2 == c->units * v2,
                    v <= v2,
            ;
            crate::number::monotone::lemma_nearest_monotone(a, one, a2, one);
        }
        assert(p.at_most(q) && is_nonnegative(p) && is_nonnegative(q));
        lemma_sum_monotone(p, q, root);
    }
}

/// With a limit of zero, every gradient leads to zero.
proof fn lemma_zero_limit(x: Datum)
    requires
        is_nonnegative(x),
    ensures
        raw_limit(0, x) == 0,
{
    let one = pow2(1074);
    crate::number::powers::lemma_small_powers();
    lemma_pow2_pos(1074);
    crate::number::exactness::lemma_exact_integer(0);
    assert(0 * pow2(1074) == 0);
    if let Datum::Finite { negative, units } = x {
        crate::number::exactness::lemma_exact(false, 0, 0);
        assert(0 * pow2(0) == 0);
        crate::number::exactness::lemma_nearest_scale(false, 0, 1, one);
        assert(0 * one == 0 && 1 * one == one);
        assert(0 * units == 0);
    }
    assert((2 * 0 + one) / (2 * one) == 0) by {
        lemma_basic_div(one as int, (2 * one) as int);
    }
}

/// Adding the same number to a larger one, and taking the nearest whole number, gives no less.
proof fn lemma_sum_monotone(p: Datum, q: Datum, root: Datum)
    requires
        is_nonnegative(p),
        is_nonnegative(q),
        p.at_most(q),
        root is Finite,
        is_nonnegative(root),
    ensures
        p.plus(root).rounded(u32::MAX as nat) <= q.plus(root).rounded(u32::MAX as nat),
{
    let one = pow2(1074);
    lemma_pow2_pos(1074);
    lemma_nonnegative_sum(p, root);
    lemma_nonnegative_sum(q, root);
    if q is Finite {
        let a = p->Finite_units + root->Finite_units;
        let b = q->Finite_units + root->Finite_units;
        crate::number::monotone::lemma_nearest_monotone(a, 1, b, 1);
        if a == 0 {
            lemma_rounded_monotone(Datum::Finite { negative: false, units: 0 }, q.plus(root));
        } else {
            lemma_rounded_monotone(p.plus(root), q.plus(root));
        }
    } else {
        lemma_rounded_monotone(p.plus(root), q.plus(root));
    }
}

/// A sum of numbers that are not negative is not negative.
proof fn lemma_nonnegative_sum(q: Datum, root: Datum)
    requires
        is_nonnegative(q),
        root is Finite,
        is_nonnegative(root),
    ensures
        is_nonnegative(q.plus(root)),
{
}

/// Taking the nearest whole number keeps order.
pub proof fn lemma_rounded_monotone(x: Datum, y: Datum)
    requires
        is_nonnegative(x),
        is_nonnegative(y),
        x.at_most(y),
    ensures
        x.rounded(u32::MAX as nat) <= y.rounded(u32::MAX as nat),
{
    let one = pow2(1074);
    lemma_pow2_pos(1074);
    if x is Finite && y is Finite {
        lemma_div_is_ordered(
            (2 * x->Finite_units + one) as int,
            (2 * y->Finite_units + one) as int,
            (2 * one) as int,
        );
    }
}

/// Clamping keeps order.
proof fn lemma_clamped_monotone(x: Datum, y: Datum, low: Datum, high: Datum)
    requires
        x.at_most(y),
        low.at_most(high),
    ensures
        x.clamped(low, high).at_most(y.clamped(low, high)),
{
}

/// A negative number is below one half.
proof fn lemma_negative_below_half(x: Datum)
    requires
        x !is Nan,
        !is_nonnegative(x),
    ensures
        x.below(Datum::of_ratio(1, 2)),
{
    lemma_half();
}

/// The quotient of a number that is negative by a positive one is not positive.
proof fn lemma_negative_quotient(x: Datum, n: nat)
    requires
        x !is Nan,
        !is_nonnegative(x),
        0 < n <= u64::MAX,
    ensures
        x.over(Datum::of_nat(n)) !is Nan,
        !is_nonnegative(x.over(Datum::of_nat(n))),
{
    lemma_of_nat(n);
    lemma_pow2_pos(1074);
}

/// Latency that rises does not raise the limit: of two calculations that differ in the sampled
/// round-trip time alone, the one with the longer time has no larger gradient and no larger limit.
pub proof fn law_latency_lowers_limit(params: Gradient2Params, slower: Gradient2Params)
    requires
        params.measured(),
        params.computable(),
        params.min_rtt_buffer_pct@ !is Nan,
        params.sample_rtt_ns <= slower.sample_rtt_ns,
        slower == (Gradient2Params { sample_rtt_ns: slower.sample_rtt_ns, ..params }),
    ensures
        slower.gradient().at_most(params.gradient()),
        slower.new_limit() <= params.new_limit(),
{
    let buffered = params.buffered_min_rtt();
    let half = Datum::of_ratio(1, 2);
    let fast = buffered.over(Datum::of_nat(params.sample_rtt_ns as nat));
    let slow = buffered.over(Datum::of_nat(slower.sample_rtt_ns as nat));
    lemma_buffered(params);
    lemma_half();
    if is_nonnegative(buffered) {
        lemma_quotient_antitone(
            buffered,
            params.sample_rtt_ns as nat,
            slower.sample_rtt_ns as nat,
        );
        lemma_clamped_monotone(slow, fast, half, params.max_gradient@);
    } else {
        lemma_negative_quotient(buffered, params.sample_rtt_ns as nat);
        lemma_negative_quotient(buffered, slower.sample_rtt_ns as nat);
        lemma_negative_below_half(fast);
        lemma_negative_below_half(slow);
    }
    lemma_raw_limit_monotone(params.current_limit as nat, slower.gradient(), params.gradient());
}

/// The gradient that leads to no change but for the headroom.
proof fn lemma_unit_gradient(current: nat)
    requires
        current <= u32::MAX,
    ensures
        Datum::of_nat(current).times(Datum::of_nat(1)) == Datum::of_nat(current),
        Datum::of_nat(1) == (Datum::Finite { negative: false, units: pow2(1074) }),
        Datum::of_nat(current) == (Datum::Finite { negative: false, units: current * pow2(1074) }),
{
    let one = pow2(1074);
    crate::number::powers::lemma_small_powers();
    lemma_pow2_pos(1074);
    crate::number::exactness::lemma_exact_integer(1);
    crate::number::exactness::lemma_exact_integer(current);
    assert(1 * one == one);
    crate::number::exactness::lemma_nearest_scale(false, current * one, 1, one);
    assert(1 * one == one);
}

/// A sampled round-trip time within the buffered minRTT gives a gradient of at least one.
proof fn lemma_good_gradient(params: Gradient2Params)
    requires
        params.measured(),
        params.computable(),
        Datum::of_nat(params.sample_rtt_ns as nat).at_most(params.buffered_min_rtt()),
        Datum::of_nat(1).at_most(params.max_gradient@),
    ensures
        Datum::of_nat(1).at_most(params.gradient()),
        is_nonnegative(params.gradient()),
{
    let one = pow2(1074);
    let sample = Datum::of_nat(params.sample_rtt_ns as nat);
    let buffered = params.buffered_min_rtt();
    lemma_of_nat(params.sample_rtt_ns as nat);
    lemma_unit_gradient(1);
    lemma_pow2_pos(1074);
    lemma_half();
    crate::number::powers::lemma_power_order(1073, 1074);
    if let Datum::Finite { negative, units } = buffered {
        let v = sample->units;
        assert(one * v <= (units * one) * 1) by (nonlinear_arith)
            requires
                v <= units,
        ;
        crate::number::monotone::lemma_nearest_monotone(one, 1, units * one, v);
        assert(1 * one == one);
    }
}

/// A limit grows while latency is good: where the sampled round-trip time is within the buffered
/// minRTT, the gradient is at least one, and the new limit is above the current one, or the
/// ceiling.
pub proof fn law_good_latency_raises_limit(params: Gradient2Params)
    requires
        params.measured(),
        params.computable(),
        params.current_limit > 0,
        Datum::of_nat(params.sample_rtt_ns as nat).at_most(params.buffered_min_rtt()),
        Datum::of_nat(1).at_most(params.max_gradient@),
    ensures
        Datum::of_nat(1).at_most(params.gradient()),
        params.new_limit() > params.current_limit || params.new_limit() == params.max_limit,
{
    let current = params.current_limit as nat;
    let more = current + 1;
    let one = pow2(1074);
    crate::number::powers::lemma_small_powers();
    lemma_pow2_pos(1074);
    lemma_good_gradient(params);
    lemma_unit_gradient(current);
    lemma_raw_limit_monotone(current, Datum::of_nat(1), params.gradient());
    lemma_root(current);
    // current * 1 + sqrt(current) is at least current + 1
    let c = Datum::of_nat(current);
    let total = current * one + Datum::root(current)->Finite_units;
    crate::number::exactness::lemma_exact_integer(more);
    assert(more * one == current * one + one) by (nonlinear_arith)
        requires
            more == current + 1,
    ;
    crate::number::monotone::lemma_nearest_monotone(more * one, 1, total, 1);
    assert(2 * (more * one) + one == more * (2 * one) + one) by (nonlinear_arith);
    lemma_fundamental_div_mod_converse(
        (2 * (more * one) + one) as int,
        (2 * one) as int,
        more as int,
        one as int,
    );
    lemma_rounded_monotone(Datum::of_nat(more), c.plus(Datum::root(current)));
}

/// The square root of a square is exact.
pub proof fn lemma_root_of_square(r: nat)
    requires
        r <= 0xffff,
    ensures
        Datum::root(r * r) == Datum::of_nat(r),
{
    crate::number::powers::lemma_small_powers();
    crate::number::exactness::lemma_exact_integer(r);
    if r > 0 {
        let n = r * r;
        assert(0 < n <= 0xffff * 0xffff) by (nonlinear_arith)
            requires
                0 < r <= 0xffff,
                n == r * r,
        ;
        crate::number::root::lemma_root_exists(n);
        let (j, m) = choose|j: nat, m: nat|
            {
                &&& j <= 1074
                &&& pow2(104) <= #[trigger] (n * pow2(2 * j)) < pow2(106)
                &&& #[trigger] crate::number::datum::is_nearest_root(n * pow2(2 * j), m)
                &&& Datum::root(n) == Datum::Finite {
                    negative: false,
                    units: m * pow2((1074 - j) as nat),
                }
            };
        let x = n * pow2(2 * j);
        let exact = r * pow2(j);
        crate::number::powers::lemma_power_sum(j, j);
        assert(x == exact * exact) by (nonlinear_arith)
            requires
                x == n * pow2(2 * j),
                pow2(j) * pow2(j) == pow2(2 * j),
                n == r * r,
                exact == r * pow2(j),
        ;
        assert(exact == m) by (nonlinear_arith)
            requires
                x == exact * exact,
                (2 * m - 1) * (2 * m - 1) < 4 * x < (2 * m + 1) * (2 * m + 1),
                exact >= 0,
                m >= 0,
        ;
        crate::number::powers::lemma_power_sum(j, (1074 - j) as nat);
        assert(m * pow2((1074 - j) as nat) == r * pow2(1074)) by (nonlinear_arith)
            requires
                m == r * pow2(j),
                pow2(j) * pow2((1074 - j) as nat) == pow2(1074),
        ;
    } else {
        assert(0nat * pow2(1074) == 0);
        assert(r * r == 0) by (nonlinear_arith)
            requires
                r == 0,
        ;
    }
}

/// In steady state a limit grows by its square root: where the sampled round-trip time is the
/// buffered minRTT, the gradient is one, and a limit of `r * r` becomes `r * r + r` within the
/// configured range.
pub proof fn law_steady_state_grows_by_headroom(params: Gradient2Params, r: nat)
    requires
        params.measured(),
        params.computable(),
        params.buffered_min_rtt() == Datum::of_nat(params.sample_rtt_ns as nat),
        Datum::of_nat(1).at_most(params.max_gradient@),
        r <= 0xffff,
        params.current_limit == r * r,
    ensures
        params.gradient() == Datum::of_nat(1),
        params.new_limit() == crate::gradient2::clamped(
            r * r + r,
            params.min_limit as nat,
            params.max_limit as nat,
        ),
{
    let one = pow2(1074);
    let sample = Datum::of_nat(params.sample_rtt_ns as nat);
    crate::number::powers::lemma_small_powers();
    lemma_pow2_pos(1074);
    lemma_of_nat(params.sample_rtt_ns as nat);
    let u = sample->units;
    crate::number::exactness::lemma_nearest_scale(false, one, 1, u);
    assert(one * u == u * one) by (nonlinear_arith);
    assert(1 * u == u && 1 * one == one);
    lemma_half();
    crate::number::powers::lemma_power_order(1073, 1074);
    lemma_unit_gradient(r * r);
    lemma_root_of_square(r);
    crate::number::exactness::lemma_exact_integer(r);
    let total = r * r + r;
    assert(total <= 0xffff * 0xffff + 0xffff) by (nonlinear_arith)
        requires
            0 <= r <= 0xffff,
            total == r * r + r,
    ;
    assert((r * r) * one + r * one == total * one) by (nonlinear_arith)
        requires
            total == r * r + r,
    ;
    crate::number::exactness::lemma_exact_integer(total);
    assert(Datum::of_nat(r * r).plus(Datum::of_nat(r)) == Datum::of_nat(total)) by {
        if total * one == 0 {
            assert(total == 0) by (nonlinear_arith)
                requires
                    total * one == 0,
                    one > 0,
            ;
        }
    }
    assert(2 * (total * one) + one == total * (2 * one) + one) by (nonlinear_arith);
    lemma_fundamental_div_mod_converse(
        (2 * (total * one) + one) as int,
        (2 * one) as int,
        total as int,
        one as int,
    );
}

/// A percentile of sorted samples is one of them: no lower than the first, no higher than the
/// last.
pub proof fn law_percentile_is_a_sample(samples: Seq<u64>, p: Datum)
    requires
        samples.len() > 0,
    ensures
        samples.contains(crate::gradient2::percentile_value(samples, p)),
        (forall|i: int, j: int| 0 <= i <= j < samples.len() ==> samples[i] <= samples[j])
            ==> samples.first() <= crate::gradient2::percentile_value(samples, p) <= samples.last(),
{
    let i = crate::gradient2::percentile_index(samples.len(), p) as int;
    assert(0 <= i < samples.len());
}

/// A higher percentile of sorted samples is no lower.
pub proof fn law_percentile_monotone(samples: Seq<u64>, p: Datum, q: Datum)
    requires
        samples.len() <= u64::MAX,
        forall|i: int, j: int| 0 <= i <= j < samples.len() ==> samples[i] <= samples[j],
        is_nonnegative(p),
        is_nonnegative(q),
        p.at_most(q),
    ensures
        crate::gradient2::percentile_value(samples, p) <= crate::gradient2::percentile_value(
            samples,
            q,
        ),
{
    let n = samples.len();
    let one = pow2(1074);
    if n > 0 {
        let c = Datum::of_nat(n);
        lemma_of_nat(n);
        lemma_pow2_pos(1074);
        let x = p.times(c);
        let y = q.times(c);
        if q is Finite {
            let a = p->Finite_units * c->units;
            let b = q->Finite_units * c->units;
            assert(a * one <= b * one) by (nonlinear_arith)
                requires
                    a == p->Finite_units * c->units,
                    b == q->Finite_units * c->units,
                    p->Finite_units <= q->Finite_units,
            ;
            crate::number::monotone::lemma_nearest_monotone(a, one, b, one);
        }
        if x is Finite && y is Finite {
            lemma_div_is_ordered(
                x->Finite_units + one - 1,
                y->Finite_units + one - 1,
                one as int,
            );
        }
        assert(x.rounded_up(u64::MAX as nat) <= y.rounded_up(u64::MAX as nat));
    }
}

/// The nearest rank at the ends: the percentile 0.0 is the first of the sorted samples, and 1.0
/// is the last.
pub proof fn law_percentile_ends(samples: Seq<u64>)
    requires
        0 < samples.len() <= pow2(53),
    ensures
        crate::gradient2::percentile_value(samples, Datum::of_nat(0)) == samples.first(),
        crate::gradient2::percentile_value(samples, Datum::of_nat(1)) == samples.last(),
{
    let n = samples.len();
    let one = pow2(1074);
    crate::number::powers::lemma_small_powers();
    lemma_pow2_pos(1074);
    crate::number::exactness::lemma_exact_integer(n);
    crate::number::exactness::lemma_exact_integer(0);
    crate::number::exactness::lemma_exact_integer(1);
    assert(0nat * one == 0 && 1 * one == one);
    // 0.0 * n
    assert(0nat * (n * one) == 0);
    crate::number::exactness::lemma_exact(false, 0, 0);
    assert(0nat * pow2(0) == 0);
    crate::number::exactness::lemma_nearest_scale(false, 0, 1, one);
    lemma_basic_div(one - 1, one as int);
    // 1.0 * n
    crate::number::exactness::lemma_nearest_scale(false, n * one, 1, one);
    assert(one * (n * one) == (n * one) * one) by (nonlinear_arith);
    lemma_fundamental_div_mod_converse(
        n * one + one - 1,
        one as int,
        n as int,
        one - 1,
    );
}

} // verus!
