//! How many requests load shedding rejects.

use crate::number::binary64::Binary64;
use crate::number::datum::Datum;
use crate::shared_state::SharedView;
use vstd::arithmetic::div_mod::*;
use vstd::arithmetic::power2::*;
use vstd::prelude::*;

verus! {

/// How many of the next `n` requests are shed.
pub open spec fn shed_count(shared: SharedView, n: nat) -> nat
    decreases n,
{
    if n == 0 {
        0
    } else {
        let first: nat = if shared.sheds_next() {
            1
        } else {
            0
        };
        first + shed_count(shared.after_shed_decision(), (n - 1) as nat)
    }
}

/// The units of a fraction above zero and up to one.
proof fn lemma_fraction_units(fraction: Datum)
    requires
        crate::shared_state::zero().below(fraction),
        fraction.at_most(Datum::of_nat(1)),
    ensures
        fraction is Finite,
        !fraction->Finite_negative,
        0 < fraction->Finite_units <= pow2(1074),
        !fraction.at_most(crate::shared_state::zero()),
{
    crate::number::powers::lemma_small_powers();
    crate::number::exactness::lemma_exact_integer(1);
    assert(1 * pow2(1074) == pow2(1074));
}

/// As long as the request counter does not start over, the number of requests shed is a
/// difference of shares.
proof fn lemma_shed_count(shared: SharedView, n: nat)
    requires
        crate::shared_state::zero().below(shared.shed_fraction),
        shared.shed_fraction.at_most(Datum::of_nat(1)),
        shared.request_counter + n <= 0x1_0000_0000_0000_0000,
    ensures
        shed_count(shared, n) == crate::number::datum::whole_share(
            shared.request_counter as nat + n,
            shared.shed_fraction->Finite_units,
        ) - crate::number::datum::whole_share(
            shared.request_counter as nat,
            shared.shed_fraction->Finite_units,
        ),
    decreases n,
{
    lemma_fraction_units(shared.shed_fraction);
    if n > 0 {
        let c = shared.request_counter as nat;
        let next = shared.after_shed_decision();
        crate::number::whole::lemma_share_step(c, shared.shed_fraction->Finite_units);
        if n > 1 {
            lemma_small_mod(c + 1, 0x1_0000_0000_0000_0000);
            lemma_shed_count(next, (n - 1) as nat);
        } else {
            assert(shed_count(next, 0) == 0);
        }
    }
}

/// Nothing is shed while the shed fraction is zero.
pub proof fn law_zero_fraction_sheds_nothing(shared: SharedView, n: nat)
    requires
        shared.shed_fraction.at_most(crate::shared_state::zero()),
    ensures
        shed_count(shared, n) == 0,
    decreases n,
{
    if n > 0 {
        law_zero_fraction_sheds_nothing(shared.after_shed_decision(), (n - 1) as nat);
    }
}

/// What a share leaves over.
proof fn lemma_share_rest(count: nat, units: nat) -> (rest: int)
    ensures
        0 <= rest < 2 * pow2(1074),
        (2 * pow2(1074)) * crate::number::datum::whole_share(count, units) == (2 * count + 1)
            * units - rest,
{
    let two = 2 * pow2(1074) as int;
    let a = ((2 * count + 1) * units) as int;
    lemma_pow2_pos(1074);
    lemma_fundamental_div_mod(a, two);
    lemma_mod_bound(a, two);
    a % two
}

/// The shed rate is the shed fraction: of any `n` requests in a row, `n` times the fraction are
/// shed, to within one, as long as the request counter does not start over.
pub proof fn law_shed_rate(shared: SharedView, n: nat)
    requires
        crate::shared_state::zero().below(shared.shed_fraction),
        shared.shed_fraction.at_most(Datum::of_nat(1)),
        shared.request_counter + n <= 0x1_0000_0000_0000_0000,
    ensures
        ({
            let units = shared.shed_fraction->Finite_units;
            let one = pow2(1074);
            &&& shared.shed_fraction == Datum::Finite { negative: false, units }
            &&& shed_count(shared, n) * one < n * units + one
            &&& n * units < shed_count(shared, n) * one + one
        }),
{
    let one = pow2(1074) as int;
    let u = shared.shed_fraction->Finite_units;
    let c = shared.request_counter as nat;
    lemma_fraction_units(shared.shed_fraction);
    lemma_shed_count(shared, n);
    lemma_share_rest(c, u);
    lemma_share_rest(c + n, u);
    let late = crate::number::datum::whole_share(c + n, u) as int;
    let early = crate::number::datum::whole_share(c, u) as int;
    assert((2 * (c + n) + 1) * u == (2 * c + 1) * u + 2 * (n * u)) by (nonlinear_arith);
    let count = shed_count(shared, n) as int;
    assert(2 * (count * one) == (2 * one) * late - (2 * one) * early) by (nonlinear_arith)
        requires
            count == late - early,
    ;
}

/// The number of requests shed, however often the request counter starts over.
proof fn lemma_shed_count_in_rounds(shared: SharedView, n: nat)
    requires
        crate::shared_state::zero().below(shared.shed_fraction),
        shared.shed_fraction.at_most(Datum::of_nat(1)),
    ensures
        ({
            let u = shared.shed_fraction->Finite_units;
            let c = shared.request_counter as nat;
            let round = 0x1_0000_0000_0000_0000nat;
            shed_count(shared, n) == ((c + n) / round) * crate::number::datum::whole_share(
                round,
                u,
            ) + crate::number::datum::whole_share((c + n) % round, u)
                - crate::number::datum::whole_share(c, u)
        }),
    decreases n,
{
    let u = shared.shed_fraction->Finite_units;
    let c = shared.request_counter as nat;
    let round = 0x1_0000_0000_0000_0000nat;
    let full = crate::number::datum::whole_share(round, u);
    lemma_fraction_units(shared.shed_fraction);
    if n == 0 {
        lemma_small_mod(c, round);
        lemma_basic_div(c as int, round as int);
        assert(0 * full == 0);
    } else {
        let next = shared.after_shed_decision();
        crate::number::whole::lemma_share_step(c, u);
        lemma_shed_count_in_rounds(next, (n - 1) as nat);
        if c + 1 < round {
            lemma_small_mod(c + 1, round);
            assert(next.request_counter as nat + (n - 1) as nat == c + n);
        } else {
            let more = (n - 1) as nat;
            assert(next.request_counter == 0);
            assert(c + n == round + more);
            assert((c + n) / round == more / round + 1);
            assert((c + n) % round == more % round);
            let rounds = more / round;
            assert((rounds + 1) * full == rounds * full + full) by (nonlinear_arith);
            assert((2 * 0 + 1) * u == u) by (nonlinear_arith);
            lemma_basic_div(u as int, 2 * pow2(1074) as int);
        }
    }
}

/// The distance between the number of requests shed and `n` times the fraction.
proof fn lemma_shed_error(shared: SharedView, n: nat) -> (r: (int, int))
    requires
        crate::shared_state::zero().below(shared.shed_fraction),
        shared.shed_fraction.at_most(Datum::of_nat(1)),
    ensures
        ({
            let u = shared.shed_fraction->Finite_units;
            let one = pow2(1074);
            let (rest, ends) = r;
            &&& 0 <= rest < 2 * one
            &&& (2 * one) * crate::number::datum::whole_share(0x1_0000_0000_0000_0000, u) == (2
                * 0x1_0000_0000_0000_0000 + 1) * u - rest
            &&& -2 * one < ends < 2 * one
            &&& 2 * (shed_count(shared, n) * one) == 2 * (n * u) + ((shared.request_counter + n)
                / 0x1_0000_0000_0000_0000) * (u - rest) + ends
        }),
{
    let u = shared.shed_fraction->Finite_units;
    let one = pow2(1074) as int;
    let c = shared.request_counter as nat;
    let round = 0x1_0000_0000_0000_0000nat;
    let w = ((c + n) / round) as int;
    let last = (c + n) % round;
    lemma_fraction_units(shared.shed_fraction);
    lemma_shed_count_in_rounds(shared, n);
    let rest = lemma_share_rest(round, u);
    let rest_last = lemma_share_rest(last, u);
    let rest_first = lemma_share_rest(c, u);
    let full = crate::number::datum::whole_share(round, u) as int;
    let s = crate::number::datum::whole_share(last, u) as int;
    let f = crate::number::datum::whole_share(c, u) as int;
    let count = shed_count(shared, n) as int;
    lemma_fundamental_div_mod((c + n) as int, round as int);
    assert(2 * (count * one) == w * ((2 * one) * full) + (2 * one) * s - (2 * one) * f)
        by (nonlinear_arith)
        requires
            count == w * full + s - f,
    ;
    assert(w * ((2 * round + 1) * u - rest) == 2 * ((w * round) * u) + w * (u - rest))
        by (nonlinear_arith);
    assert((2 * last + 1) * u == 2 * (last * u) + u) by (nonlinear_arith);
    assert((2 * c + 1) * u == 2 * (c * u) + u) by (nonlinear_arith);
    assert((w * round) * u + last * u == c * u + n * u) by (nonlinear_arith)
        requires
            c + n == round * w + last,
    ;
    (rest, rest_first - rest_last)
}

/// The shed rate is the shed fraction in the long run: however many requests come, `n` times the
/// fraction are shed, to within one, and one more for each time that the request counter started
/// over.
pub proof fn law_shed_rate_in_the_long_run(shared: SharedView, n: nat)
    requires
        crate::shared_state::zero().below(shared.shed_fraction),
        shared.shed_fraction.at_most(Datum::of_nat(1)),
    ensures
        ({
            let units = shared.shed_fraction->Finite_units;
            let one = pow2(1074);
            let rounds = (shared.request_counter + n) / 0x1_0000_0000_0000_0000;
            crate::number::monotone::distance(shed_count(shared, n) * one, n * units) < (rounds + 1)
                * one
        }),
{
    let u = shared.shed_fraction->Finite_units as int;
    let one = pow2(1074) as int;
    let w = (shared.request_counter + n) / 0x1_0000_0000_0000_0000;
    lemma_fraction_units(shared.shed_fraction);
    let (rest, ends) = lemma_shed_error(shared, n);
    assert(-(2 * (w * one)) <= w * (u - rest) <= 2 * (w * one)) by (nonlinear_arith)
        requires
            w >= 0,
            0 <= u <= one,
            0 <= rest <= 2 * one,
    ;
    assert((w + 1) * one == w * one + one) by (nonlinear_arith);
}

/// The shed rate converges exactly to the shed fraction, however often the request counter starts
/// over, where the fraction is a multiple of `2^-64`: the counter has no more states than that.
/// `n` times the fraction are shed, to within one, so that from `k` requests on the rate is within
/// one in `k` of the fraction.
pub proof fn law_shed_rate_converges(shared: SharedView, n: nat, k: nat)
    requires
        crate::shared_state::zero().below(shared.shed_fraction),
        shared.shed_fraction.at_most(Datum::of_nat(1)),
        is_multiple(shared.shed_fraction),
        0 < k <= n,
    ensures
        ({
            let units = shared.shed_fraction->Finite_units;
            let one = pow2(1074);
            let error = crate::number::monotone::distance(
                shed_count(shared, n) * one,
                n * units,
            );
            &&& error < one
            &&& k * error < n * one
        }),
{
    let u = shared.shed_fraction->Finite_units;
    let one = pow2(1074) as int;
    let round = 0x1_0000_0000_0000_0000nat;
    let w = (shared.request_counter + n) / 0x1_0000_0000_0000_0000;
    lemma_fraction_units(shared.shed_fraction);
    let (rest, ends) = lemma_shed_error(shared, n);
    let times = ((u * round) as int) / one;
    lemma_fundamental_div_mod((u * round) as int, one);
    assert((2 * round + 1) * u == times * (2 * one) + u) by (nonlinear_arith)
        requires
            u * round == one * times,
    ;
    lemma_fundamental_div_mod_converse(
        ((2 * round + 1) * u) as int,
        2 * one,
        times,
        u as int,
    );
    assert(times * (2 * one) == (2 * one) * times) by (nonlinear_arith);
    assert(rest == u);
    assert(w * (u - rest) == 0) by (nonlinear_arith)
        requires
            u == rest,
    ;
    let error = crate::number::monotone::distance(shed_count(shared, n) * pow2(1074), n * u) as int;
    assert(error < one);
    assert(k * error < n * one) by (nonlinear_arith)
        requires
            0 < k <= n,
            0 <= error < one,
    ;
}

/// Whether a number is a multiple of `2^-64`.
pub open spec fn is_multiple(x: Datum) -> bool {
    (x->Finite_units * 0x1_0000_0000_0000_0000) as int % (pow2(1074) as int) == 0
}

/// Every number from `2^-12` on is a multiple of `2^-64`.
pub proof fn law_common_fractions_are_multiples(x: Binary64)
    requires
        x@ is Finite,
        x@->Finite_units >= pow2(1062),
    ensures
        is_multiple(x@),
{
    let exponent = ((x.bits / 0x10_0000_0000_0000) % 0x800) as int;
    let m = if exponent == 0 {
        (x.bits % 0x10_0000_0000_0000) as nat
    } else {
        (0x10_0000_0000_0000 + x.bits % 0x10_0000_0000_0000) as nat
    };
    let e = if exponent == 0 {
        0nat
    } else {
        (exponent - 1) as nat
    };
    crate::number::powers::lemma_small_powers();
    assert(m * pow2(0) == m) by (nonlinear_arith)
        requires
            pow2(0) == 1,
    ;
    assert(x@->Finite_units == m * pow2(e));
    if e < 1010 {
        crate::number::powers::lemma_power_sum(53, e);
        crate::number::powers::lemma_power_order(53 + e, 1062);
        assert(m * pow2(e) < pow2(53) * pow2(e)) by (nonlinear_arith)
            requires
                m < pow2(53),
                pow2(e) > 0,
        ;
    }
    let k = (e - 1010) as nat;
    crate::number::powers::lemma_power_sum(1010, k);
    crate::number::powers::lemma_power_sum(1010, 64);
    assert((m * pow2(e)) * pow2(64) == (m * pow2(k)) * pow2(1074)) by (nonlinear_arith)
        requires
            pow2(e) == pow2(1010) * pow2(k),
            pow2(1074) == pow2(1010) * pow2(64),
    ;
    lemma_fundamental_div_mod_converse(
        ((m * pow2(e)) * pow2(64)) as int,
        pow2(1074) as int,
        (m * pow2(k)) as int,
        0,
    );
}

/// Shedding is regular: requests in a row that are worth at most one request to shed never lose
/// two, and those worth at least one never lose none.
pub proof fn law_shedding_is_regular(shared: SharedView, n: nat)
    requires
        crate::shared_state::zero().below(shared.shed_fraction),
        shared.shed_fraction.at_most(Datum::of_nat(1)),
        shared.request_counter + n <= 0x1_0000_0000_0000_0000,
    ensures
        n * shared.shed_fraction->Finite_units <= pow2(1074) ==> shed_count(shared, n) <= 1,
        n * shared.shed_fraction->Finite_units >= pow2(1074) ==> shed_count(shared, n) >= 1,
{
    let one = pow2(1074) as int;
    let count = shed_count(shared, n) as int;
    law_shed_rate(shared, n);
    lemma_pow2_pos(1074);
    if count >= 2 {
        assert(count * one >= 2 * one) by (nonlinear_arith)
            requires
                count >= 2,
                one > 0,
        ;
    }
    if count == 0 {
        assert(count * one == 0) by (nonlinear_arith)
            requires
                count == 0,
        ;
    }
}

/// A fraction that is not below one, or no number, sheds every request.
pub proof fn law_full_fraction_sheds_all(shared: SharedView)
    requires
        !shared.shed_fraction.below(Datum::of_nat(1)),
    ensures
        shared.sheds_next(),
{
    crate::number::powers::lemma_small_powers();
    crate::number::exactness::lemma_exact_integer(1);
    assert(1 * pow2(1074) == pow2(1074));
    lemma_pow2_pos(1074);
    if let Datum::Finite { units, .. } = shared.shed_fraction {
        crate::number::whole::lemma_share_step(shared.request_counter as nat, units);
    }
}

/// The shed fraction that goes with `overloaded` out of `total` hosts.
pub open spec fn fraction_of(overloaded: nat, total: nat) -> Datum {
    Datum::of_nat(overloaded).over(Datum::of_nat(total))
}

/// The fraction does not see a common factor, and is the number nearest to the quotient.
proof fn lemma_fraction(overloaded: nat, total: nat)
    requires
        0 < overloaded <= total <= u32::MAX,
    ensures
        fraction_of(overloaded, total) == Datum::of_ratio(overloaded, total),
{
    let one = pow2(1074);
    crate::number::powers::lemma_small_powers();
    lemma_pow2_pos(1074);
    crate::number::exactness::lemma_exact_integer(overloaded);
    crate::number::exactness::lemma_exact_integer(total);
    assert(total * one > 0) by (nonlinear_arith)
        requires
            total > 0,
            one > 0,
    ;
    crate::number::exactness::lemma_nearest_scale(false, overloaded * one, total, one);
}

/// The shed fraction lies between zero and one, and is one exactly where every host is
/// overloaded.
pub proof fn law_shed_fraction_in_range(overloaded: nat, total: nat)
    requires
        0 < overloaded <= total <= u32::MAX,
    ensures
        crate::shared_state::zero().below(fraction_of(overloaded, total)),
        fraction_of(overloaded, total).at_most(Datum::of_nat(1)),
        fraction_of(overloaded, total) == Datum::of_nat(1) <==> overloaded == total,
{
    let one = pow2(1074);
    lemma_pow2_pos(1074);
    crate::number::powers::lemma_small_powers();
    lemma_fraction(overloaded, total);
    crate::number::exactness::lemma_exact_integer(1);
    assert(1 * one == one);
    // At most one.
    assert((overloaded * one) * 1 <= one * total) by (nonlinear_arith)
        requires
            overloaded <= total,
    ;
    crate::number::monotone::lemma_nearest_monotone(overloaded * one, total, one, 1);
    // At least 2^-32.
    crate::number::powers::lemma_power_sum(32, 1042);
    crate::number::exactness::lemma_exact(false, 1, 1042);
    assert(1 * pow2(1042) == pow2(1042));
    lemma_pow2_pos(1042);
    assert(pow2(1042) * total <= (overloaded * one) * 1) by (nonlinear_arith)
        requires
            total <= pow2(32),
            pow2(32) * pow2(1042) == one,
            1 <= overloaded,
            pow2(1042) >= 0,
    ;
    crate::number::monotone::lemma_nearest_monotone(pow2(1042), 1, overloaded * one, total);
    if overloaded == total {
        crate::number::exactness::lemma_nearest_scale(false, one, 1, total);
        assert(one * total == total * one) by (nonlinear_arith);
        assert(1 * total == total);
    } else {
        // At most 1 - 2^-32, which is exact.
        let m = (pow2(32) - 1) as nat;
        crate::number::exactness::lemma_exact(false, m, 1042);
        assert((overloaded * one) * 1 <= (m * pow2(1042)) * total) by (nonlinear_arith)
            requires
                overloaded + 1 <= total,
                total <= pow2(32),
                m == pow2(32) - 1,
                pow2(32) * pow2(1042) == one,
                pow2(1042) > 0,
        ;
        crate::number::monotone::lemma_nearest_monotone(overloaded * one, total, m * pow2(1042), 1);
        assert(m * pow2(1042) == one - pow2(1042)) by (nonlinear_arith)
            requires
                m == pow2(32) - 1,
                pow2(32) * pow2(1042) == one,
        ;
    }
}

/// How far rounding moves a quotient: not by more than `2^-53` of it, where it is not tiny.
proof fn lemma_relative_error(n: nat, d: nat)
    requires
        d > 0,
        n >= d * pow2(53),
    ensures
        ({
            let u = crate::number::monotone::nearest_units(n, d);
            crate::number::monotone::distance(u * d, n) * pow2(53) <= n
        }),
{
    let k = crate::number::datum::quantum(n, d);
    let u = crate::number::monotone::nearest_units(n, d);
    let step = d * pow2(k);
    let m = crate::number::datum::half_even(n, step);
    crate::number::exactness::lemma_quantum_exists(n, d);
    lemma_pow2_pos(k);
    if k == 0 {
        assert(false);
    }
    assert(step > 0) by (nonlinear_arith)
        requires
            d > 0,
            pow2(k) > 0,
            step == d * pow2(k),
    ;
    crate::number::monotone::lemma_half_even_error(n, step);
    assert(u * d == m * step) by (nonlinear_arith)
        requires
            u == m * pow2(k),
            step == d * pow2(k),
    ;
    crate::number::powers::lemma_power_sum(52, k);
    crate::number::powers::lemma_power_sum(1, 52);
    crate::number::powers::lemma_small_powers();
    let gap = crate::number::monotone::distance(u * d, n);
    assert(2 * gap <= step);
    assert(step * pow2(52) <= n) by (nonlinear_arith)
        requires
            step == d * pow2(k),
            pow2(52) * pow2(k) == pow2((k + 52) as nat),
            d * pow2((k + 52) as nat) <= n,
    ;
    assert(gap * pow2(53) <= n) by (nonlinear_arith)
        requires
            2 * gap <= step,
            step * pow2(52) <= n,
            pow2(53) == 2 * pow2(52),
            pow2(52) >= 0,
    ;
}

/// From a relative error to bounds.
proof fn lemma_error_bounds(u: nat, d: nat, n: nat, e: nat)
    requires
        crate::number::monotone::distance(u * d, n) * e <= n,
    ensures
        (e - 1) * n <= e * (u * d) <= (e + 1) * n,
{
    let gap = crate::number::monotone::distance(u * d, n);
    assert(e * (u * d) <= e * n + gap * e) by (nonlinear_arith)
        requires
            u * d <= n + gap,
    ;
    assert(e * n <= e * (u * d) + gap * e) by (nonlinear_arith)
        requires
            n <= u * d + gap,
    ;
    assert((e + 1) * n == e * n + n) by (nonlinear_arith);
    assert((e - 1) * n == e * n - n) by (nonlinear_arith);
}

/// The share of requests that is shed is the share of hosts that are overloaded, whatever that is:
/// of `n` requests `n * overloaded / total` are shed, to within one and to within the `2^-53` of it
/// that rounding the fraction may cost.
pub proof fn law_shed_rate_is_share(shared: SharedView, overloaded: nat, total: nat, n: nat)
    requires
        0 < overloaded <= total <= u32::MAX,
        shared.shed_fraction == fraction_of(overloaded, total),
        shared.request_counter + n <= 0x1_0000_0000_0000_0000,
    ensures
        crate::number::monotone::distance(shed_count(shared, n) * total, n * overloaded) * pow2(53)
            <= total * pow2(53) + n * overloaded,
{
    let one = pow2(1074);
    let e = pow2(53);
    let u = shared.shed_fraction->Finite_units;
    let count = shed_count(shared, n);
    law_shed_fraction_in_range(overloaded, total);
    lemma_fraction(overloaded, total);
    law_shed_rate(shared, n);
    lemma_pow2_pos(1074);
    crate::number::powers::lemma_small_powers();
    crate::number::powers::lemma_power_sum(32, 53);
    crate::number::powers::lemma_power_order(85, 1074);
    assert(overloaded * one >= total * e) by (nonlinear_arith)
        requires
            overloaded >= 1,
            total <= pow2(32),
            pow2(32) * e <= one,
            e >= 0,
    ;
    assert(crate::number::monotone::nearest_units(overloaded * one, total) == u);
    lemma_relative_error(overloaded * one, total);
    lemma_error_bounds(u, total, overloaded * one, e);
    lemma_share_of_requests(
        count as int,
        total as int,
        overloaded as int,
        n as int,
        u as int,
        one as int,
        e as int,
    );
}

/// The arithmetic of combining the two errors.
proof fn lemma_share_of_requests(
    count: int,
    total: int,
    overloaded: int,
    n: int,
    u: int,
    one: int,
    e: int,
)
    requires
        total > 0,
        n >= 0,
        one > 0,
        e > 0,
        count * one < n * u + one,
        n * u < count * one + one,
        (e - 1) * (overloaded * one) <= e * (u * total) <= (e + 1) * (overloaded * one),
    ensures
        (count * total - n * overloaded) * e <= total * e + n * overloaded,
        (n * overloaded - count * total) * e <= total * e + n * overloaded,
{
    let share = n * overloaded;
    let x = (e * total) * (count * one);
    let y = (e * total) * (n * u);
    let z = (e * total) * one;
    assert(x <= y + z && y <= x + z) by (nonlinear_arith)
        requires
            x == (e * total) * (count * one),
            y == (e * total) * (n * u),
            z == (e * total) * one,
            count * one < n * u + one,
            n * u < count * one + one,
            e > 0,
            total > 0,
    ;
    assert(y == n * (e * (u * total))) by (nonlinear_arith)
        requires
            y == (e * total) * (n * u),
    ;
    assert(n * ((e - 1) * (overloaded * one)) <= y <= n * ((e + 1) * (overloaded * one)))
        by (nonlinear_arith)
        requires
            y == n * (e * (u * total)),
            (e - 1) * (overloaded * one) <= e * (u * total) <= (e + 1) * (overloaded * one),
            n >= 0,
    ;
    assert(n * ((e + 1) * (overloaded * one)) == ((e + 1) * share) * one) by (nonlinear_arith)
        requires
            share == n * overloaded,
    ;
    assert(n * ((e - 1) * (overloaded * one)) == ((e - 1) * share) * one) by (nonlinear_arith)
        requires
            share == n * overloaded,
    ;
    let made = (e * total) * count;
    assert(x == made * one) by (nonlinear_arith)
        requires
            x == (e * total) * (count * one),
            made == (e * total) * count,
    ;
    assert(made <= (e + 1) * share + e * total) by (nonlinear_arith)
        requires
            made * one <= ((e + 1) * share) * one + (e * total) * one,
            one > 0,
    ;
    assert((e - 1) * share <= made + e * total) by (nonlinear_arith)
        requires
            ((e - 1) * share) * one <= made * one + (e * total) * one,
            one > 0,
    ;
    assert((count * total - share) * e == made - e * share) by (nonlinear_arith)
        requires
            made == (e * total) * count,
    ;
    assert((share - count * total) * e == e * share - made) by (nonlinear_arith)
        requires
            made == (e * total) * count,
    ;
    assert((e + 1) * share == e * share + share) by (nonlinear_arith);
    assert((e - 1) * share == e * share - share) by (nonlinear_arith);
    assert(total * e == e * total) by (nonlinear_arith);
}

/// For a fraction next to `1 / n` the share is the number of whole `n`s.
proof fn lemma_share_of_reciprocal(x: nat, n: nat, u: nat)
    requires
        0 < n <= pow2(32),
        x <= pow2(51),
        (pow2(53) - 1) * pow2(1074) <= pow2(53) * (u * n) <= (pow2(53) + 1) * pow2(1074),
    ensures
        crate::number::datum::whole_share(x, u) == x / n,
{
    let one = pow2(1074) as int;
    let e = pow2(53) as int;
    let q = (x / n) as int;
    let r = (x % n) as int;
    let d = u * n - one;
    crate::number::powers::lemma_small_powers();
    crate::number::powers::lemma_power_sum(1, 51);
    crate::number::powers::lemma_power_sum(1, 52);
    lemma_pow2_pos(1074);
    lemma_fundamental_div_mod(x as int, n as int);
    lemma_mod_bound(x as int, n as int);
    assert((e - 1) * one == e * one - one && (e + 1) * one == e * one + one) by (nonlinear_arith);
    assert(e * d == e * (u * n) - e * one) by (nonlinear_arith)
        requires
            d == u * n - one,
    ;
    // The error of q + 1 reciprocals is less than half of one.
    let k = q + 1;
    assert(k * n <= x + n) by (nonlinear_arith)
        requires
            x == n * q + r,
            r >= 0,
            k == q + 1,
    ;
    assert(4 * (k * n) <= 2 * e - 4);
    lemma_small_error(k, n as int, u as int, d, one, e);
    lemma_small_error(q, n as int, u as int, d, one, e);
    assert((2 * x + 1) * u == q * (2 * one) + (2 * (q * d) + (2 * r + 1) * u)) by (nonlinear_arith)
        requires
            x == n * q + r,
            d == u * n - one,
    ;
    let rest = 2 * (q * d) + (2 * r + 1) * u;
    assert((2 * r + 1) * u >= u) by (nonlinear_arith)
        requires
            r >= 0,
            u >= 0,
    ;
    assert((2 * r + 1) * u <= 2 * (u * n) - u) by (nonlinear_arith)
        requires
            r + 1 <= n,
            u >= 0,
    ;
    assert(2 * (k * d) == 2 * (q * d) + 2 * d) by (nonlinear_arith)
        requires
            k == q + 1,
    ;
    lemma_fundamental_div_mod_converse(((2 * x + 1) * u) as int, 2 * one, q, rest);
}

/// The arithmetic of the error of `k` reciprocals.
proof fn lemma_small_error(k: int, n: int, u: int, d: int, one: int, e: int)
    requires
        k >= 0,
        n > 0,
        one > 0,
        e > 2,
        d == u * n - one,
        -one <= e * d <= one,
        4 * (k * n) <= 2 * e - 4,
    ensures
        -u < 2 * (k * d) < u,
{
    // Both sides times n * e.
    let kn = k * n;
    let ed = e * d;
    assert(kn >= 0) by (nonlinear_arith)
        requires
            kn == k * n,
            k >= 0,
            n > 0,
    ;
    assert(2 * (kn * ed) <= (e - 2) * one && -(2 * (kn * ed)) <= (e - 2) * one)
        by (nonlinear_arith)
        requires
            0 <= 2 * kn <= e - 2,
            -one <= ed <= one,
            kn >= 0,
            one > 0,
    ;
    assert((n * e) * u == e * one + ed) by (nonlinear_arith)
        requires
            d == u * n - one,
            ed == e * d,
    ;
    assert((e - 2) * one == e * one - 2 * one) by (nonlinear_arith);
    assert((n * e) * (2 * (k * d)) == 2 * (kn * ed)) by (nonlinear_arith)
        requires
            kn == k * n,
            ed == e * d,
    ;
    assert(n * e > 0) by (nonlinear_arith)
        requires
            n > 0,
            e > 0,
    ;
    let y = 2 * (k * d);
    assert(-u < y < u) by (nonlinear_arith)
        requires
            (n * e) * y < (n * e) * u,
            -((n * e) * u) < (n * e) * y,
            n * e > 0,
    ;
}

/// Every `n`th request is shed where one in `n` hosts is overloaded, for the first `2^51` requests.
/// Beyond them the rounding of the fraction shows, which the rate keeps to.
pub proof fn law_every_nth_request_is_shed(shared: SharedView, overloaded: nat, n: nat)
    requires
        overloaded > 0,
        n > 0,
        overloaded * n <= u32::MAX,
        shared.shed_fraction == fraction_of(overloaded, overloaded * n),
        shared.request_counter < 0x8_0000_0000_0000,
    ensures
        shared.shed_fraction == Datum::of_ratio(1, n),
        shared.sheds_next() <==> (shared.request_counter + 1) % (n as int) == 0,
{
    let total = overloaded * n;
    let one = pow2(1074);
    let e = pow2(53);
    let c = shared.request_counter as nat;
    let u = shared.shed_fraction->Finite_units;
    assert(overloaded <= total && n <= total) by (nonlinear_arith)
        requires
            total == overloaded * n,
            overloaded > 0,
            n > 0,
    ;
    lemma_pow2_pos(1074);
    lemma_fraction(overloaded, total);
    law_shed_fraction_in_range(overloaded, total);
    lemma_fraction_units(shared.shed_fraction);
    crate::number::exactness::lemma_nearest_scale(false, one, n, overloaded);
    assert(one * overloaded == overloaded * one) by (nonlinear_arith);
    assert(n * overloaded == total) by (nonlinear_arith)
        requires
            total == overloaded * n,
    ;
    assert(1 * one == one);
    crate::number::powers::lemma_small_powers();
    crate::number::powers::lemma_power_sum(32, 53);
    crate::number::powers::lemma_power_order(85, 1074);
    crate::number::powers::lemma_power_sum(1, 51);
    crate::number::powers::lemma_power_sum(1, 52);
    assert(one >= n * e) by (nonlinear_arith)
        requires
            n <= pow2(32),
            pow2(32) * e <= one,
            e >= 0,
    ;
    assert(crate::number::monotone::nearest_units(one, n) == u);
    lemma_relative_error(one, n);
    lemma_error_bounds(u, n, one, e);
    lemma_share_of_reciprocal(c, n, u);
    lemma_share_of_reciprocal(c + 1, n, u);
    let q = (c / n) as int;
    let r = (c % n) as int;
    lemma_fundamental_div_mod(c as int, n as int);
    lemma_mod_bound(c as int, n as int);
    if r + 1 == n {
        assert(c + 1 == (q + 1) * n + 0) by (nonlinear_arith)
            requires
                c == n * q + r,
                r + 1 == n,
        ;
        lemma_fundamental_div_mod_converse((c + 1) as int, n as int, q + 1, 0);
    } else {
        assert(c + 1 == q * n + (r + 1)) by (nonlinear_arith)
            requires
                c == n * q + r,
        ;
        lemma_fundamental_div_mod_converse((c + 1) as int, n as int, q, r + 1);
    }
}

/// Where every host is overloaded, every request is shed.
pub proof fn law_all_overloaded_sheds_all(shared: SharedView, total: nat, requests: nat)
    requires
        0 < total <= u32::MAX,
        shared.shed_fraction == fraction_of(total, total),
    ensures
        shed_count(shared, requests) == requests,
    decreases requests,
{
    if requests > 0 {
        law_shed_fraction_in_range(total, total);
        lemma_fraction_units(shared.shed_fraction);
        crate::number::powers::lemma_small_powers();
        crate::number::exactness::lemma_exact_integer(1);
        assert(1 * pow2(1074) == pow2(1074));
        crate::number::whole::lemma_share_step(
            shared.request_counter as nat,
            shared.shed_fraction->Finite_units,
        );
        law_all_overloaded_sheds_all(shared.after_shed_decision(), total, (requests - 1) as nat);
    }
}

/// Rebuilding the set of overloaded hosts sets the shed fraction to the share of overloaded hosts:
/// zero where none is.
pub proof fn law_shed_fraction_is_share(shared: SharedView, now_ns: u64)
    ensures
        ({
            let after = shared.with_overloaded_set(now_ns);
            let overloaded = after.overloaded_hosts.len();
            &&& overloaded <= after.hosts.len()
            &&& after.shed_fraction == if overloaded > 0 {
                fraction_of(overloaded, after.hosts.len())
            } else {
                crate::shared_state::zero()
            }
        }),
{
    crate::shared_state::lemma_overloaded_addresses(shared.reviewed_hosts(now_ns));
}

} // verus!
