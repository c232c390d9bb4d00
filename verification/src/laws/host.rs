//! What each operation does to a host, field by field.

use crate::config::PluginConfig;
use crate::events::EventView;
use crate::gradient2::Gradient2Params;
use crate::host_state::HostView;
use crate::metrics::{MetricUpdate, PluginMetrics};
use crate::number::datum::Datum;
use vstd::arithmetic::div_mod::*;
use vstd::arithmetic::power2::*;
use vstd::prelude::*;

verus! {

/// A number moved to the nearer end of a range.
pub open spec fn held(n: nat, low: u32, high: u32) -> int {
    if n < low {
        low as int
    } else if n > high {
        high as int
    } else {
        n as int
    }
}

/// The Gradient2 formula: `clamp(min_rtt * (1 + buffer) / sample_rtt, 0.5, max_gradient)`, and
/// `clamp(round(limit * gradient + sqrt(limit)), min, max)` out of that.
pub proof fn law_gradient2_formula(params: Gradient2Params)
    requires
        params.min_rtt_ns > 0,
        params.sample_rtt_ns > 0,
    ensures
        params.gradient() == Datum::of_nat(params.min_rtt_ns as nat).times(
            Datum::of_nat(1).plus(params.min_rtt_buffer_pct@),
        ).over(Datum::of_nat(params.sample_rtt_ns as nat)).clamped(
            Datum::of_ratio(1, 2),
            params.max_gradient@,
        ),
        params.new_limit() == held(
            Datum::of_nat(params.current_limit as nat).times(params.gradient()).plus(
                Datum::root(params.current_limit as nat),
            ).rounded(u32::MAX as nat),
            params.min_limit,
            params.max_limit,
        ),
{
}

/// Without a minRTT or a sampled round-trip time nothing changes, and the gradient is one.
pub proof fn law_gradient2_without_times(params: Gradient2Params)
    requires
        params.min_rtt_ns == 0 || params.sample_rtt_ns == 0,
    ensures
        params.gradient() == Datum::of_nat(1),
        params.new_limit() == params.current_limit,
{
}

/// A host seen for the first time has the initial limit and nothing else.
pub proof fn law_new_host(initial_limit: u32, now_ns: u64)
    ensures
        ({
            let host = HostView::fresh(initial_limit, now_ns);
            &&& host.current_limit == initial_limit
            &&& host.in_flight == 0
            &&& host.latency_samples.len() == 0
            &&& host.min_rtt_ns is None
            &&& host.windows_since_min_rtt == 0
            &&& !host.is_probing_min_rtt
            &&& host.probe_samples.len() == 0
            &&& host.last_seen_ns == now_ns
            &&& !host.is_overloaded
            &&& host.overloaded_since_ns == 0
            &&& host.last_gradient == Datum::of_nat(1)
            &&& host.total_requests == 0
            &&& host.total_limited == 0
        }),
{
}

/// Time that passed: the difference of two readings, and nothing where the clock went back.
pub proof fn law_elapsed(now_ns: u64, earlier_ns: u64)
    ensures
        now_ns >= earlier_ns ==> crate::host_state::elapsed(now_ns, earlier_ns) + earlier_ns
            == now_ns,
        now_ns <= earlier_ns ==> crate::host_state::elapsed(now_ns, earlier_ns) == 0,
{
}

/// Every latency is kept, at the end of the window or, while the host probes, of the probe,
/// however many there are; so the samples grow by one with every response. Nothing else changes
/// but the time the host was last seen, and a request in flight that ended.
pub proof fn law_latency_is_kept(host: HostView, latency_ns: u64, now_ns: u64)
    ensures
        ({
            let next = host.after_request(latency_ns, now_ns);
            &&& !host.is_probing_min_rtt ==> next.latency_samples == host.latency_samples.push(
                latency_ns,
            ) && next.probe_samples == host.probe_samples
            &&& host.is_probing_min_rtt ==> next.probe_samples == host.probe_samples.push(
                latency_ns,
            ) && next.latency_samples == host.latency_samples
            &&& next.latency_samples.len() + next.probe_samples.len()
                == host.latency_samples.len() + host.probe_samples.len() + 1
            &&& next.last_seen_ns == now_ns
            &&& host.in_flight > 0 ==> next.in_flight == host.in_flight - 1
            &&& host.in_flight == 0 ==> next.in_flight == 0
            &&& next.current_limit == host.current_limit
            &&& next.min_rtt_ns == host.min_rtt_ns
            &&& next.windows_since_min_rtt == host.windows_since_min_rtt
            &&& next.is_probing_min_rtt == host.is_probing_min_rtt
            &&& next.is_overloaded == host.is_overloaded
            &&& next.overloaded_since_ns == host.overloaded_since_ns
            &&& next.last_gradient == host.last_gradient
            &&& next.total_requests == host.total_requests
            &&& next.total_limited == host.total_limited
        }),
{
}

/// Counting a response keeps its latency, and raises the requests by one and the limited ones by
/// one where it is rejected.
pub proof fn law_counters(host: HostView, latency_ns: u64, now_ns: u64, rejected: bool)
    requires
        host.total_requests < u64::MAX,
        host.total_limited < u64::MAX,
    ensures
        ({
            let next = host.counted(latency_ns, now_ns, rejected);
            &&& host.countable(rejected)
            &&& next.total_requests == host.total_requests + 1
            &&& next.total_limited == host.total_limited + if rejected {
                1int
            } else {
                0
            }
            &&& next == HostView {
                total_requests: next.total_requests,
                total_limited: next.total_limited,
                ..host.after_request(latency_ns, now_ns)
            }
        }),
{
}

/// A recalculation, where `v` is the sample of the configured rank: the minRTT stays, or is `v`
/// where there was none; the gradient and the host's own limit follow from the two by Gradient2,
/// whatever the overload status; the status follows from the gradient and the two thresholds; the
/// window starts over and is counted; and nothing else changes.
pub proof fn law_recalculation(host: HostView, config: PluginConfig, now_ns: u64, v: u64)
    requires
        crate::laws::ranks::has_rank(
            host.latency_samples,
            crate::laws::ranks::rank_of(config.sample_percentile@, host.latency_samples.len()),
            v,
        ),
        host.windows_since_min_rtt < u32::MAX,
    ensures
        ({
            let next = host.recalculated(config, now_ns);
            let limit = host.current_limit as nat;
            let base = match host.min_rtt_ns {
                Some(known) => known,
                None => v,
            };
            let g = next.last_gradient;
            let low = g.below(config.overload_gradient_threshold@);
            let high = config.recovery_gradient_threshold@.below(g);
            &&& next.min_rtt_ns == Some(base)
            &&& base == 0 || v == 0 ==> g == Datum::of_nat(1) && next.current_limit == limit
            &&& base > 0 && v > 0 ==> {
                &&& g == Datum::of_nat(base as nat).times(
                    Datum::of_nat(1).plus(config.min_rtt_buffer_pct@),
                ).over(Datum::of_nat(v as nat)).clamped(
                    Datum::of_ratio(1, 2),
                    config.max_gradient@,
                )
                &&& next.current_limit == held(
                    Datum::of_nat(limit).times(g).plus(Datum::root(limit)).rounded(
                        u32::MAX as nat,
                    ),
                    config.min_concurrency_limit,
                    config.max_concurrency_limit,
                )
            }
            &&& low ==> next.is_overloaded
            &&& !low && high ==> !next.is_overloaded
            &&& !low && !high ==> next.is_overloaded == host.is_overloaded
            &&& low && !host.is_overloaded ==> next.overloaded_since_ns == now_ns
            &&& !low || host.is_overloaded ==> next.overloaded_since_ns == host.overloaded_since_ns
            &&& next.latency_samples.len() == 0
            &&& next.windows_since_min_rtt == host.windows_since_min_rtt + 1
            &&& next.in_flight == host.in_flight
            &&& next.is_probing_min_rtt == host.is_probing_min_rtt
            &&& next.probe_samples == host.probe_samples
            &&& next.last_seen_ns == host.last_seen_ns
            &&& next.total_requests == host.total_requests
            &&& next.total_limited == host.total_limited
        }),
{
    let p = config.sample_percentile@;
    crate::laws::ranks::lemma_percentile_of(host.latency_samples, p);
    crate::laws::ranks::lemma_rank_unique(
        host.latency_samples,
        crate::laws::ranks::rank_of(p, host.latency_samples.len()),
        v,
        host.sample_rtt(config),
    );
}

/// Without samples a recalculation does nothing.
pub proof fn law_recalculation_needs_samples(host: HostView, config: PluginConfig, now_ns: u64)
    requires
        host.latency_samples.len() == 0,
    ensures
        host.recalculated(config, now_ns) == host,
{
}

/// The root of an integer from 16 on is at most a quarter of it.
proof fn lemma_root_of_large(n: nat)
    requires
        16 <= n <= u32::MAX,
    ensures
        Datum::root(n) is Finite,
        !Datum::root(n)->Finite_negative,
        4 * Datum::root(n)->Finite_units <= n * pow2(1074),
{
    crate::number::root::lemma_root_exists(n);
    let (j, m) = choose|j: nat, m: nat|
        {
            &&& j <= 1074
            &&& pow2(104) <= #[trigger] (n * pow2(2 * j)) < pow2(106)
            &&& #[trigger] crate::number::datum::is_nearest_root(n * pow2(2 * j), m)
            &&& Datum::root(n) == Datum::Finite {
                negative: false,
                units: m * pow2((1074 - j) as nat),
            }
        };
    let x = n * pow2(2 * j);
    let p = pow2(j);
    crate::number::powers::lemma_small_powers();
    crate::number::powers::lemma_power_sum(j, j);
    crate::number::powers::lemma_power_sum(j, (1074 - j) as nat);
    if j < 2 {
        crate::number::powers::lemma_power_order(2 * j, 2);
        crate::number::powers::lemma_power_sum(1, 1);
        crate::number::powers::lemma_power_sum(32, 2);
        crate::number::powers::lemma_power_order(34, 104);
        assert(x <= pow2(32) * pow2(2)) by (nonlinear_arith)
            requires
                x == n * pow2(2 * j),
                0 <= n <= pow2(32),
                0 <= pow2(2 * j) <= pow2(2),
        ;
        crate::number::powers::lemma_power_order(34, 103);
        crate::number::powers::lemma_power_order(103, 104);
    }
    crate::number::powers::lemma_power_sum(2, (j - 2) as nat);
    crate::number::powers::lemma_power_sum(1, 1);
    let quarter = pow2((j - 2) as nat);
    let y = n * quarter;
    assert(x <= y * y) by (nonlinear_arith)
        requires
            x == n * (p * p),
            p == 4 * quarter,
            y == n * quarter,
            n >= 16,
            quarter >= 0,
    ;
    assert(m <= y) by (nonlinear_arith)
        requires
            (2 * m - 1) * (2 * m - 1) < 4 * x,
            x <= y * y,
            m >= 0,
            y >= 0,
    ;
    let s = pow2((1074 - j) as nat);
    assert(4 * (m * s) <= n * (p * s)) by (nonlinear_arith)
        requires
            m <= y,
            y == n * quarter,
            p == 4 * quarter,
            s >= 0,
    ;
}

/// A window at the lowest gradient lowers a limit that is at least 16 and above the floor, whether
/// the host is overloaded already or not; so under latency that stays bad the limit falls on,
/// window after window, until it nears the floor.
pub proof fn law_bad_window_lowers_limit(host: HostView, config: PluginConfig, now_ns: u64, v: u64)
    requires
        crate::laws::ranks::has_rank(
            host.latency_samples,
            crate::laws::ranks::rank_of(config.sample_percentile@, host.latency_samples.len()),
            v,
        ),
        v > 0,
        host.min_rtt_ns != Some(0u64),
        host.windows_since_min_rtt < u32::MAX,
        host.recalculated(config, now_ns).last_gradient == Datum::of_ratio(1, 2),
        host.current_limit >= 16,
        host.current_limit > config.min_concurrency_limit,
        config.min_concurrency_limit <= config.max_concurrency_limit,
    ensures
        host.recalculated(config, now_ns).current_limit < host.current_limit,
{
    let limit = host.current_limit as nat;
    let one = pow2(1074);
    let half = pow2(1073);
    law_recalculation(host, config, now_ns, v);
    crate::laws::gradient::lemma_half();
    lemma_root_of_large(limit);
    crate::number::powers::lemma_small_powers();
    crate::number::powers::lemma_power_sum(1, 1073);
    crate::number::powers::lemma_power_sum(1, 1072);
    crate::number::powers::lemma_power_sum(32, 2);
    crate::number::exactness::lemma_exact_integer(limit);
    // limit * 0.5 is exact.
    crate::number::exactness::lemma_exact(false, limit, 1073);
    crate::number::exactness::lemma_nearest_scale(false, limit * half, 1, one);
    assert((limit * one) * half == (limit * half) * one) by (nonlinear_arith);
    let product = Datum::of_nat(limit).times(Datum::of_ratio(1, 2));
    assert(product == Datum::Finite { negative: false, units: limit * half });
    // With the headroom it is at most three quarters of the limit.
    let sum = limit * half + Datum::root(limit)->Finite_units;
    let most = (3 * limit) * pow2(1072);
    assert(4 * (limit * half) == 2 * (limit * one)) by (nonlinear_arith)
        requires
            2 * half == one,
    ;
    assert(4 * most == 3 * (limit * one)) by (nonlinear_arith)
        requires
            most == (3 * limit) * pow2(1072),
            4 * pow2(1072) == one,
    ;
    crate::number::exactness::lemma_exact(false, 3 * limit, 1072);
    crate::number::monotone::lemma_nearest_monotone(sum, 1, most, 1);
    assert(sum > 0) by (nonlinear_arith)
        requires
            sum >= limit * half,
            limit > 0,
            half > 0,
    ;
    let raw = product.plus(Datum::root(limit));
    let bound = Datum::Finite { negative: false, units: most };
    crate::laws::gradient::lemma_rounded_monotone(raw, bound);
    // Which rounds to less than the limit.
    let top = (2 * most + one) as int;
    assert(top <= (limit - 1) * (2 * one)) by (nonlinear_arith)
        requires
            2 * top == 3 * (limit * one) + 2 * one,
            limit >= 16,
            one > 0,
    ;
    lemma_div_is_ordered(top, (limit - 1) * (2 * one), (2 * one) as int);
    lemma_fundamental_div_mod_converse(
        (limit - 1) * (2 * one),
        (2 * one) as int,
        limit - 1,
        0,
    );
}

/// Starting a probe forgets the samples of an earlier one, and changes nothing else.
pub proof fn law_probe_start(host: HostView)
    ensures
        ({
            let next = host.probe_started();
            &&& next.is_probing_min_rtt
            &&& next.probe_samples.len() == 0
            &&& next == HostView {
                is_probing_min_rtt: next.is_probing_min_rtt,
                probe_samples: next.probe_samples,
                ..host
            }
        }),
{
}

/// Finishing a probe, where `v` is the probe sample of the configured rank: `v` is the minRTT where
/// there was none, and else goes into it with 0.2 of itself and 0.8 of what was known; a `v` of
/// zero is no finding. The probe is over, the count of windows starts over, and nothing else
/// changes.
pub proof fn law_probe_finish(host: HostView, config: PluginConfig, v: u64)
    requires
        crate::laws::ranks::has_rank(
            host.probe_samples,
            crate::laws::ranks::rank_of(config.sample_percentile@, host.probe_samples.len()),
            v,
        ),
    ensures
        ({
            let next = host.probe_finished(config);
            &&& v == 0 ==> next.min_rtt_ns == host.min_rtt_ns
            &&& v > 0 && host.min_rtt_ns is None ==> next.min_rtt_ns == Some(v)
            &&& v > 0 && host.min_rtt_ns is Some ==> next.min_rtt_ns is Some
                && next.min_rtt_ns->0 == Datum::of_nat(host.min_rtt_ns->0 as nat).times(
                Datum::of_ratio(8, 10),
            ).plus(Datum::of_nat(v as nat).times(Datum::of_ratio(2, 10))).truncated(
                u64::MAX as nat,
            )
        }),
        host.probe_finished(config).ends_probe_of(host),
{
    let p = config.sample_percentile@;
    crate::laws::ranks::lemma_percentile_of(host.probe_samples, p);
    crate::laws::ranks::lemma_rank_unique(
        host.probe_samples,
        crate::laws::ranks::rank_of(p, host.probe_samples.len()),
        v,
        host.probed_rtt(config),
    );
}

/// A probe without samples leaves the minRTT as it was.
pub proof fn law_empty_probe_finish(host: HostView, config: PluginConfig)
    requires
        host.probe_samples.len() == 0,
    ensures
        host.probe_finished(config).min_rtt_ns == host.min_rtt_ns,
        host.probe_finished(config).ends_probe_of(host),
{
}

impl HostView {
    /// Whether this is a host after its probe ended, whatever the minRTT is.
    pub open spec fn ends_probe_of(self, host: HostView) -> bool {
        &&& !self.is_probing_min_rtt
        &&& self.probe_samples.len() == 0
        &&& self.windows_since_min_rtt == 0
        &&& self == HostView {
            min_rtt_ns: self.min_rtt_ns,
            is_probing_min_rtt: self.is_probing_min_rtt,
            probe_samples: self.probe_samples,
            windows_since_min_rtt: self.windows_since_min_rtt,
            ..host
        }
    }
}

/// A host expires where more than the expiry has passed since it was last seen.
pub proof fn law_expiry_of_host(host: HostView, now_ns: u64, expiry_ns: u64)
    ensures
        host.expired(now_ns, expiry_ns) <==> now_ns > host.last_seen_ns + expiry_ns,
{
}

/// The recovery timeout resets exactly the hosts that are overloaded and of which more than the
/// timeout has passed both since they became so and since they were last seen. A reset host has
/// the initial limit, whatever its limit was, no minRTT and an empty window, and is no longer
/// overloaded; nothing else changes, and no other host changes at all.
pub proof fn law_recovery_reset(
    host: HostView,
    config: PluginConfig,
    recovery_ns: u64,
    now_ns: u64,
)
    ensures
        ({
            let next = host.reviewed(config, recovery_ns, now_ns);
            let due = host.is_overloaded && recovery_ns > 0 && now_ns > host.overloaded_since_ns
                + recovery_ns && now_ns > host.last_seen_ns + recovery_ns;
            &&& host.timed_out(recovery_ns, now_ns) == due
            &&& !due ==> next == host
            &&& due ==> {
                &&& next.current_limit == config.initial_concurrency_limit
                &&& next.min_rtt_ns is None
                &&& next.latency_samples.len() == 0
                &&& !next.is_overloaded
                &&& next == HostView {
                    current_limit: next.current_limit,
                    min_rtt_ns: next.min_rtt_ns,
                    latency_samples: next.latency_samples,
                    is_overloaded: next.is_overloaded,
                    ..host
                }
            }
        }),
{
}

/// A host after its probe, which the periodic recalculation finishes where it has enough samples.
pub open spec fn settled(host: HostView, config: PluginConfig) -> HostView {
    if host.is_probing_min_rtt && host.probe_samples.len() >= config.min_rtt_probe_count {
        host.probe_finished(config)
    } else {
        host
    }
}

/// The periodic recalculation of a host, step by step: a probe with enough samples is finished, a
/// full window is recalculated, and a probe is started after a full window where none is under way
/// and enough windows have passed.
pub proof fn law_tick_of_host(host: HostView, config: PluginConfig, now_ns: u64)
    ensures
        ({
            let first = settled(host, config);
            let second = first.recalculated(config, now_ns);
            let next = host.ticked(config, now_ns);
            if first.latency_samples.len() < config.sample_window_size {
                next == first
            } else if !second.is_probing_min_rtt && second.windows_since_min_rtt
                >= config.min_rtt_recalc_windows {
                next == second.probe_started()
            } else {
                next == second
            }
        }),
{
}

/// The metric updates of the periodic recalculation of a host: none without metrics or without a
/// full window of samples, and else one recalculation, the gradient in thousandths, and the change
/// of the overload status, if any.
pub proof fn law_tick_updates_of_host(
    host: HostView,
    config: PluginConfig,
    now_ns: u64,
    metrics: Option<PluginMetrics>,
)
    ensures
        ({
            let first = settled(host, config);
            let second = first.recalculated(config, now_ns);
            let updates = host.tick_updates(config, now_ns, metrics);
            if metrics is None || first.latency_samples.len() == 0 || first.latency_samples.len()
                < config.sample_window_size {
                updates.len() == 0
            } else {
                let m = metrics->0;
                &&& updates.len() == if first.is_overloaded == second.is_overloaded {
                    2int
                } else {
                    3
                }
                &&& updates[0] == (MetricUpdate::Increment {
                    id: m.limit_recalculations,
                    offset: 1,
                })
                &&& updates[1] == (MetricUpdate::Record {
                    id: m.gradient,
                    value: second.last_gradient.times(Datum::of_nat(1000)).truncated(
                        u64::MAX as nat,
                    ) as u64,
                })
                &&& second.is_overloaded && !first.is_overloaded ==> updates[2] == (
                MetricUpdate::Increment { id: m.hosts_marked_overloaded, offset: 1 })
                &&& !second.is_overloaded && first.is_overloaded ==> updates[2] == (
                MetricUpdate::Increment { id: m.hosts_recovered, offset: 1 })
            }
        }),
{
}

/// The events of the periodic recalculation of a host: the end of a probe, the change of the
/// limit and the start of a probe, each exactly where it happens, in this order.
pub proof fn law_tick_events_of_host(
    host: HostView,
    addr: Seq<char>,
    config: PluginConfig,
    now_ns: u64,
)
    ensures
        ({
            let first = settled(host, config);
            let next = host.ticked(config, now_ns);
            let events = host.tick_events(addr, config, now_ns);
            let ended = host.is_probing_min_rtt && host.probe_samples.len()
                >= config.min_rtt_probe_count;
            let changed = next.current_limit != first.current_limit;
            let started = first.latency_samples.len() >= config.sample_window_size
                && !first.is_probing_min_rtt && next.is_probing_min_rtt;
            let a = if ended {
                1int
            } else {
                0
            };
            let b = if changed {
                1int
            } else {
                0
            };
            let c = if started {
                1int
            } else {
                0
            };
            &&& events.len() == a + b + c
            &&& ended ==> events[0] == (EventView::ProbeComplete {
                addr,
                min_rtt_us: match first.min_rtt_ns {
                    Some(ns) => Some(ns / 1000),
                    None => None,
                },
            })
            &&& changed ==> events[a] == (EventView::LimitChanged {
                addr,
                old_limit: first.current_limit,
                new_limit: next.current_limit,
                gradient: next.last_gradient,
            })
            &&& started ==> events[a + b] == (EventView::ProbeStarted { addr })
        }),
{
}

} // verus!
