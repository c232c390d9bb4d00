//! What the adaptive timeout goes by.

use crate::events::EventView;
use crate::hosts::EntryView;
use crate::metrics::MetricUpdate;
use crate::number::datum::Datum;
use crate::shared_state::SharedView;
use vstd::prelude::*;
use vstd::seq_lib::*;

verus! {

/// Whether a host is neither marked as overloaded nor listed among the overloaded ones.
pub open spec fn is_healthy(entry: EntryView, overloaded: Seq<Seq<char>>) -> bool {
    !entry.host.is_overloaded && !overloaded.contains(entry.addr)
}

/// A sum over the samples of all healthy hosts.
pub open spec fn healthy_total(
    hosts: Seq<EntryView>,
    overloaded: Seq<Seq<char>>,
    weight: spec_fn(u64) -> nat,
) -> nat {
    crate::laws::ranks::total(
        hosts,
        |entry: EntryView|
            if is_healthy(entry, overloaded) {
                crate::laws::ranks::total(entry.host.latency_samples, weight)
            } else {
                0
            },
    )
}

/// How many samples the healthy hosts have.
pub open spec fn healthy_len(hosts: Seq<EntryView>, overloaded: Seq<Seq<char>>) -> nat {
    healthy_total(hosts, overloaded, |x: u64| 1nat)
}

/// How many samples of healthy hosts are at most `v`.
pub open spec fn healthy_up_to(hosts: Seq<EntryView>, overloaded: Seq<Seq<char>>, v: u64) -> nat {
    healthy_total(
        hosts,
        overloaded,
        |x: u64|
            if x <= v {
                1nat
            } else {
                0nat
            },
    )
}

/// How many samples of healthy hosts are less than `v`.
pub open spec fn healthy_below(hosts: Seq<EntryView>, overloaded: Seq<Seq<char>>, v: u64) -> nat {
    healthy_total(
        hosts,
        overloaded,
        |x: u64|
            if x < v {
                1nat
            } else {
                0nat
            },
    )
}

/// Sums over the collected samples are sums over the samples of all healthy hosts.
proof fn lemma_healthy_total(
    hosts: Seq<EntryView>,
    overloaded: Seq<Seq<char>>,
    weight: spec_fn(u64) -> nat,
)
    ensures
        crate::laws::ranks::total(
            crate::shared_state::healthy_samples(hosts, overloaded),
            weight,
        ) == healthy_total(hosts, overloaded, weight),
    decreases hosts.len(),
{
    if hosts.len() > 0 {
        let rest = crate::shared_state::healthy_samples(hosts.drop_last(), overloaded);
        lemma_healthy_total(hosts.drop_last(), overloaded, weight);
        crate::laws::ranks::lemma_total_sum(rest, hosts.last().host.latency_samples, weight);
    }
}

/// The number of elements is the sum of ones.
proof fn lemma_total_ones(s: Seq<u64>)
    ensures
        crate::laws::ranks::total(s, |x: u64| 1nat) == s.len(),
    decreases s.len(),
{
    if s.len() > 0 {
        lemma_total_ones(s.drop_last());
    }
}

/// How often a sample occurs is the sum of its occurrences.
proof fn lemma_total_occurrences(s: Seq<u64>, v: u64)
    ensures
        s.to_multiset().count(v) == crate::laws::ranks::total(
            s,
            |x: u64|
                if x == v {
                    1nat
                } else {
                    0nat
                },
        ),
    decreases s.len(),
{
    broadcast use group_to_multiset_ensures;

    if s.len() > 0 {
        lemma_total_occurrences(s.drop_last(), v);
        assert(s.drop_last().push(s.last()) =~= s);
        assert(s.to_multiset() =~= s.drop_last().to_multiset().insert(s.last()));
    } else {
        assert(s.to_multiset().len() == 0);
        assert(!s.contains(v));
    }
}

/// The samples that the timeout goes by are those of all healthy hosts: a sample occurs among them
/// as often as it does at all hosts together that are neither marked nor listed as overloaded,
/// however many there are.
pub proof fn law_healthy_samples(hosts: Seq<EntryView>, overloaded: Seq<Seq<char>>, v: u64)
    ensures
        crate::shared_state::healthy_samples(hosts, overloaded).to_multiset().count(v)
            == crate::laws::ranks::total(
            hosts,
            |entry: EntryView|
                if is_healthy(entry, overloaded) {
                    entry.host.latency_samples.to_multiset().count(v)
                } else {
                    0
                },
        ),
        crate::shared_state::healthy_samples(hosts, overloaded).len() == healthy_len(
            hosts,
            overloaded,
        ),
{
    let samples = crate::shared_state::healthy_samples(hosts, overloaded);
    let same = |x: u64|
        if x == v {
            1nat
        } else {
            0nat
        };
    lemma_healthy_total(hosts, overloaded, same);
    lemma_total_occurrences(samples, v);
    let sums = |entry: EntryView|
        if is_healthy(entry, overloaded) {
            crate::laws::ranks::total(entry.host.latency_samples, same)
        } else {
            0
        };
    let counts = |entry: EntryView|
        if is_healthy(entry, overloaded) {
            entry.host.latency_samples.to_multiset().count(v)
        } else {
            0
        };
    assert forall|i: int| 0 <= i < hosts.len() implies sums(#[trigger] hosts[i]) == counts(
        hosts[i],
    ) by {
        lemma_total_occurrences(hosts[i].host.latency_samples, v);
    }
    crate::laws::ranks::lemma_total_same(hosts, sums, counts);
    lemma_healthy_total(hosts, overloaded, |x: u64| 1nat);
    lemma_total_ones(samples);
}

/// The index of the 95th percentile among `n` samples: `n * 0.95` without its fraction, held
/// inside the samples.
pub open spec fn index_of_p95(n: nat) -> int {
    let i = Datum::of_nat(n).times(Datum::of_ratio(95, 100)).truncated(u64::MAX as nat);
    if i < n {
        i as int
    } else {
        n - 1
    }
}

/// Whether `v` is the 95th percentile of the samples of all healthy hosts: one of them, with more
/// samples up to it, and no more below it, than the index of the percentile.
pub open spec fn is_healthy_p95(
    hosts: Seq<EntryView>,
    overloaded: Seq<Seq<char>>,
    v: u64,
) -> bool {
    let index = index_of_p95(healthy_len(hosts, overloaded));
    &&& healthy_below(hosts, overloaded, v) <= index < healthy_up_to(hosts, overloaded, v)
    &&& exists|i: int|
        #![trigger hosts[i]]
        0 <= i < hosts.len() && is_healthy(hosts[i], overloaded)
            && hosts[i].host.latency_samples.contains(v)
}

/// What a healthy host has sampled is among the collected samples.
proof fn lemma_healthy_contains(
    hosts: Seq<EntryView>,
    overloaded: Seq<Seq<char>>,
    i: int,
    v: u64,
)
    requires
        0 <= i < hosts.len(),
        is_healthy(hosts[i], overloaded),
        hosts[i].host.latency_samples.contains(v),
    ensures
        crate::shared_state::healthy_samples(hosts, overloaded).contains(v),
    decreases hosts.len(),
{
    let rest = crate::shared_state::healthy_samples(hosts.drop_last(), overloaded);
    let all = crate::shared_state::healthy_samples(hosts, overloaded);
    if i == hosts.len() - 1 {
        let own = hosts[i].host.latency_samples;
        let k = choose|k: int| 0 <= k < own.len() && own[k] == v;
        assert(all[rest.len() + k] == v);
    } else {
        lemma_healthy_contains(hosts.drop_last(), overloaded, i, v);
        let k = choose|k: int| 0 <= k < rest.len() && rest[k] == v;
        assert(all[k] == v);
    }
}

/// There is one 95th percentile of the samples of all healthy hosts, and it is the one that the
/// timeout goes by.
proof fn lemma_p95(hosts: Seq<EntryView>, overloaded: Seq<Seq<char>>, v: u64)
    requires
        is_healthy_p95(hosts, overloaded, v),
    ensures
        crate::shared_state::healthy_samples(hosts, overloaded).len() > 0,
        crate::shared_state::p95(crate::shared_state::healthy_samples(hosts, overloaded)) == v,
{
    let samples = crate::shared_state::healthy_samples(hosts, overloaded);
    let sorted = crate::samples::ascending(samples);
    let i = choose|i: int|
        #![trigger hosts[i]]
        0 <= i < hosts.len() && is_healthy(hosts[i], overloaded)
            && hosts[i].host.latency_samples.contains(v);
    lemma_healthy_contains(hosts, overloaded, i, v);
    law_healthy_samples(hosts, overloaded, v);
    lemma_healthy_total(
        hosts,
        overloaded,
        |x: u64|
            if x <= v {
                1nat
            } else {
                0nat
            },
    );
    lemma_healthy_total(
        hosts,
        overloaded,
        |x: u64|
            if x < v {
                1nat
            } else {
                0nat
            },
    );
    let index = index_of_p95(samples.len());
    let rank = (index + 1) as nat;
    assert(crate::laws::ranks::has_rank(samples, rank, v));
    crate::samples::lemma_ascending_properties(samples);
    crate::laws::ranks::lemma_sorted_rank(sorted, index);
    crate::laws::ranks::lemma_counts_permutation(sorted, samples, sorted[index]);
    crate::laws::ranks::lemma_rank_unique(samples, rank, v, sorted[index]);
}

/// The adaptive timeout, where `v` is the 95th percentile of all samples of all healthy hosts:
/// three times its whole milliseconds, at least 50 and at most 500. The gauge and the log tell of
/// it, and nothing else changes.
pub proof fn law_adaptive_timeout(shared: SharedView, v: u64)
    requires
        shared.overloaded_hosts.len() > 0,
        is_healthy_p95(shared.hosts, shared.overloaded_hosts, v),
    ensures
        ({
            let after = shared.with_adaptive_timeout();
            let tripled = (v / 1_000_000) * 3;
            &&& after.adaptive_per_try_timeout_ms == if tripled < 50 {
                50int
            } else if tripled > 500 {
                500
            } else {
                tripled
            }
            &&& shared.adaptive_timeout_event() == Some(
                EventView::AdaptiveTimeout {
                    timeout_ms: after.adaptive_per_try_timeout_ms,
                    healthy_p95_ms: v / 1_000_000,
                    samples: healthy_len(shared.hosts, shared.overloaded_hosts),
                    overloaded: shared.overloaded_hosts.len(),
                },
            )
        }),
        shared.tells_timeout(),
{
    lemma_p95(shared.hosts, shared.overloaded_hosts, v);
    law_healthy_samples(shared.hosts, shared.overloaded_hosts, v);
}

/// The adaptive timeout without samples to go by: 200 milliseconds while hosts are overloaded and
/// no healthy host has samples, and none while no host is overloaded.
pub proof fn law_adaptive_timeout_without_samples(shared: SharedView)
    ensures
        shared.overloaded_hosts.len() == 0
            ==> shared.with_adaptive_timeout().adaptive_per_try_timeout_ms == 0
            && shared.adaptive_timeout_event() is None,
        shared.overloaded_hosts.len() > 0 && healthy_len(shared.hosts, shared.overloaded_hosts) == 0
            ==> shared.with_adaptive_timeout().adaptive_per_try_timeout_ms == 200
            && shared.adaptive_timeout_event() is None,
        shared.tells_timeout(),
{
    law_healthy_samples(shared.hosts, shared.overloaded_hosts, 0);
}

impl SharedView {
    /// Whether the adaptive timeout is computed without other changes, and the gauge set to it.
    pub open spec fn tells_timeout(self) -> bool {
        let after = self.with_adaptive_timeout();
        &&& after == SharedView {
            adaptive_per_try_timeout_ms: after.adaptive_per_try_timeout_ms,
            ..self
        }
        &&& self.metrics is None ==> self.adaptive_timeout_update() is None
        &&& self.metrics is Some ==> self.adaptive_timeout_update() == Some(
            MetricUpdate::Record {
                id: self.metrics->0.adaptive_timeout_ms,
                value: after.adaptive_per_try_timeout_ms,
            },
        )
    }
}

/// Where healthy hosts have samples, there is a 95th percentile of them.
pub proof fn law_healthy_p95_exists(hosts: Seq<EntryView>, overloaded: Seq<Seq<char>>)
    requires
        healthy_len(hosts, overloaded) > 0,
    ensures
        exists|v: u64| is_healthy_p95(hosts, overloaded, v),
{
    let samples = crate::shared_state::healthy_samples(hosts, overloaded);
    let sorted = crate::samples::ascending(samples);
    law_healthy_samples(hosts, overloaded, 0);
    crate::samples::lemma_ascending_properties(samples);
    let index = index_of_p95(samples.len());
    let v = sorted[index];
    crate::laws::ranks::lemma_sorted_rank(sorted, index);
    crate::laws::ranks::lemma_counts_permutation(sorted, samples, v);
    lemma_healthy_total(
        hosts,
        overloaded,
        |x: u64|
            if x <= v {
                1nat
            } else {
                0nat
            },
    );
    lemma_healthy_total(
        hosts,
        overloaded,
        |x: u64|
            if x < v {
                1nat
            } else {
                0nat
            },
    );
    lemma_sampled_somewhere(hosts, overloaded, v);
    assert(is_healthy_p95(hosts, overloaded, v));
}

/// What was collected is a sample of some healthy host.
proof fn lemma_sampled_somewhere(hosts: Seq<EntryView>, overloaded: Seq<Seq<char>>, v: u64)
    requires
        crate::shared_state::healthy_samples(hosts, overloaded).contains(v),
    ensures
        exists|i: int|
            #![trigger hosts[i]]
            0 <= i < hosts.len() && is_healthy(hosts[i], overloaded)
                && hosts[i].host.latency_samples.contains(v),
    decreases hosts.len(),
{
    let all = crate::shared_state::healthy_samples(hosts, overloaded);
    let front = hosts.drop_last();
    let rest = crate::shared_state::healthy_samples(front, overloaded);
    let k = choose|k: int| 0 <= k < all.len() && all[k] == v;
    if k < rest.len() {
        assert(rest[k] == v);
        lemma_sampled_somewhere(front, overloaded, v);
        let i = choose|i: int|
            #![trigger front[i]]
            0 <= i < front.len() && is_healthy(front[i], overloaded)
                && front[i].host.latency_samples.contains(v);
        assert(hosts[i] == front[i]);
    } else {
        let own = hosts.last().host.latency_samples;
        assert(own[k - rest.len()] == v);
        assert(hosts[hosts.len() - 1] == hosts.last());
    }
}

/// The adaptive timeout does not depend on the order of the hosts.
pub proof fn law_timeout_ignores_order(
    hosts: Seq<EntryView>,
    other: Seq<EntryView>,
    overloaded: Seq<Seq<char>>,
)
    requires
        hosts.to_multiset() == other.to_multiset(),
    ensures
        crate::shared_state::adaptive_timeout(hosts, overloaded)
            == crate::shared_state::adaptive_timeout(other, overloaded),
{
    let a = crate::shared_state::healthy_samples(hosts, overloaded);
    let b = crate::shared_state::healthy_samples(other, overloaded);
    assert forall|v: u64| #[trigger] a.to_multiset().count(v) == b.to_multiset().count(v) by {
        law_healthy_samples(hosts, overloaded, v);
        law_healthy_samples(other, overloaded, v);
        crate::laws::ranks::lemma_total_permutation(
            hosts,
            other,
            |entry: EntryView|
                if is_healthy(entry, overloaded) {
                    entry.host.latency_samples.to_multiset().count(v)
                } else {
                    0
                },
        );
    }
    assert(a.to_multiset() =~= b.to_multiset());
    crate::laws::ranks::lemma_counts_permutation(a, b, 0);
    crate::samples::lemma_ascending_properties(b);
    crate::samples::lemma_ascending(a, crate::samples::ascending(b));
}

} // verus!
