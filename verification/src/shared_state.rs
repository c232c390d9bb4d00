//! The state shared by all HTTP contexts.

use crate::config::PluginConfig;
use crate::events::{Effects, EventView, LogEvent};
use crate::host_state::{HostState, HostView};
use crate::hosts::{AddressSet, EntryView, HostEntry, HostTable};
use crate::metrics::{MetricUpdate, PluginMetrics};
use crate::number::binary64::Binary64;
use crate::number::datum::Datum;
use vstd::prelude::*;

verus! {

/// Shared state across all HTTP contexts, owned by RootContext.
#[derive(Debug)]
pub struct SharedState {
    pub config: PluginConfig,
    pub hosts: HostTable,
    pub overloaded_hosts: AddressSet,
    /// Adaptive per-try timeout in ms, computed from healthy host latencies.
    /// 0 means no override (use Envoy's default).
    pub adaptive_per_try_timeout_ms: u64,
    /// Fraction of incoming requests to shed (0.0 = none, 1.0 = all).
    /// Proportional to the fraction of overloaded hosts in the cluster.
    pub shed_fraction: Binary64,
    /// Simple counter used as a deterministic shed decision source.
    pub request_counter: u64,
    pub metrics: Option<PluginMetrics>,
}

/// The shared state as a mathematical value.
#[verifier::ext_equal]
pub struct SharedView {
    pub config: PluginConfig,
    pub hosts: Seq<EntryView>,
    pub overloaded_hosts: Seq<Seq<char>>,
    pub adaptive_per_try_timeout_ms: u64,
    pub shed_fraction: Datum,
    pub request_counter: u64,
    pub metrics: Option<PluginMetrics>,
}

impl View for SharedState {
    type V = SharedView;

    open spec fn view(&self) -> SharedView {
        SharedView {
            config: self.config,
            hosts: self.hosts@,
            overloaded_hosts: self.overloaded_hosts@,
            adaptive_per_try_timeout_ms: self.adaptive_per_try_timeout_ms,
            shed_fraction: self.shed_fraction@,
            request_counter: self.request_counter,
            metrics: self.metrics,
        }
    }
}

/// The number zero.
pub open spec fn zero() -> Datum {
    Datum::Finite { negative: false, units: 0 }
}

/// The metric updates of the periodic recalculation of all hosts.
pub open spec fn recalculation_updates(
    hosts: Seq<EntryView>,
    config: PluginConfig,
    now_ns: u64,
    metrics: Option<PluginMetrics>,
) -> Seq<MetricUpdate>
    decreases hosts.len(),
{
    if hosts.len() == 0 {
        seq![]
    } else {
        recalculation_updates(hosts.drop_last(), config, now_ns, metrics)
            + hosts.last().host.tick_updates(config, now_ns, metrics)
    }
}

/// The events of the periodic recalculation of all hosts.
pub open spec fn recalculation_events(
    hosts: Seq<EntryView>,
    config: PluginConfig,
    now_ns: u64,
) -> Seq<EventView>
    decreases hosts.len(),
{
    if hosts.len() == 0 {
        seq![]
    } else {
        recalculation_events(hosts.drop_last(), config, now_ns) + hosts.last().host.tick_events(
            hosts.last().addr,
            config,
            now_ns,
        )
    }
}

/// The addresses of the hosts that are marked as overloaded.
pub open spec fn overloaded_addresses(hosts: Seq<EntryView>) -> Seq<Seq<char>>
    decreases hosts.len(),
{
    if hosts.len() == 0 {
        seq![]
    } else if hosts.last().host.is_overloaded {
        overloaded_addresses(hosts.drop_last()).push(hosts.last().addr)
    } else {
        overloaded_addresses(hosts.drop_last())
    }
}

/// One increment for every host that the recovery timeout resets.
pub open spec fn timeout_updates(
    hosts: Seq<EntryView>,
    recovery_ns: u64,
    now_ns: u64,
    metrics: Option<PluginMetrics>,
) -> Seq<MetricUpdate>
    decreases hosts.len(),
{
    if hosts.len() == 0 {
        seq![]
    } else {
        let rest = timeout_updates(hosts.drop_last(), recovery_ns, now_ns, metrics);
        if metrics is Some && hosts.last().host.timed_out(recovery_ns, now_ns) {
            rest.push(MetricUpdate::Increment { id: metrics->0.recovery_timeouts, offset: 1 })
        } else {
            rest
        }
    }
}

/// One event for every host that the recovery timeout resets.
pub open spec fn timeout_events(hosts: Seq<EntryView>, recovery_ns: u64, now_ns: u64) -> Seq<
    EventView,
>
    decreases hosts.len(),
{
    if hosts.len() == 0 {
        seq![]
    } else {
        let rest = timeout_events(hosts.drop_last(), recovery_ns, now_ns);
        let last = hosts.last();
        if last.host.timed_out(recovery_ns, now_ns) {
            rest.push(
                EventView::RecoveryTimeout {
                    addr: last.addr,
                    overloaded_ns: crate::host_state::elapsed(
                        now_ns,
                        last.host.overloaded_since_ns,
                    ),
                },
            )
        } else {
            rest
        }
    }
}

/// One event for every stale host.
pub open spec fn expiry_events(hosts: Seq<EntryView>, now_ns: u64, expiry_ns: u64) -> Seq<EventView>
    decreases hosts.len(),
{
    if hosts.len() == 0 {
        seq![]
    } else {
        let rest = expiry_events(hosts.drop_last(), now_ns, expiry_ns);
        if hosts.last().host.expired(now_ns, expiry_ns) {
            rest.push(EventView::HostExpired { addr: hosts.last().addr })
        } else {
            rest
        }
    }
}

/// The recent samples of the hosts that are not overloaded.
pub open spec fn healthy_samples(hosts: Seq<EntryView>, overloaded: Seq<Seq<char>>) -> Seq<u64>
    decreases hosts.len(),
{
    if hosts.len() == 0 {
        seq![]
    } else {
        let rest = healthy_samples(hosts.drop_last(), overloaded);
        let last = hosts.last();
        if !last.host.is_overloaded && !overloaded.contains(last.addr) {
            rest + last.host.latency_samples
        } else {
            rest
        }
    }
}

/// The index of the 95th percentile among `n` sorted samples: `n * 0.95` without its fraction,
/// held inside the samples.
pub open spec fn p95_index(n: nat) -> nat {
    let i = Datum::of_nat(n).times(Datum::of_ratio(95, 100)).truncated(u64::MAX as nat);
    if i >= n {
        (n - 1) as nat
    } else {
        i
    }
}

/// Three times the latency, in whole milliseconds, at least 50 and at most 500.
pub open spec fn timeout_for(latency_ns: u64) -> u64 {
    crate::gradient2::clamped(latency_ns as nat / 1_000_000 * 3, 50, 500) as u64
}

/// The 95th percentile of samples.
pub open spec fn p95(samples: Seq<u64>) -> u64 {
    crate::samples::ascending(samples)[p95_index(samples.len()) as int]
}

/// The adaptive timeout: none while no host is overloaded, a moderate one without samples to go
/// by, else out of the 95th percentile of the healthy samples.
pub open spec fn adaptive_timeout(hosts: Seq<EntryView>, overloaded: Seq<Seq<char>>) -> u64 {
    let samples = healthy_samples(hosts, overloaded);
    if overloaded.len() == 0 {
        0
    } else if samples.len() == 0 {
        200
    } else {
        timeout_for(p95(samples))
    }
}

/// Whether the host with an address has not been seen for longer than `expiry_ns`.
pub open spec fn is_stale(
    hosts: Seq<EntryView>,
    addr: Seq<char>,
    now_ns: u64,
    expiry_ns: u64,
) -> bool {
    crate::hosts::lookup(hosts, addr) matches Some(host) && host.expired(now_ns, expiry_ns)
}

impl SharedView {
    /// The state before anything was seen.
    pub open spec fn initial(config: PluginConfig) -> SharedView {
        SharedView {
            config,
            hosts: Seq::empty(),
            overloaded_hosts: Seq::empty(),
            adaptive_per_try_timeout_ms: 0,
            shed_fraction: zero(),
            request_counter: 0,
            metrics: None,
        }
    }

    /// After the periodic recalculation of all limits.
    pub open spec fn recalculated(self, now_ns: u64) -> SharedView {
        SharedView {
            hosts: self.hosts.map_values(
                |entry: EntryView|
                    EntryView {
                        addr: entry.addr,
                        host: entry.host.ticked(self.config, now_ns),
                    },
            ),
            ..self
        }
    }

    /// Whether the periodic recalculation of all limits stays within what it can hold.
    pub open spec fn tickable(self) -> bool {
        forall|i: int|
            0 <= i < self.hosts.len() ==> (#[trigger] self.hosts[i]).host.tickable(self.config)
    }

    /// The recovery timeout in nanoseconds.
    pub open spec fn recovery_ns(self) -> u64 {
        (self.config.recovery_timeout_secs * 1_000_000_000) as u64
    }

    /// The hosts after time-based recovery.
    pub open spec fn reviewed_hosts(self, now_ns: u64) -> Seq<EntryView> {
        self.hosts.map_values(
            |entry: EntryView|
                EntryView {
                    addr: entry.addr,
                    host: entry.host.reviewed(self.config, self.recovery_ns(), now_ns),
                },
        )
    }

    /// After the set of overloaded hosts was rebuilt.
    pub open spec fn with_overloaded_set(self, now_ns: u64) -> SharedView {
        let hosts = self.reviewed_hosts(now_ns);
        let overloaded_hosts = overloaded_addresses(hosts);
        SharedView {
            hosts,
            overloaded_hosts,
            shed_fraction: if overloaded_hosts.len() > 0 {
                Datum::of_nat(overloaded_hosts.len()).over(Datum::of_nat(hosts.len()))
            } else {
                zero()
            },
            ..self
        }
    }

    /// The metric updates of rebuilding the set of overloaded hosts.
    pub open spec fn overloaded_set_updates(self, now_ns: u64) -> Seq<MetricUpdate> {
        let after = self.with_overloaded_set(now_ns);
        timeout_updates(self.hosts, self.recovery_ns(), now_ns, self.metrics)
            + match self.metrics {
            Some(m) => seq![
                MetricUpdate::Record { id: m.tracked_hosts, value: after.hosts.len() as u64 },
                MetricUpdate::Record {
                    id: m.overloaded_hosts,
                    value: after.overloaded_hosts.len() as u64,
                },
            ],
            None => seq![],
        }
    }

    /// After the adaptive timeout was computed.
    pub open spec fn with_adaptive_timeout(self) -> SharedView {
        SharedView {
            adaptive_per_try_timeout_ms: adaptive_timeout(self.hosts, self.overloaded_hosts),
            ..self
        }
    }

    /// The metric update of computing the adaptive timeout: the gauge shows the new one.
    pub open spec fn adaptive_timeout_update(self) -> Option<MetricUpdate> {
        match self.metrics {
            Some(m) => Some(
                MetricUpdate::Record {
                    id: m.adaptive_timeout_ms,
                    value: adaptive_timeout(self.hosts, self.overloaded_hosts),
                },
            ),
            None => None,
        }
    }

    /// The event of computing the adaptive timeout, where healthy samples gave it.
    pub open spec fn adaptive_timeout_event(self) -> Option<EventView> {
        let samples = healthy_samples(self.hosts, self.overloaded_hosts);
        if self.overloaded_hosts.len() > 0 && samples.len() > 0 {
            Some(
                EventView::AdaptiveTimeout {
                    timeout_ms: adaptive_timeout(self.hosts, self.overloaded_hosts),
                    healthy_p95_ms: p95(samples) / 1_000_000,
                    samples: samples.len(),
                    overloaded: self.overloaded_hosts.len(),
                },
            )
        } else {
            None
        }
    }

    /// The expiry of a host in nanoseconds.
    pub open spec fn expiry_ns(self) -> u64 {
        (self.config.host_expiry_secs * 1_000_000_000) as u64
    }

    /// After the stale hosts were forgotten.
    pub open spec fn without_stale_hosts(self, now_ns: u64) -> SharedView {
        SharedView {
            hosts: self.hosts.filter(
                |entry: EntryView| !entry.host.expired(now_ns, self.expiry_ns()),
            ),
            overloaded_hosts: self.overloaded_hosts.filter(
                |addr: Seq<char>| !is_stale(self.hosts, addr, now_ns, self.expiry_ns()),
            ),
            ..self
        }
    }

    /// Whether the next request is to be shed: where the share of all requests so far passes a
    /// whole number. What is no finite number sheds everything, as one and more do.
    pub open spec fn sheds_next(self) -> bool {
        let c = self.request_counter as nat;
        &&& !self.shed_fraction.at_most(zero())
        &&& self.shed_fraction matches Datum::Finite { units, .. }
            ==> crate::number::datum::whole_share(c + 1, units)
            > crate::number::datum::whole_share(c, units)
    }

    /// After the decision on a request.
    pub open spec fn after_shed_decision(self) -> SharedView {
        if self.shed_fraction.at_most(zero()) {
            self
        } else {
            SharedView {
                request_counter: ((self.request_counter + 1) % 0x1_0000_0000_0000_0000) as u64,
                ..self
            }
        }
    }
}

impl SharedState {
    /// No address is tracked, or counted as overloaded, twice.
    pub open spec fn wf(&self) -> bool {
        self.hosts.wf() && self.overloaded_hosts.wf()
    }

    /// The state before anything was seen.
    pub fn new(config: PluginConfig) -> (r: SharedState)
        ensures
            r.wf(),
            r@ == SharedView::initial(config),
    {
        SharedState {
            config,
            hosts: HostTable::new(),
            overloaded_hosts: AddressSet::new(),
            adaptive_per_try_timeout_ms: 0,
            shed_fraction: Binary64::from_bits(0),
            request_counter: 0,
            metrics: None,
        }
    }

    /// The host with an address, which is tracked from now on where it was not before.
    pub fn get_or_create_host(&mut self, addr: &str, now_ns: u64) -> (host: &mut HostState)
        requires
            old(self).wf(),
        ensures
            host@ == match crate::hosts::lookup(old(self)@.hosts, addr@) {
                Some(known) => known,
                None => HostView::fresh(old(self)@.config.initial_concurrency_limit, now_ns),
            },
            final(self)@ == (SharedView {
                hosts: crate::hosts::with_host(old(self)@.hosts, addr@, final(host)@),
                ..old(self)@
            }),
            final(self).wf(),
    {
        proof {
            let hosts = self.hosts@;
            assert forall|host: HostView|
                crate::hosts::distinct(#[trigger] crate::hosts::with_host(hosts, addr@, host)) by {
                crate::hosts::lemma_with_host(hosts, addr@, host);
            }
        }
        match self.hosts.position(addr) {
            Some(i) => {
                assert(self.hosts@[i as int] == self.hosts.entries@[i as int]@);
                &mut self.hosts.entries[i].host
            },
            None => {
                let host = HostState::new(self.config.initial_concurrency_limit, now_ns);
                self.hosts.entries.push(HostEntry { addr: addr.to_owned(), host });
                let last = self.hosts.entries.len() - 1;
                &mut self.hosts.entries[last].host
            },
        }
    }

    /// Recalculate limits for all hosts with enough samples. Returns the metric updates to send
    /// and the events to log.
    pub fn recalculate_all_limits(&mut self, now_ns: u64) -> (effects: Effects)
        requires
            old(self).wf(),
            old(self)@.tickable(),
        ensures
            final(self)@ == old(self)@.recalculated(now_ns),
            final(self).wf(),
            effects.updates@ == recalculation_updates(
                old(self)@.hosts,
                old(self)@.config,
                now_ns,
                old(self)@.metrics,
            ),
            crate::events::event_views(effects.events@) == recalculation_events(
                old(self)@.hosts,
                old(self)@.config,
                now_ns,
            ),
    {
        let ghost before = self@;
        let ghost after = before.recalculated(now_ns);
        let config = self.config;
        let metrics = self.metrics;
        let mut effects = Effects::new();
        let mut i: usize = 0;
        while i < self.hosts.entries.len()
            invariant
                i <= self.hosts.entries@.len(),
                self.hosts.entries@.len() == before.hosts.len(),
                before.tickable(),
                after == before.recalculated(now_ns),
                config == before.config,
                metrics == before.metrics,
                self@ == (SharedView { hosts: self@.hosts, ..before }),
                self.overloaded_hosts.wf(),
                self@.hosts == after.hosts.take(i as int) + before.hosts.skip(i as int),
                effects.updates@ == recalculation_updates(
                    before.hosts.take(i as int),
                    config,
                    now_ns,
                    metrics,
                ),
                crate::events::event_views(effects.events@) == recalculation_events(
                    before.hosts.take(i as int),
                    config,
                    now_ns,
                ),
            decreases self.hosts.entries.len() - i,
        {
            proof {
                assert(self@.hosts[i as int] == before.hosts[i as int]);
                assert(self.hosts@[i as int] == self.hosts.entries@[i as int]@);
                assert(before.hosts.take(i + 1).drop_last() =~= before.hosts.take(i as int));
            }
            let ghost middle = self@.hosts;
            let addr = self.hosts.entries[i].addr.clone();
            let host_effects = self.hosts.entries[i].host.tick(
                addr.as_str(),
                &config,
                now_ns,
                metrics,
            );
            effects.join(host_effects);
            proof {
                assert(self.hosts@ =~= middle.update(i as int, after.hosts[i as int]));
                assert(self.hosts@ =~= after.hosts.take(i + 1) + before.hosts.skip(i + 1));
            }
            i = i + 1;
        }
        proof {
            assert(before.hosts.take(i as int) =~= before.hosts);
            assert(self@.hosts =~= after.hosts);
            assert(crate::hosts::distinct(after.hosts));
        }
        effects
    }

    /// Whether the limits of all hosts can be recalculated.
    pub fn is_tickable(&self) -> (r: bool)
        ensures
            r == self@.tickable(),
    {
        let mut i: usize = 0;
        while i < self.hosts.entries.len()
            invariant
                i <= self.hosts.entries@.len(),
                forall|j: int|
                    0 <= j < i ==> (#[trigger] self@.hosts[j]).host.tickable(self@.config),
            decreases self.hosts.entries.len() - i,
        {
            assert(self@.hosts[i as int] == self.hosts.entries@[i as int]@);
            if !self.hosts.entries[i].host.is_tickable(&self.config) {
                return false;
            }
            i = i + 1;
        }
        true
    }

    /// Rebuild the overloaded hosts set. Also handles time-based recovery:
    /// if a host has been overloaded for longer than recovery_timeout without
    /// getting new samples, reset it to allow re-probing. Returns the metric updates to send and
    /// the events to log.
    pub fn update_overloaded_set(&mut self, now_ns: u64) -> (effects: Effects)
        requires
            old(self).wf(),
            old(self)@.config.recovery_timeout_secs * 1_000_000_000 <= u64::MAX,
        ensures
            final(self)@ == old(self)@.with_overloaded_set(now_ns),
            final(self).wf(),
            effects.updates@ == old(self)@.overloaded_set_updates(now_ns),
            crate::events::event_views(effects.events@) == timeout_events(
                old(self)@.hosts,
                old(self)@.recovery_ns(),
                now_ns,
            ),
    {
        let ghost before = self@;
        let ghost hosts = before.reviewed_hosts(now_ns);
        let recovery_ns: u64 = self.config.recovery_timeout_secs * 1_000_000_000;
        let config = self.config;
        let metrics = self.metrics;
        let mut effects = Effects::new();
        self.overloaded_hosts = AddressSet::new();
        let mut i: usize = 0;
        while i < self.hosts.entries.len()
            invariant
                i <= self.hosts.entries@.len(),
                self.hosts.entries@.len() == before.hosts.len(),
                crate::hosts::distinct(before.hosts),
                hosts == before.reviewed_hosts(now_ns),
                config == before.config,
                metrics == before.metrics,
                recovery_ns == before.recovery_ns(),
                self@ == (SharedView {
                    hosts: self@.hosts,
                    overloaded_hosts: self@.overloaded_hosts,
                    ..before
                }),
                self.overloaded_hosts.wf(),
                self@.hosts == hosts.take(i as int) + before.hosts.skip(i as int),
                self@.overloaded_hosts == overloaded_addresses(hosts.take(i as int)),
                effects.updates@ == timeout_updates(
                    before.hosts.take(i as int),
                    recovery_ns,
                    now_ns,
                    metrics,
                ),
                crate::events::event_views(effects.events@) == timeout_events(
                    before.hosts.take(i as int),
                    recovery_ns,
                    now_ns,
                ),
            decreases self.hosts.entries.len() - i,
        {
            proof {
                assert(self@.hosts[i as int] == before.hosts[i as int]);
                assert(self.hosts@[i as int] == self.hosts.entries@[i as int]@);
                assert(before.hosts.take(i + 1).drop_last() =~= before.hosts.take(i as int));
                assert(hosts.take(i + 1).drop_last() =~= hosts.take(i as int));
                lemma_not_yet_overloaded(hosts, i as int);
            }
            let ghost middle = self@.hosts;
            // Time-based recovery: if overloaded too long, reset to allow probing
            let reset = self.hosts.entries[i].host.review(&config, recovery_ns, now_ns);
            proof {
                assert(self.hosts@ =~= middle.update(i as int, hosts[i as int]));
                assert(self.hosts@ =~= hosts.take(i + 1) + before.hosts.skip(i + 1));
                assert(self.hosts@[i as int] == self.hosts.entries@[i as int]@);
            }
            if reset {
                let overloaded_ns = now_ns.saturating_sub(
                    self.hosts.entries[i].host.overloaded_since_ns,
                );
                let addr = self.hosts.entries[i].addr.clone();
                effects.log(LogEvent::RecoveryTimeout { addr, overloaded_ns });
                if let Some(m) = metrics {
                    effects.updates.push(m.inc_recovery_timeouts());
                }
            } else if self.hosts.entries[i].host.is_overloaded {
                let addr = self.hosts.entries[i].addr.clone();
                self.overloaded_hosts.insert_new(addr);
            }
            i = i + 1;
        }
        proof {
            assert(before.hosts.take(i as int) =~= before.hosts);
            assert(hosts.take(i as int) =~= hosts);
            assert(self@.hosts =~= hosts);
            assert(crate::hosts::distinct(hosts));
            if hosts.len() == 0 {
                assert(overloaded_addresses(hosts).len() == 0);
            }
        }
        // Compute shed fraction: proportional to overloaded hosts in the cluster.
        // If 1 of 5 hosts is overloaded, shed ~20% of requests.
        let total = self.hosts.len();
        let overloaded = self.overloaded_hosts.len();
        self.shed_fraction = if total > 0 && overloaded > 0 {
            Binary64::from_u64(overloaded as u64).over(Binary64::from_u64(total as u64))
        } else {
            Binary64::from_bits(0)
        };
        // Update gauges
        if let Some(m) = metrics {
            effects.updates.push(m.set_tracked_hosts(total as u64));
            effects.updates.push(m.set_overloaded_hosts(overloaded as u64));
        }
        assert(effects.updates@ =~= before.overloaded_set_updates(now_ns));
        effects
    }

    /// Compute an adaptive per-try timeout based on healthy host latencies.
    /// Uses recent latency samples from non-overloaded hosts to set a timeout
    /// that healthy hosts can comfortably meet but slow hosts will exceed. Returns the metric
    /// update to send and the event to log.
    pub fn compute_adaptive_timeout(&mut self) -> (r: (Option<MetricUpdate>, Option<LogEvent>))
        ensures
            final(self)@ == old(self)@.with_adaptive_timeout(),
            r.0 == old(self)@.adaptive_timeout_update(),
            r.1 is Some <==> old(self)@.adaptive_timeout_event() is Some,
            r.1 matches Some(event) ==> old(self)@.adaptive_timeout_event() == Some(event@),
            old(self).wf() ==> final(self).wf(),
    {
        if self.overloaded_hosts.len() == 0 {
            return (self.set_adaptive_timeout(0), None);
        }
        // Collect recent latency samples from healthy hosts
        let mut samples: Vec<u64> = Vec::new();
        let mut i: usize = 0;
        while i < self.hosts.entries.len()
            invariant
                i <= self.hosts.entries@.len(),
                self == old(self),
                samples@ == healthy_samples(self@.hosts.take(i as int), self@.overloaded_hosts),
            decreases self.hosts.entries.len() - i,
        {
            proof {
                assert(self.hosts@[i as int] == self.hosts.entries@[i as int]@);
                assert(self@.hosts.take(i + 1).drop_last() =~= self@.hosts.take(i as int));
            }
            let entry = &self.hosts.entries[i];
            if !entry.host.is_overloaded && !self.overloaded_hosts.contains(entry.addr.as_str()) {
                samples.extend_from_slice(entry.host.latency_samples.as_slice());
            }
            i = i + 1;
        }
        assert(self@.hosts.take(i as int) =~= self@.hosts);
        if samples.len() == 0 {
            // No recent samples; use a moderate fallback
            return (self.set_adaptive_timeout(200), None);
        }
        let ghost collected = samples@;
        crate::samples::sort_samples(&mut samples);
        proof {
            crate::samples::lemma_ascending_properties(collected);
        }
        // Use p95 of healthy samples as baseline, then 3x multiplier
        let rank: u64 = Binary64::from_u64(samples.len() as u64).times(
            Binary64::from_ratio(95, 100),
        ).truncate();
        let last: usize = samples.len() - 1;
        let p95_idx: usize = if rank > last as u64 {
            last
        } else {
            rank as usize
        };
        let healthy_p95_ns = samples[p95_idx];
        // Convert to ms with 3x safety margin, minimum 50ms, maximum 500ms
        let tripled: u64 = (healthy_p95_ns / 1_000_000) * 3;
        let timeout_ms: u64 = if tripled < 50 {
            50
        } else if tripled > 500 {
            500
        } else {
            tripled
        };
        let event = LogEvent::AdaptiveTimeout {
            timeout_ms,
            healthy_p95_ms: healthy_p95_ns / 1_000_000,
            samples: samples.len(),
            overloaded: self.overloaded_hosts.len(),
        };
        (self.set_adaptive_timeout(timeout_ms), Some(event))
    }

    /// Sets the adaptive timeout, and its gauge with it.
    fn set_adaptive_timeout(&mut self, timeout_ms: u64) -> (update: Option<MetricUpdate>)
        ensures
            *final(self) == (SharedState { adaptive_per_try_timeout_ms: timeout_ms, ..*old(self) }),
            update == match old(self).metrics {
                Some(m) => Some(
                    MetricUpdate::Record { id: m.adaptive_timeout_ms, value: timeout_ms },
                ),
                None => None,
            },
    {
        self.adaptive_per_try_timeout_ms = timeout_ms;
        match self.metrics {
            Some(m) => Some(m.set_adaptive_timeout_ms(timeout_ms)),
            None => None,
        }
    }

    /// Forgets the hosts that have not been seen for longer than the configured expiry. Returns
    /// the events to log.
    pub fn expire_stale_hosts(&mut self, now_ns: u64) -> (events: Vec<LogEvent>)
        requires
            old(self).wf(),
            old(self)@.config.host_expiry_secs * 1_000_000_000 <= u64::MAX,
        ensures
            final(self)@ == old(self)@.without_stale_hosts(now_ns),
            final(self).wf(),
            crate::events::event_views(events@) == expiry_events(
                old(self)@.hosts,
                now_ns,
                old(self)@.expiry_ns(),
            ),
    {
        let ghost before = self@;
        let expiry_ns: u64 = self.config.host_expiry_secs * 1_000_000_000;
        let ghost fresh_addr = |addr: Seq<char>| !is_stale(before.hosts, addr, now_ns, expiry_ns);
        let ghost fresh_entry = |entry: EntryView| !entry.host.expired(now_ns, expiry_ns);
        let mut i: usize = 0;
        let ghost mut seen: int = 0;
        while i < self.overloaded_hosts.members.len()
            invariant
                self.hosts.wf(),
                self@ == (SharedView { overloaded_hosts: self@.overloaded_hosts, ..before }),
                0 <= seen <= before.overloaded_hosts.len(),
                fresh_addr == (|addr: Seq<char>| !is_stale(before.hosts, addr, now_ns, expiry_ns)),
                self@.overloaded_hosts == before.overloaded_hosts.take(seen).filter(fresh_addr)
                    + before.overloaded_hosts.skip(seen),
                i == before.overloaded_hosts.take(seen).filter(fresh_addr).len(),
            decreases self.overloaded_hosts.members.len() - i,
        {
            let ghost current = self@.overloaded_hosts;
            let ghost kept = before.overloaded_hosts.take(seen).filter(fresh_addr);
            let stale = match self.hosts.get(self.overloaded_hosts.members[i].as_str()) {
                Some(host) => host.is_expired(now_ns, expiry_ns),
                None => false,
            };
            proof {
                let addr = before.overloaded_hosts[seen];
                assert(current[i as int] == addr);
                assert(self.overloaded_hosts@[i as int]
                    == self.overloaded_hosts.members@[i as int]@);
                assert(stale == !fresh_addr(addr));
                crate::hosts::lemma_filter_step(before.overloaded_hosts, fresh_addr, seen);
            }
            if stale {
                self.overloaded_hosts.members.remove(i);
                assert(self.overloaded_hosts@ =~= current.remove(i as int));
            } else {
                i = i + 1;
            }
            proof {
                seen = seen + 1;
                assert(self.overloaded_hosts@ =~= before.overloaded_hosts.take(seen).filter(
                    fresh_addr,
                ) + before.overloaded_hosts.skip(seen));
            }
        }
        proof {
            assert(before.overloaded_hosts.take(seen) =~= before.overloaded_hosts);
        }
        let ghost between = self@;
        let mut events: Vec<LogEvent> = Vec::new();
        let mut j: usize = 0;
        proof {
            seen = 0;
            assert(crate::events::event_views(events@) =~= Seq::<EventView>::empty());
        }
        while j < self.hosts.entries.len()
            invariant
                self@ == (SharedView { hosts: self@.hosts, ..between }),
                between.hosts == before.hosts,
                0 <= seen <= before.hosts.len(),
                fresh_entry == (|entry: EntryView| !entry.host.expired(now_ns, expiry_ns)),
                self@.hosts == before.hosts.take(seen).filter(fresh_entry)
                    + before.hosts.skip(seen),
                j == before.hosts.take(seen).filter(fresh_entry).len(),
                crate::events::event_views(events@) == expiry_events(
                    before.hosts.take(seen),
                    now_ns,
                    expiry_ns,
                ),
            decreases self.hosts.entries.len() - j,
        {
            let ghost current = self@.hosts;
            let stale = self.hosts.entries[j].host.is_expired(now_ns, expiry_ns);
            proof {
                let entry = before.hosts[seen];
                assert(current[j as int] == entry);
                assert(self.hosts@[j as int] == self.hosts.entries@[j as int]@);
                assert(stale == !fresh_entry(entry));
                crate::hosts::lemma_filter_step(before.hosts, fresh_entry, seen);
                assert(before.hosts.take(seen + 1).drop_last() =~= before.hosts.take(seen));
            }
            if stale {
                let ghost told = crate::events::event_views(events@);
                let gone = self.hosts.entries.remove(j);
                let event = LogEvent::HostExpired { addr: gone.addr };
                events.push(event);
                assert(crate::events::event_views(events@) =~= told.push(event@));
                assert(self.hosts@ =~= current.remove(j as int));
            } else {
                j = j + 1;
            }
            proof {
                seen = seen + 1;
                assert(self.hosts@ =~= before.hosts.take(seen).filter(fresh_entry)
                    + before.hosts.skip(seen));
            }
        }
        proof {
            assert(before.hosts.take(seen) =~= before.hosts);
            let entry_addr = |entry: EntryView| entry.addr;
            let own = |addr: Seq<char>| addr;
            crate::hosts::lemma_filter_keys(before.hosts, fresh_entry, entry_addr);
            crate::hosts::lemma_filter_keys(before.overloaded_hosts, fresh_addr, own);
            assert forall|i: int, j: int| 0 <= i < j < self@.hosts.len() implies self@.hosts[i].addr
                != self@.hosts[j].addr by {
                assert(entry_addr(self@.hosts[i]) != entry_addr(self@.hosts[j]));
            }
            assert forall|i: int, j: int|
                0 <= i < self@.overloaded_hosts.len() && 0 <= j < self@.overloaded_hosts.len() && i
                    != j implies self@.overloaded_hosts[i] != self@.overloaded_hosts[j] by {
                if i < j {
                    assert(own(self@.overloaded_hosts[i]) != own(self@.overloaded_hosts[j]));
                } else {
                    assert(own(self@.overloaded_hosts[j]) != own(self@.overloaded_hosts[i]));
                }
            }
        }
        events
    }

    pub fn is_host_overloaded(&self, addr: &str) -> (r: bool)
        ensures
            r == self@.overloaded_hosts.contains(addr@),
    {
        self.overloaded_hosts.contains(addr)
    }

    pub fn has_overloaded_hosts(&self) -> (r: bool)
        ensures
            r == (self@.overloaded_hosts.len() > 0),
    {
        self.overloaded_hosts.len() > 0
    }

    /// Deterministic load shedding: returns true if this request should be
    /// rejected with 503. Uses a counter-based approach (not random) so that
    /// the shed rate converges exactly to `shed_fraction` over time.
    pub fn should_shed_request(&mut self) -> (r: bool)
        ensures
            r == old(self)@.sheds_next(),
            final(self)@ == old(self)@.after_shed_decision(),
            old(self).wf() ==> final(self).wf(),
    {
        if self.shed_fraction.at_most(Binary64::from_bits(0)) {
            return false;
        }
        let seen = self.request_counter as u128;
        self.request_counter = self.request_counter.wrapping_add(1);
        proof {
            crate::number::powers::lemma_small_powers();
            crate::number::exactness::lemma_exact_integer(1);
            if let Datum::Finite { units, .. } = self.shed_fraction@ {
                crate::number::whole::lemma_share_step(seen as nat, units);
            }
        }
        if !self.shed_fraction.below(Binary64::from_u64(1)) {
            return true;  // fraction >= 1.0, shed everything
        }
        // Shed where the share of all requests passes a whole number, which is every Nth
        // request where N = 1/fraction.
        // E.g. fraction=0.2 -> shed every 5th request.
        self.shed_fraction.share(seen + 1) > self.shed_fraction.share(seen)
    }
}

/// Among distinct hosts, the next address is not yet among the overloaded ones.
pub proof fn lemma_not_yet_overloaded(hosts: Seq<EntryView>, i: int)
    requires
        0 <= i < hosts.len(),
        crate::hosts::distinct(hosts),
    ensures
        !overloaded_addresses(hosts.take(i)).contains(hosts[i].addr),
{
    lemma_overloaded_addresses(hosts.take(i));
}

/// The addresses of the overloaded hosts are those of hosts, and of overloaded ones.
pub proof fn lemma_overloaded_addresses(hosts: Seq<EntryView>)
    ensures
        forall|addr: Seq<char>|
            #[trigger] overloaded_addresses(hosts).contains(addr) <==> exists|i: int|
                crate::hosts::is_at(hosts, addr, i) && hosts[i].host.is_overloaded,
        overloaded_addresses(hosts).len() <= hosts.len(),
    decreases hosts.len(),
{
    let all = overloaded_addresses(hosts);
    if hosts.len() > 0 {
        let front = hosts.drop_last();
        let rest = overloaded_addresses(front);
        lemma_overloaded_addresses(front);
        assert forall|addr: Seq<char>| #[trigger] all.contains(addr) <==> exists|i: int|
            crate::hosts::is_at(hosts, addr, i) && hosts[i].host.is_overloaded by {
            if all.contains(addr) {
                if rest.contains(addr) {
                    let i = choose|i: int|
                        crate::hosts::is_at(front, addr, i) && front[i].host.is_overloaded;
                    assert(crate::hosts::is_at(hosts, addr, i));
                } else {
                    let k = choose|k: int| 0 <= k < all.len() && all[k] == addr;
                    if k < rest.len() {
                        assert(rest[k] == addr);
                    }
                    assert(crate::hosts::is_at(hosts, addr, hosts.len() - 1));
                }
            }
            if exists|i: int| crate::hosts::is_at(hosts, addr, i) && hosts[i].host.is_overloaded {
                let i = choose|i: int|
                    crate::hosts::is_at(hosts, addr, i) && hosts[i].host.is_overloaded;
                if i < front.len() {
                    assert(crate::hosts::is_at(front, addr, i));
                    assert(rest.contains(addr));
                    let k = choose|k: int| 0 <= k < rest.len() && rest[k] == addr;
                    assert(all[k] == addr);
                } else {
                    assert(all[rest.len() as int] == addr);
                }
            }
        }
    }
}

} // verus!
