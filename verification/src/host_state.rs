//! The state kept for one upstream host.

use crate::config::PluginConfig;
use crate::events::{Effects, EventView, LogEvent};
use crate::gradient2::{Gradient2Params, Gradient2Result};
use crate::metrics::{MetricUpdate, PluginMetrics};
use crate::number::binary64::Binary64;
use crate::number::datum::Datum;
use vstd::prelude::*;

verus! {

/// Per-host concurrency state tracked by the plugin.
#[derive(Debug)]
pub struct HostState {
    pub current_limit: u32,
    pub in_flight: u32,
    pub latency_samples: Vec<u64>,
    pub min_rtt_ns: Option<u64>,
    pub windows_since_min_rtt: u32,
    pub is_probing_min_rtt: bool,
    pub probe_samples: Vec<u64>,
    pub last_seen_ns: u64,
    pub is_overloaded: bool,
    pub overloaded_since_ns: u64,
    pub last_gradient: Binary64,
    pub total_requests: u64,
    pub total_limited: u64,
}

/// A host's state as a mathematical value.
#[verifier::ext_equal]
pub struct HostView {
    pub current_limit: u32,
    pub in_flight: u32,
    pub latency_samples: Seq<u64>,
    pub min_rtt_ns: Option<u64>,
    pub windows_since_min_rtt: u32,
    pub is_probing_min_rtt: bool,
    pub probe_samples: Seq<u64>,
    pub last_seen_ns: u64,
    pub is_overloaded: bool,
    pub overloaded_since_ns: u64,
    pub last_gradient: Datum,
    pub total_requests: u64,
    pub total_limited: u64,
}

impl View for HostState {
    type V = HostView;

    open spec fn view(&self) -> HostView {
        HostView {
            current_limit: self.current_limit,
            in_flight: self.in_flight,
            latency_samples: self.latency_samples@,
            min_rtt_ns: self.min_rtt_ns,
            windows_since_min_rtt: self.windows_since_min_rtt,
            is_probing_min_rtt: self.is_probing_min_rtt,
            probe_samples: self.probe_samples@,
            last_seen_ns: self.last_seen_ns,
            is_overloaded: self.is_overloaded,
            overloaded_since_ns: self.overloaded_since_ns,
            last_gradient: self.last_gradient@,
            total_requests: self.total_requests,
            total_limited: self.total_limited,
        }
    }
}

/// The time from `earlier` to `now`, zero where the clock went back.
pub open spec fn elapsed(now: u64, earlier: u64) -> u64 {
    if now >= earlier {
        (now - earlier) as u64
    } else {
        0
    }
}

impl HostView {
    /// A host seen for the first time.
    pub open spec fn fresh(initial_limit: u32, now_ns: u64) -> HostView {
        HostView {
            current_limit: initial_limit,
            in_flight: 0,
            latency_samples: Seq::empty(),
            min_rtt_ns: None,
            windows_since_min_rtt: 0,
            is_probing_min_rtt: false,
            probe_samples: Seq::empty(),
            last_seen_ns: now_ns,
            is_overloaded: false,
            overloaded_since_ns: 0,
            last_gradient: Datum::of_nat(1),
            total_requests: 0,
            total_limited: 0,
        }
    }

    /// After a request with the given latency ended: the sample counts for the probe that is
    /// under way, or else for the window.
    pub open spec fn after_request(self, latency_ns: u64, now_ns: u64) -> HostView {
        HostView {
            in_flight: if self.in_flight > 0 {
                (self.in_flight - 1) as u32
            } else {
                0
            },
            last_seen_ns: now_ns,
            latency_samples: if self.is_probing_min_rtt {
                self.latency_samples
            } else {
                self.latency_samples.push(latency_ns)
            },
            probe_samples: if self.is_probing_min_rtt {
                self.probe_samples.push(latency_ns)
            } else {
                self.probe_samples
            },
            ..self
        }
    }

    /// After a response with the given latency was counted, rejected or not.
    pub open spec fn counted(self, latency_ns: u64, now_ns: u64, rejected: bool) -> HostView {
        HostView {
            total_requests: (self.total_requests + 1) as u64,
            total_limited: if rejected {
                (self.total_limited + 1) as u64
            } else {
                self.total_limited
            },
            ..self.after_request(latency_ns, now_ns)
        }
    }

    /// Whether the counters can count one response more.
    pub open spec fn countable(self, rejected: bool) -> bool {
        self.total_requests < u64::MAX && (rejected ==> self.total_limited < u64::MAX)
    }

    /// The round-trip time that stands for the window.
    pub open spec fn sample_rtt(self, config: PluginConfig) -> u64 {
        crate::gradient2::percentile_value(
            crate::samples::ascending(self.latency_samples),
            config.sample_percentile@,
        )
    }

    /// The minRTT, for which the first window stands in as long as there is none.
    pub open spec fn baseline(self, config: PluginConfig) -> u64 {
        match self.min_rtt_ns {
            Some(rtt) => rtt,
            None => self.sample_rtt(config),
        }
    }

    /// What goes into the Gradient2 calculation.
    pub open spec fn gradient2_params(self, config: PluginConfig) -> Gradient2Params {
        Gradient2Params {
            current_limit: self.current_limit,
            min_rtt_ns: self.baseline(config),
            sample_rtt_ns: self.sample_rtt(config),
            min_limit: config.min_concurrency_limit,
            max_limit: config.max_concurrency_limit,
            max_gradient: config.max_gradient,
            min_rtt_buffer_pct: config.min_rtt_buffer_pct,
        }
    }

    /// Whether a recalculation stays within what the calculation and the counter can hold.
    pub open spec fn recalculable(self, config: PluginConfig) -> bool {
        self.latency_samples.len() > 0 ==> {
            &&& self.gradient2_params(config).computable()
            &&& self.windows_since_min_rtt < u32::MAX
        }
    }

    /// The limit lies in the configured range.
    pub open spec fn limit_in_range(self, config: PluginConfig) -> bool {
        config.min_concurrency_limit <= self.current_limit <= config.max_concurrency_limit
    }

    /// Whether the host counts as overloaded under a new gradient: below the one threshold it
    /// does, above the other it does not, and between them nothing changes.
    pub open spec fn overloaded_under(self, gradient: Datum, config: PluginConfig) -> bool {
        if gradient.below(config.overload_gradient_threshold@) {
            true
        } else if config.recovery_gradient_threshold@.below(gradient) {
            false
        } else {
            self.is_overloaded
        }
    }

    /// After the limit was recalculated out of a window of samples.
    pub open spec fn recalculated(self, config: PluginConfig, now_ns: u64) -> HostView {
        if self.latency_samples.len() == 0 {
            self
        } else {
            let params = self.gradient2_params(config);
            let gradient = params.gradient();
            HostView {
                current_limit: params.new_limit() as u32,
                min_rtt_ns: Some(self.baseline(config)),
                latency_samples: Seq::empty(),
                last_gradient: gradient,
                is_overloaded: self.overloaded_under(gradient, config),
                overloaded_since_ns: if gradient.below(config.overload_gradient_threshold@)
                    && !self.is_overloaded {
                    now_ns
                } else {
                    self.overloaded_since_ns
                },
                windows_since_min_rtt: (self.windows_since_min_rtt + 1) as u32,
                ..self
            }
        }
    }

    /// After a probe for a new minRTT was started.
    pub open spec fn probe_started(self) -> HostView {
        HostView { is_probing_min_rtt: true, probe_samples: Seq::empty(), ..self }
    }

    /// The round-trip time that stands for the probe.
    pub open spec fn probed_rtt(self, config: PluginConfig) -> u64 {
        crate::gradient2::percentile_value(
            crate::samples::ascending(self.probe_samples),
            config.sample_percentile@,
        )
    }

    /// The minRTT after the probe: a fifth of it is what was probed, and the rest what was
    /// known before.
    pub open spec fn probed_min_rtt(self, config: PluginConfig) -> Option<u64> {
        let probed = self.probed_rtt(config);
        if self.probe_samples.len() > 0 && probed > 0 {
            match self.min_rtt_ns {
                Some(existing) => Some(blended(existing, probed)),
                None => Some(probed),
            }
        } else {
            self.min_rtt_ns
        }
    }

    /// After the probe was finished.
    pub open spec fn probe_finished(self, config: PluginConfig) -> HostView {
        HostView {
            min_rtt_ns: self.probed_min_rtt(config),
            is_probing_min_rtt: false,
            probe_samples: Seq::empty(),
            windows_since_min_rtt: 0,
            ..self
        }
    }

    /// Whether the host was last seen more than `expiry_ns` ago.
    pub open spec fn expired(self, now_ns: u64, expiry_ns: u64) -> bool {
        elapsed(now_ns, self.last_seen_ns) > expiry_ns
    }

    /// Whether the time for a new probe has come.
    pub open spec fn probe_due(self, recalc_windows: u32) -> bool {
        !self.is_probing_min_rtt && self.windows_since_min_rtt >= recalc_windows
    }
}

impl HostView {
    /// After the probe was finished, where it has enough samples.
    pub open spec fn probe_settled(self, config: PluginConfig) -> HostView {
        if self.is_probing_min_rtt && self.probe_samples.len() >= config.min_rtt_probe_count {
            self.probe_finished(config)
        } else {
            self
        }
    }

    /// Whether the window is full.
    pub open spec fn window_full(self, config: PluginConfig) -> bool {
        self.latency_samples.len() >= config.sample_window_size
    }

    /// After the periodic recalculation: a probe with enough samples is finished, a full window
    /// gives a new limit, and then the next probe starts where it is due.
    pub open spec fn ticked(self, config: PluginConfig, now_ns: u64) -> HostView {
        let settled = self.probe_settled(config);
        if settled.window_full(config) {
            let measured = settled.recalculated(config, now_ns);
            if measured.probe_due(config.min_rtt_recalc_windows) {
                measured.probe_started()
            } else {
                measured
            }
        } else {
            settled
        }
    }

    /// Whether the periodic recalculation stays within what the calculation and the counter
    /// can hold.
    pub open spec fn tickable(self, config: PluginConfig) -> bool {
        let settled = self.probe_settled(config);
        settled.window_full(config) ==> settled.recalculable(config)
    }

    /// The metric updates of the periodic recalculation.
    pub open spec fn tick_updates(
        self,
        config: PluginConfig,
        now_ns: u64,
        metrics: Option<PluginMetrics>,
    ) -> Seq<MetricUpdate> {
        let settled = self.probe_settled(config);
        if metrics is Some && settled.window_full(config) && settled.latency_samples.len() > 0 {
            let m = metrics->0;
            let measured = settled.recalculated(config, now_ns);
            seq![
                MetricUpdate::Increment { id: m.limit_recalculations, offset: 1 },
                m.gradient_update(measured.last_gradient),
            ] + if measured.is_overloaded && !settled.is_overloaded {
                seq![MetricUpdate::Increment { id: m.hosts_marked_overloaded, offset: 1 }]
            } else if !measured.is_overloaded && settled.is_overloaded {
                seq![MetricUpdate::Increment { id: m.hosts_recovered, offset: 1 }]
            } else {
                seq![]
            }
        } else {
            seq![]
        }
    }

    /// The events of the periodic recalculation of the host with an address.
    pub open spec fn tick_events(
        self,
        addr: Seq<char>,
        config: PluginConfig,
        now_ns: u64,
    ) -> Seq<EventView> {
        let settled = self.probe_settled(config);
        let measured = settled.recalculated(config, now_ns);
        let completion = if self.is_probing_min_rtt && self.probe_samples.len()
            >= config.min_rtt_probe_count {
            seq![EventView::ProbeComplete { addr, min_rtt_us: whole_micros(settled.min_rtt_ns) }]
        } else {
            seq![]
        };
        let change = if settled.window_full(config) && measured.current_limit
            != settled.current_limit {
            seq![
                EventView::LimitChanged {
                    addr,
                    old_limit: settled.current_limit,
                    new_limit: measured.current_limit,
                    gradient: measured.last_gradient,
                },
            ]
        } else {
            seq![]
        };
        let start = if settled.window_full(config) && measured.probe_due(
            config.min_rtt_recalc_windows,
        ) {
            seq![EventView::ProbeStarted { addr }]
        } else {
            seq![]
        };
        completion + change + start
    }

    /// Since when an overloaded host has got no new samples: the later of when it became
    /// overloaded and when it was last seen.
    pub open spec fn quiet_since_ns(self) -> u64 {
        if self.last_seen_ns > self.overloaded_since_ns {
            self.last_seen_ns
        } else {
            self.overloaded_since_ns
        }
    }

    /// Whether the host has been overloaded for longer than the recovery timeout without getting
    /// new samples.
    pub open spec fn timed_out(self, recovery_ns: u64, now_ns: u64) -> bool {
        self.is_overloaded && recovery_ns > 0 && elapsed(now_ns, self.quiet_since_ns())
            > recovery_ns
    }

    /// After the overload status was looked at: a host that was overloaded for too long without
    /// new samples starts over, so that it gets measured with fresh data.
    pub open spec fn reviewed(
        self,
        config: PluginConfig,
        recovery_ns: u64,
        now_ns: u64,
    ) -> HostView {
        if self.timed_out(recovery_ns, now_ns) {
            HostView {
                is_overloaded: false,
                min_rtt_ns: None,
                current_limit: config.initial_concurrency_limit,
                latency_samples: Seq::empty(),
                ..self
            }
        } else {
            self
        }
    }
}

/// Nanoseconds in whole microseconds.
pub open spec fn whole_micros(ns: Option<u64>) -> Option<u64> {
    match ns {
        Some(ns) => Some(ns / 1000),
        None => None,
    }
}

/// `existing * 0.8 + probed * 0.2`, without its fraction.
pub open spec fn blended(existing: u64, probed: u64) -> u64 {
    Datum::of_nat(existing as nat).times(Datum::of_ratio(8, 10)).plus(
        Datum::of_nat(probed as nat).times(Datum::of_ratio(2, 10)),
    ).truncated(u64::MAX as nat) as u64
}

/// The minRTT after a probe found the given round-trip time, where zero is no finding.
fn blend_min_rtt(min_rtt_ns: Option<u64>, probed_rtt: u64) -> (r: Option<u64>)
    ensures
        r == if probed_rtt > 0 {
            match min_rtt_ns {
                Some(existing) => Some(blended(existing, probed_rtt)),
                None => Some(probed_rtt),
            }
        } else {
            min_rtt_ns
        },
{
    if probed_rtt > 0 {
        match min_rtt_ns {
            Some(existing) => {
                let kept = Binary64::from_u64(existing).times(Binary64::from_ratio(8, 10));
                let added = Binary64::from_u64(probed_rtt).times(Binary64::from_ratio(2, 10));
                Some(kept.plus(added).truncate())
            },
            None => Some(probed_rtt),
        }
    } else {
        min_rtt_ns
    }
}

/// The percentile of samples in any order.
fn percentile_of(samples: &Vec<u64>, p: Binary64) -> (r: u64)
    ensures
        r == crate::gradient2::percentile_value(crate::samples::ascending(samples@), p@),
{
    let mut sorted = samples.clone();
    crate::samples::sort_samples(&mut sorted);
    crate::gradient2::percentile(sorted.as_slice(), p)
}

impl HostState {
    /// A host seen for the first time.
    pub fn new(initial_limit: u32, now_ns: u64) -> (r: HostState)
        ensures
            r@ == HostView::fresh(initial_limit, now_ns),
    {
        HostState {
            current_limit: initial_limit,
            in_flight: 0,
            latency_samples: Vec::with_capacity(256),
            min_rtt_ns: None,
            windows_since_min_rtt: 0,
            is_probing_min_rtt: false,
            probe_samples: Vec::new(),
            last_seen_ns: now_ns,
            is_overloaded: false,
            overloaded_since_ns: 0,
            last_gradient: Binary64::from_u64(1),
            total_requests: 0,
            total_limited: 0,
        }
    }

    /// Records that a request ended.
    pub fn record_request_end(&mut self, latency_ns: u64, now_ns: u64)
        ensures
            final(self)@ == old(self)@.after_request(latency_ns, now_ns),
    {
        self.in_flight = self.in_flight.saturating_sub(1);
        self.last_seen_ns = now_ns;
        if self.is_probing_min_rtt {
            self.probe_samples.push(latency_ns);
        } else {
            self.latency_samples.push(latency_ns);
        }
    }

    pub fn has_enough_samples(&self, window_size: usize) -> (r: bool)
        ensures
            r == (self@.latency_samples.len() >= window_size),
    {
        self.latency_samples.len() >= window_size
    }

    pub fn has_enough_probe_samples(&self, count: usize) -> (r: bool)
        ensures
            r == (self@.probe_samples.len() >= count),
    {
        self.probe_samples.len() >= count
    }

    /// Recalculate the concurrency limit using Gradient2.
    pub fn recalculate_limit(&mut self, config: &PluginConfig, now_ns: u64) -> (r: Option<
        Gradient2Result,
    >)
        requires
            old(self)@.recalculable(*config),
        ensures
            final(self)@ == old(self)@.recalculated(*config, now_ns),
            r is None <==> old(self)@.latency_samples.len() == 0,
            r matches Some(result) ==> {
                &&& result.new_limit == old(self)@.gradient2_params(*config).new_limit()
                &&& result.gradient@ == old(self)@.gradient2_params(*config).gradient()
                &&& result.new_limit == final(self)@.current_limit
                &&& result.gradient@ == final(self)@.last_gradient
            },
            old(self)@.limit_in_range(*config) ==> final(self)@.limit_in_range(*config),
    {
        if self.latency_samples.len() == 0 {
            return None;
        }
        let ghost before = self@;
        crate::samples::sort_samples(&mut self.latency_samples);
        let sample_rtt = crate::gradient2::percentile(
            self.latency_samples.as_slice(),
            config.sample_percentile,
        );
        // If we don't have a minRTT yet, use first window as baseline
        let min_rtt: u64 = match self.min_rtt_ns {
            Some(rtt) => rtt,
            None => {
                self.min_rtt_ns = Some(sample_rtt);
                sample_rtt
            },
        };
        let params = Gradient2Params {
            current_limit: self.current_limit,
            min_rtt_ns: min_rtt,
            sample_rtt_ns: sample_rtt,
            min_limit: config.min_concurrency_limit,
            max_limit: config.max_concurrency_limit,
            max_gradient: config.max_gradient,
            min_rtt_buffer_pct: config.min_rtt_buffer_pct,
        };
        assert(params == before.gradient2_params(*config));
        let result = crate::gradient2::calculate_new_limit(&params);
        self.current_limit = result.new_limit;
        self.last_gradient = result.gradient;
        self.latency_samples.clear();
        // Update overload status based on gradient
        if result.gradient.below(config.overload_gradient_threshold) {
            if !self.is_overloaded {
                self.overloaded_since_ns = now_ns;
            }
            self.is_overloaded = true;
        } else if config.recovery_gradient_threshold.below(result.gradient) {
            self.is_overloaded = false;
        }
        self.windows_since_min_rtt = self.windows_since_min_rtt + 1;
        Some(result)
    }

    /// Starts a probe for a new minRTT.
    pub fn start_min_rtt_probe(&mut self)
        ensures
            final(self)@ == old(self)@.probe_started(),
    {
        self.is_probing_min_rtt = true;
        self.probe_samples.clear();
    }

    /// Finishes the probe and blends what it found into the minRTT.
    pub fn finish_min_rtt_probe(&mut self, config: &PluginConfig)
        ensures
            final(self)@ == old(self)@.probe_finished(*config),
    {
        if self.probe_samples.len() > 0 {
            crate::samples::sort_samples(&mut self.probe_samples);
            let probed_rtt = crate::gradient2::percentile(
                self.probe_samples.as_slice(),
                config.sample_percentile,
            );
            self.min_rtt_ns = blend_min_rtt(self.min_rtt_ns, probed_rtt);
        }
        self.is_probing_min_rtt = false;
        self.probe_samples.clear();
        self.windows_since_min_rtt = 0;
    }

    pub fn is_expired(&self, now_ns: u64, expiry_ns: u64) -> (r: bool)
        ensures
            r == self@.expired(now_ns, expiry_ns),
    {
        now_ns.saturating_sub(self.last_seen_ns) > expiry_ns
    }

    pub fn should_start_probe(&self, recalc_windows: u32) -> (r: bool)
        ensures
            r == self@.probe_due(recalc_windows),
    {
        !self.is_probing_min_rtt && self.windows_since_min_rtt >= recalc_windows
    }

    /// Whether the limit of the host can be recalculated: the calculation needs ranges to clamp
    /// to, and the count of windows must not run over.
    pub fn is_tickable(&self, config: &PluginConfig) -> (r: bool)
        ensures
            r == self@.tickable(*config),
    {
        if self.latency_samples.len() == 0 || !self.has_enough_samples(
            config.sample_window_size,
        ) {
            return true;
        }
        let settles = self.is_probing_min_rtt && self.has_enough_probe_samples(
            config.min_rtt_probe_count,
        );
        if !settles && self.windows_since_min_rtt == u32::MAX {
            return false;
        }
        if config.check_ranges() {
            return true;
        }
        let sample_rtt = percentile_of(&self.latency_samples, config.sample_percentile);
        let known: Option<u64> = if settles && self.probe_samples.len() > 0 {
            blend_min_rtt(
                self.min_rtt_ns,
                percentile_of(&self.probe_samples, config.sample_percentile),
            )
        } else {
            self.min_rtt_ns
        };
        let min_rtt: u64 = match known {
            Some(rtt) => rtt,
            None => sample_rtt,
        };
        min_rtt == 0 || sample_rtt == 0
    }

    /// The periodic recalculation of the host with an address; returns the metric updates to send
    /// and the events to log.
    pub fn tick(
        &mut self,
        addr: &str,
        config: &PluginConfig,
        now_ns: u64,
        metrics: Option<PluginMetrics>,
    ) -> (effects: Effects)
        requires
            old(self)@.tickable(*config),
        ensures
            final(self)@ == old(self)@.ticked(*config, now_ns),
            effects.updates@ == old(self)@.tick_updates(*config, now_ns, metrics),
            crate::events::event_views(effects.events@) == old(self)@.tick_events(
                addr@,
                *config,
                now_ns,
            ),
    {
        let ghost before = self@;
        let mut effects = Effects::new();
        // Handle minRTT probe completion
        if self.is_probing_min_rtt && self.has_enough_probe_samples(config.min_rtt_probe_count) {
            self.finish_min_rtt_probe(config);
            let min_rtt_us: Option<u64> = match self.min_rtt_ns {
                Some(ns) => Some(ns / 1000),
                None => None,
            };
            effects.log(LogEvent::ProbeComplete { addr: addr.to_owned(), min_rtt_us });
        }
        assert(self@ == before.probe_settled(*config));
        // Recalculate limit if we have enough samples
        if self.has_enough_samples(config.sample_window_size) {
            let old_limit = self.current_limit;
            let was_overloaded = self.is_overloaded;
            if let Some(result) = self.recalculate_limit(config, now_ns) {
                if let Some(m) = metrics {
                    effects.updates.push(m.inc_limit_recalculations());
                    effects.updates.push(m.record_gradient(result.gradient));
                    // Detect state transitions
                    if self.is_overloaded && !was_overloaded {
                        effects.updates.push(m.inc_hosts_marked_overloaded());
                    } else if !self.is_overloaded && was_overloaded {
                        effects.updates.push(m.inc_hosts_recovered());
                    }
                }
                if old_limit != result.new_limit {
                    effects.log(
                        LogEvent::LimitChanged {
                            addr: addr.to_owned(),
                            old_limit,
                            new_limit: result.new_limit,
                            gradient: result.gradient,
                        },
                    );
                }
            }
            if self.should_start_probe(config.min_rtt_recalc_windows) {
                self.start_min_rtt_probe();
                effects.log(LogEvent::ProbeStarted { addr: addr.to_owned() });
            }
        }
        assert(effects.updates@ =~= before.tick_updates(*config, now_ns, metrics));
        assert(crate::events::event_views(effects.events@) =~= before.tick_events(
            addr@,
            *config,
            now_ns,
        ));
        effects
    }

    /// Time-based recovery: a host that has been overloaded for too long without getting new
    /// samples is reset. Returns whether it was.
    pub fn review(&mut self, config: &PluginConfig, recovery_ns: u64, now_ns: u64) -> (reset: bool)
        ensures
            reset == old(self)@.timed_out(recovery_ns, now_ns),
            final(self)@ == old(self)@.reviewed(*config, recovery_ns, now_ns),
    {
        if self.is_overloaded {
            // Every sample starts the timeout over
            let quiet_since_ns = if self.last_seen_ns > self.overloaded_since_ns {
                self.last_seen_ns
            } else {
                self.overloaded_since_ns
            };
            if recovery_ns > 0 && now_ns.saturating_sub(quiet_since_ns) > recovery_ns {
                self.is_overloaded = false;
                // Reset minRTT so it gets re-measured with fresh data
                self.min_rtt_ns = None;
                self.current_limit = config.initial_concurrency_limit;
                self.latency_samples.clear();
                return true;
            }
        }
        false
    }
}

} // verus!
