//! The plugin as a whole: configuration and periodic work.

use crate::config::PluginConfig;
use crate::events::{Effects, EventView, LogEvent};
use crate::hosts::EntryView;
use crate::metrics::{MetricUpdate, PluginMetrics};
use crate::shared_state::{SharedState, SharedView};
use crate::stats::Summary;
use vstd::prelude::*;

verus! {

/// The root of the plugin, which owns the shared state.
#[derive(Debug)]
pub struct AdaptiveConcurrencyRoot {
    pub shared: SharedState,
}

/// What the periodic work has to report: the metric updates to send, and the events and a summary
/// to log.
#[derive(Debug)]
pub struct TickReport {
    pub updates: Vec<MetricUpdate>,
    pub events: Vec<LogEvent>,
    pub summary: Summary,
}

impl SharedView {
    /// After the periodic work: the limits are recalculated, then the set of overloaded hosts is
    /// rebuilt, then the adaptive timeout is computed, then stale hosts are forgotten.
    pub open spec fn ticked(self, now_ns: u64) -> SharedView {
        let rebuilt = self.recalculated(now_ns).with_overloaded_set(now_ns);
        rebuilt.with_adaptive_timeout().without_stale_hosts(now_ns)
    }

    /// Whether the periodic work stays within what the calculation and the counters can hold.
    pub open spec fn can_tick(self, now_ns: u64) -> bool {
        &&& self.tickable()
        &&& self.config.has_timeouts()
        &&& crate::stats::total_in_flight(self.ticked(now_ns).hosts) <= u32::MAX
    }

    /// The metric updates of the periodic work.
    pub open spec fn tick_updates(self, now_ns: u64) -> Seq<MetricUpdate> {
        let recalculated = self.recalculated(now_ns);
        let rebuilt = recalculated.with_overloaded_set(now_ns);
        crate::shared_state::recalculation_updates(self.hosts, self.config, now_ns, self.metrics)
            + recalculated.overloaded_set_updates(now_ns)
            + match rebuilt.adaptive_timeout_update() {
            Some(update) => seq![update],
            None => seq![],
        }
    }

    /// The events of the periodic work.
    pub open spec fn tick_events(self, now_ns: u64) -> Seq<EventView> {
        let recalculated = self.recalculated(now_ns);
        let rebuilt = recalculated.with_overloaded_set(now_ns);
        crate::shared_state::recalculation_events(self.hosts, self.config, now_ns)
            + crate::shared_state::timeout_events(recalculated.hosts, self.recovery_ns(), now_ns)
            + match rebuilt.adaptive_timeout_event() {
            Some(event) => seq![event],
            None => seq![],
        } + crate::shared_state::expiry_events(rebuilt.hosts, now_ns, self.expiry_ns())
    }
}

impl AdaptiveConcurrencyRoot {
    /// The plugin before it is configured.
    pub fn new() -> (r: AdaptiveConcurrencyRoot)
        ensures
            r.shared.wf(),
            r.shared@.config.is_default(),
            r.shared@ == SharedView::initial(r.shared@.config),
    {
        AdaptiveConcurrencyRoot { shared: SharedState::new(PluginConfig::default()) }
    }

    /// Takes over a configuration: the one that was given, if it could be read, and the default
    /// one where none was given. Returns the tick period in milliseconds, or why the
    /// configuration was refused; the state stays as it was then.
    pub fn on_configure(&mut self, given: Option<Result<PluginConfig, String>>) -> (r: Result<
        u64,
        String,
    >)
        requires
            old(self).shared.wf(),
        ensures
            final(self).shared.wf(),
            given is None ==> {
                &&& r == Ok::<u64, String>(1000)
                &&& final(self).shared@.config.is_default()
                &&& final(self).shared@ == (SharedView {
                    config: final(self).shared@.config,
                    ..old(self).shared@
                })
            },
            given matches Some(Ok(config)) ==> {
                &&& r == Ok::<u64, String>(config.tick_period_ms)
                &&& final(self).shared@ == (SharedView { config, ..old(self).shared@ })
            },
            given matches Some(Err(reason)) ==> {
                &&& r matches Err(message)
                &&& message@ == "failed to parse config: "@ + reason@
                &&& final(self).shared@ == old(self).shared@
            },
    {
        let config = match given {
            Some(parsed) => match PluginConfig::from_json(parsed) {
                Ok(c) => c,
                Err(message) => {
                    return Err(message);
                },
            },
            None => PluginConfig::default(),
        };
        self.shared.config = config;
        Ok(config.tick_period_ms)
    }

    /// Takes over the metrics, out of the outcomes of defining each of
    /// `PluginMetrics::definitions()`, in that order.
    pub fn on_metrics_defined(&mut self, outcomes: &[Option<u32>])
        requires
            old(self).shared.wf(),
            outcomes@.len() == crate::metrics::definition_table().len(),
        ensures
            final(self).shared.wf(),
            final(self).shared@.metrics matches Some(m) && m.ids() == outcomes@.map_values(
                |outcome: Option<u32>| PluginMetrics::id_of(outcome),
            ),
            final(self).shared@ == (SharedView {
                metrics: final(self).shared@.metrics,
                ..old(self).shared@
            }),
    {
        self.shared.metrics = Some(PluginMetrics::new(outcomes));
    }

    /// Whether the periodic work can be done.
    pub fn can_tick(&self, now_ns: u64) -> (r: bool)
        ensures
            r == self.shared@.can_tick(now_ns),
    {
        if !self.shared.is_tickable() || !self.shared.config.check_timeouts() {
            return false;
        }
        let expiry_ns: u64 = self.shared.config.host_expiry_secs * 1_000_000_000;
        let ghost shared = self.shared@;
        let ghost rebuilt = shared.recalculated(now_ns).with_overloaded_set(now_ns);
        let ghost keep = |entry: EntryView| !entry.host.expired(now_ns, expiry_ns);
        let mut in_flight: u128 = 0;
        let mut i: usize = 0;
        proof {
            assert(rebuilt.hosts.take(0).filter(keep) =~= Seq::<EntryView>::empty()) by {
                crate::hosts::lemma_filter_keys(
                    rebuilt.hosts.take(0),
                    keep,
                    |entry: EntryView| entry.addr,
                );
            }
        }
        while i < self.shared.hosts.entries.len()
            invariant
                i <= self.shared.hosts.entries@.len(),
                shared == self.shared@,
                rebuilt == shared.recalculated(now_ns).with_overloaded_set(now_ns),
                keep == (|entry: EntryView| !entry.host.expired(now_ns, expiry_ns)),
                in_flight == crate::stats::total_in_flight(
                    rebuilt.hosts.take(i as int).filter(keep),
                ),
                in_flight <= i * u32::MAX,
            decreases self.shared.hosts.entries.len() - i,
        {
            let entry = &self.shared.hosts.entries[i];
            proof {
                let next = rebuilt.hosts[i as int];
                assert(shared.hosts[i as int] == entry@);
                assert(next.host.in_flight == entry.host.in_flight);
                assert(next.host.last_seen_ns == entry.host.last_seen_ns);
                crate::hosts::lemma_filter_step(rebuilt.hosts, keep, i as int);
                let kept = rebuilt.hosts.take(i as int).filter(keep);
                assert(kept.push(next).drop_last() =~= kept);
            }
            if !entry.host.is_expired(now_ns, expiry_ns) {
                in_flight = in_flight + entry.host.in_flight as u128;
            }
            i = i + 1;
        }
        assert(rebuilt.hosts.take(i as int) =~= rebuilt.hosts);
        in_flight <= u32::MAX as u128
    }

    /// The periodic work.
    pub fn on_tick(&mut self, now_ns: u64) -> (report: TickReport)
        requires
            old(self).shared.wf(),
            old(self).shared@.can_tick(now_ns),
        ensures
            final(self).shared.wf(),
            final(self).shared@ == old(self).shared@.ticked(now_ns),
            report.updates@ == old(self).shared@.tick_updates(now_ns),
            crate::events::event_views(report.events@) == old(self).shared@.tick_events(now_ns),
            final(self).shared@.is_summary(report.summary),
    {
        let ghost before = self.shared@;
        let mut effects = self.shared.recalculate_all_limits(now_ns);
        effects.join(self.shared.update_overloaded_set(now_ns));
        let (timeout_update, timeout_event) = self.shared.compute_adaptive_timeout();
        if let Some(update) = timeout_update {
            effects.updates.push(update);
        }
        if let Some(event) = timeout_event {
            effects.log(event);
        }
        let expiries = self.shared.expire_stale_hosts(now_ns);
        effects.join(Effects { updates: Vec::new(), events: expiries });
        let summary = crate::stats::log_summary(&self.shared);
        assert(effects.updates@ =~= before.tick_updates(now_ns));
        assert(crate::events::event_views(effects.events@) =~= before.tick_events(now_ns));
        TickReport { updates: effects.updates, events: effects.events, summary }
    }
}

} // verus!
