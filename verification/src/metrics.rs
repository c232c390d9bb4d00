//! The plugin's metrics: their names, their ids, and the updates sent to them.

use crate::number::binary64::Binary64;
use crate::number::datum::Datum;
use vstd::prelude::*;

verus! {

/// How the proxy keeps a metric.
#[derive(Clone, Copy, Debug, PartialEq, Eq, Structural)]
pub enum MetricKind {
    Counter,
    Gauge,
    Histogram,
}

/// A metric to define with the proxy.
#[derive(Clone, Copy, Debug)]
pub struct MetricDefinition {
    pub kind: MetricKind,
    pub name: &'static str,
}

/// An update of a metric that the proxy has to be sent.
#[derive(Clone, Copy, Debug, PartialEq, Eq, Structural)]
pub enum MetricUpdate {
    Increment { id: u32, offset: i64 },
    Record { id: u32, value: u64 },
}

/// Metric IDs for the adaptive concurrency plugin.
///
/// All metrics are prefixed with `adaptive_concurrency_` and appear in
/// Envoy's `/stats` endpoint. They are scrappable by Prometheus via
/// Envoy's stats sink or the `/stats/prometheus` admin endpoint.
///
/// Counters:
///   adaptive_concurrency_requests_total          — total requests observed
///   adaptive_concurrency_requests_shed            — requests rejected
///   adaptive_concurrency_overloaded_responses     — responses from overloaded hosts
///   adaptive_concurrency_hosts_marked_overloaded  — times a host was marked overloaded
///   adaptive_concurrency_hosts_recovered          — times a host recovered (gradient-based)
///   adaptive_concurrency_recovery_timeouts        — times a host was force-recovered by timeout
///   adaptive_concurrency_limit_recalculations     — Gradient2 recalculations performed
///
/// Gauges:
///   adaptive_concurrency_tracked_hosts            — number of tracked upstream hosts
///   adaptive_concurrency_overloaded_hosts         — number of currently overloaded hosts
///   adaptive_concurrency_adaptive_timeout_ms      — current adaptive per-try timeout (ms)
///
/// Histograms:
///   adaptive_concurrency_request_latency_ms       — observed request latency (ms)
///   adaptive_concurrency_gradient                 — computed gradient values
#[derive(Clone, Copy, Debug)]
pub struct PluginMetrics {
    // Counters
    pub requests_total: u32,
    pub requests_shed: u32,
    pub overloaded_responses: u32,
    pub hosts_marked_overloaded: u32,
    pub hosts_recovered: u32,
    pub recovery_timeouts: u32,
    pub limit_recalculations: u32,
    // Gauges
    pub tracked_hosts: u32,
    pub overloaded_hosts: u32,
    pub adaptive_timeout_ms: u32,
    // Histograms
    pub request_latency_ms: u32,
    pub gradient: u32,
}

/// The kind and the name of every metric, in the order in which they are defined.
pub open spec fn definition_table() -> Seq<(MetricKind, Seq<char>)> {
    seq![
        (MetricKind::Counter, "adaptive_concurrency_requests_total"@),
        (MetricKind::Counter, "adaptive_concurrency_requests_shed"@),
        (MetricKind::Counter, "adaptive_concurrency_overloaded_responses"@),
        (MetricKind::Counter, "adaptive_concurrency_hosts_marked_overloaded"@),
        (MetricKind::Counter, "adaptive_concurrency_hosts_recovered"@),
        (MetricKind::Counter, "adaptive_concurrency_recovery_timeouts"@),
        (MetricKind::Counter, "adaptive_concurrency_limit_recalculations"@),
        (MetricKind::Gauge, "adaptive_concurrency_tracked_hosts"@),
        (MetricKind::Gauge, "adaptive_concurrency_overloaded_hosts"@),
        (MetricKind::Gauge, "adaptive_concurrency_adaptive_timeout_ms"@),
        (MetricKind::Histogram, "adaptive_concurrency_request_latency_ms"@),
        (MetricKind::Histogram, "adaptive_concurrency_gradient"@),
    ]
}

impl PluginMetrics {
    /// The ids, in the order in which the metrics are defined.
    pub open spec fn ids(self) -> Seq<u32> {
        seq![
            self.requests_total,
            self.requests_shed,
            self.overloaded_responses,
            self.hosts_marked_overloaded,
            self.hosts_recovered,
            self.recovery_timeouts,
            self.limit_recalculations,
            self.tracked_hosts,
            self.overloaded_hosts,
            self.adaptive_timeout_ms,
            self.request_latency_ms,
            self.gradient,
        ]
    }

    /// The metrics to define with the Envoy host, once, during `on_configure` or `on_vm_start`.
    pub fn definitions() -> (r: Vec<MetricDefinition>)
        ensures
            r@.len() == definition_table().len(),
            forall|i: int|
                #![trigger r@[i]]
                0 <= i < r@.len() ==> r@[i].kind == definition_table()[i].0 && r@[i].name@
                    == definition_table()[i].1,
    {
        vec![
            MetricDefinition {
                kind: MetricKind::Counter,
                name: "adaptive_concurrency_requests_total",
            },
            MetricDefinition {
                kind: MetricKind::Counter,
                name: "adaptive_concurrency_requests_shed",
            },
            MetricDefinition {
                kind: MetricKind::Counter,
                name: "adaptive_concurrency_overloaded_responses",
            },
            MetricDefinition {
                kind: MetricKind::Counter,
                name: "adaptive_concurrency_hosts_marked_overloaded",
            },
            MetricDefinition {
                kind: MetricKind::Counter,
                name: "adaptive_concurrency_hosts_recovered",
            },
            MetricDefinition {
                kind: MetricKind::Counter,
                name: "adaptive_concurrency_recovery_timeouts",
            },
            MetricDefinition {
                kind: MetricKind::Counter,
                name: "adaptive_concurrency_limit_recalculations",
            },
            MetricDefinition {
                kind: MetricKind::Gauge,
                name: "adaptive_concurrency_tracked_hosts",
            },
            MetricDefinition {
                kind: MetricKind::Gauge,
                name: "adaptive_concurrency_overloaded_hosts",
            },
            MetricDefinition {
                kind: MetricKind::Gauge,
                name: "adaptive_concurrency_adaptive_timeout_ms",
            },
            MetricDefinition {
                kind: MetricKind::Histogram,
                name: "adaptive_concurrency_request_latency_ms",
            },
            MetricDefinition {
                kind: MetricKind::Histogram,
                name: "adaptive_concurrency_gradient",
            },
        ]
    }

    /// The id of a metric out of the outcome of defining it: zero where that failed.
    pub open spec fn id_of(outcome: Option<u32>) -> u32 {
        match outcome {
            Some(id) => id,
            None => 0,
        }
    }

    /// The id of a metric out of the outcome of defining it: zero where that failed.
    pub fn define(outcome: Option<u32>) -> (id: u32)
        ensures
            id == PluginMetrics::id_of(outcome),
    {
        match outcome {
            Some(id) => id,
            None => 0,
        }
    }

    /// The ids out of the outcomes of defining each of `definitions()`, in that order.
    pub fn new(outcomes: &[Option<u32>]) -> (r: PluginMetrics)
        requires
            outcomes@.len() == definition_table().len(),
        ensures
            r.ids() == outcomes@.map_values(|outcome: Option<u32>| PluginMetrics::id_of(outcome)),
    {
        let r = PluginMetrics {
            requests_total: PluginMetrics::define(outcomes[0]),
            requests_shed: PluginMetrics::define(outcomes[1]),
            overloaded_responses: PluginMetrics::define(outcomes[2]),
            hosts_marked_overloaded: PluginMetrics::define(outcomes[3]),
            hosts_recovered: PluginMetrics::define(outcomes[4]),
            recovery_timeouts: PluginMetrics::define(outcomes[5]),
            limit_recalculations: PluginMetrics::define(outcomes[6]),
            tracked_hosts: PluginMetrics::define(outcomes[7]),
            overloaded_hosts: PluginMetrics::define(outcomes[8]),
            adaptive_timeout_ms: PluginMetrics::define(outcomes[9]),
            request_latency_ms: PluginMetrics::define(outcomes[10]),
            gradient: PluginMetrics::define(outcomes[11]),
        };
        assert(r.ids() =~= outcomes@.map_values(
            |outcome: Option<u32>| PluginMetrics::id_of(outcome),
        ));
        r
    }

    // ---- Counter helpers ----
    pub fn inc_requests_total(&self) -> (r: MetricUpdate)
        ensures
            r == (MetricUpdate::Increment { id: self.requests_total, offset: 1 }),
    {
        MetricUpdate::Increment { id: self.requests_total, offset: 1 }
    }

    pub fn inc_requests_shed(&self) -> (r: MetricUpdate)
        ensures
            r == (MetricUpdate::Increment { id: self.requests_shed, offset: 1 }),
    {
        MetricUpdate::Increment { id: self.requests_shed, offset: 1 }
    }

    pub fn inc_overloaded_responses(&self) -> (r: MetricUpdate)
        ensures
            r == (MetricUpdate::Increment { id: self.overloaded_responses, offset: 1 }),
    {
        MetricUpdate::Increment { id: self.overloaded_responses, offset: 1 }
    }

    pub fn inc_hosts_marked_overloaded(&self) -> (r: MetricUpdate)
        ensures
            r == (MetricUpdate::Increment { id: self.hosts_marked_overloaded, offset: 1 }),
    {
        MetricUpdate::Increment { id: self.hosts_marked_overloaded, offset: 1 }
    }

    pub fn inc_hosts_recovered(&self) -> (r: MetricUpdate)
        ensures
            r == (MetricUpdate::Increment { id: self.hosts_recovered, offset: 1 }),
    {
        MetricUpdate::Increment { id: self.hosts_recovered, offset: 1 }
    }

    pub fn inc_recovery_timeouts(&self) -> (r: MetricUpdate)
        ensures
            r == (MetricUpdate::Increment { id: self.recovery_timeouts, offset: 1 }),
    {
        MetricUpdate::Increment { id: self.recovery_timeouts, offset: 1 }
    }

    pub fn inc_limit_recalculations(&self) -> (r: MetricUpdate)
        ensures
            r == (MetricUpdate::Increment { id: self.limit_recalculations, offset: 1 }),
    {
        MetricUpdate::Increment { id: self.limit_recalculations, offset: 1 }
    }

    // ---- Gauge helpers ----
    pub fn set_tracked_hosts(&self, value: u64) -> (r: MetricUpdate)
        ensures
            r == (MetricUpdate::Record { id: self.tracked_hosts, value }),
    {
        MetricUpdate::Record { id: self.tracked_hosts, value }
    }

    pub fn set_overloaded_hosts(&self, value: u64) -> (r: MetricUpdate)
        ensures
            r == (MetricUpdate::Record { id: self.overloaded_hosts, value }),
    {
        MetricUpdate::Record { id: self.overloaded_hosts, value }
    }

    pub fn set_adaptive_timeout_ms(&self, value: u64) -> (r: MetricUpdate)
        ensures
            r == (MetricUpdate::Record { id: self.adaptive_timeout_ms, value }),
    {
        MetricUpdate::Record { id: self.adaptive_timeout_ms, value }
    }

    // ---- Histogram helpers ----
    pub fn record_request_latency_ms(&self, ms: u64) -> (r: MetricUpdate)
        ensures
            r == (MetricUpdate::Record { id: self.request_latency_ms, value: ms }),
    {
        MetricUpdate::Record { id: self.request_latency_ms, value: ms }
    }

    /// What the gradient histogram is sent. Histograms accept integers, so the gradient is
    /// scaled by 1000 for 3 decimal places.
    pub open spec fn gradient_update(self, gradient: Datum) -> MetricUpdate {
        MetricUpdate::Record {
            id: self.gradient,
            value: gradient.times(Datum::of_nat(1000)).truncated(u64::MAX as nat) as u64,
        }
    }

    /// Histograms accept integers: the gradient is scaled by 1000 for 3 decimal places.
    pub fn record_gradient(&self, gradient: Binary64) -> (r: MetricUpdate)
        ensures
            r == self.gradient_update(gradient@),
    {
        let value = gradient.times(Binary64::from_u64(1000)).truncate();
        MetricUpdate::Record { id: self.gradient, value }
    }
}

/// Whether a sequence of characters starts with another.
pub open spec fn starts_with(s: Seq<char>, prefix: Seq<char>) -> bool {
    prefix.len() <= s.len() && s.take(prefix.len() as int) == prefix
}

/// Every metric's name starts with `adaptive_concurrency_`, and no two metrics share a name.
pub proof fn law_metric_names()
    ensures
        forall|i: int|
            0 <= i < definition_table().len() ==> starts_with(
                #[trigger] definition_table()[i].1,
                "adaptive_concurrency_"@,
            ),
        forall|i: int, j: int|
            0 <= i < j < definition_table().len() ==> #[trigger] definition_table()[i].1
                != #[trigger] definition_table()[j].1,
{
    reveal_strlit("adaptive_concurrency_");
    reveal_strlit("adaptive_concurrency_requests_total");
    reveal_strlit("adaptive_concurrency_requests_shed");
    reveal_strlit("adaptive_concurrency_overloaded_responses");
    reveal_strlit("adaptive_concurrency_hosts_marked_overloaded");
    reveal_strlit("adaptive_concurrency_hosts_recovered");
    reveal_strlit("adaptive_concurrency_recovery_timeouts");
    reveal_strlit("adaptive_concurrency_limit_recalculations");
    reveal_strlit("adaptive_concurrency_tracked_hosts");
    reveal_strlit("adaptive_concurrency_overloaded_hosts");
    reveal_strlit("adaptive_concurrency_adaptive_timeout_ms");
    reveal_strlit("adaptive_concurrency_request_latency_ms");
    reveal_strlit("adaptive_concurrency_gradient");
    let table = definition_table();
    let prefix = "adaptive_concurrency_"@;
    assert forall|i: int| 0 <= i < table.len() implies starts_with(
        #[trigger] table[i].1,
        prefix,
    ) by {
        assert(table[i].1.take(prefix.len() as int) =~= prefix);
    }
    assert forall|i: int, j: int| 0 <= i < j < table.len() implies #[trigger] table[i].1
        != #[trigger] table[j].1 by {
        let a = table[i].1;
        let b = table[j].1;
        // The names differ in length or within a few characters of the prefix.
        assert(a.len() != b.len() || a[21] != b[21] || a[22] != b[22] || a[30] != b[30]);
    }
}

} // verus!
