//! What the mathematical values say of the values that they stand for: every field.

use crate::events::{EventView, LogEvent};
use crate::host_state::HostState;
use crate::hosts::{AddressSet, HostTable};
use crate::http_context::Header;
use crate::metrics::PluginMetrics;
use crate::shared_state::SharedState;
use vstd::prelude::*;

verus! {

/// The view of a host holds all of it.
pub proof fn law_view_of_host(host: HostState)
    ensures
        host@.current_limit == host.current_limit,
        host@.in_flight == host.in_flight,
        host@.latency_samples == host.latency_samples@,
        host@.min_rtt_ns == host.min_rtt_ns,
        host@.windows_since_min_rtt == host.windows_since_min_rtt,
        host@.is_probing_min_rtt == host.is_probing_min_rtt,
        host@.probe_samples == host.probe_samples@,
        host@.last_seen_ns == host.last_seen_ns,
        host@.is_overloaded == host.is_overloaded,
        host@.overloaded_since_ns == host.overloaded_since_ns,
        host@.last_gradient == host.last_gradient@,
        host@.total_requests == host.total_requests,
        host@.total_limited == host.total_limited,
{
}

/// The view of the tracked hosts holds all of them, with their addresses, in order.
pub proof fn law_view_of_hosts(hosts: HostTable, i: int)
    ensures
        hosts@.len() == hosts.entries@.len(),
        0 <= i < hosts.entries@.len() ==> hosts@[i].addr == hosts.entries@[i].addr@
            && hosts@[i].host == hosts.entries@[i].host@,
{
}

/// The view of a set of addresses holds all of them, in order.
pub proof fn law_view_of_addresses(addresses: AddressSet, i: int)
    ensures
        addresses@.len() == addresses.members@.len(),
        0 <= i < addresses.members@.len() ==> addresses@[i] == addresses.members@[i]@,
{
}

/// The view of the shared state holds all of it.
pub proof fn law_view_of_state(shared: SharedState)
    ensures
        shared@.config == shared.config,
        shared@.hosts == shared.hosts@,
        shared@.overloaded_hosts == shared.overloaded_hosts@,
        shared@.adaptive_per_try_timeout_ms == shared.adaptive_per_try_timeout_ms,
        shared@.shed_fraction == shared.shed_fraction@,
        shared@.request_counter == shared.request_counter,
        shared@.metrics == shared.metrics,
{
}

/// The view of a header is its name and its value.
pub proof fn law_view_of_header(header: Header)
    ensures
        header@.0 == header.name@,
        header@.1 == header.value@,
{
}

/// The view of an event tells the same as the event.
pub proof fn law_view_of_event(event: LogEvent)
    ensures
        match event {
            LogEvent::ProbeComplete { addr, min_rtt_us } => event@ == (EventView::ProbeComplete {
                addr: addr@,
                min_rtt_us,
            }),
            LogEvent::LimitChanged { addr, old_limit, new_limit, gradient } => event@ == (
            EventView::LimitChanged { addr: addr@, old_limit, new_limit, gradient: gradient@ }),
            LogEvent::ProbeStarted { addr } => event@ == (EventView::ProbeStarted { addr: addr@ }),
            LogEvent::RecoveryTimeout { addr, overloaded_ns } => event@ == (
            EventView::RecoveryTimeout { addr: addr@, overloaded_ns }),
            LogEvent::AdaptiveTimeout { timeout_ms, healthy_p95_ms, samples, overloaded } => event@
                == (EventView::AdaptiveTimeout {
                timeout_ms,
                healthy_p95_ms,
                samples: samples as nat,
                overloaded: overloaded as nat,
            }),
            LogEvent::HostExpired { addr } => event@ == (EventView::HostExpired { addr: addr@ }),
        },
{
}

/// Every event in a list is told of, in order.
pub proof fn law_view_of_events(events: Seq<LogEvent>, i: int)
    ensures
        crate::events::event_views(events).len() == events.len(),
        0 <= i < events.len() ==> crate::events::event_views(events)[i] == events[i]@,
{
}

/// A property is the bytes that it holds.
pub proof fn law_property_bytes(bytes: Vec<u8>)
    ensures
        crate::http_context::property_bytes(Some(bytes)) == Some(bytes@),
        crate::http_context::property_bytes(None) is None,
{
}

/// A metric has the id that it was given, and zero where defining it failed.
pub proof fn law_metric_ids(metrics: PluginMetrics, id: u32)
    ensures
        PluginMetrics::id_of(Some(id)) == id,
        PluginMetrics::id_of(None) == 0,
        metrics.ids().len() == 12,
        metrics.ids()[0] == metrics.requests_total,
        metrics.ids()[1] == metrics.requests_shed,
        metrics.ids()[2] == metrics.overloaded_responses,
        metrics.ids()[3] == metrics.hosts_marked_overloaded,
        metrics.ids()[4] == metrics.hosts_recovered,
        metrics.ids()[5] == metrics.recovery_timeouts,
        metrics.ids()[6] == metrics.limit_recalculations,
        metrics.ids()[7] == metrics.tracked_hosts,
        metrics.ids()[8] == metrics.overloaded_hosts,
        metrics.ids()[9] == metrics.adaptive_timeout_ms,
        metrics.ids()[10] == metrics.request_latency_ms,
        metrics.ids()[11] == metrics.gradient,
{
}

} // verus!
