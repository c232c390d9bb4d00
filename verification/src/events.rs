//! What the periodic work has to tell the log.

use crate::metrics::MetricUpdate;
use crate::number::binary64::Binary64;
use crate::number::datum::Datum;
use vstd::prelude::*;

verus! {

/// Something that happened in the periodic work and is worth a line in the log.
#[derive(Debug)]
pub enum LogEvent {
    /// The probe of a host is complete.
    ProbeComplete { addr: String, min_rtt_us: Option<u64> },
    /// The limit of a host has changed.
    LimitChanged { addr: String, old_limit: u32, new_limit: u32, gradient: Binary64 },
    /// A host starts a probe.
    ProbeStarted { addr: String },
    /// A host was reset after it was overloaded for too long.
    RecoveryTimeout { addr: String, overloaded_ns: u64 },
    /// Healthy samples gave the adaptive timeout.
    AdaptiveTimeout { timeout_ms: u64, healthy_p95_ms: u64, samples: usize, overloaded: usize },
    /// A stale host was forgotten.
    HostExpired { addr: String },
}

/// An event as a mathematical value.
#[verifier::ext_equal]
pub enum EventView {
    ProbeComplete { addr: Seq<char>, min_rtt_us: Option<u64> },
    LimitChanged { addr: Seq<char>, old_limit: u32, new_limit: u32, gradient: Datum },
    ProbeStarted { addr: Seq<char> },
    RecoveryTimeout { addr: Seq<char>, overloaded_ns: u64 },
    AdaptiveTimeout { timeout_ms: u64, healthy_p95_ms: u64, samples: nat, overloaded: nat },
    HostExpired { addr: Seq<char> },
}

impl View for LogEvent {
    type V = EventView;

    open spec fn view(&self) -> EventView {
        match *self {
            LogEvent::ProbeComplete { addr, min_rtt_us } => EventView::ProbeComplete {
                addr: addr@,
                min_rtt_us,
            },
            LogEvent::LimitChanged {
                addr,
                old_limit,
                new_limit,
                gradient,
            } => EventView::LimitChanged { addr: addr@, old_limit, new_limit, gradient: gradient@ },
            LogEvent::ProbeStarted { addr } => EventView::ProbeStarted { addr: addr@ },
            LogEvent::RecoveryTimeout { addr, overloaded_ns } => EventView::RecoveryTimeout {
                addr: addr@,
                overloaded_ns,
            },
            LogEvent::AdaptiveTimeout {
                timeout_ms,
                healthy_p95_ms,
                samples,
                overloaded,
            } => EventView::AdaptiveTimeout {
                timeout_ms,
                healthy_p95_ms,
                samples: samples as nat,
                overloaded: overloaded as nat,
            },
            LogEvent::HostExpired { addr } => EventView::HostExpired { addr: addr@ },
        }
    }
}

/// The events as mathematical values.
pub open spec fn event_views(events: Seq<LogEvent>) -> Seq<EventView> {
    events.map_values(|event: LogEvent| event@)
}

/// What a step of the periodic work leads to: the metric updates to send, and the events to log.
#[derive(Debug)]
pub struct Effects {
    pub updates: Vec<MetricUpdate>,
    pub events: Vec<LogEvent>,
}

impl Effects {
    /// Nothing so far.
    pub fn new() -> (r: Effects)
        ensures
            r.updates@ == Seq::<MetricUpdate>::empty(),
            event_views(r.events@) == Seq::<EventView>::empty(),
    {
        Effects { updates: Vec::new(), events: Vec::new() }
    }

    /// Adds an event.
    pub fn log(&mut self, event: LogEvent)
        ensures
            final(self).updates@ == old(self).updates@,
            event_views(final(self).events@) == event_views(old(self).events@).push(event@),
    {
        let ghost before = event_views(self.events@);
        self.events.push(event);
        assert(event_views(self.events@) =~= before.push(event@));
    }

    /// Adds the effects of a later step.
    pub fn join(&mut self, later: Effects)
        ensures
            final(self).updates@ == old(self).updates@ + later.updates@,
            event_views(final(self).events@) == event_views(old(self).events@) + event_views(
                later.events@,
            ),
    {
        let mut later = later;
        let ghost before = event_views(self.events@);
        let ghost more = event_views(later.events@);
        self.updates.append(&mut later.updates);
        self.events.append(&mut later.events);
        assert(event_views(self.events@) =~= before + more);
    }
}

} // verus!
