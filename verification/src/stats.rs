//! A summary of the tracked hosts.

use crate::number::binary64::Binary64;
use crate::number::datum::Datum;
use crate::host_state::{HostState, HostView};
use crate::hosts::EntryView;
use crate::shared_state::{SharedState, SharedView};
use vstd::prelude::*;

verus! {

/// The totals over all tracked hosts.
#[derive(Clone, Copy, Debug, PartialEq, Eq, Structural)]
pub struct Totals {
    pub hosts: usize,
    pub overloaded: usize,
    pub in_flight: u32,
}

/// What there is to say about an overloaded host.
#[derive(Debug)]
pub struct OverloadedHost {
    pub addr: String,
    pub limit: u32,
    pub in_flight: u32,
    pub gradient: Binary64,
    pub min_rtt_us: u64,
    pub total_limited: u64,
}

/// What there is to say about an overloaded host, as a mathematical value.
#[verifier::ext_equal]
pub struct OverloadedHostView {
    pub addr: Seq<char>,
    pub limit: u32,
    pub in_flight: u32,
    pub gradient: Datum,
    pub min_rtt_us: u64,
    pub total_limited: u64,
}

impl View for OverloadedHost {
    type V = OverloadedHostView;

    open spec fn view(&self) -> OverloadedHostView {
        OverloadedHostView {
            addr: self.addr@,
            limit: self.limit,
            in_flight: self.in_flight,
            gradient: self.gradient@,
            min_rtt_us: self.min_rtt_us,
            total_limited: self.total_limited,
        }
    }
}

/// A summary: the totals where any host is tracked, and the overloaded hosts.
#[derive(Debug)]
pub struct Summary {
    pub totals: Option<Totals>,
    pub overloaded: Vec<OverloadedHost>,
}

/// The requests in flight to all hosts.
pub open spec fn total_in_flight(hosts: Seq<EntryView>) -> nat
    decreases hosts.len(),
{
    if hosts.len() == 0 {
        0
    } else {
        total_in_flight(hosts.drop_last()) + hosts.last().host.in_flight as nat
    }
}

/// What there is to say about a host.
pub open spec fn details_of(addr: Seq<char>, host: HostView) -> OverloadedHostView {
    OverloadedHostView {
        addr,
        limit: host.current_limit,
        in_flight: host.in_flight,
        gradient: host.last_gradient,
        min_rtt_us: match host.min_rtt_ns {
            Some(ns) => ns / 1000,
            None => 0,
        },
        total_limited: host.total_limited,
    }
}

/// What there is to say about the overloaded hosts that are tracked.
pub open spec fn overloaded_details(hosts: Seq<EntryView>, overloaded: Seq<Seq<char>>) -> Seq<
    OverloadedHostView,
>
    decreases overloaded.len(),
{
    if overloaded.len() == 0 {
        seq![]
    } else {
        let rest = overloaded_details(hosts, overloaded.drop_last());
        match crate::hosts::lookup(hosts, overloaded.last()) {
            Some(host) => rest.push(details_of(overloaded.last(), host)),
            None => rest,
        }
    }
}

impl SharedView {
    /// Whether a summary is that of the state.
    pub open spec fn is_summary(self, summary: Summary) -> bool {
        &&& summary.totals == if self.hosts.len() > 0 {
            Some(
                Totals {
                    hosts: self.hosts.len() as usize,
                    overloaded: self.overloaded_hosts.len() as usize,
                    in_flight: total_in_flight(self.hosts) as u32,
                },
            )
        } else {
            None
        }
        &&& summary.overloaded@.map_values(|host: OverloadedHost| host@) == overloaded_details(
            self.hosts,
            self.overloaded_hosts,
        )
    }
}

proof fn lemma_in_flight_grows(hosts: Seq<EntryView>, i: int)
    requires
        0 <= i <= hosts.len(),
    ensures
        total_in_flight(hosts.take(i)) <= total_in_flight(hosts),
    decreases hosts.len(),
{
    if i == hosts.len() {
        assert(hosts.take(i) =~= hosts);
    } else {
        lemma_in_flight_grows(hosts.drop_last(), i);
        assert(hosts.drop_last().take(i) =~= hosts.take(i));
    }
}

/// What there is to say about a host.
fn describe(addr: &String, host: &HostState) -> (r: OverloadedHost)
    ensures
        r@ == details_of(addr@, host@),
{
    let min_rtt_ns: u64 = match host.min_rtt_ns {
        Some(ns) => ns,
        None => 0,
    };
    OverloadedHost {
        addr: addr.clone(),
        limit: host.current_limit,
        in_flight: host.in_flight,
        gradient: host.last_gradient,
        min_rtt_us: min_rtt_ns / 1000,
        total_limited: host.total_limited,
    }
}

/// A summary of all tracked hosts, to be logged.
pub fn log_summary(shared: &SharedState) -> (summary: Summary)
    requires
        shared.wf(),
        total_in_flight(shared@.hosts) <= u32::MAX,
    ensures
        shared@.is_summary(summary),
{
    let mut in_flight: u32 = 0;
    let mut i: usize = 0;
    while i < shared.hosts.entries.len()
        invariant
            i <= shared.hosts.entries@.len(),
            total_in_flight(shared@.hosts) <= u32::MAX,
            in_flight == total_in_flight(shared@.hosts.take(i as int)),
        decreases shared.hosts.entries.len() - i,
    {
        proof {
            assert(shared.hosts@[i as int] == shared.hosts.entries@[i as int]@);
            assert(shared@.hosts.take(i + 1).drop_last() =~= shared@.hosts.take(i as int));
            lemma_in_flight_grows(shared@.hosts, i + 1);
        }
        in_flight = in_flight + shared.hosts.entries[i].host.in_flight;
        i = i + 1;
    }
    assert(shared@.hosts.take(i as int) =~= shared@.hosts);
    let totals = if shared.hosts.len() > 0 {
        Some(
            Totals {
                hosts: shared.hosts.len(),
                overloaded: shared.overloaded_hosts.len(),
                in_flight,
            },
        )
    } else {
        None
    };
    // Details for overloaded hosts
    let mut overloaded: Vec<OverloadedHost> = Vec::new();
    let mut j: usize = 0;
    while j < shared.overloaded_hosts.members.len()
        invariant
            j <= shared.overloaded_hosts.members@.len(),
            shared.wf(),
            overloaded@.map_values(|host: OverloadedHost| host@) == overloaded_details(
                shared@.hosts,
                shared@.overloaded_hosts.take(j as int),
            ),
        decreases shared.overloaded_hosts.members.len() - j,
    {
        let addr = &shared.overloaded_hosts.members[j];
        let ghost listed = overloaded@.map_values(|host: OverloadedHost| host@);
        proof {
            assert(shared@.overloaded_hosts[j as int] == addr@);
            assert(shared@.overloaded_hosts.take(j + 1).drop_last()
                =~= shared@.overloaded_hosts.take(j as int));
        }
        if let Some(host) = shared.hosts.get(addr.as_str()) {
            let details = describe(addr, host);
            overloaded.push(details);
            assert(overloaded@.map_values(|host: OverloadedHost| host@) =~= listed.push(details@));
        }
        j = j + 1;
    }
    assert(shared@.overloaded_hosts.take(j as int) =~= shared@.overloaded_hosts);
    Summary { totals, overloaded }
}

} // verus!
