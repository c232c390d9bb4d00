//! What each operation does to the shared state, field by field and host by host.

use crate::config::PluginConfig;
use crate::events::EventView;
use crate::host_state::HostView;
use crate::hosts::EntryView;
use crate::metrics::{MetricUpdate, PluginMetrics};
use crate::number::datum::Datum;
use crate::shared_state::SharedView;
use crate::stats::Summary;
use vstd::prelude::*;

verus! {

/// A host is found under its address.
pub proof fn law_host_is_found(hosts: Seq<EntryView>, i: int)
    requires
        crate::hosts::distinct(hosts),
        0 <= i < hosts.len(),
    ensures
        crate::hosts::lookup(hosts, hosts[i].addr) == Some(hosts[i].host),
{
    assert(crate::hosts::is_at(hosts, hosts[i].addr, i));
    crate::hosts::lemma_place(hosts, hosts[i].addr, i);
}

/// No host is found under an address that none has.
pub proof fn law_no_host_is_found(hosts: Seq<EntryView>, addr: Seq<char>)
    requires
        forall|i: int| 0 <= i < hosts.len() ==> (#[trigger] hosts[i]).addr != addr,
    ensures
        crate::hosts::lookup(hosts, addr) is None,
{
    if crate::hosts::tracks(hosts, addr) {
        let i = crate::hosts::place(hosts, addr);
        assert(crate::hosts::is_at(hosts, addr, i));
        assert(hosts[i].addr == addr);
    }
}

/// A new state of a host takes the place of the old one, and all others stay.
pub proof fn law_host_is_replaced(hosts: Seq<EntryView>, i: int, host: HostView)
    requires
        crate::hosts::distinct(hosts),
        0 <= i < hosts.len(),
    ensures
        crate::hosts::with_host(hosts, hosts[i].addr, host) == hosts.update(
            i,
            EntryView { addr: hosts[i].addr, host },
        ),
{
    assert(crate::hosts::is_at(hosts, hosts[i].addr, i));
    crate::hosts::lemma_place(hosts, hosts[i].addr, i);
}

/// A host that is not tracked comes last, and all others stay.
pub proof fn law_host_is_added(hosts: Seq<EntryView>, addr: Seq<char>, host: HostView)
    requires
        forall|i: int| 0 <= i < hosts.len() ==> (#[trigger] hosts[i]).addr != addr,
    ensures
        crate::hosts::with_host(hosts, addr, host) == hosts.push(EntryView { addr, host }),
{
    law_no_host_is_found(hosts, addr);
}

/// Nothing is tracked before anything was seen.
pub proof fn law_nothing_at_first(config: PluginConfig)
    ensures
        ({
            let shared = SharedView::initial(config);
            &&& shared.config == config
            &&& shared.hosts.len() == 0
            &&& shared.overloaded_hosts.len() == 0
            &&& shared.adaptive_per_try_timeout_ms == 0
            &&& shared.shed_fraction == Datum::Finite { negative: false, units: 0 }
            &&& shared.request_counter == 0
            &&& shared.metrics is None
        }),
{
}

/// The recalculation of all limits: every host is recalculated, and nothing else changes.
pub proof fn law_all_hosts_are_recalculated(shared: SharedView, now_ns: u64)
    ensures
        ({
            let after = shared.recalculated(now_ns);
            &&& after.hosts.len() == shared.hosts.len()
            &&& forall|i: int|
                0 <= i < shared.hosts.len() ==> #[trigger] after.hosts[i] == (EntryView {
                    addr: shared.hosts[i].addr,
                    host: shared.hosts[i].host.ticked(shared.config, now_ns),
                })
            &&& after == SharedView { hosts: after.hosts, ..shared }
        }),
{
}

/// The metric updates of the recalculation are those of one host after the other.
pub proof fn law_recalculation_updates_add_up(
    a: Seq<EntryView>,
    b: Seq<EntryView>,
    config: PluginConfig,
    now_ns: u64,
    metrics: Option<PluginMetrics>,
)
    ensures
        crate::shared_state::recalculation_updates(a + b, config, now_ns, metrics)
            == crate::shared_state::recalculation_updates(a, config, now_ns, metrics)
            + crate::shared_state::recalculation_updates(b, config, now_ns, metrics),
        a.len() == 1 ==> crate::shared_state::recalculation_updates(a, config, now_ns, metrics)
            == a[0].host.tick_updates(config, now_ns, metrics),
        a.len() == 0 ==> crate::shared_state::recalculation_updates(
            a,
            config,
            now_ns,
            metrics,
        ).len() == 0,
    decreases b.len(),
{
    if b.len() == 0 {
        assert(a + b =~= a);
        assert(crate::shared_state::recalculation_updates(b, config, now_ns, metrics).len() == 0);
    } else {
        law_recalculation_updates_add_up(a, b.drop_last(), config, now_ns, metrics);
        assert((a + b).drop_last() =~= a + b.drop_last());
        assert((a + b).last() == b.last());
    }
    if a.len() == 1 {
        let none = crate::shared_state::recalculation_updates(
            a.drop_last(),
            config,
            now_ns,
            metrics,
        );
        assert(none.len() == 0);
        assert(crate::shared_state::recalculation_updates(a, config, now_ns, metrics)
            =~= a[0].host.tick_updates(config, now_ns, metrics));
    }
}

/// The events of the recalculation are those of one host after the other.
pub proof fn law_recalculation_events_add_up(
    a: Seq<EntryView>,
    b: Seq<EntryView>,
    config: PluginConfig,
    now_ns: u64,
)
    ensures
        crate::shared_state::recalculation_events(a + b, config, now_ns)
            == crate::shared_state::recalculation_events(a, config, now_ns)
            + crate::shared_state::recalculation_events(b, config, now_ns),
        a.len() == 1 ==> crate::shared_state::recalculation_events(a, config, now_ns)
            == a[0].host.tick_events(a[0].addr, config, now_ns),
        a.len() == 0 ==> crate::shared_state::recalculation_events(a, config, now_ns).len() == 0,
    decreases b.len(),
{
    if b.len() == 0 {
        assert(a + b =~= a);
        assert(crate::shared_state::recalculation_events(b, config, now_ns).len() == 0);
    } else {
        law_recalculation_events_add_up(a, b.drop_last(), config, now_ns);
        assert((a + b).drop_last() =~= a + b.drop_last());
        assert((a + b).last() == b.last());
    }
    if a.len() == 1 {
        assert(crate::shared_state::recalculation_events(a.drop_last(), config, now_ns).len() == 0);
        assert(crate::shared_state::recalculation_events(a, config, now_ns)
            =~= a[0].host.tick_events(a[0].addr, config, now_ns));
    }
}

/// Whether a host is overloaded and has been quiet for longer than the timeout.
pub open spec fn is_reset(entry: EntryView, recovery_secs: u64, now_ns: u64) -> bool {
    let recovery_ns = recovery_secs * 1_000_000_000;
    &&& entry.host.is_overloaded
    &&& recovery_secs > 0
    &&& now_ns > entry.host.overloaded_since_ns + recovery_ns
    &&& now_ns > entry.host.last_seen_ns + recovery_ns
}

/// How many hosts are marked as overloaded.
pub open spec fn marked(hosts: Seq<EntryView>) -> nat {
    crate::laws::ranks::total(
        hosts,
        |entry: EntryView|
            if entry.host.is_overloaded {
                1nat
            } else {
                0nat
            },
    )
}

proof fn lemma_marked(hosts: Seq<EntryView>)
    ensures
        crate::shared_state::overloaded_addresses(hosts).len() == marked(hosts),
    decreases hosts.len(),
{
    if hosts.len() > 0 {
        lemma_marked(hosts.drop_last());
    }
}

/// Rebuilding the set of overloaded hosts: every host that was overloaded and quiet for too long
/// is reset and no other changes; the set then holds the address of every marked host and no other
/// address, each once; the shed fraction is the share of marked hosts; and nothing else changes.
pub proof fn law_overloaded_set_is_rebuilt(shared: SharedView, now_ns: u64)
    requires
        crate::hosts::distinct(shared.hosts),
        shared.config.has_timeouts(),
    ensures
        ({
            let after = shared.with_overloaded_set(now_ns);
            &&& after.hosts.len() == shared.hosts.len()
            &&& forall|i: int|
                0 <= i < shared.hosts.len() ==> {
                    let before = shared.hosts[i];
                    let next = #[trigger] after.hosts[i];
                    let reset = is_reset(before, shared.config.recovery_timeout_secs, now_ns);
                    &&& next.addr == before.addr
                    &&& !reset ==> next.host == before.host
                    &&& reset ==> next.host == (HostView {
                        current_limit: shared.config.initial_concurrency_limit,
                        min_rtt_ns: None,
                        latency_samples: Seq::empty(),
                        is_overloaded: false,
                        ..before.host
                    })
                    &&& after.overloaded_hosts.contains(next.addr) == next.host.is_overloaded
                }
            &&& forall|addr: Seq<char>|
                #[trigger] after.overloaded_hosts.contains(addr) ==> exists|i: int|
                    #![trigger after.hosts[i]]
                    0 <= i < after.hosts.len() && after.hosts[i].addr == addr
            &&& after.overloaded_hosts.no_duplicates()
            &&& after.overloaded_hosts.len() == marked(after.hosts)
            &&& marked(after.hosts) == 0 ==> after.shed_fraction == Datum::Finite {
                negative: false,
                units: 0,
            }
            &&& marked(after.hosts) > 0 ==> after.shed_fraction == Datum::of_nat(
                marked(after.hosts),
            ).over(Datum::of_nat(after.hosts.len()))
            &&& after == SharedView {
                hosts: after.hosts,
                overloaded_hosts: after.overloaded_hosts,
                shed_fraction: after.shed_fraction,
                ..shared
            }
        }),
{
    let after = shared.with_overloaded_set(now_ns);
    assert(crate::hosts::distinct(after.hosts));
    crate::shared_state::lemma_overloaded_addresses(after.hosts);
    crate::laws::state::lemma_overloaded_distinct(after.hosts);
    lemma_marked(after.hosts);
    assert forall|i: int| 0 <= i < shared.hosts.len() implies {
        let before = shared.hosts[i];
        let next = #[trigger] after.hosts[i];
        let reset = is_reset(before, shared.config.recovery_timeout_secs, now_ns);
        &&& next.addr == before.addr
        &&& !reset ==> next.host == before.host
        &&& reset ==> next.host == (HostView {
            current_limit: shared.config.initial_concurrency_limit,
            min_rtt_ns: None,
            latency_samples: Seq::empty(),
            is_overloaded: false,
            ..before.host
        })
        &&& after.overloaded_hosts.contains(next.addr) == next.host.is_overloaded
    } by {
        let addr = after.hosts[i].addr;
        assert(crate::hosts::is_at(after.hosts, addr, i));
        if after.overloaded_hosts.contains(addr) {
            let j = choose|j: int|
                crate::hosts::is_at(after.hosts, addr, j) && after.hosts[j].host.is_overloaded;
            crate::hosts::lemma_place(after.hosts, addr, i);
            crate::hosts::lemma_place(after.hosts, addr, j);
        }
    }
    assert forall|addr: Seq<char>| #[trigger]
        after.overloaded_hosts.contains(addr) implies exists|i: int|
        #![trigger after.hosts[i]]
        0 <= i < after.hosts.len() && after.hosts[i].addr == addr by {
        let j = choose|j: int|
            crate::hosts::is_at(after.hosts, addr, j) && after.hosts[j].host.is_overloaded;
        assert(after.hosts[j].addr == addr);
    }
}

/// How many hosts the recovery timeout resets.
pub open spec fn resets(hosts: Seq<EntryView>, recovery_secs: u64, now_ns: u64) -> nat {
    crate::laws::ranks::total(
        hosts,
        |entry: EntryView|
            if is_reset(entry, recovery_secs, now_ns) {
                1nat
            } else {
                0nat
            },
    )
}

proof fn lemma_timeout_updates(
    hosts: Seq<EntryView>,
    recovery_secs: u64,
    now_ns: u64,
    m: PluginMetrics,
)
    requires
        recovery_secs * 1_000_000_000 <= u64::MAX,
    ensures
        ({
            let recovery_ns = (recovery_secs * 1_000_000_000) as u64;
            let updates = crate::shared_state::timeout_updates(
                hosts,
                recovery_ns,
                now_ns,
                Some(m),
            );
            &&& updates.len() == resets(hosts, recovery_secs, now_ns)
            &&& forall|k: int|
                0 <= k < updates.len() ==> #[trigger] updates[k] == (MetricUpdate::Increment {
                    id: m.recovery_timeouts,
                    offset: 1,
                })
            &&& crate::shared_state::timeout_updates(hosts, recovery_ns, now_ns, None).len() == 0
        }),
    decreases hosts.len(),
{
    if hosts.len() > 0 {
        lemma_timeout_updates(hosts.drop_last(), recovery_secs, now_ns, m);
    }
}

/// The metric updates of rebuilding the set: one for each host that the timeout resets, and then
/// the gauges of tracked and of overloaded hosts.
pub proof fn law_overloaded_set_updates(shared: SharedView, now_ns: u64, m: PluginMetrics)
    requires
        shared.config.has_timeouts(),
        shared.metrics == Some(m),
        shared.hosts.len() <= u64::MAX,
    ensures
        ({
            let after = shared.with_overloaded_set(now_ns);
            let n = resets(shared.hosts, shared.config.recovery_timeout_secs, now_ns);
            let updates = shared.overloaded_set_updates(now_ns);
            &&& updates.len() == n + 2
            &&& forall|k: int|
                0 <= k < n ==> #[trigger] updates[k] == (MetricUpdate::Increment {
                    id: m.recovery_timeouts,
                    offset: 1,
                })
            &&& updates[n as int] == (MetricUpdate::Record {
                id: m.tracked_hosts,
                value: shared.hosts.len() as u64,
            })
            &&& updates[n as int + 1] == (MetricUpdate::Record {
                id: m.overloaded_hosts,
                value: marked(after.hosts) as u64,
            })
        }),
{
    lemma_timeout_updates(shared.hosts, shared.config.recovery_timeout_secs, now_ns, m);
    lemma_marked(shared.with_overloaded_set(now_ns).hosts);
}

/// Without metrics there is nothing to update.
pub proof fn law_no_updates_without_metrics(shared: SharedView, now_ns: u64, m: PluginMetrics)
    requires
        shared.config.has_timeouts(),
        shared.metrics is None,
    ensures
        shared.overloaded_set_updates(now_ns).len() == 0,
{
    lemma_timeout_updates(shared.hosts, shared.config.recovery_timeout_secs, now_ns, m);
}

/// The events of rebuilding the set are one for each host that the timeout resets, in order.
pub proof fn law_timeout_events_add_up(
    a: Seq<EntryView>,
    b: Seq<EntryView>,
    recovery_secs: u64,
    now_ns: u64,
)
    requires
        recovery_secs * 1_000_000_000 <= u64::MAX,
    ensures
        ({
            let recovery_ns = (recovery_secs * 1_000_000_000) as u64;
            let events = crate::shared_state::timeout_events(a, recovery_ns, now_ns);
            &&& crate::shared_state::timeout_events(a + b, recovery_ns, now_ns) == events
                + crate::shared_state::timeout_events(b, recovery_ns, now_ns)
            &&& a.len() == 0 ==> events.len() == 0
            &&& a.len() == 1 && !is_reset(a[0], recovery_secs, now_ns) ==> events.len() == 0
            &&& a.len() == 1 && is_reset(a[0], recovery_secs, now_ns) ==> events == seq![
                EventView::RecoveryTimeout {
                    addr: a[0].addr,
                    overloaded_ns: (now_ns - a[0].host.overloaded_since_ns) as u64,
                },
            ]
        }),
    decreases b.len(),
{
    let recovery_ns = (recovery_secs * 1_000_000_000) as u64;
    if b.len() == 0 {
        assert(a + b =~= a);
        assert(crate::shared_state::timeout_events(b, recovery_ns, now_ns).len() == 0);
    } else {
        law_timeout_events_add_up(a, b.drop_last(), recovery_secs, now_ns);
        assert((a + b).drop_last() =~= a + b.drop_last());
    }
    if a.len() == 1 {
        assert(crate::shared_state::timeout_events(a.drop_last(), recovery_ns, now_ns).len() == 0);
    }
    if a.len() == 1 && is_reset(a[0], recovery_secs, now_ns) {
        assert(crate::shared_state::timeout_events(a, recovery_ns, now_ns) =~= seq![
            EventView::RecoveryTimeout {
                addr: a[0].addr,
                overloaded_ns: (now_ns - a[0].host.overloaded_since_ns) as u64,
            },
        ]);
    }
    assert(crate::shared_state::timeout_events(a + b, recovery_ns, now_ns)
        =~= crate::shared_state::timeout_events(a, recovery_ns, now_ns)
        + crate::shared_state::timeout_events(b, recovery_ns, now_ns));
}

/// Forgetting stale hosts: the hosts that were seen within the expiry stay, in their order, and no
/// others; an address stays among the overloaded ones unless its host is forgotten; and nothing
/// else changes.
pub proof fn law_stale_hosts_are_forgotten(shared: SharedView, now_ns: u64)
    requires
        crate::hosts::distinct(shared.hosts),
        shared.config.has_timeouts(),
    ensures
        ({
            let after = shared.without_stale_hosts(now_ns);
            let expiry_ns = shared.config.host_expiry_secs * 1_000_000_000;
            &&& after.hosts == shared.hosts.filter(
                |entry: EntryView| now_ns <= entry.host.last_seen_ns + expiry_ns,
            )
            &&& forall|addr: Seq<char>|
                #[trigger] after.overloaded_hosts.contains(addr) <==> {
                    &&& shared.overloaded_hosts.contains(addr)
                    &&& forall|i: int|
                        0 <= i < shared.hosts.len() && (#[trigger] shared.hosts[i]).addr == addr
                            ==> now_ns <= shared.hosts[i].host.last_seen_ns + expiry_ns
                }
            &&& after == SharedView {
                hosts: after.hosts,
                overloaded_hosts: after.overloaded_hosts,
                ..shared
            }
        }),
{
    let after = shared.without_stale_hosts(now_ns);
    let expiry_ns = shared.config.host_expiry_secs * 1_000_000_000;
    let fresh = |entry: EntryView| now_ns <= entry.host.last_seen_ns + expiry_ns;
    let kept = |entry: EntryView| !entry.host.expired(now_ns, shared.expiry_ns());
    assert(fresh =~= kept);
    let kept_addr = |addr: Seq<char>|
        !crate::shared_state::is_stale(shared.hosts, addr, now_ns, shared.expiry_ns());
    crate::hosts::lemma_filter_keys(shared.overloaded_hosts, kept_addr, |addr: Seq<char>| addr);
    assert forall|addr: Seq<char>| #[trigger] after.overloaded_hosts.contains(addr) <==> {
        &&& shared.overloaded_hosts.contains(addr)
        &&& forall|i: int|
            0 <= i < shared.hosts.len() && (#[trigger] shared.hosts[i]).addr == addr ==> now_ns
                <= shared.hosts[i].host.last_seen_ns + expiry_ns
    } by {
        if crate::hosts::tracks(shared.hosts, addr) {
            let i = crate::hosts::place(shared.hosts, addr);
            assert(crate::hosts::is_at(shared.hosts, addr, i));
            assert forall|j: int|
                0 <= j < shared.hosts.len() && (
                #[trigger] shared.hosts[j]).addr == addr implies j == i by {
                assert(crate::hosts::is_at(shared.hosts, addr, j));
                crate::hosts::lemma_place(shared.hosts, addr, j);
            }
            assert(shared.hosts[i].addr == addr);
            assert(kept_addr(addr) == (now_ns <= shared.hosts[i].host.last_seen_ns + expiry_ns));
        } else {
            assert(kept_addr(addr));
            assert forall|i: int| 0 <= i < shared.hosts.len() implies (
            #[trigger] shared.hosts[i]).addr != addr by {
                assert(!crate::hosts::is_at(shared.hosts, addr, i));
            }
        }
    }
}

/// The events of forgetting stale hosts are one for each of them, in order.
pub proof fn law_expiry_events_add_up(
    a: Seq<EntryView>,
    b: Seq<EntryView>,
    now_ns: u64,
    expiry_ns: u64,
)
    ensures
        ({
            let events = crate::shared_state::expiry_events(a, now_ns, expiry_ns);
            &&& crate::shared_state::expiry_events(a + b, now_ns, expiry_ns) == events
                + crate::shared_state::expiry_events(b, now_ns, expiry_ns)
            &&& a.len() == 0 ==> events.len() == 0
            &&& a.len() == 1 && now_ns <= a[0].host.last_seen_ns + expiry_ns ==> events.len() == 0
            &&& a.len() == 1 && now_ns > a[0].host.last_seen_ns + expiry_ns ==> events == seq![
                EventView::HostExpired { addr: a[0].addr },
            ]
        }),
    decreases b.len(),
{
    if b.len() == 0 {
        assert(a + b =~= a);
        assert(crate::shared_state::expiry_events(b, now_ns, expiry_ns).len() == 0);
    } else {
        law_expiry_events_add_up(a, b.drop_last(), now_ns, expiry_ns);
        assert((a + b).drop_last() =~= a + b.drop_last());
    }
    if a.len() == 1 {
        assert(crate::shared_state::expiry_events(a.drop_last(), now_ns, expiry_ns).len() == 0);
    }
    if a.len() == 1 && now_ns > a[0].host.last_seen_ns + expiry_ns {
        assert(crate::shared_state::expiry_events(a, now_ns, expiry_ns) =~= seq![
            EventView::HostExpired { addr: a[0].addr },
        ]);
    }
    assert(crate::shared_state::expiry_events(a + b, now_ns, expiry_ns)
        =~= crate::shared_state::expiry_events(a, now_ns, expiry_ns)
        + crate::shared_state::expiry_events(b, now_ns, expiry_ns));
}

/// A decision on a request counts it where there is anything to shed, and changes nothing else.
pub proof fn law_shed_decision_counts(shared: SharedView)
    ensures
        ({
            let after = shared.after_shed_decision();
            &&& after == SharedView { request_counter: after.request_counter, ..shared }
            &&& shared.shed_fraction.at_most(Datum::Finite { negative: false, units: 0 })
                ==> after.request_counter == shared.request_counter && !shared.sheds_next()
            &&& !shared.shed_fraction.at_most(Datum::Finite { negative: false, units: 0 })
                && shared.request_counter < u64::MAX ==> after.request_counter
                == shared.request_counter + 1
            &&& !shared.shed_fraction.at_most(Datum::Finite { negative: false, units: 0 })
                && shared.request_counter == u64::MAX ==> after.request_counter == 0
        }),
{
}

/// The periodic work is the four steps, each done to what the one before left.
pub proof fn law_tick_order(shared: SharedView, now_ns: u64)
    ensures
        ({
            let first = shared.recalculated(now_ns);
            let second = first.with_overloaded_set(now_ns);
            let third = second.with_adaptive_timeout();
            &&& shared.ticked(now_ns) == third.without_stale_hosts(now_ns)
            &&& shared.tick_updates(now_ns) == crate::shared_state::recalculation_updates(
                shared.hosts,
                shared.config,
                now_ns,
                shared.metrics,
            ) + first.overloaded_set_updates(now_ns) + match second.adaptive_timeout_update() {
                Some(update) => seq![update],
                None => seq![],
            }
            &&& shared.tick_events(now_ns) == crate::shared_state::recalculation_events(
                shared.hosts,
                shared.config,
                now_ns,
            ) + crate::shared_state::timeout_events(
                first.hosts,
                (shared.config.recovery_timeout_secs * 1_000_000_000) as u64,
                now_ns,
            ) + match second.adaptive_timeout_event() {
                Some(event) => seq![event],
                None => seq![],
            } + crate::shared_state::expiry_events(
                second.hosts,
                now_ns,
                (shared.config.host_expiry_secs * 1_000_000_000) as u64,
            )
        }),
{
}

proof fn lemma_in_flight(hosts: Seq<EntryView>)
    ensures
        crate::stats::total_in_flight(hosts) == crate::laws::ranks::total(
            hosts,
            |entry: EntryView| entry.host.in_flight as nat,
        ),
    decreases hosts.len(),
{
    if hosts.len() > 0 {
        lemma_in_flight(hosts.drop_last());
    }
}

proof fn lemma_details(hosts: Seq<EntryView>, overloaded: Seq<Seq<char>>)
    requires
        forall|k: int|
            0 <= k < overloaded.len() ==> crate::hosts::lookup(
                hosts,
                #[trigger] overloaded[k],
            ) is Some,
    ensures
        ({
            let details = crate::stats::overloaded_details(hosts, overloaded);
            &&& details.len() == overloaded.len()
            &&& forall|k: int|
                0 <= k < overloaded.len() ==> #[trigger] details[k] == crate::stats::details_of(
                    overloaded[k],
                    crate::hosts::lookup(hosts, overloaded[k])->0,
                )
        }),
    decreases overloaded.len(),
{
    if overloaded.len() > 0 {
        let front = overloaded.drop_last();
        assert forall|k: int| 0 <= k < front.len() implies crate::hosts::lookup(
            hosts,
            #[trigger] front[k],
        ) is Some by {
            assert(front[k] == overloaded[k]);
        }
        lemma_details(hosts, front);
        assert(crate::hosts::lookup(hosts, overloaded[overloaded.len() - 1]) is Some);
    }
}

/// The summary: totals exactly where any host is tracked, of all hosts, all overloaded addresses
/// and all requests in flight; and for every overloaded address, in order, what its host holds.
pub proof fn law_summary(shared: SharedView, summary: Summary, k: int, i: int)
    requires
        shared.distinct(),
        shared.in_step(),
        shared.hosts.len() <= usize::MAX,
        shared.overloaded_hosts.len() <= usize::MAX,
        crate::stats::total_in_flight(shared.hosts) <= u32::MAX,
        shared.is_summary(summary),
        0 <= k < shared.overloaded_hosts.len(),
        0 <= i < shared.hosts.len(),
        shared.hosts[i].addr == shared.overloaded_hosts[k],
    ensures
        summary.totals matches Some(totals) && totals.hosts == shared.hosts.len()
            && totals.overloaded == shared.overloaded_hosts.len() && totals.in_flight
            == crate::laws::ranks::total(
            shared.hosts,
            |entry: EntryView| entry.host.in_flight as nat,
        ),
        summary.overloaded@.len() == shared.overloaded_hosts.len(),
        ({
            let told = summary.overloaded@[k];
            let host = shared.hosts[i].host;
            &&& told.addr@ == shared.overloaded_hosts[k]
            &&& told.limit == host.current_limit
            &&& told.in_flight == host.in_flight
            &&& told.gradient@ == host.last_gradient
            &&& told.min_rtt_us == match host.min_rtt_ns {
                Some(ns) => ns / 1000,
                None => 0,
            }
            &&& told.total_limited == host.total_limited
        }),
{
    let views = summary.overloaded@.map_values(|host: crate::stats::OverloadedHost| host@);
    lemma_in_flight(shared.hosts);
    assert forall|j: int| 0 <= j < shared.overloaded_hosts.len() implies crate::hosts::lookup(
        shared.hosts,
        #[trigger] shared.overloaded_hosts[j],
    ) is Some by {
        assert(shared.overloaded_hosts.contains(shared.overloaded_hosts[j]));
    }
    lemma_details(shared.hosts, shared.overloaded_hosts);
    law_host_is_found(shared.hosts, i);
    assert(views[k] == summary.overloaded@[k]@);
}

/// The summary where nothing is tracked has no totals.
pub proof fn law_empty_summary(shared: SharedView, summary: Summary)
    requires
        shared.is_summary(summary),
    ensures
        summary.totals is None <==> shared.hosts.len() == 0,
{
}

/// The configurations that the calculation can work with: a floor up to the ceiling, an upper
/// bound of the gradient from one half on, and timeouts of at most `18_446_744_073` seconds.
pub proof fn law_configurations(config: PluginConfig)
    ensures
        config.has_ranges() <==> config.min_concurrency_limit <= config.max_concurrency_limit
            && config.max_gradient@ !is Nan && !config.max_gradient@.below(Datum::of_ratio(1, 2)),
        config.has_timeouts() <==> config.recovery_timeout_secs <= 18_446_744_073
            && config.host_expiry_secs <= 18_446_744_073,
{
    crate::laws::gradient::lemma_half();
}

} // verus!
