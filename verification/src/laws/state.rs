//! What holds of the shared state between the callbacks of the proxy.

use crate::config::PluginConfig;
use crate::events::EventView;
use crate::host_state::HostView;
use crate::hosts::EntryView;
use crate::metrics::PluginMetrics;
use crate::shared_state::SharedView;
use vstd::prelude::*;

verus! {

impl HostView {
    /// While a probe is under way no samples are kept for the window, the count of windows does
    /// not run over, and no request is counted as in flight.
    pub open spec fn steady(self) -> bool {
        &&& self.is_probing_min_rtt ==> self.latency_samples.len() == 0
        &&& self.windows_since_min_rtt == u32::MAX ==> self.is_probing_min_rtt
        &&& self.in_flight == 0
    }
}

impl SharedView {
    /// No address is tracked twice, or twice among the overloaded ones.
    pub open spec fn distinct(self) -> bool {
        crate::hosts::distinct(self.hosts) && self.overloaded_hosts.no_duplicates()
    }

    /// All hosts are steady.
    pub open spec fn steady(self) -> bool {
        forall|i: int| 0 <= i < self.hosts.len() ==> (#[trigger] self.hosts[i]).host.steady()
    }

    /// All limits lie in the configured range, and so does that of a host to come.
    pub open spec fn limits_in_range(self) -> bool {
        &&& self.config.min_concurrency_limit <= self.config.initial_concurrency_limit
            <= self.config.max_concurrency_limit
        &&& forall|i: int|
            0 <= i < self.hosts.len() ==> (#[trigger] self.hosts[i]).host.limit_in_range(
                self.config,
            )
    }

    /// The set of overloaded hosts holds the tracked hosts that are marked as overloaded.
    pub open spec fn in_step(self) -> bool {
        forall|addr: Seq<char>|
            #[trigger] self.overloaded_hosts.contains(addr) <==> (crate::hosts::lookup(
                self.hosts,
                addr,
            ) matches Some(host) && host.is_overloaded)
    }
}

/// Before anything was seen, everything is in order; limits are in range where that of a new host
/// is.
pub proof fn law_initial_state(config: PluginConfig)
    ensures
        SharedView::initial(config).distinct(),
        SharedView::initial(config).steady(),
        SharedView::initial(config).in_step(),
        config.min_concurrency_limit <= config.initial_concurrency_limit
            <= config.max_concurrency_limit ==> SharedView::initial(config).limits_in_range(),
{
}

/// A new configuration, or new metrics, leave what is known of the hosts as it was and in order.
pub proof fn law_configuration_keeps_state(
    shared: SharedView,
    config: PluginConfig,
    metrics: Option<PluginMetrics>,
)
    requires
        shared.distinct(),
        shared.steady(),
        shared.in_step(),
    ensures
        ({
            let after = SharedView { config, metrics, ..shared };
            &&& after.hosts == shared.hosts
            &&& after.distinct()
            &&& after.steady()
            &&& after.in_step()
        }),
{
    let after = SharedView { config, metrics, ..shared };
    assert forall|addr: Seq<char>|
        #[trigger] after.overloaded_hosts.contains(addr) <==> (crate::hosts::lookup(
            after.hosts,
            addr,
        ) matches Some(host) && host.is_overloaded) by {
        assert(shared.overloaded_hosts.contains(addr) <==> (crate::hosts::lookup(
            shared.hosts,
            addr,
        ) matches Some(host) && host.is_overloaded));
    }
}

/// A host stays steady through the periodic recalculation, which stays within what the
/// calculation and the counter can hold.
proof fn lemma_ticked_steady(host: HostView, config: PluginConfig, now_ns: u64)
    requires
        host.steady(),
        config.has_ranges(),
    ensures
        host.tickable(config),
        host.ticked(config, now_ns).steady(),
{
}

/// Every host after a response is one from before, or the one that it came from.
proof fn lemma_response_hosts(
    shared: SharedView,
    addr: Seq<char>,
    latency_ns: u64,
    now_ns: u64,
    i: int,
)
    requires
        crate::hosts::distinct(shared.hosts),
        0 <= i < shared.after_response(addr, latency_ns, now_ns).hosts.len(),
    ensures
        ({
            let entry = shared.after_response(addr, latency_ns, now_ns).hosts[i];
            ||| 0 <= i < shared.hosts.len() && entry == shared.hosts[i]
            ||| entry.host == shared.host_or_fresh(addr, now_ns).counted(
                latency_ns,
                now_ns,
                shared.rejects(addr),
            ) && (crate::hosts::lookup(shared.hosts, addr) is Some ==> exists|j: int|
                0 <= j < shared.hosts.len() && #[trigger] shared.hosts[j].host
                    == shared.host_or_fresh(addr, now_ns))
        }),
{
    if crate::hosts::tracks(shared.hosts, addr) {
        let spot = crate::hosts::place(shared.hosts, addr);
        assert(crate::hosts::is_at(shared.hosts, addr, spot));
        assert(shared.hosts[spot].host == shared.host_or_fresh(addr, now_ns));
    }
}

/// The state stays steady through a response.
pub proof fn law_response_keeps_steady(
    shared: SharedView,
    addr: Seq<char>,
    latency_ns: u64,
    now_ns: u64,
)
    requires
        shared.distinct(),
        shared.steady(),
    ensures
        shared.after_response(addr, latency_ns, now_ns).distinct(),
        shared.after_response(addr, latency_ns, now_ns).steady(),
{
    let after = shared.after_response(addr, latency_ns, now_ns);
    crate::hosts::lemma_with_host(
        shared.hosts,
        addr,
        shared.host_or_fresh(addr, now_ns).counted(latency_ns, now_ns, shared.rejects(addr)),
    );
    assert forall|i: int| 0 <= i < after.hosts.len() implies (
    #[trigger] after.hosts[i]).host.steady() by {
        lemma_response_hosts(shared, addr, latency_ns, now_ns, i);
    }
}

/// Every host after the periodic work is one from before, recalculated and reviewed.
proof fn lemma_ticked_hosts(shared: SharedView, now_ns: u64, i: int)
    requires
        0 <= i < shared.ticked(now_ns).hosts.len(),
    ensures
        exists|j: int|
            0 <= j < shared.hosts.len() && shared.ticked(now_ns).hosts[i] == #[trigger] after_tick(
                shared,
                now_ns,
                shared.hosts[j],
            ),
{
    let recalculated = shared.recalculated(now_ns);
    let rebuilt = recalculated.with_overloaded_set(now_ns);
    let kept = shared.ticked(now_ns).hosts;
    let keep = |entry: EntryView| !entry.host.expired(now_ns, shared.expiry_ns());
    crate::hosts::lemma_filter_keys(rebuilt.hosts, keep, |entry: EntryView| entry.addr);
    assert(kept.contains(kept[i]));
    assert(rebuilt.hosts.contains(kept[i]));
    let j = choose|j: int| 0 <= j < rebuilt.hosts.len() && rebuilt.hosts[j] == kept[i];
    assert(rebuilt.hosts[j] == after_tick(shared, now_ns, shared.hosts[j]));
}

/// A tracked host after the periodic work.
pub open spec fn after_tick(shared: SharedView, now_ns: u64, entry: EntryView) -> EntryView {
    EntryView {
        addr: entry.addr,
        host: entry.host.ticked(shared.config, now_ns).reviewed(
            shared.config,
            shared.recovery_ns(),
            now_ns,
        ),
    }
}

/// The state stays steady through the periodic work, which can always be done in a steady state:
/// neither the calculation nor a counter leaves its range.
pub proof fn law_tick_is_safe(shared: SharedView, now_ns: u64)
    requires
        shared.distinct(),
        shared.steady(),
        shared.config.has_ranges(),
        shared.config.has_timeouts(),
    ensures
        shared.can_tick(now_ns),
        shared.ticked(now_ns).distinct(),
        shared.ticked(now_ns).steady(),
{
    let after = shared.ticked(now_ns);
    assert forall|i: int| 0 <= i < shared.hosts.len() implies (
    #[trigger] shared.hosts[i]).host.tickable(shared.config) by {
        lemma_ticked_steady(shared.hosts[i].host, shared.config, now_ns);
    }
    assert forall|i: int| 0 <= i < after.hosts.len() implies (
    #[trigger] after.hosts[i]).host.steady() by {
        lemma_ticked_hosts(shared, now_ns, i);
        let j = choose|j: int|
            0 <= j < shared.hosts.len() && after.hosts[i] == #[trigger] after_tick(
                shared,
                now_ns,
                shared.hosts[j],
            );
        lemma_ticked_steady(shared.hosts[j].host, shared.config, now_ns);
    }
    lemma_nothing_in_flight(after.hosts);
    lemma_ticked_distinct(shared, now_ns);
}

proof fn lemma_nothing_in_flight(hosts: Seq<EntryView>)
    requires
        forall|i: int| 0 <= i < hosts.len() ==> (#[trigger] hosts[i]).host.in_flight == 0,
    ensures
        crate::stats::total_in_flight(hosts) == 0,
    decreases hosts.len(),
{
    if hosts.len() > 0 {
        let front = hosts.drop_last();
        assert forall|i: int| 0 <= i < front.len() implies (
        #[trigger] front[i]).host.in_flight == 0 by {
            assert(front[i] == hosts[i]);
        }
        lemma_nothing_in_flight(front);
    }
}

/// The addresses of overloaded hosts differ where those of all hosts do.
pub proof fn lemma_overloaded_distinct(hosts: Seq<EntryView>)
    requires
        crate::hosts::distinct(hosts),
    ensures
        crate::shared_state::overloaded_addresses(hosts).no_duplicates(),
    decreases hosts.len(),
{
    if hosts.len() > 0 {
        let front = hosts.drop_last();
        assert(crate::hosts::distinct(front));
        lemma_overloaded_distinct(front);
        crate::shared_state::lemma_not_yet_overloaded(hosts, hosts.len() - 1);
        assert(hosts.take(hosts.len() - 1) =~= front);
    }
}

proof fn lemma_ticked_distinct(shared: SharedView, now_ns: u64)
    requires
        shared.distinct(),
    ensures
        shared.ticked(now_ns).distinct(),
{
    let rebuilt = shared.recalculated(now_ns).with_overloaded_set(now_ns);
    let after = shared.ticked(now_ns);
    let keep = |entry: EntryView| !entry.host.expired(now_ns, shared.expiry_ns());
    let keep_addr = |addr: Seq<char>|
        !crate::shared_state::is_stale(rebuilt.hosts, addr, now_ns, shared.expiry_ns());
    let entry_addr = |entry: EntryView| entry.addr;
    let own = |addr: Seq<char>| addr;
    assert(crate::hosts::distinct(rebuilt.hosts));
    lemma_overloaded_distinct(rebuilt.hosts);
    crate::hosts::lemma_filter_keys(rebuilt.hosts, keep, entry_addr);
    crate::hosts::lemma_filter_keys(rebuilt.overloaded_hosts, keep_addr, own);
    assert forall|i: int, j: int| 0 <= i < j < after.hosts.len() implies after.hosts[i].addr
        != after.hosts[j].addr by {
        assert(entry_addr(after.hosts[i]) != entry_addr(after.hosts[j]));
    }
    assert forall|i: int, j: int|
        0 <= i < after.overloaded_hosts.len() && 0 <= j < after.overloaded_hosts.len() && i
            != j implies after.overloaded_hosts[i] != after.overloaded_hosts[j] by {
        if i < j {
            assert(own(after.overloaded_hosts[i]) != own(after.overloaded_hosts[j]));
        } else {
            assert(own(after.overloaded_hosts[j]) != own(after.overloaded_hosts[i]));
        }
    }
}

/// A limit that lies in the configured range stays there through a response.
pub proof fn law_response_keeps_limits(
    shared: SharedView,
    addr: Seq<char>,
    latency_ns: u64,
    now_ns: u64,
)
    requires
        shared.distinct(),
        shared.limits_in_range(),
    ensures
        shared.after_response(addr, latency_ns, now_ns).limits_in_range(),
{
    let after = shared.after_response(addr, latency_ns, now_ns);
    assert forall|i: int| 0 <= i < after.hosts.len() implies (
    #[trigger] after.hosts[i]).host.limit_in_range(after.config) by {
        lemma_response_hosts(shared, addr, latency_ns, now_ns, i);
    }
}

/// The limit never drops below the floor and never exceeds the ceiling: limits that lie in the
/// configured range stay there through the periodic work.
pub proof fn law_tick_keeps_limits(shared: SharedView, now_ns: u64)
    requires
        shared.limits_in_range(),
    ensures
        shared.ticked(now_ns).limits_in_range(),
{
    let after = shared.ticked(now_ns);
    assert forall|i: int| 0 <= i < after.hosts.len() implies (
    #[trigger] after.hosts[i]).host.limit_in_range(after.config) by {
        lemma_ticked_hosts(shared, now_ns, i);
        let j = choose|j: int|
            0 <= j < shared.hosts.len() && after.hosts[i] == #[trigger] after_tick(
                shared,
                now_ns,
                shared.hosts[j],
            );
        assert(shared.hosts[j].host.limit_in_range(shared.config));
    }
}

/// A limit that lies in the configured range stays there through a recalculation, whatever the
/// samples and the minRTT are, zero included.
pub proof fn law_recalculation_keeps_limit(host: HostView, config: PluginConfig, now_ns: u64)
    requires
        host.limit_in_range(config),
    ensures
        host.recalculated(config, now_ns).limit_in_range(config),
{
}

/// What a host is recalculated out of: the samples, the minRTT and the time.
pub struct Window {
    pub samples: Seq<u64>,
    pub min_rtt_ns: Option<u64>,
    pub now_ns: u64,
}

/// A host after recalculations out of any windows.
pub open spec fn after_windows(
    host: HostView,
    config: PluginConfig,
    windows: Seq<Window>,
) -> HostView
    decreases windows.len(),
{
    if windows.len() == 0 {
        host
    } else {
        let before = after_windows(host, config, windows.drop_last());
        let window = windows.last();
        HostView {
            latency_samples: window.samples,
            min_rtt_ns: window.min_rtt_ns,
            ..before
        }.recalculated(config, window.now_ns)
    }
}

/// The limit never drops below the floor and never exceeds the ceiling, after any number of
/// recalculations.
pub proof fn law_recalculations_keep_limit(
    host: HostView,
    config: PluginConfig,
    windows: Seq<Window>,
)
    requires
        host.limit_in_range(config),
    ensures
        after_windows(host, config, windows).limit_in_range(config),
    decreases windows.len(),
{
    if windows.len() > 0 {
        law_recalculations_keep_limit(host, config, windows.drop_last());
    }
}

/// The periodic recalculation leaves a host alone whose window is not full and that has no probe
/// to finish.
pub proof fn law_undue_host_is_untouched(host: HostView, config: PluginConfig, now_ns: u64)
    requires
        host.latency_samples.len() < config.sample_window_size,
        !host.is_probing_min_rtt || host.probe_samples.len() < config.min_rtt_probe_count,
    ensures
        host.tickable(config),
        host.ticked(config, now_ns) == host,
        forall|addr: Seq<char>|
            (#[trigger] host.tick_events(addr, config, now_ns)) == Seq::<EventView>::empty(),
{
    assert forall|addr: Seq<char>|
        (#[trigger] host.tick_events(addr, config, now_ns)) == Seq::<EventView>::empty() by {
        assert(host.tick_events(addr, config, now_ns) =~= Seq::<EventView>::empty());
    }
}

/// The periodic recalculation of all limits treats every host by itself, whatever the other hosts
/// hold, and changes nothing but hosts.
pub proof fn law_recalculation_is_per_host(shared: SharedView, now_ns: u64, addr: Seq<char>)
    requires
        shared.distinct(),
    ensures
        ({
            let after = shared.recalculated(now_ns);
            &&& crate::hosts::lookup(after.hosts, addr) == match crate::hosts::lookup(
                shared.hosts,
                addr,
            ) {
                Some(host) => Some(host.ticked(shared.config, now_ns)),
                None => None,
            }
            &&& after.hosts.len() == shared.hosts.len()
            &&& forall|i: int|
                0 <= i < after.hosts.len() ==> (#[trigger] after.hosts[i]).addr
                    == shared.hosts[i].addr
            &&& after == SharedView { hosts: after.hosts, ..shared }
        }),
{
    let after = shared.recalculated(now_ns);
    if crate::hosts::tracks(shared.hosts, addr) {
        let i = crate::hosts::place(shared.hosts, addr);
        assert(crate::hosts::is_at(shared.hosts, addr, i));
        assert(crate::hosts::is_at(after.hosts, addr, i));
        assert(crate::hosts::distinct(after.hosts));
        crate::hosts::lemma_place(after.hosts, addr, i);
    } else if crate::hosts::tracks(after.hosts, addr) {
        let i = crate::hosts::place(after.hosts, addr);
        assert(crate::hosts::is_at(after.hosts, addr, i));
        assert(crate::hosts::is_at(shared.hosts, addr, i));
    }
}

/// A response changes nothing of the other hosts.
pub proof fn law_response_leaves_others(
    shared: SharedView,
    addr: Seq<char>,
    latency_ns: u64,
    now_ns: u64,
    other: Seq<char>,
)
    requires
        shared.distinct(),
        other != addr,
    ensures
        ({
            let after = shared.after_response(addr, latency_ns, now_ns);
            &&& crate::hosts::lookup(after.hosts, other) == crate::hosts::lookup(
                shared.hosts,
                other,
            )
            &&& after.overloaded_hosts == shared.overloaded_hosts
            &&& after.rejects(other) == shared.rejects(other)
        }),
{
    crate::hosts::lemma_with_host(
        shared.hosts,
        addr,
        shared.host_or_fresh(addr, now_ns).counted(latency_ns, now_ns, shared.rejects(addr)),
    );
}

/// Every response is counted at the host that it came from, whether it is rejected or not, and
/// its latency is kept as a sample.
pub proof fn law_response_is_counted(
    shared: SharedView,
    addr: Seq<char>,
    latency_ns: u64,
    now_ns: u64,
)
    requires
        shared.distinct(),
    ensures
        crate::hosts::lookup(shared.after_response(addr, latency_ns, now_ns).hosts, addr) == Some(
            shared.host_or_fresh(addr, now_ns).counted(latency_ns, now_ns, shared.rejects(addr)),
        ),
{
    crate::hosts::lemma_with_host(
        shared.hosts,
        addr,
        shared.host_or_fresh(addr, now_ns).counted(latency_ns, now_ns, shared.rejects(addr)),
    );
}

/// The periodic work treats every host by itself: what becomes of a host follows from its own
/// state and the configuration, whatever the other hosts are like.
pub proof fn law_tick_is_per_host(shared: SharedView, now_ns: u64, addr: Seq<char>)
    requires
        shared.distinct(),
    ensures
        crate::hosts::lookup(shared.ticked(now_ns).hosts, addr) == match crate::hosts::lookup(
            shared.hosts,
            addr,
        ) {
            Some(host) => {
                let next = host.ticked(shared.config, now_ns).reviewed(
                    shared.config,
                    shared.recovery_ns(),
                    now_ns,
                );
                if next.expired(now_ns, shared.expiry_ns()) {
                    None
                } else {
                    Some(next)
                }
            },
            None => None,
        },
{
    let rebuilt = shared.recalculated(now_ns).with_overloaded_set(now_ns);
    let after = shared.ticked(now_ns);
    let keep = |entry: EntryView| !entry.host.expired(now_ns, shared.expiry_ns());
    crate::hosts::lemma_filter_keys(rebuilt.hosts, keep, |entry: EntryView| entry.addr);
    lemma_ticked_distinct(shared, now_ns);
    if crate::hosts::tracks(after.hosts, addr) {
        let i = crate::hosts::place(after.hosts, addr);
        assert(crate::hosts::is_at(after.hosts, addr, i));
        assert(after.hosts.contains(after.hosts[i]));
        let j = choose|j: int| 0 <= j < rebuilt.hosts.len() && rebuilt.hosts[j] == after.hosts[i];
        assert(rebuilt.hosts[j] == after_tick(shared, now_ns, shared.hosts[j]));
        assert(crate::hosts::is_at(shared.hosts, addr, j));
        crate::hosts::lemma_place(shared.hosts, addr, j);
        assert(keep(after.hosts[i]));
    } else if crate::hosts::tracks(shared.hosts, addr) {
        let j = crate::hosts::place(shared.hosts, addr);
        assert(crate::hosts::is_at(shared.hosts, addr, j));
        let entry = after_tick(shared, now_ns, shared.hosts[j]);
        assert(rebuilt.hosts[j] == entry);
        assert(rebuilt.hosts.contains(entry));
        if keep(entry) {
            assert(after.hosts.contains(entry));
            let i = choose|i: int| 0 <= i < after.hosts.len() && after.hosts[i] == entry;
            assert(crate::hosts::is_at(after.hosts, addr, i));
        }
    }
}

/// After the periodic work the set of overloaded hosts holds exactly the tracked hosts that are
/// marked as overloaded.
pub proof fn law_tick_sets_overloaded(shared: SharedView, now_ns: u64)
    requires
        shared.distinct(),
    ensures
        shared.ticked(now_ns).in_step(),
{
    let rebuilt = shared.recalculated(now_ns).with_overloaded_set(now_ns);
    let after = shared.ticked(now_ns);
    let keep = |entry: EntryView| !entry.host.expired(now_ns, shared.expiry_ns());
    let keep_addr = |addr: Seq<char>|
        !crate::shared_state::is_stale(rebuilt.hosts, addr, now_ns, shared.expiry_ns());
    crate::hosts::lemma_filter_keys(rebuilt.hosts, keep, |entry: EntryView| entry.addr);
    crate::hosts::lemma_filter_keys(rebuilt.overloaded_hosts, keep_addr, |addr: Seq<char>| addr);
    crate::shared_state::lemma_overloaded_addresses(rebuilt.hosts);
    assert(crate::hosts::distinct(rebuilt.hosts));
    lemma_ticked_distinct(shared, now_ns);
    assert forall|addr: Seq<char>|
        #[trigger] after.overloaded_hosts.contains(addr) <==> (crate::hosts::lookup(
            after.hosts,
            addr,
        ) matches Some(host) && host.is_overloaded) by {
        if after.overloaded_hosts.contains(addr) {
            assert(rebuilt.overloaded_hosts.contains(addr));
            let j = choose|j: int|
                crate::hosts::is_at(rebuilt.hosts, addr, j) && rebuilt.hosts[j].host.is_overloaded;
            crate::hosts::lemma_place(rebuilt.hosts, addr, j);
            assert(keep_addr(addr));
            assert(keep(rebuilt.hosts[j]));
            assert(rebuilt.hosts.contains(rebuilt.hosts[j]));
            assert(after.hosts.contains(rebuilt.hosts[j]));
            let i = choose|i: int| 0 <= i < after.hosts.len() && after.hosts[i] == rebuilt.hosts[j];
            assert(crate::hosts::is_at(after.hosts, addr, i));
            crate::hosts::lemma_place(after.hosts, addr, i);
        }
        if crate::hosts::lookup(after.hosts, addr) matches Some(host) && host.is_overloaded {
            let i = crate::hosts::place(after.hosts, addr);
            assert(crate::hosts::is_at(after.hosts, addr, i));
            assert(after.hosts.contains(after.hosts[i]));
            let j = choose|j: int|
                0 <= j < rebuilt.hosts.len() && rebuilt.hosts[j] == after.hosts[i];
            assert(crate::hosts::is_at(rebuilt.hosts, addr, j));
            crate::hosts::lemma_place(rebuilt.hosts, addr, j);
            assert(rebuilt.overloaded_hosts.contains(addr));
            assert(keep(after.hosts[i]));
            assert(keep_addr(addr));
        }
    }
}

/// The set of overloaded hosts stays in step with the hosts through a response.
pub proof fn law_response_keeps_step(
    shared: SharedView,
    addr: Seq<char>,
    latency_ns: u64,
    now_ns: u64,
)
    requires
        shared.distinct(),
        shared.in_step(),
    ensures
        shared.after_response(addr, latency_ns, now_ns).in_step(),
{
    let after = shared.after_response(addr, latency_ns, now_ns);
    crate::hosts::lemma_with_host(
        shared.hosts,
        addr,
        shared.host_or_fresh(addr, now_ns).counted(latency_ns, now_ns, shared.rejects(addr)),
    );
    assert forall|other: Seq<char>|
        #[trigger] after.overloaded_hosts.contains(other) <==> (crate::hosts::lookup(
            after.hosts,
            other,
        ) matches Some(host) && host.is_overloaded) by {
        assert(shared.overloaded_hosts.contains(other) <==> (crate::hosts::lookup(
            shared.hosts,
            other,
        ) matches Some(host) && host.is_overloaded));
    }
}

/// Responses are rejected per host: exactly those of tracked hosts that are marked as overloaded,
/// and none in a dry run. Responses of healthy hosts, and of hosts not seen before, never are.
pub proof fn law_only_overloaded_hosts_rejected(shared: SharedView, addr: Seq<char>)
    requires
        shared.in_step(),
    ensures
        shared.rejects(addr) <==> !shared.config.dry_run && (crate::hosts::lookup(
            shared.hosts,
            addr,
        ) matches Some(host) && host.is_overloaded),
{
}

/// No stale host is left after the periodic work.
pub proof fn law_tick_leaves_no_stale_host(shared: SharedView, now_ns: u64)
    ensures
        forall|i: int|
            0 <= i < shared.ticked(now_ns).hosts.len() ==> !(
            #[trigger] shared.ticked(now_ns).hosts[i]).host.expired(now_ns, shared.expiry_ns()),
{
    let rebuilt = shared.recalculated(now_ns).with_overloaded_set(now_ns);
    let after = shared.ticked(now_ns);
    let keep = |entry: EntryView| !entry.host.expired(now_ns, shared.expiry_ns());
    crate::hosts::lemma_filter_keys(rebuilt.hosts, keep, |entry: EntryView| entry.addr);
    assert forall|i: int| 0 <= i < after.hosts.len() implies !(
    #[trigger] after.hosts[i]).host.expired(now_ns, shared.expiry_ns()) by {
        assert(after.hosts.contains(after.hosts[i]));
        assert(keep(after.hosts[i]));
    }
}

/// Probes come at regular intervals: a full window starts a probe exactly where it is the last of
/// `min_rtt_recalc_windows` since the previous one.
pub proof fn law_probe_interval(host: HostView, config: PluginConfig, now_ns: u64)
    requires
        !host.is_probing_min_rtt,
        host.windows_since_min_rtt < u32::MAX,
        host.latency_samples.len() > 0,
        host.window_full(config),
    ensures
        host.ticked(config, now_ns).is_probing_min_rtt <==> host.windows_since_min_rtt + 1
            >= config.min_rtt_recalc_windows,
        host.ticked(config, now_ns).windows_since_min_rtt == host.windows_since_min_rtt + 1,
{
}

/// A probe ends exactly where it has `min_rtt_probe_count` samples, and then the count of windows
/// starts over; until then the limit stays as it is.
pub proof fn law_probe_ends(host: HostView, config: PluginConfig, now_ns: u64)
    requires
        host.steady(),
        host.is_probing_min_rtt,
        config.sample_window_size > 0,
    ensures
        ({
            let next = host.ticked(config, now_ns);
            &&& next.is_probing_min_rtt <==> host.probe_samples.len() < config.min_rtt_probe_count
            &&& !next.is_probing_min_rtt ==> next.windows_since_min_rtt == 0 && next.min_rtt_ns
                == host.probed_min_rtt(config)
            &&& next.current_limit == host.current_limit
            &&& next.is_overloaded == host.is_overloaded
        }),
{
}

/// Between the two thresholds the overload status stays as it is; below the lower one a host
/// becomes overloaded, and above the upper one it recovers.
pub proof fn law_overload_hysteresis(host: HostView, config: PluginConfig, now_ns: u64)
    requires
        host.latency_samples.len() > 0,
        !config.recovery_gradient_threshold@.below(config.overload_gradient_threshold@),
    ensures
        ({
            let gradient = host.gradient2_params(config).gradient();
            let next = host.recalculated(config, now_ns);
            let low = gradient.below(config.overload_gradient_threshold@);
            let high = config.recovery_gradient_threshold@.below(gradient);
            &&& !(low && high)
            &&& low ==> next.is_overloaded
            &&& high ==> !next.is_overloaded
            &&& !low && !high ==> next.is_overloaded == host.is_overloaded
            &&& low && !host.is_overloaded ==> next.overloaded_since_ns == now_ns
            &&& host.is_overloaded ==> next.overloaded_since_ns == host.overloaded_since_ns
        }),
{
}

/// A host that has been overloaded for longer than the recovery timeout without getting new
/// samples is not overloaded after the periodic work, and time makes no other host recover.
pub proof fn law_recovery_timeout(shared: SharedView, now_ns: u64, i: int)
    requires
        0 <= i < shared.hosts.len(),
        shared.recovery_ns() > 0,
    ensures
        ({
            let host = shared.hosts[i].host.ticked(shared.config, now_ns);
            let next = shared.recalculated(now_ns).with_overloaded_set(now_ns).hosts[i].host;
            next.is_overloaded <==> host.is_overloaded && (crate::host_state::elapsed(
                now_ns,
                host.overloaded_since_ns,
            ) <= shared.recovery_ns() || crate::host_state::elapsed(now_ns, host.last_seen_ns)
                <= shared.recovery_ns())
        }),
{
}

/// The adaptive timeout: none exactly while no host is overloaded, and else 50 to 500
/// milliseconds.
pub proof fn law_adaptive_timeout_in_range(hosts: Seq<EntryView>, overloaded: Seq<Seq<char>>)
    ensures
        crate::shared_state::adaptive_timeout(hosts, overloaded) == 0 <==> overloaded.len() == 0,
        overloaded.len() > 0 ==> 50 <= crate::shared_state::adaptive_timeout(hosts, overloaded)
            <= 500,
{
}

/// A timeout leaves room for the latency that it was made for, unless that is beyond 500
/// milliseconds.
pub proof fn law_timeout_leaves_room(latency_ns: u64)
    requires
        latency_ns < 500_000_000,
    ensures
        crate::shared_state::timeout_for(latency_ns) * 1_000_000 > latency_ns,
{
}

/// The first window of a host is the baseline of its minRTT.
pub proof fn law_first_window_is_baseline(host: HostView, config: PluginConfig, now_ns: u64)
    requires
        host.latency_samples.len() > 0,
        host.min_rtt_ns is None,
    ensures
        host.recalculated(config, now_ns).min_rtt_ns == Some(host.sample_rtt(config)),
{
}

/// The default configuration is in order: with it the periodic work can always be done, and a new
/// host's limit lies in range.
pub proof fn law_defaults_in_order(config: PluginConfig)
    requires
        config.is_default(),
    ensures
        config.has_ranges(),
        config.has_timeouts(),
        SharedView::initial(config).limits_in_range(),
{
    crate::laws::gradient::lemma_half();
    crate::number::powers::lemma_small_powers();
    crate::number::exactness::lemma_exact_integer(2);
    crate::number::powers::lemma_power_order(1073, 1074);
}

} // verus!
