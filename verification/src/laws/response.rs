//! What happens to a response.

use crate::host_state::HostView;
use crate::hosts::EntryView;
use crate::http_context::Reply;
use crate::metrics::{MetricUpdate, PluginMetrics};
use crate::shared_state::SharedView;
use vstd::prelude::*;

verus! {

/// A response of a tracked host is counted at that host, as limited where the host is listed as
/// overloaded outside a dry run, and nothing else changes.
pub proof fn law_response_of_tracked_host(
    shared: SharedView,
    i: int,
    latency_ns: u64,
    now_ns: u64,
)
    requires
        crate::hosts::distinct(shared.hosts),
        0 <= i < shared.hosts.len(),
    ensures
        ({
            let addr = shared.hosts[i].addr;
            let limited = shared.overloaded_hosts.contains(addr) && !shared.config.dry_run;
            shared.after_response(addr, latency_ns, now_ns) == SharedView {
                hosts: shared.hosts.update(
                    i,
                    EntryView {
                        addr,
                        host: shared.hosts[i].host.counted(latency_ns, now_ns, limited),
                    },
                ),
                ..shared
            }
        }),
{
    let addr = shared.hosts[i].addr;
    crate::laws::shared::law_host_is_found(shared.hosts, i);
    crate::laws::shared::law_host_is_replaced(
        shared.hosts,
        i,
        shared.hosts[i].host.counted(latency_ns, now_ns, shared.rejects(addr)),
    );
}

/// The response of a host that is not tracked makes it tracked, with the initial limit, and is
/// counted there.
pub proof fn law_response_of_new_host(
    shared: SharedView,
    addr: Seq<char>,
    latency_ns: u64,
    now_ns: u64,
)
    requires
        forall|i: int| 0 <= i < shared.hosts.len() ==> (#[trigger] shared.hosts[i]).addr != addr,
    ensures
        ({
            let limited = shared.overloaded_hosts.contains(addr) && !shared.config.dry_run;
            let first = HostView::fresh(shared.config.initial_concurrency_limit, now_ns);
            shared.after_response(addr, latency_ns, now_ns) == SharedView {
                hosts: shared.hosts.push(
                    EntryView { addr, host: first.counted(latency_ns, now_ns, limited) },
                ),
                ..shared
            }
        }),
{
    let first = HostView::fresh(shared.config.initial_concurrency_limit, now_ns);
    crate::laws::shared::law_no_host_is_found(shared.hosts, addr);
    crate::laws::shared::law_host_is_added(
        shared.hosts,
        addr,
        first.counted(latency_ns, now_ns, shared.rejects(addr)),
    );
}

/// Every latency that a response brings is kept, however many there are: a tracked host that is
/// not probing has it at the end of its window, and one that probes at the end of its probe.
pub proof fn law_response_adds_sample(shared: SharedView, i: int, latency_ns: u64, now_ns: u64)
    requires
        crate::hosts::distinct(shared.hosts),
        0 <= i < shared.hosts.len(),
    ensures
        ({
            let before = shared.hosts[i].host;
            let after = shared.after_response(shared.hosts[i].addr, latency_ns, now_ns);
            let next = after.hosts[i].host;
            &&& next.latency_samples == if before.is_probing_min_rtt {
                before.latency_samples
            } else {
                before.latency_samples.push(latency_ns)
            }
            &&& next.probe_samples == if before.is_probing_min_rtt {
                before.probe_samples.push(latency_ns)
            } else {
                before.probe_samples
            }
            &&& next.latency_samples.len() + next.probe_samples.len()
                == before.latency_samples.len() + before.probe_samples.len() + 1
        }),
{
    law_response_of_tracked_host(shared, i, latency_ns, now_ns);
}

/// A response can be counted unless a counter of its host is full.
pub proof fn law_response_can_be_counted(shared: SharedView, addr: Seq<char>, now_ns: u64)
    requires
        crate::hosts::distinct(shared.hosts),
        forall|i: int|
            0 <= i < shared.hosts.len() && (#[trigger] shared.hosts[i]).addr == addr
                ==> shared.hosts[i].host.total_requests < u64::MAX
                && shared.hosts[i].host.total_limited < u64::MAX,
    ensures
        shared.can_count(addr, now_ns),
{
    if crate::hosts::tracks(shared.hosts, addr) {
        let i = crate::hosts::place(shared.hosts, addr);
        assert(crate::hosts::is_at(shared.hosts, addr, i));
        assert(shared.hosts[i].addr == addr);
    }
}

/// The metric updates of a response: one request and its latency in whole milliseconds; one
/// response of an overloaded host where its host is listed; and one shed request where that is not
/// in a dry run.
pub proof fn law_response_updates(
    shared: SharedView,
    addr: Seq<char>,
    latency_ns: u64,
    m: PluginMetrics,
)
    requires
        shared.metrics == Some(m),
    ensures
        ({
            let updates = shared.response_updates(addr, latency_ns);
            let listed = shared.overloaded_hosts.contains(addr);
            &&& updates.len() == if !listed {
                2int
            } else if shared.config.dry_run {
                3
            } else {
                4
            }
            &&& updates[0] == (MetricUpdate::Increment { id: m.requests_total, offset: 1 })
            &&& updates[1] == (MetricUpdate::Record {
                id: m.request_latency_ms,
                value: latency_ns / 1_000_000,
            })
            &&& listed ==> updates[2] == (MetricUpdate::Increment {
                id: m.overloaded_responses,
                offset: 1,
            })
            &&& listed && !shared.config.dry_run ==> updates[3] == (MetricUpdate::Increment {
                id: m.requests_shed,
                offset: 1,
            })
        }),
{
}

/// Without metrics a response updates none.
pub proof fn law_response_without_metrics(shared: SharedView, addr: Seq<char>, latency_ns: u64)
    requires
        shared.metrics is None,
    ensures
        shared.response_updates(addr, latency_ns).len() == 0,
{
}

/// The reply to a response of a listed host outside a dry run: the configured status, four headers
/// that name the host, and a body that does.
pub proof fn law_rejection(shared: SharedView, addr: Seq<char>, reply: Reply)
    requires
        shared.is_reply(addr, reply),
        shared.overloaded_hosts.contains(addr),
        !shared.config.dry_run,
    ensures
        reply matches Reply::Reject { status, headers, body } && {
            &&& status == shared.config.overload_response_code
            &&& headers@.len() == 4
            &&& headers@[0].name@ == "x-envoy-overloaded"@ && headers@[0].value@ == "true"@
            &&& headers@[1].name@ == "x-adaptive-concurrency-shed"@ && headers@[1].value@
                == "true"@
            &&& headers@[2].name@ == "x-overloaded-host"@ && headers@[2].value@ == addr
            &&& headers@[3].name@ == "content-type"@ && headers@[3].value@ == "text/plain"@
            &&& body@ == "adaptive concurrency: host "@ + addr
                + " overloaded, retrying on another host\n"@
        },
{
    if let Reply::Reject { headers, .. } = reply {
        let pairs = crate::http_context::header_pairs(headers@);
        assert(pairs.len() == 4);
        assert(pairs[0] == headers@[0]@);
        assert(pairs[1] == headers@[1]@);
        assert(pairs[2] == headers@[2]@);
        assert(pairs[3] == headers@[3]@);
    }
}

/// The reply to a response of a listed host in a dry run: the response goes on with two headers
/// set, the second of which names the host.
pub proof fn law_annotation(shared: SharedView, addr: Seq<char>, reply: Reply)
    requires
        shared.is_reply(addr, reply),
        shared.overloaded_hosts.contains(addr),
        shared.config.dry_run,
    ensures
        reply matches Reply::Annotate { headers } && {
            &&& headers@.len() == 2
            &&& headers@[0].name@ == "x-adaptive-concurrency-limited"@ && headers@[0].value@
                == "true"@
            &&& headers@[1].name@ == "x-overloaded-host"@ && headers@[1].value@ == addr
        },
{
    if let Reply::Annotate { headers } = reply {
        let pairs = crate::http_context::header_pairs(headers@);
        assert(pairs.len() == 2);
        assert(pairs[0] == headers@[0]@);
        assert(pairs[1] == headers@[1]@);
    }
}

/// A response of a host that is not listed as overloaded goes on as it is.
pub proof fn law_forwarding(shared: SharedView, addr: Seq<char>, reply: Reply)
    requires
        shared.is_reply(addr, reply),
        !shared.overloaded_hosts.contains(addr),
    ensures
        reply is Forward,
{
}

/// The upstream address: what the first property that is there encodes, if that is text and not
/// empty.
pub proof fn law_upstream_address(address: Option<Seq<u8>>, uri: Option<Seq<u8>>, bytes: Seq<u8>)
    ensures
        ({
            let found = crate::http_context::upstream_address_in(address, uri);
            &&& address is None && uri is None ==> found is None
            &&& address == Some(bytes) || (address is None && uri == Some(bytes)) ==> {
                let text = vstd::utf8::decode_utf8(bytes);
                &&& !vstd::utf8::valid_utf8(bytes) ==> found is None
                &&& vstd::utf8::valid_utf8(bytes) && text.len() == 0 ==> found is None
                &&& vstd::utf8::valid_utf8(bytes) && text.len() > 0 ==> found == Some(text)
            }
        }),
{
}

} // verus!
