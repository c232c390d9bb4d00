//! What happens to one HTTP exchange.

use crate::host_state::HostView;
use crate::metrics::MetricUpdate;
use crate::shared_state::{SharedState, SharedView};
use vstd::prelude::*;
use vstd::string::*;

verus! {

/// What the proxy does next with an exchange.
#[derive(Clone, Copy, Debug, PartialEq, Eq, Structural)]
pub enum Action {
    Continue,
    Pause,
}

/// A header of a response.
#[derive(Debug)]
pub struct Header {
    pub name: &'static str,
    pub value: String,
}

impl View for Header {
    type V = (Seq<char>, Seq<char>);

    open spec fn view(&self) -> (Seq<char>, Seq<char>) {
        (self.name@, self.value@)
    }
}

/// The headers as names and values.
pub open spec fn header_pairs(headers: Seq<Header>) -> Seq<(Seq<char>, Seq<char>)> {
    headers.map_values(|header: Header| header@)
}

/// What becomes of a response.
#[derive(Debug)]
pub enum Reply {
    /// The response goes on to the client as it is.
    Forward,
    /// The response goes on with these headers set.
    Annotate { headers: Vec<Header> },
    /// A local response takes the place of the response.
    Reject { status: u32, headers: Vec<Header>, body: String },
}

/// What is to be done about a response: the metric updates to send, and the reply.
#[derive(Debug)]
pub struct ResponsePlan {
    pub updates: Vec<MetricUpdate>,
    pub reply: Reply,
}

impl ResponsePlan {
    /// What the proxy does next: it waits where a local response is sent.
    pub fn action(&self) -> (r: Action)
        ensures
            r == if self.reply is Reject {
                Action::Pause
            } else {
                Action::Continue
            },
    {
        match self.reply {
            Reply::Reject { .. } => Action::Pause,
            _ => Action::Continue,
        }
    }
}

/// The filter of one HTTP exchange.
#[derive(Debug)]
pub struct AdaptiveConcurrencyHttp {
    pub request_start_ns: u64,
    pub upstream_address: Option<String>,
}

/// Decodes bytes with `String::from_utf8` of std, which is documented to succeed on valid UTF-8
/// alone and then to hold the same bytes: a string comes out exactly where the bytes are valid,
/// and its characters are those that they encode.
#[verifier::external_body]
fn from_utf8(bytes: Vec<u8>) -> (r: Option<String>)
    ensures
        r is Some <==> vstd::utf8::valid_utf8(bytes@),
        r matches Some(s) ==> s@ == vstd::utf8::decode_utf8(bytes@),
{
    String::from_utf8(bytes).ok()
}

/// The address of the upstream host out of the two properties that may hold it: the URI counts
/// where there is no address, and text that is empty or not valid UTF-8 is no address.
pub open spec fn upstream_address_in(
    address: Option<Seq<u8>>,
    uri: Option<Seq<u8>>,
) -> Option<Seq<char>> {
    let property = if address is Some {
        address
    } else {
        uri
    };
    match property {
        Some(bytes) => {
            let text = vstd::utf8::decode_utf8(bytes);
            if vstd::utf8::valid_utf8(bytes) && text.len() > 0 {
                Some(text)
            } else {
                None
            }
        },
        None => None,
    }
}

/// The bytes of a property.
pub open spec fn property_bytes(property: Option<Vec<u8>>) -> Option<Seq<u8>> {
    match property {
        Some(bytes) => Some(bytes@),
        None => None,
    }
}

/// The address of the upstream host out of the properties `upstream.address` and
/// `upstream.uri`.
pub fn get_upstream_address(address: Option<Vec<u8>>, uri: Option<Vec<u8>>) -> (r: Option<String>)
    ensures
        r is Some <==> upstream_address_in(property_bytes(address), property_bytes(uri)) is Some,
        r matches Some(addr) ==> upstream_address_in(property_bytes(address), property_bytes(uri))
            == Some(addr@),
{
    let property = match address {
        Some(bytes) => Some(bytes),
        None => uri,
    };
    match property {
        Some(bytes) => {
            match from_utf8(bytes) {
                Some(s) => {
                    if s.as_str().is_empty() {
                        None
                    } else {
                        Some(s)
                    }
                },
                None => None,
            }
        },
        None => None,
    }
}

impl SharedView {
    /// Whether a response of the host with an address is rejected.
    pub open spec fn rejects(self, addr: Seq<char>) -> bool {
        self.overloaded_hosts.contains(addr) && !self.config.dry_run
    }

    /// The host with an address as it is before a response of it is counted.
    pub open spec fn host_or_fresh(self, addr: Seq<char>, now_ns: u64) -> HostView {
        match crate::hosts::lookup(self.hosts, addr) {
            Some(host) => host,
            None => HostView::fresh(self.config.initial_concurrency_limit, now_ns),
        }
    }

    /// Whether a response of the host with an address can be counted.
    pub open spec fn can_count(self, addr: Seq<char>, now_ns: u64) -> bool {
        self.host_or_fresh(addr, now_ns).countable(self.rejects(addr))
    }

    /// After a response of the host with an address was counted.
    pub open spec fn after_response(
        self,
        addr: Seq<char>,
        latency_ns: u64,
        now_ns: u64,
    ) -> SharedView {
        let host = self.host_or_fresh(addr, now_ns);
        SharedView {
            hosts: crate::hosts::with_host(
                self.hosts,
                addr,
                host.counted(latency_ns, now_ns, self.rejects(addr)),
            ),
            ..self
        }
    }

    /// The metric updates of a response.
    pub open spec fn response_updates(self, addr: Seq<char>, latency_ns: u64) -> Seq<MetricUpdate> {
        match self.metrics {
            Some(m) => seq![
                MetricUpdate::Increment { id: m.requests_total, offset: 1 },
                MetricUpdate::Record { id: m.request_latency_ms, value: latency_ns / 1_000_000 },
            ] + if self.overloaded_hosts.contains(addr) {
                seq![MetricUpdate::Increment { id: m.overloaded_responses, offset: 1 }]
            } else {
                seq![]
            } + if self.rejects(addr) {
                seq![MetricUpdate::Increment { id: m.requests_shed, offset: 1 }]
            } else {
                seq![]
            },
            None => seq![],
        }
    }

    /// Whether a reply is the one that a response of the host with an address gets: a local
    /// response where the host is overloaded, or just headers that say so in a dry run.
    pub open spec fn is_reply(self, addr: Seq<char>, reply: Reply) -> bool {
        if self.rejects(addr) {
            &&& reply matches Reply::Reject { status, headers, body }
            &&& status == self.config.overload_response_code
            &&& header_pairs(headers@) == seq![
                ("x-envoy-overloaded"@, "true"@),
                ("x-adaptive-concurrency-shed"@, "true"@),
                ("x-overloaded-host"@, addr),
                ("content-type"@, "text/plain"@),
            ]
            &&& body@ == "adaptive concurrency: host "@ + addr
                + " overloaded, retrying on another host\n"@
        } else if self.overloaded_hosts.contains(addr) {
            &&& reply matches Reply::Annotate { headers }
            &&& header_pairs(headers@) == seq![
                ("x-adaptive-concurrency-limited"@, "true"@),
                ("x-overloaded-host"@, addr),
            ]
        } else {
            reply is Forward
        }
    }
}

impl SharedState {
    /// Whether a response of the host with an address can be counted.
    pub fn can_count_response(&self, addr: &str, now_ns: u64) -> (r: bool)
        requires
            self.wf(),
        ensures
            r == self@.can_count(addr@, now_ns),
    {
        let rejected = self.is_host_overloaded(addr) && !self.config.dry_run;
        match self.hosts.get(addr) {
            Some(host) => host.total_requests < u64::MAX && (!rejected || host.total_limited
                < u64::MAX),
            None => true,
        }
    }
}

impl AdaptiveConcurrencyHttp {
    /// The filter of a new exchange.
    pub fn new() -> (r: AdaptiveConcurrencyHttp)
        ensures
            r.request_start_ns == 0,
            r.upstream_address is None,
    {
        AdaptiveConcurrencyHttp { request_start_ns: 0, upstream_address: None }
    }

    /// Remembers when the request came. Per-host rejection happens in
    /// `on_http_response_headers` once we know which upstream host was selected by the load
    /// balancer.
    pub fn on_http_request_headers(&mut self, now_ns: u64) -> (r: Action)
        ensures
            final(self).request_start_ns == now_ns,
            final(self).upstream_address == old(self).upstream_address,
            r == Action::Continue,
    {
        self.request_start_ns = now_ns;
        Action::Continue
    }

    /// Counts a response of the upstream host, and decides what becomes of it. Without an
    /// upstream host nothing is counted.
    pub fn on_http_response_headers(
        &mut self,
        shared: &mut SharedState,
        now_ns: u64,
        upstream: Option<String>,
    ) -> (plan: ResponsePlan)
        requires
            old(shared).wf(),
            upstream matches Some(addr) ==> old(shared)@.can_count(addr@, now_ns),
        ensures
            final(self).request_start_ns == old(self).request_start_ns,
            final(shared).wf(),
            upstream is None ==> {
                &&& final(self).upstream_address == old(self).upstream_address
                &&& final(shared)@ == old(shared)@
                &&& plan.updates@ == Seq::<MetricUpdate>::empty()
                &&& plan.reply is Forward
            },
            upstream matches Some(addr) ==> {
                let latency_ns = crate::host_state::elapsed(now_ns, old(self).request_start_ns);
                &&& final(self).upstream_address matches Some(known)
                &&& known@ == addr@
                &&& final(shared)@ == old(shared)@.after_response(addr@, latency_ns, now_ns)
                &&& plan.updates@ == old(shared)@.response_updates(addr@, latency_ns)
                &&& old(shared)@.is_reply(addr@, plan.reply)
            },
    {
        let ghost before = shared@;
        let mut updates: Vec<MetricUpdate> = Vec::new();
        // Get the upstream host address
        let addr = match upstream {
            Some(a) => a,
            None => {
                return ResponsePlan { updates, reply: Reply::Forward };
            },
        };
        let latency_ns = now_ns.saturating_sub(self.request_start_ns);
        let latency_ms = latency_ns / 1_000_000;
        self.upstream_address = Some(addr.clone());
        let is_overloaded = shared.is_host_overloaded(addr.as_str());
        let rejected = is_overloaded && !shared.config.dry_run;
        let response_code = shared.config.overload_response_code;
        // Emit Envoy stats
        if let Some(m) = shared.metrics {
            updates.push(m.inc_requests_total());
            updates.push(m.record_request_latency_ms(latency_ms));
            if is_overloaded {
                updates.push(m.inc_overloaded_responses());
            }
            if rejected {
                updates.push(m.inc_requests_shed());
            }
        }
        assert(updates@ =~= before.response_updates(addr@, latency_ns));
        // Record latency: this is how the plugin learns about each host.
        // Always recorded so overloaded hosts can be detected and recovered.
        let host = shared.get_or_create_host(addr.as_str(), now_ns);
        host.record_request_end(latency_ns, now_ns);
        host.total_requests = host.total_requests + 1;
        if rejected {
            host.total_limited = host.total_limited + 1;
        }
        // Per-host rejection: if THIS host is overloaded, send a local 503
        // so Envoy retries to a different host (via retry_host_predicate:
        // previous_hosts). Requests to healthy hosts are never affected.
        let reply = if rejected {
            let mut body = "adaptive concurrency: host ".to_owned();
            body.append(addr.as_str());
            body.append(" overloaded, retrying on another host\n");
            let headers = vec![
                Header { name: "x-envoy-overloaded", value: "true".to_owned() },
                Header { name: "x-adaptive-concurrency-shed", value: "true".to_owned() },
                Header { name: "x-overloaded-host", value: addr },
                Header { name: "content-type", value: "text/plain".to_owned() },
            ];
            assert(header_pairs(headers@) =~= seq![
                ("x-envoy-overloaded"@, "true"@),
                ("x-adaptive-concurrency-shed"@, "true"@),
                ("x-overloaded-host"@, addr@),
                ("content-type"@, "text/plain"@),
            ]);
            Reply::Reject { status: response_code, headers, body }
        } else if is_overloaded {
            // Dry-run mode: annotate but don't reject
            let headers = vec![
                Header { name: "x-adaptive-concurrency-limited", value: "true".to_owned() },
                Header { name: "x-overloaded-host", value: addr },
            ];
            assert(header_pairs(headers@) =~= seq![
                ("x-adaptive-concurrency-limited"@, "true"@),
                ("x-overloaded-host"@, addr@),
            ]);
            Reply::Annotate { headers }
        } else {
            Reply::Forward
        };
        ResponsePlan { updates, reply }
    }
}

} // verus!
