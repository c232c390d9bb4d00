use adaptive_concurrency::config::PluginConfig;
use adaptive_concurrency::http_context::{
    get_upstream_address, Action, AdaptiveConcurrencyHttp, Header, Reply,
};
use adaptive_concurrency::metrics::{MetricUpdate, PluginMetrics};
use adaptive_concurrency::shared_state::SharedState;

const MILLISECOND: u64 = 1_000_000;

fn state() -> SharedState {
    let mut shared = SharedState::new(PluginConfig::default());
    let outcomes: Vec<Option<u32>> = (1..=12).map(Some).collect();
    shared.metrics = Some(PluginMetrics::new(&outcomes));
    shared
}

fn overload(shared: &mut SharedState, addr: &str) {
    shared.get_or_create_host(addr, 0).is_overloaded = true;
    shared.update_overloaded_set(1);
}

fn pairs(headers: &[Header]) -> Vec<(String, String)> {
    headers
        .iter()
        .map(|h| (h.name.to_string(), h.value.clone()))
        .collect()
}

fn pair(name: &str, value: &str) -> (String, String) {
    (name.to_string(), value.to_string())
}

#[test]
fn the_request_time_is_remembered() {
    let mut exchange = AdaptiveConcurrencyHttp::new();
    assert_eq!(exchange.request_start_ns, 0);
    assert_eq!(exchange.upstream_address, None);
    assert_eq!(exchange.on_http_request_headers(77), Action::Continue);
    assert_eq!(exchange.request_start_ns, 77);
}

#[test]
fn responses_of_healthy_hosts_go_on() {
    let mut shared = state();
    let mut exchange = AdaptiveConcurrencyHttp::new();
    exchange.on_http_request_headers(10 * MILLISECOND);
    let plan = exchange.on_http_response_headers(
        &mut shared,
        15 * MILLISECOND + 999_999,
        Some("10.0.0.1:80".to_string()),
    );
    assert!(matches!(plan.reply, Reply::Forward));
    assert_eq!(plan.action(), Action::Continue);
    assert_eq!(
        plan.updates,
        vec![
            MetricUpdate::Increment { id: 1, offset: 1 },
            MetricUpdate::Record { id: 11, value: 5 },
        ]
    );
    assert_eq!(exchange.upstream_address, Some("10.0.0.1:80".to_string()));
    let host = shared.hosts.get("10.0.0.1:80").unwrap();
    assert_eq!(host.latency_samples, vec![5_999_999]);
    assert_eq!(host.total_requests, 1);
    assert_eq!(host.total_limited, 0);
    assert_eq!(host.last_seen_ns, 15_999_999);
}

#[test]
fn responses_of_overloaded_hosts_are_rejected() {
    let mut shared = state();
    overload(&mut shared, "10.0.0.1:80");
    let mut exchange = AdaptiveConcurrencyHttp::new();
    exchange.on_http_request_headers(0);
    let plan = exchange.on_http_response_headers(
        &mut shared,
        500 * MILLISECOND,
        Some("10.0.0.1:80".to_string()),
    );
    assert_eq!(plan.action(), Action::Pause);
    assert_eq!(
        plan.updates,
        vec![
            MetricUpdate::Increment { id: 1, offset: 1 },
            MetricUpdate::Record { id: 11, value: 500 },
            MetricUpdate::Increment { id: 3, offset: 1 },
            MetricUpdate::Increment { id: 2, offset: 1 },
        ]
    );
    match plan.reply {
        Reply::Reject { status, headers, body } => {
            assert_eq!(status, 503);
            assert_eq!(
                pairs(&headers),
                vec![
                    pair("x-envoy-overloaded", "true"),
                    pair("x-adaptive-concurrency-shed", "true"),
                    pair("x-overloaded-host", "10.0.0.1:80"),
                    pair("content-type", "text/plain"),
                ]
            );
            assert_eq!(
                body,
                "adaptive concurrency: host 10.0.0.1:80 overloaded, retrying on another host\n"
            );
        }
        _ => panic!("not rejected"),
    }
    let host = shared.hosts.get("10.0.0.1:80").unwrap();
    assert_eq!(host.latency_samples, vec![500 * MILLISECOND]);
    assert_eq!(host.total_requests, 1);
    assert_eq!(host.total_limited, 1);
}

#[test]
fn the_configured_status_is_sent() {
    let mut shared = state();
    shared.config.overload_response_code = 429;
    overload(&mut shared, "a:1");
    let mut exchange = AdaptiveConcurrencyHttp::new();
    let plan = exchange.on_http_response_headers(&mut shared, 1, Some("a:1".to_string()));
    assert!(matches!(plan.reply, Reply::Reject { status: 429, .. }));
}

#[test]
fn other_hosts_are_not_affected() {
    let mut shared = state();
    overload(&mut shared, "slow:1");
    let before = format!("{:?}", shared.hosts.get("slow:1").unwrap());
    let mut exchange = AdaptiveConcurrencyHttp::new();
    let plan = exchange.on_http_response_headers(&mut shared, 9, Some("fast:1".to_string()));
    assert!(matches!(plan.reply, Reply::Forward));
    assert_eq!(format!("{:?}", shared.hosts.get("slow:1").unwrap()), before);
    assert_eq!(shared.hosts.len(), 2);
    assert!(shared.is_host_overloaded("slow:1"));
    assert!(!shared.is_host_overloaded("fast:1"));
}

#[test]
fn a_dry_run_annotates() {
    let mut shared = state();
    shared.config.dry_run = true;
    overload(&mut shared, "10.0.0.1:80");
    let mut exchange = AdaptiveConcurrencyHttp::new();
    exchange.on_http_request_headers(0);
    let plan = exchange.on_http_response_headers(
        &mut shared,
        3 * MILLISECOND,
        Some("10.0.0.1:80".to_string()),
    );
    assert_eq!(plan.action(), Action::Continue);
    // the response of an overloaded host is counted as one, but nothing is shed
    assert_eq!(
        plan.updates,
        vec![
            MetricUpdate::Increment { id: 1, offset: 1 },
            MetricUpdate::Record { id: 11, value: 3 },
            MetricUpdate::Increment { id: 3, offset: 1 },
        ]
    );
    match plan.reply {
        Reply::Annotate { headers } => assert_eq!(
            pairs(&headers),
            vec![
                pair("x-adaptive-concurrency-limited", "true"),
                pair("x-overloaded-host", "10.0.0.1:80"),
            ]
        ),
        _ => panic!("not annotated"),
    }
    let host = shared.hosts.get("10.0.0.1:80").unwrap();
    assert_eq!(host.total_requests, 1);
    assert_eq!(host.total_limited, 0);
}

#[test]
fn nothing_is_counted_without_an_upstream_host() {
    let mut shared = state();
    let mut exchange = AdaptiveConcurrencyHttp::new();
    exchange.on_http_request_headers(5);
    let plan = exchange.on_http_response_headers(&mut shared, 9, None);
    assert!(matches!(plan.reply, Reply::Forward));
    assert!(plan.updates.is_empty());
    assert_eq!(exchange.upstream_address, None);
    assert_eq!(shared.hosts.len(), 0);
}

#[test]
fn a_clock_that_goes_back_gives_no_latency() {
    let mut shared = SharedState::new(PluginConfig::default());
    let mut exchange = AdaptiveConcurrencyHttp::new();
    exchange.on_http_request_headers(50);
    let plan = exchange.on_http_response_headers(&mut shared, 40, Some("a:1".to_string()));
    assert!(plan.updates.is_empty());
    assert_eq!(shared.hosts.get("a:1").unwrap().latency_samples, vec![0]);
}

#[test]
fn full_counters_are_found() {
    let mut shared = state();
    assert!(shared.can_count_response("a:1", 1));
    shared.get_or_create_host("a:1", 0).total_limited = u64::MAX;
    assert!(shared.can_count_response("a:1", 1));
    overload(&mut shared, "a:1");
    assert!(!shared.can_count_response("a:1", 1));
    shared.config.dry_run = true;
    assert!(shared.can_count_response("a:1", 1));
    shared.get_or_create_host("a:1", 0).total_requests = u64::MAX;
    assert!(!shared.can_count_response("a:1", 1));
}

#[test]
fn the_address_comes_before_the_uri() {
    let address = Some(b"10.0.0.1:80".to_vec());
    let uri = Some(b"http://host/".to_vec());
    assert_eq!(
        get_upstream_address(address.clone(), uri.clone()),
        Some("10.0.0.1:80".to_string())
    );
    assert_eq!(
        get_upstream_address(None, uri.clone()),
        Some("http://host/".to_string())
    );
    assert_eq!(get_upstream_address(address, None), Some("10.0.0.1:80".to_string()));
    assert_eq!(get_upstream_address(None, None), None);
    // an address that is there but unusable is not made up for
    assert_eq!(get_upstream_address(Some(Vec::new()), uri.clone()), None);
    assert_eq!(get_upstream_address(Some(vec![0xff, 0xfe]), uri), None);
}

#[test]
fn addresses_are_text() {
    assert_eq!(
        get_upstream_address(Some("h\u{f6}st:80".as_bytes().to_vec()), None),
        Some("h\u{f6}st:80".to_string())
    );
    // a continuation byte alone, an overlong form, and a surrogate
    for bytes in [vec![0x80], vec![0xc0, 0x80], vec![0xed, 0xa0, 0x80]] {
        assert_eq!(get_upstream_address(Some(bytes), None), None);
    }
}
