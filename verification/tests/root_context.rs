use adaptive_concurrency::config::PluginConfig;
use adaptive_concurrency::events::LogEvent;
use adaptive_concurrency::http_context::{Action, AdaptiveConcurrencyHttp, Reply};
use adaptive_concurrency::metrics::MetricUpdate;
use adaptive_concurrency::number::binary64::Binary64;
use adaptive_concurrency::root_context::AdaptiveConcurrencyRoot;
use adaptive_concurrency::stats::Totals;

const SECOND: u64 = 1_000_000_000;
const MILLISECOND: u64 = 1_000_000;

fn number(x: f64) -> Binary64 {
    Binary64::from_bits(x.to_bits())
}

fn configured(config: PluginConfig) -> AdaptiveConcurrencyRoot {
    let mut root = AdaptiveConcurrencyRoot::new();
    root.on_configure(Some(Ok(config))).unwrap();
    let outcomes: Vec<Option<u32>> = (1..=12).map(Some).collect();
    root.on_metrics_defined(&outcomes);
    root
}

fn exchange(root: &mut AdaptiveConcurrencyRoot, addr: &str, latency_ms: u64, now: u64) -> Action {
    let mut http = AdaptiveConcurrencyHttp::new();
    http.on_http_request_headers(now - latency_ms * MILLISECOND);
    assert!(root.shared.can_count_response(addr, now));
    http.on_http_response_headers(&mut root.shared, now, Some(addr.to_string()))
        .action()
}

#[test]
fn defaults_are_used_without_a_configuration() {
    let mut root = AdaptiveConcurrencyRoot::new();
    root.shared.config.max_concurrency_limit = 1;
    assert_eq!(root.on_configure(None), Ok(1000));
    assert_eq!(root.shared.config.max_concurrency_limit, 1000);
}

#[test]
fn a_configuration_is_taken_over() {
    let mut root = AdaptiveConcurrencyRoot::new();
    root.shared.get_or_create_host("a:1", 3);
    let mut config = PluginConfig::default();
    config.tick_period_ms = 250;
    config.min_concurrency_limit = 9;
    assert_eq!(root.on_configure(Some(Ok(config))), Ok(250));
    assert_eq!(root.shared.config.min_concurrency_limit, 9);
    assert_eq!(root.shared.hosts.len(), 1);
}

#[test]
fn a_configuration_that_cannot_be_read_is_refused() {
    let mut root = AdaptiveConcurrencyRoot::new();
    root.shared.config.min_concurrency_limit = 9;
    assert_eq!(
        root.on_configure(Some(Err("EOF".to_string()))),
        Err("failed to parse config: EOF".to_string())
    );
    assert_eq!(root.shared.config.min_concurrency_limit, 9);
}

#[test]
fn metrics_are_taken_over() {
    let root = configured(PluginConfig::default());
    assert_eq!(root.shared.metrics.unwrap().gradient, 12);
    assert_eq!(root.shared.metrics.unwrap().requests_total, 1);
}

#[test]
fn a_tick_of_nothing_reports_empty_gauges() {
    let mut root = configured(PluginConfig::default());
    assert!(root.can_tick(SECOND));
    let report = root.on_tick(SECOND);
    assert_eq!(
        report.updates,
        vec![
            MetricUpdate::Record { id: 8, value: 0 },
            MetricUpdate::Record { id: 9, value: 0 },
            MetricUpdate::Record { id: 10, value: 0 },
        ]
    );
    assert_eq!(report.summary.totals, None);
}

#[test]
fn the_slow_host_of_five_is_found_and_recovers() {
    let mut config = PluginConfig::default();
    config.sample_window_size = 10;
    let mut root = configured(config);
    let hosts = ["h0:80", "h1:80", "h2:80", "h3:80", "h4:80"];
    // all hosts answer in 5 ms
    for addr in hosts {
        for _ in 0..10 {
            assert_eq!(exchange(&mut root, addr, 5, 100 * SECOND), Action::Continue);
        }
    }
    assert!(root.can_tick(101 * SECOND));
    root.on_tick(101 * SECOND);
    assert!(!root.shared.has_overloaded_hosts());
    for addr in hosts {
        assert_eq!(root.shared.hosts.get(addr).unwrap().current_limit, 135);
    }
    // one degrades to 500 ms
    for addr in hosts {
        let latency = if addr == "h4:80" { 500 } else { 5 };
        for _ in 0..10 {
            assert_eq!(exchange(&mut root, addr, latency, 102 * SECOND), Action::Continue);
        }
    }
    let report = root.on_tick(103 * SECOND);
    assert_eq!(
        report.summary.totals,
        Some(Totals { hosts: 5, overloaded: 1, in_flight: 0 })
    );
    assert_eq!(report.summary.overloaded[0].addr, "h4:80");
    // every limit moved
    assert_eq!(report.events.len(), 5);
    match &report.events[4] {
        LogEvent::LimitChanged { addr, old_limit, new_limit, gradient } => {
            assert_eq!(addr, "h4:80");
            assert_eq!((*old_limit, *new_limit), (135, 79));
            assert_eq!(*gradient, number(0.5));
        }
        _ => panic!("another event"),
    }
    // 135 * 0.5 + sqrt(135) = 79.1
    assert_eq!(root.shared.hosts.get("h4:80").unwrap().current_limit, 79);
    // 135 * 1.25 + sqrt(135) = 180.4
    assert_eq!(root.shared.hosts.get("h0:80").unwrap().current_limit, 180);
    assert_eq!(root.shared.shed_fraction, number(0.2));
    // the windows were just used up, so there are no recent samples
    assert_eq!(root.shared.adaptive_per_try_timeout_ms, 200);
    // only the slow host is rejected
    for addr in hosts {
        let expected = if addr == "h4:80" { Action::Pause } else { Action::Continue };
        assert_eq!(exchange(&mut root, addr, 5, 104 * SECOND), expected);
    }
    // its responses still count, so it recovers
    for _ in 0..9 {
        assert_eq!(exchange(&mut root, "h4:80", 5, 105 * SECOND), Action::Pause);
    }
    let report = root.on_tick(106 * SECOND);
    assert_eq!(
        report.updates,
        vec![
            MetricUpdate::Increment { id: 7, offset: 1 },
            MetricUpdate::Record { id: 12, value: 1250 },
            MetricUpdate::Increment { id: 5, offset: 1 },
            MetricUpdate::Record { id: 8, value: 5 },
            MetricUpdate::Record { id: 9, value: 0 },
            MetricUpdate::Record { id: 10, value: 0 },
        ]
    );
    assert_eq!(root.shared.hosts.get("h4:80").unwrap().total_limited, 10);
    assert_eq!(exchange(&mut root, "h4:80", 5, 107 * SECOND), Action::Continue);
    assert_eq!(root.shared.adaptive_per_try_timeout_ms, 0);
}

#[test]
fn an_overloaded_host_is_released_after_the_timeout() {
    let mut config = PluginConfig::default();
    config.sample_window_size = 1;
    let mut root = configured(config);
    exchange(&mut root, "a:1", 5, 100 * SECOND);
    root.on_tick(100 * SECOND);
    exchange(&mut root, "a:1", 500, 101 * SECOND);
    root.on_tick(101 * SECOND);
    assert!(root.shared.is_host_overloaded("a:1"));
    root.on_tick(111 * SECOND);
    assert!(root.shared.is_host_overloaded("a:1"));
    let report = root.on_tick(112 * SECOND);
    assert!(!root.shared.is_host_overloaded("a:1"));
    assert_eq!(
        report.updates,
        vec![
            MetricUpdate::Increment { id: 6, offset: 1 },
            MetricUpdate::Record { id: 8, value: 1 },
            MetricUpdate::Record { id: 9, value: 0 },
            MetricUpdate::Record { id: 10, value: 0 },
        ]
    );
    assert!(matches!(
        report.events[..],
        [LogEvent::RecoveryTimeout { overloaded_ns, .. }] if overloaded_ns == 11 * SECOND
    ));
    let host = root.shared.hosts.get("a:1").unwrap();
    assert_eq!(host.current_limit, 100);
    assert_eq!(host.min_rtt_ns, None);
}

#[test]
fn stale_hosts_are_gone_after_a_tick() {
    let mut root = configured(PluginConfig::default());
    exchange(&mut root, "old:1", 5, 100 * SECOND);
    exchange(&mut root, "new:1", 5, 101 * SECOND);
    let report = root.on_tick(401 * SECOND);
    // the gauges are sent before stale hosts are forgotten, the summary is written after
    assert_eq!(report.updates[0], MetricUpdate::Record { id: 8, value: 2 });
    assert_eq!(
        report.summary.totals,
        Some(Totals { hosts: 1, overloaded: 0, in_flight: 0 })
    );
    assert!(matches!(&report.events[..], [LogEvent::HostExpired { addr }] if addr == "old:1"));
    assert!(root.shared.hosts.get("old:1").is_none());
    assert!(root.shared.hosts.get("new:1").is_some());
}

#[test]
fn a_timeout_is_reported_with_healthy_samples() {
    let mut root = configured(PluginConfig::default());
    exchange(&mut root, "good:1", 40, 100 * SECOND);
    exchange(&mut root, "bad:1", 40, 100 * SECOND);
    let bad = root.shared.get_or_create_host("bad:1", 0);
    bad.is_overloaded = true;
    bad.overloaded_since_ns = 100 * SECOND;
    let report = root.on_tick(101 * SECOND);
    assert_eq!(
        report.updates,
        vec![
            MetricUpdate::Record { id: 8, value: 2 },
            MetricUpdate::Record { id: 9, value: 1 },
            MetricUpdate::Record { id: 10, value: 120 },
        ]
    );
    assert!(matches!(
        report.events[..],
        [LogEvent::AdaptiveTimeout {
            timeout_ms: 120,
            healthy_p95_ms: 40,
            samples: 1,
            overloaded: 1,
        }]
    ));
    let mut http = AdaptiveConcurrencyHttp::new();
    let plan = http.on_http_response_headers(
        &mut root.shared,
        102 * SECOND,
        Some("bad:1".to_string()),
    );
    assert!(matches!(plan.reply, Reply::Reject { .. }));
}

#[test]
fn what_cannot_be_ticked_is_found() {
    let mut root = configured(PluginConfig::default());
    assert!(root.can_tick(0));
    root.shared.config.host_expiry_secs = u64::MAX;
    assert!(!root.can_tick(0));
    root.shared.config.host_expiry_secs = 300;
    root.shared.config.recovery_timeout_secs = u64::MAX;
    assert!(!root.can_tick(0));
    root.shared.config.recovery_timeout_secs = 10;
    root.shared.get_or_create_host("a:1", 0).in_flight = u32::MAX;
    assert!(root.can_tick(0));
    root.shared.get_or_create_host("b:1", 0).in_flight = 1;
    assert!(!root.can_tick(0));
    // hosts that are about to be forgotten do not count
    assert!(root.can_tick(301 * SECOND));
    root.shared.get_or_create_host("b:1", 0).in_flight = 0;
    root.shared.config.sample_window_size = 1;
    root.shared.config.max_gradient = number(0.1);
    root.shared.get_or_create_host("a:1", 0).record_request_end(10, 0);
    assert!(!root.can_tick(0));
}

#[test]
fn traffic_holds_off_the_recovery_timeout() {
    let mut config = PluginConfig::default();
    config.sample_window_size = 2;
    let mut root = configured(config);
    for latency in [5, 500] {
        for _ in 0..2 {
            exchange(&mut root, "a:1", latency, 100 * SECOND);
        }
        root.on_tick(100 * SECOND);
    }
    assert!(root.shared.is_host_overloaded("a:1"));
    // one more sample, which does not fill a window
    assert_eq!(exchange(&mut root, "a:1", 500, 105 * SECOND), Action::Pause);
    root.on_tick(115 * SECOND);
    assert!(root.shared.is_host_overloaded("a:1"));
    assert_eq!(root.shared.hosts.get("a:1").unwrap().latency_samples.len(), 1);
    // ten seconds without another one
    let report = root.on_tick(115 * SECOND + 1);
    assert!(!root.shared.is_host_overloaded("a:1"));
    assert_eq!(root.shared.hosts.get("a:1").unwrap().latency_samples.len(), 0);
    assert!(matches!(
        report.events[..],
        [LogEvent::RecoveryTimeout { overloaded_ns, .. }] if overloaded_ns == 15 * SECOND + 1
    ));
}
