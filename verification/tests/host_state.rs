use adaptive_concurrency::config::PluginConfig;
use adaptive_concurrency::events::{Effects, LogEvent};
use adaptive_concurrency::host_state::HostState;
use adaptive_concurrency::metrics::{MetricUpdate, PluginMetrics};
use adaptive_concurrency::number::binary64::Binary64;

fn number(x: f64) -> Binary64 {
    Binary64::from_bits(x.to_bits())
}

fn small_windows() -> PluginConfig {
    let mut config = PluginConfig::default();
    config.sample_window_size = 3;
    config.min_rtt_probe_count = 2;
    config.min_rtt_recalc_windows = 2;
    config
}

fn metrics() -> PluginMetrics {
    let outcomes: Vec<Option<u32>> = (1..=12).map(Some).collect();
    PluginMetrics::new(&outcomes)
}

fn told(effects: &Effects) -> Vec<String> {
    effects
        .events
        .iter()
        .map(|event| match event {
            LogEvent::ProbeComplete { addr, min_rtt_us } => {
                format!("ProbeComplete {} {:?}", addr, min_rtt_us)
            }
            LogEvent::LimitChanged { addr, old_limit, new_limit, gradient } => format!(
                "LimitChanged {} {} {} {}",
                addr,
                old_limit,
                new_limit,
                f64::from_bits(gradient.to_bits())
            ),
            LogEvent::ProbeStarted { addr } => format!("ProbeStarted {}", addr),
            _ => unreachable!(),
        })
        .collect()
}

fn window(host: &mut HostState, latency_ns: u64, now_ns: u64) {
    for _ in 0..3 {
        host.record_request_end(latency_ns, now_ns);
    }
}

#[test]
fn a_new_host_is_empty() {
    let host = HostState::new(100, 7);
    assert_eq!(host.current_limit, 100);
    assert_eq!(host.in_flight, 0);
    assert!(host.latency_samples.is_empty());
    assert_eq!(host.min_rtt_ns, None);
    assert_eq!(host.windows_since_min_rtt, 0);
    assert!(!host.is_probing_min_rtt);
    assert!(host.probe_samples.is_empty());
    assert_eq!(host.last_seen_ns, 7);
    assert!(!host.is_overloaded);
    assert_eq!(host.overloaded_since_ns, 0);
    assert_eq!(host.last_gradient, number(1.0));
    assert_eq!(host.total_requests, 0);
    assert_eq!(host.total_limited, 0);
}

#[test]
fn samples_go_to_the_window_or_to_the_probe() {
    let mut host = HostState::new(100, 0);
    host.in_flight = 1;
    host.record_request_end(10, 1);
    assert_eq!(host.in_flight, 0);
    host.record_request_end(20, 2);
    assert_eq!(host.in_flight, 0);
    assert_eq!(host.latency_samples, vec![10, 20]);
    host.start_min_rtt_probe();
    host.record_request_end(30, 3);
    assert_eq!(host.latency_samples, vec![10, 20]);
    assert_eq!(host.probe_samples, vec![30]);
    assert_eq!(host.last_seen_ns, 3);
    assert!(host.has_enough_samples(2));
    assert!(!host.has_enough_samples(3));
    assert!(host.has_enough_probe_samples(1));
    assert!(!host.has_enough_probe_samples(2));
}

#[test]
fn nothing_is_recalculated_without_samples() {
    let config = PluginConfig::default();
    let mut host = HostState::new(100, 0);
    assert!(host.recalculate_limit(&config, 5).is_none());
    assert_eq!(host.current_limit, 100);
    assert_eq!(host.windows_since_min_rtt, 0);
    assert_eq!(host.min_rtt_ns, None);
}

#[test]
fn the_first_window_is_the_baseline() {
    let config = PluginConfig::default();
    let mut host = HostState::new(100, 0);
    // in no order, so that the percentile depends on sorting
    for latency in [5_000, 1_000, 10_000, 2_000, 9_000, 3_000, 8_000, 4_000, 7_000, 6_000] {
        host.record_request_end(latency, 1);
    }
    let result = host.recalculate_limit(&config, 5).unwrap();
    // p90 of ten samples is the ninth
    assert_eq!(host.min_rtt_ns, Some(9_000));
    assert_eq!(result.gradient, number(1.25));
    // 100 * 1.25 + 10
    assert_eq!(result.new_limit, 135);
    assert_eq!(host.current_limit, 135);
    assert_eq!(host.last_gradient, number(1.25));
    assert!(host.latency_samples.is_empty());
    assert_eq!(host.windows_since_min_rtt, 1);
    assert!(!host.is_overloaded);
}

#[test]
fn overload_has_hysteresis() {
    let config = PluginConfig::default();
    let mut host = HostState::new(100, 0);
    host.min_rtt_ns = Some(1_000_000);
    // 1.25 / 2.5 = 0.5
    host.record_request_end(2_500_000, 1);
    host.recalculate_limit(&config, 10);
    assert!(host.is_overloaded);
    assert_eq!(host.overloaded_since_ns, 10);
    assert_eq!(host.current_limit, 60);
    // still below: the time stays
    host.record_request_end(2_500_000, 2);
    host.recalculate_limit(&config, 20);
    assert!(host.is_overloaded);
    assert_eq!(host.overloaded_since_ns, 10);
    // between the thresholds: 1.25 / 1.5
    host.record_request_end(1_500_000, 3);
    host.recalculate_limit(&config, 30);
    assert!(host.is_overloaded);
    // above: 1.25 / 1.25
    host.record_request_end(1_250_000, 4);
    host.recalculate_limit(&config, 40);
    assert!(!host.is_overloaded);
    // between the thresholds again
    host.record_request_end(1_500_000, 5);
    host.recalculate_limit(&config, 50);
    assert!(!host.is_overloaded);
    assert_eq!(host.overloaded_since_ns, 10);
    assert_eq!(host.windows_since_min_rtt, 5);
}

#[test]
fn a_probe_is_blended_into_the_baseline() {
    let config = PluginConfig::default();
    let mut host = HostState::new(100, 0);
    host.min_rtt_ns = Some(1_000);
    host.windows_since_min_rtt = 5;
    host.start_min_rtt_probe();
    for latency in [2_000, 500, 1_000] {
        host.record_request_end(latency, 1);
    }
    host.finish_min_rtt_probe(&config);
    // 0.8 * 1000 + 0.2 * 2000
    assert_eq!(host.min_rtt_ns, Some(1_200));
    assert_eq!(host.windows_since_min_rtt, 0);
    assert!(!host.is_probing_min_rtt);
    assert!(host.probe_samples.is_empty());
}

#[test]
fn blending_rounds_as_the_hardware_does() {
    let config = PluginConfig::default();
    let cases = [
        (5u64, 3u64),
        (1, 1),
        (7, 7),
        (1_234_567, 7_654_321),
        (u64::MAX, u64::MAX),
        (u64::MAX, 1),
        (1 << 53, (1 << 53) + 1),
    ];
    for (existing, probed) in cases {
        let mut host = HostState::new(100, 0);
        host.min_rtt_ns = Some(existing);
        host.start_min_rtt_probe();
        host.record_request_end(probed, 1);
        host.finish_min_rtt_probe(&config);
        let expected = ((existing as f64 * 0.8) + (probed as f64 * 0.2)) as u64;
        assert_eq!(host.min_rtt_ns, Some(expected));
    }
}

#[test]
fn a_probe_without_findings_leaves_the_baseline() {
    let config = PluginConfig::default();
    let mut host = HostState::new(100, 0);
    host.min_rtt_ns = Some(1_000);
    host.start_min_rtt_probe();
    host.finish_min_rtt_probe(&config);
    assert_eq!(host.min_rtt_ns, Some(1_000));
    host.start_min_rtt_probe();
    host.record_request_end(0, 1);
    host.finish_min_rtt_probe(&config);
    assert_eq!(host.min_rtt_ns, Some(1_000));
    host.min_rtt_ns = None;
    host.start_min_rtt_probe();
    host.record_request_end(300, 1);
    host.finish_min_rtt_probe(&config);
    assert_eq!(host.min_rtt_ns, Some(300));
}

#[test]
fn a_host_expires_after_the_timeout_only() {
    let host = HostState::new(100, 1_000);
    assert!(!host.is_expired(1_500, 500));
    assert!(host.is_expired(1_501, 500));
    // the clock went back
    assert!(!host.is_expired(10, 500));
}

#[test]
fn a_probe_is_due_after_enough_windows() {
    let mut host = HostState::new(100, 0);
    host.windows_since_min_rtt = 4;
    assert!(!host.should_start_probe(5));
    host.windows_since_min_rtt = 5;
    assert!(host.should_start_probe(5));
    host.is_probing_min_rtt = true;
    assert!(!host.should_start_probe(5));
}

#[test]
fn a_tick_recalculates_a_full_window() {
    let config = small_windows();
    let mut host = HostState::new(100, 0);
    host.record_request_end(1_000_000, 1);
    host.record_request_end(1_000_000, 1);
    assert!(host.is_tickable(&config));
    assert!(host.tick("a:1", &config, 2, Some(metrics())).updates.is_empty());
    assert_eq!(host.latency_samples.len(), 2);
    host.record_request_end(1_000_000, 3);
    let effects = host.tick("a:1", &config, 4, Some(metrics()));
    assert_eq!(
        effects.updates,
        vec![
            MetricUpdate::Increment { id: 7, offset: 1 },
            MetricUpdate::Record { id: 12, value: 1250 },
        ]
    );
    assert_eq!(
        told(&effects),
        vec!["LimitChanged a:1 100 135 1.25"]
    );
    assert_eq!(host.current_limit, 135);
    assert!(!host.is_probing_min_rtt);
}

#[test]
fn a_tick_reports_overload_and_recovery() {
    let config = small_windows();
    let mut host = HostState::new(100, 0);
    host.min_rtt_ns = Some(1_000_000);
    window(&mut host, 2_500_000, 1);
    let effects = host.tick("a:1", &config, 2, Some(metrics()));
    assert_eq!(
        effects.updates,
        vec![
            MetricUpdate::Increment { id: 7, offset: 1 },
            MetricUpdate::Record { id: 12, value: 500 },
            MetricUpdate::Increment { id: 4, offset: 1 },
        ]
    );
    window(&mut host, 625_000, 3);
    let effects = host.tick("a:1", &config, 4, Some(metrics()));
    assert_eq!(
        effects.updates,
        vec![
            MetricUpdate::Increment { id: 7, offset: 1 },
            MetricUpdate::Record { id: 12, value: 2000 },
            MetricUpdate::Increment { id: 5, offset: 1 },
        ]
    );
    // 60 * 2 + sqrt(60) = 127.7, and the second window starts a probe
    assert_eq!(
        told(&effects),
        vec!["LimitChanged a:1 60 128 2", "ProbeStarted a:1"]
    );
    assert!(host.is_probing_min_rtt);
    window(&mut host, 600_000, 5);
    assert!(host.latency_samples.is_empty());
    assert_eq!(host.probe_samples.len(), 3);
    let effects = host.tick("a:1", &config, 6, Some(metrics()));
    assert!(effects.updates.is_empty());
    assert_eq!(told(&effects), vec!["ProbeComplete a:1 Some(920)"]);
    assert!(!host.is_probing_min_rtt);
    // 0.8 * 1_000_000 + 0.2 * 600_000
    assert_eq!(host.min_rtt_ns, Some(920_000));
    assert_eq!(host.windows_since_min_rtt, 0);
}

#[test]
fn a_tick_without_metrics_reports_nothing() {
    let config = small_windows();
    let mut host = HostState::new(100, 0);
    window(&mut host, 1_000_000, 1);
    assert!(host.tick("a:1", &config, 2, None).updates.is_empty());
    assert_eq!(host.current_limit, 135);
}

#[test]
fn an_empty_window_is_always_full_at_size_zero() {
    let mut config = small_windows();
    config.sample_window_size = 0;
    let mut host = HostState::new(100, 0);
    host.windows_since_min_rtt = 2;
    assert!(host.tick("a:1", &config, 2, Some(metrics())).updates.is_empty());
    assert_eq!(host.current_limit, 100);
    assert!(host.is_probing_min_rtt);
}

#[test]
fn what_cannot_be_recalculated_is_found() {
    let mut config = small_windows();
    config.min_concurrency_limit = 2_000;
    let mut host = HostState::new(100, 0);
    assert!(host.is_tickable(&config));
    window(&mut host, 0, 1);
    // without a round-trip time nothing is clamped
    assert!(host.is_tickable(&config));
    host.latency_samples.clear();
    window(&mut host, 1_000, 1);
    assert!(!host.is_tickable(&config));
    config.min_concurrency_limit = 3;
    assert!(host.is_tickable(&config));
    host.windows_since_min_rtt = u32::MAX;
    assert!(!host.is_tickable(&config));
    // a finished probe starts the count over
    host.start_min_rtt_probe();
    host.record_request_end(1, 1);
    host.record_request_end(1, 1);
    assert!(host.is_tickable(&config));
}

#[test]
fn a_host_overloaded_for_too_long_starts_over() {
    let config = PluginConfig::default();
    let mut host = HostState::new(100, 0);
    host.last_seen_ns = 1_000;
    host.is_overloaded = true;
    host.overloaded_since_ns = 1_000;
    host.current_limit = 42;
    host.min_rtt_ns = Some(9);
    host.latency_samples = vec![1, 2];
    host.windows_since_min_rtt = 3;
    assert!(!host.review(&config, 500, 1_500));
    assert!(host.is_overloaded);
    // zero stands for no timeout
    assert!(!host.review(&config, 0, u64::MAX));
    assert!(host.review(&config, 500, 1_501));
    assert!(!host.is_overloaded);
    assert_eq!(host.current_limit, 100);
    assert_eq!(host.min_rtt_ns, None);
    assert!(host.latency_samples.is_empty());
    assert_eq!(host.windows_since_min_rtt, 3);
    assert!(!host.review(&config, 500, u64::MAX));
}

#[test]
fn every_sample_starts_the_timeout_over() {
    let config = PluginConfig::default();
    let mut host = HostState::new(100, 0);
    host.is_overloaded = true;
    host.overloaded_since_ns = 1_000;
    host.record_request_end(7, 1_400);
    assert!(!host.review(&config, 500, 1_501));
    assert!(!host.review(&config, 500, 1_900));
    assert!(host.is_overloaded);
    assert_eq!(host.latency_samples, vec![7]);
    assert!(host.review(&config, 500, 1_901));
    assert!(!host.is_overloaded);
    assert!(host.latency_samples.is_empty());
}

#[test]
fn a_silent_host_is_reset_in_the_end() {
    let config = PluginConfig::default();
    let mut host = HostState::new(100, 0);
    host.is_overloaded = true;
    host.overloaded_since_ns = 0;
    host.record_request_end(7, 1);
    assert!(!host.review(&config, 10_000_000_000, 10_000_000_001));
    assert!(host.review(&config, 10_000_000_000, 10_000_000_002));
}

#[test]
fn a_clock_that_goes_back_resets_nothing() {
    let config = PluginConfig::default();
    let mut host = HostState::new(100, 0);
    host.is_overloaded = true;
    host.overloaded_since_ns = 9_000;
    host.record_request_end(7, 50);
    assert!(!host.review(&config, 500, 600));
    assert!(!host.review(&config, 500, 9_500));
    assert!(host.review(&config, 500, 9_501));
}

#[test]
fn a_limit_that_stays_is_not_told() {
    let config = small_windows();
    let mut host = HostState::new(1000, 0);
    window(&mut host, 1_000_000, 1);
    let effects = host.tick("a:1", &config, 2, None);
    assert_eq!(host.current_limit, 1000);
    assert!(effects.events.is_empty());
}

#[test]
fn a_host_that_is_not_due_is_left_alone() {
    let config = small_windows();
    let mut host = HostState::new(100, 0);
    host.record_request_end(5, 1);
    host.start_min_rtt_probe();
    host.record_request_end(6, 2);
    let before = format!("{:?}", host);
    let effects = host.tick("a:1", &config, 9, Some(metrics()));
    assert!(effects.updates.is_empty());
    assert!(effects.events.is_empty());
    assert_eq!(format!("{:?}", host), before);
}

#[test]
fn limits_stay_in_range_through_recalculations() {
    let config = PluginConfig::default();
    let mut host = HostState::new(100, 0);
    let windows = [
        (1, Some(u64::MAX)),
        (u64::MAX, Some(1)),
        (0, Some(5)),
        (5, Some(0)),
        (7, None),
        (u64::MAX, Some(1)),
        (u64::MAX, Some(1)),
        (u64::MAX, Some(1)),
    ];
    for _ in 0..10 {
        for (latency, min_rtt) in windows {
            host.min_rtt_ns = min_rtt;
            host.record_request_end(latency, 1);
            host.recalculate_limit(&config, 2);
            assert!(3 <= host.current_limit && host.current_limit <= 1000);
        }
    }
}
