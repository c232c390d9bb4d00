use adaptive_concurrency::config::PluginConfig;
use adaptive_concurrency::events::LogEvent;
use adaptive_concurrency::metrics::{MetricUpdate, PluginMetrics};
use adaptive_concurrency::number::binary64::Binary64;
use adaptive_concurrency::shared_state::SharedState;

const SECOND: u64 = 1_000_000_000;

fn number(x: f64) -> Binary64 {
    Binary64::from_bits(x.to_bits())
}

fn metrics() -> PluginMetrics {
    let outcomes: Vec<Option<u32>> = (1..=12).map(Some).collect();
    PluginMetrics::new(&outcomes)
}

fn with_hosts(overloaded: usize, total: usize) -> SharedState {
    let mut shared = SharedState::new(PluginConfig::default());
    for i in 0..total {
        let host = shared.get_or_create_host(&format!("10.0.0.{}:80", i), 0);
        host.is_overloaded = i < overloaded;
    }
    shared
}

fn sheds(shared: &mut SharedState, requests: usize) -> Vec<usize> {
    let mut shed = Vec::new();
    for i in 1..=requests {
        if shared.should_shed_request() {
            shed.push(i);
        }
    }
    shed
}

#[test]
fn the_state_starts_empty() {
    let shared = SharedState::new(PluginConfig::default());
    assert_eq!(shared.hosts.len(), 0);
    assert_eq!(shared.overloaded_hosts.len(), 0);
    assert_eq!(shared.adaptive_per_try_timeout_ms, 0);
    assert_eq!(shared.shed_fraction, number(0.0));
    assert_eq!(shared.request_counter, 0);
    assert!(shared.metrics.is_none());
    assert!(!shared.has_overloaded_hosts());
}

#[test]
fn a_host_is_created_once() {
    let mut shared = SharedState::new(PluginConfig::default());
    shared.config.initial_concurrency_limit = 50;
    let host = shared.get_or_create_host("a:1", 10);
    assert_eq!(host.current_limit, 50);
    assert_eq!(host.last_seen_ns, 10);
    host.current_limit = 51;
    shared.get_or_create_host("b:1", 11);
    let again = shared.get_or_create_host("a:1", 12);
    assert_eq!(again.current_limit, 51);
    assert_eq!(again.last_seen_ns, 10);
    assert_eq!(shared.hosts.len(), 2);
    assert_eq!(shared.hosts.get("b:1").unwrap().last_seen_ns, 11);
    assert!(shared.hosts.get("c:1").is_none());
    assert_eq!(shared.hosts.position("b:1"), Some(1));
    assert_eq!(shared.hosts.position("c:1"), None);
}

#[test]
fn only_full_windows_are_recalculated() {
    let mut shared = SharedState::new(PluginConfig::default());
    shared.config.sample_window_size = 2;
    shared.metrics = Some(metrics());
    for _ in 0..2 {
        shared.get_or_create_host("full:1", 0).record_request_end(4_000, 1);
    }
    shared.get_or_create_host("half:1", 0).record_request_end(4_000, 1);
    assert!(shared.is_tickable());
    let effects = shared.recalculate_all_limits(5);
    assert_eq!(
        effects.updates,
        vec![
            MetricUpdate::Increment { id: 7, offset: 1 },
            MetricUpdate::Record { id: 12, value: 1250 },
        ]
    );
    assert_eq!(effects.events.len(), 1);
    match &effects.events[0] {
        LogEvent::LimitChanged { addr, old_limit, new_limit, gradient } => {
            assert_eq!(addr, "full:1");
            assert_eq!((*old_limit, *new_limit), (100, 135));
            assert_eq!(*gradient, number(1.25));
        }
        _ => panic!("another event"),
    }
    assert_eq!(shared.hosts.get("full:1").unwrap().current_limit, 135);
    assert_eq!(shared.hosts.get("half:1").unwrap().current_limit, 100);
    assert_eq!(shared.hosts.get("half:1").unwrap().latency_samples.len(), 1);
}

#[test]
fn one_host_that_cannot_be_recalculated_is_found() {
    let mut shared = SharedState::new(PluginConfig::default());
    shared.config.sample_window_size = 1;
    shared.get_or_create_host("a:1", 0).record_request_end(1, 1);
    shared.get_or_create_host("b:1", 0).record_request_end(1, 1);
    assert!(shared.is_tickable());
    shared.get_or_create_host("b:1", 0).windows_since_min_rtt = u32::MAX;
    assert!(!shared.is_tickable());
}

#[test]
fn the_overloaded_set_is_rebuilt() {
    let mut shared = with_hosts(1, 5);
    shared.metrics = Some(metrics());
    let effects = shared.update_overloaded_set(SECOND);
    assert_eq!(
        effects.updates,
        vec![
            MetricUpdate::Record { id: 8, value: 5 },
            MetricUpdate::Record { id: 9, value: 1 },
        ]
    );
    assert!(shared.has_overloaded_hosts());
    assert!(shared.is_host_overloaded("10.0.0.0:80"));
    assert!(!shared.is_host_overloaded("10.0.0.1:80"));
    assert!(!shared.is_host_overloaded("unknown:80"));
    assert_eq!(shared.shed_fraction, number(0.2));
    shared.get_or_create_host("10.0.0.0:80", 0).is_overloaded = false;
    shared.update_overloaded_set(SECOND);
    assert!(!shared.has_overloaded_hosts());
    assert_eq!(shared.shed_fraction, number(0.0));
}

#[test]
fn overload_times_out() {
    let mut shared = with_hosts(2, 4);
    shared.metrics = Some(metrics());
    shared.get_or_create_host("10.0.0.0:80", 0).overloaded_since_ns = 5 * SECOND;
    shared.get_or_create_host("10.0.0.1:80", 0).overloaded_since_ns = 6 * SECOND;
    shared.get_or_create_host("10.0.0.0:80", 0).current_limit = 7;
    shared.get_or_create_host("10.0.0.1:80", 0).current_limit = 8;
    let effects = shared.update_overloaded_set(16 * SECOND);
    assert_eq!(
        effects.updates,
        vec![
            MetricUpdate::Increment { id: 6, offset: 1 },
            MetricUpdate::Record { id: 8, value: 4 },
            MetricUpdate::Record { id: 9, value: 1 },
        ]
    );
    assert_eq!(effects.events.len(), 1);
    match &effects.events[0] {
        LogEvent::RecoveryTimeout { addr, overloaded_ns } => {
            assert_eq!(addr, "10.0.0.0:80");
            assert_eq!(*overloaded_ns, 11 * SECOND);
        }
        _ => panic!("another event"),
    }
    assert!(!shared.is_host_overloaded("10.0.0.0:80"));
    assert!(shared.is_host_overloaded("10.0.0.1:80"));
    assert_eq!(shared.hosts.get("10.0.0.0:80").unwrap().current_limit, 100);
    assert_eq!(shared.hosts.get("10.0.0.1:80").unwrap().current_limit, 8);
    assert_eq!(shared.shed_fraction, number(0.25));
}

#[test]
fn overload_with_new_samples_does_not_time_out() {
    let mut shared = SharedState::new(PluginConfig::default());
    let host = shared.get_or_create_host("a", 0);
    host.is_overloaded = true;
    host.overloaded_since_ns = 0;
    host.record_request_end(500_000_000, 9_999_999_999);
    let effects = shared.update_overloaded_set(10_000_000_001);
    assert!(effects.events.is_empty());
    assert!(shared.hosts.get("a").unwrap().is_overloaded);
    assert_eq!(shared.hosts.get("a").unwrap().latency_samples, vec![500_000_000]);
    assert!(shared.is_host_overloaded("a"));
    assert_eq!(shared.overloaded_hosts.len(), 1);
}

#[test]
fn overload_never_times_out_at_zero() {
    let mut shared = with_hosts(1, 1);
    shared.config.recovery_timeout_secs = 0;
    shared.update_overloaded_set(u64::MAX);
    assert!(shared.is_host_overloaded("10.0.0.0:80"));
}

#[test]
fn no_timeout_without_overload() {
    let mut shared = with_hosts(0, 2);
    shared.metrics = Some(metrics());
    shared.adaptive_per_try_timeout_ms = 90;
    let (update, event) = shared.compute_adaptive_timeout();
    // the gauge follows
    assert_eq!(update, Some(MetricUpdate::Record { id: 10, value: 0 }));
    assert!(event.is_none());
    assert_eq!(shared.adaptive_per_try_timeout_ms, 0);
}

#[test]
fn moderate_timeout_without_samples() {
    let mut shared = with_hosts(1, 2);
    shared.metrics = Some(metrics());
    shared.update_overloaded_set(SECOND);
    // samples of an overloaded host do not count
    shared.get_or_create_host("10.0.0.0:80", 0).record_request_end(900_000_000, 1);
    let (update, event) = shared.compute_adaptive_timeout();
    assert_eq!(update, Some(MetricUpdate::Record { id: 10, value: 200 }));
    assert!(event.is_none());
    assert_eq!(shared.adaptive_per_try_timeout_ms, 200);
}

#[test]
fn timeout_is_three_times_the_healthy_p95() {
    let mut shared = with_hosts(1, 3);
    shared.metrics = Some(metrics());
    shared.update_overloaded_set(SECOND);
    // 20 samples over two hosts, in no order: 1 to 20 times 3 ms; index 19 is the largest
    for i in 0..20u64 {
        let addr = if i % 2 == 0 { "10.0.0.1:80" } else { "10.0.0.2:80" };
        let latency = ((i * 7) % 20 + 1) * 3_000_000;
        shared.get_or_create_host(addr, 0).record_request_end(latency, 1);
    }
    let (update, event) = shared.compute_adaptive_timeout();
    assert_eq!(update, Some(MetricUpdate::Record { id: 10, value: 180 }));
    assert!(matches!(
        event,
        Some(LogEvent::AdaptiveTimeout {
            timeout_ms: 180,
            healthy_p95_ms: 60,
            samples: 20,
            overloaded: 1,
        })
    ));
    assert_eq!(shared.adaptive_per_try_timeout_ms, 180);
    // one sample more: index 19 of 21 is no longer the largest
    shared.get_or_create_host("10.0.0.1:80", 0).record_request_end(400_000_000, 1);
    shared.compute_adaptive_timeout();
    assert_eq!(shared.adaptive_per_try_timeout_ms, 180);
}

#[test]
fn timeout_is_clamped() {
    let cases = [
        (0, 50),
        (16_999_999, 50),
        (17_000_000, 51),
        (100_999_999, 300),
        (166_999_999, 498),
        (167_000_000, 500),
        (u64::MAX, 500),
    ];
    for (latency, timeout) in cases {
        let mut shared = with_hosts(1, 2);
        shared.update_overloaded_set(SECOND);
        shared.get_or_create_host("10.0.0.1:80", 0).record_request_end(latency, 1);
        let (update, event) = shared.compute_adaptive_timeout();
        assert_eq!(update, None);
        assert!(event.is_some());
        assert_eq!(shared.adaptive_per_try_timeout_ms, timeout);
    }
}

#[test]
fn timeout_index_is_that_of_the_hardware() {
    for n in 1..200usize {
        let mut shared = with_hosts(1, 2);
        shared.update_overloaded_set(SECOND);
        for i in 0..n {
            let latency = (20 + i as u64) * 1_000_000 / 3 * 3;
            shared.get_or_create_host("10.0.0.1:80", 0).record_request_end(latency, 1);
        }
        let index = ((n as f64 * 0.95) as usize).min(n - 1);
        let expected = ((20 + index as u64) * 1_000_000 / 3 * 3 / 1_000_000 * 3).clamp(50, 500);
        shared.compute_adaptive_timeout();
        assert_eq!(shared.adaptive_per_try_timeout_ms, expected);
    }
}

#[test]
fn stale_hosts_are_forgotten() {
    let mut shared = SharedState::new(PluginConfig::default());
    for (addr, seen) in [("a:1", 0), ("b:1", 1), ("c:1", 0), ("d:1", 2)] {
        let host = shared.get_or_create_host(addr, seen * SECOND);
        host.is_overloaded = addr != "d:1";
        host.overloaded_since_ns = 300 * SECOND;
    }
    shared.update_overloaded_set(301 * SECOND);
    assert_eq!(shared.overloaded_hosts.len(), 3);
    let events = shared.expire_stale_hosts(301 * SECOND);
    assert_eq!(events.len(), 2);
    for (event, expected) in events.iter().zip(["a:1", "c:1"]) {
        match event {
            LogEvent::HostExpired { addr } => assert_eq!(addr, expected),
            _ => panic!("another event"),
        }
    }
    assert_eq!(shared.hosts.len(), 2);
    assert!(shared.hosts.get("a:1").is_none());
    assert!(shared.hosts.get("b:1").is_some());
    assert!(shared.hosts.get("c:1").is_none());
    assert!(shared.hosts.get("d:1").is_some());
    assert!(!shared.is_host_overloaded("a:1"));
    assert!(shared.is_host_overloaded("b:1"));
    assert!(!shared.is_host_overloaded("c:1"));
    assert!(!shared.is_host_overloaded("d:1"));
}

#[test]
fn an_untracked_overloaded_address_stays() {
    let mut shared = SharedState::new(PluginConfig::default());
    shared.overloaded_hosts.insert_new("ghost:1".to_string());
    shared.expire_stale_hosts(u64::MAX);
    assert!(shared.is_host_overloaded("ghost:1"));
}

#[test]
fn every_fifth_request_is_shed_at_one_of_five() {
    let mut shared = with_hosts(1, 5);
    shared.update_overloaded_set(SECOND);
    assert_eq!(sheds(&mut shared, 20), vec![5, 10, 15, 20]);
    assert_eq!(shared.request_counter, 20);
}

#[test]
fn the_fraction_is_shed() {
    let cases = [
        (1, 2, vec![2, 4, 6, 8, 10, 12]),
        (2, 5, vec![2, 5, 7, 10, 12]),
        (3, 4, vec![1, 3, 4, 5, 7, 8, 9, 11, 12]),
        (4, 5, vec![1, 2, 4, 5, 6, 7, 9, 10, 11, 12]),
        (1, 4, vec![4, 8, 12]),
        (5, 5, vec![1, 2, 3, 4, 5, 6, 7, 8, 9, 10, 11, 12]),
        (1, 3, vec![3, 6, 9, 12]),
        (2, 6, vec![3, 6, 9, 12]),
        (1, 7, vec![7]),
    ];
    for (overloaded, total, shed) in cases {
        let mut shared = with_hosts(overloaded, total);
        shared.update_overloaded_set(SECOND);
        assert_eq!(sheds(&mut shared, 12), shed);
    }
}

#[test]
fn tiny_fractions_shed_rarely() {
    let mut shared = with_hosts(0, 1);
    // 2^-64: once in 2^64 requests
    shared.shed_fraction = number(5.421010862427522e-20);
    assert!(sheds(&mut shared, 100).is_empty());
    shared.request_counter = u64::MAX;
    assert!(shared.should_shed_request());
    assert_eq!(shared.request_counter, 0);
    // the smallest number
    shared.shed_fraction = Binary64::from_bits(1);
    shared.request_counter = u64::MAX - 5;
    assert!(sheds(&mut shared, 10).is_empty());
}

#[test]
fn shedding_goes_on_from_any_count() {
    let mut shared = with_hosts(0, 1);
    shared.shed_fraction = number(0.75);
    shared.request_counter = u64::MAX - 7;
    assert_eq!(sheds(&mut shared, 8), vec![1, 3, 4, 5, 7, 8]);
    assert_eq!(shared.request_counter, 0);
}

#[test]
fn nothing_is_shed_or_counted_without_overload() {
    let mut shared = with_hosts(0, 5);
    shared.update_overloaded_set(SECOND);
    assert!(sheds(&mut shared, 50).is_empty());
    assert_eq!(shared.request_counter, 0);
}

#[test]
fn odd_fractions_shed_everything_or_nothing() {
    let mut shared = with_hosts(0, 1);
    shared.shed_fraction = number(2.5);
    assert_eq!(sheds(&mut shared, 3), vec![1, 2, 3]);
    shared.shed_fraction = number(1.0);
    assert!(shared.should_shed_request());
    shared.shed_fraction = number(f64::INFINITY);
    assert!(shared.should_shed_request());
    shared.shed_fraction = number(f64::NAN);
    assert!(shared.should_shed_request());
    shared.shed_fraction = number(-0.5);
    assert!(!shared.should_shed_request());
    shared.shed_fraction = number(-0.0);
    assert!(!shared.should_shed_request());
    assert_eq!(shared.request_counter, 6);
}
