use adaptive_concurrency::config::PluginConfig;
use adaptive_concurrency::gradient2::{calculate_new_limit, percentile, Gradient2Params};
use adaptive_concurrency::host_state::HostState;
use adaptive_concurrency::http_context::{AdaptiveConcurrencyHttp, Reply};
use adaptive_concurrency::number::binary64::Binary64;
use adaptive_concurrency::root_context::AdaptiveConcurrencyRoot;
use adaptive_concurrency::shared_state::SharedState;

const SECOND: u64 = 1_000_000_000;

fn number(x: f64) -> Binary64 {
    Binary64::from_bits(x.to_bits())
}

fn float(x: Binary64) -> f64 {
    f64::from_bits(x.to_bits())
}

fn params(current: u32, min_rtt: u64, sample_rtt: u64) -> Gradient2Params {
    Gradient2Params {
        current_limit: current,
        min_rtt_ns: min_rtt,
        sample_rtt_ns: sample_rtt,
        min_limit: 3,
        max_limit: 1000,
        max_gradient: number(2.0),
        min_rtt_buffer_pct: number(0.25),
    }
}

#[test]
fn gradients_stay_in_range() {
    for min_rtt in [1, 7, 1_000, 5_000_000, u64::MAX] {
        for sample_rtt in [1, 9, 1_250, 40_000_000, u64::MAX] {
            let r = calculate_new_limit(&params(100, min_rtt, sample_rtt));
            assert!(0.5 <= float(r.gradient) && float(r.gradient) <= 2.0);
            assert!(3 <= r.new_limit && r.new_limit <= 1000);
        }
    }
}

#[test]
fn limits_stay_without_a_round_trip_time() {
    assert_eq!(calculate_new_limit(&params(5_000, 0, 10)).new_limit, 5_000);
    assert_eq!(calculate_new_limit(&params(1, 10, 0)).new_limit, 1);
}

#[test]
fn higher_latency_never_gives_a_higher_limit() {
    let mut last = u32::MAX;
    for sample_rtt in (1_000_000..20_000_000).step_by(250_000) {
        let limit = calculate_new_limit(&params(100, 5_000_000, sample_rtt)).new_limit;
        assert!(limit <= last);
        last = limit;
    }
}

#[test]
fn good_latency_raises_limits_up_to_the_ceiling() {
    for current in [1, 2, 3, 10, 100, 995, 999, 1000] {
        for sample_rtt in [1, 1_000_000, 6_250_000] {
            let r = calculate_new_limit(&params(current, 5_000_000, sample_rtt));
            assert!(float(r.gradient) >= 1.0);
            assert!(r.new_limit > current || r.new_limit == 1000);
        }
    }
}

#[test]
fn the_steady_state_grows_by_the_root() {
    for root in [2u32, 5, 10, 17, 30] {
        let r = calculate_new_limit(&params(root * root, 4_000, 5_000));
        assert_eq!(r.gradient, number(1.0));
        assert_eq!(r.new_limit, root * root + root);
    }
}

#[test]
fn percentiles_are_samples_in_order() {
    let samples = [3, 8, 8, 21, 34];
    let mut last = 0;
    for p in [0.0, 0.1, 0.2, 0.21, 0.5, 0.6, 0.8, 0.81, 0.99, 1.0] {
        let value = percentile(&samples, number(p));
        assert!(samples.contains(&value));
        assert!(last <= value);
        last = value;
    }
    assert_eq!(percentile(&samples, number(0.0)), 3);
    assert_eq!(percentile(&samples, number(1.0)), 34);
}

#[test]
fn limits_stay_in_range_through_ticks() {
    let mut root = AdaptiveConcurrencyRoot::new();
    root.shared.config.sample_window_size = 1;
    root.shared.config.max_concurrency_limit = 120;
    root.shared.config.min_concurrency_limit = 70;
    let latencies = [5, 500, 1, 900, 2, 7, 4_000, 1, 1, 60, 3, 3];
    for (i, latency) in latencies.iter().enumerate() {
        let now = (i as u64 + 1) * 5 * SECOND;
        let mut http = AdaptiveConcurrencyHttp::new();
        http.on_http_request_headers(now - latency * 1_000_000);
        http.on_http_response_headers(&mut root.shared, now, Some("a:1".to_string()));
        assert!(root.can_tick(now));
        root.on_tick(now);
        let limit = root.shared.hosts.get("a:1").unwrap().current_limit;
        assert!(70 <= limit && limit <= 120);
    }
}

#[test]
fn the_overloaded_set_is_in_step_after_a_tick() {
    let mut root = AdaptiveConcurrencyRoot::new();
    for i in 0..6u64 {
        let host = root.shared.get_or_create_host(&format!("h{}:1", i), i * 100 * SECOND);
        host.is_overloaded = i % 2 == 0;
        host.overloaded_since_ns = 500 * SECOND;
    }
    let now = 505 * SECOND;
    root.on_tick(now);
    // h0 and h1 and h2 were last seen more than 300 seconds ago
    for i in 0..6 {
        let addr = format!("h{}:1", i);
        let marked = match root.shared.hosts.get(&addr) {
            Some(host) => host.is_overloaded,
            None => false,
        };
        assert_eq!(root.shared.is_host_overloaded(&addr), marked);
        assert_eq!(marked, i == 4);
        assert_eq!(root.shared.hosts.get(&addr).is_some(), i >= 3);
    }
}

#[test]
fn a_tick_of_one_host_is_the_same_among_others() {
    let mut alone = AdaptiveConcurrencyRoot::new();
    let mut among = AdaptiveConcurrencyRoot::new();
    for root in [&mut alone, &mut among] {
        root.shared.config.sample_window_size = 2;
        for latency in [9_000, 4_000] {
            root.shared.get_or_create_host("a:1", 0).record_request_end(latency, SECOND);
        }
    }
    for latency in [1, u64::MAX, 7] {
        among.shared.get_or_create_host("b:1", 0).record_request_end(latency, SECOND);
    }
    alone.on_tick(2 * SECOND);
    among.on_tick(2 * SECOND);
    assert_eq!(
        format!("{:?}", alone.shared.hosts.get("a:1").unwrap()),
        format!("{:?}", among.shared.hosts.get("a:1").unwrap())
    );
}

#[test]
fn probes_come_at_regular_intervals() {
    let mut config = PluginConfig::default();
    config.sample_window_size = 1;
    config.min_rtt_probe_count = 2;
    config.min_rtt_recalc_windows = 3;
    let mut host = HostState::new(100, 0);
    let mut probing = Vec::new();
    for now in 1..=12 {
        host.record_request_end(1_000_000, now);
        host.tick("a:1", &config, now, None);
        probing.push(host.is_probing_min_rtt);
    }
    // three windows, then two samples of a probe, and over again
    assert_eq!(
        probing,
        vec![
            false, false, true, true, false, false, false, true, true, false, false, false
        ]
    );
}

#[test]
fn rejected_responses_are_counted_too() {
    let mut shared = SharedState::new(PluginConfig::default());
    shared.get_or_create_host("a:1", 0).is_overloaded = true;
    shared.update_overloaded_set(1);
    for i in 1..=4 {
        let mut http = AdaptiveConcurrencyHttp::new();
        let plan = http.on_http_response_headers(&mut shared, i, Some("a:1".to_string()));
        assert!(matches!(plan.reply, Reply::Reject { .. }));
    }
    let host = shared.hosts.get("a:1").unwrap();
    assert_eq!(host.latency_samples, vec![1, 2, 3, 4]);
    assert_eq!(host.total_requests, 4);
    assert_eq!(host.total_limited, 4);
}

#[test]
fn the_shed_rate_is_the_share_of_overloaded_hosts() {
    for total in 1..=12 {
        for overloaded in 1..=total {
            let mut shared = SharedState::new(PluginConfig::default());
            for i in 0..total {
                shared.get_or_create_host(&format!("h{}:1", i), 0).is_overloaded = i < overloaded;
            }
            shared.update_overloaded_set(1);
            assert_eq!(
                float(shared.shed_fraction),
                overloaded as f64 / total as f64
            );
            let mut shed = 0i64;
            for n in 1..=1000 {
                if shared.should_shed_request() {
                    shed += 1;
                }
                // to within one request
                let owed = n * overloaded as i64;
                assert!((shed * total as i64 - owed).abs() <= total as i64);
            }
        }
    }
}

#[test]
fn every_nth_request_is_shed_at_one_over_n() {
    for n in 1..=200u64 {
        let mut shared = SharedState::new(PluginConfig::default());
        shared.shed_fraction = number(1.0 / n as f64);
        for start in [0, 1_000_003, (1 << 51) - 1_000] {
            shared.request_counter = start;
            for i in 1..=500 {
                assert_eq!(shared.should_shed_request(), (start + i) % n == 0);
            }
        }
    }
}

#[test]
fn the_shed_rate_holds_when_the_counter_starts_over() {
    for fraction in [0.75, 0.3, 0.001, 1.0 / 3.0, 1.0] {
        let mut shared = SharedState::new(PluginConfig::default());
        shared.shed_fraction = number(fraction);
        shared.request_counter = u64::MAX - 5_000;
        let mut shed = 0.0;
        for n in 1..=10_000 {
            if shared.should_shed_request() {
                shed += 1.0;
            }
            assert!((shed - n as f64 * fraction).abs() < 1.000001);
        }
        assert_eq!(shared.request_counter, 4_999);
    }
}

#[test]
fn shedding_is_regular() {
    let mut shared = SharedState::new(PluginConfig::default());
    // 3/8: of two requests at most one is shed, of three at least one
    shared.shed_fraction = number(0.375);
    let shed: Vec<bool> = (0..200).map(|_| shared.should_shed_request()).collect();
    for two in shed.windows(2) {
        assert!(two.iter().filter(|s| **s).count() <= 1);
    }
    for three in shed.windows(3) {
        assert!(three.iter().filter(|s| **s).count() >= 1);
    }
    assert_eq!(shed.iter().filter(|s| **s).count(), 75);
}
