use adaptive_concurrency::metrics::{MetricKind, MetricUpdate, PluginMetrics};
use adaptive_concurrency::number::binary64::Binary64;

fn number(x: f64) -> Binary64 {
    Binary64::from_bits(x.to_bits())
}

fn numbered() -> PluginMetrics {
    let outcomes: Vec<Option<u32>> = (1..=12).map(Some).collect();
    PluginMetrics::new(&outcomes)
}

#[test]
fn definitions_are_the_documented_ones() {
    let definitions = PluginMetrics::definitions();
    let counters = [
        "requests_total",
        "requests_shed",
        "overloaded_responses",
        "hosts_marked_overloaded",
        "hosts_recovered",
        "recovery_timeouts",
        "limit_recalculations",
    ];
    let gauges = ["tracked_hosts", "overloaded_hosts", "adaptive_timeout_ms"];
    let histograms = ["request_latency_ms", "gradient"];
    let mut expected: Vec<(MetricKind, String)> = Vec::new();
    for name in counters {
        expected.push((MetricKind::Counter, format!("adaptive_concurrency_{}", name)));
    }
    for name in gauges {
        expected.push((MetricKind::Gauge, format!("adaptive_concurrency_{}", name)));
    }
    for name in histograms {
        expected.push((MetricKind::Histogram, format!("adaptive_concurrency_{}", name)));
    }
    let actual: Vec<(MetricKind, String)> = definitions
        .iter()
        .map(|d| (d.kind, d.name.to_string()))
        .collect();
    assert_eq!(actual, expected);
}

#[test]
fn metric_names_are_prefixed_and_distinct() {
    let definitions = PluginMetrics::definitions();
    for i in 0..definitions.len() {
        assert!(definitions[i].name.starts_with("adaptive_concurrency_"));
        for j in 0..i {
            assert_ne!(definitions[i].name, definitions[j].name);
        }
    }
}

#[test]
fn a_metric_that_failed_gets_id_zero() {
    assert_eq!(PluginMetrics::define(Some(9)), 9);
    assert_eq!(PluginMetrics::define(None), 0);
    let mut outcomes: Vec<Option<u32>> = (1..=12).map(Some).collect();
    outcomes[4] = None;
    let m = PluginMetrics::new(&outcomes);
    assert_eq!(m.hosts_recovered, 0);
    assert_eq!(m.hosts_marked_overloaded, 4);
    assert_eq!(m.recovery_timeouts, 6);
}

#[test]
fn every_metric_has_its_own_id() {
    let m = numbered();
    let increments = [
        (m.inc_requests_total(), 1),
        (m.inc_requests_shed(), 2),
        (m.inc_overloaded_responses(), 3),
        (m.inc_hosts_marked_overloaded(), 4),
        (m.inc_hosts_recovered(), 5),
        (m.inc_recovery_timeouts(), 6),
        (m.inc_limit_recalculations(), 7),
    ];
    for (update, id) in increments {
        assert_eq!(update, MetricUpdate::Increment { id, offset: 1 });
    }
    let records = [
        (m.set_tracked_hosts(40), 8),
        (m.set_overloaded_hosts(40), 9),
        (m.set_adaptive_timeout_ms(40), 10),
        (m.record_request_latency_ms(40), 11),
    ];
    for (update, id) in records {
        assert_eq!(update, MetricUpdate::Record { id, value: 40 });
    }
}

#[test]
fn gradients_are_recorded_in_thousandths() {
    let m = numbered();
    let cases = [
        (0.5, 500),
        (1.0, 1000),
        (2.0, 2000),
        (0.7, 700),
        (0.9999, 999),
        (-1.0, 0),
        (f64::NAN, 0),
        (f64::INFINITY, u64::MAX),
    ];
    for (gradient, value) in cases {
        assert_eq!((gradient * 1000.0) as u64, value);
        assert_eq!(
            m.record_gradient(number(gradient)),
            MetricUpdate::Record { id: 12, value }
        );
    }
}
