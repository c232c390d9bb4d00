use adaptive_concurrency::config::PluginConfig;
use adaptive_concurrency::number::binary64::Binary64;
use adaptive_concurrency::shared_state::SharedState;
use adaptive_concurrency::stats::{log_summary, Totals};

#[test]
fn there_is_nothing_to_say_without_hosts() {
    let shared = SharedState::new(PluginConfig::default());
    let summary = log_summary(&shared);
    assert_eq!(summary.totals, None);
    assert!(summary.overloaded.is_empty());
}

#[test]
fn the_summary_tells_of_overloaded_hosts() {
    let mut shared = SharedState::new(PluginConfig::default());
    let host = shared.get_or_create_host("a:1", 0);
    host.in_flight = 3;
    let host = shared.get_or_create_host("b:1", 0);
    host.in_flight = 4;
    host.is_overloaded = true;
    host.current_limit = 17;
    host.last_gradient = Binary64::from_bits(0.5f64.to_bits());
    host.min_rtt_ns = Some(12_345);
    host.total_limited = 6;
    let host = shared.get_or_create_host("c:1", 0);
    host.is_overloaded = true;
    shared.update_overloaded_set(1);
    let summary = log_summary(&shared);
    assert_eq!(
        summary.totals,
        Some(Totals { hosts: 3, overloaded: 2, in_flight: 7 })
    );
    assert_eq!(summary.overloaded.len(), 2);
    let b = &summary.overloaded[0];
    assert_eq!(b.addr, "b:1");
    assert_eq!(b.limit, 17);
    assert_eq!(b.in_flight, 4);
    assert_eq!(b.gradient.to_bits(), 0.5f64.to_bits());
    assert_eq!(b.min_rtt_us, 12);
    assert_eq!(b.total_limited, 6);
    assert_eq!(summary.overloaded[1].addr, "c:1");
    assert_eq!(summary.overloaded[1].min_rtt_us, 0);
}

#[test]
fn an_overloaded_address_without_a_host_is_left_out() {
    let mut shared = SharedState::new(PluginConfig::default());
    shared.overloaded_hosts.insert_new("gone:1".to_string());
    let summary = log_summary(&shared);
    assert_eq!(summary.totals, None);
    assert!(summary.overloaded.is_empty());
}
