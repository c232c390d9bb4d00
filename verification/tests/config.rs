use adaptive_concurrency::config::PluginConfig;
use adaptive_concurrency::number::binary64::Binary64;

fn number(x: f64) -> Binary64 {
    Binary64::from_bits(x.to_bits())
}

#[test]
fn defaults_are_the_documented_ones() {
    let c = PluginConfig::default();
    assert_eq!(c.initial_concurrency_limit, 100);
    assert_eq!(c.min_concurrency_limit, 3);
    assert_eq!(c.max_concurrency_limit, 1000);
    assert_eq!(c.sample_window_size, 250);
    assert_eq!(c.min_rtt_recalc_windows, 5);
    assert_eq!(c.min_rtt_buffer_pct, number(0.25));
    assert_eq!(c.sample_percentile, number(0.9));
    assert_eq!(c.max_gradient, number(2.0));
    assert_eq!(c.tick_period_ms, 1000);
    assert_eq!(c.host_expiry_secs, 300);
    assert_eq!(c.overload_response_code, 503);
    assert!(!c.dry_run);
    assert_eq!(c.overload_gradient_threshold, number(0.7));
    assert_eq!(c.recovery_gradient_threshold, number(0.95));
    assert_eq!(c.min_rtt_probe_count, 25);
    assert_eq!(c.recovery_timeout_secs, 10);
}

#[test]
fn defaults_are_in_order() {
    let c = PluginConfig::default();
    assert!(c.check_ranges());
    assert!(c.check_timeouts());
}

#[test]
fn a_configuration_that_was_read_is_kept() {
    let mut c = PluginConfig::default();
    c.max_concurrency_limit = 77;
    c.dry_run = true;
    let read = PluginConfig::from_json(Ok(c)).unwrap();
    assert_eq!(read.max_concurrency_limit, 77);
    assert!(read.dry_run);
}

#[test]
fn a_configuration_that_was_not_read_says_why() {
    let reason = "expected value at line 1 column 1".to_string();
    let message = PluginConfig::from_json(Err(reason)).unwrap_err();
    assert_eq!(
        message,
        "failed to parse config: expected value at line 1 column 1"
    );
}

#[test]
fn empty_ranges_are_found() {
    let mut c = PluginConfig::default();
    c.min_concurrency_limit = 1001;
    assert!(!c.check_ranges());
    c.min_concurrency_limit = 1000;
    assert!(c.check_ranges());
    c.max_gradient = number(0.5);
    assert!(c.check_ranges());
    c.max_gradient = number(0.49);
    assert!(!c.check_ranges());
    c.max_gradient = number(f64::NAN);
    assert!(!c.check_ranges());
    c.max_gradient = number(f64::INFINITY);
    assert!(c.check_ranges());
}

#[test]
fn timeouts_beyond_the_clock_are_found() {
    let most = u64::MAX / 1_000_000_000;
    let mut c = PluginConfig::default();
    c.recovery_timeout_secs = most;
    c.host_expiry_secs = most;
    assert!(c.check_timeouts());
    c.recovery_timeout_secs = most + 1;
    assert!(!c.check_timeouts());
    c.recovery_timeout_secs = most;
    c.host_expiry_secs = most + 1;
    assert!(!c.check_timeouts());
}
