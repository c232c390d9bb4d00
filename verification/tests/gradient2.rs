use adaptive_concurrency::number::binary64::Binary64;
use adaptive_concurrency::gradient2::{calculate_new_limit, percentile, Gradient2Params};

fn number(x: f64) -> Binary64 {
    Binary64::from_bits(x.to_bits())
}

fn float(x: Binary64) -> f64 {
    f64::from_bits(x.to_bits())
}

fn params(current: u32, min_rtt: u64, sample_rtt: u64) -> Gradient2Params {
    Gradient2Params {
        current_limit: current,
        min_rtt_ns: min_rtt,
        sample_rtt_ns: sample_rtt,
        min_limit: 3,
        max_limit: 1000,
        max_gradient: number(2.0),
        min_rtt_buffer_pct: number(0.25),
    }
}

#[test]
fn steady_state_grows_by_headroom() {
    // sample_rtt == buffered_min_rtt => gradient = 1.0
    // buffered = 5_000_000 * 1.25 = 6_250_000
    let r = calculate_new_limit(&params(100, 5_000_000, 6_250_000));
    assert!((float(r.gradient) - 1.0).abs() < 0.001);
    // new = 100 * 1.0 + sqrt(100) = 110
    assert_eq!(r.new_limit, 110);
}

#[test]
fn latency_increase_reduces_limit() {
    // sample_rtt = 12_500_000 (2x buffered) => gradient = 0.5
    let r = calculate_new_limit(&params(100, 5_000_000, 12_500_000));
    assert!((float(r.gradient) - 0.5).abs() < 0.001);
    // new = 100 * 0.5 + 10 = 60
    assert_eq!(r.new_limit, 60);
}

#[test]
fn gradient_floor_at_half() {
    // sample_rtt very high => gradient clamped to 0.5
    let r = calculate_new_limit(&params(100, 5_000_000, 100_000_000));
    assert!((float(r.gradient) - 0.5).abs() < 0.001);
}

#[test]
fn gradient_capped_at_max() {
    // sample_rtt very low => gradient clamped to max_gradient (2.0)
    let r = calculate_new_limit(&params(100, 5_000_000, 1_000_000));
    assert!((float(r.gradient) - 2.0).abs() < 0.001);
    // new = 100 * 2.0 + 10 = 210
    assert_eq!(r.new_limit, 210);
}

#[test]
fn limit_clamped_to_min() {
    let r = calculate_new_limit(&params(3, 5_000_000, 12_500_000));
    // new = 3 * 0.5 + sqrt(3) ~ 3.2 => 3
    assert_eq!(r.new_limit, 3);
}

#[test]
fn limit_clamped_to_max() {
    let mut p = params(900, 5_000_000, 1_000_000);
    p.max_limit = 1000;
    let r = calculate_new_limit(&p);
    // 900 * 2.0 + 30 = 1830 => clamped to 1000
    assert_eq!(r.new_limit, 1000);
}

#[test]
fn zero_min_rtt_returns_current() {
    let r = calculate_new_limit(&params(100, 0, 5_000_000));
    assert_eq!(r.new_limit, 100);
}

#[test]
fn zero_sample_rtt_returns_current() {
    let r = calculate_new_limit(&params(100, 5_000_000, 0));
    assert_eq!(r.new_limit, 100);
}

#[test]
fn percentile_single_sample() {
    assert_eq!(percentile(&[42], number(0.9)), 42);
}

#[test]
fn percentile_p90_ten_samples() {
    let samples: Vec<u64> = (1..=10).collect();
    // p90 of [1..10]: index = ceil(0.9 * 10) - 1 = 8 => value 9
    assert_eq!(percentile(&samples, number(0.9)), 9);
}

#[test]
fn percentile_p50() {
    let samples: Vec<u64> = (1..=10).collect();
    // p50: index = ceil(0.5 * 10) - 1 = 4 => value 5
    assert_eq!(percentile(&samples, number(0.5)), 5);
}

#[test]
fn percentile_p99() {
    let samples: Vec<u64> = (1..=100).collect();
    // p99: index = ceil(0.99 * 100) - 1 = 98 => value 99
    assert_eq!(percentile(&samples, number(0.99)), 99);
}

#[test]
fn percentile_empty() {
    assert_eq!(percentile(&[], number(0.9)), 0);
}

#[test]
fn convergence_under_sustained_latency() {
    // Simulate a host that goes from 5ms to 20ms sustained
    let mut limit = 100u32;
    let min_rtt = 5_000_000u64;
    let sample_rtt = 20_000_000u64; // 4x minRTT

    for _ in 0..20 {
        let r = calculate_new_limit(&Gradient2Params {
            current_limit: limit,
            min_rtt_ns: min_rtt,
            sample_rtt_ns: sample_rtt,
            min_limit: 3,
            max_limit: 1000,
            max_gradient: number(2.0),
            min_rtt_buffer_pct: number(0.25),
        });
        limit = r.new_limit;
    }
    // Should converge to a low value
    assert!(limit < 10, "limit should converge low, got {}", limit);
}

#[test]
fn recovery_from_low_limit() {
    // Host recovers: sample_rtt goes back to buffered minRTT range
    let mut limit = 5u32;
    let min_rtt = 5_000_000u64;
    let sample_rtt = 6_500_000u64; // slightly above buffered

    for _ in 0..50 {
        let r = calculate_new_limit(&Gradient2Params {
            current_limit: limit,
            min_rtt_ns: min_rtt,
            sample_rtt_ns: sample_rtt,
            min_limit: 3,
            max_limit: 1000,
            max_gradient: number(2.0),
            min_rtt_buffer_pct: number(0.25),
        });
        limit = r.new_limit;
    }
    // Should recover significantly
    assert!(limit > 50, "limit should recover, got {}", limit);
}

/// The calculation in hardware floating point.
fn reference(p: &Gradient2Params) -> (u32, f64) {
    if p.min_rtt_ns == 0 || p.sample_rtt_ns == 0 {
        return (p.current_limit, 1.0);
    }
    let buffered = p.min_rtt_ns as f64 * (1.0 + float(p.min_rtt_buffer_pct));
    let gradient = (buffered / p.sample_rtt_ns as f64).clamp(0.5, float(p.max_gradient));
    let raw = p.current_limit as f64 * gradient + (p.current_limit as f64).sqrt();
    ((raw.round() as u32).clamp(p.min_limit, p.max_limit), gradient)
}

#[test]
fn agrees_with_hardware_arithmetic() {
    let mut seed = 0x9e37_79b9_7f4a_7c15u64;
    let mut next = || {
        seed ^= seed << 13;
        seed ^= seed >> 7;
        seed ^= seed << 17;
        seed
    };
    for round in 0..20_000u32 {
        let shift = next() % 64;
        let min_rtt = next() >> shift;
        let shift = next() % 64;
        let sample_rtt = next() >> shift;
        let shift = next() % 32;
        let current = (next() as u32) >> shift;
        let buffer = match round % 5 {
            0 => 0.25,
            1 => (next() % 1_000_000) as f64 / 777_777.0,
            2 => -((next() % 1000) as f64) / 300.0,
            3 => 1e300 * (next() % 100) as f64,
            _ => 5e-324 * (next() % 100) as f64,
        };
        let max_gradient = match round % 4 {
            0 => 2.0,
            1 => 0.5,
            2 => f64::INFINITY,
            _ => 0.5 + (next() % 1000) as f64 / 99.0,
        };
        let p = Gradient2Params {
            current_limit: current,
            min_rtt_ns: min_rtt,
            sample_rtt_ns: sample_rtt,
            min_limit: 3,
            max_limit: u32::MAX - (round % 3) * 1_000_000_000,
            max_gradient: number(max_gradient),
            min_rtt_buffer_pct: number(buffer),
        };
        let (limit, gradient) = reference(&p);
        let r = calculate_new_limit(&p);
        assert_eq!(r.new_limit, limit, "limit of {:?}", p);
        assert_eq!(float(r.gradient).to_bits(), gradient.to_bits(), "gradient of {:?}", p);
    }
}

#[test]
fn percentile_outside_the_unit_interval() {
    assert_eq!(percentile(&[1, 2, 3], number(-1.0)), 1);
    assert_eq!(percentile(&[1, 2, 3], number(0.0)), 1);
    assert_eq!(percentile(&[1, 2, 3], number(1.0)), 3);
    assert_eq!(percentile(&[1, 2, 3], number(7.5)), 3);
    assert_eq!(percentile(&[1, 2, 3], number(f64::INFINITY)), 3);
    assert_eq!(percentile(&[1, 2, 3], number(f64::NAN)), 1);
}

#[test]
fn percentile_agrees_with_hardware_arithmetic() {
    let mut p = 0.0f64;
    for n in 1..400usize {
        let samples: Vec<u64> = (0..n as u64).map(|x| x * 3).collect();
        p = (p + 0.618_033_988_75) % 1.0;
        let idx = ((p * n as f64).ceil() as usize).saturating_sub(1).min(n - 1);
        assert_eq!(percentile(&samples, number(p)), samples[idx]);
    }
}

#[test]
fn new_limit_of_an_exact_root() {
    // 400 * 1.0 + 20
    let r = calculate_new_limit(&params(400, 4, 5));
    assert_eq!(float(r.gradient), 1.0);
    assert_eq!(r.new_limit, 420);
}
