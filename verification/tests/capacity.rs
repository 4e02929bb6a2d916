use mcp_nordic_ppk2::capacity::{capture_capacity, window_capacity};
use mcp_nordic_ppk2::ieee::Double;

fn double(v: f64) -> Double {
    Double { bits: v.to_bits() }
}

fn expected(sps: usize, seconds: f64) -> usize {
    ((sps as f64) * seconds).ceil().max(1.0) as usize
}

/// Bit patterns without a pattern.
fn scattered(n: u64) -> u64 {
    let x = n.wrapping_mul(0x9e37_79b9_7f4a_7c15).wrapping_add(0x1234_5678_9abc_def1);
    let x = (x ^ (x >> 30)).wrapping_mul(0xbf58_476d_1ce4_e5b9);
    let x = (x ^ (x >> 27)).wrapping_mul(0x94d0_49bb_1331_11eb);
    x ^ (x >> 31)
}

#[test]
fn window_capacity_examples() {
    assert_eq!(window_capacity(10_000, double(60.0)), 600_000);
    assert_eq!(window_capacity(100_000, double(0.00001)), 1);
    assert_eq!(window_capacity(100_000, double(0.000011)), 2);
    assert_eq!(window_capacity(3, double(0.5)), 2);
    assert_eq!(window_capacity(10, double(0.1)), 1);
    assert_eq!(window_capacity(1, double(1e300)), usize::MAX);
}

#[test]
fn window_capacity_of_no_time_is_one() {
    for seconds in [0.0, -0.0, -1.0, f64::NAN, f64::NEG_INFINITY, f64::from_bits(1)] {
        assert_eq!(window_capacity(10_000, double(seconds)), 1);
    }
    assert_eq!(window_capacity(10_000, double(f64::INFINITY)), usize::MAX);
}

#[test]
fn window_capacity_rounds_as_the_arithmetic_does() {
    let rates = [1, 2, 3, 7, 10, 99, 1000, 9_999, 10_000, 65_537, 99_999, 100_000];
    for n in 0..20_000u64 {
        let any = f64::from_bits(scattered(n));
        let hour = (scattered(n) >> 11) as f64 / (1u64 << 53) as f64 * 3600.0;
        let decimal = (scattered(n) % 3_600_000) as f64 / 1000.0;
        let sps = rates[(n % 12) as usize];
        for seconds in [any, any.abs(), hour, decimal, hour / sps as f64, decimal / sps as f64] {
            assert_eq!(
                window_capacity(sps, double(seconds)),
                expected(sps, seconds),
                "{sps} {seconds:?}"
            );
        }
    }
}

#[test]
fn capture_capacity_examples() {
    assert_eq!(capture_capacity(10_000, double(5.0)), 60_000);
    assert_eq!(capture_capacity(1, double(0.0)), 1);
    assert_eq!(capture_capacity(1, double(1e-9)), 2);
    assert_eq!(capture_capacity(1, double(1e-17)), 1);
    assert_eq!(capture_capacity(100_000, double(3600.0)), 360_100_000);
}

#[test]
fn capture_capacity_rounds_as_the_arithmetic_does() {
    let rates = [1, 2, 3, 7, 10, 99, 1000, 9_999, 10_000, 65_537, 99_999, 100_000];
    for n in 0..20_000u64 {
        let hour = (scattered(n) >> 11) as f64 / (1u64 << 53) as f64 * 3600.0;
        let nanos = (scattered(n) % 3_600_000_000_000) as f64 / 1e9;
        let tiny = f64::from_bits(scattered(n) % 0x3ff0_0000_0000_0000);
        let large = scattered(n) as f64;
        let sps = rates[(n % 12) as usize];
        for seconds in [hour, nanos, tiny, large, hour * f64::EPSILON, hour * 1e9] {
            assert_eq!(
                capture_capacity(sps, double(seconds)),
                expected(sps, seconds + 1.0),
                "{sps} {seconds:?}"
            );
        }
    }
}

#[test]
fn capture_has_room_for_its_duration() {
    for n in 1..3600u32 {
        for sps in [1, 10_000, 100_000] {
            assert!(capture_capacity(sps, double(n as f64)) >= sps * n as usize);
        }
    }
}
