use mcp_nordic_ppk2::csv::{csv_header, csv_row, CsvExport};
use mcp_nordic_ppk2::ieee::{Double, Single};
use mcp_nordic_ppk2::samples::{DrainEvent, Sample, Shared, Stats};
use mcp_nordic_ppk2::trigger::Level;

fn single(v: f32) -> Single {
    Single { bits: v.to_bits() }
}

fn double(v: f64) -> Double {
    Double { bits: v.to_bits() }
}

fn push(s: &mut Shared, ua: f32, pins: u8) {
    s.push(single(ua), pins);
}

fn value(d: Double) -> f64 {
    f64::from_bits(d.bits)
}

/// The statistics of samples at a rate, by the arithmetic of the machine.
fn expected(sps: usize, samples: &[(f32, u8)]) -> Vec<f64> {
    let (mut sum, mut sum_sq) = (0.0f64, 0.0f64);
    let (mut min, mut max) = (f32::INFINITY, f32::NEG_INFINITY);
    let mut high = [0u64; 8];
    for (ua, pins) in samples {
        let v = *ua as f64;
        sum += v;
        sum_sq += v * v;
        if *ua < min {
            min = *ua;
        }
        if *ua > max {
            max = *ua;
        }
        for (i, n) in high.iter_mut().enumerate() {
            *n += ((pins >> i) & 1) as u64;
        }
    }
    let n = samples.len() as f64;
    let mean = sum / n;
    let var = (sum_sq / n - mean * mean).max(0.0);
    let charge = sum / sps as f64;
    let mut r = vec![
        n / sps as f64,
        mean,
        min as f64,
        max as f64,
        var.sqrt(),
        charge,
        charge / 3.6e6,
        mean / 1000.0,
    ];
    r.extend(high.iter().map(|h| *h as f64 / n));
    r
}

fn figures(stats: &Stats) -> Vec<f64> {
    let mut r: Vec<f64> = [
        stats.duration_s,
        stats.mean_ua,
        stats.min_ua,
        stats.max_ua,
        stats.stddev_ua,
        stats.charge_uc,
        stats.charge_mah,
        stats.avg_ma,
    ]
    .iter()
    .map(|d| value(*d))
    .collect();
    r.extend(stats.pin_duty.iter().map(|d| value(*d)));
    r
}

fn stats_of(sps: usize, samples: &[(f32, u8)]) -> Stats {
    let mut s = Shared::new(sps, 4);
    for (ua, pins) in samples {
        push(&mut s, *ua, *pins);
    }
    s.stats()
}

/// Currents and pins without a pattern.
fn scattered(n: u32) -> (f32, u8) {
    let x = (n as u64).wrapping_mul(0x9e37_79b9_7f4a_7c15);
    let x = (x ^ (x >> 29)).wrapping_mul(0xbf58_476d_1ce4_e5b9);
    (((x >> 20) as u32 % 4_000_000) as f32 / 7.0 - 100_000.0, (x >> 56) as u8)
}

fn currents(s: &Shared) -> Vec<f32> {
    s.samples().iter().map(|x| f32::from_bits(x.ua.bits)).collect()
}

#[test]
fn window_keeps_the_last_samples() {
    let mut s = Shared::new(10, 3);
    for (i, expected) in
        [vec![0.0], vec![0.0, 1.0], vec![0.0, 1.0, 2.0], vec![1.0, 2.0, 3.0], vec![2.0, 3.0, 4.0]]
            .into_iter()
            .enumerate()
    {
        push(&mut s, i as f32, 0);
        assert_eq!(currents(&s), expected);
        assert_eq!(s.buffered(), expected.len());
        assert_eq!(s.count(), i as u64 + 1);
    }
    assert_eq!(s.sps(), 10);
}

#[test]
fn window_without_room_keeps_the_latest_sample() {
    let mut s = Shared::new(10, 0);
    push(&mut s, 1.0, 0);
    push(&mut s, 2.0, 0);
    assert_eq!(currents(&s), vec![2.0]);
}

#[test]
fn window_with_room_drops_nothing() {
    let mut s = Shared::new(10, 1_000_000_000);
    for i in 0..1000 {
        push(&mut s, i as f32, 0);
    }
    assert_eq!(s.buffered(), 1000);
}

#[test]
fn extremes_span_the_whole_session() {
    let mut s = Shared::new(10, 1);
    for ua in [5.0, -2.5, f32::NAN, 7.25, 1.0] {
        push(&mut s, ua, 0);
    }
    let stats = s.stats();
    assert_eq!(stats.samples, 5);
    assert_eq!(stats.min_ua, double(-2.5));
    assert_eq!(stats.max_ua, double(7.25));
}

#[test]
fn extremes_of_no_number_are_infinite() {
    let mut s = Shared::new(10, 1);
    push(&mut s, f32::NAN, 0);
    let stats = s.stats();
    assert_eq!(stats.min_ua, double(f64::INFINITY));
    assert_eq!(stats.max_ua, double(f64::NEG_INFINITY));
}

#[test]
fn extremes_keep_the_first_of_equal_values() {
    let mut s = Shared::new(10, 1);
    push(&mut s, -0.0, 0);
    push(&mut s, 0.0, 0);
    let stats = s.stats();
    assert_eq!(stats.min_ua, double(-0.0));
    assert_eq!(stats.max_ua, double(-0.0));
}

#[test]
fn pins_are_counted_over_the_whole_session() {
    let mut s = Shared::new(10, 1);
    push(&mut s, 0.0, 0b0000_0001);
    push(&mut s, 0.0, 0b1000_0001);
    push(&mut s, 0.0, 0b1000_0011);
    let duty = s.stats().pin_duty;
    let third = double(1.0 / 3.0);
    let zero = double(0.0);
    assert_eq!(duty, [double(1.0), third, zero, zero, zero, zero, zero, double(2.0 / 3.0)]);
}

#[test]
fn stats_are_those_of_the_arithmetic() {
    for (sps, n) in [(1, 1), (10, 2), (3, 7), (1000, 100), (100_000, 2000), (7, 5000)] {
        let samples: Vec<(f32, u8)> = (0..n).map(|i| scattered(i + sps as u32)).collect();
        let stats = stats_of(sps, &samples);
        assert_eq!(stats.samples, n as u64);
        assert_eq!(figures(&stats), expected(sps, &samples), "{sps} {n}");
    }
}

#[test]
fn stats_of_one_sample() {
    let stats = stats_of(4, &[(7.2, 0b1)]);
    let ua = 7.2f32 as f64;
    assert_eq!((stats.mean_ua, stats.min_ua, stats.max_ua), (double(ua), double(ua), double(ua)));
    assert_eq!(stats.stddev_ua, double(0.0));
    assert_eq!(stats.duration_s, double(0.25));
    assert_eq!(stats.charge_uc, double(ua / 4.0));
    assert_eq!(stats.charge_mah, double(ua / 4.0 / 3.6e6));
    assert_eq!(stats.avg_ma, double(ua / 1000.0));
    assert_eq!(stats.pin_duty[0], double(1.0));
}

#[test]
fn deviation_never_falls_below_zero() {
    // Rounding can leave the mean of the squares below the square of the mean.
    let mut below = 0;
    for i in 1..100 {
        let ua = i as f32 * 0.1;
        let samples = vec![(ua, 0); 300];
        let v = ua as f64;
        let sum = samples.iter().fold(0.0, |sum, _| sum + v);
        let sum_sq = samples.iter().fold(0.0, |sum, _| sum + v * v);
        let deviation = stats_of(10, &samples).stddev_ua;
        if sum_sq / 300.0 - (sum / 300.0) * (sum / 300.0) < 0.0 {
            below += 1;
            assert_eq!(deviation, double(0.0));
        }
        assert!(value(deviation) >= 0.0);
    }
    assert!(below > 0);
}

#[test]
fn figures_of_the_greatest_currents_are_finite() {
    let samples = vec![(f32::MAX, 0xff), (f32::MAX, 0), (-f32::MAX, 1), (f32::MIN_POSITIVE, 2)];
    let stats = stats_of(1, &samples);
    assert!(figures(&stats).iter().all(|f| f.is_finite()));
    assert_eq!(figures(&stats), expected(1, &samples));
    assert!(stats.pin_duty.iter().all(|d| (0.0..=1.0).contains(&value(*d))));
}

#[test]
fn mean_lies_between_the_extremes() {
    let samples: Vec<(f32, u8)> = (0..3000).map(scattered).collect();
    let stats = stats_of(10, &samples);
    assert!(value(stats.min_ua) <= value(stats.mean_ua));
    assert!(value(stats.mean_ua) <= value(stats.max_ua));
}

#[test]
fn currents_that_are_no_numbers_show_in_the_figures() {
    let stats = stats_of(1, &[(1.0, 0), (f32::NAN, 0)]);
    assert!(value(stats.mean_ua).is_nan() && value(stats.charge_mah).is_nan());
    assert_eq!(stats.stddev_ua, double(0.0));
    let stats = stats_of(1, &[(1.0, 0), (f32::INFINITY, 0)]);
    assert_eq!(stats.mean_ua, double(f64::INFINITY));
    assert_eq!(stats.stddev_ua, double(0.0));
    assert_eq!(stats.max_ua, double(f64::INFINITY));
}

#[test]
fn stats_without_samples_are_zero() {
    let stats = Shared::new(10, 4).stats();
    assert_eq!(stats.samples, 0);
    assert_eq!(stats.min_ua, double(0.0));
    assert_eq!(stats.max_ua, double(0.0));
    for d in [
        stats.duration_s,
        stats.mean_ua,
        stats.stddev_ua,
        stats.charge_uc,
        stats.charge_mah,
        stats.avg_ma,
    ] {
        assert_eq!(d, double(0.0));
    }
    assert_eq!(stats.pin_duty, [double(0.0); 8]);
}

#[test]
fn stats_without_a_rate_have_no_duration_and_no_charge() {
    let mut s = Shared::new(0, 4);
    push(&mut s, 1.0, 0);
    let stats = s.stats();
    assert_eq!(stats.duration_s, double(0.0));
    assert_eq!(stats.charge_uc, double(0.0));
    assert_eq!(stats.charge_mah, double(0.0));
    assert_eq!(stats.mean_ua, double(1.0));
    assert_eq!(stats.avg_ma, double(0.001));
}

#[test]
fn only_matching_windows_are_recorded() {
    let mut s = Shared::new(10, 8);
    let mut levels = [Level::Low; 8];
    levels[1] = Level::High;
    assert!(s.drain(DrainEvent::NoMatch));
    assert!(s.drain(DrainEvent::Timeout));
    assert_eq!(s.count(), 0);
    assert!(s.drain(DrainEvent::Match { ua: single(4.0), levels }));
    assert!(s.drain(DrainEvent::NoMatch));
    assert!(!s.drain(DrainEvent::Disconnected));
    assert_eq!(s.samples(), vec![Sample { ua: single(4.0), pins: 2 }]);
}

#[test]
fn csv_lines() {
    assert_eq!(csv_header(), "t_seconds,current_ua,d0,d1,d2,d3,d4,d5,d6,d7\n");
    assert_eq!(csv_row("0.000100", "12.3400", 0b1000_0010), "0.000100,12.3400,0,1,0,0,0,0,0,1\n");
    let columns = csv_header().split(',').count();
    for pins in 0..=255u8 {
        let row = csv_row("0.000000", "-1.0000", pins);
        assert_eq!(row.trim_end().split(',').count(), columns);
        let mut back = 0u8;
        for (i, column) in row.trim_end().split(',').skip(2).enumerate() {
            if column == "1" {
                back |= 1 << i;
            }
        }
        assert_eq!(back, pins);
    }
}

#[test]
fn export_has_one_line_per_sample() {
    let samples: Vec<Sample> =
        [0b1u8, 0b10, 0b1000_0000].iter().map(|p| Sample { ua: single(1.5), pins: *p }).collect();
    let (mut export, mut text) = CsvExport::begin(2, samples);
    let mut i = 0;
    while let Some((time, s)) = export.pending() {
        assert_eq!(s.pins, [0b1u8, 0b10, 0b1000_0000][i]);
        text += &export.line(&format!("{:?}", value(time)), "1.5");
        i += 1;
    }
    assert_eq!(
        text,
        "t_seconds,current_ua,d0,d1,d2,d3,d4,d5,d6,d7\n\
         0.0,1.5,1,0,0,0,0,0,0,0\n\
         0.5,1.5,0,1,0,0,0,0,0,0\n\
         1.0,1.5,0,0,0,0,0,0,0,1\n"
    );
    assert_eq!(text.lines().count(), 4);
    assert!(export.pending().is_none());
}

#[test]
fn export_of_no_samples_is_the_first_line() {
    let (export, text) = CsvExport::begin(1, vec![]);
    assert_eq!(text, csv_header());
    assert!(export.pending().is_none());
}

#[test]
fn times_are_multiples_of_the_interval() {
    for sps in [0usize, 1, 3, 7, 1000, 99_999, 100_000] {
        let dt = if sps > 0 { 1.0 / sps as f64 } else { 0.0 };
        let samples = vec![Sample { ua: single(0.0), pins: 0 }; 2000];
        let (mut export, _) = CsvExport::begin(sps, samples);
        let mut i = 0;
        while let Some((time, _)) = export.pending() {
            assert_eq!(time, double(i as f64 * dt), "{sps} {i}");
            export.line("", "");
            i += 1;
        }
        assert_eq!(i, 2000);
    }
}
