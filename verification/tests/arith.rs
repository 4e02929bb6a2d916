use mcp_nordic_ppk2::ieee::{Double, Single};

fn double(v: f64) -> Double {
    Double { bits: v.to_bits() }
}

/// Bit patterns without a pattern.
fn scattered(n: u64) -> u64 {
    let x = n.wrapping_mul(0x9e37_79b9_7f4a_7c15).wrapping_add(0x0fed_cba9_8765_4321);
    let x = (x ^ (x >> 30)).wrapping_mul(0xbf58_476d_1ce4_e5b9);
    let x = (x ^ (x >> 27)).wrapping_mul(0x94d0_49bb_1331_11eb);
    x ^ (x >> 31)
}

/// Values of every kind, and values close to one another.
fn values() -> Vec<f64> {
    let mut v = vec![
        0.0,
        -0.0,
        1.0,
        -1.0,
        0.1,
        3.0,
        1000.0,
        3.6e6,
        f64::MAX,
        f64::MIN,
        f64::MIN_POSITIVE,
        -f64::MIN_POSITIVE,
        f64::EPSILON,
        f64::from_bits(1),
        f64::from_bits(0x8000_0000_0000_0001),
        f64::from_bits(0x000f_ffff_ffff_ffff),
        f64::from_bits(0x001f_ffff_ffff_ffff),
        f64::from_bits(0x3fef_ffff_ffff_ffff),
        9007199254740991.0,
        9007199254740993.0,
        f64::INFINITY,
        f64::NEG_INFINITY,
        f64::NAN,
    ];
    for n in 0..120 {
        let bits = scattered(n);
        v.push(f64::from_bits(bits));
        v.push((bits >> 11) as f64 / 1e6);
        v.push(-((bits >> 30) as f64) / 1e3);
        v.push(f64::from_bits((bits >> 12) | 0x3ff0_0000_0000_0000));
        v.push(f64::from_bits((bits >> 12) | 0xbff0_0000_0000_0000));
        v.push(f64::from_bits(bits >> 12));
        v.push(f64::from_bits(bits % 0x0040_0000_0000_0000));
    }
    v
}

/// Bit for bit the same, except that any value that is not a number is as good as
/// another.
fn same(r: Double, expected: f64) -> bool {
    r.bits == expected.to_bits() || (expected.is_nan() && f64::from_bits(r.bits).is_nan())
}

#[test]
fn sums_and_differences() {
    let v = values();
    for a in &v {
        for b in &v {
            assert!(same(double(*a).sum(double(*b)), a + b), "{a:e} + {b:e}");
            assert!(same(double(*a).difference(double(*b)), a - b), "{a:e} - {b:e}");
        }
        for k in 0..120 {
            let b = a * 2f64.powi(-k) * 1.37;
            assert!(same(double(*a).sum(double(b)), a + b), "{a:e} + {b:e}");
            assert!(same(double(*a).difference(double(b)), a - b), "{a:e} - {b:e}");
            let b = a * 2f64.powi(-k);
            assert!(same(double(*a).sum(double(b)), a + b), "{a:e} + {b:e}");
            assert!(same(double(*a).difference(double(b)), a - b), "{a:e} - {b:e}");
        }
    }
}

#[test]
fn products() {
    let v = values();
    for a in &v {
        for b in &v {
            assert!(same(double(*a).product(double(*b)), a * b), "{a:e} * {b:e}");
        }
    }
}

#[test]
fn quotients() {
    let v = values();
    for a in &v {
        for b in &v {
            assert!(same(double(*a).quotient(double(*b)), a / b), "{a:e} / {b:e}");
        }
    }
    assert_eq!(double(1.0).quotient(double(3.0)), double(1.0 / 3.0));
}

#[test]
fn square_roots() {
    for a in values() {
        assert!(same(double(a).square_root(), a.sqrt()), "sqrt {a:e}");
        let b = a.abs();
        assert!(same(double(b).square_root(), b.sqrt()), "sqrt {b:e}");
        assert!(same(double(b * b).square_root(), (b * b).sqrt()), "sqrt {b:e}^2");
    }
    for n in 0..20_000u64 {
        let a = f64::from_bits(scattered(n) >> 1);
        assert!(same(double(a).square_root(), a.sqrt()), "sqrt {a:e}");
        assert!(same(double(n as f64).square_root(), (n as f64).sqrt()), "sqrt {n}");
    }
}

#[test]
fn whole_numbers() {
    let mut v = vec![0, 1, 2, 3, u64::MAX, u64::MAX - 1023, u64::MAX - 1024, 1 << 63, 1 << 53];
    v.push((1 << 53) + 1);
    v.push((1 << 53) + 3);
    for n in 0..10_000 {
        v.push(scattered(n));
        v.push(scattered(n) >> (n % 64));
    }
    for n in v {
        assert_eq!(Double::from_whole(n), double(n as f64), "{n}");
    }
}

#[test]
fn singles_widen() {
    let mut v = vec![0u32, 1, 0x8000_0000, 0x8000_0001, 0x007f_ffff, 0x0080_0000, 0x7f7f_ffff];
    v.extend([0x7f80_0000, 0xff80_0000, 0x7fc0_0000, 0x7f80_0001, 0x3f80_0000]);
    for n in 0..10_000 {
        v.push(scattered(n) as u32);
    }
    for bits in v {
        let expected = f32::from_bits(bits) as f64;
        assert!(same(Single { bits }.widen(), expected), "{bits:x}");
    }
}

#[test]
fn values_below_zero_become_zero() {
    for a in values() {
        let expected = if a > 0.0 { a } else { 0.0 };
        assert_eq!(double(a).or_zero(), double(expected));
    }
}
