use mcp_nordic_ppk2::ieee::{Double, Single, SINGLE_INFINITY, SINGLE_NEG_INFINITY};

#[test]
fn order_of_singles() {
    assert_eq!(SINGLE_INFINITY, f32::INFINITY.to_bits());
    assert_eq!(SINGLE_NEG_INFINITY, f32::NEG_INFINITY.to_bits());
    let values = [
        0.0,
        -0.0,
        1.0,
        -1.0,
        1.5,
        f32::MIN_POSITIVE,
        -f32::MIN_POSITIVE,
        f32::from_bits(1),
        f32::from_bits(0x8000_0001),
        f32::from_bits(0x007f_ffff),
        f32::MAX,
        f32::MIN,
        f32::INFINITY,
        f32::NEG_INFINITY,
        f32::NAN,
        -f32::NAN,
        f32::from_bits(0x7f80_0001),
        123.456,
        -123.456,
    ];
    for a in values {
        for b in values {
            let less = Single { bits: a.to_bits() }.less(Single { bits: b.to_bits() });
            assert_eq!(less, a < b, "{a} < {b}");
        }
    }
}

#[test]
fn order_of_doubles() {
    let values = [
        0.0,
        -0.0,
        1.0,
        -1.0,
        3600.0,
        f64::MIN_POSITIVE,
        f64::from_bits(1),
        f64::from_bits(0x000f_ffff_ffff_ffff),
        f64::MAX,
        f64::MIN,
        f64::INFINITY,
        f64::NEG_INFINITY,
        f64::NAN,
        -f64::NAN,
    ];
    for a in values {
        for b in values {
            let less = Double { bits: a.to_bits() }.less(Double { bits: b.to_bits() });
            assert_eq!(less, a < b, "{a} < {b}");
        }
    }
}
