use openwave::number::{
    Real32, Real64, HALF_32, HALF_64, ONE_32, ONE_64, THREE_QUARTERS_64, ZERO_32, ZERO_64,
};

fn wide(v: f64) -> Real64 {
    Real64 { bits: v.to_bits() }
}

fn single(v: f32) -> Real32 {
    Real32 { bits: v.to_bits() }
}

const WIDE: [f64; 15] = [
    0.0,
    -0.0,
    0.5,
    1.0,
    -1.0,
    0.75,
    2.0,
    f64::MIN_POSITIVE,
    -f64::MIN_POSITIVE,
    5e-324,
    f64::MAX,
    f64::MIN,
    f64::INFINITY,
    f64::NEG_INFINITY,
    f64::NAN,
];

const SINGLE: [f32; 14] = [
    0.0,
    -0.0,
    0.5,
    1.0,
    -1.0,
    2.5,
    f32::MIN_POSITIVE,
    -f32::MIN_POSITIVE,
    1e-45,
    f32::MAX,
    f32::MIN,
    f32::INFINITY,
    f32::NEG_INFINITY,
    f32::NAN,
];

#[test]
fn constants_are_the_bits_of_their_numbers() {
    assert_eq!(ZERO_64, 0.0f64.to_bits());
    assert_eq!(HALF_64, 0.5f64.to_bits());
    assert_eq!(THREE_QUARTERS_64, 0.75f64.to_bits());
    assert_eq!(ONE_64, 1.0f64.to_bits());
    assert_eq!(ZERO_32, 0.0f32.to_bits());
    assert_eq!(HALF_32, 0.5f32.to_bits());
    assert_eq!(ONE_32, 1.0f32.to_bits());
}

#[test]
fn order_is_numeric() {
    for a in WIDE {
        for b in WIDE {
            assert_eq!(wide(a).less(wide(b)), a < b, "{a} {b}");
        }
    }
    for a in SINGLE {
        for b in SINGLE {
            assert_eq!(single(a).less(single(b)), a < b, "{a} {b}");
        }
    }
    let negative_nan = Real64 { bits: 0xfff8_0000_0000_0001 };
    assert!(!negative_nan.less(wide(1.0)));
    assert!(!wide(1.0).less(negative_nan));
}

#[test]
fn volumes_are_held_in_the_unit_range() {
    for v in WIDE {
        assert_eq!(wide(v).clamp_unit().bits, v.clamp(0.0, 1.0).to_bits(), "{v}");
        assert_eq!(wide(v).clamp_unit().clamp_unit(), wide(v).clamp_unit());
    }
    assert_eq!(wide(0.3).clamp_unit(), wide(0.3));
    assert_eq!(wide(1.5).clamp_unit(), wide(1.0));
    assert_eq!(wide(-3.0).clamp_unit(), wide(0.0));
}

#[test]
fn single_precision_bounds() {
    for v in SINGLE {
        assert_eq!(single(v).is_finite(), v.is_finite(), "{v}");
        assert_eq!(
            single(v).clamp(single(-1.0), single(2.0)).bits,
            v.clamp(-1.0, 2.0).to_bits(),
            "{v}"
        );
    }
}
