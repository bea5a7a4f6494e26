//! Double-precision numbers by their bits.

use chirpmunk::double::{from_i64, from_u64, widen_half, widen_single, Double};

fn d(v: f64) -> Double {
    Double { bits: v.to_bits() }
}

#[test]
fn comparison_is_that_of_the_machine() {
    let values = [
        0.0,
        -0.0,
        1.0,
        -1.0,
        12.3,
        8.7,
        f64::MIN_POSITIVE,
        -f64::MIN_POSITIVE,
        f64::from_bits(1),
        f64::MAX,
        f64::MIN,
        f64::INFINITY,
        f64::NEG_INFINITY,
        f64::NAN,
    ];
    for a in values {
        for b in values {
            assert_eq!(d(a).greater_than(d(b)), a > b, "{a} > {b}");
        }
        assert_eq!(d(a).is_finite(), a.is_finite());
        assert_eq!(d(a).is_nan(), a.is_nan());
    }
}

#[test]
fn widening_single_keeps_the_value() {
    let values = [
        0.0f32,
        -0.0,
        1.0,
        -1.5,
        12.3,
        f32::MIN_POSITIVE,
        f32::from_bits(1),
        f32::from_bits(0x007f_ffff),
        -f32::from_bits(0x0000_1234),
        f32::MAX,
        f32::INFINITY,
        f32::NEG_INFINITY,
    ];
    for v in values {
        assert_eq!(widen_single(v.to_bits()).bits, (v as f64).to_bits(), "{v}");
    }
    assert!(widen_single(f32::NAN.to_bits()).is_nan());
    // A signalling NaN becomes quiet and keeps its payload.
    assert_eq!(widen_single(0x7f80_0001).bits, 0x7ff8_0000_2000_0000);
}

#[test]
fn widening_half_keeps_the_value() {
    assert_eq!(widen_half(0x3c00).bits, 1.0f64.to_bits());
    assert_eq!(widen_half(0x7bff).bits, 65504.0f64.to_bits());
    assert_eq!(widen_half(0x0001).bits, 2f64.powi(-24).to_bits());
    assert_eq!(widen_half(0x83ff).bits, (-1023.0 * 2f64.powi(-24)).to_bits());
    assert_eq!(widen_half(0x8000).bits, (-0.0f64).to_bits());
    assert_eq!(widen_half(0xfc00).bits, f64::NEG_INFINITY.to_bits());
}

#[test]
fn whole_numbers_are_rounded_as_the_machine_does() {
    let values = [
        0u64,
        1,
        2,
        3,
        1000,
        (1 << 52) - 1,
        1 << 52,
        (1 << 53) - 1,
        1 << 53,
        (1 << 53) + 1,
        (1 << 53) + 2,
        (1 << 53) + 3,
        (1 << 54) + 2,
        (1 << 54) + 6,
        u64::MAX,
        u64::MAX - 1024,
        u64::MAX - 1023,
        1 << 63,
        0x8000_0000_0000_0400,
        0x8000_0000_0000_0401,
        12345678901234567890,
    ];
    for n in values {
        assert_eq!(from_u64(n).bits, (n as f64).to_bits(), "{n}");
    }
    for n in [0i64, 1, -1, i64::MAX, i64::MIN, -(1 << 53) - 1, -(1 << 53) - 3, 868_000_000] {
        assert_eq!(from_i64(n).bits, (n as f64).to_bits(), "{n}");
    }
}
