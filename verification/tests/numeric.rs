//! Tests of the fixed-point arithmetic and the sigmoid brightness map.

use attractor_trails::fixed::{
    abs_i64, abs_u64, color_map, fmul_i64, half_i64, pow5_i64, ONE, POW5_MAX, REGIME,
};

#[test]
fn fixed_product_is_exact_on_whole_units() {
    // 2.5 * 4.0 == 10.0
    assert_eq!(fmul_i64(2_500_000, 4_000_000), 10_000_000);
    assert_eq!(fmul_i64(ONE, 123_456), 123_456);
    assert_eq!(fmul_i64(0, 987_654_321), 0);
}

#[test]
fn fixed_product_rounds_toward_zero() {
    assert_eq!(fmul_i64(1, 1), 0);
    assert_eq!(fmul_i64(-1, 1), 0);
    assert_eq!(fmul_i64(1_500_000, -1_000_001), -1_500_001);
    assert_eq!(fmul_i64(1_500_000, 1_000_001), 1_500_001);
}

#[test]
fn halving_rounds_toward_zero() {
    assert_eq!(half_i64(3), 1);
    assert_eq!(half_i64(-3), -1);
    assert_eq!(half_i64(-4), -2);
    assert_eq!(half_i64(0), 0);
}

#[test]
fn absolute_values() {
    assert_eq!(abs_i64(-5), 5);
    assert_eq!(abs_i64(7), 7);
    assert_eq!(abs_u64(i64::MIN), 1u64 << 63);
    assert_eq!(abs_u64(-42), 42);
}

#[test]
fn fifth_power_is_exact_on_whole_units() {
    // 2.0^5 == 32.0, sign carried by the odd power
    assert_eq!(pow5_i64(2 * ONE), 32 * ONE);
    assert_eq!(pow5_i64(-2 * ONE), -32 * ONE);
    assert_eq!(pow5_i64(ONE), ONE);
    assert_eq!(pow5_i64(0), 0);
    // the extreme of the regime reaches exactly the documented maximum
    assert_eq!(pow5_i64(REGIME), POW5_MAX);
    assert_eq!(pow5_i64(-REGIME), -POW5_MAX);
}

#[test]
fn fifth_power_of_small_values_underflows_toward_zero() {
    assert_eq!(pow5_i64(90_000), 5);
    assert_eq!(pow5_i64(28_000), 0);
}

#[test]
fn color_map_midpoint_is_exactly_half() {
    assert_eq!(color_map(0), 500_000);
}

#[test]
fn color_map_known_values() {
    assert_eq!(color_map(ONE), 750_000);
    assert_eq!(color_map(-ONE), 250_000);
    assert_eq!(color_map(2 * ONE), 833_333);
    assert_eq!(color_map(-2 * ONE), 166_666);
    assert_eq!(color_map(5), 500_002);
}

#[test]
fn color_map_stays_inside_unit_interval() {
    let samples = [
        i64::MIN + 1,
        -1_000_000_000_000_000_000,
        -REGIME,
        -1,
        0,
        1,
        REGIME,
        1_000_000_000_000,
        i64::MAX,
    ];
    for v in samples {
        let c = color_map(v);
        assert!(0 <= c && c < ONE, "brightness out of range at {v}: {c}");
    }
    // far in the tails the stored value saturates at the ends of the interval
    assert_eq!(color_map(-1_000_000_000_000_000_000), 0);
    assert_eq!(color_map(1_000_000_000_000), 999_999);
}

#[test]
fn color_map_increases_across_samples() {
    let samples = [-2 * ONE, -ONE, 0, 5, ONE, 2 * ONE];
    let mut last = -1i64;
    for v in samples {
        let c = color_map(v);
        assert!(c > last, "brightness not increasing at {v}");
        last = c;
    }
}
