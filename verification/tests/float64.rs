//! Exact conversions between floats and integers.
use tallydb::float64::{float_as_i64_exact, int_as_f64_exact, unit_from, Float64};

fn float(value: f64) -> Float64 {
    Float64::from_bits(value.to_bits())
}

fn to_f64(value: Option<Float64>) -> Option<f64> {
    value.map(|v| f64::from_bits(v.to_bits()))
}

#[test]
fn int_to_f64_edges() {
    assert_eq!(to_f64(int_as_f64_exact(0)), Some(0.0));
    assert_eq!(to_f64(int_as_f64_exact(-1)), Some(-1.0));
    assert_eq!(to_f64(int_as_f64_exact(1 << 53)), Some(9_007_199_254_740_992.0));
    assert_eq!(to_f64(int_as_f64_exact((1 << 53) + 1)), None);
    assert_eq!(
        to_f64(int_as_f64_exact(i64::MIN)),
        Some(-9_223_372_036_854_775_808.0)
    );
    assert_eq!(to_f64(int_as_f64_exact(i64::MAX)), None);
}

#[test]
fn float_to_i64_edges() {
    assert_eq!(float_as_i64_exact(float(0.0)), Some(0));
    assert_eq!(float_as_i64_exact(float(-0.0)), Some(0));
    assert_eq!(float_as_i64_exact(float(2.5)), None);
    assert_eq!(float_as_i64_exact(float(-3.0)), Some(-3));
    assert_eq!(
        float_as_i64_exact(float(-9_223_372_036_854_775_808.0)),
        Some(i64::MIN)
    );
    assert_eq!(float_as_i64_exact(float(9_223_372_036_854_775_808.0)), None);
    assert_eq!(float_as_i64_exact(float(f64::NAN)), None);
    assert_eq!(float_as_i64_exact(float(f64::INFINITY)), None);
    assert_eq!(float_as_i64_exact(float(f64::NEG_INFINITY)), None);
}

#[test]
fn conversions_agree_with_the_machine() {
    let mut n: i64 = 1;
    for step in 0..400i64 {
        n = n.wrapping_mul(6364136223846793005).wrapping_add(1442695040888963407);
        let candidate = n >> (step % 60);
        let rounded = candidate as f64;
        let exact = rounded as i128 == i128::from(candidate);
        let converted = int_as_f64_exact(candidate);
        assert_eq!(converted.is_some(), exact, "{candidate}");
        if let Some(value) = converted {
            assert_eq!(value.to_bits(), rounded.to_bits());
            // What converts exactly converts back.
            assert_eq!(float_as_i64_exact(value), Some(candidate));
        }
    }
}

#[test]
fn order_and_equality_are_ieee() {
    let samples = [
        f64::NEG_INFINITY,
        -2.5,
        -f64::MIN_POSITIVE,
        -0.0,
        0.0,
        5e-324,
        1.0,
        f64::MAX,
        f64::INFINITY,
        f64::NAN,
    ];
    for &a in samples.iter() {
        assert_eq!(float(a).is_nan(), a.is_nan());
        assert_eq!(float(a).is_finite(), a.is_finite());
        assert_eq!(float(a).negate().to_bits(), (-a).to_bits());
        assert_eq!(float(a).negate().negate().to_bits(), a.to_bits());
        for &b in samples.iter() {
            assert_eq!(float(a).less_than(float(b)), a < b, "{a} {b}");
            assert_eq!(float(a) == float(b), a == b, "{a} {b}");
        }
    }
}

#[test]
fn unit_floats_are_the_top_bits_over_two_to_the_fifty_three() {
    for u in [0u64, 1, u64::MAX, 1 << 11, 0x9E37_79B9_7F4A_7C15, 1 << 63] {
        let expected = (u >> 11) as f64 / (1u64 << 53) as f64;
        assert_eq!(unit_from(u).to_bits(), expected.to_bits(), "{u}");
    }
}
