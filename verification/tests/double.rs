use charge_overview::double::Double;

fn d(v: f64) -> Double {
    Double::from_bits(v.to_bits())
}

const SAMPLES: [f64; 17] = [
    0.0,
    -0.0,
    1.0,
    -1.0,
    0.5,
    -0.999,
    1027.75,
    -1027.75,
    1e15,
    4503599627370497.5,
    9007199254740993.0,
    -9.3e18,
    9.3e18,
    1e300,
    f64::MIN_POSITIVE,
    f64::INFINITY,
    f64::NEG_INFINITY,
];

#[test]
fn doubles_compare_like_floats() {
    let mut all = SAMPLES.to_vec();
    all.push(f64::NAN);
    all.push(-f64::NAN);
    for a in &all {
        for b in &all {
            assert_eq!(d(*a).lt(d(*b)), *a < *b, "{a} < {b}");
            assert_eq!(d(*a).same_value(d(*b)), *a == *b, "{a} == {b}");
        }
        assert_eq!(d(*a).is_nan(), a.is_nan());
        assert_eq!(d(*a).abs().to_bits(), a.abs().to_bits());
    }
}

#[test]
fn doubles_truncate_like_floats() {
    for a in SAMPLES {
        assert_eq!(d(a).to_i64(), a as i64, "{a}");
    }
    assert_eq!(d(f64::NAN).to_i64(), 0);
    assert_eq!(d(-9223372036854775808.0).to_i64(), i64::MIN);
    assert_eq!(d(9223372036854774784.0).to_i64(), 9223372036854774784);
}

#[test]
fn integers_become_doubles() {
    for n in [0, 1, -1, 2, 3, -7, 42, 65535, -32768, 123456789, i32::MAX, i32::MIN] {
        assert_eq!(Double::from_i32(n).to_bits(), (n as f64).to_bits(), "{n}");
    }
}

#[test]
fn limits_of_the_doubles() {
    assert_eq!(f64::from_bits(Double::infinity().to_bits()), f64::INFINITY);
    assert_eq!(f64::from_bits(Double::neg_infinity().to_bits()), f64::NEG_INFINITY);
    assert_eq!(Double::zero().to_bits(), 0.0f64.to_bits());
}
