// The bit-level comparisons and classifications, held against the machine's
// own floating point on a grid of ordinary and special values.

use pv_model::scalar::Scalar;

fn s(x: f64) -> Scalar {
    Scalar::from_bits(x.to_bits())
}

fn f(x: Scalar) -> f64 {
    f64::from_bits(x.to_bits())
}

fn samples() -> Vec<f64> {
    vec![
        0.0,
        -0.0,
        1.0,
        -1.0,
        0.001,
        -0.65 * 3.0,
        48.6,
        1e-320,
        -1e-320,
        f64::MIN_POSITIVE,
        -f64::MIN_POSITIVE,
        f64::MAX,
        f64::MIN,
        f64::EPSILON,
        f64::INFINITY,
        f64::NEG_INFINITY,
        f64::NAN,
        -f64::NAN,
        f64::from_bits(0x7ff0_0000_0000_0001),
        f64::from_bits(0xfff0_0000_0000_0001),
        f64::from_bits(0x000f_ffff_ffff_ffff),
        f64::from_bits(0x7fef_ffff_ffff_ffff),
    ]
}

#[test]
fn bits_round_trip() {
    for x in samples() {
        assert_eq!(s(x).to_bits(), x.to_bits());
        assert_eq!(s(x).bits, x.to_bits());
    }
    assert_eq!(Scalar::from_bits(0x3ff0_0000_0000_0000).to_bits(), 1.0f64.to_bits());
}

#[test]
fn equality_is_numeric() {
    for a in samples() {
        for b in samples() {
            assert_eq!(s(a).num_eq(s(b)), a == b, "{a:?} == {b:?}");
        }
    }
    assert!(s(0.0).num_eq(s(-0.0)));
    assert!(!s(f64::NAN).num_eq(s(f64::NAN)));
    assert!(!s(1.0).num_eq(s(-1.0)));
}

#[test]
fn order_is_numeric() {
    for a in samples() {
        for b in samples() {
            assert_eq!(s(a).num_lt(s(b)), a < b, "{a:?} < {b:?}");
        }
    }
    assert!(!s(-0.0).num_lt(s(0.0)));
    assert!(s(-1e-320).num_lt(s(0.0)));
    assert!(!s(f64::NAN).num_lt(s(1.0)));
    assert!(!s(1.0).num_lt(s(f64::NAN)));
}

#[test]
fn classification_matches() {
    for a in samples() {
        assert_eq!(s(a).is_nan(), a.is_nan(), "{a:?}");
        assert_eq!(s(a).is_normal(), a.is_normal(), "{a:?}");
        assert_eq!(s(a).is_negative(), a < 0.0, "{a:?}");
    }
    assert!(!s(0.0).is_normal());
    assert!(!s(1e-320).is_normal());
    assert!(s(f64::MIN_POSITIVE).is_normal());
    assert!(!s(f64::INFINITY).is_normal());
}

#[test]
fn abs_clears_the_sign() {
    for a in samples() {
        assert_eq!(s(a).abs().to_bits(), a.abs().to_bits(), "{a:?}");
    }
    assert_eq!(f(s(-1.9500000000000002).abs()), 1.9500000000000002);
}

#[test]
fn max_skips_nan_and_keeps_the_larger() {
    for a in samples() {
        for b in samples() {
            let m = f(s(a).max(s(b)));
            let expected = a.max(b);
            if expected.is_nan() {
                assert!(m.is_nan());
            } else {
                assert!(m == expected, "max({a:?}, {b:?})");
            }
            assert!(!(m < a) && !(m < b));
        }
    }
    assert_eq!(f(s(0.25).max(s(0.5))), 0.5);
    assert_eq!(f(s(0.5).max(s(0.25))), 0.5);
    assert_eq!(f(s(f64::NAN).max(s(0.25))), 0.25);
    assert_eq!(f(s(0.25).max(s(f64::NAN))), 0.25);
    assert_eq!(s(0.0).max(s(-0.0)).to_bits(), 0);
}

#[test]
fn min_skips_nan_and_keeps_the_smaller() {
    for a in samples() {
        for b in samples() {
            let m = f(s(a).min(s(b)));
            let expected = a.min(b);
            if expected.is_nan() {
                assert!(m.is_nan());
            } else {
                assert!(m == expected, "min({a:?}, {b:?})");
            }
            assert!(!(a < m) && !(b < m));
        }
    }
    assert_eq!(f(s(f64::INFINITY).min(s(7.4))), 7.4);
    assert_eq!(f(s(7.4).min(s(f64::NAN))), 7.4);
}

#[test]
fn smallest_is_a_running_minimum_from_infinity() {
    assert_eq!(f(Scalar::smallest(&vec![])), f64::INFINITY);
    assert_eq!(f(Scalar::smallest(&vec![s(7.4), s(18.6), s(9.3)])), 7.4);
    assert_eq!(f(Scalar::smallest(&vec![s(f64::NAN), s(18.6), s(f64::NAN), s(9.3)])), 9.3);
    assert_eq!(f(Scalar::smallest(&vec![s(f64::NAN)])), f64::INFINITY);
    assert_eq!(f(Scalar::smallest(&vec![s(2.0), s(-3.5), s(f64::NEG_INFINITY)])), f64::NEG_INFINITY);
}

#[test]
fn double_equals_is_numeric() {
    assert!(s(0.0) == s(-0.0));
    assert!(s(f64::NAN) != s(f64::NAN));
    assert!(s(48.6) == s(48.6));
    assert!(s(48.6) != s(47.4));
}
