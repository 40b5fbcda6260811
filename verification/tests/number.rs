use metoks::number::{Real, HUNDRED_BITS, INFINITY_BITS, ONE_BITS, SIGN_BIT};

fn num(x: f64) -> Real {
    Real { bits: x.to_bits() }
}

#[test]
fn patterns_are_those_of_doubles() {
    assert_eq!(f64::from_bits(ONE_BITS), 1.0);
    assert_eq!(f64::from_bits(HUNDRED_BITS), 100.0);
    assert_eq!(f64::from_bits(INFINITY_BITS), f64::INFINITY);
    assert_eq!((-0.0f64).to_bits(), SIGN_BIT);
    assert_eq!(Real::from_bits(ONE_BITS), num(1.0));
}

#[test]
fn order_is_that_of_doubles() {
    let xs = [
        f64::NEG_INFINITY,
        -1e300,
        -2.5,
        -1.0,
        -f64::MIN_POSITIVE,
        -5e-324,
        -0.0,
        0.0,
        5e-324,
        f64::MIN_POSITIVE,
        0.4,
        1.0,
        1.0000000000000002,
        3.0,
        100.0,
        1e300,
        f64::INFINITY,
        f64::NAN,
        -f64::NAN,
    ];
    for a in xs {
        assert_eq!(num(a).nan(), a.is_nan());
        assert_eq!(num(a).infinite(), a.is_infinite());
        assert_eq!(num(a).positive(), a > 0.0);
        for b in xs {
            assert_eq!(num(a).lt(num(b)), a < b, "{a} < {b}");
            assert_eq!(num(a).le(num(b)), a <= b, "{a} <= {b}");
        }
    }
}
