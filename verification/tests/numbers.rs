use seir_model::scalar::Scalar;
use seir_model::scalar::INFINITE_MAGNITUDE;
use seir_model::scalar::SIGN_BIT;

fn number(x: f64) -> Scalar {
    Scalar::from_bits(x.to_bits())
}

fn probes() -> Vec<f64> {
    vec![
        0.0,
        -0.0,
        f64::from_bits(1),
        -f64::from_bits(1),
        f64::MIN_POSITIVE,
        -f64::MIN_POSITIVE,
        1.0e-10,
        1.0e-7,
        0.0555,
        0.5,
        1.0,
        -1.0,
        3.0,
        349.99999999999994,
        350.0,
        350.00000000000006,
        -350.0,
        1.0e20,
        f64::MAX,
        f64::MIN,
        f64::INFINITY,
        f64::NEG_INFINITY,
        f64::NAN,
        -f64::NAN,
        f64::from_bits(0x7ff0_0000_0000_0001),
        f64::from_bits(0xffff_ffff_ffff_ffff),
    ]
}

#[test]
fn encoding_round_trips() {
    for x in probes() {
        assert_eq!(number(x).to_bits(), x.to_bits());
        assert_eq!(number(x).bits, x.to_bits());
    }
}

#[test]
fn constants_are_the_sign_bit_and_infinity() {
    assert_eq!(SIGN_BIT, (-0.0f64).to_bits());
    assert_eq!(INFINITE_MAGNITUDE, f64::INFINITY.to_bits());
}

#[test]
fn classification_agrees_with_the_numbers() {
    for x in probes() {
        assert_eq!(number(x).is_nan(), x.is_nan(), "is_nan of {:?}", x);
        assert_eq!(number(x).is_finite(), x.is_finite(), "is_finite of {:?}", x);
        assert_eq!(number(x).is_sign_negative(), x.is_sign_negative(), "sign of {:?}", x);
    }
}

#[test]
fn order_agrees_with_the_numbers() {
    for x in probes() {
        for y in probes() {
            assert_eq!(number(x).lt(&number(y)), x < y, "{:?} < {:?}", x, y);
            assert_eq!(number(x).le(&number(y)), x <= y, "{:?} <= {:?}", x, y);
            assert_eq!(number(x).same_value(&number(y)), x == y, "{:?} == {:?}", x, y);
        }
    }
}

#[test]
fn zeros_are_one_value_with_two_encodings() {
    let plus = number(0.0);
    let minus = number(-0.0);
    assert!(plus.same_value(&minus));
    assert!(!plus.lt(&minus));
    assert!(!minus.lt(&plus));
    assert!(plus.le(&minus));
    assert_ne!(plus, minus);
}

#[test]
fn nan_is_below_nothing_and_equal_to_nothing() {
    let nan = number(f64::NAN);
    let one = number(1.0);
    assert!(!nan.lt(&one));
    assert!(!one.lt(&nan));
    assert!(!nan.le(&nan));
    assert!(!nan.same_value(&nan));
    assert_eq!(nan, nan);
}

#[test]
fn neighbours_of_the_end_time_are_told_apart() {
    let below = number(349.99999999999994);
    let at = number(350.0);
    let above = number(350.00000000000006);
    assert!(below.lt(&at));
    assert!(at.lt(&above));
    assert!(below.lt(&above));
    assert!(!at.lt(&below));
    assert!(at.same_value(&number(350.0)));
}
