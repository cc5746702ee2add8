use calculator::number::{
    number_equal, number_is_nan, number_is_zero, number_less, NEGATIVE_ONE_BITS, PI_BITS,
};

fn samples() -> Vec<f64> {
    vec![
        0.0,
        -0.0,
        1.0,
        -1.0,
        0.5,
        -0.5,
        19.3,
        -19.3,
        f64::MIN_POSITIVE,
        -f64::MIN_POSITIVE,
        5e-324,
        -5e-324,
        f64::MAX,
        f64::MIN,
        f64::INFINITY,
        f64::NEG_INFINITY,
        f64::NAN,
        -f64::NAN,
        f64::from_bits(0x7FF0_0000_0000_0001),
        f64::from_bits(0xFFFF_FFFF_FFFF_FFFF),
    ]
}

#[test]
fn order_is_that_of_the_doubles() {
    for a in samples() {
        for b in samples() {
            assert_eq!(number_less(a.to_bits(), b.to_bits()), a < b, "{} < {}", a, b);
            assert_eq!(number_equal(a.to_bits(), b.to_bits()), a == b, "{} == {}", a, b);
        }
    }
}

#[test]
fn tests_are_those_of_the_doubles() {
    for a in samples() {
        assert_eq!(number_is_nan(a.to_bits()), a.is_nan(), "{}", a);
        assert_eq!(number_is_zero(a.to_bits()), a == 0.0, "{}", a);
    }
}

#[test]
fn constants_are_the_bits_of_their_numbers() {
    assert_eq!(PI_BITS, std::f64::consts::PI.to_bits());
    assert_eq!(NEGATIVE_ONE_BITS, (-1.0f64).to_bits());
}
