use emoji_interpreter::number::{Number, INFINITY_BITS, MAX_DECIMAL_LENGTH};
use emoji_interpreter::token::Operator;

fn number(x: f64) -> Number {
    Number::from_bits(x.to_bits())
}

fn float(n: Number) -> f64 {
    f64::from_bits(n.to_bits())
}

fn parsed(text: &str) -> Option<f64> {
    let chars: Vec<char> = text.chars().collect();
    Number::parse(&chars).map(float)
}

#[test]
fn bits_round_trip() {
    assert_eq!(Number::from_bits(0x4008_0000_0000_0000).to_bits(), 0x4008_0000_0000_0000);
    assert_eq!(float(Number::zero()), 0.0);
    assert_eq!(Number::zero().to_bits(), 0);
}

#[test]
fn zero_test_follows_the_comparison_with_zero() {
    for x in [0.0, -0.0, 1.0, -1.0, 5e-324, f64::INFINITY, f64::NEG_INFINITY, f64::NAN, 0.5] {
        assert_eq!(number(x).is_nonzero(), x != 0.0, "{}", x);
    }
}

#[test]
fn count_is_the_saturating_cast() {
    let samples = [
        0.0,
        -0.0,
        0.5,
        0.999_999_999,
        1.0,
        1.5,
        2.0,
        3.999,
        9.0,
        255.7,
        4_294_967_295.0,
        4_294_967_296.0,
        4_294_967_296.5,
        9_007_199_254_740_992.0,
        9_007_199_254_740_993.0,
        1.8e19,
        18_446_744_073_709_551_615.0,
        1.9e19,
        1e300,
        -1.0,
        -0.5,
        -1e300,
        5e-324,
        f64::MAX,
        f64::MIN_POSITIVE,
        f64::INFINITY,
        f64::NEG_INFINITY,
        f64::NAN,
    ];
    for x in samples {
        assert_eq!(number(x).to_count(), x as usize, "{}", x);
    }
}

#[test]
fn count_of_exact_values() {
    assert_eq!(number(1.0).to_count(), 1);
    assert_eq!(number(8.0).to_count(), 8);
    assert_eq!(number(8.9).to_count(), 8);
    assert_eq!(number(4503599627370496.0).to_count(), 4503599627370496);
    assert_eq!(number(4503599627370497.0).to_count(), 4503599627370497);
    assert_eq!(number(9007199254740994.0).to_count(), 9007199254740994);
    assert_eq!(number(f64::INFINITY).to_count(), usize::MAX);
    assert_eq!(number(f64::NAN).to_count(), 0);
    assert_eq!(number(-3.0).to_count(), 0);
}

#[test]
fn arithmetic_agrees_with_the_hardware() {
    let samples = [
        0.0, -0.0, 1.0, -1.0, 2.0, 3.0, 0.1, 0.2, 0.3, 1e-320, 5e-324, 1e308, 1.7e308, 123.456,
        -9.75, 1e16, 3.0e-7,
    ];
    for a in samples {
        for b in samples {
            let sum = float(number(a).plus(number(b)));
            let difference = float(number(a).minus(number(b)));
            let product = float(number(a).times(number(b)));
            let quotient = float(number(a).over(number(b)));
            for (got, want) in
                [(sum, a + b), (difference, a - b), (product, a * b), (quotient, a / b)]
            {
                if want.is_nan() {
                    assert!(got.is_nan(), "{} {}", a, b);
                } else {
                    assert_eq!(got.to_bits(), want.to_bits(), "{} {}", a, b);
                }
            }
        }
    }
}

#[test]
fn arithmetic_with_infinities_and_nan() {
    let inf = f64::INFINITY;
    assert_eq!(float(number(inf).plus(number(1.0))), inf);
    assert!(float(number(inf).minus(number(inf))).is_nan());
    assert!(float(number(0.0).times(number(inf))).is_nan());
    assert_eq!(float(number(1.0).over(number(0.0))), inf);
    assert_eq!(float(number(-1.0).over(number(0.0))), -inf);
    assert!(float(number(0.0).over(number(0.0))).is_nan());
    assert!(float(number(f64::NAN).plus(number(1.0))).is_nan());
}

#[test]
fn operators_apply_their_operation() {
    assert_eq!(float(Operator::Add.apply(number(6.0), number(3.0))), 9.0);
    assert_eq!(float(Operator::Subtract.apply(number(6.0), number(3.0))), 3.0);
    assert_eq!(float(Operator::Times.apply(number(6.0), number(3.0))), 18.0);
    assert_eq!(float(Operator::Division.apply(number(6.0), number(3.0))), 2.0);
}

#[test]
fn decimal_texts_are_read_as_the_nearest_double() {
    for text in [
        "0",
        "1",
        "5",
        "05",
        "0.5",
        ".5",
        "5.",
        "0.1",
        "0.2",
        "0.3",
        "3.14159",
        "123456789.125",
        "9007199254740993",
        "179769313486231570000000000000000000000000000000000000000000000000000000000000000",
        "0.000000000000000000000000000000000000000000000000000000000000000000000000000001",
        "2.2250738585072011",
        "4.9406564584124654",
        "00000.00000",
        "1.7976931348623157",
    ] {
        let want: f64 = text.parse().unwrap();
        assert_eq!(parsed(text).map(f64::to_bits), Some(want.to_bits()), "{}", text);
    }
}

#[test]
fn very_long_and_very_small_numerals() {
    let huge = format!("1{}", "0".repeat(400));
    assert_eq!(parsed(&huge), Some(f64::INFINITY));
    let tiny = format!("0.{}1", "0".repeat(400));
    assert_eq!(parsed(&tiny), Some(0.0));
    let long = format!("0.{}", "3".repeat(2000));
    let want: f64 = long.parse().unwrap();
    assert_eq!(parsed(&long), Some(want));
}

#[test]
fn what_is_no_decimal_numeral_is_not_read() {
    for text in ["", ".", "..", "1.2.3", "1..2", "1e5", "-1", "+1", "inf", "nan", "0x10", "1 ", "a"]
    {
        assert_eq!(parsed(text), None, "{:?}", text);
    }
}

#[test]
fn positive_zero_keeps_what_is_added_to_it() {
    for x in [
        0.0,
        1.0,
        -1.0,
        0.1,
        5e-324,
        -5e-324,
        f64::MAX,
        f64::MIN,
        f64::MIN_POSITIVE,
        f64::INFINITY,
        f64::NEG_INFINITY,
    ] {
        assert_eq!(Number::zero().plus(number(x)), number(x), "{}", x);
    }
    // The negative zero is the one number that does not come back.
    assert_eq!(Number::zero().plus(number(-0.0)), number(0.0));
}

#[test]
fn a_zero_divisor_gives_no_finite_number() {
    for x in [0.0, -0.0, 1.0, -1.0, 1e300, f64::INFINITY, f64::NAN] {
        for zero in [0.0, -0.0] {
            assert!(!float(number(x).over(number(zero))).is_finite(), "{}", x);
        }
    }
}

#[test]
fn readings_carry_no_sign_and_are_numbers() {
    for text in ["0", "0.0", "1", "12.5", "000", ".0"] {
        let value = parsed(text).unwrap();
        assert!(!value.is_nan() && value.is_sign_positive(), "{}", text);
    }
}

#[test]
fn bits_with_a_sign_or_of_a_nan_are_not_taken() {
    assert_eq!(Number::unsigned(0), Some(Number::zero()));
    assert_eq!(Number::unsigned(1.5_f64.to_bits()), Some(number(1.5)));
    assert_eq!(Number::unsigned(INFINITY_BITS), Some(number(f64::INFINITY)));
    assert_eq!(Number::unsigned(INFINITY_BITS + 1), None);
    assert_eq!(Number::unsigned(f64::NAN.to_bits()), None);
    assert_eq!(Number::unsigned((-0.0_f64).to_bits()), None);
    assert_eq!(Number::unsigned((-1.5_f64).to_bits()), None);
    assert_eq!(Number::unsigned(f64::NEG_INFINITY.to_bits()), None);
    assert_eq!(Number::unsigned(u64::MAX), None);
}

#[test]
fn the_length_that_is_read_is_two_to_the_twenty_four() {
    assert_eq!(MAX_DECIMAL_LENGTH, 16_777_216);
    let too_long = vec!['1'; MAX_DECIMAL_LENGTH + 1];
    assert_eq!(Number::parse(&too_long), None);
}

#[test]
fn a_numeral_of_many_digits_is_read() {
    let digits = "7".repeat(100_000);
    let want: f64 = digits.parse().unwrap();
    assert_eq!(parsed(&digits), Some(want));
    let fraction = format!("0.{}", "7".repeat(100_000));
    let want: f64 = fraction.parse().unwrap();
    assert_eq!(parsed(&fraction), Some(want));
    let small = format!("0.{}7", "0".repeat(100_000));
    assert_eq!(parsed(&small), Some(0.0));
}
