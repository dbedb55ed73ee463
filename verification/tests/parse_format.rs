use fastnum::Category;
use fastnum::Context;
use fastnum::Decimal;
use fastnum::ParseError;
use fastnum::RoundingMode;
use fastnum::Sign;

#[test]
fn parse_plain_integer() {
    let v = Decimal::parse_str("-1234500");
    assert_eq!(v.digits(), 1234500u128);
    assert_eq!(v.fractional_digits_count(), 0);
    assert!(v.is_negative());
}

#[test]
fn normalize_migrates_trailing_zeros() {
    let v = Decimal::parse_str("-1234500");
    let n = v.normalized(Context::default());
    assert_eq!(n.digits(), 12345u128);
    assert_eq!(n.fractional_digits_count(), -2);
    assert!(n.is_negative());
}

#[test]
fn normalize_is_idempotent() {
    let v = Decimal::parse_str("10.2300");
    let once = v.normalized(Context::default());
    let twice = once.normalized(Context::default());
    assert_eq!(once.digits(), twice.digits());
    assert_eq!(once.fractional_digits_count(), twice.fractional_digits_count());
}

#[test]
fn normalize_preserves_value() {
    let v = Decimal::parse_str("10.2300");
    let n = v.normalized(Context::default());
    assert!(n.eq(&v));
    assert_eq!(n.digits(), 102300u128 / 100);
}

#[test]
fn parse_fractional() {
    let v = Decimal::parse_str("123.45");
    assert_eq!(v.digits(), 12345u128);
    assert_eq!(v.fractional_digits_count(), 2);
    assert!(v.is_positive());
}

#[test]
fn parse_exponent_forms() {
    let v = Decimal::parse_str("5e9");
    assert_eq!(v.digits(), 5u128);
    assert_eq!(v.fractional_digits_count(), -9);
    let w = Decimal::parse_str("1.5E-3");
    assert_eq!(w.digits(), 15u128);
    assert_eq!(w.fractional_digits_count(), 4);
    let x = Decimal::parse_str("+.5");
    assert_eq!(x.digits(), 5u128);
    assert_eq!(x.fractional_digits_count(), 1);
    let y = Decimal::parse_str("5.");
    assert_eq!(y.digits(), 5u128);
    assert_eq!(y.fractional_digits_count(), 0);
}

#[test]
fn parse_specials() {
    assert!(Decimal::parse_str("NaN").is_nan());
    assert!(Decimal::parse_str("-nan").is_nan());
    let inf = Decimal::parse_str("inf");
    assert!(inf.is_infinite() && inf.is_sign_positive());
    let ninf = Decimal::parse_str("-Infinity");
    assert!(ninf.is_infinite() && ninf.is_sign_negative());
}

#[test]
fn parse_error_empty() {
    assert_eq!(Decimal::from_str(""), Err(ParseError::Empty));
}

#[test]
fn parse_error_invalid_literal() {
    assert_eq!(Decimal::from_str("abc"), Err(ParseError::InvalidLiteral));
    assert_eq!(Decimal::from_str("12x"), Err(ParseError::InvalidLiteral));
    assert_eq!(Decimal::from_str("-"), Err(ParseError::InvalidLiteral));
    assert_eq!(Decimal::from_str("."), Err(ParseError::InvalidLiteral));
    assert_eq!(Decimal::from_str("1_000"), Err(ParseError::InvalidLiteral));
    assert_eq!(Decimal::from_str("e5"), Err(ParseError::InvalidLiteral));
}

#[test]
fn parse_error_malformed_exponent() {
    assert_eq!(Decimal::from_str("1e"), Err(ParseError::MalformedExponent));
    assert_eq!(Decimal::from_str("1e+"), Err(ParseError::MalformedExponent));
    assert_eq!(Decimal::from_str("1e-x"), Err(ParseError::MalformedExponent));
}

#[test]
fn parse_error_coefficient_overflow() {
    // 38 digits: one more than the coefficient can hold.
    let s = "99999999999999999999999999999999999999";
    assert_eq!(Decimal::from_str(s), Err(ParseError::CoefficientOverflow));
    // 37 digits still fit.
    let t = "9999999999999999999999999999999999999";
    let v = Decimal::parse_str(t);
    assert_eq!(v.digits(), 9999999999999999999999999999999999999u128);
}

#[test]
fn parse_error_exponent_overflow() {
    assert_eq!(Decimal::from_str("1e99999"), Err(ParseError::ExponentOverflow));
    assert_eq!(Decimal::from_str("1e-99999"), Err(ParseError::ExponentOverflow));
    assert_eq!(
        Decimal::from_str("1e999999999999999999999999999999999999999999"),
        Err(ParseError::ExponentOverflow)
    );
}

#[test]
fn scientific_notation_examples() {
    let n = Decimal::parse_str("-12345678");
    assert_eq!(&n.to_scientific_notation(), "-1.2345678e7");
    let p = Decimal::parse_str("12345678");
    assert_eq!(&p.to_scientific_notation(), "1.2345678e7");
}

#[test]
fn engineering_notation_examples() {
    let n = Decimal::parse_str("-12345678");
    assert_eq!(&n.to_engineering_notation(), "-12.345678e6");
    // A single digit that must be padded to fill the leading group.
    let w = Decimal::parse_str("1e4");
    assert_eq!(&w.to_engineering_notation(), "10e3");
}

#[test]
fn notation_of_specials_and_zero() {
    assert_eq!(&Decimal::nan().to_scientific_notation(), "NaN");
    assert_eq!(&Decimal::infinity().to_scientific_notation(), "Inf");
    assert_eq!(&Decimal::neg_infinity().to_scientific_notation(), "-Inf");
    assert_eq!(&Decimal::zero().to_scientific_notation(), "0e0");
    assert_eq!(&Decimal::parse_str("-0").to_scientific_notation(), "-0e0");
    assert_eq!(&Decimal::parse_str("-0").to_engineering_notation(), "-0e0");
}

#[test]
fn scientific_notation_small_values() {
    let v = Decimal::parse_str("0.00123");
    assert_eq!(&v.to_scientific_notation(), "1.23e-3");
    let w = Decimal::parse_str("7");
    assert_eq!(&w.to_scientific_notation(), "7e0");
}

#[test]
fn round_trip_through_scientific_notation() {
    for s in ["123.45", "-0.00078", "9e-20", "-1234500", "42", "1.000"] {
        let v = Decimal::parse_str(s);
        let text = v.to_scientific_notation();
        let back = Decimal::parse_str(&text);
        assert_eq!(back.digits(), v.digits());
        assert_eq!(back.fractional_digits_count(), v.fractional_digits_count());
        assert_eq!(back.is_negative(), v.is_negative());
        assert!(back.eq(&v));
    }
}

#[test]
fn inspection_predicates() {
    let v = Decimal::parse_str("-123.45");
    assert_eq!(v.sign(), Sign::Minus);
    assert_eq!(v.digits_count(), 5);
    assert_eq!(v.classify(), Category::Normal);
    assert!(v.is_finite());
    assert!(!v.is_nan());
    assert!(!v.is_infinite());
    assert!(!v.is_zero());
    assert_eq!(Decimal::zero().classify(), Category::Zero);
    assert_eq!(Decimal::nan().classify(), Category::Nan);
    assert_eq!(Decimal::infinity().classify(), Category::Infinite);
    assert_eq!(Decimal::zero().digits_count(), 1);
}

#[test]
fn is_one_is_strict() {
    assert!(Decimal::one().is_one());
    assert!(!Decimal::parse_str("10e-1").is_one());
    assert!(!Decimal::parse_str("-1").is_one());
}

#[test]
fn from_scale_constructs_powers_of_ten() {
    let a = Decimal::from_scale(0);
    assert!(a.eq(&Decimal::one()));
    let b = Decimal::from_scale(-3);
    assert!(b.eq(&Decimal::parse_str("0.001")));
    let c = Decimal::from_scale(3);
    assert!(c.eq(&Decimal::parse_str("1000")));
}

#[test]
fn parse_error_descriptions_are_distinct() {
    let texts = [
        ParseError::Empty.description(),
        ParseError::InvalidLiteral.description(),
        ParseError::MalformedExponent.description(),
        ParseError::CoefficientOverflow.description(),
        ParseError::ExponentOverflow.description(),
    ];
    for (i, a) in texts.iter().enumerate() {
        for (j, b) in texts.iter().enumerate() {
            if i != j {
                assert_ne!(a, b);
            }
        }
    }
}

#[test]
fn rounding_examples() {
    let n = Decimal::parse_str("129.41675");
    assert!(n.round(2, RoundingMode::Up).eq(&Decimal::parse_str("129.42")));
    assert!(n.round(-1, RoundingMode::Down).eq(&Decimal::parse_str("120")));
    assert!(n.round(4, RoundingMode::HalfEven).eq(&Decimal::parse_str("129.4168")));
}

#[test]
fn rounding_modes_on_ties_and_signs() {
    let half = Decimal::parse_str("2.5");
    assert!(half.round(0, RoundingMode::HalfUp).eq(&Decimal::parse_str("3")));
    assert!(half.round(0, RoundingMode::HalfDown).eq(&Decimal::parse_str("2")));
    assert!(half.round(0, RoundingMode::HalfEven).eq(&Decimal::parse_str("2")));
    let odd = Decimal::parse_str("3.5");
    assert!(odd.round(0, RoundingMode::HalfEven).eq(&Decimal::parse_str("4")));
    let neg = Decimal::parse_str("-1.1");
    assert!(neg.round(0, RoundingMode::Ceiling).eq(&Decimal::parse_str("-1")));
    assert!(neg.round(0, RoundingMode::Floor).eq(&Decimal::parse_str("-2")));
    assert!(neg.round(0, RoundingMode::Up).eq(&Decimal::parse_str("-2")));
    assert!(neg.round(0, RoundingMode::Down).eq(&Decimal::parse_str("-1")));
}

#[test]
fn with_scale_signals() {
    let ctx = Context::default().with_rounding_mode(RoundingMode::Down);
    let v = Decimal::parse_str("1.25");
    let coarse = v.with_scale(1, ctx);
    assert_eq!(coarse.digits(), 12u128);
    assert!(coarse.is_op_rounded());
    assert!(coarse.is_op_inexact());
    let exact = Decimal::parse_str("1.20").with_scale(1, ctx);
    assert_eq!(exact.digits(), 12u128);
    assert!(exact.is_op_rounded());
    assert!(!exact.is_op_inexact());
}

#[test]
fn rescale_round_trip_recovers_coefficient() {
    let ctx = Context::default();
    let v = Decimal::parse_str("12.5");
    let finer = v.with_scale(5, ctx);
    assert_eq!(finer.digits(), 1250000u128);
    let back = finer.with_scale(1, ctx);
    assert_eq!(back.digits(), v.digits());
    assert_eq!(back.fractional_digits_count(), 1);
    assert!(!back.is_op_inexact());
}

#[test]
fn normalize_stops_at_the_scale_floor() {
    // The scale cannot go below its 16-bit minimum, so a trailing zero that
    // would need a finer exponent stays in the coefficient.
    let v = Decimal::parse_str("10e32768");
    assert_eq!(v.fractional_digits_count(), -32768);
    let n = v.normalized(Context::default());
    assert_eq!(n.digits(), 10u128);
    assert_eq!(n.fractional_digits_count(), -32768);
}

#[test]
fn with_scale_overflow_is_invalid() {
    let ctx = Context::default().with_signal_traps(fastnum::SignalSet::empty());
    let v = Decimal::parse_str("9999999999999999999999999999999999999");
    let r = v.with_scale(5, ctx);
    assert!(r.is_nan());
    assert!(r.is_op_invalid());
}

#[test]
fn engineering_notation_leading_groups() {
    assert_eq!(&Decimal::parse_str("1234.5").to_engineering_notation(), "1.2345e3");
    assert_eq!(&Decimal::parse_str("12345").to_engineering_notation(), "12.345e3");
    assert_eq!(&Decimal::parse_str("123456").to_engineering_notation(), "123.456e3");
    assert_eq!(&Decimal::parse_str("0.012").to_engineering_notation(), "12e-3");
}

#[test]
fn comparison_across_magnitudes() {
    // Values whose orders of magnitude alone decide the comparison.
    let big = Decimal::parse_str("1e100");
    let small = Decimal::parse_str("9.99e99");
    assert!(big.gt(&small));
    let tiny = Decimal::parse_str("-1e-100");
    assert!(tiny.lt(&Decimal::parse_str("0")));
    assert!(Decimal::parse_str("123").gt(&Decimal::parse_str("99.999")));
}
