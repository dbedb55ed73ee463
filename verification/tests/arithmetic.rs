use core::cmp::Ordering;

use fastnum::Context;
use fastnum::Decimal;
use fastnum::SignalSet;

fn no_traps() -> Context {
    Context::default().with_signal_traps(SignalSet::empty())
}

#[test]
fn add_basic() {
    let ctx = Context::default();
    let c = Decimal::one().add(Decimal::two(), ctx);
    assert!(c.eq(&Decimal::parse_str("3")));
    let d = Decimal::parse_str("0.1").add(Decimal::parse_str("0.2"), ctx);
    assert!(d.eq(&Decimal::parse_str("0.3")));
    assert_eq!(d.digits(), 3u128);
    assert_eq!(d.fractional_digits_count(), 1);
}

#[test]
fn add_aligns_to_finer_scale() {
    let ctx = Context::default();
    let c = Decimal::parse_str("1.25").add(Decimal::parse_str("3"), ctx);
    assert_eq!(c.digits(), 425u128);
    assert_eq!(c.fractional_digits_count(), 2);
}

#[test]
fn add_is_commutative_bit_for_bit() {
    let ctx = Context::default();
    let a = Decimal::parse_str("-1.75");
    let b = Decimal::parse_str("0.055");
    let x = a.add(b, ctx);
    let y = b.add(a, ctx);
    assert_eq!(x.digits(), y.digits());
    assert_eq!(x.fractional_digits_count(), y.fractional_digits_count());
    assert_eq!(x.is_sign_negative(), y.is_sign_negative());
    assert_eq!(x.is_op_ok(), y.is_op_ok());
}

#[test]
fn mul_is_commutative_bit_for_bit() {
    let ctx = Context::default();
    let a = Decimal::parse_str("-12.5");
    let b = Decimal::parse_str("0.004");
    let x = a.mul(b, ctx);
    let y = b.mul(a, ctx);
    assert_eq!(x.digits(), y.digits());
    assert_eq!(x.fractional_digits_count(), y.fractional_digits_count());
    assert_eq!(x.is_sign_negative(), y.is_sign_negative());
}

#[test]
fn sub_basic() {
    let ctx = Context::default();
    let c = Decimal::one().sub(Decimal::two(), ctx);
    assert!(c.eq(&Decimal::parse_str("-1")));
}

#[test]
fn mul_basic() {
    let ctx = Context::default();
    let c = Decimal::five().mul(Decimal::two(), ctx);
    assert!(c.eq(&Decimal::ten()));
    let d = Decimal::parse_str("1.5").mul(Decimal::parse_str("-2.5"), ctx);
    assert_eq!(d.digits(), 375u128);
    assert_eq!(d.fractional_digits_count(), 2);
    assert!(d.is_negative());
}

#[test]
fn div_exact() {
    let ctx = Context::default();
    let c = Decimal::five().div(Decimal::two(), ctx);
    assert_eq!(c.digits(), 25u128);
    assert_eq!(c.fractional_digits_count(), 1);
    assert!(c.is_op_ok());
    assert!(c.eq(&Decimal::parse_str("2.5")));
    let d = Decimal::five().neg().div(Decimal::two(), ctx);
    assert!(d.eq(&Decimal::parse_str("-2.5")));
}

#[test]
fn div_by_zero_gives_signed_infinity() {
    let ctx = Context::default();
    let c = Decimal::one().div(Decimal::zero(), ctx);
    assert!(c.is_infinite());
    assert!(c.is_sign_positive());
    assert!(c.is_op_div_by_zero());
    let d = Decimal::one().neg().div(Decimal::zero(), ctx);
    assert!(d.is_infinite());
    assert!(d.is_sign_negative());
}

#[test]
fn zero_over_zero_is_invalid() {
    let c = Decimal::zero().div(Decimal::zero(), no_traps());
    assert!(c.is_nan());
    assert!(c.is_op_invalid());
    assert!(c.ok().is_none());
}

#[test]
fn div_inexact_records_signals() {
    let ctx = Context::default();
    let c = Decimal::one().div(Decimal::parse_str("3"), ctx);
    assert!(c.is_op_inexact());
    assert!(c.is_op_rounded());
    assert!(!c.is_op_ok());
    // 37 digits of 3 after rounding down the working precision.
    assert_eq!(c.digits(), 3333333333333333333333333333333333333u128);
}

#[test]
fn rem_follows_dividend_sign() {
    let ctx = Context::default();
    let c = Decimal::five().rem(Decimal::two().neg(), ctx);
    assert!(c.eq(&Decimal::one()));
    assert!(c.is_sign_positive());
    let d = Decimal::five().neg().rem(Decimal::two(), ctx);
    assert!(d.eq(&Decimal::one().neg()));
    assert!(d.is_sign_negative());
}

#[test]
fn rem_by_zero_is_invalid() {
    let c = Decimal::five().rem(Decimal::zero(), no_traps());
    assert!(c.is_nan());
    assert!(c.is_op_invalid());
}

#[test]
fn overflow_sets_signal_under_non_trapping_context() {
    let c = Decimal::max_value().add(Decimal::max_value(), no_traps());
    assert!(c.is_nan());
    assert!(c.is_op_invalid());
    assert!(c.ok().is_none());
}

#[test]
fn ok_projects_clean_values() {
    let ctx = Context::default();
    let c = Decimal::one().add(Decimal::two(), ctx);
    assert!(c.ok().is_some());
    assert!(Decimal::nan().ok().is_none());
    assert!(Decimal::infinity().ok().is_none());
}

#[test]
fn infinity_arithmetic() {
    let ctx = no_traps();
    let inf = Decimal::infinity();
    let c = Decimal::one().add(inf, ctx);
    assert!(c.is_infinite() && c.is_sign_positive());
    let d = inf.add(Decimal::neg_infinity(), ctx);
    assert!(d.is_nan() && d.is_op_invalid());
    let e = inf.mul(Decimal::zero(), ctx);
    assert!(e.is_nan() && e.is_op_invalid());
    let f = inf.mul(Decimal::two().neg(), ctx);
    assert!(f.is_infinite() && f.is_sign_negative());
    let g = Decimal::five().div(inf, ctx);
    assert!(g.is_zero());
    let h = Decimal::five().rem(inf, ctx);
    assert!(h.eq(&Decimal::five()));
}

#[test]
fn nan_operands_propagate_invalid() {
    let ctx = no_traps();
    let c = Decimal::nan().add(Decimal::one(), ctx);
    assert!(c.is_nan() && c.is_op_invalid());
    let d = Decimal::one().mul(Decimal::nan(), ctx);
    assert!(d.is_nan() && d.is_op_invalid());
}

#[test]
fn neg_is_an_involution() {
    let v = Decimal::parse_str("-12.34");
    let w = v.neg().neg();
    assert_eq!(w.digits(), v.digits());
    assert_eq!(w.fractional_digits_count(), v.fractional_digits_count());
    assert_eq!(w.is_negative(), v.is_negative());
}

#[test]
fn abs_clears_the_sign() {
    assert!(!Decimal::parse_str("-1.0").abs().is_negative());
    assert!(!Decimal::parse_str("1.0").abs().is_negative());
    assert!(!Decimal::parse_str("-0").abs().is_negative());
    let u = Decimal::parse_str("-2.5").unsigned_abs();
    assert!(!u.0.is_negative());
    assert_eq!(u.0.digits(), 25u128);
}

#[test]
fn signum_cases() {
    assert!(Decimal::parse_str("3.5").signum().is_one());
    assert!(Decimal::neg_infinity().signum().is_negative());
    assert!(Decimal::nan().signum().is_nan());
    assert!(Decimal::parse_str("-0").signum().is_negative());
}

#[test]
fn zero_law_all_scales_and_signs() {
    let zeros = [
        Decimal::parse_str("0"),
        Decimal::parse_str("-0"),
        Decimal::parse_str("0.000"),
        Decimal::parse_str("-0.00000"),
        Decimal::parse_str("0e10"),
        Decimal::parse_str("-0e-10"),
    ];
    for a in zeros.iter() {
        for b in zeros.iter() {
            assert_eq!(a.cmp(b), Ordering::Equal);
            assert!(a.eq(b));
        }
    }
}

#[test]
fn comparison_of_finite_values() {
    let a = Decimal::parse_str("5");
    let b = Decimal::parse_str("10");
    assert_eq!(a.cmp(&b), Ordering::Less);
    assert_eq!(b.cmp(&a), Ordering::Greater);
    assert_eq!(a.cmp(&Decimal::parse_str("5.000")), Ordering::Equal);
    assert!(Decimal::parse_str("-2").lt(&Decimal::parse_str("1")));
    assert!(Decimal::parse_str("-2").lt(&Decimal::parse_str("-1")));
    assert!(Decimal::parse_str("0.3").gt(&Decimal::parse_str("0.25")));
    assert!(Decimal::parse_str("1.0").le(&Decimal::parse_str("1")));
    assert!(Decimal::parse_str("1.0").ge(&Decimal::parse_str("1")));
    assert!(Decimal::parse_str("1.0").eq(&Decimal::parse_str("1")));
    assert!(Decimal::parse_str("1.01").ne(&Decimal::parse_str("1")));
}

#[test]
fn comparison_with_specials_is_total() {
    let nan = Decimal::nan();
    let inf = Decimal::infinity();
    let ninf = Decimal::neg_infinity();
    let x = Decimal::parse_str("7");
    assert_eq!(nan.cmp(&nan), Ordering::Equal);
    assert_eq!(nan.cmp(&inf), Ordering::Greater);
    assert_eq!(inf.cmp(&nan), Ordering::Less);
    assert_eq!(inf.cmp(&inf), Ordering::Equal);
    assert_eq!(ninf.cmp(&ninf), Ordering::Equal);
    assert_eq!(ninf.cmp(&x), Ordering::Less);
    assert_eq!(inf.cmp(&x), Ordering::Greater);
    assert_eq!(x.cmp(&ninf), Ordering::Greater);
}

#[test]
fn min_max_tie_break() {
    let a = Decimal::parse_str("2.0");
    let b = Decimal::parse_str("2.00");
    // Ties: max returns the second argument, min the first.
    let mx = a.max(b);
    assert_eq!(mx.fractional_digits_count(), 2);
    let mn = a.min(b);
    assert_eq!(mn.fractional_digits_count(), 1);
    assert!(Decimal::one().max(Decimal::two()).eq(&Decimal::two()));
    assert!(Decimal::one().min(Decimal::two()).eq(&Decimal::one()));
}

#[test]
fn clamp_restricts_to_interval() {
    let lo = Decimal::parse_str("-2");
    let hi = Decimal::parse_str("1");
    assert!(Decimal::parse_str("-3").clamp(lo, hi).eq(&lo));
    assert!(Decimal::parse_str("0").clamp(lo, hi).eq(&Decimal::zero()));
    assert!(Decimal::parse_str("2").clamp(lo, hi).eq(&hi));
}

#[test]
fn equality_operator_is_numeric() {
    assert_eq!(Decimal::parse_str("2.50"), Decimal::parse_str("2.5"));
    assert_ne!(Decimal::parse_str("2.51"), Decimal::parse_str("2.5"));
    assert_eq!(Decimal::parse_str("0"), Decimal::parse_str("-0.00"));
}

#[test]
fn signals_accumulate_across_operations() {
    let ctx = no_traps();
    let inexact = Decimal::one().div(Decimal::parse_str("3"), ctx);
    let sum = inexact.add(Decimal::one(), ctx);
    // The sticky inexact signal from the division survives the addition.
    assert!(sum.is_op_inexact());
    assert!(sum.ok().is_none());
}
