use fraction::{FromPrimitive, Ratio, ToPrimitive};
use terms::number::{Approx, NumError, Number};
use terms::ratio::Fraction;
use terms::terms::Term;
use terms::terms::Term::{Addition, Exponentiation, Multiplication, RootExtraction, Value, Variable};

fn number_of(x: f64) -> Number {
    let found = Ratio::<i64>::from_f64(x).map(|q| Fraction::new(*q.numer(), *q.denom()));
    Number::from_double(x.to_bits(), found)
}

fn rational(n: i64, d: i64) -> Number {
    Number::Rational(Fraction::new(n, d))
}

fn double_of(a: &Approx) -> f64 {
    match a {
        Approx::Float(bits) => f64::from_bits(*bits),
        Approx::Exact(f) => Ratio::new_raw(f.numer, f.denom).to_f64().unwrap(),
        Approx::Sum(x, y) => double_of(x) + double_of(y),
        Approx::Product(x, y) => double_of(x) * double_of(y),
        Approx::Power(x, y) => double_of(x).powf(double_of(y)),
        Approx::Reciprocal(x) => 1.0 / double_of(x),
    }
}

fn var(name: &str) -> Box<Term> {
    Box::new(Variable(name.to_string()))
}

fn val(n: Number) -> Box<Term> {
    Box::new(Value(n))
}

#[test]
fn test_add() {
    let term = Addition(Box::new(Value(number_of(0.5))), Box::new(Value(number_of(1.2))));

    let value = term.get_value().unwrap().unwrap();

    assert_eq!(value, Number::Rational(Fraction::new(170, 100)))
}

#[test]
fn fraction_new_reduces_and_moves_sign() {
    assert_eq!(Fraction::new(170, 100), Fraction { numer: 17, denom: 10 });
    assert_eq!(Fraction::new(3, -6), Fraction { numer: -1, denom: 2 });
    assert_eq!(Fraction::new(0, -5), Fraction { numer: 0, denom: 1 });
    assert_eq!(Fraction::new(-4, -4), Fraction { numer: 1, denom: 1 });
}

#[test]
fn rational_sum_is_exact_and_reduced() {
    let r = rational(1, 2).add(&rational(6, 5)).unwrap();
    match r {
        Number::Rational(f) => assert_eq!(f, Fraction { numer: 17, denom: 10 }),
        _ => panic!("expected a fraction"),
    }
    let r = rational(1, 6).add(&rational(1, 3)).unwrap();
    assert!(matches!(r, Number::Rational(Fraction { numer: 1, denom: 2 })));
    let r = rational(1, 2).add(&rational(-1, 2)).unwrap();
    assert!(matches!(r, Number::Rational(Fraction { numer: 0, denom: 1 })));
}

#[test]
fn sum_with_an_approximation_is_approximate() {
    let a = number_of(f64::NAN);
    assert!(matches!(a, Number::Irrational(Approx::Float(_))));
    let x = number_of(f64::INFINITY);
    let r = x.add(&rational(1, 2)).unwrap();
    match &r {
        Number::Irrational(Approx::Sum(l, rr)) => {
            assert!(matches!(**l, Approx::Float(_)));
            assert!(matches!(**rr, Approx::Exact(Fraction { numer: 1, denom: 2 })));
        },
        _ => panic!("expected an approximate sum"),
    }
    match r {
        Number::Irrational(a) => assert_eq!(double_of(&a), f64::INFINITY),
        _ => panic!("expected an approximation"),
    }
    let y = rational(1, 4).add(&Number::Irrational(Approx::Float(2.0f64.to_bits()))).unwrap();
    match y {
        Number::Irrational(a) => assert_eq!(double_of(&a), 2.25),
        _ => panic!("expected an approximation"),
    }
}

#[test]
fn product_of_fractions() {
    assert_eq!(rational(2, 3).mul(&rational(9, 4)).unwrap(), rational(3, 2));
    assert_eq!(rational(-2, 3).mul(&rational(0, 1)).unwrap(), rational(0, 1));
    let p = rational(1, 2).mul(&Number::Irrational(Approx::Float(3.0f64.to_bits()))).unwrap();
    match p {
        Number::Irrational(a) => assert_eq!(double_of(&a), 1.5),
        _ => panic!("expected an approximation"),
    }
}

#[test]
fn integer_power_is_exact() {
    assert_eq!(rational(2, 1).pow(&rational(3, 1)).unwrap(), rational(8, 1));
    assert_eq!(rational(2, 3).pow(&rational(-2, 1)).unwrap(), rational(9, 4));
    let r = rational(-2, 3).pow(&rational(-3, 1)).unwrap();
    assert!(matches!(r, Number::Rational(Fraction { numer: -27, denom: 8 })));
    assert_eq!(rational(0, 1).pow(&rational(0, 1)).unwrap(), rational(1, 1));
}

#[test]
fn fractional_power_is_approximate() {
    let r = rational(2, 1).pow(&rational(1, 2)).unwrap();
    match r {
        Number::Irrational(a) => assert!((double_of(&a) - 1.41421356).abs() < 1e-8),
        _ => panic!("expected an approximation"),
    }
}

#[test]
fn power_errors() {
    let big = rational(1i64 << 40, 1);
    assert_eq!(rational(2, 1).pow(&big).unwrap_err(), NumError::ExponentOutOfRange);
    assert_eq!(rational(0, 1).pow(&rational(-1, 1)).unwrap_err(), NumError::ZeroReciprocal);
    assert_eq!(rational(2, 1).pow(&rational(63, 1)).unwrap_err(), NumError::Overflow);
    assert_eq!(rational(2, 1).pow(&rational(62, 1)).unwrap(), rational(1i64 << 62, 1));
    assert_eq!(rational(1, 1).pow(&rational(i32::MAX as i64, 1)).unwrap(), rational(1, 1));
}

#[test]
fn overflow_is_an_error() {
    let max = rational(i64::MAX, 1);
    assert_eq!(max.add(&rational(1, 1)).unwrap_err(), NumError::Overflow);
    assert_eq!(max.mul(&rational(2, 1)).unwrap_err(), NumError::Overflow);
    assert_eq!(rational(1, i64::MAX).mul(&rational(1, 2)).unwrap_err(), NumError::Overflow);
}

#[test]
fn reciprocal_of_zero_is_an_error() {
    assert_eq!(rational(0, 1).reciprocal().unwrap_err(), NumError::ZeroReciprocal);
    let z = Number::Irrational(Approx::Float((-0.0f64).to_bits()));
    assert_eq!(z.reciprocal().unwrap_err(), NumError::ZeroReciprocal);
    assert_eq!(rational(-2, 3).reciprocal().unwrap(), rational(-3, 2));
    match Number::Irrational(Approx::Float(4.0f64.to_bits())).reciprocal().unwrap() {
        Number::Irrational(a) => assert_eq!(double_of(&a), 0.25),
        _ => panic!("expected an approximation"),
    }
}

#[test]
fn equality_is_variant_sensitive() {
    assert_eq!(rational(1, 2), Number::Rational(Fraction { numer: 2, denom: 4 }));
    assert_ne!(rational(1, 2), Number::Irrational(Approx::Float(0.5f64.to_bits())));
    assert_eq!(
        Number::Irrational(Approx::Float(0.5f64.to_bits())),
        Number::Irrational(Approx::Float(0.5f64.to_bits()))
    );
    assert_eq!(
        Number::Irrational(Approx::Float(0.0f64.to_bits())),
        Number::Irrational(Approx::Float((-0.0f64).to_bits()))
    );
    assert_ne!(
        Number::Irrational(Approx::Float(f64::NAN.to_bits())),
        Number::Irrational(Approx::Float(f64::NAN.to_bits()))
    );
    assert_ne!(
        Number::Irrational(Approx::Float(1.0f64.to_bits())),
        Number::Irrational(Approx::Float(2.0f64.to_bits()))
    );
}

#[test]
fn sum_that_fits_does_not_overflow() {
    assert_eq!(rational(i64::MAX, 1).add(&rational(-1, 1)).unwrap(), rational(i64::MAX - 1, 1));
    assert_eq!(rational(i64::MAX, 1).add(&rational(-i64::MAX, 1)).unwrap(), rational(0, 1));
}

#[test]
fn sum_over_a_common_denominator_does_not_overflow() {
    let tiny = rational(1, 1i64 << 32);
    assert_eq!(tiny.add(&tiny).unwrap(), rational(1, 1i64 << 31));
    let a = number_of(1e-10);
    assert_eq!(a, rational(1, 10_000_000_000));
    assert_eq!(a.add(&a).unwrap(), rational(1, 5_000_000_000));
    assert_eq!(rational(1, 6).add(&rational(1, 10)).unwrap(), rational(4, 15));
}

#[test]
fn sum_whose_common_denominator_overflows_is_an_error() {
    let a = rational(1, (1i64 << 62) + 1);
    let b = rational(1, 3);
    assert_eq!(a.add(&b).unwrap_err(), NumError::Overflow);
}

#[test]
fn product_cancels_before_it_overflows() {
    let r = rational(1i64 << 62, 3).mul(&rational(3, 2)).unwrap();
    assert!(matches!(r, Number::Rational(Fraction { numer: n, denom: 1 }) if n == 1i64 << 61));
}

#[test]
fn has_value_over_every_shape() {
    let shapes: [fn(Box<Term>, Box<Term>) -> Term; 4] =
        [Addition, Multiplication, Exponentiation, RootExtraction];
    for make in shapes {
        assert!(make(val(rational(1, 1)), val(rational(2, 1))).has_value());
        assert!(!make(var("x"), val(rational(2, 1))).has_value());
        assert!(!make(val(rational(1, 1)), var("x")).has_value());
        assert!(make(val(rational(1, 1)), var("x")).get_value().is_none());
    }
    assert!(Value(rational(1, 1)).has_value());
    assert!(!Variable("x".to_string()).has_value());
}

#[test]
fn substituting_an_absent_name_keeps_the_value() {
    let t = Addition(val(rational(1, 3)), Box::new(Multiplication(var("x"), val(rational(2, 1)))));
    let before = t.substitute("x", rational(3, 1)).get_value().unwrap().unwrap();
    let t = Addition(val(rational(1, 3)), Box::new(Multiplication(var("x"), val(rational(2, 1)))));
    let t = t.substitute("y", rational(5, 1)).substitute("x", rational(3, 1));
    assert_eq!(t.get_value().unwrap().unwrap(), before);
    assert_eq!(before, rational(19, 3));
}

#[test]
fn substituting_every_name_binds_the_term() {
    let t = Exponentiation(
        Box::new(Addition(var("x"), var("y"))),
        Box::new(RootExtraction(val(rational(4, 1)), var("x"))),
    );
    assert!(!t.has_value());
    let t = t.substitute("x", rational(2, 1));
    assert!(!t.has_value());
    let t = t.substitute("y", rational(1, 1));
    assert!(t.has_value());
    let v = t.get_value().unwrap().unwrap();
    match v {
        Number::Irrational(a) => assert_eq!(double_of(&a), 9.0),
        _ => panic!("a root of a non-integer degree is approximate"),
    }
}

#[test]
fn multiplication_multiplies() {
    let t = Multiplication(val(rational(2, 1)), val(rational(3, 1)));
    assert_eq!(t.get_value().unwrap().unwrap(), rational(6, 1));
}

#[test]
fn root_of_degree_zero_is_an_error() {
    let t = RootExtraction(val(rational(4, 1)), val(rational(0, 1)));
    assert_eq!(t.get_value().unwrap().unwrap_err(), NumError::ZeroReciprocal);
    let t = RootExtraction(val(rational(8, 1)), val(rational(-1, 1)));
    assert_eq!(t.get_value().unwrap().unwrap(), rational(1, 8));
}
