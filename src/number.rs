use crate::ratio::{
    add_fits, mul_fits, normal_pair, pow_fits, power_of, product_of, recip_of, sum_of, Fraction,
};
use vstd::prelude::*;

verus! {

/// What can go wrong in exact arithmetic.
#[derive(Clone, Copy, Debug, PartialEq, Eq, Structural)]
pub enum NumError {
    /// The reciprocal of zero was asked for (a zero root degree, or zero
    /// raised to a negative power).
    ZeroReciprocal,
    /// An integer exponent outside the 32-bit signed range.
    ExponentOutOfRange,
    /// An exact result whose intermediate products do not fit in 64 bits.
    Overflow,
}

/// A floating-point quantity, kept as the double-precision computation that
/// yields it; the computation itself is carried out by the caller.
#[derive(Debug)]
pub enum Approx {
    /// A double given by its IEEE-754 bits.
    Float(u64),
    /// The double nearest to a fraction.
    Exact(Fraction),
    Sum(Box<Approx>, Box<Approx>),
    Product(Box<Approx>, Box<Approx>),
    /// `base.powf(exponent)`.
    Power(Box<Approx>, Box<Approx>),
    /// `1.0 / x`.
    Reciprocal(Box<Approx>),
}

/// A number: exact while the arithmetic allows, approximate otherwise.
#[derive(Debug)]
pub enum Number {
    Rational(Fraction),
    Irrational(Approx),
}

/// The fraction with the given numerator and denominator.
pub open spec fn frac(p: (int, int)) -> Fraction {
    Fraction { numer: p.0 as i64, denom: p.1 as i64 }
}

/// Whether an approximation is a plain zero (a signed floating zero, or the
/// double of the fraction zero).
pub open spec fn is_plain_zero(a: Approx) -> bool {
    match a {
        Approx::Float(bits) => bits & 0x7fff_ffff_ffff_ffff == 0,
        Approx::Exact(f) => f.numer == 0,
        _ => false,
    }
}

/// The double-precision approximation of a number.
pub open spec fn approx_of(n: Number) -> Approx {
    match n {
        Number::Rational(f) => Approx::Exact(f),
        Number::Irrational(a) => a,
    }
}

pub open spec fn sum_spec(a: Number, b: Number) -> Result<Number, NumError> {
    match (a, b) {
        (Number::Rational(x), Number::Rational(y)) => if add_fits(x, y) {
            Ok(Number::Rational(frac(sum_of(x, y))))
        } else {
            Err(NumError::Overflow)
        },
        _ => Ok(Number::Irrational(Approx::Sum(Box::new(approx_of(a)), Box::new(approx_of(b))))),
    }
}

pub open spec fn product_spec(a: Number, b: Number) -> Result<Number, NumError> {
    match (a, b) {
        (Number::Rational(x), Number::Rational(y)) => if mul_fits(x, y) {
            Ok(Number::Rational(frac(product_of(x, y))))
        } else {
            Err(NumError::Overflow)
        },
        _ => Ok(
            Number::Irrational(Approx::Product(Box::new(approx_of(a)), Box::new(approx_of(b)))),
        ),
    }
}

pub open spec fn power_spec(b: Number, e: Number) -> Result<Number, NumError> {
    match (b, e) {
        (Number::Rational(x), Number::Rational(y)) => if y.denom == 1 {
            if y.numer < i32::MIN || y.numer > i32::MAX {
                Err(NumError::ExponentOutOfRange)
            } else if y.numer < 0 && x.numer == 0 {
                Err(NumError::ZeroReciprocal)
            } else if !pow_fits(x, y.numer as int) {
                Err(NumError::Overflow)
            } else {
                Ok(
                    Number::Rational(
                        frac(normal_pair(power_of(x.numer as int, x.denom as int, y.numer as int))),
                    ),
                )
            }
        } else {
            Ok(Number::Irrational(Approx::Power(Box::new(approx_of(b)), Box::new(approx_of(e)))))
        },
        _ => Ok(Number::Irrational(Approx::Power(Box::new(approx_of(b)), Box::new(approx_of(e))))),
    }
}

pub open spec fn reciprocal_spec(a: Number) -> Result<Number, NumError> {
    match a {
        Number::Rational(x) => if x.numer == 0 {
            Err(NumError::ZeroReciprocal)
        } else {
            Ok(Number::Rational(frac(recip_of(x.numer as int, x.denom as int))))
        },
        Number::Irrational(v) => if is_plain_zero(v) {
            Err(NumError::ZeroReciprocal)
        } else {
            Ok(Number::Irrational(Approx::Reciprocal(Box::new(v))))
        },
    }
}

impl Approx {
    /// A copy of this approximation.
    pub fn duplicate(&self) -> (r: Approx)
        ensures
            r == *self,
        decreases self,
    {
        match self {
            Approx::Float(bits) => Approx::Float(*bits),
            Approx::Exact(f) => Approx::Exact(*f),
            Approx::Sum(a, b) => Approx::Sum(Box::new(a.duplicate()), Box::new(b.duplicate())),
            Approx::Product(a, b) => Approx::Product(
                Box::new(a.duplicate()),
                Box::new(b.duplicate()),
            ),
            Approx::Power(a, b) => Approx::Power(Box::new(a.duplicate()), Box::new(b.duplicate())),
            Approx::Reciprocal(a) => Approx::Reciprocal(Box::new(a.duplicate())),
        }
    }
}

impl Number {
    /// An exact number is a well-formed fraction.
    pub open spec fn wf(&self) -> bool {
        self matches Number::Rational(f) ==> f.wf()
    }

    /// A copy of this number.
    pub fn duplicate(&self) -> (r: Number)
        ensures
            r == *self,
    {
        match self {
            Number::Rational(f) => Number::Rational(*f),
            Number::Irrational(a) => Number::Irrational(a.duplicate()),
        }
    }

    /// The double-precision approximation of this number.
    pub fn approx(&self) -> (r: Approx)
        ensures
            r == approx_of(*self),
    {
        match self {
            Number::Rational(f) => Approx::Exact(*f),
            Number::Irrational(a) => a.duplicate(),
        }
    }

    /// The sum: exact for two fractions (in lowest terms), approximate as
    /// soon as either side is.
    pub fn add(&self, rhs: &Number) -> (r: Result<Number, NumError>)
        requires
            self.wf(),
            rhs.wf(),
        ensures
            r == sum_spec(*self, *rhs),
            r matches Ok(n) ==> n.wf(),
            *self matches Number::Rational(x) ==> (*rhs matches Number::Rational(y) ==> (add_fits(
                x,
                y,
            ) ==> (r matches Ok(Number::Rational(q)) && q@ == sum_of(x, y)))),
            (self is Irrational || rhs is Irrational) ==> r == Ok::<Number, NumError>(
                Number::Irrational(Approx::Sum(Box::new(approx_of(*self)), Box::new(approx_of(*rhs)))),
            ),
    {
        match (self, rhs) {
            (Number::Rational(x), Number::Rational(y)) => match x.checked_add(y) {
                Some(q) => Ok(Number::Rational(q)),
                None => Err(NumError::Overflow),
            },
            _ => Ok(Number::Irrational(Approx::Sum(Box::new(self.approx()), Box::new(rhs.approx())))),
        }
    }

    /// The product, with the same exactness rule as `add`.
    pub fn mul(&self, rhs: &Number) -> (r: Result<Number, NumError>)
        requires
            self.wf(),
            rhs.wf(),
        ensures
            r == product_spec(*self, *rhs),
            r matches Ok(n) ==> n.wf(),
            *self matches Number::Rational(x) ==> (*rhs matches Number::Rational(y) ==> (mul_fits(
                x,
                y,
            ) ==> (r matches Ok(Number::Rational(q)) && q@ == product_of(x, y)))),
    {
        match (self, rhs) {
            (Number::Rational(x), Number::Rational(y)) => match x.checked_mul(y) {
                Some(q) => Ok(Number::Rational(q)),
                None => Err(NumError::Overflow),
            },
            _ => Ok(
                Number::Irrational(Approx::Product(Box::new(self.approx()), Box::new(rhs.approx()))),
            ),
        }
    }

    /// `self` raised to `other`: exact for a fraction raised to a whole
    /// number in the 32-bit range, approximate for any other exponent.
    pub fn pow(&self, other: &Number) -> (r: Result<Number, NumError>)
        requires
            self.wf(),
            other.wf(),
        ensures
            r == power_spec(*self, *other),
            r matches Ok(n) ==> n.wf(),
            *self matches Number::Rational(x) ==> (*other matches Number::Rational(y) ==> ((
            y.denom == 1 && i32::MIN <= y.numer <= i32::MAX && !(y.numer < 0 && x.numer == 0)
                && pow_fits(x, y.numer as int)) ==> (r matches Ok(Number::Rational(q)) && q@
                == normal_pair(power_of(x.numer as int, x.denom as int, y.numer as int))))),
    {
        match (self, other) {
            (Number::Rational(x), Number::Rational(y)) => {
                if y.denom == 1 {
                    if y.numer < i32::MIN as i64 || y.numer > i32::MAX as i64 {
                        Err(NumError::ExponentOutOfRange)
                    } else if y.numer < 0 && x.numer == 0 {
                        Err(NumError::ZeroReciprocal)
                    } else {
                        match x.checked_pow(y.numer as i32) {
                            Some(q) => Ok(Number::Rational(q)),
                            None => Err(NumError::Overflow),
                        }
                    }
                } else {
                    Ok(Number::Irrational(Approx::Power(Box::new(self.approx()), Box::new(other.approx()))))
                }
            },
            _ => Ok(Number::Irrational(Approx::Power(Box::new(self.approx()), Box::new(other.approx())))),
        }
    }

    /// `1 / self`: exact for a fraction, approximate otherwise; zero has none.
    pub fn reciprocal(&self) -> (r: Result<Number, NumError>)
        requires
            self.wf(),
        ensures
            r == reciprocal_spec(*self),
            r matches Ok(n) ==> n.wf(),
            (*self matches Number::Rational(x) && x.numer == 0) ==> r == Err::<Number, NumError>(
                NumError::ZeroReciprocal,
            ),
            *self matches Number::Rational(x) ==> (x.numer != 0 ==> (r matches Ok(
                Number::Rational(q),
            ) && q@ == recip_of(x.numer as int, x.denom as int))),
    {
        match self {
            Number::Rational(x) => {
                if x.numer == 0 {
                    Err(NumError::ZeroReciprocal)
                } else {
                    Ok(Number::Rational(x.recip()))
                }
            },
            Number::Irrational(v) => {
                let zero = match v {
                    Approx::Float(bits) => *bits & 0x7fff_ffff_ffff_ffff == 0,
                    Approx::Exact(f) => f.numer == 0,
                    _ => false,
                };
                if zero {
                    Err(NumError::ZeroReciprocal)
                } else {
                    Ok(Number::Irrational(Approx::Reciprocal(Box::new(v.duplicate()))))
                }
            },
        }
    }

    /// The number read from a double: the fraction found for it where there
    /// is one, the double itself otherwise.
    pub fn from_double(bits: u64, fraction: Option<Fraction>) -> (r: Number)
        ensures
            r == (match fraction {
                Some(f) => Number::Rational(f),
                None => Number::Irrational(Approx::Float(bits)),
            }),
    {
        match fraction {
            Some(f) => Number::Rational(f),
            None => Number::Irrational(Approx::Float(bits)),
        }
    }
}

/// Whether the bits are those of a NaN: all exponent bits set and a nonzero
/// significand.
pub open spec fn is_nan_bits(b: u64) -> bool {
    b & 0x7ff0_0000_0000_0000 == 0x7ff0_0000_0000_0000 && b & 0x000f_ffff_ffff_ffff != 0
}

/// IEEE-754 equality of two doubles given by their bits: both zeros of
/// either sign, or the same bits that are not a NaN.
pub open spec fn float_eq(x: u64, y: u64) -> bool {
    ||| x & 0x7fff_ffff_ffff_ffff == 0 && y & 0x7fff_ffff_ffff_ffff == 0
    ||| x == y && !is_nan_bits(x)
}

/// Equality of two fractions by value.
pub open spec fn fraction_eq(x: Fraction, y: Fraction) -> bool {
    x.numer * y.denom == y.numer * x.denom
}

/// Equality of approximations. Two doubles compare as IEEE-754 does; a
/// computation not yet carried out compares by its structure, node by node,
/// so two computations that would give equal doubles in different ways are
/// not equal here.
pub open spec fn approx_eq(a: Approx, b: Approx) -> bool
    decreases a,
{
    match (a, b) {
        (Approx::Float(x), Approx::Float(y)) => float_eq(x, y),
        (Approx::Exact(x), Approx::Exact(y)) => fraction_eq(x, y),
        (Approx::Sum(a1, a2), Approx::Sum(b1, b2)) => approx_eq(*a1, *b1) && approx_eq(*a2, *b2),
        (Approx::Product(a1, a2), Approx::Product(b1, b2)) => approx_eq(*a1, *b1) && approx_eq(
            *a2,
            *b2,
        ),
        (Approx::Power(a1, a2), Approx::Power(b1, b2)) => approx_eq(*a1, *b1) && approx_eq(
            *a2,
            *b2,
        ),
        (Approx::Reciprocal(a1), Approx::Reciprocal(b1)) => approx_eq(*a1, *b1),
        _ => false,
    }
}

/// Equality of numbers: two fractions are equal when their values are; two
/// approximations as `approx_eq` says; a fraction never equals an
/// approximation.
pub open spec fn number_eq(a: Number, b: Number) -> bool {
    match (a, b) {
        (Number::Rational(x), Number::Rational(y)) => fraction_eq(x, y),
        (Number::Irrational(x), Number::Irrational(y)) => approx_eq(x, y),
        _ => false,
    }
}

/// Equality of two fractions by value.
fn fractions_equal(x: &Fraction, y: &Fraction) -> (r: bool)
    ensures
        r == fraction_eq(*x, *y),
{
    proof {
        lemma_cross_fits(x.numer as int, y.denom as int);
        lemma_cross_fits(y.numer as int, x.denom as int);
    }
    (x.numer as i128) * (y.denom as i128) == (y.numer as i128) * (x.denom as i128)
}

impl Approx {
    /// Whether two approximations are equal, as `approx_eq` says.
    pub fn same(&self, other: &Approx) -> (r: bool)
        ensures
            r == approx_eq(*self, *other),
        decreases self,
    {
        match (self, other) {
            (Approx::Float(x), Approx::Float(y)) => {
                let zeros = *x & 0x7fff_ffff_ffff_ffff == 0 && *y & 0x7fff_ffff_ffff_ffff == 0;
                let nan = *x & 0x7ff0_0000_0000_0000 == 0x7ff0_0000_0000_0000 && *x
                    & 0x000f_ffff_ffff_ffff != 0;
                zeros || (*x == *y && !nan)
            },
            (Approx::Exact(x), Approx::Exact(y)) => fractions_equal(x, y),
            (Approx::Sum(a, b), Approx::Sum(c, d)) => a.same(c) && b.same(d),
            (Approx::Product(a, b), Approx::Product(c, d)) => a.same(c) && b.same(d),
            (Approx::Power(a, b), Approx::Power(c, d)) => a.same(c) && b.same(d),
            (Approx::Reciprocal(a), Approx::Reciprocal(c)) => a.same(c),
            _ => false,
        }
    }
}

impl PartialEq for Number {
    fn eq(&self, other: &Number) -> (r: bool) {
        match (self, other) {
            (Number::Rational(x), Number::Rational(y)) => fractions_equal(x, y),
            (Number::Irrational(x), Number::Irrational(y)) => x.same(y),
            _ => false,
        }
    }
}

impl vstd::std_specs::cmp::PartialEqSpecImpl for Number {
    open spec fn obeys_eq_spec() -> bool {
        true
    }

    open spec fn eq_spec(&self, other: &Number) -> bool {
        number_eq(*self, *other)
    }
}

proof fn lemma_cross_fits(x: int, y: int)
    requires
        i64::MIN <= x <= i64::MAX,
        i64::MIN <= y <= i64::MAX,
    ensures
        i128::MIN < x * y < i128::MAX,
{
    assert(-0x8000_0000_0000_0000 <= x <= 0x8000_0000_0000_0000);
    assert(x * y <= 0x4000_0000_0000_0000_0000_0000_0000_0000) by (nonlinear_arith)
        requires -0x8000_0000_0000_0000 <= x <= 0x8000_0000_0000_0000,
            -0x8000_0000_0000_0000 <= y <= 0x8000_0000_0000_0000;
    assert(x * y >= -0x4000_0000_0000_0000_0000_0000_0000_0000) by (nonlinear_arith)
        requires -0x8000_0000_0000_0000 <= x <= 0x8000_0000_0000_0000,
            -0x8000_0000_0000_0000 <= y <= 0x8000_0000_0000_0000;
}

} // verus!
