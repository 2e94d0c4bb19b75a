use fraction::Ratio;
use vstd::arithmetic::power::{lemma_pow_increases, lemma_pow_positive, pow};
use vstd::prelude::*;

verus! {

/// Greatest common divisor of two naturals, by Euclid's algorithm.
pub open spec fn gcd(a: nat, b: nat) -> nat
    decreases b,
{
    if b == 0 {
        a
    } else {
        gcd(b, a % b)
    }
}

pub open spec fn abs(x: int) -> nat {
    if x < 0 {
        (-x) as nat
    } else {
        x as nat
    }
}

/// A pair `(n, d)` in lowest terms with a positive denominator.
pub open spec fn normal_pair(p: (int, int)) -> (int, int) {
    normal(p.0, p.1)
}

/// `n / d` with both parts divided by their greatest common divisor.
pub open spec fn lowest(n: int, d: int) -> (int, int) {
    let g = gcd(abs(n), abs(d)) as int;
    (n / g, d / g)
}

/// `n / d` in lowest terms with a positive denominator.
pub open spec fn normal(n: int, d: int) -> (int, int) {
    if d < 0 {
        lowest(-n, -d)
    } else {
        lowest(n, d)
    }
}

/// An exact fraction of two 64-bit integers.
#[derive(Clone, Copy, Debug, PartialEq, Eq, Structural)]
pub struct Fraction {
    pub numer: i64,
    pub denom: i64,
}

/// Whether `n / d` is in lowest terms.
pub open spec fn is_reduced(n: int, d: int) -> bool {
    gcd(abs(n), abs(d)) == 1
}

/// The common denominator of a sum: `a.denom * (b.denom / g)`, where `g` is
/// the greatest common divisor of the denominators (their least common
/// multiple).
pub open spec fn add_lcm(a: Fraction, b: Fraction) -> int {
    a.denom * ((b.denom as int) / (gcd(abs(a.denom as int), abs(b.denom as int)) as int))
}

/// The numerator of `a` scaled to the common denominator of `a + b`.
pub open spec fn scaled_lhs(a: Fraction, b: Fraction) -> int {
    a.numer * (add_lcm(a, b) / a.denom as int)
}

/// The numerator of `b` scaled to the common denominator of `a + b`.
pub open spec fn scaled_rhs(a: Fraction, b: Fraction) -> int {
    b.numer * (add_lcm(a, b) / b.denom as int)
}

/// The overflow-free condition for adding two fractions exactly: the common
/// denominator, both scaled numerators and their sum fit in 64 bits.
pub open spec fn add_fits(a: Fraction, b: Fraction) -> bool {
    &&& add_lcm(a, b) <= i64::MAX
    &&& abs(scaled_lhs(a, b)) <= i64::MAX
    &&& abs(scaled_rhs(a, b)) <= i64::MAX
    &&& abs(scaled_lhs(a, b) + scaled_rhs(a, b)) <= i64::MAX
}

/// The magnitude of the numerator of `a * b` once the common factors of each
/// numerator with the other denominator are cancelled.
pub open spec fn cancelled_numer(a: Fraction, b: Fraction) -> nat {
    (abs(a.numer as int) / gcd(abs(a.numer as int), abs(b.denom as int))) * (abs(b.numer as int)
        / gcd(abs(a.denom as int), abs(b.numer as int)))
}

/// The denominator of `a * b` once those common factors are cancelled.
pub open spec fn cancelled_denom(a: Fraction, b: Fraction) -> nat {
    (abs(a.denom as int) / gcd(abs(a.denom as int), abs(b.numer as int))) * (abs(b.denom as int)
        / gcd(abs(a.numer as int), abs(b.denom as int)))
}

/// The overflow-free condition for multiplying two fractions exactly: the
/// products fit in 64 bits after the common factors are cancelled.
pub open spec fn mul_fits(a: Fraction, b: Fraction) -> bool {
    &&& cancelled_numer(a, b) <= i64::MAX
    &&& cancelled_denom(a, b) <= i64::MAX
}

/// The overflow-free condition for raising a fraction to the integer power `e`.
pub open spec fn pow_fits(a: Fraction, e: int) -> bool {
    &&& pow(abs(a.numer as int) as int, abs(e)) <= i64::MAX
    &&& pow(a.denom as int, abs(e)) <= i64::MAX
}

/// The exact sum of two fractions, in lowest terms.
pub open spec fn sum_of(a: Fraction, b: Fraction) -> (int, int) {
    lowest(a.numer * b.denom + b.numer * a.denom, a.denom * b.denom)
}

/// The exact product of two fractions, in lowest terms.
pub open spec fn product_of(a: Fraction, b: Fraction) -> (int, int) {
    lowest(a.numer * b.numer, a.denom * b.denom)
}

/// `n / d` raised to the integer power `e`, the sign kept in the numerator.
pub open spec fn power_of(n: int, d: int, e: int) -> (int, int) {
    let k = abs(e);
    if e >= 0 {
        (pow(n, k), pow(d, k))
    } else if pow(n, k) > 0 {
        (pow(d, k), pow(n, k))
    } else {
        (-pow(d, k), -pow(n, k))
    }
}

/// The reciprocal of `n / d`, the sign kept in the numerator.
pub open spec fn recip_of(n: int, d: int) -> (int, int) {
    if n > 0 {
        (d, n)
    } else {
        (-d, -n)
    }
}

impl Fraction {
    pub open spec fn view(&self) -> (int, int) {
        (self.numer as int, self.denom as int)
    }

    /// A usable fraction: in lowest terms, with a positive denominator and a
    /// numerator whose negation fits in 64 bits.
    pub open spec fn wf(&self) -> bool {
        &&& self.denom > 0
        &&& self.numer > i64::MIN
        &&& is_reduced(self.numer as int, self.denom as int)
    }

    pub open spec fn is_zero(&self) -> bool {
        self.numer == 0
    }

    /// Builds `numer / denom` in lowest terms with a positive denominator.
    pub fn new(numer: i64, denom: i64) -> (r: Fraction)
        requires
            denom != 0,
            numer != i64::MIN,
            denom != i64::MIN,
        ensures
            r@ == normal(numer as int, denom as int),
            r.wf(),
    {
        proof {
            if denom < 0 {
                lemma_lowest_wf(-numer, -denom);
            } else {
                lemma_lowest_wf(numer as int, denom as int);
            }
        }
        ratio_new(numer, denom)
    }

    /// The exact sum in lowest terms, or `None` where the common denominator,
    /// a scaled numerator or their sum would not fit in 64 bits.
    pub fn checked_add(&self, other: &Fraction) -> (r: Option<Fraction>)
        requires
            self.wf(),
            other.wf(),
        ensures
            r is Some <==> add_fits(*self, *other),
            r matches Some(q) ==> q@ == sum_of(*self, *other) && q.wf(),
    {
        let (a, b) = (*self, *other);
        let g = gcd_u64(a.denom as u64, b.denom as u64);
        proof {
            lemma_gcd_positive(a.denom as nat, b.denom as nat);
        }
        let k: u64 = b.denom as u64 / g;
        assert(k <= b.denom) by (nonlinear_arith)
            requires k as int == (b.denom as int) / (g as int), g >= 1, b.denom > 0;
        assert(a.denom * k < 0x4000_0000_0000_0000_0000_0000_0000_0000) by (nonlinear_arith)
            requires 0 < a.denom <= i64::MAX, 0 <= k <= i64::MAX;
        let l: i128 = (a.denom as i128) * (k as i128);
        if l > i64::MAX as i128 {
            return None;
        }
        let ka: i128 = l / (a.denom as i128);
        let kb: i128 = l / (b.denom as i128);
        assert(0 <= ka <= l) by (nonlinear_arith)
            requires ka as int == (l as int) / (a.denom as int), a.denom >= 1, l >= 0;
        assert(0 <= kb <= l) by (nonlinear_arith)
            requires kb as int == (l as int) / (b.denom as int), b.denom >= 1, l >= 0;
        proof {
            lemma_product_bound(a.numer as int, ka as int);
            lemma_product_bound(b.numer as int, kb as int);
        }
        let x: i128 = (a.numer as i128) * ka;
        let y: i128 = (b.numer as i128) * kb;
        let s: i128 = x + y;
        let ax: i128 = if x < 0 { -x } else { x };
        let ay: i128 = if y < 0 { -y } else { y };
        let as_: i128 = if s < 0 { -s } else { s };
        if ax <= i64::MAX as i128 && ay <= i64::MAX as i128 && as_ <= i64::MAX as i128 {
            let r = ratio_add(a, b);
            assert(r.numer > i64::MIN);
            Some(r)
        } else {
            None
        }
    }

    /// The exact product in lowest terms, or `None` where the products of the
    /// numerators or of the denominators, after common factors are cancelled,
    /// would not fit in 64 bits.
    pub fn checked_mul(&self, other: &Fraction) -> (r: Option<Fraction>)
        requires
            self.wf(),
            other.wf(),
        ensures
            r is Some <==> mul_fits(*self, *other),
            r matches Some(q) ==> q@ == product_of(*self, *other) && q.wf(),
    {
        let (a, b) = (*self, *other);
        let na: u64 = if a.numer < 0 { (-a.numer) as u64 } else { a.numer as u64 };
        let nb: u64 = if b.numer < 0 { (-b.numer) as u64 } else { b.numer as u64 };
        let g1 = gcd_u64(na, b.denom as u64);
        let g2 = gcd_u64(a.denom as u64, nb);
        proof {
            lemma_gcd_positive(na as nat, b.denom as nat);
            lemma_gcd_positive(a.denom as nat, nb as nat);
        }
        let (x1, x2) = (na / g1, nb / g2);
        let (y1, y2) = (a.denom as u64 / g2, b.denom as u64 / g1);
        assert(x1 <= 0x8000_0000_0000_0000 && x2 <= 0x8000_0000_0000_0000);
        assert(x1 * x2 < 0x1_0000_0000_0000_0000_0000_0000_0000_0000) by (nonlinear_arith)
            requires x1 <= 0x8000_0000_0000_0000, x2 <= 0x8000_0000_0000_0000;
        assert(y1 * y2 < 0x1_0000_0000_0000_0000_0000_0000_0000_0000) by (nonlinear_arith)
            requires y1 <= 0x8000_0000_0000_0000, y2 <= 0x8000_0000_0000_0000;
        let n: u128 = (x1 as u128) * (x2 as u128);
        let d: u128 = (y1 as u128) * (y2 as u128);
        if n <= i64::MAX as u128 && d <= i64::MAX as u128 {
            Some(ratio_mul(a, b))
        } else {
            None
        }
    }

    /// The exact power `self^e` in lowest terms, or `None` where a power of
    /// the numerator or of the denominator would not fit in 64 bits.
    pub fn checked_pow(&self, e: i32) -> (r: Option<Fraction>)
        requires
            self.wf(),
            e < 0 ==> !self.is_zero(),
        ensures
            r is Some <==> pow_fits(*self, e as int),
            r matches Some(q) ==> q@ == normal_pair(
                power_of(self.numer as int, self.denom as int, e as int),
            ) && q.wf(),
    {
        let a = *self;
        let base: u64 = if a.numer < 0 { (-a.numer) as u64 } else { a.numer as u64 };
        let k: u32 = if e < 0 { (-(e as i64)) as u32 } else { e as u32 };
        assert(base as int == abs(a.numer as int));
        assert(k as nat == abs(e as int));
        if fits_power(base, k) && fits_power(a.denom as u64, k) {
            proof {
                lemma_pow_abs(a.numer as int, k as nat);
                lemma_pow_positive(a.denom as int, k as nat);
                if a.numer != 0 {
                    lemma_pow_positive(abs(a.numer as int) as int, k as nat);
                }
            }
            let p = ratio_pow(a, e);
            Some(Fraction::new(p.numer, p.denom))
        } else {
            None
        }
    }

    /// The exact reciprocal.
    pub fn recip(&self) -> (r: Fraction)
        requires
            self.wf(),
            !self.is_zero(),
        ensures
            r@ == recip_of(self.numer as int, self.denom as int),
            r.wf(),
    {
        proof {
            lemma_gcd_commutes(abs(self.numer as int), abs(self.denom as int));
        }
        ratio_recip(*self)
    }
}

proof fn lemma_product_bound(x: int, y: int)
    requires
        i64::MIN < x <= i64::MAX,
        i64::MIN < y <= i64::MAX,
    ensures
        abs(x * y) < 0x4000_0000_0000_0000_0000_0000_0000_0000,
        x * y == (x as i128) * (y as i128),
{
    assert(abs(x) <= i64::MAX && abs(y) <= i64::MAX);
    assert(abs(x) * abs(y) <= i64::MAX * i64::MAX) by (nonlinear_arith)
        requires 0 <= abs(x) <= i64::MAX, 0 <= abs(y) <= i64::MAX;
    assert(abs(x * y) == abs(x) * abs(y)) by (nonlinear_arith);
}

proof fn lemma_pow_abs(n: int, k: nat)
    ensures
        abs(pow(n, k)) == pow(abs(n) as int, k),
    decreases k,
{
    reveal(pow);
    if k > 0 {
        lemma_pow_abs(n, (k - 1) as nat);
        let p = pow(n, (k - 1) as nat);
        assert(abs(n * p) == abs(n) * abs(p)) by (nonlinear_arith);
    }
}

/// Whether `base^k` fits in an `i64`.
fn fits_power(base: u64, k: u32) -> (r: bool)
    ensures
        r == (pow(base as int, k as nat) <= i64::MAX),
{
    if base <= 1 {
        proof {
            if base == 0 && k > 0 {
                vstd::arithmetic::power::lemma0_pow(k as nat);
            } else if base == 0 {
                vstd::arithmetic::power::lemma_pow0(0);
            } else {
                vstd::arithmetic::power::lemma1_pow(k as nat);
            }
        }
        return true;
    }
    let mut acc: u128 = 1;
    let mut i: u32 = 0;
    proof {
        vstd::arithmetic::power::lemma_pow0(base as int);
    }
    while i < k
        invariant
            2 <= base,
            i <= k,
            acc == pow(base as int, i as nat),
            acc <= i64::MAX,
        decreases k - i,
    {
        assert(acc * base < 0x8000_0000_0000_0000_0000_0000_0000_0000) by (nonlinear_arith)
            requires acc <= i64::MAX, base <= u64::MAX;
        let next: u128 = acc * (base as u128);
        proof {
            reveal(pow);
            assert(pow(base as int, (i + 1) as nat) == base * pow(base as int, i as nat));
        }
        if next > i64::MAX as u128 {
            proof {
                lemma_pow_increases(base as nat, (i + 1) as nat, k as nat);
            }
            return false;
        }
        acc = next;
        i = i + 1;
    }
    true
}

pub proof fn lemma_gcd_positive(a: nat, b: nat)
    requires
        a > 0 || b > 0,
    ensures
        gcd(a, b) >= 1,
{
    if b > 0 {
        lemma_gcd_bounds(a, b);
    } else {
        assert(gcd(a, 0) == a);
    }
}

pub proof fn lemma_gcd_commutes(a: nat, b: nat)
    ensures
        gcd(a, b) == gcd(b, a),
{
    if a == 0 {
        assert(gcd(0, b) == gcd(b, 0));
    } else if b == 0 {
        assert(gcd(0, a) == gcd(a, 0));
    } else if a < b {
        vstd::arithmetic::div_mod::lemma_small_mod(a, b);
        assert(gcd(a, b) == gcd(b, a));
    } else if b < a {
        vstd::arithmetic::div_mod::lemma_small_mod(b, a);
        assert(gcd(b, a) == gcd(a, b));
    }
}

/// Euclid's algorithm.
fn gcd_u64(a: u64, b: u64) -> (r: u64)
    ensures
        r == gcd(a as nat, b as nat),
    decreases b,
{
    if b == 0 {
        a
    } else {
        gcd_u64(b, a % b)
    }
}

pub proof fn lemma_gcd_bounds(a: nat, b: nat)
    requires
        b > 0,
    ensures
        1 <= gcd(a, b) <= b,
    decreases b,
{
    assert(gcd(a, b) == gcd(b, a % b));
    if a % b != 0 {
        lemma_gcd_bounds(b, a % b);
    } else {
        assert(gcd(b, 0) == b);
    }
}

pub proof fn lemma_lowest_wf(n: int, d: int)
    requires
        0 < d <= i64::MAX,
        abs(n) <= i64::MAX,
    ensures
        0 < lowest(n, d).1 <= d,
        abs(lowest(n, d).0) <= abs(n),
{
    let g = gcd(abs(n), abs(d)) as int;
    lemma_gcd_bounds(abs(n), abs(d));
    assert(d / g >= 1) by (nonlinear_arith)
        requires 1 <= g <= d;
    assert(d / g <= d) by (nonlinear_arith)
        requires 1 <= g <= d;
    if n >= 0 {
        assert(0 <= n / g <= n) by (nonlinear_arith)
            requires 1 <= g, n >= 0;
    } else {
        assert(n <= n / g < 0) by (nonlinear_arith)
            requires 1 <= g, n < 0;
    }
}

/// Relies on `fraction::Ratio::<i64>::new` (num-rational): reduces by the
/// greatest common divisor and makes the denominator positive; panics only on a
/// zero denominator.
#[verifier::external_body]
fn ratio_new(numer: i64, denom: i64) -> (r: Fraction)
    requires
        denom != 0,
        numer != i64::MIN,
        denom != i64::MIN,
    ensures
        r@ == normal(numer as int, denom as int),
        is_reduced(r.numer as int, r.denom as int),
{
    let q = Ratio::new(numer, denom);
    Fraction { numer: *q.numer(), denom: *q.denom() }
}

/// Relies on `Add` for `fraction::Ratio<i64>` (num-rational): it brings both
/// numerators to the least common multiple of the denominators (computed as
/// `a.denom * (b.denom / gcd)`; for equal denominators that is the
/// denominator itself and the numerators are kept), adds them and reduces,
/// giving the sum in lowest terms; so it does not overflow where those
/// intermediates fit, and its result is no larger than them.
#[verifier::external_body]
fn ratio_add(a: Fraction, b: Fraction) -> (r: Fraction)
    requires
        a.wf(),
        b.wf(),
        add_fits(a, b),
    ensures
        r@ == sum_of(a, b),
        is_reduced(r.numer as int, r.denom as int),
        abs(r.numer as int) <= abs(scaled_lhs(a, b) + scaled_rhs(a, b)),
        0 < r.denom <= add_lcm(a, b),
{
    let q = Ratio::new_raw(a.numer, a.denom) + Ratio::new_raw(b.numer, b.denom);
    Fraction { numer: *q.numer(), denom: *q.denom() }
}

/// Relies on `Mul` for `fraction::Ratio<i64>` (num-rational): it cancels the
/// common factors of each numerator with the other denominator, multiplies,
/// and reduces, giving the product in lowest terms; so it does not overflow
/// where the cancelled products fit, and its result is no larger than them.
#[verifier::external_body]
fn ratio_mul(a: Fraction, b: Fraction) -> (r: Fraction)
    requires
        a.wf(),
        b.wf(),
        mul_fits(a, b),
    ensures
        r@ == product_of(a, b),
        is_reduced(r.numer as int, r.denom as int),
        abs(r.numer as int) <= cancelled_numer(a, b),
        0 < r.denom <= cancelled_denom(a, b),
{
    let q = Ratio::new_raw(a.numer, a.denom) * Ratio::new_raw(b.numer, b.denom);
    Fraction { numer: *q.numer(), denom: *q.denom() }
}

/// Relies on `fraction::Ratio::<i64>::pow` (num-rational): raises numerator and
/// denominator to `|e|`, and for a negative `e` takes the reciprocal (which
/// panics on zero).
#[verifier::external_body]
fn ratio_pow(a: Fraction, e: i32) -> (r: Fraction)
    requires
        a.wf(),
        e < 0 ==> a.numer != 0,
        pow_fits(a, e as int),
    ensures
        r@ == power_of(a.numer as int, a.denom as int, e as int),
{
    let q = Ratio::new_raw(a.numer, a.denom).pow(e);
    Fraction { numer: *q.numer(), denom: *q.denom() }
}

/// Relies on `fraction::Ratio::<i64>::recip` (num-rational): swaps numerator
/// and denominator, moving the sign to the numerator; panics on zero.
#[verifier::external_body]
fn ratio_recip(a: Fraction) -> (r: Fraction)
    requires
        a.wf(),
        a.numer != 0,
    ensures
        r@ == recip_of(a.numer as int, a.denom as int),
{
    let q = Ratio::new_raw(a.numer, a.denom).recip();
    Fraction { numer: *q.numer(), denom: *q.denom() }
}

} // verus!
