//! Rational numbers, used by the timers to carry exact frequencies.

use vstd::prelude::*;

verus! {

/// Bound on the magnitude of numerators and denominators, so that products of
/// two of them always fit in an `i64`.
pub const RATIONAL_MAX: i64 = 0x7fffffff;

/// A rational number: a numerator over a denominator.
///
/// The fraction is kept as given, without reduction; the denominator is never
/// zero in a well-formed value.
#[derive(Clone, Copy, Debug)]
pub struct Rational {
    /// The numerator.
    a: i64,
    /// The denominator.
    b: i64,
}

impl Rational {
    /// The numerator, as a mathematical integer.
    pub closed spec fn num(&self) -> int {
        self.a as int
    }

    /// The denominator, as a mathematical integer.
    pub closed spec fn den(&self) -> int {
        self.b as int
    }

    /// Whether the value's parts are in bounds and the denominator is not zero.
    pub open spec fn well_formed(&self) -> bool {
        &&& -RATIONAL_MAX <= self.num() <= RATIONAL_MAX
        &&& -RATIONAL_MAX <= self.den() <= RATIONAL_MAX
        &&& self.den() != 0
    }

    /// Creates an instance from a given integer.
    pub fn from_integer(n: i64) -> (r: Self)
        requires
            -RATIONAL_MAX <= n <= RATIONAL_MAX,
        ensures
            r.num() == n,
            r.den() == 1,
            r.well_formed(),
    {
        Rational { a: n, b: 1 }
    }

    /// Creates an instance from the given numerator and denominator.
    pub fn from_integers(a: i64, b: i64) -> (r: Self)
        requires
            -RATIONAL_MAX <= a <= RATIONAL_MAX,
            -RATIONAL_MAX <= b <= RATIONAL_MAX,
            b != 0,
        ensures
            r.num() == a,
            r.den() == b,
            r.well_formed(),
    {
        Rational { a, b }
    }

    /// Returns the numerator.
    pub fn get_numerator(&self) -> (r: i64)
        ensures
            r == self.num(),
    {
        self.a
    }

    /// Returns the denominator.
    pub fn get_denominator(&self) -> (r: i64)
        ensures
            r == self.den(),
    {
        self.b
    }

    /// Truncates the fraction into an integer.
    pub fn as_integer(&self) -> (r: i64)
        requires
            self.well_formed(),
            self.num() >= 0,
            self.den() > 0,
        ensures
            r == self.num() / self.den(),
    {
        self.a / self.b
    }

    /// Whether the value is exactly zero.
    pub fn is_zero(&self) -> (r: bool)
        ensures
            r == (self.num() == 0),
    {
        self.a == 0
    }

    /// Divides the fraction by `other`: `(a1/b1) / (a2/b2) == (a1*b2)/(b1*a2)`.
    pub fn div(&self, other: &Rational) -> (r: Self)
        requires
            self.well_formed(),
            other.well_formed(),
            other.num() != 0,
        ensures
            r.num() == self.num() * other.den(),
            r.den() == self.den() * other.num(),
            r.den() != 0,
    {
        proof {
            lemma_bounded_product(self.a as int, other.b as int);
            lemma_bounded_product(self.b as int, other.a as int);
            vstd::arithmetic::mul::lemma_mul_nonzero(self.b as int, other.a as int);
        }
        Rational { a: self.a * other.b, b: self.b * other.a }
    }
}

/// The product of two values bounded by `RATIONAL_MAX` in magnitude fits in
/// an `i64`.
proof fn lemma_bounded_product(x: int, y: int)
    requires
        -RATIONAL_MAX <= x <= RATIONAL_MAX,
        -RATIONAL_MAX <= y <= RATIONAL_MAX,
    ensures
        i64::MIN <= x * y <= i64::MAX,
{
    let m = RATIONAL_MAX as int;
    vstd::arithmetic::mul::lemma_mul_upper_bound(if x >= 0 { x } else { -x }, m, if y >= 0 { y } else { -y }, m);
    assert(x * y <= (if x >= 0 { x } else { -x }) * (if y >= 0 { y } else { -y })) by (nonlinear_arith);
    assert(-((if x >= 0 { x } else { -x }) * (if y >= 0 { y } else { -y })) <= x * y) by (nonlinear_arith);
    assert(m * m <= i64::MAX);
}

} // verus!
