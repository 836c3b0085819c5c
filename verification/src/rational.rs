//! Exact fractions over machine integers: an element type on which the
//! inversion engine produces exact results, with no tolerance or epsilon
//! handling needed.

use vstd::prelude::*;

use crate::num::Arith;
use crate::num::Divisible;
use crate::num::Numeric;
use crate::num::One;
use crate::num::Zero;

verus! {

/// Whether a mathematical integer fits an `i128`.
pub open spec fn fits_i128(x: int) -> bool {
    i128::MIN <= x <= i128::MAX
}

/// An exact fraction `num / den` of machine integers. The constructors and
/// the arithmetic operations keep `den` strictly positive; fractions are
/// not reduced, and mathematical equality is equality of cross-products
/// (`eqv`).
#[derive(Clone, Copy, Debug, Hash, PartialEq, Eq)]
pub struct Rational {
    /// The numerator.
    pub num: i128,
    /// The denominator; kept strictly positive by every operation.
    pub den: i128,
}

impl Rational {
    /// The numerator, as a mathematical integer.
    pub open spec fn num_v(self) -> int {
        self.num as int
    }

    /// The denominator, as a mathematical integer.
    pub open spec fn den_v(self) -> int {
        self.den as int
    }

    /// The fraction `n / d`, brought to a positive denominator.
    pub fn new(n: i64, d: i64) -> (r: Rational)
        requires
            d != 0,
        ensures
            d > 0 ==> r.num_v() == n && r.den_v() == d,
            d < 0 ==> r.num_v() == -(n as int) && r.den_v() == -(d as int),
            r.den_v() > 0,
    {
        if d > 0 {
            Rational { num: n as i128, den: d as i128 }
        } else {
            Rational { num: -(n as i128), den: -(d as i128) }
        }
    }

    /// The fraction `n / 1`.
    pub fn from_int(n: i64) -> (r: Rational)
        ensures
            r.num_v() == n,
            r.den_v() == 1,
    {
        Rational { num: n as i128, den: 1 }
    }

    /// The numerator.
    pub fn numer(&self) -> (x: i128)
        ensures
            x == self.num_v(),
    {
        self.num
    }

    /// The denominator.
    pub fn denom(&self) -> (x: i128)
        ensures
            x == self.den_v(),
    {
        self.den
    }
}

impl Zero for Rational {
    open spec fn zero_v() -> Rational {
        Rational { num: 0, den: 1 }
    }

    open spec fn eq_zero(self) -> bool {
        self.num == 0
    }

    proof fn zero_is_zero() {
    }

    fn zero() -> Rational {
        Rational { num: 0, den: 1 }
    }

    fn is_zero(&self) -> bool {
        self.num == 0
    }
}

impl One for Rational {
    open spec fn one_v() -> Rational {
        Rational { num: 1, den: 1 }
    }

    fn one() -> Rational {
        Rational { num: 1, den: 1 }
    }
}

impl Arith for Rational {
    open spec fn add_v(self, o: Rational) -> Rational {
        Rational {
            num: (self.num * o.den + o.num * self.den) as i128,
            den: (self.den * o.den) as i128,
        }
    }

    open spec fn sub_v(self, o: Rational) -> Rational {
        Rational {
            num: (self.num * o.den - o.num * self.den) as i128,
            den: (self.den * o.den) as i128,
        }
    }

    open spec fn mul_v(self, o: Rational) -> Rational {
        Rational { num: (self.num * o.num) as i128, den: (self.den * o.den) as i128 }
    }

    open spec fn neg_v(self) -> Rational {
        Rational { num: (-self.num) as i128, den: self.den }
    }

    open spec fn add_ok(self, o: Rational) -> bool {
        &&& self.den > 0
        &&& o.den > 0
        &&& fits_i128(self.num * o.den)
        &&& fits_i128(o.num * self.den)
        &&& fits_i128(self.num * o.den + o.num * self.den)
        &&& fits_i128(self.den * o.den)
    }

    open spec fn sub_ok(self, o: Rational) -> bool {
        &&& self.den > 0
        &&& o.den > 0
        &&& fits_i128(self.num * o.den)
        &&& fits_i128(o.num * self.den)
        &&& fits_i128(self.num * o.den - o.num * self.den)
        &&& fits_i128(self.den * o.den)
    }

    open spec fn mul_ok(self, o: Rational) -> bool {
        &&& self.den > 0
        &&& o.den > 0
        &&& fits_i128(self.num * o.num)
        &&& fits_i128(self.den * o.den)
    }

    open spec fn neg_ok(self) -> bool {
        self.den > 0 && fits_i128(-self.num)
    }

    fn add(self, o: Rational) -> Rational {
        let n = self.num * o.den + o.num * self.den;
        let d = self.den * o.den;
        Rational { num: n, den: d }
    }

    fn sub(self, o: Rational) -> Rational {
        let n = self.num * o.den - o.num * self.den;
        let d = self.den * o.den;
        Rational { num: n, den: d }
    }

    fn mul(self, o: Rational) -> Rational {
        Rational { num: self.num * o.num, den: self.den * o.den }
    }

    fn neg(self) -> Rational {
        Rational { num: -self.num, den: self.den }
    }
}

impl Divisible for Rational {
    open spec fn div_v(self, o: Rational) -> Rational {
        if o.num > 0 {
            Rational { num: (self.num * o.den) as i128, den: (self.den * o.num) as i128 }
        } else {
            Rational { num: (-(self.num * o.den)) as i128, den: (-(self.den * o.num)) as i128 }
        }
    }

    open spec fn div_ok(self, o: Rational) -> bool {
        &&& self.den > 0
        &&& o.den > 0
        &&& o.num != 0
        &&& fits_i128(self.num * o.den)
        &&& fits_i128(self.den * o.num)
        &&& fits_i128(-(self.num * o.den))
        &&& fits_i128(-(self.den * o.num))
    }

    fn div(self, o: Rational) -> Rational {
        let n = self.num * o.den;
        let d = self.den * o.num;
        if o.num > 0 {
            Rational { num: n, den: d }
        } else {
            Rational { num: -n, den: -d }
        }
    }
}

impl Numeric for Rational {
    open spec fn eqv(self, o: Rational) -> bool {
        self.den > 0 && o.den > 0 && self.num * o.den == o.num * self.den
    }

    proof fn eqv_trans(a: Rational, b: Rational, c: Rational) {
        assert((a.num * c.den - c.num * a.den) * b.den == 0) by (nonlinear_arith)
            requires
                a.num * b.den == b.num * a.den,
                b.num * c.den == c.num * b.den,
        ;
        assert(a.num * c.den == c.num * a.den) by (nonlinear_arith)
            requires
                (a.num * c.den - c.num * a.den) * b.den == 0,
                b.den > 0,
        ;
    }

    proof fn eqv_zero(a: Rational, b: Rational) {
        assert(a.num == 0) by (nonlinear_arith)
            requires
                a.num * b.den == b.num * a.den,
                b.num == 0,
                b.den > 0,
        ;
    }

    proof fn add_zero_right(x: Rational, z: Rational) {
        assert(x.den * z.den > 0) by (nonlinear_arith)
            requires
                x.den > 0,
                z.den > 0,
        ;
        assert((x.num * z.den + z.num * x.den) * x.den == x.num * (x.den * z.den))
            by (nonlinear_arith)
            requires
                z.num == 0,
        ;
    }

    proof fn add_zero_left(z: Rational, x: Rational) {
        assert(z.den * x.den > 0) by (nonlinear_arith)
            requires
                x.den > 0,
                z.den > 0,
        ;
        assert((z.num * x.den + x.num * z.den) * x.den == x.num * (z.den * x.den))
            by (nonlinear_arith)
            requires
                z.num == 0,
        ;
    }

    proof fn mul_one_right(x: Rational) {
    }

    proof fn mul_one_left(x: Rational) {
    }

    proof fn mul_zero_right(x: Rational, z: Rational) {
    }

    proof fn mul_zero_left(z: Rational, x: Rational) {
    }
}

} // verus!
