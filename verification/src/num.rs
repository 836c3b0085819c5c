//! Capability traits for matrix elements. Each matrix operation asks only
//! for the capabilities it uses: plain construction needs an additive
//! identity, arithmetic needs ring operations, and inversion adds division.
//!
//! Every executable operation carries an `_ok` predicate naming the operands
//! it can be applied to on this machine (overflow limits, nonzero divisors);
//! the operation is callable exactly on those operands and its result is
//! pinned to the matching spec-level function.

use vstd::prelude::*;

verus! {

/// An element type with an additive identity and an exact test for it.
pub trait Zero: Copy + Sized {
    /// The canonical additive identity value.
    spec fn zero_v() -> Self;

    /// Whether `self` is the additive identity. For types with several
    /// representations of zero this is wider than equality with `zero_v()`.
    spec fn eq_zero(self) -> bool;

    /// The canonical zero is a zero.
    proof fn zero_is_zero()
        ensures
            Self::zero_v().eq_zero(),
    ;

    /// Produces the additive identity.
    fn zero() -> (r: Self)
        ensures
            r == Self::zero_v(),
    ;

    /// Exact test against the additive identity.
    fn is_zero(&self) -> (r: bool)
        ensures
            r == self.eq_zero(),
    ;
}

/// An element type with a multiplicative identity.
pub trait One: Copy + Sized {
    /// The canonical multiplicative identity value.
    spec fn one_v() -> Self;

    /// Produces the multiplicative identity.
    fn one() -> (r: Self)
        ensures
            r == Self::one_v(),
    ;
}

/// Ring-like operations. An operation is callable exactly when its `_ok`
/// predicate holds of the operands, and then returns the value of the
/// matching spec function.
pub trait Arith: Copy + Sized {
    /// The sum of `self` and `o`.
    spec fn add_v(self, o: Self) -> Self;

    /// The difference of `self` and `o`.
    spec fn sub_v(self, o: Self) -> Self;

    /// The product of `self` and `o`.
    spec fn mul_v(self, o: Self) -> Self;

    /// The additive inverse of `self`.
    spec fn neg_v(self) -> Self;

    /// The operands on which `add` may be called.
    spec fn add_ok(self, o: Self) -> bool;

    /// The operands on which `sub` may be called.
    spec fn sub_ok(self, o: Self) -> bool;

    /// The operands on which `mul` may be called.
    spec fn mul_ok(self, o: Self) -> bool;

    /// The operands on which `neg` may be called.
    spec fn neg_ok(self) -> bool;

    /// Addition.
    fn add(self, o: Self) -> (r: Self)
        requires
            self.add_ok(o),
        ensures
            r == self.add_v(o),
    ;

    /// Subtraction.
    fn sub(self, o: Self) -> (r: Self)
        requires
            self.sub_ok(o),
        ensures
            r == self.sub_v(o),
    ;

    /// Multiplication.
    fn mul(self, o: Self) -> (r: Self)
        requires
            self.mul_ok(o),
        ensures
            r == self.mul_v(o),
    ;

    /// Negation.
    fn neg(self) -> (r: Self)
        requires
            self.neg_ok(),
        ensures
            r == self.neg_v(),
    ;
}

/// Algebraic laws connecting the identities with the ring operations, up to
/// an equivalence `eqv`: plain equality for canonical types such as `i64`,
/// equality of cross-products for fractions. Each law holds on the operands
/// whose operation is feasible (`_ok`), which is all a verified caller can
/// ever apply the operations to.
pub trait Numeric: Zero + One + Arith {
    /// Mathematical equality of element values.
    spec fn eqv(self, o: Self) -> bool;

    /// `eqv` is transitive.
    proof fn eqv_trans(a: Self, b: Self, c: Self)
        requires
            a.eqv(b),
            b.eqv(c),
        ensures
            a.eqv(c),
    ;

    /// Everything equivalent to a zero is a zero.
    proof fn eqv_zero(a: Self, b: Self)
        requires
            a.eqv(b),
            b.eq_zero(),
        ensures
            a.eq_zero(),
    ;

    /// Adding a zero on the right keeps the value.
    proof fn add_zero_right(x: Self, z: Self)
        requires
            z.eq_zero(),
            x.add_ok(z),
        ensures
            x.add_v(z).eqv(x),
    ;

    /// Adding to a zero on the left keeps the value.
    proof fn add_zero_left(z: Self, x: Self)
        requires
            z.eq_zero(),
            z.add_ok(x),
        ensures
            z.add_v(x).eqv(x),
    ;

    /// Multiplying by the canonical one on the right keeps the value.
    proof fn mul_one_right(x: Self)
        requires
            x.mul_ok(Self::one_v()),
        ensures
            x.mul_v(Self::one_v()).eqv(x),
    ;

    /// Multiplying the canonical one by a value gives that value.
    proof fn mul_one_left(x: Self)
        requires
            Self::one_v().mul_ok(x),
        ensures
            Self::one_v().mul_v(x).eqv(x),
    ;

    /// Multiplying by a zero on the right gives a zero.
    proof fn mul_zero_right(x: Self, z: Self)
        requires
            z.eq_zero(),
        ensures
            x.mul_v(z).eq_zero(),
    ;

    /// Multiplying a zero by a value gives a zero.
    proof fn mul_zero_left(z: Self, x: Self)
        requires
            z.eq_zero(),
        ensures
            z.mul_v(x).eq_zero(),
    ;
}

/// Division, the extra capability the inversion engine needs.
pub trait Divisible: Zero + One + Arith {
    /// The quotient of `self` and `o`.
    spec fn div_v(self, o: Self) -> Self;

    /// The operands on which `div` may be called; a divisor that is a zero
    /// is never among them.
    spec fn div_ok(self, o: Self) -> bool;

    /// Division.
    fn div(self, o: Self) -> (r: Self)
        requires
            self.div_ok(o),
        ensures
            r == self.div_v(o),
    ;
}

impl Zero for i64 {
    open spec fn zero_v() -> i64 {
        0
    }

    open spec fn eq_zero(self) -> bool {
        self == 0
    }

    proof fn zero_is_zero() {
    }

    fn zero() -> i64 {
        0
    }

    fn is_zero(&self) -> bool {
        *self == 0
    }
}

impl One for i64 {
    open spec fn one_v() -> i64 {
        1
    }

    fn one() -> i64 {
        1
    }
}

impl Arith for i64 {
    open spec fn add_v(self, o: i64) -> i64 {
        (self + o) as i64
    }

    open spec fn sub_v(self, o: i64) -> i64 {
        (self - o) as i64
    }

    open spec fn mul_v(self, o: i64) -> i64 {
        (self * o) as i64
    }

    open spec fn neg_v(self) -> i64 {
        (-self) as i64
    }

    open spec fn add_ok(self, o: i64) -> bool {
        i64::MIN <= self + o <= i64::MAX
    }

    open spec fn sub_ok(self, o: i64) -> bool {
        i64::MIN <= self - o <= i64::MAX
    }

    open spec fn mul_ok(self, o: i64) -> bool {
        i64::MIN <= self * o <= i64::MAX
    }

    open spec fn neg_ok(self) -> bool {
        self != i64::MIN
    }

    fn add(self, o: i64) -> i64 {
        self + o
    }

    fn sub(self, o: i64) -> i64 {
        self - o
    }

    fn mul(self, o: i64) -> i64 {
        self * o
    }

    fn neg(self) -> i64 {
        -self
    }
}

impl Numeric for i64 {
    open spec fn eqv(self, o: i64) -> bool {
        self == o
    }

    proof fn eqv_trans(a: i64, b: i64, c: i64) {
    }

    proof fn eqv_zero(a: i64, b: i64) {
    }

    proof fn add_zero_right(x: i64, z: i64) {
    }

    proof fn add_zero_left(z: i64, x: i64) {
    }

    proof fn mul_one_right(x: i64) {
    }

    proof fn mul_one_left(x: i64) {
    }

    proof fn mul_zero_right(x: i64, z: i64) {
    }

    proof fn mul_zero_left(z: i64, x: i64) {
    }
}

} // verus!
