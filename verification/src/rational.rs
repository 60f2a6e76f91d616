//! Exact rational numbers.
//!
//! A temperature value is a fraction `num / den` of two 128-bit integers with
//! a positive denominator.  All conversion arithmetic is done exactly on this
//! representation; two values are the same temperature when they are equal as
//! fractions, which [`rat_eq`] states by cross-multiplication.

use vstd::prelude::*;

verus! {

/// The mathematical value of a rational number: a numerator and a positive
/// denominator, both unbounded integers.
pub ghost struct RatVal {
    pub num: int,
    pub den: int,
}

/// A rational value is well formed when its denominator is positive.
pub open spec fn rat_val_wf(v: RatVal) -> bool {
    v.den > 0
}

/// Equality of fractions, by cross-multiplication.
pub open spec fn rat_eq(a: RatVal, b: RatVal) -> bool {
    a.num * b.den == b.num * a.den
}

/// The exact product of two rational values.
pub open spec fn rat_mul(a: RatVal, b: RatVal) -> RatVal {
    RatVal { num: a.num * b.num, den: a.den * b.den }
}

/// The exact sum of two rational values.
pub open spec fn rat_add(a: RatVal, b: RatVal) -> RatVal {
    RatVal { num: a.num * b.den + b.num * a.den, den: a.den * b.den }
}

/// Both components of `v` lie within `bound`.
pub open spec fn rat_bounded(v: RatVal, bound: int) -> bool {
    &&& -bound <= v.num <= bound
    &&& 0 < v.den <= bound
}

/// `x` fits in a 128-bit signed integer.
pub open spec fn in_i128(x: int) -> bool {
    i128::MIN <= x <= i128::MAX
}

/// An exact rational number, stored as numerator and denominator.
#[derive(Clone, Copy, Debug)]
pub struct Rat {
    pub num: i128,
    pub den: i128,
}

impl View for Rat {
    type V = RatVal;

    open spec fn view(&self) -> RatVal {
        RatVal { num: self.num as int, den: self.den as int }
    }
}

impl Rat {
    /// A stored rational is well formed when its denominator is positive.
    pub open spec fn wf(&self) -> bool {
        rat_val_wf(self@)
    }

    /// Build the fraction `num / den`.
    pub fn new(num: i128, den: i128) -> (r: Rat)
        requires
            den > 0,
        ensures
            r@ == (RatVal { num: num as int, den: den as int }),
            r.wf(),
    {
        Rat { num, den }
    }

    /// Build the integer `n` as a fraction with denominator one.
    pub fn from_int(n: i128) -> (r: Rat)
        ensures
            r@ == (RatVal { num: n as int, den: 1int }),
            r.wf(),
    {
        Rat { num: n, den: 1 }
    }

    /// Exact product of two rationals.
    pub fn mul(&self, other: &Rat) -> (r: Rat)
        requires
            self.wf(),
            other.wf(),
            in_i128(self@.num * other@.num),
            in_i128(self@.den * other@.den),
        ensures
            r@ == rat_mul(self@, other@),
            r.wf(),
    {
        proof {
            lemma_pos_mul_pos(self@.den, other@.den);
        }
        Rat { num: self.num * other.num, den: self.den * other.den }
    }

    /// Exact sum of two rationals.
    pub fn add(&self, other: &Rat) -> (r: Rat)
        requires
            self.wf(),
            other.wf(),
            in_i128(self@.num * other@.den),
            in_i128(other@.num * self@.den),
            in_i128(self@.num * other@.den + other@.num * self@.den),
            in_i128(self@.den * other@.den),
        ensures
            r@ == rat_add(self@, other@),
            r.wf(),
    {
        proof {
            lemma_pos_mul_pos(self@.den, other@.den);
        }
        Rat { num: self.num * other.den + other.num * self.den, den: self.den * other.den }
    }

    /// Whether two rationals are the same fraction, even when the stored
    /// numerators and denominators differ.
    pub fn eq_rat(&self, other: &Rat) -> (r: bool)
        requires
            self.wf(),
            other.wf(),
            in_i128(self@.num * other@.den),
            in_i128(other@.num * self@.den),
        ensures
            r == rat_eq(self@, other@),
    {
        self.num * other.den == other.num * self.den
    }
}

/// The product of two positive integers is positive.
pub proof fn lemma_pos_mul_pos(a: int, b: int)
    by (nonlinear_arith)
    requires
        a > 0,
        b > 0,
    ensures
        a * b > 0,
{
}

/// Bound on a product from bounds on the factors.
pub proof fn lemma_mul_bound(x: int, y: int, bx: int, by: int)
    by (nonlinear_arith)
    requires
        -bx <= x <= bx,
        -by <= y <= by,
        0 <= bx,
        0 <= by,
    ensures
        -(bx * by) <= x * y <= bx * by,
{
}

/// Fraction equality is transitive when the middle denominator is nonzero.
pub proof fn lemma_rat_eq_trans(a: RatVal, b: RatVal, c: RatVal)
    by (nonlinear_arith)
    requires
        rat_val_wf(a),
        rat_val_wf(b),
        rat_val_wf(c),
        rat_eq(a, b),
        rat_eq(b, c),
    ensures
        rat_eq(a, c),
{
}

/// Fraction equality is symmetric.
pub proof fn lemma_rat_eq_sym(a: RatVal, b: RatVal)
    requires
        rat_eq(a, b),
    ensures
        rat_eq(b, a),
{
}

} // verus!
