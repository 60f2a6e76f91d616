//! The conversion engine: a table of unit-conversion rules.
//!
//! Every supported conversion is an invertible affine map `x * a + b` with
//! exact rational coefficients.  Rules are registered under a unique
//! (source, target) key; [`ConversionEngine::convert`] dispatches a request
//! to the registered rule and reports an unsupported pair loudly instead of
//! returning a default value.  The standard table holds the six directed
//! temperature rules; the indirect ones are built by composing through
//! Celsius rather than by independent formulas.

use vstd::prelude::*;

use crate::rational::{
    in_i128, lemma_mul_bound, lemma_pos_mul_pos, lemma_rat_eq_trans, rat_add, rat_bounded, rat_eq,
    rat_mul, rat_val_wf, Rat, RatVal,
};
use crate::units::{ConversionError, UnitTag};

verus! {

/// Largest coefficient magnitude a registered rule may hold.
pub const COEFF_LIMIT: i128 = 100_000;

/// Largest numerator magnitude and denominator a converted value may hold.
pub const VALUE_LIMIT: i128 = 1_000_000_000_000_000_000_000_000_000;

/// The mathematical value of an affine map: `x` maps to `a * x + b`.
pub ghost struct AffineVal {
    pub a: RatVal,
    pub b: RatVal,
}

/// An affine map is well formed when its coefficients are well-formed
/// fractions and its slope is nonzero, so that the map is invertible.
pub open spec fn affine_wf(f: AffineVal) -> bool {
    &&& rat_val_wf(f.a)
    &&& rat_val_wf(f.b)
    &&& f.a.num != 0
}

/// Both coefficients of `f` lie within `bound`.
pub open spec fn affine_bounded(f: AffineVal, bound: int) -> bool {
    &&& rat_bounded(f.a, bound)
    &&& rat_bounded(f.b, bound)
}

/// The exact result of applying the map `f` to the value `x`.
pub open spec fn affine_apply(f: AffineVal, x: RatVal) -> RatVal {
    rat_add(rat_mul(f.a, x), f.b)
}

/// The map that applies `inner` first and `outer` second.
pub open spec fn affine_compose(outer: AffineVal, inner: AffineVal) -> AffineVal {
    AffineVal { a: rat_mul(outer.a, inner.a), b: rat_add(rat_mul(outer.a, inner.b), outer.b) }
}

/// The fraction one.
pub open spec fn rat_one() -> RatVal {
    RatVal { num: 1, den: 1 }
}

/// The fraction zero.
pub open spec fn rat_zero() -> RatVal {
    RatVal { num: 0, den: 1 }
}

/// `h` is the identity map up to fraction equality.
pub open spec fn affine_is_identity(h: AffineVal) -> bool {
    &&& rat_eq(h.a, rat_one())
    &&& rat_eq(h.b, rat_zero())
}

/// Applying `f` and then `g` returns every well-formed value unchanged.
pub open spec fn affine_inverts(g: AffineVal, f: AffineVal) -> bool {
    forall|x: RatVal|
        rat_val_wf(x) ==> rat_eq(#[trigger] affine_apply(g, affine_apply(f, x)), x)
}

/// The algebraic inverse of `f`, solving `y == a * x + b` for `x`, with the
/// sign arranged so that the denominators stay positive.
pub open spec fn affine_inv_val(f: AffineVal) -> AffineVal {
    if f.a.num > 0 {
        AffineVal {
            a: RatVal { num: f.a.den, den: f.a.num },
            b: RatVal { num: -(f.b.num * f.a.den), den: f.b.den * f.a.num },
        }
    } else {
        AffineVal {
            a: RatVal { num: -f.a.den, den: -f.a.num },
            b: RatVal { num: f.b.num * f.a.den, den: -(f.b.den * f.a.num) },
        }
    }
}

/// Applying a well-formed map preserves well-formedness of the value.
pub proof fn lemma_apply_wf(f: AffineVal, x: RatVal)
    requires
        affine_wf(f),
        rat_val_wf(x),
    ensures
        rat_val_wf(affine_apply(f, x)),
{
    lemma_pos_mul_pos(f.a.den, x.den);
    lemma_pos_mul_pos(f.a.den * x.den, f.b.den);
}

/// The product of two nonzero integers is nonzero.
pub proof fn lemma_mul_nonzero(a: int, b: int)
    by (nonlinear_arith)
    requires
        a != 0,
        b != 0,
    ensures
        a * b != 0,
{
}

/// Polynomial identity behind [`lemma_apply_congruence`]: scaling equal
/// fractions by the same coefficients keeps their cross-products equal.
proof fn lemma_congruence_core(
    an: int,
    ad: int,
    bn: int,
    bd: int,
    un: int,
    ud: int,
    vn: int,
    vd: int,
)
    requires
        un * vd == vn * ud,
    ensures
        ((an * un) * bd + bn * (ad * ud)) * ((ad * vd) * bd) == ((an * vn) * bd + bn * (ad * vd))
            * ((ad * ud) * bd),
{
    assert(((an * un) * bd + bn * (ad * ud)) * ((ad * vd) * bd) == ((an * un) * bd) * ((ad * vd)
        * bd) + (bn * (ad * ud)) * ((ad * vd) * bd)) by (nonlinear_arith);
    assert(((an * vn) * bd + bn * (ad * vd)) * ((ad * ud) * bd) == ((an * vn) * bd) * ((ad * ud)
        * bd) + (bn * (ad * vd)) * ((ad * ud) * bd)) by (nonlinear_arith);
    assert(((an * un) * bd) * ((ad * vd) * bd) == ((an * ad) * (bd * bd)) * (un * vd))
        by (nonlinear_arith);
    assert(((an * vn) * bd) * ((ad * ud) * bd) == ((an * ad) * (bd * bd)) * (vn * ud))
        by (nonlinear_arith);
    assert(((an * ad) * (bd * bd)) * (un * vd) == ((an * ad) * (bd * bd)) * (vn * ud))
        by (nonlinear_arith)
        requires
            un * vd == vn * ud,
    ;
    assert((bn * (ad * ud)) * ((ad * vd) * bd) == (bn * (ad * vd)) * ((ad * ud) * bd))
        by (nonlinear_arith);
}

/// Applying a map to equal fractions yields equal fractions.
pub proof fn lemma_apply_congruence(f: AffineVal, u: RatVal, v: RatVal)
    requires
        affine_wf(f),
        rat_val_wf(u),
        rat_val_wf(v),
        rat_eq(u, v),
    ensures
        rat_eq(affine_apply(f, u), affine_apply(f, v)),
{
    lemma_congruence_core(f.a.num, f.a.den, f.b.num, f.b.den, u.num, u.den, v.num, v.den);
}

/// Polynomial identity behind [`lemma_compose_apply`]: the numerator and
/// denominator of the one-step application are the two-step ones scaled by
/// the outer slope denominator.
proof fn lemma_compose_num(
    gan: int,
    gad: int,
    gbn: int,
    gbd: int,
    fan: int,
    fad: int,
    fbn: int,
    fbd: int,
    xn: int,
    xd: int,
)
    ensures
        ((gan * fan) * xn) * ((gad * fbd) * gbd) + ((gan * fbn) * gbd + gbn * (gad * fbd)) * ((gad
            * fad) * xd) == gad * ((gan * ((fan * xn) * fbd + fbn * (fad * xd))) * gbd + gbn * (gad
            * ((fad * xd) * fbd))),
        ((gad * fad) * xd) * ((gad * fbd) * gbd) == gad * ((gad * ((fad * xd) * fbd)) * gbd),
{
    // One-step numerator, split into its three monomials.
    assert(((gan * fbn) * gbd + gbn * (gad * fbd)) * ((gad * fad) * xd) == ((gan * fbn) * gbd)
        * ((gad * fad) * xd) + (gbn * (gad * fbd)) * ((gad * fad) * xd)) by (nonlinear_arith);
    // Two-step numerator scaled by the outer slope denominator, likewise.
    // The inner sums are abstracted so each distribution step is generic.
    let s1 = (fan * xn) * fbd;
    let s2 = fbn * (fad * xd);
    let t3 = gbn * (gad * ((fad * xd) * fbd));
    assert(gad * ((gan * (s1 + s2)) * gbd + t3) == gad * ((gan * s1) * gbd) + gad * ((gan * s2)
        * gbd) + gad * t3) by (nonlinear_arith);
    // The monomials agree pairwise, up to reordering of factors.
    assert(((gan * fan) * xn) * ((gad * fbd) * gbd) == gad * ((gan * ((fan * xn) * fbd)) * gbd))
        by (nonlinear_arith);
    assert(((gan * fbn) * gbd) * ((gad * fad) * xd) == gad * ((gan * (fbn * (fad * xd))) * gbd))
        by (nonlinear_arith);
    assert((gbn * (gad * fbd)) * ((gad * fad) * xd) == gad * (gbn * (gad * ((fad * xd) * fbd))))
        by (nonlinear_arith);
    assert(((gad * fad) * xd) * ((gad * fbd) * gbd) == gad * ((gad * ((fad * xd) * fbd)) * gbd))
        by (nonlinear_arith);
}

/// Applying a composed map is the same fraction as applying the two maps in
/// turn.
pub proof fn lemma_compose_apply(outer: AffineVal, inner: AffineVal, x: RatVal)
    requires
        affine_wf(outer),
        affine_wf(inner),
        rat_val_wf(x),
    ensures
        rat_eq(
            affine_apply(affine_compose(outer, inner), x),
            affine_apply(outer, affine_apply(inner, x)),
        ),
{
    let lhs = affine_apply(affine_compose(outer, inner), x);
    let rhs = affine_apply(outer, affine_apply(inner, x));
    lemma_compose_num(
        outer.a.num,
        outer.a.den,
        outer.b.num,
        outer.b.den,
        inner.a.num,
        inner.a.den,
        inner.b.num,
        inner.b.den,
        x.num,
        x.den,
    );
    assert(lhs.num * rhs.den == rhs.num * lhs.den) by (nonlinear_arith)
        requires
            lhs.num == outer.a.den * rhs.num,
            lhs.den == outer.a.den * rhs.den,
    ;
}

/// Applying an identity map returns the value unchanged as a fraction.
pub proof fn lemma_identity_apply(h: AffineVal, x: RatVal)
    by (nonlinear_arith)
    requires
        affine_wf(h),
        affine_is_identity(h),
        rat_val_wf(x),
    ensures
        rat_eq(affine_apply(h, x), x),
{
}

/// A map whose composition with `f` is the identity undoes `f`.
pub proof fn lemma_inverts_from_identity(g: AffineVal, f: AffineVal)
    requires
        affine_wf(g),
        affine_wf(f),
        affine_is_identity(affine_compose(g, f)),
    ensures
        affine_inverts(g, f),
{
    assert forall|x: RatVal| rat_val_wf(x) implies rat_eq(
        #[trigger] affine_apply(g, affine_apply(f, x)),
        x,
    ) by {
        let y = affine_apply(f, x);
        lemma_apply_wf(f, x);
        lemma_apply_wf(g, y);
        let h = affine_compose(g, f);
        lemma_pos_mul_pos(g.a.den, f.a.den);
        lemma_pos_mul_pos(g.a.den, f.b.den);
        lemma_pos_mul_pos(g.a.den * f.b.den, g.b.den);
        lemma_mul_nonzero(g.a.num, f.a.num);
        lemma_apply_wf(h, x);
        lemma_compose_apply(g, f, x);
        lemma_identity_apply(h, x);
        crate::rational::lemma_rat_eq_sym(affine_apply(h, x), affine_apply(g, y));
        lemma_rat_eq_trans(affine_apply(g, y), affine_apply(h, x), x);
    }
}

/// The algebraic inverse of a well-formed map is well formed and composes
/// with the map, in either order, to the identity.
pub proof fn lemma_affine_inv(f: AffineVal)
    requires
        affine_wf(f),
    ensures
        affine_wf(affine_inv_val(f)),
        affine_is_identity(affine_compose(affine_inv_val(f), f)),
        affine_is_identity(affine_compose(f, affine_inv_val(f))),
        affine_inverts(affine_inv_val(f), f),
        affine_inverts(f, affine_inv_val(f)),
{
    let g = affine_inv_val(f);
    assert(affine_wf(g) && affine_is_identity(affine_compose(g, f)) && affine_is_identity(
        affine_compose(f, g),
    )) by (nonlinear_arith)
        requires
            affine_wf(f),
            g == affine_inv_val(f),
    ;
    lemma_inverts_from_identity(g, f);
    lemma_inverts_from_identity(f, g);
}

/// Inverting each part of a composition in turn inverts the whole: when `g1`
/// undoes `f1` and `g2` undoes `f2`, running `f1` then `f2` is undone by
/// running `g2` then `g1`.
pub proof fn lemma_inverts_compose(g1: AffineVal, f1: AffineVal, g2: AffineVal, f2: AffineVal)
    requires
        affine_wf(g1),
        affine_wf(f1),
        affine_wf(g2),
        affine_wf(f2),
        affine_inverts(g1, f1),
        affine_inverts(g2, f2),
    ensures
        affine_inverts(affine_compose(g1, g2), affine_compose(f2, f1)),
{
    let fc = affine_compose(f2, f1);
    let gc = affine_compose(g1, g2);
    lemma_pos_mul_pos(f2.a.den, f1.a.den);
    lemma_pos_mul_pos(f2.a.den, f1.b.den);
    lemma_pos_mul_pos(f2.a.den * f1.b.den, f2.b.den);
    lemma_mul_nonzero(f2.a.num, f1.a.num);
    lemma_pos_mul_pos(g1.a.den, g2.a.den);
    lemma_pos_mul_pos(g1.a.den, g2.b.den);
    lemma_pos_mul_pos(g1.a.den * g2.b.den, g1.b.den);
    lemma_mul_nonzero(g1.a.num, g2.a.num);
    assert forall|x: RatVal| rat_val_wf(x) implies rat_eq(
        #[trigger] affine_apply(gc, affine_apply(fc, x)),
        x,
    ) by {
        let y1 = affine_apply(f1, x);
        let y2 = affine_apply(f2, y1);
        let yc = affine_apply(fc, x);
        lemma_apply_wf(f1, x);
        lemma_apply_wf(f2, y1);
        lemma_apply_wf(fc, x);
        lemma_apply_wf(gc, yc);
        // The composed forward map agrees with the two steps.
        lemma_compose_apply(f2, f1, x);
        // Peel the composed backward map into its two steps.
        lemma_compose_apply(g1, g2, yc);
        let z2 = affine_apply(g2, yc);
        lemma_apply_wf(g2, yc);
        // g2 applied to yc equals g2 applied to y2, which returns y1.
        lemma_apply_congruence(g2, yc, y2);
        lemma_apply_wf(g2, y2);
        assert(rat_eq(affine_apply(g2, y2), y1));
        lemma_rat_eq_trans(z2, affine_apply(g2, y2), y1);
        // g1 applied to z2 therefore equals g1 applied to y1, which is x.
        lemma_apply_congruence(g1, z2, y1);
        lemma_apply_wf(g1, z2);
        lemma_apply_wf(g1, y1);
        assert(rat_eq(affine_apply(g1, y1), x));
        lemma_rat_eq_trans(affine_apply(g1, z2), affine_apply(g1, y1), x);
        lemma_rat_eq_trans(affine_apply(gc, yc), affine_apply(g1, z2), x);
    }
}

/// An invertible affine map with exact rational coefficients: `x` maps to
/// `a * x + b`.
#[derive(Clone, Copy, Debug)]
pub struct Affine {
    pub a: Rat,
    pub b: Rat,
}

impl View for Affine {
    type V = AffineVal;

    open spec fn view(&self) -> AffineVal {
        AffineVal { a: self.a@, b: self.b@ }
    }
}

impl Affine {
    /// A stored map is well formed when its mathematical value is.
    pub open spec fn wf(&self) -> bool {
        affine_wf(self@)
    }

    /// Build the map `x * a + b`.
    pub fn new(a: Rat, b: Rat) -> (r: Affine)
        requires
            a.wf(),
            b.wf(),
            a@.num != 0,
        ensures
            r@ == (AffineVal { a: a@, b: b@ }),
            r.wf(),
    {
        Affine { a, b }
    }

    /// Apply the map to a value, exactly.
    pub fn apply(&self, x: &Rat) -> (r: Rat)
        requires
            self.wf(),
            x.wf(),
            affine_bounded(self@, COEFF_LIMIT as int),
            rat_bounded(x@, VALUE_LIMIT as int),
        ensures
            r@ == affine_apply(self@, x@),
            r.wf(),
    {
        proof {
            let c = COEFF_LIMIT as int;
            let v = VALUE_LIMIT as int;
            lemma_mul_bound(self@.a.num, x@.num, c, v);
            lemma_mul_bound(self@.a.den, x@.den, c, v);
            lemma_mul_bound(self@.a.num * x@.num, self@.b.den, c * v, c);
            lemma_mul_bound(self@.b.num, self@.a.den * x@.den, c, c * v);
            lemma_mul_bound(self@.a.den * x@.den, self@.b.den, c * v, c);
        }
        let scaled = self.a.mul(x);
        scaled.add(&self.b)
    }

    /// The map that applies `inner` first and `self` second.
    pub fn compose(&self, inner: &Affine) -> (r: Affine)
        requires
            self.wf(),
            inner.wf(),
            in_i128(self@.a.num * inner@.a.num),
            in_i128(self@.a.den * inner@.a.den),
            in_i128(self@.a.num * inner@.b.num),
            in_i128(self@.a.den * inner@.b.den),
            in_i128((self@.a.num * inner@.b.num) * self@.b.den),
            in_i128(self@.b.num * (self@.a.den * inner@.b.den)),
            in_i128(
                (self@.a.num * inner@.b.num) * self@.b.den + self@.b.num * (self@.a.den
                    * inner@.b.den),
            ),
            in_i128((self@.a.den * inner@.b.den) * self@.b.den),
        ensures
            r@ == affine_compose(self@, inner@),
            r.wf(),
    {
        proof {
            assert(self@.a.num * inner@.a.num != 0) by (nonlinear_arith)
                requires
                    self@.a.num != 0,
                    inner@.a.num != 0,
            ;
        }
        let slope = self.a.mul(&inner.a);
        let shifted = self.a.mul(&inner.b);
        let offset = shifted.add(&self.b);
        Affine { a: slope, b: offset }
    }

    /// The algebraic inverse of the map.
    pub fn inverse(&self) -> (r: Affine)
        requires
            self.wf(),
            in_i128(-self@.a.num),
            in_i128(self@.b.num * self@.a.den),
            in_i128(-(self@.b.num * self@.a.den)),
            in_i128(self@.b.den * self@.a.num),
            in_i128(-(self@.b.den * self@.a.num)),
        ensures
            r@ == affine_inv_val(self@),
            r.wf(),
            affine_inverts(r@, self@),
            affine_inverts(self@, r@),
    {
        if self.a.num > 0 {
            let inv = Affine {
                a: Rat { num: self.a.den, den: self.a.num },
                b: Rat { num: -(self.b.num * self.a.den), den: self.b.den * self.a.num },
            };
            proof {
                lemma_pos_mul_pos(self@.b.den, self@.a.num);
                lemma_affine_inv(self@);
            }
            inv
        } else {
            proof {
                lemma_pos_mul_pos(self@.b.den, -self@.a.num);
            }
            let inv = Affine {
                a: Rat { num: -self.a.den, den: -self.a.num },
                b: Rat { num: self.b.num * self.a.den, den: -(self.b.den * self.a.num) },
            };
            proof {
                lemma_affine_inv(self@);
            }
            inv
        }
    }
}

/// One registered conversion: a (source, target) key and its rule.
#[derive(Clone, Copy, Debug)]
pub struct ConversionRule {
    pub from: UnitTag,
    pub to: UnitTag,
    pub map: Affine,
}

/// A table of conversion rules with unique (source, target) keys.
#[derive(Debug)]
pub struct ConversionEngine {
    pub rules: Vec<ConversionRule>,
}

impl ConversionEngine {
    /// The rule at index `i` carries the key `(from, to)`.
    pub open spec fn rule_matches(&self, i: int, from: UnitTag, to: UnitTag) -> bool {
        &&& 0 <= i < self.rules@.len()
        &&& self.rules@[i].from == from
        &&& self.rules@[i].to == to
    }

    /// Some rule is registered under the key `(from, to)`.
    pub open spec fn spec_has_rule(&self, from: UnitTag, to: UnitTag) -> bool {
        exists|i: int| self.rule_matches(i, from, to)
    }

    /// The map registered under the key `(from, to)`.
    pub open spec fn spec_rule(&self, from: UnitTag, to: UnitTag) -> AffineVal {
        self.rules@[choose|i: int| self.rule_matches(i, from, to)].map@
    }

    /// Keys are unique and every registered map is well formed and within the
    /// coefficient limit.
    pub open spec fn wf(&self) -> bool {
        &&& forall|i: int, j: int|
            0 <= i < self.rules@.len() && 0 <= j < self.rules@.len() && i != j ==> !(
            #[trigger] self.rules@[i].from == #[trigger] self.rules@[j].from && self.rules@[i].to
                == self.rules@[j].to)
        &&& forall|i: int|
            0 <= i < self.rules@.len() ==> (#[trigger] self.rules@[i].map.wf() && affine_bounded(
                self.rules@[i].map@,
                COEFF_LIMIT as int,
            ))
    }

    /// A matching index is the one `spec_rule` reads.
    pub proof fn lemma_rule_at(&self, from: UnitTag, to: UnitTag, i: int)
        requires
            self.wf(),
            self.rule_matches(i, from, to),
        ensures
            self.spec_has_rule(from, to),
            self.spec_rule(from, to) == self.rules@[i].map@,
    {
        assert(self.spec_has_rule(from, to));
        let j = choose|j: int| self.rule_matches(j, from, to);
        if i != j {
            assert(false);
        }
    }

    /// An empty table.
    pub fn new() -> (r: ConversionEngine)
        ensures
            r.wf(),
            r.rules@.len() == 0,
            forall|f: UnitTag, t: UnitTag| !r.spec_has_rule(f, t),
    {
        ConversionEngine { rules: Vec::new() }
    }

    /// Whether a rule is registered under `(from, to)`.
    pub fn has_rule(&self, from: UnitTag, to: UnitTag) -> (r: bool)
        ensures
            r == self.spec_has_rule(from, to),
    {
        let n = self.rules.len();
        let mut i: usize = 0;
        while i < n
            invariant
                n == self.rules@.len(),
                i <= n,
                forall|k: int| 0 <= k < i ==> !self.rule_matches(k, from, to),
            decreases n - i,
        {
            let rule = &self.rules[i];
            if rule.from == from && rule.to == to {
                assert(self.rule_matches(i as int, from, to));
                return true;
            }
            i = i + 1;
        }
        false
    }

    /// Register a rule under the key `(from, to)`.  Returns false, and leaves
    /// the table unchanged, when the key is already taken.
    pub fn register(&mut self, from: UnitTag, to: UnitTag, map: Affine) -> (ok: bool)
        requires
            old(self).wf(),
            map.wf(),
            affine_bounded(map@, COEFF_LIMIT as int),
        ensures
            final(self).wf(),
            ok == !old(self).spec_has_rule(from, to),
            !ok ==> *final(self) == *old(self),
            ok ==> forall|f: UnitTag, t: UnitTag|
                #[trigger] final(self).spec_has_rule(f, t) == (old(self).spec_has_rule(f, t) || (f
                    == from && t == to)),
            ok ==> final(self).spec_rule(from, to) == map@,
            ok ==> forall|f: UnitTag, t: UnitTag|
                old(self).spec_has_rule(f, t) ==> #[trigger] final(self).spec_rule(f, t) == old(
                    self,
                ).spec_rule(f, t),
    {
        if self.has_rule(from, to) {
            return false;
        }
        let ghost prev = *self;
        let n = self.rules.len();
        self.rules.push(ConversionRule { from, to, map });
        proof {
            let rules = self.rules@;
            assert forall|i: int, j: int|
                0 <= i < rules.len() && 0 <= j < rules.len() && i != j implies !(
            #[trigger] rules[i].from == #[trigger] rules[j].from && rules[i].to
                == rules[j].to) by {
                if i < n && j < n {
                    assert(prev.rules@[i] == rules[i]);
                    assert(prev.rules@[j] == rules[j]);
                } else if i == n as int {
                    if rules[i].from == rules[j].from && rules[i].to == rules[j].to {
                        assert(prev.rule_matches(j, from, to));
                    }
                } else {
                    assert(j == n as int);
                    if rules[i].from == rules[j].from && rules[i].to == rules[j].to {
                        assert(prev.rule_matches(i, from, to));
                    }
                }
            }
            assert(self.rule_matches(n as int, from, to));
            self.lemma_rule_at(from, to, n as int);
            assert forall|f: UnitTag, t: UnitTag|
                #[trigger] self.spec_has_rule(f, t) == (prev.spec_has_rule(f, t) || (f == from && t
                    == to)) by {
                if self.spec_has_rule(f, t) {
                    let i = choose|i: int| self.rule_matches(i, f, t);
                    if i < n {
                        assert(prev.rule_matches(i, f, t));
                    }
                }
                if prev.spec_has_rule(f, t) {
                    let i = choose|i: int| prev.rule_matches(i, f, t);
                    assert(self.rule_matches(i, f, t));
                }
            }
            assert forall|f: UnitTag, t: UnitTag|
                prev.spec_has_rule(f, t) implies #[trigger] self.spec_rule(f, t) == prev.spec_rule(
                f,
                t,
            ) by {
                let i = choose|i: int| prev.rule_matches(i, f, t);
                prev.lemma_rule_at(f, t, i);
                assert(self.rule_matches(i, f, t));
                self.lemma_rule_at(f, t, i);
            }
        }
        true
    }

    /// Convert `value` from unit `from` to unit `to` using the registered
    /// rule, or report the pair as unsupported.
    pub fn convert(&self, value: &Rat, from: UnitTag, to: UnitTag) -> (r: Result<
        Rat,
        ConversionError,
    >)
        requires
            self.wf(),
            value.wf(),
            rat_bounded(value@, VALUE_LIMIT as int),
        ensures
            self.spec_has_rule(from, to) ==> (r matches Ok(y) && y@ == affine_apply(
                self.spec_rule(from, to),
                value@,
            ) && y.wf()),
            !self.spec_has_rule(from, to) ==> r == Err::<Rat, ConversionError>(
                ConversionError::UnsupportedPair,
            ),
    {
        let n = self.rules.len();
        let mut i: usize = 0;
        while i < n
            invariant
                self.wf(),
                value.wf(),
                rat_bounded(value@, VALUE_LIMIT as int),
                n == self.rules@.len(),
                i <= n,
                forall|k: int| 0 <= k < i ==> !self.rule_matches(k, from, to),
            decreases n - i,
        {
            let rule = &self.rules[i];
            if rule.from == from && rule.to == to {
                proof {
                    self.lemma_rule_at(from, to, i as int);
                    assert(self.rules@[i as int].map.wf());
                    assert(affine_bounded(self.rules@[i as int].map@, COEFF_LIMIT as int));
                }
                let converted = rule.map.apply(value);
                return Ok(converted);
            }
            i = i + 1;
        }
        assert(!self.spec_has_rule(from, to)) by {
            if self.spec_has_rule(from, to) {
                let k = choose|k: int| self.rule_matches(k, from, to);
                assert(!self.rule_matches(k, from, to));
            }
        }
        Err(ConversionError::UnsupportedPair)
    }
}

} // verus!
