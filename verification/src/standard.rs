//! The standard temperature table: the six directed rules among Celsius,
//! Fahrenheit and Kelvin.
//!
//! Only the two base formulas are written down: Celsius to Fahrenheit is
//! `x * 9/5 + 32` and Celsius to Kelvin is `x + 5463/20` (that is,
//! `x + 273.15`).  The other four rules are derived algebraically, by
//! inversion and by composition through Celsius, so no formula is duplicated
//! and the round-trip and composition laws below hold by construction.

use vstd::prelude::*;

use crate::engine::{
    affine_apply, affine_compose, affine_inv_val, affine_inverts, affine_wf, lemma_affine_inv,
    lemma_compose_apply, lemma_inverts_compose, Affine, AffineVal, ConversionEngine,
};
use crate::rational::{rat_eq, rat_val_wf, Rat, RatVal};
use crate::units::UnitTag;

verus! {

/// Celsius to Fahrenheit: `x * 9/5 + 32`.
pub open spec fn c_to_f_val() -> AffineVal {
    AffineVal { a: RatVal { num: 9, den: 5 }, b: RatVal { num: 32, den: 1 } }
}

/// Celsius to Kelvin: `x + 5463/20`.
pub open spec fn c_to_k_val() -> AffineVal {
    AffineVal { a: RatVal { num: 1, den: 1 }, b: RatVal { num: 5463, den: 20 } }
}

/// Fahrenheit to Celsius: the inverse of [`c_to_f_val`].
pub open spec fn f_to_c_val() -> AffineVal {
    affine_inv_val(c_to_f_val())
}

/// Kelvin to Celsius: the inverse of [`c_to_k_val`].
pub open spec fn k_to_c_val() -> AffineVal {
    affine_inv_val(c_to_k_val())
}

/// Fahrenheit to Kelvin: through Celsius, not an independent formula.
pub open spec fn f_to_k_val() -> AffineVal {
    affine_compose(c_to_k_val(), f_to_c_val())
}

/// Kelvin to Fahrenheit: through Celsius, not an independent formula.
pub open spec fn k_to_f_val() -> AffineVal {
    affine_compose(c_to_f_val(), k_to_c_val())
}

/// The rule the standard table registers for a (source, target) pair.
pub open spec fn standard_rule(from: UnitTag, to: UnitTag) -> Option<AffineVal> {
    match (from, to) {
        (UnitTag::Celsius, UnitTag::Fahrenheit) => Some(c_to_f_val()),
        (UnitTag::Celsius, UnitTag::Kelvin) => Some(c_to_k_val()),
        (UnitTag::Fahrenheit, UnitTag::Celsius) => Some(f_to_c_val()),
        (UnitTag::Fahrenheit, UnitTag::Kelvin) => Some(f_to_k_val()),
        (UnitTag::Kelvin, UnitTag::Celsius) => Some(k_to_c_val()),
        (UnitTag::Kelvin, UnitTag::Fahrenheit) => Some(k_to_f_val()),
        _ => None,
    }
}

impl ConversionEngine {
    /// The standard table, holding exactly the six directed temperature
    /// rules of [`standard_rule`].
    pub fn standard() -> (e: ConversionEngine)
        ensures
            e.wf(),
            forall|f: UnitTag, t: UnitTag|
                #[trigger] e.spec_has_rule(f, t) <==> standard_rule(f, t) is Some,
            forall|f: UnitTag, t: UnitTag|
                standard_rule(f, t) matches Some(m) ==> #[trigger] e.spec_rule(f, t) == m,
    {
        let mut e = ConversionEngine::new();
        let c_to_f = Affine::new(Rat::new(9, 5), Rat::new(32, 1));
        let c_to_k = Affine::new(Rat::new(1, 1), Rat::new(5463, 20));
        let f_to_c = c_to_f.inverse();
        let k_to_c = c_to_k.inverse();
        let f_to_k = c_to_k.compose(&f_to_c);
        let k_to_f = c_to_f.compose(&k_to_c);
        let ok1 = e.register(UnitTag::Celsius, UnitTag::Fahrenheit, c_to_f);
        let ok2 = e.register(UnitTag::Celsius, UnitTag::Kelvin, c_to_k);
        let ok3 = e.register(UnitTag::Fahrenheit, UnitTag::Celsius, f_to_c);
        let ok4 = e.register(UnitTag::Fahrenheit, UnitTag::Kelvin, f_to_k);
        let ok5 = e.register(UnitTag::Kelvin, UnitTag::Celsius, k_to_c);
        let ok6 = e.register(UnitTag::Kelvin, UnitTag::Fahrenheit, k_to_f);
        proof {
            assert(ok1 && ok2 && ok3 && ok4 && ok5 && ok6);
        }
        e
    }
}

/// For every pair of distinct units the standard table holds a rule each
/// way, and the two rules are inverse maps of one another.
pub proof fn lemma_standard_inverse(from: UnitTag, to: UnitTag)
    requires
        from != to,
    ensures
        standard_rule(from, to) matches Some(f) && affine_wf(f),
        standard_rule(to, from) matches Some(g) && affine_wf(g),
        affine_inverts(standard_rule(to, from)->Some_0, standard_rule(from, to)->Some_0),
{
    lemma_affine_inv(c_to_f_val());
    lemma_affine_inv(c_to_k_val());
    match (from, to) {
        (UnitTag::Celsius, UnitTag::Fahrenheit) => {
        },
        (UnitTag::Fahrenheit, UnitTag::Celsius) => {
        },
        (UnitTag::Celsius, UnitTag::Kelvin) => {
        },
        (UnitTag::Kelvin, UnitTag::Celsius) => {
        },
        (UnitTag::Fahrenheit, UnitTag::Kelvin) => {
            lemma_inverts_compose(c_to_f_val(), f_to_c_val(), k_to_c_val(), c_to_k_val());
        },
        (UnitTag::Kelvin, UnitTag::Fahrenheit) => {
            lemma_inverts_compose(c_to_k_val(), k_to_c_val(), f_to_c_val(), c_to_f_val());
        },
        _ => {
        },
    }
}

/// Round trip: for every pair of distinct units and every well-formed value
/// `x`, converting `x` forward and then back through the standard rules
/// returns `x` exactly, as a fraction.
pub proof fn lemma_standard_round_trip(from: UnitTag, to: UnitTag, x: RatVal)
    requires
        from != to,
        rat_val_wf(x),
    ensures
        standard_rule(from, to) is Some,
        standard_rule(to, from) is Some,
        rat_eq(
            affine_apply(
                standard_rule(to, from)->Some_0,
                affine_apply(standard_rule(from, to)->Some_0, x),
            ),
            x,
        ),
{
    lemma_standard_inverse(from, to);
}

/// Composition consistency: the standard Fahrenheit-to-Kelvin rule equals
/// converting to Celsius first and to Kelvin second, exactly; likewise for
/// Kelvin to Fahrenheit.
pub proof fn lemma_standard_composition(x: RatVal)
    requires
        rat_val_wf(x),
    ensures
        rat_eq(
            affine_apply(f_to_k_val(), x),
            affine_apply(c_to_k_val(), affine_apply(f_to_c_val(), x)),
        ),
        rat_eq(
            affine_apply(k_to_f_val(), x),
            affine_apply(c_to_f_val(), affine_apply(k_to_c_val(), x)),
        ),
{
    lemma_affine_inv(c_to_f_val());
    lemma_affine_inv(c_to_k_val());
    lemma_compose_apply(c_to_k_val(), f_to_c_val(), x);
    lemma_compose_apply(c_to_f_val(), k_to_c_val(), x);
}

} // verus!
