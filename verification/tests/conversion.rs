//! The conversion engine on concrete values.

use tempconv::engine::{Affine, ConversionEngine};
use tempconv::rational::Rat;
use tempconv::units::{ConversionError, UnitTag};

#[test]
fn zero_celsius_is_thirty_two_fahrenheit() {
    let engine = ConversionEngine::standard();
    let r = engine
        .convert(&Rat::from_int(0), UnitTag::Celsius, UnitTag::Fahrenheit)
        .unwrap();
    assert!(r.eq_rat(&Rat::from_int(32)));
}

#[test]
fn hundred_celsius_is_two_twelve_fahrenheit() {
    let engine = ConversionEngine::standard();
    let r = engine
        .convert(&Rat::from_int(100), UnitTag::Celsius, UnitTag::Fahrenheit)
        .unwrap();
    assert!(r.eq_rat(&Rat::from_int(212)));
}

#[test]
fn zero_celsius_is_273_15_kelvin() {
    let engine = ConversionEngine::standard();
    let r = engine
        .convert(&Rat::from_int(0), UnitTag::Celsius, UnitTag::Kelvin)
        .unwrap();
    assert!(r.eq_rat(&Rat::new(27315, 100)));
}

#[test]
fn thirty_two_fahrenheit_is_zero_celsius() {
    let engine = ConversionEngine::standard();
    let r = engine
        .convert(&Rat::from_int(32), UnitTag::Fahrenheit, UnitTag::Celsius)
        .unwrap();
    assert!(r.eq_rat(&Rat::from_int(0)));
}

#[test]
fn thirty_two_fahrenheit_is_273_15_kelvin() {
    let engine = ConversionEngine::standard();
    let r = engine
        .convert(&Rat::from_int(32), UnitTag::Fahrenheit, UnitTag::Kelvin)
        .unwrap();
    assert!(r.eq_rat(&Rat::new(27315, 100)));
}

#[test]
fn freezing_point_in_kelvin_is_zero_celsius() {
    let engine = ConversionEngine::standard();
    let r = engine
        .convert(&Rat::new(27315, 100), UnitTag::Kelvin, UnitTag::Celsius)
        .unwrap();
    assert!(r.eq_rat(&Rat::from_int(0)));
}

#[test]
fn freezing_point_in_kelvin_is_thirty_two_fahrenheit() {
    let engine = ConversionEngine::standard();
    let r = engine
        .convert(&Rat::new(27315, 100), UnitTag::Kelvin, UnitTag::Fahrenheit)
        .unwrap();
    assert!(r.eq_rat(&Rat::from_int(32)));
}

#[test]
fn round_trip_is_exact() {
    let engine = ConversionEngine::standard();
    let pairs = [
        (UnitTag::Celsius, UnitTag::Fahrenheit),
        (UnitTag::Fahrenheit, UnitTag::Celsius),
        (UnitTag::Celsius, UnitTag::Kelvin),
        (UnitTag::Kelvin, UnitTag::Celsius),
        (UnitTag::Fahrenheit, UnitTag::Kelvin),
        (UnitTag::Kelvin, UnitTag::Fahrenheit),
    ];
    // 12.5 degrees, and a negative value, in each source unit.
    for &(from, to) in pairs.iter() {
        for &x in [Rat::new(25, 2), Rat::new(-407, 10)].iter() {
            let there = engine.convert(&x, from, to).unwrap();
            let back = engine.convert(&there, to, from).unwrap();
            assert!(back.eq_rat(&x));
        }
    }
}

#[test]
fn fahrenheit_to_kelvin_composes_through_celsius() {
    let engine = ConversionEngine::standard();
    let x = Rat::new(2125, 10);
    let direct = engine
        .convert(&x, UnitTag::Fahrenheit, UnitTag::Kelvin)
        .unwrap();
    let celsius = engine
        .convert(&x, UnitTag::Fahrenheit, UnitTag::Celsius)
        .unwrap();
    let two_step = engine
        .convert(&celsius, UnitTag::Celsius, UnitTag::Kelvin)
        .unwrap();
    assert!(direct.eq_rat(&two_step));
}

#[test]
fn kelvin_to_fahrenheit_composes_through_celsius() {
    let engine = ConversionEngine::standard();
    let x = Rat::new(300, 1);
    let direct = engine
        .convert(&x, UnitTag::Kelvin, UnitTag::Fahrenheit)
        .unwrap();
    let celsius = engine
        .convert(&x, UnitTag::Kelvin, UnitTag::Celsius)
        .unwrap();
    let two_step = engine
        .convert(&celsius, UnitTag::Celsius, UnitTag::Fahrenheit)
        .unwrap();
    assert!(direct.eq_rat(&two_step));
}

#[test]
fn unsupported_pair_is_an_error_not_zero() {
    // A deliberately incomplete table: only Celsius to Fahrenheit.
    let mut engine = ConversionEngine::new();
    let ok = engine.register(
        UnitTag::Celsius,
        UnitTag::Fahrenheit,
        Affine::new(Rat::new(9, 5), Rat::new(32, 1)),
    );
    assert!(ok);
    let r = engine.convert(&Rat::from_int(1), UnitTag::Fahrenheit, UnitTag::Kelvin);
    assert!(matches!(r, Err(ConversionError::UnsupportedPair)));
}

#[test]
fn same_unit_pair_is_unsupported_in_the_standard_table() {
    let engine = ConversionEngine::standard();
    let r = engine.convert(&Rat::from_int(5), UnitTag::Celsius, UnitTag::Celsius);
    assert!(matches!(r, Err(ConversionError::UnsupportedPair)));
}

#[test]
fn duplicate_registration_is_refused() {
    let mut engine = ConversionEngine::standard();
    let ok = engine.register(
        UnitTag::Celsius,
        UnitTag::Fahrenheit,
        Affine::new(Rat::new(2, 1), Rat::new(0, 1)),
    );
    assert!(!ok);
    // The original rule still answers.
    let r = engine
        .convert(&Rat::from_int(100), UnitTag::Celsius, UnitTag::Fahrenheit)
        .unwrap();
    assert!(r.eq_rat(&Rat::from_int(212)));
}

#[test]
fn standard_table_has_all_six_rules() {
    let engine = ConversionEngine::standard();
    let units = [UnitTag::Celsius, UnitTag::Fahrenheit, UnitTag::Kelvin];
    for &f in units.iter() {
        for &t in units.iter() {
            assert_eq!(engine.has_rule(f, t), f != t);
        }
    }
}

#[test]
fn inverse_rule_undoes_an_affine_map() {
    let map = Affine::new(Rat::new(9, 5), Rat::new(32, 1));
    let inv = map.inverse();
    let x = Rat::new(37, 3);
    let y = map.apply(&x);
    let back = inv.apply(&y);
    assert!(back.eq_rat(&x));
}
