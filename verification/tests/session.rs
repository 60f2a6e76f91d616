//! The interactive session, step by step.

use tempconv::rational::Rat;
use tempconv::repl::{MenuOptions, ReplAction, ReplSession};
use tempconv::units::UnitTag;

#[test]
fn from_u32_maps_every_menu_index() {
    assert_eq!(
        MenuOptions::from_u32(1),
        Some(MenuOptions::CelsiusToFahrenheit)
    );
    assert_eq!(MenuOptions::from_u32(2), Some(MenuOptions::CelsiusToKelvin));
    assert_eq!(
        MenuOptions::from_u32(3),
        Some(MenuOptions::FahrenheitToCelsius)
    );
    assert_eq!(
        MenuOptions::from_u32(4),
        Some(MenuOptions::FahrenheitToKelvin)
    );
    assert_eq!(MenuOptions::from_u32(5), Some(MenuOptions::KelvinToCelsius));
    assert_eq!(
        MenuOptions::from_u32(6),
        Some(MenuOptions::KelvinToFahrenheit)
    );
    assert_eq!(MenuOptions::from_u32(0), Some(MenuOptions::Exit));
    assert_eq!(MenuOptions::from_u32(7), None);
    assert_eq!(MenuOptions::from_u32(100), None);
}

#[test]
fn selecting_zero_exits_without_requesting_an_operand() {
    let mut session = ReplSession::new();
    let action = session.step(Some("0"));
    assert!(matches!(action, ReplAction::Farewell));
    assert!(session.is_exiting());
}

#[test]
fn a_full_conversion_exchange() {
    let mut session = ReplSession::new();
    let action = session.step(Some("1"));
    match action {
        ReplAction::PromptOperand(unit) => assert_eq!(unit, UnitTag::Celsius),
        other => panic!("expected an operand prompt, got {:?}", other),
    }
    let action = session.step(Some("100"));
    match action {
        ReplAction::Report(rep) => {
            assert_eq!(rep.from, UnitTag::Celsius);
            assert_eq!(rep.to, UnitTag::Fahrenheit);
            assert!(rep.value.eq_rat(&Rat::from_int(100)));
            assert!(rep.result.eq_rat(&Rat::from_int(212)));
        }
        other => panic!("expected a report, got {:?}", other),
    }
    assert!(!session.is_exiting());
}

#[test]
fn an_invalid_selection_redisplays_the_menu() {
    let mut session = ReplSession::new();
    assert!(matches!(
        session.step(Some("9")),
        ReplAction::InvalidSelection
    ));
    assert!(matches!(
        session.step(Some("abc")),
        ReplAction::InvalidSelection
    ));
    assert!(!session.is_exiting());
}

#[test]
fn an_invalid_operand_discards_the_selection() {
    let mut session = ReplSession::new();
    assert!(matches!(
        session.step(Some("3")),
        ReplAction::PromptOperand(UnitTag::Fahrenheit)
    ));
    assert!(matches!(
        session.step(Some("oops")),
        ReplAction::InvalidOperand
    ));
    // Back at the selection prompt: a number is a selection again.
    assert!(matches!(
        session.step(Some("0")),
        ReplAction::Farewell
    ));
    assert!(session.is_exiting());
}

#[test]
fn end_of_input_exits_gracefully() {
    let mut session = ReplSession::new();
    assert!(matches!(session.step(None), ReplAction::Farewell));
    assert!(session.is_exiting());
}

#[test]
fn end_of_input_at_the_operand_prompt_exits_gracefully() {
    let mut session = ReplSession::new();
    assert!(matches!(
        session.step(Some("5")),
        ReplAction::PromptOperand(UnitTag::Kelvin)
    ));
    assert!(matches!(session.step(None), ReplAction::Farewell));
    assert!(session.is_exiting());
}

#[test]
fn a_fractional_operand_converts_exactly() {
    let mut session = ReplSession::new();
    assert!(matches!(
        session.step(Some("2")),
        ReplAction::PromptOperand(UnitTag::Celsius)
    ));
    let action = session.step(Some("26.85"));
    match action {
        ReplAction::Report(rep) => {
            // 26.85 degrees Celsius is exactly 300 kelvins.
            assert!(rep.result.eq_rat(&Rat::from_int(300)));
        }
        other => panic!("expected a report, got {:?}", other),
    }
}
