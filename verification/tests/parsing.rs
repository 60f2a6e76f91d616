//! The input reader on concrete lines.

use tempconv::input::{parse_selection, parse_temperature};
use tempconv::units::InputError;

#[test]
fn selection_reads_a_plain_number() {
    assert_eq!(parse_selection(Some("3")), Ok(3));
}

#[test]
fn selection_tolerates_surrounding_whitespace() {
    assert_eq!(parse_selection(Some("  42\t\r\n")), Ok(42));
}

#[test]
fn selection_accepts_leading_zeros() {
    assert_eq!(parse_selection(Some("007")), Ok(7));
}

#[test]
fn selection_accepts_the_largest_index() {
    assert_eq!(parse_selection(Some("4294967295")), Ok(4294967295));
}

#[test]
fn selection_rejects_an_index_past_the_limit() {
    match parse_selection(Some("4294967296")) {
        Err(InputError::InvalidFormat(raw)) => assert_eq!(raw, "4294967296"),
        other => panic!("expected invalid format, got {:?}", other),
    }
}

#[test]
fn selection_rejects_text() {
    match parse_selection(Some("abc")) {
        Err(InputError::InvalidFormat(raw)) => assert_eq!(raw, "abc"),
        other => panic!("expected invalid format, got {:?}", other),
    }
}

#[test]
fn selection_rejects_an_empty_line() {
    assert!(matches!(
        parse_selection(Some("   ")),
        Err(InputError::InvalidFormat(_))
    ));
}

#[test]
fn selection_rejects_a_negative_number() {
    assert!(matches!(
        parse_selection(Some("-1")),
        Err(InputError::InvalidFormat(_))
    ));
}

#[test]
fn selection_reports_end_of_input() {
    assert_eq!(parse_selection(None), Err(InputError::Eof));
}

#[test]
fn temperature_reads_an_integer() {
    let v = parse_temperature(Some("100")).unwrap();
    assert_eq!((v.num, v.den), (100, 1));
}

#[test]
fn temperature_reads_a_fraction_exactly() {
    let v = parse_temperature(Some(" 12.5 ")).unwrap();
    assert_eq!((v.num, v.den), (125, 10));
}

#[test]
fn temperature_reads_a_negative_value() {
    let v = parse_temperature(Some("-40")).unwrap();
    assert_eq!((v.num, v.den), (-40, 1));
}

#[test]
fn temperature_reads_an_explicit_plus() {
    let v = parse_temperature(Some("+3.25")).unwrap();
    assert_eq!((v.num, v.den), (325, 100));
}

#[test]
fn temperature_reads_zero() {
    let v = parse_temperature(Some("0.0")).unwrap();
    assert_eq!((v.num, v.den), (0, 10));
}

#[test]
fn temperature_rejects_text_and_keeps_the_raw_line() {
    match parse_temperature(Some("abc")) {
        Err(InputError::InvalidFormat(raw)) => assert_eq!(raw, "abc"),
        other => panic!("expected invalid format, got {:?}", other),
    }
}

#[test]
fn temperature_rejects_malformed_numbers() {
    for bad in [
        "", "   ", ".", "5.", ".5", "1.2.3", "--4", "+-1", "1e5", "12a", "4 2", "-", "+",
    ] {
        assert!(
            matches!(parse_temperature(Some(bad)), Err(InputError::InvalidFormat(_))),
            "accepted {:?}",
            bad
        );
    }
}

#[test]
fn temperature_accepts_twenty_seven_digits_and_rejects_twenty_eight() {
    let long_ok = "123456789012345678901234567";
    let v = parse_temperature(Some(long_ok)).unwrap();
    assert_eq!(v.num, 123456789012345678901234567);
    assert_eq!(v.den, 1);
    let long_bad = "1234567890123456789012345678";
    assert!(matches!(
        parse_temperature(Some(long_bad)),
        Err(InputError::InvalidFormat(_))
    ));
}

#[test]
fn temperature_counts_digits_on_both_sides_of_the_point() {
    let ok = "12345678901234.5678901234567";
    let v = parse_temperature(Some(ok)).unwrap();
    assert_eq!(v.num, 123456789012345678901234567);
    assert_eq!(v.den, 10_000_000_000_000);
    let bad = "12345678901234.56789012345678";
    assert!(matches!(
        parse_temperature(Some(bad)),
        Err(InputError::InvalidFormat(_))
    ));
}

#[test]
fn temperature_reports_end_of_input() {
    assert!(matches!(parse_temperature(None), Err(InputError::Eof)));
}
