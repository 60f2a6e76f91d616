//! The small record types and text helpers.

use tempconv::arith::{add_numbers, add_numbers_explicit_return};
use tempconv::chars::str_eq;
use tempconv::fruit::{create_fruit_examples, Fruit};
use tempconv::student::build_student;
use tempconv::text::first_word;
use tempconv::units::UnitTag;
use tempconv::user::User;

#[test]
fn adding_numbers() {
    assert_eq!(add_numbers(6, 5), 11);
    assert_eq!(add_numbers_explicit_return(10, 15), 25);
    assert_eq!(add_numbers(-3, 3), 0);
}

#[test]
fn first_word_stops_at_the_first_space() {
    assert_eq!(first_word("hello world"), "hello");
    assert_eq!(first_word("hello"), "hello");
    assert_eq!(first_word(""), "");
    assert_eq!(first_word(" leading"), "");
    assert_eq!(first_word("a b c"), "a");
}

#[test]
fn str_eq_compares_characters() {
    assert!(str_eq("hello", "hello"));
    assert!(!str_eq("hello", "hallo"));
    assert!(!str_eq("hello", "hell"));
    assert!(str_eq("", ""));
}

#[test]
fn known_fruits_are_created() {
    match create_fruit_examples("apple") {
        Some(Fruit::Apple(variety)) => assert_eq!(variety, "Gren Smith"),
        other => panic!("expected an apple, got {:?}", other),
    }
    assert_eq!(create_fruit_examples("banana"), Some(Fruit::Banana(5)));
    assert_eq!(
        create_fruit_examples("orange"),
        Some(Fruit::Orange { size: 6 })
    );
}

#[test]
fn unknown_fruits_are_not() {
    assert_eq!(create_fruit_examples("pineapple"), None);
    assert_eq!(create_fruit_examples(""), None);
}

#[test]
fn building_a_student() {
    let s = build_student(String::from("Eduardo"), 32, 'C');
    assert!(s.active);
    assert_eq!(s.name, "Eduardo");
    assert_eq!(s.age, 32);
    assert_eq!(s.grade, 'C');
}

#[test]
fn a_new_user_is_active_with_one_sign_in() {
    let u = User::new(String::from("Cristian"), String::from("cristian@example.com"));
    assert!(u.active);
    assert_eq!(u.sign_in_count, 1);
    assert_eq!(u.username, "Cristian");
    assert_eq!(u.email, "cristian@example.com");
}

#[test]
fn user_activation_round_trip() {
    let mut u = User::new(String::from("a"), String::from("a@example.com"));
    u.deactivate();
    assert!(!u.active);
    u.activate();
    assert!(u.active);
}

#[test]
fn sign_in_count_increments() {
    let mut u = User::new(String::from("a"), String::from("a@example.com"));
    u.increment_sign_in();
    u.increment_sign_in();
    assert_eq!(u.sign_in_count, 3);
}

#[test]
fn same_email_compares_emails_only() {
    let a = User::new(String::from("one"), String::from("shared@example.com"));
    let b = User::new(String::from("two"), String::from("shared@example.com"));
    let c = User::new(String::from("one"), String::from("other@example.com"));
    assert!(a.is_same_email(&b));
    assert!(!a.is_same_email(&c));
}

#[test]
fn unit_labels() {
    assert_eq!(UnitTag::Celsius.label(), "Celsius");
    assert_eq!(UnitTag::Fahrenheit.label(), "Fahrenheit");
    assert_eq!(UnitTag::Kelvin.label(), "Kelvin");
}
