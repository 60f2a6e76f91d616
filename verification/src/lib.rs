//! A menu-driven temperature-conversion library with verified arithmetic.
//!
//! Temperatures are held as exact rational numbers, so every conversion
//! formula (such as Celsius to Fahrenheit) is computed without rounding and
//! the round-trip and composition laws of the rule table are proved, not
//! approximated.  Reading a line, parsing it, dispatching a registered
//! conversion rule and stepping the interactive session are all verified;
//! console input and output live outside the library.  A few small verified
//! records (fruits, students, users) and text helpers accompany the core.

pub mod arith;
pub mod chars;
pub mod engine;
pub mod fruit;
pub mod input;
pub mod rational;
pub mod repl;
pub mod standard;
pub mod student;
pub mod text;
pub mod units;
pub mod user;
