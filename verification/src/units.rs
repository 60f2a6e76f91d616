//! Unit tags and the error taxonomy.

use vstd::prelude::*;

verus! {

/// An enumerated tag for a measurement unit.
#[derive(PartialEq, Eq, Structural, Clone, Copy, Debug, Hash)]
pub enum UnitTag {
    Celsius,
    Fahrenheit,
    Kelvin,
}

impl UnitTag {
    /// The display name of the unit.
    pub open spec fn spec_label(&self) -> Seq<char> {
        match self {
            UnitTag::Celsius => "Celsius"@,
            UnitTag::Fahrenheit => "Fahrenheit"@,
            UnitTag::Kelvin => "Kelvin"@,
        }
    }

    /// The display name of the unit.
    pub fn label(&self) -> (r: &'static str)
        ensures
            r@ == self.spec_label(),
    {
        match self {
            UnitTag::Celsius => "Celsius",
            UnitTag::Fahrenheit => "Fahrenheit",
            UnitTag::Kelvin => "Kelvin",
        }
    }
}

/// Failure of a conversion request.
#[derive(PartialEq, Eq, Structural, Clone, Copy, Debug)]
pub enum ConversionError {
    /// No rule is registered for the requested (source, target) pair.
    UnsupportedPair,
}

/// Failure of reading a validated value.
#[derive(PartialEq, Eq, Debug)]
pub enum InputError {
    /// The line did not parse; carries the original raw text.
    InvalidFormat(String),
    /// The input stream is closed.
    Eof,
}

} // verus!
