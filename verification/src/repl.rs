//! The interactive session as a state machine.
//!
//! The session owns the standard conversion table and a single piece of
//! state: what it is waiting for.  Each step consumes one line of input (or
//! the end of the stream) and returns the action the caller should perform;
//! the caller does the reading and printing.  Selecting the exit option
//! leaves the session terminal without ever requesting an operand, and an
//! invalid line always leads back to the selection prompt.  Because the six
//! standard rules cover every pair the menu offers, a step is proved never
//! to hit an unsupported pair.

use vstd::prelude::*;

use crate::engine::{affine_apply, ConversionEngine};
use crate::input::{dec_valid, dec_value, parse_selection, parse_temperature, sel_valid};
use crate::chars::{digits_val, trimmed};
use crate::rational::Rat;
use crate::standard::standard_rule;
use crate::units::{InputError, UnitTag};

verus! {

/// The options the menu offers: one per directed conversion, plus exit.
#[derive(PartialEq, Eq, Structural, Clone, Copy, Debug)]
pub enum MenuOptions {
    CelsiusToFahrenheit,
    CelsiusToKelvin,
    FahrenheitToCelsius,
    FahrenheitToKelvin,
    KelvinToCelsius,
    KelvinToFahrenheit,
    Exit,
}

impl MenuOptions {
    /// The option selected by a numeric menu index, if any: one through six
    /// select the conversions in menu order and zero selects exit.
    pub open spec fn spec_from_u32(input: int) -> Option<MenuOptions> {
        if input == 1 {
            Some(MenuOptions::CelsiusToFahrenheit)
        } else if input == 2 {
            Some(MenuOptions::CelsiusToKelvin)
        } else if input == 3 {
            Some(MenuOptions::FahrenheitToCelsius)
        } else if input == 4 {
            Some(MenuOptions::FahrenheitToKelvin)
        } else if input == 5 {
            Some(MenuOptions::KelvinToCelsius)
        } else if input == 6 {
            Some(MenuOptions::KelvinToFahrenheit)
        } else if input == 0 {
            Some(MenuOptions::Exit)
        } else {
            None
        }
    }

    /// Parse a numeric menu index into an option.
    pub fn from_u32(input: u32) -> (r: Option<Self>)
        ensures
            r == Self::spec_from_u32(input as int),
    {
        match input {
            1 => Some(MenuOptions::CelsiusToFahrenheit),
            2 => Some(MenuOptions::CelsiusToKelvin),
            3 => Some(MenuOptions::FahrenheitToCelsius),
            4 => Some(MenuOptions::FahrenheitToKelvin),
            5 => Some(MenuOptions::KelvinToCelsius),
            6 => Some(MenuOptions::KelvinToFahrenheit),
            0 => Some(MenuOptions::Exit),
            _ => None,
        }
    }

    /// The (source, target) units of a conversion option; exit has none.
    pub open spec fn spec_pair(self) -> Option<(UnitTag, UnitTag)> {
        match self {
            MenuOptions::CelsiusToFahrenheit => Some((UnitTag::Celsius, UnitTag::Fahrenheit)),
            MenuOptions::CelsiusToKelvin => Some((UnitTag::Celsius, UnitTag::Kelvin)),
            MenuOptions::FahrenheitToCelsius => Some((UnitTag::Fahrenheit, UnitTag::Celsius)),
            MenuOptions::FahrenheitToKelvin => Some((UnitTag::Fahrenheit, UnitTag::Kelvin)),
            MenuOptions::KelvinToCelsius => Some((UnitTag::Kelvin, UnitTag::Celsius)),
            MenuOptions::KelvinToFahrenheit => Some((UnitTag::Kelvin, UnitTag::Fahrenheit)),
            MenuOptions::Exit => None,
        }
    }

    /// The (source, target) units of a conversion option; exit has none.
    pub fn conversion_pair(&self) -> (r: Option<(UnitTag, UnitTag)>)
        ensures
            r == self.spec_pair(),
    {
        match self {
            MenuOptions::CelsiusToFahrenheit => Some((UnitTag::Celsius, UnitTag::Fahrenheit)),
            MenuOptions::CelsiusToKelvin => Some((UnitTag::Celsius, UnitTag::Kelvin)),
            MenuOptions::FahrenheitToCelsius => Some((UnitTag::Fahrenheit, UnitTag::Celsius)),
            MenuOptions::FahrenheitToKelvin => Some((UnitTag::Fahrenheit, UnitTag::Kelvin)),
            MenuOptions::KelvinToCelsius => Some((UnitTag::Kelvin, UnitTag::Celsius)),
            MenuOptions::KelvinToFahrenheit => Some((UnitTag::Kelvin, UnitTag::Fahrenheit)),
            MenuOptions::Exit => None,
        }
    }
}

/// Every conversion option of the menu resolves to a rule registered in the
/// standard table, so a menu-driven conversion can never hit an unsupported
/// pair.
pub proof fn lemma_menu_options_covered(opt: MenuOptions)
    requires
        opt != MenuOptions::Exit,
    ensures
        opt.spec_pair() matches Some(pair) && standard_rule(pair.0, pair.1) is Some,
{
}

/// What the session is waiting for.
#[derive(PartialEq, Eq, Structural, Clone, Copy, Debug)]
pub enum ReplState {
    /// Waiting for a menu selection.
    AwaitingSelection,
    /// Waiting for the operand of the selected conversion.
    AwaitingOperand(MenuOptions),
    /// Terminal: no further input is read.
    Exiting,
}

/// One conversion result, ready to present.
#[derive(Clone, Copy, Debug)]
pub struct ReplReport {
    pub value: Rat,
    pub from: UnitTag,
    pub to: UnitTag,
    pub result: Rat,
}

/// What the caller should do after a step.
#[derive(Clone, Copy, Debug)]
pub enum ReplAction {
    /// Ask for the operand, a temperature in the given source unit.
    PromptOperand(UnitTag),
    /// Present a conversion result.
    Report(ReplReport),
    /// Say the selection was invalid and show the menu again.
    InvalidSelection,
    /// Say the operand was invalid and show the menu again.
    InvalidOperand,
    /// Say goodbye; the session is over.
    Farewell,
}

/// The interactive session: the standard conversion table and the current
/// state.
pub struct ReplSession {
    pub engine: ConversionEngine,
    pub state: ReplState,
}

impl ReplSession {
    /// The session's table is well formed and holds exactly the standard
    /// rules, and an awaited operand always belongs to a conversion option.
    pub open spec fn wf(&self) -> bool {
        &&& self.engine.wf()
        &&& forall|f: UnitTag, t: UnitTag|
            #[trigger] self.engine.spec_has_rule(f, t) <==> standard_rule(f, t) is Some
        &&& forall|f: UnitTag, t: UnitTag|
            standard_rule(f, t) matches Some(m) ==> #[trigger] self.engine.spec_rule(f, t) == m
        &&& (self.state matches ReplState::AwaitingOperand(opt) ==> opt != MenuOptions::Exit)
    }

    /// A fresh session, waiting for a selection.
    pub fn new() -> (s: ReplSession)
        ensures
            s.wf(),
            s.state == ReplState::AwaitingSelection,
    {
        ReplSession { engine: ConversionEngine::standard(), state: ReplState::AwaitingSelection }
    }

    /// Whether the session has ended.
    pub fn is_exiting(&self) -> (r: bool)
        ensures
            r == (self.state is Exiting),
    {
        match self.state {
            ReplState::Exiting => true,
            _ => false,
        }
    }

    /// Consume one line of input (or the end of the stream, as `None`) and
    /// return the action to perform.
    pub fn step(&mut self, line: Option<&str>) -> (action: ReplAction)
        requires
            old(self).wf(),
            !(old(self).state is Exiting),
        ensures
            final(self).wf(),
            final(self).engine == old(self).engine,
            // End of input is always a graceful exit.
            line is None ==> final(self).state is Exiting && action == ReplAction::Farewell,
            line matches Some(s) ==> ({
                let t = trimmed(s@);
                // A selection of zero exits without requesting an operand.
                &&& (old(self).state is AwaitingSelection && sel_valid(t)
                    && MenuOptions::spec_from_u32(digits_val(t)) == Some(MenuOptions::Exit)) ==> (
                final(self).state is Exiting && action == ReplAction::Farewell)
                // A conversion selection asks for the operand in its source
                // unit.
                &&& (old(self).state is AwaitingSelection && sel_valid(t)) ==> (
                MenuOptions::spec_from_u32(digits_val(t)) matches Some(opt) ==> (opt
                    != MenuOptions::Exit ==> (final(self).state == ReplState::AwaitingOperand(opt)
                    && (opt.spec_pair() matches Some(pair) && action == ReplAction::PromptOperand(
                    pair.0,
                )))))
                // Anything else at the selection prompt redisplays the menu.
                &&& (old(self).state is AwaitingSelection && !(sel_valid(t)
                    && MenuOptions::spec_from_u32(digits_val(t)) is Some)) ==> (final(self).state is AwaitingSelection && action
                    == ReplAction::InvalidSelection)
                // An invalid operand discards the selection.
                &&& (old(self).state is AwaitingOperand && !dec_valid(t)) ==> (final(self).state is AwaitingSelection && action
                    == ReplAction::InvalidOperand)
                // A valid operand is converted by the registered rule,
                // exactly.
                &&& old(self).state matches ReplState::AwaitingOperand(opt) ==> (dec_valid(t) ==> (
                final(self).state is AwaitingSelection && (opt.spec_pair() matches Some(pair) && (
                standard_rule(pair.0, pair.1) matches Some(rule) && (action
                    matches ReplAction::Report(rep) && rep.from == pair.0 && rep.to == pair.1
                    && rep.value@ == dec_value(t) && rep.result@ == affine_apply(
                    rule,
                    dec_value(t),
                ))))))
            }),
    {
        match self.state {
            ReplState::AwaitingSelection => {
                match parse_selection(line) {
                    Err(InputError::Eof) => {
                        self.state = ReplState::Exiting;
                        ReplAction::Farewell
                    },
                    Err(InputError::InvalidFormat(_)) => ReplAction::InvalidSelection,
                    Ok(index) => {
                        match MenuOptions::from_u32(index) {
                            None => ReplAction::InvalidSelection,
                            Some(MenuOptions::Exit) => {
                                self.state = ReplState::Exiting;
                                ReplAction::Farewell
                            },
                            Some(option) => {
                                match option.conversion_pair() {
                                    Some(pair) => {
                                        self.state = ReplState::AwaitingOperand(option);
                                        ReplAction::PromptOperand(pair.0)
                                    },
                                    None => {
                                        proof {
                                            assert(false);
                                        }
                                        ReplAction::InvalidSelection
                                    },
                                }
                            },
                        }
                    },
                }
            },
            ReplState::AwaitingOperand(option) => {
                match parse_temperature(line) {
                    Err(InputError::Eof) => {
                        self.state = ReplState::Exiting;
                        ReplAction::Farewell
                    },
                    Err(InputError::InvalidFormat(_)) => {
                        self.state = ReplState::AwaitingSelection;
                        ReplAction::InvalidOperand
                    },
                    Ok(value) => {
                        let (from, to) = match option.conversion_pair() {
                            Some(pair) => pair,
                            None => {
                                proof {
                                    assert(false);
                                }
                                (UnitTag::Celsius, UnitTag::Celsius)
                            },
                        };
                        proof {
                            assert(standard_rule(from, to) is Some);
                            assert(self.engine.spec_has_rule(from, to));
                        }
                        match self.engine.convert(&value, from, to) {
                            Ok(result) => {
                                self.state = ReplState::AwaitingSelection;
                                ReplAction::Report(ReplReport { value, from, to, result })
                            },
                            Err(_) => {
                                proof {
                                    assert(false);
                                }
                                self.state = ReplState::AwaitingSelection;
                                ReplAction::InvalidOperand
                            },
                        }
                    },
                }
            },
            ReplState::Exiting => {
                proof {
                    assert(false);
                }
                ReplAction::Farewell
            },
        }
    }
}

} // verus!
