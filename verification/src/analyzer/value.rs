//! Built-in values and what a name can be defined as.

use vstd::prelude::*;

use crate::analyzer::function::Function;
use crate::analyzer::organic_type::{OrganicType, TypeV};
use crate::lexer::token::Token;

verus! {

/// The accidental of a note.
#[derive(Clone, Copy, Debug, Eq, PartialEq)]
pub enum Accidental {
    Flat,
    Natural,
    Sharp,
}

/// A note name without its accidental.
#[derive(Clone, Copy, Debug, Eq, PartialEq)]
pub enum PitchClass {
    A,
    B,
    C,
    D,
    E,
    F,
    G,
}

/// A pitch: pitch class, accidental and octave.
#[derive(Clone, Copy, Debug, Eq, PartialEq)]
pub struct Note {
    pub pitch_class: PitchClass,
    pub accidental: Accidental,
    pub octave: u8,
}

/// The value of a built-in constant, as far as analysis reads it: its kind.
/// (Numeric constants are not carried as numbers here.)
#[derive(Debug, PartialEq)]
pub enum ConstantValue {
    AudioEffect,
    Boolean(bool),
    List(Box<ConstantValue>),
    Number,
    RandomArg,
    RoundArg,
    SequenceArg,
    String(String),
}

/// The type of a constant of the given value: a constant's type follows its
/// kind, a list's type from the type of its element.
pub open spec fn constant_type(v: &ConstantValue) -> TypeV
    decreases v,
{
    match v {
        ConstantValue::AudioEffect => TypeV::AudioEffect,
        ConstantValue::Boolean(_) => TypeV::Boolean,
        ConstantValue::List(inner) => TypeV::List(Box::new(constant_type(inner))),
        ConstantValue::Number => TypeV::Number,
        ConstantValue::RandomArg => TypeV::RandomArg,
        ConstantValue::RoundArg => TypeV::RoundArg,
        ConstantValue::SequenceArg => TypeV::SequenceArg,
        ConstantValue::String(_) => TypeV::String,
    }
}

impl ConstantValue {
    /// The type of this constant.
    pub fn as_type(&self) -> (r: OrganicType)
        ensures
            r@ == constant_type(self),
        decreases self,
    {
        match self {
            ConstantValue::AudioEffect => OrganicType::AudioEffect,
            ConstantValue::Boolean(_) => OrganicType::Boolean,
            ConstantValue::List(inner) => OrganicType::List(Box::new(inner.as_type())),
            ConstantValue::Number => OrganicType::Number,
            ConstantValue::RandomArg => OrganicType::RandomArg,
            ConstantValue::RoundArg => OrganicType::RoundArg,
            ConstantValue::SequenceArg => OrganicType::SequenceArg,
            ConstantValue::String(_) => OrganicType::String,
        }
    }
}

/// What a name is defined as.
#[derive(Debug)]
#[allow(inconsistent_fields)]
pub enum TermDefn {
    BuiltinConstant { value: ConstantValue },
    BuiltinFn { value: Function },
    BuiltinNote { note: Note },
    UserDefined { token: Token },
}

} // verus!
