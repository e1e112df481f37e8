//! Results of evaluating language terms.

use vstd::prelude::*;

verus! {

/// The outcome of a successful evaluation: a boolean for expressions,
/// `Void` for statements.
#[derive(Debug, Clone, Copy, PartialEq, Eq, Structural)]
pub enum Evaluation {
    Bool(bool),
    Void,
}

impl Evaluation {
    /// A boolean evaluation holding the given truth value.
    pub fn new_boolean(value: bool) -> (r: Self)
        ensures
            r == Evaluation::Bool(value),
    {
        Self::Bool(value)
    }

    /// The evaluation of a statement, which produces no value.
    pub fn new_void() -> (r: Self)
        ensures
            r == Evaluation::Void,
    {
        Self::Void
    }

    /// The boolean evaluation `true`.
    pub fn new_true() -> (r: Self)
        ensures
            r == Evaluation::Bool(true),
    {
        Evaluation::Bool(true)
    }

    /// The boolean evaluation `false`.
    pub fn new_false() -> (r: Self)
        ensures
            r == Evaluation::Bool(false),
    {
        Evaluation::Bool(false)
    }

    /// True exactly when this is the boolean evaluation `false`.
    pub fn is_false(&self) -> (r: bool)
        ensures
            r == (*self == Evaluation::Bool(false)),
    {
        match self {
            Evaluation::Bool(value) => *value == false,
            _ => false,
        }
    }

    /// True exactly when this is the boolean evaluation `true`.
    pub fn is_true(&self) -> (r: bool)
        ensures
            r == (*self == Evaluation::Bool(true)),
    {
        match self {
            Evaluation::Bool(value) => *value == true,
            _ => false,
        }
    }
}

} // verus!
