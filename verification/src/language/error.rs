//! Language-level failures: runtime errors and type-checking errors.

use vstd::prelude::*;

verus! {

/// A failure while evaluating or type checking a language term.  The
/// message is a human-readable diagnostic; the variant is the contract.
#[derive(Debug, Clone, PartialEq, Eq)]
pub enum Error {
    RuntimeError { message: String },
    TypeCheckingError { message: String },
}

impl Error {
    /// A runtime error with the given diagnostic message.
    pub fn new_runtime(message: &str) -> (r: Self)
        ensures
            r matches Error::RuntimeError { message: m } && m@ == message@,
    {
        Error::RuntimeError { message: message.to_owned() }
    }

    /// A type-checking error with the given diagnostic message.
    pub fn new_type_checking(message: &str) -> (r: Self)
        ensures
            r matches Error::TypeCheckingError { message: m } && m@ == message@,
    {
        Error::TypeCheckingError { message: message.to_owned() }
    }

    /// The diagnostic message carried by this error.
    pub fn message(&self) -> (r: &String)
        ensures
            (self matches Error::RuntimeError { message: m } ==> r@ == m@),
            (self matches Error::TypeCheckingError { message: m } ==> r@ == m@),
    {
        match self {
            Error::RuntimeError { message } => message,
            Error::TypeCheckingError { message } => message,
        }
    }
}

} // verus!
