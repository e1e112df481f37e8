//! The two semantic types of the language.

use vstd::prelude::*;

verus! {

/// A language-level type: expressions are `Logical`, statements are `Void`.
#[derive(Debug, Clone, Copy, PartialEq, Eq, Structural)]
pub enum LangType {
    Logical,
    Void,
}

} // verus!
