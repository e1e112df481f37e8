//! Literal values of the language: booleans and identifiers.

use vstd::prelude::*;

verus! {

/// Mathematical model of a [`Value`]: identifiers are abstracted to their
/// character sequences.
pub enum ValueModel {
    Bool(bool),
    Identifier(Seq<char>),
}

/// A literal value: either a boolean constant or an identifier naming a
/// declared variable.  Compared structurally.
#[derive(Debug)]
pub enum Value {
    Bool(bool),
    Identifier(String),
}

impl Clone for Value {
    /// Cloning gives an equal value.
    fn clone(&self) -> (r: Self)
        ensures
            r == *self,
    {
        match self {
            Value::Bool(b) => Value::Bool(*b),
            Value::Identifier(name) => Value::Identifier(name.clone()),
        }
    }
}

impl View for Value {
    type V = ValueModel;

    open spec fn view(&self) -> ValueModel {
        match self {
            Value::Bool(b) => ValueModel::Bool(*b),
            Value::Identifier(name) => ValueModel::Identifier(name@),
        }
    }
}

impl Value {
    /// The boolean literal `true`.
    pub fn new_true() -> (r: Self)
        ensures
            r@ == ValueModel::Bool(true),
    {
        Value::Bool(true)
    }

    /// The boolean literal `false`.
    pub fn new_false() -> (r: Self)
        ensures
            r@ == ValueModel::Bool(false),
    {
        Value::Bool(false)
    }

    /// An identifier value with the given name.
    pub fn new_identifier(ident: &str) -> (r: Self)
        ensures
            r@ == ValueModel::Identifier(ident@),
    {
        Value::Identifier(ident.to_owned())
    }

    /// Structural equality, decided against the models.
    pub(crate) fn value_eq(&self, other: &Value) -> (r: bool)
        ensures
            r == (self@ == other@),
    {
        match (self, other) {
            (Value::Bool(a), Value::Bool(b)) => *a == *b,
            (Value::Identifier(a), Value::Identifier(b)) => *a == *b,
            _ => false,
        }
    }
}

impl PartialEq for Value {
    /// Values are equal exactly when their models are.
    fn eq(&self, other: &Self) -> (r: bool) {
        self.value_eq(other)
    }
}

impl Eq for Value {

}

impl vstd::std_specs::cmp::PartialEqSpecImpl for Value {
    open spec fn obeys_eq_spec() -> bool {
        true
    }

    open spec fn eq_spec(&self, other: &Value) -> bool {
        self@ == other@
    }
}

/// Equality of two string slices, decided on their character sequences.
pub fn str_eq(a: &str, b: &str) -> (r: bool)
    ensures
        r == (a@ == b@),
{
    let a_owned: String = a.to_owned();
    let b_owned: String = b.to_owned();
    a_owned == b_owned
}

} // verus!
