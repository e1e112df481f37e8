//! Guards: boolean conditions gating when an edge may fire.

use vstd::prelude::*;

use crate::language::expression::{Expression, ExpressionModel};
use crate::language::value::{Value, ValueModel};

verus! {

/// A guard: a `Logical`-typed expression on an edge.
#[derive(Debug)]
pub struct Guard {
    pub node: Expression,
}

impl View for Guard {
    type V = ExpressionModel;

    open spec fn view(&self) -> ExpressionModel {
        self.node@
    }
}

impl DeepView for Guard {
    type V = ExpressionModel;

    open spec fn deep_view(&self) -> ExpressionModel {
        self.view()
    }
}

impl Clone for Guard {
    /// Cloning gives an equal value.
    fn clone(&self) -> (r: Self)
        ensures
            r == *self,
    {
        Guard { node: self.node.clone() }
    }
}

impl PartialEq for Guard {
    /// Guards are equal exactly when their expressions are.
    fn eq(&self, other: &Self) -> (r: bool) {
        self.node == other.node
    }
}

impl Eq for Guard {

}

impl vstd::std_specs::cmp::PartialEqSpecImpl for Guard {
    open spec fn obeys_eq_spec() -> bool {
        true
    }

    open spec fn eq_spec(&self, other: &Guard) -> bool {
        self@ == other@
    }
}

impl Guard {
    /// A guard holding the given expression.
    pub fn new(node: &Expression) -> (r: Self)
        ensures
            r@ == node@,
    {
        Guard { node: node.clone() }
    }

    /// The guard that always holds.
    pub fn new_true() -> (r: Self)
        ensures
            r@ == ExpressionModel::Literal(ValueModel::Bool(true)),
    {
        Self::new(&Expression::Literal(Value::Bool(true)))
    }

    /// The guard that never holds.
    pub fn new_false() -> (r: Self)
        ensures
            r@ == ExpressionModel::Literal(ValueModel::Bool(false)),
    {
        Self::new(&Expression::Literal(Value::Bool(false)))
    }
}

} // verus!
