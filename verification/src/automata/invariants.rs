//! Invariants: conditions attached to locations, constraining which
//! environments may be at them.

use vstd::prelude::*;

use crate::language::expression::{BinaryOperator, Expression, ExpressionModel};
use crate::language::value::{Value, ValueModel};

verus! {

/// The left fold of the expressions under logical conjunction:
/// `(...(e0 && e1) && ...) && en`.
pub open spec fn conjunction_of(nodes: Seq<ExpressionModel>) -> ExpressionModel
    recommends
        nodes.len() >= 1,
    decreases nodes.len(),
{
    if nodes.len() <= 1 {
        nodes[0]
    } else {
        ExpressionModel::Binary(
            Box::new(conjunction_of(nodes.drop_last())),
            BinaryOperator::LogicalAnd,
            Box::new(nodes.last()),
        )
    }
}

/// An invariant: a `Logical`-typed expression on a location.
#[derive(Debug)]
pub struct Invariant {
    pub node: Expression,
}

impl View for Invariant {
    type V = ExpressionModel;

    open spec fn view(&self) -> ExpressionModel {
        self.node@
    }
}

impl DeepView for Invariant {
    type V = ExpressionModel;

    open spec fn deep_view(&self) -> ExpressionModel {
        self.view()
    }
}

impl Clone for Invariant {
    /// Cloning gives an equal value.
    fn clone(&self) -> (r: Self)
        ensures
            r == *self,
    {
        Invariant { node: self.node.clone() }
    }
}

impl PartialEq for Invariant {
    /// Invariants are equal exactly when their expressions are.
    fn eq(&self, other: &Self) -> (r: bool) {
        self.node == other.node
    }
}

impl Eq for Invariant {

}

impl vstd::std_specs::cmp::PartialEqSpecImpl for Invariant {
    open spec fn obeys_eq_spec() -> bool {
        true
    }

    open spec fn eq_spec(&self, other: &Invariant) -> bool {
        self@ == other@
    }
}

impl Invariant {
    /// An invariant holding the given expression.
    pub fn new(node: &Expression) -> (r: Invariant)
        ensures
            r@ == node@,
    {
        Invariant { node: node.clone() }
    }

    /// The invariant that always holds.
    pub fn new_true() -> (r: Invariant)
        ensures
            r@ == ExpressionModel::Literal(ValueModel::Bool(true)),
    {
        Self::new(&Expression::Literal(Value::Bool(true)))
    }

    /// The invariant that never holds.
    pub fn new_false() -> (r: Invariant)
        ensures
            r@ == ExpressionModel::Literal(ValueModel::Bool(false)),
    {
        Self::new(&Expression::Literal(Value::Bool(false)))
    }

    /// The conjunction of at least two invariants, folded left to right
    /// under logical AND.
    pub fn new_conjunction(invariants: &Vec<Invariant>) -> (r: Invariant)
        requires
            invariants@.len() >= 2,
        ensures
            r@ == conjunction_of(invariants.deep_view()),
    {
        let mut node = invariants[0].node.clone();
        let mut i: usize = 1;
        proof {
            assert(invariants.deep_view().take(1) =~= seq![invariants@[0]@]);
        }
        while i < invariants.len()
            invariant
                1 <= i <= invariants@.len(),
                node@ == conjunction_of(invariants.deep_view().take(i as int)),
            decreases invariants@.len() - i,
        {
            node = Expression::new_logical_and(&node, &invariants[i].node);
            i = i + 1;
            proof {
                assert(invariants.deep_view().take(i as int).drop_last() =~= invariants.deep_view()
                    .take(i as int - 1));
                assert(invariants.deep_view().take(i as int).last() == invariants@[i as int - 1]@);
            }
        }
        proof {
            assert(invariants.deep_view().take(invariants@.len() as int) =~= invariants.deep_view());
        }
        Invariant { node }
    }
}

} // verus!
