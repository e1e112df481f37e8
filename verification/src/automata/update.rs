//! Updates: the optional effect an edge applies to the environment when it
//! fires.

use vstd::prelude::*;

use crate::language::statement::{Statement, StatementModel};

verus! {

/// An update: an optional `Void`-typed statement on an edge.  `None`
/// denotes a pure transition that leaves the environment unchanged.
#[derive(Debug)]
pub struct Update {
    pub node: Option<Statement>,
}

impl View for Update {
    type V = Option<StatementModel>;

    open spec fn view(&self) -> Option<StatementModel> {
        match self.node {
            Some(statement) => Some(statement@),
            None => None,
        }
    }
}

impl DeepView for Update {
    type V = Option<StatementModel>;

    open spec fn deep_view(&self) -> Option<StatementModel> {
        self.view()
    }
}

impl Clone for Update {
    /// Cloning gives an equal value.
    fn clone(&self) -> (r: Self)
        ensures
            r == *self,
    {
        match &self.node {
            Some(statement) => Update { node: Some(statement.clone()) },
            None => Update { node: None },
        }
    }
}

impl PartialEq for Update {
    /// Updates are equal exactly when their statements are.
    fn eq(&self, other: &Self) -> (r: bool) {
        match (&self.node, &other.node) {
            (Some(left), Some(right)) => *left == *right,
            (None, None) => true,
            _ => false,
        }
    }
}

impl Eq for Update {

}

impl vstd::std_specs::cmp::PartialEqSpecImpl for Update {
    open spec fn obeys_eq_spec() -> bool {
        true
    }

    open spec fn eq_spec(&self, other: &Update) -> bool {
        self@ == other@
    }
}

impl Default for Update {
    /// The pure update.
    fn default() -> (r: Self)
        ensures
            r@ is None,
    {
        Self::empty()
    }
}

impl Update {
    /// An update running the given statement.
    pub fn new(statement: &Statement) -> (r: Self)
        ensures
            r@ == Some(statement@),
    {
        Update { node: Some(statement.clone()) }
    }

    /// The pure update: the environment is left unchanged.
    pub fn new_pure() -> (r: Self)
        ensures
            r@ is None,
    {
        Self::empty()
    }

    /// The pure update: the environment is left unchanged.
    pub fn empty() -> (r: Self)
        ensures
            r@ is None,
    {
        Update { node: None }
    }
}

} // verus!
