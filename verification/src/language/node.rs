//! Flat language nodes: a literal value or a direct assignment between
//! values, without nested expressions.

use vstd::prelude::*;

use crate::language::value::{Value, ValueModel};

verus! {

/// Mathematical model of a [`Node`].
pub enum NodeModel {
    Literal(ValueModel),
    Assigment { identifier: ValueModel, value: ValueModel },
}

/// A flat term: a literal value, or an assignment of one value to another.
#[derive(Debug)]
pub enum Node {
    Literal(Value),
    Assigment { identifier: Value, value: Value },
}

impl View for Node {
    type V = NodeModel;

    open spec fn view(&self) -> NodeModel {
        match self {
            Node::Literal(value) => NodeModel::Literal(value@),
            Node::Assigment { identifier, value } => NodeModel::Assigment {
                identifier: identifier@,
                value: value@,
            },
        }
    }
}

impl PartialEq for Node {
    /// Nodes are equal exactly when their models are.
    fn eq(&self, other: &Self) -> (r: bool) {
        match (self, other) {
            (Node::Literal(left), Node::Literal(right)) => left.value_eq(right),
            (
                Node::Assigment { identifier: left_target, value: left_value },
                Node::Assigment { identifier: right_target, value: right_value },
            ) => left_target.value_eq(right_target) && left_value.value_eq(right_value),
            _ => false,
        }
    }
}

impl Eq for Node {

}

impl vstd::std_specs::cmp::PartialEqSpecImpl for Node {
    open spec fn obeys_eq_spec() -> bool {
        true
    }

    open spec fn eq_spec(&self, other: &Node) -> bool {
        self@ == other@
    }
}

impl Clone for Node {
    /// Cloning gives an equal value.
    fn clone(&self) -> (r: Self)
        ensures
            r == *self,
    {
        match self {
            Node::Literal(value) => Node::Literal(value.clone()),
            Node::Assigment { identifier, value } => Node::Assigment {
                identifier: identifier.clone(),
                value: value.clone(),
            },
        }
    }
}

/// The identifiers occurring in a value model: its name if it is an
/// identifier, nothing if it is a boolean.
pub open spec fn value_identifiers(v: ValueModel) -> Seq<Seq<char>> {
    match v {
        ValueModel::Bool(_) => Seq::empty(),
        ValueModel::Identifier(name) => seq![name],
    }
}

/// The identifiers occurring in a node model, assignment target first.
pub open spec fn node_identifiers(n: NodeModel) -> Seq<Seq<char>> {
    match n {
        NodeModel::Literal(value) => value_identifiers(value),
        NodeModel::Assigment { identifier, value } => value_identifiers(identifier)
            + value_identifiers(value),
    }
}

impl Node {
    /// A node holding the given literal value.
    pub fn new_literal(value: &Value) -> (r: Node)
        ensures
            r@ == NodeModel::Literal(value@),
    {
        Node::Literal(value.clone())
    }

    /// A boolean literal node.
    pub fn new_boolean(value: &bool) -> (r: Node)
        ensures
            r@ == NodeModel::Literal(ValueModel::Bool(*value)),
    {
        Node::Literal(Value::Bool(*value))
    }

    /// An identifier literal node.
    pub fn new_identifier(ident: &str) -> (r: Node)
        ensures
            r@ == NodeModel::Literal(ValueModel::Identifier(ident@)),
    {
        Self::new_literal(&Value::new_identifier(ident))
    }

    /// An assignment of a literal value to a named identifier.
    pub fn new_assignment(identifier: &str, value: &Value) -> (r: Node)
        ensures
            r@ == (NodeModel::Assigment {
                identifier: ValueModel::Identifier(identifier@),
                value: value@,
            }),
    {
        Node::Assigment { identifier: Value::new_identifier(identifier), value: value.clone() }
    }

    /// The identifiers referenced by this node, assignment target first.
    pub fn identifiers(&self) -> (r: Vec<String>)
        ensures
            r.deep_view() == node_identifiers(self@),
    {
        let mut identifiers: Vec<String> = Vec::new();
        match self {
            Node::Literal(literal) => {
                if let Value::Identifier(ident) = literal {
                    identifiers.push(ident.clone());
                }
            },
            Node::Assigment { identifier, value } => {
                if let Value::Identifier(ident) = identifier {
                    identifiers.push(ident.clone());
                }
                if let Value::Identifier(ident) = value {
                    identifiers.push(ident.clone());
                }
            },
        }
        proof {
            assert(identifiers.deep_view() =~= node_identifiers(self@));
        }
        identifiers
    }
}

} // verus!
