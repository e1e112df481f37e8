//! Statements of the language: assignment is the only statement form.

use vstd::prelude::*;

use crate::language::expression::{
    expression_identifiers, expression_model, Expression, ExpressionModel,
};
use crate::language::value::{Value, ValueModel};

verus! {

/// Mathematical model of a [`Statement`].
pub enum StatementModel {
    Assigment { identifier: ExpressionModel, value: ExpressionModel },
}

/// A statement: an assignment of an expression's value to an identifier.
/// The left-hand side must evaluate to an identifier; that is checked when
/// the statement is evaluated, not on construction.
#[derive(Debug)]
pub enum Statement {
    Assigment { identifier: Expression, value: Expression },
}

impl PartialEq for Statement {
    /// Statements are equal exactly when their models are.
    fn eq(&self, other: &Self) -> (r: bool) {
        match (self, other) {
            (
                Statement::Assigment { identifier: left_target, value: left_value },
                Statement::Assigment { identifier: right_target, value: right_value },
            ) => *left_target == *right_target && *left_value == *right_value,
        }
    }
}

impl Eq for Statement {

}

impl vstd::std_specs::cmp::PartialEqSpecImpl for Statement {
    open spec fn obeys_eq_spec() -> bool {
        true
    }

    open spec fn eq_spec(&self, other: &Statement) -> bool {
        self@ == other@
    }
}

/// The model of a statement.
pub open spec fn statement_model(s: Statement) -> StatementModel {
    match s {
        Statement::Assigment { identifier, value } => StatementModel::Assigment {
            identifier: expression_model(identifier),
            value: expression_model(value),
        },
    }
}

impl View for Statement {
    type V = StatementModel;

    open spec fn view(&self) -> StatementModel {
        statement_model(*self)
    }
}

impl Clone for Statement {
    /// Cloning gives an equal value.
    fn clone(&self) -> (r: Self)
        ensures
            r == *self,
    {
        match self {
            Statement::Assigment { identifier, value } => Statement::Assigment {
                identifier: identifier.clone(),
                value: value.clone(),
            },
        }
    }
}

/// The identifiers occurring in a statement model: those of the target
/// expression followed by those of the value expression.
pub open spec fn statement_identifiers(s: StatementModel) -> Seq<Seq<char>> {
    match s {
        StatementModel::Assigment { identifier, value } => expression_identifiers(identifier)
            + expression_identifiers(value),
    }
}

impl Statement {
    /// An assignment of `value` to the identifier `identifier` evaluates to.
    pub fn new_assignment(identifier: &Expression, value: &Expression) -> (r: Statement)
        ensures
            r@ == (StatementModel::Assigment { identifier: identifier@, value: value@ }),
    {
        Statement::Assigment { identifier: identifier.clone(), value: value.clone() }
    }

    /// An assignment of a literal value to a named identifier.
    pub fn new_simple_assignment(identifier: &str, value: &Value) -> (r: Statement)
        ensures
            r@ == (StatementModel::Assigment {
                identifier: ExpressionModel::Literal(ValueModel::Identifier(identifier@)),
                value: ExpressionModel::Literal(value@),
            }),
    {
        Statement::Assigment {
            identifier: Expression::new_identifier(identifier),
            value: Expression::Literal(value.clone()),
        }
    }

    /// The identifiers referenced by this statement, target first.
    pub fn identifiers(&self) -> (r: Vec<String>)
        ensures
            r.deep_view() == statement_identifiers(self@),
    {
        match self {
            Statement::Assigment { identifier, value } => {
                let mut identifiers = identifier.identifiers();
                let mut value_identifiers = value.identifiers();
                identifiers.append(&mut value_identifiers);
                proof {
                    assert(identifiers.deep_view() =~= statement_identifiers(self@));
                }
                identifiers
            },
        }
    }
}

} // verus!
