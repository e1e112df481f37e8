//! Boolean expressions: literals, parentheses, binary and unary operators.

use vstd::prelude::*;

use crate::language::value::{Value, ValueModel};

verus! {

/// A binary connective of the language.
#[derive(Debug, Clone, Copy, PartialEq, Eq, Structural)]
pub enum BinaryOperator {
    LogicalAnd,
    LogicalOr,
    Equal,
    NotEqual,
    Implication,
    BiImplication,
}

/// The unary connective of the language.
#[derive(Debug, Clone, Copy, PartialEq, Eq, Structural)]
pub enum UnaryOperator {
    Negation,
}

/// Mathematical model of an [`Expression`].
pub enum ExpressionModel {
    Literal(ValueModel),
    Parenthesized(Box<ExpressionModel>),
    Binary(Box<ExpressionModel>, BinaryOperator, Box<ExpressionModel>),
    Unary(UnaryOperator, Box<ExpressionModel>),
}

/// A boolean expression over literal values.  Each node owns its children
/// outright; expressions are pure trees.
#[derive(Debug)]
pub enum Expression {
    Literal(Value),
    Parenthesized(Box<Expression>),
    Binary(Box<Expression>, BinaryOperator, Box<Expression>),
    Unary(UnaryOperator, Box<Expression>),
}

impl Clone for Expression {
    /// Cloning gives an equal value.
    fn clone(&self) -> (r: Self)
        ensures
            r == *self,
        decreases self,
    {
        match self {
            Expression::Literal(value) => Expression::Literal(value.clone()),
            Expression::Parenthesized(inner) => Expression::Parenthesized(
                Box::new((**inner).clone()),
            ),
            Expression::Binary(lhs, op, rhs) => Expression::Binary(
                Box::new((**lhs).clone()),
                *op,
                Box::new((**rhs).clone()),
            ),
            Expression::Unary(op, inner) => Expression::Unary(*op, Box::new((**inner).clone())),
        }
    }
}

fn expression_eq(a: &Expression, b: &Expression) -> (r: bool)
    ensures
        r == (a@ == b@),
    decreases a,
{
    match (a, b) {
        (Expression::Literal(left), Expression::Literal(right)) => left.value_eq(right),
        (Expression::Parenthesized(left), Expression::Parenthesized(right)) => expression_eq(
            left,
            right,
        ),
        (
            Expression::Binary(left_lhs, left_op, left_rhs),
            Expression::Binary(right_lhs, right_op, right_rhs),
        ) => *left_op == *right_op && expression_eq(left_lhs, right_lhs) && expression_eq(
            left_rhs,
            right_rhs,
        ),
        (Expression::Unary(left_op, left_inner), Expression::Unary(right_op, right_inner)) => *left_op
            == *right_op && expression_eq(left_inner, right_inner),
        _ => false,
    }
}

impl PartialEq for Expression {
    /// Expressions are equal exactly when their models are.
    fn eq(&self, other: &Self) -> (r: bool) {
        expression_eq(self, other)
    }
}

impl Eq for Expression {

}

impl vstd::std_specs::cmp::PartialEqSpecImpl for Expression {
    open spec fn obeys_eq_spec() -> bool {
        true
    }

    open spec fn eq_spec(&self, other: &Expression) -> bool {
        self@ == other@
    }
}

/// The model of an expression tree.
pub open spec fn expression_model(e: Expression) -> ExpressionModel
    decreases e,
{
    match e {
        Expression::Literal(value) => ExpressionModel::Literal(value@),
        Expression::Parenthesized(inner) => ExpressionModel::Parenthesized(
            Box::new(expression_model(*inner)),
        ),
        Expression::Binary(lhs, op, rhs) => ExpressionModel::Binary(
            Box::new(expression_model(*lhs)),
            op,
            Box::new(expression_model(*rhs)),
        ),
        Expression::Unary(op, inner) => ExpressionModel::Unary(
            op,
            Box::new(expression_model(*inner)),
        ),
    }
}

impl View for Expression {
    type V = ExpressionModel;

    open spec fn view(&self) -> ExpressionModel {
        expression_model(*self)
    }
}

/// The identifiers occurring in an expression model, in preorder, with
/// repeated occurrences kept.
pub open spec fn expression_identifiers(e: ExpressionModel) -> Seq<Seq<char>>
    decreases e,
{
    match e {
        ExpressionModel::Literal(value) => match value {
            ValueModel::Bool(_) => Seq::empty(),
            ValueModel::Identifier(name) => seq![name],
        },
        ExpressionModel::Parenthesized(inner) => expression_identifiers(*inner),
        ExpressionModel::Binary(lhs, _, rhs) => expression_identifiers(*lhs)
            + expression_identifiers(*rhs),
        ExpressionModel::Unary(_, inner) => expression_identifiers(*inner),
    }
}

impl Expression {
    /// An expression holding the given literal value.
    pub fn new_literal(value: &Value) -> (r: Expression)
        ensures
            r@ == ExpressionModel::Literal(value@),
    {
        Expression::Literal(value.clone())
    }

    /// A boolean literal expression.
    pub fn new_boolean(value: &bool) -> (r: Expression)
        ensures
            r@ == ExpressionModel::Literal(ValueModel::Bool(*value)),
    {
        Expression::Literal(Value::Bool(*value))
    }

    /// An identifier literal expression.
    pub fn new_identifier(ident: &str) -> (r: Expression)
        ensures
            r@ == ExpressionModel::Literal(ValueModel::Identifier(ident@)),
    {
        Self::new_literal(&Value::new_identifier(ident))
    }

    /// The expression `lhs op rhs`.
    pub fn new_binary_expression(lhs: &Expression, op: &BinaryOperator, rhs: &Expression) -> (r:
        Expression)
        ensures
            r@ == ExpressionModel::Binary(Box::new(lhs@), *op, Box::new(rhs@)),
    {
        Expression::Binary(Box::new(lhs.clone()), *op, Box::new(rhs.clone()))
    }

    /// The expression `(inner)`.
    pub fn new_parenthesized(expression: &Expression) -> (r: Expression)
        ensures
            r@ == ExpressionModel::Parenthesized(Box::new(expression@)),
    {
        Self::Parenthesized(Box::new(expression.clone()))
    }

    /// The expression `lhs && rhs`.
    pub fn new_logical_and(lhs: &Expression, rhs: &Expression) -> (r: Expression)
        ensures
            r@ == ExpressionModel::Binary(Box::new(lhs@), BinaryOperator::LogicalAnd, Box::new(rhs@)),
    {
        Expression::new_binary_expression(lhs, &BinaryOperator::LogicalAnd, rhs)
    }

    /// The expression `lhs || rhs`.
    pub fn new_logical_or(lhs: &Expression, rhs: &Expression) -> (r: Expression)
        ensures
            r@ == ExpressionModel::Binary(Box::new(lhs@), BinaryOperator::LogicalOr, Box::new(rhs@)),
    {
        Expression::new_binary_expression(lhs, &BinaryOperator::LogicalOr, rhs)
    }

    /// The expression `lhs --> rhs`.
    pub fn new_logical_implication(lhs: &Expression, rhs: &Expression) -> (r: Expression)
        ensures
            r@ == ExpressionModel::Binary(Box::new(lhs@), BinaryOperator::Implication, Box::new(rhs@)),
    {
        Expression::new_binary_expression(lhs, &BinaryOperator::Implication, rhs)
    }

    /// The expression `lhs <--> rhs`.
    pub fn new_logical_bi_implication(lhs: &Expression, rhs: &Expression) -> (r: Expression)
        ensures
            r@ == ExpressionModel::Binary(
                Box::new(lhs@),
                BinaryOperator::BiImplication,
                Box::new(rhs@),
            ),
    {
        Expression::new_binary_expression(lhs, &BinaryOperator::BiImplication, rhs)
    }

    /// The expression `lhs == rhs`.
    pub fn new_logical_equal(lhs: &Expression, rhs: &Expression) -> (r: Expression)
        ensures
            r@ == ExpressionModel::Binary(Box::new(lhs@), BinaryOperator::Equal, Box::new(rhs@)),
    {
        Expression::new_binary_expression(lhs, &BinaryOperator::Equal, rhs)
    }

    /// The expression `lhs != rhs`.
    pub fn new_logical_not_equal(lhs: &Expression, rhs: &Expression) -> (r: Expression)
        ensures
            r@ == ExpressionModel::Binary(Box::new(lhs@), BinaryOperator::NotEqual, Box::new(rhs@)),
    {
        Expression::new_binary_expression(lhs, &BinaryOperator::NotEqual, rhs)
    }

    /// The identifiers referenced by this expression, in preorder, with
    /// repeated occurrences kept.
    pub fn identifiers(&self) -> (r: Vec<String>)
        ensures
            r.deep_view() == expression_identifiers(self@),
        decreases self,
    {
        match self {
            Expression::Literal(literal) => {
                let mut identifiers: Vec<String> = Vec::new();
                if let Value::Identifier(ident) = literal {
                    identifiers.push(ident.clone());
                }
                proof {
                    assert(identifiers.deep_view() =~= expression_identifiers(self@));
                }
                identifiers
            },
            Expression::Parenthesized(inner) => inner.identifiers(),
            Expression::Binary(lhs, _, rhs) => {
                let mut identifiers = lhs.identifiers();
                let mut rhs_identifiers = rhs.identifiers();
                identifiers.append(&mut rhs_identifiers);
                proof {
                    assert(identifiers.deep_view() =~= expression_identifiers(self@));
                }
                identifiers
            },
            Expression::Unary(_, inner) => inner.identifiers(),
        }
    }
}

} // verus!
