//! The type checker: assigns each language term one of the two semantic
//! types against an environment.

use vstd::prelude::*;

use crate::language::environment::Environment;
use crate::language::error::Error;
use crate::language::expression::{BinaryOperator, Expression, ExpressionModel, UnaryOperator};
use crate::language::lang_type::LangType;
use crate::language::statement::{Statement, StatementModel};
use crate::language::value::{Value, ValueModel};

verus! {

/// The type of a value under an environment.  An identifier is typed by
/// chasing its binding; the fuel bounds the chase, so that a cyclic chain
/// of identifier bindings types to nothing rather than forever.
pub open spec fn check_value_spec(
    v: ValueModel,
    env: Map<Seq<char>, ValueModel>,
    fuel: nat,
) -> Option<LangType>
    decreases fuel,
{
    match v {
        ValueModel::Bool(_) => Some(LangType::Logical),
        ValueModel::Identifier(name) => if fuel == 0 {
            None
        } else if env.dom().contains(name) {
            check_value_spec(env[name], env, (fuel - 1) as nat)
        } else {
            None
        },
    }
}

/// The type of an expression under an environment.  A well-typed
/// expression is always `Logical`; `None` marks a type error.
pub open spec fn check_expression_spec(
    e: ExpressionModel,
    env: Map<Seq<char>, ValueModel>,
) -> Option<LangType>
    decreases e,
{
    match e {
        ExpressionModel::Literal(value) => check_value_spec(value, env, env.dom().len()),
        ExpressionModel::Parenthesized(inner) => check_expression_spec(*inner, env),
        ExpressionModel::Binary(lhs, op, rhs) => match (
            check_expression_spec(*lhs, env),
            check_expression_spec(*rhs, env),
        ) {
            (Some(lhs_type), Some(rhs_type)) => match op {
                BinaryOperator::LogicalAnd
                | BinaryOperator::LogicalOr
                | BinaryOperator::Implication
                | BinaryOperator::BiImplication => if lhs_type == LangType::Logical && rhs_type
                    == LangType::Logical {
                    Some(LangType::Logical)
                } else {
                    None
                },
                BinaryOperator::Equal | BinaryOperator::NotEqual => if lhs_type == rhs_type {
                    Some(LangType::Logical)
                } else {
                    None
                },
            },
            _ => None,
        },
        ExpressionModel::Unary(op, inner) => match check_expression_spec(*inner, env) {
            Some(inner_type) => match op {
                UnaryOperator::Negation => if inner_type == LangType::Logical {
                    Some(LangType::Logical)
                } else {
                    None
                },
            },
            None => None,
        },
    }
}

/// The type of a statement: an assignment is always `Void`.
pub open spec fn check_statement_spec(
    s: StatementModel,
    env: Map<Seq<char>, ValueModel>,
) -> Option<LangType> {
    match s {
        StatementModel::Assigment { .. } => Some(LangType::Void),
    }
}

/// A type checker holding the environment terms are typed against.
#[derive(Debug, PartialEq, Eq)]
pub struct TypeChecker {
    environment: Environment,
}

impl View for TypeChecker {
    type V = Map<Seq<char>, ValueModel>;

    closed spec fn view(&self) -> Map<Seq<char>, ValueModel> {
        self.environment@
    }
}

impl Default for TypeChecker {
    /// A type checker over the empty environment.
    fn default() -> (r: Self)
        ensures
            r@ == Map::<Seq<char>, ValueModel>::empty(),
    {
        TypeChecker { environment: Environment::new_empty() }
    }
}

impl TypeChecker {
    /// A type checker over a copy of the given environment.
    pub fn new(environment: &Environment) -> (r: Self)
        ensures
            r@ == environment@,
    {
        TypeChecker { environment: environment.clone() }
    }

    /// A type checker over the empty environment.
    pub fn empty() -> (r: Self)
        ensures
            r@ == Map::<Seq<char>, ValueModel>::empty(),
    {
        TypeChecker::default()
    }

    /// A copy of the environment the type checker holds.
    pub fn get_environment(&self) -> (r: Environment)
        ensures
            r@ == self@,
    {
        self.environment.clone()
    }

    /// The type of an expression, or a type error when it has none.
    pub fn check_expression(&self, expression: &Expression) -> (r: Result<LangType, Error>)
        ensures
            match check_expression_spec(expression@, self@) {
                Some(t) => r == Ok::<LangType, Error>(t),
                None => r matches Err(Error::TypeCheckingError { .. }),
            },
        decreases expression,
    {
        match expression {
            Expression::Literal(literal) => self.check_value(literal),
            Expression::Parenthesized(inner) => self.check_expression(inner),
            Expression::Binary(lhs, op, rhs) => {
                let lhs_type = match self.check_expression(lhs) {
                    Ok(lhs_type) => lhs_type,
                    Err(error) => {
                        return Err(error);
                    },
                };
                let rhs_type = match self.check_expression(rhs) {
                    Ok(rhs_type) => rhs_type,
                    Err(error) => {
                        return Err(error);
                    },
                };
                match op {
                    BinaryOperator::LogicalAnd
                    | BinaryOperator::LogicalOr
                    | BinaryOperator::Implication
                    | BinaryOperator::BiImplication => {
                        if lhs_type == LangType::Logical && rhs_type == LangType::Logical {
                            Ok(LangType::Logical)
                        } else {
                            Err(
                                Error::new_type_checking(
                                    "Cannot apply a logical operator to non-logical operands",
                                ),
                            )
                        }
                    },
                    BinaryOperator::Equal | BinaryOperator::NotEqual => {
                        if lhs_type == rhs_type {
                            Ok(LangType::Logical)
                        } else {
                            Err(
                                Error::new_type_checking(
                                    "Cannot perform equality on two different types",
                                ),
                            )
                        }
                    },
                }
            },
            Expression::Unary(op, inner) => {
                let inner_type = match self.check_expression(inner) {
                    Ok(inner_type) => inner_type,
                    Err(error) => {
                        return Err(error);
                    },
                };
                match op {
                    UnaryOperator::Negation => {
                        if inner_type != LangType::Logical {
                            Err(
                                Error::new_type_checking(
                                    "Cannot perform logical negation on non-logical type",
                                ),
                            )
                        } else {
                            Ok(LangType::Logical)
                        }
                    },
                }
            },
        }
    }

    /// The type of a statement: always `Void`.
    pub fn check_statement(&self, statement: &Statement) -> (r: Result<LangType, Error>)
        ensures
            r == Ok::<LangType, Error>(LangType::Void),
            check_statement_spec(statement@, self@) == Some(LangType::Void),
    {
        match statement {
            Statement::Assigment { .. } => Ok(LangType::Void),
        }
    }

    /// The type of a value, or a type error when it has none.
    pub fn check_value(&self, value: &Value) -> (r: Result<LangType, Error>)
        ensures
            match check_value_spec(value@, self@, self@.dom().len()) {
                Some(t) => r == Ok::<LangType, Error>(t),
                None => r matches Err(Error::TypeCheckingError { .. }),
            },
    {
        let fuel = self.environment.count();
        self.check_value_with(value, fuel)
    }

    /// The type of a value, chasing identifier bindings for at most `fuel`
    /// steps.
    fn check_value_with(&self, value: &Value, fuel: usize) -> (r: Result<LangType, Error>)
        ensures
            match check_value_spec(value@, self@, fuel as nat) {
                Some(t) => r == Ok::<LangType, Error>(t),
                None => r matches Err(Error::TypeCheckingError { .. }),
            },
        decreases fuel,
    {
        match value {
            Value::Bool(_) => Ok(LangType::Logical),
            Value::Identifier(identifier) => {
                if fuel == 0 {
                    return Err(Error::new_type_checking("cyclic identifier binding"));
                }
                match self.environment.get_value(identifier.as_str()) {
                    Some(bound) => self.check_value_with(bound, fuel - 1),
                    None => Err(Error::new_type_checking("unknown identifier")),
                }
            },
        }
    }
}

} // verus!
