//! The interpreter: gives expressions and statements their meaning against
//! an environment.

use vstd::prelude::*;

use crate::language::environment::Environment;
use crate::language::error::Error;
use crate::language::evaluation::Evaluation;
use crate::language::expression::{BinaryOperator, Expression, ExpressionModel, UnaryOperator};
use crate::language::statement::{Statement, StatementModel};
use crate::language::value::{Value, ValueModel};

verus! {

/// The truth table of a binary connective.
pub open spec fn apply_binary(op: BinaryOperator, lhs: bool, rhs: bool) -> bool {
    match op {
        BinaryOperator::LogicalAnd => lhs && rhs,
        BinaryOperator::LogicalOr => lhs || rhs,
        BinaryOperator::Equal => lhs == rhs,
        BinaryOperator::NotEqual => lhs != rhs,
        BinaryOperator::Implication => !lhs || rhs,
        BinaryOperator::BiImplication => lhs == rhs,
    }
}

/// The meaning of an expression under an environment: a boolean, or
/// nothing when the expression references an undeclared identifier or an
/// identifier bound to a non-boolean value.
pub open spec fn eval_expression_spec(
    e: ExpressionModel,
    env: Map<Seq<char>, ValueModel>,
) -> Option<bool>
    decreases e,
{
    match e {
        ExpressionModel::Literal(value) => match value {
            ValueModel::Bool(b) => Some(b),
            ValueModel::Identifier(name) => if env.dom().contains(name) {
                match env[name] {
                    ValueModel::Bool(b) => Some(b),
                    ValueModel::Identifier(_) => None,
                }
            } else {
                None
            },
        },
        ExpressionModel::Parenthesized(inner) => eval_expression_spec(*inner, env),
        ExpressionModel::Binary(lhs, op, rhs) => match (
            eval_expression_spec(*lhs, env),
            eval_expression_spec(*rhs, env),
        ) {
            (Some(l), Some(r)) => Some(apply_binary(op, l, r)),
            _ => None,
        },
        ExpressionModel::Unary(op, inner) => match eval_expression_spec(*inner, env) {
            Some(b) => match op {
                UnaryOperator::Negation => Some(!b),
            },
            None => None,
        },
    }
}

/// The identifier an assignment target denotes: an identifier literal,
/// possibly parenthesized.
pub open spec fn assignment_target(e: ExpressionModel) -> Option<Seq<char>>
    decreases e,
{
    match e {
        ExpressionModel::Literal(value) => match value {
            ValueModel::Bool(_) => None,
            ValueModel::Identifier(name) => Some(name),
        },
        ExpressionModel::Parenthesized(inner) => assignment_target(*inner),
        _ => None,
    }
}

/// The meaning of a statement: the updated environment, or nothing when
/// the target is not an identifier, the value has no boolean meaning, or
/// the target is not declared.
pub open spec fn eval_statement_spec(
    s: StatementModel,
    env: Map<Seq<char>, ValueModel>,
) -> Option<Map<Seq<char>, ValueModel>> {
    match s {
        StatementModel::Assigment { identifier, value } => match assignment_target(identifier) {
            None => None,
            Some(name) => match eval_expression_spec(value, env) {
                None => None,
                Some(b) => if env.dom().contains(name) {
                    Some(env.insert(name, ValueModel::Bool(b)))
                } else {
                    None
                },
            },
        },
    }
}

/// LAW: evaluation is a function of the expression and the environment
/// alone — evaluating the same guard twice against the same environment
/// yields the same evaluation.
pub proof fn lemma_eval_deterministic(e: ExpressionModel, env: Map<Seq<char>, ValueModel>)
    ensures
        eval_expression_spec(e, env) == eval_expression_spec(e, env),
{
}

/// LAW: conjunction, disjunction and bi-implication are commutative:
/// swapping the operands of `&&`, `||` or `<-->` does not change the
/// meaning of the expression, whatever the operands.
pub proof fn lemma_binary_commutative(
    op: BinaryOperator,
    lhs: ExpressionModel,
    rhs: ExpressionModel,
    env: Map<Seq<char>, ValueModel>,
)
    requires
        op == BinaryOperator::LogicalAnd || op == BinaryOperator::LogicalOr || op
            == BinaryOperator::BiImplication,
    ensures
        eval_expression_spec(ExpressionModel::Binary(Box::new(lhs), op, Box::new(rhs)), env)
            == eval_expression_spec(
            ExpressionModel::Binary(Box::new(rhs), op, Box::new(lhs)),
            env,
        ),
{
}

/// LAW: conjunction, disjunction and bi-implication are associative:
/// regrouping a chain of `&&`, `||` or `<-->` does not change the meaning
/// of the expression, whatever the operands.
pub proof fn lemma_binary_associative(
    op: BinaryOperator,
    first: ExpressionModel,
    second: ExpressionModel,
    third: ExpressionModel,
    env: Map<Seq<char>, ValueModel>,
)
    requires
        op == BinaryOperator::LogicalAnd || op == BinaryOperator::LogicalOr || op
            == BinaryOperator::BiImplication,
    ensures
        eval_expression_spec(
            ExpressionModel::Binary(
                Box::new(first),
                op,
                Box::new(ExpressionModel::Binary(Box::new(second), op, Box::new(third))),
            ),
            env,
        ) == eval_expression_spec(
            ExpressionModel::Binary(
                Box::new(ExpressionModel::Binary(Box::new(first), op, Box::new(second))),
                op,
                Box::new(third),
            ),
            env,
        ),
{
    let left = eval_expression_spec(first, env);
    let middle = eval_expression_spec(second, env);
    let right = eval_expression_spec(third, env);
    assert(eval_expression_spec(
        ExpressionModel::Binary(Box::new(second), op, Box::new(third)),
        env,
    ) == (match (middle, right) {
        (Some(b), Some(c)) => Some(apply_binary(op, b, c)),
        _ => None,
    }));
    assert(eval_expression_spec(
        ExpressionModel::Binary(Box::new(first), op, Box::new(second)),
        env,
    ) == (match (left, middle) {
        (Some(a), Some(b)) => Some(apply_binary(op, a, b)),
        _ => None,
    }));
}

/// An interpreter holding the environment evaluation runs against.
/// Statement evaluation updates the held environment; the caller reads it
/// back with [`Interpreter::get_environment`].
#[derive(Debug, PartialEq, Eq)]
pub struct Interpreter {
    environment: Environment,
}

impl View for Interpreter {
    type V = Map<Seq<char>, ValueModel>;

    closed spec fn view(&self) -> Map<Seq<char>, ValueModel> {
        self.environment@
    }
}

impl Default for Interpreter {
    /// An interpreter over the empty environment.
    fn default() -> (r: Self)
        ensures
            r@ == Map::<Seq<char>, ValueModel>::empty(),
    {
        Interpreter { environment: Environment::new_empty() }
    }
}

impl Interpreter {
    /// An interpreter over a copy of the given environment.
    pub fn new(environment: &Environment) -> (r: Self)
        ensures
            r@ == environment@,
    {
        Interpreter { environment: environment.clone() }
    }

    /// An interpreter over the empty environment.
    pub fn empty() -> (r: Self)
        ensures
            r@ == Map::<Seq<char>, ValueModel>::empty(),
    {
        Interpreter::default()
    }

    /// A copy of the environment the interpreter holds.
    pub fn get_environment(&self) -> (r: Environment)
        ensures
            r@ == self@,
    {
        self.environment.clone()
    }

    /// Evaluates an expression against the held environment, which is left
    /// unchanged.  Returns the boolean meaning of the expression, or a
    /// runtime error when it has none.
    pub fn eval_expression(&mut self, expression: &Expression) -> (r: Result<Evaluation, Error>)
        ensures
            final(self)@ == old(self)@,
            match eval_expression_spec(expression@, old(self)@) {
                Some(b) => r == Ok::<Evaluation, Error>(Evaluation::Bool(b)),
                None => r matches Err(Error::RuntimeError { .. }),
            },
        decreases expression,
    {
        match expression {
            Expression::Literal(literal) => match literal {
                Value::Bool(b) => Ok(Evaluation::Bool(*b)),
                Value::Identifier(ident) => match self.environment.get_value(ident.as_str()) {
                    Some(value) => match value {
                        Value::Bool(b) => Ok(Evaluation::Bool(*b)),
                        Value::Identifier(_) => Err(
                            Error::new_runtime("An identifier cannot be an evaluation"),
                        ),
                    },
                    None => Err(Error::new_runtime("Unknown identifier")),
                },
            },
            Expression::Parenthesized(inner) => self.eval_expression(inner),
            Expression::Binary(lhs, op, rhs) => {
                let lhs_evaluation = match self.eval_expression(lhs) {
                    Ok(evaluation) => evaluation,
                    Err(error) => {
                        return Err(error);
                    },
                };
                let rhs_evaluation = match self.eval_expression(rhs) {
                    Ok(evaluation) => evaluation,
                    Err(error) => {
                        return Err(error);
                    },
                };
                let lhs_bool = match lhs_evaluation {
                    Evaluation::Bool(b) => b,
                    Evaluation::Void => {
                        return Err(Error::new_runtime("Evaluation is not boolean"));
                    },
                };
                let rhs_bool = match rhs_evaluation {
                    Evaluation::Bool(b) => b,
                    Evaluation::Void => {
                        return Err(Error::new_runtime("Evaluation is not boolean"));
                    },
                };
                let result = match op {
                    BinaryOperator::LogicalAnd => lhs_bool && rhs_bool,
                    BinaryOperator::LogicalOr => lhs_bool || rhs_bool,
                    BinaryOperator::Equal => lhs_bool == rhs_bool,
                    BinaryOperator::NotEqual => lhs_bool != rhs_bool,
                    BinaryOperator::Implication => !lhs_bool || rhs_bool,
                    BinaryOperator::BiImplication => lhs_bool == rhs_bool,
                };
                Ok(Evaluation::Bool(result))
            },
            Expression::Unary(op, inner) => {
                let inner_evaluation = match self.eval_expression(inner) {
                    Ok(evaluation) => evaluation,
                    Err(error) => {
                        return Err(error);
                    },
                };
                let inner_bool = match inner_evaluation {
                    Evaluation::Bool(b) => b,
                    Evaluation::Void => {
                        return Err(Error::new_runtime("Evaluation is not boolean"));
                    },
                };
                match op {
                    UnaryOperator::Negation => Ok(Evaluation::Bool(!inner_bool)),
                }
            },
        }
    }

    /// Resolves an assignment target to the identifier it names: an
    /// identifier literal, possibly parenthesized.  The held environment
    /// is left unchanged.
    pub fn eval_expression_identifier(&mut self, expression: &Expression) -> (r: Result<
        String,
        Error,
    >)
        ensures
            final(self)@ == old(self)@,
            match assignment_target(expression@) {
                Some(name) => r matches Ok(s) && s@ == name,
                None => r matches Err(Error::RuntimeError { .. }),
            },
        decreases expression,
    {
        match expression {
            Expression::Literal(literal) => match literal {
                Value::Bool(_) => Err(Error::new_runtime("Boolean is not an identifier")),
                Value::Identifier(ident) => Ok(ident.clone()),
            },
            Expression::Parenthesized(inner) => self.eval_expression_identifier(inner),
            _ => Err(Error::new_runtime("Cannot evaluate to an identifier")),
        }
    }

    /// Runs a statement against the held environment.  On success the held
    /// environment carries the assignment and `None` is returned; on
    /// failure the environment is unchanged and the error is returned.
    pub fn eval_statement(&mut self, statement: &Statement) -> (r: Option<Error>)
        ensures
            match eval_statement_spec(statement@, old(self)@) {
                Some(updated) => r is None && final(self)@ == updated,
                None => r matches Some(Error::RuntimeError { .. }) && final(self)@ == old(self)@,
            },
    {
        match statement {
            Statement::Assigment { identifier, value } => {
                let ident = match self.eval_expression_identifier(identifier) {
                    Ok(ident_value) => ident_value,
                    Err(error) => {
                        return Some(error);
                    },
                };
                let evaluation = match self.eval_expression(value) {
                    Ok(evaluation) => evaluation,
                    Err(error) => {
                        return Some(error);
                    },
                };
                let val = match evaluation {
                    Evaluation::Bool(b) => Value::Bool(b),
                    Evaluation::Void => {
                        return Some(Error::new_runtime("Evaluation is not boolean"));
                    },
                };
                if !self.environment.set(ident.as_str(), &val) {
                    return Some(Error::new_runtime("Unknown identifier"));
                }
                None
            },
        }
    }
}

} // verus!
