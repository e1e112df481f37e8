use guarded_automata::language::environment::Environment;
use guarded_automata::language::evaluation::Evaluation;
use guarded_automata::language::expression::{BinaryOperator, Expression, UnaryOperator};
use guarded_automata::language::interpreter::Interpreter;
use guarded_automata::language::statement::Statement;
use guarded_automata::language::value::Value;

fn new_logical_and(lhs: bool, rhs: bool) -> Expression {
    Expression::new_binary_expression(
        &Expression::new_boolean(&lhs),
        &BinaryOperator::LogicalAnd,
        &Expression::new_boolean(&rhs),
    )
}

fn new_logical_or(lhs: bool, rhs: bool) -> Expression {
    Expression::new_binary_expression(
        &Expression::new_boolean(&lhs),
        &BinaryOperator::LogicalOr,
        &Expression::new_boolean(&rhs),
    )
}

fn new_logical_implication(lhs: bool, rhs: bool) -> Expression {
    Expression::new_binary_expression(
        &Expression::new_boolean(&lhs),
        &BinaryOperator::Implication,
        &Expression::new_boolean(&rhs),
    )
}

fn new_logical_bi_implication(lhs: bool, rhs: bool) -> Expression {
    Expression::new_binary_expression(
        &Expression::new_boolean(&lhs),
        &BinaryOperator::BiImplication,
        &Expression::new_boolean(&rhs),
    )
}

fn new_logical_equal(lhs: bool, rhs: bool) -> Expression {
    Expression::new_binary_expression(
        &Expression::new_boolean(&lhs),
        &BinaryOperator::Equal,
        &Expression::new_boolean(&rhs),
    )
}

fn new_logical_not_equal(lhs: bool, rhs: bool) -> Expression {
    Expression::new_binary_expression(
        &Expression::new_boolean(&lhs),
        &BinaryOperator::NotEqual,
        &Expression::new_boolean(&rhs),
    )
}

#[test]
fn test_interpreter_eval_logical_expressions() {
    let expressions = vec![
        // AND
        (new_logical_and(true, true), Evaluation::new_true()),
        (new_logical_and(false, true), Evaluation::new_false()),
        (new_logical_and(true, false), Evaluation::new_false()),
        (new_logical_and(false, false), Evaluation::new_false()),
        // OR
        (new_logical_or(true, true), Evaluation::new_true()),
        (new_logical_or(false, true), Evaluation::new_true()),
        (new_logical_or(true, false), Evaluation::new_true()),
        (new_logical_or(false, false), Evaluation::new_false()),
        // IMPLICATION
        (new_logical_implication(true, true), Evaluation::new_true()),
        (new_logical_implication(false, true), Evaluation::new_true()),
        (
            new_logical_implication(true, false),
            Evaluation::new_false(),
        ),
        (
            new_logical_implication(false, false),
            Evaluation::new_true(),
        ),
        // BI-IMPLICATION
        (
            new_logical_bi_implication(true, true),
            Evaluation::new_true(),
        ),
        (
            new_logical_bi_implication(false, true),
            Evaluation::new_false(),
        ),
        (
            new_logical_bi_implication(true, false),
            Evaluation::new_false(),
        ),
        (
            new_logical_bi_implication(false, false),
            Evaluation::new_true(),
        ),
        // EQUAL
        (new_logical_equal(true, true), Evaluation::new_true()),
        (new_logical_equal(false, true), Evaluation::new_false()),
        (new_logical_equal(true, false), Evaluation::new_false()),
        (new_logical_equal(false, false), Evaluation::new_true()),
        // NOT-EQUAL
        (new_logical_not_equal(true, true), Evaluation::new_false()),
        (new_logical_not_equal(false, true), Evaluation::new_true()),
        (new_logical_not_equal(true, false), Evaluation::new_true()),
        (new_logical_not_equal(false, false), Evaluation::new_false()),
    ];

    let mut interpreter = Interpreter::default();
    for (expression, expected) in expressions {
        let result = interpreter.eval_expression(&expression).ok().unwrap();

        assert_eq!(
            result, expected,
            "expression {:?} expected {:?} but got {:?}",
            expression, expected, result
        );
    }
}

#[test]
fn interpreter_eval_logical_expressions_associative_property() {
    let operators = vec![
        BinaryOperator::LogicalAnd,
        BinaryOperator::LogicalOr,
        BinaryOperator::BiImplication,
    ];
    let values = vec![true, false];

    let mut interpreter = Interpreter::default();

    for operator in operators {
        for first in values.clone() {
            for second in values.clone() {
                for third in values.clone() {
                    let lhs = Expression::new_binary_expression(
                        &Expression::new_boolean(&first),
                        &operator,
                        &Expression::new_binary_expression(
                            &Expression::new_boolean(&second),
                            &operator,
                            &Expression::new_boolean(&third),
                        ),
                    );
                    let rhs = Expression::new_binary_expression(
                        &Expression::new_binary_expression(
                            &Expression::new_boolean(&first),
                            &operator,
                            &Expression::new_boolean(&second),
                        ),
                        &operator,
                        &Expression::new_boolean(&third),
                    );

                    let lhs_evaluation = interpreter.eval_expression(&lhs).ok().unwrap();
                    let rhs_evaluation = interpreter.eval_expression(&rhs).ok().unwrap();

                    assert_eq!(
                        lhs_evaluation, rhs_evaluation,
                        "Expected associativity {:?}={:?} but got {:?}!={:?}",
                        lhs, rhs, lhs_evaluation, rhs_evaluation
                    );
                }
            }
        }
    }
}

#[test]
fn interpreter_eval_logical_expressions_commutative_property() {
    let operators = vec![
        BinaryOperator::LogicalAnd,
        BinaryOperator::LogicalOr,
        BinaryOperator::BiImplication,
    ];
    let values = vec![true, false];

    let mut interpreter = Interpreter::default();

    for operator in operators {
        for first in values.clone() {
            for second in values.clone() {
                let lhs = Expression::new_binary_expression(
                    &Expression::new_boolean(&first),
                    &operator,
                    &Expression::new_boolean(&second),
                );
                let rhs = Expression::new_binary_expression(
                    &Expression::new_boolean(&second),
                    &operator,
                    &Expression::new_boolean(&first),
                );

                let lhs_evaluation = interpreter.eval_expression(&lhs).ok().unwrap();
                let rhs_evaluation = interpreter.eval_expression(&rhs).ok().unwrap();

                assert_eq!(
                    lhs_evaluation, rhs_evaluation,
                    "Expected commutative {:?}={:?} but got {:?}!={:?}",
                    lhs, rhs, lhs_evaluation, rhs_evaluation
                );
            }
        }
    }
}

#[test]
fn interpreter_eval_bool_literal_returns_value() {
    let environment = Environment::new_empty();
    let mut interpreter = Interpreter::new(&environment);
    let boolean = Expression::Literal(Value::Bool(false));

    let result = interpreter.eval_expression(&boolean).unwrap();

    assert_eq!(result, Evaluation::new_false());
}

#[test]
fn interpreter_eval_identifier_returns_stored_value() {
    let mut environment = Environment::new_empty();
    environment.insert("a", &Value::Bool(true));
    let mut interpreter = Interpreter::new(&environment);
    let identifier = Expression::Literal(Value::Identifier(String::from("a")));

    let result = interpreter.eval_expression(&identifier).unwrap();

    assert_eq!(result, Evaluation::new_true());
}

#[test]
fn interpreter_eval_unknown_identifier_panics() {
    let environment = Environment::new_empty();
    let mut interpreter = Interpreter::new(&environment);
    let literal = Expression::Literal(Value::Identifier(String::from("unknown identifier")));

    let result = interpreter.eval_expression(&literal);

    assert!(result.is_err());
}

#[test]
fn interpreter_eval_correct_assignment_returns_none() {
    let mut environment = Environment::new_empty();
    environment.insert("a", &Value::Bool(true));
    let mut interpreter = Interpreter::new(&environment);
    let assignment = Statement::new_simple_assignment("a", &Value::new_false());

    let result = interpreter.eval_statement(&assignment);

    assert_eq!(result, None);
}

#[test]
fn interpreter_eval_assignment_unknown_identifier() {
    let mut environment = Environment::new_empty();
    environment.insert("a", &Value::Bool(true));
    let mut interpreter = Interpreter::new(&environment);
    let assignment = Statement::new_simple_assignment("unknown", &Value::new_false());

    let result = interpreter.eval_statement(&assignment);

    assert_ne!(result, None);
}

#[test]
fn interpreter_eval_assignment_incorrect_identifier_value_type() {
    let mut environment = Environment::new_empty();
    environment.insert("a", &Value::Bool(true));
    let mut interpreter = Interpreter::new(&environment);
    let assignment = Statement::new_assignment(
        &Expression::new_boolean(&false),
        &Expression::new_boolean(&false),
    );

    let result = interpreter.eval_statement(&assignment);

    assert_ne!(result, None);
}

#[test]
fn interpreter_eval_negation_inverts_the_operand() {
    let mut interpreter = Interpreter::empty();
    let negated_true = Expression::Unary(
        UnaryOperator::Negation,
        Box::new(Expression::new_boolean(&true)),
    );
    let negated_false = Expression::Unary(
        UnaryOperator::Negation,
        Box::new(Expression::new_boolean(&false)),
    );

    assert_eq!(
        interpreter.eval_expression(&negated_true).unwrap(),
        Evaluation::new_false()
    );
    assert_eq!(
        interpreter.eval_expression(&negated_false).unwrap(),
        Evaluation::new_true()
    );
}

#[test]
fn interpreter_eval_guard_twice_yields_same_evaluation() {
    let mut environment = Environment::new_empty();
    environment.insert("a", &Value::Bool(true));
    let mut interpreter = Interpreter::new(&environment);
    let guard = Expression::new_logical_and(
        &Expression::new_identifier("a"),
        &Expression::new_boolean(&true),
    );

    let first = interpreter.eval_expression(&guard);
    let second = interpreter.eval_expression(&guard);

    assert_eq!(first, second);
    assert_eq!(first.unwrap(), Evaluation::new_true());
}

#[test]
fn interpreter_eval_parenthesized_keeps_the_meaning() {
    let mut interpreter = Interpreter::empty();
    let inner = Expression::new_logical_or(
        &Expression::new_boolean(&false),
        &Expression::new_boolean(&true),
    );
    let wrapped = Expression::new_parenthesized(&inner);

    assert_eq!(
        interpreter.eval_expression(&wrapped).unwrap(),
        Evaluation::new_true()
    );
}

#[test]
fn interpreter_eval_statement_updates_environment_copy() {
    let mut environment = Environment::new_empty();
    environment.insert("a", &Value::Bool(true));
    let mut interpreter = Interpreter::new(&environment);
    let assignment = Statement::new_simple_assignment("a", &Value::new_false());

    let result = interpreter.eval_statement(&assignment);

    assert_eq!(result, None);
    let updated = interpreter.get_environment();
    assert_eq!(updated.get_value("a").unwrap(), &Value::Bool(false));
    // The environment handed in is untouched.
    assert_eq!(environment.get_value("a").unwrap(), &Value::Bool(true));
}
