use guarded_automata::language::environment::Environment;
use guarded_automata::language::expression::Expression;
use guarded_automata::language::lang_type::LangType;
use guarded_automata::language::statement::Statement;
use guarded_automata::language::type_checker::TypeChecker;
use guarded_automata::language::value::Value;

#[test]
fn type_checker_default_is_empty_environment() {
    let type_checker = TypeChecker::default();

    assert_eq!(type_checker.get_environment(), Environment::new_empty());
}

#[test]
fn type_checker_empty_is_empty_environment() {
    let type_checker = TypeChecker::empty();

    assert_eq!(type_checker.get_environment(), Environment::new_empty());
}

#[test]
fn type_checker_check_expression() {
    let mut environment = Environment::new_empty();
    environment.insert("a", &Value::new_false());
    let type_checker = TypeChecker::new(&environment);
    let inputs = vec![
        // LITERAL
        (Expression::Literal(Value::new_false()), LangType::Logical),
        (Expression::Literal(Value::new_true()), LangType::Logical),
        (
            Expression::Literal(Value::new_identifier("a")),
            LangType::Logical,
        ),
        // AND
        (
            Expression::new_logical_and(
                &Expression::new_boolean(&true),
                &Expression::new_boolean(&true),
            ),
            LangType::Logical,
        ),
        (
            Expression::new_logical_and(
                &Expression::new_boolean(&false),
                &Expression::new_boolean(&true),
            ),
            LangType::Logical,
        ),
        (
            Expression::new_logical_and(
                &Expression::new_boolean(&true),
                &Expression::new_boolean(&false),
            ),
            LangType::Logical,
        ),
        (
            Expression::new_logical_and(
                &Expression::new_boolean(&false),
                &Expression::new_boolean(&false),
            ),
            LangType::Logical,
        ),
        // OR
        (
            Expression::new_logical_or(
                &Expression::new_boolean(&true),
                &Expression::new_boolean(&true),
            ),
            LangType::Logical,
        ),
        (
            Expression::new_logical_or(
                &Expression::new_boolean(&false),
                &Expression::new_boolean(&true),
            ),
            LangType::Logical,
        ),
        (
            Expression::new_logical_or(
                &Expression::new_boolean(&true),
                &Expression::new_boolean(&false),
            ),
            LangType::Logical,
        ),
        (
            Expression::new_logical_or(
                &Expression::new_boolean(&false),
                &Expression::new_boolean(&false),
            ),
            LangType::Logical,
        ),
        // IMPLICATION
        (
            Expression::new_logical_implication(
                &Expression::new_boolean(&true),
                &Expression::new_boolean(&true),
            ),
            LangType::Logical,
        ),
        (
            Expression::new_logical_implication(
                &Expression::new_boolean(&false),
                &Expression::new_boolean(&true),
            ),
            LangType::Logical,
        ),
        (
            Expression::new_logical_implication(
                &Expression::new_boolean(&true),
                &Expression::new_boolean(&false),
            ),
            LangType::Logical,
        ),
        (
            Expression::new_logical_implication(
                &Expression::new_boolean(&false),
                &Expression::new_boolean(&false),
            ),
            LangType::Logical,
        ),
        // BI-IMPLICATION
        (
            Expression::new_logical_bi_implication(
                &Expression::new_boolean(&true),
                &Expression::new_boolean(&true),
            ),
            LangType::Logical,
        ),
        (
            Expression::new_logical_bi_implication(
                &Expression::new_boolean(&false),
                &Expression::new_boolean(&true),
            ),
            LangType::Logical,
        ),
        (
            Expression::new_logical_bi_implication(
                &Expression::new_boolean(&true),
                &Expression::new_boolean(&false),
            ),
            LangType::Logical,
        ),
        (
            Expression::new_logical_bi_implication(
                &Expression::new_boolean(&false),
                &Expression::new_boolean(&false),
            ),
            LangType::Logical,
        ),
        // EQUAL
        (
            Expression::new_logical_equal(
                &Expression::new_boolean(&true),
                &Expression::new_boolean(&true),
            ),
            LangType::Logical,
        ),
        (
            Expression::new_logical_equal(
                &Expression::new_boolean(&false),
                &Expression::new_boolean(&true),
            ),
            LangType::Logical,
        ),
        (
            Expression::new_logical_equal(
                &Expression::new_boolean(&true),
                &Expression::new_boolean(&false),
            ),
            LangType::Logical,
        ),
        (
            Expression::new_logical_equal(
                &Expression::new_boolean(&false),
                &Expression::new_boolean(&false),
            ),
            LangType::Logical,
        ),
        // NOT-EQUAL
        (
            Expression::new_logical_not_equal(
                &Expression::new_boolean(&true),
                &Expression::new_boolean(&true),
            ),
            LangType::Logical,
        ),
        (
            Expression::new_logical_not_equal(
                &Expression::new_boolean(&false),
                &Expression::new_boolean(&true),
            ),
            LangType::Logical,
        ),
        (
            Expression::new_logical_not_equal(
                &Expression::new_boolean(&true),
                &Expression::new_boolean(&false),
            ),
            LangType::Logical,
        ),
        (
            Expression::new_logical_not_equal(
                &Expression::new_boolean(&false),
                &Expression::new_boolean(&false),
            ),
            LangType::Logical,
        ),
    ];

    for (node, node_type) in inputs {
        let result = type_checker.check_expression(&node);

        assert!(result.is_ok());
        assert_eq!(result.unwrap(), node_type);
    }
}

#[test]
fn type_checker_check_statement() {
    let mut environment = Environment::new_empty();
    environment.insert("a", &Value::new_false());
    let type_checker = TypeChecker::new(&environment);
    let inputs = vec![
        (
            Statement::new_simple_assignment("a", &Value::new_false()),
            LangType::Void,
        ),
        (
            Statement::new_simple_assignment("a", &Value::new_true()),
            LangType::Void,
        ),
        (
            Statement::new_simple_assignment("a", &Value::new_identifier("a")),
            LangType::Void,
        ),
    ];

    for (node, node_type) in inputs {
        let result = type_checker.check_statement(&node);

        assert!(result.is_ok());
        assert_eq!(result.unwrap(), node_type);
    }
}

#[test]
fn type_checker_check_value() {
    let mut environment = Environment::new_empty();
    environment.insert("a", &Value::new_false());
    let type_checker = TypeChecker::new(&environment);
    let inputs = vec![
        (Value::new_false(), LangType::Logical),
        (Value::new_true(), LangType::Logical),
        (Value::new_identifier("a"), LangType::Logical),
    ];

    for (node, node_type) in inputs {
        let result = type_checker.check_value(&node);

        assert!(result.is_ok());
        assert_eq!(result.unwrap(), node_type);
    }
}

#[test]
fn type_checker_check_value_unknown_identifier_fails() {
    let type_checker = TypeChecker::empty();

    let result = type_checker.check_value(&Value::new_identifier("missing"));

    assert!(result.is_err());
}

#[test]
fn type_checker_check_value_follows_identifier_bindings() {
    let mut environment = Environment::new_empty();
    environment.insert("a", &Value::new_identifier("b"));
    environment.insert("b", &Value::new_false());
    let type_checker = TypeChecker::new(&environment);

    let result = type_checker.check_value(&Value::new_identifier("a"));

    assert_eq!(result.unwrap(), LangType::Logical);
}

#[test]
fn type_checker_check_value_cyclic_bindings_fail() {
    let mut environment = Environment::new_empty();
    environment.insert("a", &Value::new_identifier("b"));
    environment.insert("b", &Value::new_identifier("a"));
    let type_checker = TypeChecker::new(&environment);

    let result = type_checker.check_value(&Value::new_identifier("a"));

    assert!(result.is_err());
}
