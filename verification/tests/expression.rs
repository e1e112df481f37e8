use guarded_automata::language::expression::Expression;
use guarded_automata::language::value::Value;

#[test]
fn expression_node_new_literal_boolean_true() {
    let value = Value::new_true();
    let node = Expression::new_literal(&value);
    assert!(matches!(node, Expression::Literal(node_value) if node_value == value));
}

#[test]
fn expression_node_new_literal_boolean_false() {
    let value = Value::new_false();
    let node = Expression::new_literal(&value);
    assert!(matches!(node, Expression::Literal(node_value) if node_value == value));
}

#[test]
fn expression_node_new_literal_identifier() {
    let ident = "ident";
    let value = Value::new_identifier(ident);
    let node = Expression::new_literal(&value);
    assert!(matches!(node, Expression::Literal(node_value) if node_value == value));
}

#[test]
fn expression_node_new_literal_boolean_true_identifiers() {
    let value = Value::new_true();
    let node = Expression::new_literal(&value);
    let identifiers = node.identifiers();
    assert!(identifiers.is_empty());
}

#[test]
fn expression_node_new_literal_boolean_false_identifiers() {
    let value = Value::new_false();
    let node = Expression::new_literal(&value);
    let identifiers = node.identifiers();
    assert!(identifiers.is_empty());
}

#[test]
fn expression_node_new_literal_identifier_identifiers() {
    let ident = "ident";
    let value = Value::new_identifier(ident);
    let node = Expression::new_literal(&value);
    let identifiers = node.identifiers();
    assert_eq!(identifiers, vec![String::from(ident)])
}
