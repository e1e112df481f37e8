use guarded_automata::language::node::Node;
use guarded_automata::language::value::Value;

#[test]
fn node_node_new_literal_boolean_true() {
    let value = Value::new_true();
    let node = Node::new_literal(&value);
    assert!(matches!(node, Node::Literal(node_value) if node_value == value));
}

#[test]
fn node_node_new_literal_boolean_false() {
    let value = Value::new_false();
    let node = Node::new_literal(&value);
    assert!(matches!(node, Node::Literal(node_value) if node_value == value));
}

#[test]
fn node_node_new_literal_identifier() {
    let ident = "ident";
    let value = Value::new_identifier(ident);
    let node = Node::new_literal(&value);
    assert!(matches!(node, Node::Literal(node_value) if node_value == value));
}

#[test]
fn node_node_new_assignment_literal_boolean_true() {
    let ident = "ident";
    let identifier = Value::new_identifier(ident);
    let value = Value::new_true();
    let node = Node::new_assignment(ident, &value);
    assert!(
        matches!(node, Node::Assigment { identifier: node_identifier, value: node_value }
            if node_identifier == identifier && node_value == value)
    );
}

#[test]
fn node_node_new_assignment_literal_boolean_false() {
    let ident = "ident";
    let identifier = Value::new_identifier(ident);
    let value = Value::new_false();
    let node = Node::new_assignment(ident, &value);
    assert!(
        matches!(node, Node::Assigment { identifier: node_identifier, value: node_value }
            if node_identifier == identifier && node_value == value)
    );
}

#[test]
fn node_node_new_assignment_literal_identifier() {
    let ident = "ident";
    let identifier = Value::new_identifier(ident);
    let value = Value::new_identifier("other ident");
    let node = Node::new_assignment(ident, &value);
    assert!(
        matches!(node, Node::Assigment { identifier: node_identifier, value: node_value }
            if node_identifier == identifier && node_value == value)
    );
}

#[test]
fn node_node_new_literal_boolean_true_identifiers() {
    let value = Value::new_true();
    let node = Node::new_literal(&value);
    let identifiers = node.identifiers();
    assert!(identifiers.is_empty());
}

#[test]
fn node_node_new_literal_boolean_false_identifiers() {
    let value = Value::new_false();
    let node = Node::new_literal(&value);
    let identifiers = node.identifiers();
    assert!(identifiers.is_empty());
}

#[test]
fn node_node_new_literal_identifier_identifiers() {
    let ident = "ident";
    let value = Value::new_identifier(ident);
    let node = Node::new_literal(&value);
    let identifiers = node.identifiers();
    assert_eq!(identifiers, vec![String::from(ident)])
}

#[test]
fn node_node_new_assignment_literal_boolean_true_identifiers() {
    let ident = "ident";
    let value = Value::new_true();
    let node = Node::new_assignment(ident, &value);
    let identifiers = node.identifiers();
    assert_eq!(identifiers, vec![String::from(ident)])
}

#[test]
fn node_node_new_assignment_literal_boolean_false_identifiers() {
    let ident = "ident";
    let value = Value::new_false();
    let node = Node::new_assignment(ident, &value);
    let identifiers = node.identifiers();
    assert_eq!(identifiers, vec![String::from(ident)])
}

#[test]
fn node_node_new_assignment_literal_identifier_identifiers() {
    let ident = "ident";
    let rhs_ident = "other ident";
    let value = Value::new_identifier(rhs_ident);
    let node = Node::new_assignment(ident, &value);
    let identifiers = node.identifiers();
    assert_eq!(
        identifiers,
        vec![String::from(ident), String::from(rhs_ident)]
    )
}
