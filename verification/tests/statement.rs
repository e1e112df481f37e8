use guarded_automata::language::expression::Expression;
use guarded_automata::language::statement::Statement;

#[test]
fn statement_node_new_assignment_literal_boolean_true() {
    let ident = "ident";
    let identifier = Expression::new_identifier(ident);
    let value = Expression::new_boolean(&true);
    let node = Statement::new_assignment(&identifier, &value);
    assert!(
        matches!(node, Statement::Assigment { identifier: node_identifier, value: node_value }
            if node_identifier == identifier && node_value == value)
    );
}

#[test]
fn statement_node_new_assignment_literal_boolean_false() {
    let ident = "ident";
    let identifier = Expression::new_identifier(ident);
    let value = Expression::new_boolean(&false);
    let node = Statement::new_assignment(&identifier, &value);
    assert!(
        matches!(node, Statement::Assigment { identifier: node_identifier, value: node_value }
            if node_identifier == identifier && node_value == value)
    );
}

#[test]
fn statement_node_new_assignment_literal_identifier() {
    let ident = "ident";
    let identifier = Expression::new_identifier(ident);
    let value = Expression::new_identifier("other ident");
    let node = Statement::new_assignment(&identifier, &value);
    assert!(
        matches!(node, Statement::Assigment { identifier: node_identifier, value: node_value }
            if node_identifier == identifier && node_value == value)
    );
}

#[test]
fn statement_node_new_assignment_literal_boolean_true_identifiers() {
    let ident = "ident";
    let identifier = Expression::new_identifier(ident);
    let value = Expression::new_boolean(&true);
    let node = Statement::new_assignment(&identifier, &value);
    let identifiers = node.identifiers();
    assert_eq!(identifiers, vec![String::from(ident)])
}

#[test]
fn statement_node_new_assignment_literal_boolean_false_identifiers() {
    let ident = "ident";
    let identifier = Expression::new_identifier(ident);
    let value = Expression::new_boolean(&false);
    let node = Statement::new_assignment(&identifier, &value);
    let identifiers = node.identifiers();
    assert_eq!(identifiers, vec![String::from(ident)])
}

#[test]
fn statement_node_new_assignment_literal_identifier_identifiers() {
    let ident = "ident";
    let rhs_ident = "other ident";
    let identifier = Expression::new_identifier(ident);
    let value = Expression::new_identifier(rhs_ident);
    let node = Statement::new_assignment(&identifier, &value);
    let identifiers = node.identifiers();
    assert_eq!(
        identifiers,
        vec![String::from(ident), String::from(rhs_ident)]
    )
}
