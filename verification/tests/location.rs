use guarded_automata::automata::invariants::Invariant;
use guarded_automata::automata::location::Location;
use guarded_automata::language::expression::Expression;

#[test]
fn location_new_normal_construction() {
    let name = "some random name";
    let invariant = Invariant::new_true();
    let location = Location::new_normal(name, &invariant);
    assert!(
        matches!(location, Location::Normal { name: location_name, invariant: location_invariant }
            if location_name == name && location_invariant == invariant)
    );
}

#[test]
fn location_new_initial_construction() {
    let name = "some random name";
    let invariant = Invariant::new_true();
    let location = Location::new_initial(name, &invariant);
    assert!(
        matches!(location, Location::Initial { name: location_name, invariant: location_invariant }
            if location_name == name && location_invariant == invariant)
    );
}

#[test]
fn location_new_product_construction() {}

#[test]
fn location_new_inconsistent_construction() {}

#[test]
fn location_new_universal_construction() {}

#[test]
fn location_conjunction_absorbs_inconsistent() {
    let normal = Location::new_normal("a", &Invariant::new_true());
    let inconsistent = Location::new_inconsistent("bottom");
    let product = Location::new_conjunction(&vec![normal, inconsistent]);
    assert!(matches!(product, Location::Inconsistent { .. }));
}

#[test]
fn location_conjunction_of_universals_is_universal() {
    let first = Location::new_universal("top");
    let second = Location::new_universal("other top");
    let product = Location::new_conjunction(&vec![first, second]);
    assert!(matches!(product, Location::Universal { .. }));
}

#[test]
fn location_conjunction_drops_universal_components() {
    let normal = Location::new_normal("a", &Invariant::new_true());
    let universal = Location::new_universal("top");
    let product = Location::new_conjunction(&vec![normal.clone(), universal]);
    match product {
        Location::Conjunction {
            locations,
            invariant,
        } => {
            assert_eq!(locations.len(), 1);
            assert_eq!(locations[0], normal);
            assert_eq!(invariant, Invariant::new_true());
        }
        other => panic!("expected a conjunction location, got {:?}", other),
    }
}

#[test]
fn location_conjunction_conjoins_distinct_invariants() {
    let first = Location::new_normal("a", &Invariant::new_true());
    let second = Location::new_normal("b", &Invariant::new_false());
    let product = Location::new_conjunction(&vec![first, second]);
    match product {
        Location::Conjunction {
            locations,
            invariant,
        } => {
            assert_eq!(locations.len(), 2);
            let expected = Expression::new_logical_and(
                &Expression::new_boolean(&true),
                &Expression::new_boolean(&false),
            );
            assert_eq!(invariant.node, expected);
        }
        other => panic!("expected a conjunction location, got {:?}", other),
    }
}

#[test]
fn location_equality_is_by_name() {
    let with_true = Location::new_normal("a", &Invariant::new_true());
    let with_false = Location::new_normal("a", &Invariant::new_false());
    let other_name = Location::new_normal("b", &Invariant::new_true());
    assert_eq!(with_true, with_false);
    assert_ne!(with_true, other_name);
    // Variants with the same name are still different locations.
    let initial = Location::new_initial("a", &Invariant::new_true());
    assert_ne!(with_true, initial);
}
