use guarded_automata::automata::automaton::Automaton;
use guarded_automata::automata::channel::Channel;
use guarded_automata::automata::conjunction::Conjunction;
use guarded_automata::automata::edge::Edge;
use guarded_automata::automata::error::Error;
use guarded_automata::automata::guard::Guard;
use guarded_automata::automata::invariants::Invariant;
use guarded_automata::automata::location::Location;
use guarded_automata::automata::update::Update;

fn single_edge_automaton(name: &str, initial: &str, channel: &Channel) -> Automaton {
    let location = Location::new_initial(initial, &Invariant::new_true());
    let edge = Edge::new_loop(&location, channel, &Guard::new_true(), &Update::new_pure());
    Automaton::new(name, &vec![edge], None).unwrap()
}

#[test]
fn conjunction_shared_channel_as_input_and_output_fails() {
    // One operand uses the channel as an input, the other as an output:
    // the composition must fail with a partition error.
    let left = single_edge_automaton("left", "p", &Channel::new_input("shared"));
    let right = single_edge_automaton("right", "q", &Channel::new_output("shared"));

    let result = Conjunction::new("left && right", &vec![left, right]);

    assert!(result.is_err());
    let err = result.err().unwrap();
    assert!(
        matches!(err, Error::PartitionError { .. }),
        "error = {:?}",
        err
    );
}

#[test]
fn conjunction_combines_alphabets_and_initial_locations() {
    let left = single_edge_automaton("left", "p", &Channel::new_input("a"));
    let right = single_edge_automaton("right", "q", &Channel::new_output("b"));

    let conjunction = Conjunction::new("left && right", &vec![left, right]).unwrap();

    assert_eq!(conjunction.get_inputs().len(), 1);
    assert!(conjunction.get_inputs().contains(&Channel::new_input("a")));
    assert_eq!(conjunction.get_outputs().len(), 1);
    assert!(conjunction.get_outputs().contains(&Channel::new_output("b")));
    assert_eq!(conjunction.get_actions().len(), 2);
    match conjunction.get_initial_location() {
        Location::Conjunction { locations, .. } => {
            assert_eq!(locations.len(), 2);
            assert!(locations.contains(&Location::new_initial("p", &Invariant::new_true())));
            assert!(locations.contains(&Location::new_initial("q", &Invariant::new_true())));
        }
        other => panic!("expected a conjunction location, got {:?}", other),
    }
    assert_eq!(conjunction.get_initial_environment().count(), 0);
}

#[test]
fn conjunction_overlapping_environments_fail() {
    // Both operands auto-declare the same identifier, so their
    // environments share a name.
    let location_left = Location::new_initial("p", &Invariant::new_true());
    let guard = Guard::new(&guarded_automata::language::expression::Expression::new_identifier(
        "shared_flag",
    ));
    let edge_left = Edge::new_loop(
        &location_left,
        &Channel::new_input("a"),
        &guard,
        &Update::new_pure(),
    );
    let left = Automaton::new("left", &vec![edge_left], None).unwrap();

    let location_right = Location::new_initial("q", &Invariant::new_true());
    let edge_right = Edge::new_loop(
        &location_right,
        &Channel::new_input("b"),
        &guard,
        &Update::new_pure(),
    );
    let right = Automaton::new("right", &vec![edge_right], None).unwrap();

    let result = Conjunction::new("left && right", &vec![left, right]);

    assert!(result.is_err());
    let err = result.err().unwrap();
    match err {
        Error::EnvironmentsNotDisjoint { identifiers, .. } => {
            assert_eq!(identifiers, vec![String::from("shared_flag")]);
        }
        other => panic!("expected overlapping environments, got {:?}", other),
    }
}

#[test]
fn conjunction_environment_is_the_disjoint_union() {
    let location_left = Location::new_initial("p", &Invariant::new_true());
    let guard_left = Guard::new(
        &guarded_automata::language::expression::Expression::new_identifier("left_flag"),
    );
    let edge_left = Edge::new_loop(
        &location_left,
        &Channel::new_input("a"),
        &guard_left,
        &Update::new_pure(),
    );
    let left = Automaton::new("left", &vec![edge_left], None).unwrap();

    let location_right = Location::new_initial("q", &Invariant::new_true());
    let guard_right = Guard::new(
        &guarded_automata::language::expression::Expression::new_identifier("right_flag"),
    );
    let edge_right = Edge::new_loop(
        &location_right,
        &Channel::new_input("b"),
        &guard_right,
        &Update::new_pure(),
    );
    let right = Automaton::new("right", &vec![edge_right], None).unwrap();

    let conjunction = Conjunction::new("left && right", &vec![left, right]).unwrap();

    let environment = conjunction.get_initial_environment();
    assert_eq!(environment.count(), 2);
    assert!(environment.contains("left_flag"));
    assert!(environment.contains("right_flag"));
}
