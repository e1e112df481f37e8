use guarded_automata::automata::automaton::Automaton;
use guarded_automata::automata::channel::Channel;
use guarded_automata::automata::edge::Edge;
use guarded_automata::automata::error::Error;
use guarded_automata::automata::guard::Guard;
use guarded_automata::automata::invariants::Invariant;
use guarded_automata::automata::location::Location;
use guarded_automata::automata::update::Update;
use guarded_automata::language::environment::Environment;
use guarded_automata::language::expression::Expression;
use guarded_automata::language::statement::Statement;
use guarded_automata::language::value::Value;

#[test]
fn automaton_new() {
    let invariant = &Invariant::new_true();
    let channel_in = Channel::new_input("in");
    let channel_out = Channel::new_output("out");
    let channels: Vec<Channel> = vec![channel_in.clone(), channel_out.clone()];
    let guard = Guard::new_true();
    let update = Update::new_pure();
    let a = Location::new_initial("a", invariant);
    let b = Location::new_normal("b", invariant);
    let c = Location::new_normal("c", invariant);
    let d = Location::new_normal("d", invariant);
    let e = Location::new_normal("e", invariant);
    let f = Location::new_normal("f", invariant);
    let a_b = Edge::new(&a, &channel_in, &guard, &update, &b);
    let b_c = Edge::new(&b, &channel_out, &guard, &update, &c);
    let c_d = Edge::new(&c, &channel_in, &guard, &update, &d);
    let c_e = Edge::new(&c, &channel_out, &guard, &update, &e);
    let c_f = Edge::new(&c, &channel_in, &guard, &update, &f);
    let edges = &vec![
        a_b.clone(),
        b_c.clone(),
        c_d.clone(),
        c_e.clone(),
        c_f.clone(),
    ];

    let result = Automaton::new("my first automaton", edges, None);
    assert!(result.is_ok(), "error = {:?}", result.err().unwrap());

    let automaton = result.ok().unwrap();
    assert!(automaton.get_initial_environment().is_empty());
    assert_eq!(automaton.get_initial_location(), a);
    assert!(automaton.get_locations().contains(&a));
    assert!(automaton.get_locations().contains(&b));
    assert!(automaton.get_locations().contains(&c));
    assert!(automaton.get_locations().contains(&d));
    assert!(automaton.get_locations().contains(&e));
    assert!(automaton.get_locations().contains(&f));
    assert_eq!(automaton.get_locations().len(), 6);
    assert!(automaton.get_edges().contains(&a_b));
    assert!(automaton.get_edges().contains(&b_c));
    assert!(automaton.get_edges().contains(&c_d));
    assert!(automaton.get_edges().contains(&c_e));
    assert!(automaton.get_edges().contains(&c_f));
    assert_eq!(automaton.get_edges().len(), 5);
    assert!(automaton.get_actions().contains(&channel_in));
    assert!(automaton.get_actions().contains(&channel_out));
    assert_eq!(automaton.get_actions().len(), 2);
    assert!(automaton.get_inputs().contains(&channel_in));
    assert_eq!(automaton.get_inputs().len(), 1);
    assert!(automaton.get_outputs().contains(&channel_out));
    assert_eq!(automaton.get_outputs().len(), 1);

    let ingoing_edges_a = automaton.ingoing_edges(&a, &channels);
    let preceding_locations_a = automaton.precedeeing_locations(&a, &channels);
    let outgoing_edges_a = automaton.outgoing_edges(&a, &channels);
    let sucedeeing_locations_a = automaton.sucedeeing_locations(&a, &channels);
    assert_eq!(ingoing_edges_a.len(), 0);
    assert_eq!(preceding_locations_a.len(), 0);
    assert!(outgoing_edges_a.contains(&a_b));
    assert_eq!(outgoing_edges_a.len(), 1);
    assert!(sucedeeing_locations_a.contains(&b));
    assert_eq!(sucedeeing_locations_a.len(), 1);

    let ingoing_edges_b = automaton.ingoing_edges(&b, &channels);
    let preceding_locations_b = automaton.precedeeing_locations(&b, &channels);
    let outgoing_edges_b = automaton.outgoing_edges(&b, &channels);
    let sucedeeing_locations_b = automaton.sucedeeing_locations(&b, &channels);
    assert!(ingoing_edges_b.contains(&a_b));
    assert_eq!(ingoing_edges_b.len(), 1);
    assert!(preceding_locations_b.contains(&a));
    assert_eq!(preceding_locations_b.len(), 1);
    assert!(outgoing_edges_b.contains(&b_c));
    assert_eq!(outgoing_edges_b.len(), 1);
    assert!(sucedeeing_locations_b.contains(&c));
    assert_eq!(sucedeeing_locations_b.len(), 1);

    let ingoing_edges_c = automaton.ingoing_edges(&c, &channels);
    let preceding_locations_c = automaton.precedeeing_locations(&c, &channels);
    let outgoing_edges_c = automaton.outgoing_edges(&c, &channels);
    let sucedeeing_locations_c = automaton.sucedeeing_locations(&c, &channels);
    assert!(ingoing_edges_c.contains(&b_c));
    assert_eq!(ingoing_edges_c.len(), 1);
    assert!(preceding_locations_c.contains(&b));
    assert_eq!(preceding_locations_c.len(), 1);
    assert!(outgoing_edges_c.contains(&c_d));
    assert!(outgoing_edges_c.contains(&c_e));
    assert!(outgoing_edges_c.contains(&c_f));
    assert_eq!(outgoing_edges_c.len(), 3);
    assert!(sucedeeing_locations_c.contains(&d));
    assert!(sucedeeing_locations_c.contains(&e));
    assert!(sucedeeing_locations_c.contains(&f));
    assert_eq!(sucedeeing_locations_c.len(), 3);

    let ingoing_edges_d = automaton.ingoing_edges(&d, &channels);
    let preceding_locations_d = automaton.precedeeing_locations(&d, &channels);
    let outgoing_edges_d = automaton.outgoing_edges(&d, &channels);
    let sucedeeing_locations_d = automaton.sucedeeing_locations(&d, &channels);
    assert!(ingoing_edges_d.contains(&c_d));
    assert_eq!(ingoing_edges_d.len(), 1);
    assert!(preceding_locations_d.contains(&c));
    assert_eq!(preceding_locations_d.len(), 1);
    assert_eq!(outgoing_edges_d.len(), 0);
    assert_eq!(sucedeeing_locations_d.len(), 0);

    let ingoing_edges_e = automaton.ingoing_edges(&e, &channels);
    let preceding_locations_e = automaton.precedeeing_locations(&e, &channels);
    let outgoing_edges_e = automaton.outgoing_edges(&e, &channels);
    let sucedeeing_locations_e = automaton.sucedeeing_locations(&e, &channels);
    assert!(ingoing_edges_e.contains(&c_e));
    assert_eq!(ingoing_edges_e.len(), 1);
    assert!(preceding_locations_e.contains(&c));
    assert_eq!(preceding_locations_e.len(), 1);
    assert_eq!(outgoing_edges_e.len(), 0);
    assert_eq!(sucedeeing_locations_e.len(), 0);

    let ingoing_edges_f = automaton.ingoing_edges(&f, &channels);
    let preceding_locations_f = automaton.precedeeing_locations(&f, &channels);
    let outgoing_edges_f = automaton.outgoing_edges(&f, &channels);
    let sucedeeing_locations_f = automaton.sucedeeing_locations(&f, &channels);
    assert!(ingoing_edges_f.contains(&c_f));
    assert_eq!(ingoing_edges_f.len(), 1);
    assert!(preceding_locations_f.contains(&c));
    assert_eq!(preceding_locations_f.len(), 1);
    assert_eq!(outgoing_edges_f.len(), 0);
    assert_eq!(sucedeeing_locations_f.len(), 0);
}

#[test]
fn automaton_new_missing_identifiers_in_edge_guard() {
    let location = Location::new_initial("initial", &Invariant::new_true());
    let channel = Channel::new_output("channel");
    let node = Expression::new_identifier("ident");
    let edge = Edge::new_loop(&location, &channel, &Guard::new(&node), &Update::empty());
    let edges = vec![edge];
    let environment = Environment::new_empty();
    let automaton = Automaton::new("automaton", &edges, Some(&environment));
    assert!(automaton.is_err());
    let err = automaton.err().unwrap();
    assert!(
        matches!(err, Error::MissingIdentifiersInEdgeGuard { .. }),
        "error = {:?}",
        err
    );
}

#[test]
fn automaton_new_edge_guard_is_not_logical() {
    // The guard's identifier is declared, but bound to an identifier that
    // is not, so the guard has no type.
    let location = Location::new_initial("initial", &Invariant::new_true());
    let channel = Channel::new_output("channel");
    let identifier = "ident";
    let node = Expression::new_identifier(identifier);
    let edge = Edge::new_loop(&location, &channel, &Guard::new(&node), &Update::empty());
    let edges = vec![edge];
    let mut environment = Environment::new_empty();
    environment.insert(identifier, &Value::new_identifier("dangling"));
    let automaton = Automaton::new("automaton", &edges, Some(&environment));
    assert!(automaton.is_err());
    let err = automaton.err().unwrap();
    assert!(
        matches!(err, Error::EdgeGuardIsNotLogical { .. }),
        "error = {:?}",
        err
    );
}

#[test]
fn automaton_new_missing_identifiers_in_edge_update() {
    let location = Location::new_initial("initial", &Invariant::new_true());
    let channel = Channel::new_output("channel");
    let update = Update::new(&Statement::new_simple_assignment(
        "ident",
        &Value::new_false(),
    ));
    let edge = Edge::new_loop(&location, &channel, &Guard::new_true(), &update);
    let edges = vec![edge];
    let environment = Environment::new_empty();
    let automaton = Automaton::new("automaton", &edges, Some(&environment));
    assert!(automaton.is_err());
    let err = automaton.err().unwrap();
    assert!(
        matches!(err, Error::MissingIdentifiersInEdgeUpdate { .. }),
        "error = {:?}",
        err
    );
}

#[test]
fn automaton_new_partition_error() {
    let location = Location::new_initial("initial", &Invariant::new_true());
    let channel_ident = "channel";
    let in_channel = Channel::new_output(channel_ident);
    let out_channel = Channel::new_input(channel_ident);
    let update = Update::new(&Statement::new_simple_assignment(
        "ident",
        &Value::new_false(),
    ));
    let in_edge = Edge::new_loop(&location, &in_channel, &Guard::new_false(), &update);
    let out_edge = Edge::new_loop(&location, &out_channel, &Guard::new_true(), &update);
    let edges = vec![in_edge, out_edge];
    let automaton = Automaton::new("automaton", &edges, None);
    assert_eq!(edges.len(), 2); // If the edges are the same then there is only a single element in the set
    assert!(automaton.is_err());
    let err = automaton.err().unwrap();
    assert!(
        matches!(err, Error::PartitionError { .. }),
        "error = {:?}",
        err
    );
}

#[test]
fn automaton_new_empty_automaton() {
    let edges: Vec<Edge> = Vec::new();
    let environment = Environment::new_empty();
    let automaton = Automaton::new("automaton", &edges, Some(&environment));
    assert!(automaton.is_err());
    let err = automaton.err().unwrap();
    assert!(
        matches!(err, Error::EmptyAutomaton { .. }),
        "error = {:?}",
        err
    );
}

#[test]
fn automaton_new_missing_initial_location() {
    let location = Location::new_normal("loc", &Invariant::new_true());
    let in_channel = Channel::new_output("in");
    let edge = Edge::new_loop(
        &location,
        &in_channel,
        &Guard::new_false(),
        &Update::new_pure(),
    );
    let edges = vec![edge];
    let automaton = Automaton::new("automaton", &edges, None);
    assert!(automaton.is_err());
    let err = automaton.err().unwrap();
    assert!(
        matches!(err, Error::MissingInitialLocation { .. }),
        "error = {:?}",
        err
    );
}

#[test]
fn automaton_new_too_many_initial_location() {
    let location_a = Location::new_initial("a", &Invariant::new_true());
    let location_b = Location::new_initial("b", &Invariant::new_true());
    let in_channel = Channel::new_output("in");
    let edge = Edge::new(
        &location_a,
        &in_channel,
        &Guard::new_false(),
        &Update::new_pure(),
        &location_b,
    );
    let edges = vec![edge];
    let automaton = Automaton::new("automaton", &edges, None);
    assert!(automaton.is_err());
    let err = automaton.err().unwrap();
    assert!(
        matches!(err, Error::TooManyInitialLocations { .. }),
        "error = {:?}",
        err
    );
}

#[test]
fn automaton_new_inconsistent_initial_location() {
    let location = Location::new_initial("a", &Invariant::new_false());
    let in_channel = Channel::new_output("in");
    let edge = Edge::new_loop(
        &location,
        &in_channel,
        &Guard::new_false(),
        &Update::new_pure(),
    );
    let edges = vec![edge];
    let automaton = Automaton::new("automaton", &edges, None);
    assert!(automaton.is_err());
    let err = automaton.err().unwrap();
    assert!(
        matches!(err, Error::InconsistentInitialLocation { .. }),
        "error = {:?}",
        err
    );
}

#[test]
fn automaton_new_inconsistent_initial_location_with_boolean_evaluation() {
    let invariant_node = Expression::new_identifier("bool");
    let mut environment = Environment::new_empty();
    environment.insert("bool", &Value::new_false());
    let location = Location::new_initial("a", &Invariant::new(&invariant_node));
    let in_channel = Channel::new_output("in");
    let edge = Edge::new_loop(
        &location,
        &in_channel,
        &Guard::new_false(),
        &Update::new_pure(),
    );
    let edges = vec![edge];
    let automaton = Automaton::new("automaton", &edges, Some(&environment));
    assert!(automaton.is_err());
    let err = automaton.err().unwrap();
    assert!(
        matches!(err, Error::InconsistentInitialLocation { .. }),
        "error = {:?}",
        err
    );
}

#[test]
fn automaton_new_missing_identifiers_in_location_invariant() {
    let invariant = Invariant::new(&Expression::new_identifier("inv_flag"));
    let location = Location::new_initial("a", &invariant);
    let channel = Channel::new_input("x");
    let edge = Edge::new_loop(&location, &channel, &Guard::new_true(), &Update::new_pure());
    let edges = vec![edge];
    let environment = Environment::new_empty();
    let automaton = Automaton::new("automaton", &edges, Some(&environment));
    assert!(automaton.is_err());
    let err = automaton.err().unwrap();
    assert!(
        matches!(err, Error::MissingIdentifiersInLocationInvariant { .. }),
        "error = {:?}",
        err
    );
}

#[test]
fn automaton_new_auto_declares_guard_identifiers_as_false() {
    let location = Location::new_initial("a", &Invariant::new_true());
    let channel = Channel::new_input("x");
    let guard = Guard::new(&Expression::new_identifier("flag"));
    let edge = Edge::new_loop(&location, &channel, &guard, &Update::new_pure());
    let edges = vec![edge];

    let automaton = Automaton::new("automaton", &edges, None).unwrap();

    let environment = automaton.get_initial_environment();
    assert_eq!(environment.count(), 1);
    assert_eq!(
        environment.get_value("flag").unwrap(),
        &Value::Bool(false)
    );
}
