use guarded_automata::automata::channel::Channel;
use guarded_automata::automata::edge::Edge;
use guarded_automata::automata::guard::Guard;
use guarded_automata::automata::invariants::Invariant;
use guarded_automata::automata::location::Location;
use guarded_automata::automata::update::Update;
use guarded_automata::language::environment::Environment;
use guarded_automata::language::statement::Statement;
use guarded_automata::language::value::Value;
use guarded_automata::transition_system::state::State;

#[test]
fn edge_enabled_false_at_another_location() {
    let source = Location::new_initial("a", &Invariant::new_true());
    let elsewhere = Location::new_normal("b", &Invariant::new_true());
    let channel = Channel::new_input("x");
    // The guard always holds, yet the edge stays disabled away from its
    // source.
    let edge = Edge::new_loop(&source, &channel, &Guard::new_true(), &Update::new_pure());
    let state = State::new(&elsewhere, &Environment::new_empty());

    assert!(!edge.enabled(&state));
}

#[test]
fn edge_enabled_follows_the_guard() {
    let source = Location::new_initial("a", &Invariant::new_true());
    let channel = Channel::new_input("x");
    let enabled_edge = Edge::new_loop(&source, &channel, &Guard::new_true(), &Update::new_pure());
    let disabled_edge =
        Edge::new_loop(&source, &channel, &Guard::new_false(), &Update::new_pure());
    let state = State::new(&source, &Environment::new_empty());

    assert!(enabled_edge.enabled(&state));
    assert!(!disabled_edge.enabled(&state));
}

#[test]
fn edge_enabled_failing_guard_reads_as_disabled() {
    let source = Location::new_initial("a", &Invariant::new_true());
    let channel = Channel::new_input("x");
    let dangling_guard = Guard::new(&guarded_automata::language::expression::Expression::new_identifier(
        "undeclared",
    ));
    let edge = Edge::new_loop(&source, &channel, &dangling_guard, &Update::new_pure());
    let state = State::new(&source, &Environment::new_empty());

    assert!(!edge.enabled(&state));
}

#[test]
fn edge_execute_without_update_keeps_the_environment() {
    let source = Location::new_initial("a", &Invariant::new_true());
    let target = Location::new_normal("b", &Invariant::new_true());
    let channel = Channel::new_input("x");
    let edge = Edge::new(
        &source,
        &channel,
        &Guard::new_true(),
        &Update::new_pure(),
        &target,
    );
    let mut environment = Environment::new_empty();
    environment.insert("v", &Value::Bool(true));
    let state = State::new(&source, &environment);

    let produced = edge.execute(&state).unwrap();

    assert_eq!(produced.location, target);
    assert_eq!(produced.environment, state.environment);
}

#[test]
fn edge_execute_with_update_rebinds_the_identifier() {
    let source = Location::new_initial("a", &Invariant::new_true());
    let target = Location::new_normal("b", &Invariant::new_true());
    let channel = Channel::new_input("x");
    let update = Update::new(&Statement::new_simple_assignment("v", &Value::new_false()));
    let edge = Edge::new(&source, &channel, &Guard::new_true(), &update, &target);
    let mut environment = Environment::new_empty();
    environment.insert("v", &Value::Bool(true));
    let state = State::new(&source, &environment);

    let produced = edge.execute(&state).unwrap();

    assert_eq!(produced.location, target);
    assert_eq!(produced.environment.get_value("v").unwrap(), &Value::Bool(false));
}

#[test]
fn edge_execute_failing_update_is_an_error() {
    let source = Location::new_initial("a", &Invariant::new_true());
    let channel = Channel::new_input("x");
    let update = Update::new(&Statement::new_simple_assignment(
        "undeclared",
        &Value::new_false(),
    ));
    let edge = Edge::new_loop(&source, &channel, &Guard::new_true(), &update);
    let state = State::new(&source, &Environment::new_empty());

    assert!(edge.execute(&state).is_err());
}

#[test]
fn edge_equality_ignores_channel_direction() {
    let location = Location::new_initial("initial", &Invariant::new_true());
    let channel_ident = "channel";
    let in_channel = Channel::new_output(channel_ident);
    let out_channel = Channel::new_input(channel_ident);
    let in_edge = Edge::new_loop(
        &location,
        &in_channel,
        &Guard::new_true(),
        &Update::new_pure(),
    );
    let out_edge = Edge::new_loop(
        &location,
        &out_channel,
        &Guard::new_true(),
        &Update::new_pure(),
    );

    assert_eq!(in_edge, out_edge);
}
