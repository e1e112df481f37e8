use guarded_automata::automata::automaton::Automaton;
use guarded_automata::automata::channel::Channel;
use guarded_automata::automata::edge::Edge;
use guarded_automata::automata::guard::Guard;
use guarded_automata::automata::invariants::Invariant;
use guarded_automata::automata::location::Location;
use guarded_automata::automata::update::Update;
use guarded_automata::language::environment::Environment;
use guarded_automata::language::statement::Statement;
use guarded_automata::language::value::Value;
use guarded_automata::transition_system::state::State;
use guarded_automata::transition_system::transition_system_breadth_first_search::TransitionSystemBreadthFirstSearch;

fn collect_states(mut search: TransitionSystemBreadthFirstSearch) -> Vec<State> {
    let mut states: Vec<State> = Vec::new();
    while let Ok(Some(state)) = search.next() {
        states.push(state);
    }
    states
}

#[test]
fn transition_system_get_initial_state() {
    let location = Location::new_initial("Initial", &Invariant::new_true());
    let channel = Channel::new_output("out");
    let guard = Guard::new_true();
    let update = Update::new_pure();
    let edge = Edge::new_loop(&location, &channel, &guard, &update);
    let edges = vec![edge];
    let automaton = Automaton::new("Automaton", &edges, None).ok().unwrap();

    let initial_state = automaton.get_initial_state();

    assert_eq!(initial_state.location, automaton.get_initial_location());
    assert_eq!(
        initial_state.environment,
        automaton.get_initial_environment()
    );
}

#[test]
fn transition_system_in_out_different_states_same_location() {
    let invariant = &Invariant::new_true();
    let channel_in = Channel::new_input("in");
    let channel_out = Channel::new_output("out");
    let in_channels: Vec<Channel> = vec![channel_in.clone()];
    let out_channels: Vec<Channel> = vec![channel_out.clone()];
    let channels: Vec<Channel> = vec![channel_in.clone(), channel_out.clone()];
    let a = Location::new_initial("a", invariant);
    let b = Location::new_normal("b", invariant);
    let guard = Guard::new_true();
    let mut environment = Environment::new_empty();
    environment.insert("ident", &Value::new_false());
    let update_false = Update::new(&Statement::new_simple_assignment(
        "ident",
        &Value::new_false(),
    ));
    let update_true = Update::new(&Statement::new_simple_assignment(
        "ident",
        &Value::new_true(),
    ));
    let a_b_in = Edge::new(&a, &channel_in, &guard, &update_false, &b);
    let a_b_out = Edge::new(&a, &channel_out, &guard, &update_true, &b);
    let edges = &vec![a_b_in.clone(), a_b_out.clone()];

    let automaton = Automaton::new("my first automaton", edges, Some(&environment))
        .ok()
        .unwrap();

    let all_bfs = TransitionSystemBreadthFirstSearch::new(&channels, automaton.clone());
    let all_reachable_states = collect_states(all_bfs);
    assert_eq!(all_reachable_states.len(), 3);

    let in_bfs = TransitionSystemBreadthFirstSearch::new(&in_channels, automaton.clone());
    let in_reachable_states = collect_states(in_bfs);
    assert_eq!(in_reachable_states.len(), 2);

    let out_bfs = TransitionSystemBreadthFirstSearch::new(&out_channels, automaton.clone());
    let out_reachable_states = collect_states(out_bfs);
    assert_eq!(out_reachable_states.len(), 2);
}

#[test]
fn transition_system_full_system_test() {
    fn contains_location(states: &Vec<State>, location: &Location) -> bool {
        for state in states {
            if state.location == *location {
                return true;
            }
        }
        false
    }

    let invariant = &Invariant::new_true();
    let channel_in = Channel::new_input("in");
    let channel_out = Channel::new_output("out");
    let in_channels: Vec<Channel> = vec![channel_in.clone()];
    let out_channels: Vec<Channel> = vec![channel_out.clone()];
    let channels: Vec<Channel> = vec![channel_in.clone(), channel_out.clone()];
    let guard = Guard::new_true();
    let update = Update::new_pure();
    let a = Location::new_initial("a", invariant);
    let b = Location::new_normal("b", invariant);
    let c = Location::new_normal("c", invariant);
    let d = Location::new_normal("d", invariant);
    let e = Location::new_normal("e", invariant);
    let f = Location::new_normal("f", invariant);
    let a_b = Edge::new(&a, &channel_in, &guard, &update, &b);
    let a_c = Edge::new(&a, &channel_in, &guard, &update, &c);
    let a_d = Edge::new(&a, &channel_out, &guard, &update, &d);
    let a_e = Edge::new(&a, &channel_out, &guard, &update, &e);
    let b_f = Edge::new(&b, &channel_out, &guard, &update, &f);
    let c_f = Edge::new(&c, &channel_out, &guard, &update, &f);
    let d_f = Edge::new(&d, &channel_in, &guard, &update, &f);
    let e_f = Edge::new(&e, &channel_in, &guard, &update, &f);
    let edges = &vec![
        a_b.clone(),
        a_c.clone(),
        a_d.clone(),
        a_e.clone(),
        b_f.clone(),
        c_f.clone(),
        d_f.clone(),
        e_f.clone(),
    ];

    let automaton = Automaton::new("my first automaton", edges, None).ok().unwrap();

    let initial_state = automaton.get_initial_state();
    assert_eq!(initial_state.location, automaton.get_initial_location());
    assert_eq!(
        initial_state.environment,
        automaton.get_initial_environment()
    );

    let bfs = TransitionSystemBreadthFirstSearch::new(&channels, automaton.clone());
    let all_states = collect_states(bfs);
    assert_eq!(all_states.len(), 6);

    let a_state = &initial_state;
    let a_all_successors = automaton.successors(a_state, &channels).unwrap();
    let a_in_successors = automaton.successors(a_state, &in_channels).unwrap();
    let a_out_successors = automaton.successors(a_state, &out_channels).unwrap();
    let a_all_predecessors = automaton.predecessors(a_state, &channels).unwrap();
    let a_in_predecessors = automaton.predecessors(a_state, &in_channels).unwrap();
    let a_out_predecessors = automaton.predecessors(a_state, &out_channels).unwrap();
    assert!(contains_location(&a_all_successors, &b));
    assert!(contains_location(&a_all_successors, &c));
    assert!(contains_location(&a_all_successors, &d));
    assert!(contains_location(&a_all_successors, &e));
    assert_eq!(a_all_successors.len(), 4);
    assert!(contains_location(&a_in_successors, &b));
    assert!(contains_location(&a_in_successors, &c));
    assert_eq!(a_in_successors.len(), 2);
    assert!(contains_location(&a_out_successors, &d));
    assert!(contains_location(&a_out_successors, &e));
    assert_eq!(a_out_successors.len(), 2);
    assert_eq!(a_all_predecessors.len(), 0);
    assert_eq!(a_out_predecessors.len(), 0);
    assert_eq!(a_in_predecessors.len(), 0);

    let b_state = &State::new(&b, &automaton.get_initial_environment());
    let b_all_successors = automaton.successors(b_state, &channels).unwrap();
    let b_in_successors = automaton.successors(b_state, &in_channels).unwrap();
    let b_out_successors = automaton.successors(b_state, &out_channels).unwrap();
    let b_all_predecessors = automaton.predecessors(b_state, &channels).unwrap();
    let b_in_predecessors = automaton.predecessors(b_state, &in_channels).unwrap();
    let b_out_predecessors = automaton.predecessors(b_state, &out_channels).unwrap();
    assert!(contains_location(&b_all_successors, &f));
    assert_eq!(b_all_successors.len(), 1);
    assert_eq!(b_in_successors.len(), 0);
    assert!(contains_location(&b_out_successors, &f));
    assert_eq!(b_out_successors.len(), 1);
    assert!(contains_location(&b_all_predecessors, &a));
    assert_eq!(b_all_predecessors.len(), 1);
    assert!(contains_location(&b_in_predecessors, &a));
    assert_eq!(b_in_predecessors.len(), 1);
    assert_eq!(b_out_predecessors.len(), 0);

    let c_state = &State::new(&c, &automaton.get_initial_environment());
    let c_all_successors = automaton.successors(c_state, &channels).unwrap();
    let c_in_successors = automaton.successors(c_state, &in_channels).unwrap();
    let c_out_successors = automaton.successors(c_state, &out_channels).unwrap();
    let c_all_predecessors = automaton.predecessors(c_state, &channels).unwrap();
    let c_in_predecessors = automaton.predecessors(c_state, &in_channels).unwrap();
    let c_out_predecessors = automaton.predecessors(c_state, &out_channels).unwrap();
    assert!(contains_location(&c_all_successors, &f));
    assert_eq!(c_all_successors.len(), 1);
    assert_eq!(c_in_successors.len(), 0);
    assert!(contains_location(&c_out_successors, &f));
    assert_eq!(c_out_successors.len(), 1);
    assert!(contains_location(&c_all_predecessors, &a));
    assert_eq!(c_all_predecessors.len(), 1);
    assert!(contains_location(&c_in_predecessors, &a));
    assert_eq!(c_in_predecessors.len(), 1);
    assert_eq!(c_out_predecessors.len(), 0);

    let d_state = &State::new(&d, &automaton.get_initial_environment());
    let d_all_successors = automaton.successors(d_state, &channels).unwrap();
    let d_in_successors = automaton.successors(d_state, &in_channels).unwrap();
    let d_out_successors = automaton.successors(d_state, &out_channels).unwrap();
    let d_all_predecessors = automaton.predecessors(d_state, &channels).unwrap();
    let d_in_predecessors = automaton.predecessors(d_state, &in_channels).unwrap();
    let d_out_predecessors = automaton.predecessors(d_state, &out_channels).unwrap();
    assert!(contains_location(&d_all_successors, &f));
    assert_eq!(d_all_successors.len(), 1);
    assert!(contains_location(&d_in_successors, &f));
    assert_eq!(d_in_successors.len(), 1);
    assert_eq!(d_out_successors.len(), 0);
    assert!(contains_location(&d_all_predecessors, &a));
    assert_eq!(d_all_predecessors.len(), 1);
    assert_eq!(d_in_predecessors.len(), 0);
    assert!(contains_location(&d_out_predecessors, &a));
    assert_eq!(d_out_predecessors.len(), 1);

    let e_state = &State::new(&e, &automaton.get_initial_environment());
    let e_all_successors = automaton.successors(e_state, &channels).unwrap();
    let e_in_successors = automaton.successors(e_state, &in_channels).unwrap();
    let e_out_successors = automaton.successors(e_state, &out_channels).unwrap();
    let e_all_predecessors = automaton.predecessors(e_state, &channels).unwrap();
    let e_in_predecessors = automaton.predecessors(e_state, &in_channels).unwrap();
    let e_out_predecessors = automaton.predecessors(e_state, &out_channels).unwrap();
    assert!(contains_location(&e_all_successors, &f));
    assert_eq!(e_all_successors.len(), 1);
    assert!(contains_location(&e_in_successors, &f));
    assert_eq!(e_in_successors.len(), 1);
    assert_eq!(e_out_successors.len(), 0);
    assert!(contains_location(&e_all_predecessors, &a));
    assert_eq!(e_all_predecessors.len(), 1);
    assert_eq!(e_in_predecessors.len(), 0);
    assert!(contains_location(&e_out_predecessors, &a));
    assert_eq!(e_out_predecessors.len(), 1);

    let f_state = &State::new(&f, &automaton.get_initial_environment());
    let f_all_successors = automaton.successors(f_state, &channels).unwrap();
    let f_in_successors = automaton.successors(f_state, &in_channels).unwrap();
    let f_out_successors = automaton.successors(f_state, &out_channels).unwrap();
    let f_all_predecessors = automaton.predecessors(f_state, &channels).unwrap();
    let f_in_predecessors = automaton.predecessors(f_state, &in_channels).unwrap();
    let f_out_predecessors = automaton.predecessors(f_state, &out_channels).unwrap();
    assert_eq!(f_all_successors.len(), 0);
    assert_eq!(f_in_successors.len(), 0);
    assert_eq!(f_out_successors.len(), 0);
    assert!(contains_location(&f_all_predecessors, &b));
    assert!(contains_location(&f_all_predecessors, &c));
    assert!(contains_location(&f_all_predecessors, &d));
    assert!(contains_location(&f_all_predecessors, &e));
    assert_eq!(f_all_predecessors.len(), 4);
    // We have zero predecessors because no path exists with the actions from a to f
    assert_eq!(f_in_predecessors.len(), 0);
    assert_eq!(f_out_predecessors.len(), 0);
}

#[test]
fn transition_system_successors_of_initial_state() {
    // An automaton with initial location a, normal location b, and the
    // edge a -(x?, true, no-op)-> b: the successors of the initial state
    // under {x?} are exactly the state at b under the initial
    // environment.
    let invariant = &Invariant::new_true();
    let a = Location::new_initial("a", invariant);
    let b = Location::new_normal("b", invariant);
    let x = Channel::new_input("x");
    let edge = Edge::new(&a, &x, &Guard::new_true(), &Update::new_pure(), &b);
    let edges = vec![edge];
    let automaton = Automaton::new("automaton", &edges, None).unwrap();

    let successors = automaton
        .successors(&automaton.get_initial_state(), &vec![x.clone()])
        .unwrap();

    assert_eq!(successors.len(), 1);
    assert_eq!(successors[0].location, b);
    assert_eq!(successors[0].environment, automaton.get_initial_environment());
}

#[test]
fn transition_system_predecessors_along_a_chain() {
    // Locations a (initial) -> b -> c, each edge on action x?: the
    // predecessors of the state at c are exactly the reachable state at
    // b, and those of the state at b exactly the reachable state at a.
    let invariant = &Invariant::new_true();
    let a = Location::new_initial("a", invariant);
    let b = Location::new_normal("b", invariant);
    let c = Location::new_normal("c", invariant);
    let x = Channel::new_input("x");
    let guard = Guard::new_true();
    let update = Update::new_pure();
    let a_b = Edge::new(&a, &x, &guard, &update, &b);
    let b_c = Edge::new(&b, &x, &guard, &update, &c);
    let edges = vec![a_b, b_c];
    let automaton = Automaton::new("automaton", &edges, None).unwrap();
    let actions = vec![x.clone()];
    let environment = automaton.get_initial_environment();

    let at_c = State::new(&c, &environment);
    let c_predecessors = automaton.predecessors(&at_c, &actions).unwrap();
    assert_eq!(c_predecessors.len(), 1);
    assert_eq!(c_predecessors[0].location, b);

    let at_b = State::new(&b, &environment);
    let b_predecessors = automaton.predecessors(&at_b, &actions).unwrap();
    assert_eq!(b_predecessors.len(), 1);
    assert_eq!(b_predecessors[0].location, a);
}

#[test]
fn transition_system_search_visits_each_reachable_state_once() {
    // A diamond with a join: the search yields each reachable state
    // exactly once and then reports exhaustion.
    let invariant = &Invariant::new_true();
    let a = Location::new_initial("a", invariant);
    let b = Location::new_normal("b", invariant);
    let c = Location::new_normal("c", invariant);
    let d = Location::new_normal("d", invariant);
    let x = Channel::new_input("x");
    let guard = Guard::new_true();
    let update = Update::new_pure();
    let edges = vec![
        Edge::new(&a, &x, &guard, &update, &b),
        Edge::new(&a, &x, &guard, &update, &c),
        Edge::new(&b, &x, &guard, &update, &d),
        Edge::new(&c, &x, &guard, &update, &d),
    ];
    let automaton = Automaton::new("automaton", &edges, None).unwrap();

    let mut search =
        TransitionSystemBreadthFirstSearch::new(&vec![x.clone()], automaton.clone());
    let mut visited: Vec<State> = Vec::new();
    while let Ok(Some(state)) = search.next() {
        for earlier in &visited {
            assert_ne!(earlier, &state);
        }
        visited.push(state);
    }
    assert_eq!(visited.len(), 4);
}
