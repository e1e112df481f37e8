//! Edges: the labelled transitions of an automaton graph.

use vstd::prelude::*;

use crate::automata::channel::{Channel, ChannelModel};
use crate::automata::guard::Guard;
use crate::automata::location::{location_key, Location, LocationModel};
use crate::automata::update::Update;
use crate::language::error::Error;
use crate::language::expression::ExpressionModel;
use crate::language::interpreter::{eval_expression_spec, eval_statement_spec, Interpreter};
use crate::language::statement::StatementModel;
use crate::transition_system::state::{State, StateModel};

verus! {

/// Mathematical model of an [`Edge`].
pub struct EdgeModel {
    pub source: LocationModel,
    pub action: ChannelModel,
    pub guard: ExpressionModel,
    pub update: Option<StatementModel>,
    pub target: LocationModel,
}

/// Whether two edge models are the same edge: endpoints by identity,
/// action by name, guard and update structurally.
pub open spec fn edge_same(a: EdgeModel, b: EdgeModel) -> bool {
    &&& location_key(a.source) == location_key(b.source)
    &&& a.action.name == b.action.name
    &&& a.guard == b.guard
    &&& a.update == b.update
    &&& location_key(a.target) == location_key(b.target)
}

/// Whether the edge may fire from the state: the state sits at the edge's
/// source and the guard evaluates to `true` under the state's
/// environment.  A guard whose evaluation fails does not enable the edge.
pub open spec fn edge_enabled(e: EdgeModel, s: StateModel) -> bool {
    location_key(e.source) == location_key(s.location) && eval_expression_spec(
        e.guard,
        s.environment,
    ) == Some(true)
}

/// The state the edge's firing produces: at the edge's target, under the
/// updated environment.  `None` marks a failing update evaluation.
pub open spec fn edge_execute(e: EdgeModel, s: StateModel) -> Option<StateModel> {
    match e.update {
        None => Some(StateModel { location: e.target, environment: s.environment }),
        Some(statement) => match eval_statement_spec(statement, s.environment) {
            Some(updated) => Some(StateModel { location: e.target, environment: updated }),
            None => None,
        },
    }
}

/// A directed edge between two locations, labelled with a synchronization
/// action, a guard, and an optional update.  An edge owns copies of its
/// endpoints' identities.
#[derive(Debug)]
pub struct Edge {
    pub source: Location,
    pub action: Channel,
    pub guard: Guard,
    pub update: Update,
    pub target: Location,
}

impl View for Edge {
    type V = EdgeModel;

    open spec fn view(&self) -> EdgeModel {
        EdgeModel {
            source: self.source@,
            action: self.action@,
            guard: self.guard@,
            update: self.update@,
            target: self.target@,
        }
    }
}

impl DeepView for Edge {
    type V = EdgeModel;

    open spec fn deep_view(&self) -> EdgeModel {
        self.view()
    }
}

impl Clone for Edge {
    /// Cloning preserves the model.
    fn clone(&self) -> (r: Self)
        ensures
            r@ == self@,
    {
        Edge {
            source: self.source.clone(),
            action: self.action.clone(),
            guard: self.guard.clone(),
            update: self.update.clone(),
            target: self.target.clone(),
        }
    }
}

impl PartialEq for Edge {
    /// Edges are equal exactly when they are the same edge: endpoints by
    /// identity, action by name, guard and update structurally.
    fn eq(&self, other: &Self) -> (r: bool) {
        self.source == other.source && self.action == other.action && self.guard == other.guard
            && self.update == other.update && self.target == other.target
    }
}

impl Eq for Edge {

}

impl vstd::std_specs::cmp::PartialEqSpecImpl for Edge {
    open spec fn obeys_eq_spec() -> bool {
        true
    }

    open spec fn eq_spec(&self, other: &Edge) -> bool {
        edge_same(self@, other@)
    }
}

impl Edge {
    /// An edge from `source` to `target` with the given action, guard and
    /// update.
    pub fn new(source: &Location, action: &Channel, guard: &Guard, update: &Update, target:
        &Location) -> (r: Self)
        ensures
            r@.source == source@,
            r@.action == action@,
            r@.guard == guard@,
            r@.update == update@,
            r@.target == target@,
    {
        Edge {
            source: source.clone(),
            action: action.clone(),
            guard: guard.clone(),
            update: update.clone(),
            target: target.clone(),
        }
    }

    /// A self-loop at `location` with the given action, guard and update.
    pub fn new_loop(location: &Location, action: &Channel, guard: &Guard, update: &Update) -> (r:
        Self)
        ensures
            r@.source == location@,
            r@.action == action@,
            r@.guard == guard@,
            r@.update == update@,
            r@.target == location@,
    {
        Edge {
            source: location.clone(),
            action: action.clone(),
            guard: guard.clone(),
            update: update.clone(),
            target: location.clone(),
        }
    }

    /// Whether the edge may fire from the state.  A state at another
    /// location never enables the edge, whatever the guard; a guard whose
    /// evaluation fails reads as disabled rather than aborting the caller.
    pub fn enabled(&self, state: &State) -> (r: bool)
        ensures
            r == edge_enabled(self@, state@),
            location_key(self@.source) != location_key(state@.location) ==> !r,
    {
        if !(self.source == state.location) {
            return false;
        }
        let mut interpreter = Interpreter::new(&state.environment);
        match interpreter.eval_expression(&self.guard.node) {
            Ok(evaluation) => evaluation.is_true(),
            Err(_) => false,
        }
    }

    /// Fires the edge from the state: the produced state sits at the
    /// edge's target, under the environment the update produces — the
    /// same environment when the update is absent.  A failing update
    /// evaluation is an internal-consistency error and is returned, never
    /// swallowed.
    pub fn execute(&self, state: &State) -> (r: Result<State, Error>)
        ensures
            match edge_execute(self@, state@) {
                Some(produced) => r matches Ok(s) && s@ == produced,
                None => r matches Err(Error::RuntimeError { .. }),
            },
            self@.update is None ==> (r matches Ok(s) && s@.environment == state@.environment
                && s@.location == self@.target),
    {
        match &self.update.node {
            Some(statement) => {
                let mut interpreter = Interpreter::new(&state.environment);
                match interpreter.eval_statement(statement) {
                    Some(error) => Err(error),
                    None => {
                        let environment = interpreter.get_environment();
                        Ok(State::new(&self.target, &environment))
                    },
                }
            },
            None => Ok(State::new(&self.target, &state.environment)),
        }
    }
}

} // verus!
