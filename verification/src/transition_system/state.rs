//! States: the points of an automaton's behavior, a location paired with
//! an environment.

use vstd::prelude::*;

use crate::automata::edge::{edge_enabled, Edge};
use crate::automata::location::{location_key, Location, LocationModel};
use crate::language::environment::Environment;
use crate::language::value::ValueModel;

verus! {

/// Mathematical model of a [`State`].
pub struct StateModel {
    pub location: LocationModel,
    pub environment: Map<Seq<char>, ValueModel>,
}

/// Whether two state models are the same point of behavior: same location
/// identity, same environment mapping.
pub open spec fn state_equiv(a: StateModel, b: StateModel) -> bool {
    location_key(a.location) == location_key(b.location) && a.environment == b.environment
}

/// A point in an automaton's behavior.  States are produced functionally
/// by edge execution and never mutated in place.
#[derive(Debug)]
pub struct State {
    pub location: Location,
    pub environment: Environment,
}

impl View for State {
    type V = StateModel;

    open spec fn view(&self) -> StateModel {
        StateModel { location: self.location@, environment: self.environment@ }
    }
}

impl DeepView for State {
    type V = StateModel;

    open spec fn deep_view(&self) -> StateModel {
        self.view()
    }
}

impl Clone for State {
    /// Cloning preserves the model.
    fn clone(&self) -> (r: Self)
        ensures
            r@ == self@,
    {
        State { location: self.location.clone(), environment: self.environment.clone() }
    }
}

impl PartialEq for State {
    /// States are equal exactly when they are the same point of behavior.
    fn eq(&self, other: &Self) -> (r: bool) {
        self.location == other.location && self.environment.same_mapping(&other.environment)
    }
}

impl Eq for State {

}

impl vstd::std_specs::cmp::PartialEqSpecImpl for State {
    open spec fn obeys_eq_spec() -> bool {
        true
    }

    open spec fn eq_spec(&self, other: &State) -> bool {
        state_equiv(self@, other@)
    }
}

impl State {
    /// The state at the given location under the given environment.
    pub fn new(location: &Location, environment: &Environment) -> (r: Self)
        ensures
            r@.location == location@,
            r@.environment == environment@,
    {
        State { location: location.clone(), environment: environment.clone() }
    }

    /// Whether this state enables at least one of the given edges.
    pub fn enables_any(&self, edges: &Vec<Edge>) -> (r: bool)
        ensures
            r == exists|i: int|
                0 <= i < edges@.len() && edge_enabled((#[trigger] edges@[i])@, self@),
    {
        let mut i: usize = 0;
        while i < edges.len()
            invariant
                i <= edges@.len(),
                forall|j: int| 0 <= j < i ==> !edge_enabled((#[trigger] edges@[j])@, self@),
            decreases edges@.len() - i,
        {
            if edges[i].enabled(self) {
                return true;
            }
            i = i + 1;
        }
        false
    }
}

} // verus!
