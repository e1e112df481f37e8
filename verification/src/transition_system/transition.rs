//! A transition: one firing of an edge between two states.

use vstd::prelude::*;

use crate::automata::channel::Channel;
use crate::transition_system::state::State;

verus! {

/// One step of behavior: a source state, the synchronizing action, and
/// the state the step produces.
#[derive(Debug)]
pub struct Transition {
    pub source: State,
    pub action: Channel,
    pub target: State,
}

} // verus!
