//! The runtime view of an automaton: states, transitions, forward and
//! backward stepping, and the breadth-first state-space search.

pub mod state;
pub mod transition;
pub mod transition_system;
pub mod transition_system_breadth_first_search;
