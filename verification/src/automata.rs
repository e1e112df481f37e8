//! The automaton vocabulary and aggregates: channels, guards, updates,
//! invariants, locations, edges, the validating automaton constructor,
//! and the conjunction of automata.

pub mod automaton;
pub mod channel;
pub mod conjunction;
pub mod edge;
pub mod error;
pub mod guard;
pub mod invariants;
pub mod location;
pub mod update;
