//! A symbolic engine for guarded, input/output-labelled automata.
//!
//! An automaton is a graph of locations connected by edges labelled with
//! a synchronization channel, a boolean guard, and an optional state
//! update, all written in a small embedded logic language.  The engine
//! validates a raw edge set into a well-formed automaton, gives guards
//! and updates their meaning through an interpreter and a two-sorted type
//! system, explores the environment-dependent state space forward and
//! backward, and composes automata under a conjunction operator with an
//! absorbing location algebra.

pub mod automata;
pub mod language;
pub mod transition_system;
