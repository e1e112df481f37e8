//! Construction failures of automata and their compositions.  Each
//! variant carries enough context to pinpoint the cause.

use vstd::prelude::*;

use crate::automata::channel::{Channel, ChannelModel};
use crate::automata::edge::{Edge, EdgeModel};
use crate::automata::location::{Location, LocationModel};
use crate::language::lang_type::LangType;

verus! {

/// Mathematical model of an [`Error`].
pub enum ErrorModel {
    MissingInitialLocation { automaton: Seq<char> },
    EmptyAutomaton { automaton: Seq<char> },
    PartitionError { automaton: Seq<char>, violating: Seq<ChannelModel> },
    TooManyInitialLocations { automaton: Seq<char>, initials: Seq<LocationModel> },
    InconsistentInitialLocation { automaton: Seq<char>, location: LocationModel },
    MissingIdentifiersInEdgeGuard { automaton: Seq<char>, edge: EdgeModel, missing: Seq<Seq<char>> },
    EdgeGuardIsNotLogical { automaton: Seq<char>, edge: EdgeModel, actual: LangType },
    MissingIdentifiersInEdgeUpdate {
        automaton: Seq<char>,
        edge: EdgeModel,
        missing: Seq<Seq<char>>,
    },
    EdgeUpdateIsNotVoid { automaton: Seq<char>, edge: EdgeModel, actual: LangType },
    MissingIdentifiersInLocationInvariant {
        automaton: Seq<char>,
        location: LocationModel,
        missing: Seq<Seq<char>>,
    },
    EnvironmentsNotDisjoint { automaton: Seq<char>, identifiers: Seq<Seq<char>> },
}

/// A failure to construct an automaton or a conjunction of automata.
/// Construction is all-or-nothing: a failed construction yields no usable
/// automaton, only one of these.
#[derive(Debug, PartialEq)]
pub enum Error {
    /// No location is tagged initial.
    MissingInitialLocation { automaton: String },
    /// The edge set, and so the location set, is empty.
    EmptyAutomaton { automaton: String },
    /// A channel name is used both as an input and as an output.
    PartitionError { automaton: String, violating: Vec<Channel> },
    /// More than one location is tagged initial.
    TooManyInitialLocations { automaton: String, initials: Vec<Location> },
    /// The initial location's invariant does not hold under the initial
    /// environment.
    InconsistentInitialLocation { automaton: String, location: Location },
    /// An edge's guard references identifiers the environment lacks.
    MissingIdentifiersInEdgeGuard { automaton: String, edge: Edge, missing: Vec<String> },
    /// An edge's guard does not type to `Logical`.  An expression either
    /// types to `Logical` or fails to type at all, so `actual` is always
    /// `Void`, the language's only other type: a marker for "not
    /// `Logical`", not a computed type.
    EdgeGuardIsNotLogical { automaton: String, edge: Edge, actual: LangType },
    /// An edge's update references identifiers the environment lacks.
    MissingIdentifiersInEdgeUpdate { automaton: String, edge: Edge, missing: Vec<String> },
    /// An edge's update does not type to `Void`.  A statement always
    /// types to `Void`, so construction can never produce this variant;
    /// it stands to complete the error taxonomy, with `Logical`, the
    /// language's only other type, as the marker it would carry.
    EdgeUpdateIsNotVoid { automaton: String, edge: Edge, actual: LangType },
    /// A location's invariant references identifiers the environment
    /// lacks.
    MissingIdentifiersInLocationInvariant {
        automaton: String,
        location: Location,
        missing: Vec<String>,
    },
    /// Operands of a conjunction declare a common identifier.
    EnvironmentsNotDisjoint { automaton: String, identifiers: Vec<String> },
}

impl View for Error {
    type V = ErrorModel;

    open spec fn view(&self) -> ErrorModel {
        match self {
            Error::MissingInitialLocation { automaton } => ErrorModel::MissingInitialLocation {
                automaton: automaton@,
            },
            Error::EmptyAutomaton { automaton } => ErrorModel::EmptyAutomaton {
                automaton: automaton@,
            },
            Error::PartitionError { automaton, violating } => ErrorModel::PartitionError {
                automaton: automaton@,
                violating: violating.deep_view(),
            },
            Error::TooManyInitialLocations { automaton, initials } => (
            ErrorModel::TooManyInitialLocations {
                automaton: automaton@,
                initials: initials.deep_view(),
            }),
            Error::InconsistentInitialLocation { automaton, location } => (
            ErrorModel::InconsistentInitialLocation {
                automaton: automaton@,
                location: location@,
            }),
            Error::MissingIdentifiersInEdgeGuard { automaton, edge, missing } => (
            ErrorModel::MissingIdentifiersInEdgeGuard {
                automaton: automaton@,
                edge: edge@,
                missing: missing.deep_view(),
            }),
            Error::EdgeGuardIsNotLogical { automaton, edge, actual } => (
            ErrorModel::EdgeGuardIsNotLogical {
                automaton: automaton@,
                edge: edge@,
                actual: *actual,
            }),
            Error::MissingIdentifiersInEdgeUpdate { automaton, edge, missing } => (
            ErrorModel::MissingIdentifiersInEdgeUpdate {
                automaton: automaton@,
                edge: edge@,
                missing: missing.deep_view(),
            }),
            Error::EdgeUpdateIsNotVoid { automaton, edge, actual } => (
            ErrorModel::EdgeUpdateIsNotVoid {
                automaton: automaton@,
                edge: edge@,
                actual: *actual,
            }),
            Error::MissingIdentifiersInLocationInvariant { automaton, location, missing } => (
            ErrorModel::MissingIdentifiersInLocationInvariant {
                automaton: automaton@,
                location: location@,
                missing: missing.deep_view(),
            }),
            Error::EnvironmentsNotDisjoint { automaton, identifiers } => (
            ErrorModel::EnvironmentsNotDisjoint {
                automaton: automaton@,
                identifiers: identifiers.deep_view(),
            }),
        }
    }
}

} // verus!
