//! The automaton: a validating aggregate over a set of edges.
//!
//! Construction derives the locations from the edge endpoints, partitions
//! the actions into inputs and outputs, checks identifier declaration and
//! typing of every guard, update and invariant, and finds the unique
//! consistent initial location.  Construction is all-or-nothing; the
//! value is immutable afterwards and every query is pure.

use vstd::prelude::*;

use crate::automata::channel::{Channel, ChannelModel};
use crate::automata::edge::{edge_same, Edge, EdgeModel};
use crate::automata::error::{Error, ErrorModel};
use crate::automata::location::{
    location_invariant_expr, location_key, Location, LocationModel,
};
use crate::language::environment::{declares_all, missing_from, Environment};
use crate::language::expression::{expression_identifiers, ExpressionModel};
use crate::language::interpreter::{eval_expression_spec, Interpreter};
use crate::language::lang_type::LangType;
use crate::language::statement::statement_identifiers;
use crate::language::type_checker::{
    check_expression_spec, check_statement_spec, check_value_spec, TypeChecker,
};
use crate::language::value::{Value, ValueModel};

verus! {

/// Whether some channel of the sequence has the given name.
pub open spec fn contains_channel_name(channels: Seq<ChannelModel>, name: Seq<char>) -> bool {
    exists|i: int| 0 <= i < channels.len() && (#[trigger] channels[i]).name == name
}

/// The channels of the sequence, each name kept once, first occurrence
/// first.
pub open spec fn dedup_channels(channels: Seq<ChannelModel>) -> Seq<ChannelModel>
    decreases channels.len(),
{
    if channels.len() == 0 {
        Seq::empty()
    } else {
        let rest = dedup_channels(channels.drop_last());
        if contains_channel_name(rest, channels.last().name) {
            rest
        } else {
            rest.push(channels.last())
        }
    }
}

/// The actions of the edges, in edge order.
pub open spec fn actions_of(edges: Seq<EdgeModel>) -> Seq<ChannelModel>
    decreases edges.len(),
{
    if edges.len() == 0 {
        Seq::empty()
    } else {
        actions_of(edges.drop_last()).push(edges.last().action)
    }
}

/// The input actions of the edges, in edge order.
pub open spec fn inputs_of(edges: Seq<EdgeModel>) -> Seq<ChannelModel>
    decreases edges.len(),
{
    if edges.len() == 0 {
        Seq::empty()
    } else {
        inputs_of(edges.drop_last()) + (if edges.last().action.is_input {
            seq![edges.last().action]
        } else {
            Seq::<ChannelModel>::empty()
        })
    }
}

/// The output actions of the edges, in edge order.
pub open spec fn outputs_of(edges: Seq<EdgeModel>) -> Seq<ChannelModel>
    decreases edges.len(),
{
    if edges.len() == 0 {
        Seq::empty()
    } else {
        outputs_of(edges.drop_last()) + (if !edges.last().action.is_input {
            seq![edges.last().action]
        } else {
            Seq::<ChannelModel>::empty()
        })
    }
}

/// Whether some location of the sequence has the given identity.
pub open spec fn contains_location(s: Seq<LocationModel>, l: LocationModel) -> bool {
    exists|i: int| 0 <= i < s.len() && location_key(#[trigger] s[i]) == location_key(l)
}

/// The endpoints of the edges: each edge's source then target, in edge
/// order.
pub open spec fn endpoints_of(edges: Seq<EdgeModel>) -> Seq<LocationModel>
    decreases edges.len(),
{
    if edges.len() == 0 {
        Seq::empty()
    } else {
        endpoints_of(edges.drop_last()) + seq![edges.last().source, edges.last().target]
    }
}

/// The locations of the sequence, each identity kept once, first
/// occurrence first.
pub open spec fn dedup_locations(s: Seq<LocationModel>) -> Seq<LocationModel>
    decreases s.len(),
{
    if s.len() == 0 {
        Seq::empty()
    } else {
        let rest = dedup_locations(s.drop_last());
        if contains_location(rest, s.last()) {
            rest
        } else {
            rest.push(s.last())
        }
    }
}

/// Whether some edge of the sequence is the same edge.
pub open spec fn contains_edge(s: Seq<EdgeModel>, e: EdgeModel) -> bool {
    exists|i: int| 0 <= i < s.len() && edge_same(#[trigger] s[i], e)
}

/// The edges of the sequence, each kept once, first occurrence first.
pub open spec fn dedup_edges(s: Seq<EdgeModel>) -> Seq<EdgeModel>
    decreases s.len(),
{
    if s.len() == 0 {
        Seq::empty()
    } else {
        let rest = dedup_edges(s.drop_last());
        if contains_edge(rest, s.last()) {
            rest
        } else {
            rest.push(s.last())
        }
    }
}

/// The environment with every listed identifier declared as `false`.
pub open spec fn declare_missing(
    env: Map<Seq<char>, ValueModel>,
    missing: Seq<Seq<char>>,
) -> Map<Seq<char>, ValueModel>
    decreases missing.len(),
{
    if missing.len() == 0 {
        env
    } else {
        declare_missing(env, missing.drop_last()).insert(missing.last(), ValueModel::Bool(false))
    }
}

/// Checks one edge's guard: identifier declaration first, then typing.
/// In auto-declare mode (`strict` false) missing identifiers are declared
/// as `false` instead of failing.  A guard that fails to type is reported
/// as not `Logical` with `Void` as the marker type: an expression either
/// types to `Logical` or has no type, so no computed type exists to
/// report.
pub open spec fn scan_edge_guard(
    name: Seq<char>,
    e: EdgeModel,
    env: Map<Seq<char>, ValueModel>,
    strict: bool,
) -> Result<Map<Seq<char>, ValueModel>, ErrorModel> {
    let missing = missing_from(env, expression_identifiers(e.guard));
    if missing.len() > 0 && strict {
        Err(ErrorModel::MissingIdentifiersInEdgeGuard { automaton: name, edge: e, missing })
    } else {
        let declared = declare_missing(env, missing);
        if check_expression_spec(e.guard, declared) == Some(LangType::Logical) {
            Ok(declared)
        } else {
            Err(ErrorModel::EdgeGuardIsNotLogical {
                automaton: name,
                edge: e,
                actual: LangType::Void,
            })
        }
    }
}

/// Checks one edge's update, if it has one: identifier declaration first,
/// then typing.  A statement always types to `Void`, so the typing branch
/// cannot fail; the not-`Void` error, with `Logical` as its marker type,
/// is kept only to mirror the error taxonomy.
pub open spec fn scan_edge_update(
    name: Seq<char>,
    e: EdgeModel,
    env: Map<Seq<char>, ValueModel>,
    strict: bool,
) -> Result<Map<Seq<char>, ValueModel>, ErrorModel> {
    match e.update {
        None => Ok(env),
        Some(statement) => {
            let missing = missing_from(env, statement_identifiers(statement));
            if missing.len() > 0 && strict {
                Err(ErrorModel::MissingIdentifiersInEdgeUpdate {
                    automaton: name,
                    edge: e,
                    missing,
                })
            } else {
                let declared = declare_missing(env, missing);
                if check_statement_spec(statement, declared) == Some(LangType::Void) {
                    Ok(declared)
                } else {
                    Err(ErrorModel::EdgeUpdateIsNotVoid {
                        automaton: name,
                        edge: e,
                        actual: LangType::Logical,
                    })
                }
            }
        },
    }
}

/// Checks the edges left to right, guard before update, threading the
/// working environment.  The first failure wins.
pub open spec fn scan_edges(
    name: Seq<char>,
    edges: Seq<EdgeModel>,
    env: Map<Seq<char>, ValueModel>,
    strict: bool,
) -> Result<Map<Seq<char>, ValueModel>, ErrorModel>
    decreases edges.len(),
{
    if edges.len() == 0 {
        Ok(env)
    } else {
        match scan_edges(name, edges.drop_last(), env, strict) {
            Err(e) => Err(e),
            Ok(after_prefix) => match scan_edge_guard(name, edges.last(), after_prefix, strict) {
                Err(e) => Err(e),
                Ok(after_guard) => scan_edge_update(name, edges.last(), after_guard, strict),
            },
        }
    }
}

/// Checks one location's invariant for identifier declaration.  The
/// absorbing variants carry no invariant.
pub open spec fn scan_location(
    name: Seq<char>,
    l: LocationModel,
    env: Map<Seq<char>, ValueModel>,
    strict: bool,
) -> Result<Map<Seq<char>, ValueModel>, ErrorModel> {
    if l is Inconsistent || l is Universal {
        Ok(env)
    } else {
        let missing = missing_from(env, expression_identifiers(location_invariant_expr(l)));
        if missing.len() > 0 && strict {
            Err(ErrorModel::MissingIdentifiersInLocationInvariant {
                automaton: name,
                location: l,
                missing,
            })
        } else {
            Ok(declare_missing(env, missing))
        }
    }
}

/// Checks the locations left to right, threading the working environment.
pub open spec fn scan_locations(
    name: Seq<char>,
    locations: Seq<LocationModel>,
    env: Map<Seq<char>, ValueModel>,
    strict: bool,
) -> Result<Map<Seq<char>, ValueModel>, ErrorModel>
    decreases locations.len(),
{
    if locations.len() == 0 {
        Ok(env)
    } else {
        match scan_locations(name, locations.drop_last(), env, strict) {
            Err(e) => Err(e),
            Ok(after_prefix) => scan_location(name, locations.last(), after_prefix, strict),
        }
    }
}

/// The input channels whose name is also an output name, in input order.
pub open spec fn violating_channels(
    inputs: Seq<ChannelModel>,
    outputs: Seq<ChannelModel>,
) -> Seq<ChannelModel>
    decreases inputs.len(),
{
    if inputs.len() == 0 {
        Seq::empty()
    } else {
        violating_channels(inputs.drop_last(), outputs) + (if contains_channel_name(
            outputs,
            inputs.last().name,
        ) {
            seq![inputs.last()]
        } else {
            Seq::<ChannelModel>::empty()
        })
    }
}

/// The locations tagged initial, in order.
pub open spec fn initial_locations(locations: Seq<LocationModel>) -> Seq<LocationModel>
    decreases locations.len(),
{
    if locations.len() == 0 {
        Seq::empty()
    } else {
        initial_locations(locations.drop_last()) + (if locations.last() is Initial {
            seq![locations.last()]
        } else {
            Seq::<LocationModel>::empty()
        })
    }
}

/// Mathematical model of an [`Automaton`].
pub struct AutomatonModel {
    pub name: Seq<char>,
    pub edges: Seq<EdgeModel>,
    pub locations: Seq<LocationModel>,
    pub actions: Seq<ChannelModel>,
    pub inputs: Seq<ChannelModel>,
    pub outputs: Seq<ChannelModel>,
    pub initial: LocationModel,
    pub environment: Map<Seq<char>, ValueModel>,
}

/// The whole validation pipeline, in order: per-edge declaration and
/// typing checks, per-location invariant declaration checks, the
/// input/output partition, non-emptiness, the unique initial location,
/// and the initial invariant's truth.  The first failure wins.
pub open spec fn build_spec(
    name: Seq<char>,
    edges: Seq<EdgeModel>,
    seed: Option<Map<Seq<char>, ValueModel>>,
) -> Result<AutomatonModel, ErrorModel> {
    let strict = seed is Some;
    let env0 = if strict {
        seed->0
    } else {
        Map::<Seq<char>, ValueModel>::empty()
    };
    match scan_edges(name, edges, env0, strict) {
        Err(e) => Err(e),
        Ok(after_edges) => {
            let locations = dedup_locations(endpoints_of(edges));
            match scan_locations(name, locations, after_edges, strict) {
                Err(e) => Err(e),
                Ok(environment) => {
                    let inputs = dedup_channels(inputs_of(edges));
                    let outputs = dedup_channels(outputs_of(edges));
                    let violating = violating_channels(inputs, outputs);
                    if violating.len() > 0 {
                        Err(ErrorModel::PartitionError { automaton: name, violating })
                    } else if locations.len() == 0 {
                        Err(ErrorModel::EmptyAutomaton { automaton: name })
                    } else {
                        let initials = initial_locations(locations);
                        if initials.len() == 0 {
                            Err(ErrorModel::MissingInitialLocation { automaton: name })
                        } else if initials.len() > 1 {
                            Err(ErrorModel::TooManyInitialLocations {
                                automaton: name,
                                initials,
                            })
                        } else {
                            let initial = initials[0];
                            if eval_expression_spec(
                                location_invariant_expr(initial),
                                environment,
                            ) == Some(true) {
                                Ok(AutomatonModel {
                                    name,
                                    edges: dedup_edges(edges),
                                    locations,
                                    actions: dedup_channels(actions_of(edges)),
                                    inputs,
                                    outputs,
                                    initial,
                                    environment,
                                })
                            } else {
                                Err(ErrorModel::InconsistentInitialLocation {
                                    automaton: name,
                                    location: initial,
                                })
                            }
                        }
                    }
                },
            }
        },
    }
}

proof fn lemma_scan_edges_step(
    name: Seq<char>,
    edges: Seq<EdgeModel>,
    i: int,
    env0: Map<Seq<char>, ValueModel>,
    strict: bool,
)
    requires
        0 <= i < edges.len(),
    ensures
        scan_edges(name, edges.take(i + 1), env0, strict) == (match scan_edges(
            name,
            edges.take(i),
            env0,
            strict,
        ) {
            Err(e) => Err(e),
            Ok(env1) => match scan_edge_guard(name, edges[i], env1, strict) {
                Err(e) => Err::<Map<Seq<char>, ValueModel>, ErrorModel>(e),
                Ok(env2) => scan_edge_update(name, edges[i], env2, strict),
            },
        }),
{
    assert(edges.take(i + 1).drop_last() =~= edges.take(i));
    assert(edges.take(i + 1).last() == edges[i]);
}

proof fn lemma_scan_edges_prefix_error(
    name: Seq<char>,
    edges: Seq<EdgeModel>,
    i: int,
    env0: Map<Seq<char>, ValueModel>,
    strict: bool,
)
    requires
        0 <= i <= edges.len(),
        scan_edges(name, edges.take(i), env0, strict) is Err,
    ensures
        scan_edges(name, edges, env0, strict) == scan_edges(name, edges.take(i), env0, strict),
    decreases edges.len() - i,
{
    if i == edges.len() {
        assert(edges.take(i) =~= edges);
    } else {
        lemma_scan_edges_step(name, edges, i, env0, strict);
        lemma_scan_edges_prefix_error(name, edges, i + 1, env0, strict);
    }
}

proof fn lemma_scan_locations_step(
    name: Seq<char>,
    locations: Seq<LocationModel>,
    i: int,
    env0: Map<Seq<char>, ValueModel>,
    strict: bool,
)
    requires
        0 <= i < locations.len(),
    ensures
        scan_locations(name, locations.take(i + 1), env0, strict) == (match scan_locations(
            name,
            locations.take(i),
            env0,
            strict,
        ) {
            Err(e) => Err(e),
            Ok(env1) => scan_location(name, locations[i], env1, strict),
        }),
{
    assert(locations.take(i + 1).drop_last() =~= locations.take(i));
    assert(locations.take(i + 1).last() == locations[i]);
}

proof fn lemma_scan_locations_prefix_error(
    name: Seq<char>,
    locations: Seq<LocationModel>,
    i: int,
    env0: Map<Seq<char>, ValueModel>,
    strict: bool,
)
    requires
        0 <= i <= locations.len(),
        scan_locations(name, locations.take(i), env0, strict) is Err,
    ensures
        scan_locations(name, locations, env0, strict) == scan_locations(
            name,
            locations.take(i),
            env0,
            strict,
        ),
    decreases locations.len() - i,
{
    if i == locations.len() {
        assert(locations.take(i) =~= locations);
    } else {
        lemma_scan_locations_step(name, locations, i, env0, strict);
        lemma_scan_locations_prefix_error(name, locations, i + 1, env0, strict);
    }
}

proof fn lemma_missing_not_declared(
    env: Map<Seq<char>, ValueModel>,
    idents: Seq<Seq<char>>,
    k: Seq<char>,
)
    requires
        missing_from(env, idents).contains(k),
    ensures
        !env.dom().contains(k),
    decreases idents.len(),
{
    if idents.len() > 0 {
        if missing_from(env, idents.drop_last()).contains(k) {
            lemma_missing_not_declared(env, idents.drop_last(), k);
        }
    }
}

proof fn lemma_declare_missing_fresh(
    env: Map<Seq<char>, ValueModel>,
    missing: Seq<Seq<char>>,
    k: Seq<char>,
)
    requires
        !env.dom().contains(k),
        declare_missing(env, missing).dom().contains(k),
    ensures
        declare_missing(env, missing)[k] == ValueModel::Bool(false),
    decreases missing.len(),
{
    if missing.len() > 0 {
        if missing.last() != k {
            lemma_declare_missing_fresh(env, missing.drop_last(), k);
        }
    }
}

proof fn lemma_initial_locations_initial(locations: Seq<LocationModel>, i: int)
    requires
        0 <= i < initial_locations(locations).len(),
    ensures
        initial_locations(locations)[i] is Initial,
    decreases locations.len(),
{
    if locations.len() > 0 {
        if i < initial_locations(locations.drop_last()).len() {
            lemma_initial_locations_initial(locations.drop_last(), i);
        }
    }
}

/// Whether some channel of the list shares the channel's name.
pub(crate) fn vec_contains_channel(channels: &Vec<Channel>, channel: &Channel) -> (r: bool)
    ensures
        r == contains_channel_name(channels.deep_view(), channel@.name),
{
    proof {
        assert(forall|j: int|
            0 <= j < channels@.len() ==> channels.deep_view()[j] == (#[trigger] channels@[j])@);
    }
    let mut i: usize = 0;
    while i < channels.len()
        invariant
            i <= channels@.len(),
            forall|j: int| 0 <= j < i ==> (#[trigger] channels@[j])@.name != channel@.name,
        decreases channels@.len() - i,
    {
        if channels[i] == *channel {
            proof {
                assert(channels.deep_view()[i as int].name == channel@.name);
            }
            return true;
        }
        i = i + 1;
    }
    false
}

/// Whether some location of the list has the location's identity.
pub(crate) fn vec_contains_location(locations: &Vec<Location>, location: &Location) -> (r: bool)
    ensures
        r == contains_location(locations.deep_view(), location@),
{
    proof {
        assert(forall|j: int|
            0 <= j < locations@.len() ==> locations.deep_view()[j] == (#[trigger] locations@[j])@);
    }
    let mut i: usize = 0;
    while i < locations.len()
        invariant
            i <= locations@.len(),
            forall|j: int|
                0 <= j < i ==> location_key((#[trigger] locations@[j])@) != location_key(
                    location@,
                ),
        decreases locations@.len() - i,
    {
        if locations[i] == *location {
            proof {
                assert(location_key(locations.deep_view()[i as int]) == location_key(location@));
            }
            return true;
        }
        i = i + 1;
    }
    false
}

/// Whether some edge of the list is the same edge.
fn vec_contains_edge(edges: &Vec<Edge>, edge: &Edge) -> (r: bool)
    ensures
        r == contains_edge(edges.deep_view(), edge@),
{
    proof {
        assert(forall|j: int|
            0 <= j < edges@.len() ==> edges.deep_view()[j] == (#[trigger] edges@[j])@);
    }
    let mut i: usize = 0;
    while i < edges.len()
        invariant
            i <= edges@.len(),
            forall|j: int| 0 <= j < i ==> !edge_same((#[trigger] edges@[j])@, edge@),
        decreases edges@.len() - i,
    {
        if edges[i] == *edge {
            proof {
                assert(edge_same(edges.deep_view()[i as int], edge@));
            }
            return true;
        }
        i = i + 1;
    }
    false
}

/// Whether every value the environment binds is a boolean.
pub open spec fn all_bool(env: Map<Seq<char>, ValueModel>) -> bool {
    forall|k: Seq<char>| env.dom().contains(k) ==> (#[trigger] env[k]) is Bool
}

proof fn lemma_declare_missing_dom(
    env: Map<Seq<char>, ValueModel>,
    missing: Seq<Seq<char>>,
    k: Seq<char>,
)
    ensures
        declare_missing(env, missing).dom().contains(k) <==> (env.dom().contains(k)
            || missing.contains(k)),
    decreases missing.len(),
{
    if missing.len() > 0 {
        lemma_declare_missing_dom(env, missing.drop_last(), k);
        if missing.contains(k) && missing.last() != k {
            let w = choose|w: int| 0 <= w < missing.len() && missing[w] == k;
            assert(missing.drop_last()[w] == k);
        }
        if missing.drop_last().contains(k) {
            let w = choose|w: int| 0 <= w < missing.drop_last().len() && missing.drop_last()[w] == k;
            assert(missing[w] == k);
        }
    }
}

proof fn lemma_declare_missing_all_bool(env: Map<Seq<char>, ValueModel>, missing: Seq<Seq<char>>)
    requires
        all_bool(env),
        env.dom().finite(),
    ensures
        all_bool(declare_missing(env, missing)),
        declare_missing(env, missing).dom().finite(),
    decreases missing.len(),
{
    if missing.len() > 0 {
        lemma_declare_missing_all_bool(env, missing.drop_last());
    }
}

proof fn lemma_missing_from_covers(
    env: Map<Seq<char>, ValueModel>,
    idents: Seq<Seq<char>>,
    i: int,
)
    requires
        0 <= i < idents.len(),
        !env.dom().contains(idents[i]),
    ensures
        missing_from(env, idents).contains(idents[i]),
    decreases idents.len(),
{
    if i < idents.len() - 1 {
        lemma_missing_from_covers(env, idents.drop_last(), i);
        let w = choose|w: int|
            0 <= w < missing_from(env, idents.drop_last()).len() && missing_from(
                env,
                idents.drop_last(),
            )[w] == idents.drop_last()[i];
        assert(missing_from(env, idents)[w] == idents[i]);
    } else {
        assert(missing_from(env, idents).last() == idents[i]);
    }
}

proof fn lemma_declare_missing_declares(env: Map<Seq<char>, ValueModel>, idents: Seq<Seq<char>>)
    ensures
        declares_all(declare_missing(env, missing_from(env, idents)), idents),
{
    let declared = declare_missing(env, missing_from(env, idents));
    assert forall|i: int| 0 <= i < idents.len() implies declared.dom().contains(
        #[trigger] idents[i],
    ) by {
        lemma_declare_missing_dom(env, missing_from(env, idents), idents[i]);
        if !env.dom().contains(idents[i]) {
            lemma_missing_from_covers(env, idents, i);
        }
    }
}

proof fn lemma_declares_all_split(
    env: Map<Seq<char>, ValueModel>,
    a: Seq<Seq<char>>,
    b: Seq<Seq<char>>,
)
    requires
        declares_all(env, a + b),
    ensures
        declares_all(env, a),
        declares_all(env, b),
{
    assert forall|i: int| 0 <= i < a.len() implies env.dom().contains(#[trigger] a[i]) by {
        assert((a + b)[i] == a[i]);
    }
    assert forall|i: int| 0 <= i < b.len() implies env.dom().contains(#[trigger] b[i]) by {
        assert((a + b)[a.len() + i] == b[i]);
    }
}

proof fn lemma_check_value_bool(env: Map<Seq<char>, ValueModel>, name: Seq<char>, fuel: nat)
    requires
        all_bool(env),
        env.dom().contains(name),
        fuel >= 1,
    ensures
        check_value_spec(ValueModel::Identifier(name), env, fuel) == Some(LangType::Logical),
{
    assert(env[name] is Bool);
    assert(check_value_spec(env[name], env, (fuel - 1) as nat) == Some(LangType::Logical));
}

/// Every expression whose identifiers are all declared types to `Logical`
/// under an environment binding only booleans.
proof fn lemma_check_expression_bool(e: ExpressionModel, env: Map<Seq<char>, ValueModel>)
    requires
        all_bool(env),
        env.dom().finite(),
        declares_all(env, expression_identifiers(e)),
    ensures
        check_expression_spec(e, env) == Some(LangType::Logical),
    decreases e,
{
    match e {
        ExpressionModel::Literal(value) => match value {
            ValueModel::Bool(_) => {},
            ValueModel::Identifier(name) => {
                assert(expression_identifiers(e)[0] == name);
                assert(env.dom().contains(name));
                vstd::set_lib::lemma_set_empty_equivalency_len(env.dom());
                lemma_check_value_bool(env, name, env.dom().len());
            },
        },
        ExpressionModel::Parenthesized(inner) => {
            lemma_check_expression_bool(*inner, env);
        },
        ExpressionModel::Binary(lhs, _, rhs) => {
            lemma_declares_all_split(
                env,
                expression_identifiers(*lhs),
                expression_identifiers(*rhs),
            );
            lemma_check_expression_bool(*lhs, env);
            lemma_check_expression_bool(*rhs, env);
        },
        ExpressionModel::Unary(_, inner) => {
            lemma_check_expression_bool(*inner, env);
        },
    }
}

proof fn lemma_scan_edges_auto(
    name: Seq<char>,
    edges: Seq<EdgeModel>,
    env: Map<Seq<char>, ValueModel>,
)
    requires
        all_bool(env),
        env.dom().finite(),
    ensures
        scan_edges(name, edges, env, false) is Ok,
        all_bool(scan_edges(name, edges, env, false)->Ok_0),
        scan_edges(name, edges, env, false)->Ok_0.dom().finite(),
    decreases edges.len(),
{
    if edges.len() > 0 {
        lemma_scan_edges_auto(name, edges.drop_last(), env);
        let after_prefix = scan_edges(name, edges.drop_last(), env, false)->Ok_0;
        let e = edges.last();
        let missing = missing_from(after_prefix, expression_identifiers(e.guard));
        let declared = declare_missing(after_prefix, missing);
        lemma_declare_missing_all_bool(after_prefix, missing);
        lemma_declare_missing_declares(after_prefix, expression_identifiers(e.guard));
        lemma_check_expression_bool(e.guard, declared);
        match e.update {
            None => {},
            Some(statement) => {
                let update_missing = missing_from(declared, statement_identifiers(statement));
                lemma_declare_missing_all_bool(declared, update_missing);
            },
        }
    }
}

proof fn lemma_scan_locations_auto(
    name: Seq<char>,
    locations: Seq<LocationModel>,
    env: Map<Seq<char>, ValueModel>,
)
    requires
        all_bool(env),
        env.dom().finite(),
    ensures
        scan_locations(name, locations, env, false) is Ok,
        all_bool(scan_locations(name, locations, env, false)->Ok_0),
        scan_locations(name, locations, env, false)->Ok_0.dom().finite(),
    decreases locations.len(),
{
    if locations.len() > 0 {
        lemma_scan_locations_auto(name, locations.drop_last(), env);
        let after_prefix = scan_locations(name, locations.drop_last(), env, false)->Ok_0;
        let l = locations.last();
        if !(l is Inconsistent || l is Universal) {
            lemma_declare_missing_all_bool(
                after_prefix,
                missing_from(after_prefix, expression_identifiers(location_invariant_expr(l))),
            );
        }
    }
}

proof fn lemma_violating_empty(inputs: Seq<ChannelModel>, outputs: Seq<ChannelModel>, i: int)
    requires
        violating_channels(inputs, outputs).len() == 0,
        0 <= i < inputs.len(),
    ensures
        !contains_channel_name(outputs, inputs[i].name),
    decreases inputs.len(),
{
    if i < inputs.len() - 1 {
        lemma_violating_empty(inputs.drop_last(), outputs, i);
    }
}

proof fn lemma_dedup_locations_elements(s: Seq<LocationModel>, i: int)
    requires
        0 <= i < dedup_locations(s).len(),
    ensures
        exists|j: int| 0 <= j < s.len() && #[trigger] s[j] == dedup_locations(s)[i],
    decreases s.len(),
{
    if s.len() > 0 {
        let rest = dedup_locations(s.drop_last());
        if i < rest.len() {
            lemma_dedup_locations_elements(s.drop_last(), i);
            let j = choose|j: int| 0 <= j < s.drop_last().len() && #[trigger] s.drop_last()[j]
                == rest[i];
            assert(s[j] == dedup_locations(s)[i]);
        } else {
            assert(s[s.len() - 1] == dedup_locations(s)[i]);
        }
    }
}

proof fn lemma_dedup_locations_contains(s: Seq<LocationModel>, l: LocationModel)
    ensures
        contains_location(dedup_locations(s), l) <==> contains_location(s, l),
    decreases s.len(),
{
    if s.len() > 0 {
        lemma_dedup_locations_contains(s.drop_last(), l);
        let rest = dedup_locations(s.drop_last());
        if contains_location(dedup_locations(s), l) {
            let i = choose|i: int|
                0 <= i < dedup_locations(s).len() && location_key(
                    #[trigger] dedup_locations(s)[i],
                ) == location_key(l);
            if i < rest.len() {
                assert(contains_location(rest, l));
                let j = choose|j: int|
                    0 <= j < s.drop_last().len() && location_key(#[trigger] s.drop_last()[j])
                        == location_key(l);
                assert(location_key(s[j]) == location_key(l));
            } else {
                assert(dedup_locations(s)[i] == s.last());
                assert(location_key(s[s.len() - 1]) == location_key(l));
            }
        }
        if contains_location(s, l) {
            let j = choose|j: int|
                0 <= j < s.len() && location_key(#[trigger] s[j]) == location_key(l);
            if j < s.len() - 1 {
                assert(s.drop_last()[j] == s[j]);
                assert(contains_location(s.drop_last(), l));
                let i = choose|i: int|
                    0 <= i < rest.len() && location_key(#[trigger] rest[i]) == location_key(l);
                assert(location_key(dedup_locations(s)[i]) == location_key(l));
            } else {
                if contains_location(rest, s.last()) {
                    let i = choose|i: int|
                        0 <= i < rest.len() && location_key(#[trigger] rest[i]) == location_key(
                            s.last(),
                        );
                    assert(location_key(dedup_locations(s)[i]) == location_key(l));
                } else {
                    assert(location_key(dedup_locations(s).last()) == location_key(l));
                }
            }
        }
    }
}

proof fn lemma_dedup_locations_distinct(s: Seq<LocationModel>)
    ensures
        forall|i: int, j: int|
            0 <= i < j < dedup_locations(s).len() ==> location_key(
                #[trigger] dedup_locations(s)[i],
            ) != location_key(#[trigger] dedup_locations(s)[j]),
    decreases s.len(),
{
    if s.len() > 0 {
        lemma_dedup_locations_distinct(s.drop_last());
        let rest = dedup_locations(s.drop_last());
        if !contains_location(rest, s.last()) {
            assert forall|i: int, j: int|
                0 <= i < j < dedup_locations(s).len() implies location_key(
                #[trigger] dedup_locations(s)[i],
            ) != location_key(#[trigger] dedup_locations(s)[j]) by {
                if j == dedup_locations(s).len() - 1 {
                    assert(!(location_key(rest[i]) == location_key(s.last())));
                }
            }
        }
    }
}

proof fn lemma_endpoints_len(edges: Seq<EdgeModel>)
    ensures
        endpoints_of(edges).len() == 2 * edges.len(),
    decreases edges.len(),
{
    if edges.len() > 0 {
        lemma_endpoints_len(edges.drop_last());
    }
}

proof fn lemma_endpoints_elements(edges: Seq<EdgeModel>, i: int)
    requires
        0 <= i < endpoints_of(edges).len(),
    ensures
        exists|j: int|
            0 <= j < edges.len() && (endpoints_of(edges)[i] == (#[trigger] edges[j]).source
                || endpoints_of(edges)[i] == edges[j].target),
    decreases edges.len(),
{
    if edges.len() > 0 {
        let prefix = endpoints_of(edges.drop_last());
        if i < prefix.len() {
            lemma_endpoints_elements(edges.drop_last(), i);
            let j = choose|j: int|
                0 <= j < edges.drop_last().len() && (prefix[i] == (
                #[trigger] edges.drop_last()[j]).source || prefix[i]
                    == edges.drop_last()[j].target);
            assert(endpoints_of(edges)[i] == edges[j].source || endpoints_of(edges)[i]
                == edges[j].target);
        } else {
            assert(endpoints_of(edges)[i] == edges[edges.len() - 1].source || endpoints_of(
                edges,
            )[i] == edges[edges.len() - 1].target);
        }
    }
}

proof fn lemma_endpoints_contains_source(edges: Seq<EdgeModel>, j: int)
    requires
        0 <= j < edges.len(),
    ensures
        contains_location(endpoints_of(edges), edges[j].source),
        contains_location(endpoints_of(edges), edges[j].target),
    decreases edges.len(),
{
    lemma_endpoints_len(edges);
    if j < edges.len() - 1 {
        lemma_endpoints_contains_source(edges.drop_last(), j);
        lemma_endpoints_len(edges.drop_last());
        let prefix = endpoints_of(edges.drop_last());
        let a = choose|a: int|
            0 <= a < prefix.len() && location_key(#[trigger] prefix[a]) == location_key(
                edges.drop_last()[j].source,
            );
        assert(location_key(endpoints_of(edges)[a]) == location_key(edges[j].source));
        let b = choose|b: int|
            0 <= b < prefix.len() && location_key(#[trigger] prefix[b]) == location_key(
                edges.drop_last()[j].target,
            );
        assert(location_key(endpoints_of(edges)[b]) == location_key(edges[j].target));
    } else {
        assert(location_key(endpoints_of(edges)[endpoints_of(edges).len() - 2])
            == location_key(edges[j].source));
        assert(location_key(endpoints_of(edges)[endpoints_of(edges).len() - 1])
            == location_key(edges[j].target));
    }
}

proof fn lemma_dedup_edges_elements(s: Seq<EdgeModel>, i: int)
    requires
        0 <= i < dedup_edges(s).len(),
    ensures
        exists|j: int| 0 <= j < s.len() && #[trigger] s[j] == dedup_edges(s)[i],
    decreases s.len(),
{
    if s.len() > 0 {
        let rest = dedup_edges(s.drop_last());
        if i < rest.len() {
            lemma_dedup_edges_elements(s.drop_last(), i);
            let j = choose|j: int| 0 <= j < s.drop_last().len() && #[trigger] s.drop_last()[j]
                == rest[i];
            assert(s[j] == dedup_edges(s)[i]);
        } else {
            assert(s[s.len() - 1] == dedup_edges(s)[i]);
        }
    }
}

proof fn lemma_dedup_edges_contains(s: Seq<EdgeModel>, e: EdgeModel)
    ensures
        contains_edge(dedup_edges(s), e) <==> contains_edge(s, e),
    decreases s.len(),
{
    if s.len() > 0 {
        lemma_dedup_edges_contains(s.drop_last(), e);
        let rest = dedup_edges(s.drop_last());
        if contains_edge(dedup_edges(s), e) {
            let i = choose|i: int|
                0 <= i < dedup_edges(s).len() && edge_same(#[trigger] dedup_edges(s)[i], e);
            if i < rest.len() {
                assert(contains_edge(rest, e));
                let j = choose|j: int|
                    0 <= j < s.drop_last().len() && edge_same(#[trigger] s.drop_last()[j], e);
                assert(edge_same(s[j], e));
            } else {
                assert(dedup_edges(s)[i] == s.last());
                assert(edge_same(s[s.len() - 1], e));
            }
        }
        if contains_edge(s, e) {
            let j = choose|j: int| 0 <= j < s.len() && edge_same(#[trigger] s[j], e);
            if j < s.len() - 1 {
                assert(s.drop_last()[j] == s[j]);
                assert(contains_edge(s.drop_last(), e));
                let i = choose|i: int| 0 <= i < rest.len() && edge_same(#[trigger] rest[i], e);
                assert(edge_same(dedup_edges(s)[i], e));
            } else {
                if contains_edge(rest, s.last()) {
                    let i = choose|i: int|
                        0 <= i < rest.len() && edge_same(#[trigger] rest[i], s.last());
                    assert(edge_same(dedup_edges(s)[i], e));
                } else {
                    assert(edge_same(dedup_edges(s).last(), e));
                }
            }
        }
    }
}

proof fn lemma_dedup_edges_nonempty(s: Seq<EdgeModel>)
    ensures
        (dedup_edges(s).len() == 0) == (s.len() == 0),
    decreases s.len(),
{
    if s.len() > 0 {
        lemma_dedup_edges_nonempty(s.drop_last());
    }
}

proof fn lemma_initial_locations_contains(s: Seq<LocationModel>, l: LocationModel)
    requires
        l is Initial,
    ensures
        contains_location(initial_locations(s), l) <==> contains_location(s, l),
    decreases s.len(),
{
    if s.len() > 0 {
        lemma_initial_locations_contains(s.drop_last(), l);
        let rest = initial_locations(s.drop_last());
        if contains_location(initial_locations(s), l) {
            let i = choose|i: int|
                0 <= i < initial_locations(s).len() && location_key(
                    #[trigger] initial_locations(s)[i],
                ) == location_key(l);
            if i < rest.len() {
                let j = choose|j: int|
                    0 <= j < s.drop_last().len() && location_key(#[trigger] s.drop_last()[j])
                        == location_key(l);
                assert(location_key(s[j]) == location_key(l));
            } else {
                assert(initial_locations(s)[i] == s.last());
                assert(location_key(s[s.len() - 1]) == location_key(l));
            }
        }
        if contains_location(s, l) {
            let j = choose|j: int|
                0 <= j < s.len() && location_key(#[trigger] s[j]) == location_key(l);
            if j < s.len() - 1 {
                assert(s.drop_last()[j] == s[j]);
                let i = choose|i: int|
                    0 <= i < rest.len() && location_key(#[trigger] rest[i]) == location_key(l);
                assert(location_key(initial_locations(s)[i]) == location_key(l));
            } else {
                assert(s.last() is Initial);
                assert(location_key(initial_locations(s).last()) == location_key(l));
            }
        }
    }
}

proof fn lemma_initial_locations_empty(s: Seq<LocationModel>)
    requires
        forall|i: int| 0 <= i < s.len() ==> !((#[trigger] s[i]) is Initial),
    ensures
        initial_locations(s).len() == 0,
    decreases s.len(),
{
    if s.len() > 0 {
        lemma_initial_locations_empty(s.drop_last());
    }
}

/// LAW: every constructed automaton is well formed — its inputs and
/// outputs share no channel name; its locations are exactly its edges'
/// endpoint identities, each kept once; its edge set is non-empty; it has
/// exactly one initial location, which is the automaton's initial
/// location; and the initial location's invariant evaluates to `true`
/// under the initial environment.
pub proof fn lemma_automaton_well_formed(
    name: Seq<char>,
    edges: Seq<EdgeModel>,
    seed: Option<Map<Seq<char>, ValueModel>>,
    model: AutomatonModel,
)
    requires
        build_spec(name, edges, seed) == Ok::<AutomatonModel, ErrorModel>(model),
    ensures
        forall|i: int, j: int|
            0 <= i < model.inputs.len() && 0 <= j < model.outputs.len() ==> (
            #[trigger] model.inputs[i]).name != (#[trigger] model.outputs[j]).name,
        forall|l: LocationModel|
            contains_location(model.locations, l) <==> contains_location(
                endpoints_of(model.edges),
                l,
            ),
        forall|i: int, j: int|
            0 <= i < j < model.locations.len() ==> location_key(#[trigger] model.locations[i])
                != location_key(#[trigger] model.locations[j]),
        model.edges.len() > 0,
        initial_locations(model.locations).len() == 1,
        model.initial == initial_locations(model.locations)[0],
        model.initial is Initial,
        eval_expression_spec(location_invariant_expr(model.initial), model.environment) == Some(
            true,
        ),
{
    let inputs = dedup_channels(inputs_of(edges));
    let outputs = dedup_channels(outputs_of(edges));
    assert forall|i: int, j: int|
        0 <= i < model.inputs.len() && 0 <= j < model.outputs.len() implies (
    #[trigger] model.inputs[i]).name != (#[trigger] model.outputs[j]).name by {
        lemma_violating_empty(inputs, outputs, i);
    }
    let locations = dedup_locations(endpoints_of(edges));
    assert forall|l: LocationModel| contains_location(model.locations, l) <==> contains_location(
        endpoints_of(model.edges),
        l,
    ) by {
        lemma_dedup_locations_contains(endpoints_of(edges), l);
        if contains_location(endpoints_of(edges), l) {
            let i = choose|i: int|
                0 <= i < endpoints_of(edges).len() && location_key(
                    #[trigger] endpoints_of(edges)[i],
                ) == location_key(l);
            lemma_endpoints_elements(edges, i);
            let j = choose|j: int|
                0 <= j < edges.len() && (endpoints_of(edges)[i] == (#[trigger] edges[j]).source
                    || endpoints_of(edges)[i] == edges[j].target);
            assert(contains_edge(edges, edges[j]));
            lemma_dedup_edges_contains(edges, edges[j]);
            let k = choose|k: int|
                0 <= k < dedup_edges(edges).len() && edge_same(
                    #[trigger] dedup_edges(edges)[k],
                    edges[j],
                );
            lemma_endpoints_contains_source(dedup_edges(edges), k);
        }
        if contains_location(endpoints_of(model.edges), l) {
            let i = choose|i: int|
                0 <= i < endpoints_of(model.edges).len() && location_key(
                    #[trigger] endpoints_of(model.edges)[i],
                ) == location_key(l);
            lemma_endpoints_elements(model.edges, i);
            let j = choose|j: int|
                0 <= j < model.edges.len() && (endpoints_of(model.edges)[i] == (
                #[trigger] model.edges[j]).source || endpoints_of(model.edges)[i]
                    == model.edges[j].target);
            lemma_dedup_edges_elements(edges, j);
            let k = choose|k: int| 0 <= k < edges.len() && #[trigger] edges[k]
                == dedup_edges(edges)[j];
            lemma_endpoints_contains_source(edges, k);
        }
    }
    lemma_dedup_locations_distinct(endpoints_of(edges));
    lemma_endpoints_len(edges);
    lemma_dedup_edges_nonempty(edges);
    let initials = initial_locations(locations);
    assert(initials.len() == 1);
    lemma_initial_locations_initial(locations, 0);
}

/// LAW: construction from an edge set with no edges always fails with
/// `EmptyAutomaton`, in either construction mode.
pub proof fn lemma_empty_edges_rejected(
    name: Seq<char>,
    edges: Seq<EdgeModel>,
    seed: Option<Map<Seq<char>, ValueModel>>,
)
    requires
        edges.len() == 0,
    ensures
        build_spec(name, edges, seed) == Err::<AutomatonModel, ErrorModel>(
            ErrorModel::EmptyAutomaton { automaton: name },
        ),
{
}

/// LAW: in auto-declare mode, an edge set whose actions partition and
/// none of whose endpoints is tagged initial is always rejected with
/// `MissingInitialLocation`.
pub proof fn lemma_missing_initial_rejected(name: Seq<char>, edges: Seq<EdgeModel>)
    requires
        edges.len() > 0,
        forall|i: int|
            0 <= i < edges.len() ==> !((#[trigger] edges[i]).source is Initial) && !(
            edges[i].target is Initial),
        violating_channels(
            dedup_channels(inputs_of(edges)),
            dedup_channels(outputs_of(edges)),
        ).len() == 0,
    ensures
        build_spec(name, edges, None) == Err::<AutomatonModel, ErrorModel>(
            ErrorModel::MissingInitialLocation { automaton: name },
        ),
{
    lemma_scan_edges_auto(name, edges, Map::empty());
    let after_edges = scan_edges(name, edges, Map::empty(), false)->Ok_0;
    let locations = dedup_locations(endpoints_of(edges));
    lemma_scan_locations_auto(name, locations, after_edges);
    lemma_endpoints_len(edges);
    assert(endpoints_of(edges).len() > 0);
    assert(contains_location(endpoints_of(edges), endpoints_of(edges)[0]));
    lemma_dedup_locations_contains(endpoints_of(edges), endpoints_of(edges)[0]);
    assert(locations.len() > 0);
    assert forall|i: int| 0 <= i < locations.len() implies !((#[trigger] locations[i])
        is Initial) by {
        lemma_dedup_locations_elements(endpoints_of(edges), i);
        let j = choose|j: int| 0 <= j < endpoints_of(edges).len() && #[trigger] endpoints_of(
            edges,
        )[j] == locations[i];
        lemma_endpoints_elements(edges, j);
    }
    lemma_initial_locations_empty(locations);
}

/// LAW: in auto-declare mode, an edge set whose actions partition and
/// which has two edges whose sources are initial locations with different
/// names is always rejected with `TooManyInitialLocations`.
pub proof fn lemma_two_initials_rejected(
    name: Seq<char>,
    edges: Seq<EdgeModel>,
    first: int,
    second: int,
)
    requires
        0 <= first < edges.len(),
        0 <= second < edges.len(),
        edges[first].source is Initial,
        edges[second].source is Initial,
        location_key(edges[first].source) != location_key(edges[second].source),
        violating_channels(
            dedup_channels(inputs_of(edges)),
            dedup_channels(outputs_of(edges)),
        ).len() == 0,
    ensures
        build_spec(name, edges, None) matches Err(e) && e matches
            ErrorModel::TooManyInitialLocations { automaton, .. } && automaton == name,
{
    lemma_scan_edges_auto(name, edges, Map::empty());
    let after_edges = scan_edges(name, edges, Map::empty(), false)->Ok_0;
    let locations = dedup_locations(endpoints_of(edges));
    lemma_scan_locations_auto(name, locations, after_edges);
    lemma_endpoints_len(edges);
    lemma_endpoints_contains_source(edges, first);
    lemma_endpoints_contains_source(edges, second);
    lemma_dedup_locations_contains(endpoints_of(edges), edges[first].source);
    lemma_dedup_locations_contains(endpoints_of(edges), edges[second].source);
    assert(locations.len() > 0);
    lemma_initial_locations_contains(locations, edges[first].source);
    lemma_initial_locations_contains(locations, edges[second].source);
    let initials = initial_locations(locations);
    let a = choose|a: int|
        0 <= a < initials.len() && location_key(#[trigger] initials[a]) == location_key(
            edges[first].source,
        );
    let b = choose|b: int|
        0 <= b < initials.len() && location_key(#[trigger] initials[b]) == location_key(
            edges[second].source,
        );
    assert(a != b);
    assert(initials.len() >= 2);
}

/// LAW: when every earlier validation stage passes but the unique initial
/// location's invariant does not evaluate to `true` under the final
/// environment, construction is rejected with
/// `InconsistentInitialLocation`.
pub proof fn lemma_inconsistent_initial_rejected(
    name: Seq<char>,
    edges: Seq<EdgeModel>,
    seed: Option<Map<Seq<char>, ValueModel>>,
)
    requires
        ({
            let strict = seed is Some;
            let env0 = if strict {
                seed->0
            } else {
                Map::<Seq<char>, ValueModel>::empty()
            };
            let locations = dedup_locations(endpoints_of(edges));
            &&& scan_edges(name, edges, env0, strict) is Ok
            &&& scan_locations(
                name,
                locations,
                scan_edges(name, edges, env0, strict)->Ok_0,
                strict,
            ) is Ok
            &&& violating_channels(
                dedup_channels(inputs_of(edges)),
                dedup_channels(outputs_of(edges)),
            ).len() == 0
            &&& locations.len() > 0
            &&& initial_locations(locations).len() == 1
            &&& eval_expression_spec(
                location_invariant_expr(initial_locations(locations)[0]),
                scan_locations(
                    name,
                    locations,
                    scan_edges(name, edges, env0, strict)->Ok_0,
                    strict,
                )->Ok_0,
            ) != Some(true)
        }),
    ensures
        build_spec(name, edges, seed) == Err::<AutomatonModel, ErrorModel>(
            ErrorModel::InconsistentInitialLocation {
                automaton: name,
                location: initial_locations(dedup_locations(endpoints_of(edges)))[0],
            },
        ),
{
}

/// The edges of the sequence whose target has the location's identity and
/// whose action's name is among the given actions.
pub open spec fn ingoing_spec(
    edges: Seq<EdgeModel>,
    l: LocationModel,
    actions: Seq<ChannelModel>,
) -> Seq<EdgeModel>
    decreases edges.len(),
{
    if edges.len() == 0 {
        Seq::empty()
    } else {
        ingoing_spec(edges.drop_last(), l, actions) + (if location_key(edges.last().target)
            == location_key(l) && contains_channel_name(actions, edges.last().action.name) {
            seq![edges.last()]
        } else {
            Seq::<EdgeModel>::empty()
        })
    }
}

/// The edges of the sequence whose source has the location's identity and
/// whose action's name is among the given actions.
pub open spec fn outgoing_spec(
    edges: Seq<EdgeModel>,
    l: LocationModel,
    actions: Seq<ChannelModel>,
) -> Seq<EdgeModel>
    decreases edges.len(),
{
    if edges.len() == 0 {
        Seq::empty()
    } else {
        outgoing_spec(edges.drop_last(), l, actions) + (if location_key(edges.last().source)
            == location_key(l) && contains_channel_name(actions, edges.last().action.name) {
            seq![edges.last()]
        } else {
            Seq::<EdgeModel>::empty()
        })
    }
}

/// The sources of the edges, in order.
pub open spec fn sources_of(edges: Seq<EdgeModel>) -> Seq<LocationModel> {
    edges.map_values(|e: EdgeModel| e.source)
}

/// The targets of the edges, in order.
pub open spec fn targets_of(edges: Seq<EdgeModel>) -> Seq<LocationModel> {
    edges.map_values(|e: EdgeModel| e.target)
}

/// A validated automaton.  The locations are exactly the edge endpoints,
/// the inputs and outputs are disjoint by name, exactly one location is
/// initial, and its invariant holds under the initial environment.
#[derive(Debug)]
pub struct Automaton {
    pub name: String,
    locations: Vec<Location>,
    edges: Vec<Edge>,
    actions: Vec<Channel>,
    inputs: Vec<Channel>,
    outputs: Vec<Channel>,
    initial: Location,
    initial_environment: Environment,
}

impl View for Automaton {
    type V = AutomatonModel;

    closed spec fn view(&self) -> AutomatonModel {
        AutomatonModel {
            name: self.name@,
            edges: self.edges.deep_view(),
            locations: self.locations.deep_view(),
            actions: self.actions.deep_view(),
            inputs: self.inputs.deep_view(),
            outputs: self.outputs.deep_view(),
            initial: self.initial@,
            environment: self.initial_environment@,
        }
    }
}

impl DeepView for Automaton {
    type V = AutomatonModel;

    open spec fn deep_view(&self) -> AutomatonModel {
        self.view()
    }
}

impl Clone for Automaton {
    /// Cloning preserves the model.
    fn clone(&self) -> (r: Self)
        ensures
            r@ == self@,
    {
        let r = Automaton {
            name: self.name.clone(),
            locations: clone_locations(&self.locations),
            edges: clone_edges(&self.edges),
            actions: clone_channels(&self.actions),
            inputs: clone_channels(&self.inputs),
            outputs: clone_channels(&self.outputs),
            initial: self.initial.clone(),
            initial_environment: self.initial_environment.clone(),
        };
        proof {
            assert(r@.edges =~= self@.edges);
            assert(r@.locations =~= self@.locations);
            assert(r@.actions =~= self@.actions);
            assert(r@.inputs =~= self@.inputs);
            assert(r@.outputs =~= self@.outputs);
        }
        r
    }
}

/// A copy of the locations, pointwise model-equal.
fn clone_locations(locations: &Vec<Location>) -> (r: Vec<Location>)
    ensures
        r.deep_view() =~= locations.deep_view(),
{
    let mut copies: Vec<Location> = Vec::new();
    let mut i: usize = 0;
    while i < locations.len()
        invariant
            i <= locations@.len(),
            copies@.len() == i,
            forall|j: int| 0 <= j < i ==> (#[trigger] copies@[j])@ == locations@[j]@,
        decreases locations@.len() - i,
    {
        copies.push(locations[i].clone());
        i = i + 1;
    }
    copies
}

/// A copy of the edges, pointwise model-equal.
fn clone_edges(edges: &Vec<Edge>) -> (r: Vec<Edge>)
    ensures
        r.deep_view() =~= edges.deep_view(),
{
    let mut copies: Vec<Edge> = Vec::new();
    let mut i: usize = 0;
    while i < edges.len()
        invariant
            i <= edges@.len(),
            copies@.len() == i,
            forall|j: int| 0 <= j < i ==> (#[trigger] copies@[j])@ == edges@[j]@,
        decreases edges@.len() - i,
    {
        copies.push(edges[i].clone());
        i = i + 1;
    }
    copies
}

/// A copy of the channels, pointwise equal.
pub(crate) fn clone_channels(channels: &Vec<Channel>) -> (r: Vec<Channel>)
    ensures
        r.deep_view() =~= channels.deep_view(),
{
    let mut copies: Vec<Channel> = Vec::new();
    let mut i: usize = 0;
    while i < channels.len()
        invariant
            i <= channels@.len(),
            copies@.len() == i,
            forall|j: int| 0 <= j < i ==> (#[trigger] copies@[j])@ == channels@[j]@,
        decreases channels@.len() - i,
    {
        copies.push(channels[i].clone());
        i = i + 1;
    }
    copies
}

/// Declares every listed identifier as `false`.  The identifiers must
/// have been undeclared when the list was computed; repeated occurrences
/// are allowed and later ones change nothing.
fn declare_all(environment: &mut Environment, missing: &Vec<String>)
    requires
        forall|j: int|
            0 <= j < missing.deep_view().len() ==> !old(environment)@.dom().contains(
                #[trigger] missing.deep_view()[j],
            ),
    ensures
        final(environment)@ == declare_missing(old(environment)@, missing.deep_view()),
{
    let ghost base = environment@;
    proof {
        assert(forall|j: int|
            0 <= j < missing@.len() ==> missing.deep_view()[j] == (#[trigger] missing@[j])@);
    }
    let mut j: usize = 0;
    while j < missing.len()
        invariant
            j <= missing@.len(),
            forall|k: int|
                0 <= k < missing.deep_view().len() ==> !base.dom().contains(
                    #[trigger] missing.deep_view()[k],
                ),
            forall|k: int|
                0 <= k < missing@.len() ==> missing.deep_view()[k] == (#[trigger] missing@[k])@,
            environment@ == declare_missing(base, missing.deep_view().take(j as int)),
        decreases missing@.len() - j,
    {
        let declared = environment.insert(missing[j].as_str(), &Value::Bool(false));
        j = j + 1;
        proof {
            assert(missing.deep_view().take(j as int).drop_last() =~= missing.deep_view().take(
                j as int - 1,
            ));
            assert(missing.deep_view().take(j as int).last() == missing@[j - 1]@);
            let k = missing.deep_view()[j - 1];
            if !declared {
                lemma_declare_missing_fresh(base, missing.deep_view().take(j as int - 1), k);
                assert(environment@.insert(k, ValueModel::Bool(false)) =~= environment@);
            }
        }
    }
    proof {
        assert(missing.deep_view().take(missing@.len() as int) =~= missing.deep_view());
    }
}

impl Automaton {
    /// Validates an edge set into an automaton.  With a seed environment
    /// every referenced identifier must already be declared; without one,
    /// construction auto-declares each missing identifier as `false`.
    /// Validation order, first failure winning: per edge, guard
    /// declaration, guard typing, update declaration, update typing; per
    /// derived location, invariant declaration; then the input/output
    /// partition, non-emptiness, the unique initial location, and the
    /// truth of its invariant under the final environment.
    pub fn new(name: &str, edges: &Vec<Edge>, environment: Option<&Environment>) -> (r: Result<
        Automaton,
        Error,
    >)
        ensures
            ({
                let seed = match environment {
                    Some(env) => Some(env@),
                    None => None,
                };
                match build_spec(name@, edges.deep_view(), seed) {
                    Ok(model) => r matches Ok(a) && a@ == model,
                    Err(error_model) => r matches Err(e) && e@ == error_model,
                }
            }),
    {
        let ghost edge_models = edges.deep_view();
        let ghost seed = match environment {
            Some(env) => Some(env@),
            None => None,
        };
        let declare_variables = environment.is_none();
        let ghost strict = !declare_variables;
        let mut working = match environment {
            Some(env) => env.clone(),
            None => Environment::new_empty(),
        };
        let ghost env0 = working@;
        proof {
            assert(forall|j: int|
                0 <= j < edges@.len() ==> edge_models[j] == (#[trigger] edges@[j])@);
        }
        // Per-edge checks: guard declaration, guard typing, update
        // declaration, update typing.
        let mut i: usize = 0;
        while i < edges.len()
            invariant
                i <= edges@.len(),
                edge_models == edges.deep_view(),
                forall|j: int|
                    0 <= j < edges@.len() ==> edge_models[j] == (#[trigger] edges@[j])@,
                strict == !declare_variables,
                seed == (match environment {
                    Some(env) => Some(env@),
                    None => None::<Map<Seq<char>, ValueModel>>,
                }),
                strict == seed is Some,
                env0 == (if seed is Some {
                    seed->0
                } else {
                    Map::<Seq<char>, ValueModel>::empty()
                }),
                scan_edges(name@, edge_models.take(i as int), env0, strict) == Ok::<
                    Map<Seq<char>, ValueModel>,
                    ErrorModel,
                >(working@),
            decreases edges@.len() - i,
        {
            let ghost env_before = working@;
            let edge = &edges[i];
            let missing = working.missing_identifiers_in_expression(&edge.guard.node);
            if missing.len() > 0 && !declare_variables {
                let result = Err(
                    Error::MissingIdentifiersInEdgeGuard {
                        automaton: name.to_owned(),
                        edge: edge.clone(),
                        missing,
                    },
                );
                proof {
                    lemma_scan_edges_step(name@, edge_models, i as int, env0, strict);
                    lemma_scan_edges_prefix_error(name@, edge_models, i as int + 1, env0, strict);
                }
                return result;
            }
            proof {
                assert forall|j: int| 0 <= j < missing.deep_view().len() implies !working@
                    .dom().contains(#[trigger] missing.deep_view()[j]) by {
                    lemma_missing_not_declared(
                        working@,
                        expression_identifiers(edge@.guard),
                        missing.deep_view()[j],
                    );
                }
            }
            declare_all(&mut working, &missing);
            let checker = TypeChecker::new(&working);
            let guard_ok = match checker.check_expression(&edge.guard.node) {
                Ok(LangType::Logical) => true,
                _ => false,
            };
            if !guard_ok {
                let result = Err(
                    Error::EdgeGuardIsNotLogical {
                        automaton: name.to_owned(),
                        edge: edge.clone(),
                        actual: LangType::Void,
                    },
                );
                proof {
                    lemma_scan_edges_step(name@, edge_models, i as int, env0, strict);
                    lemma_scan_edges_prefix_error(name@, edge_models, i as int + 1, env0, strict);
                }
                return result;
            }
            if let Some(statement) = &edge.update.node {
                let update_missing = working.missing_identifiers_in_statement(statement);
                if update_missing.len() > 0 && !declare_variables {
                    let result = Err(
                        Error::MissingIdentifiersInEdgeUpdate {
                            automaton: name.to_owned(),
                            edge: edge.clone(),
                            missing: update_missing,
                        },
                    );
                    proof {
                        lemma_scan_edges_step(name@, edge_models, i as int, env0, strict);
                        lemma_scan_edges_prefix_error(
                            name@,
                            edge_models,
                            i as int + 1,
                            env0,
                            strict,
                        );
                    }
                    return result;
                }
                proof {
                    assert forall|j: int| 0 <= j < update_missing.deep_view().len() implies !working@
                        .dom().contains(#[trigger] update_missing.deep_view()[j]) by {
                        lemma_missing_not_declared(
                            working@,
                            statement_identifiers(statement@),
                            update_missing.deep_view()[j],
                        );
                    }
                }
                // A statement always types to `Void`, so the update's
                // typing check cannot fail once its identifiers are
                // declared.
                declare_all(&mut working, &update_missing);
            }
            i = i + 1;
            proof {
                lemma_scan_edges_step(name@, edge_models, i as int - 1, env0, strict);
            }
        }
        proof {
            assert(edge_models.take(edge_models.len() as int) =~= edge_models);
        }
        let ghost env_after_edges = working@;
        // Derive the locations from the edge endpoints, each identity
        // once.
        let mut locations: Vec<Location> = Vec::new();
        let mut i: usize = 0;
        while i < edges.len()
            invariant
                i <= edges@.len(),
                edge_models == edges.deep_view(),
                forall|j: int|
                    0 <= j < edges@.len() ==> edge_models[j] == (#[trigger] edges@[j])@,
                locations.deep_view() == dedup_locations(endpoints_of(edge_models.take(i as int))),
            decreases edges@.len() - i,
        {
            let ghost endpoints_before = endpoints_of(edge_models.take(i as int));
            if !vec_contains_location(&locations, &edges[i].source) {
                locations.push(edges[i].source.clone());
            }
            let ghost after_source = locations.deep_view();
            if !vec_contains_location(&locations, &edges[i].target) {
                locations.push(edges[i].target.clone());
            }
            i = i + 1;
            proof {
                let endpoints_now = endpoints_of(edge_models.take(i as int));
                assert(edge_models.take(i as int).drop_last() =~= edge_models.take(i as int - 1));
                assert(endpoints_now == endpoints_before + seq![
                    edge_models[i as int - 1].source,
                    edge_models[i as int - 1].target,
                ]);
                assert(endpoints_now.drop_last() =~= endpoints_before.push(
                    edge_models[i as int - 1].source,
                ));
                assert(endpoints_before.push(edge_models[i as int - 1].source).drop_last()
                    =~= endpoints_before);
                assert(after_source == dedup_locations(
                    endpoints_before.push(edge_models[i as int - 1].source),
                ));
                assert(locations.deep_view() =~= dedup_locations(endpoints_now));
            }
        }
        proof {
            assert(edge_models.take(edge_models.len() as int) =~= edge_models);
        }
        let ghost location_models = locations.deep_view();
        // Per-location invariant declaration checks.
        let mut i: usize = 0;
        while i < locations.len()
            invariant
                i <= locations@.len(),
                location_models == locations.deep_view(),
                forall|j: int|
                    0 <= j < locations@.len() ==> location_models[j] == (
                    #[trigger] locations@[j])@,
                strict == !declare_variables,
                seed == (match environment {
                    Some(env) => Some(env@),
                    None => None::<Map<Seq<char>, ValueModel>>,
                }),
                strict == seed is Some,
                env0 == (if seed is Some {
                    seed->0
                } else {
                    Map::<Seq<char>, ValueModel>::empty()
                }),
                edge_models == edges.deep_view(),
                scan_edges(name@, edge_models, env0, strict) == Ok::<
                    Map<Seq<char>, ValueModel>,
                    ErrorModel,
                >(env_after_edges),
                location_models == dedup_locations(endpoints_of(edge_models)),
                scan_locations(name@, location_models.take(i as int), env_after_edges, strict)
                    == Ok::<Map<Seq<char>, ValueModel>, ErrorModel>(working@),
            decreases locations@.len() - i,
        {
            let current = &locations[i];
            let keeps = match current {
                Location::Inconsistent { .. } => false,
                Location::Universal { .. } => false,
                _ => true,
            };
            if keeps {
                let node = match current {
                    Location::Normal { invariant: inv, .. } => &inv.node,
                    Location::Initial { invariant: inv, .. } => &inv.node,
                    Location::Conjunction { invariant: inv, .. } => &inv.node,
                    _ => unreached(),
                };
                let missing = working.missing_identifiers_in_expression(node);
                if missing.len() > 0 && !declare_variables {
                    let result = Err(
                        Error::MissingIdentifiersInLocationInvariant {
                            automaton: name.to_owned(),
                            location: current.clone(),
                            missing,
                        },
                    );
                    proof {
                        lemma_scan_locations_step(
                            name@,
                            location_models,
                            i as int,
                            env_after_edges,
                            strict,
                        );
                        lemma_scan_locations_prefix_error(
                            name@,
                            location_models,
                            i as int + 1,
                            env_after_edges,
                            strict,
                        );
                    }
                    return result;
                }
                proof {
                    assert forall|j: int| 0 <= j < missing.deep_view().len() implies !working@
                        .dom().contains(#[trigger] missing.deep_view()[j]) by {
                        lemma_missing_not_declared(
                            working@,
                            expression_identifiers(location_invariant_expr(current@)),
                            missing.deep_view()[j],
                        );
                    }
                }
                declare_all(&mut working, &missing);
            }
            i = i + 1;
            proof {
                lemma_scan_locations_step(
                    name@,
                    location_models,
                    i as int - 1,
                    env_after_edges,
                    strict,
                );
            }
        }
        proof {
            assert(location_models.take(location_models.len() as int) =~= location_models);
        }
        // Collect the actions and partition them into inputs and outputs,
        // each name once.
        let mut actions: Vec<Channel> = Vec::new();
        let mut inputs: Vec<Channel> = Vec::new();
        let mut outputs: Vec<Channel> = Vec::new();
        let mut i: usize = 0;
        while i < edges.len()
            invariant
                i <= edges@.len(),
                edge_models == edges.deep_view(),
                forall|j: int|
                    0 <= j < edges@.len() ==> edge_models[j] == (#[trigger] edges@[j])@,
                actions.deep_view() == dedup_channels(actions_of(edge_models.take(i as int))),
                inputs.deep_view() == dedup_channels(inputs_of(edge_models.take(i as int))),
                outputs.deep_view() == dedup_channels(outputs_of(edge_models.take(i as int))),
            decreases edges@.len() - i,
        {
            let action = &edges[i].action;
            if !vec_contains_channel(&actions, action) {
                actions.push(action.clone());
            }
            let is_input = matches!(action, Channel::In(_));
            if is_input {
                if !vec_contains_channel(&inputs, action) {
                    inputs.push(action.clone());
                }
            } else {
                if !vec_contains_channel(&outputs, action) {
                    outputs.push(action.clone());
                }
            }
            i = i + 1;
            proof {
                assert(edge_models.take(i as int).drop_last() =~= edge_models.take(i as int - 1));
                assert(actions_of(edge_models.take(i as int)).drop_last() =~= actions_of(
                    edge_models.take(i as int - 1),
                ));
                assert(actions.deep_view() =~= dedup_channels(
                    actions_of(edge_models.take(i as int)),
                ));
                if is_input {
                    assert(inputs_of(edge_models.take(i as int)) == inputs_of(
                        edge_models.take(i as int - 1),
                    ).push(edge_models[i as int - 1].action));
                    assert(inputs_of(edge_models.take(i as int)).drop_last() =~= inputs_of(
                        edge_models.take(i as int - 1),
                    ));
                    assert(outputs_of(edge_models.take(i as int)) =~= outputs_of(
                        edge_models.take(i as int - 1),
                    ));
                } else {
                    assert(outputs_of(edge_models.take(i as int)) == outputs_of(
                        edge_models.take(i as int - 1),
                    ).push(edge_models[i as int - 1].action));
                    assert(outputs_of(edge_models.take(i as int)).drop_last() =~= outputs_of(
                        edge_models.take(i as int - 1),
                    ));
                    assert(inputs_of(edge_models.take(i as int)) =~= inputs_of(
                        edge_models.take(i as int - 1),
                    ));
                }
                assert(inputs.deep_view() =~= dedup_channels(
                    inputs_of(edge_models.take(i as int)),
                ));
                assert(outputs.deep_view() =~= dedup_channels(
                    outputs_of(edge_models.take(i as int)),
                ));
            }
        }
        proof {
            assert(edge_models.take(edge_models.len() as int) =~= edge_models);
        }
        // The partition check: no name may be both an input and an
        // output.
        let mut violating: Vec<Channel> = Vec::new();
        let mut i: usize = 0;
        while i < inputs.len()
            invariant
                i <= inputs@.len(),
                forall|j: int|
                    0 <= j < inputs@.len() ==> inputs.deep_view()[j] == (#[trigger] inputs@[j])@,
                violating.deep_view() == violating_channels(
                    inputs.deep_view().take(i as int),
                    outputs.deep_view(),
                ),
            decreases inputs@.len() - i,
        {
            if vec_contains_channel(&outputs, &inputs[i]) {
                violating.push(inputs[i].clone());
            }
            i = i + 1;
            proof {
                assert(inputs.deep_view().take(i as int).drop_last() =~= inputs.deep_view().take(
                    i as int - 1,
                ));
                assert(inputs.deep_view().take(i as int).last() == inputs@[i - 1]@);
                assert(violating.deep_view() =~= violating_channels(
                    inputs.deep_view().take(i as int),
                    outputs.deep_view(),
                ));
            }
        }
        proof {
            assert(inputs.deep_view().take(inputs@.len() as int) =~= inputs.deep_view());
        }
        if violating.len() > 0 {
            return Err(
                Error::PartitionError { automaton: name.to_owned(), violating },
            );
        }
        // The automaton must not be empty.
        if locations.len() == 0 {
            return Err(Error::EmptyAutomaton { automaton: name.to_owned() });
        }
        // Exactly one location must be tagged initial.
        let mut initials: Vec<Location> = Vec::new();
        let mut i: usize = 0;
        while i < locations.len()
            invariant
                i <= locations@.len(),
                location_models == locations.deep_view(),
                forall|j: int|
                    0 <= j < locations@.len() ==> location_models[j] == (
                    #[trigger] locations@[j])@,
                initials.deep_view() == initial_locations(location_models.take(i as int)),
            decreases locations@.len() - i,
        {
            if matches!(&locations[i], Location::Initial { .. }) {
                initials.push(locations[i].clone());
            }
            i = i + 1;
            proof {
                assert(location_models.take(i as int).drop_last() =~= location_models.take(
                    i as int - 1,
                ));
                assert(location_models.take(i as int).last() == location_models[i - 1]);
                assert(initials.deep_view() =~= initial_locations(
                    location_models.take(i as int),
                ));
            }
        }
        proof {
            assert(location_models.take(location_models.len() as int) =~= location_models);
        }
        if initials.len() == 0 {
            return Err(Error::MissingInitialLocation { automaton: name.to_owned() });
        }
        if initials.len() > 1 {
            return Err(
                Error::TooManyInitialLocations { automaton: name.to_owned(), initials },
            );
        }
        let initial = initials[0].clone();
        proof {
            assert(initial@ == initials.deep_view()[0]);
            lemma_initial_locations_initial(location_models, 0);
        }
        // The initial location's invariant must hold under the final
        // environment.
        let initial_invariant_node = match &initial {
            Location::Initial { invariant: inv, .. } => &inv.node,
            _ => unreached(),
        };
        let mut interpreter = Interpreter::new(&working);
        let consistent = match interpreter.eval_expression(initial_invariant_node) {
            Ok(evaluation) => evaluation.is_true(),
            Err(_) => false,
        };
        if !consistent {
            return Err(
                Error::InconsistentInitialLocation {
                    automaton: name.to_owned(),
                    location: initial,
                },
            );
        }
        // Keep each edge once.
        let mut kept_edges: Vec<Edge> = Vec::new();
        let mut i: usize = 0;
        while i < edges.len()
            invariant
                i <= edges@.len(),
                edge_models == edges.deep_view(),
                forall|j: int|
                    0 <= j < edges@.len() ==> edge_models[j] == (#[trigger] edges@[j])@,
                kept_edges.deep_view() == dedup_edges(edge_models.take(i as int)),
            decreases edges@.len() - i,
        {
            if !vec_contains_edge(&kept_edges, &edges[i]) {
                kept_edges.push(edges[i].clone());
            }
            i = i + 1;
            proof {
                assert(edge_models.take(i as int).drop_last() =~= edge_models.take(i as int - 1));
                assert(edge_models.take(i as int).last() == edge_models[i - 1]);
                assert(kept_edges.deep_view() =~= dedup_edges(edge_models.take(i as int)));
            }
        }
        proof {
            assert(edge_models.take(edge_models.len() as int) =~= edge_models);
        }
        Ok(
            Automaton {
                name: name.to_owned(),
                locations,
                edges: kept_edges,
                actions,
                inputs,
                outputs,
                initial,
                initial_environment: working,
            },
        )
    }

    /// A copy of the initial environment.
    pub fn get_initial_environment(&self) -> (r: Environment)
        ensures
            r@ == self@.environment,
    {
        self.initial_environment.clone()
    }

    /// A copy of the initial location.
    pub fn get_initial_location(&self) -> (r: Location)
        ensures
            r@ == self@.initial,
    {
        self.initial.clone()
    }

    /// The locations: exactly the edge endpoints, each identity once.
    pub fn get_locations(&self) -> (r: &Vec<Location>)
        ensures
            r.deep_view() == self@.locations,
    {
        &self.locations
    }

    /// The edges, as validated, each once.
    pub fn get_edges(&self) -> (r: &Vec<Edge>)
        ensures
            r.deep_view() == self@.edges,
    {
        &self.edges
    }

    /// The actions: every channel used on an edge, each name once.
    pub fn get_actions(&self) -> (r: &Vec<Channel>)
        ensures
            r.deep_view() == self@.actions,
    {
        &self.actions
    }

    /// The input actions, each name once.
    pub fn get_inputs(&self) -> (r: &Vec<Channel>)
        ensures
            r.deep_view() == self@.inputs,
    {
        &self.inputs
    }

    /// The output actions, each name once.
    pub fn get_outputs(&self) -> (r: &Vec<Channel>)
        ensures
            r.deep_view() == self@.outputs,
    {
        &self.outputs
    }

    /// The edges into the location whose action is among the given
    /// actions.
    pub fn ingoing_edges(&self, location: &Location, actions: &Vec<Channel>) -> (r: Vec<Edge>)
        ensures
            r.deep_view() == ingoing_spec(self@.edges, location@, actions.deep_view()),
    {
        let mut result: Vec<Edge> = Vec::new();
        let mut i: usize = 0;
        proof {
            assert(forall|j: int|
                0 <= j < self.edges@.len() ==> self@.edges[j] == (#[trigger] self.edges@[j])@);
        }
        while i < self.edges.len()
            invariant
                i <= self.edges@.len(),
                forall|j: int|
                    0 <= j < self.edges@.len() ==> self@.edges[j] == (#[trigger] self.edges@[j])@,
                result.deep_view() == ingoing_spec(
                    self@.edges.take(i as int),
                    location@,
                    actions.deep_view(),
                ),
            decreases self.edges@.len() - i,
        {
            let edge = &self.edges[i];
            if edge.target == *location && vec_contains_channel(actions, &edge.action) {
                result.push(edge.clone());
            }
            i = i + 1;
            proof {
                assert(self@.edges.take(i as int).drop_last() =~= self@.edges.take(i as int - 1));
                assert(self@.edges.take(i as int).last() == self@.edges[i - 1]);
                assert(result.deep_view() =~= ingoing_spec(
                    self@.edges.take(i as int),
                    location@,
                    actions.deep_view(),
                ));
            }
        }
        proof {
            assert(self@.edges.take(self@.edges.len() as int) =~= self@.edges);
        }
        result
    }

    /// The edges out of the location whose action is among the given
    /// actions.
    pub fn outgoing_edges(&self, location: &Location, actions: &Vec<Channel>) -> (r: Vec<Edge>)
        ensures
            r.deep_view() == outgoing_spec(self@.edges, location@, actions.deep_view()),
    {
        let mut result: Vec<Edge> = Vec::new();
        let mut i: usize = 0;
        proof {
            assert(forall|j: int|
                0 <= j < self.edges@.len() ==> self@.edges[j] == (#[trigger] self.edges@[j])@);
        }
        while i < self.edges.len()
            invariant
                i <= self.edges@.len(),
                forall|j: int|
                    0 <= j < self.edges@.len() ==> self@.edges[j] == (#[trigger] self.edges@[j])@,
                result.deep_view() == outgoing_spec(
                    self@.edges.take(i as int),
                    location@,
                    actions.deep_view(),
                ),
            decreases self.edges@.len() - i,
        {
            let edge = &self.edges[i];
            if edge.source == *location && vec_contains_channel(actions, &edge.action) {
                result.push(edge.clone());
            }
            i = i + 1;
            proof {
                assert(self@.edges.take(i as int).drop_last() =~= self@.edges.take(i as int - 1));
                assert(self@.edges.take(i as int).last() == self@.edges[i - 1]);
                assert(result.deep_view() =~= outgoing_spec(
                    self@.edges.take(i as int),
                    location@,
                    actions.deep_view(),
                ));
            }
        }
        proof {
            assert(self@.edges.take(self@.edges.len() as int) =~= self@.edges);
        }
        result
    }

    /// The sources of the edges into the location, restricted to the
    /// given actions: the structural predecessors, guards not consulted.
    pub fn precedeeing_locations(&self, location: &Location, actions: &Vec<Channel>) -> (r: Vec<
        Location,
    >)
        ensures
            r.deep_view() == sources_of(
                ingoing_spec(self@.edges, location@, actions.deep_view()),
            ),
    {
        let ingoing = self.ingoing_edges(location, actions);
        let mut result: Vec<Location> = Vec::new();
        let mut i: usize = 0;
        proof {
            assert(forall|j: int|
                0 <= j < ingoing@.len() ==> ingoing.deep_view()[j] == (#[trigger] ingoing@[j])@);
        }
        while i < ingoing.len()
            invariant
                i <= ingoing@.len(),
                forall|j: int|
                    0 <= j < ingoing@.len() ==> ingoing.deep_view()[j] == (
                    #[trigger] ingoing@[j])@,
                result@.len() == i,
                forall|j: int|
                    0 <= j < i ==> (#[trigger] result@[j])@ == ingoing.deep_view()[j].source,
            decreases ingoing@.len() - i,
        {
            result.push(ingoing[i].source.clone());
            i = i + 1;
        }
        proof {
            assert(result.deep_view() =~= sources_of(ingoing.deep_view()));
        }
        result
    }

    /// The targets of the edges out of the location, restricted to the
    /// given actions: the structural successors, guards not consulted.
    pub fn sucedeeing_locations(&self, location: &Location, actions: &Vec<Channel>) -> (r: Vec<
        Location,
    >)
        ensures
            r.deep_view() == targets_of(
                outgoing_spec(self@.edges, location@, actions.deep_view()),
            ),
    {
        let outgoing = self.outgoing_edges(location, actions);
        let mut result: Vec<Location> = Vec::new();
        let mut i: usize = 0;
        proof {
            assert(forall|j: int|
                0 <= j < outgoing@.len() ==> outgoing.deep_view()[j] == (
                #[trigger] outgoing@[j])@);
        }
        while i < outgoing.len()
            invariant
                i <= outgoing@.len(),
                forall|j: int|
                    0 <= j < outgoing@.len() ==> outgoing.deep_view()[j] == (
                    #[trigger] outgoing@[j])@,
                result@.len() == i,
                forall|j: int|
                    0 <= j < i ==> (#[trigger] result@[j])@ == outgoing.deep_view()[j].target,
            decreases outgoing@.len() - i,
        {
            result.push(outgoing[i].target.clone());
            i = i + 1;
        }
        proof {
            assert(result.deep_view() =~= targets_of(outgoing.deep_view()));
        }
        result
    }
}

} // verus!
