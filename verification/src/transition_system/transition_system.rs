//! The transition-system view of an automaton: initial state, successor
//! states, and environment-dependent predecessor states.

use vstd::prelude::*;

use crate::automata::automaton::{
    contains_channel_name, contains_location, ingoing_spec, outgoing_spec, sources_of, Automaton,
    AutomatonModel,
};
use crate::automata::channel::{Channel, ChannelModel};
use crate::automata::edge::{edge_enabled, edge_execute, EdgeModel};
use crate::language::error::Error;
use crate::transition_system::state::{state_equiv, State, StateModel};

verus! {

/// The state an automaton's behavior starts in.
pub open spec fn initial_state_of(a: AutomatonModel) -> StateModel {
    StateModel { location: a.initial, environment: a.environment }
}

/// Whether the edge, restricted to the given actions, steps the first
/// state to the second.
pub open spec fn step_to(
    e: EdgeModel,
    from: StateModel,
    to: StateModel,
    actions: Seq<ChannelModel>,
) -> bool {
    &&& contains_channel_name(actions, e.action.name)
    &&& edge_enabled(e, from)
    &&& (edge_execute(e, from) matches Some(next) && state_equiv(next, to))
}

/// Whether the state is reachable from the automaton's initial state in
/// at most `n` edge firings restricted to the given actions.
pub open spec fn reachable_in(
    a: AutomatonModel,
    actions: Seq<ChannelModel>,
    s: StateModel,
    n: nat,
) -> bool
    decreases n,
{
    if state_equiv(s, initial_state_of(a)) {
        true
    } else if n == 0 {
        false
    } else {
        exists|p: StateModel, i: int|
            #![auto]
            reachable_in(a, actions, p, (n - 1) as nat) && 0 <= i < a.edges.len() && step_to(
                a.edges[i],
                p,
                s,
                actions,
            )
    }
}

/// Whether the state is reachable from the automaton's initial state by
/// edge firings restricted to the given actions.
pub open spec fn reachable(a: AutomatonModel, actions: Seq<ChannelModel>, s: StateModel) -> bool {
    exists|n: nat| reachable_in(a, actions, s, n)
}

/// The states the listed edges produce from the state, in order, firing
/// each edge that is enabled; `Err` marks the first failing update.
pub open spec fn step_states(edges: Seq<EdgeModel>, s: StateModel) -> Result<Seq<StateModel>, ()>
    decreases edges.len(),
{
    if edges.len() == 0 {
        Ok(Seq::empty())
    } else {
        match step_states(edges.drop_last(), s) {
            Err(e) => Err(e),
            Ok(prefix) => if edge_enabled(edges.last(), s) {
                match edge_execute(edges.last(), s) {
                    Some(next) => Ok(prefix.push(next)),
                    None => Err(()),
                }
            } else {
                Ok(prefix)
            },
        }
    }
}

/// The successor states of a state under an action restriction.
pub open spec fn successors_spec(
    a: AutomatonModel,
    s: StateModel,
    actions: Seq<ChannelModel>,
) -> Result<Seq<StateModel>, ()> {
    step_states(outgoing_spec(a.edges, s.location, actions), s)
}

/// Whether some state of the sequence is the same point of behavior.
pub open spec fn contains_state(states: Seq<StateModel>, s: StateModel) -> bool {
    exists|i: int| 0 <= i < states.len() && state_equiv(#[trigger] states[i], s)
}

/// Whether at least `n` pairwise distinct points of behavior are
/// reachable under the action restriction.
pub open spec fn state_space_exceeds(
    a: AutomatonModel,
    actions: Seq<ChannelModel>,
    n: nat,
) -> bool {
    exists|states: Seq<StateModel>|
        {
            &&& #[trigger] states.len() == n
            &&& (forall|i: int|
                0 <= i < states.len() ==> reachable(a, actions, #[trigger] states[i]))
            &&& (forall|i: int, j: int|
                0 <= i < j < states.len() ==> !state_equiv(
                    #[trigger] states[i],
                    #[trigger] states[j],
                ))
        }
}

/// Pairwise distinct points of behavior, each among a cover, are no more
/// numerous than the cover.
pub proof fn lemma_distinct_states_bounded(v: Seq<StateModel>, u: Seq<StateModel>)
    requires
        forall|i: int, j: int|
            0 <= i < j < v.len() ==> !state_equiv(#[trigger] v[i], #[trigger] v[j]),
        forall|i: int| 0 <= i < v.len() ==> contains_state(u, #[trigger] v[i]),
    ensures
        v.len() <= u.len(),
    decreases v.len(),
{
    if v.len() > 0 {
        let last = v.last();
        let k = choose|k: int| 0 <= k < u.len() && state_equiv(#[trigger] u[k], last);
        let rest = v.drop_last();
        let reduced = u.remove(k);
        assert forall|i: int| 0 <= i < rest.len() implies contains_state(
            reduced,
            #[trigger] rest[i],
        ) by {
            assert(rest[i] == v[i]);
            let w = choose|w: int| 0 <= w < u.len() && state_equiv(#[trigger] u[w], v[i]);
            if w == k {
                assert(state_equiv(v[i], v[v.len() - 1]));
            } else if w < k {
                assert(reduced[w] == u[w]);
            } else {
                assert(reduced[w - 1] == u[w]);
            }
        }
        assert(forall|i: int, j: int|
            0 <= i < j < rest.len() ==> !state_equiv(#[trigger] rest[i], #[trigger] rest[j]));
        lemma_distinct_states_bounded(rest, reduced);
    }
}

/// LAW: a finite cover bounds the state space — when every reachable
/// state is among `universe`, there is no collection of more than
/// `universe.len()` pairwise distinct reachable states, so the larger
/// disjunct of the predecessor functions' error clause is refuted.
pub proof fn lemma_state_space_bounded(
    a: AutomatonModel,
    actions: Seq<ChannelModel>,
    universe: Seq<StateModel>,
    n: nat,
)
    requires
        forall|s: StateModel| #[trigger] reachable(a, actions, s) ==> contains_state(universe, s),
        n > universe.len(),
    ensures
        !state_space_exceeds(a, actions, n),
{
    if state_space_exceeds(a, actions, n) {
        let states = choose|states: Seq<StateModel>|
            {
                &&& #[trigger] states.len() == n
                &&& (forall|i: int|
                    0 <= i < states.len() ==> reachable(a, actions, #[trigger] states[i]))
                &&& (forall|i: int, j: int|
                    0 <= i < j < states.len() ==> !state_equiv(
                        #[trigger] states[i],
                        #[trigger] states[j],
                    ))
            };
        assert forall|i: int| 0 <= i < states.len() implies contains_state(
            universe,
            #[trigger] states[i],
        ) by {
            assert(reachable(a, actions, states[i]));
        }
        lemma_distinct_states_bounded(states, universe);
    }
}

/// Enabled steps transfer between equivalent states: firing the same
/// edge from the same point of behavior produces the same point.
pub proof fn lemma_step_respects_equiv(e: EdgeModel, p: StateModel, q: StateModel)
    requires
        state_equiv(p, q),
    ensures
        edge_enabled(e, p) == edge_enabled(e, q),
        edge_execute(e, p) == edge_execute(e, q),
{
}

impl Automaton {
    /// The initial state: the initial location under the initial
    /// environment.
    pub fn get_initial_state(&self) -> (r: State)
        ensures
            r@ == initial_state_of(self@),
    {
        State::new(&self.get_initial_location(), &self.get_initial_environment())
    }

    /// The states one enabled edge firing away from the state, restricted
    /// to the given actions, in edge order.  A failing update on an
    /// enabled edge is an internal-consistency error and is returned.
    pub fn successors(&self, state: &State, actions: &Vec<Channel>) -> (r: Result<
        Vec<State>,
        Error,
    >)
        ensures
            match successors_spec(self@, state@, actions.deep_view()) {
                Ok(states) => r matches Ok(v) && v.deep_view() == states,
                Err(_) => r matches Err(Error::RuntimeError { .. }),
            },
    {
        let outgoing = self.outgoing_edges(&state.location, actions);
        let ghost outgoing_models = outgoing.deep_view();
        proof {
            assert(forall|j: int|
                0 <= j < outgoing@.len() ==> outgoing_models[j] == (#[trigger] outgoing@[j])@);
        }
        let mut result: Vec<State> = Vec::new();
        proof {
            assert(outgoing_models.take(0) =~= Seq::<EdgeModel>::empty());
            assert(result.deep_view() =~= Seq::<StateModel>::empty());
        }
        let mut i: usize = 0;
        while i < outgoing.len()
            invariant
                i <= outgoing@.len(),
                outgoing_models == outgoing.deep_view(),
                outgoing_models == outgoing_spec(
                    self@.edges,
                    state@.location,
                    actions.deep_view(),
                ),
                forall|j: int|
                    0 <= j < outgoing@.len() ==> outgoing_models[j] == (#[trigger] outgoing@[j])@,
                step_states(outgoing_models.take(i as int), state@) == Ok::<Seq<StateModel>, ()>(
                    result.deep_view(),
                ),
            decreases outgoing@.len() - i,
        {
            let edge = &outgoing[i];
            if edge.enabled(state) {
                match edge.execute(state) {
                    Ok(next) => {
                        result.push(next);
                    },
                    Err(error) => {
                        proof {
                            assert(outgoing_models.take(i as int + 1).drop_last()
                                =~= outgoing_models.take(i as int));
                            assert(outgoing_models.take(i as int + 1).last()
                                == outgoing_models[i as int]);
                            assert(step_states(outgoing_models.take(i as int + 1), state@)
                                is Err);
                            lemma_step_states_prefix_error(
                                outgoing_models,
                                i as int + 1,
                                state@,
                            );
                        }
                        return Err(error);
                    },
                }
            }
            i = i + 1;
            proof {
                assert(outgoing_models.take(i as int).drop_last() =~= outgoing_models.take(
                    i as int - 1,
                ));
                assert(outgoing_models.take(i as int).last() == outgoing_models[i - 1]);
                assert(result.deep_view() =~= step_states(
                    outgoing_models.take(i as int),
                    state@,
                )->Ok_0);
            }
        }
        proof {
            assert(outgoing_models.take(outgoing_models.len() as int) =~= outgoing_models);
        }
        Ok(result)
    }
}

/// Whether `p` is a predecessor of `s` under the action restriction: `p`
/// is reachable, sits at a structural predecessor location of `s`'s
/// location, and enables at least one ingoing edge to it.
pub open spec fn predecessor_of(
    a: AutomatonModel,
    s: StateModel,
    p: StateModel,
    actions: Seq<ChannelModel>,
) -> bool {
    &&& reachable(a, actions, p)
    &&& contains_location(
        sources_of(ingoing_spec(a.edges, s.location, actions)),
        p.location,
    )
    &&& (exists|j: int|
        0 <= j < ingoing_spec(a.edges, s.location, actions).len() && edge_enabled(
            #[trigger] ingoing_spec(a.edges, s.location, actions)[j],
            p,
        ))
}

/// Reachability transfers between equivalent states.
pub proof fn lemma_reachable_respects_equiv(
    a: AutomatonModel,
    actions: Seq<ChannelModel>,
    p: StateModel,
    q: StateModel,
    n: nat,
)
    requires
        state_equiv(p, q),
        reachable_in(a, actions, p, n),
    ensures
        reachable_in(a, actions, q, n),
{
    if state_equiv(q, initial_state_of(a)) {
    } else if state_equiv(p, initial_state_of(a)) {
        assert(state_equiv(q, initial_state_of(a)));
    } else {
        let (w, i) = choose|w: StateModel, i: int|
            #![auto]
            reachable_in(a, actions, w, (n - 1) as nat) && 0 <= i < a.edges.len() && step_to(
                a.edges[i],
                w,
                p,
                actions,
            );
        assert(step_to(a.edges[i], w, q, actions));
    }
}

/// Being a predecessor transfers between equivalent states.
pub proof fn lemma_predecessor_respects_equiv(
    a: AutomatonModel,
    s: StateModel,
    p: StateModel,
    q: StateModel,
    actions: Seq<ChannelModel>,
)
    requires
        state_equiv(p, q),
        predecessor_of(a, s, p, actions),
    ensures
        predecessor_of(a, s, q, actions),
{
    let n = choose|n: nat| reachable_in(a, actions, p, n);
    lemma_reachable_respects_equiv(a, actions, p, q, n);
    let j = choose|j: int|
        0 <= j < ingoing_spec(a.edges, s.location, actions).len() && edge_enabled(
            #[trigger] ingoing_spec(a.edges, s.location, actions)[j],
            p,
        );
    lemma_step_respects_equiv(ingoing_spec(a.edges, s.location, actions)[j], p, q);
}

impl Automaton {
    /// The reachable states from which one enabled edge firing, restricted
    /// to the given actions, reaches the given state's location.  The
    /// result holds every such state exactly once, found by exhausting
    /// the reachable state space.  An error comes only when some
    /// reachable state has an enabled edge whose update fails to
    /// evaluate, or when the reachable space holds more distinct states
    /// than the machine-sized exploration budget; on every other input
    /// the exact predecessor set is owed.
    pub fn predecessors(&self, state: &State, actions: &Vec<Channel>) -> (r: Result<
        Vec<State>,
        Error,
    >)
        ensures
            match r {
                Ok(states) => {
                    &&& (forall|i: int|
                        0 <= i < states.deep_view().len() ==> predecessor_of(
                            self@,
                            state@,
                            #[trigger] states.deep_view()[i],
                            actions.deep_view(),
                        ))
                    &&& (forall|p: StateModel|
                        predecessor_of(self@, state@, p, actions.deep_view()) ==> contains_state(
                            states.deep_view(),
                            p,
                        ))
                    &&& (forall|i: int, j: int|
                        0 <= i < j < states.deep_view().len() ==> !state_equiv(
                            #[trigger] states.deep_view()[i],
                            #[trigger] states.deep_view()[j],
                        ))
                },
                Err(e) => {
                    &&& e matches Error::RuntimeError { .. }
                    &&& ((exists|s: StateModel|
                        #[trigger] reachable(self@, actions.deep_view(), s) && successors_spec(
                            self@,
                            s,
                            actions.deep_view(),
                        ) is Err) || state_space_exceeds(
                        self@,
                        actions.deep_view(),
                        usize::MAX as nat,
                    ))
                },
            },
    {
        let preceding = self.precedeeing_locations(&state.location, actions);
        let ingoing = self.ingoing_edges(&state.location, actions);
        let mut result: Vec<State> = Vec::new();
        let mut search =
            crate::transition_system::transition_system_breadth_first_search::TransitionSystemBreadthFirstSearch::new(
            actions,
            self.clone(),
        );
        proof {
            assert(result.deep_view() =~= Seq::<StateModel>::empty());
        }
        let mut fuel: usize = usize::MAX;
        while fuel > 0
            invariant
                search.wf(),
                search.system() == self@,
                search.action_set() == actions.deep_view(),
                preceding.deep_view() == sources_of(
                    ingoing_spec(self@.edges, state@.location, actions.deep_view()),
                ),
                ingoing.deep_view() == ingoing_spec(
                    self@.edges,
                    state@.location,
                    actions.deep_view(),
                ),
                forall|i: int|
                    0 <= i < result.deep_view().len() ==> predecessor_of(
                        self@,
                        state@,
                        #[trigger] result.deep_view()[i],
                        actions.deep_view(),
                    ),
                forall|i: int, j: int|
                    0 <= i < j < result.deep_view().len() ==> !state_equiv(
                        #[trigger] result.deep_view()[i],
                        #[trigger] result.deep_view()[j],
                    ),
                forall|v: int|
                    0 <= v < search.visited().len() && predecessor_of(
                        self@,
                        state@,
                        #[trigger] search.visited()[v],
                        actions.deep_view(),
                    ) ==> contains_state(result.deep_view(), search.visited()[v]),
                forall|i: int|
                    0 <= i < result.deep_view().len() ==> contains_state(
                        search.visited(),
                        #[trigger] result.deep_view()[i],
                    ),
                search.visited().len() + fuel == usize::MAX,
            decreases fuel,
        {
            fuel = fuel - 1;
            let ghost pre_visited = search.visited();
            let ghost pre_pending = search.pending();
            let step = search.next();
            match step {
                Err(error) => {
                    proof {
                        assert(reachable(self@, actions.deep_view(), pre_pending[0])
                            && successors_spec(self@, pre_pending[0], actions.deep_view())
                            is Err);
                    }
                    return Err(error);
                },
                Ok(None) => {
                    proof {
                        assert forall|p: StateModel|
                            predecessor_of(self@, state@, p, actions.deep_view()) implies contains_state(
                            result.deep_view(),
                            p,
                        ) by {
                            crate::transition_system::transition_system_breadth_first_search::lemma_search_complete(
                                search,
                                p,
                            );
                            let v = choose|v: int|
                                0 <= v < search.visited().len() && state_equiv(
                                    #[trigger] search.visited()[v],
                                    p,
                                );
                            lemma_predecessor_respects_equiv(
                                self@,
                                state@,
                                p,
                                search.visited()[v],
                                actions.deep_view(),
                            );
                            let w = choose|w: int|
                                0 <= w < result.deep_view().len() && state_equiv(
                                    #[trigger] result.deep_view()[w],
                                    search.visited()[v],
                                );
                            assert(state_equiv(result.deep_view()[w], p));
                        }
                    }
                    return Ok(result);
                },
                Ok(Some(current)) => {
                    let ghost previous_result = result.deep_view();
                    let at_preceding = crate::automata::automaton::vec_contains_location(
                        &preceding,
                        &current.location,
                    );
                    let enables = current.enables_any(&ingoing);
                    proof {
                        assert(forall|j: int|
                            0 <= j < ingoing@.len() ==> ingoing.deep_view()[j] == (
                            #[trigger] ingoing@[j])@);
                        if enables {
                            let w = choose|w: int|
                                0 <= w < ingoing@.len() && edge_enabled(
                                    (#[trigger] ingoing@[w])@,
                                    current@,
                                );
                            assert(edge_enabled(
                                ingoing_spec(
                                    self@.edges,
                                    state@.location,
                                    actions.deep_view(),
                                )[w],
                                current@,
                            ));
                        } else {
                            assert forall|w: int|
                                0 <= w < ingoing_spec(
                                    self@.edges,
                                    state@.location,
                                    actions.deep_view(),
                                ).len() implies !edge_enabled(
                                #[trigger] ingoing_spec(
                                    self@.edges,
                                    state@.location,
                                    actions.deep_view(),
                                )[w],
                                current@,
                            ) by {
                                assert(ingoing_spec(
                                    self@.edges,
                                    state@.location,
                                    actions.deep_view(),
                                )[w] == ingoing@[w]@);
                            }
                        }
                    }
                    if at_preceding && enables {
                        proof {
                            assert(predecessor_of(self@, state@, current@, actions.deep_view()));
                        }
                        let ghost current_model = current@;
                        result.push(current);
                        proof {
                            assert(result.deep_view().drop_last() =~= previous_result);
                            assert(result.deep_view().last() == current_model);
                            let now = result.deep_view();
                            assert forall|i: int|
                                0 <= i < now.len() implies predecessor_of(
                                self@,
                                state@,
                                #[trigger] now[i],
                                actions.deep_view(),
                            ) by {
                                if i < now.len() - 1 {
                                    assert(now[i] == previous_result[i]);
                                }
                            }
                            assert forall|i: int, j: int|
                                0 <= i < j < now.len() implies !state_equiv(
                                #[trigger] now[i],
                                #[trigger] now[j],
                            ) by {
                                if j == now.len() - 1 {
                                    assert(now[i] == previous_result[i]);
                                    let v = choose|v: int|
                                        0 <= v < pre_visited.len() && state_equiv(
                                            #[trigger] pre_visited[v],
                                            previous_result[i],
                                        );
                                    if state_equiv(now[i], current_model) {
                                        assert(state_equiv(pre_visited[v], current_model));
                                        assert(contains_state(pre_visited, current_model));
                                    }
                                } else {
                                    assert(now[i] == previous_result[i]);
                                    assert(now[j] == previous_result[j]);
                                }
                            }
                        }
                    } else {
                        proof {
                            assert(!predecessor_of(self@, state@, current@, actions.deep_view()));
                        }
                    }
                    proof {
                        let now_visited = search.visited();
                        assert(now_visited == pre_visited.push(
                            now_visited[now_visited.len() - 1],
                        ));
                        assert forall|i: int|
                            0 <= i < result.deep_view().len() implies contains_state(
                            now_visited,
                            #[trigger] result.deep_view()[i],
                        ) by {
                            if i < previous_result.len() {
                                assert(result.deep_view()[i] == previous_result[i]);
                                let v = choose|v: int|
                                    0 <= v < pre_visited.len() && state_equiv(
                                        #[trigger] pre_visited[v],
                                        previous_result[i],
                                    );
                                assert(now_visited[v] == pre_visited[v]);
                            } else {
                                assert(state_equiv(
                                    now_visited[now_visited.len() - 1],
                                    result.deep_view()[i],
                                ));
                            }
                        }
                        assert forall|v: int|
                            0 <= v < now_visited.len() && predecessor_of(
                                self@,
                                state@,
                                #[trigger] now_visited[v],
                                actions.deep_view(),
                            ) implies contains_state(result.deep_view(), now_visited[v]) by {
                            if v < pre_visited.len() {
                                assert(now_visited[v] == pre_visited[v]);
                                let w = choose|w: int|
                                    0 <= w < previous_result.len() && state_equiv(
                                        #[trigger] previous_result[w],
                                        pre_visited[v],
                                    );
                                assert(result.deep_view()[w] == previous_result[w]);
                            } else {
                                assert(state_equiv(
                                    result.deep_view()[result.deep_view().len() - 1],
                                    now_visited[v],
                                ));
                            }
                        }
                    }
                },
            }
        }
        proof {
            crate::transition_system::transition_system_breadth_first_search::lemma_search_visits_each_once(
                search,
            );
            crate::transition_system::transition_system_breadth_first_search::lemma_search_sound(
                search,
            );
            assert(search.visited().len() == usize::MAX as nat);
            assert(state_space_exceeds(self@, actions.deep_view(), usize::MAX as nat)) by {
                assert(forall|i: int|
                    0 <= i < search.visited().len() ==> reachable(
                        self@,
                        actions.deep_view(),
                        #[trigger] search.visited()[i],
                    ));
            }
        }
        Err(Error::new_runtime("state-space exploration budget exhausted"))
    }

    /// The predecessors restricted to the automaton's input actions:
    /// the same contract as [`Automaton::predecessors`] on the input
    /// alphabet.
    pub fn input_predecessors(&self, state: &State) -> (r: Result<Vec<State>, Error>)
        ensures
            match r {
                Ok(states) => {
                    &&& (forall|i: int|
                        0 <= i < states.deep_view().len() ==> predecessor_of(
                            self@,
                            state@,
                            #[trigger] states.deep_view()[i],
                            self@.inputs,
                        ))
                    &&& (forall|p: StateModel|
                        predecessor_of(self@, state@, p, self@.inputs) ==> contains_state(
                            states.deep_view(),
                            p,
                        ))
                    &&& (forall|i: int, j: int|
                        0 <= i < j < states.deep_view().len() ==> !state_equiv(
                            #[trigger] states.deep_view()[i],
                            #[trigger] states.deep_view()[j],
                        ))
                },
                Err(e) => {
                    &&& e matches Error::RuntimeError { .. }
                    &&& ((exists|s: StateModel|
                        #[trigger] reachable(self@, self@.inputs, s) && successors_spec(
                            self@,
                            s,
                            self@.inputs,
                        ) is Err) || state_space_exceeds(self@, self@.inputs, usize::MAX as nat))
                },
            },
    {
        let inputs = crate::automata::automaton::clone_channels(self.get_inputs());
        self.predecessors(state, &inputs)
    }

    /// The predecessors restricted to the automaton's output actions:
    /// the same contract as [`Automaton::predecessors`] on the output
    /// alphabet.
    pub fn output_predecessors(&self, state: &State) -> (r: Result<Vec<State>, Error>)
        ensures
            match r {
                Ok(states) => {
                    &&& (forall|i: int|
                        0 <= i < states.deep_view().len() ==> predecessor_of(
                            self@,
                            state@,
                            #[trigger] states.deep_view()[i],
                            self@.outputs,
                        ))
                    &&& (forall|p: StateModel|
                        predecessor_of(self@, state@, p, self@.outputs) ==> contains_state(
                            states.deep_view(),
                            p,
                        ))
                    &&& (forall|i: int, j: int|
                        0 <= i < j < states.deep_view().len() ==> !state_equiv(
                            #[trigger] states.deep_view()[i],
                            #[trigger] states.deep_view()[j],
                        ))
                },
                Err(e) => {
                    &&& e matches Error::RuntimeError { .. }
                    &&& ((exists|s: StateModel|
                        #[trigger] reachable(self@, self@.outputs, s) && successors_spec(
                            self@,
                            s,
                            self@.outputs,
                        ) is Err) || state_space_exceeds(self@, self@.outputs, usize::MAX as nat))
                },
            },
    {
        let outputs = crate::automata::automaton::clone_channels(self.get_outputs());
        self.predecessors(state, &outputs)
    }
}

/// The transition-system interface: a type with an initial state that
/// can be stepped forward and backward under an action restriction.  The
/// contracts live on [`Automaton`]'s own methods, which implement this
/// interface.
pub trait TransitionSystem {
    fn get_initial_state(&self) -> State;

    fn successors(&self, state: &State, actions: &Vec<Channel>) -> Result<Vec<State>, Error>;

    fn predecessors(&self, state: &State, actions: &Vec<Channel>) -> Result<Vec<State>, Error>;

    fn input_predecessors(&self, state: &State) -> Result<Vec<State>, Error>;

    fn output_predecessors(&self, state: &State) -> Result<Vec<State>, Error>;
}

impl TransitionSystem for Automaton {
    fn get_initial_state(&self) -> State {
        Automaton::get_initial_state(self)
    }

    fn successors(&self, state: &State, actions: &Vec<Channel>) -> Result<Vec<State>, Error> {
        Automaton::successors(self, state, actions)
    }

    fn predecessors(&self, state: &State, actions: &Vec<Channel>) -> Result<Vec<State>, Error> {
        Automaton::predecessors(self, state, actions)
    }

    fn input_predecessors(&self, state: &State) -> Result<Vec<State>, Error> {
        Automaton::input_predecessors(self, state)
    }

    fn output_predecessors(&self, state: &State) -> Result<Vec<State>, Error> {
        Automaton::output_predecessors(self, state)
    }
}

proof fn lemma_step_states_prefix_error(edges: Seq<EdgeModel>, i: int, s: StateModel)
    requires
        0 <= i <= edges.len(),
        step_states(edges.take(i), s) is Err,
    ensures
        step_states(edges, s) is Err,
    decreases edges.len() - i,
{
    if i == edges.len() {
        assert(edges.take(i) =~= edges);
    } else {
        assert(edges.take(i + 1).drop_last() =~= edges.take(i));
        lemma_step_states_prefix_error(edges, i + 1, s);
    }
}

} // verus!
