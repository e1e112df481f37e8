//! A restartable, lazy enumerator of an automaton's reachable state
//! space, restricted to an action subset.
//!
//! Discovery is breadth first: states are kept in a single queue; the
//! states before the cursor have been yielded and expanded, the states
//! after it are the frontier, consumed first in, first out, with new
//! discoveries joining its back.  Membership uses state value equality,
//! not location equality alone.  Every yielded state is reachable, no
//! state is yielded twice, no more states are yielded than any finite
//! cover of the reachable space holds, and once the frontier is
//! exhausted every reachable state has been yielded; whether the
//! frontier empties in finitely many steps depends on the reachable
//! space being finite, which is the caller's responsibility to bound.

use vstd::prelude::*;

use crate::automata::automaton::{contains_channel_name, outgoing_spec, Automaton, AutomatonModel};
use crate::automata::channel::{Channel, ChannelModel};
use crate::automata::edge::{edge_enabled, edge_execute, EdgeModel};
use crate::automata::location::location_key;
use crate::language::error::Error;
use crate::transition_system::state::{state_equiv, State, StateModel};
use crate::transition_system::transition_system::{
    contains_state, initial_state_of, lemma_distinct_states_bounded, reachable, reachable_in,
    step_states, step_to, successors_spec,
};

verus! {

/// Whether every restricted edge enabled at `from` has a successfully
/// computed successor among `states`.
pub open spec fn expanded_into(
    a: AutomatonModel,
    actions: Seq<ChannelModel>,
    from: StateModel,
    states: Seq<StateModel>,
) -> bool {
    forall|j: int|
        0 <= j < a.edges.len() && contains_channel_name(actions, (#[trigger] a.edges[j]).action.name)
            && edge_enabled(a.edges[j], from) ==> (edge_execute(a.edges[j], from) matches Some(next)
            && contains_state(states, next))
}

proof fn lemma_outgoing_covers(
    edges: Seq<EdgeModel>,
    l: crate::automata::location::LocationModel,
    actions: Seq<ChannelModel>,
    j: int,
)
    requires
        0 <= j < edges.len(),
        location_key(edges[j].source) == location_key(l),
        contains_channel_name(actions, edges[j].action.name),
    ensures
        outgoing_spec(edges, l, actions).contains(edges[j]),
    decreases edges.len(),
{
    if j < edges.len() - 1 {
        lemma_outgoing_covers(edges.drop_last(), l, actions, j);
        let w = choose|w: int|
            0 <= w < outgoing_spec(edges.drop_last(), l, actions).len() && outgoing_spec(
                edges.drop_last(),
                l,
                actions,
            )[w] == edges.drop_last()[j];
        assert(outgoing_spec(edges, l, actions)[w] == edges[j]);
    } else {
        assert(outgoing_spec(edges, l, actions).last() == edges[j]);
    }
}

proof fn lemma_outgoing_elements(
    edges: Seq<EdgeModel>,
    l: crate::automata::location::LocationModel,
    actions: Seq<ChannelModel>,
    k: int,
)
    requires
        0 <= k < outgoing_spec(edges, l, actions).len(),
    ensures
        exists|j: int| 0 <= j < edges.len() && #[trigger] edges[j] == outgoing_spec(
            edges,
            l,
            actions,
        )[k],
    decreases edges.len(),
{
    if edges.len() > 0 {
        let prefix = outgoing_spec(edges.drop_last(), l, actions);
        if k < prefix.len() {
            lemma_outgoing_elements(edges.drop_last(), l, actions, k);
            let j = choose|j: int|
                0 <= j < edges.drop_last().len() && #[trigger] edges.drop_last()[j] == prefix[k];
            assert(edges[j] == outgoing_spec(edges, l, actions)[k]);
        } else {
            assert(edges[edges.len() - 1] == outgoing_spec(edges, l, actions)[k]);
        }
    }
}

proof fn lemma_step_states_covers(list: Seq<EdgeModel>, s: StateModel, k: int)
    requires
        step_states(list, s) is Ok,
        0 <= k < list.len(),
        edge_enabled(list[k], s),
    ensures
        edge_execute(list[k], s) is Some,
        step_states(list, s)->Ok_0.contains(edge_execute(list[k], s)->0),
    decreases list.len(),
{
    if k < list.len() - 1 {
        lemma_step_states_covers(list.drop_last(), s, k);
        let prefix = step_states(list.drop_last(), s)->Ok_0;
        let w = choose|w: int|
            0 <= w < prefix.len() && prefix[w] == edge_execute(list.drop_last()[k], s)->0;
        assert(step_states(list, s)->Ok_0[w] == edge_execute(list[k], s)->0);
    } else {
        assert(step_states(list, s)->Ok_0.last() == edge_execute(list[k], s)->0);
    }
}

proof fn lemma_step_states_elements(list: Seq<EdgeModel>, s: StateModel, k: int)
    requires
        step_states(list, s) is Ok,
        0 <= k < step_states(list, s)->Ok_0.len(),
    ensures
        exists|j: int|
            0 <= j < list.len() && edge_enabled(#[trigger] list[j], s) && edge_execute(list[j], s)
                == Some(step_states(list, s)->Ok_0[k]),
    decreases list.len(),
{
    if list.len() > 0 {
        let prefix = step_states(list.drop_last(), s)->Ok_0;
        if k < prefix.len() {
            lemma_step_states_elements(list.drop_last(), s, k);
            let j = choose|j: int|
                0 <= j < list.drop_last().len() && edge_enabled(#[trigger] list.drop_last()[j], s)
                    && edge_execute(list.drop_last()[j], s) == Some(prefix[k]);
            assert(edge_enabled(list[j], s) && edge_execute(list[j], s) == Some(
                step_states(list, s)->Ok_0[k],
            ));
        } else {
            assert(edge_enabled(list[list.len() - 1], s) && edge_execute(list[list.len() - 1], s)
                == Some(step_states(list, s)->Ok_0[k]));
        }
    }
}

/// Whether some state of the list is the same point of behavior.
fn vec_contains_state(states: &Vec<State>, state: &State) -> (r: bool)
    ensures
        r == contains_state(states.deep_view(), state@),
{
    proof {
        assert(forall|j: int|
            0 <= j < states@.len() ==> states.deep_view()[j] == (#[trigger] states@[j])@);
    }
    let mut i: usize = 0;
    while i < states.len()
        invariant
            i <= states@.len(),
            forall|j: int| 0 <= j < i ==> !state_equiv((#[trigger] states@[j])@, state@),
        decreases states@.len() - i,
    {
        if states[i] == *state {
            proof {
                assert(state_equiv(states.deep_view()[i as int], state@));
            }
            return true;
        }
        i = i + 1;
    }
    false
}

/// The breadth-first state-space search.  States are discovered in
/// non-decreasing distance from the initial state and each is yielded
/// exactly once.
#[derive(Debug)]
pub struct TransitionSystemBreadthFirstSearch {
    automaton: Automaton,
    actions: Vec<Channel>,
    queue: Vec<State>,
    cursor: usize,
}

impl TransitionSystemBreadthFirstSearch {
    /// The automaton being searched.
    pub closed spec fn system(self) -> AutomatonModel {
        self.automaton@
    }

    /// The action subset the search is restricted to.
    pub closed spec fn action_set(self) -> Seq<ChannelModel> {
        self.actions.deep_view()
    }

    /// The states yielded so far, in discovery order.
    pub closed spec fn visited(self) -> Seq<StateModel> {
        self.queue.deep_view().take(self.cursor as int)
    }

    /// The discovered states not yet yielded, in discovery order.
    pub closed spec fn pending(self) -> Seq<StateModel> {
        self.queue.deep_view().skip(self.cursor as int)
    }

    /// The search's well-formedness: the queue starts at the initial
    /// state, holds no two equal states, holds only reachable states, and
    /// every yielded state's enabled successors are in the queue.
    pub closed spec fn wf(self) -> bool {
        let discovered = self.queue.deep_view();
        &&& self.cursor <= self.queue@.len()
        &&& discovered.len() >= 1
        &&& state_equiv(discovered[0], initial_state_of(self.automaton@))
        &&& (forall|i: int, j: int|
            0 <= i < j < discovered.len() ==> !state_equiv(
                #[trigger] discovered[i],
                #[trigger] discovered[j],
            ))
        &&& (forall|i: int|
            0 <= i < discovered.len() ==> reachable(
                self.automaton@,
                self.actions.deep_view(),
                #[trigger] discovered[i],
            ))
        &&& (forall|i: int|
            0 <= i < self.cursor ==> expanded_into(
                self.automaton@,
                self.actions.deep_view(),
                #[trigger] discovered[i],
                discovered,
            ))
    }

    /// A search over the automaton restricted to the given actions,
    /// positioned before the initial state.
    pub fn new(actions: &Vec<Channel>, transition_system: Automaton) -> (r: Self)
        ensures
            r.wf(),
            r.system() == transition_system@,
            r.action_set() == actions.deep_view(),
            r.visited() == Seq::<StateModel>::empty(),
            r.pending() == seq![initial_state_of(transition_system@)],
    {
        let initial = transition_system.get_initial_state();
        let mut queue: Vec<State> = Vec::new();
        queue.push(initial);
        let mut restricted: Vec<Channel> = Vec::new();
        let mut i: usize = 0;
        while i < actions.len()
            invariant
                i <= actions@.len(),
                restricted@.len() == i,
                forall|j: int| 0 <= j < i ==> (#[trigger] restricted@[j])@ == actions@[j]@,
            decreases actions@.len() - i,
        {
            restricted.push(actions[i].clone());
            i = i + 1;
        }
        let r = TransitionSystemBreadthFirstSearch {
            automaton: transition_system,
            actions: restricted,
            queue,
            cursor: 0,
        };
        proof {
            assert(r.actions.deep_view() =~= actions.deep_view());
            assert(r.queue.deep_view() =~= seq![initial_state_of(r.automaton@)]);
            assert(reachable_in(r.automaton@, r.actions.deep_view(), r.queue.deep_view()[0], 0));
            assert(r.visited() =~= Seq::<StateModel>::empty());
            assert(r.pending() =~= seq![initial_state_of(r.automaton@)]);
        }
        r
    }

    /// Yields the next discovered state, after adding its not yet
    /// discovered successors to the frontier; `Ok(None)` once the
    /// frontier is exhausted.  The frontier is consumed first in, first
    /// out, and new discoveries join its back, so states are yielded in
    /// breadth-first discovery order.  An error comes exactly when the
    /// frontier's first state has an enabled edge whose update fails to
    /// evaluate; the search is then left unchanged, so it never silently
    /// terminates while frontier states remain.
    pub fn next(&mut self) -> (r: Result<Option<State>, Error>)
        requires
            old(self).wf(),
        ensures
            final(self).wf(),
            final(self).system() == old(self).system(),
            final(self).action_set() == old(self).action_set(),
            match r {
                Ok(yielded) => match yielded {
                    Some(state) => {
                        &&& old(self).pending().len() > 0
                        &&& state@ == old(self).pending()[0]
                        &&& final(self).visited() == old(self).visited().push(state@)
                        &&& reachable(old(self).system(), old(self).action_set(), state@)
                        &&& !contains_state(old(self).visited(), state@)
                        &&& successors_spec(old(self).system(), state@, old(self).action_set())
                            is Ok
                        &&& final(self).pending().len() + 1 >= old(self).pending().len()
                        &&& (forall|i: int|
                            0 <= i < old(self).pending().len() - 1
                                ==> #[trigger] final(self).pending()[i] == old(self).pending()[i
                                + 1])
                        &&& (forall|i: int|
                            old(self).pending().len() - 1 <= i < final(self).pending().len()
                                ==> successors_spec(
                                old(self).system(),
                                state@,
                                old(self).action_set(),
                            )->Ok_0.contains(#[trigger] final(self).pending()[i]))
                    },
                    None => old(self).pending().len() == 0 && *final(self) == *old(self),
                },
                Err(e) => {
                    &&& *final(self) == *old(self)
                    &&& e matches Error::RuntimeError { .. }
                    &&& old(self).pending().len() > 0
                    &&& reachable(
                        old(self).system(),
                        old(self).action_set(),
                        old(self).pending()[0],
                    )
                    &&& successors_spec(
                        old(self).system(),
                        old(self).pending()[0],
                        old(self).action_set(),
                    ) is Err
                },
            },
    {
        if self.cursor >= self.queue.len() {
            return Ok(None);
        }
        let state = self.queue[self.cursor].clone();
        proof {
            assert(state@ == self.queue.deep_view()[self.cursor as int]);
            assert(old(self).pending()[0] == self.queue.deep_view()[self.cursor as int]);
        }
        let successors = match self.automaton.successors(&state, &self.actions) {
            Ok(v) => v,
            Err(error) => {
                return Err(error);
            },
        };
        let ghost old_queue = self.queue.deep_view();
        let ghost succ_models = successors.deep_view();
        let ghost a = self.automaton@;
        let ghost acts = self.actions.deep_view();
        proof {
            assert(forall|j: int|
                0 <= j < successors@.len() ==> succ_models[j] == (#[trigger] successors@[j])@);
        }
        let mut k: usize = 0;
        while k < successors.len()
            invariant
                k <= successors@.len(),
                succ_models == successors.deep_view(),
                forall|j: int|
                    0 <= j < successors@.len() ==> succ_models[j] == (
                    #[trigger] successors@[j])@,
                self.automaton@ == a,
                self.actions.deep_view() == acts,
                self.cursor == old(self).cursor,
                self.queue.deep_view().len() >= old_queue.len(),
                self.queue.deep_view().take(old_queue.len() as int) == old_queue,
                forall|j: int|
                    0 <= j < k ==> contains_state(self.queue.deep_view(), #[trigger] succ_models[j]),
                forall|i: int, j: int|
                    0 <= i < j < self.queue.deep_view().len() ==> !state_equiv(
                        #[trigger] self.queue.deep_view()[i],
                        #[trigger] self.queue.deep_view()[j],
                    ),
                forall|i: int|
                    old_queue.len() <= i < self.queue.deep_view().len() ==> succ_models.contains(
                        #[trigger] self.queue.deep_view()[i],
                    ),
            decreases successors@.len() - k,
        {
            let ghost pre = self.queue.deep_view();
            let already = vec_contains_state(&self.queue, &successors[k]);
            if !already {
                self.queue.push(successors[k].clone());
            }
            k = k + 1;
            proof {
                let now = self.queue.deep_view();
                let added = succ_models[k as int - 1];
                if !already {
                    assert(now.drop_last() =~= pre);
                    assert(now.last() == added);
                    assert(now.take(old_queue.len() as int) =~= pre.take(old_queue.len() as int));
                    assert forall|i: int, j: int|
                        0 <= i < j < now.len() implies !state_equiv(
                        #[trigger] now[i],
                        #[trigger] now[j],
                    ) by {
                        if j == now.len() - 1 {
                            assert(now[i] == pre[i]);
                            assert(!state_equiv(pre[i], added));
                        } else {
                            assert(now[i] == pre[i]);
                            assert(now[j] == pre[j]);
                        }
                    }
                }
                assert forall|j: int| 0 <= j < k implies contains_state(
                    now,
                    #[trigger] succ_models[j],
                ) by {
                    if j == k - 1 {
                        if already {
                            assert(contains_state(pre, added));
                        } else {
                            assert(state_equiv(now[now.len() - 1], added));
                        }
                    } else {
                        let w = choose|w: int|
                            0 <= w < pre.len() && state_equiv(#[trigger] pre[w], succ_models[j]);
                        assert(now[w] == pre[w]);
                    }
                }
                assert forall|i: int|
                    old_queue.len() <= i < now.len() implies succ_models.contains(
                    #[trigger] now[i],
                ) by {
                    if i < pre.len() {
                        assert(now[i] == pre[i]);
                    } else {
                        assert(now[i] == added);
                    }
                }
            }
        }
        let yielded_index = self.cursor;
        self.cursor = self.cursor + 1;
        proof {
            let new_queue = self.queue.deep_view();
            let cursor = yielded_index as int;
            assert(state@ == old_queue[cursor]);
            assert(new_queue[cursor] == old_queue[cursor]);
            // The newly expanded state's successors are all discovered.
            assert forall|j: int|
                0 <= j < a.edges.len() && contains_channel_name(
                    acts,
                    (#[trigger] a.edges[j]).action.name,
                ) && edge_enabled(a.edges[j], new_queue[cursor]) implies (edge_execute(
                a.edges[j],
                new_queue[cursor],
            ) matches Some(next) && contains_state(new_queue, next)) by {
                let outgoing = outgoing_spec(a.edges, state@.location, acts);
                lemma_outgoing_covers(a.edges, state@.location, acts, j);
                let w = choose|w: int|
                    0 <= w < outgoing.len() && #[trigger] outgoing[w] == a.edges[j];
                lemma_step_states_covers(outgoing, state@, w);
                let q = edge_execute(a.edges[j], state@)->0;
                let v = choose|v: int| 0 <= v < succ_models.len() && #[trigger] succ_models[v] == q;
                assert(contains_state(new_queue, succ_models[v]));
            }
            // Previously expanded states keep their successors discovered.
            assert forall|i: int|
                0 <= i < cursor implies expanded_into(a, acts, #[trigger] new_queue[i], new_queue) by {
                assert(new_queue[i] == old_queue[i]);
                assert(expanded_into(a, acts, old_queue[i], old_queue));
                assert forall|j: int|
                    0 <= j < a.edges.len() && contains_channel_name(
                        acts,
                        (#[trigger] a.edges[j]).action.name,
                    ) && edge_enabled(a.edges[j], new_queue[i]) implies (edge_execute(
                    a.edges[j],
                    new_queue[i],
                ) matches Some(next) && contains_state(new_queue, next)) by {
                    let next = edge_execute(a.edges[j], old_queue[i])->0;
                    let w = choose|w: int|
                        0 <= w < old_queue.len() && state_equiv(#[trigger] old_queue[w], next);
                    assert(new_queue[w] == old_queue[w]);
                    assert(contains_state(new_queue, next));
                }
            }
            // The discovered states stay reachable: each pushed successor
            // is one step from the yielded state.
            assert forall|i: int|
                0 <= i < new_queue.len() implies reachable(a, acts, #[trigger] new_queue[i]) by {
                if i < old_queue.len() {
                    assert(new_queue[i] == old_queue[i]);
                } else {
                    let q = new_queue[i];
                    let v = choose|v: int| 0 <= v < succ_models.len() && #[trigger] succ_models[v]
                        == q;
                    let outgoing = outgoing_spec(a.edges, state@.location, acts);
                    lemma_step_states_elements(outgoing, state@, v);
                    let w = choose|w: int|
                        0 <= w < outgoing.len() && edge_enabled(#[trigger] outgoing[w], state@)
                            && edge_execute(outgoing[w], state@) == Some(q);
                    lemma_outgoing_elements(a.edges, state@.location, acts, w);
                    let j = choose|j: int| 0 <= j < a.edges.len() && #[trigger] a.edges[j]
                        == outgoing[w];
                    lemma_outgoing_in_actions(a.edges, state@.location, acts, w);
                    assert(step_to(a.edges[j], state@, q, acts));
                    let n = choose|n: nat| reachable_in(a, acts, old_queue[cursor], n);
                    assert(reachable_in(a, acts, q, n + 1));
                }
            }
            assert(final(self).visited() =~= old(self).visited().push(state@));
            assert(successors_spec(a, state@, acts) is Ok);
            assert(succ_models == successors_spec(a, state@, acts)->Ok_0);
            let old_pending = old(self).pending();
            let new_pending = final(self).pending();
            assert forall|i: int| 0 <= i < old_pending.len() - 1 implies #[trigger] new_pending[i]
                == old_pending[i + 1] by {
                assert(new_pending[i] == new_queue[cursor + 1 + i]);
                assert(new_queue[cursor + 1 + i] == old_queue[cursor + 1 + i]);
                assert(old_pending[i + 1] == old_queue[cursor + 1 + i]);
            }
            assert forall|i: int|
                old_pending.len() - 1 <= i < new_pending.len() implies succ_models.contains(
                #[trigger] new_pending[i],
            ) by {
                assert(new_pending[i] == new_queue[cursor + 1 + i]);
            }
            assert(forall|i: int|
                0 <= i < cursor ==> !state_equiv(#[trigger] old_queue[i], old_queue[cursor]));
            assert(!contains_state(old(self).visited(), state@));
            assert(old(self).pending().len() > 0);
            assert(old(self).pending()[0] == state@);
        }
        Ok(Some(state))
    }
}

proof fn lemma_outgoing_in_actions(
    edges: Seq<EdgeModel>,
    l: crate::automata::location::LocationModel,
    actions: Seq<ChannelModel>,
    k: int,
)
    requires
        0 <= k < outgoing_spec(edges, l, actions).len(),
    ensures
        contains_channel_name(actions, outgoing_spec(edges, l, actions)[k].action.name),
    decreases edges.len(),
{
    if edges.len() > 0 {
        let prefix = outgoing_spec(edges.drop_last(), l, actions);
        if k < prefix.len() {
            lemma_outgoing_in_actions(edges.drop_last(), l, actions, k);
        }
    }
}

/// LAW: the search yields no state twice — the yielded states are
/// pairwise distinct points of behavior.
pub proof fn lemma_search_visits_each_once(search: TransitionSystemBreadthFirstSearch)
    requires
        search.wf(),
    ensures
        forall|i: int, j: int|
            0 <= i < j < search.visited().len() ==> !state_equiv(
                #[trigger] search.visited()[i],
                #[trigger] search.visited()[j],
            ),
{
}

/// LAW: the search yields only reachable states.
pub proof fn lemma_search_sound(search: TransitionSystemBreadthFirstSearch)
    requires
        search.wf(),
    ensures
        forall|i: int|
            0 <= i < search.visited().len() ==> reachable(
                search.system(),
                search.action_set(),
                #[trigger] search.visited()[i],
            ),
{
}

proof fn lemma_closed_covers_reachable(
    a: AutomatonModel,
    actions: Seq<ChannelModel>,
    states: Seq<StateModel>,
    s: StateModel,
    n: nat,
)
    requires
        states.len() >= 1,
        state_equiv(states[0], initial_state_of(a)),
        forall|i: int|
            0 <= i < states.len() ==> expanded_into(a, actions, #[trigger] states[i], states),
        reachable_in(a, actions, s, n),
    ensures
        contains_state(states, s),
    decreases n,
{
    if state_equiv(s, initial_state_of(a)) {
        assert(state_equiv(states[0], s));
    } else {
        let (p, j) = choose|p: StateModel, j: int|
            #![auto]
            reachable_in(a, actions, p, (n - 1) as nat) && 0 <= j < a.edges.len() && step_to(
                a.edges[j],
                p,
                s,
                actions,
            );
        lemma_closed_covers_reachable(a, actions, states, p, (n - 1) as nat);
        let w = choose|w: int| 0 <= w < states.len() && state_equiv(#[trigger] states[w], p);
        crate::transition_system::transition_system::lemma_step_respects_equiv(
            a.edges[j],
            p,
            states[w],
        );
        assert(edge_enabled(a.edges[j], states[w]));
        assert(edge_execute(a.edges[j], states[w]) matches Some(next) && contains_state(
            states,
            next,
        ));
        let next = edge_execute(a.edges[j], states[w])->0;
        let v = choose|v: int| 0 <= v < states.len() && state_equiv(#[trigger] states[v], next);
        assert(state_equiv(states[v], s));
    }
}

/// LAW: the search never yields more states than any finite cover of the
/// reachable space holds — with the once-only, soundness and
/// completeness laws, over an automaton whose reachable space is covered
/// by `universe` the enumeration is finite and its yields are exactly the
/// reachable states, at most `universe.len()` of them.
pub proof fn lemma_search_bounded(
    search: TransitionSystemBreadthFirstSearch,
    universe: Seq<StateModel>,
)
    requires
        search.wf(),
        forall|s: StateModel|
            #[trigger] reachable(search.system(), search.action_set(), s) ==> contains_state(
                universe,
                s,
            ),
    ensures
        search.visited().len() <= universe.len(),
{
    lemma_search_visits_each_once(search);
    lemma_search_sound(search);
    assert forall|i: int| 0 <= i < search.visited().len() implies contains_state(
        universe,
        #[trigger] search.visited()[i],
    ) by {
        assert(reachable(search.system(), search.action_set(), search.visited()[i]));
    }
    lemma_distinct_states_bounded(search.visited(), universe);
}

/// LAW: once the frontier is exhausted the search has yielded every
/// reachable state — it never terminates while reachable states remain
/// undiscovered.
pub proof fn lemma_search_complete(search: TransitionSystemBreadthFirstSearch, s: StateModel)
    requires
        search.wf(),
        search.pending().len() == 0,
        reachable(search.system(), search.action_set(), s),
    ensures
        contains_state(search.visited(), s),
{
    let n = choose|n: nat| reachable_in(search.system(), search.action_set(), s, n);
    assert(search.visited() =~= search.queue.deep_view());
    lemma_closed_covers_reachable(
        search.system(),
        search.action_set(),
        search.queue.deep_view(),
        s,
        n,
    );
}

} // verus!
