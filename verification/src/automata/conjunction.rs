//! Conjunction: the composition of two or more automata under the
//! absorbing location algebra.
//!
//! The composed alphabet is the union of the operands' alphabets; no
//! channel name may be an input of one operand and an output of another.
//! The composed initial location is the conjunction of the operands'
//! initial locations, and the composed initial environment is the
//! disjoint union of their environments.

use vstd::prelude::*;

use crate::automata::automaton::{
    contains_channel_name, dedup_channels, violating_channels, Automaton, AutomatonModel,
};
use crate::automata::channel::{Channel, ChannelModel};
use crate::automata::error::{Error, ErrorModel};
use crate::automata::location::{conjunction_location, Location, LocationModel};
use crate::language::environment::Environment;
use crate::language::value::ValueModel;

verus! {

/// The input actions of the operands, concatenated in operand order.
pub open spec fn concat_inputs(automata: Seq<AutomatonModel>) -> Seq<ChannelModel>
    decreases automata.len(),
{
    if automata.len() == 0 {
        Seq::empty()
    } else {
        concat_inputs(automata.drop_last()) + automata.last().inputs
    }
}

/// The output actions of the operands, concatenated in operand order.
pub open spec fn concat_outputs(automata: Seq<AutomatonModel>) -> Seq<ChannelModel>
    decreases automata.len(),
{
    if automata.len() == 0 {
        Seq::empty()
    } else {
        concat_outputs(automata.drop_last()) + automata.last().outputs
    }
}

/// The operands' initial locations, in operand order.
pub open spec fn initials_of(automata: Seq<AutomatonModel>) -> Seq<LocationModel>
    decreases automata.len(),
{
    if automata.len() == 0 {
        Seq::empty()
    } else {
        initials_of(automata.drop_last()).push(automata.last().initial)
    }
}

/// The disjoint union of the operands' initial environments, operand by
/// operand; `Err` marks the first operand whose environment shares an
/// identifier with the union of the earlier ones.
pub open spec fn fold_environments(automata: Seq<AutomatonModel>) -> Result<
    Map<Seq<char>, ValueModel>,
    (),
>
    decreases automata.len(),
{
    if automata.len() == 0 {
        Ok(Map::empty())
    } else {
        match fold_environments(automata.drop_last()) {
            Err(e) => Err(e),
            Ok(combined) => if combined.dom().disjoint(automata.last().environment.dom()) {
                Ok(combined.union_prefer_right(automata.last().environment))
            } else {
                Err(())
            },
        }
    }
}

/// Mathematical model of a [`Conjunction`].
pub struct ConjunctionModel {
    pub name: Seq<char>,
    pub actions: Seq<ChannelModel>,
    pub inputs: Seq<ChannelModel>,
    pub outputs: Seq<ChannelModel>,
    pub initial: LocationModel,
    pub environment: Map<Seq<char>, ValueModel>,
}

/// A conjunction of automata: the composed alphabet, the composed
/// initial location, and the composed initial environment.
#[derive(Debug)]
pub struct Conjunction {
    pub name: String,
    actions: Vec<Channel>,
    inputs: Vec<Channel>,
    outputs: Vec<Channel>,
    initial: Location,
    initial_environment: Environment,
}

impl View for Conjunction {
    type V = ConjunctionModel;

    closed spec fn view(&self) -> ConjunctionModel {
        ConjunctionModel {
            name: self.name@,
            actions: self.actions.deep_view(),
            inputs: self.inputs.deep_view(),
            outputs: self.outputs.deep_view(),
            initial: self.initial@,
            environment: self.initial_environment@,
        }
    }
}

proof fn lemma_fold_environments_prefix_error(automata: Seq<AutomatonModel>, i: int)
    requires
        0 <= i <= automata.len(),
        fold_environments(automata.take(i)) is Err,
    ensures
        fold_environments(automata) is Err,
    decreases automata.len() - i,
{
    if i == automata.len() {
        assert(automata.take(i) =~= automata);
    } else {
        assert(automata.take(i + 1).drop_last() =~= automata.take(i));
        lemma_fold_environments_prefix_error(automata, i + 1);
    }
}

impl Conjunction {
    /// Composes at least two automata.  The combined inputs and outputs
    /// must share no channel name; the operands' environments must be
    /// pairwise disjoint; the composed initial location is the product of
    /// the operands' initial locations under the absorbing algebra.
    pub fn new(name: &str, automata: &Vec<Automaton>) -> (r: Result<Conjunction, Error>)
        requires
            automata@.len() >= 2,
        ensures
            ({
                let models = automata.deep_view();
                let inputs = dedup_channels(concat_inputs(models));
                let outputs = dedup_channels(concat_outputs(models));
                let violating = violating_channels(inputs, outputs);
                if violating.len() > 0 {
                    r matches Err(e) && e@ == (ErrorModel::PartitionError {
                        automaton: name@,
                        violating,
                    })
                } else {
                    match fold_environments(models) {
                        Err(_) => r matches Err(e) && (e@ matches
                            ErrorModel::EnvironmentsNotDisjoint { automaton, .. } && automaton
                            == name@),
                        Ok(environment) => r matches Ok(c) && c@ == (ConjunctionModel {
                            name: name@,
                            actions: dedup_channels(inputs + outputs),
                            inputs,
                            outputs,
                            initial: conjunction_location(initials_of(models)),
                            environment,
                        }),
                    }
                }
            }),
    {
        let ghost models = automata.deep_view();
        proof {
            assert(forall|j: int|
                0 <= j < automata@.len() ==> models[j] == (#[trigger] automata@[j])@);
        }
        // The combined input and output alphabets, each name once.
        let mut inputs: Vec<Channel> = Vec::new();
        let mut i: usize = 0;
        while i < automata.len()
            invariant
                i <= automata@.len(),
                models == automata.deep_view(),
                forall|j: int|
                    0 <= j < automata@.len() ==> models[j] == (#[trigger] automata@[j])@,
                inputs.deep_view() == dedup_channels(concat_inputs(models.take(i as int))),
            decreases automata@.len() - i,
        {
            let operand_inputs = automata[i].get_inputs();
            let ghost operand_models = operand_inputs.deep_view();
            let mut j: usize = 0;
            while j < operand_inputs.len()
                invariant
                    j <= operand_inputs@.len(),
                    operand_models == operand_inputs.deep_view(),
                    inputs.deep_view() == dedup_channels(
                        concat_inputs(models.take(i as int)) + operand_models.take(j as int),
                    ),
                decreases operand_inputs@.len() - j,
            {
                if !crate::automata::automaton::vec_contains_channel(
                    &inputs,
                    &operand_inputs[j],
                ) {
                    inputs.push(operand_inputs[j].clone());
                }
                j = j + 1;
                proof {
                    let base = concat_inputs(models.take(i as int));
                    assert((base + operand_models.take(j as int)).drop_last() =~= base
                        + operand_models.take(j as int - 1));
                    assert((base + operand_models.take(j as int)).last() == operand_models[j
                        - 1]);
                    assert(operand_models[j - 1] == operand_inputs@[j - 1]@);
                    assert(inputs.deep_view() =~= dedup_channels(
                        base + operand_models.take(j as int),
                    ));
                }
            }
            i = i + 1;
            proof {
                assert(models.take(i as int).drop_last() =~= models.take(i as int - 1));
                assert(operand_models.take(operand_models.len() as int) =~= operand_models);
                assert(concat_inputs(models.take(i as int)) =~= concat_inputs(
                    models.take(i as int - 1),
                ) + operand_models);
            }
        }
        proof {
            assert(models.take(models.len() as int) =~= models);
        }
        let mut outputs: Vec<Channel> = Vec::new();
        let mut i: usize = 0;
        while i < automata.len()
            invariant
                i <= automata@.len(),
                models == automata.deep_view(),
                forall|j: int|
                    0 <= j < automata@.len() ==> models[j] == (#[trigger] automata@[j])@,
                outputs.deep_view() == dedup_channels(concat_outputs(models.take(i as int))),
            decreases automata@.len() - i,
        {
            let operand_outputs = automata[i].get_outputs();
            let ghost operand_models = operand_outputs.deep_view();
            let mut j: usize = 0;
            while j < operand_outputs.len()
                invariant
                    j <= operand_outputs@.len(),
                    operand_models == operand_outputs.deep_view(),
                    outputs.deep_view() == dedup_channels(
                        concat_outputs(models.take(i as int)) + operand_models.take(j as int),
                    ),
                decreases operand_outputs@.len() - j,
            {
                if !crate::automata::automaton::vec_contains_channel(
                    &outputs,
                    &operand_outputs[j],
                ) {
                    outputs.push(operand_outputs[j].clone());
                }
                j = j + 1;
                proof {
                    let base = concat_outputs(models.take(i as int));
                    assert((base + operand_models.take(j as int)).drop_last() =~= base
                        + operand_models.take(j as int - 1));
                    assert((base + operand_models.take(j as int)).last() == operand_models[j
                        - 1]);
                    assert(operand_models[j - 1] == operand_outputs@[j - 1]@);
                    assert(outputs.deep_view() =~= dedup_channels(
                        base + operand_models.take(j as int),
                    ));
                }
            }
            i = i + 1;
            proof {
                assert(models.take(i as int).drop_last() =~= models.take(i as int - 1));
                assert(operand_models.take(operand_models.len() as int) =~= operand_models);
                assert(concat_outputs(models.take(i as int)) =~= concat_outputs(
                    models.take(i as int - 1),
                ) + operand_models);
            }
        }
        proof {
            assert(models.take(models.len() as int) =~= models);
        }
        // No channel name may serve as an input and as an output.
        let mut violating: Vec<Channel> = Vec::new();
        let mut i: usize = 0;
        while i < inputs.len()
            invariant
                i <= inputs@.len(),
                forall|j: int|
                    0 <= j < inputs@.len() ==> inputs.deep_view()[j] == (#[trigger] inputs@[j])@,
                violating.deep_view() == violating_channels(
                    inputs.deep_view().take(i as int),
                    outputs.deep_view(),
                ),
            decreases inputs@.len() - i,
        {
            if crate::automata::automaton::vec_contains_channel(&outputs, &inputs[i]) {
                violating.push(inputs[i].clone());
            }
            i = i + 1;
            proof {
                assert(inputs.deep_view().take(i as int).drop_last() =~= inputs.deep_view().take(
                    i as int - 1,
                ));
                assert(inputs.deep_view().take(i as int).last() == inputs@[i - 1]@);
                assert(violating.deep_view() =~= violating_channels(
                    inputs.deep_view().take(i as int),
                    outputs.deep_view(),
                ));
            }
        }
        proof {
            assert(inputs.deep_view().take(inputs@.len() as int) =~= inputs.deep_view());
        }
        if violating.len() > 0 {
            return Err(Error::PartitionError { automaton: name.to_owned(), violating });
        }
        // The combined action alphabet.
        let mut actions: Vec<Channel> = Vec::new();
        let mut i: usize = 0;
        proof {
            assert(actions.deep_view() =~= dedup_channels(inputs.deep_view().take(0)));
        }
        while i < inputs.len()
            invariant
                i <= inputs@.len(),
                forall|j: int|
                    0 <= j < inputs@.len() ==> inputs.deep_view()[j] == (#[trigger] inputs@[j])@,
                actions.deep_view() == dedup_channels(inputs.deep_view().take(i as int)),
            decreases inputs@.len() - i,
        {
            if !crate::automata::automaton::vec_contains_channel(&actions, &inputs[i]) {
                actions.push(inputs[i].clone());
            }
            i = i + 1;
            proof {
                assert(inputs.deep_view().take(i as int).drop_last() =~= inputs.deep_view().take(
                    i as int - 1,
                ));
                assert(inputs.deep_view().take(i as int).last() == inputs@[i - 1]@);
                assert(actions.deep_view() =~= dedup_channels(
                    inputs.deep_view().take(i as int),
                ));
            }
        }
        proof {
            assert(inputs.deep_view().take(inputs@.len() as int) =~= inputs.deep_view());
        }
        let mut i: usize = 0;
        while i < outputs.len()
            invariant
                i <= outputs@.len(),
                forall|j: int|
                    0 <= j < outputs@.len() ==> outputs.deep_view()[j] == (
                    #[trigger] outputs@[j])@,
                actions.deep_view() == dedup_channels(
                    inputs.deep_view() + outputs.deep_view().take(i as int),
                ),
            decreases outputs@.len() - i,
        {
            if !crate::automata::automaton::vec_contains_channel(&actions, &outputs[i]) {
                actions.push(outputs[i].clone());
            }
            i = i + 1;
            proof {
                let base = inputs.deep_view();
                assert((base + outputs.deep_view().take(i as int)).drop_last() =~= base
                    + outputs.deep_view().take(i as int - 1));
                assert((base + outputs.deep_view().take(i as int)).last() == outputs@[i - 1]@);
                assert(actions.deep_view() =~= dedup_channels(
                    base + outputs.deep_view().take(i as int),
                ));
            }
        }
        proof {
            assert(inputs.deep_view() + outputs.deep_view().take(outputs@.len() as int)
                =~= inputs.deep_view() + outputs.deep_view());
        }
        // The composed initial location under the absorbing algebra.
        let mut initials: Vec<Location> = Vec::new();
        let mut i: usize = 0;
        while i < automata.len()
            invariant
                i <= automata@.len(),
                models == automata.deep_view(),
                forall|j: int|
                    0 <= j < automata@.len() ==> models[j] == (#[trigger] automata@[j])@,
                initials.deep_view() == initials_of(models.take(i as int)),
            decreases automata@.len() - i,
        {
            initials.push(automata[i].get_initial_location());
            i = i + 1;
            proof {
                assert(models.take(i as int).drop_last() =~= models.take(i as int - 1));
                assert(initials.deep_view() =~= initials_of(models.take(i as int)));
            }
        }
        proof {
            assert(models.take(models.len() as int) =~= models);
        }
        let initial = Location::new_conjunction(&initials);
        // The composed initial environment: a disjoint union.
        let mut environment = Environment::new_empty();
        let mut i: usize = 0;
        proof {
            assert(fold_environments(models.take(0)) == Ok::<Map<Seq<char>, ValueModel>, ()>(
                Map::empty(),
            ));
        }
        while i < automata.len()
            invariant
                i <= automata@.len(),
                models == automata.deep_view(),
                forall|j: int|
                    0 <= j < automata@.len() ==> models[j] == (#[trigger] automata@[j])@,
                fold_environments(models.take(i as int)) == Ok::<Map<Seq<char>, ValueModel>, ()>(
                    environment@,
                ),
                violating_channels(
                    dedup_channels(concat_inputs(models)),
                    dedup_channels(concat_outputs(models)),
                ).len() == 0,
            decreases automata@.len() - i,
        {
            let operand_environment = automata[i].get_initial_environment();
            let joined = environment.concat(&operand_environment);
            proof {
                assert(models.take(i as int + 1).drop_last() =~= models.take(i as int));
                assert(models.take(i as int + 1).last() == models[i as int]);
            }
            if !joined {
                let identifiers = environment.common_identifiers(&operand_environment);
                proof {
                    lemma_fold_environments_prefix_error(models, i as int + 1);
                }
                return Err(
                    Error::EnvironmentsNotDisjoint {
                        automaton: name.to_owned(),
                        identifiers,
                    },
                );
            }
            i = i + 1;
        }
        proof {
            assert(models.take(models.len() as int) =~= models);
        }
        Ok(
            Conjunction {
                name: name.to_owned(),
                actions,
                inputs,
                outputs,
                initial,
                initial_environment: environment,
            },
        )
    }

    /// A copy of the composed initial location.
    pub fn get_initial_location(&self) -> (r: Location)
        ensures
            r@ == self@.initial,
    {
        self.initial.clone()
    }

    /// A copy of the composed initial environment.
    pub fn get_initial_environment(&self) -> (r: Environment)
        ensures
            r@ == self@.environment,
    {
        self.initial_environment.clone()
    }

    /// The combined actions, each name once.
    pub fn get_actions(&self) -> (r: &Vec<Channel>)
        ensures
            r.deep_view() == self@.actions,
    {
        &self.actions
    }

    /// The combined input actions, each name once.
    pub fn get_inputs(&self) -> (r: &Vec<Channel>)
        ensures
            r.deep_view() == self@.inputs,
    {
        &self.inputs
    }

    /// The combined output actions, each name once.
    pub fn get_outputs(&self) -> (r: &Vec<Channel>)
        ensures
            r.deep_view() == self@.outputs,
    {
        &self.outputs
    }
}

/// LAW: a conjunction of automata of which one uses a channel name as an
/// input and another uses the same name as an output is rejected with a
/// partition error: the violating-channel list is not empty.
pub proof fn lemma_conjunction_shared_channel(
    automata: Seq<AutomatonModel>,
    first: int,
    second: int,
    name: Seq<char>,
)
    requires
        0 <= first < automata.len(),
        0 <= second < automata.len(),
        contains_channel_name(automata[first].inputs, name),
        contains_channel_name(automata[second].outputs, name),
    ensures
        violating_channels(
            dedup_channels(concat_inputs(automata)),
            dedup_channels(concat_outputs(automata)),
        ).len() > 0,
{
    lemma_concat_inputs_contains(automata, first, name);
    lemma_concat_outputs_contains(automata, second, name);
    lemma_dedup_channels_contains(concat_inputs(automata), name);
    lemma_dedup_channels_contains(concat_outputs(automata), name);
    lemma_violating_channels_nonempty(
        dedup_channels(concat_inputs(automata)),
        dedup_channels(concat_outputs(automata)),
        name,
    );
}

proof fn lemma_concat_inputs_contains(automata: Seq<AutomatonModel>, i: int, name: Seq<char>)
    requires
        0 <= i < automata.len(),
        contains_channel_name(automata[i].inputs, name),
    ensures
        contains_channel_name(concat_inputs(automata), name),
    decreases automata.len(),
{
    if i < automata.len() - 1 {
        lemma_concat_inputs_contains(automata.drop_last(), i, name);
        let w = choose|w: int|
            0 <= w < concat_inputs(automata.drop_last()).len() && (#[trigger] concat_inputs(
                automata.drop_last(),
            )[w]).name == name;
        assert(concat_inputs(automata)[w].name == name);
    } else {
        let w = choose|w: int|
            0 <= w < automata[i].inputs.len() && (#[trigger] automata[i].inputs[w]).name == name;
        assert(concat_inputs(automata)[concat_inputs(automata.drop_last()).len() + w].name
            == name);
    }
}

proof fn lemma_concat_outputs_contains(automata: Seq<AutomatonModel>, i: int, name: Seq<char>)
    requires
        0 <= i < automata.len(),
        contains_channel_name(automata[i].outputs, name),
    ensures
        contains_channel_name(concat_outputs(automata), name),
    decreases automata.len(),
{
    if i < automata.len() - 1 {
        lemma_concat_outputs_contains(automata.drop_last(), i, name);
        let w = choose|w: int|
            0 <= w < concat_outputs(automata.drop_last()).len() && (#[trigger] concat_outputs(
                automata.drop_last(),
            )[w]).name == name;
        assert(concat_outputs(automata)[w].name == name);
    } else {
        let w = choose|w: int|
            0 <= w < automata[i].outputs.len() && (#[trigger] automata[i].outputs[w]).name == name;
        assert(concat_outputs(automata)[concat_outputs(automata.drop_last()).len() + w].name
            == name);
    }
}

proof fn lemma_dedup_channels_contains(channels: Seq<ChannelModel>, name: Seq<char>)
    requires
        contains_channel_name(channels, name),
    ensures
        contains_channel_name(dedup_channels(channels), name),
    decreases channels.len(),
{
    if channels.len() > 0 {
        let rest = dedup_channels(channels.drop_last());
        if channels.last().name == name {
            if contains_channel_name(rest, channels.last().name) {
            } else {
                assert(dedup_channels(channels).last().name == name);
            }
        } else {
            let w = choose|w: int|
                0 <= w < channels.len() && (#[trigger] channels[w]).name == name;
            assert(channels.drop_last()[w].name == name);
            lemma_dedup_channels_contains(channels.drop_last(), name);
            let v = choose|v: int| 0 <= v < rest.len() && (#[trigger] rest[v]).name == name;
            assert(dedup_channels(channels)[v].name == name);
        }
    }
}

proof fn lemma_violating_channels_nonempty(
    inputs: Seq<ChannelModel>,
    outputs: Seq<ChannelModel>,
    name: Seq<char>,
)
    requires
        contains_channel_name(inputs, name),
        contains_channel_name(outputs, name),
    ensures
        violating_channels(inputs, outputs).len() > 0,
    decreases inputs.len(),
{
    if inputs.len() > 0 {
        if inputs.last().name == name {
        } else {
            let w = choose|w: int| 0 <= w < inputs.len() && (#[trigger] inputs[w]).name == name;
            assert(inputs.drop_last()[w].name == name);
            lemma_violating_channels_nonempty(inputs.drop_last(), outputs, name);
        }
    }
}

} // verus!
