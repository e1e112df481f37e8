//! Locations: the vertices of an automaton graph, in a closed variant set
//! with an absorbing composition algebra.

use vstd::prelude::*;

use crate::automata::invariants::{conjunction_of, Invariant};
use crate::language::expression::ExpressionModel;
use crate::language::value::ValueModel;

verus! {

/// Mathematical model of a [`Location`].
pub enum LocationModel {
    Normal { name: Seq<char>, invariant: ExpressionModel },
    Initial { name: Seq<char>, invariant: ExpressionModel },
    Conjunction { locations: Seq<LocationModel>, invariant: ExpressionModel },
    Inconsistent { name: Seq<char> },
    Universal { name: Seq<char> },
}

/// The identity of a location: its name for the named variants, the
/// component identities for a conjunction.  Invariants are not part of a
/// location's identity.
pub enum LocationKey {
    Normal(Seq<char>),
    Initial(Seq<char>),
    Conjunction(Seq<LocationKey>),
    Inconsistent(Seq<char>),
    Universal(Seq<char>),
}

/// The identity of a location model.
pub open spec fn location_key(l: LocationModel) -> LocationKey
    decreases l, 1int,
{
    match l {
        LocationModel::Normal { name, .. } => LocationKey::Normal(name),
        LocationModel::Initial { name, .. } => LocationKey::Initial(name),
        LocationModel::Conjunction { locations, .. } => LocationKey::Conjunction(
            location_keys(locations),
        ),
        LocationModel::Inconsistent { name } => LocationKey::Inconsistent(name),
        LocationModel::Universal { name } => LocationKey::Universal(name),
    }
}

/// The identities of a sequence of location models, pointwise.
pub open spec fn location_keys(s: Seq<LocationModel>) -> Seq<LocationKey>
    decreases s, 0int,
{
    if s.len() == 0 {
        Seq::empty()
    } else {
        location_keys(s.drop_last()).push(location_key(s.last()))
    }
}

proof fn lemma_location_keys_index(s: Seq<LocationModel>, i: int)
    requires
        0 <= i < s.len(),
    ensures
        location_keys(s).len() == s.len(),
        location_keys(s)[i] == location_key(s[i]),
    decreases s.len(),
{
    if s.len() > 0 && i < s.len() - 1 {
        lemma_location_keys_index(s.drop_last(), i);
    } else if s.len() > 0 {
        lemma_location_keys_len(s.drop_last());
    }
}

proof fn lemma_location_keys_len(s: Seq<LocationModel>)
    ensures
        location_keys(s).len() == s.len(),
    decreases s.len(),
{
    if s.len() > 0 {
        lemma_location_keys_len(s.drop_last());
    }
}

/// A location of an automaton.  `Normal` and `Initial` carry an
/// invariant; `Conjunction` is a product of component locations;
/// `Inconsistent` and `Universal` are the absorbing elements of the
/// composition algebra.
#[derive(Debug)]
pub enum Location {
    Normal { name: String, invariant: Invariant },
    Initial { name: String, invariant: Invariant },
    Conjunction { locations: Vec<Location>, invariant: Invariant },
    Inconsistent { name: String },
    Universal { name: String },
}

/// The model of a location tree.
pub open spec fn location_model(l: Location) -> LocationModel
    decreases l, 1int,
{
    match l {
        Location::Normal { name, invariant: inv } => LocationModel::Normal {
            name: name@,
            invariant: inv@,
        },
        Location::Initial { name, invariant: inv } => LocationModel::Initial {
            name: name@,
            invariant: inv@,
        },
        Location::Conjunction { locations, invariant: inv } => LocationModel::Conjunction {
            locations: location_models(locations@),
            invariant: inv@,
        },
        Location::Inconsistent { name } => LocationModel::Inconsistent { name: name@ },
        Location::Universal { name } => LocationModel::Universal { name: name@ },
    }
}

/// The models of a sequence of locations, pointwise.
pub open spec fn location_models(s: Seq<Location>) -> Seq<LocationModel>
    decreases s, 0int,
{
    if s.len() == 0 {
        Seq::empty()
    } else {
        location_models(s.drop_last()).push(location_model(s.last()))
    }
}

pub broadcast proof fn lemma_location_models_index(s: Seq<Location>, i: int)
    requires
        0 <= i < s.len(),
    ensures
        location_models(s).len() == s.len(),
        #[trigger] location_models(s)[i] == location_model(s[i]),
    decreases s.len(),
{
    if s.len() > 0 && i < s.len() - 1 {
        lemma_location_models_index(s.drop_last(), i);
    } else if s.len() > 0 {
        lemma_location_models_len(s.drop_last());
    }
}

pub broadcast proof fn lemma_location_models_len(s: Seq<Location>)
    ensures
        #[trigger] location_models(s).len() == s.len(),
    decreases s.len(),
{
    if s.len() > 0 {
        lemma_location_models_len(s.drop_last());
    }
}

impl View for Location {
    type V = LocationModel;

    open spec fn view(&self) -> LocationModel {
        location_model(*self)
    }
}

impl DeepView for Location {
    type V = LocationModel;

    open spec fn deep_view(&self) -> LocationModel {
        self.view()
    }
}

impl Clone for Location {
    /// Cloning preserves the model.
    fn clone(&self) -> (r: Self)
        ensures
            r@ == self@,
        decreases self,
    {
        match self {
            Location::Normal { name, invariant: inv } => Location::Normal {
                name: name.clone(),
                invariant: inv.clone(),
            },
            Location::Initial { name, invariant: inv } => Location::Initial {
                name: name.clone(),
                invariant: inv.clone(),
            },
            Location::Conjunction { locations, invariant: inv } => {
                let mut children: Vec<Location> = Vec::new();
                let mut i: usize = 0;
                while i < locations.len()
                    invariant
                        i <= locations@.len(),
                        *self is Conjunction,
                        self->Conjunction_locations@ == locations@,
                        children@.len() == i,
                        forall|j: int| 0 <= j < i ==> (#[trigger] children@[j])@ == locations@[j]@,
                    decreases locations@.len() - i,
                {
                    proof {
                        assert(decreases_to!(*self => self->Conjunction_locations));
                        assert(decreases_to!(self->Conjunction_locations => self->Conjunction_locations@));
                        assert(decreases_to!(self->Conjunction_locations@ => self->Conjunction_locations@[i as int]));
                        assert(self->Conjunction_locations@[i as int] == locations@[i as int]);
                    }
                    children.push(locations[i].clone());
                    i = i + 1;
                }
                let r = Location::Conjunction {
                    locations: children,
                    invariant: inv.clone(),
                };
                proof {
                    broadcast use lemma_location_models_index, lemma_location_models_len;

                    assert(location_models(children@) =~= location_models(locations@));
                }
                r
            },
            Location::Inconsistent { name } => Location::Inconsistent { name: name.clone() },
            Location::Universal { name } => Location::Universal { name: name.clone() },
        }
    }
}

/// Whether two locations have the same identity.
fn location_eq(a: &Location, b: &Location) -> (r: bool)
    ensures
        r == (location_key(a@) == location_key(b@)),
    decreases a,
{
    match (a, b) {
        (
            Location::Normal { name: left, .. },
            Location::Normal { name: right, .. },
        ) => crate::language::value::str_eq(left.as_str(), right.as_str()),
        (
            Location::Initial { name: left, .. },
            Location::Initial { name: right, .. },
        ) => crate::language::value::str_eq(left.as_str(), right.as_str()),
        (
            Location::Conjunction { locations: left, .. },
            Location::Conjunction { locations: right, .. },
        ) => {
            proof {
                lemma_location_keys_of_models(left@);
                lemma_location_keys_of_models(right@);
            }
            if left.len() != right.len() {
                return false;
            }
            let mut i: usize = 0;
            while i < left.len()
                invariant
                    i <= left@.len(),
                    left@.len() == right@.len(),
                    *a is Conjunction,
                    a->Conjunction_locations@ == left@,
                    location_key(a@) == LocationKey::Conjunction(
                        Seq::new(left@.len(), |j: int| location_key(left@[j]@)),
                    ),
                    location_key(b@) == LocationKey::Conjunction(
                        Seq::new(right@.len(), |j: int| location_key(right@[j]@)),
                    ),
                    forall|j: int|
                        0 <= j < i ==> location_key((#[trigger] left@[j])@) == location_key(
                            right@[j]@,
                        ),
                decreases left@.len() - i,
            {
                proof {
                    assert(decreases_to!(*a => a->Conjunction_locations));
                    assert(decreases_to!(a->Conjunction_locations => a->Conjunction_locations@));
                    assert(decreases_to!(a->Conjunction_locations@ => a->Conjunction_locations@[i as int]));
                    assert(a->Conjunction_locations@[i as int] == left@[i as int]);
                }
                if !location_eq(&left[i], &right[i]) {
                    proof {
                        let left_keys = Seq::new(left@.len(), |j: int| location_key(left@[j]@));
                        let right_keys = Seq::new(right@.len(), |j: int| location_key(right@[j]@));
                        assert(left_keys[i as int] != right_keys[i as int]);
                    }
                    return false;
                }
                i = i + 1;
            }
            proof {
                assert(Seq::new(left@.len(), |j: int| location_key(left@[j]@)) =~= Seq::new(
                    right@.len(),
                    |j: int| location_key(right@[j]@),
                ));
            }
            true
        },
        (
            Location::Inconsistent { name: left },
            Location::Inconsistent { name: right },
        ) => crate::language::value::str_eq(left.as_str(), right.as_str()),
        (
            Location::Universal { name: left },
            Location::Universal { name: right },
        ) => crate::language::value::str_eq(left.as_str(), right.as_str()),
        _ => false,
    }
}

proof fn lemma_location_keys_of_models(s: Seq<Location>)
    ensures
        location_keys(location_models(s)) =~= Seq::new(s.len(), |j: int| location_key(s[j]@)),
{
    broadcast use lemma_location_models_index, lemma_location_models_len;

    lemma_location_keys_len(location_models(s));
    assert forall|j: int| 0 <= j < s.len() implies location_keys(location_models(s))[j]
        == location_key(s[j]@) by {
        lemma_location_keys_index(location_models(s), j);
    }
}

impl PartialEq for Location {
    /// Locations are equal exactly when their identities are: by name for
    /// the named variants, by component sequence for conjunctions.
    fn eq(&self, other: &Self) -> (r: bool) {
        location_eq(self, other)
    }
}

impl Eq for Location {

}

impl vstd::std_specs::cmp::PartialEqSpecImpl for Location {
    open spec fn obeys_eq_spec() -> bool {
        true
    }

    open spec fn eq_spec(&self, other: &Location) -> bool {
        location_key(self@) == location_key(other@)
    }
}

/// Whether a location survives into the component list of a conjunction:
/// the absorbing variants do not.
pub open spec fn location_keeps(l: LocationModel) -> bool {
    l is Normal || l is Initial || l is Conjunction
}

/// The invariant carried by a kept location.
pub open spec fn location_invariant_expr(l: LocationModel) -> ExpressionModel {
    match l {
        LocationModel::Normal { invariant: inv, .. } => inv,
        LocationModel::Initial { invariant: inv, .. } => inv,
        LocationModel::Conjunction { invariant: inv, .. } => inv,
        _ => ExpressionModel::Literal(ValueModel::Bool(true)),
    }
}

/// The locations of the sequence that survive into a conjunction, in
/// order.
pub open spec fn filtered_locations(s: Seq<LocationModel>) -> Seq<LocationModel>
    decreases s.len(),
{
    if s.len() == 0 {
        Seq::empty()
    } else {
        filtered_locations(s.drop_last()) + (if location_keeps(s.last()) {
            seq![s.last()]
        } else {
            Seq::<LocationModel>::empty()
        })
    }
}

/// The invariants of the surviving locations, in order, each kept once.
pub open spec fn kept_invariants(s: Seq<LocationModel>) -> Seq<ExpressionModel>
    decreases s.len(),
{
    if s.len() == 0 {
        Seq::empty()
    } else {
        let rest = kept_invariants(s.drop_last());
        if location_keeps(s.last()) {
            if rest.contains(location_invariant_expr(s.last())) {
                rest
            } else {
                rest.push(location_invariant_expr(s.last()))
            }
        } else {
            rest
        }
    }
}

/// Whether some location of the sequence is `Inconsistent`.
pub open spec fn some_inconsistent(s: Seq<LocationModel>) -> bool {
    exists|i: int| 0 <= i < s.len() && (#[trigger] s[i]) is Inconsistent
}

/// Whether every location of the sequence is `Universal`.
pub open spec fn all_universal(s: Seq<LocationModel>) -> bool {
    forall|i: int| 0 <= i < s.len() ==> (#[trigger] s[i]) is Universal
}

/// The product of the locations under the absorbing algebra.
pub open spec fn conjunction_location(locations: Seq<LocationModel>) -> LocationModel {
    if some_inconsistent(locations) {
        LocationModel::Inconsistent { name: "conjunction"@ }
    } else if all_universal(locations) {
        LocationModel::Universal { name: "conjunction"@ }
    } else {
        LocationModel::Conjunction {
            locations: filtered_locations(locations),
            invariant: conjunction_of(kept_invariants(locations)),
        }
    }
}

proof fn lemma_kept_invariants_nonempty(s: Seq<LocationModel>, i: int)
    requires
        0 <= i < s.len(),
        location_keeps(s[i]),
    ensures
        kept_invariants(s).len() >= 1,
    decreases s.len(),
{
    if i == s.len() - 1 {
    } else {
        lemma_kept_invariants_nonempty(s.drop_last(), i);
    }
}

impl Location {
    /// A normal location with the given name and invariant.
    pub fn new_normal(name: &str, inv: &Invariant) -> (r: Location)
        ensures
            r@ == (LocationModel::Normal { name: name@, invariant: inv@ }),
    {
        Location::Normal { name: name.to_owned(), invariant: inv.clone() }
    }

    /// The initial location with the given name and invariant.
    pub fn new_initial(name: &str, inv: &Invariant) -> (r: Location)
        ensures
            r@ == (LocationModel::Initial { name: name@, invariant: inv@ }),
    {
        Location::Initial { name: name.to_owned(), invariant: inv.clone() }
    }

    /// An inconsistent location: the absorbing bottom of the composition
    /// algebra.
    pub fn new_inconsistent(name: &str) -> (r: Location)
        ensures
            r@ == (LocationModel::Inconsistent { name: name@ }),
    {
        Location::Inconsistent { name: name.to_owned() }
    }

    /// A universal location: the absorbing top of the composition algebra.
    pub fn new_universal(name: &str) -> (r: Location)
        ensures
            r@ == (LocationModel::Universal { name: name@ }),
    {
        Location::Universal { name: name.to_owned() }
    }

    /// The product of the given locations under the absorbing algebra: any
    /// `Inconsistent` component collapses the product to `Inconsistent`;
    /// a product of none but `Universal` components is `Universal`;
    /// otherwise the product keeps the non-absorbing components and its
    /// invariant is the conjunction of their distinct invariants.
    pub fn new_conjunction(locations: &Vec<Location>) -> (r: Location)
        requires
            locations@.len() >= 1,
        ensures
            r@ == conjunction_location(locations.deep_view()),
    {
        let ghost models = locations.deep_view();
        let mut i: usize = 0;
        while i < locations.len()
            invariant
                i <= locations@.len(),
                models == locations.deep_view(),
                forall|j: int| 0 <= j < i ==> !((#[trigger] models[j]) is Inconsistent),
            decreases locations@.len() - i,
        {
            proof {
                assert(models[i as int] == locations@[i as int]@);
            }
            if matches!(&locations[i], Location::Inconsistent { .. }) {
                return Location::Inconsistent { name: "conjunction".to_owned() };
            }
            i = i + 1;
        }
        let mut all_are_universal = true;
        let mut i: usize = 0;
        while i < locations.len()
            invariant
                i <= locations@.len(),
                models == locations.deep_view(),
                all_are_universal == (forall|j: int|
                    0 <= j < i ==> (#[trigger] models[j]) is Universal),
            decreases locations@.len() - i,
        {
            proof {
                assert(models[i as int] == locations@[i as int]@);
            }
            if !matches!(&locations[i], Location::Universal { .. }) {
                all_are_universal = false;
            }
            i = i + 1;
        }
        if all_are_universal {
            return Location::Universal { name: "conjunction".to_owned() };
        }
        let mut kept: Vec<Location> = Vec::new();
        let mut invariants: Vec<Invariant> = Vec::new();
        let mut i: usize = 0;
        while i < locations.len()
            invariant
                i <= locations@.len(),
                models == locations.deep_view(),
                kept.deep_view() == filtered_locations(models.take(i as int)),
                invariants.deep_view() == kept_invariants(models.take(i as int)),
            decreases locations@.len() - i,
        {
            let current = &locations[i];
            let keep = match current {
                Location::Normal { .. } => true,
                Location::Initial { .. } => true,
                Location::Conjunction { .. } => true,
                _ => false,
            };
            if keep {
                kept.push(current.clone());
                let current_invariant = match current {
                    Location::Normal { invariant: inv, .. } => inv.clone(),
                    Location::Initial { invariant: inv, .. } => inv.clone(),
                    Location::Conjunction { invariant: inv, .. } => inv.clone(),
                    _ => Invariant::new_true(),
                };
                let mut seen = false;
                let mut j: usize = 0;
                while j < invariants.len()
                    invariant
                        j <= invariants@.len(),
                        seen == (exists|k: int|
                            0 <= k < j && (#[trigger] invariants@[k])@ == current_invariant@),
                    decreases invariants@.len() - j,
                {
                    if invariants[j].node == current_invariant.node {
                        proof {
                            assert((invariants@[j as int])@ == current_invariant@);
                        }
                        seen = true;
                    }
                    j = j + 1;
                }
                proof {
                    assert(forall|k: int|
                        0 <= k < invariants@.len() ==> invariants.deep_view()[k] == (
                        #[trigger] invariants@[k])@);
                    if seen {
                        let k = choose|k: int|
                            0 <= k < invariants@.len() && (#[trigger] invariants@[k])@
                                == current_invariant@;
                        assert(invariants.deep_view()[k] == current_invariant@);
                    }
                    assert(seen == invariants.deep_view().contains(current_invariant@));
                }
                if !seen {
                    invariants.push(current_invariant);
                }
            }
            i = i + 1;
            proof {
                assert(models.take(i as int).drop_last() =~= models.take(i as int - 1));
                assert(models.take(i as int).last() == models[i as int - 1]);
                assert(models[i as int - 1] == locations@[i as int - 1]@);
                assert(models[i as int - 1] == current@);
                assert(kept.deep_view() =~= filtered_locations(models.take(i as int)));
                assert(invariants.deep_view() =~= kept_invariants(models.take(i as int)));
            }
        }
        proof {
            assert(models.take(models.len() as int) =~= models);
            assert(!all_universal(models));
            let witness = choose|j: int|
                0 <= j < models.len() && !((#[trigger] models[j]) is Universal);
            assert(location_keeps(models[witness]));
            lemma_kept_invariants_nonempty(models, witness);
            assert(invariants.deep_view().len() == invariants@.len());
        }
        let conjoined_invariant = if invariants.len() == 1 {
            proof {
                assert(conjunction_of(kept_invariants(models)) == invariants.deep_view()[0]);
                assert(invariants.deep_view()[0] == invariants@[0]@);
            }
            invariants[0].clone()
        } else {
            Invariant::new_conjunction(&invariants)
        };
        let r = Location::Conjunction { locations: kept, invariant: conjoined_invariant };
        proof {
            broadcast use lemma_location_models_index, lemma_location_models_len;

            assert(location_models(kept@) =~= kept.deep_view());
        }
        r
    }
}

} // verus!
