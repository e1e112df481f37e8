//! The environment: a mapping from identifiers to values, with unique keys.
//!
//! Declaration (`insert`), update (`set`) and union (`concat`) are kept
//! apart: `insert` refuses keys that exist, `set` refuses keys that do not,
//! and `concat` refuses overlapping key sets.

use vstd::prelude::*;

use crate::language::expression::{expression_identifiers, Expression};
use crate::language::node::{node_identifiers, value_identifiers, Node};
use crate::language::statement::{statement_identifiers, Statement};
use crate::language::value::{str_eq, Value, ValueModel};

verus! {

/// The mapping denoted by a sequence of key/value entries; a later entry
/// with the same key wins, though well-formed environments have no such
/// entries.
pub open spec fn entries_map(entries: Seq<(String, Value)>) -> Map<Seq<char>, ValueModel>
    decreases entries.len(),
{
    if entries.len() == 0 {
        Map::empty()
    } else {
        entries_map(entries.drop_last()).insert(entries.last().0@, entries.last().1@)
    }
}

/// Whether no two entries share a key.
pub open spec fn unique_keys(entries: Seq<(String, Value)>) -> bool {
    forall|i: int, j: int|
        0 <= i < j < entries.len() ==> (#[trigger] entries[i]).0@ != (#[trigger] entries[j]).0@
}

/// Whether the mapping declares every identifier in the sequence.
pub open spec fn declares_all(env: Map<Seq<char>, ValueModel>, idents: Seq<Seq<char>>) -> bool {
    forall|i: int| 0 <= i < idents.len() ==> env.dom().contains(#[trigger] idents[i])
}

/// The identifiers of the sequence that the mapping does not declare, in
/// order, with repeated occurrences kept.
pub open spec fn missing_from(env: Map<Seq<char>, ValueModel>, idents: Seq<Seq<char>>) -> Seq<
    Seq<char>,
>
    decreases idents.len(),
{
    if idents.len() == 0 {
        Seq::empty()
    } else {
        missing_from(env, idents.drop_last()) + (if env.dom().contains(idents.last()) {
            Seq::<Seq<char>>::empty()
        } else {
            seq![idents.last()]
        })
    }
}

/// An identifier-to-value mapping with unique keys.
#[derive(Debug, PartialEq, Eq)]
pub struct Environment {
    entries: Vec<(String, Value)>,
}

impl View for Environment {
    type V = Map<Seq<char>, ValueModel>;

    closed spec fn view(&self) -> Map<Seq<char>, ValueModel> {
        entries_map(self.entries@)
    }
}

impl Clone for Environment {
    /// Cloning preserves the mapping.
    fn clone(&self) -> (r: Self)
        ensures
            r@ == self@,
    {
        proof {
            use_type_invariant(self);
        }
        let mut entries: Vec<(String, Value)> = Vec::new();
        let mut i: usize = 0;
        while i < self.entries.len()
            invariant
                i <= self.entries@.len(),
                entries@ == self.entries@.take(i as int),
            decreases self.entries@.len() - i,
        {
            entries.push((self.entries[i].0.clone(), self.entries[i].1.clone()));
            i = i + 1;
            proof {
                assert(entries@ =~= self.entries@.take(i as int));
            }
        }
        proof {
            assert(entries@ =~= self.entries@);
        }
        Environment { entries }
    }
}

proof fn lemma_entries_map_finite(entries: Seq<(String, Value)>)
    ensures
        entries_map(entries).dom().finite(),
    decreases entries.len(),
{
    if entries.len() != 0 {
        lemma_entries_map_finite(entries.drop_last());
    }
}

proof fn lemma_entries_map_dom(entries: Seq<(String, Value)>, k: Seq<char>)
    ensures
        entries_map(entries).dom().contains(k) <==> (exists|i: int|
            0 <= i < entries.len() && (#[trigger] entries[i]).0@ == k),
    decreases entries.len(),
{
    if entries.len() == 0 {
    } else {
        lemma_entries_map_dom(entries.drop_last(), k);
        if entries.last().0@ == k {
            assert((entries[entries.len() - 1]).0@ == k);
        } else {
            if entries_map(entries).dom().contains(k) {
                let i = choose|i: int|
                    0 <= i < entries.drop_last().len() && (#[trigger] entries.drop_last()[i]).0@
                        == k;
                assert((entries[i]).0@ == k);
            }
            if exists|i: int| 0 <= i < entries.len() && (#[trigger] entries[i]).0@ == k {
                let i = choose|i: int| 0 <= i < entries.len() && (#[trigger] entries[i]).0@ == k;
                assert(i < entries.len() - 1);
                assert((entries.drop_last()[i]).0@ == k);
            }
        }
    }
}

proof fn lemma_entries_map_at(entries: Seq<(String, Value)>, i: int)
    requires
        unique_keys(entries),
        0 <= i < entries.len(),
    ensures
        entries_map(entries).dom().contains((entries[i]).0@),
        entries_map(entries)[(entries[i]).0@] == (entries[i]).1@,
    decreases entries.len(),
{
    if i == entries.len() - 1 {
    } else {
        assert(forall|a: int, b: int|
            0 <= a < b < entries.drop_last().len() ==> (#[trigger] entries.drop_last()[a]).0@ != (
            #[trigger] entries.drop_last()[b]).0@);
        lemma_entries_map_at(entries.drop_last(), i);
        assert((entries[i]).0@ != (entries[entries.len() - 1]).0@);
    }
}

proof fn lemma_entries_map_len(entries: Seq<(String, Value)>)
    requires
        unique_keys(entries),
    ensures
        entries_map(entries).dom().len() == entries.len(),
    decreases entries.len(),
{
    if entries.len() == 0 {
        assert(entries_map(entries).dom() =~= Set::empty());
    } else {
        let prefix = entries.drop_last();
        assert(forall|a: int, b: int|
            0 <= a < b < prefix.len() ==> (#[trigger] prefix[a]).0@ != (#[trigger] prefix[b]).0@);
        lemma_entries_map_len(prefix);
        lemma_entries_map_finite(prefix);
        lemma_entries_map_dom(prefix, entries.last().0@);
        assert(forall|a: int| 0 <= a < prefix.len() ==> (#[trigger] prefix[a]).0@ == (
        entries[a]).0@);
        assert(!entries_map(prefix).dom().contains(entries.last().0@));
    }
}

impl Environment {
    /// Whether the entry list has no repeated keys.  This holds for every
    /// environment the public operations can produce.
    #[verifier::type_invariant]
    pub closed spec fn wf(self) -> bool {
        unique_keys(self.entries@)
    }

    /// The environment declaring no identifiers.
    pub fn new_empty() -> (r: Self)
        ensures
            r@ == Map::<Seq<char>, ValueModel>::empty(),
    {
        Environment { entries: Vec::new() }
    }

    /// Whether no identifier is declared.
    pub fn is_empty(&self) -> (r: bool)
        ensures
            r == (self@.dom().len() == 0),
    {
        proof {
            use_type_invariant(self);
            lemma_entries_map_len(self.entries@);
        }
        self.entries.len() == 0
    }

    /// The number of declared identifiers.
    pub fn count(&self) -> (r: usize)
        ensures
            r == self@.dom().len(),
    {
        proof {
            use_type_invariant(self);
            lemma_entries_map_len(self.entries@);
        }
        self.entries.len()
    }

    /// The position of the entry declaring `identifier`, if any.
    fn find(&self, identifier: &str) -> (r: Option<usize>)
        ensures
            match r {
                Some(i) => i < self.entries@.len() && (self.entries@[i as int]).0@ == identifier@,
                None => !self@.dom().contains(identifier@),
            },
    {
        let mut i: usize = 0;
        while i < self.entries.len()
            invariant
                i <= self.entries@.len(),
                forall|j: int| 0 <= j < i ==> (#[trigger] self.entries@[j]).0@ != identifier@,
            decreases self.entries@.len() - i,
        {
            if str_eq(self.entries[i].0.as_str(), identifier) {
                return Some(i);
            }
            i = i + 1;
        }
        proof {
            lemma_entries_map_dom(self.entries@, identifier@);
        }
        None
    }

    /// Whether `identifier` is declared.
    pub fn contains(&self, identifier: &str) -> (r: bool)
        ensures
            r == self@.dom().contains(identifier@),
    {
        proof {
            use_type_invariant(self);
        }
        match self.find(identifier) {
            Some(i) => {
                proof {
                    lemma_entries_map_at(self.entries@, i as int);
                }
                true
            },
            None => false,
        }
    }

    /// The value `identifier` is bound to, if it is declared.
    pub fn get_value(&self, identifier: &str) -> (r: Option<&Value>)
        ensures
            match r {
                Some(v) => self@.dom().contains(identifier@) && v@ == self@[identifier@],
                None => !self@.dom().contains(identifier@),
            },
    {
        proof {
            use_type_invariant(self);
        }
        match self.find(identifier) {
            Some(i) => {
                proof {
                    lemma_entries_map_at(self.entries@, i as int);
                }
                Some(&self.entries[i].1)
            },
            None => None,
        }
    }

    /// Whether `identifier` is declared and bound to exactly `value`.
    pub fn contains_with_value(&self, identifier: &str, value: &Value) -> (r: bool)
        ensures
            r == (self@.dom().contains(identifier@) && self@[identifier@] == value@),
    {
        if let Some(identified_value) = self.get_value(identifier) {
            identified_value.value_eq(value)
        } else {
            false
        }
    }

    /// Declares `identifier` with `value`.  Refuses, leaving the
    /// environment unchanged, when `identifier` is already declared.
    pub fn insert(&mut self, identifier: &str, value: &Value) -> (r: bool)
        ensures
            r == !old(self)@.dom().contains(identifier@),
            r ==> final(self)@ == old(self)@.insert(identifier@, value@),
            !r ==> final(self)@ == old(self)@,
    {
        proof {
            use_type_invariant(&*self);
        }
        if self.contains(identifier) {
            return false;
        }
        proof {
            lemma_entries_map_dom(self.entries@, identifier@);
        }
        let mut entries: Vec<(String, Value)> = Vec::new();
        core::mem::swap(&mut entries, &mut self.entries);
        entries.push((identifier.to_owned(), value.clone()));
        proof {
            assert(forall|j: int|
                0 <= j < entries@.len() - 1 ==> (#[trigger] entries@[j]).0@ != identifier@);
            assert(entries@.drop_last() =~= old(self).entries@);
        }
        core::mem::swap(&mut entries, &mut self.entries);
        true
    }

    /// Rebinds the declared `identifier` to `value`.  Refuses, leaving the
    /// environment unchanged, when `identifier` is not declared.
    pub fn set(&mut self, identifier: &str, value: &Value) -> (r: bool)
        ensures
            r == old(self)@.dom().contains(identifier@),
            r ==> final(self)@ == old(self)@.insert(identifier@, value@),
            !r ==> final(self)@ == old(self)@,
    {
        proof {
            use_type_invariant(&*self);
        }
        match self.find(identifier) {
            Some(i) => {
                proof {
                    lemma_entries_map_at(self.entries@, i as int);
                }
                let mut entries: Vec<(String, Value)> = Vec::new();
                core::mem::swap(&mut entries, &mut self.entries);
                entries.set(i, (identifier.to_owned(), value.clone()));
                proof {
                    lemma_entries_map_update(old(self).entries@, i as int, entries@[i as int]);
                    assert(forall|j: int|
                        0 <= j < entries@.len() && j != i ==> (#[trigger] entries@[j]).0@ == (
                        old(self).entries@[j]).0@);
                }
                core::mem::swap(&mut entries, &mut self.entries);
                true
            },
            None => false,
        }
    }

    /// Adds every binding of `other`.  Refuses, leaving the environment
    /// unchanged, when the two environments share a declared identifier.
    pub fn concat(&mut self, other: &Environment) -> (r: bool)
        ensures
            r == old(self)@.dom().disjoint(other@.dom()),
            r ==> final(self)@ == old(self)@.union_prefer_right(other@),
            !r ==> final(self)@ == old(self)@,
    {
        proof {
            use_type_invariant(&*self);
            use_type_invariant(other);
        }
        if !self.is_disjoint(other) {
            return false;
        }
        let mut entries: Vec<(String, Value)> = Vec::new();
        core::mem::swap(&mut entries, &mut self.entries);
        let ghost base = entries@;
        let mut i: usize = 0;
        while i < other.entries.len()
            invariant
                i <= other.entries@.len(),
                entries@ == base + other.entries@.take(i as int),
            decreases other.entries@.len() - i,
        {
            let entry = (other.entries[i].0.clone(), other.entries[i].1.clone());
            entries.push(entry);
            i = i + 1;
            proof {
                assert(entries@ =~= base + other.entries@.take(i as int));
            }
        }
        proof {
            assert(entries@ =~= base + other.entries@);
            lemma_unique_append(base, other.entries@);
            lemma_entries_map_append(base, other.entries@);
        }
        core::mem::swap(&mut entries, &mut self.entries);
        true
    }

    /// Whether this environment and `other` denote the same mapping,
    /// whatever order their bindings were declared in.
    pub fn same_mapping(&self, other: &Environment) -> (r: bool)
        ensures
            r == (self@ == other@),
    {
        proof {
            use_type_invariant(self);
            use_type_invariant(other);
            lemma_entries_map_len(self.entries@);
            lemma_entries_map_len(other.entries@);
            lemma_entries_map_finite(self.entries@);
            lemma_entries_map_finite(other.entries@);
        }
        if self.entries.len() != other.entries.len() {
            return false;
        }
        let mut i: usize = 0;
        while i < self.entries.len()
            invariant
                i <= self.entries@.len(),
                unique_keys(self.entries@),
                forall|j: int|
                    0 <= j < i ==> other@.dom().contains((#[trigger] self.entries@[j]).0@)
                        && other@[(#[trigger] self.entries@[j]).0@] == (self.entries@[j]).1@,
            decreases self.entries@.len() - i,
        {
            let found = other.contains_with_value(self.entries[i].0.as_str(), &self.entries[i].1);
            proof {
                lemma_entries_map_at(self.entries@, i as int);
            }
            if !found {
                return false;
            }
            i = i + 1;
        }
        proof {
            assert forall|k: Seq<char>| self@.dom().contains(k) implies other@.dom().contains(k)
                && other@[k] == self@[k] by {
                lemma_entries_map_dom(self.entries@, k);
                let j = choose|j: int|
                    0 <= j < self.entries@.len() && (#[trigger] self.entries@[j]).0@ == k;
                lemma_entries_map_at(self.entries@, j);
            }
            assert forall|k: Seq<char>| self@.dom().contains(k) implies other@.dom().contains(
                k,
            ) by {
                lemma_entries_map_dom(self.entries@, k);
                let j = choose|j: int|
                    0 <= j < self.entries@.len() && (#[trigger] self.entries@[j]).0@ == k;
                lemma_entries_map_at(self.entries@, j);
            }
            assert(self@.dom().subset_of(other@.dom()));
            vstd::set_lib::lemma_subset_equality(self@.dom(), other@.dom());
            assert(self@ =~= other@);
        }
        true
    }

    /// The identifiers declared by both this environment and `other`, in
    /// this environment's declaration order.
    pub fn common_identifiers(&self, other: &Environment) -> (r: Vec<String>)
        ensures
            forall|i: int|
                0 <= i < r.deep_view().len() ==> self@.dom().contains(#[trigger] r.deep_view()[i])
                    && other@.dom().contains(r.deep_view()[i]),
            forall|k: Seq<char>|
                self@.dom().contains(k) && other@.dom().contains(k) ==> r.deep_view().contains(k),
    {
        proof {
            use_type_invariant(self);
        }
        let mut common: Vec<String> = Vec::new();
        let mut i: usize = 0;
        while i < self.entries.len()
            invariant
                i <= self.entries@.len(),
                unique_keys(self.entries@),
                forall|j: int|
                    0 <= j < common@.len() ==> self@.dom().contains((#[trigger] common@[j])@)
                        && other@.dom().contains(common@[j]@),
                forall|j: int|
                    0 <= j < i && other@.dom().contains((#[trigger] self.entries@[j]).0@)
                        ==> (exists|w: int|
                        0 <= w < common@.len() && (#[trigger] common@[w])@ == (
                        self.entries@[j]).0@),
            decreases self.entries@.len() - i,
        {
            let ghost previous = common@;
            if other.contains(self.entries[i].0.as_str()) {
                proof {
                    lemma_entries_map_at(self.entries@, i as int);
                }
                common.push(self.entries[i].0.clone());
            }
            i = i + 1;
            proof {
                assert forall|j: int|
                    0 <= j < i && other@.dom().contains((#[trigger] self.entries@[j]).0@) implies (
                exists|w: int|
                    0 <= w < common@.len() && (#[trigger] common@[w])@ == (
                    self.entries@[j]).0@) by {
                    if j < i - 1 {
                        let w = choose|w: int|
                            0 <= w < previous.len() && (#[trigger] previous[w])@ == (
                            self.entries@[j]).0@;
                        assert(common@[w]@ == (self.entries@[j]).0@);
                    } else {
                        assert(common@[common@.len() - 1]@ == (self.entries@[j]).0@);
                    }
                }
            }
        }
        proof {
            assert(forall|j: int|
                0 <= j < common@.len() ==> common.deep_view()[j] == (#[trigger] common@[j])@);
            assert forall|k: Seq<char>|
                self@.dom().contains(k) && other@.dom().contains(k) implies common.deep_view()
                .contains(k) by {
                lemma_entries_map_dom(self.entries@, k);
                let j = choose|j: int|
                    0 <= j < self.entries@.len() && (#[trigger] self.entries@[j]).0@ == k;
                let w = choose|w: int|
                    0 <= w < common@.len() && (#[trigger] common@[w])@ == (self.entries@[j]).0@;
                assert(common.deep_view()[w] == k);
            }
        }
        common
    }

    /// Whether this environment and `other` declare no identifier in
    /// common.
    pub fn is_disjoint(&self, other: &Environment) -> (r: bool)
        ensures
            r == self@.dom().disjoint(other@.dom()),
    {
        proof {
            use_type_invariant(self);
        }
        let mut i: usize = 0;
        while i < self.entries.len()
            invariant
                i <= self.entries@.len(),
                unique_keys(self.entries@),
                forall|j: int|
                    0 <= j < i ==> !other@.dom().contains((#[trigger] self.entries@[j]).0@),
            decreases self.entries@.len() - i,
        {
            if other.contains(self.entries[i].0.as_str()) {
                proof {
                    lemma_entries_map_at(self.entries@, i as int);
                }
                return false;
            }
            i = i + 1;
        }
        proof {
            assert forall|k: Seq<char>| self@.dom().contains(k) implies !other@.dom().contains(
                k,
            ) by {
                lemma_entries_map_dom(self.entries@, k);
            }
        }
        true
    }

    /// Whether every identifier referenced by the expression is declared.
    pub fn contains_identifiers_in_expression(&self, expression: &Expression) -> (r: bool)
        ensures
            r == declares_all(self@, expression_identifiers(expression@)),
    {
        let identifiers = expression.identifiers();
        self.contains_all(&identifiers)
    }

    /// Whether every identifier referenced by the statement is declared.
    pub fn contains_identifiers_in_statement(&self, statement: &Statement) -> (r: bool)
        ensures
            r == declares_all(self@, statement_identifiers(statement@)),
    {
        let identifiers = statement.identifiers();
        self.contains_all(&identifiers)
    }

    /// Whether every identifier referenced by the node is declared.
    pub fn contains_identifiers_in_node(&self, node: &Node) -> (r: bool)
        ensures
            r == declares_all(self@, node_identifiers(node@)),
    {
        let identifiers = node.identifiers();
        self.contains_all(&identifiers)
    }

    /// Whether the value, if an identifier, is declared.
    pub fn contains_identifiers_in_value(&self, value: &Value) -> (r: bool)
        ensures
            r == declares_all(self@, value_identifiers(value@)),
    {
        if let Value::Identifier(ident) = value {
            let r = self.contains(ident.as_str());
            proof {
                assert(value_identifiers(value@) =~= seq![ident@]);
                assert(value_identifiers(value@)[0] == ident@);
            }
            r
        } else {
            true
        }
    }

    /// Whether every identifier in the list is declared.
    fn contains_all(&self, identifiers: &Vec<String>) -> (r: bool)
        ensures
            r == declares_all(self@, identifiers.deep_view()),
    {
        proof {
            assert(forall|j: int|
                0 <= j < identifiers@.len() ==> identifiers.deep_view()[j] == (
                #[trigger] identifiers@[j])@);
        }
        let mut i: usize = 0;
        while i < identifiers.len()
            invariant
                i <= identifiers@.len(),
                forall|j: int|
                    0 <= j < identifiers@.len() ==> identifiers.deep_view()[j] == (
                    #[trigger] identifiers@[j])@,
                forall|j: int|
                    0 <= j < i ==> self@.dom().contains((#[trigger] identifiers@[j])@),
            decreases identifiers@.len() - i,
        {
            if !self.contains(identifiers[i].as_str()) {
                assert(!self@.dom().contains(identifiers.deep_view()[i as int]));
                return false;
            }
            i = i + 1;
        }
        true
    }

    /// The identifiers referenced by the expression that are not declared,
    /// in the expression's preorder.
    pub fn missing_identifiers_in_expression(&self, expression: &Expression) -> (r: Vec<String>)
        ensures
            r.deep_view() == missing_from(self@, expression_identifiers(expression@)),
    {
        let identifiers = expression.identifiers();
        self.missing_of(&identifiers)
    }

    /// The identifiers referenced by the statement that are not declared,
    /// target expression first.
    pub fn missing_identifiers_in_statement(&self, statement: &Statement) -> (r: Vec<String>)
        ensures
            r.deep_view() == missing_from(self@, statement_identifiers(statement@)),
    {
        let identifiers = statement.identifiers();
        self.missing_of(&identifiers)
    }

    /// The identifiers referenced by the node that are not declared.
    pub fn missing_identifiers_in_node(&self, node: &Node) -> (r: Vec<String>)
        ensures
            r.deep_view() == missing_from(self@, node_identifiers(node@)),
    {
        let identifiers = node.identifiers();
        self.missing_of(&identifiers)
    }

    /// The identifiers of the list that are not declared, in order.
    fn missing_of(&self, identifiers: &Vec<String>) -> (r: Vec<String>)
        ensures
            r.deep_view() == missing_from(self@, identifiers.deep_view()),
    {
        let mut missing: Vec<String> = Vec::new();
        let mut i: usize = 0;
        while i < identifiers.len()
            invariant
                i <= identifiers@.len(),
                missing.deep_view() == missing_from(
                    self@,
                    identifiers.deep_view().take(i as int),
                ),
            decreases identifiers@.len() - i,
        {
            if !self.contains(identifiers[i].as_str()) {
                missing.push(identifiers[i].clone());
            }
            i = i + 1;
            proof {
                assert(identifiers.deep_view().take(i as int).drop_last() =~= identifiers.deep_view()
                    .take(i as int - 1));
                assert(identifiers.deep_view().take(i as int).last() == identifiers@[i as int - 1]@);
                assert(missing.deep_view() =~= missing_from(
                    self@,
                    identifiers.deep_view().take(i as int),
                ));
            }
        }
        proof {
            assert(identifiers.deep_view().take(identifiers@.len() as int) =~= identifiers.deep_view());
        }
        missing
    }
}

proof fn lemma_entries_map_update(entries: Seq<(String, Value)>, i: int, entry: (String, Value))
    requires
        unique_keys(entries),
        0 <= i < entries.len(),
        entry.0@ == (entries[i]).0@,
    ensures
        entries_map(entries.update(i, entry)) == entries_map(entries).insert(entry.0@, entry.1@),
    decreases entries.len(),
{
    let updated = entries.update(i, entry);
    if i == entries.len() - 1 {
        assert(updated.drop_last() =~= entries.drop_last());
        assert(entries_map(updated) =~= entries_map(entries).insert(entry.0@, entry.1@));
    } else {
        assert(forall|a: int, b: int|
            0 <= a < b < entries.drop_last().len() ==> (#[trigger] entries.drop_last()[a]).0@ != (
            #[trigger] entries.drop_last()[b]).0@);
        lemma_entries_map_update(entries.drop_last(), i, entry);
        assert(updated.drop_last() =~= entries.drop_last().update(i, entry));
        assert(updated.last() == entries.last());
        assert((entries[i]).0@ != (entries[entries.len() - 1]).0@);
        assert(entries_map(updated) =~= entries_map(entries).insert(entry.0@, entry.1@));
    }
}

proof fn lemma_entries_map_append(a: Seq<(String, Value)>, b: Seq<(String, Value)>)
    ensures
        entries_map(a + b) == entries_map(a).union_prefer_right(entries_map(b)),
    decreases b.len(),
{
    if b.len() == 0 {
        assert(a + b =~= a);
        assert(entries_map(a).union_prefer_right(entries_map(b)) =~= entries_map(a));
    } else {
        lemma_entries_map_append(a, b.drop_last());
        assert((a + b).drop_last() =~= a + b.drop_last());
        assert((a + b).last() == b.last());
        assert(entries_map(a + b) =~= entries_map(a).union_prefer_right(entries_map(b)));
    }
}

proof fn lemma_unique_append(a: Seq<(String, Value)>, b: Seq<(String, Value)>)
    requires
        unique_keys(a),
        unique_keys(b),
        entries_map(a).dom().disjoint(entries_map(b).dom()),
    ensures
        unique_keys(a + b),
{
    let joined = a + b;
    assert forall|i: int, j: int| 0 <= i < j < joined.len() implies (#[trigger] joined[i]).0@ != (
    #[trigger] joined[j]).0@ by {
        if i < a.len() && j >= a.len() {
            lemma_entries_map_at(a, i);
            lemma_entries_map_at(b, j - a.len());
            assert(joined[i] == a[i]);
            assert(joined[j] == b[j - a.len()]);
        } else if i >= a.len() {
            assert(joined[i] == b[i - a.len()]);
            assert(joined[j] == b[j - a.len()]);
        } else {
            assert(joined[i] == a[i]);
            assert(joined[j] == a[j]);
        }
    }
}

} // verus!
