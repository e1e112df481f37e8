//! Synchronization channels: named labels with a direction annotation.
//!
//! Two channels with the same name are the same channel; the direction is
//! a per-use annotation, not part of the identity.

use vstd::prelude::*;

use crate::language::value::str_eq;

verus! {

/// Mathematical model of a [`Channel`]: its name and direction.
pub struct ChannelModel {
    pub name: Seq<char>,
    pub is_input: bool,
}

/// A synchronization channel: an input (`In`) or output (`Out`) use of a
/// named label.  Equality is by name alone.
#[derive(Debug)]
pub enum Channel {
    In(String),
    Out(String),
}

impl View for Channel {
    type V = ChannelModel;

    open spec fn view(&self) -> ChannelModel {
        match self {
            Channel::In(name) => ChannelModel { name: name@, is_input: true },
            Channel::Out(name) => ChannelModel { name: name@, is_input: false },
        }
    }
}

impl DeepView for Channel {
    type V = ChannelModel;

    open spec fn deep_view(&self) -> ChannelModel {
        self.view()
    }
}

impl Clone for Channel {
    /// Cloning gives an equal value.
    fn clone(&self) -> (r: Self)
        ensures
            r == *self,
    {
        match self {
            Channel::In(name) => Channel::In(name.clone()),
            Channel::Out(name) => Channel::Out(name.clone()),
        }
    }
}

impl PartialEq for Channel {
    /// Channels are equal exactly when their names are: direction is not
    /// part of a channel's identity.
    fn eq(&self, other: &Self) -> (r: bool) {
        let self_name = match self {
            Channel::In(name) => name,
            Channel::Out(name) => name,
        };
        let other_name = match other {
            Channel::In(name) => name,
            Channel::Out(name) => name,
        };
        str_eq(self_name.as_str(), other_name.as_str())
    }
}

impl Eq for Channel {

}

impl vstd::std_specs::cmp::PartialEqSpecImpl for Channel {
    open spec fn obeys_eq_spec() -> bool {
        true
    }

    open spec fn eq_spec(&self, other: &Channel) -> bool {
        self@.name == other@.name
    }
}

impl Channel {
    /// A channel with the given name and direction.
    pub fn new(name: &str, is_input: bool) -> (r: Self)
        ensures
            r@.name == name@,
            r@.is_input == is_input,
    {
        if is_input {
            Self::new_input(name)
        } else {
            Self::new_output(name)
        }
    }

    /// An input use of the named channel.
    pub fn new_input(name: &str) -> (r: Self)
        ensures
            r@ == (ChannelModel { name: name@, is_input: true }),
    {
        Channel::In(name.to_owned())
    }

    /// An output use of the named channel.
    pub fn new_output(name: &str) -> (r: Self)
        ensures
            r@ == (ChannelModel { name: name@, is_input: false }),
    {
        Channel::Out(name.to_owned())
    }
}

} // verus!
