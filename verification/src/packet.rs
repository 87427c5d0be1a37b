use vstd::prelude::*;

use crate::node;
use crate::topic;

verus! {

/// What a packet carries.
#[derive(Debug, Clone, Copy, Hash)]
pub enum Message<'d> {
    /// Publish a message to a topic.
    Publish(topic::Message<'d>),
}

impl<'d> PartialEq for Message<'d> {
    fn eq(&self, other: &Self) -> (r: bool)
        ensures
            r == match (*self, *other) {
                (Message::Publish(a), Message::Publish(b)) => a.id == b.id && a.data@ == b.data@,
            },
    {
        match (self, other) {
            (Message::Publish(a), Message::Publish(b)) => a.eq(b),
        }
    }
}

impl<'d> vstd::std_specs::cmp::PartialEqSpecImpl for Message<'d> {
    open spec fn obeys_eq_spec() -> bool {
        true
    }

    open spec fn eq_spec(&self, other: &Self) -> bool {
        match (*self, *other) {
            (Message::Publish(a), Message::Publish(b)) => a.id == b.id && a.data@ == b.data@,
        }
    }
}

impl<'d> Eq for Message<'d> {}

/// A unit of transfer on a link: who sent it and what it carries.
#[derive(Debug, Clone, Copy, Hash)]
pub struct Packet<'d> {
    pub origin: node::Id,
    /// Catch all message type.
    pub message: Message<'d>,
}

impl<'d> PartialEq for Packet<'d> {
    fn eq(&self, other: &Self) -> (r: bool)
        ensures
            r == (self.origin == other.origin && match (self.message, other.message) {
                (Message::Publish(a), Message::Publish(b)) => a.id == b.id && a.data@ == b.data@,
            }),
    {
        self.origin == other.origin && self.message.eq(&other.message)
    }
}

impl<'d> vstd::std_specs::cmp::PartialEqSpecImpl for Packet<'d> {
    open spec fn obeys_eq_spec() -> bool {
        true
    }

    open spec fn eq_spec(&self, other: &Self) -> bool {
        self.origin == other.origin && match (self.message, other.message) {
            (Message::Publish(a), Message::Publish(b)) => a.id == b.id && a.data@ == b.data@,
        }
    }
}

impl<'d> Eq for Packet<'d> {}

} // verus!
