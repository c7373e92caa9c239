//! Messages between agents and the frames that carry them.

use serde_json::Value;
use uuid::Uuid;
use vstd::prelude::*;

verus! {

/// Declares `uuid::Uuid`. An identifier is carried and never looked into.
#[verifier::external_type_specification]
#[verifier::external_body]
pub struct ExUuid(uuid::Uuid);

/// Declares `serde_json::Value`. A payload is carried and never looked into.
#[verifier::external_type_specification]
#[verifier::external_body]
pub struct ExValue(serde_json::Value);

/// Specifies `<serde_json::Value as Clone>::clone`, which the crate derives: the
/// copy is the same JSON value.
pub assume_specification[ <serde_json::Value as Clone>::clone ](
    value: &serde_json::Value,
) -> (copy: serde_json::Value)
    ensures
        copy == *value,
;

/// Routing target for a message
#[derive(Debug)]
pub enum Target {
    /// Send to a specific named client
    Named(String),
    /// Send to all subscribers of a topic
    Topic(String),
    /// Send to all connected clients (except sender)
    Broadcast,
}

impl Target {
    /// Whether two targets are of one kind and name the same client or topic.
    pub open spec fn same(self, other: Target) -> bool {
        match (self, other) {
            (Target::Named(a), Target::Named(b)) => a@ == b@,
            (Target::Topic(a), Target::Topic(b)) => a@ == b@,
            (Target::Broadcast, Target::Broadcast) => true,
            _ => false,
        }
    }

    /// Whether this target is the client called `name`.
    pub open spec fn is_named(self, name: Seq<char>) -> bool {
        self matches Target::Named(own) && own@ == name
    }
}

impl Clone for Target {
    fn clone(&self) -> (copy: Target)
        ensures
            copy == *self,
    {
        match self {
            Target::Named(name) => Target::Named(name.clone()),
            Target::Topic(topic) => Target::Topic(topic.clone()),
            Target::Broadcast => Target::Broadcast,
        }
    }
}

impl PartialEq for Target {
    fn eq(&self, other: &Target) -> (equal: bool)
        ensures
            equal <==> {
                ||| self is Named && other is Named && self->Named_0@ == other->Named_0@
                ||| self is Topic && other is Topic && self->Topic_0@ == other->Topic_0@
                ||| self is Broadcast && other is Broadcast
            },
    {
        match (self, other) {
            (Target::Named(a), Target::Named(b)) => *a == *b,
            (Target::Topic(a), Target::Topic(b)) => *a == *b,
            (Target::Broadcast, Target::Broadcast) => true,
            _ => false,
        }
    }
}

impl vstd::std_specs::cmp::PartialEqSpecImpl for Target {
    open spec fn obeys_eq_spec() -> bool {
        true
    }

    open spec fn eq_spec(&self, other: &Target) -> bool {
        self.same(*other)
    }
}

/// A target equals a bare name if it is the client of that name.
impl<'a> PartialEq<&'a str> for Target {
    fn eq(&self, other: &&'a str) -> (equal: bool)
        ensures
            equal <==> self is Named && self->Named_0@ == other@,
    {
        match self {
            Target::Named(name) => *name == (*other).to_owned(),
            _ => false,
        }
    }
}

impl<'a> vstd::std_specs::cmp::PartialEqSpecImpl<&'a str> for Target {
    open spec fn obeys_eq_spec() -> bool {
        true
    }

    open spec fn eq_spec(&self, other: &&'a str) -> bool {
        self.is_named(other@)
    }
}

/// A bare name is a client's name.
impl<'a> From<&'a str> for Target {
    fn from(name: &'a str) -> (target: Target)
        ensures
            target.is_named(name@),
    {
        Target::Named(name.to_owned())
    }
}

/// No equation names the target that `from` gives: its text is known by view only, as
/// the contract of `from` says. So `from` is not held to `from_spec`.
impl<'a> vstd::std_specs::convert::FromSpecImpl<&'a str> for Target {
    open spec fn obeys_from_spec() -> bool {
        false
    }

    open spec fn from_spec(name: &'a str) -> Target {
        choose|target: Target| target.is_named(name@)
    }
}

/// The version of an identifier, as `Uuid::get_version_num` gives it.
pub uninterp spec fn version(id: Uuid) -> nat;

/// Calls `Uuid::new_v4`: a random identifier, which is of version 4. Which one is left
/// open, and so is that two differ. The call panics when the system has no randomness to
/// give.
#[verifier::external_body]
pub(crate) fn fresh_id() -> (id: Uuid)
    ensures
        version(id) == 4,
{
    Uuid::new_v4()
}

/// Application-level message sent between agents
#[derive(Debug)]
pub struct BusMessage {
    pub id: Uuid,
    pub from: String,
    pub to: Target,
    pub kind: String,
    pub payload: Value,
}

impl Clone for BusMessage {
    fn clone(&self) -> (copy: BusMessage)
        ensures
            copy == *self,
    {
        BusMessage {
            id: self.id,
            from: self.from.clone(),
            to: self.to.clone(),
            kind: self.kind.clone(),
            payload: self.payload.clone(),
        }
    }
}

/// Wire protocol frames between client and broker
#[derive(Debug)]
pub enum Frame {
    // Client to broker
    Register { name: String },
    Subscribe { topic: String },
    Unsubscribe { topic: String },

    // Either way
    Message(BusMessage),

    // Broker to client
    Registered,
    Error { message: String },
    PeerConnected { name: String },
    PeerDisconnected { name: String },
}

impl Clone for Frame {
    fn clone(&self) -> (copy: Frame)
        ensures
            copy == *self,
    {
        match self {
            Frame::Register { name } => Frame::Register { name: name.clone() },
            Frame::Subscribe { topic } => Frame::Subscribe { topic: topic.clone() },
            Frame::Unsubscribe { topic } => Frame::Unsubscribe { topic: topic.clone() },
            Frame::Message(message) => Frame::Message(message.clone()),
            Frame::Registered => Frame::Registered,
            Frame::Error { message } => Frame::Error { message: message.clone() },
            Frame::PeerConnected { name } => Frame::PeerConnected { name: name.clone() },
            Frame::PeerDisconnected { name } => Frame::PeerDisconnected { name: name.clone() },
        }
    }
}

/// Two targets are the same if and only if both are clients of one name, both are topics of
/// one name, or both are everybody; and a target is a named client if and only if it is a
/// client and has that name.
pub proof fn law_which_targets_are_the_same(a: Target, b: Target, name: Seq<char>)
    ensures
        a.same(b) <==> {
            ||| a is Named && b is Named && a->Named_0@ == b->Named_0@
            ||| a is Topic && b is Topic && a->Topic_0@ == b->Topic_0@
            ||| a is Broadcast && b is Broadcast
        },
        a.is_named(name) <==> a is Named && a->Named_0@ == name,
{
}

} // verus!
