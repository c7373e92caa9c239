//! The in-process bus: agents register under a name, and send messages to names.
//!
//! The bus owns the queue of every mailbox, and a `Mailbox` is the key to one of them.
//! Sharing a bus between threads, and dropping handles to it, is the caller's part.

use core::task::Context;
use serde_json::Value;
use uuid::Uuid;
use vstd::prelude::*;

use crate::channel::Channel;
use crate::channel::Polled;
use crate::channel::QUEUE_LIMIT;
use crate::message::fresh_id;
use crate::message::version;
use crate::message::BusMessage;
use crate::message::Target;

verus! {

/// Error type for bus operations
#[derive(Debug)]
pub enum BusError {
    /// The name is already registered.
    NameTaken(String),
    /// Nobody is registered under the name.
    UnknownRecipient(String),
    /// The bus is shut down.
    Shutdown,
}

/// One mailbox in the state of a bus.
pub struct BoxView {
    /// The name under which it was registered.
    pub owner: Seq<char>,
    /// Whether it is still registered.
    pub open: bool,
    /// The messages that wait in it, oldest first.
    pub queue: Seq<BusMessage>,
}

/// The state of a bus.
pub struct BusView {
    /// Whether the bus has not been shut down.
    pub running: bool,
    /// The mailboxes, each under its slot.
    pub boxes: Map<int, BoxView>,
}

impl BusView {
    /// The state of a new bus.
    pub open spec fn initial() -> BusView {
        BusView { running: true, boxes: Map::empty() }
    }

    /// Whether the mailbox in `slot` is the one registered under `name`.
    pub open spec fn holds(self, slot: int, name: Seq<char>) -> bool {
        &&& self.boxes.dom().contains(slot)
        &&& self.boxes[slot].open
        &&& self.boxes[slot].owner == name
    }

    /// Whether a mailbox is registered under `name`.
    pub open spec fn registered(self, name: Seq<char>) -> bool {
        exists|slot: int| self.holds(slot, name)
    }

    /// No name is registered twice, and on a bus that is shut down none is registered.
    pub open spec fn consistent(self) -> bool {
        &&& forall|a: int, b: int, name: Seq<char>|
            #![trigger self.holds(a, name), self.holds(b, name)]
            self.holds(a, name) && self.holds(b, name) ==> a == b
        &&& forall|slot: int, name: Seq<char>| #[trigger] self.holds(slot, name) ==> self.running
    }

    /// The state with `mailbox` in `slot`.
    pub open spec fn with_box(self, slot: int, mailbox: BoxView) -> BusView {
        BusView { boxes: self.boxes.insert(slot, mailbox), ..self }
    }

    /// The state with a new mailbox, registered under `name` in `slot`.
    pub open spec fn joined(self, slot: int, name: Seq<char>) -> BusView {
        self.with_box(slot, BoxView { owner: name, open: true, queue: Seq::empty() })
    }

    /// The state in which nobody is registered under `name`. What waits in a mailbox
    /// stays.
    pub open spec fn deregistered(self, name: Seq<char>) -> BusView {
        BusView {
            boxes: self.boxes.map_values(
                |mailbox: BoxView|
                    if mailbox.owner == name {
                        BoxView { open: false, ..mailbox }
                    } else {
                        mailbox
                    },
            ),
            ..self
        }
    }

    /// The state without the mailbox in `slot`, in which nobody is registered under the
    /// name of that mailbox.
    pub open spec fn discarded(self, slot: int) -> BusView {
        if self.boxes.dom().contains(slot) {
            let rest = self.deregistered(self.boxes[slot].owner);
            BusView { boxes: rest.boxes.remove(slot), ..rest }
        } else {
            self
        }
    }

    /// The state after the bus was shut down: nobody is registered.
    pub open spec fn stopped(self) -> BusView {
        BusView {
            running: false,
            boxes: self.boxes.map_values(|mailbox: BoxView| BoxView { open: false, ..mailbox }),
        }
    }

    /// The state with `message` behind the others in the mailbox in `slot`.
    pub open spec fn delivered(self, slot: int, message: BusMessage) -> BusView {
        let mailbox = self.boxes[slot];
        self.with_box(slot, BoxView { queue: mailbox.queue.push(message), ..mailbox })
    }

    /// The oldest message of the mailbox in `slot`.
    pub open spec fn oldest(self, slot: int) -> Option<BusMessage> {
        if self.boxes.dom().contains(slot) && self.boxes[slot].queue.len() > 0 {
            Some(self.boxes[slot].queue[0])
        } else {
            None
        }
    }

    /// The state without the oldest message of the mailbox in `slot`.
    pub open spec fn received(self, slot: int) -> BusView {
        if self.oldest(slot) is Some {
            let mailbox = self.boxes[slot];
            self.with_box(slot, BoxView { queue: mailbox.queue.drop_first(), ..mailbox })
        } else {
            self
        }
    }

    /// Whether a poll of the mailbox in `slot` finds `polled` and leads to `after`. A
    /// message is the oldest one; an empty mailbox waits as long as it is registered, and
    /// is closed from then on.
    pub open spec fn polls(self, slot: int, polled: Polled, after: BusView) -> bool {
        match polled {
            Polled::Message(message) => {
                &&& self.oldest(slot) == Some(message)
                &&& after == self.received(slot)
            },
            Polled::Waiting => {
                &&& self.oldest(slot) is None
                &&& self.boxes.dom().contains(slot) && self.boxes[slot].open
                &&& after == self
            },
            Polled::Closed => {
                &&& self.oldest(slot) is None
                &&& !(self.boxes.dom().contains(slot) && self.boxes[slot].open)
                &&& after == self
            },
        }
    }

    /// Whether registering under `name` leads to `after` with the result `registered`. A
    /// name in use is refused; any other gets a mailbox in a slot that has none.
    pub open spec fn registers(
        self,
        name: Seq<char>,
        registered: Result<Mailbox, BusError>,
        after: BusView,
    ) -> bool {
        match registered {
            Ok(mailbox) => {
                &&& self.running
                &&& !self.registered(name)
                &&& mailbox.own_name() == name
                &&& !self.boxes.dom().contains(mailbox.own_slot())
                &&& after == self.joined(mailbox.own_slot(), name)
            },
            Err(BusError::NameTaken(taken)) => {
                &&& self.running
                &&& self.registered(name)
                &&& taken@ == name
                &&& after == self
            },
            Err(BusError::Shutdown) => !self.running && after == self,
            Err(BusError::UnknownRecipient(_)) => false,
        }
    }

    /// Whether the mailbox registered under `name`, if there is one, can take a message.
    pub open spec fn has_room(self, name: Seq<char>) -> bool {
        forall|slot: int| #[trigger]
            self.holds(slot, name) ==> self.boxes[slot].queue.len() < QUEUE_LIMIT
    }

    /// Whether sending a message to `to` leads to `after` with the result `sent`. The
    /// one registered under `to` gets the message that `is_it` describes, with the
    /// identifier that the sender is given.
    pub open spec fn sends(
        self,
        to: Seq<char>,
        is_it: spec_fn(BusMessage) -> bool,
        sent: Result<Uuid, BusError>,
        after: BusView,
    ) -> bool {
        match sent {
            Ok(id) => exists|slot: int, message: BusMessage|
                {
                    &&& #[trigger] self.holds(slot, to)
                    &&& is_it(message)
                    &&& message.id == id
                    &&& after == #[trigger] self.delivered(slot, message)
                },
            Err(BusError::UnknownRecipient(name)) => {
                &&& self.running
                &&& !self.registered(to)
                &&& name@ == to
                &&& after == self
            },
            Err(BusError::Shutdown) => !self.running && after == self,
            Err(BusError::NameTaken(_)) => false,
        }
    }
}

/// Whether `message` goes from `from` to the one called `to`, with this kind and payload.
pub open spec fn is_message(
    message: BusMessage,
    from: Seq<char>,
    to: Seq<char>,
    kind: Seq<char>,
    payload: Value,
) -> bool {
    &&& message.from@ == from
    &&& message.to.is_named(to)
    &&& message.kind@ == kind
    &&& message.payload == payload
}

struct Slot {
    owner: String,
    channel: Channel,
}

/// Message router.
pub struct Bus {
    running: bool,
    slots: Vec<Option<Slot>>,
}

impl View for Bus {
    type V = BusView;

    closed spec fn view(&self) -> BusView {
        BusView {
            running: self.running,
            boxes: Map::new(
                |slot: int| 0 <= slot < self.slots@.len() && self.slots@[slot] is Some,
                |slot: int|
                    BoxView {
                        owner: self.slots@[slot]->0.owner@,
                        open: self.slots@[slot]->0.channel@.open,
                        queue: self.slots@[slot]->0.channel@.queue,
                    },
            ),
        }
    }
}

/// Per-agent handle for sending and receiving messages.
#[derive(Debug)]
pub struct Mailbox {
    name: String,
    slot: usize,
}

impl Bus {
    /// The mailboxes' queues are in order, and the state is consistent.
    pub closed spec fn wf(self) -> bool {
        &&& forall|slot: int|
            0 <= slot < self.slots@.len() && (#[trigger] self.slots@[slot]) is Some
                ==> self.slots@[slot]->0.channel.wf()
        &&& self@.consistent()
    }

    /// A running bus on which nobody is registered.
    pub fn new() -> (bus: Bus)
        ensures
            bus.wf(),
            bus@ == BusView::initial(),
    {
        let bus = Bus { running: true, slots: Vec::new() };
        proof {
            assert(bus@.boxes =~= Map::<int, BoxView>::empty());
        }
        bus
    }

    /// The slot of the mailbox registered under `name`.
    fn find(&self, name: &String) -> (found: Option<usize>)
        requires
            self.wf(),
        ensures
            match found {
                Some(slot) => slot < self.slots@.len() && self@.holds(slot as int, name@),
                None => !self@.registered(name@),
            },
    {
        let mut slot: usize = 0;
        while slot < self.slots.len()
            invariant
                slot <= self.slots@.len(),
                forall|i: int| 0 <= i < slot ==> !self@.holds(i, name@),
            decreases self.slots@.len() - slot,
        {
            if let Some(held) = &self.slots[slot] {
                if held.channel.is_open() && held.owner == *name {
                    return Some(slot);
                }
            }
            slot = slot + 1;
        }
        None
    }

    /// A slot without a mailbox, which may be the one after the last.
    fn free_slot(&self) -> (slot: usize)
        ensures
            slot <= self.slots@.len(),
            !self@.boxes.dom().contains(slot as int),
    {
        let mut slot: usize = 0;
        while slot < self.slots.len()
            invariant
                slot <= self.slots@.len(),
            decreases self.slots@.len() - slot,
        {
            if self.slots[slot].is_none() {
                return slot;
            }
            slot = slot + 1;
        }
        slot
    }

    /// Register an agent by name, returning its Mailbox.
    pub fn register(&mut self, name: &str) -> (registered: Result<Mailbox, BusError>)
        requires
            old(self).wf(),
        ensures
            final(self).wf(),
            old(self)@.registers(name@, registered, final(self)@),
    {
        if !self.running {
            return Err(BusError::Shutdown);
        }
        let owner = name.to_owned();
        if self.find(&owner).is_some() {
            return Err(BusError::NameTaken(owner));
        }
        let ghost before = *self;
        let slot = self.free_slot();
        let held = Some(Slot { owner: name.to_owned(), channel: Channel::new() });
        if slot < self.slots.len() {
            self.slots[slot] = held;
        } else {
            self.slots.push(held);
        }
        proof {
            let after = before@.joined(slot as int, name@);
            assert(self@.boxes =~= after.boxes);
            assert forall|a: int, b: int, other: Seq<char>|
                #![trigger self@.holds(a, other), self@.holds(b, other)]
                self@.holds(a, other) && self@.holds(b, other) implies a == b by {
                if a != slot && b != slot {
                    assert(before@.holds(a, other) && before@.holds(b, other));
                } else if a != slot {
                    assert(before@.holds(a, other));
                } else if b != slot {
                    assert(before@.holds(b, other));
                }
            }
        }
        Ok(Mailbox { name: owner, slot })
    }

    /// Deregister an agent by name, closing its receive channel.
    pub fn deregister(&mut self, name: &str)
        requires
            old(self).wf(),
        ensures
            final(self).wf(),
            final(self)@ == old(self)@.deregistered(name@),
    {
        let ghost before = *self;
        if let Some(slot) = self.find(&name.to_owned()) {
            if let Some(held) = &mut self.slots[slot] {
                held.channel.close();
            }
            proof {
                let after = before@.deregistered(name@);
                assert forall|i: int| self@.boxes.dom().contains(i) implies self@.boxes[i]
                    == after.boxes[i] by {
                    if i != slot && before@.boxes[i].owner == name@ {
                        assert(!before@.holds(i, name@));
                    }
                }
                assert(self@.boxes =~= after.boxes);
                lemma_still_consistent(before@, self@);
            }
        } else {
            proof {
                let after = before@.deregistered(name@);
                assert forall|i: int| self@.boxes.dom().contains(i) implies self@.boxes[i]
                    == after.boxes[i] by {
                    assert(!before@.holds(i, name@));
                }
                assert(self@.boxes =~= after.boxes);
            }
        }
    }

    /// The names of all registered agents.
    pub fn list_registered(&self) -> (names: Vec<String>)
        requires
            self.wf(),
        ensures
            forall|i: int| 0 <= i < names@.len() ==> self@.registered((#[trigger] names@[i])@),
            forall|i: int, j: int|
                0 <= i < j < names@.len() ==> (#[trigger] names@[i])@ != (#[trigger] names@[j])@,
            forall|name: Seq<char>| #[trigger]
                self@.registered(name) ==> exists|i: int|
                    0 <= i < names@.len() && (#[trigger] names@[i])@ == name,
    {
        let mut names: Vec<String> = Vec::new();
        let mut slot: usize = 0;
        let ghost mut at: Seq<int> = Seq::empty();
        while slot < self.slots.len()
            invariant
                self.wf(),
                slot <= self.slots@.len(),
                at.len() == names@.len(),
                forall|i: int|
                    0 <= i < names@.len() ==> 0 <= #[trigger] at[i] < slot && self@.holds(
                        at[i],
                        names@[i]@,
                    ),
                forall|i: int, j: int| 0 <= i < j < at.len() ==> #[trigger] at[i] < #[trigger] at[j],
                forall|k: int, name: Seq<char>|
                    0 <= k < slot && #[trigger] self@.holds(k, name) ==> exists|i: int|
                        0 <= i < names@.len() && (#[trigger] names@[i])@ == name,
            decreases self.slots@.len() - slot,
        {
            let ghost before = names@;
            let mut listed = false;
            if let Some(held) = &self.slots[slot] {
                if held.channel.is_open() {
                    names.push(held.owner.clone());
                    listed = true;
                    proof {
                        at = at.push(slot as int);
                        assert(self@.holds(slot as int, held.owner@));
                    }
                }
            }
            proof {
                assert forall|k: int, name: Seq<char>|
                    0 <= k < slot + 1 && #[trigger] self@.holds(k, name) implies exists|i: int|
                    0 <= i < names@.len() && (#[trigger] names@[i])@ == name by {
                    if k < slot {
                        let i = choose|i: int| 0 <= i < before.len() && (#[trigger] before[i])@ == name;
                        assert(names@[i]@ == name);
                    } else {
                        assert(listed);
                        assert(names@[before.len() as int]@ == name);
                    }
                }
            }
            slot = slot + 1;
        }
        proof {
            assert forall|i: int, j: int| 0 <= i < j < names@.len() implies (#[trigger] names@[i])@
                != (#[trigger] names@[j])@ by {
                assert(at[i] < at[j]);
                assert(self@.holds(at[i], names@[i]@) && self@.holds(at[j], names@[j]@));
            }
            assert forall|i: int| 0 <= i < names@.len() implies self@.registered(
                (#[trigger] names@[i])@,
            ) by {
                assert(self@.holds(at[i], names@[i]@));
            }
        }
        names
    }

    /// Shuts the bus down, closing every receive channel. It is what becomes of a bus that
    /// is dropped while mailboxes are left.
    pub fn shutdown(&mut self)
        requires
            old(self).wf(),
        ensures
            final(self).wf(),
            final(self)@ == old(self)@.stopped(),
    {
        let ghost before = *self;
        let mut slot: usize = 0;
        while slot < self.slots.len()
            invariant
                slot <= self.slots@.len(),
                self.slots@.len() == before.slots@.len(),
                self.running == before.running,
                forall|i: int|
                    0 <= i < self.slots@.len() ==> {
                        &&& (#[trigger] self.slots@[i]) is Some <==> before.slots@[i] is Some
                        &&& self.slots@[i] is Some ==> {
                            &&& self.slots@[i]->0.channel.wf()
                            &&& self.slots@[i]->0.owner == before.slots@[i]->0.owner
                            &&& self.slots@[i]->0.channel@.queue
                                == before.slots@[i]->0.channel@.queue
                            &&& i < slot ==> !self.slots@[i]->0.channel@.open
                        }
                    },
            decreases self.slots@.len() - slot,
        {
            if let Some(held) = &mut self.slots[slot] {
                held.channel.close();
            }
            slot = slot + 1;
        }
        self.running = false;
        proof {
            assert(self@.boxes =~= before@.stopped().boxes);
        }
    }

    /// Whether the mailbox registered under `name`, if there is one, can take a message.
    pub fn has_room(&self, name: &str) -> (room: bool)
        requires
            self.wf(),
        ensures
            room == self@.has_room(name@),
    {
        match self.find(&name.to_owned()) {
            Some(slot) => match &self.slots[slot] {
                Some(held) => {
                    let room = held.channel.len() < QUEUE_LIMIT;
                    assert(self@.holds(slot as int, name@));
                    room
                },
                None => true,
            },
            None => true,
        }
    }

    /// Puts a message into the mailbox registered under `to`.
    pub fn route(&mut self, id: Uuid, from: &str, to: &str, kind: &str, payload: Value) -> (sent:
        Result<Uuid, BusError>)
        requires
            old(self).wf(),
            old(self)@.has_room(to@),
        ensures
            final(self).wf(),
            old(self)@.sends(
                to@,
                |message: BusMessage|
                    message.id == id && is_message(message, from@, to@, kind@, payload),
                sent,
                final(self)@,
            ),
    {
        if !self.running {
            return Err(BusError::Shutdown);
        }
        let ghost before = *self;
        let recipient = to.to_owned();
        let message = BusMessage {
            id,
            from: from.to_owned(),
            to: Target::Named(to.to_owned()),
            kind: kind.to_owned(),
            payload,
        };
        match self.find(&recipient) {
            Some(slot) => {
                let mut accepted = false;
                assert(before@.holds(slot as int, to@));
                if let Some(held) = &mut self.slots[slot] {
                    accepted = held.channel.send(message);
                }
                if !accepted {
                    return Err(BusError::Shutdown);
                }
                proof {
                    let after = before@.delivered(slot as int, message);
                    assert(self@.boxes =~= after.boxes);
                    lemma_still_consistent(before@, self@);
                    assert(before@.holds(slot as int, to@) && self@ == before@.delivered(
                        slot as int,
                        message,
                    ));
                }
                Ok(id)
            },
            None => Err(BusError::UnknownRecipient(recipient)),
        }
    }

    /// Takes the oldest message out of the mailbox in `slot`.
    fn take_from(&mut self, slot: usize) -> (taken: Option<BusMessage>)
        requires
            old(self).wf(),
        ensures
            final(self).wf(),
            taken == old(self)@.oldest(slot as int),
            final(self)@ == old(self)@.received(slot as int),
    {
        let ghost before = *self;
        let mut taken: Option<BusMessage> = None;
        if slot < self.slots.len() {
            if let Some(held) = &mut self.slots[slot] {
                taken = held.channel.try_recv();
            }
        }
        proof {
            assert(self@.boxes =~= before@.received(slot as int).boxes);
            lemma_still_consistent(before@, self@);
        }
        taken
    }

    /// Polls the mailbox in `slot` for its oldest message.
    fn poll_from(&mut self, slot: usize, task: &mut Context<'_>) -> (polled: Polled)
        requires
            old(self).wf(),
        ensures
            final(self).wf(),
            old(self)@.polls(slot as int, polled, final(self)@),
    {
        let ghost before = *self;
        let mut polled = Polled::Closed;
        if slot < self.slots.len() {
            if let Some(held) = &mut self.slots[slot] {
                polled = held.channel.poll_recv(task);
            }
        }
        proof {
            let after = if polled is Message {
                before@.received(slot as int)
            } else {
                before@
            };
            assert(self@.boxes =~= after.boxes);
            lemma_still_consistent(before@, self@);
        }
        polled
    }

    /// Removes the mailbox in `slot`, and whoever is registered under its name.
    fn discard(&mut self, slot: usize)
        requires
            old(self).wf(),
        ensures
            final(self).wf(),
            final(self)@ == old(self)@.discarded(slot as int),
    {
        if slot < self.slots.len() {
            let mut owner: Option<String> = None;
            if let Some(held) = &self.slots[slot] {
                owner = Some(held.owner.clone());
            }
            if let Some(owner) = owner {
                self.deregister(owner.as_str());
                let ghost between = *self;
                assert(old(self)@.boxes.dom().contains(slot as int));
                assert(between@.boxes.dom().contains(slot as int));
                self.slots[slot] = None;
                proof {
                    assert(self@.boxes =~= between@.boxes.remove(slot as int));
                    lemma_still_consistent(between@, self@);
                }
            }
        }
    }
}

/// A consistent state stays so as long as no mailbox is registered that was not, or under
/// another name.
proof fn lemma_still_consistent(before: BusView, after: BusView)
    requires
        before.consistent(),
        after.running == before.running,
        forall|slot: int, name: Seq<char>| #[trigger]
            after.holds(slot, name) ==> before.holds(slot, name),
    ensures
        after.consistent(),
{
    assert forall|a: int, b: int, name: Seq<char>|
        #![trigger after.holds(a, name), after.holds(b, name)]
        after.holds(a, name) && after.holds(b, name) implies a == b by {
        assert(before.holds(a, name) && before.holds(b, name));
    }
}

impl Mailbox {
    /// The name under which the mailbox was registered.
    pub closed spec fn own_name(self) -> Seq<char> {
        self.name@
    }

    /// The slot of the mailbox on its bus.
    pub closed spec fn own_slot(self) -> int {
        self.slot as int
    }

    /// Send a message to a named recipient.
    pub fn send(&self, bus: &mut Bus, to: &str, kind: &str, payload: Value) -> (sent: Result<
        Uuid,
        BusError,
    >)
        requires
            old(bus).wf(),
            old(bus)@.has_room(to@),
        ensures
            final(bus).wf(),
            old(bus)@.sends(
                to@,
                |message: BusMessage| is_message(message, self.own_name(), to@, kind@, payload),
                sent,
                final(bus)@,
            ),
            sent matches Ok(id) ==> version(id) == 4,
    {
        bus.route(fresh_id(), self.name.as_str(), to, kind, payload)
    }

    /// Try to receive a message without blocking.
    pub fn try_recv(&self, bus: &mut Bus) -> (received: Option<BusMessage>)
        requires
            old(bus).wf(),
        ensures
            final(bus).wf(),
            received == old(bus)@.oldest(self.own_slot()),
            final(bus)@ == old(bus)@.received(self.own_slot()),
    {
        bus.take_from(self.slot)
    }

    /// One attempt at receiving the next message, on behalf of `task`. A mailbox waits while
    /// it is empty and registered, and is closed once it is empty and no longer registered.
    /// That `task` is woken when another attempt is worth it is left to the channel and the
    /// runtime: the contract does not state it.
    pub fn poll_recv(&self, bus: &mut Bus, task: &mut Context<'_>) -> (polled: Polled)
        requires
            old(bus).wf(),
        ensures
            final(bus).wf(),
            old(bus)@.polls(self.own_slot(), polled, final(bus)@),
    {
        bus.poll_from(self.slot, task)
    }

    /// Gives the mailbox up: it is removed with what waits in it, and its name is free
    /// again, whoever holds it.
    pub fn close(self, bus: &mut Bus)
        requires
            old(bus).wf(),
        ensures
            final(bus).wf(),
            final(bus)@ == old(bus)@.discarded(self.own_slot()),
    {
        bus.discard(self.slot)
    }

    /// This mailbox's registered name.
    pub fn name(&self) -> (name: &str)
        ensures
            name@ == self.own_name(),
    {
        self.name.as_str()
    }
}

impl Default for Bus {
    fn default() -> (bus: Bus)
        ensures
            bus.wf(),
            bus@ == BusView::initial(),
    {
        Bus::new()
    }
}

/// On a bus no name is registered twice, and on one that is shut down none is.
pub proof fn law_no_name_twice(bus: Bus)
    requires
        bus.wf(),
    ensures
        bus@.consistent(),
{
}

/// A name in use is refused, with that name, and the bus stays as it was.
pub proof fn law_duplicate_name_is_refused(
    bus: BusView,
    name: Seq<char>,
    registered: Result<Mailbox, BusError>,
    after: BusView,
)
    requires
        bus.running,
        bus.registered(name),
        bus.registers(name, registered, after),
    ensures
        registered matches Err(BusError::NameTaken(taken)) && taken@ == name,
        after == bus,
{
}

/// A name that is not in use is given, and from then on it is in use and reaches the new
/// mailbox, which is empty.
pub proof fn law_free_name_is_given(
    bus: BusView,
    name: Seq<char>,
    registered: Result<Mailbox, BusError>,
    after: BusView,
)
    requires
        bus.running,
        !bus.registered(name),
        bus.registers(name, registered, after),
    ensures
        registered matches Ok(mailbox) && mailbox.own_name() == name && after.holds(
            mailbox.own_slot(),
            name,
        ) && after.oldest(mailbox.own_slot()) is None,
        after.registered(name),
        forall|slot: int| #[trigger]
            bus.boxes.dom().contains(slot) ==> after.boxes.dom().contains(slot)
                && after.boxes[slot] == bus.boxes[slot],
{
    assert(after.holds(registered->Ok_0.own_slot(), name));
}

/// A message to a name that nobody is registered under is refused, with that name, and the
/// bus stays as it was.
pub proof fn law_unknown_recipient_is_refused(
    bus: BusView,
    to: Seq<char>,
    is_it: spec_fn(BusMessage) -> bool,
    sent: Result<Uuid, BusError>,
    after: BusView,
)
    requires
        bus.running,
        !bus.registered(to),
        bus.sends(to, is_it, sent, after),
    ensures
        sent matches Err(BusError::UnknownRecipient(name)) && name@ == to,
        after == bus,
{
}

/// Deregistering frees the name, changes nothing for other names, and leaves what waits
/// in the mailboxes.
pub proof fn law_deregistered_name_is_free(bus: BusView, name: Seq<char>, other: Seq<char>)
    ensures
        !bus.deregistered(name).registered(name),
        other != name ==> bus.deregistered(name).registered(other) == bus.registered(other),
        forall|slot: int| #[trigger] bus.deregistered(name).oldest(slot) == bus.oldest(slot),
{
    let after = bus.deregistered(name);
    if other != name && bus.registered(other) {
        let slot = choose|slot: int| bus.holds(slot, other);
        assert(after.holds(slot, other));
    }
    if other != name && after.registered(other) {
        let slot = choose|slot: int| after.holds(slot, other);
        assert(bus.holds(slot, other));
    }
}

/// Giving a mailbox up frees its name and changes nothing for other names.
pub proof fn law_closed_mailbox_frees_its_name(bus: BusView, slot: int, other: Seq<char>)
    requires
        bus.boxes.dom().contains(slot),
    ensures
        !bus.discarded(slot).boxes.dom().contains(slot),
        !bus.discarded(slot).registered(bus.boxes[slot].owner),
        other != bus.boxes[slot].owner ==> bus.discarded(slot).registered(other) == bus.registered(
            other,
        ),
{
    let name = bus.boxes[slot].owner;
    let between = bus.deregistered(name);
    let after = bus.discarded(slot);
    law_deregistered_name_is_free(bus, name, other);
    if after.registered(name) {
        let held = choose|held: int| after.holds(held, name);
        assert(between.holds(held, name));
    }
    if other != name && bus.registered(other) {
        let held = choose|held: int| bus.holds(held, other);
        assert(after.holds(held, other));
    }
    if after.registered(other) {
        let held = choose|held: int| after.holds(held, other);
        assert(between.holds(held, other));
    }
}

/// Something that is done with a bus or one of its mailboxes, with its result.
pub enum Operation {
    Register { name: Seq<char>, registered: Result<Mailbox, BusError> },
    Deregister { name: Seq<char> },
    Shutdown,
    Send { to: Seq<char>, message: BusMessage, sent: Result<Uuid, BusError> },
    TryRecv { slot: int, received: Option<BusMessage> },
    Poll { slot: int, polled: Polled },
    Close { slot: int },
}

impl BusView {
    /// Whether `operation` leads to `after`.
    pub open spec fn operates(self, operation: Operation, after: BusView) -> bool {
        match operation {
            Operation::Register { name, registered } => self.registers(name, registered, after),
            Operation::Deregister { name } => after == self.deregistered(name),
            Operation::Shutdown => after == self.stopped(),
            Operation::Send { to, message, sent } => self.sends(
                to,
                |delivered: BusMessage| delivered == message,
                sent,
                after,
            ),
            Operation::TryRecv { slot, received } => received == self.oldest(slot) && after
                == self.received(slot),
            Operation::Poll { slot, polled } => self.polls(slot, polled, after),
            Operation::Close { slot } => after == self.discarded(slot),
        }
    }

    /// Whether operations lead from one of these states to the next, none of which gives
    /// the mailbox in `slot` up.
    pub open spec fn runs(self, slot: int, run: Seq<(Operation, BusView)>) -> bool
        decreases run.len(),
    {
        run.len() > 0 ==> {
            &&& self.operates(run[0].0, run[0].1)
            &&& run[0].0 != Operation::Close { slot }
            &&& run[0].1.runs(slot, run.drop_first())
        }
    }

    /// The state at the end of `run`.
    pub open spec fn end_of(self, run: Seq<(Operation, BusView)>) -> BusView {
        if run.len() == 0 {
            self
        } else {
            run.last().1
        }
    }

    /// The message, if there is one, that `operation` sends to the name of the mailbox in
    /// `slot` while that mailbox holds it.
    pub open spec fn sent_by(self, slot: int, operation: Operation) -> Seq<BusMessage> {
        match operation {
            Operation::Send { to, message, .. } => if self.holds(slot, to) {
                seq![message]
            } else {
                Seq::empty()
            },
            _ => Seq::empty(),
        }
    }

    /// The messages that were sent in `run` to the name of the mailbox in `slot` while that
    /// mailbox held it, in the order in which they were sent.
    pub open spec fn sent_to(self, slot: int, run: Seq<(Operation, BusView)>) -> Seq<BusMessage>
        decreases run.len(),
    {
        if run.len() == 0 {
            Seq::empty()
        } else {
            self.sent_by(slot, run[0].0) + run[0].1.sent_to(slot, run.drop_first())
        }
    }

    /// Whether the mailbox in `slot` is one that was registered under `name`.
    pub open spec fn belongs(self, slot: int, name: Seq<char>) -> bool {
        self.boxes.dom().contains(slot) && self.boxes[slot].owner == name
    }
}

/// A mailbox keeps its place and its name, whatever is done but giving it up.
pub proof fn law_mailbox_keeps_its_place(
    bus: BusView,
    slot: int,
    name: Seq<char>,
    operation: Operation,
    after: BusView,
)
    requires
        bus.belongs(slot, name),
        bus.operates(operation, after),
        operation != (Operation::Close { slot }),
    ensures
        after.belongs(slot, name),
{
}

/// From its registration until it is given up, a mailbox has its place and its name, and
/// giving it up then frees that name, whatever was done in between.
pub proof fn law_mailbox_is_its_own(
    bus: BusView,
    name: Seq<char>,
    mailbox: Mailbox,
    registered: BusView,
    run: Seq<(Operation, BusView)>,
)
    requires
        bus.registers(name, Ok(mailbox), registered),
        registered.runs(mailbox.own_slot(), run),
    ensures
        registered.end_of(run).belongs(mailbox.own_slot(), mailbox.own_name()),
        !registered.end_of(run).discarded(mailbox.own_slot()).registered(mailbox.own_name()),
{
    let slot = mailbox.own_slot();
    lemma_place_is_kept(registered, slot, name, run);
    law_closed_mailbox_frees_its_name(registered.end_of(run), slot, name);
}

proof fn lemma_place_is_kept(
    bus: BusView,
    slot: int,
    name: Seq<char>,
    run: Seq<(Operation, BusView)>,
)
    requires
        bus.belongs(slot, name),
        bus.runs(slot, run),
    ensures
        bus.end_of(run).belongs(slot, name),
    decreases run.len(),
{
    if run.len() > 0 {
        law_mailbox_keeps_its_place(bus, slot, name, run[0].0, run[0].1);
        lemma_place_is_kept(run[0].1, slot, name, run.drop_first());
    }
}

/// Receiving ends: once its name is deregistered or the bus is shut down, a mailbox hands
/// out what still waits in it, and when it is empty it is closed. It never waits again.
pub proof fn law_receiving_ends(bus: BusView, slot: int, polled: Polled, after: BusView)
    requires
        bus.boxes.dom().contains(slot),
        ({
            ||| bus.deregistered(bus.boxes[slot].owner).polls(slot, polled, after)
            ||| bus.stopped().polls(slot, polled, after)
        }),
    ensures
        match bus.oldest(slot) {
            Some(message) => polled == Polled::Message(message),
            None => polled is Closed,
        },
{
}

/// Giving a mailbox up that was just registered leaves the bus as it was.
pub proof fn law_close_undoes_register(bus: BusView, slot: int, name: Seq<char>)
    requires
        !bus.boxes.dom().contains(slot),
        !bus.registered(name),
    ensures
        bus.joined(slot, name).discarded(slot) == bus,
{
    let after = bus.joined(slot, name).discarded(slot);
    assert forall|held: int| after.boxes.dom().contains(held) implies after.boxes[held]
        == bus.boxes[held] by {
        assert(!bus.holds(held, name));
    }
    assert(after.boxes =~= bus.boxes);
}

/// A message to a name that is registered is accepted, and waits behind the others in
/// the mailbox of that name and in no other.
pub proof fn law_registered_name_is_reached(
    bus: BusView,
    slot: int,
    to: Seq<char>,
    is_it: spec_fn(BusMessage) -> bool,
    sent: Result<Uuid, BusError>,
    after: BusView,
)
    requires
        bus.consistent(),
        bus.holds(slot, to),
        bus.sends(to, is_it, sent, after),
    ensures
        sent is Ok,
        after.boxes.dom() == bus.boxes.dom(),
        after.boxes[slot].queue.len() == bus.boxes[slot].queue.len() + 1,
        after.boxes[slot].queue.drop_last() == bus.boxes[slot].queue,
        is_it(after.boxes[slot].queue.last()),
        after.boxes[slot].queue.last().id == sent->Ok_0,
        forall|other: int| other != slot ==> #[trigger] after.boxes[other] == bus.boxes[other],
{
    assert(bus.registered(to));
    let (held, message) = choose|held: int, message: BusMessage|
        {
            &&& #[trigger] bus.holds(held, to)
            &&& is_it(message)
            &&& message.id == sent->Ok_0
            &&& after == #[trigger] bus.delivered(held, message)
        };
    assert(held == slot);
    assert(after.boxes.dom() =~= bus.boxes.dom());
    assert(after.boxes[slot].queue.drop_last() =~= bus.boxes[slot].queue);
}

impl BusView {
    /// What receiving `count` times from the mailbox in `slot` gives.
    pub open spec fn receiving(self, slot: int, count: nat) -> Seq<Option<BusMessage>>
        decreases count,
    {
        if count == 0 {
            Seq::empty()
        } else {
            seq![self.oldest(slot)] + self.received(slot).receiving(slot, (count - 1) as nat)
        }
    }
}

/// Receiving hands out what waits in a mailbox, oldest first, and then nothing.
proof fn lemma_receiving(bus: BusView, slot: int, count: nat)
    requires
        bus.boxes.dom().contains(slot),
    ensures
        bus.receiving(slot, count) == Seq::new(
            count,
            |i: int|
                if i < bus.boxes[slot].queue.len() {
                    Some(bus.boxes[slot].queue[i])
                } else {
                    None
                },
        ),
    decreases count,
{
    let queue = bus.boxes[slot].queue;
    let expected = Seq::new(
        count,
        |i: int|
            if i < queue.len() {
                Some(queue[i])
            } else {
                None
            },
    );
    if count > 0 {
        lemma_receiving(bus.received(slot), slot, (count - 1) as nat);
    }
    assert(bus.receiving(slot, count) =~= expected);
}

/// Receiving hands out all that waits in a mailbox, oldest first; then nothing comes.
pub proof fn law_receiving_drains(bus: BusView, slot: int)
    requires
        bus.boxes.dom().contains(slot),
    ensures
        ({
            let waiting = bus.boxes[slot].queue;
            bus.receiving(slot, waiting.len() + 1) == waiting.map_values(
                |message: BusMessage| Some(message),
            ).push(None)
        }),
{
    let waiting = bus.boxes[slot].queue;
    lemma_receiving(bus, slot, waiting.len() + 1);
    assert(bus.receiving(slot, waiting.len() + 1) =~= waiting.map_values(
        |message: BusMessage| Some(message),
    ).push(None));
}

/// The message, if there is one, that `operation` receives from the mailbox in `slot`.
pub open spec fn received_by(slot: int, operation: Operation) -> Seq<BusMessage> {
    match operation {
        Operation::TryRecv { slot: own, received: Some(message) } => if own == slot {
            seq![message]
        } else {
            Seq::empty()
        },
        Operation::Poll { slot: own, polled: Polled::Message(message) } => if own == slot {
            seq![message]
        } else {
            Seq::empty()
        },
        _ => Seq::empty(),
    }
}

/// The messages that were received in `run` from the mailbox in `slot`, in the order in
/// which they came.
pub open spec fn received_from(slot: int, run: Seq<(Operation, BusView)>) -> Seq<BusMessage>
    decreases run.len(),
{
    if run.len() == 0 {
        Seq::empty()
    } else {
        received_by(slot, run[0].0) + received_from(slot, run.drop_first())
    }
}

/// What a send does is to send one message, which is as described and bears the identifier
/// that the sender is given.
pub proof fn law_one_message_is_sent(
    bus: BusView,
    to: Seq<char>,
    is_it: spec_fn(BusMessage) -> bool,
    sent: Result<Uuid, BusError>,
    after: BusView,
)
    requires
        bus.sends(to, is_it, sent, after),
    ensures
        exists|message: BusMessage| #[trigger]
            bus.operates(Operation::Send { to, message, sent }, after) && (sent matches Ok(id)
                ==> is_it(message) && message.id == id),
{
    if let Ok(id) = sent {
        let (slot, message) = choose|slot: int, message: BusMessage|
            {
                &&& #[trigger] bus.holds(slot, to)
                &&& is_it(message)
                &&& message.id == id
                &&& after == #[trigger] bus.delivered(slot, message)
            };
        assert(bus.operates(Operation::Send { to, message, sent }, after));
    } else {
        let any: BusMessage = arbitrary();
        assert(bus.operates(Operation::Send { to, message: any, sent }, after));
    }
}

/// Whatever is done, no name is registered twice, and on a bus that is shut down none is.
pub proof fn law_operations_keep_names_apart(bus: BusView, operation: Operation, after: BusView)
    requires
        bus.consistent(),
        bus.operates(operation, after),
    ensures
        after.consistent(),
{
    match operation {
        Operation::Register { name, registered: Ok(mailbox) } => {
            let slot = mailbox.own_slot();
            assert forall|a: int, other: Seq<char>| a != slot && #[trigger] after.holds(
                a,
                other,
            ) implies bus.holds(a, other) && other != name by {}
        },
        Operation::Shutdown => {},
        Operation::Send { to, message, sent: Ok(id) } => {
            let (slot, delivered) = choose|slot: int, delivered: BusMessage|
                {
                    &&& #[trigger] bus.holds(slot, to)
                    &&& delivered == message
                    &&& delivered.id == id
                    &&& after == #[trigger] bus.delivered(slot, delivered)
                };
            lemma_still_consistent(bus, after);
        },
        _ => {
            lemma_still_consistent(bus, after);
        },
    }
}

/// What waits in a mailbox and what an operation sends to it come to what the operation
/// receives from it and what waits then.
proof fn lemma_nothing_is_lost(bus: BusView, slot: int, operation: Operation, after: BusView)
    requires
        bus.consistent(),
        bus.boxes.dom().contains(slot),
        bus.operates(operation, after),
        operation != (Operation::Close { slot }),
    ensures
        after.boxes.dom().contains(slot),
        bus.boxes[slot].queue + bus.sent_by(slot, operation) == received_by(slot, operation)
            + after.boxes[slot].queue,
{
    let before = bus.boxes[slot].queue;
    let now = after.boxes[slot].queue;
    if let Operation::Send { to, message, sent } = operation {
        if bus.holds(slot, to) {
            assert(bus.registered(to));
            assert(now =~= before.push(message));
        } else {
            assert(now == before);
        }
    }
    assert(before + bus.sent_by(slot, operation) =~= received_by(slot, operation) + now);
}

proof fn lemma_nothing_is_lost_in_a_run(bus: BusView, slot: int, run: Seq<(Operation, BusView)>)
    requires
        bus.consistent(),
        bus.boxes.dom().contains(slot),
        bus.runs(slot, run),
    ensures
        bus.end_of(run).boxes.dom().contains(slot),
        bus.boxes[slot].queue + bus.sent_to(slot, run) == received_from(slot, run) + bus.end_of(
            run,
        ).boxes[slot].queue,
    decreases run.len(),
{
    let before = bus.boxes[slot].queue;
    if run.len() == 0 {
        assert(before + bus.sent_to(slot, run) =~= received_from(slot, run) + before);
    } else {
        let operation = run[0].0;
        let next = run[0].1;
        let rest = run.drop_first();
        law_operations_keep_names_apart(bus, operation, next);
        lemma_nothing_is_lost(bus, slot, operation, next);
        lemma_nothing_is_lost_in_a_run(next, slot, rest);
        assert(bus.end_of(run) == next.end_of(rest));
        assert(before + bus.sent_to(slot, run) =~= (before + bus.sent_by(slot, operation))
            + next.sent_to(slot, rest));
        assert((received_by(slot, operation) + next.boxes[slot].queue) + next.sent_to(slot, rest)
            =~= received_by(slot, operation) + (next.boxes[slot].queue + next.sent_to(slot, rest)));
        assert(received_by(slot, operation) + (received_from(slot, rest) + next.end_of(
            rest,
        ).boxes[slot].queue) =~= received_from(slot, run) + bus.end_of(run).boxes[slot].queue);
    }
}

/// From a mailbox's registration on, whatever is done and in whatever order, the messages
/// sent to its name while it holds it are those received from it, followed by those that
/// wait in it: none is lost, none is added, and none overtakes another.
pub proof fn law_messages_arrive_in_order(
    bus: BusView,
    name: Seq<char>,
    mailbox: Mailbox,
    registered: BusView,
    run: Seq<(Operation, BusView)>,
)
    requires
        bus.consistent(),
        bus.registers(name, Ok(mailbox), registered),
        registered.runs(mailbox.own_slot(), run),
    ensures
        ({
            let slot = mailbox.own_slot();
            registered.sent_to(slot, run) == received_from(slot, run) + registered.end_of(
                run,
            ).boxes[slot].queue
        }),
{
    let slot = mailbox.own_slot();
    law_operations_keep_names_apart(
        bus,
        Operation::Register { name, registered: Ok(mailbox) },
        registered,
    );
    lemma_nothing_is_lost_in_a_run(registered, slot, run);
    assert(registered.boxes[slot].queue + registered.sent_to(slot, run) =~= registered.sent_to(
        slot,
        run,
    ));
}

/// What waits in a mailbox can still be received after its name was deregistered or the
/// bus was shut down.
pub proof fn law_closing_keeps_what_waits(bus: BusView, slot: int, name: Seq<char>, count: nat)
    requires
        bus.boxes.dom().contains(slot),
    ensures
        bus.deregistered(name).receiving(slot, count) == bus.receiving(slot, count),
        bus.stopped().receiving(slot, count) == bus.receiving(slot, count),
{
    lemma_receiving(bus, slot, count);
    lemma_receiving(bus.deregistered(name), slot, count);
    lemma_receiving(bus.stopped(), slot, count);
}

/// Receiving from one mailbox changes no other, and nobody's registration.
pub proof fn law_receiving_is_private(bus: BusView, slot: int, other: int, name: Seq<char>)
    ensures
        other != slot ==> bus.received(slot).oldest(other) == bus.oldest(other),
        bus.received(slot).holds(other, name) == bus.holds(other, name),
{
}

/// On a bus that was shut down nobody is registered, and every message and every
/// registration is refused as such.
pub proof fn law_shutdown_is_final(
    bus: BusView,
    name: Seq<char>,
    is_it: spec_fn(BusMessage) -> bool,
    sent: Result<Uuid, BusError>,
    after_sending: BusView,
    registered: Result<Mailbox, BusError>,
    after_registering: BusView,
)
    requires
        bus.stopped().sends(name, is_it, sent, after_sending),
        bus.stopped().registers(name, registered, after_registering),
    ensures
        !bus.stopped().registered(name),
        sent matches Err(BusError::Shutdown),
        after_sending == bus.stopped(),
        registered matches Err(BusError::Shutdown),
        after_registering == bus.stopped(),
{
}

/// What waits after a send. It is in the one mailbox that is registered under the name that
/// was given, behind what waited there already, and it has, field by field, the identifier
/// that the sender was given, the name of the sending mailbox, and the recipient, kind and
/// payload as they were given. Nothing else on the bus changes.
pub proof fn law_what_sending_does(
    bus: BusView,
    mailbox: Mailbox,
    to: Seq<char>,
    kind: Seq<char>,
    payload: Value,
    id: Uuid,
    after: BusView,
)
    requires
        bus.sends(
            to,
            |message: BusMessage| is_message(message, mailbox.own_name(), to, kind, payload),
            Ok(id),
            after,
        ),
    ensures
        after.running == bus.running,
        after.boxes.dom() == bus.boxes.dom(),
        exists|slot: int|
            {
                &&& #[trigger] bus.boxes.dom().contains(slot)
                &&& bus.boxes[slot].open
                &&& bus.boxes[slot].owner == to
                &&& after.boxes[slot].open
                &&& after.boxes[slot].owner == to
                &&& after.boxes[slot].queue.len() == bus.boxes[slot].queue.len() + 1
                &&& after.boxes[slot].queue.drop_last() == bus.boxes[slot].queue
                &&& after.boxes[slot].queue.last().id == id
                &&& after.boxes[slot].queue.last().from@ == mailbox.own_name()
                &&& after.boxes[slot].queue.last().to matches Target::Named(recipient)
                &&& recipient@ == to
                &&& after.boxes[slot].queue.last().kind@ == kind
                &&& after.boxes[slot].queue.last().payload == payload
                &&& forall|other: int|
                    other != slot && bus.boxes.dom().contains(other)
                        ==> #[trigger] after.boxes[other] == bus.boxes[other]
            },
{
    let (slot, message) = choose|slot: int, message: BusMessage|
        {
            &&& #[trigger] bus.holds(slot, to)
            &&& is_message(message, mailbox.own_name(), to, kind, payload)
            &&& message.id == id
            &&& after == #[trigger] bus.delivered(slot, message)
        };
    assert(after.boxes.dom() =~= bus.boxes.dom());
    assert(after.boxes[slot].queue.drop_last() =~= bus.boxes[slot].queue);
    assert(bus.boxes.dom().contains(slot));
}

/// A message that is routed waits with the identifier, sender, recipient, kind and payload
/// that were given, whatever they are.
pub proof fn law_what_routing_does(
    bus: BusView,
    id: Uuid,
    from: Seq<char>,
    to: Seq<char>,
    kind: Seq<char>,
    payload: Value,
    sent: Result<Uuid, BusError>,
    after: BusView,
)
    requires
        bus.sends(
            to,
            |message: BusMessage| message.id == id && is_message(message, from, to, kind, payload),
            sent,
            after,
        ),
    ensures
        sent matches Ok(given) ==> given == id && exists|slot: int|
            {
                &&& #[trigger] bus.boxes.dom().contains(slot)
                &&& bus.boxes[slot].open
                &&& bus.boxes[slot].owner == to
                &&& after.boxes[slot].queue.len() == bus.boxes[slot].queue.len() + 1
                &&& after.boxes[slot].queue.drop_last() == bus.boxes[slot].queue
                &&& after.boxes[slot].queue.last().id == id
                &&& after.boxes[slot].queue.last().from@ == from
                &&& after.boxes[slot].queue.last().to matches Target::Named(recipient)
                &&& recipient@ == to
                &&& after.boxes[slot].queue.last().kind@ == kind
                &&& after.boxes[slot].queue.last().payload == payload
            },
{
    if let Ok(given) = sent {
        let (slot, message) = choose|slot: int, message: BusMessage|
            {
                &&& #[trigger] bus.holds(slot, to)
                &&& message.id == id
                &&& is_message(message, from, to, kind, payload)
                &&& message.id == given
                &&& after == #[trigger] bus.delivered(slot, message)
            };
        assert(after.boxes[slot].queue.drop_last() =~= bus.boxes[slot].queue);
        assert(bus.boxes.dom().contains(slot));
    }
}

/// When a send succeeds and how it is refused. On a bus that is shut down nothing is sent.
/// On a running bus a message is sent if and only if somebody is registered under the name,
/// and otherwise the refusal gives the name. A refused send changes nothing.
pub proof fn law_when_sending_succeeds(
    bus: BusView,
    to: Seq<char>,
    is_it: spec_fn(BusMessage) -> bool,
    sent: Result<Uuid, BusError>,
    after: BusView,
)
    requires
        bus.consistent(),
        bus.sends(to, is_it, sent, after),
    ensures
        sent is Ok <==> exists|slot: int| #[trigger]
            bus.boxes.dom().contains(slot) && bus.boxes[slot].open && bus.boxes[slot].owner == to,
        sent is Ok ==> bus.running,
        sent is Err && !bus.running ==> sent->Err_0 is Shutdown,
        sent is Err && bus.running ==> {
            &&& sent matches Err(BusError::UnknownRecipient(name))
            &&& name@ == to
        },
        sent is Err ==> after.running == bus.running && after.boxes == bus.boxes,
{
    if sent is Ok {
        let slot = choose|slot: int| bus.holds(slot, to);
        assert(bus.holds(slot, to));
        assert(bus.boxes.dom().contains(slot));
    }
    if exists|slot: int| #[trigger]
        bus.boxes.dom().contains(slot) && bus.boxes[slot].open && bus.boxes[slot].owner == to {
        let slot = choose|slot: int| #[trigger]
            bus.boxes.dom().contains(slot) && bus.boxes[slot].open && bus.boxes[slot].owner == to;
        assert(bus.holds(slot, to));
        assert(bus.registered(to));
    }
}

/// What is sent to an agent with an empty mailbox is what that agent receives next, field by
/// field as it was given; then its mailbox is empty again.
pub proof fn law_what_is_sent_is_received(
    bus: BusView,
    sender: Mailbox,
    recipient: Mailbox,
    kind: Seq<char>,
    payload: Value,
    sent: Result<Uuid, BusError>,
    after: BusView,
)
    requires
        bus.consistent(),
        bus.boxes.dom().contains(recipient.own_slot()),
        bus.boxes[recipient.own_slot()].open,
        bus.boxes[recipient.own_slot()].owner == recipient.own_name(),
        bus.boxes[recipient.own_slot()].queue.len() == 0,
        bus.sends(
            recipient.own_name(),
            |message: BusMessage|
                is_message(message, sender.own_name(), recipient.own_name(), kind, payload),
            sent,
            after,
        ),
    ensures
        sent is Ok,
        after.oldest(recipient.own_slot()) matches Some(message) && {
            &&& message.id == sent->Ok_0
            &&& message.from@ == sender.own_name()
            &&& message.to matches Target::Named(to)
            &&& to@ == recipient.own_name()
            &&& message.kind@ == kind
            &&& message.payload == payload
        },
        after.received(recipient.own_slot()).boxes[recipient.own_slot()].queue.len() == 0,
{
    let slot = recipient.own_slot();
    let to = recipient.own_name();
    assert(bus.holds(slot, to));
    assert(bus.registered(to));
    let (held, message) = choose|held: int, message: BusMessage|
        {
            &&& #[trigger] bus.holds(held, to)
            &&& is_message(message, sender.own_name(), to, kind, payload)
            &&& message.id == sent->Ok_0
            &&& after == #[trigger] bus.delivered(held, message)
        };
    assert(held == slot);
}

/// What registering comes to. On a running bus it succeeds if and only if nobody is
/// registered under the name: then there is one more mailbox, in a place that had none,
/// registered under that name and empty, and all others are as they were. A name in use is
/// refused with that name, a bus that is shut down refuses every name, and a refusal changes
/// nothing.
pub proof fn law_what_registering_does(
    bus: BusView,
    name: Seq<char>,
    registered: Result<Mailbox, BusError>,
    after: BusView,
)
    requires
        bus.registers(name, registered, after),
    ensures
        registered is Ok <==> bus.running && forall|slot: int| #[trigger]
            bus.boxes.dom().contains(slot) ==> !(bus.boxes[slot].open && bus.boxes[slot].owner
                == name),
        registered matches Ok(mailbox) ==> {
            &&& mailbox.own_name() == name
            &&& !bus.boxes.dom().contains(mailbox.own_slot())
            &&& after.running
            &&& after.boxes == bus.boxes.insert(
                mailbox.own_slot(),
                BoxView { owner: name, open: true, queue: Seq::empty() },
            )
        },
        registered is Err && bus.running ==> {
            &&& registered matches Err(BusError::NameTaken(taken))
            &&& taken@ == name
        },
        registered is Err && !bus.running ==> registered->Err_0 is Shutdown,
        registered is Err ==> after.running == bus.running && after.boxes == bus.boxes,
{
    if registered is Ok {
        assert forall|slot: int| #[trigger] bus.boxes.dom().contains(slot) implies !(
        bus.boxes[slot].open && bus.boxes[slot].owner == name) by {
            assert(!bus.holds(slot, name));
        }
    }
    if bus.registered(name) {
        let slot = choose|slot: int| bus.holds(slot, name);
        assert(bus.boxes.dom().contains(slot));
    }
}

/// What deregistering comes to: the mailboxes of that name are closed, with what waits in
/// them, and nothing else changes.
pub proof fn law_what_deregistering_does(bus: BusView, name: Seq<char>)
    ensures
        bus.deregistered(name).running == bus.running,
        bus.deregistered(name).boxes.dom() == bus.boxes.dom(),
        forall|other: int| #[trigger]
            bus.boxes.dom().contains(other) ==> {
                &&& bus.deregistered(name).boxes[other].owner == bus.boxes[other].owner
                &&& bus.deregistered(name).boxes[other].queue == bus.boxes[other].queue
                &&& bus.deregistered(name).boxes[other].open <==> bus.boxes[other].open
                    && bus.boxes[other].owner != name
            },
{
    assert(bus.deregistered(name).boxes.dom() =~= bus.boxes.dom());
}

/// What shutting down comes to: the bus no longer runs, and every mailbox is closed, with
/// what waits in it.
pub proof fn law_what_shutting_down_does(bus: BusView)
    ensures
        !bus.stopped().running,
        bus.stopped().boxes.dom() == bus.boxes.dom(),
        forall|other: int| #[trigger]
            bus.boxes.dom().contains(other) ==> {
                &&& bus.stopped().boxes[other].owner == bus.boxes[other].owner
                &&& bus.stopped().boxes[other].queue == bus.boxes[other].queue
                &&& !bus.stopped().boxes[other].open
            },
{
    assert(bus.stopped().boxes.dom() =~= bus.boxes.dom());
}

/// What receiving comes to: the oldest message of that mailbox is taken out, if there is one,
/// what waited behind it stays, and nothing else changes.
pub proof fn law_what_receiving_does(bus: BusView, slot: int)
    ensures
        bus.oldest(slot) is Some <==> bus.boxes.dom().contains(slot) && bus.boxes[slot].queue.len()
            > 0,
        bus.oldest(slot) matches Some(message) ==> seq![message] + bus.received(
            slot,
        ).boxes[slot].queue == bus.boxes[slot].queue,
        bus.oldest(slot) is None ==> bus.received(slot).boxes == bus.boxes,
        bus.received(slot).running == bus.running,
        bus.received(slot).boxes.dom() == bus.boxes.dom(),
        forall|other: int| #[trigger]
            bus.boxes.dom().contains(other) ==> {
                &&& bus.received(slot).boxes[other].owner == bus.boxes[other].owner
                &&& bus.received(slot).boxes[other].open == bus.boxes[other].open
                &&& other != slot ==> bus.received(slot).boxes[other].queue
                    == bus.boxes[other].queue
            },
{
    assert(bus.received(slot).boxes.dom() =~= bus.boxes.dom());
    if let Some(message) = bus.oldest(slot) {
        assert(seq![message] + bus.received(slot).boxes[slot].queue =~= bus.boxes[slot].queue);
    }
}

/// What giving a mailbox up comes to: it is gone, the mailboxes of its name are closed, with
/// what waits in them, and nothing else changes.
pub proof fn law_what_closing_does(bus: BusView, slot: int)
    ensures
        bus.discarded(slot).running == bus.running,
        bus.discarded(slot).boxes.dom() == bus.boxes.dom().remove(slot),
        forall|other: int| #[trigger]
            bus.boxes.dom().contains(other) && other != slot ==> {
                &&& bus.discarded(slot).boxes[other].owner == bus.boxes[other].owner
                &&& bus.discarded(slot).boxes[other].queue == bus.boxes[other].queue
                &&& bus.discarded(slot).boxes[other].open <==> bus.boxes[other].open && !(
                bus.boxes.dom().contains(slot) && bus.boxes[other].owner == bus.boxes[slot].owner)
            },
{
    assert(bus.discarded(slot).boxes.dom() =~= bus.boxes.dom().remove(slot));
}

/// What a poll finds: the oldest message, which it takes out, if the mailbox has one; that
/// it has to wait, if the mailbox is empty and registered; and otherwise that it is closed.
pub proof fn law_what_polling_does(bus: BusView, slot: int, polled: Polled, after: BusView)
    requires
        bus.polls(slot, polled, after),
    ensures
        bus.boxes.dom().contains(slot) && bus.boxes[slot].queue.len() > 0 ==> {
            &&& polled matches Polled::Message(message)
            &&& message == bus.boxes[slot].queue[0]
            &&& after.boxes[slot].queue == bus.boxes[slot].queue.drop_first()
        },
        bus.boxes.dom().contains(slot) && bus.boxes[slot].queue.len() == 0
            && bus.boxes[slot].open ==> polled is Waiting,
        bus.boxes.dom().contains(slot) && bus.boxes[slot].queue.len() == 0
            && !bus.boxes[slot].open ==> polled is Closed,
        !bus.boxes.dom().contains(slot) ==> polled is Closed,
        !(polled is Message) ==> after.running == bus.running && after.boxes == bus.boxes,
        after.running == bus.running,
        after.boxes.dom() == bus.boxes.dom(),
        forall|other: int| #[trigger]
            bus.boxes.dom().contains(other) ==> {
                &&& after.boxes[other].owner == bus.boxes[other].owner
                &&& after.boxes[other].open == bus.boxes[other].open
                &&& other != slot ==> after.boxes[other].queue == bus.boxes[other].queue
            },
{
    assert(after.boxes.dom() =~= bus.boxes.dom());
}

/// A new bus runs and has no mailboxes. Who is registered, whether there is room for a
/// message, and that no name is registered twice are all read off the mailboxes.
pub proof fn law_what_a_bus_knows(bus: BusView, name: Seq<char>)
    ensures
        BusView::initial().running,
        BusView::initial().boxes == Map::<int, BoxView>::empty(),
        bus.registered(name) <==> exists|slot: int| #[trigger]
            bus.boxes.dom().contains(slot) && bus.boxes[slot].open && bus.boxes[slot].owner == name,
        bus.has_room(name) <==> forall|slot: int| #[trigger]
            bus.boxes.dom().contains(slot) && bus.boxes[slot].open && bus.boxes[slot].owner == name
                ==> bus.boxes[slot].queue.len() < usize::MAX / 2,
        bus.consistent() ==> forall|a: int, b: int|
            #![trigger bus.boxes.dom().contains(a), bus.boxes.dom().contains(b)]
            bus.boxes.dom().contains(a) && bus.boxes.dom().contains(b) && bus.boxes[a].open
                && bus.boxes[b].open && bus.boxes[a].owner == bus.boxes[b].owner ==> a == b,
        bus.consistent() ==> forall|slot: int| #[trigger]
            bus.boxes.dom().contains(slot) && bus.boxes[slot].open ==> bus.running,
{
    if bus.registered(name) {
        let slot = choose|slot: int| bus.holds(slot, name);
        assert(bus.boxes.dom().contains(slot));
    }
    assert forall|slot: int| #[trigger] bus.boxes.dom().contains(slot) implies bus.holds(slot, name)
        == (bus.boxes[slot].open && bus.boxes[slot].owner == name) by {}
    if exists|slot: int| #[trigger]
        bus.boxes.dom().contains(slot) && bus.boxes[slot].open && bus.boxes[slot].owner == name {
        let slot = choose|slot: int| #[trigger]
            bus.boxes.dom().contains(slot) && bus.boxes[slot].open && bus.boxes[slot].owner == name;
        assert(bus.holds(slot, name));
    }
    if bus.consistent() {
        assert forall|a: int, b: int|
            #![trigger bus.boxes.dom().contains(a), bus.boxes.dom().contains(b)]
            bus.boxes.dom().contains(a) && bus.boxes.dom().contains(b) && bus.boxes[a].open
                && bus.boxes[b].open && bus.boxes[a].owner == bus.boxes[b].owner implies a == b by {
            assert(bus.holds(a, bus.boxes[a].owner) && bus.holds(b, bus.boxes[a].owner));
        }
        assert forall|slot: int| #[trigger]
            bus.boxes.dom().contains(slot) && bus.boxes[slot].open implies bus.running by {
            assert(bus.holds(slot, bus.boxes[slot].owner));
        }
    }
    if !bus.has_room(name) {
        let slot = choose|slot: int| #[trigger]
            bus.holds(slot, name) && !(bus.boxes[slot].queue.len() < QUEUE_LIMIT);
        assert(bus.boxes.dom().contains(slot));
    }
}

} // verus!
