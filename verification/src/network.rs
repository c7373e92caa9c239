//! A broker and its connections taken together.
//!
//! Connections and broker run side by side: what a connection passes to the broker waits
//! in line, oldest first, and the broker's reply to a registration waits until the
//! connection takes it. Here is what holds in whatever order they take their turns.

use tokio::sync::mpsc::Sender;
use vstd::prelude::*;

use crate::broker::law_what_broadcasting_does;
use crate::broker::law_what_publishing_does;
use crate::broker::name_taken;
use crate::broker::reaches;
use crate::broker::BrokerView;
use crate::broker::Event;
use crate::broker::Outcome;
use crate::client::settles;
use crate::client::ClientError;
use crate::message::BusMessage;
use crate::message::Frame;
use crate::message::Target;
use crate::session::speaker;
use crate::session::Action;
use crate::session::Input;
use crate::session::SessionView;

verus! {

/// An event on its way to the broker.
pub struct Posted {
    /// The connection that it comes from.
    pub from: int,
    pub event: Event,
}

/// One turn of a connection or of the broker.
pub enum Step {
    /// A connection is accepted.
    Accept { connection: int },
    /// A connection takes an input in and performs the action that it calls for. If that
    /// is to register, `sender` goes with the request.
    Take { connection: int, input: Input, action: Action, sender: Sender<Frame> },
    /// The broker handles the oldest event.
    Handle { outcome: Outcome },
}

/// The state of a broker and its connections.
pub struct NetworkView {
    pub broker: BrokerView,
    /// The connections that were ever accepted.
    pub sessions: Map<int, SessionView>,
    /// The events that wait for the broker, oldest first.
    pub posted: Seq<Posted>,
    /// The replies that wait for their connection.
    pub replies: Map<int, Result<(), String>>,
}

/// Whether `event` says that the connection of `name` has ended.
pub open spec fn is_farewell(event: Event, name: Seq<char>) -> bool {
    event matches Event::Disconnected { name: gone } && gone@ == name
}

impl NetworkView {
    /// A new broker without connections.
    pub open spec fn initial() -> NetworkView {
        NetworkView {
            broker: BrokerView::initial(),
            sessions: Map::empty(),
            posted: Seq::empty(),
            replies: Map::empty(),
        }
    }

    /// Whether `step` can be taken. A connection gets a reply only from the broker.
    pub open spec fn can_take(self, step: Step) -> bool {
        match step {
            Step::Accept { connection } => !self.sessions.dom().contains(connection),
            Step::Take { connection, input, action, .. } => {
                &&& self.sessions.dom().contains(connection)
                &&& self.sessions[connection].calls_for(input, action)
                &&& input matches Input::Replied(reply) ==> self.replies.dom().contains(connection)
                    && reply == Some(self.replies[connection])
            },
            Step::Handle { outcome } => {
                &&& self.posted.len() > 0
                &&& self.broker.answers(self.posted[0].event, outcome)
            },
        }
    }

    /// The events in line after `connection` has performed `action`.
    pub open spec fn posted_after(
        self,
        connection: int,
        action: Action,
        sender: Sender<Frame>,
    ) -> Seq<Posted> {
        match action {
            Action::AskToRegister { name } => self.posted.push(
                Posted { from: connection, event: Event::Register { name, sender } },
            ),
            Action::Post(event) => self.posted.push(Posted { from: connection, event }),
            _ => self.posted,
        }
    }

    /// The state after `step`.
    pub open spec fn after(self, step: Step) -> NetworkView {
        match step {
            Step::Accept { connection } => NetworkView {
                sessions: self.sessions.insert(
                    connection,
                    SessionView::Unregistered,
                ),
                ..self
            },
            Step::Take { connection, input, action, sender } => NetworkView {
                sessions: self.sessions.insert(connection, self.sessions[connection].next(input)),
                posted: self.posted_after(connection, action, sender),
                replies: if input is Replied {
                    self.replies.remove(connection)
                } else {
                    self.replies
                },
                ..self
            },
            Step::Handle { outcome } => NetworkView {
                broker: self.broker.after(self.posted[0].event),
                posted: self.posted.drop_first(),
                replies: match outcome.reply {
                    Some(reply) => self.replies.insert(self.posted[0].from, reply),
                    None => self.replies,
                },
                ..self
            },
        }
    }

    /// Whether `steps` can be taken one after the other.
    pub open spec fn can_take_all(self, steps: Seq<Step>) -> bool
        decreases steps.len(),
    {
        steps.len() > 0 ==> self.can_take(steps[0]) && self.after(steps[0]).can_take_all(
            steps.drop_first(),
        )
    }

    /// The state after `steps`, one after the other.
    pub open spec fn after_all(self, steps: Seq<Step>) -> NetworkView
        decreases steps.len(),
    {
        if steps.len() == 0 {
            self
        } else {
            self.after(steps[0]).after_all(steps.drop_first())
        }
    }

    /// Whether an event in line says that `connection` has ended, which was `name`.
    pub open spec fn leaving(self, connection: int, name: Seq<char>) -> bool {
        exists|i: int|
            0 <= i < self.posted.len() && (#[trigger] self.posted[i]).from == connection
                && is_farewell(self.posted[i].event, name)
    }

    /// Whether `connection` has `name`: from the moment in which the broker accepts the
    /// name until it learns that the connection has ended.
    pub open spec fn has_name(self, connection: int, name: Seq<char>) -> bool {
        &&& self.sessions.dom().contains(connection)
        &&& match self.sessions[connection] {
            SessionView::Unregistered => false,
            SessionView::Pending(own) => own == name
                && self.replies.dom().contains(connection) && self.replies[connection] is Ok,
            SessionView::Active(own) => own == name,
            SessionView::Ended => self.leaving(connection, name),
        }
    }

    /// Whether somebody has `name`.
    pub open spec fn is_used(self, name: Seq<char>) -> bool {
        exists|connection: int| self.has_name(connection, name)
    }

    /// Whether the event in place `i` is in order: a registration is all that its
    /// connection has in line, and the connection waits for the reply; any other event is
    /// under the name of its connection, and a farewell is its last.
    pub open spec fn in_order(self, i: int) -> bool {
        let from = self.posted[i].from;
        let event = self.posted[i].event;
        &&& self.sessions.dom().contains(from)
        &&& !self.replies.dom().contains(from)
        &&& match event {
            Event::Register { name, .. } => {
                &&& self.sessions[from] == SessionView::Pending(name@)
                &&& forall|j: int|
                    0 <= j < self.posted.len() && j != i ==> (#[trigger] self.posted[j]).from
                        != from
            },
            _ => self.has_name(from, speaker(event)),
        }
        &&& event is Disconnected ==> {
            &&& self.sessions[from] is Ended
            &&& forall|j: int| i < j < self.posted.len() ==> (#[trigger] self.posted[j]).from != from
        }
    }

    /// Whether a registration of `connection` is in line.
    pub open spec fn asking(self, connection: int) -> bool {
        exists|i: int|
            0 <= i < self.posted.len() && (#[trigger] self.posted[i]).from == connection
                && self.posted[i].event is Register
    }

    /// Whether broker and connections agree.
    pub open spec fn orderly(self) -> bool {
        // The events in line are in order.
        &&& forall|i: int| 0 <= i < self.posted.len() ==> #[trigger] self.in_order(i)
        // A reply waits only for a connection that waits for it.
        &&& forall|connection: int| #[trigger]
            self.replies.dom().contains(connection) ==> self.sessions.dom().contains(connection)
                && self.sessions[connection] is Pending
        // A connection that waits has a reply, or its registration is in line.
        &&& forall|connection: int| #[trigger]
            self.sessions.dom().contains(connection) && self.sessions[connection] is Pending
                ==> self.replies.dom().contains(connection) || self.asking(connection)
        // The names that somebody has are those that the broker knows, and nobody has
        // another's.
        &&& forall|connection: int, name: Seq<char>| #[trigger]
            self.has_name(connection, name) ==> self.broker.connected(name)
        &&& forall|name: Seq<char>| #[trigger] self.broker.connected(name) ==> self.is_used(name)
        &&& forall|a: int, b: int, name: Seq<char>|
            #![trigger self.has_name(a, name), self.has_name(b, name)]
            self.has_name(a, name) && self.has_name(b, name) ==> a == b
        // Who subscribes is connected.
        &&& self.broker.subscribers_are_connected()
    }
}

/// Broker and connections agree at the start.
pub proof fn law_new_network_is_orderly()
    ensures
        NetworkView::initial().orderly(),
{
}

/// Accepting a connection gives nobody a name and takes none away.
proof fn lemma_accepting(network: NetworkView, connection: int)
    requires
        network.orderly(),
        network.can_take(Step::Accept { connection }),
    ensures
        network.after(Step::Accept { connection }).orderly(),
{
    let after = network.after(Step::Accept { connection });
    assert forall|other: int, name: Seq<char>| #[trigger]
        after.has_name(other, name) == network.has_name(other, name) by {
        if network.leaving(other, name) {
            assert(after.leaving(other, name));
        }
        if after.leaving(other, name) {
            assert(network.leaving(other, name));
        }
    }
    lemma_same_names(network, after);
    assert forall|i: int| 0 <= i < after.posted.len() implies #[trigger] after.in_order(i) by {
        assert(network.in_order(i));
    }
    assert forall|other: int| #[trigger]
        after.sessions.dom().contains(other) && after.sessions[other] is Pending implies
        after.replies.dom().contains(other) || after.asking(other) by {
        if network.asking(other) {
            assert(after.asking(other));
        }
    }
}

/// Where everybody has the name that they had, and the broker knows the names that it
/// knew, the names still agree.
proof fn lemma_same_names(before: NetworkView, after: NetworkView)
    requires
        before.orderly(),
        forall|connection: int, name: Seq<char>| #[trigger]
            after.has_name(connection, name) == before.has_name(connection, name),
        forall|name: Seq<char>| #[trigger]
            after.broker.connected(name) == before.broker.connected(name),
    ensures
        forall|connection: int, name: Seq<char>| #[trigger]
            after.has_name(connection, name) ==> after.broker.connected(name),
        forall|name: Seq<char>| #[trigger] after.broker.connected(name) ==> after.is_used(name),
        forall|a: int, b: int, name: Seq<char>|
            #![trigger after.has_name(a, name), after.has_name(b, name)]
            after.has_name(a, name) && after.has_name(b, name) ==> a == b,
{
    assert forall|name: Seq<char>| #[trigger] after.broker.connected(name) implies after.is_used(
        name,
    ) by {
        assert(before.broker.connected(name));
        let connection = choose|connection: int| before.has_name(connection, name);
        assert(after.has_name(connection, name));
    }
    assert forall|a: int, b: int, name: Seq<char>|
        #![trigger after.has_name(a, name), after.has_name(b, name)]
        after.has_name(a, name) && after.has_name(b, name) implies a == b by {
        assert(before.has_name(a, name) && before.has_name(b, name));
    }
}

/// A connection that takes an input in keeps the name that it has, and gets none that it
/// had not.
proof fn lemma_taking_keeps_names(
    network: NetworkView,
    connection: int,
    input: Input,
    action: Action,
    sender: Sender<Frame>,
)
    requires
        network.orderly(),
        network.can_take(Step::Take { connection, input, action, sender }),
    ensures
        forall|other: int, name: Seq<char>| #[trigger]
            network.after(Step::Take { connection, input, action, sender }).has_name(other, name)
                == network.has_name(other, name),
{
    let after = network.after(Step::Take { connection, input, action, sender });
    assert forall|other: int, name: Seq<char>| #[trigger]
        after.has_name(other, name) == network.has_name(other, name) by {
        let last = network.posted.len() as int;
        if network.leaving(other, name) {
            let i = choose|i: int|
                0 <= i < network.posted.len() && (#[trigger] network.posted[i]).from == other
                    && is_farewell(network.posted[i].event, name);
            assert(network.in_order(i));
            assert(after.posted[i] == network.posted[i]);
            assert(after.leaving(other, name));
        }
        if after.leaving(other, name) {
            let i = choose|i: int|
                0 <= i < after.posted.len() && (#[trigger] after.posted[i]).from == other
                    && is_farewell(after.posted[i].event, name);
            if i < last {
                assert(network.posted[i] == after.posted[i]);
                assert(network.leaving(other, name));
            }
        }
        if other == connection && network.sessions[connection] is Active
            && after.sessions[connection] is Ended {
            assert(after.posted[last].from == connection);
        }
    }
}

/// What a connection puts in line is in order, and what was in line stays so.
proof fn lemma_taking(
    network: NetworkView,
    connection: int,
    input: Input,
    action: Action,
    sender: Sender<Frame>,
)
    requires
        network.orderly(),
        network.can_take(Step::Take { connection, input, action, sender }),
    ensures
        network.after(Step::Take { connection, input, action, sender }).orderly(),
{
    let after = network.after(Step::Take { connection, input, action, sender });
    let last = network.posted.len() as int;
    lemma_taking_keeps_names(network, connection, input, action, sender);
    lemma_same_names(network, after);
    assert forall|i: int| 0 <= i < network.posted.len() && network.sessions[connection]
        is Unregistered implies (#[trigger] network.posted[i]).from != connection by {
        assert(network.in_order(i));
    }
    assert forall|i: int| 0 <= i < last implies #[trigger] after.posted[i] == network.posted[i] by {}
    assert forall|i: int| 0 <= i < after.posted.len() implies #[trigger] after.in_order(i) by {
        if i < last {
            assert(network.in_order(i));
            assert(after.posted[i] == network.posted[i]);
        } else if action is Post {
            assert(network.has_name(connection, speaker(action->Post_0)));
        }
    }
    assert forall|other: int| #[trigger]
        after.sessions.dom().contains(other) && after.sessions[other] is Pending implies
        after.replies.dom().contains(other) || after.asking(other) by {
        if network.asking(other) {
            let i = choose|i: int|
                0 <= i < network.posted.len() && (#[trigger] network.posted[i]).from == other
                    && network.posted[i].event is Register;
            assert(after.posted[i] == network.posted[i]);
        }
        if action is AskToRegister {
            assert(after.posted[last].from == connection);
        }
    }
}

/// Who has which name once the broker has handled the oldest event: one that registers
/// under a free name has it, and one that has ended has it no more.
proof fn lemma_handling_names(network: NetworkView, outcome: Outcome)
    requires
        network.orderly(),
        network.can_take(Step::Handle { outcome }),
    ensures
        ({
            let after = network.after(Step::Handle { outcome });
            let from = network.posted[0].from;
            let event = network.posted[0].event;
            let own = speaker(event);
            forall|other: int, name: Seq<char>| #[trigger]
                after.has_name(other, name) <==> {
                    ||| network.has_name(other, name) && !(event is Disconnected && other == from)
                    ||| event is Register && !network.broker.connected(own) && other == from && name
                        == own
                }
        }),
{
    let after = network.after(Step::Handle { outcome });
    let from = network.posted[0].from;
    let event = network.posted[0].event;
    assert(network.in_order(0));
    assert forall|other: int, name: Seq<char>| #[trigger] after.has_name(other, name) <==> {
        ||| network.has_name(other, name) && !(event is Disconnected && other == from)
        ||| event is Register && !network.broker.connected(speaker(event)) && other == from && name
            == speaker(event)
    } by {
        if network.leaving(other, name) {
            let i = choose|i: int|
                0 <= i < network.posted.len() && (#[trigger] network.posted[i]).from == other
                    && is_farewell(network.posted[i].event, name);
            assert(network.in_order(i));
            if i > 0 {
                assert(after.posted[i - 1] == network.posted[i]);
                assert(after.leaving(other, name));
            }
        }
        if after.leaving(other, name) {
            let i = choose|i: int|
                0 <= i < after.posted.len() && (#[trigger] after.posted[i]).from == other
                    && is_farewell(after.posted[i].event, name);
            assert(network.posted[i + 1] == after.posted[i]);
            assert(network.leaving(other, name));
        }
    }
}

/// Handling the oldest event leaves broker and connections in agreement.
proof fn lemma_handling(network: NetworkView, outcome: Outcome)
    requires
        network.orderly(),
        network.can_take(Step::Handle { outcome }),
    ensures
        network.after(Step::Handle { outcome }).orderly(),
{
    let after = network.after(Step::Handle { outcome });
    let from = network.posted[0].from;
    let event = network.posted[0].event;
    let own = speaker(event);
    lemma_handling_names(network, outcome);
    assert(network.in_order(0));
    assert forall|i: int| 0 <= i < after.posted.len() implies (#[trigger] after.posted[i])
        == network.posted[i + 1] by {}
    assert forall|i: int| 0 <= i < after.posted.len() implies #[trigger] after.in_order(i) by {
        assert(network.in_order(i + 1));
        assert(after.posted[i] == network.posted[i + 1]);
    }
    assert forall|other: int| #[trigger]
        after.sessions.dom().contains(other) && after.sessions[other] is Pending implies
        after.replies.dom().contains(other) || after.asking(other) by {
        if network.asking(other) {
            let i = choose|i: int|
                0 <= i < network.posted.len() && (#[trigger] network.posted[i]).from == other
                    && network.posted[i].event is Register;
            if i > 0 {
                assert(after.posted[i - 1] == network.posted[i]);
            }
        }
    }
    assert forall|other: int, name: Seq<char>| #[trigger]
        after.has_name(other, name) implies after.broker.connected(name) by {
        if event is Disconnected && network.has_name(other, name) {
            assert(network.has_name(from, own));
        }
    }
    assert forall|name: Seq<char>| #[trigger] after.broker.connected(name) implies after.is_used(
        name,
    ) by {
        if network.broker.connected(name) {
            let other = choose|other: int| network.has_name(other, name);
            if event is Disconnected && other == from {
                assert(network.leaving(from, name));
                let i = choose|i: int|
                    0 <= i < network.posted.len() && (#[trigger] network.posted[i]).from == from
                        && is_farewell(network.posted[i].event, name);
                assert(i == 0);
            }
            assert(after.has_name(other, name));
        } else {
            assert(after.has_name(from, name));
        }
    }
    assert forall|a: int, b: int, name: Seq<char>|
        #![trigger after.has_name(a, name), after.has_name(b, name)]
        after.has_name(a, name) && after.has_name(b, name) implies a == b by {
        if network.has_name(a, name) && network.has_name(b, name) {
        } else if network.has_name(a, name) || network.has_name(b, name) {
            assert(network.broker.connected(name));
        }
    }
    assert forall|topic: Seq<char>, name: Seq<char>| #[trigger]
        after.broker.subscribers(topic).contains(name) implies after.broker.connected(name) by {
        if network.broker.subscribers(topic).contains(name) {
            assert(network.broker.connected(name));
        } else if event is Subscribe {
            assert(network.has_name(from, own));
        }
    }
}

/// Broker and connections keep agreeing, whoever takes the next turn.
pub proof fn law_step_keeps_order(network: NetworkView, step: Step)
    requires
        network.orderly(),
        network.can_take(step),
    ensures
        network.after(step).orderly(),
{
    match step {
        Step::Accept { connection } => lemma_accepting(network, connection),
        Step::Take { connection, input, action, sender } => {
            lemma_taking(network, connection, input, action, sender)
        },
        Step::Handle { outcome } => lemma_handling(network, outcome),
    }
}

/// Broker and connections agree after any number of turns, in whatever order they are
/// taken.
pub proof fn law_network_stays_orderly(network: NetworkView, steps: Seq<Step>)
    requires
        network.orderly(),
        network.can_take_all(steps),
    ensures
        network.after_all(steps).orderly(),
    decreases steps.len(),
{
    if steps.len() > 0 {
        law_step_keeps_order(network, steps[0]);
        law_network_stays_orderly(network.after(steps[0]), steps.drop_first());
    }
}

/// However connections and broker take their turns, no two connections are clients of one
/// name, and the broker knows every client.
pub proof fn law_names_are_unique(steps: Seq<Step>, a: int, b: int, name: Seq<char>)
    requires
        NetworkView::initial().can_take_all(steps),
    ensures
        ({
            let network = NetworkView::initial().after_all(steps);
            let is_client = |connection: int|
                network.sessions.dom().contains(connection) && network.sessions[connection]
                    == SessionView::Active(name);
            &&& is_client(a) ==> network.broker.connected(name)
            &&& is_client(a) && is_client(b) ==> a == b
        }),
{
    let network = NetworkView::initial().after_all(steps);
    law_new_network_is_orderly();
    law_network_stays_orderly(NetworkView::initial(), steps);
    if network.sessions.dom().contains(a) && network.sessions[a] == SessionView::Active(name) {
        assert(network.has_name(a, name));
    }
    if network.sessions.dom().contains(b) && network.sessions[b] == SessionView::Active(name) {
        assert(network.has_name(b, name));
    }
}

/// However connections and broker take their turns, whoever subscribes to a topic is
/// connected, and an event that reaches the broker is a registration or comes from a
/// connected client.
pub proof fn law_only_clients_are_heard(steps: Seq<Step>)
    requires
        NetworkView::initial().can_take_all(steps),
    ensures
        ({
            let network = NetworkView::initial().after_all(steps);
            &&& network.broker.subscribers_are_connected()
            &&& network.posted.len() > 0 && !(network.posted[0].event is Register)
                ==> network.broker.connected(speaker(network.posted[0].event))
        }),
{
    let network = NetworkView::initial().after_all(steps);
    law_new_network_is_orderly();
    law_network_stays_orderly(NetworkView::initial(), steps);
    if network.posted.len() > 0 {
        assert(network.in_order(0));
    }
}

/// A client whose first frame is the connection's answer learns from it what the broker
/// has decided of its registration: if the name was free it is registered, and otherwise
/// it is told why not. A frame that the broker delivers to a new client before the
/// connection has answered can come first; nothing is said of that here.
pub proof fn law_answer_tells_the_verdict(
    broker: BrokerView,
    name: String,
    sender: Sender<Frame>,
    outcome: Outcome,
    answer: Action,
    verdict: Result<(), ClientError>,
)
    requires
        broker.answers(Event::Register { name, sender }, outcome),
        SessionView::Pending(name@).calls_for(Input::Replied(outcome.reply), answer),
        answer matches Action::Send(frame) && settles(Ok(frame), verdict),
    ensures
        !broker.connected(name@) <==> verdict is Ok,
        broker.connected(name@) ==> {
            &&& verdict matches Err(ClientError::RegistrationFailed(reason))
            &&& reason@ == name_taken(name@)
        },
{
}

/// A message that a client sends to one that is connected arrives there as it was sent,
/// and nowhere else.
pub proof fn law_sent_message_arrives(
    broker: BrokerView,
    own: Seq<char>,
    message: BusMessage,
    action: Action,
    outcome: Outcome,
)
    requires
        SessionView::Active(own).calls_for(Input::Received(Frame::Message(message)), action),
        action matches Action::Post(event) && broker.answers(event, outcome),
        message.to matches Target::Named(target) && broker.connected(target@),
    ensures
        outcome.deliveries@.len() == 1,
        outcome.deliveries@[0].to@ == message.to->Named_0@,
        outcome.deliveries@[0].frame == Frame::Message(message),
{
    let target = message.to->Named_0@;
    let deliveries = outcome.deliveries@;
    assert(set![target].contains(target));
    assert(reaches(deliveries, target));
    if deliveries.len() > 1 {
        assert(set![target].contains(deliveries[0].to@) && set![target].contains(deliveries[1].to@));
    }
}

/// From a client's frame to the broker's deliveries: a message that a client sends to all
/// reaches exactly the connected clients other than it, each once and as it was sent.
pub proof fn law_sent_broadcast_arrives(
    broker: BrokerView,
    own: Seq<char>,
    message: BusMessage,
    action: Action,
    outcome: Outcome,
    name: Seq<char>,
)
    requires
        message.to is Broadcast,
        SessionView::Active(own).calls_for(Input::Received(Frame::Message(message)), action),
        action matches Action::Post(event) ==> broker.answers(event, outcome),
    ensures
        action is Post,
        forall|i: int|
            0 <= i < outcome.deliveries@.len() ==> (#[trigger] outcome.deliveries@[i]).frame
                == Frame::Message(message),
        forall|i: int, j: int|
            0 <= i < j < outcome.deliveries@.len() ==> (#[trigger] outcome.deliveries@[i]).to@ != (
            #[trigger] outcome.deliveries@[j]).to@,
        broker.clients.dom().contains(name) && name != own <==> exists|i: int|
            0 <= i < outcome.deliveries@.len() && (#[trigger] outcome.deliveries@[i]).to@ == name,
{
    if let Action::Post(Event::Message { from, message: posted }) = action {
        law_what_broadcasting_does(broker, from, posted, outcome);
    }
}

/// From a client's frame to the broker's deliveries: a message that a client sends to a topic
/// reaches exactly the connected clients that subscribe to it, each once and as it was sent.
pub proof fn law_sent_publication_arrives(
    broker: BrokerView,
    own: Seq<char>,
    message: BusMessage,
    action: Action,
    outcome: Outcome,
    name: Seq<char>,
)
    requires
        message.to is Topic,
        SessionView::Active(own).calls_for(Input::Received(Frame::Message(message)), action),
        action matches Action::Post(event) ==> broker.answers(event, outcome),
    ensures
        action is Post,
        forall|i: int|
            0 <= i < outcome.deliveries@.len() ==> (#[trigger] outcome.deliveries@[i]).frame
                == Frame::Message(message),
        forall|i: int, j: int|
            0 <= i < j < outcome.deliveries@.len() ==> (#[trigger] outcome.deliveries@[i]).to@ != (
            #[trigger] outcome.deliveries@[j]).to@,
        broker.clients.dom().contains(name) && broker.topics.dom().contains(message.to->Topic_0@)
            && broker.topics[message.to->Topic_0@].contains(name) <==> exists|i: int|
            0 <= i < outcome.deliveries@.len() && (#[trigger] outcome.deliveries@[i]).to@ == name,
{
    if let Action::Post(Event::Message { from, message: posted }) = action {
        law_what_publishing_does(broker, from, posted, outcome);
    }
}

} // verus!
