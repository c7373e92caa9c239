//! The broker: who is connected, who subscribes to what, and which frames each event
//! gives rise to.
//!
//! An event is handled in one step that changes the state and says what is to be sent
//! to whom. Sending is the caller's part: the sender of a client is under its name.

use tokio::sync::mpsc::Sender;
use vstd::prelude::*;
use vstd::string::StringExecFns;

use crate::message::BusMessage;
use crate::message::Frame;
use crate::message::Target;
use crate::table::NameSet;
use crate::table::NameTable;
use crate::wire::WireError;

verus! {

/// Declares `tokio::sync::mpsc::Sender`. A client's sender is carried, and used by
/// whoever does the sending.
#[verifier::external_type_specification]
#[verifier::external_body]
#[verifier::reject_recursive_types(T)]
pub struct ExSender<T>(tokio::sync::mpsc::Sender<T>);

/// Why a broker stopped.
#[derive(Debug)]
pub enum BrokerError {
    Io(std::io::Error),
    Wire(WireError),
}

impl From<std::io::Error> for BrokerError {
    fn from(error: std::io::Error) -> (wrapped: BrokerError)
        ensures
            wrapped == BrokerError::Io(error),
    {
        BrokerError::Io(error)
    }
}

impl vstd::std_specs::convert::FromSpecImpl<std::io::Error> for BrokerError {
    open spec fn obeys_from_spec() -> bool {
        true
    }

    open spec fn from_spec(error: std::io::Error) -> BrokerError {
        BrokerError::Io(error)
    }
}

impl From<WireError> for BrokerError {
    fn from(error: WireError) -> (wrapped: BrokerError)
        ensures
            wrapped == BrokerError::Wire(error),
    {
        BrokerError::Wire(error)
    }
}

impl vstd::std_specs::convert::FromSpecImpl<WireError> for BrokerError {
    open spec fn obeys_from_spec() -> bool {
        true
    }

    open spec fn from_spec(error: WireError) -> BrokerError {
        BrokerError::Wire(error)
    }
}

/// What reaches the broker.
pub enum Event {
    /// A connection asks to be known as `name`; frames for it go to `sender`.
    Register { name: String, sender: Sender<Frame> },
    /// The client `from` sends `message`.
    Message { from: String, message: BusMessage },
    /// The client `name` wants the messages of `topic`.
    Subscribe { name: String, topic: String },
    /// The client `name` no longer wants the messages of `topic`.
    Unsubscribe { name: String, topic: String },
    /// The connection of `name` has ended.
    Disconnected { name: String },
}

/// One frame for one client.
pub struct Delivery {
    pub to: String,
    pub frame: Frame,
}

/// What an event gives rise to. A reply goes out before the deliveries.
pub struct Outcome {
    /// The answer to a registration; other events have none.
    pub reply: Option<Result<(), String>>,
    pub deliveries: Vec<Delivery>,
}

/// The state of a broker.
pub struct BrokerView {
    /// The connected clients, with the sender of each.
    pub clients: Map<Seq<char>, Sender<Frame>>,
    /// The topics that were ever subscribed to, with the subscribers of each.
    pub topics: Map<Seq<char>, Set<Seq<char>>>,
}

impl BrokerView {
    /// The state of a new broker.
    pub open spec fn initial() -> BrokerView {
        BrokerView { clients: Map::empty(), topics: Map::empty() }
    }

    /// Whether a client is connected under `name`.
    pub open spec fn connected(self, name: Seq<char>) -> bool {
        self.clients.dom().contains(name)
    }

    /// The subscribers of `topic`.
    pub open spec fn subscribers(self, topic: Seq<char>) -> Set<Seq<char>> {
        if self.topics.dom().contains(topic) {
            self.topics[topic]
        } else {
            Set::empty()
        }
    }

    /// The connected clients other than `name`.
    pub open spec fn peers(self, name: Seq<char>) -> Set<Seq<char>> {
        self.clients.dom().remove(name)
    }

    /// The connected clients that a message to `topic` reaches, whoever sends it.
    pub open spec fn audience(self, topic: Seq<char>) -> Set<Seq<char>> {
        self.subscribers(topic).intersect(self.clients.dom())
    }

    /// The state with one more client.
    pub open spec fn joined(self, name: Seq<char>, sender: Sender<Frame>) -> BrokerView {
        BrokerView { clients: self.clients.insert(name, sender), topics: self.topics }
    }

    /// The state without the client `name`, which no topic lists any more either.
    pub open spec fn left(self, name: Seq<char>) -> BrokerView {
        BrokerView {
            clients: self.clients.remove(name),
            topics: self.topics.map_values(|names: Set<Seq<char>>| names.remove(name)),
        }
    }

    /// The state with `name` among the subscribers of `topic`.
    pub open spec fn subscribed(self, name: Seq<char>, topic: Seq<char>) -> BrokerView {
        BrokerView {
            clients: self.clients,
            topics: self.topics.insert(topic, self.subscribers(topic).insert(name)),
        }
    }

    /// The state with `name` not among the subscribers of `topic`.
    pub open spec fn unsubscribed(self, name: Seq<char>, topic: Seq<char>) -> BrokerView {
        if self.topics.dom().contains(topic) {
            BrokerView {
                clients: self.clients,
                topics: self.topics.insert(topic, self.topics[topic].remove(name)),
            }
        } else {
            self
        }
    }

    /// The state after `event`.
    pub open spec fn after(self, event: Event) -> BrokerView {
        match event {
            Event::Register { name, sender } => if self.connected(name@) {
                self
            } else {
                self.joined(name@, sender)
            },
            Event::Message { .. } => self,
            Event::Subscribe { name, topic } => self.subscribed(name@, topic@),
            Event::Unsubscribe { name, topic } => self.unsubscribed(name@, topic@),
            Event::Disconnected { name } => self.left(name@),
        }
    }

    /// Whether `reply` is the answer to a registration under `name`: a name that is in
    /// use is refused.
    pub open spec fn registration_reply(self, name: Seq<char>, reply: Result<(), String>) -> bool {
        match reply {
            Ok(()) => !self.connected(name),
            Err(reason) => self.connected(name) && reason@ == name_taken(name),
        }
    }

    /// Whether `deliveries` are those that a message from the client `from` gives rise
    /// to. A named target gets the message, or, if it is not connected, the sender gets
    /// an error; a topic reaches all its subscribers; a broadcast reaches all but the
    /// sender.
    pub open spec fn routes(
        self,
        from: Seq<char>,
        message: BusMessage,
        deliveries: Seq<Delivery>,
    ) -> bool {
        match message.to {
            Target::Named(target) => if self.connected(target@) {
                fans_out(deliveries, set![target@], |frame: Frame| frame == Frame::Message(message))
            } else {
                fans_out(
                    deliveries,
                    self.clients.dom().intersect(set![from]),
                    |frame: Frame| is_error(frame, no_client_named(target@)),
                )
            },
            Target::Topic(topic) => fans_out(
                deliveries,
                self.audience(topic@),
                |frame: Frame| frame == Frame::Message(message),
            ),
            Target::Broadcast => fans_out(
                deliveries,
                self.peers(from),
                |frame: Frame| frame == Frame::Message(message),
            ),
        }
    }

    /// Whether `outcome` is what `event` gives rise to in this state.
    pub open spec fn answers(self, event: Event, outcome: Outcome) -> bool {
        match event {
            Event::Register { name, sender } => {
                &&& outcome.reply matches Some(reply)
                &&& self.registration_reply(name@, reply)
                &&& if self.connected(name@) {
                    outcome.deliveries@.len() == 0
                } else {
                    fans_out(
                        outcome.deliveries@,
                        self.peers(name@),
                        |frame: Frame| is_peer_connected(frame, name@),
                    )
                }
            },
            Event::Message { from, message } => {
                &&& outcome.reply is None
                &&& self.routes(from@, message, outcome.deliveries@)
            },
            Event::Subscribe { .. } | Event::Unsubscribe { .. } => {
                &&& outcome.reply is None
                &&& outcome.deliveries@.len() == 0
            },
            Event::Disconnected { name } => {
                &&& outcome.reply is None
                &&& fans_out(
                    outcome.deliveries@,
                    self.peers(name@),
                    |frame: Frame| is_peer_disconnected(frame, name@),
                )
            },
        }
    }
}

/// Whether `deliveries` hold one frame for each of `recipients`, and for nobody else,
/// and every frame is as `wanted`.
pub open spec fn fans_out(
    deliveries: Seq<Delivery>,
    recipients: Set<Seq<char>>,
    wanted: spec_fn(Frame) -> bool,
) -> bool {
    &&& forall|i: int|
        0 <= i < deliveries.len() ==> recipients.contains((#[trigger] deliveries[i]).to@)
    &&& forall|i: int| 0 <= i < deliveries.len() ==> wanted((#[trigger] deliveries[i]).frame)
    &&& forall|i: int, j: int|
        0 <= i < j < deliveries.len() ==> (#[trigger] deliveries[i]).to@ != (
        #[trigger] deliveries[j]).to@
    &&& forall|name: Seq<char>| #[trigger]
        recipients.contains(name) ==> reaches(deliveries, name)
}

/// Whether one of `deliveries` is for `name`.
pub open spec fn reaches(deliveries: Seq<Delivery>, name: Seq<char>) -> bool {
    exists|i: int| 0 <= i < deliveries.len() && (#[trigger] deliveries[i]).to@ == name
}

/// Whether `name` is the one that is left out, if there is one.
pub open spec fn is_exempt(except: Option<&String>, name: Seq<char>) -> bool {
    except matches Some(left_out) && left_out@ == name
}

/// Whether `frame` is an error with the text `text`.
pub open spec fn is_error(frame: Frame, text: Seq<char>) -> bool {
    frame matches Frame::Error { message } && message@ == text
}

/// Whether `frame` tells that `peer` has connected.
pub open spec fn is_peer_connected(frame: Frame, peer: Seq<char>) -> bool {
    frame matches Frame::PeerConnected { name } && name@ == peer
}

/// Whether `frame` tells that `peer` has disconnected.
pub open spec fn is_peer_disconnected(frame: Frame, peer: Seq<char>) -> bool {
    frame matches Frame::PeerDisconnected { name } && name@ == peer
}

/// The reason for which a registration under a name in use is refused.
pub open spec fn name_taken(name: Seq<char>) -> Seq<char> {
    "name '"@ + name + "' already taken"@
}

/// The text of the error for a message to a client that is not connected.
pub open spec fn no_client_named(name: Seq<char>) -> Seq<char> {
    "no client named '"@ + name + "'"@
}

fn name_taken_text(name: &String) -> (text: String)
    ensures
        text@ == name_taken(name@),
{
    let mut text = "name '".to_owned();
    text.append(name.as_str());
    text.append("' already taken");
    text
}

fn no_client_named_text(name: &String) -> (text: String)
    ensures
        text@ == no_client_named(name@),
{
    let mut text = "no client named '".to_owned();
    text.append(name.as_str());
    text.append("'");
    text
}

/// Routes frames between connected clients.
pub struct Broker {
    clients: NameTable<Sender<Frame>>,
    topics: NameTable<NameSet>,
}

impl View for Broker {
    type V = BrokerView;

    closed spec fn view(&self) -> BrokerView {
        BrokerView {
            clients: self.clients@,
            topics: self.topics@.map_values(|names: NameSet| names@.dom()),
        }
    }
}

impl Broker {
    /// No client and no topic is listed twice, nor a subscriber in a topic.
    pub closed spec fn wf(self) -> bool {
        &&& self.clients.wf()
        &&& self.topics.wf()
        &&& forall|i: int|
            0 <= i < self.topics.column().len() ==> (#[trigger] self.topics.column()[i]).wf()
    }

    /// A broker without clients.
    pub fn new() -> (broker: Broker)
        ensures
            broker.wf(),
            broker@ == BrokerView::initial(),
    {
        let broker = Broker { clients: NameTable::new(), topics: NameTable::new() };
        proof {
            assert(broker.topics.column().len() == 0) by {
                if broker.topics.column().len() > 0 {
                    broker.topics.lemma_place(0);
                }
            }
            assert(broker@.topics =~= BrokerView::initial().topics);
        }
        broker
    }

    /// Where frames for the client `name` go.
    pub fn sender(&self, name: &str) -> (sender: Option<&Sender<Frame>>)
        requires
            self.wf(),
        ensures
            match sender {
                Some(sender) => self@.clients.dom().contains(name@) && *sender
                    == self@.clients[name@],
                None => !self@.clients.dom().contains(name@),
            },
    {
        self.clients.get(&name.to_owned())
    }

    /// One frame for each of `names` that is connected and is not `except`.
    fn deliveries_to<V>(
        &self,
        names: &NameTable<V>,
        frame: Frame,
        except: Option<&String>,
    ) -> (deliveries: Vec<Delivery>)
        requires
            self.wf(),
            names.wf(),
        ensures
            fans_out(
                deliveries@,
                names@.dom().intersect(self@.clients.dom()).filter(
                    |name: Seq<char>| !is_exempt(except, name),
                ),
                |sent: Frame| sent == frame,
            ),
    {
        let mut deliveries: Vec<Delivery> = Vec::new();
        let mut place: usize = 0;
        while place < names.len()
            invariant
                self.wf(),
                names.wf(),
                place <= names.order().len(),
                forall|i: int|
                    0 <= i < deliveries@.len() ==> {
                        &&& (#[trigger] deliveries@[i]).frame == frame
                        &&& !is_exempt(except, deliveries@[i].to@)
                        &&& self@.connected(deliveries@[i].to@)
                        &&& names.order().take(place as int).contains(deliveries@[i].to@)
                    },
                forall|i: int, j: int|
                    0 <= i < j < deliveries@.len() ==> (#[trigger] deliveries@[i]).to@ != (
                    #[trigger] deliveries@[j]).to@,
                forall|i: int|
                    0 <= i < place && !is_exempt(except, #[trigger] names.order()[i])
                        && self@.connected(names.order()[i]) ==> reaches(deliveries@, names.order()[i]),
            decreases names.order().len() - place,
        {
            let name = names.name_at(place);
            let ghost before = deliveries@;
            let ghost seen = names.order().take(place as int);
            let ghost now_seen = names.order().take(place + 1);
            proof {
                assert(now_seen =~= seen.push(name@));
                assert forall|other: Seq<char>| seen.contains(other) implies now_seen.contains(
                    other,
                ) && other != name@ by {
                    let i = seen.index_of(other);
                    assert(now_seen[i] == other);
                    assert(names.order()[i] != names.order()[place as int]);
                }
                assert(now_seen[place as int] == name@);
            }
            let exempt = match except {
                Some(except) => *name == *except,
                None => false,
            };
            if !exempt && self.clients.contains(name) {
                deliveries.push(Delivery { to: name.clone(), frame: frame.clone() });
            }
            proof {
                assert forall|i: int|
                    0 <= i < place + 1 && !is_exempt(except, #[trigger] names.order()[i])
                        && self@.connected(names.order()[i]) implies reaches(deliveries@, names.order()[i]) by {
                    if i < place {
                        let k = choose|k: int|
                            0 <= k < before.len() && (#[trigger] before[k]).to@ == names.order()[i];
                        assert(deliveries@[k].to@ == names.order()[i]);
                    } else {
                        assert(deliveries@[before.len() as int].to@ == name@);
                    }
                }
            }
            place = place + 1;
        }
        proof {
            assert(names.order().take(place as int) =~= names.order());
        }
        deliveries
    }

    /// One frame for every client but one.
    pub fn broadcast_peer_event(&self, frame: Frame, except: &String) -> (deliveries: Vec<Delivery>)
        requires
            self.wf(),
        ensures
            fans_out(deliveries@, self@.peers(except@), |sent: Frame| sent == frame),
    {
        proof {
            let others = self.clients@.dom().intersect(self@.clients.dom()).filter(
                |name: Seq<char>| !is_exempt(Some(except), name),
            );
            assert(others =~= self@.peers(except@));
        }
        self.deliveries_to(&self.clients, frame, Some(except))
    }

    /// A message for the client `target`; if it is not connected, an error for the
    /// sender of the message, if that one is.
    pub fn route_named(&self, from: &String, target: &String, message: BusMessage) -> (deliveries:
        Vec<Delivery>)
        requires
            self.wf(),
        ensures
            self@.connected(target@) ==> fans_out(
                deliveries@,
                set![target@],
                |frame: Frame| frame == Frame::Message(message),
            ),
            !self@.connected(target@) ==> fans_out(
                deliveries@,
                self@.clients.dom().intersect(set![from@]),
                |frame: Frame| is_error(frame, no_client_named(target@)),
            ),
    {
        let mut deliveries: Vec<Delivery> = Vec::new();
        if self.clients.contains(target) {
            deliveries.push(Delivery { to: target.clone(), frame: Frame::Message(message) });
            proof {
                assert(deliveries@[0].to@ == target@);
            }
        } else if self.clients.contains(from) {
            let text = no_client_named_text(target);
            deliveries.push(Delivery { to: from.clone(), frame: Frame::Error { message: text } });
            proof {
                assert(deliveries@[0].to@ == from@);
            }
        }
        deliveries
    }

    /// A message for all subscribers of `topic`.
    pub fn route_topic(&self, topic: &String, message: BusMessage) -> (deliveries: Vec<Delivery>)
        requires
            self.wf(),
        ensures
            fans_out(
                deliveries@,
                self@.subscribers(topic@).intersect(self@.clients.dom()),
                |frame: Frame| frame == Frame::Message(message),
            ),
    {
        match self.topics.find(topic) {
            Some(place) => {
                let subscribers = self.topics.value_at(place);
                proof {
                    let all = subscribers@.dom().intersect(self@.clients.dom());
                    assert(all.filter(|name: Seq<char>| !is_exempt(None, name)) =~= all);
                }
                self.deliveries_to(subscribers, Frame::Message(message), None)
            },
            None => Vec::new(),
        }
    }

    /// A message for all clients other than its sender.
    pub fn route_broadcast(&self, from: &String, message: BusMessage) -> (deliveries: Vec<Delivery>)
        requires
            self.wf(),
        ensures
            fans_out(
                deliveries@,
                self@.peers(from@),
                |frame: Frame| frame == Frame::Message(message),
            ),
    {
        self.broadcast_peer_event(Frame::Message(message), from)
    }

    /// A message from the client `from`, for whom its target names.
    pub fn handle_message(&self, from: &String, message: BusMessage) -> (deliveries: Vec<Delivery>)
        requires
            self.wf(),
        ensures
            self@.routes(from@, message, deliveries@),
    {
        match message.to.clone() {
            Target::Named(target) => self.route_named(from, &target, message),
            Target::Topic(topic) => self.route_topic(&topic, message),
            Target::Broadcast => self.route_broadcast(from, message),
        }
    }

    /// A connection asks to be known as `name`. A name in use is refused; otherwise the
    /// other clients are told.
    pub fn handle_register(&mut self, name: String, sender: Sender<Frame>) -> (answer: (
        Result<(), String>,
        Vec<Delivery>,
    ))
        requires
            old(self).wf(),
        ensures
            final(self).wf(),
            final(self)@ == old(self)@.after(Event::Register { name, sender }),
            old(self)@.registration_reply(name@, answer.0),
            answer.0 is Err ==> answer.1@.len() == 0,
            answer.0 is Ok ==> fans_out(
                answer.1@,
                old(self)@.peers(name@),
                |frame: Frame| is_peer_connected(frame, name@),
            ),
    {
        if self.clients.contains(&name) {
            return (Err(name_taken_text(&name)), Vec::new());
        }
        let ghost before = *self;
        self.clients.add(name.clone(), sender);
        let deliveries = self.broadcast_peer_event(
            Frame::PeerConnected { name: name.clone() },
            &name,
        );
        proof {
            assert(self@.peers(name@) =~= before@.peers(name@));
        }
        (Ok(()), deliveries)
    }

    /// The client `name` subscribes to `topic`.
    pub fn subscribe(&mut self, name: String, topic: String)
        requires
            old(self).wf(),
        ensures
            final(self).wf(),
            final(self)@ == old(self)@.subscribed(name@, topic@),
    {
        let ghost before = *self;
        let ghost key = topic@;
        let ghost member = name@;
        match self.topics.find(&topic) {
            Some(place) => {
                let subscribers = self.topics.value_mut(place);
                if !subscribers.contains(&name) {
                    subscribers.add(name, ());
                }
                proof {
                    let changed = self.topics.column()[place as int];
                    before.topics.lemma_changed(self.topics, place as int, changed);
                    assert(changed@.dom() =~= before@.subscribers(key).insert(member));
                }
            },
            None => {
                let mut subscribers: NameSet = NameTable::new();
                subscribers.add(name, ());
                proof {
                    assert(subscribers@.dom() =~= before@.subscribers(key).insert(member));
                }
                self.topics.add(topic, subscribers);
            },
        }
        proof {
            assert(self@.topics =~= before@.subscribed(member, key).topics);
        }
    }

    /// The client `name` unsubscribes from `topic`.
    pub fn unsubscribe(&mut self, name: &String, topic: &String)
        requires
            old(self).wf(),
        ensures
            final(self).wf(),
            final(self)@ == old(self)@.unsubscribed(name@, topic@),
    {
        let ghost before = *self;
        match self.topics.find(topic) {
            Some(place) => {
                self.topics.value_mut(place).take(name);
                proof {
                    let changed = self.topics.column()[place as int];
                    before.topics.lemma_changed(self.topics, place as int, changed);
                    assert(changed@.dom() =~= before@.topics[topic@].remove(name@));
                }
            },
            None => {},
        }
        proof {
            assert(self@.topics =~= before@.unsubscribed(name@, topic@).topics);
        }
    }

    /// The connection of `name` has ended: the client and its subscriptions go, and the
    /// other clients are told.
    pub fn handle_disconnect(&mut self, name: &String) -> (deliveries: Vec<Delivery>)
        requires
            old(self).wf(),
        ensures
            final(self).wf(),
            final(self)@ == old(self)@.left(name@),
            fans_out(
                deliveries@,
                old(self)@.peers(name@),
                |frame: Frame| is_peer_disconnected(frame, name@),
            ),
    {
        let ghost before = *self;
        self.clients.take(name);
        let mut place: usize = 0;
        while place < self.topics.len()
            invariant
                before.wf(),
                self.wf(),
                self.clients@ == before.clients@.remove(name@),
                self.topics.order() == before.topics.order(),
                place <= self.topics.order().len(),
                forall|i: int|
                    0 <= i < place ==> (#[trigger] self.topics.column()[i])@.dom()
                        == before.topics.column()[i]@.dom().remove(name@),
                forall|i: int|
                    place <= i < self.topics.order().len() ==> #[trigger] self.topics.column()[i]
                        == before.topics.column()[i],
            decreases self.topics.order().len() - place,
        {
            let ghost column = self.topics.column();
            self.topics.value_mut(place).take(name);
            proof {
                let changed = self.topics.column()[place as int];
                assert(changed@.dom() =~= column[place as int]@.dom().remove(name@));
            }
            place = place + 1;
        }
        proof {
            assert forall|topic: Seq<char>| self@.topics.dom().contains(topic) implies self@.topics[topic]
                == before@.left(name@).topics[topic] by {
                let i = self.topics.order().index_of(topic);
                self.topics.lemma_place(i);
                before.topics.lemma_place(i);
            }
            assert(self@.topics =~= before@.left(name@).topics);
            assert(self@.peers(name@) =~= before@.peers(name@));
        }
        self.broadcast_peer_event(Frame::PeerDisconnected { name: name.clone() }, name)
    }

    /// Handles one event.
    pub fn handle_event(&mut self, event: Event) -> (outcome: Outcome)
        requires
            old(self).wf(),
        ensures
            final(self).wf(),
            final(self)@ == old(self)@.after(event),
            old(self)@.answers(event, outcome),
    {
        match event {
            Event::Register { name, sender } => {
                let (reply, deliveries) = self.handle_register(name, sender);
                Outcome { reply: Some(reply), deliveries }
            },
            Event::Message { from, message } => {
                let deliveries = self.handle_message(&from, message);
                Outcome { reply: None, deliveries }
            },
            Event::Subscribe { name, topic } => {
                self.subscribe(name, topic);
                Outcome { reply: None, deliveries: Vec::new() }
            },
            Event::Unsubscribe { name, topic } => {
                self.unsubscribe(&name, &topic);
                Outcome { reply: None, deliveries: Vec::new() }
            },
            Event::Disconnected { name } => {
                let deliveries = self.handle_disconnect(&name);
                Outcome { reply: None, deliveries }
            },
        }
    }
}

impl Default for Broker {
    fn default() -> (broker: Broker)
        ensures
            broker.wf(),
            broker@ == BrokerView::initial(),
    {
        Broker::new()
    }
}

/// A registration under a name in use is refused and changes nothing; one under any
/// other name is accepted.
pub proof fn law_name_in_use_is_refused(
    broker: BrokerView,
    name: String,
    sender: Sender<Frame>,
    outcome: Outcome,
)
    requires
        broker.answers(Event::Register { name, sender }, outcome),
    ensures
        broker.connected(name@) ==> {
            &&& outcome.reply matches Some(Err(reason))
            &&& reason@ == name_taken(name@)
            &&& outcome.deliveries@.len() == 0
            &&& broker.after(Event::Register { name, sender }) == broker
        },
        !broker.connected(name@) ==> {
            &&& outcome.reply matches Some(Ok(_))
            &&& broker.after(Event::Register { name, sender }).connected(name@)
        },
{
}

/// Whatever an event gives rise to is for clients that are connected when it is sent.
pub proof fn law_recipients_are_connected(broker: BrokerView, event: Event, outcome: Outcome)
    requires
        broker.answers(event, outcome),
    ensures
        forall|i: int|
            0 <= i < outcome.deliveries@.len() ==> broker.after(event).connected(
                (#[trigger] outcome.deliveries@[i]).to@,
            ),
{
    assert forall|i: int| 0 <= i < outcome.deliveries@.len() implies broker.after(event).connected(
        (#[trigger] outcome.deliveries@[i]).to@,
    ) by {
        let to = outcome.deliveries@[i].to@;
        match event {
            Event::Register { name, sender } => {
                assert(broker.peers(name@).contains(to));
            },
            Event::Message { from, message } => {
                match message.to {
                    Target::Named(target) => {},
                    Target::Topic(topic) => {
                        assert(broker.audience(topic@).contains(to));
                    },
                    Target::Broadcast => {
                        assert(broker.peers(from@).contains(to));
                    },
                }
            },
            Event::Disconnected { name } => {
                assert(broker.peers(name@).contains(to));
            },
            _ => {},
        }
    }
}

/// Nobody gets a frame twice for one event.
pub proof fn law_one_frame_each(broker: BrokerView, event: Event, outcome: Outcome, i: int, j: int)
    requires
        broker.answers(event, outcome),
        0 <= i < j < outcome.deliveries@.len(),
    ensures
        outcome.deliveries@[i].to@ != outcome.deliveries@[j].to@,
{
    match event {
        Event::Message { from, message } => {
            match message.to {
                Target::Named(_) => {},
                Target::Topic(_) => {},
                Target::Broadcast => {},
            }
        },
        _ => {},
    }
}

/// A message is passed on as it is, and the broker's state stays. Only a message to a named
/// client can give rise to an error.
pub proof fn law_messages_are_not_changed(
    broker: BrokerView,
    from: String,
    message: BusMessage,
    outcome: Outcome,
    i: int,
)
    requires
        broker.answers(Event::Message { from, message }, outcome),
        0 <= i < outcome.deliveries@.len(),
    ensures
        broker.after(Event::Message { from, message }) == broker,
        outcome.deliveries@[i].frame matches Frame::Message(passed) ==> passed == message,
        outcome.deliveries@[i].frame is Message || outcome.deliveries@[i].frame is Error && message.to
            is Named,
{
    let frame = outcome.deliveries@[i].frame;
    match message.to {
        Target::Named(target) => {
            if !broker.connected(target@) {
                assert(is_error(frame, no_client_named(target@)));
            }
        },
        Target::Topic(_) => {},
        Target::Broadcast => {},
    }
}

/// A message to a client that is not connected reaches nobody; its sender, if connected,
/// gets an error instead.
pub proof fn law_unknown_target_is_reported(
    broker: BrokerView,
    from: String,
    message: BusMessage,
    outcome: Outcome,
)
    requires
        broker.answers(Event::Message { from, message }, outcome),
        message.to matches Target::Named(target) && !broker.connected(target@),
    ensures
        broker.connected(from@) ==> {
            &&& outcome.deliveries@.len() == 1
            &&& outcome.deliveries@[0].to@ == from@
            &&& is_error(
                outcome.deliveries@[0].frame,
                no_client_named(message.to->Named_0@),
            )
        },
        !broker.connected(from@) ==> outcome.deliveries@.len() == 0,
{
    let deliveries = outcome.deliveries@;
    let recipients = broker.clients.dom().intersect(set![from@]);
    if broker.connected(from@) {
        assert(recipients.contains(from@));
        assert(reaches(deliveries, from@));
        if deliveries.len() > 1 {
            assert(recipients.contains(deliveries[0].to@) && recipients.contains(deliveries[1].to@));
        }
    } else if deliveries.len() > 0 {
        assert(recipients.contains(deliveries[0].to@));
    }
}

/// The sender of a message to all does not get it back.
pub proof fn law_no_echo(broker: BrokerView, from: String, message: BusMessage, outcome: Outcome)
    requires
        broker.answers(Event::Message { from, message }, outcome),
        message.to is Broadcast,
    ensures
        !reaches(outcome.deliveries@, from@),
{
    if reaches(outcome.deliveries@, from@) {
        let i = choose|i: int|
            0 <= i < outcome.deliveries@.len() && (#[trigger] outcome.deliveries@[i]).to@ == from@;
        assert(broker.peers(from@).contains(outcome.deliveries@[i].to@));
    }
}

/// A client that has disconnected is in no list any more, and its name is free.
pub proof fn law_disconnected_leaves_no_trace(broker: BrokerView, name: String, topic: Seq<char>)
    ensures
        !broker.after(Event::Disconnected { name }).connected(name@),
        !broker.after(Event::Disconnected { name }).subscribers(topic).contains(name@),
{
}

/// Disconnecting one client changes nothing for the others.
pub proof fn law_disconnect_spares_others(
    broker: BrokerView,
    name: String,
    other: Seq<char>,
    topic: Seq<char>,
)
    requires
        other != name@,
    ensures
        broker.after(Event::Disconnected { name }).connected(other) == broker.connected(other),
        broker.connected(other) ==> broker.after(Event::Disconnected { name }).clients[other]
            == broker.clients[other],
        broker.after(Event::Disconnected { name }).subscribers(topic).contains(other)
            == broker.subscribers(topic).contains(other),
{
}

/// Subscribing makes a client a subscriber of that topic, a second time changes nothing,
/// and no other subscription is affected.
pub proof fn law_subscribe(
    broker: BrokerView,
    name: String,
    topic: String,
    other: Seq<char>,
    elsewhere: Seq<char>,
)
    ensures
        ({
            let after = broker.after(Event::Subscribe { name, topic });
            &&& after.subscribers(topic@).contains(name@)
            &&& after.after(Event::Subscribe { name, topic }) == after
            &&& other != name@ || elsewhere != topic@ ==> after.subscribers(elsewhere).contains(
                other,
            ) == broker.subscribers(elsewhere).contains(other)
        }),
{
    let after = broker.after(Event::Subscribe { name, topic });
    let again = after.after(Event::Subscribe { name, topic });
    assert(again.topics[topic@] =~= after.topics[topic@]);
    assert(again.topics =~= after.topics);
}

/// Unsubscribing undoes subscribing, and no other subscription is affected.
pub proof fn law_unsubscribe(
    broker: BrokerView,
    name: String,
    topic: String,
    other: Seq<char>,
    elsewhere: Seq<char>,
)
    ensures
        ({
            let after = broker.after(Event::Unsubscribe { name, topic });
            &&& !after.subscribers(topic@).contains(name@)
            &&& other != name@ || elsewhere != topic@ ==> after.subscribers(elsewhere).contains(
                other,
            ) == broker.subscribers(elsewhere).contains(other)
        }),
        !broker.subscribers(topic@).contains(name@) ==> broker.after(
            Event::Subscribe { name, topic },
        ).after(Event::Unsubscribe { name, topic }).subscribers(elsewhere) == broker.subscribers(
            elsewhere,
        ),
{
    let back = broker.after(Event::Subscribe { name, topic }).after(
        Event::Unsubscribe { name, topic },
    );
    if !broker.subscribers(topic@).contains(name@) {
        assert(back.subscribers(elsewhere) =~= broker.subscribers(elsewhere));
    }
}

impl BrokerView {
    /// Whether every subscriber is connected.
    pub open spec fn subscribers_are_connected(self) -> bool {
        forall|topic: Seq<char>, name: Seq<char>| #[trigger]
            self.subscribers(topic).contains(name) ==> self.connected(name)
    }

    /// The state after `events`, one after the other.
    pub open spec fn after_all(self, events: Seq<Event>) -> BrokerView
        decreases events.len(),
    {
        if events.len() == 0 {
            self
        } else {
            self.after(events[0]).after_all(events.drop_first())
        }
    }

    /// Whether, as `events` come, every subscription is that of a connected client.
    pub open spec fn clients_subscribe(self, events: Seq<Event>) -> bool
        decreases events.len(),
    {
        events.len() > 0 ==> {
            &&& events[0] matches Event::Subscribe { name, .. } ==> self.connected(name@)
            &&& self.after(events[0]).clients_subscribe(events.drop_first())
        }
    }
}

/// Whether `event` is something that the client `name` does while it is connected.
pub open spec fn is_doing_of(event: Event, name: Seq<char>) -> bool {
    match event {
        Event::Message { from, .. } => from@ == name,
        Event::Subscribe { name: own, .. } => own@ == name,
        Event::Unsubscribe { name: own, .. } => own@ == name,
        _ => false,
    }
}

/// What a client does changes nobody's connection and no other's subscriptions, and no
/// topic is forgotten.
proof fn lemma_doings(broker: BrokerView, name: Seq<char>, events: Seq<Event>)
    requires
        forall|i: int| 0 <= i < events.len() ==> is_doing_of(#[trigger] events[i], name),
    ensures
        broker.after_all(events).clients == broker.clients,
        forall|topic: Seq<char>, other: Seq<char>|
            other != name ==> #[trigger] broker.after_all(events).subscribers(topic).contains(other)
                == broker.subscribers(topic).contains(other),
        broker.topics.dom().subset_of(broker.after_all(events).topics.dom()),
    decreases events.len(),
{
    if events.len() > 0 {
        let next = broker.after(events[0]);
        let rest = events.drop_first();
        assert(is_doing_of(events[0], name));
        assert forall|i: int| 0 <= i < rest.len() implies is_doing_of(#[trigger] rest[i], name) by {
            assert(rest[i] == events[i + 1]);
        }
        lemma_doings(next, name, rest);
        assert forall|topic: Seq<char>, other: Seq<char>| other != name implies
            #[trigger] broker.after_all(events).subscribers(topic).contains(other)
                == broker.subscribers(topic).contains(other) by {
            assert(next.subscribers(topic).contains(other) == broker.subscribers(topic).contains(
                other,
            ));
        }
    }
}

/// A client that registers, sends, subscribes and unsubscribes as it likes, and then
/// disconnects, leaves the broker with the clients and the subscribers that it had. All
/// that can be left of it are topics without subscribers; where it brought up no new topic
/// the broker is as it was.
pub proof fn law_disconnect_undoes_register(
    broker: BrokerView,
    name: String,
    sender: Sender<Frame>,
    events: Seq<Event>,
)
    requires
        !broker.connected(name@),
        forall|topic: Seq<char>| !(#[trigger] broker.subscribers(topic)).contains(name@),
        forall|i: int| 0 <= i < events.len() ==> is_doing_of(#[trigger] events[i], name@),
    ensures
        ({
            let after = broker.after(Event::Register { name, sender }).after_all(events).after(
                Event::Disconnected { name },
            );
            &&& after.clients == broker.clients
            &&& forall|topic: Seq<char>| #[trigger]
                after.subscribers(topic) == broker.subscribers(topic)
            &&& events.len() == 0 || after.topics.dom() == broker.topics.dom() ==> after == broker
        }),
{
    let joined = broker.after(Event::Register { name, sender });
    let busy = joined.after_all(events);
    let after = busy.after(Event::Disconnected { name });
    lemma_doings(joined, name@, events);
    assert(after.clients =~= broker.clients);
    assert forall|topic: Seq<char>| #[trigger]
        after.subscribers(topic) == broker.subscribers(topic) by {
        assert forall|other: Seq<char>| after.subscribers(topic).contains(other)
            == broker.subscribers(topic).contains(other) by {
            if other != name@ {
                assert(busy.subscribers(topic).contains(other) == joined.subscribers(
                    topic,
                ).contains(other));
            } else {
                assert(!broker.subscribers(topic).contains(name@));
            }
        }
        assert(after.subscribers(topic) =~= broker.subscribers(topic));
    }
    if events.len() == 0 || after.topics.dom() == broker.topics.dom() {
        assert(after.topics.dom() =~= broker.topics.dom());
        assert forall|topic: Seq<char>| broker.topics.dom().contains(topic) implies
            after.topics[topic] == broker.topics[topic] by {
            assert(after.subscribers(topic) == broker.subscribers(topic));
        }
        assert(after.topics =~= broker.topics);
    }
}

/// As long as only connected clients subscribe, every subscriber is connected.
pub proof fn law_subscribers_stay_connected(broker: BrokerView, events: Seq<Event>)
    requires
        broker.subscribers_are_connected(),
        broker.clients_subscribe(events),
    ensures
        broker.after_all(events).subscribers_are_connected(),
    decreases events.len(),
{
    if events.len() > 0 {
        let event = events[0];
        let after = broker.after(event);
        assert forall|topic: Seq<char>, name: Seq<char>| #[trigger]
            after.subscribers(topic).contains(name) implies after.connected(name) by {
            if broker.subscribers(topic).contains(name) {
                assert(broker.connected(name));
            }
        }
        law_subscribers_stay_connected(after, events.drop_first());
    }
}

/// A new broker has no subscriber that is not connected.
pub proof fn law_new_broker_has_no_subscribers()
    ensures
        BrokerView::initial().subscribers_are_connected(),
{
}

/// Where every subscriber is connected, a message to a topic reaches all its subscribers,
/// its sender too if that one subscribes, and nobody else.
pub proof fn law_topic_reaches_subscribers(
    broker: BrokerView,
    from: String,
    message: BusMessage,
    outcome: Outcome,
    name: Seq<char>,
)
    requires
        broker.subscribers_are_connected(),
        broker.answers(Event::Message { from, message }, outcome),
        message.to is Topic,
    ensures
        reaches(outcome.deliveries@, name) <==> broker.subscribers(message.to->Topic_0@).contains(
            name,
        ),
{
    let topic = message.to->Topic_0@;
    if broker.subscribers(topic).contains(name) {
        assert(broker.audience(topic).contains(name));
    }
    if reaches(outcome.deliveries@, name) {
        let i = choose|i: int|
            0 <= i < outcome.deliveries@.len() && (#[trigger] outcome.deliveries@[i]).to@ == name;
        assert(broker.audience(topic).contains(outcome.deliveries@[i].to@));
    }
}

/// A message to all reaches every connected client other than its sender, and a message
/// to a connected client reaches that one.
pub proof fn law_message_reaches_its_target(
    broker: BrokerView,
    from: String,
    message: BusMessage,
    outcome: Outcome,
    name: Seq<char>,
)
    requires
        broker.answers(Event::Message { from, message }, outcome),
    ensures
        message.to is Broadcast ==> (reaches(outcome.deliveries@, name) <==> broker.connected(name)
            && name != from@),
        message.to matches Target::Named(target) ==> broker.connected(target@) ==> (reaches(
            outcome.deliveries@,
            name,
        ) <==> name == target@),
{
    if message.to is Broadcast && broker.connected(name) && name != from@ {
        assert(broker.peers(from@).contains(name));
    }
    if let Target::Named(target) = message.to {
        assert(set![target@].contains(target@));
    }
    if reaches(outcome.deliveries@, name) {
        let i = choose|i: int|
            0 <= i < outcome.deliveries@.len() && (#[trigger] outcome.deliveries@[i]).to@ == name;
        if message.to is Broadcast {
            assert(broker.peers(from@).contains(outcome.deliveries@[i].to@));
        }
    }
}

/// Who connects and who disconnects is told to every other client, and to nobody else.
pub proof fn law_peers_are_told(
    broker: BrokerView,
    name: String,
    sender: Sender<Frame>,
    joining: Outcome,
    leaving: Outcome,
    other: Seq<char>,
)
    requires
        !broker.connected(name@),
        broker.answers(Event::Register { name, sender }, joining),
        broker.after(Event::Register { name, sender }).answers(
            Event::Disconnected { name },
            leaving,
        ),
    ensures
        reaches(joining.deliveries@, other) <==> broker.connected(other),
        reaches(leaving.deliveries@, other) <==> broker.connected(other),
        forall|i: int|
            0 <= i < joining.deliveries@.len() ==> is_peer_connected(
                (#[trigger] joining.deliveries@[i]).frame,
                name@,
            ),
        forall|i: int|
            0 <= i < leaving.deliveries@.len() ==> is_peer_disconnected(
                (#[trigger] leaving.deliveries@[i]).frame,
                name@,
            ),
{
    let after = broker.after(Event::Register { name, sender });
    assert(after.peers(name@) =~= broker.peers(name@));
    assert(broker.peers(name@).contains(other) == broker.connected(other));
    if reaches(joining.deliveries@, other) {
        let i = choose|i: int|
            0 <= i < joining.deliveries@.len() && (#[trigger] joining.deliveries@[i]).to@ == other;
        assert(broker.peers(name@).contains(joining.deliveries@[i].to@));
    }
    if reaches(leaving.deliveries@, other) {
        let i = choose|i: int|
            0 <= i < leaving.deliveries@.len() && (#[trigger] leaving.deliveries@[i]).to@ == other;
        assert(broker.peers(name@).contains(leaving.deliveries@[i].to@));
    }
}

/// What a registration comes to. Under a name in use it is refused with a reason that gives
/// the name, nobody is told, and nothing changes. Under any other name it is accepted: that
/// client is added with its sender, every client that was connected is told of it once, and
/// nobody else is told anything. Either way nobody's subscriptions change.
pub proof fn law_what_registering_does(
    broker: BrokerView,
    name: String,
    sender: Sender<Frame>,
    outcome: Outcome,
)
    requires
        broker.answers(Event::Register { name, sender }, outcome),
    ensures
        broker.after(Event::Register { name, sender }).topics == broker.topics,
        broker.clients.dom().contains(name@) ==> {
            &&& outcome.reply matches Some(Err(reason))
            &&& reason@ == "name '"@ + name@ + "' already taken"@
            &&& outcome.deliveries@.len() == 0
            &&& broker.after(Event::Register { name, sender }).clients == broker.clients
        },
        !broker.clients.dom().contains(name@) ==> {
            &&& outcome.reply matches Some(Ok(_))
            &&& broker.after(Event::Register { name, sender }).clients == broker.clients.insert(
                name@,
                sender,
            )
            &&& forall|i: int|
                0 <= i < outcome.deliveries@.len() ==> {
                    &&& broker.clients.dom().contains((#[trigger] outcome.deliveries@[i]).to@)
                    &&& outcome.deliveries@[i].frame matches Frame::PeerConnected { name: told }
                    &&& told@ == name@
                }
            &&& forall|i: int, j: int|
                0 <= i < j < outcome.deliveries@.len() ==> (#[trigger] outcome.deliveries@[i]).to@
                    != (#[trigger] outcome.deliveries@[j]).to@
            &&& forall|other: Seq<char>| #[trigger]
                broker.clients.dom().contains(other) ==> exists|i: int|
                    0 <= i < outcome.deliveries@.len() && (#[trigger] outcome.deliveries@[i]).to@
                        == other
        },
{
    if !broker.clients.dom().contains(name@) {
        assert forall|i: int| 0 <= i < outcome.deliveries@.len() implies broker.clients.dom().contains(
            (#[trigger] outcome.deliveries@[i]).to@,
        ) by {
            assert(broker.peers(name@).contains(outcome.deliveries@[i].to@));
        }
        assert forall|other: Seq<char>| #[trigger] broker.clients.dom().contains(other) implies exists|
            i: int,
        | 0 <= i < outcome.deliveries@.len() && (#[trigger] outcome.deliveries@[i]).to@ == other by {
            assert(broker.peers(name@).contains(other));
        }
    }
}

/// A registration, accepted or refused, changes no subscription. In particular a client that
/// has just registered subscribes to nothing that its name did not subscribe to before.
pub proof fn law_registering_subscribes_to_nothing(
    broker: BrokerView,
    name: String,
    sender: Sender<Frame>,
    topic: Seq<char>,
    other: Seq<char>,
)
    ensures
        ({
            let after = broker.after(Event::Register { name, sender });
            &&& after.topics.dom().contains(topic) == broker.topics.dom().contains(topic)
            &&& after.subscribers(topic) == broker.subscribers(topic)
            &&& after.topics.dom().contains(topic) && after.topics[topic].contains(other)
                ==> broker.topics.dom().contains(topic) && broker.topics[topic].contains(other)
        }),
{
}

/// What a message to a topic comes to, whoever sends it: every connected client that
/// subscribes to the topic gets exactly that message, once, and nobody gets anything else.
/// There is no reply, and nothing changes.
pub proof fn law_what_publishing_does(
    broker: BrokerView,
    from: String,
    message: BusMessage,
    outcome: Outcome,
)
    requires
        broker.answers(Event::Message { from, message }, outcome),
        message.to is Topic,
    ensures
        outcome.reply is None,
        broker.after(Event::Message { from, message }).clients == broker.clients,
        broker.after(Event::Message { from, message }).topics == broker.topics,
        forall|i: int|
            0 <= i < outcome.deliveries@.len() ==> {
                &&& (#[trigger] outcome.deliveries@[i]).frame == Frame::Message(message)
                &&& broker.clients.dom().contains(outcome.deliveries@[i].to@)
                &&& broker.topics.dom().contains(message.to->Topic_0@)
                &&& broker.topics[message.to->Topic_0@].contains(outcome.deliveries@[i].to@)
            },
        forall|i: int, j: int|
            0 <= i < j < outcome.deliveries@.len() ==> (#[trigger] outcome.deliveries@[i]).to@ != (
            #[trigger] outcome.deliveries@[j]).to@,
        forall|name: Seq<char>|
            broker.topics.dom().contains(message.to->Topic_0@)
                && broker.topics[message.to->Topic_0@].contains(name)
                && #[trigger] broker.clients.dom().contains(name) ==> exists|i: int|
                0 <= i < outcome.deliveries@.len() && (#[trigger] outcome.deliveries@[i]).to@
                    == name,
{
    let topic = message.to->Topic_0@;
    assert forall|i: int| 0 <= i < outcome.deliveries@.len() implies {
        &&& (#[trigger] outcome.deliveries@[i]).frame == Frame::Message(message)
        &&& broker.clients.dom().contains(outcome.deliveries@[i].to@)
        &&& broker.topics.dom().contains(topic)
        &&& broker.topics[topic].contains(outcome.deliveries@[i].to@)
    } by {
        assert(broker.audience(topic).contains(outcome.deliveries@[i].to@));
    }
    assert forall|name: Seq<char>|
        broker.topics.dom().contains(topic) && broker.topics[topic].contains(name)
            && #[trigger] broker.clients.dom().contains(name) implies exists|i: int|
        0 <= i < outcome.deliveries@.len() && (#[trigger] outcome.deliveries@[i]).to@ == name by {
        assert(broker.audience(topic).contains(name));
    }
}

/// What a message to all comes to: every connected client but its sender gets exactly that
/// message, once, and nobody gets anything else. There is no reply, and nothing changes.
pub proof fn law_what_broadcasting_does(
    broker: BrokerView,
    from: String,
    message: BusMessage,
    outcome: Outcome,
)
    requires
        broker.answers(Event::Message { from, message }, outcome),
        message.to is Broadcast,
    ensures
        outcome.reply is None,
        broker.after(Event::Message { from, message }).clients == broker.clients,
        broker.after(Event::Message { from, message }).topics == broker.topics,
        forall|i: int|
            0 <= i < outcome.deliveries@.len() ==> {
                &&& (#[trigger] outcome.deliveries@[i]).frame == Frame::Message(message)
                &&& broker.clients.dom().contains(outcome.deliveries@[i].to@)
                &&& outcome.deliveries@[i].to@ != from@
            },
        forall|i: int, j: int|
            0 <= i < j < outcome.deliveries@.len() ==> (#[trigger] outcome.deliveries@[i]).to@ != (
            #[trigger] outcome.deliveries@[j]).to@,
        forall|name: Seq<char>| #[trigger]
            broker.clients.dom().contains(name) && name != from@ ==> exists|i: int|
                0 <= i < outcome.deliveries@.len() && (#[trigger] outcome.deliveries@[i]).to@
                    == name,
{
    assert forall|i: int| 0 <= i < outcome.deliveries@.len() implies {
        &&& (#[trigger] outcome.deliveries@[i]).frame == Frame::Message(message)
        &&& broker.clients.dom().contains(outcome.deliveries@[i].to@)
        &&& outcome.deliveries@[i].to@ != from@
    } by {
        assert(broker.peers(from@).contains(outcome.deliveries@[i].to@));
    }
    assert forall|name: Seq<char>| #[trigger]
        broker.clients.dom().contains(name) && name != from@ implies exists|i: int|
        0 <= i < outcome.deliveries@.len() && (#[trigger] outcome.deliveries@[i]).to@ == name by {
        assert(broker.peers(from@).contains(name));
    }
}

/// What a message to a named client comes to. If that client is connected, it gets exactly
/// that message, and that is all. If it is not, the sender gets one error that gives the
/// name, if the sender is connected, and nobody gets anything else. There is no reply, and
/// nothing changes.
pub proof fn law_what_sending_to_a_name_does(
    broker: BrokerView,
    from: String,
    message: BusMessage,
    outcome: Outcome,
)
    requires
        broker.answers(Event::Message { from, message }, outcome),
        message.to is Named,
    ensures
        outcome.reply is None,
        broker.after(Event::Message { from, message }).clients == broker.clients,
        broker.after(Event::Message { from, message }).topics == broker.topics,
        broker.clients.dom().contains(message.to->Named_0@) ==> {
            &&& outcome.deliveries@.len() == 1
            &&& outcome.deliveries@[0].to@ == message.to->Named_0@
            &&& outcome.deliveries@[0].frame == Frame::Message(message)
        },
        !broker.clients.dom().contains(message.to->Named_0@) && broker.clients.dom().contains(from@)
            ==> {
            &&& outcome.deliveries@.len() == 1
            &&& outcome.deliveries@[0].to@ == from@
            &&& outcome.deliveries@[0].frame matches Frame::Error { message: text }
            &&& text@ == "no client named '"@ + message.to->Named_0@ + "'"@
        },
        !broker.clients.dom().contains(message.to->Named_0@) && !broker.clients.dom().contains(
            from@,
        ) ==> outcome.deliveries@.len() == 0,
{
    let target = message.to->Named_0@;
    let deliveries = outcome.deliveries@;
    if broker.clients.dom().contains(target) {
        assert(set![target].contains(target));
        assert(reaches(deliveries, target));
        if deliveries.len() > 1 {
            assert(set![target].contains(deliveries[0].to@) && set![target].contains(
                deliveries[1].to@,
            ));
        }
    } else {
        law_unknown_target_is_reported(broker, from, message, outcome);
    }
}

/// What a subscription comes to: that client subscribes to that topic, and all else about
/// who is connected and who subscribes to what is as before. Nobody is sent anything.
pub proof fn law_what_subscribing_does(
    broker: BrokerView,
    name: String,
    topic: String,
    outcome: Outcome,
)
    requires
        broker.answers(Event::Subscribe { name, topic }, outcome),
    ensures
        outcome.reply is None,
        outcome.deliveries@.len() == 0,
        broker.after(Event::Subscribe { name, topic }).clients == broker.clients,
        broker.after(Event::Subscribe { name, topic }).topics.dom() == broker.topics.dom().insert(
            topic@,
        ),
        broker.after(Event::Subscribe { name, topic }).topics[topic@].contains(name@),
        forall|other: Seq<char>|
            other != name@ ==> (#[trigger] broker.after(
                Event::Subscribe { name, topic },
            ).topics[topic@].contains(other) <==> broker.topics.dom().contains(topic@)
                && broker.topics[topic@].contains(other)),
        forall|elsewhere: Seq<char>| #[trigger]
            broker.topics.dom().contains(elsewhere) && elsewhere != topic@ ==> broker.after(
                Event::Subscribe { name, topic },
            ).topics[elsewhere] == broker.topics[elsewhere],
{
}

/// What an unsubscription comes to: that client does not subscribe to that topic, and all
/// else about who is connected and who subscribes to what is as before. Nobody is sent
/// anything.
pub proof fn law_what_unsubscribing_does(
    broker: BrokerView,
    name: String,
    topic: String,
    outcome: Outcome,
)
    requires
        broker.answers(Event::Unsubscribe { name, topic }, outcome),
    ensures
        outcome.reply is None,
        outcome.deliveries@.len() == 0,
        broker.after(Event::Unsubscribe { name, topic }).clients == broker.clients,
        broker.after(Event::Unsubscribe { name, topic }).topics.dom() == broker.topics.dom(),
        forall|elsewhere: Seq<char>, other: Seq<char>|
            broker.topics.dom().contains(elsewhere) ==> (#[trigger] broker.after(
                Event::Unsubscribe { name, topic },
            ).topics[elsewhere].contains(other) <==> broker.topics[elsewhere].contains(other) && !(
            elsewhere == topic@ && other == name@)),
{
    assert(broker.after(Event::Unsubscribe { name, topic }).topics.dom() =~= broker.topics.dom());
}

/// What the end of a connection comes to: that client is no longer connected and subscribes
/// to nothing, and all else about who is connected and who subscribes to what is as before.
/// Every other connected client is told of it once, and nobody else is told anything.
pub proof fn law_what_disconnecting_does(broker: BrokerView, name: String, outcome: Outcome)
    requires
        broker.answers(Event::Disconnected { name }, outcome),
    ensures
        outcome.reply is None,
        broker.after(Event::Disconnected { name }).clients == broker.clients.remove(name@),
        broker.after(Event::Disconnected { name }).topics.dom() == broker.topics.dom(),
        forall|topic: Seq<char>, other: Seq<char>|
            broker.topics.dom().contains(topic) ==> (#[trigger] broker.after(
                Event::Disconnected { name },
            ).topics[topic].contains(other) <==> broker.topics[topic].contains(other) && other
                != name@),
        forall|i: int|
            0 <= i < outcome.deliveries@.len() ==> {
                &&& broker.clients.dom().contains((#[trigger] outcome.deliveries@[i]).to@)
                &&& outcome.deliveries@[i].to@ != name@
                &&& outcome.deliveries@[i].frame matches Frame::PeerDisconnected { name: told }
                &&& told@ == name@
            },
        forall|i: int, j: int|
            0 <= i < j < outcome.deliveries@.len() ==> (#[trigger] outcome.deliveries@[i]).to@ != (
            #[trigger] outcome.deliveries@[j]).to@,
        forall|other: Seq<char>| #[trigger]
            broker.clients.dom().contains(other) && other != name@ ==> exists|i: int|
                0 <= i < outcome.deliveries@.len() && (#[trigger] outcome.deliveries@[i]).to@
                    == other,
{
    assert(broker.after(Event::Disconnected { name }).topics.dom() =~= broker.topics.dom());
    assert forall|i: int| 0 <= i < outcome.deliveries@.len() implies broker.clients.dom().contains(
        (#[trigger] outcome.deliveries@[i]).to@,
    ) && outcome.deliveries@[i].to@ != name@ by {
        assert(broker.peers(name@).contains(outcome.deliveries@[i].to@));
    }
    assert forall|other: Seq<char>| #[trigger]
        broker.clients.dom().contains(other) && other != name@ implies exists|i: int|
        0 <= i < outcome.deliveries@.len() && (#[trigger] outcome.deliveries@[i]).to@ == other by {
        assert(broker.peers(name@).contains(other));
    }
}

/// A new broker has no clients, and nobody subscribes to anything.
pub proof fn law_new_broker_is_empty()
    ensures
        BrokerView::initial().clients == Map::<Seq<char>, Sender<Frame>>::empty(),
        BrokerView::initial().topics == Map::<Seq<char>, Set<Seq<char>>>::empty(),
{
}

/// Who is connected, who subscribes to a topic, who else is connected and whom a topic
/// reaches are all read off the clients and the topics.
pub proof fn law_what_a_broker_knows(broker: BrokerView, name: Seq<char>, topic: Seq<char>)
    ensures
        broker.connected(name) == broker.clients.dom().contains(name),
        forall|other: Seq<char>| #[trigger]
            broker.subscribers(topic).contains(other) <==> broker.topics.dom().contains(topic)
                && broker.topics[topic].contains(other),
        forall|other: Seq<char>| #[trigger]
            broker.peers(name).contains(other) <==> broker.clients.dom().contains(other) && other
                != name,
        forall|other: Seq<char>| #[trigger]
            broker.audience(topic).contains(other) <==> broker.clients.dom().contains(other)
                && broker.topics.dom().contains(topic) && broker.topics[topic].contains(other),
{
}

/// A fan-out is one delivery for each recipient and no other: as many deliveries as
/// recipients, each for another of them, and every frame is a wanted one.
pub proof fn law_fan_out_is_exact(
    deliveries: Seq<Delivery>,
    recipients: Set<Seq<char>>,
    wanted: spec_fn(Frame) -> bool,
)
    requires
        fans_out(deliveries, recipients, wanted),
    ensures
        forall|i: int| 0 <= i < deliveries.len() ==> wanted((#[trigger] deliveries[i]).frame),
        deliveries.map_values(|delivery: Delivery| delivery.to@).no_duplicates(),
        deliveries.map_values(|delivery: Delivery| delivery.to@).to_set() == recipients,
        recipients.finite(),
        recipients.len() == deliveries.len(),
{
    let names = deliveries.map_values(|delivery: Delivery| delivery.to@);
    assert forall|i: int, j: int| 0 <= i < names.len() && 0 <= j < names.len() && i
        != j implies names[i] != names[j] by {
        if i < j {
            assert(deliveries[i].to@ != deliveries[j].to@);
        } else {
            assert(deliveries[j].to@ != deliveries[i].to@);
        }
    }
    assert forall|name: Seq<char>| names.to_set().contains(name) == recipients.contains(name) by {
        if recipients.contains(name) {
            assert(reaches(deliveries, name));
            let i = choose|i: int|
                0 <= i < deliveries.len() && (#[trigger] deliveries[i]).to@ == name;
            assert(names[i] == name);
        }
        if names.to_set().contains(name) {
            let i = choose|i: int| 0 <= i < names.len() && names[i] == name;
            assert(recipients.contains(deliveries[i].to@));
        }
    }
    assert(names.to_set() =~= recipients);
    names.unique_seq_to_set();
}

/// The frames that the broker makes itself say just what they are for, in these words.
pub proof fn law_what_the_broker_says(frame: Frame, text: Seq<char>)
    ensures
        is_error(frame, text) <==> (frame matches Frame::Error { message } && message@ == text),
        is_peer_connected(frame, text) <==> (frame matches Frame::PeerConnected { name } && name@
            == text),
        is_peer_disconnected(frame, text) <==> (frame matches Frame::PeerDisconnected { name }
            && name@ == text),
        name_taken(text) == "name '"@ + text + "' already taken"@,
        no_client_named(text) == "no client named '"@ + text + "'"@,
{
}

/// A client that is connected and subscribes to a topic gets every message that is then sent
/// to the topic, as it was sent; once it has unsubscribed it gets none.
pub proof fn law_subscribing_is_for_getting_messages(
    broker: BrokerView,
    name: String,
    topic: String,
    from: String,
    message: BusMessage,
    subscribed: Outcome,
    unsubscribed: Outcome,
)
    requires
        broker.clients.dom().contains(name@),
        message.to matches Target::Topic(to) && to@ == topic@,
        broker.after(Event::Subscribe { name, topic }).answers(
            Event::Message { from, message },
            subscribed,
        ),
        broker.after(Event::Unsubscribe { name, topic }).answers(
            Event::Message { from, message },
            unsubscribed,
        ),
    ensures
        exists|i: int|
            0 <= i < subscribed.deliveries@.len() && (#[trigger] subscribed.deliveries@[i]).to@
                == name@ && subscribed.deliveries@[i].frame == Frame::Message(message),
        forall|i: int|
            0 <= i < unsubscribed.deliveries@.len() ==> (#[trigger] unsubscribed.deliveries@[i]).to@
                != name@,
{
    let with = broker.after(Event::Subscribe { name, topic });
    let without = broker.after(Event::Unsubscribe { name, topic });
    law_what_publishing_does(with, from, message, subscribed);
    law_what_publishing_does(without, from, message, unsubscribed);
    assert(with.clients.dom().contains(name@));
    let i = choose|i: int|
        0 <= i < subscribed.deliveries@.len() && (#[trigger] subscribed.deliveries@[i]).to@
            == name@;
    assert(subscribed.deliveries@[i].frame == Frame::Message(message));
}

/// Handling an event is what the function for that event does.
pub proof fn law_events_are_handled_each_by_its_function(
    broker: BrokerView,
    name: String,
    topic: String,
    sender: Sender<Frame>,
    message: BusMessage,
    outcome: Outcome,
)
    ensures
        broker.after(Event::Register { name, sender }) == if broker.clients.dom().contains(name@) {
            broker
        } else {
            broker.joined(name@, sender)
        },
        broker.after(Event::Subscribe { name, topic }) == broker.subscribed(name@, topic@),
        broker.after(Event::Unsubscribe { name, topic }) == broker.unsubscribed(name@, topic@),
        broker.after(Event::Disconnected { name }) == broker.left(name@),
        broker.answers(Event::Message { from: name, message }, outcome) <==> outcome.reply is None
            && broker.routes(name@, message, outcome.deliveries@),
        broker.answers(Event::Register { name, sender }, outcome) ==> outcome.reply is Some
            && broker.registration_reply(name@, outcome.reply->0),
{
}

/// A reply to a registration is an acceptance if and only if the name is free, and a refusal
/// gives the name.
pub proof fn law_registration_reply(broker: BrokerView, name: Seq<char>, reply: Result<(), String>)
    requires
        broker.registration_reply(name, reply),
    ensures
        reply is Ok <==> !broker.clients.dom().contains(name),
        reply matches Err(reason) ==> reason@ == "name '"@ + name + "' already taken"@,
{
}

} // verus!
