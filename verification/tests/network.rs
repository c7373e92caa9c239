use agent_bus::broker::{Delivery, Event};
use agent_bus::client::{await_registered, ClientError};
use agent_bus::message::{Frame, Target};
use agent_bus::session::{Action, Input, Session};
use agent_bus::{Broker, BusClient};
use tokio::sync::mpsc;

/// A broker, with the events that wait for it.
struct Network {
    broker: Broker,
    posted: Vec<Event>,
}

/// A connection, with the last frame that it was sent.
struct Connection {
    session: Option<Session>,
    sent: Option<Frame>,
}

impl Network {
    fn new() -> Network {
        Network { broker: Broker::new(), posted: Vec::new() }
    }

    fn take(&mut self, connection: &mut Connection, input: Input) {
        let (session, action) = connection.session.take().unwrap().step(input);
        connection.session = Some(session);
        match action {
            Action::Nothing => {}
            Action::Send(frame) => connection.sent = Some(frame),
            Action::Post(event) => self.posted.push(event),
            Action::AskToRegister { name } => {
                let (sender, _receiver) = mpsc::channel(4);
                self.posted.push(Event::Register { name, sender });
            }
        }
    }

    fn handle(&mut self) -> (Option<Result<(), String>>, Vec<Delivery>) {
        let outcome = self.broker.handle_event(self.posted.remove(0));
        (outcome.reply, outcome.deliveries)
    }

    fn client(&mut self, name: &str) -> Connection {
        let mut connection = connection();
        self.take(&mut connection, Input::Received(BusClient::register_request(name)));
        let (reply, _) = self.handle();
        self.take(&mut connection, Input::Replied(reply));
        connection
    }
}

fn connection() -> Connection {
    Connection { session: Some(Session::new()), sent: None }
}

fn is_active(connection: &Connection) -> bool {
    matches!(connection.session, Some(Session::Active { .. }))
}

#[test]
fn only_one_of_two_that_ask_for_a_name_gets_it() {
    let mut network = Network::new();
    let mut first = connection();
    let mut second = connection();
    network.take(&mut second, Input::Received(BusClient::register_request("alice")));
    network.take(&mut first, Input::Received(BusClient::register_request("alice")));
    let (to_second, _) = network.handle();
    let (to_first, _) = network.handle();
    network.take(&mut first, Input::Replied(to_first));
    network.take(&mut second, Input::Replied(to_second));
    assert!(!is_active(&first));
    assert!(is_active(&second));
}

#[test]
fn a_client_learns_the_verdict() {
    let mut network = Network::new();
    let first = network.client("alice");
    assert!(await_registered(Ok(first.sent.unwrap())).is_ok());
    let second = network.client("alice");
    match await_registered(Ok(second.sent.unwrap())) {
        Err(ClientError::RegistrationFailed(reason)) => {
            assert_eq!(reason, "name 'alice' already taken")
        }
        other => panic!("expected RegistrationFailed, got {:?}", other),
    }
}

#[test]
fn a_name_is_in_use_until_the_broker_learns_of_the_end() {
    let mut network = Network::new();
    let mut first = network.client("alice");
    network.take(&mut first, Input::Received(Frame::Subscribe { topic: "news".to_string() }));
    network.take(&mut first, Input::ReadFailed);
    assert!(network.broker.sender("alice").is_some());
    network.handle();
    assert!(network.broker.sender("alice").is_some());
    network.handle();
    assert!(network.broker.sender("alice").is_none());
    assert!(is_active(&network.client("alice")));
}

#[test]
fn a_late_subscription_leaves_no_subscriber_behind() {
    let mut network = Network::new();
    let mut first = network.client("alice");
    let mut bob = network.client("bob");
    network.take(&mut first, Input::Received(Frame::Subscribe { topic: "news".to_string() }));
    network.take(&mut first, Input::ReadFailed);
    network.handle();
    network.handle();
    assert!(is_active(&network.client("alice")));
    let frame = client_end("bob").message(
        uuid::Uuid::nil(),
        Target::Topic("news".to_string()),
        "update".to_string(),
        serde_json::Value::Null,
    );
    network.take(&mut bob, Input::Received(frame));
    let (_, deliveries) = network.handle();
    assert!(deliveries.is_empty());
}

#[test]
fn a_sent_message_arrives_as_it_was_sent() {
    let mut network = Network::new();
    let mut alice = network.client("alice");
    let _bob = network.client("bob");
    let _carol = network.client("carol");
    let id = uuid::Uuid::from_u128(7);
    let payload = serde_json::Value::Bool(true);
    let frame = client_end("alice").message(id, "bob".into(), "ping".to_string(), payload.clone());
    network.take(&mut alice, Input::Received(frame));
    let (_, deliveries) = network.handle();
    assert_eq!(deliveries.len(), 1);
    assert_eq!(deliveries[0].to, "bob");
    match &deliveries[0].frame {
        Frame::Message(message) => {
            assert_eq!(message.id, id);
            assert_eq!(message.from, "alice");
            assert_eq!(message.to, Target::Named("bob".to_string()));
            assert_eq!(message.kind, "ping");
            assert_eq!(message.payload, payload);
        }
        other => panic!("expected Message, got {:?}", other),
    }
}

fn client_end(name: &str) -> BusClient {
    let (writer, _) = mpsc::channel(4);
    let (_, reader) = mpsc::channel(4);
    match BusClient::connect(name, Ok(Frame::Registered), writer, reader) {
        Ok(client) => client,
        Err(error) => panic!("expected a client, got {:?}", error),
    }
}
