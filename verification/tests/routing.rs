use agent_bus::broker::{Delivery, Event, Outcome};
use agent_bus::broker::BrokerError;
use agent_bus::message::{BusMessage, Frame, Target};
use agent_bus::wire::WireError;
use agent_bus::Broker;
use tokio::sync::mpsc;

fn register(broker: &mut Broker, name: &str) -> Outcome {
    let (sender, _receiver) = mpsc::channel(4);
    broker.handle_event(Event::Register { name: name.to_string(), sender })
}

fn broker_with(names: &[&str]) -> Broker {
    let mut broker = Broker::new();
    for name in names {
        assert!(matches!(register(&mut broker, name).reply, Some(Ok(()))));
    }
    broker
}

fn message(to: Target) -> BusMessage {
    BusMessage {
        id: uuid::Uuid::nil(),
        from: "alice".to_string(),
        to,
        kind: "ping".to_string(),
        payload: serde_json::Value::Bool(true),
    }
}

fn send(broker: &mut Broker, from: &str, to: Target) -> Vec<Delivery> {
    let event = Event::Message { from: from.to_string(), message: message(to) };
    let outcome = broker.handle_event(event);
    assert!(outcome.reply.is_none());
    outcome.deliveries
}

fn subscribe(broker: &mut Broker, name: &str, topic: &str) {
    let event = Event::Subscribe { name: name.to_string(), topic: topic.to_string() };
    let outcome = broker.handle_event(event);
    assert!(outcome.reply.is_none());
    assert!(outcome.deliveries.is_empty());
}

fn unsubscribe(broker: &mut Broker, name: &str, topic: &str) {
    let event = Event::Unsubscribe { name: name.to_string(), topic: topic.to_string() };
    assert!(broker.handle_event(event).deliveries.is_empty());
}

fn recipients(deliveries: &[Delivery]) -> Vec<String> {
    let mut names: Vec<String> = deliveries.iter().map(|d| d.to.clone()).collect();
    names.sort();
    names
}

fn all_are_the_message(deliveries: &[Delivery]) -> bool {
    deliveries.iter().all(|d| match &d.frame {
        Frame::Message(m) => m.kind == "ping" && m.payload == serde_json::Value::Bool(true),
        _ => false,
    })
}

#[test]
fn registration_is_announced_to_the_others() {
    let mut broker = broker_with(&["alice", "bob"]);
    let outcome = register(&mut broker, "carol");
    assert_eq!(outcome.reply, Some(Ok(())));
    assert_eq!(recipients(&outcome.deliveries), ["alice", "bob"]);
    for delivery in &outcome.deliveries {
        match &delivery.frame {
            Frame::PeerConnected { name } => assert_eq!(name, "carol"),
            other => panic!("expected PeerConnected, got {:?}", other),
        }
    }
}

#[test]
fn a_name_in_use_is_refused() {
    let mut broker = broker_with(&["alice", "bob"]);
    let outcome = register(&mut broker, "alice");
    assert_eq!(outcome.reply, Some(Err("name 'alice' already taken".to_string())));
    assert!(outcome.deliveries.is_empty());
}

#[test]
fn the_first_sender_of_a_name_is_kept() {
    let mut broker = Broker::default();
    let (first, mut inbox) = mpsc::channel(4);
    let (second, _) = mpsc::channel(4);
    let (reply, deliveries) = broker.handle_register("alice".to_string(), first);
    assert!(reply.is_ok() && deliveries.is_empty());
    assert!(broker.handle_register("alice".to_string(), second).0.is_err());

    broker.sender("alice").unwrap().try_send(Frame::Registered).unwrap();
    assert!(matches!(inbox.try_recv(), Ok(Frame::Registered)));
    assert!(broker.sender("bob").is_none());
}

#[test]
fn a_named_message_reaches_its_target() {
    let mut broker = broker_with(&["alice", "bob", "carol"]);
    let deliveries = send(&mut broker, "alice", Target::Named("bob".to_string()));
    assert_eq!(recipients(&deliveries), ["bob"]);
    assert!(all_are_the_message(&deliveries));
}

#[test]
fn a_client_can_send_to_itself() {
    let mut broker = broker_with(&["alice"]);
    let deliveries = send(&mut broker, "alice", Target::Named("alice".to_string()));
    assert_eq!(recipients(&deliveries), ["alice"]);
}

#[test]
fn an_unknown_target_is_reported_to_the_sender() {
    let mut broker = broker_with(&["alice", "bob"]);
    let deliveries = send(&mut broker, "alice", Target::Named("nobody".to_string()));
    assert_eq!(recipients(&deliveries), ["alice"]);
    match &deliveries[0].frame {
        Frame::Error { message } => assert_eq!(message, "no client named 'nobody'"),
        other => panic!("expected Error, got {:?}", other),
    }
}

#[test]
fn an_unknown_target_of_an_unknown_sender_is_dropped() {
    let mut broker = broker_with(&["bob"]);
    assert!(send(&mut broker, "alice", Target::Named("nobody".to_string())).is_empty());
}

#[test]
fn a_topic_reaches_all_its_subscribers() {
    let mut broker = broker_with(&["alice", "bob", "carol", "dave"]);
    for name in ["alice", "bob", "carol"] {
        subscribe(&mut broker, name, "news");
    }
    let deliveries = send(&mut broker, "alice", Target::Topic("news".to_string()));
    assert_eq!(recipients(&deliveries), ["alice", "bob", "carol"]);
    assert!(all_are_the_message(&deliveries));

    let deliveries = send(&mut broker, "dave", Target::Topic("news".to_string()));
    assert_eq!(recipients(&deliveries), ["alice", "bob", "carol"]);
    assert!(send(&mut broker, "dave", Target::Topic("sports".to_string())).is_empty());
}

#[test]
fn subscribing_twice_is_subscribing_once() {
    let mut broker = broker_with(&["alice", "bob"]);
    subscribe(&mut broker, "bob", "news");
    subscribe(&mut broker, "bob", "news");
    let deliveries = send(&mut broker, "alice", Target::Topic("news".to_string()));
    assert_eq!(recipients(&deliveries), ["bob"]);

    unsubscribe(&mut broker, "bob", "news");
    assert!(send(&mut broker, "alice", Target::Topic("news".to_string())).is_empty());
}

#[test]
fn unsubscribing_touches_one_topic_of_one_client() {
    let mut broker = broker_with(&["alice", "bob", "carol"]);
    for name in ["bob", "carol"] {
        subscribe(&mut broker, name, "news");
        subscribe(&mut broker, name, "sports");
    }
    unsubscribe(&mut broker, "bob", "news");
    unsubscribe(&mut broker, "bob", "weather");
    let news = send(&mut broker, "alice", Target::Topic("news".to_string()));
    assert_eq!(recipients(&news), ["carol"]);
    let sports = send(&mut broker, "alice", Target::Topic("sports".to_string()));
    assert_eq!(recipients(&sports), ["bob", "carol"]);
}

#[test]
fn a_subscriber_that_is_not_connected_gets_nothing() {
    let mut broker = broker_with(&["alice"]);
    subscribe(&mut broker, "ghost", "news");
    assert!(send(&mut broker, "alice", Target::Topic("news".to_string())).is_empty());
}

#[test]
fn a_broadcast_reaches_all_but_the_sender() {
    let mut broker = broker_with(&["alice", "bob", "carol"]);
    let deliveries = send(&mut broker, "alice", Target::Broadcast);
    assert_eq!(recipients(&deliveries), ["bob", "carol"]);
    assert!(all_are_the_message(&deliveries));
}

#[test]
fn a_disconnect_is_told_and_leaves_no_trace() {
    let mut broker = broker_with(&["alice", "bob", "carol"]);
    subscribe(&mut broker, "bob", "news");
    let outcome = broker.handle_event(Event::Disconnected { name: "bob".to_string() });
    assert!(outcome.reply.is_none());
    assert_eq!(recipients(&outcome.deliveries), ["alice", "carol"]);
    for delivery in &outcome.deliveries {
        match &delivery.frame {
            Frame::PeerDisconnected { name } => assert_eq!(name, "bob"),
            other => panic!("expected PeerDisconnected, got {:?}", other),
        }
    }
    assert!(broker.sender("bob").is_none());

    assert_eq!(register(&mut broker, "bob").reply, Some(Ok(())));
    assert!(send(&mut broker, "alice", Target::Topic("news".to_string())).is_empty());
}

#[test]
fn a_disconnect_undoes_what_a_client_has_subscribed_to() {
    let mut broker = broker_with(&["alice", "bob"]);
    subscribe(&mut broker, "bob", "news");
    register(&mut broker, "carol");
    subscribe(&mut broker, "carol", "news");
    subscribe(&mut broker, "carol", "sports");
    unsubscribe(&mut broker, "carol", "news");
    subscribe(&mut broker, "carol", "news");
    broker.handle_event(Event::Disconnected { name: "carol".to_string() });
    // Whoever takes the name next subscribes to nothing
    register(&mut broker, "carol");

    let news = send(&mut broker, "alice", Target::Topic("news".to_string()));
    assert_eq!(recipients(&news), ["bob"]);
    assert!(send(&mut broker, "alice", Target::Topic("sports".to_string())).is_empty());
}

#[test]
fn each_route_can_be_taken_by_itself() {
    let mut broker = broker_with(&["alice", "bob", "carol"]);
    subscribe(&mut broker, "alice", "news");
    let alice = "alice".to_string();
    let bob = "bob".to_string();
    let named = broker.route_named(&alice, &bob, message(Target::Named(bob.clone())));
    assert_eq!(recipients(&named), ["bob"]);
    let all = broker.route_broadcast(&bob, message(Target::Broadcast));
    assert_eq!(recipients(&all), ["alice", "carol"]);
    let topic = "news".to_string();
    let subscribed = broker.route_topic(&topic, message(Target::Topic(topic.clone())));
    assert_eq!(recipients(&subscribed), ["alice"]);
    let unknown = "sports".to_string();
    assert!(broker.route_topic(&unknown, message(Target::Topic(unknown.clone()))).is_empty());
    let told = broker.broadcast_peer_event(Frame::Registered, &"nobody".to_string());
    assert_eq!(recipients(&told), ["alice", "bob", "carol"]);
}

#[test]
fn broker_errors_wrap_their_causes() {
    let io = BrokerError::from(std::io::Error::from(std::io::ErrorKind::AddrInUse));
    assert!(matches!(io, BrokerError::Io(_)));
    let wire = BrokerError::from(WireError::ConnectionClosed);
    assert!(matches!(wire, BrokerError::Wire(WireError::ConnectionClosed)));
}
