use std::sync::{Arc, Mutex};
use std::task::{Context, Poll, Waker};

use agent_bus::channel::Polled;
use agent_bus::message::Target;
use agent_bus::{Bus, BusError, BusMessage, Mailbox};
use serde_json::{Number, Value};

fn object(entries: Vec<(&str, Value)>) -> Value {
    let mut map = serde_json::Map::new();
    for (key, value) in entries {
        map.insert(key.to_string(), value);
    }
    Value::Object(map)
}

fn number(n: i64) -> Value {
    Value::Number(Number::from(n))
}

fn text(s: &str) -> Value {
    Value::String(s.to_string())
}

/// Waits for the next message, as a task does that polls the mailbox.
fn recv(mailbox: &Mailbox, bus: &mut Bus) -> Option<BusMessage> {
    let runtime = tokio::runtime::Builder::new_current_thread().build().unwrap();
    runtime.block_on(std::future::poll_fn(|task| match mailbox.poll_recv(bus, task) {
        Polled::Message(message) => Poll::Ready(Some(message)),
        Polled::Closed => Poll::Ready(None),
        Polled::Waiting => Poll::Pending,
    }))
}

#[test]
fn register_and_send() {
    let mut bus = Bus::new();
    let alice = bus.register("alice").unwrap();
    let bob = bus.register("bob").unwrap();

    alice.send(&mut bus, "bob", "ping", object(vec![("n", number(1))])).unwrap();

    let msg = bob.try_recv(&mut bus).unwrap();
    assert_eq!(msg.from, "alice");
    assert_eq!(msg.to, "bob");
    assert_eq!(msg.kind, "ping");
    assert_eq!(msg.payload, object(vec![("n", number(1))]));
}

#[test]
fn duplicate_name_rejected() {
    let mut bus = Bus::new();
    let _alice = bus.register("alice").unwrap();

    let err = bus.register("alice").unwrap_err();
    assert!(matches!(err, BusError::NameTaken(_)));
}

#[test]
fn duplicate_name_is_named_in_the_error() {
    let mut bus = Bus::new();
    let _alice = bus.register("alice").unwrap();

    match bus.register("alice") {
        Err(BusError::NameTaken(name)) => assert_eq!(name, "alice"),
        other => panic!("expected NameTaken, got {:?}", other),
    }
    assert_eq!(bus.list_registered(), ["alice"]);
}

#[test]
fn unknown_recipient() {
    let mut bus = Bus::new();
    let alice = bus.register("alice").unwrap();

    let err = alice.send(&mut bus, "nobody", "ping", Value::Null).unwrap_err();
    assert!(matches!(err, BusError::UnknownRecipient(_)));
}

#[test]
fn unknown_recipient_is_named_in_the_error() {
    let mut bus = Bus::new();
    let alice = bus.register("alice").unwrap();

    match alice.send(&mut bus, "nobody", "ping", Value::Null) {
        Err(BusError::UnknownRecipient(name)) => assert_eq!(name, "nobody"),
        other => panic!("expected UnknownRecipient, got {:?}", other),
    }
    assert!(alice.try_recv(&mut bus).is_none());
}

#[test]
fn drop_deregisters() {
    let mut bus = Bus::new();
    let alice = bus.register("alice").unwrap();
    alice.close(&mut bus);

    // Name is available again after the mailbox was given up
    let _alice2 = bus.register("alice").unwrap();
}

#[test]
fn recv_none_when_deregistered() {
    let mut bus = Bus::new();
    let bob = bus.register("bob").unwrap();

    // Deregistering bob closes the channel
    bus.deregister("bob");

    assert!(recv(&bob, &mut bus).is_none());
}

#[test]
fn bidirectional_messaging() {
    let mut bus = Bus::new();
    let alice = bus.register("alice").unwrap();
    let bob = bus.register("bob").unwrap();

    alice.send(&mut bus, "bob", "ping", Value::Null).unwrap();
    bob.send(&mut bus, "alice", "pong", Value::Null).unwrap();

    let from_bob = alice.try_recv(&mut bus).unwrap();
    assert_eq!(from_bob.kind, "pong");
    assert_eq!(from_bob.from, "bob");

    let from_alice = bob.try_recv(&mut bus).unwrap();
    assert_eq!(from_alice.kind, "ping");
    assert_eq!(from_alice.from, "alice");
}

#[test]
fn multiple_messages_ordered() {
    let mut bus = Bus::new();
    let alice = bus.register("alice").unwrap();
    let bob = bus.register("bob").unwrap();

    for i in 0..5 {
        alice.send(&mut bus, "bob", "seq", object(vec![("n", number(i))])).unwrap();
    }

    for i in 0..5 {
        let msg = bob.try_recv(&mut bus).unwrap();
        assert_eq!(msg.payload["n"], i);
    }

    assert!(bob.try_recv(&mut bus).is_none());
}

#[test]
fn complex_payload() {
    let mut bus = Bus::new();
    let alice = bus.register("alice").unwrap();
    let bob = bus.register("bob").unwrap();

    let payload = object(vec![
        ("action", text("deploy")),
        ("targets", Value::Array(vec![text("web-1"), text("web-2")])),
        (
            "config",
            object(vec![
                ("replicas", number(3)),
                ("env", object(vec![("RUST_LOG", text("debug"))])),
            ]),
        ),
    ]);

    alice.send(&mut bus, "bob", "deploy", payload.clone()).unwrap();

    let msg = bob.try_recv(&mut bus).unwrap();
    assert_eq!(msg.payload, payload);
}

#[test]
fn message_has_uuid() {
    let mut bus = Bus::new();
    let alice = bus.register("alice").unwrap();
    let bob = bus.register("bob").unwrap();

    let id = alice.send(&mut bus, "bob", "ping", Value::Null).unwrap();
    let msg = bob.try_recv(&mut bus).unwrap();
    assert_eq!(msg.id, id);
}

#[test]
fn message_ids_are_random() {
    let mut bus = Bus::new();
    let alice = bus.register("alice").unwrap();

    let first = alice.send(&mut bus, "alice", "ping", Value::Null).unwrap();
    let second = alice.send(&mut bus, "alice", "ping", Value::Null).unwrap();
    assert_eq!(first.get_version_num(), 4);
    assert_ne!(first, second);
}

#[test]
fn routed_message_keeps_the_given_id() {
    let mut bus = Bus::new();
    let bob = bus.register("bob").unwrap();

    let id = uuid::Uuid::from_u128(7);
    assert_eq!(bus.route(id, "alice", "bob", "ping", Value::Bool(true)).unwrap(), id);

    let msg = bob.try_recv(&mut bus).unwrap();
    assert_eq!(msg.id, id);
    assert_eq!(msg.from, "alice");
    assert_eq!(msg.to, Target::Named("bob".to_string()));
    assert_eq!(msg.kind, "ping");
    assert_eq!(msg.payload, Value::Bool(true));
}

#[test]
fn mailbox_name() {
    let mut bus = Bus::new();
    let alice = bus.register("alice").unwrap();
    assert_eq!(alice.name(), "alice");
}

#[test]
fn async_recv() {
    let mut bus = Bus::new();
    let alice = bus.register("alice").unwrap();
    let bob = bus.register("bob").unwrap();

    alice.send(&mut bus, "bob", "hello", Value::Null).unwrap();

    let msg = recv(&bob, &mut bus).unwrap();
    assert_eq!(msg.kind, "hello");
}

#[test]
fn send_after_recipient_dropped() {
    let mut bus = Bus::new();
    let alice = bus.register("alice").unwrap();
    let bob = bus.register("bob").unwrap();
    bob.close(&mut bus);

    let err = alice.send(&mut bus, "bob", "ping", Value::Null).unwrap_err();
    assert!(matches!(err, BusError::UnknownRecipient(_)));
}

#[test]
fn bus_clone_shares_state() {
    let bus = Arc::new(Mutex::new(Bus::new()));
    let bus2 = bus.clone();

    let _alice = bus.lock().unwrap().register("alice").unwrap();
    let err = bus2.lock().unwrap().register("alice").unwrap_err();
    assert!(matches!(err, BusError::NameTaken(_)));

    let _bob = bus2.lock().unwrap().register("bob").unwrap();
    let alice2 = bus.lock().unwrap().register("alice2").unwrap();
    alice2.send(&mut bus.lock().unwrap(), "bob", "hi", Value::Null).unwrap();
}

#[test]
fn list_registered_returns_current_names() {
    let mut bus = Bus::new();
    let alice = bus.register("alice").unwrap();
    let _bob = bus.register("bob").unwrap();

    let mut names = bus.list_registered();
    names.sort();
    assert_eq!(names, ["alice", "bob"]);

    alice.close(&mut bus);
    assert_eq!(bus.list_registered(), ["bob"]);
}

#[test]
fn default_bus_accepts_registrations() {
    let mut bus = Bus::default();
    let alice = bus.register("alice").unwrap();
    let bob = bus.register("bob").unwrap();

    alice.send(&mut bus, "bob", "ping", Value::Null).unwrap();

    let msg = bob.try_recv(&mut bus).unwrap();
    assert_eq!(msg.from, "alice");
    assert_eq!(msg.kind, "ping");
}

#[test]
fn a_closed_mailbox_hands_out_what_waits() {
    let mut bus = Bus::new();
    let alice = bus.register("alice").unwrap();
    let bob = bus.register("bob").unwrap();

    alice.send(&mut bus, "bob", "first", Value::Null).unwrap();
    alice.send(&mut bus, "bob", "second", Value::Null).unwrap();
    bus.deregister("bob");

    assert_eq!(recv(&bob, &mut bus).unwrap().kind, "first");
    assert_eq!(bob.try_recv(&mut bus).unwrap().kind, "second");
    assert!(bob.try_recv(&mut bus).is_none());
    assert!(recv(&bob, &mut bus).is_none());
}

#[test]
fn recv_none_when_the_bus_is_shut_down() {
    let mut bus = Bus::new();
    let bob = bus.register("bob").unwrap();
    bus.shutdown();
    assert!(recv(&bob, &mut bus).is_none());
}

#[test]
fn a_poll_finds_what_waits() {
    let mut bus = Bus::new();
    let alice = bus.register("alice").unwrap();
    let bob = bus.register("bob").unwrap();
    for n in 0..300 {
        alice.send(&mut bus, "bob", "seq", number(n)).unwrap();
    }

    // More messages than a task may take from a channel in one turn
    let runtime = tokio::runtime::Builder::new_current_thread().build().unwrap();
    runtime.block_on(std::future::poll_fn(|task| {
        for n in 0..300 {
            match bob.poll_recv(&mut bus, task) {
                Polled::Message(message) => assert_eq!(message.payload, number(n)),
                _ => panic!("expected message {}", n),
            }
        }
        assert!(matches!(bob.poll_recv(&mut bus, task), Polled::Waiting));
        Poll::Ready(())
    }));
}

#[test]
fn a_mailbox_keeps_its_place_until_it_is_given_up() {
    let mut bus = Bus::new();
    let alice = bus.register("alice").unwrap();
    let bob = bus.register("bob").unwrap();
    bob.send(&mut bus, "alice", "ping", Value::Null).unwrap();
    bob.close(&mut bus);
    let carol = bus.register("carol").unwrap();
    carol.send(&mut bus, "alice", "pong", Value::Null).unwrap();
    bus.deregister("carol");

    assert_eq!(alice.try_recv(&mut bus).unwrap().from, "bob");
    assert_eq!(alice.try_recv(&mut bus).unwrap().from, "carol");
    alice.close(&mut bus);
    assert!(bus.list_registered().is_empty());
    assert!(bus.register("alice").is_ok());
}

#[test]
fn messages_come_in_order_while_others_are_sent() {
    let mut bus = Bus::new();
    let alice = bus.register("alice").unwrap();
    let bob = bus.register("bob").unwrap();
    let mut task = Context::from_waker(Waker::noop());

    alice.send(&mut bus, "bob", "one", Value::Null).unwrap();
    alice.send(&mut bus, "bob", "two", Value::Null).unwrap();
    assert_eq!(bob.try_recv(&mut bus).unwrap().kind, "one");
    bob.send(&mut bus, "alice", "other", Value::Null).unwrap();
    alice.send(&mut bus, "bob", "three", Value::Null).unwrap();
    let polled = bob.poll_recv(&mut bus, &mut task);
    assert!(matches!(polled, Polled::Message(message) if message.kind == "two"));
    bus.deregister("bob");
    assert!(alice.send(&mut bus, "bob", "late", Value::Null).is_err());

    // The name has gone to another mailbox; what is sent to it now is not for the old one
    let successor = bus.register("bob").unwrap();
    alice.send(&mut bus, "bob", "new", Value::Null).unwrap();
    assert_eq!(bob.try_recv(&mut bus).unwrap().kind, "three");
    assert!(bob.try_recv(&mut bus).is_none());
    assert_eq!(successor.try_recv(&mut bus).unwrap().kind, "new");
}

#[test]
fn message_ids_are_of_version_4() {
    let mut bus = Bus::new();
    let alice = bus.register("alice").unwrap();
    let id = alice.send(&mut bus, "alice", "note", Value::Null).unwrap();
    assert_eq!(id.get_version_num(), 4);
    assert_eq!(alice.try_recv(&mut bus).unwrap().id, id);
}

#[test]
fn an_open_empty_mailbox_waits() {
    let mut bus = Bus::new();
    let bob = bus.register("bob").unwrap();

    let mut task = Context::from_waker(Waker::noop());
    assert!(matches!(bob.poll_recv(&mut bus, &mut task), Polled::Waiting));
    bus.deregister("bob");
    assert!(matches!(bob.poll_recv(&mut bus, &mut task), Polled::Closed));
}

#[test]
fn a_name_can_be_registered_again_after_it_was_deregistered() {
    let mut bus = Bus::new();
    let alice = bus.register("alice").unwrap();
    let old_bob = bus.register("bob").unwrap();
    alice.send(&mut bus, "bob", "old", Value::Null).unwrap();
    bus.deregister("bob");
    let new_bob = bus.register("bob").unwrap();
    alice.send(&mut bus, "bob", "new", Value::Null).unwrap();

    assert_eq!(old_bob.try_recv(&mut bus).unwrap().kind, "old");
    assert!(old_bob.try_recv(&mut bus).is_none());
    assert_eq!(new_bob.try_recv(&mut bus).unwrap().kind, "new");
}

#[test]
fn closing_an_old_mailbox_frees_the_name_of_its_successor() {
    let mut bus = Bus::new();
    let alice = bus.register("alice").unwrap();
    let old_bob = bus.register("bob").unwrap();
    bus.deregister("bob");
    let new_bob = bus.register("bob").unwrap();
    old_bob.close(&mut bus);

    let err = alice.send(&mut bus, "bob", "ping", Value::Null).unwrap_err();
    assert!(matches!(err, BusError::UnknownRecipient(_)));
    assert!(recv(&new_bob, &mut bus).is_none());
}

#[test]
fn deregistering_an_unknown_name_changes_nothing() {
    let mut bus = Bus::new();
    let _alice = bus.register("alice").unwrap();
    bus.deregister("bob");
    assert_eq!(bus.list_registered(), ["alice"]);
}

#[test]
fn the_place_of_a_closed_mailbox_is_used_again() {
    let mut bus = Bus::new();
    let alice = bus.register("alice").unwrap();
    let bob = bus.register("bob").unwrap();
    alice.send(&mut bus, "bob", "ping", Value::Null).unwrap();
    alice.close(&mut bus);
    let carol = bus.register("carol").unwrap();

    assert!(carol.try_recv(&mut bus).is_none());
    assert_eq!(bob.try_recv(&mut bus).unwrap().from, "alice");
    carol.send(&mut bus, "bob", "hi", Value::Null).unwrap();
    assert_eq!(bob.try_recv(&mut bus).unwrap().from, "carol");
}

#[test]
fn a_bus_that_is_shut_down_refuses_everything() {
    let mut bus = Bus::new();
    let alice = bus.register("alice").unwrap();
    let bob = bus.register("bob").unwrap();
    alice.send(&mut bus, "bob", "last", Value::Null).unwrap();
    bus.shutdown();

    assert!(matches!(alice.send(&mut bus, "bob", "late", Value::Null), Err(BusError::Shutdown)));
    assert!(matches!(bus.register("carol"), Err(BusError::Shutdown)));
    assert!(bus.list_registered().is_empty());
    assert_eq!(recv(&bob, &mut bus).unwrap().kind, "last");
    assert!(recv(&bob, &mut bus).is_none());
}

#[test]
fn a_mailbox_has_room_for_messages() {
    let mut bus = Bus::new();
    let alice = bus.register("alice").unwrap();
    for _ in 0..100 {
        assert!(bus.has_room("alice"));
        alice.send(&mut bus, "alice", "note", Value::Null).unwrap();
    }
    assert!(bus.has_room("nobody"));
}

#[test]
fn sending_wakes_the_receiver() {
    let bus = Arc::new(Mutex::new(Bus::new()));
    let alice = bus.lock().unwrap().register("alice").unwrap();
    let bob = bus.lock().unwrap().register("bob").unwrap();
    let runtime = tokio::runtime::Builder::new_multi_thread().worker_threads(2).build().unwrap();

    let shared = bus.clone();
    let receiving = runtime.spawn(std::future::poll_fn(move |task| {
        match bob.poll_recv(&mut shared.lock().unwrap(), task) {
            Polled::Message(message) => Poll::Ready(Some(message)),
            Polled::Closed => Poll::Ready(None),
            Polled::Waiting => Poll::Pending,
        }
    }));
    alice.send(&mut bus.lock().unwrap(), "bob", "wake up", Value::Null).unwrap();

    let msg = runtime.block_on(receiving).unwrap().unwrap();
    assert_eq!(msg.kind, "wake up");
}

#[test]
fn targets_compare_by_kind_and_name() {
    let named: Target = "bob".into();
    assert_eq!(named, "bob");
    assert_ne!(named, "alice");
    assert_eq!(named, Target::Named("bob".to_string()));
    assert_ne!(named, Target::Topic("bob".to_string()));
    assert_ne!(Target::Topic("bob".to_string()), "bob");
    assert_eq!(Target::Topic("news".to_string()), Target::Topic("news".to_string()));
    assert_ne!(Target::Topic("news".to_string()), Target::Topic("olds".to_string()));
    assert_eq!(Target::Broadcast, Target::Broadcast);
    assert_ne!(Target::Broadcast, named);
}

#[test]
fn a_copied_message_is_the_same() {
    let msg = BusMessage {
        id: uuid::Uuid::from_u128(9),
        from: "alice".into(),
        to: "bob".into(),
        kind: "test".into(),
        payload: object(vec![("key", text("value"))]),
    };
    let copy = msg.clone();
    assert_eq!(copy.id, msg.id);
    assert_eq!(copy.from, msg.from);
    assert_eq!(copy.to, msg.to);
    assert_eq!(copy.kind, msg.kind);
    assert_eq!(copy.payload, msg.payload);
}
