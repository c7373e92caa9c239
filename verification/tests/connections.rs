use agent_bus::broker::Event;
use agent_bus::client::{await_registered, handed_over, ClientError};
use agent_bus::message::{BusMessage, Frame, Target};
use agent_bus::session::{dispatch_frame, extract_register_name, Action, Input, Session};
use agent_bus::wire::WireError;
use agent_bus::BusClient;
use tokio::sync::mpsc;

fn registered(name: &str) -> Session {
    let request = Frame::Register { name: name.to_string() };
    let (session, action) = Session::new().step(Input::Received(request));
    match action {
        Action::AskToRegister { name: asked } => assert_eq!(asked, name),
        _ => panic!("expected AskToRegister"),
    }
    let (session, action) = session.step(Input::Replied(Some(Ok(()))));
    assert!(matches!(action, Action::Send(Frame::Registered)));
    session
}

fn is_error(action: Action, text: &str) -> bool {
    match action {
        Action::Send(Frame::Error { message }) => message == text,
        _ => false,
    }
}

fn client(name: &str) -> BusClient {
    let (writer, _) = mpsc::channel(4);
    let (_, reader) = mpsc::channel(4);
    match BusClient::connect(name, Ok(Frame::Registered), writer, reader) {
        Ok(client) => client,
        Err(error) => panic!("expected a client, got {:?}", error),
    }
}

fn refused(reply: Result<Frame, WireError>) -> ClientError {
    let (writer, _) = mpsc::channel(4);
    let (_, reader) = mpsc::channel(4);
    match BusClient::connect("alice", reply, writer, reader) {
        Ok(_) => panic!("expected a refusal"),
        Err(error) => error,
    }
}

#[test]
fn the_first_frame_must_register() {
    let frame = Frame::Subscribe { topic: "news".to_string() };
    let (session, action) = Session::new().step(Input::Received(frame));
    assert!(matches!(session, Session::Ended));
    assert!(is_error(action, "expected Register frame"));

    assert!(matches!(extract_register_name(Frame::Registered), Err(Frame::Error { .. })));
    let asked = extract_register_name(Frame::Register { name: "bob".to_string() });
    assert!(matches!(asked, Ok(name) if name == "bob"));
}

#[test]
fn a_connection_that_breaks_before_registering_just_ends() {
    let (session, action) = Session::new().step(Input::ReadFailed);
    assert!(matches!(session, Session::Ended));
    assert!(matches!(action, Action::Nothing));
}

#[test]
fn a_refused_registration_ends_the_connection() {
    let request = Frame::Register { name: "alice".to_string() };
    let (session, _) = Session::new().step(Input::Received(request));
    let reason = "name 'alice' already taken";
    let (session, action) = session.step(Input::Replied(Some(Err(reason.to_string()))));
    assert!(matches!(session, Session::Ended));
    assert!(is_error(action, reason));
}

#[test]
fn a_broker_that_is_gone_ends_the_connection() {
    let request = Frame::Register { name: "alice".to_string() };
    let (session, _) = Session::new().step(Input::Received(request));
    let (session, action) = session.step(Input::Replied(None));
    assert!(matches!(session, Session::Ended));
    assert!(matches!(action, Action::Nothing));
}

#[test]
fn what_a_client_sends_is_posted_under_its_name() {
    let message = BusMessage {
        id: uuid::Uuid::nil(),
        from: "mallory".to_string(),
        to: Target::Broadcast,
        kind: "shout".to_string(),
        payload: serde_json::Value::Null,
    };
    let (session, action) = registered("alice").step(Input::Received(Frame::Message(message)));
    match action {
        Action::Post(Event::Message { from, message }) => {
            assert_eq!(from, "alice");
            assert_eq!(message.from, "mallory");
            assert_eq!(message.kind, "shout");
        }
        _ => panic!("expected a message event"),
    }
    let frame = Frame::Subscribe { topic: "news".to_string() };
    let (session, action) = session.step(Input::Received(frame));
    match action {
        Action::Post(Event::Subscribe { name, topic }) => assert_eq!((&*name, &*topic), ("alice", "news")),
        _ => panic!("expected a subscribe event"),
    }
    let frame = Frame::Unsubscribe { topic: "news".to_string() };
    let (session, action) = session.step(Input::Received(frame));
    match action {
        Action::Post(Event::Unsubscribe { name, topic }) => assert_eq!((&*name, &*topic), ("alice", "news")),
        _ => panic!("expected an unsubscribe event"),
    }
    assert!(matches!(session, Session::Active { name } if name == "alice"));
}

#[test]
fn frames_that_only_a_broker_sends_are_answered_with_an_error() {
    let alice = "alice".to_string();
    for frame in [
        Frame::Registered,
        Frame::Register { name: "bob".to_string() },
        Frame::Error { message: "bad things".to_string() },
        Frame::PeerConnected { name: "bob".to_string() },
        Frame::PeerDisconnected { name: "bob".to_string() },
    ] {
        assert!(is_error(dispatch_frame(frame, &alice), "unexpected frame type"));
    }
    let (session, action) = registered("alice").step(Input::Received(Frame::Registered));
    assert!(is_error(action, "unexpected frame type"));
    assert!(matches!(session, Session::Active { .. }));
}

#[test]
fn the_end_of_a_client_is_reported_once() {
    let (session, action) = registered("alice").step(Input::ReadFailed);
    match action {
        Action::Post(Event::Disconnected { name }) => assert_eq!(name, "alice"),
        _ => panic!("expected a disconnect event"),
    }
    let (session, action) = session.step(Input::ReadFailed);
    assert!(matches!(session, Session::Ended));
    assert!(matches!(action, Action::Nothing));
}

#[test]
fn an_input_that_is_not_waited_for_changes_nothing() {
    let (session, action) = registered("alice").step(Input::Replied(None));
    assert!(matches!(session, Session::Active { name } if name == "alice"));
    assert!(matches!(action, Action::Nothing));
}

#[test]
fn a_client_starts_with_a_register_frame() {
    let request = BusClient::register_request("alice");
    assert!(matches!(request, Frame::Register { name } if name == "alice"));
}

#[test]
fn only_registered_makes_a_client() {
    assert_eq!(client("alice").name(), "alice");

    match refused(Ok(Frame::Error { message: "name 'alice' already taken".to_string() })) {
        ClientError::RegistrationFailed(reason) => assert_eq!(reason, "name 'alice' already taken"),
        other => panic!("expected RegistrationFailed, got {:?}", other),
    }
    match refused(Ok(Frame::PeerConnected { name: "bob".to_string() })) {
        ClientError::RegistrationFailed(reason) => assert_eq!(reason, "unexpected frame"),
        other => panic!("expected RegistrationFailed, got {:?}", other),
    }
    let error = refused(Err(WireError::ConnectionClosed));
    assert!(matches!(error, ClientError::Wire(WireError::ConnectionClosed)));
    assert!(await_registered(Ok(Frame::Registered)).is_ok());
}

#[test]
fn a_client_signs_its_messages() {
    let alice = client("alice");
    let payload = serde_json::Value::Bool(true);
    match alice.send(Target::Topic("news".to_string()), "update".to_string(), payload.clone()) {
        Frame::Message(message) => {
            assert_eq!(message.id.get_version_num(), 4);
            assert_eq!(message.from, "alice");
            assert_eq!(message.to, Target::Topic("news".to_string()));
            assert_eq!(message.kind, "update");
            assert_eq!(message.payload, payload);
        }
        other => panic!("expected Message, got {:?}", other),
    }
    let id = uuid::Uuid::from_u128(3);
    match alice.message(id, "bob".into(), "ping".to_string(), payload) {
        Frame::Message(message) => assert_eq!(message.id, id),
        other => panic!("expected Message, got {:?}", other),
    }
}

#[test]
fn a_client_subscribes_and_unsubscribes() {
    let alice = client("alice");
    assert!(matches!(alice.subscribe("events"), Frame::Subscribe { topic } if topic == "events"));
    assert!(
        matches!(alice.unsubscribe("events"), Frame::Unsubscribe { topic } if topic == "events")
    );
}

#[test]
fn a_client_keeps_both_ends_of_its_connection() {
    let (writer, mut sent) = mpsc::channel(4);
    let (incoming, reader) = mpsc::channel(4);
    let mut alice = match BusClient::connect("alice", Ok(Frame::Registered), writer, reader) {
        Ok(client) => client,
        Err(error) => panic!("expected a client, got {:?}", error),
    };
    alice.writer().try_send(alice.subscribe("news")).unwrap();
    assert!(matches!(sent.try_recv(), Ok(Frame::Subscribe { .. })));
    incoming.try_send(Frame::PeerConnected { name: "bob".to_string() }).unwrap();
    assert!(matches!(alice.reader().try_recv(), Ok(Frame::PeerConnected { name }) if name == "bob"));
}

#[test]
fn a_frame_that_is_not_taken_means_disconnected() {
    assert!(handed_over(true).is_ok());
    assert!(matches!(handed_over(false), Err(ClientError::Disconnected)));
}

#[test]
fn client_errors_wrap_their_causes() {
    let io = ClientError::from(std::io::Error::from(std::io::ErrorKind::NotFound));
    assert!(matches!(io, ClientError::Io(_)));
    let wire = ClientError::from(WireError::FrameTooLarge(9));
    assert!(matches!(wire, ClientError::Wire(WireError::FrameTooLarge(9))));
}
