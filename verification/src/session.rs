//! One connection to the broker, from its first frame to its end.
//!
//! A connection registers a name with its first frame, waits for the broker's reply,
//! and then passes on what its client sends. Reading, sending and waiting are the
//! caller's part: it hands in what came and performs the one action that a step gives.

use vstd::prelude::*;

use crate::broker::is_error;
use crate::broker::Event;
use crate::message::Frame;

verus! {

/// How far a connection has come.
pub enum Session {
    /// No frame has come yet.
    Unregistered,
    /// The broker has been asked to register `name`.
    Pending { name: String },
    /// The connection is the client `name`.
    Active { name: String },
    /// Nothing more is read.
    Ended,
}

/// What came.
pub enum Input {
    /// A frame was read.
    Received(Frame),
    /// No frame could be read.
    ReadFailed,
    /// The broker replied to the registration, or is gone.
    Replied(Option<Result<(), String>>),
}

/// What is to be done.
pub enum Action {
    Nothing,
    /// Ask the broker to register this connection as `name`.
    AskToRegister { name: String },
    /// Send a frame to the client.
    Send(Frame),
    /// Pass an event to the broker.
    Post(Event),
}

/// How far a connection has come, with the text of its name.
pub enum SessionView {
    Unregistered,
    Pending(Seq<char>),
    Active(Seq<char>),
    Ended,
}

impl View for Session {
    type V = SessionView;

    open spec fn view(&self) -> SessionView {
        match *self {
            Session::Unregistered => SessionView::Unregistered,
            Session::Pending { name } => SessionView::Pending(name@),
            Session::Active { name } => SessionView::Active(name@),
            Session::Ended => SessionView::Ended,
        }
    }
}

impl SessionView {
    /// How far `self` has come after `input`.
    pub open spec fn next(self, input: Input) -> SessionView {
        match (self, input) {
            (SessionView::Unregistered, Input::Received(frame)) => match frame {
                Frame::Register { name } => SessionView::Pending(name@),
                _ => SessionView::Ended,
            },
            (SessionView::Unregistered, Input::ReadFailed) => SessionView::Ended,
            (SessionView::Pending(name), Input::Replied(reply)) => match reply {
                Some(Ok(())) => SessionView::Active(name),
                _ => SessionView::Ended,
            },
            (SessionView::Active(_), Input::ReadFailed) => SessionView::Ended,
            _ => self,
        }
    }

    /// Whether `action` is what `input` calls for.
    pub open spec fn calls_for(self, input: Input, action: Action) -> bool {
        match (self, input) {
            (SessionView::Unregistered, Input::Received(frame)) => match frame {
                Frame::Register { name } => action == (Action::AskToRegister { name }),
                _ => action matches Action::Send(sent) && is_error(
                    sent,
                    "expected Register frame"@,
                ),
            },
            (SessionView::Pending(_), Input::Replied(reply)) => match reply {
                Some(Ok(())) => action == Action::Send(Frame::Registered),
                Some(Err(reason)) => action == Action::Send(Frame::Error { message: reason }),
                None => action is Nothing,
            },
            (SessionView::Active(name), Input::Received(frame)) => dispatches(frame, name, action),
            (SessionView::Active(own), Input::ReadFailed) => {
                &&& action matches Action::Post(Event::Disconnected { name })
                &&& name@ == own
            },
            _ => action is Nothing,
        }
    }

    /// A number that grows as a connection comes further.
    pub open spec fn stage(self) -> nat {
        match self {
            SessionView::Unregistered => 0,
            SessionView::Pending(_) => 1,
            SessionView::Active(_) => 2,
            SessionView::Ended => 3,
        }
    }
}

/// Whether `action` is what a frame from the client `own` calls for: messages and
/// subscriptions go to the broker under that name, and any other frame is answered
/// with an error.
pub open spec fn dispatches(frame: Frame, own: Seq<char>, action: Action) -> bool {
    match frame {
        Frame::Message(sent) => {
            &&& action matches Action::Post(Event::Message { from, message })
            &&& from@ == own
            &&& message == sent
        },
        Frame::Subscribe { topic: wanted } => {
            &&& action matches Action::Post(Event::Subscribe { name, topic })
            &&& name@ == own
            &&& topic == wanted
        },
        Frame::Unsubscribe { topic: unwanted } => {
            &&& action matches Action::Post(Event::Unsubscribe { name, topic })
            &&& name@ == own
            &&& topic == unwanted
        },
        _ => action matches Action::Send(sent) && is_error(sent, "unexpected frame type"@),
    }
}

/// The name that the first frame of a connection asks for, or the frame to answer with
/// if it asks for none.
pub fn extract_register_name(frame: Frame) -> (name: Result<String, Frame>)
    ensures
        match frame {
            Frame::Register { name: wanted } => name == Ok::<String, Frame>(wanted),
            _ => name matches Err(answer) && is_error(answer, "expected Register frame"@),
        },
{
    match frame {
        Frame::Register { name } => Ok(name),
        _ => Err(Frame::Error { message: "expected Register frame".to_owned() }),
    }
}

/// What the broker's reply to a registration makes of the connection. Without a reply
/// the broker is gone, and the connection ends without a word.
pub fn settle_registration(name: String, reply: Option<Result<(), String>>) -> (settled: (
    Session,
    Action,
))
    ensures
        settled.0@ == SessionView::Pending(name@).next(Input::Replied(reply)),
        SessionView::Pending(name@).calls_for(Input::Replied(reply), settled.1),
{
    match reply {
        Some(Ok(())) => (Session::Active { name }, Action::Send(Frame::Registered)),
        Some(Err(reason)) => (Session::Ended, Action::Send(Frame::Error { message: reason })),
        None => (Session::Ended, Action::Nothing),
    }
}

/// What a frame from the client `name` calls for.
pub fn dispatch_frame(frame: Frame, name: &String) -> (action: Action)
    ensures
        dispatches(frame, name@, action),
{
    match frame {
        Frame::Message(message) => Action::Post(Event::Message { from: name.clone(), message }),
        Frame::Subscribe { topic } => Action::Post(Event::Subscribe { name: name.clone(), topic }),
        Frame::Unsubscribe { topic } => {
            Action::Post(Event::Unsubscribe { name: name.clone(), topic })
        },
        _ => Action::Send(Frame::Error { message: "unexpected frame type".to_owned() }),
    }
}

impl Session {
    /// A connection that was just accepted.
    pub fn new() -> (session: Session)
        ensures
            session@ == SessionView::Unregistered,
    {
        Session::Unregistered
    }

    /// Takes in what came. An input that the connection does not wait for changes
    /// nothing.
    pub fn step(self, input: Input) -> (stepped: (Session, Action))
        ensures
            stepped.0@ == self@.next(input),
            self@.calls_for(input, stepped.1),
    {
        match (self, input) {
            (Session::Unregistered, Input::Received(frame)) => match extract_register_name(frame) {
                Ok(name) => {
                    let asked = name.clone();
                    (Session::Pending { name }, Action::AskToRegister { name: asked })
                },
                Err(answer) => (Session::Ended, Action::Send(answer)),
            },
            (Session::Unregistered, Input::ReadFailed) => (Session::Ended, Action::Nothing),
            (Session::Pending { name }, Input::Replied(reply)) => settle_registration(name, reply),
            (Session::Active { name }, Input::Received(frame)) => {
                let action = dispatch_frame(frame, &name);
                (Session::Active { name }, action)
            },
            (Session::Active { name }, Input::ReadFailed) => {
                (Session::Ended, Action::Post(Event::Disconnected { name }))
            },
            (session, _) => (session, Action::Nothing),
        }
    }
}

/// A connection that has ended stays so, and nothing is done for it any more.
pub proof fn law_end_is_final(input: Input, action: Action)
    requires
        SessionView::Ended.calls_for(input, action),
    ensures
        SessionView::Ended.next(input) == SessionView::Ended,
        action is Nothing,
{
}

/// A connection never goes back: it asks for a name at most once, and once it is a
/// client it keeps its name until it ends.
pub proof fn law_session_moves_forward(session: SessionView, input: Input, action: Action)
    requires
        session.calls_for(input, action),
    ensures
        session.stage() <= session.next(input).stage(),
        action is AskToRegister <==> session.stage() == 0 && session.next(input).stage() == 1,
        session matches SessionView::Active(name) ==> session.next(input) == session
            || session.next(input) == SessionView::Ended,
{
}

/// The name under which an event reaches the broker.
pub open spec fn speaker(event: Event) -> Seq<char> {
    match event {
        Event::Register { name, .. } => name@,
        Event::Message { from, .. } => from@,
        Event::Subscribe { name, .. } => name@,
        Event::Unsubscribe { name, .. } => name@,
        Event::Disconnected { name } => name@,
    }
}

/// Only a registered connection passes events to the broker, and only under its own name.
pub proof fn law_events_are_the_clients_own(session: SessionView, input: Input, action: Action)
    requires
        session.calls_for(input, action),
        action is Post,
    ensures
        session == SessionView::Active(speaker(action->Post_0)),
        !(action->Post_0 is Register),
{
}

/// The broker is told of the end of a connection exactly when that of a registered one
/// comes.
pub proof fn law_end_is_reported_once(session: SessionView, input: Input, action: Action)
    requires
        session.calls_for(input, action),
    ensures
        (action matches Action::Post(event) && event is Disconnected) <==> session is Active
            && session.next(input) is Ended,
{
}

/// A connection becomes a client only when the broker has accepted the name that it
/// asked for, and it is then told so.
pub proof fn law_only_accepted_names_are_used(session: SessionView, input: Input, action: Action)
    requires
        session.calls_for(input, action),
        !(session is Active),
        session.next(input) is Active,
    ensures
        session == SessionView::Pending(session.next(input)->Active_0),
        input matches Input::Replied(Some(Ok(_))),
        action == Action::Send(Frame::Registered),
{
}

impl SessionView {
    /// How far a connection has come after `inputs`, one after the other.
    pub open spec fn after_all(self, inputs: Seq<Input>) -> SessionView
        decreases inputs.len(),
    {
        if inputs.len() == 0 {
            self
        } else {
            self.next(inputs[0]).after_all(inputs.drop_first())
        }
    }
}

/// Whatever comes, a client has the name that it became a client with.
pub proof fn law_name_is_kept(name: Seq<char>, inputs: Seq<Input>)
    ensures
        SessionView::Active(name).after_all(inputs) == SessionView::Active(name)
            || SessionView::Active(name).after_all(inputs) == SessionView::Ended,
    decreases inputs.len(),
{
    if inputs.len() > 0 {
        let rest = inputs.drop_first();
        if SessionView::Active(name).next(inputs[0]) == SessionView::Ended {
            lemma_ended_after_all(rest);
        } else {
            law_name_is_kept(name, rest);
        }
    }
}

proof fn lemma_ended_after_all(inputs: Seq<Input>)
    ensures
        SessionView::Ended.after_all(inputs) == SessionView::Ended,
    decreases inputs.len(),
{
    if inputs.len() > 0 {
        lemma_ended_after_all(inputs.drop_first());
    }
}

/// What the first input of a connection comes to. A request for a name is passed on under
/// that name, and the connection waits; any other frame is answered with an error and ends
/// the connection; a failed read ends it without a word.
pub proof fn law_how_a_connection_starts(input: Input, stepped: (Session, Action))
    requires
        stepped.0@ == Session::Unregistered@.next(input),
        Session::Unregistered@.calls_for(input, stepped.1),
    ensures
        input matches Input::Received(Frame::Register { name }) ==> {
            &&& stepped.0 matches Session::Pending { name: own }
            &&& own@ == name@
            &&& stepped.1 matches Action::AskToRegister { name: asked }
            &&& asked@ == name@
        },
        input matches Input::Received(frame) ==> !(frame is Register) ==> {
            &&& stepped.0 is Ended
            &&& stepped.1 matches Action::Send(Frame::Error { message })
            &&& message@ == "expected Register frame"@
        },
        input is ReadFailed ==> stepped.0 is Ended && stepped.1 is Nothing,
        input is Replied ==> stepped.0 is Unregistered && stepped.1 is Nothing,
{
}

/// What a connection makes of the broker's reply. Accepted, it is the client of the name
/// that it asked for and says so; refused, it passes the reason on and ends; without a reply
/// it ends without a word. Nothing else that comes while it waits changes anything.
pub proof fn law_how_a_connection_is_admitted(session: Session, input: Input, stepped: (Session, Action))
    requires
        session is Pending,
        stepped.0@ == session@.next(input),
        session@.calls_for(input, stepped.1),
    ensures
        input matches Input::Replied(Some(Ok(_))) ==> {
            &&& stepped.0 matches Session::Active { name: own }
            &&& own@ == session->Pending_name@
            &&& stepped.1 matches Action::Send(Frame::Registered)
        },
        input matches Input::Replied(Some(Err(reason))) ==> {
            &&& stepped.0 is Ended
            &&& stepped.1 matches Action::Send(Frame::Error { message })
            &&& message@ == reason@
        },
        input matches Input::Replied(None) ==> stepped.0 is Ended && stepped.1 is Nothing,
        !(input is Replied) ==> {
            &&& stepped.0 matches Session::Pending { name: own }
            &&& own@ == session->Pending_name@
            &&& stepped.1 is Nothing
        },
{
}

/// What a client's connection makes of what comes. A message, whatever its target, and
/// subscriptions are passed to the broker unchanged, under the client's own name; any other
/// frame is answered with an error; none of these ends the connection or changes its name.
/// A failed read ends it, and the broker is told whose connection it was.
pub proof fn law_how_a_client_is_served(session: Session, input: Input, stepped: (Session, Action))
    requires
        session is Active,
        stepped.0@ == session@.next(input),
        session@.calls_for(input, stepped.1),
    ensures
        !(input is ReadFailed) ==> {
            &&& stepped.0 matches Session::Active { name: own }
            &&& own@ == session->Active_name@
        },
        input matches Input::Received(Frame::Message(sent)) ==> {
            &&& stepped.1 matches Action::Post(Event::Message { from, message })
            &&& from@ == session->Active_name@
            &&& message == sent
        },
        input matches Input::Received(Frame::Subscribe { topic: wanted }) ==> {
            &&& stepped.1 matches Action::Post(Event::Subscribe { name: own, topic })
            &&& own@ == session->Active_name@
            &&& topic@ == wanted@
        },
        input matches Input::Received(Frame::Unsubscribe { topic: unwanted }) ==> {
            &&& stepped.1 matches Action::Post(Event::Unsubscribe { name: own, topic })
            &&& own@ == session->Active_name@
            &&& topic@ == unwanted@
        },
        input matches Input::Received(frame) ==> frame is Register || frame is Registered
            || frame is Error || frame is PeerConnected || frame is PeerDisconnected ==> {
            &&& stepped.1 matches Action::Send(Frame::Error { message })
            &&& message@ == "unexpected frame type"@
        },
        input is Replied ==> stepped.1 is Nothing,
        input is ReadFailed ==> {
            &&& stepped.0 is Ended
            &&& stepped.1 matches Action::Post(Event::Disconnected { name: own })
            &&& own@ == session->Active_name@
        },
{
}

/// Once a connection has ended nothing is done for it any more, whatever comes.
pub proof fn law_how_a_connection_stays_ended(input: Input, stepped: (Session, Action))
    requires
        stepped.0@ == Session::Ended@.next(input),
        Session::Ended@.calls_for(input, stepped.1),
    ensures
        stepped.0 is Ended,
        stepped.1 is Nothing,
{
}

/// A connection that was just accepted has not registered, and sessions that look alike are
/// alike: in the same stage, and of the same name.
pub proof fn law_sessions_are_told_apart(a: Session, b: Session)
    ensures
        a is Unregistered ==> a@ == SessionView::Unregistered,
        a matches Session::Pending { name } ==> a@ == SessionView::Pending(name@),
        a matches Session::Active { name } ==> a@ == SessionView::Active(name@),
        a is Ended ==> a@ == SessionView::Ended,
        Session::Unregistered@ == a@ <==> a is Unregistered,
        Session::Ended@ == a@ <==> a is Ended,
        a@ == b@ && a is Pending ==> b is Pending && a->Pending_name@ == b->Pending_name@,
        a@ == b@ && a is Active ==> b is Active && a->Active_name@ == b->Active_name@,
{
}

/// What is done with a frame from the client `own` is passed to the broker or sent to the
/// client, and a message is passed on as it is whatever its target.
pub proof fn law_frames_are_passed_on_unchanged(frame: Frame, own: Seq<char>, action: Action)
    requires
        dispatches(frame, own, action),
    ensures
        frame matches Frame::Message(sent) ==> {
            &&& action matches Action::Post(Event::Message { from, message })
            &&& from@ == own
            &&& message.id == sent.id
            &&& message.from@ == sent.from@
            &&& message.to == sent.to
            &&& message.kind@ == sent.kind@
            &&& message.payload == sent.payload
        },
        frame matches Frame::Subscribe { topic: wanted } ==> {
            &&& action matches Action::Post(Event::Subscribe { name, topic })
            &&& name@ == own
            &&& topic@ == wanted@
        },
        frame matches Frame::Unsubscribe { topic: unwanted } ==> {
            &&& action matches Action::Post(Event::Unsubscribe { name, topic })
            &&& name@ == own
            &&& topic@ == unwanted@
        },
        frame is Register || frame is Registered || frame is Error || frame is PeerConnected
            || frame is PeerDisconnected ==> {
            &&& action matches Action::Send(Frame::Error { message })
            &&& message@ == "unexpected frame type"@
        },
{
}

} // verus!
