//! The client's end of a connection: what it sends, and what it makes of the broker's
//! first answer.
//!
//! A client hands its frames to `writer` and takes what comes from `reader`; both are
//! used by whoever runs the connection.

use serde_json::Value;
use tokio::sync::mpsc::Receiver;
use tokio::sync::mpsc::Sender;
use uuid::Uuid;
use vstd::prelude::*;

use crate::message::fresh_id;
use crate::message::version;
use crate::message::BusMessage;
use crate::message::Frame;
use crate::message::Target;
use crate::wire::WireError;

verus! {

/// Declares `tokio::sync::mpsc::Receiver`.
#[verifier::external_type_specification]
#[verifier::external_body]
#[verifier::reject_recursive_types(T)]
pub struct ExReceiver<T>(tokio::sync::mpsc::Receiver<T>);

/// Why a client could not connect or send.
#[derive(Debug)]
pub enum ClientError {
    Io(std::io::Error),
    Wire(WireError),
    RegistrationFailed(String),
    Disconnected,
}

impl From<std::io::Error> for ClientError {
    fn from(error: std::io::Error) -> (wrapped: ClientError)
        ensures
            wrapped == ClientError::Io(error),
    {
        ClientError::Io(error)
    }
}

impl vstd::std_specs::convert::FromSpecImpl<std::io::Error> for ClientError {
    open spec fn obeys_from_spec() -> bool {
        true
    }

    open spec fn from_spec(error: std::io::Error) -> ClientError {
        ClientError::Io(error)
    }
}

impl From<WireError> for ClientError {
    fn from(error: WireError) -> (wrapped: ClientError)
        ensures
            wrapped == ClientError::Wire(error),
    {
        ClientError::Wire(error)
    }
}

impl vstd::std_specs::convert::FromSpecImpl<WireError> for ClientError {
    open spec fn obeys_from_spec() -> bool {
        true
    }

    open spec fn from_spec(error: WireError) -> ClientError {
        ClientError::Wire(error)
    }
}

/// Whether `verdict` is what the broker's first answer means: only `Registered` is a
/// success, and an error frame gives the reason of a refusal.
pub open spec fn settles(reply: Result<Frame, WireError>, verdict: Result<(), ClientError>) -> bool {
    match reply {
        Ok(Frame::Registered) => verdict is Ok,
        Ok(Frame::Error { message }) => verdict == Err::<(), ClientError>(
            ClientError::RegistrationFailed(message),
        ),
        Ok(_) => {
            &&& verdict matches Err(ClientError::RegistrationFailed(reason))
            &&& reason@ == "unexpected frame"@
        },
        Err(error) => verdict == Err::<(), ClientError>(ClientError::Wire(error)),
    }
}

/// What the broker's first answer means.
pub fn await_registered(reply: Result<Frame, WireError>) -> (verdict: Result<(), ClientError>)
    ensures
        settles(reply, verdict),
{
    match reply {
        Ok(Frame::Registered) => Ok(()),
        Ok(Frame::Error { message }) => Err(ClientError::RegistrationFailed(message)),
        Ok(_) => Err(ClientError::RegistrationFailed("unexpected frame".to_owned())),
        Err(error) => Err(ClientError::Wire(error)),
    }
}

/// What a client reports of a frame that it handed to its writer: if the writer did not
/// take it, the connection is gone.
pub fn handed_over(taken: bool) -> (report: Result<(), ClientError>)
    ensures
        report == if taken {
            Ok::<(), ClientError>(())
        } else {
            Err::<(), ClientError>(ClientError::Disconnected)
        },
{
    if taken {
        Ok(())
    } else {
        Err(ClientError::Disconnected)
    }
}

/// A registered client.
pub struct BusClient {
    name: String,
    writer: Sender<Frame>,
    reader: Receiver<Frame>,
}

impl BusClient {
    /// The name under which the client is registered.
    pub closed spec fn own_name(self) -> Seq<char> {
        self.name@
    }

    /// Where the client's frames go.
    pub closed spec fn outlet(self) -> Sender<Frame> {
        self.writer
    }

    /// Where the frames for the client come from.
    pub closed spec fn inlet(self) -> Receiver<Frame> {
        self.reader
    }

    /// The frame with which a connection starts.
    pub fn register_request(name: &str) -> (request: Frame)
        ensures
            request matches Frame::Register { name: wanted } && wanted@ == name@,
    {
        Frame::Register { name: name.to_owned() }
    }

    /// The client that a connection becomes once the broker has answered its request to
    /// be registered as `name`.
    pub fn connect(
        name: &str,
        reply: Result<Frame, WireError>,
        writer: Sender<Frame>,
        reader: Receiver<Frame>,
    ) -> (connected: Result<BusClient, ClientError>)
        ensures
            match connected {
                Ok(client) => {
                    &&& settles(reply, Ok(()))
                    &&& client.own_name() == name@
                    &&& client.outlet() == writer
                    &&& client.inlet() == reader
                },
                Err(error) => settles(reply, Err(error)),
            },
    {
        match await_registered(reply) {
            Ok(()) => Ok(BusClient { name: name.to_owned(), writer, reader }),
            Err(error) => Err(error),
        }
    }

    /// The frame for a message with the identifier `id`.
    pub fn message(&self, id: Uuid, to: Target, kind: String, payload: Value) -> (frame: Frame)
        ensures
            frame matches Frame::Message(message) && {
                &&& message.id == id
                &&& message.from@ == self.own_name()
                &&& message.to == to
                &&& message.kind == kind
                &&& message.payload == payload
            },
    {
        Frame::Message(BusMessage { id, from: self.name.clone(), to, kind, payload })
    }

    /// The frame that sends a message to a target, under a fresh identifier.
    pub fn send(&self, to: Target, kind: String, payload: Value) -> (frame: Frame)
        ensures
            frame matches Frame::Message(message) && {
                &&& version(message.id) == 4
                &&& message.from@ == self.own_name()
                &&& message.to == to
                &&& message.kind == kind
                &&& message.payload == payload
            },
    {
        self.message(fresh_id(), to, kind, payload)
    }

    /// The frame that subscribes to a topic.
    pub fn subscribe(&self, topic: &str) -> (frame: Frame)
        ensures
            frame matches Frame::Subscribe { topic: wanted } && wanted@ == topic@,
    {
        Frame::Subscribe { topic: topic.to_owned() }
    }

    /// The frame that unsubscribes from a topic.
    pub fn unsubscribe(&self, topic: &str) -> (frame: Frame)
        ensures
            frame matches Frame::Unsubscribe { topic: unwanted } && unwanted@ == topic@,
    {
        Frame::Unsubscribe { topic: topic.to_owned() }
    }

    /// This client's registered name.
    pub fn name(&self) -> (name: &str)
        ensures
            name@ == self.own_name(),
    {
        self.name.as_str()
    }

    /// Where the client's frames go.
    pub fn writer(&self) -> (writer: &Sender<Frame>)
        ensures
            *writer == self.outlet(),
    {
        &self.writer
    }

    /// Where the frames for the client come from.
    pub fn reader(&mut self) -> (reader: &mut Receiver<Frame>)
        ensures
            *reader == old(self).inlet(),
            final(self).inlet() == *final(reader),
            final(self).own_name() == old(self).own_name(),
            final(self).outlet() == old(self).outlet(),
    {
        &mut self.reader
    }
}

/// What a client makes of the broker's first answer: it is registered if and only if the
/// answer is `Registered`; a reason that the broker gives is passed on as it is; any other
/// frame is a refusal; and a failure of the connection is reported as that failure.
pub proof fn law_what_the_first_answer_means(
    reply: Result<Frame, WireError>,
    verdict: Result<(), ClientError>,
)
    requires
        settles(reply, verdict),
    ensures
        verdict is Ok <==> (reply matches Ok(frame) && frame is Registered),
        reply matches Ok(Frame::Error { message }) ==> {
            &&& verdict matches Err(ClientError::RegistrationFailed(reason))
            &&& reason@ == message@
        },
        reply matches Ok(frame) ==> !(frame is Registered) && !(frame is Error) ==> {
            &&& verdict matches Err(ClientError::RegistrationFailed(reason))
            &&& reason@ == "unexpected frame"@
        },
        reply matches Err(error) ==> {
            &&& verdict matches Err(ClientError::Wire(cause))
            &&& cause == error
        },
{
}

} // verus!
