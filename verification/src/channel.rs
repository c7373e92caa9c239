//! The queue behind a mailbox: one unbounded channel, owned as a whole.
//!
//! Both halves of the channel live in one `Channel`, the sending half is never
//! cloned and neither half is lent out, so nothing else can put a message in or take
//! one out. That is what lets the contents be spoken of as a value.

use core::task::Context;
use core::task::Poll;
use tokio::sync::mpsc::UnboundedReceiver;
use tokio::sync::mpsc::UnboundedSender;
use vstd::prelude::*;

use crate::message::BusMessage;

verus! {

/// Declares `tokio::sync::mpsc::UnboundedSender`.
#[verifier::external_type_specification]
#[verifier::external_body]
#[verifier::reject_recursive_types(T)]
pub struct ExUnboundedSender<T>(tokio::sync::mpsc::UnboundedSender<T>);

/// Declares `tokio::sync::mpsc::UnboundedReceiver`.
#[verifier::external_type_specification]
#[verifier::external_body]
#[verifier::reject_recursive_types(T)]
pub struct ExUnboundedReceiver<T>(tokio::sync::mpsc::UnboundedReceiver<T>);

/// Declares `core::task::Context`.
#[verifier::external_type_specification]
#[verifier::external_body]
pub struct ExContext<'a>(core::task::Context<'a>);

/// How many messages a channel can hold: one bit of its counter is a flag.
pub const QUEUE_LIMIT: usize = usize::MAX / 2;

/// The messages that were sent into the channel of `receiver` and not yet taken out,
/// oldest first.
pub uninterp spec fn queued(receiver: UnboundedReceiver<BusMessage>) -> Seq<BusMessage>;

/// Whether `sender` and `receiver` are the two halves of one channel.
pub uninterp spec fn feeds(
    sender: UnboundedSender<BusMessage>,
    receiver: UnboundedReceiver<BusMessage>,
) -> bool;

/// What one poll of a channel found.
pub enum Polled {
    /// The oldest message, now taken out.
    Message(BusMessage),
    /// The channel is empty and open. Having the task woken is the channel's and the
    /// runtime's part, and no contract here speaks of it.
    Waiting,
    /// The channel is empty and nothing can be sent into it any more.
    Closed,
}

/// Calls `tokio::sync::mpsc::unbounded_channel`: two halves of one new, empty channel.
#[verifier::external_body]
fn open_channel() -> (halves: (UnboundedSender<BusMessage>, UnboundedReceiver<BusMessage>))
    ensures
        feeds(halves.0, halves.1),
        queued(halves.1) == Seq::<BusMessage>::empty(),
{
    tokio::sync::mpsc::unbounded_channel()
}

/// Calls `UnboundedSender::send`. The receiving half is there, and nothing closes it
/// while it is, so the message is accepted and becomes the newest of the channel.
/// The call aborts the process when `QUEUE_LIMIT` messages are queued.
#[allow(unused_variables)]
#[verifier::external_body]
fn push_message(
    sender: &UnboundedSender<BusMessage>,
    receiver: &mut UnboundedReceiver<BusMessage>,
    message: BusMessage,
) -> (accepted: bool)
    requires
        feeds(*sender, *old(receiver)),
        queued(*old(receiver)).len() < QUEUE_LIMIT,
    ensures
        accepted,
        feeds(*sender, *final(receiver)),
        queued(*final(receiver)) == queued(*old(receiver)).push(message),
{
    sender.send(message).is_ok()
}

/// Calls `UnboundedReceiver::try_recv`: takes the oldest message out, if there is one.
#[verifier::external_body]
fn take_message(receiver: &mut UnboundedReceiver<BusMessage>) -> (taken: Option<BusMessage>)
    ensures
        queued(*old(receiver)).len() == 0 ==> taken is None && queued(*final(receiver)) == queued(
            *old(receiver),
        ),
        queued(*old(receiver)).len() > 0 ==> taken == Some(queued(*old(receiver))[0]) && queued(
            *final(receiver),
        ) == queued(*old(receiver)).drop_first(),
        forall|sender: UnboundedSender<BusMessage>|
            feeds(sender, *final(receiver)) == feeds(sender, *old(receiver)),
{
    receiver.try_recv().ok()
}

/// Calls `UnboundedReceiver::poll_recv`. A message that comes out is the oldest one,
/// and the channel is reported closed only when it is empty and its sending half is
/// gone. The call may ask to be polled again although a message is there (the
/// runtime's task budget), so that nothing comes out says nothing of the contents. When
/// the task is woken is left unsaid: it depends on the runtime.
#[allow(unused_variables)]
#[verifier::external_body]
fn poll_message(
    sender: &Option<UnboundedSender<BusMessage>>,
    receiver: &mut UnboundedReceiver<BusMessage>,
    task: &mut Context<'_>,
) -> (polled: Polled)
    requires
        *sender matches Some(half) ==> feeds(half, *old(receiver)),
    ensures
        match polled {
            Polled::Message(message) => {
                &&& queued(*old(receiver)).len() > 0
                &&& message == queued(*old(receiver))[0]
                &&& queued(*final(receiver)) == queued(*old(receiver)).drop_first()
            },
            Polled::Waiting => queued(*final(receiver)) == queued(*old(receiver)),
            Polled::Closed => {
                &&& *sender is None
                &&& queued(*old(receiver)).len() == 0
                &&& queued(*final(receiver)) == queued(*old(receiver))
            },
        },
        forall|sender: UnboundedSender<BusMessage>|
            feeds(sender, *final(receiver)) == feeds(sender, *old(receiver)),
{
    match receiver.poll_recv(task) {
        Poll::Ready(Some(message)) => Polled::Message(message),
        Poll::Ready(None) => Polled::Closed,
        Poll::Pending => Polled::Waiting,
    }
}

/// Calls `UnboundedReceiver::len`: how many messages the channel holds.
#[verifier::external_body]
fn count_messages(receiver: &UnboundedReceiver<BusMessage>) -> (count: usize)
    ensures
        count == queued(*receiver).len(),
{
    receiver.len()
}

/// A queue of messages that can be closed for new ones.
pub struct Channel {
    sender: Option<UnboundedSender<BusMessage>>,
    receiver: UnboundedReceiver<BusMessage>,
}

/// The state of a channel.
pub struct ChannelView {
    /// Whether messages can still be sent.
    pub open: bool,
    /// The messages that wait, oldest first.
    pub queue: Seq<BusMessage>,
}

impl View for Channel {
    type V = ChannelView;

    closed spec fn view(&self) -> ChannelView {
        ChannelView { open: self.sender is Some, queue: queued(self.receiver) }
    }
}

impl Channel {
    /// While there is a sending half, it is that of the receiving half.
    pub closed spec fn wf(self) -> bool {
        self.sender matches Some(sender) ==> feeds(sender, self.receiver)
    }

    /// An open, empty channel.
    pub fn new() -> (channel: Channel)
        ensures
            channel.wf(),
            channel@ == (ChannelView { open: true, queue: Seq::empty() }),
    {
        let (sender, receiver) = open_channel();
        Channel { sender: Some(sender), receiver }
    }

    /// Whether messages can still be sent.
    pub fn is_open(&self) -> (open: bool)
        ensures
            open == self@.open,
    {
        self.sender.is_some()
    }

    /// How many messages wait.
    pub fn len(&self) -> (count: usize)
        ensures
            count == self@.queue.len(),
    {
        count_messages(&self.receiver)
    }

    /// Puts a message behind the others, and says whether the channel was open for it.
    pub fn send(&mut self, message: BusMessage) -> (accepted: bool)
        requires
            old(self).wf(),
            old(self)@.queue.len() < QUEUE_LIMIT,
        ensures
            final(self).wf(),
            accepted == old(self)@.open,
            final(self)@.open == old(self)@.open,
            final(self)@.queue == if accepted {
                old(self)@.queue.push(message)
            } else {
                old(self)@.queue
            },
    {
        match &self.sender {
            Some(sender) => push_message(sender, &mut self.receiver, message),
            None => false,
        }
    }

    /// Takes the oldest message out, if there is one.
    pub fn try_recv(&mut self) -> (taken: Option<BusMessage>)
        requires
            old(self).wf(),
        ensures
            final(self).wf(),
            final(self)@.open == old(self)@.open,
            match taken {
                Some(message) => {
                    &&& old(self)@.queue.len() > 0
                    &&& message == old(self)@.queue[0]
                    &&& final(self)@.queue == old(self)@.queue.drop_first()
                },
                None => old(self)@.queue.len() == 0 && final(self)@.queue == old(self)@.queue,
            },
    {
        take_message(&mut self.receiver)
    }

    /// Takes the oldest message out. An empty channel is reported closed if it is, and
    /// otherwise it is polled with `task`. That this has the task woken when there is more
    /// to say is left to the channel and the runtime: the contract does not state it.
    pub fn poll_recv(&mut self, task: &mut Context<'_>) -> (polled: Polled)
        requires
            old(self).wf(),
        ensures
            final(self).wf(),
            final(self)@.open == old(self)@.open,
            match polled {
                Polled::Message(message) => {
                    &&& old(self)@.queue.len() > 0
                    &&& message == old(self)@.queue[0]
                    &&& final(self)@.queue == old(self)@.queue.drop_first()
                },
                Polled::Waiting => {
                    &&& old(self)@.open
                    &&& old(self)@.queue.len() == 0
                    &&& final(self)@.queue == old(self)@.queue
                },
                Polled::Closed => {
                    &&& !old(self)@.open
                    &&& old(self)@.queue.len() == 0
                    &&& final(self)@.queue == old(self)@.queue
                },
            },
    {
        match take_message(&mut self.receiver) {
            Some(message) => Polled::Message(message),
            None => if self.sender.is_none() {
                Polled::Closed
            } else {
                poll_message(&self.sender, &mut self.receiver, task)
            },
        }
    }

    /// Closes the channel for new messages. Those that wait can still be taken out.
    pub fn close(&mut self)
        requires
            old(self).wf(),
        ensures
            final(self).wf(),
            !final(self)@.open,
            final(self)@.queue == old(self)@.queue,
    {
        self.sender = None;
    }
}

} // verus!
