//! Agent message bus: routing of messages between named agents, in process over a
//! [`Bus`] and between processes over a [`Broker`].
//!
//! The library decides; it neither reads nor sends. Each step takes what has come in,
//! changes the state, and says what is to go out, and its contract says exactly which.

pub mod broker;
pub mod bus;
pub mod channel;
pub mod client;
pub mod message;
pub mod network;
pub mod session;
pub mod table;
pub mod wire;

pub use broker::Broker;
pub use bus::Bus;
pub use bus::BusError;
pub use bus::Mailbox;
pub use client::BusClient;
pub use message::BusMessage;
