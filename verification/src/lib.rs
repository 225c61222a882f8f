//! The protocol logic of an MQTT v5 client, verified.
//!
//! Payloads are raw bytes and metadata travels in standard MQTT properties. Nothing here
//! performs I/O, reads a clock or waits: the blocking [`client`] and the asynchronous
//! [`async_client`] are state machines. Whoever runs one performs the step it asks for and
//! reports what came of it.
//!
//! - [`codec`] encodes and decodes packets, their properties and their topics.
//! - [`frame`] cuts a byte stream into packets.
//! - [`options`] and [`request_response`] hold what a caller chooses.
//! - [`greeting`] says how a connection begins.
//! - [`client`] runs one operation at a time; [`async_client`] runs many.
//! - [`request`] runs requests that pump a shared socket each time they are polled, and
//!   [`cooperation`] says what becomes of them.
//! - [`trace`] carries W3C trace contexts in user properties.
//! - [`tls`] and [`transport`] hold what is decided before and around a byte stream.
//! - [`notation`] says how numbers, identifiers and addresses are written down.
//! - [`error`], [`text`] and [`time`] are what the others are built on.
pub mod async_client;
pub mod client;
pub mod codec;
pub mod cooperation;
pub mod error;
pub mod frame;
pub mod greeting;
pub mod notation;
pub mod options;
pub mod request;
pub mod request_response;
pub mod text;
pub mod time;
pub mod tls;
pub mod trace;
pub mod transport;

pub use crate::async_client::{DisconnectReason, Event, PublishAck, SubscriptionAck};
pub use crate::client::Incoming;
pub use crate::codec::types::{Packet, PublishPacket, QoS};
pub use crate::error::Error;
pub use crate::options::{ConnectOptions, PublishOptions};
pub use crate::request_response::RequestOptions;
pub use crate::trace::TraceContext;
