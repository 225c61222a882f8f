//! Errors of the codec, the frame reader and the clients.
use vstd::prelude::*;

use crate::text::{decimal, hex_byte, push_decimal, push_hex_byte};

verus! {

/// What kind of transport failure occurred.
#[derive(Debug, Clone, Copy, PartialEq, Eq, Structural)]
pub enum ErrorKind {
    ConnectionRefused,
    ConnectionReset,
    ConnectionAborted,
    NotConnected,
    BrokenPipe,
    WouldBlock,
    Interrupted,
    TimedOut,
    UnexpectedEof,
    WriteZero,
    InvalidData,
    InvalidInput,
    Other,
}

/// A transport failure: its kind and its description.
#[derive(Debug)]
pub struct IoError {
    kind: ErrorKind,
    message: String,
}

impl IoError {
    pub closed spec fn spec_kind(&self) -> ErrorKind {
        self.kind
    }

    pub closed spec fn spec_message(&self) -> Seq<char> {
        self.message@
    }

    pub fn new(kind: ErrorKind, message: &str) -> (r: Self)
        ensures
            r.spec_kind() == kind,
            r.spec_message() == message@,
    {
        IoError { kind, message: message.to_owned() }
    }

    pub fn kind(&self) -> (r: ErrorKind)
        ensures
            r == self.spec_kind(),
    {
        self.kind
    }

    /// The failure's description.
    pub fn message(&self) -> (r: &str)
        ensures
            r@ == self.spec_message(),
    {
        self.message.as_str()
    }
}

impl Clone for IoError {
    fn clone(&self) -> (r: Self)
        ensures
            r == *self,
    {
        IoError { kind: self.kind, message: self.message.clone() }
    }
}

/// Errors returned by the operations of this crate.
#[derive(Debug)]
pub enum Error {
    InvalidOptions(&'static str),
    MalformedPacket(&'static str),
    InvalidPacketType(u8),
    InvalidQoS(u8),
    InvalidReasonCode(u8),
    ConnectionRefused(u8),
    ServerDisconnected(u8),
    PacketTooLarge { size: usize, max: usize },
    StringTooLong(usize),
    BinaryTooLong(usize),
    Timeout(&'static str),
    KeepAliveTimeout,
    UnexpectedPacket(&'static str),
    AckRejected { packet: &'static str, reason_code: u8 },
    QueueFull(&'static str),
    ClientClosed,
    Serialize(String),
    Deserialize(String),
    ConnectionClosed,
    Io(IoError),
}

pub type Result<T> = core::result::Result<T, Error>;

impl Error {
    /// The sentence that describes the error to a reader.
    pub open spec fn spec_message(&self) -> Seq<char> {
        match *self {
            Error::InvalidOptions(msg) => "invalid options: "@ + msg@,
            Error::MalformedPacket(msg) => "malformed packet: "@ + msg@,
            Error::InvalidPacketType(t) => "invalid packet type: "@ + decimal(t as nat),
            Error::InvalidQoS(q) => "invalid QoS: "@ + decimal(q as nat),
            Error::InvalidReasonCode(c) => "invalid reason code: 0x"@ + hex_byte(c),
            Error::ConnectionRefused(c) => "connection refused: 0x"@ + hex_byte(c),
            Error::ServerDisconnected(c) => "server disconnected: 0x"@ + hex_byte(c),
            Error::PacketTooLarge { size, max } => "packet is "@ + decimal(size as nat)
                + " bytes; configured maximum is "@ + decimal(max as nat),
            Error::StringTooLong(len) => "string too long: "@ + decimal(len as nat) + " bytes"@,
            Error::BinaryTooLong(len) => "binary data too long: "@ + decimal(len as nat)
                + " bytes"@,
            Error::ConnectionClosed => "connection closed"@,
            Error::ClientClosed => "client driver is not running"@,
            Error::Timeout(operation) => operation@ + " timed out"@,
            Error::KeepAliveTimeout => "broker did not answer PINGREQ"@,
            Error::UnexpectedPacket(msg) => "unexpected packet: "@ + msg@,
            Error::AckRejected { packet, reason_code } => packet@ + " rejected: 0x"@ + hex_byte(
                reason_code,
            ),
            Error::QueueFull(queue) => queue@ + " queue is full"@,
            Error::Serialize(msg) => "serialize: "@ + msg@,
            Error::Deserialize(msg) => "deserialize: "@ + msg@,
            Error::Io(e) => "io: "@ + e.spec_message(),
        }
    }

    /// Describe the error in one sentence.
    pub fn message(&self) -> (r: String)
        ensures
            r@ == self.spec_message(),
    {
        let mut out: String;
        match self {
            Error::InvalidOptions(msg) => {
                out = joined("invalid options: ", msg);
            },
            Error::MalformedPacket(msg) => {
                out = joined("malformed packet: ", msg);
            },
            Error::InvalidPacketType(t) => {
                out = "invalid packet type: ".to_owned();
                push_decimal(&mut out, *t as usize);
            },
            Error::InvalidQoS(q) => {
                out = "invalid QoS: ".to_owned();
                push_decimal(&mut out, *q as usize);
            },
            Error::InvalidReasonCode(c) => {
                out = "invalid reason code: 0x".to_owned();
                push_hex_byte(&mut out, *c);
            },
            Error::ConnectionRefused(c) => {
                out = "connection refused: 0x".to_owned();
                push_hex_byte(&mut out, *c);
            },
            Error::ServerDisconnected(c) => {
                out = "server disconnected: 0x".to_owned();
                push_hex_byte(&mut out, *c);
            },
            Error::PacketTooLarge { size, max } => {
                out = "packet is ".to_owned();
                push_decimal(&mut out, *size);
                out.append(" bytes; configured maximum is ");
                push_decimal(&mut out, *max);
            },
            Error::StringTooLong(len) => {
                out = "string too long: ".to_owned();
                push_decimal(&mut out, *len);
                out.append(" bytes");
            },
            Error::BinaryTooLong(len) => {
                out = "binary data too long: ".to_owned();
                push_decimal(&mut out, *len);
                out.append(" bytes");
            },
            Error::ConnectionClosed => {
                out = "connection closed".to_owned();
            },
            Error::ClientClosed => {
                out = "client driver is not running".to_owned();
            },
            Error::Timeout(operation) => {
                out = joined(operation, " timed out");
            },
            Error::KeepAliveTimeout => {
                out = "broker did not answer PINGREQ".to_owned();
            },
            Error::UnexpectedPacket(msg) => {
                out = joined("unexpected packet: ", msg);
            },
            Error::AckRejected { packet, reason_code } => {
                out = joined(packet, " rejected: 0x");
                push_hex_byte(&mut out, *reason_code);
            },
            Error::QueueFull(queue) => {
                out = joined(queue, " queue is full");
            },
            Error::Serialize(msg) => {
                out = joined("serialize: ", msg.as_str());
            },
            Error::Deserialize(msg) => {
                out = joined("deserialize: ", msg.as_str());
            },
            Error::Io(e) => {
                out = joined("io: ", e.message());
            },
        }
        out
    }

    /// The transport failure beneath this error, if there is one.
    pub fn source(&self) -> (r: Option<&IoError>)
        ensures
            r == (match *self {
                Error::Io(e) => Some(&e),
                _ => None,
            }),
    {
        match self {
            Error::Io(error) => Some(error),
            _ => None,
        }
    }
}

impl Clone for Error {
    fn clone(&self) -> (r: Self)
        ensures
            r == *self,
    {
        match self {
            Error::InvalidOptions(msg) => Error::InvalidOptions(msg),
            Error::MalformedPacket(msg) => Error::MalformedPacket(msg),
            Error::InvalidPacketType(t) => Error::InvalidPacketType(*t),
            Error::InvalidQoS(q) => Error::InvalidQoS(*q),
            Error::InvalidReasonCode(c) => Error::InvalidReasonCode(*c),
            Error::ConnectionRefused(c) => Error::ConnectionRefused(*c),
            Error::ServerDisconnected(c) => Error::ServerDisconnected(*c),
            Error::PacketTooLarge { size, max } => Error::PacketTooLarge { size: *size, max: *max },
            Error::StringTooLong(len) => Error::StringTooLong(*len),
            Error::BinaryTooLong(len) => Error::BinaryTooLong(*len),
            Error::Timeout(operation) => Error::Timeout(operation),
            Error::KeepAliveTimeout => Error::KeepAliveTimeout,
            Error::UnexpectedPacket(msg) => Error::UnexpectedPacket(msg),
            Error::AckRejected { packet, reason_code } => Error::AckRejected {
                packet,
                reason_code: *reason_code,
            },
            Error::QueueFull(queue) => Error::QueueFull(queue),
            Error::ClientClosed => Error::ClientClosed,
            Error::Serialize(msg) => Error::Serialize(msg.clone()),
            Error::Deserialize(msg) => Error::Deserialize(msg.clone()),
            Error::ConnectionClosed => Error::ConnectionClosed,
            Error::Io(e) => Error::Io(e.clone()),
        }
    }
}

impl vstd::std_specs::convert::FromSpecImpl<IoError> for Error {
    open spec fn obeys_from_spec() -> bool {
        true
    }

    open spec fn from_spec(e: IoError) -> Self {
        Error::Io(e)
    }
}

impl From<IoError> for Error {
    fn from(e: IoError) -> (r: Self) {
        Error::Io(e)
    }
}

fn joined(first: &str, second: &str) -> (r: String)
    ensures
        r@ == first@ + second@,
{
    let mut out = first.to_owned();
    out.append(second);
    out
}

} // verus!
