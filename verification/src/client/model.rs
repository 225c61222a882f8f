//! What a session of the blocking client does, as functions on what it holds.
use vstd::prelude::*;

use crate::async_client::handshake::{u16_or, u32_or};
use crate::async_client::model::{
    goodbye, id_after, reason_codes_check, since, subscribe_packet, unsubscribe_packet,
};
use crate::codec::connect::{capabilities_of, connack_check, ServerCapabilities};
use crate::codec::ping::PINGREQ_BYTES;
use crate::codec::properties::PropertyId;
use crate::codec::publish::{encoded_puback, encoded_publish};
use crate::codec::subscribe::{encoded_subscribe, encoded_unsubscribe, suback_check};
use crate::codec::topic::{topic_filter_check, topic_name_check};
use crate::codec::types::{ConnAckPacketView, PacketView, PubAckPacket, PublishPacketView, QoS};
use crate::error::{Error, ErrorKind, IoError, Result};
use crate::frame::{header_len_bounds, FrameReaderView};
use crate::options::PublishOptionsView;
use crate::time::{MAX_INSTANT_NANOS, NANOS_PER_MILLI, NANOS_PER_SEC};

verus! {

/// What a session is waiting for.
#[verifier::ext_equal]
pub enum GoalView {
    Nothing,
    Connect { client_id: Seq<char>, clean_start: bool },
    PubAck { packet_id: u16 },
    SubAck { packet_id: u16, qos: QoS },
    UnsubAck { packet_id: u16 },
    Message,
}

/// What a session has asked to be sent.
#[derive(Debug, Clone, Copy, PartialEq, Eq, Structural)]
pub enum Sending {
    Nothing,
    Connect,
    PublishAtMostOnce,
    Publish,
    Subscribe,
    Unsubscribe,
    PubAck,
    Ping,
    Goodbye,
}

impl Sending {
    /// The name of the operation that sends.
    pub open spec fn spec_operation(self) -> &'static str {
        match self {
            Sending::Connect => "connect",
            Sending::PublishAtMostOnce | Sending::Publish => "publish",
            Sending::Subscribe => "subscribe",
            Sending::Unsubscribe => "unsubscribe",
            Sending::PubAck => "PUBACK",
            Sending::Ping => "keepalive",
            Sending::Nothing | Sending::Goodbye => "disconnect",
        }
    }

    /// The name of the acknowledgement that the operation waits for next.
    pub open spec fn spec_awaits(self) -> Option<&'static str> {
        match self {
            Sending::Publish => Some("PUBACK"),
            Sending::Subscribe => Some("SUBACK"),
            Sending::Unsubscribe => Some("UNSUBACK"),
            _ => None,
        }
    }
}

/// What to do next for a session.
#[verifier::ext_equal]
pub enum StepView {
    Send(Seq<u8>),
    Read { timeout: Option<int>, max: usize },
    Done(Result<Option<PublishPacketView>>),
}

/// What a session holds. Times are in nanoseconds.
#[verifier::ext_equal]
pub struct SessionView {
    pub reader: FrameReaderView,
    /// The messages that have arrived, the oldest first.
    pub incoming: Seq<PublishPacketView>,
    pub max_incoming: usize,
    pub next_packet_id: u16,
    pub keep_alive_secs: u16,
    pub ack_timeout: int,
    pub max_outbound: usize,
    pub capabilities: ServerCapabilities,
    pub last_write_at: int,
    /// Since when a PINGREQ packet is unanswered.
    pub ping_since: Option<int>,
    pub connected: bool,
    pub goal: GoalView,
    /// When what is waited for is overdue, and its name.
    pub deadline: Option<(int, &'static str)>,
    pub sending: Sending,
}

/// What a session is after a turn, and what it wants.
pub type Turn = (SessionView, StepView);

/// What a failed write means: a call that ran into its time limit is a timeout of the
/// operation.
pub open spec fn write_error_of(error: IoError, operation: &'static str) -> Error {
    match error.spec_kind() {
        ErrorKind::TimedOut | ErrorKind::WouldBlock => Error::Timeout(operation),
        _ => Error::Io(error),
    }
}

/// The reason code of an acknowledgement, unless it is a refusal.
pub open spec fn ack_code_check(packet: &'static str, reason_code: u8) -> Result<()> {
    if reason_code >= 0x80 {
        Err(Error::AckRejected { packet, reason_code })
    } else {
        Ok(())
    }
}

/// How long nothing is written before a PINGREQ packet is due, unless never.
pub open spec fn ping_due_after(keep_alive_secs: u16) -> Option<int> {
    if keep_alive_secs == 0 {
        None
    } else {
        Some(keep_alive_secs * NANOS_PER_SEC)
    }
}

/// A reading of the clock, if the clock can hold it.
pub open spec fn readable(at: int) -> Option<int> {
    if at <= MAX_INSTANT_NANOS {
        Some(at)
    } else {
        None
    }
}

/// The earlier of two readings, where an absent one is never.
pub open spec fn earlier(a: Option<int>, b: Option<int>) -> Option<int> {
    match (a, b) {
        (Some(x), Some(y)) => if y < x {
            b
        } else {
            a
        },
        (None, _) => b,
        (_, None) => a,
    }
}

/// What an operation without a value returns.
pub open spec fn nothing_or(r: Result<()>) -> Result<Option<PublishPacketView>> {
    match r {
        Ok(_) => Ok(None),
        Err(e) => Err(e),
    }
}

impl SessionView {
    /// The operation is over.
    pub open spec fn done(self, result: Result<Option<PublishPacketView>>) -> Turn {
        (
            SessionView {
                goal: GoalView::Nothing,
                deadline: None,
                sending: Sending::Nothing,
                ..self
            },
            StepView::Done(result),
        )
    }

    /// The operation failed, and with it the session.
    pub open spec fn closed(self, error: Error) -> Turn {
        (SessionView { connected: false, ..self }).done(Err(error))
    }

    /// Send a packet, unless it is larger than what the broker accepts.
    pub open spec fn send(self, bytes: Seq<u8>, what: Sending) -> Turn {
        if bytes.len() > self.max_outbound {
            self.done(
                Err(Error::PacketTooLarge { size: bytes.len() as usize, max: self.max_outbound }),
            )
        } else {
            (SessionView { sending: what, ..self }, StepView::Send(bytes))
        }
    }

    /// Send an encoded packet, if it could be encoded.
    pub open spec fn send_encoded(self, encoded: Result<Seq<u8>>, what: Sending) -> Turn {
        match encoded {
            Err(e) => self.done(Err(e)),
            Ok(bytes) => self.send(bytes, what),
        }
    }

    /// The session after the next packet identifier was given out.
    pub open spec fn next_id(self) -> SessionView {
        SessionView { next_packet_id: id_after(self.next_packet_id), ..self }
    }

    /// Check a publish and send it.
    pub open spec fn begin_publish(
        self,
        topic: Seq<char>,
        payload: Seq<u8>,
        options: PublishOptionsView,
    ) -> Turn {
        if !self.connected {
            self.done(Err(Error::ClientClosed))
        } else {
            match topic_name_check(topic) {
                Err(e) => self.done(Err(e)),
                Ok(_) => match self.capabilities.publish_check(options.qos, options.retain) {
                    Err(e) => self.done(Err(e)),
                    Ok(_) => {
                        let packet = PublishPacketView {
                            topic,
                            packet_id: None,
                            payload,
                            qos: options.qos,
                            retain: options.retain,
                            dup: false,
                            properties: options.properties,
                        };
                        if options.qos == QoS::AtMostOnce {
                            self.send_encoded(encoded_publish(packet), Sending::PublishAtMostOnce)
                        } else {
                            let packet_id = self.next_packet_id;
                            (SessionView {
                                goal: GoalView::PubAck { packet_id },
                                ..self.next_id()
                            }).send_encoded(
                                encoded_publish(
                                    PublishPacketView { packet_id: Some(packet_id), ..packet },
                                ),
                                Sending::Publish,
                            )
                        }
                    },
                },
            }
        }
    }

    /// Check a subscribe and send it.
    pub open spec fn begin_subscribe(self, filter: Seq<char>, qos: QoS) -> Turn {
        if !self.connected {
            self.done(Err(Error::ClientClosed))
        } else {
            match self.capabilities.filter_check(filter) {
                Err(e) => self.done(Err(e)),
                Ok(_) => {
                    let packet_id = self.next_packet_id;
                    (SessionView {
                        goal: GoalView::SubAck { packet_id, qos },
                        ..self.next_id()
                    }).send_encoded(
                        encoded_subscribe(subscribe_packet(packet_id, filter, qos)),
                        Sending::Subscribe,
                    )
                },
            }
        }
    }

    /// Check an unsubscribe and send it.
    pub open spec fn begin_unsubscribe(self, filter: Seq<char>) -> Turn {
        if !self.connected {
            self.done(Err(Error::ClientClosed))
        } else {
            match topic_filter_check(filter) {
                Err(e) => self.done(Err(e)),
                Ok(_) => {
                    let packet_id = self.next_packet_id;
                    (SessionView {
                        goal: GoalView::UnsubAck { packet_id },
                        ..self.next_id()
                    }).send_encoded(
                        encoded_unsubscribe(unsubscribe_packet(packet_id, filter)),
                        Sending::Unsubscribe,
                    )
                },
            }
        }
    }

    /// Hand out the oldest message, or wait for one.
    pub open spec fn begin_receive(self, now: int) -> Turn {
        if !self.connected {
            self.done(Err(Error::ClientClosed))
        } else if self.incoming.len() > 0 {
            self.deliver()
        } else {
            (SessionView { goal: GoalView::Message, deadline: None, ..self }).advance(now)
        }
    }

    /// Send a DISCONNECT, unless the session is over.
    pub open spec fn begin_disconnect(self) -> Turn {
        if self.connected {
            self.send(goodbye(), Sending::Goodbye)
        } else {
            self.done(Ok(None))
        }
    }

    /// Hand out the oldest message.
    pub open spec fn deliver(self) -> Turn {
        if self.incoming.len() == 0 {
            self.done(Ok(None))
        } else {
            (SessionView { incoming: self.incoming.drop_first(), ..self }).done(
                Ok(Some(self.incoming[0])),
            )
        }
    }

    /// What was to be sent was sent, or not.
    pub open spec fn sent(self, outcome: core::result::Result<(), IoError>, now: int) -> Turn {
        match outcome {
            Err(error) => self.closed(write_error_of(error, self.sending.spec_operation())),
            Ok(_) => {
                let s = SessionView { last_write_at: now, sending: Sending::Nothing, ..self };
                match self.sending {
                    Sending::Connect => s.advance(now),
                    Sending::Nothing | Sending::PublishAtMostOnce => s.done(Ok(None)),
                    Sending::Publish | Sending::Subscribe | Sending::Unsubscribe => s.await_ack(
                        self.sending.spec_awaits()->Some_0,
                        now,
                    ),
                    Sending::PubAck => if s.goal is Message {
                        s.deliver()
                    } else {
                        s.advance(now)
                    },
                    Sending::Ping => (SessionView { ping_since: Some(now), ..s }).read_step(now),
                    Sending::Goodbye => (SessionView { connected: false, ..s }).done(Ok(None)),
                }
            },
        }
    }

    /// Wait for the acknowledgement of this name.
    pub open spec fn await_ack(self, name: &'static str, now: int) -> Turn {
        match readable(now + self.ack_timeout) {
            None => self.done(Err(Error::InvalidOptions("timeout is too large"))),
            Some(at) => (SessionView { deadline: Some((at, name)), ..self }).advance(now),
        }
    }

    /// Take in the packets that have arrived until the operation is over or something has
    /// to be sent, else wait for more.
    pub open spec fn advance(self, now: int) -> Turn
        decreases self.reader.buf.len(),
    {
        let rest = self.reader.after_next();
        let s = SessionView { reader: rest, ..self };
        match self.reader.next_packet() {
            Err(e) => s.closed(e),
            Ok(None) => s.service(now),
            Ok(Some(packet)) => match s.handle(packet) {
                (t, Some(step)) => (t, step),
                (t, None) => {
                    proof {
                        header_len_bounds(self.reader.buf);
                    }
                    (SessionView { reader: rest, ..t }).advance(now)
                },
            },
        }
    }

    /// What a packet brings about; no step where the wait goes on.
    #[verifier::opaque]
    pub open spec fn handle(self, packet: PacketView) -> (SessionView, Option<StepView>) {
        let s = SessionView {
            ping_since: if packet is PingResp {
                None
            } else {
                self.ping_since
            },
            ..self
        };
        match s.goal {
            GoalView::Connect { client_id, clean_start } => s.handle_connack(
                packet,
                client_id,
                clean_start,
            ),
            GoalView::PubAck { packet_id } => match packet {
                PacketView::PubAck(ack) if ack.packet_id == packet_id => took(
                    s.done(nothing_or(ack_code_check("PUBACK", ack.reason_code))),
                ),
                other => s.handle_waiting(other, "unexpected packet while awaiting PUBACK"),
            },
            GoalView::SubAck { packet_id, qos } => match packet {
                PacketView::SubAck(ack) if ack.packet_id == packet_id => took(
                    s.acknowledged(suback_check(ack.reason_codes, seq![qos])),
                ),
                other => s.handle_waiting(other, "unexpected packet while awaiting SUBACK"),
            },
            GoalView::UnsubAck { packet_id } => match packet {
                PacketView::UnsubAck(ack) if ack.packet_id == packet_id => took(
                    s.acknowledged(reason_codes_check("UNSUBACK", ack.reason_codes, 1)),
                ),
                other => s.handle_waiting(other, "unexpected packet while awaiting UNSUBACK"),
            },
            GoalView::Message | GoalView::Nothing => s.handle_receiving(packet),
        }
    }

    /// A packet came where CONNACK is waited for.
    pub open spec fn handle_connack(
        self,
        packet: PacketView,
        client_id: Seq<char>,
        clean_start: bool,
    ) -> (SessionView, Option<StepView>) {
        match packet {
            PacketView::ConnAck(ack) => if ack.reason_code != 0 {
                took(self.done(Err(Error::ConnectionRefused(ack.reason_code))))
            } else {
                match connack_check(client_id, clean_start, ack) {
                    Err(e) => took(self.done(Err(e))),
                    Ok(_) => took(self.established(ack).done(Ok(None))),
                }
            },
            _ => took(self.done(Err(Error::UnexpectedPacket("expected CONNACK")))),
        }
    }

    /// The session on the terms of a CONNACK packet.
    pub open spec fn established(self, ack: ConnAckPacketView) -> SessionView {
        SessionView {
            capabilities: capabilities_of(ack),
            keep_alive_secs: u16_or(
                ack.properties,
                PropertyId::ServerKeepAlive,
                self.keep_alive_secs,
            ),
            max_outbound: u32_or(
                ack.properties,
                PropertyId::MaximumPacketSize,
                self.max_outbound,
            ),
            connected: true,
            ..self
        }
    }

    /// The acknowledgement came. One that no broker may send ends the session.
    pub open spec fn acknowledged(self, result: Result<()>) -> Turn {
        if result matches Err(Error::MalformedPacket(_)) {
            self.closed(result->Err_0)
        } else {
            self.done(nothing_or(result))
        }
    }

    /// A packet other than the one that is waited for came while an acknowledgement is.
    pub open spec fn handle_waiting(self, packet: PacketView, message: &'static str) -> (
        SessionView,
        Option<StepView>,
    ) {
        match packet {
            PacketView::Publish(publish) => if self.incoming.len() >= self.max_incoming {
                took(self.closed(Error::QueueFull("incoming message")))
            } else {
                let s = SessionView { incoming: self.incoming.push(publish), ..self };
                if publish.qos == QoS::AtLeastOnce {
                    took(s.acknowledge(publish))
                } else {
                    (s, None)
                }
            },
            PacketView::Disconnect(disconnect) => took(
                self.closed(
                    if disconnect.reason_code == 0 {
                        Error::ConnectionClosed
                    } else {
                        Error::ServerDisconnected(disconnect.reason_code)
                    },
                ),
            ),
            PacketView::PingResp => (self, None),
            _ => took(self.closed(Error::UnexpectedPacket(message))),
        }
    }

    /// A packet came while a message is waited for.
    pub open spec fn handle_receiving(self, packet: PacketView) -> (
        SessionView,
        Option<StepView>,
    ) {
        match packet {
            PacketView::Publish(publish) => if self.incoming.len() >= self.max_incoming {
                took(self.done(Err(Error::QueueFull("incoming message"))))
            } else {
                let s = SessionView { incoming: self.incoming.push(publish), ..self };
                if publish.qos == QoS::AtLeastOnce {
                    took(s.acknowledge(publish))
                } else {
                    took(s.deliver())
                }
            },
            PacketView::Disconnect(disconnect) => took(
                (SessionView { connected: false, ..self }).done(
                    if disconnect.reason_code == 0 {
                        Ok(None)
                    } else {
                        Err(Error::ServerDisconnected(disconnect.reason_code))
                    },
                ),
            ),
            PacketView::PingResp => (self, None),
            _ => took(self.closed(Error::UnexpectedPacket("unexpected packet while receiving"))),
        }
    }

    /// Acknowledge a QoS 1 PUBLISH packet.
    pub open spec fn acknowledge(self, publish: PublishPacketView) -> Turn {
        match publish.packet_id {
            None => self.done(
                Err(Error::MalformedPacket("QoS 1 PUBLISH missing packet identifier")),
            ),
            Some(packet_id) => self.send_encoded(
                encoded_puback(PubAckPacket { packet_id, reason_code: 0 }),
                Sending::PubAck,
            ),
        }
    }

    /// Nothing more has arrived: see what is overdue, else read.
    pub open spec fn service(self, now: int) -> Turn {
        if self.deadline matches Some((at, _)) && now >= at {
            let late = Error::Timeout(self.deadline->Some_0.1);
            // A late acknowledgement cannot be told from that of a later packet with the
            // same identifier.
            if self.goal is Connect {
                self.done(Err(late))
            } else {
                self.closed(late)
            }
        } else if !self.connected {
            self.read_step(now)
        } else {
            match self.ping_since {
                Some(sent_at) => if since(now, sent_at) >= self.ack_timeout {
                    self.closed(Error::KeepAliveTimeout)
                } else {
                    self.read_step(now)
                },
                None => if ping_due_after(self.keep_alive_secs) matches Some(span) && since(
                    now,
                    self.last_write_at,
                ) >= span {
                    self.send(PINGREQ_BYTES@, Sending::Ping)
                } else {
                    self.read_step(now)
                },
            }
        }
    }

    /// When something is overdue or due next, unless never.
    pub open spec fn wake_at(self) -> Option<int> {
        let deadline = match self.deadline {
            Some((at, _)) => Some(at),
            None => None,
        };
        let timer = match self.ping_since {
            Some(sent_at) => readable(sent_at + self.ack_timeout),
            None => match ping_due_after(self.keep_alive_secs) {
                Some(span) => readable(self.last_write_at + span),
                None => None,
            },
        };
        if self.connected {
            earlier(deadline, timer)
        } else {
            deadline
        }
    }

    /// How long to wait for bytes, unless forever: at least a millisecond.
    pub open spec fn read_timeout(self, now: int) -> Option<int> {
        match self.wake_at() {
            Some(at) => Some(
                if since(at, now) < NANOS_PER_MILLI {
                    NANOS_PER_MILLI as int
                } else {
                    since(at, now)
                },
            ),
            None => None,
        }
    }

    /// Read what there is room for.
    pub open spec fn read_step(self, now: int) -> Turn {
        let room = self.reader.room();
        if room == 0 {
            self.closed(
                Error::PacketTooLarge {
                    size: if self.reader.max < usize::MAX {
                        (self.reader.max + 1) as usize
                    } else {
                        usize::MAX
                    },
                    max: self.reader.max,
                },
            )
        } else {
            (
                self,
                StepView::Read {
                    timeout: self.read_timeout(now),
                    max: if room < 8192 {
                        room as usize
                    } else {
                        8192
                    },
                },
            )
        }
    }

    /// The transport was read, and this is what it gave.
    pub open spec fn received(
        self,
        outcome: core::result::Result<Seq<u8>, IoError>,
        now: int,
    ) -> Turn {
        match outcome {
            Ok(data) => if data.len() == 0 {
                self.closed(Error::ConnectionClosed)
            } else {
                (SessionView { reader: self.reader.pushed(data), ..self }).advance(now)
            },
            Err(error) => match error.spec_kind() {
                ErrorKind::Interrupted
                | ErrorKind::TimedOut
                | ErrorKind::WouldBlock => self.advance(now),
                _ => self.closed(Error::Io(error)),
            },
        }
    }
}

/// A packet that led to a step.
pub open spec fn took(turn: Turn) -> (SessionView, Option<StepView>) {
    (turn.0, Some(turn.1))
}

} // verus!
