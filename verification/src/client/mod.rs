//! The blocking client: what it sends, what it waits for, and what its answers mean.
//!
//! A [`Session`] performs no I/O and reads no clock. Each operation starts with a step,
//! and whoever runs the session performs the step and reports what came of it, until a
//! step says that the operation is done.
pub mod laws;
pub mod messages;
pub mod model;
pub mod receiving;
pub mod wire;

use std::collections::VecDeque;

use vstd::prelude::*;

use crate::async_client::driver::{
    encode_goodbye, encode_subscribe, encode_unsubscribe, validate_reason_codes, READ_CHUNK,
};
use crate::client::model::{
    ack_code_check, nothing_or, ping_due_after, readable, write_error_of, GoalView, Sending,
    SessionView, StepView,
};
use crate::codec::connect::{
    availability, decoded_connack_has_capabilities, encoded_connect, validate_connack,
    ServerCapabilities,
};
use crate::codec::ping::PINGREQ_BYTES;
use crate::codec::properties::PropertyId;
use crate::codec::subscribe::validate_suback_codes;
use crate::codec::topic::{validate_topic_filter, validate_topic_name};
use crate::codec::types::{
    ConnAckPacket, Packet, PacketView, PubAckPacket, PublishPacket, PublishPacketView, QoS,
};
use crate::error::{Error, ErrorKind, IoError, Result};
use crate::frame::{header_len_bounds, FrameReader, FrameReaderView, MQTT_MAX_PACKET_SIZE};
use crate::greeting::{connect_introduces, introduces};
use crate::options::{
    connect_packet_of, options_check, ConnectOptions, ConnectOptionsView, PublishOptions,
};
use crate::time::{Duration, Instant};

verus! {

/// What to do next for a session.
#[derive(Debug)]
pub enum Step {
    /// Write all of these bytes and flush, then report to [`Session::sent`].
    Send(Vec<u8>),
    /// Read at most `max` bytes within the time limit, then report to
    /// [`Session::received`].
    Read { timeout: Option<Duration>, max: usize },
    /// The operation is over. A message is there only where one was asked for.
    Done(Result<Option<PublishPacket>>),
}

impl View for Step {
    type V = StepView;

    open spec fn view(&self) -> StepView {
        match *self {
            Step::Send(bytes) => StepView::Send(bytes@),
            Step::Read { timeout, max } => StepView::Read {
                timeout: match timeout {
                    Some(span) => Some(span.spec_nanos()),
                    None => None,
                },
                max,
            },
            Step::Done(result) => StepView::Done(
                match result {
                    Ok(Some(packet)) => Ok(Some(packet@)),
                    Ok(None) => Ok(None),
                    Err(e) => Err(e),
                },
            ),
        }
    }
}

enum Goal {
    Nothing,
    Connect { client_id: String, clean_start: bool },
    PubAck { packet_id: u16 },
    SubAck { packet_id: u16, qos: QoS },
    UnsubAck { packet_id: u16 },
    Message,
}

impl View for Goal {
    type V = GoalView;

    closed spec fn view(&self) -> GoalView {
        match *self {
            Goal::Nothing => GoalView::Nothing,
            Goal::Connect { client_id, clean_start } => GoalView::Connect {
                client_id: client_id@,
                clean_start,
            },
            Goal::PubAck { packet_id } => GoalView::PubAck { packet_id },
            Goal::SubAck { packet_id, qos } => GoalView::SubAck { packet_id, qos },
            Goal::UnsubAck { packet_id } => GoalView::UnsubAck { packet_id },
            Goal::Message => GoalView::Message,
        }
    }
}

impl Sending {
    /// What a timeout of the sending is called.
    pub fn operation(self) -> (r: &'static str)
        ensures
            r == self.spec_operation(),
    {
        match self {
            Sending::Connect => "connect",
            Sending::PublishAtMostOnce | Sending::Publish => "publish",
            Sending::Subscribe => "subscribe",
            Sending::Unsubscribe => "unsubscribe",
            Sending::PubAck => "PUBACK",
            Sending::Ping => "keepalive",
            Sending::Nothing | Sending::Goodbye => "disconnect",
        }
    }
}

/// When something is overdue, and its name.
struct Deadline {
    at: Instant,
    operation: &'static str,
}

/// A session of the blocking client.
pub struct Session {
    frame_reader: FrameReader,
    incoming: VecDeque<PublishPacket>,
    max_incoming_messages: usize,
    next_packet_id: u16,
    keep_alive_secs: u16,
    ack_timeout: Duration,
    max_outbound_packet_size: usize,
    server_capabilities: ServerCapabilities,
    last_write_at: Instant,
    ping_sent_at: Option<Instant>,
    connected: bool,
    goal: Goal,
    deadline: Option<Deadline>,
    sending: Sending,
}

/// The views of PUBLISH packets.
pub open spec fn messages(packets: Seq<PublishPacket>) -> Seq<PublishPacketView> {
    packets.map_values(|p: PublishPacket| p@)
}

impl View for Session {
    type V = SessionView;

    closed spec fn view(&self) -> SessionView {
        SessionView {
            reader: self.frame_reader@,
            incoming: messages(self.incoming@),
            max_incoming: self.max_incoming_messages,
            next_packet_id: self.next_packet_id,
            keep_alive_secs: self.keep_alive_secs,
            ack_timeout: self.ack_timeout.spec_nanos(),
            max_outbound: self.max_outbound_packet_size,
            capabilities: self.server_capabilities,
            last_write_at: self.last_write_at.spec_nanos(),
            ping_since: match self.ping_sent_at {
                Some(at) => Some(at.spec_nanos()),
                None => None,
            },
            connected: self.connected,
            goal: self.goal@,
            deadline: match self.deadline {
                Some(deadline) => Some((deadline.at.spec_nanos(), deadline.operation)),
                None => None,
            },
            sending: self.sending,
        }
    }
}

/// How long nothing is written before a PINGREQ packet is due, unless never.
pub fn ping_interval(keep_alive_secs: u16) -> (r: Option<Duration>)
    ensures
        match (r, ping_due_after(keep_alive_secs)) {
            (Some(span), Some(nanos)) => span.spec_nanos() == nanos,
            (None, None) => true,
            _ => false,
        },
{
    if keep_alive_secs == 0 {
        None
    } else {
        Some(Duration::from_secs(keep_alive_secs as u64))
    }
}

/// Look for a refusal in the reason code of an acknowledgement.
pub fn validate_ack_code(packet: &'static str, reason_code: u8) -> (r: Result<()>)
    ensures
        r == ack_code_check(packet, reason_code),
{
    if reason_code >= 0x80 {
        return Err(Error::AckRejected { packet, reason_code });
    }
    Ok(())
}

/// When an operation that starts now is overdue.
pub fn deadline_after(timeout: Duration, now: Instant) -> (r: Result<Instant>)
    ensures
        match r {
            Ok(at) => readable(now.spec_nanos() + timeout.spec_nanos()) == Some(at.spec_nanos()),
            Err(e) => readable(now.spec_nanos() + timeout.spec_nanos()) is None && e
                == Error::InvalidOptions("timeout is too large"),
        },
{
    match now.checked_add(timeout) {
        Some(at) => Ok(at),
        None => Err(Error::InvalidOptions("timeout is too large")),
    }
}

/// What a failed write means: a call that ran into its time limit is a timeout of the
/// operation.
pub fn map_write_error(error: IoError, operation: &'static str) -> (r: Error)
    ensures
        r == write_error_of(error, operation),
{
    match error.kind() {
        ErrorKind::TimedOut | ErrorKind::WouldBlock => Error::Timeout(operation),
        _ => Error::Io(error),
    }
}

/// How long the next address may take to be connected to.
pub fn dial_timeout(deadline: Instant, now: Instant) -> (r: core::result::Result<
    Duration,
    IoError,
>)
    ensures
        match r {
            Ok(left) => left.spec_nanos() == deadline.spec_nanos() - now.spec_nanos(),
            Err(e) => e.spec_kind() == ErrorKind::TimedOut && e.spec_message()
                == "TCP connect timed out"@,
        },
        r is Ok <==> now.spec_nanos() < deadline.spec_nanos(),
{
    if now.has_reached(deadline) {
        return Err(IoError::new(ErrorKind::TimedOut, "TCP connect timed out"));
    }
    Ok(deadline.since(now))
}

/// Why no address could be connected to, where `last` is what the last one that was tried
/// failed with.
pub fn dial_failure(last: Option<IoError>) -> (r: IoError)
    ensures
        match last {
            Some(error) => r == error,
            None => r.spec_kind() == ErrorKind::InvalidInput && r.spec_message()
                == "address resolved to no socket addresses"@,
        },
{
    match last {
        Some(error) => error,
        None => IoError::new(ErrorKind::InvalidInput, "address resolved to no socket addresses"),
    }
}

/// What a failure to connect means.
pub fn map_dial_error(error: IoError) -> (r: Error)
    ensures
        r == (if error.spec_kind() == ErrorKind::TimedOut {
            Error::Timeout("connect")
        } else {
            Error::Io(error)
        }),
{
    match error.kind() {
        ErrorKind::TimedOut => Error::Timeout("connect"),
        _ => Error::Io(error),
    }
}

/// A session that starts with these options, before anything was sent.
pub open spec fn opening(options: ConnectOptionsView, now: Instant) -> SessionView {
    SessionView {
        reader: FrameReaderView {
            buf: Seq::empty(),
            in_body: false,
            max: options.max_packet_size,
            overflow: None,
        },
        incoming: Seq::empty(),
        max_incoming: options.max_incoming_messages,
        next_packet_id: 1,
        keep_alive_secs: options.keep_alive_secs,
        ack_timeout: options.ack_timeout.spec_nanos(),
        max_outbound: MQTT_MAX_PACKET_SIZE,
        capabilities: ServerCapabilities {
            maximum_qos: QoS::AtLeastOnce,
            retain_available: true,
            wildcard_subscriptions_available: true,
            shared_subscriptions_available: true,
        },
        last_write_at: now.spec_nanos(),
        ping_since: None,
        connected: false,
        goal: GoalView::Connect { client_id: options.client_id, clean_start: options.clean_start },
        deadline: Some((now.spec_nanos() + options.connect_timeout.spec_nanos(), "connect")),
        sending: Sending::Nothing,
    }
}

impl Session {
    /// Whether the state is one that a session can be in.
    pub closed spec fn wf(&self) -> bool {
        &&& self.frame_reader.wf()
        &&& self.next_packet_id != 0
        &&& self.incoming@.len() <= self.max_incoming_messages
    }

    /// A session that can be called holds no more messages than it may, and gives out no
    /// packet identifier that is zero.
    pub proof fn wf_gives_bounds(&self)
        requires
            self.wf(),
        ensures
            self@.incoming.len() <= self@.max_incoming,
            self@.next_packet_id != 0,
    {
    }

    /// Start a session: the first step sends the CONNECT packet.
    ///
    /// Once a step says that the operation is done without an error, the session is
    /// connected.
    pub fn connect(options: &ConnectOptions, now: Instant) -> (r: Result<(Self, Step)>)
        ensures
            match options_check(options@, now) {
                Err(e) => r matches Err(f) && f == e,
                Ok(_) => match encoded_connect(
                    connect_packet_of(options@, options@.max_incoming_messages),
                ) {
                    Err(e) => r matches Err(f) && f == e,
                    Ok(bytes) => r matches Ok((session, step)) && session.wf() && (
                        session@,
                        step@,
                    ) == opening(options@, now).send(bytes, Sending::Connect),
                },
            },
            r matches Ok((_, step)) ==> (step@ matches StepView::Send(bytes) && introduces(
                bytes,
                options@,
                options@.max_incoming_messages,
            )),
    {
        options.validate(now)?;
        let at = deadline_after(options.connect_timeout, now)?;
        let connect = options.connect_packet(options.max_incoming_messages);
        let bytes = connect.encode()?;
        proof {
            connect_introduces(options@, options@.max_incoming_messages);
        }
        let mut session = Session {
            frame_reader: FrameReader::with_max_packet_size(options.max_packet_size),
            incoming: VecDeque::new(),
            max_incoming_messages: options.max_incoming_messages,
            next_packet_id: 1,
            keep_alive_secs: options.keep_alive_secs,
            ack_timeout: options.ack_timeout,
            max_outbound_packet_size: MQTT_MAX_PACKET_SIZE,
            server_capabilities: ServerCapabilities::default(),
            last_write_at: now,
            ping_sent_at: None,
            connected: false,
            goal: Goal::Connect {
                client_id: options.client_id.clone(),
                clean_start: options.clean_start,
            },
            deadline: Some(Deadline { at, operation: "connect" }),
            sending: Sending::Nothing,
        };
        assert(session@ =~= opening(options@, now));
        let step = session.send(bytes, Sending::Connect);
        Ok((session, step))
    }

    fn done(&mut self, result: Result<Option<PublishPacket>>) -> (r: Step)
        ensures
            final(self).frame_reader == old(self).frame_reader,
            final(self).next_packet_id == old(self).next_packet_id,
            final(self).incoming == old(self).incoming,
            final(self).max_incoming_messages == old(self).max_incoming_messages,
            (final(self)@, r@) == old(self)@.done((Step::Done(result))@->Done_0),
    {
        self.goal = Goal::Nothing;
        self.deadline = None;
        self.sending = Sending::Nothing;
        Step::Done(result)
    }

    fn closed(&mut self, error: Error) -> (r: Step)
        ensures
            final(self).frame_reader == old(self).frame_reader,
            final(self).next_packet_id == old(self).next_packet_id,
            final(self).incoming == old(self).incoming,
            final(self).max_incoming_messages == old(self).max_incoming_messages,
            (final(self)@, r@) == old(self)@.closed(error),
    {
        self.connected = false;
        self.done(Err(error))
    }

    fn send(&mut self, bytes: Vec<u8>, what: Sending) -> (r: Step)
        ensures
            final(self).frame_reader == old(self).frame_reader,
            final(self).next_packet_id == old(self).next_packet_id,
            final(self).incoming == old(self).incoming,
            final(self).max_incoming_messages == old(self).max_incoming_messages,
            (final(self)@, r@) == old(self)@.send(bytes@, what),
    {
        if bytes.len() > self.max_outbound_packet_size {
            return self.done(
                Err(
                    Error::PacketTooLarge { size: bytes.len(), max: self.max_outbound_packet_size },
                ),
            );
        }
        self.sending = what;
        Step::Send(bytes)
    }

    fn send_encoded(&mut self, encoded: Result<Vec<u8>>, what: Sending) -> (r: Step)
        ensures
            final(self).frame_reader == old(self).frame_reader,
            final(self).next_packet_id == old(self).next_packet_id,
            final(self).incoming == old(self).incoming,
            final(self).max_incoming_messages == old(self).max_incoming_messages,
            (final(self)@, r@) == old(self)@.send_encoded(
                match encoded {
                    Ok(bytes) => Ok(bytes@),
                    Err(e) => Err(e),
                },
                what,
            ),
    {
        match encoded {
            Ok(bytes) => self.send(bytes, what),
            Err(error) => self.done(Err(error)),
        }
    }

    fn take_packet_id(&mut self) -> (r: u16)
        requires
            old(self).next_packet_id != 0,
        ensures
            final(self).frame_reader == old(self).frame_reader,
            final(self).next_packet_id != 0,
            final(self).incoming == old(self).incoming,
            final(self).max_incoming_messages == old(self).max_incoming_messages,
            r == old(self)@.next_packet_id,
            final(self)@ == old(self)@.next_id(),
    {
        let id: u16 = self.next_packet_id;
        self.next_packet_id = if id == u16::MAX {
            1
        } else {
            id + 1
        };
        id
    }

    /// Publish an opaque byte payload.
    pub fn publish(&mut self, topic: &str, payload: &[u8], options: PublishOptions) -> (r: Step)
        requires
            old(self).wf(),
        ensures
            final(self).wf(),
            (final(self)@, r@) == old(self)@.begin_publish(topic@, payload@, options@),
    {
        if !self.connected {
            return self.done(Err(Error::ClientClosed));
        }
        if let Err(error) = validate_topic_name(topic) {
            return self.done(Err(error));
        }
        if let Err(error) = self.server_capabilities.validate_publish(options.qos, options.retain) {
            return self.done(Err(error));
        }
        let ghost before = self@;
        let packet_id: Option<u16> = match options.qos {
            QoS::AtMostOnce => None,
            QoS::AtLeastOnce => Some(self.take_packet_id()),
        };
        let packet = PublishPacket {
            topic: topic.to_owned(),
            packet_id,
            payload: vstd::slice::slice_to_vec(payload),
            qos: options.qos,
            retain: options.retain,
            dup: false,
            properties: options.properties,
        };
        let encoded = packet.encode();
        match packet_id {
            Some(packet_id) => {
                self.goal = Goal::PubAck { packet_id };
                assert(self@ =~= SessionView {
                    goal: GoalView::PubAck { packet_id },
                    ..before.next_id()
                });
                self.send_encoded(encoded, Sending::Publish)
            },
            None => self.send_encoded(encoded, Sending::PublishAtMostOnce),
        }
    }

    /// Subscribe to a single topic filter and wait for its SUBACK.
    pub fn subscribe(&mut self, filter: &str, qos: QoS) -> (r: Step)
        requires
            old(self).wf(),
        ensures
            final(self).wf(),
            (final(self)@, r@) == old(self)@.begin_subscribe(filter@, qos),
    {
        if !self.connected {
            return self.done(Err(Error::ClientClosed));
        }
        if let Err(error) = self.server_capabilities.validate_subscription_filter(filter) {
            return self.done(Err(error));
        }
        let ghost before = self@;
        let packet_id: u16 = self.take_packet_id();
        self.goal = Goal::SubAck { packet_id, qos };
        assert(self@ =~= SessionView {
            goal: GoalView::SubAck { packet_id, qos },
            ..before.next_id()
        });
        self.send_encoded(encode_subscribe(packet_id, filter.to_owned(), qos), Sending::Subscribe)
    }

    /// Unsubscribe from a single topic filter and wait for its UNSUBACK.
    pub fn unsubscribe(&mut self, filter: &str) -> (r: Step)
        requires
            old(self).wf(),
        ensures
            final(self).wf(),
            (final(self)@, r@) == old(self)@.begin_unsubscribe(filter@),
    {
        if !self.connected {
            return self.done(Err(Error::ClientClosed));
        }
        if let Err(error) = validate_topic_filter(filter) {
            return self.done(Err(error));
        }
        let ghost before = self@;
        let packet_id: u16 = self.take_packet_id();
        self.goal = Goal::UnsubAck { packet_id };
        assert(self@ =~= SessionView { goal: GoalView::UnsubAck { packet_id }, ..before.next_id() });
        self.send_encoded(
            encode_unsubscribe(packet_id, filter.to_owned()),
            Sending::Unsubscribe,
        )
    }

    /// Receive the next incoming PUBLISH, waiting while maintaining keepalive.
    /// A normal server DISCONNECT gives no message.
    pub fn recv(&mut self, now: Instant) -> (r: Step)
        requires
            old(self).wf(),
        ensures
            final(self).wf(),
            (final(self)@, r@) == old(self)@.begin_receive(now.spec_nanos()),
    {
        if !self.connected {
            return self.done(Err(Error::ClientClosed));
        }
        if self.incoming.len() > 0 {
            return self.deliver();
        }
        let ghost before = self@;
        self.goal = Goal::Message;
        self.deadline = None;
        assert(self@ =~= SessionView { goal: GoalView::Message, deadline: None, ..before });
        self.advance(now)
    }

    /// Send a normal MQTT DISCONNECT.
    pub fn disconnect(&mut self) -> (r: Step)
        requires
            old(self).wf(),
        ensures
            final(self).wf(),
            (final(self)@, r@) == old(self)@.begin_disconnect(),
    {
        if self.connected {
            return self.send(encode_goodbye(), Sending::Goodbye);
        }
        self.done(Ok(None))
    }

    /// Whether operations can still be started.
    pub fn is_connected(&self) -> (r: bool)
        ensures
            r == self@.connected,
    {
        self.connected
    }

    fn deliver(&mut self) -> (r: Step)
        requires
            old(self).wf(),
        ensures
            final(self).wf(),
            final(self).frame_reader == old(self).frame_reader,
            (final(self)@, r@) == old(self)@.deliver(),
    {
        let ghost before = self@;
        match self.incoming.pop_front() {
            None => self.done(Ok(None)),
            Some(message) => {
                assert(self@ =~= SessionView {
                    incoming: before.incoming.drop_first(),
                    ..before
                });
                assert(message@ == before.incoming[0]);
                self.done(Ok(Some(message)))
            },
        }
    }

    /// What a step asked to be sent was sent, or not.
    pub fn sent(&mut self, outcome: core::result::Result<(), IoError>, now: Instant) -> (r: Step)
        requires
            old(self).wf(),
        ensures
            final(self).wf(),
            (final(self)@, r@) == old(self)@.sent(outcome, now.spec_nanos()),
    {
        let what = self.sending;
        if let Err(error) = outcome {
            return self.closed(map_write_error(error, what.operation()));
        }
        let ghost s = SessionView {
            last_write_at: now.spec_nanos(),
            sending: Sending::Nothing,
            ..self@
        };
        self.last_write_at = now;
        self.sending = Sending::Nothing;
        assert(self@ =~= s);
        match what {
            Sending::Connect => self.advance(now),
            Sending::Nothing | Sending::PublishAtMostOnce => self.done(Ok(None)),
            Sending::Publish => self.await_ack("PUBACK", now),
            Sending::Subscribe => self.await_ack("SUBACK", now),
            Sending::Unsubscribe => self.await_ack("UNSUBACK", now),
            Sending::PubAck => {
                if let Goal::Message = self.goal {
                    return self.deliver();
                }
                self.advance(now)
            },
            Sending::Ping => {
                self.ping_sent_at = Some(now);
                assert(self@ =~= SessionView { ping_since: Some(now.spec_nanos()), ..s });
                self.read_step(now)
            },
            Sending::Goodbye => {
                self.connected = false;
                assert(self@ =~= SessionView { connected: false, ..s });
                self.done(Ok(None))
            },
        }
    }

    fn await_ack(&mut self, operation: &'static str, now: Instant) -> (r: Step)
        requires
            old(self).wf(),
        ensures
            final(self).wf(),
            (final(self)@, r@) == old(self)@.await_ack(operation, now.spec_nanos()),
    {
        match deadline_after(self.ack_timeout, now) {
            Err(error) => self.done(Err(error)),
            Ok(at) => {
                let ghost before = self@;
                self.deadline = Some(Deadline { at, operation });
                assert(self@ =~= SessionView {
                    deadline: Some((at.spec_nanos(), operation)),
                    ..before
                });
                self.advance(now)
            },
        }
    }

    /// The transport was read as a step asked, and this is what it gave.
    pub fn received(
        &mut self,
        outcome: core::result::Result<&[u8], IoError>,
        now: Instant,
    ) -> (r: Step)
        requires
            old(self).wf(),
        ensures
            final(self).wf(),
            (final(self)@, r@) == old(self)@.received(
                match outcome {
                    Ok(data) => Ok(data@),
                    Err(e) => Err(e),
                },
                now.spec_nanos(),
            ),
    {
        match outcome {
            Ok(data) => {
                if data.is_empty() {
                    return self.closed(Error::ConnectionClosed);
                }
                let ghost before = self@;
                self.frame_reader.push(data);
                assert(self@ =~= SessionView { reader: before.reader.pushed(data@), ..before });
                self.advance(now)
            },
            Err(error) => match error.kind() {
                ErrorKind::Interrupted | ErrorKind::TimedOut | ErrorKind::WouldBlock => {
                    self.advance(now)
                },
                _ => self.closed(Error::Io(error)),
            },
        }
    }

    /// The transport refused the time limit of a read.
    pub fn timeout_refused(&mut self, error: IoError) -> (r: Step)
        requires
            old(self).wf(),
        ensures
            final(self).wf(),
            (final(self)@, r@) == old(self)@.closed(Error::Io(error)),
    {
        self.closed(Error::Io(error))
    }

    fn advance(&mut self, now: Instant) -> (r: Step)
        requires
            old(self).wf(),
        ensures
            final(self).wf(),
            (final(self)@, r@) == old(self)@.advance(now.spec_nanos()),
    {
        let ghost at = now.spec_nanos();
        let ghost goal = self@.advance(at);
        loop
            invariant
                self.wf(),
                at == now.spec_nanos(),
                goal == self@.advance(at),
                goal == old(self)@.advance(at),
            decreases self@.reader.buf.len(),
        {
            let ghost before = self@;
            let ghost s = SessionView { reader: before.reader.after_next(), ..before };
            proof {
                header_len_bounds(before.reader.buf);
                packet_has_capabilities(before.reader);
            }
            let next = self.frame_reader.try_decode();
            assert(self@ =~= s);
            match next {
                Ok(Some(packet)) => {
                    let ghost t = s.handle(packet@).0;
                    if let Some(step) = self.handle(packet) {
                        return step;
                    }
                    assert(self@ =~= SessionView { reader: s.reader, ..t });
                },
                Ok(None) => {
                    return self.service(now);
                },
                Err(error) => {
                    return self.closed(error);
                },
            }
        }
    }

    fn handle(&mut self, packet: Packet) -> (r: Option<Step>)
        requires
            old(self).wf(),
            packet@ matches PacketView::ConnAck(ack) ==> availability(
                ack.properties,
                PropertyId::MaximumQoS,
            ) <= 1,
        ensures
            final(self).wf(),
            final(self).frame_reader == old(self).frame_reader,
            ({
                let (s, step) = old(self)@.handle(packet@);
                &&& final(self)@ == s
                &&& match (r, step) {
                    (Some(a), Some(b)) => a@ == b,
                    (None, None) => true,
                    _ => false,
                }
            }),
    {
        proof {
            reveal(SessionView::handle);
        }
        let ghost before = self@;
        if let Packet::PingResp = packet {
            self.ping_sent_at = None;
        }
        let ghost s = SessionView {
            ping_since: if packet@ is PingResp {
                None
            } else {
                before.ping_since
            },
            ..before
        };
        assert(self@ =~= s);
        match self.goal {
            Goal::Connect { .. } => Some(self.handle_connack(packet)),
            Goal::PubAck { packet_id } => {
                if let Packet::PubAck(ack) = &packet {
                    if ack.packet_id == packet_id {
                        let result = validate_ack_code("PUBACK", ack.reason_code);
                        return Some(self.done(without_value(result)));
                    }
                }
                self.handle_waiting(packet, "unexpected packet while awaiting PUBACK")
            },
            Goal::SubAck { packet_id, qos } => {
                if let Packet::SubAck(ack) = &packet {
                    if ack.packet_id == packet_id {
                        let requested: [QoS; 1] = [qos];
                        assert(requested@ =~= seq![qos]);
                        let result = validate_suback_codes(&ack.reason_codes, &requested);
                        return Some(self.acknowledged(result));
                    }
                }
                self.handle_waiting(packet, "unexpected packet while awaiting SUBACK")
            },
            Goal::UnsubAck { packet_id } => {
                if let Packet::UnsubAck(ack) = &packet {
                    if ack.packet_id == packet_id {
                        let result = validate_reason_codes("UNSUBACK", &ack.reason_codes, 1);
                        return Some(self.acknowledged(result));
                    }
                }
                self.handle_waiting(packet, "unexpected packet while awaiting UNSUBACK")
            },
            Goal::Message | Goal::Nothing => self.handle_receiving(packet),
        }
    }

    fn handle_connack(&mut self, packet: Packet) -> (r: Step)
        requires
            old(self).wf(),
            old(self).goal is Connect,
            packet@ matches PacketView::ConnAck(ack) ==> availability(
                ack.properties,
                PropertyId::MaximumQoS,
            ) <= 1,
        ensures
            final(self).wf(),
            final(self).frame_reader == old(self).frame_reader,
            (final(self)@, Some(r@)) == old(self)@.handle_connack(
                packet@,
                old(self)@.goal->client_id,
                old(self)@.goal->clean_start,
            ),
    {
        let ack = match packet {
            Packet::ConnAck(ack) => ack,
            _ => {
                return self.done(Err(Error::UnexpectedPacket("expected CONNACK")));
            },
        };
        if ack.reason_code != 0 {
            return self.done(Err(Error::ConnectionRefused(ack.reason_code)));
        }
        if let Goal::Connect { client_id, clean_start } = &self.goal {
            if let Err(error) = validate_connack(client_id, *clean_start, &ack) {
                return self.done(Err(error));
            }
        }
        self.establish(&ack);
        self.done(Ok(None))
    }

    fn establish(&mut self, ack: &ConnAckPacket)
        requires
            old(self).wf(),
            availability(ack@.properties, PropertyId::MaximumQoS) <= 1,
        ensures
            final(self).wf(),
            final(self).frame_reader == old(self).frame_reader,
            final(self)@ == old(self)@.established(ack@),
    {
        self.server_capabilities = ServerCapabilities::from_connack(ack);
        if let Some(secs) = ack.properties.get_u16(PropertyId::ServerKeepAlive) {
            self.keep_alive_secs = secs;
        }
        if let Some(size) = ack.properties.get_u32(PropertyId::MaximumPacketSize) {
            self.max_outbound_packet_size = size as usize;
        }
        self.connected = true;
        assert(self@ =~= old(self)@.established(ack@));
    }

    fn acknowledged(&mut self, result: Result<()>) -> (r: Step)
        requires
            old(self).wf(),
        ensures
            final(self).wf(),
            final(self).frame_reader == old(self).frame_reader,
            (final(self)@, r@) == old(self)@.acknowledged(result),
    {
        if let Err(Error::MalformedPacket(message)) = result {
            return self.closed(Error::MalformedPacket(message));
        }
        self.done(without_value(result))
    }

    fn handle_waiting(&mut self, packet: Packet, message: &'static str) -> (r: Option<Step>)
        requires
            old(self).wf(),
        ensures
            final(self).wf(),
            final(self).frame_reader == old(self).frame_reader,
            ({
                let (s, step) = old(self)@.handle_waiting(packet@, message);
                &&& final(self)@ == s
                &&& match (r, step) {
                    (Some(a), Some(b)) => a@ == b,
                    (None, None) => true,
                    _ => false,
                }
            }),
    {
        match packet {
            Packet::Publish(publish) => {
                if self.incoming.len() >= self.max_incoming_messages {
                    // Returning before the outstanding control ACK arrives would
                    // leave its packet identifier unsafe to reuse.
                    return Some(self.closed(Error::QueueFull("incoming message")));
                }
                let packet_id = publish.packet_id;
                let qos = publish.qos;
                self.hold(publish);
                match qos {
                    QoS::AtLeastOnce => Some(self.acknowledge(packet_id)),
                    QoS::AtMostOnce => None,
                }
            },
            Packet::Disconnect(disconnect) => {
                if disconnect.reason_code == 0 {
                    return Some(self.closed(Error::ConnectionClosed));
                }
                Some(self.closed(Error::ServerDisconnected(disconnect.reason_code)))
            },
            Packet::PingResp => None,
            _ => Some(self.closed(Error::UnexpectedPacket(message))),
        }
    }

    fn handle_receiving(&mut self, packet: Packet) -> (r: Option<Step>)
        requires
            old(self).wf(),
        ensures
            final(self).wf(),
            final(self).frame_reader == old(self).frame_reader,
            ({
                let (s, step) = old(self)@.handle_receiving(packet@);
                &&& final(self)@ == s
                &&& match (r, step) {
                    (Some(a), Some(b)) => a@ == b,
                    (None, None) => true,
                    _ => false,
                }
            }),
    {
        match packet {
            Packet::Publish(publish) => {
                if self.incoming.len() >= self.max_incoming_messages {
                    return Some(self.done(Err(Error::QueueFull("incoming message"))));
                }
                let packet_id = publish.packet_id;
                let qos = publish.qos;
                self.hold(publish);
                match qos {
                    QoS::AtLeastOnce => Some(self.acknowledge(packet_id)),
                    QoS::AtMostOnce => {
                        let step = self.deliver();
                        Some(step)
                    },
                }
            },
            Packet::Disconnect(disconnect) => {
                let ghost before = self@;
                self.connected = false;
                assert(self@ =~= SessionView { connected: false, ..before });
                if disconnect.reason_code == 0 {
                    return Some(self.done(Ok(None)));
                }
                Some(self.done(Err(Error::ServerDisconnected(disconnect.reason_code))))
            },
            Packet::PingResp => None,
            _ => Some(self.closed(Error::UnexpectedPacket("unexpected packet while receiving"))),
        }
    }

    fn hold(&mut self, publish: PublishPacket)
        requires
            old(self).wf(),
            old(self).incoming@.len() < old(self).max_incoming_messages,
        ensures
            final(self).wf(),
            final(self).frame_reader == old(self).frame_reader,
            final(self)@ == (SessionView {
                incoming: old(self)@.incoming.push(publish@),
                ..old(self)@
            }),
    {
        self.incoming.push_back(publish);
        assert(self@ =~= SessionView {
            incoming: old(self)@.incoming.push(publish@),
            ..old(self)@
        });
    }

    fn acknowledge(&mut self, packet_id: Option<u16>) -> (r: Step)
        requires
            old(self).wf(),
        ensures
            final(self).wf(),
            final(self).frame_reader == old(self).frame_reader,
            forall|publish: PublishPacketView|
                #![trigger old(self)@.acknowledge(publish)]
                publish.packet_id == packet_id ==> (final(self)@, r@) == old(self)@.acknowledge(
                    publish,
                ),
    {
        match packet_id {
            Some(packet_id) => {
                let packet = PubAckPacket { packet_id, reason_code: 0x00 };
                self.send_encoded(packet.encode(), Sending::PubAck)
            },
            None => self.done(
                Err(Error::MalformedPacket("QoS 1 PUBLISH missing packet identifier")),
            ),
        }
    }

    fn service(&mut self, now: Instant) -> (r: Step)
        requires
            old(self).wf(),
        ensures
            final(self).wf(),
            (final(self)@, r@) == old(self)@.service(now.spec_nanos()),
    {
        if let Some(deadline) = &self.deadline {
            if now.has_reached(deadline.at) {
                let late = Error::Timeout(deadline.operation);
                if let Goal::Connect { .. } = self.goal {
                    return self.done(Err(late));
                }
                return self.closed(late);
            }
        }
        if !self.connected {
            return self.read_step(now);
        }
        if let Some(sent_at) = self.ping_sent_at {
            if now.since(sent_at).at_least(self.ack_timeout) {
                return self.closed(Error::KeepAliveTimeout);
            }
            return self.read_step(now);
        }
        if let Some(interval) = ping_interval(self.keep_alive_secs) {
            if now.since(self.last_write_at).at_least(interval) {
                let mut bytes: Vec<u8> = Vec::new();
                bytes.push(PINGREQ_BYTES[0]);
                bytes.push(PINGREQ_BYTES[1]);
                assert(bytes@ =~= PINGREQ_BYTES@);
                return self.send(bytes, Sending::Ping);
            }
        }
        self.read_step(now)
    }

    fn wake_at(&self) -> (r: Option<Instant>)
        ensures
            match (r, self@.wake_at()) {
                (Some(at), Some(nanos)) => at.spec_nanos() == nanos,
                (None, None) => true,
                _ => false,
            },
    {
        let deadline: Option<Instant> = match &self.deadline {
            Some(deadline) => Some(deadline.at),
            None => None,
        };
        if !self.connected {
            return deadline;
        }
        let timer: Option<Instant> = match self.ping_sent_at {
            Some(sent_at) => sent_at.checked_add(self.ack_timeout),
            None => match ping_interval(self.keep_alive_secs) {
                Some(interval) => self.last_write_at.checked_add(interval),
                None => None,
            },
        };
        match (deadline, timer) {
            (Some(at), Some(timer_at)) => {
                if at.has_reached(timer_at) {
                    Some(timer_at)
                } else {
                    Some(at)
                }
            },
            (Some(at), None) => Some(at),
            (None, other) => other,
        }
    }

    fn read_step(&mut self, now: Instant) -> (r: Step)
        requires
            old(self).wf(),
        ensures
            final(self).wf(),
            (final(self)@, r@) == old(self)@.read_step(now.spec_nanos()),
    {
        let timeout: Option<Duration> = match self.wake_at() {
            Some(at) => Some(at.since(now).max_of(Duration::from_millis(1))),
            None => None,
        };
        let capacity: usize = self.frame_reader.remaining_capacity();
        if capacity == 0 {
            let max: usize = self.frame_reader.max_packet_size();
            return self.closed(Error::PacketTooLarge { size: max.saturating_add(1), max });
        }
        let max: usize = if capacity < READ_CHUNK {
            capacity
        } else {
            READ_CHUNK
        };
        Step::Read { timeout, max }
    }
}

fn without_value(result: Result<()>) -> (r: Result<Option<PublishPacket>>)
    ensures
        (Step::Done(r))@ == StepView::Done(nothing_or(result)),
{
    match result {
        Ok(()) => Ok(None),
        Err(error) => Err(error),
    }
}

/// A CONNACK packet out of a reader names a maximum QoS of at most one.
proof fn packet_has_capabilities(reader: FrameReaderView)
    ensures
        reader.next_packet() matches Ok(Some(PacketView::ConnAck(ack))) ==> availability(
            ack.properties,
            PropertyId::MaximumQoS,
        ) <= 1,
{
    if let Ok(Some(PacketView::ConnAck(ack))) = reader.next_packet() {
        let (header, len) = crate::codec::decode::fixed_header_of(reader.buf)->Ok_0;
        let total = len + header.remaining_length;
        decoded_connack_has_capabilities(reader.buf.subrange(len, total));
    }
}

/// What an iterator over incoming messages gives: it ends with the session.
pub struct Incoming {
    done: bool,
}

impl Incoming {
    /// Whether the iterator has come to its end.
    pub closed spec fn spec_done(&self) -> bool {
        self.done
    }

    pub fn new() -> (r: Self)
        ensures
            !r.spec_done(),
    {
        Incoming { done: false }
    }

    /// Whether to ask for no more messages.
    pub fn is_done(&self) -> (r: bool)
        ensures
            r == self.spec_done(),
    {
        self.done
    }

    /// What the iterator gives for the outcome of [`Session::recv`]. After an error or the
    /// end of the session it is at its end.
    pub fn item(&mut self, outcome: Result<Option<PublishPacket>>) -> (r: Option<
        Result<PublishPacket>,
    >)
        ensures
            match outcome {
                Ok(Some(message)) => r == Some(Ok::<PublishPacket, Error>(message))
                    && final(self).spec_done() == old(self).spec_done(),
                Ok(None) => r is None && final(self).spec_done(),
                Err(e) => r == Some(Err::<PublishPacket, _>(e)) && final(self).spec_done(),
            },
    {
        match outcome {
            Ok(Some(message)) => Some(Ok(message)),
            Ok(None) => {
                self.done = true;
                None
            },
            Err(error) => {
                self.done = true;
                Some(Err(error))
            },
        }
    }
}

} // verus!
