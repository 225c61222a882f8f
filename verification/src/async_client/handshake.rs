//! Making the connection: CONNECT goes out, CONNACK comes in, and all of it within one
//! deadline.
//!
//! [`Handshake`] performs no I/O and reads no clock. Whoever runs it performs what
//! [`Handshake::next_step`] names and reports what came of it.
use vstd::prelude::*;

use crate::codec::connect::{
    capabilities_of, connack_check, decoded_connack_has_capabilities, encoded_connect,
    validate_connack, ServerCapabilities,
};
use crate::codec::decode::{decode_fixed_header, fixed_header_of};
use crate::codec::packet_of;
use crate::codec::properties::{
    first_value, Entry, PropertyId, PropertyValueView, ValueKind,
};
use crate::codec::types::{ConnAckPacketView, FixedHeader, Packet, PacketView};
use crate::error::{Error, ErrorKind, IoError, Result};
use crate::frame::{frame_of, header_is_final, Frame, MQTT_MAX_PACKET_SIZE};
use crate::greeting::{connect_introduces, introduces};
use crate::options::{connect_packet_of, ConnectOptions, ConnectOptionsView};
use crate::time::{Duration, Instant, MAX_INSTANT_NANOS};
use crate::transport::{is_io, oversized_write, write_zero};

verus! {

/// What the broker's CONNACK packet settles.
#[derive(Debug, Clone, Copy, PartialEq, Eq, Structural)]
pub struct Negotiated {
    pub capabilities: ServerCapabilities,
    pub keep_alive_secs: u16,
    /// The largest packet that the broker accepts.
    pub max_packet_size: usize,
    /// How many QoS 1 PUBLISH packets the broker accepts before it acknowledges one.
    pub receive_maximum: u16,
}

/// A two-byte property, or `otherwise` where it is absent.
pub open spec fn u16_or(properties: Seq<Entry>, id: PropertyId, otherwise: u16) -> u16 {
    match first_value(properties, id, ValueKind::U16) {
        Some(PropertyValueView::U16(v)) => v,
        _ => otherwise,
    }
}

/// A four-byte property, or `otherwise` where it is absent.
pub open spec fn u32_or(properties: Seq<Entry>, id: PropertyId, otherwise: usize) -> usize {
    match first_value(properties, id, ValueKind::U32) {
        Some(PropertyValueView::U32(v)) => v as usize,
        _ => otherwise,
    }
}

/// What a CONNACK packet settles, where these seconds of keep-alive were asked for.
pub open spec fn negotiated(connack: ConnAckPacketView, keep_alive_secs: u16) -> Negotiated {
    Negotiated {
        capabilities: capabilities_of(connack),
        keep_alive_secs: u16_or(
            connack.properties,
            PropertyId::ServerKeepAlive,
            keep_alive_secs,
        ),
        max_packet_size: u32_or(
            connack.properties,
            PropertyId::MaximumPacketSize,
            MQTT_MAX_PACKET_SIZE,
        ),
        receive_maximum: u16_or(connack.properties, PropertyId::ReceiveMaximum, u16::MAX),
    }
}

/// When a connection that starts now has to stand.
pub fn connect_deadline(timeout: Duration, now: Instant) -> (r: Result<Instant>)
    ensures
        match r {
            Ok(at) => at.spec_nanos() == now.spec_nanos() + timeout.spec_nanos(),
            Err(e) => e == Error::InvalidOptions("connect timeout is too large"),
        },
        r is Ok <==> now.spec_nanos() + timeout.spec_nanos() <= MAX_INSTANT_NANOS,
{
    match now.checked_add(timeout) {
        Some(at) => Ok(at),
        None => Err(Error::InvalidOptions("connect timeout is too large")),
    }
}

/// How long it is until the deadline; an error where that is past.
pub fn connect_remaining(deadline: Instant, now: Instant) -> (r: Result<Duration>)
    ensures
        match r {
            Ok(left) => left.spec_nanos() == deadline.spec_nanos() - now.spec_nanos(),
            Err(e) => e == Error::Timeout("connect"),
        },
        r is Ok <==> now.spec_nanos() < deadline.spec_nanos(),
{
    let left = deadline.since(now);
    if left.is_zero() {
        return Err(Error::Timeout("connect"));
    }
    Ok(left)
}

/// What a transport failure means while the connection is made: a call that ran into its
/// time limit has run into the deadline.
pub open spec fn connect_error_of(error: IoError) -> Error {
    match error.spec_kind() {
        ErrorKind::TimedOut | ErrorKind::WouldBlock => Error::Timeout("connect"),
        _ => Error::Io(error),
    }
}

/// The error of a handshake whose transport failed with `error`.
pub fn map_connect_error(error: IoError) -> (r: Error)
    ensures
        r == connect_error_of(error),
{
    match error.kind() {
        ErrorKind::TimedOut | ErrorKind::WouldBlock => Error::Timeout("connect"),
        _ => Error::Io(error),
    }
}

/// Why no address could be connected to, where `last` is what the last one that was tried
/// failed with.
pub fn dial_failure(last: Option<IoError>, deadline: Instant, now: Instant) -> (r: Error)
    ensures
        now.spec_nanos() >= deadline.spec_nanos() ==> r == Error::Timeout("connect"),
        now.spec_nanos() < deadline.spec_nanos() ==> match last {
            Some(error) => r == connect_error_of(error),
            None => is_io(
                Err::<(), _>(r),
                ErrorKind::InvalidInput,
                "address resolved to no endpoints"@,
            ),
        },
{
    if let Err(error) = connect_remaining(deadline, now) {
        return error;
    }
    match last {
        Some(error) => map_connect_error(error),
        None => Error::Io(
            IoError::new(ErrorKind::InvalidInput, "address resolved to no endpoints"),
        ),
    }
}

/// What to do next for a connection that is being made, and within what time.
#[derive(Debug, Clone, Copy, PartialEq, Eq)]
pub enum HandshakeStep {
    /// Write [`Handshake::pending_write`].
    Write { timeout: Duration },
    Flush { timeout: Duration },
    /// Read at most `max` bytes.
    Read { timeout: Duration, max: usize },
}

/// A connection that is being made.
pub struct Handshake {
    deadline: Instant,
    max_packet_size: usize,
    keep_alive_secs: u16,
    client_id: String,
    clean_start: bool,
    outgoing: Vec<u8>,
    written: usize,
    flushed: bool,
    header: Vec<u8>,
    announced: Option<FixedHeader>,
    body: Vec<u8>,
}

/// What a [`Handshake`] holds.
#[verifier::ext_equal]
pub struct HandshakeView {
    pub deadline: int,
    pub max_packet_size: usize,
    pub keep_alive_secs: u16,
    pub client_id: Seq<char>,
    pub clean_start: bool,
    /// What of the CONNECT packet is still to be written.
    pub pending: Seq<u8>,
    pub flushed: bool,
    /// The bytes of the answer's fixed header that were read.
    pub header: Seq<u8>,
    /// The answer's fixed header, once it is complete.
    pub announced: Option<FixedHeader>,
    /// The bytes of the answer's body that were read.
    pub body: Seq<u8>,
}

impl View for Handshake {
    type V = HandshakeView;

    closed spec fn view(&self) -> HandshakeView {
        HandshakeView {
            deadline: self.deadline.spec_nanos(),
            max_packet_size: self.max_packet_size,
            keep_alive_secs: self.keep_alive_secs,
            client_id: self.client_id@,
            clean_start: self.clean_start,
            pending: self.outgoing@.skip(self.written as int),
            flushed: self.flushed,
            header: self.header@,
            announced: self.announced,
            body: self.body@,
        }
    }
}

impl HandshakeView {
    /// How many bytes to read next: the fixed header byte by byte, then the rest of the
    /// body. No byte behind the answer is taken from the transport.
    pub open spec fn wanted(self) -> int {
        match self.announced {
            None => 1,
            Some(header) => header.remaining_length - self.body.len(),
        }
    }

    /// Whether the bytes of the fixed header end with the last byte of its length.
    pub open spec fn header_ends(self) -> bool {
        self.header.len() >= 2 && self.header.last() < 0x80
    }

    /// The handshake after these bytes of the answer were read.
    pub open spec fn taken(self, data: Seq<u8>) -> HandshakeView {
        match self.announced {
            None => HandshakeView { header: self.header + data, ..self },
            Some(_) => HandshakeView { body: self.body + data, ..self },
        }
    }

    /// What the bytes that were read amount to.
    pub open spec fn progressed(self) -> (HandshakeView, Result<Option<Negotiated>>) {
        match self.announced {
            Some(header) => if self.body.len() == header.remaining_length {
                (self, self.concluded(header))
            } else {
                (self, Ok(None))
            },
            None => if !self.header_ends() {
                if self.header.len() >= 5 {
                    (self, Err(Error::MalformedPacket("variable int too long")))
                } else {
                    (self, Ok(None))
                }
            } else {
                match fixed_header_of(self.header) {
                    Err(e) => (self, Err(e)),
                    Ok((header, len)) => {
                        let total = len + header.remaining_length;
                        let s = HandshakeView { announced: Some(header), ..self };
                        if total > self.max_packet_size {
                            (
                                self,
                                Err(
                                    Error::PacketTooLarge {
                                        size: total as usize,
                                        max: self.max_packet_size,
                                    },
                                ),
                            )
                        } else if header.remaining_length == 0 {
                            (s, s.concluded(header))
                        } else {
                            (s, Ok(None))
                        }
                    },
                }
            },
        }
    }

    /// What the answer means, now that it is complete.
    pub open spec fn concluded(self, header: FixedHeader) -> Result<Option<Negotiated>> {
        match packet_of(header, self.body) {
            Err(e) => Err(e),
            Ok(PacketView::ConnAck(connack)) => if connack.reason_code >= 0x80 {
                Err(Error::ConnectionRefused(connack.reason_code))
            } else {
                match connack_check(self.client_id, self.clean_start, connack) {
                    Err(e) => Err(e),
                    Ok(_) => Ok(Some(negotiated(connack, self.keep_alive_secs))),
                }
            },
            Ok(_) => Err(Error::UnexpectedPacket("expected CONNACK")),
        }
    }
}

/// Where a connection starts that is made with these options.
pub open spec fn starting(
    options: ConnectOptionsView,
    deadline: Instant,
    connect: Seq<u8>,
) -> HandshakeView {
    HandshakeView {
        deadline: deadline.spec_nanos(),
        max_packet_size: options.max_packet_size,
        keep_alive_secs: options.keep_alive_secs,
        client_id: options.client_id,
        clean_start: options.clean_start,
        pending: connect,
        flushed: false,
        header: Seq::empty(),
        announced: None,
        body: Seq::empty(),
    }
}

impl Handshake {
    /// Whether the state is one that a handshake can be in.
    pub closed spec fn wf(&self) -> bool {
        &&& self.written <= self.outgoing@.len()
        &&& match self.announced {
            None => self.header@.len() <= 4 && self.body@.len() == 0,
            Some(header) => self.body@.len() < header.remaining_length,
        }
    }

    /// A handshake with these options that has to be through by the deadline.
    pub fn new(options: &ConnectOptions, deadline: Instant) -> (r: Result<Self>)
        ensures
            if options@.max_packet_size > u32::MAX {
                r matches Err(e) && e == Error::MalformedPacket(
                    "maximum packet size exceeds MQTT limit",
                )
            } else {
                match encoded_connect(connect_packet_of(options@, options@.event_capacity)) {
                    Err(e) => r matches Err(f) && f == e,
                    Ok(connect) => r matches Ok(h) && h.wf() && h@ == starting(
                        options@,
                        deadline,
                        connect,
                    ),
                }
            },
            r matches Ok(h) ==> introduces(h@.pending, options@, options@.event_capacity),
    {
        if options.max_packet_size > u32::MAX as usize {
            return Err(Error::MalformedPacket("maximum packet size exceeds MQTT limit"));
        }
        let connect = options.connect_packet(options.event_capacity);
        let outgoing = connect.encode()?;
        proof {
            connect_introduces(options@, options@.event_capacity);
        }
        let r = Handshake {
            deadline,
            max_packet_size: options.max_packet_size,
            keep_alive_secs: options.keep_alive_secs,
            client_id: options.client_id.clone(),
            clean_start: options.clean_start,
            outgoing,
            written: 0,
            flushed: false,
            header: Vec::new(),
            announced: None,
            body: Vec::new(),
        };
        assert(r@ =~= starting(options@, deadline, outgoing@));
        Ok(r)
    }

    /// What to do next: write all of the CONNECT packet, flush it, and read the answer.
    pub fn next_step(&self, now: Instant) -> (r: Result<HandshakeStep>)
        requires
            self.wf(),
        ensures
            now.spec_nanos() >= self@.deadline <==> r is Err,
            match r {
                Err(e) => e == Error::Timeout("connect"),
                Ok(HandshakeStep::Write { timeout }) => self@.pending.len() > 0
                    && timeout.spec_nanos() == self@.deadline - now.spec_nanos(),
                Ok(HandshakeStep::Flush { timeout }) => self@.pending.len() == 0
                    && !self@.flushed && timeout.spec_nanos() == self@.deadline
                    - now.spec_nanos(),
                Ok(HandshakeStep::Read { timeout, max }) => self@.pending.len() == 0
                    && self@.flushed && timeout.spec_nanos() == self@.deadline
                    - now.spec_nanos() && max == self@.wanted() && max > 0,
            },
    {
        let timeout = connect_remaining(self.deadline, now)?;
        assert(self@.pending.len() == self.outgoing@.len() - self.written);
        if self.written < self.outgoing.len() {
            return Ok(HandshakeStep::Write { timeout });
        }
        if !self.flushed {
            return Ok(HandshakeStep::Flush { timeout });
        }
        Ok(HandshakeStep::Read { timeout, max: self.wanted() })
    }

    fn wanted(&self) -> (r: usize)
        requires
            self.wf(),
        ensures
            r == self@.wanted(),
            r > 0,
    {
        match self.announced {
            None => 1,
            Some(header) => header.remaining_length as usize - self.body.len(),
        }
    }

    /// What of the CONNECT packet is still to be written.
    pub fn pending_write(&self) -> (r: &[u8])
        requires
            self.wf(),
        ensures
            r@ == self@.pending,
    {
        let r = vstd::slice::slice_subrange(&self.outgoing, self.written, self.outgoing.len());
        assert(r@ =~= self@.pending);
        r
    }

    /// The transport was asked to write what is pending, and this is what it answered: how
    /// many bytes it accepted, or why not.
    pub fn wrote(&mut self, outcome: core::result::Result<usize, IoError>, now: Instant) -> (r:
        Result<()>)
        requires
            old(self).wf(),
        ensures
            final(self).wf(),
            match outcome {
                Ok(n) => if n == 0 {
                    final(self)@ == old(self)@ && is_io(r, ErrorKind::WriteZero, "write zero"@)
                } else if n > old(self)@.pending.len() {
                    final(self)@ == old(self)@ && is_io(
                        r,
                        ErrorKind::InvalidData,
                        "transport reported an oversized write"@,
                    )
                } else {
                    &&& final(self)@ == (HandshakeView {
                        pending: old(self)@.pending.skip(n as int),
                        ..old(self)@
                    })
                    &&& r == (if now.spec_nanos() < old(self)@.deadline {
                        Ok(())
                    } else {
                        Err(Error::Timeout("connect"))
                    })
                },
                Err(error) => {
                    &&& final(self)@ == old(self)@
                    &&& r == (if error.spec_kind() == ErrorKind::Interrupted {
                        Ok(())
                    } else {
                        Err(connect_error_of(error))
                    })
                },
            },
    {
        match outcome {
            Ok(written) => {
                if written == 0 {
                    return Err(Error::Io(write_zero()));
                }
                if written > self.outgoing.len() - self.written {
                    return Err(Error::Io(oversized_write()));
                }
                self.written = self.written + written;
                assert(self@ =~= HandshakeView {
                    pending: old(self)@.pending.skip(written as int),
                    ..old(self)@
                });
                connect_remaining(self.deadline, now)?;
                Ok(())
            },
            Err(error) => match error.kind() {
                ErrorKind::Interrupted => Ok(()),
                _ => Err(map_connect_error(error)),
            },
        }
    }

    /// The transport was asked to flush, and this is what it answered.
    pub fn flushed(&mut self, outcome: core::result::Result<(), IoError>, now: Instant) -> (r:
        Result<()>)
        requires
            old(self).wf(),
        ensures
            final(self).wf(),
            match outcome {
                Ok(_) => {
                    &&& final(self)@ == (HandshakeView { flushed: true, ..old(self)@ })
                    &&& r == (if now.spec_nanos() < old(self)@.deadline {
                        Ok(())
                    } else {
                        Err(Error::Timeout("connect"))
                    })
                },
                Err(error) => final(self)@ == old(self)@ && r == Err::<(), _>(
                    connect_error_of(error),
                ),
            },
    {
        match outcome {
            Ok(()) => {
                self.flushed = true;
                connect_remaining(self.deadline, now)?;
                Ok(())
            },
            Err(error) => Err(map_connect_error(error)),
        }
    }

    /// The transport was asked to read into `buf`, and this is what it answered: how many
    /// bytes it read, or why not. Gives what was negotiated once the answer is complete.
    ///
    /// After an error there is nothing to go on with.
    pub fn received(
        &mut self,
        outcome: core::result::Result<usize, IoError>,
        buf: &[u8],
        now: Instant,
    ) -> (r: Result<Option<Negotiated>>)
        requires
            old(self).wf(),
            buf@.len() >= old(self)@.wanted(),
        ensures
            r == Ok::<Option<Negotiated>, Error>(None) ==> final(self).wf(),
            match outcome {
                Ok(n) => if n == 0 {
                    &&& final(self)@ == old(self)@
                    &&& r == Err::<Option<Negotiated>, _>(Error::ConnectionClosed)
                } else if n > old(self)@.wanted() {
                    &&& final(self)@ == old(self)@
                    &&& is_io(r, ErrorKind::InvalidData, "transport reported an oversized read"@)
                } else if now.spec_nanos() >= old(self)@.deadline {
                    &&& final(self)@ == old(self)@
                    &&& r == Err::<Option<Negotiated>, _>(Error::Timeout("connect"))
                } else {
                    let (s, result) = old(self)@.taken(buf@.take(n as int)).progressed();
                    final(self)@ == s && r == result
                },
                Err(error) => {
                    &&& final(self)@ == old(self)@
                    &&& r == (if error.spec_kind() == ErrorKind::Interrupted {
                        Ok(None::<Negotiated>)
                    } else {
                        Err(connect_error_of(error))
                    })
                },
            },
    {
        match outcome {
            Ok(read) => {
                if read == 0 {
                    return Err(Error::ConnectionClosed);
                }
                if read > self.wanted() {
                    return Err(
                        Error::Io(
                            IoError::new(
                                ErrorKind::InvalidData,
                                "transport reported an oversized read",
                            ),
                        ),
                    );
                }
                connect_remaining(self.deadline, now)?;
                let ghost taken = self@.taken(buf@.take(read as int));
                let data = vstd::slice::slice_subrange(buf, 0, read);
                assert(data@ =~= buf@.take(read as int));
                match self.announced {
                    None => {
                        self.header.extend_from_slice(data);
                    },
                    Some(_) => {
                        self.body.extend_from_slice(data);
                    },
                }
                assert(self@ =~= taken);
                self.progress()
            },
            Err(error) => match error.kind() {
                ErrorKind::Interrupted => Ok(None),
                _ => Err(map_connect_error(error)),
            },
        }
    }

    fn progress(&mut self) -> (r: Result<Option<Negotiated>>)
        requires
            old(self).written <= old(self).outgoing@.len(),
            match old(self).announced {
                None => 1 <= old(self).header@.len() <= 5 && old(self).body@.len() == 0,
                Some(header) => old(self).body@.len() <= header.remaining_length,
            },
        ensures
            r == Ok::<Option<Negotiated>, Error>(None) ==> final(self).wf(),
            (final(self)@, r) == old(self)@.progressed(),
    {
        if let Some(header) = self.announced {
            if self.body.len() == header.remaining_length as usize {
                return self.conclude(header);
            }
            return Ok(None);
        }
        let len: usize = self.header.len();
        if len < 2 || self.header[len - 1] >= 0x80 {
            if len >= 5 {
                return Err(Error::MalformedPacket("variable int too long"));
            }
            return Ok(None);
        }
        let (header, header_len) = decode_fixed_header(&self.header)?;
        let total_size: usize = header_len + header.remaining_length as usize;
        if total_size > self.max_packet_size {
            return Err(Error::PacketTooLarge { size: total_size, max: self.max_packet_size });
        }
        self.announced = Some(header);
        if header.remaining_length == 0 {
            return self.conclude(header);
        }
        Ok(None)
    }

    fn conclude(&self, header: FixedHeader) -> (r: Result<Option<Negotiated>>)
        ensures
            r == self@.concluded(header),
            r != Ok::<Option<Negotiated>, Error>(None),
    {
        let connack = match Packet::decode(header, &self.body)? {
            Packet::ConnAck(connack) => connack,
            _ => {
                return Err(Error::UnexpectedPacket("expected CONNACK"));
            },
        };
        if connack.reason_code >= 0x80 {
            return Err(Error::ConnectionRefused(connack.reason_code));
        }
        validate_connack(&self.client_id, self.clean_start, &connack)?;
        proof {
            decoded_connack_has_capabilities(self.body@);
        }
        let keep_alive_secs: u16 = match connack.properties.get_u16(PropertyId::ServerKeepAlive) {
            Some(secs) => secs,
            None => self.keep_alive_secs,
        };
        let max_packet_size: usize = match connack.properties.get_u32(
            PropertyId::MaximumPacketSize,
        ) {
            Some(size) => size as usize,
            None => MQTT_MAX_PACKET_SIZE,
        };
        let receive_maximum: u16 = match connack.properties.get_u16(PropertyId::ReceiveMaximum) {
            Some(count) => count,
            None => u16::MAX,
        };
        Ok(
            Some(
                Negotiated {
                    capabilities: ServerCapabilities::from_connack(&connack),
                    keep_alive_secs,
                    max_packet_size,
                    receive_maximum,
                },
            ),
        )
    }
}

/// The answer that a handshake takes is the packet that a frame reader finds in the same
/// bytes, and what was negotiated is what that packet says.
pub proof fn handshake_answer_is_a_frame(s: HandshakeView, header: FixedHeader)
    requires
        s.announced == Some(header),
        fixed_header_of(s.header) == Ok::<(FixedHeader, int), Error>(
            (header, s.header.len() as int),
        ),
        s.body.len() == header.remaining_length,
        s.header.len() + s.body.len() <= s.max_packet_size,
    ensures
        s.progressed().1 matches Ok(Some(terms)) ==> frame_of(
            s.header + s.body,
            s.max_packet_size,
        ) matches Frame::Complete(PacketView::ConnAck(connack), len) && len == s.header.len()
            + s.body.len() && terms == negotiated(connack, s.keep_alive_secs),
{
    header_is_final(s.header, s.body);
    assert((s.header + s.body).subrange(
        s.header.len() as int,
        (s.header.len() + s.body.len()) as int,
    ) =~= s.body);
}

} // verus!
