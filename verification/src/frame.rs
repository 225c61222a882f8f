//! Incremental parsing of packets out of a byte stream.
use vstd::prelude::*;

use crate::codec::decode::{
    decode_fixed_header, end_of_data, fixed_header_of, framed_round_trip, take_groups,
};
use crate::codec::encode::{framed, variable_int_bytes};
use crate::codec::packet_of;
use crate::codec::ping::{
    disconnect_body, disconnect_round_trip, encoded_disconnect, PINGREQ_BYTES, PINGRESP_BYTES,
};
use crate::codec::publish::{
    encoded_puback, encoded_publish, puback_body, puback_round_trip, publish_body, publish_flags,
    publish_round_trip,
};
use crate::codec::types::{
    packet_type_of, DisconnectPacket, FixedHeader, Packet, PacketType, PacketView, PubAckPacket,
    PublishPacketView,
};
use crate::error::{Error, Result};
use crate::text::same_text;

verus! {

/// Largest possible MQTT control packet: a five-byte fixed header plus the
/// maximum Remaining Length value.
pub const MQTT_MAX_PACKET_SIZE: usize = 268_435_460;

/// What stands at the start of a byte stream.
pub enum Frame {
    /// The bytes end inside the packet.
    Incomplete,
    /// A packet, and the number of bytes that it takes.
    Complete(PacketView, int),
    /// Bytes that are not a packet within the size limit.
    Bad(Error),
}

/// What stands at the start of `data`, where a packet may take at most `max` bytes. A
/// packet whose header announces more is bad before any of its body is there.
pub open spec fn frame_of(data: Seq<u8>, max: usize) -> Frame {
    match fixed_header_of(data) {
        Err(e) => if e == end_of_data() {
            Frame::Incomplete
        } else {
            Frame::Bad(e)
        },
        Ok((header, header_len)) => {
            let total = header_len + header.remaining_length;
            if total > max {
                Frame::Bad(Error::PacketTooLarge { size: total as usize, max })
            } else if data.len() < total {
                Frame::Incomplete
            } else {
                match packet_of(header, data.subrange(header_len, total)) {
                    Ok(packet) => Frame::Complete(packet, total),
                    Err(e) => Frame::Bad(e),
                }
            }
        },
    }
}

/// The length of the packet at the start of `data` as its header gives it, where the
/// header is complete and within the limit.
pub open spec fn announced_len(data: Seq<u8>, max: usize) -> Option<int> {
    match fixed_header_of(data) {
        Ok((header, header_len)) => if header_len + header.remaining_length <= max {
            Some(header_len + header.remaining_length)
        } else {
            None
        },
        Err(_) => None,
    }
}

/// Incremental MQTT frame parser for non-blocking reads.
///
/// Accumulates bytes via `push()` and yields complete packets via
/// `try_decode()`. Handles partial reads gracefully - call `push()`
/// with whatever bytes are available, then `try_decode()` in a loop
/// until it returns `Ok(None)`.
pub struct FrameReader {
    buf: Vec<u8>,
    state: FrameState,
    max_packet_size: usize,
    overflow_size: Option<usize>,
}

enum FrameState {
    /// Accumulating bytes until a complete fixed header is available.
    ReadingHeader,
    /// Fixed header parsed; accumulating body bytes.
    ReadingBody { header: FixedHeader, header_len: usize, total_len: usize },
}

/// What a [`FrameReader`] holds.
#[verifier::ext_equal]
pub struct FrameReaderView {
    /// The bytes that belong to no packet yet.
    pub buf: Seq<u8>,
    /// Whether the header of the packet that they start has been read.
    pub in_body: bool,
    /// The largest packet that is accepted.
    pub max: usize,
    /// How many bytes would have been held, where more were pushed than there is room for.
    pub overflow: Option<usize>,
}

impl FrameReaderView {
    /// How many bytes may be held until the next packet is taken out.
    pub open spec fn target(self) -> int {
        if self.in_body {
            announced_len(self.buf, self.max)->Some_0
        } else {
            self.max as int
        }
    }

    /// How many more bytes may be pushed.
    pub open spec fn room(self) -> int {
        if self.buf.len() <= self.target() {
            self.target() - self.buf.len()
        } else {
            0
        }
    }

    /// The reader after `data` was pushed: bytes for which there is no room are dropped,
    /// and their number is remembered.
    pub open spec fn pushed(self, data: Seq<u8>) -> FrameReaderView {
        if data.len() > self.room() {
            let held = self.buf.len() + self.room();
            let size = held + (data.len() - self.room());
            FrameReaderView {
                buf: self.buf + data.take(self.room()),
                overflow: Some(
                    if size > usize::MAX {
                        usize::MAX
                    } else {
                        size as usize
                    },
                ),
                ..self
            }
        } else {
            FrameReaderView { buf: self.buf + data, ..self }
        }
    }

    /// What taking out the next packet returns.
    pub open spec fn next_packet(self) -> Result<Option<PacketView>> {
        match self.overflow {
            Some(size) => Err(Error::PacketTooLarge { size, max: self.max }),
            None => match frame_of(self.buf, self.max) {
                Frame::Incomplete => Ok(None),
                Frame::Complete(packet, _) => Ok(Some(packet)),
                Frame::Bad(e) => Err(e),
            },
        }
    }

    /// The reader after the next packet was taken out, or looked for.
    pub open spec fn after_next(self) -> FrameReaderView {
        match self.overflow {
            Some(_) => self,
            None => match frame_of(self.buf, self.max) {
                Frame::Complete(_, len) => FrameReaderView {
                    buf: self.buf.skip(len),
                    in_body: false,
                    ..self
                },
                _ => FrameReaderView {
                    in_body: announced_len(self.buf, self.max) is Some,
                    ..self
                },
            },
        }
    }
}

impl View for FrameReader {
    type V = FrameReaderView;

    closed spec fn view(&self) -> FrameReaderView {
        FrameReaderView {
            buf: self.buf@,
            in_body: self.state is ReadingBody,
            max: self.max_packet_size,
            overflow: self.overflow_size,
        }
    }
}

impl FrameReader {
    /// No more bytes are held than the size limit allows, and a header that was read is
    /// that of the bytes held.
    pub closed spec fn wf(&self) -> bool {
        &&& self.buf@.len() <= self.max_packet_size
        &&& match self.state {
            FrameState::ReadingHeader => true,
            FrameState::ReadingBody { header, header_len, total_len } => {
                &&& fixed_header_of(self.buf@) == Ok::<(FixedHeader, int), Error>(
                    (header, header_len as int),
                )
                &&& header_len <= total_len
                &&& total_len == header_len + header.remaining_length
                &&& total_len <= self.max_packet_size
            },
        }
    }

    /// A reader that can be called holds no more bytes than its size limit, and a header
    /// that it has read is that of the bytes that it holds.
    pub proof fn wf_gives_bounds(&self)
        requires
            self.wf(),
        ensures
            self@.buf.len() <= self@.max,
            self@.in_body ==> announced_len(self@.buf, self@.max) is Some,
    {
    }

    pub fn new() -> (r: Self)
        ensures
            r.wf(),
            r@ == (FrameReaderView {
                buf: Seq::empty(),
                in_body: false,
                max: MQTT_MAX_PACKET_SIZE,
                overflow: None,
            }),
    {
        Self::with_max_packet_size(MQTT_MAX_PACKET_SIZE)
    }

    /// Create a reader that rejects complete packets larger than `max` bytes.
    ///
    /// The limit includes the MQTT fixed header. Callers should keep individual
    /// `push` chunks at or below [`FrameReader::remaining_capacity`] when using
    /// a small custom limit.
    pub fn with_max_packet_size(max: usize) -> (r: Self)
        ensures
            r.wf(),
            r@ == (FrameReaderView { buf: Seq::empty(), in_body: false, max, overflow: None }),
    {
        Self {
            buf: Vec::with_capacity(4096),
            state: FrameState::ReadingHeader,
            max_packet_size: max,
            overflow_size: None,
        }
    }

    /// Feed raw bytes from the socket into the parser.
    pub fn push(&mut self, data: &[u8])
        requires
            old(self).wf(),
        ensures
            final(self).wf(),
            final(self)@ == old(self)@.pushed(data@),
    {
        let available: usize = self.remaining_capacity();
        let ghost before = self.buf@;
        if data.len() > available {
            self.buf.extend_from_slice(vstd::slice::slice_subrange(data, 0, available));
            assert(self.buf@ =~= before + data@.take(available as int));
            self.overflow_size = Some(self.buf.len().saturating_add(data.len() - available));
        } else {
            self.buf.extend_from_slice(data);
        }
        proof {
            if fixed_header_of(before) != Err::<(FixedHeader, int), _>(end_of_data()) {
                header_is_final(before, self.buf@.skip(before.len() as int));
            }
            assert(before + self.buf@.skip(before.len() as int) =~= self.buf@);
        }
    }

    /// Maximum number of bytes that can be pushed without exceeding the
    /// configured bound for the packet currently being assembled.
    pub fn remaining_capacity(&self) -> (r: usize)
        requires
            self.wf(),
        ensures
            r == self@.room(),
            self@.buf.len() + r <= self@.max,
    {
        let target: usize = match self.state {
            FrameState::ReadingHeader => self.max_packet_size,
            FrameState::ReadingBody { total_len, .. } => total_len,
        };
        target.saturating_sub(self.buf.len())
    }

    pub fn max_packet_size(&self) -> (r: usize)
        ensures
            r == self@.max,
    {
        self.max_packet_size
    }

    /// Try to extract the next complete packet.
    ///
    /// Returns `Ok(Some(packet))` if a complete packet was decoded,
    /// `Ok(None)` if more data is needed, or `Err` if malformed.
    pub fn try_decode(&mut self) -> (r: Result<Option<Packet>>)
        requires
            old(self).wf(),
        ensures
            final(self).wf(),
            final(self)@ == old(self)@.after_next(),
            match old(self)@.next_packet() {
                Ok(None) => r matches Ok(None),
                Ok(Some(view)) => r matches Ok(Some(packet)) && packet@ == view,
                Err(e) => r == Err::<Option<Packet>, _>(e),
            },
    {
        if let Some(size) = self.overflow_size {
            return Err(Error::PacketTooLarge { size, max: self.max_packet_size });
        }
        if let FrameState::ReadingHeader = self.state {
            match decode_fixed_header(&self.buf) {
                Ok((header, header_len)) => {
                    let total_len: usize = header_len + header.remaining_length as usize;
                    if total_len > self.max_packet_size {
                        return Err(
                            Error::PacketTooLarge { size: total_len, max: self.max_packet_size },
                        );
                    }
                    self.state = FrameState::ReadingBody { header, header_len, total_len };
                },
                Err(Error::MalformedPacket(msg)) => {
                    proof {
                        header_messages(self.buf@);
                    }
                    if same_text(msg, "unexpected end of data") {
                        return Ok(None);
                    }
                    return Err(Error::MalformedPacket(msg));
                },
                Err(e) => {
                    return Err(e);
                },
            }
        }
        if let FrameState::ReadingBody { header, header_len, total_len } = self.state {
            if self.buf.len() < total_len {
                return Ok(None);
            }
            let packet = Packet::decode(
                header,
                vstd::slice::slice_subrange(&self.buf, header_len, total_len),
            )?;
            let rest = self.buf.split_off(total_len);
            assert(rest@ =~= old(self).buf@.skip(total_len as int));
            self.buf = rest;
            self.state = FrameState::ReadingHeader;
            return Ok(Some(packet));
        }
        Ok(None)
    }
}

impl Default for FrameReader {
    fn default() -> (r: Self)
        ensures
            r.wf(),
            r@ == (FrameReaderView {
                buf: Seq::empty(),
                in_body: false,
                max: MQTT_MAX_PACKET_SIZE,
                overflow: None,
            }),
    {
        Self::new()
    }
}

proof fn header_messages(data: Seq<u8>)
    ensures
        fixed_header_of(data) matches Err(Error::MalformedPacket(msg)) ==> (msg
            == "unexpected end of data" || msg == "variable int too long"),
        "unexpected end of data"@ != "variable int too long"@,
{
    reveal_strlit("unexpected end of data");
    reveal_strlit("variable int too long");
    assert("unexpected end of data"@.len() == 22);
    assert("variable int too long"@.len() == 21);
    groups_messages(data, 1, 4);
}

proof fn groups_messages(data: Seq<u8>, pos: int, left: nat)
    ensures
        take_groups(data, pos, left).0 matches Err(e) ==> (e == end_of_data() || e
            == Error::MalformedPacket("variable int too long")),
    decreases left,
{
    if left > 1 {
        groups_messages(data, pos + 1, (left - 1) as nat);
    }
}

proof fn groups_are_final(data: Seq<u8>, more: Seq<u8>, pos: int, left: nat)
    requires
        0 <= pos,
        take_groups(data, pos, left).0 != Err::<nat, _>(end_of_data()),
    ensures
        take_groups(data + more, pos, left) == take_groups(data, pos, left),
    decreases left,
{
    if left > 1 && pos + 1 <= data.len() && data[pos] >= 128 {
        groups_are_final(data, more, pos + 1, (left - 1) as nat);
    }
}

/// A fixed header that is complete, or wrong, stays so whatever follows.
pub proof fn header_is_final(data: Seq<u8>, more: Seq<u8>)
    requires
        fixed_header_of(data) != Err::<(FixedHeader, int), _>(end_of_data()),
    ensures
        fixed_header_of(data + more) == fixed_header_of(data),
{
    if data.len() > 0 {
        assert((data + more)[0] == data[0]);
        if packet_type_of((data[0] / 16) as u8) is Ok {
            groups_are_final(data, more, 1, 4);
        }
    }
}

/// What stands at the start of a stream does not change once it is decided: a packet or
/// an error found in the bytes at hand is the same whatever arrives later.
pub proof fn frame_is_final(data: Seq<u8>, more: Seq<u8>, max: usize)
    requires
        frame_of(data, max) !is Incomplete,
    ensures
        frame_of(data + more, max) == frame_of(data, max),
{
    header_is_final(data, more);
    if let Ok((header, header_len)) = fixed_header_of(data) {
        let total = header_len + header.remaining_length;
        if total <= data.len() {
            header_len_bounds(data);
            assert((data + more).subrange(header_len, total) =~= data.subrange(header_len, total));
        }
    }
}

/// A fixed header takes two to five bytes.
pub proof fn header_len_bounds(data: Seq<u8>)
    ensures
        fixed_header_of(data) matches Ok((_, header_len)) ==> 2 <= header_len <= 5 && header_len
            <= data.len(),
{
    reveal_with_fuel(take_groups, 5);
}

/// Splitting the bytes over two pushes makes no difference, as long as there is room for
/// them.
pub proof fn pushes_join(reader: FrameReaderView, first: Seq<u8>, second: Seq<u8>)
    requires
        reader.in_body ==> announced_len(reader.buf, reader.max) is Some,
        first.len() + second.len() <= reader.room(),
    ensures
        reader.pushed(first).pushed(second) == reader.pushed(first + second),
{
    if reader.in_body {
        header_is_final(reader.buf, first);
    }
    assert(reader.buf + first + second =~= reader.buf + (first + second));
}

/// Looking for a packet before it is complete makes no difference to what is found later,
/// as long as no more bytes are pushed than there is room for.
pub proof fn early_look_makes_no_difference(
    reader: FrameReaderView,
    first: Seq<u8>,
    second: Seq<u8>,
)
    requires
        reader.overflow is None,
        reader.in_body ==> announced_len(reader.buf, reader.max) is Some,
        first.len() + second.len() <= reader.room(),
        reader.pushed(first).next_packet() == Ok::<Option<PacketView>, Error>(None),
        second.len() <= reader.pushed(first).after_next().room(),
    ensures
        reader.pushed(first).after_next().pushed(second).next_packet() == reader.pushed(
            first + second,
        ).next_packet(),
        reader.pushed(first).after_next().pushed(second).after_next() == reader.pushed(
            first + second,
        ).after_next(),
{
    pushes_join(reader, first, second);
}

/// A reader never holds more bytes than its size limit.
pub proof fn buffer_stays_within_limit(reader: FrameReaderView, data: Seq<u8>)
    requires
        reader.buf.len() <= reader.max,
        reader.in_body ==> announced_len(reader.buf, reader.max) is Some,
    ensures
        reader.pushed(data).buf.len() <= reader.max,
        reader.pushed(data).max == reader.max,
        reader.after_next().buf.len() <= reader.max,
        reader.after_next().max == reader.max,
{
    header_len_bounds(reader.buf);
}

proof fn framed_is_read_back(
    packet_type: PacketType,
    flags: u8,
    body: Seq<u8>,
    rest: Seq<u8>,
    max: usize,
)
    requires
        flags <= 15,
        framed(packet_type, flags, body) matches Ok(bytes) && bytes.len() <= max,
    ensures
        ({
            let bytes = framed(packet_type, flags, body)->Ok_0;
            let header = FixedHeader { packet_type, flags, remaining_length: body.len() as u32 };
            frame_of(bytes + rest, max) == (match packet_of(header, body) {
                Ok(packet) => Frame::Complete(packet, bytes.len() as int),
                Err(e) => Frame::Bad(e),
            })
        }),
{
    framed_round_trip(packet_type, flags, body, rest);
}

/// A PUBLISH packet that was encoded is read back from the stream as it was, and what
/// follows it in the stream stays for the next read.
pub proof fn publish_is_read_back(p: PublishPacketView, rest: Seq<u8>, max: usize)
    requires
        encoded_publish(p) matches Ok(bytes) && bytes.len() <= max,
    ensures
        frame_of(encoded_publish(p)->Ok_0 + rest, max) == Frame::Complete(
            PacketView::Publish(p),
            encoded_publish(p)->Ok_0.len() as int,
        ),
        (encoded_publish(p)->Ok_0 + rest).skip(encoded_publish(p)->Ok_0.len() as int) == rest,
{
    publish_round_trip(p);
    framed_is_read_back(
        PacketType::Publish,
        publish_flags(p),
        publish_body(p)->Ok_0,
        rest,
        max,
    );
    let bytes = encoded_publish(p)->Ok_0;
    assert((bytes + rest).skip(bytes.len() as int) =~= rest);
}

/// A PUBACK packet that was encoded is read back from the stream as it was.
pub proof fn puback_is_read_back(p: PubAckPacket, rest: Seq<u8>, max: usize)
    requires
        encoded_puback(p) matches Ok(bytes) && bytes.len() <= max,
    ensures
        frame_of(encoded_puback(p)->Ok_0 + rest, max) == Frame::Complete(
            PacketView::PubAck(p),
            encoded_puback(p)->Ok_0.len() as int,
        ),
{
    puback_round_trip(p);
    framed_is_read_back(PacketType::PubAck, 0, puback_body(p), rest, max);
}

/// A DISCONNECT packet that was encoded is read back from the stream as it was.
pub proof fn disconnect_is_read_back(p: DisconnectPacket, rest: Seq<u8>, max: usize)
    requires
        encoded_disconnect(p) matches Ok(bytes) && bytes.len() <= max,
    ensures
        frame_of(encoded_disconnect(p)->Ok_0 + rest, max) == Frame::Complete(
            PacketView::Disconnect(p),
            encoded_disconnect(p)->Ok_0.len() as int,
        ),
{
    disconnect_round_trip(p);
    framed_is_read_back(PacketType::Disconnect, 0, disconnect_body(p), rest, max);
}

/// The PINGREQ and PINGRESP packets are read back from the stream as what they are.
pub proof fn pings_are_read_back(rest: Seq<u8>, max: usize)
    requires
        max >= 2,
    ensures
        frame_of(PINGREQ_BYTES@ + rest, max) == Frame::Complete(PacketView::PingReq, 2),
        frame_of(PINGRESP_BYTES@ + rest, max) == Frame::Complete(PacketView::PingResp, 2),
{
    let empty = Seq::<u8>::empty();
    reveal_with_fuel(variable_int_bytes, 2);
    assert(framed(PacketType::PingReq, 0, empty)->Ok_0 =~= PINGREQ_BYTES@);
    assert(framed(PacketType::PingResp, 0, empty)->Ok_0 =~= PINGRESP_BYTES@);
    framed_is_read_back(PacketType::PingReq, 0, empty, rest, max);
    framed_is_read_back(PacketType::PingResp, 0, empty, rest, max);
}

/// The packets at the front of a byte stream, up to one that is incomplete or bad.
#[verifier::opaque]
pub open spec fn packets_of(stream: Seq<u8>, max: usize) -> Seq<PacketView>
    decreases stream.len(),
{
    match frame_of(stream, max) {
        Frame::Complete(packet, len) => {
            proof {
                header_len_bounds(stream);
            }
            seq![packet] + packets_of(stream.skip(len), max)
        },
        _ => Seq::empty(),
    }
}

/// What stands in a byte stream behind the packets at its front.
#[verifier::opaque]
pub open spec fn behind_packets(stream: Seq<u8>, max: usize) -> Seq<u8>
    decreases stream.len(),
{
    match frame_of(stream, max) {
        Frame::Complete(_, len) => {
            proof {
                header_len_bounds(stream);
            }
            behind_packets(stream.skip(len), max)
        },
        _ => stream,
    }
}

impl FrameReaderView {
    /// Take out packets until none is there.
    pub open spec fn drained(self) -> (FrameReaderView, Seq<PacketView>)
        decreases self.buf.len(),
    {
        match self.next_packet() {
            Ok(Some(packet)) => {
                proof {
                    header_len_bounds(self.buf);
                }
                let (reader, more) = self.after_next().drained();
                (reader, seq![packet] + more)
            },
            _ => (self.after_next(), Seq::empty()),
        }
    }

    /// Push the pieces one after the other, and take out the packets behind each.
    pub open spec fn read_pieces(self, pieces: Seq<Seq<u8>>) -> (FrameReaderView, Seq<PacketView>)
        decreases pieces.len(),
    {
        if pieces.len() == 0 {
            (self, Seq::empty())
        } else {
            let (reader, packets) = self.pushed(pieces[0]).drained();
            let (last, more) = reader.read_pieces(pieces.drop_first());
            (last, packets + more)
        }
    }

    /// Whether there is room for each piece when it is pushed.
    pub open spec fn has_room_for(self, pieces: Seq<Seq<u8>>) -> bool
        decreases pieces.len(),
    {
        pieces.len() > 0 ==> {
            &&& pieces[0].len() <= self.room()
            &&& self.pushed(pieces[0]).drained().0.has_room_for(pieces.drop_first())
        }
    }
}

/// The packets in a stream are those in its first part, then those in what is left of it
/// and the second part.
pub proof fn packets_join(first: Seq<u8>, second: Seq<u8>, max: usize)
    ensures
        packets_of(first + second, max) == packets_of(first, max) + packets_of(
            behind_packets(first, max) + second,
            max,
        ),
        behind_packets(first + second, max) == behind_packets(
            behind_packets(first, max) + second,
            max,
        ),
        packets_of(behind_packets(first, max), max) == Seq::<PacketView>::empty(),
    decreases first.len(),
{
    reveal(packets_of);
    reveal(behind_packets);
    if let Frame::Complete(packet, len) = frame_of(first, max) {
        header_len_bounds(first);
        frame_is_final(first, second, max);
        let rest = first.skip(len);
        assert((first + second).skip(len) =~= rest + second);
        packets_join(rest, second, max);
        assert(seq![packet] + (packets_of(rest, max) + packets_of(
            behind_packets(rest, max) + second,
            max,
        )) =~= seq![packet] + packets_of(rest, max) + packets_of(
            behind_packets(rest, max) + second,
            max,
        ));
    } else {
        assert(packets_of(first, max) + packets_of(first + second, max) =~= packets_of(
            first + second,
            max,
        ));
    }
}

proof fn draining_takes_packets(reader: FrameReaderView)
    requires
        reader.overflow is None,
    ensures
        reader.drained().1 == packets_of(reader.buf, reader.max),
        reader.drained().0.buf == behind_packets(reader.buf, reader.max),
        reader.drained().0.max == reader.max,
        reader.drained().0.overflow is None,
    decreases reader.buf.len(),
{
    reveal(packets_of);
    reveal(behind_packets);
    if let Ok(Some(_)) = reader.next_packet() {
        header_len_bounds(reader.buf);
        draining_takes_packets(reader.after_next());
    }
}

/// However a stream is cut into pieces, the packets in it are read in order, each once and
/// as it stands there, and what is left stays for the next piece.
pub proof fn pieces_are_read_in_order(reader: FrameReaderView, pieces: Seq<Seq<u8>>)
    requires
        reader.overflow is None,
        packets_of(reader.buf, reader.max).len() == 0,
        reader.has_room_for(pieces),
    ensures
        reader.read_pieces(pieces).1 == packets_of(reader.buf + pieces.flatten(), reader.max),
        behind_packets(reader.read_pieces(pieces).0.buf, reader.max) == behind_packets(
            reader.buf + pieces.flatten(),
            reader.max,
        ),
    decreases pieces.len(),
{
    let max = reader.max;
    if pieces.len() == 0 {
        assert(reader.buf + pieces.flatten() =~= reader.buf);
        assert(packets_of(reader.buf, max) =~= Seq::empty());
    } else {
        let rest = pieces.drop_first();
        let held = reader.buf + pieces[0];
        let next = reader.pushed(pieces[0]);
        draining_takes_packets(next);
        packets_join(held, rest.flatten(), max);
        assert(held + rest.flatten() =~= reader.buf + pieces.flatten());
        pieces_are_read_in_order(next.drained().0, rest);
    }
}

} // verus!
