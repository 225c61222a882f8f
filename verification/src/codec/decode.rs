//! Reading MQTT wire values from a byte slice.
use vstd::prelude::*;
use vstd::slice::slice_to_vec;
use vstd::utf8::{decode_utf8, encode_utf8, valid_utf8};

use crate::codec::encode::{
    encoded_binary, encoded_fixed_header, encoded_string, framed, type_byte, u16_bytes, u32_bytes,
    variable_int_bytes, VARIABLE_INT_MAX,
};
use crate::codec::types::{packet_type_of, FixedHeader, PacketType};
use crate::error::{Error, Result};
use crate::text::contains_char;

verus! {

/// The error for data that ends inside a value.
pub open spec fn end_of_data() -> Error {
    Error::MalformedPacket("unexpected end of data")
}

/// The byte at `pos`, and the position behind it.
pub open spec fn take_u8(buf: Seq<u8>, pos: int) -> (Result<u8>, int) {
    if pos + 1 <= buf.len() {
        (Ok(buf[pos]), pos + 1)
    } else {
        (Err(end_of_data()), pos)
    }
}

/// The 16-bit integer at `pos`, and the position behind it.
pub open spec fn take_u16(buf: Seq<u8>, pos: int) -> (Result<u16>, int) {
    if pos + 2 <= buf.len() {
        (Ok((buf[pos] * 256 + buf[pos + 1]) as u16), pos + 2)
    } else {
        (Err(end_of_data()), pos)
    }
}

/// The 32-bit integer at `pos`, and the position behind it.
pub open spec fn take_u32(buf: Seq<u8>, pos: int) -> (Result<u32>, int) {
    if pos + 4 <= buf.len() {
        (
            Ok(
                (buf[pos] * 0x100_0000 + buf[pos + 1] * 0x1_0000 + buf[pos + 2] * 0x100 + buf[pos
                    + 3]) as u32,
            ),
            pos + 4,
        )
    } else {
        (Err(end_of_data()), pos)
    }
}

/// The `n` bytes at `pos`, and the position behind them.
pub open spec fn take_bytes(buf: Seq<u8>, pos: int, n: int) -> (Result<Seq<u8>>, int) {
    if pos + n <= buf.len() {
        (Ok(buf.subrange(pos, pos + n)), pos + n)
    } else {
        (Err(end_of_data()), pos)
    }
}

/// The variable-length integer at `pos` in at most `left` groups of seven bits, and the
/// position behind the last byte read.
pub open spec fn take_groups(buf: Seq<u8>, pos: int, left: nat) -> (Result<nat>, int)
    decreases left,
{
    if pos + 1 > buf.len() {
        (Err(end_of_data()), pos)
    } else if buf[pos] < 128 {
        (Ok(buf[pos] as nat), pos + 1)
    } else if left <= 1 {
        (Err(Error::MalformedPacket("variable int too long")), pos + 1)
    } else {
        match take_groups(buf, pos + 1, (left - 1) as nat) {
            (Ok(high), end) => (Ok((buf[pos] - 128 + 128 * high) as nat), end),
            (Err(e), end) => (Err(e), end),
        }
    }
}

/// The variable-length integer at `pos`, and the position behind the last byte read.
pub open spec fn take_variable_int(buf: Seq<u8>, pos: int) -> (Result<u32>, int) {
    match take_groups(buf, pos, 4) {
        (Ok(v), end) => (Ok(v as u32), end),
        (Err(e), end) => (Err(e), end),
    }
}

/// The length-prefixed bytes at `pos`, and the position behind what was read.
pub open spec fn take_binary(buf: Seq<u8>, pos: int) -> (Result<Seq<u8>>, int) {
    match take_u16(buf, pos) {
        (Ok(len), start) => take_bytes(buf, start, len as int),
        (Err(e), end) => (Err(e), end),
    }
}

/// The length-prefixed UTF-8 string at `pos`, and the position behind what was read.
pub open spec fn take_string(buf: Seq<u8>, pos: int) -> (Result<Seq<char>>, int) {
    match take_binary(buf, pos) {
        (Ok(bytes), end) => if !valid_utf8(bytes) {
            (Err(Error::MalformedPacket("invalid UTF-8")), end)
        } else if decode_utf8(bytes).contains('\0') {
            (Err(Error::MalformedPacket("string contains a NUL character")), end)
        } else {
            (Ok(decode_utf8(bytes)), end)
        },
        (Err(e), end) => (Err(e), end),
    }
}

/// Lightweight cursor over a byte slice for sequential decoding.
pub struct Cursor<'a> {
    buf: &'a [u8],
    pos: usize,
}

/// Convert bytes to a string with [`String::from_utf8`], which succeeds on valid UTF-8
/// and only there, and then holds the characters that the bytes encode.
#[verifier::external_body]
fn string_from_utf8(bytes: Vec<u8>) -> (r: Option<String>)
    ensures
        r is Some <==> valid_utf8(bytes@),
        r matches Some(s) ==> s@ == decode_utf8(bytes@),
{
    String::from_utf8(bytes).ok()
}

impl<'a> Cursor<'a> {
    #[verifier::type_invariant]
    spec fn in_bounds(self) -> bool {
        self.pos <= self.buf@.len()
    }

    /// All the bytes that the cursor walks over.
    pub closed spec fn bytes(&self) -> Seq<u8> {
        self.buf@
    }

    /// Where the next value starts.
    pub closed spec fn at(&self) -> int {
        self.pos as int
    }

    /// The same bytes, at the position that a reader ends on.
    pub open spec fn moved(&self, before: &Self, end: int) -> bool {
        &&& self.bytes() == before.bytes()
        &&& self.at() == end
        &&& 0 <= end <= self.bytes().len() <= usize::MAX
    }

    pub fn new(buf: &'a [u8]) -> (r: Self)
        ensures
            r.bytes() == buf@,
            r.at() == 0,
    {
        Self { buf, pos: 0 }
    }

    pub fn position(&self) -> (r: usize)
        ensures
            r == self.at(),
            r <= self.bytes().len(),
    {
        proof {
            use_type_invariant(self);
        }
        self.pos
    }

    pub fn remaining(&self) -> (r: usize)
        ensures
            r == self.bytes().len() - self.at(),
            0 <= self.at() <= self.bytes().len() <= usize::MAX,
    {
        proof {
            use_type_invariant(self);
        }
        self.buf.len() - self.pos
    }

    pub fn remaining_bytes(&self) -> (r: &'a [u8])
        ensures
            r@ == self.bytes().skip(self.at()),
            0 <= self.at() <= self.bytes().len(),
    {
        proof {
            use_type_invariant(self);
        }
        let r = vstd::slice::slice_subrange(self.buf, self.pos, self.buf.len());
        assert(r@ =~= self.buf@.skip(self.pos as int));
        r
    }

    fn ensure(&self, n: usize) -> (r: Result<()>)
        ensures
            r == (if self.at() + n <= self.bytes().len() {
                Ok(())
            } else {
                Err(end_of_data())
            }),
            0 <= self.at() <= self.bytes().len() <= usize::MAX,
    {
        if self.remaining() < n {
            Err(Error::MalformedPacket("unexpected end of data"))
        } else {
            Ok(())
        }
    }

    pub fn read_u8(&mut self) -> (r: Result<u8>)
        ensures
            r == take_u8(old(self).bytes(), old(self).at()).0,
            final(self).moved(old(self), take_u8(old(self).bytes(), old(self).at()).1),
    {
        proof {
            use_type_invariant(&*self);
        }
        self.ensure(1)?;
        let val: u8 = self.buf[self.pos];
        self.pos += 1;
        Ok(val)
    }

    pub fn read_u16(&mut self) -> (r: Result<u16>)
        ensures
            r == take_u16(old(self).bytes(), old(self).at()).0,
            final(self).moved(old(self), take_u16(old(self).bytes(), old(self).at()).1),
    {
        proof {
            use_type_invariant(&*self);
        }
        self.ensure(2)?;
        let val: u16 = self.buf[self.pos] as u16 * 256 + self.buf[self.pos + 1] as u16;
        self.pos += 2;
        Ok(val)
    }

    pub fn read_u32(&mut self) -> (r: Result<u32>)
        ensures
            r == take_u32(old(self).bytes(), old(self).at()).0,
            final(self).moved(old(self), take_u32(old(self).bytes(), old(self).at()).1),
    {
        proof {
            use_type_invariant(&*self);
        }
        self.ensure(4)?;
        let val: u32 = self.buf[self.pos] as u32 * 0x100_0000 + self.buf[self.pos + 1] as u32
            * 0x1_0000 + self.buf[self.pos + 2] as u32 * 0x100 + self.buf[self.pos + 3] as u32;
        self.pos += 4;
        Ok(val)
    }

    pub fn read_bytes(&mut self, n: usize) -> (r: Result<&'a [u8]>)
        ensures
            match take_bytes(old(self).bytes(), old(self).at(), n as int).0 {
                Ok(bytes) => r matches Ok(slice) && slice@ == bytes,
                Err(e) => r == Err::<&'a [u8], _>(e),
            },
            final(self).moved(old(self), take_bytes(old(self).bytes(), old(self).at(), n as int).1),
    {
        proof {
            use_type_invariant(&*self);
        }
        self.ensure(n)?;
        let slice = vstd::slice::slice_subrange(self.buf, self.pos, self.pos + n);
        self.pos += n;
        Ok(slice)
    }

    fn read_groups(&mut self, left: u8) -> (r: Result<u32>)
        requires
            1 <= left <= 4,
        ensures
            match take_groups(old(self).bytes(), old(self).at(), left as nat).0 {
                Ok(v) => r == Ok::<u32, Error>(v as u32) && v < groups_bound(left as nat),
                Err(e) => r == Err::<u32, _>(e),
            },
            final(self).moved(
                old(self),
                take_groups(old(self).bytes(), old(self).at(), left as nat).1,
            ),
        decreases left,
    {
        proof {
            reveal_with_fuel(groups_bound, 5);
        }
        let byte: u8 = self.read_u8()?;
        if byte < 128 {
            return Ok(byte as u32);
        }
        if left == 1 {
            return Err(Error::MalformedPacket("variable int too long"));
        }
        let high: u32 = self.read_groups(left - 1)?;
        Ok(byte as u32 - 128 + 128 * high)
    }

    /// Decode a variable-length integer (1-4 bytes).
    pub fn read_variable_int(&mut self) -> (r: Result<u32>)
        ensures
            r == take_variable_int(old(self).bytes(), old(self).at()).0,
            final(self).moved(old(self), take_variable_int(old(self).bytes(), old(self).at()).1),
            r matches Ok(v) ==> v <= VARIABLE_INT_MAX,
    {
        proof {
            reveal_with_fuel(groups_bound, 5);
        }
        self.read_groups(4)
    }

    /// Decode a length-prefixed UTF-8 string.
    pub fn read_string(&mut self) -> (r: Result<String>)
        ensures
            match take_string(old(self).bytes(), old(self).at()).0 {
                Ok(s) => r matches Ok(string) && string@ == s,
                Err(e) => r == Err::<String, _>(e),
            },
            final(self).moved(old(self), take_string(old(self).bytes(), old(self).at()).1),
    {
        let bytes = self.read_binary()?;
        match string_from_utf8(bytes) {
            Some(string) => {
                if contains_char(string.as_str(), '\0') {
                    return Err(Error::MalformedPacket("string contains a NUL character"));
                }
                Ok(string)
            },
            None => Err(Error::MalformedPacket("invalid UTF-8")),
        }
    }

    /// Decode length-prefixed binary data.
    pub fn read_binary(&mut self) -> (r: Result<Vec<u8>>)
        ensures
            match take_binary(old(self).bytes(), old(self).at()).0 {
                Ok(bytes) => r matches Ok(data) && data@ == bytes,
                Err(e) => r == Err::<Vec<u8>, _>(e),
            },
            final(self).moved(old(self), take_binary(old(self).bytes(), old(self).at()).1),
    {
        let len: usize = self.read_u16()? as usize;
        let bytes = self.read_bytes(len)?;
        Ok(slice_to_vec(bytes))
    }
}

/// One more than the largest integer of `left` groups of seven bits.
pub open spec fn groups_bound(left: nat) -> nat
    decreases left,
{
    if left == 0 {
        1
    } else {
        128 * groups_bound((left - 1) as nat)
    }
}

/// The fixed header at the start of `data` and its length, or what is wrong with it.
pub open spec fn fixed_header_of(data: Seq<u8>) -> Result<(FixedHeader, int)> {
    match take_u8(data, 0) {
        (Err(e), _) => Err(e),
        (Ok(first), _) => match packet_type_of((first / 16) as u8) {
            Err(e) => Err(e),
            Ok(packet_type) => match take_variable_int(data, 1) {
                (Err(e), _) => Err(e),
                (Ok(remaining_length), end) => Ok(
                    (
                        FixedHeader {
                            packet_type,
                            flags: (first % 16) as u8,
                            remaining_length,
                        },
                        end,
                    ),
                ),
            },
        },
    }
}

/// Decode a fixed header from raw bytes. Returns the header and total bytes consumed.
pub fn decode_fixed_header(data: &[u8]) -> (r: Result<(FixedHeader, usize)>)
    ensures
        match fixed_header_of(data@) {
            Ok((header, len)) => r matches Ok((h, n)) && h == header && n == len && n <= data@.len()
                && 2 <= n <= 5 && h.remaining_length <= VARIABLE_INT_MAX && h.flags <= 15,
            Err(e) => r == Err::<(FixedHeader, usize), _>(e),
        },
{
    let mut cur = Cursor::new(data);
    let first_byte: u8 = cur.read_u8()?;
    let packet_type = PacketType::from_u8(first_byte / 16)?;
    let flags: u8 = first_byte % 16;
    let remaining_length: u32 = cur.read_variable_int()?;
    proof {
        reveal_with_fuel(take_groups, 5);
    }
    Ok((FixedHeader { packet_type, flags, remaining_length }, cur.position()))
}

/// Whether the header's flag bits are those that its packet type prescribes. A PUBLISH
/// packet carries its delivery options there.
pub open spec fn flags_allowed(header: FixedHeader) -> bool {
    match header.packet_type {
        PacketType::Publish => true,
        PacketType::PubRel | PacketType::Subscribe | PacketType::Unsubscribe => header.flags == 2,
        _ => header.flags == 0,
    }
}

/// Reject a fixed header whose flag bits are reserved for its packet type.
pub fn validate_fixed_header(header: FixedHeader) -> (r: Result<()>)
    ensures
        r == (if flags_allowed(header) {
            Ok(())
        } else {
            Err(Error::MalformedPacket("invalid fixed-header flags"))
        }),
{
    let allowed = match header.packet_type {
        PacketType::Publish => true,
        PacketType::PubRel | PacketType::Subscribe | PacketType::Unsubscribe => header.flags == 2,
        _ => header.flags == 0,
    };
    if allowed {
        Ok(())
    } else {
        Err(Error::MalformedPacket("invalid fixed-header flags"))
    }
}

/// Whether `bytes` stand in `buf` at `pos`.
pub open spec fn stands_at(buf: Seq<u8>, pos: int, bytes: Seq<u8>) -> bool {
    &&& 0 <= pos
    &&& pos + bytes.len() <= buf.len()
    &&& buf.subrange(pos, pos + bytes.len()) == bytes
}

/// Two byte strings that stand one behind the other each stand in the buffer.
pub proof fn stands_at_split(buf: Seq<u8>, pos: int, first: Seq<u8>, second: Seq<u8>)
    ensures
        stands_at(buf, pos, first + second) <==> (stands_at(buf, pos, first) && stands_at(
            buf,
            pos + first.len(),
            second,
        )),
{
    if stands_at(buf, pos, first + second) {
        let both = buf.subrange(pos, pos + first.len() + second.len());
        assert(both == first + second);
        assert(both.subrange(0, first.len() as int) =~= first);
        assert(both.subrange(first.len() as int, both.len() as int) =~= second);
        assert(buf.subrange(pos, pos + first.len()) =~= both.subrange(0, first.len() as int));
        assert(buf.subrange(pos + first.len(), pos + first.len() + second.len()) =~= both.subrange(
            first.len() as int,
            both.len() as int,
        ));
    }
    if stands_at(buf, pos, first) && stands_at(buf, pos + first.len(), second) {
        let both = buf.subrange(pos, pos + first.len() + second.len());
        assert forall|i: int| 0 <= i < both.len() implies both[i] == (first + second)[i] by {
            if i < first.len() {
                assert(buf.subrange(pos, pos + first.len())[i] == first[i]);
            } else {
                let j = i - first.len();
                assert(buf.subrange(pos + first.len(), pos + first.len() + second.len())[j]
                    == second[j]);
            }
        }
        assert(both =~= first + second);
    }
}

/// Reading a variable-length integer gives back the integer that was written.
pub proof fn variable_int_round_trip(buf: Seq<u8>, pos: int, v: u32)
    requires
        v <= VARIABLE_INT_MAX,
        stands_at(buf, pos, variable_int_bytes(v as nat)),
    ensures
        take_variable_int(buf, pos) == (
            Ok::<u32, Error>(v),
            pos + variable_int_bytes(v as nat).len(),
        ),
{
    reveal_with_fuel(groups_bound, 5);
    groups_round_trip(buf, pos, v as nat, 4);
}

proof fn groups_round_trip(buf: Seq<u8>, pos: int, v: nat, left: nat)
    requires
        left >= 1,
        v < groups_bound(left),
        stands_at(buf, pos, variable_int_bytes(v)),
    ensures
        take_groups(buf, pos, left) == (Ok::<nat, Error>(v), pos + variable_int_bytes(v).len()),
    decreases left,
{
    let bytes = variable_int_bytes(v);
    assert(buf.subrange(pos, pos + bytes.len())[0] == bytes[0]);
    if v >= 128 {
        assert(groups_bound(left) == 128 * groups_bound((left - 1) as nat));
        if left == 1 {
            assert(groups_bound(0) == 1);
        }
        stands_at_split(buf, pos, seq![(v % 128 + 128) as u8], variable_int_bytes(v / 128));
        assert(bytes =~= seq![(v % 128 + 128) as u8] + variable_int_bytes(v / 128));
        groups_round_trip(buf, pos + 1, v / 128, (left - 1) as nat);
    }
}

/// Reading a 16-bit integer gives back the integer that was written.
pub proof fn u16_round_trip(buf: Seq<u8>, pos: int, v: u16)
    requires
        stands_at(buf, pos, u16_bytes(v)),
    ensures
        take_u16(buf, pos) == (Ok::<u16, Error>(v), pos + 2),
{
    let bytes = buf.subrange(pos, pos + 2);
    assert(bytes[0] == u16_bytes(v)[0]);
    assert(bytes[1] == u16_bytes(v)[1]);
}

/// Reading a 32-bit integer gives back the integer that was written.
pub proof fn u32_round_trip(buf: Seq<u8>, pos: int, v: u32)
    requires
        stands_at(buf, pos, u32_bytes(v)),
    ensures
        take_u32(buf, pos) == (Ok::<u32, Error>(v), pos + 4),
{
    let bytes = buf.subrange(pos, pos + 4);
    assert(bytes[0] == u32_bytes(v)[0]);
    assert(bytes[1] == u32_bytes(v)[1]);
    assert(bytes[2] == u32_bytes(v)[2]);
    assert(bytes[3] == u32_bytes(v)[3]);
}

/// Reading binary data gives back the data that was written.
pub proof fn binary_round_trip(buf: Seq<u8>, pos: int, data: Seq<u8>)
    requires
        encoded_binary(data) matches Ok(bytes) && stands_at(buf, pos, bytes),
    ensures
        take_binary(buf, pos) == (Ok::<Seq<u8>, Error>(data), pos + 2 + data.len()),
{
    stands_at_split(buf, pos, u16_bytes(data.len() as u16), data);
    u16_round_trip(buf, pos, data.len() as u16);
}

/// Reading a string gives back the string that was written.
pub proof fn string_round_trip(buf: Seq<u8>, pos: int, s: Seq<char>)
    requires
        encoded_string(s) matches Ok(bytes) && stands_at(buf, pos, bytes),
    ensures
        take_string(buf, pos) == (Ok::<Seq<char>, Error>(s), pos + 2 + encode_utf8(s).len()),
{
    vstd::utf8::encode_utf8_valid_utf8(s);
    vstd::utf8::encode_utf8_decode_utf8(s);
    binary_round_trip(buf, pos, encode_utf8(s));
}

/// Reading a fixed header gives back the header that was written, whatever follows it.
pub proof fn fixed_header_round_trip(header: FixedHeader, rest: Seq<u8>)
    requires
        header.flags <= 15,
        header.remaining_length <= VARIABLE_INT_MAX,
    ensures
        encoded_fixed_header(header.packet_type, header.flags, header.remaining_length) matches Ok(
            bytes,
        ) && fixed_header_of(bytes + rest) == Ok::<(FixedHeader, int), Error>(
            (header, bytes.len() as int),
        ),
{
    let length = variable_int_bytes(header.remaining_length as nat);
    let bytes = seq![type_byte(header.packet_type, header.flags)] + length;
    assert((bytes + rest).subrange(1, length.len() + 1int) =~= length);
    variable_int_round_trip(bytes + rest, 1, header.remaining_length);
    assert((bytes + rest)[0] == type_byte(header.packet_type, header.flags));
}

/// Reading the fixed header of a packet gives back its type and flags, and splits the
/// packet's body from whatever follows it.
pub proof fn framed_round_trip(packet_type: PacketType, flags: u8, body: Seq<u8>, rest: Seq<u8>)
    requires
        flags <= 15,
        framed(packet_type, flags, body) is Ok,
    ensures
        framed(packet_type, flags, body) matches Ok(packet) && fixed_header_of(packet + rest)
            == Ok::<(FixedHeader, int), Error>(
            (
                FixedHeader { packet_type, flags, remaining_length: body.len() as u32 },
                packet.len() - body.len(),
            ),
        ) && (packet + rest).subrange(packet.len() - body.len(), packet.len() as int) == body,
{
    let header = FixedHeader { packet_type, flags, remaining_length: body.len() as u32 };
    fixed_header_round_trip(header, body + rest);
    let front = encoded_fixed_header(packet_type, flags, body.len() as u32)->Ok_0;
    let packet = front + body;
    assert(front + (body + rest) =~= packet + rest);
    assert((packet + rest).subrange(packet.len() - body.len(), packet.len() as int) =~= body);
}

} // verus!
