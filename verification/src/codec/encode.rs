//! Writing MQTT wire values at the end of a buffer.
use vstd::prelude::*;
use vstd::utf8::encode_utf8;

use crate::codec::types::PacketType;
use crate::error::{Error, Result};
use crate::text::contains_char;

verus! {

/// Maximum value for an MQTT variable-length integer.
pub const VARIABLE_INT_MAX: u32 = 268_435_455;

/// Maximum byte length of a string or of binary data on the wire.
pub const FIELD_MAX: usize = 65_535;

/// A 16-bit integer on the wire: two bytes, most significant first.
pub open spec fn u16_bytes(v: u16) -> Seq<u8> {
    seq![(v / 256) as u8, (v % 256) as u8]
}

/// A 32-bit integer on the wire: four bytes, most significant first.
pub open spec fn u32_bytes(v: u32) -> Seq<u8> {
    u16_bytes((v / 65536) as u16) + u16_bytes((v % 65536) as u16)
}

/// A variable-length integer on the wire: groups of seven bits, least significant
/// first; a byte of 128 or more says that another group follows.
pub open spec fn variable_int_bytes(v: nat) -> Seq<u8>
    decreases v,
{
    if v < 128 {
        seq![v as u8]
    } else {
        seq![(v % 128 + 128) as u8] + variable_int_bytes(v / 128)
    }
}

/// The variable-length integer `v`, or the error for one that is too large.
pub open spec fn encoded_variable_int(v: u32) -> Result<Seq<u8>> {
    if v > VARIABLE_INT_MAX {
        Err(Error::PacketTooLarge { size: v as usize, max: VARIABLE_INT_MAX as usize })
    } else {
        Ok(variable_int_bytes(v as nat))
    }
}

/// The length of `len` bytes that follow, or the error for more than a packet can hold.
pub open spec fn encoded_length(len: nat) -> Result<Seq<u8>> {
    if len > VARIABLE_INT_MAX {
        Err(Error::PacketTooLarge { size: len as usize, max: VARIABLE_INT_MAX as usize })
    } else {
        Ok(variable_int_bytes(len))
    }
}

/// Bytes behind a two-byte length.
pub open spec fn prefixed(bytes: Seq<u8>) -> Seq<u8> {
    u16_bytes(bytes.len() as u16) + bytes
}

/// The UTF-8 string `s` behind its byte length, or the error for a string that is
/// too long or that holds the NUL character.
pub open spec fn encoded_string(s: Seq<char>) -> Result<Seq<u8>> {
    if encode_utf8(s).len() > FIELD_MAX {
        Err(Error::StringTooLong(encode_utf8(s).len() as usize))
    } else if s.contains('\0') {
        Err(Error::MalformedPacket("string contains a NUL character"))
    } else {
        Ok(prefixed(encode_utf8(s)))
    }
}

/// `data` behind its length, or the error for data that is too long.
pub open spec fn encoded_binary(data: Seq<u8>) -> Result<Seq<u8>> {
    if data.len() > FIELD_MAX {
        Err(Error::StringTooLong(data.len() as usize))
    } else {
        Ok(prefixed(data))
    }
}

/// The first byte of a packet: its type and its four flag bits.
pub open spec fn type_byte(packet_type: PacketType, flags: u8) -> u8 {
    (packet_type.spec_code() * 16 + flags % 16) as u8
}

/// The fixed header of a packet with `remaining_length` bytes behind it.
pub open spec fn encoded_fixed_header(
    packet_type: PacketType,
    flags: u8,
    remaining_length: u32,
) -> Result<Seq<u8>> {
    match encoded_variable_int(remaining_length) {
        Ok(length) => Ok(seq![type_byte(packet_type, flags)] + length),
        Err(e) => Err(e),
    }
}

/// A whole packet: the fixed header, then the body.
pub open spec fn framed(packet_type: PacketType, flags: u8, body: Seq<u8>) -> Result<Seq<u8>> {
    match encoded_length(body.len()) {
        Ok(length) => Ok(seq![type_byte(packet_type, flags)] + length + body),
        Err(e) => Err(e),
    }
}

/// One byte string behind the other, or the first error.
pub open spec fn both(first: Result<Seq<u8>>, second: Result<Seq<u8>>) -> Result<Seq<u8>> {
    match (first, second) {
        (Err(e), _) => Err(e),
        (_, Err(e)) => Err(e),
        (Ok(a), Ok(b)) => Ok(a + b),
    }
}

/// What a function that builds a packet returns: the packet's bytes, or the error.
pub open spec fn gives(r: Result<Vec<u8>>, bytes: Result<Seq<u8>>) -> bool {
    match bytes {
        Ok(b) => r matches Ok(packet) && packet@ == b,
        Err(e) => r == Err::<Vec<u8>, _>(e),
    }
}

/// What a writer leaves in its buffer: on success `bytes` behind what was there, on
/// failure the buffer as it was.
pub open spec fn appends(before: Seq<u8>, after: Seq<u8>, r: Result<()>, bytes: Result<Seq<u8>>) -> bool {
    match bytes {
        Ok(b) => r is Ok && after == before + b,
        Err(e) => r == Err::<(), _>(e) && after == before,
    }
}

/// Encode a variable-length integer.
pub fn encode_variable_int(buf: &mut Vec<u8>, value: u32) -> (r: Result<()>)
    ensures
        appends(old(buf)@, final(buf)@, r, encoded_variable_int(value)),
{
    if value > VARIABLE_INT_MAX {
        return Err(Error::PacketTooLarge { size: value as usize, max: VARIABLE_INT_MAX as usize });
    }
    let ghost start = buf@;
    let mut rest: u32 = value;
    while rest >= 128
        invariant
            buf@ + variable_int_bytes(rest as nat) == start + variable_int_bytes(value as nat),
        decreases rest,
    {
        let ghost before = buf@;
        let byte: u8 = (rest % 128 + 128) as u8;
        buf.push(byte);
        assert(buf@ + variable_int_bytes((rest / 128) as nat) =~= before + variable_int_bytes(
            rest as nat,
        ));
        rest = rest / 128;
    }
    buf.push(rest as u8);
    assert(buf@ =~= start + variable_int_bytes(value as nat));
    Ok(())
}

/// Encode the length of what follows, unless it is more than a packet can hold.
pub fn encode_length(buf: &mut Vec<u8>, len: usize) -> (r: Result<()>)
    ensures
        appends(old(buf)@, final(buf)@, r, encoded_length(len as nat)),
{
    if len > VARIABLE_INT_MAX as usize {
        return Err(Error::PacketTooLarge { size: len, max: VARIABLE_INT_MAX as usize });
    }
    encode_variable_int(buf, len as u32)
}

/// Byte length of a variable-length integer encoding.
pub fn variable_int_len(value: u32) -> (r: usize)
    ensures
        r == (if value <= 127 {
            1
        } else if value <= 16_383 {
            2
        } else if value <= 2_097_151 {
            3
        } else {
            4int
        }),
        value <= VARIABLE_INT_MAX ==> r == variable_int_bytes(value as nat).len(),
{
    proof {
        variable_int_bytes_len(value as nat);
    }
    match value {
        0..=127 => 1,
        128..=16_383 => 2,
        16_384..=2_097_151 => 3,
        _ => 4,
    }
}

/// The number of bytes that a variable-length integer takes.
pub proof fn variable_int_bytes_len(v: nat)
    ensures
        v <= 127 ==> variable_int_bytes(v).len() == 1,
        127 < v <= 16_383 ==> variable_int_bytes(v).len() == 2,
        16_383 < v <= 2_097_151 ==> variable_int_bytes(v).len() == 3,
        2_097_151 < v <= VARIABLE_INT_MAX ==> variable_int_bytes(v).len() == 4,
{
    reveal_with_fuel(variable_int_bytes, 4);
}

/// Encode a UTF-8 string with a 2-byte length prefix.
pub fn encode_string(buf: &mut Vec<u8>, s: &str) -> (r: Result<()>)
    ensures
        appends(old(buf)@, final(buf)@, r, encoded_string(s@)),
{
    let bytes = s.as_bytes();
    let len: usize = bytes.len();
    if len > FIELD_MAX {
        return Err(Error::StringTooLong(len));
    }
    if contains_char(s, '\0') {
        return Err(Error::MalformedPacket("string contains a NUL character"));
    }
    encode_u16(buf, len as u16);
    buf.extend_from_slice(bytes);
    assert(buf@ =~= old(buf)@ + prefixed(bytes@));
    Ok(())
}

/// Encode binary data with a 2-byte length prefix.
pub fn encode_binary(buf: &mut Vec<u8>, data: &[u8]) -> (r: Result<()>)
    ensures
        appends(old(buf)@, final(buf)@, r, encoded_binary(data@)),
{
    let len: usize = data.len();
    if len > FIELD_MAX {
        return Err(Error::StringTooLong(len));
    }
    encode_u16(buf, len as u16);
    buf.extend_from_slice(data);
    assert(buf@ =~= old(buf)@ + prefixed(data@));
    Ok(())
}

/// Encode a u16 in big-endian.
pub fn encode_u16(buf: &mut Vec<u8>, val: u16)
    ensures
        final(buf)@ == old(buf)@ + u16_bytes(val),
{
    buf.push((val / 256) as u8);
    buf.push((val % 256) as u8);
    assert(buf@ =~= old(buf)@ + u16_bytes(val));
}

/// Encode a u32 in big-endian.
pub fn encode_u32(buf: &mut Vec<u8>, val: u32)
    ensures
        final(buf)@ == old(buf)@ + u32_bytes(val),
{
    encode_u16(buf, (val / 65536) as u16);
    encode_u16(buf, (val % 65536) as u16);
    assert(buf@ =~= old(buf)@ + u32_bytes(val));
}

/// Encode the fixed header: type+flags byte, then remaining length.
///
/// A remaining length that is too large leaves the first byte behind.
pub fn encode_fixed_header(
    buf: &mut Vec<u8>,
    packet_type: PacketType,
    flags: u8,
    remaining_length: u32,
) -> (r: Result<()>)
    ensures
        appends(
            old(buf)@.push(type_byte(packet_type, flags)),
            final(buf)@,
            r,
            encoded_variable_int(remaining_length),
        ),
{
    buf.push(packet_type.code() * 16 + flags % 16);
    encode_variable_int(buf, remaining_length)
}

/// Put the fixed header in front of a packet's body.
pub fn frame_packet(packet_type: PacketType, flags: u8, body: &Vec<u8>) -> (r: Result<Vec<u8>>)
    ensures
        gives(r, framed(packet_type, flags, body@)),
{
    let mut packet: Vec<u8> = Vec::new();
    if body.len() > VARIABLE_INT_MAX as usize {
        return Err(Error::PacketTooLarge { size: body.len(), max: VARIABLE_INT_MAX as usize });
    }
    encode_fixed_header(&mut packet, packet_type, flags, body.len() as u32)?;
    packet.extend_from_slice(body);
    assert(packet@ =~= framed(packet_type, flags, body@)->Ok_0);
    Ok(packet)
}

/// Encoded byte length of an MQTT string (2 + len).
pub fn string_len(s: &str) -> (r: usize)
    requires
        encode_utf8(s@).len() + 2 <= usize::MAX,
    ensures
        r == 2 + encode_utf8(s@).len(),
        encoded_string(s@) matches Ok(bytes) ==> r == bytes.len(),
{
    2 + s.as_bytes().len()
}

/// Encoded byte length of binary data (2 + len).
pub fn binary_len(data: &[u8]) -> (r: usize)
    requires
        data@.len() + 2 <= usize::MAX,
    ensures
        r == 2 + data@.len(),
        encoded_binary(data@) matches Ok(bytes) ==> r == bytes.len(),
{
    2 + data.len()
}

} // verus!
