//! SUBSCRIBE, SUBACK, UNSUBSCRIBE and UNSUBACK packets.
use vstd::prelude::*;
use vstd::slice::slice_to_vec;

use crate::codec::decode::{take_u16, Cursor};
use crate::codec::encode::{
    both, encode_string, encode_u16, encoded_string, frame_packet, framed, gives, u16_bytes,
};
use crate::codec::properties::{
    encoded_properties, take_properties, Entry, Properties, PropertyContext,
};
use crate::codec::topic::{topic_filter_check, validate_topic_filter};
use crate::codec::types::{
    AckCodesView, PacketType, QoS, SubAckPacket, SubscribePacket, SubscribePacketView,
    UnsubAckPacket, UnsubscribePacket, UnsubscribePacketView,
};
use crate::error::{Error, Result};

verus! {

/// What is wrong with the answer to one requested subscription, if anything: a refusal,
/// or a QoS level that is not supported or was not asked for.
pub open spec fn granted_check(granted: u8, requested: QoS) -> Result<()> {
    if granted >= 0x80 {
        Err(Error::AckRejected { packet: "SUBACK", reason_code: granted })
    } else if granted == 2 || granted > requested.spec_code() {
        Err(Error::MalformedPacket("SUBACK granted unsupported or unrequested QoS"))
    } else {
        Ok(())
    }
}

/// The first thing that is wrong with the answers from the one at `i` on.
pub open spec fn granted_from(codes: Seq<u8>, requested: Seq<QoS>, i: int) -> Result<()>
    decreases codes.len() - i,
{
    if i < 0 || i >= codes.len() {
        Ok(())
    } else if granted_check(codes[i], requested[i]) is Err {
        granted_check(codes[i], requested[i])
    } else {
        granted_from(codes, requested, i + 1)
    }
}

/// What is wrong with the answers to the requested subscriptions, if anything.
pub open spec fn suback_check(codes: Seq<u8>, requested: Seq<QoS>) -> Result<()> {
    if codes.len() != requested.len() {
        Err(Error::MalformedPacket("ack reason code count mismatch"))
    } else {
        granted_from(codes, requested, 0)
    }
}

proof fn granted_from_is_ok(codes: Seq<u8>, requested: Seq<QoS>, i: int)
    requires
        0 <= i <= codes.len(),
    ensures
        granted_from(codes, requested, i) is Ok <==> forall|j: int|
            i <= j < codes.len() ==> granted_check(#[trigger] codes[j], requested[j]) is Ok,
    decreases codes.len() - i,
{
    if i < codes.len() {
        granted_from_is_ok(codes, requested, i + 1);
    }
}

/// The answers to the requested subscriptions are in order exactly where there is one for
/// each, and none grants more than was asked for.
pub proof fn grants_are_at_most_the_requests(codes: Seq<u8>, requested: Seq<QoS>)
    ensures
        suback_check(codes, requested) is Ok <==> codes.len() == requested.len() && forall|j: int|
            0 <= j < codes.len() ==> #[trigger] codes[j] <= requested[j].spec_code(),
{
    granted_from_is_ok(codes, requested, 0);
    if codes.len() == requested.len() {
        if suback_check(codes, requested) is Ok {
            assert forall|j: int| 0 <= j < codes.len() implies #[trigger] codes[j]
                <= requested[j].spec_code() by {
                assert(granted_check(codes[j], requested[j]) is Ok);
            }
        }
        if forall|j: int| 0 <= j < codes.len() ==> #[trigger] codes[j] <= requested[j].spec_code() {
            assert forall|j: int| 0 <= j < codes.len() implies granted_check(
                #[trigger] codes[j],
                requested[j],
            ) is Ok by {
                assert(codes[j] <= requested[j].spec_code());
            }
        }
    }
}

/// Hold the reason codes of a SUBACK packet against the requested QoS levels.
pub fn validate_suback_codes(reason_codes: &[u8], requested_qos: &[QoS]) -> (r: Result<()>)
    ensures
        r == suback_check(reason_codes@, requested_qos@),
{
    if reason_codes.len() != requested_qos.len() {
        return Err(Error::MalformedPacket("ack reason code count mismatch"));
    }
    let mut i: usize = 0;
    while i < reason_codes.len()
        invariant
            i <= reason_codes.len() == requested_qos.len(),
            granted_from(reason_codes@, requested_qos@, 0) == granted_from(
                reason_codes@,
                requested_qos@,
                i as int,
            ),
        decreases reason_codes.len() - i,
    {
        let granted: u8 = reason_codes[i];
        let requested = requested_qos[i];
        if granted >= 0x80 {
            return Err(Error::AckRejected { packet: "SUBACK", reason_code: granted });
        }
        if granted == 2 || granted > requested.code() {
            return Err(Error::MalformedPacket("SUBACK granted unsupported or unrequested QoS"));
        }
        i += 1;
    }
    Ok(())
}

/// A topic filter on the wire, or what is wrong with it.
pub open spec fn encoded_filter(filter: Seq<char>) -> Result<Seq<u8>> {
    if topic_filter_check(filter) is Err {
        Err(topic_filter_check(filter)->Err_0)
    } else {
        encoded_string(filter)
    }
}

fn encode_filter(body: &mut Vec<u8>, filter: &str) -> (r: Result<()>)
    ensures
        match encoded_filter(filter@) {
            Ok(bytes) => r is Ok && final(body)@ == old(body)@ + bytes,
            Err(e) => r == Err::<(), _>(e),
        },
{
    validate_topic_filter(filter)?;
    encode_string(body, filter)
}

/// The first `n` subscriptions on the wire: each filter, then its QoS byte.
pub open spec fn encoded_subscriptions(filters: Seq<(Seq<char>, QoS)>, n: nat) -> Result<Seq<u8>>
    decreases n,
{
    if n == 0 {
        Ok(Seq::empty())
    } else {
        both(
            encoded_subscriptions(filters, (n - 1) as nat),
            both(encoded_filter(filters[n - 1].0), Ok(seq![filters[n - 1].1.spec_code()])),
        )
    }
}

/// The first `n` filters on the wire.
pub open spec fn encoded_filters(filters: Seq<Seq<char>>, n: nat) -> Result<Seq<u8>>
    decreases n,
{
    if n == 0 {
        Ok(Seq::empty())
    } else {
        both(encoded_filters(filters, (n - 1) as nat), encoded_filter(filters[n - 1]))
    }
}

/// A packet identifier and properties on the wire.
pub open spec fn id_and_properties(
    packet_id: u16,
    properties: Seq<Entry>,
    context: PropertyContext,
) -> Result<Seq<u8>> {
    both(Ok(u16_bytes(packet_id)), encoded_properties(properties, Some(context)))
}

/// A SUBSCRIBE packet on the wire, or the first thing that is wrong with it.
pub open spec fn encoded_subscribe(p: SubscribePacketView) -> Result<Seq<u8>> {
    if p.packet_id == 0 {
        Err(Error::MalformedPacket("SUBSCRIBE packet identifier is zero"))
    } else if p.filters.len() == 0 {
        Err(Error::MalformedPacket("SUBSCRIBE has no filters"))
    } else {
        match both(
            id_and_properties(p.packet_id, p.properties, PropertyContext::Subscribe),
            encoded_subscriptions(p.filters, p.filters.len()),
        ) {
            Err(e) => Err(e),
            Ok(body) => framed(PacketType::Subscribe, 2, body),
        }
    }
}

/// An UNSUBSCRIBE packet on the wire, or the first thing that is wrong with it.
pub open spec fn encoded_unsubscribe(p: UnsubscribePacketView) -> Result<Seq<u8>> {
    if p.packet_id == 0 {
        Err(Error::MalformedPacket("UNSUBSCRIBE packet identifier is zero"))
    } else if p.filters.len() == 0 {
        Err(Error::MalformedPacket("UNSUBSCRIBE has no filters"))
    } else {
        match both(
            id_and_properties(p.packet_id, p.properties, PropertyContext::Unsubscribe),
            encoded_filters(p.filters, p.filters.len()),
        ) {
            Err(e) => Err(e),
            Ok(body) => framed(PacketType::Unsubscribe, 2, body),
        }
    }
}

proof fn subscriptions_error_is_final(filters: Seq<(Seq<char>, QoS)>, n: nat, m: nat)
    requires
        n <= m,
    ensures
        encoded_subscriptions(filters, n) matches Err(e) ==> encoded_subscriptions(filters, m)
            == Err::<Seq<u8>, _>(e),
    decreases m,
{
    if n < m {
        subscriptions_error_is_final(filters, n, (m - 1) as nat);
    }
}

proof fn filters_error_is_final(filters: Seq<Seq<char>>, n: nat, m: nat)
    requires
        n <= m,
    ensures
        encoded_filters(filters, n) matches Err(e) ==> encoded_filters(filters, m) == Err::<
            Seq<u8>,
            _,
        >(e),
    decreases m,
{
    if n < m {
        filters_error_is_final(filters, n, (m - 1) as nat);
    }
}

impl SubscribePacket {
    pub fn encode(&self) -> (r: Result<Vec<u8>>)
        ensures
            gives(r, encoded_subscribe(self@)),
    {
        if self.packet_id == 0 {
            return Err(Error::MalformedPacket("SUBSCRIBE packet identifier is zero"));
        }
        if self.filters.is_empty() {
            return Err(Error::MalformedPacket("SUBSCRIBE has no filters"));
        }
        let mut body: Vec<u8> = Vec::new();
        // Variable header: packet ID
        encode_u16(&mut body, self.packet_id);
        assert(body@ =~= u16_bytes(self.packet_id));
        // Properties
        self.properties.encode_for(&mut body, PropertyContext::Subscribe)?;
        let ghost front = body@;
        let ghost filters = self@.filters;
        // Payload: topic filter + subscription options (QoS byte)
        let mut i: usize = 0;
        while i < self.filters.len()
            invariant
                i <= self.filters.len(),
                filters == self@.filters,
                self@.packet_id != 0,
                self@.filters.len() > 0,
                id_and_properties(
                    self@.packet_id,
                    self@.properties,
                    PropertyContext::Subscribe,
                ) == Ok::<Seq<u8>, Error>(front),
                encoded_subscriptions(filters, i as nat) is Ok,
                body@ == front + encoded_subscriptions(filters, i as nat)->Ok_0,
            decreases self.filters.len() - i,
        {
            let ghost before = body@;
            assert(filters[i as int] == (self.filters@[i as int].0@, self.filters@[i as int].1));
            proof {
                subscriptions_error_is_final(filters, (i + 1) as nat, filters.len());
            }
            encode_filter(&mut body, self.filters[i].0.as_str())?;
            body.push(self.filters[i].1.code());
            assert(body@ =~= front + encoded_subscriptions(filters, (i + 1) as nat)->Ok_0);
            i += 1;
        }
        // Fixed header - SUBSCRIBE flags must be 0x02 per spec
        frame_packet(PacketType::Subscribe, 0x02, &body)
    }
}

impl UnsubscribePacket {
    pub fn encode(&self) -> (r: Result<Vec<u8>>)
        ensures
            gives(r, encoded_unsubscribe(self@)),
    {
        if self.packet_id == 0 {
            return Err(Error::MalformedPacket("UNSUBSCRIBE packet identifier is zero"));
        }
        if self.filters.is_empty() {
            return Err(Error::MalformedPacket("UNSUBSCRIBE has no filters"));
        }
        let mut body: Vec<u8> = Vec::new();
        encode_u16(&mut body, self.packet_id);
        assert(body@ =~= u16_bytes(self.packet_id));
        self.properties.encode_for(&mut body, PropertyContext::Unsubscribe)?;
        let ghost front = body@;
        let ghost filters = self@.filters;
        let mut i: usize = 0;
        while i < self.filters.len()
            invariant
                i <= self.filters.len(),
                filters == self@.filters,
                self@.packet_id != 0,
                self@.filters.len() > 0,
                id_and_properties(
                    self@.packet_id,
                    self@.properties,
                    PropertyContext::Unsubscribe,
                ) == Ok::<Seq<u8>, Error>(front),
                encoded_filters(filters, i as nat) is Ok,
                body@ == front + encoded_filters(filters, i as nat)->Ok_0,
            decreases self.filters.len() - i,
        {
            assert(filters[i as int] == self.filters@[i as int]@);
            proof {
                filters_error_is_final(filters, (i + 1) as nat, filters.len());
            }
            encode_filter(&mut body, self.filters[i].as_str())?;
            assert(body@ =~= front + encoded_filters(filters, (i + 1) as nat)->Ok_0);
            i += 1;
        }
        // UNSUBSCRIBE flags must be 0x02 per spec
        frame_packet(PacketType::Unsubscribe, 0x02, &body)
    }
}

/// Whether `code` is a reason code of a SUBACK packet.
pub open spec fn suback_reason_code(code: u8) -> bool {
    code <= 0x02 || code == 0x80 || code == 0x83 || code == 0x87 || code == 0x8F || code == 0x91
        || code == 0x97 || code == 0x9E || code == 0xA1 || code == 0xA2
}

fn is_suback_reason_code(code: u8) -> (r: bool)
    ensures
        r == suback_reason_code(code),
{
    matches!(
        code,
        0x00 | 0x01 | 0x02 | 0x80 | 0x83 | 0x87 | 0x8F | 0x91 | 0x97 | 0x9E | 0xA1 | 0xA2
    )
}

/// Whether `code` is a reason code of an UNSUBACK packet.
pub open spec fn unsuback_reason_code(code: u8) -> bool {
    code == 0x00 || code == 0x11 || code == 0x80 || code == 0x83 || code == 0x87 || code == 0x8F
        || code == 0x91
}

fn is_unsuback_reason_code(code: u8) -> (r: bool)
    ensures
        r == unsuback_reason_code(code),
{
    matches!(code, 0x00 | 0x11 | 0x80 | 0x83 | 0x87 | 0x8F | 0x91)
}

/// The reason codes from `i` on, or the first that the packet type does not have.
pub open spec fn codes_check(codes: Seq<u8>, unsubscribing: bool, i: int) -> Result<()>
    decreases codes.len() - i,
{
    if i < 0 || i >= codes.len() {
        Ok(())
    } else if unsubscribing && !unsuback_reason_code(codes[i]) || !unsubscribing
        && !suback_reason_code(codes[i]) {
        Err(Error::InvalidReasonCode(codes[i]))
    } else {
        codes_check(codes, unsubscribing, i + 1)
    }
}

fn check_reason_codes(codes: &[u8], unsubscribing: bool) -> (r: Result<()>)
    ensures
        r == codes_check(codes@, unsubscribing, 0),
{
    let mut i: usize = 0;
    while i < codes.len()
        invariant
            i <= codes.len(),
            codes_check(codes@, unsubscribing, 0) == codes_check(codes@, unsubscribing, i as int),
        decreases codes.len() - i,
    {
        let known = if unsubscribing {
            is_unsuback_reason_code(codes[i])
        } else {
            is_suback_reason_code(codes[i])
        };
        if !known {
            return Err(Error::InvalidReasonCode(codes[i]));
        }
        i += 1;
    }
    Ok(())
}

/// The SUBACK packet with this body, or what is wrong with it.
pub open spec fn suback_of(body: Seq<u8>) -> Result<AckCodesView> {
    match take_u16(body, 0) {
        (Err(e), _) => Err(e),
        (Ok(packet_id), at) => if packet_id == 0 {
            Err(Error::MalformedPacket("SUBACK packet identifier is zero"))
        } else {
            match take_properties(body, at, Some(PropertyContext::SubAck)) {
                (Err(e), _) => Err(e),
                (Ok(_), at) => if at >= body.len() {
                    Err(Error::MalformedPacket("SUBACK has no reason codes"))
                } else {
                    match codes_check(body.skip(at), false, 0) {
                        Err(e) => Err(e),
                        Ok(_) => Ok(AckCodesView { packet_id, reason_codes: body.skip(at) }),
                    }
                },
            }
        },
    }
}

/// The UNSUBACK packet with this body, or what is wrong with it.
pub open spec fn unsuback_of(body: Seq<u8>) -> Result<AckCodesView> {
    match take_u16(body, 0) {
        (Err(e), _) => Err(e),
        (Ok(packet_id), at) => if packet_id == 0 {
            Err(Error::MalformedPacket("UNSUBACK packet identifier is zero"))
        } else {
            match take_properties(body, at, Some(PropertyContext::UnsubAck)) {
                (Err(e), _) => Err(e),
                (Ok(_), at) => if at >= body.len() {
                    Err(Error::MalformedPacket("UNSUBACK has no reason codes"))
                } else {
                    match codes_check(body.skip(at), true, 0) {
                        Err(e) => Err(e),
                        Ok(_) => Ok(AckCodesView { packet_id, reason_codes: body.skip(at) }),
                    }
                },
            }
        },
    }
}

impl SubAckPacket {
    pub fn decode(body: &[u8]) -> (r: Result<Self>)
        ensures
            match suback_of(body@) {
                Ok(view) => r matches Ok(packet) && packet@ == view,
                Err(e) => r == Err::<Self, _>(e),
            },
    {
        let mut cur = Cursor::new(body);
        let packet_id: u16 = cur.read_u16()?;
        if packet_id == 0 {
            return Err(Error::MalformedPacket("SUBACK packet identifier is zero"));
        }
        let _properties = Properties::decode_for(&mut cur, PropertyContext::SubAck)?;
        let reason_codes = slice_to_vec(cur.remaining_bytes());
        if reason_codes.is_empty() {
            return Err(Error::MalformedPacket("SUBACK has no reason codes"));
        }
        check_reason_codes(&reason_codes, false)?;
        Ok(SubAckPacket { packet_id, reason_codes })
    }
}

impl UnsubAckPacket {
    pub fn decode(body: &[u8]) -> (r: Result<Self>)
        ensures
            match unsuback_of(body@) {
                Ok(view) => r matches Ok(packet) && packet@ == view,
                Err(e) => r == Err::<Self, _>(e),
            },
    {
        let mut cur = Cursor::new(body);
        let packet_id: u16 = cur.read_u16()?;
        if packet_id == 0 {
            return Err(Error::MalformedPacket("UNSUBACK packet identifier is zero"));
        }
        let _properties = Properties::decode_for(&mut cur, PropertyContext::UnsubAck)?;
        let reason_codes = slice_to_vec(cur.remaining_bytes());
        if reason_codes.is_empty() {
            return Err(Error::MalformedPacket("UNSUBACK has no reason codes"));
        }
        check_reason_codes(&reason_codes, true)?;
        Ok(UnsubAckPacket { packet_id, reason_codes })
    }
}

} // verus!
