//! The other end of the wire: what a broker reads in the bytes that a client sends, and what
//! a client reads in the bytes that a broker sends.
use vstd::prelude::*;

use crate::codec::connect::{
    connack_of, connack_reason_code, connect_body, connect_flags, connect_head, encoded_connect,
    encoded_optional_binary, encoded_optional_string,
};
use crate::codec::decode::{
    binary_round_trip, fixed_header_of, framed_round_trip, stands_at, stands_at_split,
    string_round_trip, take_binary, take_string, take_u16, u16_round_trip,
};
use crate::codec::encode::{
    both, encoded_string, framed, u16_bytes, variable_int_bytes,
};
use crate::codec::ping::{
    disconnect_body, disconnect_of, disconnect_round_trip, encoded_disconnect, PINGREQ_BYTES,
};
use crate::codec::properties::{
    encoded_properties, properties_round_trip, take_properties, Entry, PropertyContext,
};
use crate::codec::publish::{
    encoded_puback, encoded_publish, puback_body, puback_of, puback_round_trip, publish_body,
    publish_flags, publish_of, publish_round_trip,
};
use crate::codec::subscribe::{
    codes_check, encoded_filter, encoded_filters, encoded_subscribe, encoded_subscriptions,
    encoded_unsubscribe, id_and_properties, suback_of, unsuback_of,
};
use crate::codec::types::{
    AckCodesView, ConnAckPacketView, ConnectPacketView, DisconnectPacket, FixedHeader, PacketType,
    PubAckPacket, PublishPacketView, QoS, SubscribePacketView, UnsubscribePacketView,
};
use crate::error::Error;

verus! {

/// What a CONNECT packet says.
#[verifier::ext_equal]
pub struct ConnectFields {
    pub clean_start: bool,
    pub keep_alive: u16,
    pub client_id: Seq<char>,
    pub username: Option<Seq<char>>,
    pub password: Option<Seq<u8>>,
    pub properties: Seq<Entry>,
}

/// A packet of a client, as its broker reads it.
#[verifier::ext_equal]
pub enum Heard {
    Connect(ConnectFields),
    Publish(PublishPacketView),
    PubAck(PubAckPacket),
    /// Each filter with the byte of its subscription options.
    Subscribe { packet_id: u16, properties: Seq<Entry>, subscriptions: Seq<(Seq<char>, u8)> },
    Unsubscribe { packet_id: u16, properties: Seq<Entry>, filters: Seq<Seq<char>> },
    PingReq,
    Disconnect(DisconnectPacket),
}

/// The string at `pos`, if one is `present`, and the position behind it.
pub open spec fn string_if(body: Seq<u8>, pos: int, present: bool) -> Option<
    (Option<Seq<char>>, int),
> {
    if !present {
        Some((None, pos))
    } else {
        match take_string(body, pos) {
            (Ok(text), at) => Some((Some(text), at)),
            _ => None,
        }
    }
}

/// The binary data at `pos`, if some are `present`, and the position behind them.
pub open spec fn binary_if(body: Seq<u8>, pos: int, present: bool) -> Option<
    (Option<Seq<u8>>, int),
> {
    if !present {
        Some((None, pos))
    } else {
        match take_binary(body, pos) {
            (Ok(data), at) => Some((Some(data), at)),
            _ => None,
        }
    }
}

/// What the body of a CONNECT packet of MQTT 5 without a will says: after the protocol's
/// name and version come the flags, the keep-alive time, the properties, the client
/// identifier, and as the two highest flags say the user name and the password.
#[verifier::opaque]
pub open spec fn connect_fields(body: Seq<u8>) -> Option<ConnectFields> {
    if body.len() < 10 || body.take(7) != seq![0u8, 4u8, 0x4Du8, 0x51u8, 0x54u8, 0x54u8, 5u8] {
        None
    } else {
        let flags = body[7];
        match (take_u16(body, 8), take_properties(body, 10, Some(PropertyContext::Connect))) {
            ((Ok(keep_alive), _), (Ok(properties), id_at)) => match take_string(body, id_at) {
                (Ok(client_id), name_at) => match string_if(body, name_at, flags / 128 == 1) {
                    Some((username, word_at)) => match binary_if(
                        body,
                        word_at,
                        (flags / 64) % 2 == 1,
                    ) {
                        Some((password, end)) => if end != body.len() || flags % 2 != 0 || (flags
                            / 4) % 16 != 0 {
                            None
                        } else {
                            Some(
                                ConnectFields {
                                    clean_start: (flags / 2) % 2 == 1,
                                    keep_alive,
                                    client_id,
                                    username,
                                    password,
                                    properties,
                                },
                            )
                        },
                        None => None,
                    },
                    None => None,
                },
                _ => None,
            },
            _ => None,
        }
    }
}

/// The filters from `pos` to the end, each followed by a byte of subscription options.
pub open spec fn subscriptions_at(body: Seq<u8>, pos: int) -> Option<Seq<(Seq<char>, u8)>>
    decreases body.len() - pos,
{
    if pos >= body.len() {
        Some(Seq::empty())
    } else {
        match take_string(body, pos) {
            (Ok(filter), at) => if at >= body.len() || at < pos {
                None
            } else {
                match subscriptions_at(body, at + 1) {
                    Some(rest) => Some(seq![(filter, body[at])] + rest),
                    None => None,
                }
            },
            _ => None,
        }
    }
}

/// The filters from `pos` to the end.
pub open spec fn filters_at(body: Seq<u8>, pos: int) -> Option<Seq<Seq<char>>>
    decreases body.len() - pos,
{
    if pos >= body.len() {
        Some(Seq::empty())
    } else {
        match take_string(body, pos) {
            (Ok(filter), at) => if at <= pos {
                None
            } else {
                match filters_at(body, at) {
                    Some(rest) => Some(seq![filter] + rest),
                    None => None,
                }
            },
            _ => None,
        }
    }
}

/// What the body of a SUBSCRIBE packet says.
#[verifier::opaque]
pub open spec fn subscribe_heard(body: Seq<u8>) -> Option<Heard> {
    match (take_u16(body, 0), take_properties(body, 2, Some(PropertyContext::Subscribe))) {
        ((Ok(packet_id), _), (Ok(properties), at)) => match subscriptions_at(body, at) {
            Some(subscriptions) => Some(Heard::Subscribe { packet_id, properties, subscriptions }),
            None => None,
        },
        _ => None,
    }
}

/// What the body of an UNSUBSCRIBE packet says.
#[verifier::opaque]
pub open spec fn unsubscribe_heard(body: Seq<u8>) -> Option<Heard> {
    match (take_u16(body, 0), take_properties(body, 2, Some(PropertyContext::Unsubscribe))) {
        ((Ok(packet_id), _), (Ok(properties), at)) => match filters_at(body, at) {
            Some(filters) => Some(Heard::Unsubscribe { packet_id, properties, filters }),
            None => None,
        },
        _ => None,
    }
}

/// What a packet with this fixed header and body says.
pub open spec fn heard_in(header: FixedHeader, body: Seq<u8>) -> Option<Heard> {
    match (header.packet_type, header.flags) {
        (PacketType::Connect, 0) => match connect_fields(body) {
            Some(fields) => Some(Heard::Connect(fields)),
            None => None,
        },
        (PacketType::Publish, flags) => match publish_of(flags, body) {
            Ok(message) => Some(Heard::Publish(message)),
            Err(_) => None,
        },
        (PacketType::PubAck, 0) => match puback_of(body) {
            Ok(ack) => Some(Heard::PubAck(ack)),
            Err(_) => None,
        },
        (PacketType::Subscribe, 2) => subscribe_heard(body),
        (PacketType::Unsubscribe, 2) => unsubscribe_heard(body),
        (PacketType::PingReq, 0) => if body.len() == 0 {
            Some(Heard::PingReq)
        } else {
            None
        },
        (PacketType::Disconnect, 0) => match disconnect_of(body) {
            Ok(goodbye) => Some(Heard::Disconnect(goodbye)),
            Err(_) => None,
        },
        _ => None,
    }
}

/// What a broker reads in the bytes of one packet of a client.
#[verifier::opaque]
pub open spec fn heard(bytes: Seq<u8>) -> Option<Heard> {
    match fixed_header_of(bytes) {
        Ok((header, len)) => if len + header.remaining_length != bytes.len() {
            None
        } else {
            heard_in(header, bytes.skip(len))
        },
        Err(_) => None,
    }
}

/// A framed packet is read by its type, flags and body.
proof fn framed_is_heard(packet_type: PacketType, flags: u8, body: Seq<u8>)
    requires
        flags <= 15,
        framed(packet_type, flags, body) is Ok,
    ensures
        heard(framed(packet_type, flags, body)->Ok_0) == heard_in(
            FixedHeader { packet_type, flags, remaining_length: body.len() as u32 },
            body,
        ),
{
    reveal(heard);
    let bytes = framed(packet_type, flags, body)->Ok_0;
    framed_round_trip(packet_type, flags, body, Seq::empty());
    assert(bytes + Seq::<u8>::empty() =~= bytes);
    assert(bytes.skip(bytes.len() - body.len()) =~= bytes.subrange(
        bytes.len() - body.len(),
        bytes.len() as int,
    ));
}

/// A PUBLISH packet is heard as what was encoded.
pub proof fn publish_is_heard(p: PublishPacketView)
    requires
        encoded_publish(p) is Ok,
    ensures
        heard(encoded_publish(p)->Ok_0) == Some(Heard::Publish(p)),
{
    publish_round_trip(p);
    framed_is_heard(PacketType::Publish, publish_flags(p), publish_body(p)->Ok_0);
}

/// A PUBACK packet is heard as what was encoded.
pub proof fn puback_is_heard(p: PubAckPacket)
    requires
        encoded_puback(p) is Ok,
    ensures
        heard(encoded_puback(p)->Ok_0) == Some(Heard::PubAck(p)),
{
    puback_round_trip(p);
    framed_is_heard(PacketType::PubAck, 0, puback_body(p));
}

/// A DISCONNECT packet is heard as what was encoded.
pub proof fn disconnect_is_heard(p: DisconnectPacket)
    requires
        encoded_disconnect(p) is Ok,
    ensures
        heard(encoded_disconnect(p)->Ok_0) == Some(Heard::Disconnect(p)),
{
    disconnect_round_trip(p);
    framed_is_heard(PacketType::Disconnect, 0, disconnect_body(p));
}

/// A PINGREQ packet is heard as one.
pub proof fn ping_is_heard()
    ensures
        heard(PINGREQ_BYTES@) == Some(Heard::PingReq),
{
    let empty = Seq::<u8>::empty();
    reveal_with_fuel(variable_int_bytes, 2);
    assert(framed(PacketType::PingReq, 0, empty)->Ok_0 =~= PINGREQ_BYTES@);
    framed_is_heard(PacketType::PingReq, 0, empty);
}

/// The connect flags can be taken apart again.
proof fn connect_flags_round_trip(p: ConnectPacketView)
    ensures
        ({
            let flags = connect_flags(p);
            &&& (flags / 128 == 1) == (p.username is Some)
            &&& ((flags / 64) % 2 == 1) == (p.password is Some)
            &&& ((flags / 2) % 2 == 1) == p.clean_start
            &&& flags % 2 == 0
            &&& (flags / 4) % 16 == 0
        }),
{
}

proof fn five_parts_stand(a: Seq<u8>, b: Seq<u8>, c: Seq<u8>, d: Seq<u8>, e: Seq<u8>)
    ensures
        ({
            let body = a + b + c + d + e;
            &&& stands_at(body, 0, a)
            &&& stands_at(body, a.len() as int, b)
            &&& stands_at(body, (a.len() + b.len()) as int, c)
            &&& stands_at(body, (a.len() + b.len() + c.len()) as int, d)
            &&& stands_at(body, (a.len() + b.len() + c.len() + d.len()) as int, e)
        }),
{
    let body = a + b + c + d + e;
    assert(body.subrange(0, body.len() as int) =~= body);
    stands_at_split(body, 0, a + b + c + d, e);
    stands_at_split(body, 0, a + b + c, d);
    stands_at_split(body, 0, a + b, c);
    stands_at_split(body, 0, a, b);
}

/// The protocol's name and version, the flags and the keep-alive time are read back.
proof fn connect_head_is_read(p: ConnectPacketView, body: Seq<u8>)
    requires
        stands_at(body, 0, connect_head(p)),
    ensures
        body.len() >= 10,
        body.take(7) == seq![0u8, 4u8, 0x4Du8, 0x51u8, 0x54u8, 0x54u8, 5u8],
        body[7] == connect_flags(p),
        take_u16(body, 8) == (Ok::<u16, Error>(p.keep_alive), 10int),
{
    let front = seq![0u8, 4u8, 0x4Du8, 0x51u8, 0x54u8, 0x54u8, 5u8, connect_flags(p)];
    stands_at_split(body, 0, front, u16_bytes(p.keep_alive));
    let here = body.subrange(0, 8);
    assert(here[7] == body[7]);
    assert(body.take(7) =~= here.take(7));
    assert(front.take(7) =~= seq![0u8, 4u8, 0x4Du8, 0x51u8, 0x54u8, 0x54u8, 5u8]);
    u16_round_trip(body, 8, p.keep_alive);
}

/// The two credentials are read back where the flags say that they are there.
proof fn credentials_are_read(
    body: Seq<u8>,
    at: int,
    username: Option<Seq<char>>,
    password: Option<Seq<u8>>,
)
    requires
        encoded_optional_string(username) matches Ok(name) && stands_at(body, at, name),
        encoded_optional_binary(password) matches Ok(word) && stands_at(
            body,
            at + encoded_optional_string(username)->Ok_0.len(),
            word,
        ),
    ensures
        ({
            let name = encoded_optional_string(username)->Ok_0;
            let word = encoded_optional_binary(password)->Ok_0;
            &&& string_if(body, at, username is Some) == Some((username, at + name.len()))
            &&& binary_if(body, at + name.len(), password is Some) == Some(
                (password, at + name.len() + word.len()),
            )
        }),
{
    let name = encoded_optional_string(username)->Ok_0;
    if let Some(text) = username {
        string_round_trip(body, at, text);
    }
    if let Some(data) = password {
        binary_round_trip(body, at + name.len(), data);
    }
}

proof fn connect_body_is_read(p: ConnectPacketView)
    requires
        connect_body(p) is Ok,
    ensures
        connect_fields(connect_body(p)->Ok_0) == Some(
            ConnectFields {
                clean_start: p.clean_start,
                keep_alive: p.keep_alive,
                client_id: p.client_id,
                username: p.username,
                password: p.password,
                properties: p.properties,
            },
        ),
{
    let context = Some(PropertyContext::Connect);
    let body = connect_body(p)->Ok_0;
    let head = connect_head(p);
    let properties = encoded_properties(p.properties, context)->Ok_0;
    let id = encoded_string(p.client_id)->Ok_0;
    let name = encoded_optional_string(p.username)->Ok_0;
    let word = encoded_optional_binary(p.password)->Ok_0;
    assert(body == head + properties + id + name + word);
    five_parts_stand(head, properties, id, name, word);
    assert(head.len() == 10);
    let id_at = 10 + properties.len() as int;
    let name_at = id_at + id.len();
    connect_head_is_read(p, body);
    connect_flags_round_trip(p);
    credentials_are_read(body, name_at, p.username, p.password);
    assert(take_properties(body, 10, context) == (
        Ok::<Seq<Entry>, Error>(p.properties),
        id_at,
    )) by {
        properties_round_trip(body, 10, context, p.properties);
    }
    assert(take_string(body, id_at) == (Ok::<Seq<char>, Error>(p.client_id), name_at)) by {
        string_round_trip(body, id_at, p.client_id);
    }
    connect_parts_make_fields(body, p, id_at, name_at, name_at + name.len(), body.len() as int);
}

proof fn connect_parts_make_fields(
    body: Seq<u8>,
    p: ConnectPacketView,
    id_at: int,
    name_at: int,
    word_at: int,
    end: int,
)
    requires
        body.len() >= 10,
        body.take(7) == seq![0u8, 4u8, 0x4Du8, 0x51u8, 0x54u8, 0x54u8, 5u8],
        take_u16(body, 8) == (Ok::<u16, Error>(p.keep_alive), 10int),
        take_properties(body, 10, Some(PropertyContext::Connect)) == (
            Ok::<Seq<Entry>, Error>(p.properties),
            id_at,
        ),
        take_string(body, id_at) == (Ok::<Seq<char>, Error>(p.client_id), name_at),
        string_if(body, name_at, body[7] / 128 == 1) == Some((p.username, word_at)),
        binary_if(body, word_at, (body[7] / 64) % 2 == 1) == Some((p.password, end)),
        end == body.len(),
        (body[7] / 2) % 2 == 1 <==> p.clean_start,
        body[7] % 2 == 0,
        (body[7] / 4) % 16 == 0,
    ensures
        connect_fields(body) == Some(
            ConnectFields {
                clean_start: p.clean_start,
                keep_alive: p.keep_alive,
                client_id: p.client_id,
                username: p.username,
                password: p.password,
                properties: p.properties,
            },
        ),
{
    reveal(connect_fields);
}

/// A CONNECT packet is heard as what was encoded: the flags say which credentials follow.
pub proof fn connect_is_heard(p: ConnectPacketView)
    requires
        encoded_connect(p) is Ok,
    ensures
        heard(encoded_connect(p)->Ok_0) == Some(
            Heard::Connect(
                ConnectFields {
                    clean_start: p.clean_start,
                    keep_alive: p.keep_alive,
                    client_id: p.client_id,
                    username: p.username,
                    password: p.password,
                    properties: p.properties,
                },
            ),
        ),
{
    connect_body_is_read(p);
    framed_is_heard(PacketType::Connect, 0, connect_body(p)->Ok_0);
}

/// Filters with the bytes of their QoS levels.
pub open spec fn with_qos_bytes(filters: Seq<(Seq<char>, QoS)>) -> Seq<(Seq<char>, u8)> {
    filters.map_values(|f: (Seq<char>, QoS)| (f.0, qos_byte(f.1)))
}

/// The byte of a QoS level on the wire: 0 for at most once, 1 for at least once.
pub open spec fn qos_byte(qos: QoS) -> u8 {
    match qos {
        QoS::AtMostOnce => 0,
        QoS::AtLeastOnce => 1,
    }
}

proof fn subscriptions_stand(
    body: Seq<u8>,
    at: int,
    filters: Seq<(Seq<char>, QoS)>,
    n: nat,
    m: nat,
)
    requires
        n <= m,
        encoded_subscriptions(filters, m) matches Ok(bytes) && stands_at(body, at, bytes),
    ensures
        encoded_subscriptions(filters, n) matches Ok(bytes) && stands_at(body, at, bytes)
            && bytes.len() <= encoded_subscriptions(filters, m)->Ok_0.len(),
        n < m ==> encoded_filter(filters[n as int].0) is Ok && stands_at(
            body,
            at + encoded_subscriptions(filters, n)->Ok_0.len(),
            encoded_filter(filters[n as int].0)->Ok_0 + seq![filters[n as int].1.spec_code()],
        ),
    decreases m,
{
    if n < m {
        let before = encoded_subscriptions(filters, (m - 1) as nat)->Ok_0;
        let last = both(
            encoded_filter(filters[m - 1].0),
            Ok(seq![filters[m - 1].1.spec_code()]),
        )->Ok_0;
        stands_at_split(body, at, before, last);
        subscriptions_stand(body, at, filters, n, (m - 1) as nat);
    }
}

proof fn subscriptions_are_read(
    body: Seq<u8>,
    at: int,
    filters: Seq<(Seq<char>, QoS)>,
    n: nat,
)
    requires
        n <= filters.len(),
        encoded_subscriptions(filters, filters.len()) matches Ok(bytes) && stands_at(
            body,
            at,
            bytes,
        ) && at + bytes.len() == body.len(),
    ensures
        encoded_subscriptions(filters, n) is Ok,
        subscriptions_at(body, at + encoded_subscriptions(filters, n)->Ok_0.len()) == Some(
            with_qos_bytes(filters).skip(n as int),
        ),
    decreases filters.len() - n,
{
    subscriptions_stand(body, at, filters, n, filters.len());
    let here = at + encoded_subscriptions(filters, n)->Ok_0.len();
    let all = with_qos_bytes(filters);
    if n == filters.len() {
        assert(all.skip(n as int) =~= Seq::empty());
    } else {
        let (filter, qos) = filters[n as int];
        let text = encoded_filter(filter)->Ok_0;
        subscriptions_stand(body, at, filters, n + 1, filters.len());
        subscriptions_are_read(body, at, filters, n + 1);
        stands_at_split(body, here, text, seq![qos.spec_code()]);
        string_round_trip(body, here, filter);
        assert(body.subrange(here + text.len(), here + text.len() + 1)[0] == body[here
            + text.len()]);
        assert(all.skip(n as int) =~= seq![(filter, qos_byte(qos))] + all.skip(n as int + 1));
    }
}

proof fn id_and_properties_are_read(
    body: Seq<u8>,
    packet_id: u16,
    properties: Seq<Entry>,
    context: PropertyContext,
    rest: Seq<u8>,
)
    requires
        id_and_properties(packet_id, properties, context) matches Ok(front) && body == front + rest,
    ensures
        ({
            let front = id_and_properties(packet_id, properties, context)->Ok_0;
            &&& take_u16(body, 0) == (Ok::<u16, Error>(packet_id), 2int)
            &&& take_properties(body, 2, Some(context)) == (
                Ok::<Seq<Entry>, Error>(properties),
                front.len() as int,
            )
            &&& stands_at(body, front.len() as int, rest)
        }),
{
    let front = id_and_properties(packet_id, properties, context)->Ok_0;
    let listed = encoded_properties(properties, Some(context))->Ok_0;
    assert(body.subrange(0, body.len() as int) =~= body);
    stands_at_split(body, 0, front, rest);
    stands_at_split(body, 0, u16_bytes(packet_id), listed);
    u16_round_trip(body, 0, packet_id);
    properties_round_trip(body, 2, Some(context), properties);
}

/// A SUBSCRIBE packet is heard as what was encoded: each filter with the byte of its QoS
/// level.
pub proof fn subscribe_is_heard(p: SubscribePacketView)
    requires
        encoded_subscribe(p) is Ok,
    ensures
        heard(encoded_subscribe(p)->Ok_0) == Some(
            Heard::Subscribe {
                packet_id: p.packet_id,
                properties: p.properties,
                subscriptions: with_qos_bytes(p.filters),
            },
        ),
{
    reveal(subscribe_heard);
    let front = id_and_properties(p.packet_id, p.properties, PropertyContext::Subscribe)->Ok_0;
    let rest = encoded_subscriptions(p.filters, p.filters.len())->Ok_0;
    let body = front + rest;
    id_and_properties_are_read(body, p.packet_id, p.properties, PropertyContext::Subscribe, rest);
    subscriptions_are_read(body, front.len() as int, p.filters, 0);
    assert(with_qos_bytes(p.filters).skip(0) =~= with_qos_bytes(p.filters));
    framed_is_heard(PacketType::Subscribe, 2, body);
}

proof fn filters_stand(body: Seq<u8>, at: int, filters: Seq<Seq<char>>, n: nat, m: nat)
    requires
        n <= m,
        encoded_filters(filters, m) matches Ok(bytes) && stands_at(body, at, bytes),
    ensures
        encoded_filters(filters, n) matches Ok(bytes) && stands_at(body, at, bytes) && bytes.len()
            <= encoded_filters(filters, m)->Ok_0.len(),
        n < m ==> encoded_filter(filters[n as int]) is Ok && stands_at(
            body,
            at + encoded_filters(filters, n)->Ok_0.len(),
            encoded_filter(filters[n as int])->Ok_0,
        ),
    decreases m,
{
    if n < m {
        let before = encoded_filters(filters, (m - 1) as nat)->Ok_0;
        stands_at_split(body, at, before, encoded_filter(filters[m - 1])->Ok_0);
        filters_stand(body, at, filters, n, (m - 1) as nat);
    }
}

proof fn filters_are_read(body: Seq<u8>, at: int, filters: Seq<Seq<char>>, n: nat)
    requires
        n <= filters.len(),
        encoded_filters(filters, filters.len()) matches Ok(bytes) && stands_at(body, at, bytes)
            && at + bytes.len() == body.len(),
    ensures
        encoded_filters(filters, n) is Ok,
        filters_at(body, at + encoded_filters(filters, n)->Ok_0.len()) == Some(
            filters.skip(n as int),
        ),
    decreases filters.len() - n,
{
    filters_stand(body, at, filters, n, filters.len());
    let here = at + encoded_filters(filters, n)->Ok_0.len();
    if n == filters.len() {
        assert(filters.skip(n as int) =~= Seq::empty());
    } else {
        let filter = filters[n as int];
        filters_stand(body, at, filters, n + 1, filters.len());
        filters_are_read(body, at, filters, n + 1);
        string_round_trip(body, here, filter);
        assert(filters.skip(n as int) =~= seq![filter] + filters.skip(n as int + 1));
    }
}

/// An UNSUBSCRIBE packet is heard as what was encoded.
pub proof fn unsubscribe_is_heard(p: UnsubscribePacketView)
    requires
        encoded_unsubscribe(p) is Ok,
    ensures
        heard(encoded_unsubscribe(p)->Ok_0) == Some(
            Heard::Unsubscribe {
                packet_id: p.packet_id,
                properties: p.properties,
                filters: p.filters,
            },
        ),
{
    reveal(unsubscribe_heard);
    let front = id_and_properties(p.packet_id, p.properties, PropertyContext::Unsubscribe)->Ok_0;
    let rest = encoded_filters(p.filters, p.filters.len())->Ok_0;
    let body = front + rest;
    id_and_properties_are_read(body, p.packet_id, p.properties, PropertyContext::Unsubscribe, rest);
    filters_are_read(body, front.len() as int, p.filters, 0);
    assert(p.filters.skip(0) =~= p.filters);
    framed_is_heard(PacketType::Unsubscribe, 2, body);
}

/// A CONNACK packet that a broker puts together is read as what it says: whether a session
/// is present, the reason code, and the properties.
pub proof fn connack_is_read(session_present: bool, reason_code: u8, properties: Seq<Entry>)
    requires
        connack_reason_code(reason_code),
        session_present ==> reason_code == 0,
        encoded_properties(properties, Some(PropertyContext::ConnAck)) is Ok,
    ensures
        connack_of(
            seq![
                if session_present {
                    1u8
                } else {
                    0u8
                },
                reason_code,
            ] + encoded_properties(properties, Some(PropertyContext::ConnAck))->Ok_0,
        ) == Ok::<ConnAckPacketView, Error>(
            ConnAckPacketView { session_present, reason_code, properties },
        ),
{
    let front = seq![
        if session_present {
            1u8
        } else {
            0u8
        },
        reason_code,
    ];
    let listed = encoded_properties(properties, Some(PropertyContext::ConnAck))->Ok_0;
    let body = front + listed;
    assert(body.subrange(2, 2 + listed.len() as int) =~= listed);
    properties_round_trip(body, 2, Some(PropertyContext::ConnAck), properties);
}

/// A SUBACK or UNSUBACK packet that a broker puts together is read as what it says: the
/// packet identifier and all of its reason codes, in order.
pub proof fn ack_codes_are_read(packet_id: u16, properties: Seq<Entry>, codes: Seq<u8>)
    requires
        packet_id != 0,
        codes.len() > 0,
    ensures
        id_and_properties(packet_id, properties, PropertyContext::SubAck) matches Ok(front)
            && codes_check(codes, false, 0) is Ok ==> suback_of(
            id_and_properties(packet_id, properties, PropertyContext::SubAck)->Ok_0 + codes,
        ) == Ok::<AckCodesView, Error>(AckCodesView { packet_id, reason_codes: codes }),
        id_and_properties(packet_id, properties, PropertyContext::UnsubAck) matches Ok(front)
            && codes_check(codes, true, 0) is Ok ==> unsuback_of(
            id_and_properties(packet_id, properties, PropertyContext::UnsubAck)->Ok_0 + codes,
        ) == Ok::<AckCodesView, Error>(AckCodesView { packet_id, reason_codes: codes }),
{
    if let Ok(front) = id_and_properties(packet_id, properties, PropertyContext::SubAck) {
        let body = front + codes;
        id_and_properties_are_read(body, packet_id, properties, PropertyContext::SubAck, codes);
        assert(body.skip(front.len() as int) =~= codes);
    }
    if let Ok(front) = id_and_properties(packet_id, properties, PropertyContext::UnsubAck) {
        let body = front + codes;
        id_and_properties_are_read(body, packet_id, properties, PropertyContext::UnsubAck, codes);
        assert(body.skip(front.len() as int) =~= codes);
    }
}

} // verus!
