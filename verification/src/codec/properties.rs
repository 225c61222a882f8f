//! MQTT v5 properties: their typed values, their wire form, and which packet may carry
//! which.
use vstd::prelude::*;

use crate::codec::decode::{
    binary_round_trip, stands_at, stands_at_split, string_round_trip, take_binary, take_groups,
    take_string, take_u16, take_u32, take_u8, take_variable_int, u16_round_trip, u32_round_trip,
    variable_int_round_trip, Cursor,
};
use crate::codec::encode::{
    appends, binary_len, encode_binary, encode_length, encode_string, encode_u16, encode_u32,
    encode_variable_int, encoded_binary, encoded_length, encoded_string, string_len, u16_bytes,
    u32_bytes, variable_int_bytes, variable_int_len,
};
use crate::codec::topic::{topic_name_check, validate_topic_name};
use crate::error::{Error, Result};

verus! {

/// Subset of MQTT v5 property IDs that have a typed value here.
#[derive(Debug, Clone, Copy, PartialEq, Eq, Structural)]
pub enum PropertyId {
    ResponseTopic,
    CorrelationData,
    SessionExpiryInterval,
    AssignedClientIdentifier,
    ServerKeepAlive,
    ReasonString,
    ReceiveMaximum,
    TopicAliasMaximum,
    MaximumQoS,
    RetainAvailable,
    MaximumPacketSize,
    WildcardSubscriptionAvailable,
    UserProperty,
    SharedSubscriptionAvailable,
}

impl PropertyId {
    /// The property's number on the wire.
    pub open spec fn spec_code(self) -> u8 {
        match self {
            PropertyId::ResponseTopic => 0x08,
            PropertyId::CorrelationData => 0x09,
            PropertyId::SessionExpiryInterval => 0x11,
            PropertyId::AssignedClientIdentifier => 0x12,
            PropertyId::ServerKeepAlive => 0x13,
            PropertyId::ReasonString => 0x1F,
            PropertyId::ReceiveMaximum => 0x21,
            PropertyId::TopicAliasMaximum => 0x22,
            PropertyId::MaximumQoS => 0x24,
            PropertyId::RetainAvailable => 0x25,
            PropertyId::UserProperty => 0x26,
            PropertyId::MaximumPacketSize => 0x27,
            PropertyId::WildcardSubscriptionAvailable => 0x28,
            PropertyId::SharedSubscriptionAvailable => 0x2A,
        }
    }

    /// The property's number on the wire.
    pub fn code(self) -> (r: u8)
        ensures
            r == self.spec_code(),
    {
        match self {
            PropertyId::ResponseTopic => 0x08,
            PropertyId::CorrelationData => 0x09,
            PropertyId::SessionExpiryInterval => 0x11,
            PropertyId::AssignedClientIdentifier => 0x12,
            PropertyId::ServerKeepAlive => 0x13,
            PropertyId::ReasonString => 0x1F,
            PropertyId::ReceiveMaximum => 0x21,
            PropertyId::TopicAliasMaximum => 0x22,
            PropertyId::MaximumQoS => 0x24,
            PropertyId::RetainAvailable => 0x25,
            PropertyId::UserProperty => 0x26,
            PropertyId::MaximumPacketSize => 0x27,
            PropertyId::WildcardSubscriptionAvailable => 0x28,
            PropertyId::SharedSubscriptionAvailable => 0x2A,
        }
    }

    fn from_u8(val: u8) -> (r: Option<Self>)
        ensures
            r == property_id_of(val),
    {
        match val {
            0x08 => Some(PropertyId::ResponseTopic),
            0x09 => Some(PropertyId::CorrelationData),
            0x11 => Some(PropertyId::SessionExpiryInterval),
            0x12 => Some(PropertyId::AssignedClientIdentifier),
            0x13 => Some(PropertyId::ServerKeepAlive),
            0x1F => Some(PropertyId::ReasonString),
            0x21 => Some(PropertyId::ReceiveMaximum),
            0x22 => Some(PropertyId::TopicAliasMaximum),
            0x24 => Some(PropertyId::MaximumQoS),
            0x25 => Some(PropertyId::RetainAvailable),
            0x26 => Some(PropertyId::UserProperty),
            0x27 => Some(PropertyId::MaximumPacketSize),
            0x28 => Some(PropertyId::WildcardSubscriptionAvailable),
            0x2A => Some(PropertyId::SharedSubscriptionAvailable),
            _ => None,
        }
    }
}

/// The typed property with number `val`, if there is one.
pub open spec fn property_id_of(val: u8) -> Option<PropertyId> {
    match val {
        0x08 => Some(PropertyId::ResponseTopic),
        0x09 => Some(PropertyId::CorrelationData),
        0x11 => Some(PropertyId::SessionExpiryInterval),
        0x12 => Some(PropertyId::AssignedClientIdentifier),
        0x13 => Some(PropertyId::ServerKeepAlive),
        0x1F => Some(PropertyId::ReasonString),
        0x21 => Some(PropertyId::ReceiveMaximum),
        0x22 => Some(PropertyId::TopicAliasMaximum),
        0x24 => Some(PropertyId::MaximumQoS),
        0x25 => Some(PropertyId::RetainAvailable),
        0x26 => Some(PropertyId::UserProperty),
        0x27 => Some(PropertyId::MaximumPacketSize),
        0x28 => Some(PropertyId::WildcardSubscriptionAvailable),
        0x2A => Some(PropertyId::SharedSubscriptionAvailable),
        _ => None,
    }
}

/// A typed property is found again by its number, and no two share one.
pub proof fn property_id_round_trip(id: PropertyId, val: u8)
    ensures
        property_id_of(id.spec_code()) == Some(id),
        property_id_of(val) matches Some(found) ==> found.spec_code() == val,
        id.spec_code() < 128,
{
}

/// A typed MQTT v5 property value.
#[derive(Debug, PartialEq, Eq)]
pub enum PropertyValue {
    Byte(u8),
    U16(u16),
    U32(u32),
    Str(String),
    Binary(Vec<u8>),
    StringPair(String, String),
}

/// What a [`PropertyValue`] holds.
pub enum PropertyValueView {
    Byte(u8),
    U16(u16),
    U32(u32),
    Str(Seq<char>),
    Binary(Seq<u8>),
    StringPair(Seq<char>, Seq<char>),
}

impl View for PropertyValue {
    type V = PropertyValueView;

    open spec fn view(&self) -> PropertyValueView {
        match *self {
            PropertyValue::Byte(b) => PropertyValueView::Byte(b),
            PropertyValue::U16(v) => PropertyValueView::U16(v),
            PropertyValue::U32(v) => PropertyValueView::U32(v),
            PropertyValue::Str(s) => PropertyValueView::Str(s@),
            PropertyValue::Binary(b) => PropertyValueView::Binary(b@),
            PropertyValue::StringPair(k, v) => PropertyValueView::StringPair(k@, v@),
        }
    }
}

impl PropertyValue {
    fn kind(&self) -> (r: ValueKind)
        ensures
            r == kind_of(self@),
    {
        match self {
            PropertyValue::Byte(_) => ValueKind::Byte,
            PropertyValue::U16(_) => ValueKind::U16,
            PropertyValue::U32(_) => ValueKind::U32,
            PropertyValue::Str(_) => ValueKind::Str,
            PropertyValue::Binary(_) => ValueKind::Binary,
            PropertyValue::StringPair(_, _) => ValueKind::StringPair,
        }
    }
}

impl Clone for PropertyValue {
    fn clone(&self) -> (r: Self)
        ensures
            r@ == self@,
    {
        match self {
            PropertyValue::Byte(b) => PropertyValue::Byte(*b),
            PropertyValue::U16(v) => PropertyValue::U16(*v),
            PropertyValue::U32(v) => PropertyValue::U32(*v),
            PropertyValue::Str(s) => PropertyValue::Str(s.clone()),
            PropertyValue::Binary(b) => PropertyValue::Binary(b.clone()),
            PropertyValue::StringPair(k, v) => PropertyValue::StringPair(k.clone(), v.clone()),
        }
    }
}

/// MQTT packet type whose property set is being encoded or decoded.
///
/// The public [`Properties::encode`] and [`Properties::decode`] methods retain
/// their structural behavior for callers working with standalone property
/// sections. Packet codecs use this context to enforce MQTT's per-packet
/// property allowlists.
#[derive(Debug, Clone, Copy, PartialEq, Eq, Structural)]
pub enum PropertyContext {
    Connect,
    ConnAck,
    Publish,
    PubAck,
    Subscribe,
    SubAck,
    Unsubscribe,
    UnsubAck,
    Disconnect,
}

impl PropertyContext {
    /// Whether a packet of this type may carry the property with number `id`.
    pub open spec fn spec_allows(self, id: u8) -> bool {
        match self {
            Self::Connect => id == 0x11 || id == 0x21 || id == 0x22 || id == 0x26 || id == 0x27,
            Self::ConnAck => id == 0x11 || id == 0x12 || id == 0x13 || id == 0x15 || id == 0x16
                || id == 0x1A || id == 0x1C || id == 0x1F || id == 0x21 || id == 0x22 || id == 0x24
                || id == 0x25 || id == 0x26 || id == 0x27 || id == 0x28 || id == 0x29 || id == 0x2A,
            Self::Publish => id == 0x01 || id == 0x02 || id == 0x03 || id == 0x08 || id == 0x09
                || id == 0x0B || id == 0x23 || id == 0x26,
            Self::PubAck | Self::SubAck | Self::UnsubAck => id == 0x1F || id == 0x26,
            Self::Subscribe => id == 0x0B || id == 0x26,
            Self::Unsubscribe => id == 0x26,
            Self::Disconnect => id == 0x1C || id == 0x1F || id == 0x26,
        }
    }

    fn allows(self, id: u8) -> (r: bool)
        ensures
            r == self.spec_allows(id),
    {
        match self {
            Self::Connect => matches!(id, 0x11 | 0x21 | 0x22 | 0x26 | 0x27),
            Self::ConnAck => matches!(
                id,
                0x11 | 0x12 | 0x13 | 0x15 | 0x16 | 0x1A | 0x1C | 0x1F | 0x21 | 0x22 | 0x24 | 0x25
                    | 0x26 | 0x27 | 0x28 | 0x29 | 0x2A
            ),
            Self::Publish => matches!(id, 0x01 | 0x02 | 0x03 | 0x08 | 0x09 | 0x0B | 0x23 | 0x26),
            Self::PubAck | Self::SubAck | Self::UnsubAck => matches!(id, 0x1F | 0x26),
            // Subscription Identifier is legal on the wire, but is not part of
            // the typed outbound API yet.
            Self::Subscribe => matches!(id, 0x0B | 0x26),
            Self::Unsubscribe => id == 0x26,
            // This context is server-to-client. Session Expiry Interval is only
            // legal in the client-to-server DISCONNECT direction.
            Self::Disconnect => matches!(id, 0x1C | 0x1F | 0x26),
        }
    }
}

/// Whether a property section in this context may hold the property with number `id`;
/// a standalone section may hold each.
pub open spec fn context_allows(context: Option<PropertyContext>, id: u8) -> bool {
    context matches Some(c) ==> c.spec_allows(id)
}

fn is_allowed(context: Option<PropertyContext>, id: u8) -> (r: bool)
    ensures
        r == context_allows(context, id),
{
    match context {
        Some(c) => c.allows(id),
        None => true,
    }
}

/// A property's identifier and value.
pub type Entry = (PropertyId, PropertyValueView);

/// The wire type of the property's value.
pub open spec fn has_wire_type(id: PropertyId, value: PropertyValueView) -> bool {
    match id {
        PropertyId::ResponseTopic
        | PropertyId::AssignedClientIdentifier
        | PropertyId::ReasonString => value is Str,
        PropertyId::CorrelationData => value is Binary,
        PropertyId::SessionExpiryInterval | PropertyId::MaximumPacketSize => value is U32,
        PropertyId::ServerKeepAlive
        | PropertyId::ReceiveMaximum
        | PropertyId::TopicAliasMaximum => value is U16,
        PropertyId::MaximumQoS
        | PropertyId::RetainAvailable
        | PropertyId::WildcardSubscriptionAvailable
        | PropertyId::SharedSubscriptionAvailable => value is Byte,
        PropertyId::UserProperty => value is StringPair,
    }
}

/// What is wrong with a property's value, if anything.
pub open spec fn property_check(id: PropertyId, value: PropertyValueView) -> Result<()> {
    if !has_wire_type(id, value) {
        Err(Error::MalformedPacket("property value has wrong wire type"))
    } else {
        match (id, value) {
            (PropertyId::ResponseTopic, PropertyValueView::Str(topic)) => topic_name_check(topic),
            (PropertyId::AssignedClientIdentifier, PropertyValueView::Str(identifier)) => {
                if identifier.len() == 0 {
                    Err(Error::MalformedPacket("assigned client identifier must be non-empty"))
                } else {
                    Ok(())
                }
            },
            (PropertyId::ReceiveMaximum, PropertyValueView::U16(v)) => {
                if v == 0 {
                    Err(Error::MalformedPacket("receive maximum must be non-zero"))
                } else {
                    Ok(())
                }
            },
            (PropertyId::MaximumPacketSize, PropertyValueView::U32(v)) => {
                if v == 0 {
                    Err(Error::MalformedPacket("maximum packet size must be non-zero"))
                } else {
                    Ok(())
                }
            },
            (PropertyId::MaximumQoS, PropertyValueView::Byte(v)) => {
                if v > 1 {
                    Err(Error::MalformedPacket("maximum QoS exceeds one"))
                } else {
                    Ok(())
                }
            },
            (_, PropertyValueView::Byte(v)) => {
                if v > 1 {
                    Err(Error::MalformedPacket("availability property must be zero or one"))
                } else {
                    Ok(())
                }
            },
            _ => Ok(()),
        }
    }
}

fn validate_property(id: PropertyId, value: &PropertyValue) -> (r: Result<()>)
    ensures
        r == property_check(id, value@),
{
    let valid_type = match id {
        PropertyId::ResponseTopic
        | PropertyId::AssignedClientIdentifier
        | PropertyId::ReasonString => matches!(value, PropertyValue::Str(_)),
        PropertyId::CorrelationData => matches!(value, PropertyValue::Binary(_)),
        PropertyId::SessionExpiryInterval | PropertyId::MaximumPacketSize => {
            matches!(value, PropertyValue::U32(_))
        },
        PropertyId::ServerKeepAlive
        | PropertyId::ReceiveMaximum
        | PropertyId::TopicAliasMaximum => matches!(value, PropertyValue::U16(_)),
        PropertyId::MaximumQoS
        | PropertyId::RetainAvailable
        | PropertyId::WildcardSubscriptionAvailable
        | PropertyId::SharedSubscriptionAvailable => matches!(value, PropertyValue::Byte(_)),
        PropertyId::UserProperty => matches!(value, PropertyValue::StringPair(_, _)),
    };
    if !valid_type {
        return Err(Error::MalformedPacket("property value has wrong wire type"));
    }
    match (id, value) {
        (PropertyId::ResponseTopic, PropertyValue::Str(topic)) => {
            validate_topic_name(topic.as_str())
        },
        (PropertyId::AssignedClientIdentifier, PropertyValue::Str(identifier)) => {
            if crate::text::chars_of(identifier.as_str()).is_empty() {
                Err(Error::MalformedPacket("assigned client identifier must be non-empty"))
            } else {
                Ok(())
            }
        },
        (PropertyId::ReceiveMaximum, PropertyValue::U16(0)) => Err(
            Error::MalformedPacket("receive maximum must be non-zero"),
        ),
        (PropertyId::MaximumPacketSize, PropertyValue::U32(0)) => Err(
            Error::MalformedPacket("maximum packet size must be non-zero"),
        ),
        (PropertyId::MaximumQoS, PropertyValue::Byte(value)) => {
            if *value > 1 {
                Err(Error::MalformedPacket("maximum QoS exceeds one"))
            } else {
                Ok(())
            }
        },
        (_, PropertyValue::Byte(value)) => {
            if *value > 1 {
                Err(Error::MalformedPacket("availability property must be zero or one"))
            } else {
                Ok(())
            }
        },
        _ => Ok(()),
    }
}

/// A property value on the wire, or the error for a field that is too long.
pub open spec fn encoded_value(value: PropertyValueView) -> Result<Seq<u8>> {
    match value {
        PropertyValueView::Byte(b) => Ok(seq![b]),
        PropertyValueView::U16(v) => Ok(u16_bytes(v)),
        PropertyValueView::U32(v) => Ok(u32_bytes(v)),
        PropertyValueView::Str(s) => encoded_string(s),
        PropertyValueView::Binary(data) => encoded_binary(data),
        PropertyValueView::StringPair(k, v) => match (encoded_string(k), encoded_string(v)) {
            (Err(e), _) => Err(e),
            (_, Err(e)) => Err(e),
            (Ok(key), Ok(val)) => Ok(key + val),
        },
    }
}

/// Whether a property before the one at `n` has its identifier.
pub open spec fn repeats(entries: Seq<Entry>, n: int) -> bool {
    exists|j: int| 0 <= j < n && (#[trigger] entries[j]).0 == entries[n].0
}

/// The property at `n` on the wire, or the first thing that is wrong with it: a packet
/// that may not carry it, its value, a second occurrence, or a field that is too long.
pub open spec fn encoded_entry(
    entries: Seq<Entry>,
    n: int,
    context: Option<PropertyContext>,
) -> Result<Seq<u8>> {
    let (id, value) = entries[n];
    if !context_allows(context, id.spec_code()) {
        Err(Error::MalformedPacket("property is not allowed in this packet"))
    } else if property_check(id, value) is Err {
        Err(property_check(id, value)->Err_0)
    } else if id != PropertyId::UserProperty && repeats(entries, n) {
        Err(Error::MalformedPacket("duplicate singleton property"))
    } else {
        match encoded_value(value) {
            Ok(bytes) => Ok(variable_int_bytes(id.spec_code() as nat) + bytes),
            Err(e) => Err(e),
        }
    }
}

/// The first `n` properties on the wire, or what is wrong with the first bad one.
pub open spec fn encoded_entries(
    entries: Seq<Entry>,
    n: nat,
    context: Option<PropertyContext>,
) -> Result<Seq<u8>>
    decreases n,
{
    if n == 0 {
        Ok(Seq::empty())
    } else {
        match encoded_entries(entries, (n - 1) as nat, context) {
            Err(e) => Err(e),
            Ok(before) => match encoded_entry(entries, n - 1, context) {
                Err(e) => Err(e),
                Ok(bytes) => Ok(before + bytes),
            },
        }
    }
}

/// A property section on the wire: the length of its entries, then the entries.
pub open spec fn encoded_properties(
    entries: Seq<Entry>,
    context: Option<PropertyContext>,
) -> Result<Seq<u8>> {
    match encoded_entries(entries, entries.len(), context) {
        Err(e) => Err(e),
        Ok(body) => match encoded_length(body.len()) {
            Err(e) => Err(e),
            Ok(length) => Ok(length + body),
        },
    }
}

/// The number of bytes that a value takes on the wire.
pub open spec fn value_len(value: PropertyValueView) -> nat {
    match value {
        PropertyValueView::Byte(_) => 1,
        PropertyValueView::U16(_) => 2,
        PropertyValueView::U32(_) => 4,
        PropertyValueView::Str(s) => 2 + vstd::utf8::encode_utf8(s).len(),
        PropertyValueView::Binary(data) => 2 + data.len(),
        PropertyValueView::StringPair(k, v) => 4 + vstd::utf8::encode_utf8(k).len()
            + vstd::utf8::encode_utf8(v).len(),
    }
}

/// The number of bytes that the first `n` properties take on the wire.
pub open spec fn entries_len(entries: Seq<Entry>, n: nat) -> nat
    decreases n,
{
    if n == 0 {
        0
    } else {
        entries_len(entries, (n - 1) as nat) + 1 + value_len(entries[n - 1].1)
    }
}

/// The entries whose identifier is not `id`, in order.
pub open spec fn without(entries: Seq<Entry>, id: PropertyId) -> Seq<Entry>
    decreases entries.len(),
{
    if entries.len() == 0 {
        entries
    } else if entries.last().0 == id {
        without(entries.drop_last(), id)
    } else {
        without(entries.drop_last(), id).push(entries.last())
    }
}

/// The keys and values of the user properties, in order.
pub open spec fn user_pairs(entries: Seq<Entry>) -> Seq<(Seq<char>, Seq<char>)>
    decreases entries.len(),
{
    if entries.len() == 0 {
        Seq::empty()
    } else {
        let before = user_pairs(entries.drop_last());
        match entries.last() {
            (PropertyId::UserProperty, PropertyValueView::StringPair(k, v)) => before.push((k, v)),
            _ => before,
        }
    }
}

/// The wire type of a value.
#[derive(Debug, Clone, Copy, PartialEq, Eq, Structural)]
pub enum ValueKind {
    Byte,
    U16,
    U32,
    Str,
    Binary,
    StringPair,
}

/// The wire type of `value`.
pub open spec fn kind_of(value: PropertyValueView) -> ValueKind {
    match value {
        PropertyValueView::Byte(_) => ValueKind::Byte,
        PropertyValueView::U16(_) => ValueKind::U16,
        PropertyValueView::U32(_) => ValueKind::U32,
        PropertyValueView::Str(_) => ValueKind::Str,
        PropertyValueView::Binary(_) => ValueKind::Binary,
        PropertyValueView::StringPair(_, _) => ValueKind::StringPair,
    }
}

/// The value of the first property with this identifier and wire type.
pub open spec fn first_value(
    entries: Seq<Entry>,
    id: PropertyId,
    kind: ValueKind,
) -> Option<PropertyValueView>
    decreases entries.len(),
{
    if entries.len() == 0 {
        None
    } else if entries[0].0 == id && kind_of(entries[0].1) == kind {
        Some(entries[0].1)
    } else {
        first_value(entries.skip(1), id, kind)
    }
}

/// Flat list of properties. Linear scan is fine for the typical 0-5 items.
#[derive(Debug, PartialEq, Eq)]
pub struct Properties {
    entries: Vec<(PropertyId, PropertyValue)>,
}

/// The identifiers and values of a list of properties.
pub open spec fn entry_views(entries: Seq<(PropertyId, PropertyValue)>) -> Seq<Entry> {
    Seq::new(entries.len(), |i: int| (entries[i].0, entries[i].1@))
}

impl View for Properties {
    type V = Seq<Entry>;

    closed spec fn view(&self) -> Seq<Entry> {
        entry_views(self.entries@)
    }
}

impl Clone for Properties {
    fn clone(&self) -> (r: Self)
        ensures
            r@ == self@,
    {
        let mut entries: Vec<(PropertyId, PropertyValue)> = Vec::new();
        let mut i: usize = 0;
        while i < self.entries.len()
            invariant
                i <= self.entries.len(),
                entries.len() == i,
                forall|j: int|
                    0 <= j < i ==> entries@[j].0 == self.entries@[j].0 && entries@[j].1@
                        == self.entries@[j].1@,
            decreases self.entries.len() - i,
        {
            let entry = &self.entries[i];
            entries.push((entry.0, entry.1.clone()));
            i += 1;
        }
        let r = Properties { entries };
        assert(r@ =~= self@);
        r
    }
}

impl Default for Properties {
    fn default() -> (r: Self)
        ensures
            r@ == Seq::<Entry>::empty(),
    {
        let r = Properties { entries: Vec::new() };
        assert(r@ =~= Seq::empty());
        r
    }
}

impl Properties {
    pub fn new() -> (r: Self)
        ensures
            r@ == Seq::<Entry>::empty(),
    {
        Self::default()
    }

    pub fn push(&mut self, id: PropertyId, value: PropertyValue)
        ensures
            final(self)@ == old(self)@.push((id, value@)),
    {
        self.entries.push((id, value));
        assert(self@ =~= old(self)@.push((id, value@)));
    }

    pub fn user(self, key: &str, value: &str) -> (r: Self)
        ensures
            r@ == self@.push(
                (PropertyId::UserProperty, PropertyValueView::StringPair(key@, value@)),
            ),
    {
        let mut properties = self;
        properties.push(
            PropertyId::UserProperty,
            PropertyValue::StringPair(key.to_owned(), value.to_owned()),
        );
        properties
    }

    /// Set the standard MQTT v5 Response Topic property.
    pub fn set_response_topic(&mut self, topic: &str)
        ensures
            final(self)@ == without(old(self)@, PropertyId::ResponseTopic).push(
                (PropertyId::ResponseTopic, PropertyValueView::Str(topic@)),
            ),
    {
        self.replace_single(PropertyId::ResponseTopic, PropertyValue::Str(topic.to_owned()));
    }

    pub fn with_response_topic(self, topic: &str) -> (r: Self)
        ensures
            r@ == without(self@, PropertyId::ResponseTopic).push(
                (PropertyId::ResponseTopic, PropertyValueView::Str(topic@)),
            ),
    {
        let mut properties = self;
        properties.set_response_topic(topic);
        properties
    }

    pub fn response_topic(&self) -> (r: Option<&str>)
        ensures
            match first_value(self@, PropertyId::ResponseTopic, ValueKind::Str) {
                Some(PropertyValueView::Str(topic)) => r matches Some(t) && t@ == topic,
                _ => r is None,
            },
    {
        self.get_string(PropertyId::ResponseTopic)
    }

    /// Set the standard MQTT v5 Correlation Data property.
    pub fn set_correlation_data(&mut self, data: Vec<u8>)
        ensures
            final(self)@ == without(old(self)@, PropertyId::CorrelationData).push(
                (PropertyId::CorrelationData, PropertyValueView::Binary(data@)),
            ),
    {
        self.replace_single(PropertyId::CorrelationData, PropertyValue::Binary(data));
    }

    pub fn with_correlation_data(self, data: Vec<u8>) -> (r: Self)
        ensures
            r@ == without(self@, PropertyId::CorrelationData).push(
                (PropertyId::CorrelationData, PropertyValueView::Binary(data@)),
            ),
    {
        let mut properties = self;
        properties.set_correlation_data(data);
        properties
    }

    pub fn correlation_data(&self) -> (r: Option<&[u8]>)
        ensures
            match first_value(self@, PropertyId::CorrelationData, ValueKind::Binary) {
                Some(PropertyValueView::Binary(data)) => r matches Some(d) && d@ == data,
                _ => r is None,
            },
    {
        self.get_binary(PropertyId::CorrelationData)
    }

    fn replace_single(&mut self, id: PropertyId, value: PropertyValue)
        ensures
            final(self)@ == without(old(self)@, id).push((id, value@)),
    {
        let mut i: usize = 0;
        while i < self.entries.len()
            invariant
                i <= self.entries.len(),
                without(self@, id) == without(old(self)@, id),
                forall|j: int| 0 <= j < i ==> self@[j].0 != id,
            decreases self.entries.len() - i,
        {
            let ghost before = self@;
            assert(before[i as int].0 == self.entries@[i as int].0);
            if self.entries[i].0 == id {
                let _ = self.entries.remove(i);
                assert(self@ =~= before.remove(i as int));
                proof {
                    without_remove(before, i as int, id);
                }
            } else {
                i += 1;
            }
        }
        proof {
            without_absent(self@, id);
        }
        self.push(id, value);
    }

    fn find(&self, id: PropertyId, kind: ValueKind) -> (r: Option<&PropertyValue>)
        ensures
            match first_value(self@, id, kind) {
                Some(value) => r matches Some(v) && v@ == value && kind_of(value) == kind,
                None => r is None,
            },
    {
        let mut i: usize = 0;
        assert(self@.skip(0) =~= self@);
        while i < self.entries.len()
            invariant
                i <= self.entries.len(),
                first_value(self@, id, kind) == first_value(self@.skip(i as int), id, kind),
            decreases self.entries.len() - i,
        {
            let entry = &self.entries[i];
            assert(self@.skip(i as int)[0] == (entry.0, entry.1@));
            assert(self@.skip(i as int).skip(1) =~= self@.skip(i + 1));
            if entry.0 == id && entry.1.kind() == kind {
                return Some(&entry.1);
            }
            i += 1;
        }
        None
    }

    pub fn get_byte(&self, id: PropertyId) -> (r: Option<u8>)
        ensures
            match first_value(self@, id, ValueKind::Byte) {
                Some(PropertyValueView::Byte(v)) => r == Some(v),
                _ => r is None,
            },
    {
        match self.find(id, ValueKind::Byte) {
            Some(PropertyValue::Byte(v)) => Some(*v),
            _ => None,
        }
    }

    pub fn get_u16(&self, id: PropertyId) -> (r: Option<u16>)
        ensures
            match first_value(self@, id, ValueKind::U16) {
                Some(PropertyValueView::U16(v)) => r == Some(v),
                _ => r is None,
            },
    {
        match self.find(id, ValueKind::U16) {
            Some(PropertyValue::U16(v)) => Some(*v),
            _ => None,
        }
    }

    pub fn get_u32(&self, id: PropertyId) -> (r: Option<u32>)
        ensures
            match first_value(self@, id, ValueKind::U32) {
                Some(PropertyValueView::U32(v)) => r == Some(v),
                _ => r is None,
            },
    {
        match self.find(id, ValueKind::U32) {
            Some(PropertyValue::U32(v)) => Some(*v),
            _ => None,
        }
    }

    pub fn get_string(&self, id: PropertyId) -> (r: Option<&str>)
        ensures
            match first_value(self@, id, ValueKind::Str) {
                Some(PropertyValueView::Str(v)) => r matches Some(s) && s@ == v,
                _ => r is None,
            },
    {
        match self.find(id, ValueKind::Str) {
            Some(PropertyValue::Str(v)) => Some(v.as_str()),
            _ => None,
        }
    }

    pub fn get_binary(&self, id: PropertyId) -> (r: Option<&[u8]>)
        ensures
            match first_value(self@, id, ValueKind::Binary) {
                Some(PropertyValueView::Binary(v)) => r matches Some(b) && b@ == v,
                _ => r is None,
            },
    {
        match self.find(id, ValueKind::Binary) {
            Some(PropertyValue::Binary(v)) => Some(v.as_slice()),
            _ => None,
        }
    }

    /// All user properties, in order.
    pub fn user_properties(&self) -> (r: Vec<(&str, &str)>)
        ensures
            r@.len() == user_pairs(self@).len(),
            forall|i: int|
                0 <= i < r@.len() ==> (#[trigger] r@[i]).0@ == user_pairs(self@)[i].0 && r@[i].1@
                    == user_pairs(self@)[i].1,
    {
        let mut pairs: Vec<(&str, &str)> = Vec::new();
        let mut i: usize = 0;
        assert(self@.take(0) =~= Seq::empty());
        while i < self.entries.len()
            invariant
                i <= self.entries.len(),
                pairs@.len() == user_pairs(self@.take(i as int)).len(),
                forall|j: int|
                    0 <= j < pairs@.len() ==> (#[trigger] pairs@[j]).0@ == user_pairs(
                        self@.take(i as int),
                    )[j].0 && pairs@[j].1@ == user_pairs(self@.take(i as int))[j].1,
            decreases self.entries.len() - i,
        {
            assert(self@.take(i + 1).drop_last() =~= self@.take(i as int));
            assert(self@.take(i + 1).last() == (self.entries@[i as int].0, self.entries@[i as int].1@));
            let entry = &self.entries[i];
            if entry.0 == PropertyId::UserProperty {
                if let PropertyValue::StringPair(k, v) = &entry.1 {
                    pairs.push((k.as_str(), v.as_str()));
                }
            }
            i += 1;
        }
        assert(self@.take(i as int) =~= self@);
        pairs
    }

    pub fn is_empty(&self) -> (r: bool)
        ensures
            r == (self@.len() == 0),
    {
        self.entries.is_empty()
    }

    /// Encode properties into buffer. Writes the variable-int length prefix followed by entries.
    pub fn encode(&self, buf: &mut Vec<u8>) -> (r: Result<()>)
        ensures
            appends(old(buf)@, final(buf)@, r, encoded_properties(self@, None)),
    {
        self.encode_inner(buf, None)
    }

    /// Encode the properties of a packet of the given type.
    pub fn encode_for(&self, buf: &mut Vec<u8>, context: PropertyContext) -> (r: Result<()>)
        ensures
            appends(old(buf)@, final(buf)@, r, encoded_properties(self@, Some(context))),
    {
        self.encode_inner(buf, Some(context))
    }

    fn encode_inner(&self, buf: &mut Vec<u8>, context: Option<PropertyContext>) -> (r: Result<()>)
        ensures
            appends(old(buf)@, final(buf)@, r, encoded_properties(self@, context)),
    {
        let mut body: Vec<u8> = Vec::new();
        let mut index: usize = 0;
        while index < self.entries.len()
            invariant
                index <= self.entries.len(),
                buf@ == old(buf)@,
                encoded_entries(self@, index as nat, context) == Ok::<Seq<u8>, Error>(body@),
            decreases self.entries.len() - index,
        {
            let id = self.entries[index].0;
            let val = &self.entries[index].1;
            let ghost before = body@;
            assert(self@[index as int] == (id, val@));
            let ghost entry = encoded_entry(self@, index as int, context);
            assert(encoded_entries(self@, (index + 1) as nat, context) == (match entry {
                Err(e) => Err(e),
                Ok(bytes) => Ok(before + bytes),
            }));
            proof {
                error_is_final(self@, (index + 1) as nat, self@.len(), context);
            }
            if !is_allowed(context, id.code()) {
                return Err(Error::MalformedPacket("property is not allowed in this packet"));
            }
            validate_property(id, val)?;
            if id != PropertyId::UserProperty && self.repeats_before(index) {
                return Err(Error::MalformedPacket("duplicate singleton property"));
            }
            encode_variable_int(&mut body, id.code() as u32)?;
            encode_value(&mut body, val)?;
            assert(body@ =~= before + entry->Ok_0);
            index += 1;
        }
        encode_length(buf, body.len())?;
        buf.extend_from_slice(&body);
        assert(buf@ =~= old(buf)@ + encoded_properties(self@, context)->Ok_0);
        Ok(())
    }

    fn repeats_before(&self, index: usize) -> (r: bool)
        requires
            index < self@.len(),
        ensures
            r == repeats(self@, index as int),
    {
        let id = self.entries[index].0;
        let mut j: usize = 0;
        while j < index
            invariant
                j <= index < self.entries.len(),
                id == self@[index as int].0,
                forall|k: int| 0 <= k < j ==> (#[trigger] self@[k]).0 != id,
            decreases index - j,
        {
            if self.entries[j].0 == id {
                assert(self@[j as int].0 == id);
                return true;
            }
            j += 1;
        }
        false
    }

    /// Encoded byte length of the properties (including the length prefix).
    pub fn encoded_len(&self) -> (r: usize)
        requires
            entries_len(self@, self@.len()) + 4 <= usize::MAX,
        ensures
            r == entries_len(self@, self@.len()) + length_prefix_len(
                entries_len(self@, self@.len()) as u32,
            ),
            encoded_properties(self@, None) matches Ok(bytes) ==> r == bytes.len(),
    {
        let body_len: usize = self.body_len();
        proof {
            encoded_entries_len(self@, self@.len(), None);
        }
        variable_int_len(body_len as u32) + body_len
    }

    fn body_len(&self) -> (r: usize)
        requires
            entries_len(self@, self@.len()) <= usize::MAX,
        ensures
            r == entries_len(self@, self@.len()),
    {
        let mut len: usize = 0;
        let mut i: usize = 0;
        while i < self.entries.len()
            invariant
                i <= self.entries.len(),
                len == entries_len(self@, i as nat),
                entries_len(self@, self@.len()) <= usize::MAX,
            decreases self.entries.len() - i,
        {
            let id_len: usize = variable_int_len(self.entries[i].0.code() as u32);
            assert(self@[i as int] == (self.entries@[i as int].0, self.entries@[i as int].1@));
            proof {
                entries_len_monotonic(self@, (i + 1) as nat, self@.len());
            }
            let val_len: usize = match &self.entries[i].1 {
                PropertyValue::Byte(_) => 1,
                PropertyValue::U16(_) => 2,
                PropertyValue::U32(_) => 4,
                PropertyValue::Str(s) => string_len(s.as_str()),
                PropertyValue::Binary(bytes) => binary_len(bytes.as_slice()),
                PropertyValue::StringPair(k, v) => string_len(k.as_str()) + string_len(v.as_str()),
            };
            len += id_len + val_len;
            i += 1;
        }
        len
    }
}

/// The number of bytes that the length of a section of `len` bytes takes.
pub open spec fn length_prefix_len(len: u32) -> int {
    if len <= 127 {
        1
    } else if len <= 16_383 {
        2
    } else if len <= 2_097_151 {
        3
    } else {
        4
    }
}

fn encode_value(body: &mut Vec<u8>, value: &PropertyValue) -> (r: Result<()>)
    ensures
        match encoded_value(value@) {
            Ok(bytes) => r is Ok && final(body)@ == old(body)@ + bytes,
            Err(e) => r == Err::<(), _>(e),
        },
{
    match value {
        PropertyValue::Byte(b) => {
            body.push(*b);
            assert(body@ =~= old(body)@ + seq![*b]);
        },
        PropertyValue::U16(v) => encode_u16(body, *v),
        PropertyValue::U32(v) => encode_u32(body, *v),
        PropertyValue::Str(s) => encode_string(body, s.as_str())?,
        PropertyValue::Binary(bytes) => encode_binary(body, bytes.as_slice())?,
        PropertyValue::StringPair(k, v) => {
            encode_string(body, k.as_str())?;
            encode_string(body, v.as_str())?;
            assert(body@ =~= old(body)@ + encoded_value(value@)->Ok_0);
        },
    }
    Ok(())
}

proof fn error_is_final(entries: Seq<Entry>, n: nat, m: nat, context: Option<PropertyContext>)
    requires
        n <= m,
    ensures
        encoded_entries(entries, n, context) matches Err(e) ==> encoded_entries(entries, m, context)
            == Err::<Seq<u8>, _>(e),
    decreases m,
{
    if n < m {
        error_is_final(entries, n, (m - 1) as nat, context);
    }
}

proof fn entries_len_monotonic(entries: Seq<Entry>, n: nat, m: nat)
    requires
        n <= m,
    ensures
        entries_len(entries, n) <= entries_len(entries, m),
    decreases m,
{
    if n < m {
        entries_len_monotonic(entries, n, (m - 1) as nat);
    }
}

/// Encoded properties take the bytes that their lengths say.
pub proof fn encoded_entries_len(entries: Seq<Entry>, n: nat, context: Option<PropertyContext>)
    requires
        n <= entries.len(),
    ensures
        encoded_entries(entries, n, context) matches Ok(body) ==> body.len() == entries_len(
            entries,
            n,
        ),
    decreases n,
{
    if n > 0 {
        encoded_entries_len(entries, (n - 1) as nat, context);
        property_id_round_trip(entries[n - 1].0, 0);
    }
}

/// Whether a section may hold the property more than once.
pub open spec fn repeatable(id: u8, context: Option<PropertyContext>) -> bool {
    id == 0x26 || (id == 0x0B && (context is None || context == Some(PropertyContext::Publish)))
}

/// The value of the typed property `id` at `pos`, and the position behind what was read.
pub open spec fn take_value(buf: Seq<u8>, pos: int, id: PropertyId) -> (
    Result<PropertyValueView>,
    int,
) {
    match id {
        PropertyId::MaximumQoS
        | PropertyId::RetainAvailable
        | PropertyId::WildcardSubscriptionAvailable
        | PropertyId::SharedSubscriptionAvailable => match take_u8(buf, pos) {
            (Ok(v), end) => (Ok(PropertyValueView::Byte(v)), end),
            (Err(e), end) => (Err(e), end),
        },
        PropertyId::ReceiveMaximum
        | PropertyId::ServerKeepAlive
        | PropertyId::TopicAliasMaximum => match take_u16(buf, pos) {
            (Ok(v), end) => (Ok(PropertyValueView::U16(v)), end),
            (Err(e), end) => (Err(e), end),
        },
        PropertyId::SessionExpiryInterval | PropertyId::MaximumPacketSize => match take_u32(
            buf,
            pos,
        ) {
            (Ok(v), end) => (Ok(PropertyValueView::U32(v)), end),
            (Err(e), end) => (Err(e), end),
        },
        PropertyId::ResponseTopic
        | PropertyId::AssignedClientIdentifier
        | PropertyId::ReasonString => match take_string(buf, pos) {
            (Ok(s), end) => (Ok(PropertyValueView::Str(s)), end),
            (Err(e), end) => (Err(e), end),
        },
        PropertyId::CorrelationData => match take_binary(buf, pos) {
            (Ok(data), end) => (Ok(PropertyValueView::Binary(data)), end),
            (Err(e), end) => (Err(e), end),
        },
        PropertyId::UserProperty => match take_string(buf, pos) {
            (Ok(k), middle) => match take_string(buf, middle) {
                (Ok(v), end) => (Ok(PropertyValueView::StringPair(k, v)), end),
                (Err(e), end) => (Err(e), end),
            },
            (Err(e), end) => (Err(e), end),
        },
    }
}

/// A reader's outcome without the value that it read.
pub open spec fn forget<T>(read: (Result<T>, int)) -> (Result<()>, int) {
    match read {
        (Ok(_), end) => (Ok(()), end),
        (Err(e), end) => (Err(e), end),
    }
}

/// A byte at `pos` that must be zero or one.
pub open spec fn skip_flag(buf: Seq<u8>, pos: int, complaint: Error) -> (Result<()>, int) {
    match take_u8(buf, pos) {
        (Ok(v), end) => if v > 1 {
            (Err(complaint), end)
        } else {
            (Ok(()), end)
        },
        (Err(e), end) => (Err(e), end),
    }
}

/// Walk over the value of the property with number `id` at `pos`: what is wrong with it,
/// and the position behind what was read.
pub open spec fn skip_value(buf: Seq<u8>, pos: int, id: u8) -> (Result<()>, int) {
    match id {
        0x01 => skip_flag(
            buf,
            pos,
            Error::MalformedPacket("payload format indicator must be zero or one"),
        ),
        0x29 => skip_flag(
            buf,
            pos,
            Error::MalformedPacket("subscription identifiers available must be zero or one"),
        ),
        0x17 | 0x19 | 0x24 => forget(take_u8(buf, pos)),
        0x13 | 0x21 | 0x22 => forget(take_u16(buf, pos)),
        0x02 | 0x11 | 0x18 | 0x27 => forget(take_u32(buf, pos)),
        0x0B => match take_variable_int(buf, pos) {
            (Ok(v), end) => if v == 0 {
                (Err(Error::MalformedPacket("subscription identifier must be non-zero")), end)
            } else {
                (Ok(()), end)
            },
            (Err(e), end) => (Err(e), end),
        },
        0x03 | 0x08 | 0x12 | 0x15 | 0x1A | 0x1C | 0x1F => forget(take_string(buf, pos)),
        0x09 | 0x16 => forget(take_binary(buf, pos)),
        0x26 => match take_string(buf, pos) {
            (Ok(_), middle) => forget(take_string(buf, middle)),
            (Err(e), end) => (Err(e), end),
        },
        _ => (Err(Error::MalformedPacket("unknown property id")), pos),
    }
}

/// One property at `pos` in a section that ends at `end`: its number and, if it is a
/// typed one, its entry; and the position behind what was read. `seen` holds the numbers
/// of the properties before it.
pub open spec fn take_property(
    buf: Seq<u8>,
    pos: int,
    end: int,
    context: Option<PropertyContext>,
    seen: Seq<u8>,
) -> (Result<(u8, Option<Entry>)>, int) {
    match take_variable_int(buf, pos) {
        (Err(e), at) => (Err(e), at),
        (Ok(raw), at) => if raw > 255 {
            (Err(Error::MalformedPacket("property id exceeds one byte")), at)
        } else {
            let id = raw as u8;
            if id == 0x23 {
                (Err(Error::MalformedPacket("topic alias is not supported")), at)
            } else if !context_allows(context, id) {
                (Err(Error::MalformedPacket("property is not allowed in this packet")), at)
            } else if !repeatable(id, context) && seen.contains(id) {
                (Err(Error::MalformedPacket("duplicate singleton property")), at)
            } else {
                match property_id_of(id) {
                    None => match skip_value(buf, at, id) {
                        (Err(e), after) => (Err(e), after),
                        (Ok(_), after) => if after > end {
                            (Err(Error::MalformedPacket("property exceeded declared length")), after)
                        } else {
                            (Ok((id, None)), after)
                        },
                    },
                    Some(known) => match take_value(buf, at, known) {
                        (Err(e), after) => (Err(e), after),
                        (Ok(value), after) => if after > end {
                            (Err(Error::MalformedPacket("property exceeded declared length")), after)
                        } else {
                            match property_check(known, value) {
                                Err(e) => (Err(e), after),
                                Ok(_) => (Ok((id, Some((known, value)))), after),
                            }
                        },
                    },
                }
            }
        },
    }
}

proof fn take_groups_advances(buf: Seq<u8>, pos: int, left: nat)
    requires
        0 <= pos <= buf.len(),
    ensures
        take_groups(buf, pos, left).0 is Ok ==> pos < take_groups(buf, pos, left).1,
        pos <= take_groups(buf, pos, left).1 <= buf.len(),
    decreases left,
{
    if left > 1 && pos + 1 <= buf.len() {
        take_groups_advances(buf, pos + 1, (left - 1) as nat);
    }
}

proof fn take_property_advances(
    buf: Seq<u8>,
    pos: int,
    end: int,
    context: Option<PropertyContext>,
    seen: Seq<u8>,
)
    requires
        0 <= pos <= buf.len(),
    ensures
        take_property(buf, pos, end, context, seen).0 is Ok ==> pos < take_property(
            buf,
            pos,
            end,
            context,
            seen,
        ).1 <= end,
        pos <= take_property(buf, pos, end, context, seen).1 <= buf.len(),
{
    take_groups_advances(buf, pos, 4);
    let at = take_variable_int(buf, pos).1;
    take_groups_advances(buf, at, 4);
}

/// The properties from `pos` to `end`, behind those in `entries`, and the position where
/// reading stops. `seen` holds the numbers of the properties before `pos`.
pub open spec fn take_entries(
    buf: Seq<u8>,
    pos: int,
    end: int,
    context: Option<PropertyContext>,
    seen: Seq<u8>,
    entries: Seq<Entry>,
) -> (Result<Seq<Entry>>, int)
    decreases end - pos,
    when 0 <= pos <= end <= buf.len()
    via take_entries_terminates
{
    if pos >= end {
        (Ok(entries), pos)
    } else {
        match take_property(buf, pos, end, context, seen) {
            (Err(e), at) => (Err(e), at),
            (Ok((id, None)), at) => take_entries(buf, at, end, context, seen.push(id), entries),
            (Ok((id, Some(entry))), at) => take_entries(
                buf,
                at,
                end,
                context,
                seen.push(id),
                entries.push(entry),
            ),
        }
    }
}

#[via_fn]
proof fn take_entries_terminates(
    buf: Seq<u8>,
    pos: int,
    end: int,
    context: Option<PropertyContext>,
    seen: Seq<u8>,
    entries: Seq<Entry>,
) {
    take_property_advances(buf, pos, end, context, seen);
}

/// The property section at `pos`, and the position where reading stops.
pub open spec fn take_properties(buf: Seq<u8>, pos: int, context: Option<PropertyContext>) -> (
    Result<Seq<Entry>>,
    int,
) {
    match take_variable_int(buf, pos) {
        (Err(e), at) => (Err(e), at),
        (Ok(len), at) => if at + len > buf.len() {
            (Err(Error::MalformedPacket("property length exceeds packet")), at)
        } else {
            take_entries(buf, at, at + len, context, Seq::empty(), Seq::empty())
        },
    }
}

impl Properties {
    /// Decode properties from a cursor. Reads the length prefix, then decodes entries.
    pub fn decode(cur: &mut Cursor<'_>) -> (r: Result<Self>)
        ensures
            match take_properties(old(cur).bytes(), old(cur).at(), None).0 {
                Ok(entries) => r matches Ok(properties) && properties@ == entries,
                Err(e) => r == Err::<Self, _>(e),
            },
            final(cur).moved(old(cur), take_properties(old(cur).bytes(), old(cur).at(), None).1),
    {
        Self::decode_inner(cur, None)
    }

    /// Decode the properties of a packet of the given type.
    pub fn decode_for(cur: &mut Cursor<'_>, context: PropertyContext) -> (r: Result<Self>)
        ensures
            match take_properties(old(cur).bytes(), old(cur).at(), Some(context)).0 {
                Ok(entries) => r matches Ok(properties) && properties@ == entries,
                Err(e) => r == Err::<Self, _>(e),
            },
            final(cur).moved(
                old(cur),
                take_properties(old(cur).bytes(), old(cur).at(), Some(context)).1,
            ),
    {
        Self::decode_inner(cur, Some(context))
    }

    fn decode_inner(cur: &mut Cursor<'_>, context: Option<PropertyContext>) -> (r: Result<Self>)
        ensures
            match take_properties(old(cur).bytes(), old(cur).at(), context).0 {
                Ok(entries) => r matches Ok(properties) && properties@ == entries,
                Err(e) => r == Err::<Self, _>(e),
            },
            final(cur).moved(old(cur), take_properties(old(cur).bytes(), old(cur).at(), context).1),
    {
        let prop_len: usize = cur.read_variable_int()? as usize;
        if prop_len == 0 {
            return Ok(Properties::new());
        }
        if cur.remaining() < prop_len {
            return Err(Error::MalformedPacket("property length exceeds packet"));
        }
        let end: usize = cur.position() + prop_len;
        let mut props = Properties::new();
        let mut seen_ids: Vec<u8> = Vec::new();
        let ghost bytes = cur.bytes();
        let ghost outcome = take_properties(old(cur).bytes(), old(cur).at(), context);
        while cur.position() < end
            invariant
                cur.bytes() == bytes,
                bytes == old(cur).bytes(),
                0 <= cur.at() <= end <= bytes.len() <= usize::MAX,
                outcome == take_properties(old(cur).bytes(), old(cur).at(), context),
                outcome == take_entries(
                    bytes,
                    cur.at(),
                    end as int,
                    context,
                    seen_ids@,
                    props@,
                ),
            decreases end - cur.at(),
        {
            let ghost here = cur.at();
            let ghost step = take_property(bytes, here, end as int, context, seen_ids@);
            proof {
                take_property_advances(bytes, here, end as int, context, seen_ids@);
            }
            let raw_id: u32 = cur.read_variable_int()?;
            if raw_id > 255 {
                return Err(Error::MalformedPacket("property id exceeds one byte"));
            }
            let id_byte: u8 = raw_id as u8;
            if id_byte == 0x23 {
                return Err(Error::MalformedPacket("topic alias is not supported"));
            }
            if !is_allowed(context, id_byte) {
                return Err(Error::MalformedPacket("property is not allowed in this packet"));
            }
            register_property_id(&mut seen_ids, id_byte, context)?;
            match PropertyId::from_u8(id_byte) {
                None => {
                    // Legal properties outside the typed subset are consumed and validated.
                    skip_property_value(cur, id_byte)?;
                    if cur.position() > end {
                        return Err(Error::MalformedPacket("property exceeded declared length"));
                    }
                },
                Some(id) => {
                    let value = read_property_value(cur, id)?;
                    if cur.position() > end {
                        return Err(Error::MalformedPacket("property exceeded declared length"));
                    }
                    validate_property(id, &value)?;
                    props.push(id, value);
                },
            }
        }
        Ok(props)
    }
}

fn register_property_id(
    seen_ids: &mut Vec<u8>,
    id: u8,
    context: Option<PropertyContext>,
) -> (r: Result<()>)
    ensures
        if !repeatable(id, context) && old(seen_ids)@.contains(id) {
            &&& r == Err::<(), _>(Error::MalformedPacket("duplicate singleton property"))
            &&& final(seen_ids)@ == old(seen_ids)@
        } else {
            r is Ok && final(seen_ids)@ == old(seen_ids)@.push(id)
        },
{
    let may_repeat = id == 0x26 || (id == 0x0B && matches!(
        context,
        None | Some(PropertyContext::Publish)
    ));
    if !may_repeat && contains_byte(seen_ids, id) {
        return Err(Error::MalformedPacket("duplicate singleton property"));
    }
    seen_ids.push(id);
    Ok(())
}

fn contains_byte(bytes: &Vec<u8>, b: u8) -> (r: bool)
    ensures
        r == bytes@.contains(b),
{
    let mut i: usize = 0;
    while i < bytes.len()
        invariant
            i <= bytes.len(),
            forall|j: int| 0 <= j < i ==> bytes@[j] != b,
        decreases bytes.len() - i,
    {
        if bytes[i] == b {
            assert(bytes@[i as int] == b);
            return true;
        }
        i += 1;
    }
    false
}

fn read_property_value(cur: &mut Cursor<'_>, id: PropertyId) -> (r: Result<PropertyValue>)
    ensures
        match take_value(old(cur).bytes(), old(cur).at(), id).0 {
            Ok(value) => r matches Ok(v) && v@ == value,
            Err(e) => r == Err::<PropertyValue, _>(e),
        },
        final(cur).moved(old(cur), take_value(old(cur).bytes(), old(cur).at(), id).1),
{
    let value = match id {
        PropertyId::MaximumQoS
        | PropertyId::RetainAvailable
        | PropertyId::WildcardSubscriptionAvailable
        | PropertyId::SharedSubscriptionAvailable => PropertyValue::Byte(cur.read_u8()?),
        PropertyId::ReceiveMaximum
        | PropertyId::ServerKeepAlive
        | PropertyId::TopicAliasMaximum => PropertyValue::U16(cur.read_u16()?),
        PropertyId::SessionExpiryInterval | PropertyId::MaximumPacketSize => {
            PropertyValue::U32(cur.read_u32()?)
        },
        PropertyId::ResponseTopic
        | PropertyId::AssignedClientIdentifier
        | PropertyId::ReasonString => PropertyValue::Str(cur.read_string()?),
        PropertyId::CorrelationData => PropertyValue::Binary(cur.read_binary()?),
        PropertyId::UserProperty => {
            let k = cur.read_string()?;
            let v = cur.read_string()?;
            PropertyValue::StringPair(k, v)
        },
    };
    Ok(value)
}

/// Skip over the value of a property outside the typed subset.
///
/// MQTT v5 defines the data type for every property ID, so the right number of bytes is
/// consumed and the cursor stays in sync.
fn skip_property_value(cur: &mut Cursor<'_>, id: u8) -> (r: Result<()>)
    ensures
        r == skip_value(old(cur).bytes(), old(cur).at(), id).0,
        final(cur).moved(old(cur), skip_value(old(cur).bytes(), old(cur).at(), id).1),
{
    match id {
        0x01 => {
            if cur.read_u8()? > 1 {
                return Err(Error::MalformedPacket("payload format indicator must be zero or one"));
            }
        },
        0x29 => {
            if cur.read_u8()? > 1 {
                return Err(
                    Error::MalformedPacket(
                        "subscription identifiers available must be zero or one",
                    ),
                );
            }
        },
        // Byte properties: RequestProblemInformation, RequestResponseInformation, MaximumQoS
        0x17 | 0x19 | 0x24 => {
            cur.read_u8()?;
        },
        // Two-byte integer properties: ServerKeepAlive, ReceiveMaximum, TopicAliasMaximum
        0x13 | 0x21 | 0x22 => {
            cur.read_u16()?;
        },
        // Four-byte integer properties: MessageExpiryInterval, SessionExpiryInterval,
        // WillDelayInterval, MaximumPacketSize
        0x02 | 0x11 | 0x18 | 0x27 => {
            cur.read_u32()?;
        },
        // Variable byte integer property: SubscriptionIdentifier
        0x0B => {
            if cur.read_variable_int()? == 0 {
                return Err(Error::MalformedPacket("subscription identifier must be non-zero"));
            }
        },
        // UTF-8 string properties: ContentType, ResponseTopic, AssignedClientIdentifier,
        // AuthenticationMethod, ResponseInformation, ServerReference, ReasonString
        0x03 | 0x08 | 0x12 | 0x15 | 0x1A | 0x1C | 0x1F => {
            cur.read_string()?;
        },
        // Binary data properties: CorrelationData, AuthenticationData
        0x09 | 0x16 => {
            cur.read_binary()?;
        },
        // UTF-8 string pair: UserProperty
        0x26 => {
            cur.read_string()?;
            cur.read_string()?;
        },
        _ => {
            // The cursor stays where it is, within its bytes.
            let _ = cur.remaining();
            return Err(Error::MalformedPacket("unknown property id"));
        },
    }
    Ok(())
}

proof fn without_absent(entries: Seq<Entry>, id: PropertyId)
    requires
        forall|j: int| 0 <= j < entries.len() ==> entries[j].0 != id,
    ensures
        without(entries, id) == entries,
    decreases entries.len(),
{
    if entries.len() > 0 {
        without_absent(entries.drop_last(), id);
        assert(entries.drop_last().push(entries.last()) =~= entries);
    }
}

proof fn without_remove(entries: Seq<Entry>, i: int, id: PropertyId)
    requires
        0 <= i < entries.len(),
        entries[i].0 == id,
    ensures
        without(entries.remove(i), id) == without(entries, id),
    decreases entries.len(),
{
    let removed = entries.remove(i);
    if i == entries.len() - 1 {
        assert(removed =~= entries.drop_last());
    } else {
        without_remove(entries.drop_last(), i, id);
        assert(removed.drop_last() =~= entries.drop_last().remove(i));
        assert(removed.last() == entries.last());
    }
}

/// Reading a property's value gives back the value that was written.
pub proof fn value_round_trip(buf: Seq<u8>, pos: int, id: PropertyId, value: PropertyValueView)
    requires
        has_wire_type(id, value),
        encoded_value(value) matches Ok(bytes) && stands_at(buf, pos, bytes),
    ensures
        take_value(buf, pos, id) == (
            Ok::<PropertyValueView, Error>(value),
            pos + value_len(value),
        ),
        encoded_value(value)->Ok_0.len() == value_len(value),
{
    let bytes = encoded_value(value)->Ok_0;
    match value {
        PropertyValueView::Byte(b) => {
            assert(buf.subrange(pos, pos + 1)[0] == b);
        },
        PropertyValueView::U16(v) => {
            u16_round_trip(buf, pos, v);
        },
        PropertyValueView::U32(v) => {
            u32_round_trip(buf, pos, v);
        },
        PropertyValueView::Str(s) => {
            string_round_trip(buf, pos, s);
        },
        PropertyValueView::Binary(data) => {
            binary_round_trip(buf, pos, data);
        },
        PropertyValueView::StringPair(k, v) => {
            let key = encoded_string(k)->Ok_0;
            let val = encoded_string(v)->Ok_0;
            stands_at_split(buf, pos, key, val);
            string_round_trip(buf, pos, k);
            string_round_trip(buf, pos + key.len(), v);
        },
    }
}

/// The numbers of the properties in `entries`.
pub open spec fn codes(entries: Seq<Entry>) -> Seq<u8> {
    Seq::new(entries.len(), |i: int| entries[i].0.spec_code())
}

/// Reading a property gives back the property that was written, unless it must not come
/// twice and one with its number came before.
proof fn property_round_trip(
    buf: Seq<u8>,
    pos: int,
    end: int,
    context: Option<PropertyContext>,
    seen: Seq<u8>,
    entries: Seq<Entry>,
    n: int,
)
    requires
        0 <= n < entries.len(),
        encoded_entry(entries, n, context) matches Ok(bytes) && stands_at(buf, pos, bytes) && pos
            + bytes.len() <= end,
        entries[n].0 == PropertyId::UserProperty || !seen.contains(entries[n].0.spec_code()),
    ensures
        take_property(buf, pos, end, context, seen) == (
            Ok::<(u8, Option<Entry>), Error>((entries[n].0.spec_code(), Some(entries[n]))),
            pos + encoded_entry(entries, n, context)->Ok_0.len(),
        ),
{
    let (id, value) = entries[n];
    let number = variable_int_bytes(id.spec_code() as nat);
    let bytes = encoded_value(value)->Ok_0;
    property_id_round_trip(id, 0);
    stands_at_split(buf, pos, number, bytes);
    variable_int_round_trip(buf, pos, id.spec_code() as u32);
    value_round_trip(buf, pos + number.len(), id, value);
}

/// A property that may not come twice has no number that came before.
proof fn singleton_was_not_seen(
    entries: Seq<Entry>,
    n: int,
    context: Option<PropertyContext>,
)
    requires
        0 <= n < entries.len(),
        encoded_entry(entries, n, context) is Ok,
    ensures
        entries[n].0 == PropertyId::UserProperty || !codes(entries.take(n)).contains(
            entries[n].0.spec_code(),
        ),
{
    let id = entries[n].0;
    let seen = codes(entries.take(n));
    if id != PropertyId::UserProperty && seen.contains(id.spec_code()) {
        let j = choose|j: int| 0 <= j < seen.len() && seen[j] == id.spec_code();
        assert(entries.take(n)[j] == entries[j]);
        property_id_round_trip(id, 0);
        property_id_round_trip(entries[j].0, 0);
        assert(entries[j].0 == id);
        assert(repeats(entries, n));
    }
}

proof fn entry_stands_in_section(
    buf: Seq<u8>,
    at: int,
    context: Option<PropertyContext>,
    entries: Seq<Entry>,
    n: nat,
    m: nat,
)
    requires
        n <= m,
        encoded_entries(entries, m, context) matches Ok(body) && stands_at(buf, at, body),
    ensures
        encoded_entries(entries, n, context) matches Ok(body) && stands_at(buf, at, body)
            && body.len() <= encoded_entries(entries, m, context)->Ok_0.len(),
        n < m ==> (encoded_entry(entries, n as int, context) matches Ok(bytes) && stands_at(
            buf,
            at + encoded_entries(entries, n, context)->Ok_0.len(),
            bytes,
        ) && encoded_entries(entries, n, context)->Ok_0.len() + bytes.len() <= encoded_entries(
            entries,
            m,
            context,
        )->Ok_0.len()),
    decreases m,
{
    if n < m {
        let before = encoded_entries(entries, (m - 1) as nat, context);
        let last = encoded_entry(entries, m - 1, context);
        stands_at_split(buf, at, before->Ok_0, last->Ok_0);
        entry_stands_in_section(buf, at, context, entries, n, (m - 1) as nat);
    }
}

proof fn entries_round_trip(
    buf: Seq<u8>,
    at: int,
    context: Option<PropertyContext>,
    entries: Seq<Entry>,
    n: nat,
)
    requires
        n <= entries.len(),
        encoded_entries(entries, entries.len(), context) matches Ok(body) && stands_at(
            buf,
            at,
            body,
        ),
    ensures
        encoded_entries(entries, n, context) is Ok,
        take_entries(
            buf,
            at + encoded_entries(entries, n, context)->Ok_0.len(),
            at + encoded_entries(entries, entries.len(), context)->Ok_0.len(),
            context,
            codes(entries.take(n as int)),
            entries.take(n as int),
        ) == (
            Ok::<Seq<Entry>, Error>(entries),
            at + encoded_entries(entries, entries.len(), context)->Ok_0.len(),
        ),
    decreases entries.len() - n,
{
    let body = encoded_entries(entries, entries.len(), context)->Ok_0;
    let end = at + body.len();
    entry_stands_in_section(buf, at, context, entries, n, entries.len());
    let here = at + encoded_entries(entries, n, context)->Ok_0.len();
    if n == entries.len() {
        assert(entries.take(n as int) =~= entries);
    } else {
        entries_round_trip(buf, at, context, entries, n + 1);
        let seen = codes(entries.take(n as int));
        singleton_was_not_seen(entries, n as int, context);
        property_round_trip(buf, here, end, context, seen, entries, n as int);
        take_property_advances(buf, here, end, context, codes(entries.take(n as int)));
        assert(entries.take(n as int).push(entries[n as int]) =~= entries.take(n as int + 1));
        assert(codes(entries.take(n as int)).push(entries[n as int].0.spec_code()) =~= codes(
            entries.take(n as int + 1),
        ));
    }
}

/// Reading a property section gives back the properties that were written, for a packet
/// type as well as for a standalone section, wherever the section stands.
pub proof fn properties_round_trip(
    buf: Seq<u8>,
    pos: int,
    context: Option<PropertyContext>,
    entries: Seq<Entry>,
)
    requires
        encoded_properties(entries, context) matches Ok(bytes) && stands_at(buf, pos, bytes),
    ensures
        take_properties(buf, pos, context) == (
            Ok::<Seq<Entry>, Error>(entries),
            pos + encoded_properties(entries, context)->Ok_0.len(),
        ),
{
    let body = encoded_entries(entries, entries.len(), context)->Ok_0;
    encoded_entries_len(entries, entries.len(), context);
    let length = variable_int_bytes(body.len());
    stands_at_split(buf, pos, length, body);
    variable_int_round_trip(buf, pos, body.len() as u32);
    entries_round_trip(buf, pos + length.len(), context, entries, 0);
    assert(entries.take(0) =~= Seq::empty());
    assert(codes(entries.take(0)) =~= Seq::empty());
}

/// A property on the wire: a typed one, or one that is only walked over.
pub enum SectionItem {
    Typed(Entry),
    Untyped { id: u8, value: Seq<u8> },
}

impl SectionItem {
    /// The property's number.
    pub open spec fn code(self) -> u8 {
        match self {
            SectionItem::Typed(entry) => entry.0.spec_code(),
            SectionItem::Untyped { id, .. } => id,
        }
    }

    /// The property's bytes: its number, then its value.
    pub open spec fn wire(self) -> Seq<u8> {
        match self {
            SectionItem::Typed(entry) => variable_int_bytes(entry.0.spec_code() as nat)
                + encoded_value(entry.1)->Ok_0,
            SectionItem::Untyped { id, value } => variable_int_bytes(id as nat) + value,
        }
    }
}

/// The first `n` properties of a section on the wire.
pub open spec fn section_bytes(items: Seq<SectionItem>, n: nat) -> Seq<u8>
    decreases n,
{
    if n == 0 {
        Seq::empty()
    } else {
        section_bytes(items, (n - 1) as nat) + items[n - 1].wire()
    }
}

/// The typed ones among the first `n` properties of a section, in order.
pub open spec fn typed_entries(items: Seq<SectionItem>, n: nat) -> Seq<Entry>
    decreases n,
{
    if n == 0 {
        Seq::empty()
    } else {
        match items[n - 1] {
            SectionItem::Typed(entry) => typed_entries(items, (n - 1) as nat).push(entry),
            SectionItem::Untyped { .. } => typed_entries(items, (n - 1) as nat),
        }
    }
}

/// Whether a packet may carry the untyped property at `n`, where it stands: it has a
/// standard wire type and a value of that type, and does not come a second time unless it
/// may.
pub open spec fn is_skippable(
    items: Seq<SectionItem>,
    n: int,
    context: Option<PropertyContext>,
) -> bool {
    items[n] matches SectionItem::Untyped { id, value } ==> {
        &&& property_id_of(id) is None
        &&& context_allows(context, id)
        &&& skip_value(value, 0, id) == (Ok::<(), Error>(()), value.len() as int)
        &&& repeatable(id, context) || forall|j: int|
            0 <= j < n ==> (#[trigger] items[j]).code() != id
    }
}

/// The numbers of the first `n` properties of a section.
pub open spec fn item_codes(items: Seq<SectionItem>, n: nat) -> Seq<u8> {
    Seq::new(n, |i: int| items[i].code())
}

/// A variable-length integer reads the same wherever it stands.
proof fn groups_move(buf: Seq<u8>, pos: int, bytes: Seq<u8>, k: int, left: nat)
    requires
        stands_at(buf, pos, bytes),
        0 <= k,
        take_groups(bytes, k, left).0 is Ok,
    ensures
        take_groups(buf, pos + k, left) == (
            take_groups(bytes, k, left).0,
            pos + take_groups(bytes, k, left).1,
        ),
    decreases left,
{
    assert(buf.subrange(pos, pos + bytes.len())[k] == buf[pos + k]);
    if bytes[k] >= 128 {
        groups_move(buf, pos, bytes, k + 1, (left - 1) as nat);
    }
}

/// A string, or binary data, reads the same wherever it stands.
proof fn fields_move(buf: Seq<u8>, pos: int, bytes: Seq<u8>, k: int)
    requires
        stands_at(buf, pos, bytes),
        0 <= k,
    ensures
        take_binary(bytes, k).0 is Ok ==> take_binary(buf, pos + k) == (
            take_binary(bytes, k).0,
            pos + take_binary(bytes, k).1,
        ),
        take_string(bytes, k).0 is Ok ==> take_string(buf, pos + k) == (
            take_string(bytes, k).0,
            pos + take_string(bytes, k).1,
        ),
{
    if take_binary(bytes, k).0 is Ok {
        let here = buf.subrange(pos, pos + bytes.len());
        assert(here[k] == buf[pos + k]);
        assert(here[k + 1] == buf[pos + k + 1]);
        let len = take_u16(bytes, k).0->Ok_0;
        assert(bytes.subrange(k + 2, k + 2 + len) =~= buf.subrange(
            pos + k + 2,
            pos + k + 2 + len,
        ));
    }
}

/// A value is walked over in the same way wherever it stands.
proof fn skipping_moves(buf: Seq<u8>, pos: int, bytes: Seq<u8>, id: u8)
    requires
        stands_at(buf, pos, bytes),
        skip_value(bytes, 0, id) == (Ok::<(), Error>(()), bytes.len() as int),
    ensures
        skip_value(buf, pos, id) == (Ok::<(), Error>(()), pos + bytes.len()),
{
    assert forall|i: int| 0 <= i < bytes.len() implies bytes[i] == #[trigger] buf[pos + i] by {
        assert(buf.subrange(pos, pos + bytes.len())[i] == buf[pos + i]);
    }
    if bytes.len() > 0 {
        assert(bytes[0] == buf[pos + 0]);
    }
    fields_move(buf, pos, bytes, 0);
    if id == 0x0B {
        groups_move(buf, pos, bytes, 0, 4);
    }
    if id == 0x26 {
        fields_move(buf, pos, bytes, take_string(bytes, 0).1);
    }
}

proof fn typed_entries_grow(items: Seq<SectionItem>, n: nat, m: nat)
    requires
        n <= m,
    ensures
        typed_entries(items, n).len() <= typed_entries(items, m).len(),
        typed_entries(items, m).take(typed_entries(items, n).len() as int) == typed_entries(
            items,
            n,
        ),
    decreases m,
{
    if n < m {
        typed_entries_grow(items, n, (m - 1) as nat);
        let k = typed_entries(items, n).len() as int;
        assert(typed_entries(items, m).take(k) =~= typed_entries(items, (m - 1) as nat).take(k));
    } else {
        assert(typed_entries(items, m).take(typed_entries(items, m).len() as int)
            =~= typed_entries(items, m));
    }
}

proof fn entry_is_encodable(
    entries: Seq<Entry>,
    n: int,
    m: nat,
    context: Option<PropertyContext>,
)
    requires
        0 <= n < m,
        encoded_entries(entries, m, context) is Ok,
    ensures
        encoded_entry(entries, n, context) is Ok,
    decreases m,
{
    if n < m - 1 {
        entry_is_encodable(entries, n, (m - 1) as nat, context);
    }
}

/// The numbers that came before are those of the typed properties and those of the others.
proof fn seen_is_typed_or_not(items: Seq<SectionItem>, n: nat, id: PropertyId)
    requires
        n <= items.len(),
        forall|i: int|
            0 <= i < n ==> (#[trigger] items[i] matches SectionItem::Untyped { id: other, .. }
                ==> property_id_of(other) is None),
        item_codes(items, n).contains(id.spec_code()),
    ensures
        codes(typed_entries(items, n)).contains(id.spec_code()),
    decreases n,
{
    let code = id.spec_code();
    let i = choose|i: int| 0 <= i < n && item_codes(items, n)[i] == code;
    property_id_round_trip(id, 0);
    let before = typed_entries(items, (n - 1) as nat);
    if i < n - 1 {
        assert(item_codes(items, (n - 1) as nat)[i] == code);
        seen_is_typed_or_not(items, (n - 1) as nat, id);
        let j = choose|j: int| 0 <= j < codes(before).len() && codes(before)[j] == code;
        assert(codes(typed_entries(items, n))[j] == code);
    } else {
        assert(items[i].code() == code);
        assert(codes(typed_entries(items, n))[before.len() as int] == code);
    }
}

proof fn item_stands_in_section(buf: Seq<u8>, at: int, items: Seq<SectionItem>, n: nat, m: nat)
    requires
        n <= m,
        stands_at(buf, at, section_bytes(items, m)),
    ensures
        stands_at(buf, at, section_bytes(items, n)),
        section_bytes(items, n).len() <= section_bytes(items, m).len(),
        n < m ==> stands_at(buf, at + section_bytes(items, n).len(), items[n as int].wire())
            && section_bytes(items, n).len() + items[n as int].wire().len() <= section_bytes(
            items,
            m,
        ).len(),
    decreases m,
{
    if n < m {
        let before = section_bytes(items, (m - 1) as nat);
        stands_at_split(buf, at, before, items[m - 1].wire());
        item_stands_in_section(buf, at, items, n, (m - 1) as nat);
    }
}

/// Reading one property of a section hands out the typed one, or walks over the other.
proof fn item_is_taken(
    buf: Seq<u8>,
    at: int,
    context: Option<PropertyContext>,
    items: Seq<SectionItem>,
    n: int,
)
    requires
        0 <= n < items.len(),
        stands_at(buf, at, section_bytes(items, items.len())),
        encoded_entries(
            typed_entries(items, items.len()),
            typed_entries(items, items.len()).len(),
            context,
        ) is Ok,
        forall|i: int| 0 <= i < items.len() ==> #[trigger] is_skippable(items, i, context),
    ensures
        ({
            let here = at + section_bytes(items, n as nat).len();
            let end = at + section_bytes(items, items.len()).len();
            take_property(buf, here, end, context, item_codes(items, n as nat)) == (
                Ok::<(u8, Option<Entry>), Error>(
                    (
                        items[n].code(),
                        match items[n] {
                            SectionItem::Typed(entry) => Some(entry),
                            SectionItem::Untyped { .. } => None,
                        },
                    ),
                ),
                at + section_bytes(items, n as nat + 1).len(),
            )
        }),
{
    let here = at + section_bytes(items, n as nat).len();
    let end = at + section_bytes(items, items.len()).len();
    let seen = item_codes(items, n as nat);
    item_stands_in_section(buf, at, items, n as nat, items.len());
    assert(is_skippable(items, n, context));
    match items[n] {
        SectionItem::Typed(entry) => {
            let all = typed_entries(items, items.len());
            let before = typed_entries(items, n as nat);
            let k = before.len() as int;
            typed_entries_grow(items, n as nat, items.len());
            typed_entries_grow(items, n as nat + 1, items.len());
            assert(all[k] == all.take(k + 1)[k]);
            assert(all[k] == entry);
            entry_is_encodable(all, k, all.len(), context);
            singleton_was_not_seen(all, k, context);
            assert forall|i: int| 0 <= i < n implies (
            #[trigger] items[i] matches SectionItem::Untyped { id: other, .. } ==> property_id_of(
                other,
            ) is None) by {
                assert(is_skippable(items, i, context));
            }
            if seen.contains(entry.0.spec_code()) {
                seen_is_typed_or_not(items, n as nat, entry.0);
            }
            property_round_trip(buf, here, end, context, seen, all, k);
        },
        SectionItem::Untyped { id, value } => {
            let number = variable_int_bytes(id as nat);
            stands_at_split(buf, here, number, value);
            variable_int_round_trip(buf, here, id as u32);
            skipping_moves(buf, here + number.len(), value, id);
            if !repeatable(id, context) && seen.contains(id) {
                let j = choose|j: int| 0 <= j < seen.len() && seen[j] == id;
                assert(items[j].code() == id);
            }
        },
    }
}

proof fn items_are_taken(
    buf: Seq<u8>,
    at: int,
    context: Option<PropertyContext>,
    items: Seq<SectionItem>,
    n: nat,
)
    requires
        n <= items.len(),
        stands_at(buf, at, section_bytes(items, items.len())),
        encoded_entries(
            typed_entries(items, items.len()),
            typed_entries(items, items.len()).len(),
            context,
        ) is Ok,
        forall|i: int| 0 <= i < items.len() ==> #[trigger] is_skippable(items, i, context),
    ensures
        take_entries(
            buf,
            at + section_bytes(items, n).len(),
            at + section_bytes(items, items.len()).len(),
            context,
            item_codes(items, n),
            typed_entries(items, n),
        ) == (
            Ok::<Seq<Entry>, Error>(typed_entries(items, items.len())),
            at + section_bytes(items, items.len()).len(),
        ),
    decreases items.len() - n,
{
    let end = at + section_bytes(items, items.len()).len();
    let here = at + section_bytes(items, n).len();
    item_stands_in_section(buf, at, items, n, items.len());
    if n < items.len() {
        items_are_taken(buf, at, context, items, n + 1);
        item_is_taken(buf, at, context, items, n as int);
        take_property_advances(buf, here, end, context, item_codes(items, n));
        assert(item_codes(items, n).push(items[n as int].code()) =~= item_codes(items, n + 1));
    }
}

/// Reading a property section gives the typed properties in it, in order, wherever other
/// properties stand between them, and reads the section up to its declared length and no
/// further. What the others hold is walked over.
pub proof fn untyped_properties_are_skipped(
    buf: Seq<u8>,
    pos: int,
    context: Option<PropertyContext>,
    items: Seq<SectionItem>,
)
    requires
        encoded_properties(typed_entries(items, items.len()), context) is Ok,
        forall|i: int| 0 <= i < items.len() ==> #[trigger] is_skippable(items, i, context),
        encoded_length(section_bytes(items, items.len()).len()) matches Ok(length) && stands_at(
            buf,
            pos,
            length + section_bytes(items, items.len()),
        ),
    ensures
        take_properties(buf, pos, context) == (
            Ok::<Seq<Entry>, Error>(typed_entries(items, items.len())),
            pos + encoded_length(section_bytes(items, items.len()).len())->Ok_0.len()
                + section_bytes(items, items.len()).len(),
        ),
{
    let body = section_bytes(items, items.len());
    let length = variable_int_bytes(body.len());
    stands_at_split(buf, pos, length, body);
    variable_int_round_trip(buf, pos, body.len() as u32);
    items_are_taken(buf, pos + length.len(), context, items, 0);
    assert(item_codes(items, 0) =~= Seq::empty());
}

/// Setting a singleton property leaves one value, and reading it gives that value back.
pub proof fn set_then_get(
    entries: Seq<Entry>,
    id: PropertyId,
    value: PropertyValueView,
    other: PropertyId,
    kind: ValueKind,
)
    ensures
        first_value(without(entries, id).push((id, value)), id, kind_of(value)) == Some(value),
        other != id ==> first_value(without(entries, id).push((id, value)), other, kind)
            == first_value(entries, other, kind),
        forall|j: int|
            0 <= j < without(entries, id).len() ==> (#[trigger] without(entries, id)[j]).0 != id,
{
    without_keeps_others(entries, id);
    first_value_skips_others(without(entries, id), (id, value), id, kind_of(value));
    if other != id {
        first_value_without(entries, id, other, kind);
        first_value_push_same(without(entries, id), (id, value), other, kind);
    }
}

proof fn without_keeps_others(entries: Seq<Entry>, id: PropertyId)
    ensures
        forall|j: int|
            0 <= j < without(entries, id).len() ==> (#[trigger] without(entries, id)[j]).0 != id,
    decreases entries.len(),
{
    if entries.len() > 0 {
        without_keeps_others(entries.drop_last(), id);
    }
}

proof fn first_value_skips_others(
    entries: Seq<Entry>,
    last: Entry,
    id: PropertyId,
    kind: ValueKind,
)
    requires
        forall|j: int| 0 <= j < entries.len() ==> (#[trigger] entries[j]).0 != id,
        last.0 == id,
        kind_of(last.1) == kind,
    ensures
        first_value(entries.push(last), id, kind) == Some(last.1),
    decreases entries.len(),
{
    let all = entries.push(last);
    if entries.len() > 0 {
        first_value_skips_others(entries.skip(1), last, id, kind);
        assert(all.skip(1) =~= entries.skip(1).push(last));
        assert(all[0] == entries[0]);
    }
}

proof fn first_value_push_same(entries: Seq<Entry>, last: Entry, id: PropertyId, kind: ValueKind)
    ensures
        first_value(entries.push(last), id, kind) == (match first_value(entries, id, kind) {
            Some(v) => Some(v),
            None => if last.0 == id && kind_of(last.1) == kind {
                Some(last.1)
            } else {
                None
            },
        }),
    decreases entries.len(),
{
    let all = entries.push(last);
    if entries.len() > 0 {
        first_value_push_same(entries.skip(1), last, id, kind);
        assert(all.skip(1) =~= entries.skip(1).push(last));
        assert(all[0] == entries[0]);
    } else {
        reveal_with_fuel(first_value, 2);
        assert(all.skip(1) =~= Seq::empty());
    }
}

proof fn first_value_without(entries: Seq<Entry>, id: PropertyId, other: PropertyId, kind: ValueKind)
    requires
        other != id,
    ensures
        first_value(without(entries, id), other, kind) == first_value(entries, other, kind),
    decreases entries.len(),
{
    if entries.len() > 0 {
        let front = entries.drop_last();
        first_value_without(front, id, other, kind);
        first_value_push_same(front, entries.last(), other, kind);
        assert(front.push(entries.last()) =~= entries);
        first_value_push_same(without(front, id), entries.last(), other, kind);
    }
}

/// Whether every property has a valid value and may stand in this section.
pub open spec fn all_valid(entries: Seq<Entry>, context: Option<PropertyContext>) -> bool {
    forall|j: int|
        0 <= j < entries.len() ==> property_check((#[trigger] entries[j]).0, entries[j].1) is Ok
            && context_allows(context, entries[j].0.spec_code())
}

proof fn taken_entries_are_valid(
    buf: Seq<u8>,
    pos: int,
    end: int,
    context: Option<PropertyContext>,
    seen: Seq<u8>,
    entries: Seq<Entry>,
)
    requires
        0 <= pos <= end <= buf.len(),
        all_valid(entries, context),
    ensures
        take_entries(buf, pos, end, context, seen, entries).0 matches Ok(all) ==> all_valid(
            all,
            context,
        ),
        take_entries(buf, pos, end, context, seen, entries).0 is Ok ==> take_entries(
            buf,
            pos,
            end,
            context,
            seen,
            entries,
        ).1 == end,
    decreases end - pos,
{
    if pos < end {
        take_property_advances(buf, pos, end, context, seen);
        match take_property(buf, pos, end, context, seen) {
            (Err(_), _) => {},
            (Ok((id, None)), at) => {
                taken_entries_are_valid(buf, at, end, context, seen.push(id), entries);
            },
            (Ok((id, Some(entry))), at) => {
                property_id_round_trip(entry.0, id);
                taken_entries_are_valid(buf, at, end, context, seen.push(id), entries.push(entry));
            },
        }
    }
}

/// Whatever was decoded holds only valid values, and only properties that the packet may
/// carry.
pub proof fn decoded_properties_are_valid(
    buf: Seq<u8>,
    pos: int,
    context: Option<PropertyContext>,
)
    requires
        0 <= pos <= buf.len(),
    ensures
        take_properties(buf, pos, context).0 matches Ok(entries) ==> all_valid(entries, context),
{
    take_groups_advances(buf, pos, 4);
    if let (Ok(len), at) = take_variable_int(buf, pos) {
        if at + len <= buf.len() {
            taken_entries_are_valid(buf, at, at + len, context, Seq::empty(), Seq::empty());
        }
    }
}

/// Where all properties are valid, so is each that is looked up.
pub proof fn looked_up_value_is_valid(
    entries: Seq<Entry>,
    context: Option<PropertyContext>,
    id: PropertyId,
    kind: ValueKind,
)
    requires
        all_valid(entries, context),
    ensures
        first_value(entries, id, kind) matches Some(value) ==> property_check(id, value) is Ok,
    decreases entries.len(),
{
    if entries.len() > 0 {
        let rest = entries.skip(1);
        assert forall|j: int| 0 <= j < rest.len() implies property_check(
            (#[trigger] rest[j]).0,
            rest[j].1,
        ) is Ok && context_allows(context, rest[j].0.spec_code()) by {
            assert(rest[j] == entries[j + 1]);
        }
        assert(property_check(entries[0].0, entries[0].1) is Ok);
        looked_up_value_is_valid(rest, context, id, kind);
    }
}

} // verus!
