//! Options of connections and of outgoing PUBLISH packets.
use vstd::prelude::*;

use crate::codec::properties::{Entry, Properties, PropertyId, PropertyValue, PropertyValueView};
use crate::codec::types::{
    clone_data, clone_text, data_view, text_view, ConnectPacket, ConnectPacketView, QoS,
};
use crate::error::{Error, Result};
use crate::time::{Duration, Instant, MAX_INSTANT_NANOS, NANOS_PER_MILLI, NANOS_PER_SEC};

verus! {

/// Default maximum complete MQTT packet accepted from a peer (1 MiB).
pub const DEFAULT_MAX_PACKET_SIZE: usize = 1_048_576;

/// Options shared by the blocking client and the async connection driver.
///
/// They have no `Debug` form of their own, as that would show the credentials: format
/// what [`ConnectOptions::redacted`] returns.
pub struct ConnectOptions {
    pub client_id: String,
    pub keep_alive_secs: u16,
    pub clean_start: bool,
    pub username: Option<String>,
    pub password: Option<Vec<u8>>,
    pub connect_timeout: Duration,
    pub ack_timeout: Duration,
    pub poll_interval: Duration,
    pub max_packet_size: usize,
    pub max_incoming_messages: usize,
    pub command_capacity: usize,
    pub event_capacity: usize,
    pub max_outbound_queue_bytes: usize,
}

/// What [`ConnectOptions`] hold.
#[verifier::ext_equal]
pub struct ConnectOptionsView {
    pub client_id: Seq<char>,
    pub keep_alive_secs: u16,
    pub clean_start: bool,
    pub username: Option<Seq<char>>,
    pub password: Option<Seq<u8>>,
    pub connect_timeout: Duration,
    pub ack_timeout: Duration,
    pub poll_interval: Duration,
    pub max_packet_size: usize,
    pub max_incoming_messages: usize,
    pub command_capacity: usize,
    pub event_capacity: usize,
    pub max_outbound_queue_bytes: usize,
}

impl View for ConnectOptions {
    type V = ConnectOptionsView;

    open spec fn view(&self) -> ConnectOptionsView {
        ConnectOptionsView {
            client_id: self.client_id@,
            keep_alive_secs: self.keep_alive_secs,
            clean_start: self.clean_start,
            username: text_view(self.username),
            password: data_view(self.password),
            connect_timeout: self.connect_timeout,
            ack_timeout: self.ack_timeout,
            poll_interval: self.poll_interval,
            max_packet_size: self.max_packet_size,
            max_incoming_messages: self.max_incoming_messages,
            command_capacity: self.command_capacity,
            event_capacity: self.event_capacity,
            max_outbound_queue_bytes: self.max_outbound_queue_bytes,
        }
    }
}

/// Connection options for display: whether there are credentials, but not which.
#[derive(Debug)]
pub struct RedactedOptions {
    pub client_id: String,
    pub keep_alive_secs: u16,
    pub clean_start: bool,
    pub username_set: bool,
    pub password_set: bool,
    pub connect_timeout: Duration,
    pub ack_timeout: Duration,
    pub poll_interval: Duration,
    pub max_packet_size: usize,
    pub max_incoming_messages: usize,
    pub command_capacity: usize,
    pub event_capacity: usize,
    pub max_outbound_queue_bytes: usize,
}

/// The options that are used where none is given.
pub open spec fn is_default(o: ConnectOptionsView) -> bool {
    &&& o.client_id == Seq::<char>::empty()
    &&& o.keep_alive_secs == 60
    &&& o.clean_start
    &&& o.username is None
    &&& o.password is None
    &&& o.connect_timeout.spec_nanos() == 10 * NANOS_PER_SEC
    &&& o.ack_timeout.spec_nanos() == 10 * NANOS_PER_SEC
    &&& o.poll_interval.spec_nanos() == 2 * NANOS_PER_MILLI
    &&& o.max_packet_size == DEFAULT_MAX_PACKET_SIZE
    &&& o.max_incoming_messages == 256
    &&& o.command_capacity == 64
    &&& o.event_capacity == 256
    &&& o.max_outbound_queue_bytes == 4 * DEFAULT_MAX_PACKET_SIZE
}

/// The CONNECT packet for a connection with these options: it announces the largest
/// packet that is accepted, and how many messages the receiver can hold.
pub open spec fn connect_packet_of(o: ConnectOptionsView, capacity: usize) -> ConnectPacketView {
    ConnectPacketView {
        protocol_version: 5,
        clean_start: o.clean_start,
        keep_alive: o.keep_alive_secs,
        client_id: o.client_id,
        username: o.username,
        password: o.password,
        properties: seq![
            (PropertyId::MaximumPacketSize, PropertyValueView::U32(o.max_packet_size as u32)),
            (
                PropertyId::ReceiveMaximum,
                PropertyValueView::U16(
                    if capacity < u16::MAX {
                        capacity as u16
                    } else {
                        u16::MAX
                    },
                ),
            ),
        ],
    }
}

impl Default for ConnectOptions {
    fn default() -> (r: Self)
        ensures
            is_default(r@),
    {
        let client_id = String::new();
        proof {
            reveal_strlit("");
        }
        assert(client_id@ =~= Seq::<char>::empty());
        Self {
            client_id,
            keep_alive_secs: 60,
            clean_start: true,
            username: None,
            password: None,
            connect_timeout: Duration::from_secs(10),
            ack_timeout: Duration::from_secs(10),
            poll_interval: Duration::from_millis(2),
            max_packet_size: DEFAULT_MAX_PACKET_SIZE,
            max_incoming_messages: 256,
            command_capacity: 64,
            event_capacity: 256,
            max_outbound_queue_bytes: 4 * DEFAULT_MAX_PACKET_SIZE,
        }
    }
}

impl Clone for ConnectOptions {
    fn clone(&self) -> (r: Self)
        ensures
            r@ == self@,
    {
        ConnectOptions {
            client_id: self.client_id.clone(),
            username: clone_text(&self.username),
            password: clone_data(&self.password),
            keep_alive_secs: self.keep_alive_secs,
            clean_start: self.clean_start,
            connect_timeout: self.connect_timeout,
            ack_timeout: self.ack_timeout,
            poll_interval: self.poll_interval,
            max_packet_size: self.max_packet_size,
            max_incoming_messages: self.max_incoming_messages,
            command_capacity: self.command_capacity,
            event_capacity: self.event_capacity,
            max_outbound_queue_bytes: self.max_outbound_queue_bytes,
        }
    }
}

/// What is wrong with connection options at this time, if anything.
pub open spec fn options_check(o: ConnectOptionsView, now: Instant) -> Result<()> {
    if o.connect_timeout.spec_nanos() == 0 {
        Err(Error::InvalidOptions("connect timeout must be non-zero"))
    } else if o.ack_timeout.spec_nanos() == 0 {
        Err(Error::InvalidOptions("ack timeout must be non-zero"))
    } else if o.poll_interval.spec_nanos() == 0 {
        Err(Error::InvalidOptions("poll interval must be non-zero"))
    } else if !(2 <= o.max_packet_size <= 268_435_460) {
        Err(Error::InvalidOptions("invalid maximum packet size"))
    } else if o.max_incoming_messages == 0 || o.command_capacity == 0 || o.event_capacity == 0
        || o.max_outbound_queue_bytes == 0 {
        Err(Error::InvalidOptions("queue capacities must be non-zero"))
    } else if now.spec_nanos() + o.connect_timeout.spec_nanos() > MAX_INSTANT_NANOS
        || now.spec_nanos() + o.ack_timeout.spec_nanos() > MAX_INSTANT_NANOS {
        Err(Error::InvalidOptions("timeout is too large"))
    } else {
        Ok(())
    }
}

impl ConnectOptions {
    /// Create options with the given client identifier. An empty identifier asks
    /// the broker to assign one.
    pub fn new(client_id: &str) -> (r: Self)
        ensures
            r.client_id@ == client_id@,
            is_default((ConnectOptionsView { client_id: Seq::empty(), ..r@ })),
    {
        let mut options = Self::default();
        options.client_id = client_id.to_owned();
        options
    }

    pub fn with_keep_alive(self, secs: u16) -> (r: Self)
        ensures
            r@ == (ConnectOptionsView { keep_alive_secs: secs, ..self@ }),
    {
        let mut options = self;
        options.keep_alive_secs = secs;
        options
    }

    pub fn with_credentials(self, user: &str, pass: Vec<u8>) -> (r: Self)
        ensures
            r@ == (ConnectOptionsView { username: Some(user@), password: Some(pass@), ..self@ }),
    {
        let mut options = self;
        options.username = Some(user.to_owned());
        options.password = Some(pass);
        options
    }

    pub fn with_clean_start(self, clean: bool) -> (r: Self)
        ensures
            r@ == (ConnectOptionsView { clean_start: clean, ..self@ }),
    {
        let mut options = self;
        options.clean_start = clean;
        options
    }

    pub fn with_connect_timeout(self, timeout: Duration) -> (r: Self)
        ensures
            r@ == (ConnectOptionsView { connect_timeout: timeout, ..self@ }),
    {
        let mut options = self;
        options.connect_timeout = timeout;
        options
    }

    pub fn with_ack_timeout(self, timeout: Duration) -> (r: Self)
        ensures
            r@ == (ConnectOptionsView { ack_timeout: timeout, ..self@ }),
    {
        let mut options = self;
        options.ack_timeout = timeout;
        options
    }

    /// Configure how often the async driver polls a non-blocking transport when
    /// there is no command activity.
    pub fn with_poll_interval(self, interval: Duration) -> (r: Self)
        ensures
            r@ == (ConnectOptionsView { poll_interval: interval, ..self@ }),
    {
        let mut options = self;
        options.poll_interval = interval;
        options
    }

    /// Set the maximum complete packet accepted from the broker. The value is
    /// also advertised with MQTT v5's Maximum Packet Size CONNECT property.
    pub fn with_max_packet_size(self, bytes: usize) -> (r: Self)
        ensures
            r@ == (ConnectOptionsView { max_packet_size: bytes, ..self@ }),
    {
        let mut options = self;
        options.max_packet_size = bytes;
        options
    }

    pub fn with_max_incoming_messages(self, count: usize) -> (r: Self)
        ensures
            r@ == (ConnectOptionsView {
                max_incoming_messages: count,
                event_capacity: count,
                ..self@
            }),
    {
        let mut options = self;
        options.max_incoming_messages = count;
        options.event_capacity = count;
        options
    }

    pub fn with_command_capacity(self, count: usize) -> (r: Self)
        ensures
            r@ == (ConnectOptionsView { command_capacity: count, ..self@ }),
    {
        let mut options = self;
        options.command_capacity = count;
        options
    }

    pub fn with_event_capacity(self, count: usize) -> (r: Self)
        ensures
            r@ == (ConnectOptionsView { event_capacity: count, ..self@ }),
    {
        let mut options = self;
        options.event_capacity = count;
        options
    }

    pub fn with_max_outbound_queue_bytes(self, bytes: usize) -> (r: Self)
        ensures
            r@ == (ConnectOptionsView { max_outbound_queue_bytes: bytes, ..self@ }),
    {
        let mut options = self;
        options.max_outbound_queue_bytes = bytes;
        options
    }

    pub fn client_id(&self) -> (r: &str)
        ensures
            r@ == self@.client_id,
    {
        self.client_id.as_str()
    }

    pub fn keep_alive_secs(&self) -> (r: u16)
        ensures
            r == self@.keep_alive_secs,
    {
        self.keep_alive_secs
    }

    pub fn connect_timeout(&self) -> (r: Duration)
        ensures
            r == self@.connect_timeout,
    {
        self.connect_timeout
    }

    pub fn ack_timeout(&self) -> (r: Duration)
        ensures
            r == self@.ack_timeout,
    {
        self.ack_timeout
    }

    pub fn max_packet_size(&self) -> (r: usize)
        ensures
            r == self@.max_packet_size,
    {
        self.max_packet_size
    }

    pub fn max_incoming_messages(&self) -> (r: usize)
        ensures
            r == self@.max_incoming_messages,
    {
        self.max_incoming_messages
    }

    pub fn command_capacity(&self) -> (r: usize)
        ensures
            r == self@.command_capacity,
    {
        self.command_capacity
    }

    pub fn event_capacity(&self) -> (r: usize)
        ensures
            r == self@.event_capacity,
    {
        self.event_capacity
    }

    pub fn max_outbound_queue_bytes(&self) -> (r: usize)
        ensures
            r == self@.max_outbound_queue_bytes,
    {
        self.max_outbound_queue_bytes
    }

    /// The CONNECT packet for a connection with these options, whose receiver can hold so
    /// many messages.
    pub(crate) fn connect_packet(&self, capacity: usize) -> (r: ConnectPacket)
        requires
            self@.max_packet_size <= u32::MAX,
        ensures
            r@ == connect_packet_of(self@, capacity),
            r@.client_id == self@.client_id,
            r@.keep_alive == self@.keep_alive_secs,
            r@.clean_start == self@.clean_start,
            r@.username == self@.username,
            r@.password == self@.password,
    {
        let mut properties = Properties::new();
        properties.push(
            PropertyId::MaximumPacketSize,
            PropertyValue::U32(self.max_packet_size as u32),
        );
        let receive_maximum: u16 = if capacity < u16::MAX as usize {
            capacity as u16
        } else {
            u16::MAX
        };
        properties.push(PropertyId::ReceiveMaximum, PropertyValue::U16(receive_maximum));
        let r = ConnectPacket {
            protocol_version: 5,
            clean_start: self.clean_start,
            keep_alive: self.keep_alive_secs,
            client_id: self.client_id.clone(),
            username: clone_text(&self.username),
            password: clone_data(&self.password),
            properties,
        };
        assert(r@ =~= connect_packet_of(self@, capacity));
        r
    }

    /// Check the options; `now` is the time at which the connection would start.
    pub fn validate(&self, now: Instant) -> (r: Result<()>)
        ensures
            r == options_check(self@, now),
    {
        if self.connect_timeout.is_zero() {
            return Err(Error::InvalidOptions("connect timeout must be non-zero"));
        }
        if self.ack_timeout.is_zero() {
            return Err(Error::InvalidOptions("ack timeout must be non-zero"));
        }
        if self.poll_interval.is_zero() {
            return Err(Error::InvalidOptions("poll interval must be non-zero"));
        }
        if self.max_packet_size < 2 || self.max_packet_size > 268_435_460 {
            return Err(Error::InvalidOptions("invalid maximum packet size"));
        }
        if self.max_incoming_messages == 0 || self.command_capacity == 0 || self.event_capacity == 0
            || self.max_outbound_queue_bytes == 0 {
            return Err(Error::InvalidOptions("queue capacities must be non-zero"));
        }
        if now.checked_add(self.connect_timeout).is_none() || now.checked_add(
            self.ack_timeout,
        ).is_none() {
            return Err(Error::InvalidOptions("timeout is too large"));
        }
        Ok(())
    }

    /// The options for display, without the contents of the credentials.
    pub fn redacted(&self) -> (r: RedactedOptions)
        ensures
            r.client_id@ == self@.client_id,
            r.keep_alive_secs == self@.keep_alive_secs,
            r.clean_start == self@.clean_start,
            r.username_set == self@.username is Some,
            r.password_set == self@.password is Some,
            r.connect_timeout == self@.connect_timeout,
            r.ack_timeout == self@.ack_timeout,
            r.poll_interval == self@.poll_interval,
            r.max_packet_size == self@.max_packet_size,
            r.max_incoming_messages == self@.max_incoming_messages,
            r.command_capacity == self@.command_capacity,
            r.event_capacity == self@.event_capacity,
            r.max_outbound_queue_bytes == self@.max_outbound_queue_bytes,
    {
        RedactedOptions {
            client_id: self.client_id.clone(),
            keep_alive_secs: self.keep_alive_secs,
            clean_start: self.clean_start,
            username_set: self.username.is_some(),
            password_set: self.password.is_some(),
            connect_timeout: self.connect_timeout,
            ack_timeout: self.ack_timeout,
            poll_interval: self.poll_interval,
            max_packet_size: self.max_packet_size,
            max_incoming_messages: self.max_incoming_messages,
            command_capacity: self.command_capacity,
            event_capacity: self.event_capacity,
            max_outbound_queue_bytes: self.max_outbound_queue_bytes,
        }
    }
}

/// Options for an outgoing PUBLISH packet.
#[derive(Debug)]
pub struct PublishOptions {
    pub qos: QoS,
    pub retain: bool,
    pub properties: Properties,
}

/// What [`PublishOptions`] hold.
#[verifier::ext_equal]
pub struct PublishOptionsView {
    pub qos: QoS,
    pub retain: bool,
    pub properties: Seq<Entry>,
}

impl View for PublishOptions {
    type V = PublishOptionsView;

    open spec fn view(&self) -> PublishOptionsView {
        PublishOptionsView { qos: self.qos, retain: self.retain, properties: self.properties@ }
    }
}

impl Clone for PublishOptions {
    fn clone(&self) -> (r: Self)
        ensures
            r@ == self@,
    {
        PublishOptions {
            qos: self.qos,
            retain: self.retain,
            properties: self.properties.clone(),
        }
    }
}

impl Default for PublishOptions {
    fn default() -> (r: Self)
        ensures
            r@ == (PublishOptionsView {
                qos: QoS::AtMostOnce,
                retain: false,
                properties: Seq::empty(),
            }),
    {
        Self { qos: QoS::AtMostOnce, retain: false, properties: Properties::new() }
    }
}

impl PublishOptions {
    pub fn with_qos(self, qos: QoS) -> (r: Self)
        ensures
            r@ == (PublishOptionsView { qos, ..self@ }),
    {
        PublishOptions { qos, retain: self.retain, properties: self.properties }
    }

    pub fn with_retain(self, retain: bool) -> (r: Self)
        ensures
            r@ == (PublishOptionsView { retain, ..self@ }),
    {
        PublishOptions { qos: self.qos, retain, properties: self.properties }
    }

    pub fn with_properties(self, properties: Properties) -> (r: Self)
        ensures
            r@ == (PublishOptionsView { properties: properties@, ..self@ }),
    {
        PublishOptions { qos: self.qos, retain: self.retain, properties }
    }
}

} // verus!
