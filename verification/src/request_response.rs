//! Optional MQTT v5 request/response convenience layer.
//!
//! Requests and responses are opaque byte payloads. Routing and correlation use
//! the standard MQTT v5 Response Topic and Correlation Data properties.
use vstd::prelude::*;

use crate::codec::acceptance::{shared_prefix_is_seen, starts_shared};
use crate::codec::properties::{
    first_value, set_then_get, without, Entry, Properties, PropertyId, PropertyValueView,
    ValueKind,
};
use crate::codec::topic::{
    contains_wildcard, has_wildcard, is_shared, starts_with_share, topic_name_check,
};
use crate::codec::types::{clone_data, data_view, QoS};
use crate::error::{Error, Result};
use crate::text::chars_of;
use crate::time::{Duration, Instant, MAX_INSTANT_NANOS, NANOS_PER_SEC};

verus! {

/// Configuration for one MQTT v5 request.
#[derive(Debug)]
pub struct RequestOptions {
    pub response_topic: String,
    pub qos: QoS,
    pub timeout: Duration,
    pub properties: Properties,
    pub correlation_data: Option<Vec<u8>>,
}

/// What [`RequestOptions`] hold.
#[verifier::ext_equal]
pub struct RequestOptionsView {
    pub response_topic: Seq<char>,
    pub qos: QoS,
    pub timeout: Duration,
    pub properties: Seq<Entry>,
    pub correlation_data: Option<Seq<u8>>,
}

impl View for RequestOptions {
    type V = RequestOptionsView;

    open spec fn view(&self) -> RequestOptionsView {
        RequestOptionsView {
            response_topic: self.response_topic@,
            qos: self.qos,
            timeout: self.timeout,
            properties: self.properties@,
            correlation_data: data_view(self.correlation_data),
        }
    }
}

impl Clone for RequestOptions {
    fn clone(&self) -> (r: Self)
        ensures
            r@ == self@,
    {
        RequestOptions {
            response_topic: self.response_topic.clone(),
            qos: self.qos,
            timeout: self.timeout,
            properties: self.properties.clone(),
            correlation_data: clone_data(&self.correlation_data),
        }
    }
}

/// What is wrong with request options at this time, if anything.
pub open spec fn request_options_check(o: RequestOptionsView, now: Instant) -> Result<()> {
    if o.response_topic.len() == 0 {
        Err(Error::InvalidOptions("response topic must not be empty"))
    } else if has_wildcard(o.response_topic) {
        Err(Error::InvalidOptions("response topic must not contain wildcards"))
    } else if is_shared(o.response_topic) {
        Err(Error::InvalidOptions("response topic must not use the shared-subscription prefix"))
    } else if o.timeout.spec_nanos() == 0 {
        Err(Error::InvalidOptions("request timeout must be non-zero"))
    } else if now.spec_nanos() + o.timeout.spec_nanos() > MAX_INSTANT_NANOS {
        Err(Error::InvalidOptions("request timeout is too large"))
    } else {
        Ok(())
    }
}

impl RequestOptions {
    /// Create request options for an exact response topic.
    ///
    /// The connection driver subscribes to this topic once and reuses that
    /// subscription for subsequent requests. Wildcard response topics are not
    /// valid because MQTT requires Response Topic to name a concrete topic.
    pub fn new(response_topic: &str) -> (r: Self)
        ensures
            r@.response_topic == response_topic@,
            r@.qos == QoS::AtLeastOnce,
            r@.timeout.spec_nanos() == 30 * NANOS_PER_SEC,
            r@.properties == Seq::<Entry>::empty(),
            r@.correlation_data is None,
    {
        Self {
            response_topic: response_topic.to_owned(),
            qos: QoS::AtLeastOnce,
            timeout: Duration::from_secs(30),
            properties: Properties::new(),
            correlation_data: None,
        }
    }

    pub fn with_qos(self, qos: QoS) -> (r: Self)
        ensures
            r@ == (RequestOptionsView { qos, ..self@ }),
    {
        let mut options = self;
        options.qos = qos;
        options
    }

    pub fn with_timeout(self, timeout: Duration) -> (r: Self)
        ensures
            r@ == (RequestOptionsView { timeout, ..self@ }),
    {
        let mut options = self;
        options.timeout = timeout;
        options
    }

    /// Add application MQTT properties to the outgoing request.
    ///
    /// Any Response Topic or Correlation Data value in `properties` is replaced
    /// by the values owned by this request helper.
    pub fn with_properties(self, properties: Properties) -> (r: Self)
        ensures
            r@ == (RequestOptionsView { properties: properties@, ..self@ }),
    {
        let mut options = self;
        options.properties = properties;
        options
    }

    /// Supply opaque correlation bytes instead of generating a UUID.
    pub fn with_correlation_data(self, correlation_data: Vec<u8>) -> (r: Self)
        ensures
            r@ == (RequestOptionsView { correlation_data: Some(correlation_data@), ..self@ }),
    {
        let mut options = self;
        options.correlation_data = Some(correlation_data);
        options
    }

    pub fn response_topic(&self) -> (r: &str)
        ensures
            r@ == self@.response_topic,
    {
        self.response_topic.as_str()
    }

    pub fn qos(&self) -> (r: QoS)
        ensures
            r == self@.qos,
    {
        self.qos
    }

    pub fn timeout(&self) -> (r: Duration)
        ensures
            r == self@.timeout,
    {
        self.timeout
    }

    /// Check the options; `now` is the time at which the request would start.
    pub fn validate(&self, now: Instant) -> (r: Result<()>)
        ensures
            r == request_options_check(self@, now),
    {
        if chars_of(self.response_topic.as_str()).is_empty() {
            return Err(Error::InvalidOptions("response topic must not be empty"));
        }
        if contains_wildcard(self.response_topic.as_str()) {
            return Err(Error::InvalidOptions("response topic must not contain wildcards"));
        }
        if starts_with_share(self.response_topic.as_str()) {
            return Err(
                Error::InvalidOptions("response topic must not use the shared-subscription prefix"),
            );
        }
        if self.timeout.is_zero() {
            return Err(Error::InvalidOptions("request timeout must be non-zero"));
        }
        if now.checked_add(self.timeout).is_none() {
            return Err(Error::InvalidOptions("request timeout is too large"));
        }
        Ok(())
    }
}

/// A request for the connection driver.
#[derive(Debug)]
pub struct RequestCommand {
    pub topic: String,
    pub payload: Vec<u8>,
    pub response_topic: String,
    pub correlation_data: Vec<u8>,
    pub qos: QoS,
    pub timeout: Duration,
    pub properties: Properties,
}

/// What a [`RequestCommand`] holds.
#[verifier::ext_equal]
pub struct RequestCommandView {
    pub topic: Seq<char>,
    pub payload: Seq<u8>,
    pub response_topic: Seq<char>,
    pub correlation_data: Seq<u8>,
    pub qos: QoS,
    pub timeout: Duration,
    pub properties: Seq<Entry>,
}

impl View for RequestCommand {
    type V = RequestCommandView;

    open spec fn view(&self) -> RequestCommandView {
        RequestCommandView {
            topic: self.topic@,
            payload: self.payload@,
            response_topic: self.response_topic@,
            correlation_data: self.correlation_data@,
            qos: self.qos,
            timeout: self.timeout,
            properties: self.properties@,
        }
    }
}

/// The properties of a request: those of the application, with this response topic and
/// correlation data in place of any others.
pub open spec fn request_properties(
    properties: Seq<Entry>,
    response_topic: Seq<char>,
    correlation_data: Seq<u8>,
) -> Seq<Entry> {
    without(
        without(properties, PropertyId::ResponseTopic).push(
            (PropertyId::ResponseTopic, PropertyValueView::Str(response_topic)),
        ),
        PropertyId::CorrelationData,
    ).push((PropertyId::CorrelationData, PropertyValueView::Binary(correlation_data)))
}

/// The request that these options ask for, with this correlation data.
pub open spec fn command_of(
    topic: Seq<char>,
    payload: Seq<u8>,
    o: RequestOptionsView,
    correlation_data: Seq<u8>,
) -> RequestCommandView {
    RequestCommandView {
        topic,
        payload,
        response_topic: o.response_topic,
        correlation_data,
        qos: o.qos,
        timeout: o.timeout,
        properties: request_properties(o.properties, o.response_topic, correlation_data),
    }
}

/// The bytes of a random UUID from `uuid::Uuid::new_v4`: sixteen, of version 4 and of the
/// variant that begins with the bits 10. Which UUID it is, is left to chance.
#[verifier::external_body]
pub(crate) fn random_correlation_data() -> (r: Vec<u8>)
    ensures
        r@.len() == 16,
        r@[6] / 16 == 4,
        r@[8] / 64 == 2,
{
    uuid::Uuid::new_v4().as_bytes().to_vec()
}

/// Build the request with the given correlation data.
pub fn request_with(
    topic: String,
    payload: Vec<u8>,
    options: RequestOptions,
    correlation_data: Vec<u8>,
) -> (r: RequestCommand)
    ensures
        r@ == command_of(topic@, payload@, options@, correlation_data@),
{
    let mut properties = options.properties;
    properties.set_response_topic(options.response_topic.as_str());
    properties.set_correlation_data(correlation_data.clone());
    RequestCommand {
        topic,
        payload,
        response_topic: options.response_topic,
        correlation_data,
        qos: options.qos,
        timeout: options.timeout,
        properties,
    }
}

/// Build a request: check the options, and make up correlation data where the caller
/// supplies none.
pub fn prepare_request(
    topic: String,
    payload: Vec<u8>,
    options: RequestOptions,
    now: Instant,
) -> (r: Result<RequestCommand>)
    ensures
        match request_options_check(options@, now) {
            Err(e) => r == Err::<RequestCommand, _>(e),
            Ok(_) => r matches Ok(request) && request@ == command_of(
                topic@,
                payload@,
                options@,
                request@.correlation_data,
            ) && match options@.correlation_data {
                Some(data) => request@.correlation_data == data,
                None => {
                    &&& request@.correlation_data.len() == 16
                    &&& request@.correlation_data[6] / 16 == 4
                    &&& request@.correlation_data[8] / 64 == 2
                },
            },
        },
{
    options.validate(now)?;
    let mut options = options;
    let correlation_data = match options.correlation_data.take() {
        Some(data) => data,
        None => random_correlation_data(),
    };
    Ok(request_with(topic, payload, options, correlation_data))
}

/// A request carries its response topic and its correlation data, whatever properties the
/// application gave it, and leaves the others alone.
pub proof fn request_carries_its_routing(
    topic: Seq<char>,
    payload: Seq<u8>,
    o: RequestOptionsView,
    correlation_data: Seq<u8>,
    other: PropertyId,
    kind: ValueKind,
)
    ensures
        ({
            let properties = command_of(topic, payload, o, correlation_data).properties;
            &&& first_value(properties, PropertyId::ResponseTopic, ValueKind::Str) == Some(
                PropertyValueView::Str(o.response_topic),
            )
            &&& first_value(properties, PropertyId::CorrelationData, ValueKind::Binary) == Some(
                PropertyValueView::Binary(correlation_data),
            )
            &&& other != PropertyId::ResponseTopic && other != PropertyId::CorrelationData
                ==> first_value(properties, other, kind) == first_value(o.properties, other, kind)
        }),
{
    let answered_at = without(o.properties, PropertyId::ResponseTopic).push(
        (PropertyId::ResponseTopic, PropertyValueView::Str(o.response_topic)),
    );
    let correlation = PropertyValueView::Binary(correlation_data);
    set_then_get(
        o.properties,
        PropertyId::ResponseTopic,
        PropertyValueView::Str(o.response_topic),
        other,
        kind,
    );
    set_then_get(answered_at, PropertyId::CorrelationData, correlation, other, kind);
    set_then_get(
        answered_at,
        PropertyId::CorrelationData,
        correlation,
        PropertyId::ResponseTopic,
        ValueKind::Str,
    );
}

/// Request options are accepted exactly where the response topic is a topic to publish to
/// and no filter of a shared subscription, and the timeout is there and in reach of the
/// clock.
pub proof fn sound_request_options_are_accepted(o: RequestOptionsView, now: Instant)
    ensures
        request_options_check(o, now) is Ok <==> {
            &&& topic_name_check(o.response_topic) is Ok
            &&& !starts_shared(o.response_topic)
            &&& o.timeout.spec_nanos() != 0
            &&& now.spec_nanos() + o.timeout.spec_nanos() <= MAX_INSTANT_NANOS
        },
{
    shared_prefix_is_seen(o.response_topic);
}

} // verus!
