use mqtt_wasi::codec::properties::Properties;
use mqtt_wasi::error::Error;
use mqtt_wasi::request_response::{prepare_request, request_with, RequestOptions};
use mqtt_wasi::time::{Duration, Instant};

#[test]
fn validates_response_topic_and_timeout() {
    assert!(RequestOptions::new("responses/client-1").validate(Instant::from_nanos(0)).is_ok());
    assert!(RequestOptions::new("responses/+").validate(Instant::from_nanos(0)).is_err());
    assert!(RequestOptions::new("$share/workers/responses/client-1")
        .validate(Instant::from_nanos(0))
        .is_err());
    assert!(RequestOptions::new("").validate(Instant::from_nanos(0)).is_err());
    assert!(RequestOptions::new("responses/client-1")
        .with_timeout(Duration::zero())
        .validate(Instant::from_nanos(0))
        .is_err());
    assert!(RequestOptions::new("responses/client-1")
        .with_timeout(Duration::max())
        .validate(Instant::from_nanos(0))
        .is_err());
}

#[test]
fn caller_can_supply_opaque_correlation_data() {
    let options = RequestOptions::new("responses/client-1").with_correlation_data(vec![0, 1, 0xff]);
    assert_eq!(options.correlation_data, Some(vec![0, 1, 0xff]));
}

#[test]
fn made_up_correlation_data_is_a_random_uuid() {
    let make = || {
        prepare_request(
            "services/search".to_owned(),
            b"query".to_vec(),
            RequestOptions::new("responses/client-1"),
            Instant::from_nanos(0),
        )
        .unwrap()
    };
    let (first, second) = (make(), make());
    assert_eq!(first.correlation_data.len(), 16);
    assert_ne!(first.correlation_data, second.correlation_data);
    let id = uuid::Uuid::from_slice(&first.correlation_data).unwrap();
    assert_eq!(id.get_version_num(), 4);
    assert_eq!(id.get_variant(), uuid::Variant::RFC4122);
    assert_eq!(
        first.properties.correlation_data(),
        Some(first.correlation_data.as_slice())
    );
}

#[test]
fn requests_replace_the_routing_and_keep_the_other_properties() {
    let request = request_with(
        "services/search".to_owned(),
        b"query".to_vec(),
        RequestOptions::new("responses/client-1").with_properties(
            Properties::new()
                .with_response_topic("elsewhere")
                .user("key", "value"),
        ),
        vec![1, 2],
    );
    assert_eq!(
        request.properties.response_topic(),
        Some("responses/client-1")
    );
    assert_eq!(request.properties.correlation_data(), Some(&[1, 2][..]));
    assert_eq!(request.properties.user_properties(), [("key", "value")]);
    assert_eq!(request.timeout.as_nanos(), 30_000_000_000);
    assert!(matches!(
        prepare_request(
            "services/search".to_owned(),
            Vec::new(),
            RequestOptions::new("responses/#"),
            Instant::from_nanos(0)
        ),
        Err(Error::InvalidOptions(_))
    ));
}
