use mqtt_wasi::codec::topic::{validate_topic_filter, validate_topic_name};

#[test]
fn accepts_topic_names_without_wildcards() {
    for topic in ["events", "events/new", "/", "$share/group/events"] {
        assert!(validate_topic_name(topic).is_ok(), "rejected {topic:?}");
    }
}

#[test]
fn rejects_empty_or_wildcard_topic_names() {
    for topic in ["", "#", "+", "events/#", "events/+/new"] {
        assert!(validate_topic_name(topic).is_err(), "accepted {topic:?}");
    }
}

#[test]
fn accepts_standard_and_shared_topic_filters() {
    for filter in [
        "events",
        "events/#",
        "events/+/new",
        "+",
        "#",
        "/",
        "/+",
        "+/",
        "$share/workers/events/#",
        "$share/workers/+/new",
    ] {
        assert!(validate_topic_filter(filter).is_ok(), "rejected {filter:?}");
    }
}

#[test]
fn rejects_empty_malformed_or_invalid_shared_topic_filters() {
    for filter in [
        "",
        "events#",
        "events/#/new",
        "events/+new",
        "events/new+",
        "##",
        "$share/workers",
        "$share/workers/",
        "$share//events",
        "$share/+/events",
        "$share/#/events",
    ] {
        assert!(
            validate_topic_filter(filter).is_err(),
            "accepted {filter:?}"
        );
    }
}
