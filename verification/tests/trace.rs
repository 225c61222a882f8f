use mqtt_wasi::codec::properties::Properties;
use mqtt_wasi::trace::TraceContext;

#[test]
fn traceparent_round_trip() {
    let ctx = TraceContext::new_root(
        [0x4b, 0xf9, 0x2f, 0x35, 0x77, 0xb6, 0xa2, 0x7b,
         0xc4, 0xc9, 0x89, 0xd3, 0x5b, 0x8e, 0x7e, 0x00],
        [0xe4, 0x57, 0xb5, 0xa2, 0xe4, 0xd8, 0x6b, 0xd1],
    )
    .unwrap();
    let s = ctx.traceparent_string();
    assert_eq!(s, "00-4bf92f3577b6a27bc4c989d35b8e7e00-e457b5a2e4d86bd1-01");

    let parsed = TraceContext::parse_traceparent(&s, None).unwrap();
    assert_eq!(parsed.trace_id, ctx.trace_id);
    assert_eq!(parsed.span_id, ctx.span_id);
    assert_eq!(parsed.trace_flags, 0x01);
}

#[test]
fn inject_extract_properties() {
    let ctx = TraceContext::new_root([0xAA; 16], [0xBB; 8]).unwrap();
    let mut props = Properties::new();
    ctx.inject(&mut props);

    let extracted = TraceContext::from_properties(&props).unwrap();
    assert_eq!(extracted.trace_id, ctx.trace_id);
    assert_eq!(extracted.span_id, ctx.span_id);
}

#[test]
fn child_preserves_trace_id() {
    let parent = TraceContext::new_root([0x11; 16], [0x22; 8]).unwrap();
    let child = parent.child([0x33; 8]).unwrap();
    assert_eq!(child.trace_id, parent.trace_id);
    assert_ne!(child.span_id, parent.span_id);
}

#[test]
fn invalid_traceparent() {
    assert!(TraceContext::parse_traceparent("garbage", None).is_none());
    assert!(TraceContext::parse_traceparent("00-short-bad-ff", None).is_none());
}
