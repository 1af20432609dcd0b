use datamapper::traceparent::{
    fresh_span_id, fresh_trace_id, parse_trace_id, response_trace_headers, span_id_of,
    traceparent_value, with_trace_headers,
};

#[test]
fn parse_valid_traceparent_returns_trace_id() {
    let tp = "00-0af7651916cd43dd8448eb211c80319c-b7ad6b7169203331-01";
    assert_eq!(
        parse_trace_id(tp).as_deref(),
        Some("0af7651916cd43dd8448eb211c80319c")
    );
}

#[test]
fn parse_accepts_uppercase_hex_and_lowercases() {
    let tp = "00-0AF7651916CD43DD8448EB211C80319C-B7AD6B7169203331-01";
    assert_eq!(
        parse_trace_id(tp).as_deref(),
        Some("0af7651916cd43dd8448eb211c80319c")
    );
}

#[test]
fn parse_rejects_unsupported_version() {
    assert_eq!(
        parse_trace_id("ff-0af7651916cd43dd8448eb211c80319c-b7ad6b7169203331-01"),
        None
    );
}

#[test]
fn parse_rejects_wrong_field_count() {
    assert_eq!(parse_trace_id(""), None);
    assert_eq!(parse_trace_id("00"), None);
    assert_eq!(parse_trace_id("00-abc-def"), None);
    assert_eq!(parse_trace_id("00-abc-def-01-extra"), None);
}

#[test]
fn parse_rejects_all_zero_trace_id() {
    assert_eq!(
        parse_trace_id("00-00000000000000000000000000000000-b7ad6b7169203331-01"),
        None
    );
}

#[test]
fn parse_rejects_wrong_length_ids() {
    assert_eq!(
        parse_trace_id("00-0af7651916cd43dd8448eb211c80319-b7ad6b7169203331-01"),
        None
    );
    assert_eq!(
        parse_trace_id("00-0af7651916cd43dd8448eb211c80319c-b7ad6b716920333-01"),
        None
    );
}

#[test]
fn parse_rejects_non_hex_chars() {
    assert_eq!(
        parse_trace_id("00-0af7651916cd43dd8448eb211c8031Zz-b7ad6b7169203331-01"),
        None
    );
}

#[test]
fn parse_trims_surrounding_whitespace() {
    assert_eq!(
        parse_trace_id("  00-0af7651916cd43dd8448eb211c80319c-b7ad6b7169203331-01\t").as_deref(),
        Some("0af7651916cd43dd8448eb211c80319c")
    );
    assert_eq!(parse_trace_id("totally-malformed"), None);
}

#[test]
fn fresh_trace_id_is_32_hex() {
    let id = fresh_trace_id().unwrap();
    assert_eq!(id.len(), 32);
    assert!(id.chars().all(|c| c.is_ascii_hexdigit()));
}

#[test]
fn fresh_span_id_is_16_hex() {
    let id = fresh_span_id().unwrap();
    assert_eq!(id.len(), 16);
    assert!(id.chars().all(|c| c.is_ascii_hexdigit()));
}

#[test]
fn fresh_ids_differ_between_calls() {
    assert_ne!(fresh_trace_id().unwrap(), fresh_trace_id().unwrap());
}

#[test]
fn traceparent_value_shape() {
    assert_eq!(
        traceparent_value("0af7651916cd43dd8448eb211c80319c", "b7ad6b7169203331"),
        "00-0af7651916cd43dd8448eb211c80319c-b7ad6b7169203331-01"
    );
}

#[test]
fn o1_inbound_traceparent_is_inherited() {
    let inbound = "0af7651916cd43dd8448eb211c80319c";
    let h = response_trace_headers(Some(&format!("00-{inbound}-b7ad6b7169203331-01"))).unwrap();
    assert_eq!(h.trace_id, inbound);
    assert!(h.traceparent.starts_with(&format!("00-{inbound}-")));
    assert!(h.traceparent.ends_with("-01"));
    assert!(!h.traceparent.contains("b7ad6b7169203331"), "span id must be freshly generated, not echoed");
    assert_eq!(parse_trace_id(&h.traceparent).as_deref(), Some(inbound));
}

#[test]
fn o1_malformed_inbound_traceparent_gets_fresh_id() {
    let h = response_trace_headers(Some("totally-malformed")).unwrap();
    assert_eq!(h.trace_id.len(), 32);
    assert_eq!(parse_trace_id(&h.traceparent), Some(h.trace_id.clone()));
    let h = response_trace_headers(None).unwrap();
    assert_eq!(h.traceparent.len(), 55);
}

#[test]
fn o1_all_zero_inbound_trace_id_rejected() {
    let h = response_trace_headers(Some("00-00000000000000000000000000000000-b7ad6b7169203331-01")).unwrap();
    assert_ne!(h.trace_id, "00000000000000000000000000000000");
}

#[test]
fn x_trace_id_is_the_trace_id_inside_traceparent() {
    for inbound in [
        Some("00-0AF7651916CD43DD8448EB211C80319C-b7ad6b7169203331-01"),
        Some("garbage"),
        None,
    ] {
        let h = response_trace_headers(inbound).unwrap();
        assert_eq!(parse_trace_id(&h.traceparent).as_deref(), Some(h.trace_id.as_str()));
    }
    let h = response_trace_headers(Some("00-0AF7651916CD43DD8448EB211C80319C-b7ad6b7169203331-01")).unwrap();
    assert_eq!(h.trace_id, "0af7651916cd43dd8448eb211c80319c");
}

#[test]
fn parse_rejects_non_hex_flags() {
    assert_eq!(parse_trace_id("00-0af7651916cd43dd8448eb211c80319c-b7ad6b7169203331-zz"), None);
    assert_eq!(parse_trace_id("00-0af7651916cd43dd8448eb211c80319c-b7ad6b7169203331-1"), None);
    assert_eq!(
        parse_trace_id("00-0af7651916cd43dd8448eb211c80319c-b7ad6b7169203331-0F").as_deref(),
        Some("0af7651916cd43dd8448eb211c80319c")
    );
}

#[test]
fn span_id_is_the_first_half_of_the_drawn_uuid() {
    assert_eq!(span_id_of("0af7651916cd43dd8448eb211c80319c"), "0af7651916cd43dd");
    assert_eq!(span_id_of("abc"), "abc");
    assert_eq!(fresh_span_id().unwrap().chars().nth(12), Some('4'));
    assert_eq!(fresh_trace_id().unwrap().chars().nth(12), Some('4'));
}

#[test]
fn trace_headers_replace_only_their_own_names() {
    let h = response_trace_headers(None).unwrap();
    let headers = vec![
        ("content-type".to_string(), b"application/json".to_vec()),
        ("traceparent".to_string(), b"handler-set".to_vec()),
        ("x-trace-id".to_string(), b"old".to_vec()),
        ("vary".to_string(), vec![0xff, 0x20]),
    ];
    let merged = with_trace_headers(headers, &h);
    assert_eq!(
        merged,
        vec![
            ("content-type".to_string(), b"application/json".to_vec()),
            ("vary".to_string(), vec![0xff, 0x20]),
            ("traceparent".to_string(), h.traceparent.as_bytes().to_vec()),
            ("x-trace-id".to_string(), h.trace_id.as_bytes().to_vec()),
        ]
    );
}
