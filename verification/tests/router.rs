use datamapper::error::DataMapperError;
use datamapper::router::{
    accepts_html, admit_body, body_read_error, parse_request_body, check_body_arrays, check_body_size, check_content_type,
    check_header_values, check_health_method, content_type_of, negotiate, response_kind,
    wants_json, ContentKind, JsonShape, MAX_HEADER_VALUE_BYTES,
};

#[test]
fn wants_json_via_custom_header() {
    assert!(wants_json(Some("json"), None));
    assert!(wants_json(Some("JSON"), None));
    assert!(wants_json(Some("Json"), None));
}

#[test]
fn wants_json_via_accept() {
    assert!(wants_json(None, Some("application/json")));
    assert!(wants_json(None, Some("text/plain, application/json;q=0.9")));
}

#[test]
fn wants_json_via_wildcard_accept() {
    assert!(wants_json(None, Some("*/*")));
}

#[test]
fn wants_json_false_for_html_only() {
    assert!(!wants_json(None, Some("text/html")));
}

#[test]
fn wants_json_false_with_no_headers() {
    assert!(!wants_json(None, None));
}

#[test]
fn wants_json_false_when_type_is_other() {
    assert!(!wants_json(Some("xml"), None));
}

#[test]
fn accepts_html_only_when_explicitly_requested() {
    assert!(accepts_html(Some("text/html")));
    assert!(accepts_html(Some("text/html,application/xhtml+xml")));
    assert!(accepts_html(Some("text/html;q=0.9,application/json;q=0.1")));
}

#[test]
fn accepts_html_false_for_wildcard_and_missing() {
    assert!(!accepts_html(Some("*/*")));
    assert!(!accepts_html(None));
    assert!(!accepts_html(Some("application/json")));
}

#[test]
fn zero_quality_refuses_a_media_range() {
    assert!(!accepts_html(Some("text/html;q=0")));
    assert!(!accepts_html(Some("text/html; q=0.000")));
    assert!(accepts_html(Some("application/json;q=0, text/html")));
    assert!(!wants_json(None, Some("application/json;q=0, text/html")));
    assert!(wants_json(None, Some("*/*, text/html;q=0")));
    assert!(accepts_html(Some("TEXT/HTML;Q=0.5")));
}

#[test]
fn header_values_up_to_the_cap_are_admitted() {
    assert_eq!(MAX_HEADER_VALUE_BYTES, 8192);
    assert!(check_header_values(&[10, 8192, 3], MAX_HEADER_VALUE_BYTES).is_ok());
    match check_header_values(&[10, 10240, 9000], MAX_HEADER_VALUE_BYTES) {
        Err(DataMapperError::HeaderValueTooLarge { actual, cap }) => {
            assert_eq!(actual, 10240);
            assert_eq!(cap, 8192);
        }
        other => panic!("unexpected {other:?}"),
    }
}

#[test]
fn body_size_and_read_errors() {
    assert!(check_body_size(100, 100).is_ok());
    assert!(matches!(
        check_body_size(101, 100),
        Err(DataMapperError::RequestTooLarge { limit: 100 })
    ));
    assert!(matches!(
        body_read_error("length limit exceeded", 7),
        DataMapperError::RequestTooLarge { limit: 7 }
    ));
    match body_read_error("connection reset", 7) {
        DataMapperError::Internal(m) => assert_eq!(m, "reading request body: connection reset"),
        other => panic!("unexpected {other:?}"),
    }
}

#[test]
fn f03_form_urlencoded_returns_unsupported_content_type() {
    match check_content_type(false, Some("application/x-www-form-urlencoded")) {
        Err(DataMapperError::UnsupportedContentType(m)) => {
            assert_eq!(m, "application/x-www-form-urlencoded")
        }
        other => panic!("unexpected {other:?}"),
    }
}

#[test]
fn f03_missing_content_type_still_works() {
    assert!(check_content_type(false, None).is_ok());
}

#[test]
fn f03_vendor_json_content_type_is_accepted() {
    assert!(check_content_type(false, Some("application/vnd.api+json")).is_ok());
    assert!(check_content_type(false, Some("Application/JSON; charset=utf-8")).is_ok());
    assert!(check_content_type(false, Some("text/json")).is_ok());
    assert!(check_content_type(false, Some("")).is_ok());
    assert!(check_content_type(true, Some("text/plain")).is_ok());
    match check_content_type(false, Some(" Text/Plain ; charset=x")) {
        Err(DataMapperError::UnsupportedContentType(m)) => assert_eq!(m, "text/plain"),
        other => panic!("unexpected {other:?}"),
    }
}

#[test]
fn health_routes_accept_get_and_head_only() {
    assert!(check_health_method("GET").is_ok());
    assert!(check_health_method("HEAD").is_ok());
    assert!(matches!(
        check_health_method("POST"),
        Err(DataMapperError::MethodNotAllowed)
    ));
}

fn array(n: usize) -> JsonShape {
    JsonShape::Array((0..n).map(|_| JsonShape::Scalar).collect())
}

#[test]
fn fdm1_oversize_top_level_array_returns_413_structured() {
    let body = JsonShape::Object(vec![array(101)]);
    match check_body_arrays(&body, 100) {
        Err(DataMapperError::RequestArrayTooLarge { length, limit }) => {
            assert_eq!(length, 101);
            assert_eq!(limit, 100);
        }
        other => panic!("unexpected {other:?}"),
    }
}

#[test]
fn fdm1_at_cap_boundary_renders_normally() {
    let body = JsonShape::Object(vec![array(100)]);
    assert!(check_body_arrays(&body, 100).is_ok());
}

#[test]
fn fdm1_nested_oversize_array_is_caught() {
    let body = JsonShape::Object(vec![JsonShape::Object(vec![array(3), array(51)])]);
    match check_body_arrays(&body, 50) {
        Err(DataMapperError::RequestArrayTooLarge { length, .. }) => assert_eq!(length, 51),
        other => panic!("unexpected {other:?}"),
    }
}

#[test]
fn fdm1_zero_cap_disables_the_check() {
    let body = JsonShape::Object(vec![array(12345)]);
    assert!(check_body_arrays(&body, 0).is_ok());
}

#[test]
fn negotiation_policy() {
    assert_eq!(negotiate(true, true, false, false), ContentKind::Json);
    assert_eq!(negotiate(false, true, true, false), ContentKind::RawJson);
    assert_eq!(negotiate(true, false, true, true), ContentKind::Json);
    assert_eq!(negotiate(false, false, true, false), ContentKind::Html);
    assert_eq!(negotiate(false, false, false, false), ContentKind::Plain);
    assert_eq!(negotiate(false, false, true, true), ContentKind::Plain);
    assert_eq!(content_type_of(ContentKind::Plain), "text/plain; charset=utf-8");
    assert_eq!(content_type_of(ContentKind::RawJson), "application/json");
}

#[test]
fn n1_triple_brace_template_forces_text_plain_even_with_html_accept() {
    let kind = response_kind("<script>alert(1)</script>", false, true, true);
    assert_eq!(kind, ContentKind::Plain);
}

#[test]
fn response_kind_detects_json_output() {
    assert_eq!(response_kind("{\"ok\": true}", false, false, false), ContentKind::Json);
    assert_eq!(response_kind("[1,2]", false, true, true), ContentKind::Json);
    assert_eq!(response_kind("not json", true, false, false), ContentKind::RawJson);
    assert_eq!(response_kind("<h1>x</h1>", false, true, false), ContentKind::Html);
    assert_eq!(response_kind("<h1>x</h1>", false, false, false), ContentKind::Plain);
}

#[test]
fn admit_body_checks_size_before_content_type() {
    assert!(matches!(
        admit_body(11, 10, Some("application/x-www-form-urlencoded")),
        Err(DataMapperError::RequestTooLarge { limit: 10 })
    ));
    match admit_body(5, 10, Some("application/x-www-form-urlencoded; charset=utf-8")) {
        Err(DataMapperError::UnsupportedContentType(m)) => {
            assert_eq!(m, "application/x-www-form-urlencoded")
        }
        other => panic!("expected UnsupportedContentType, got {other:?}"),
    }
    assert!(admit_body(0, 10, Some("text/plain")).is_ok());
    assert!(admit_body(10, 10, Some("application/json")).is_ok());
    assert!(admit_body(10, 10, None).is_ok());
}

#[test]
fn request_body_parsing() {
    let empty = parse_request_body(b"").unwrap();
    assert_eq!(empty, serde_json::Value::Object(serde_json::Map::new()));
    let v = parse_request_body(br#"{"a":[1,2]}"#).unwrap();
    let expected: serde_json::Value = serde_json::from_str(r#"{ "a": [1, 2] }"#).unwrap();
    assert_eq!(v, expected);
    match parse_request_body(b"not json") {
        Err(DataMapperError::InvalidJson(m)) => assert!(m.contains("line 1"), "{m}"),
        other => panic!("expected InvalidJson, got {other:?}"),
    }
}

#[test]
fn html_is_served_only_on_explicit_opt_in() {
    for parses in [false, true] {
        for prefers in [false, true] {
            for html in [false, true] {
                for raw in [false, true] {
                    let k = negotiate(parses, prefers, html, raw);
                    if k == ContentKind::Html {
                        assert!(html && !raw && !parses && !prefers);
                    }
                    if prefers {
                        assert!(k == ContentKind::Json || k == ContentKind::RawJson);
                    }
                }
            }
        }
    }
    assert!(accepts_html(Some("TEXT/HTML")));
    assert!(!accepts_html(Some("text/*")));
}
