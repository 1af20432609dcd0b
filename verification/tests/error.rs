use datamapper::error::{clip_tried_paths, DataMapperError, MAX_TRIED_PATH_CHARS};

#[test]
fn n5_short_paths_unchanged() {
    let input = vec!["samples/echo.hbs".to_string()];
    assert_eq!(clip_tried_paths(&input), input);
}

#[test]
fn n5_long_paths_clipped() {
    let long = "a".repeat(1000);
    let clipped = clip_tried_paths(std::slice::from_ref(&long));
    assert!(
        clipped[0].chars().count() <= MAX_TRIED_PATH_CHARS + 20,
        "clipped path too long: {}",
        clipped[0].chars().count()
    );
    assert!(
        clipped[0].contains("[truncated]"),
        "expected truncation marker: {}",
        clipped[0]
    );
}

#[test]
fn n5_multibyte_char_boundary_safe() {
    let short = "ä".repeat(MAX_TRIED_PATH_CHARS);
    let clipped_short = clip_tried_paths(std::slice::from_ref(&short));
    assert_eq!(clipped_short[0], short, "at-cap must not clip");

    let long = "ä".repeat(MAX_TRIED_PATH_CHARS + 1);
    let clipped_long = clip_tried_paths(std::slice::from_ref(&long));
    assert!(clipped_long[0].contains("[truncated]"));
    assert!(clipped_long[0].is_char_boundary(clipped_long[0].len()));
}

#[test]
fn clipped_entry_is_prefix_plus_marker() {
    let long = "x".repeat(300);
    let clipped = clip_tried_paths(std::slice::from_ref(&long));
    assert_eq!(clipped[0], format!("{}… [truncated]", "x".repeat(256)));
}

#[test]
fn status_and_codes_per_variant() {
    let cases: Vec<(DataMapperError, u16, &str)> = vec![
        (DataMapperError::TemplateNotFound { tried: vec![] }, 404, "TemplateNotFound"),
        (
            DataMapperError::TemplateRenderError { view: "v".into(), message: "m".into() },
            500,
            "TemplateRenderError",
        ),
        (DataMapperError::RequestTooLarge { limit: 1 }, 413, "RequestTooLarge"),
        (DataMapperError::HeaderValueTooLarge { actual: 2, cap: 1 }, 431, "HeaderValueTooLarge"),
        (DataMapperError::ResponseTooLarge { limit: 1 }, 500, "ResponseTooLarge"),
        (DataMapperError::RequestReadTimeout { deadline_secs: 30 }, 408, "RequestReadTimeout"),
        (
            DataMapperError::RequestArrayTooLarge { length: 101, limit: 100 },
            413,
            "RequestArrayTooLarge",
        ),
        (DataMapperError::InvalidJson("x".into()), 400, "InvalidJson"),
        (DataMapperError::InvalidPath("x".into()), 400, "InvalidPath"),
        (DataMapperError::MethodNotAllowed, 405, "MethodNotAllowed"),
        (DataMapperError::UnsupportedContentType("x".into()), 415, "UnsupportedContentType"),
        (DataMapperError::Internal("x".into()), 500, "Internal"),
    ];
    for (e, status, code) in cases {
        assert_eq!(e.status(), status, "{code}");
        assert_eq!(e.code(), code);
    }
}

#[test]
fn messages_per_variant() {
    let nf = DataMapperError::TemplateNotFound {
        tried: vec!["myproj/greet.hbs".to_string(), "myproj/hbs/greet.hbs".to_string()],
    };
    assert_eq!(
        nf.to_string(),
        "template not found: tried [\"myproj/greet.hbs\", \"myproj/hbs/greet.hbs\"]"
    );
    assert_eq!(
        DataMapperError::RequestTooLarge { limit: 2097152 }.to_string(),
        "request body exceeds limit of 2097152 bytes"
    );
    assert_eq!(
        DataMapperError::HeaderValueTooLarge { actual: 9000, cap: 8192 }.to_string(),
        "request header value of 9000 bytes exceeds cap 8192"
    );
    assert_eq!(
        DataMapperError::UnsupportedContentType("application/x-www-form-urlencoded".into())
            .to_string(),
        "Content-Type 'application/x-www-form-urlencoded' is not supported — post JSON with Content-Type: application/json"
    );
    assert_eq!(
        DataMapperError::MethodNotAllowed.to_string(),
        "method not allowed on this route"
    );
}

#[test]
fn error_body_fields_per_variant() {
    let long = "p".repeat(400);
    let b = DataMapperError::TemplateNotFound { tried: vec![long] }.body();
    assert_eq!(b.error, "TemplateNotFound");
    let tried = b.tried.expect("tried present");
    assert!(tried[0].ends_with("… [truncated]"));
    assert!(b.limit.is_none());

    let b = DataMapperError::HeaderValueTooLarge { actual: 9000, cap: 8192 }.body();
    assert_eq!(b.actual, Some(9000));
    assert_eq!(b.limit, Some(8192));

    let b = DataMapperError::RequestArrayTooLarge { length: 101, limit: 100 }.body();
    assert_eq!(b.length, Some(101));
    assert_eq!(b.limit, Some(100));

    let b = DataMapperError::TemplateRenderError { view: "a/b.hbs".into(), message: "m".into() }.body();
    assert_eq!(b.view.as_deref(), Some("a/b.hbs"));

    let b = DataMapperError::RequestReadTimeout { deadline_secs: 30 }.body();
    assert_eq!(b.deadline_secs, Some(30));
    assert_eq!(b.message, "request body was not received within 30s");
}
