use datamapper::error::DataMapperError;
use datamapper::renderer::{
    contains_dot_length_accessor, contains_unsafe_raw_output, prepare_template_body,
    rewrite_dot_length, sanitize_route, sanitize_segment, select_template, strip_hbs,
    template_candidates, CappedBuffer,
};

#[test]
fn sanitize_rejects_traversal() {
    assert!(sanitize_segment("..").is_err());
    assert!(sanitize_segment("foo/../bar").is_err());
    assert!(sanitize_segment("../secrets").is_err());
}

#[test]
fn sanitize_rejects_null_byte() {
    assert!(sanitize_segment("foo\0bar").is_err());
}

#[test]
fn sanitize_rejects_absolute() {
    assert!(sanitize_segment("/etc/passwd").is_err());
    assert!(sanitize_segment("\\windows").is_err());
}

#[test]
fn sanitize_rejects_empty() {
    assert!(sanitize_segment("").is_err());
}

#[test]
fn sanitize_accepts_normal_names() {
    assert_eq!(sanitize_segment("users").unwrap(), "users");
    assert_eq!(
        sanitize_segment("create-user_v2").unwrap(),
        "create-user_v2"
    );
}

#[test]
fn sanitize_error_messages() {
    match sanitize_segment("") {
        Err(DataMapperError::InvalidPath(m)) => assert_eq!(m, "empty segment"),
        other => panic!("unexpected {other:?}"),
    }
    match sanitize_segment("a/../b") {
        Err(DataMapperError::InvalidPath(m)) => assert_eq!(m, "a/../b"),
        other => panic!("unexpected {other:?}"),
    }
}

#[test]
fn strip_hbs_removes_suffix() {
    assert_eq!(strip_hbs("foo.hbs"), "foo");
    assert_eq!(strip_hbs("foo"), "foo");
    assert_eq!(strip_hbs("bar.hbs.hbs"), "bar.hbs");
}

#[test]
fn sanitize_route_checks_project_then_view() {
    let (p, v) = sanitize_route("samples", "users/create.hbs").unwrap();
    assert_eq!(p, "samples");
    assert_eq!(v, "users/create");
    match sanitize_route("..", "x") {
        Err(DataMapperError::InvalidPath(m)) => assert_eq!(m, ".."),
        other => panic!("unexpected {other:?}"),
    }
    match sanitize_route("ok", ".hbs") {
        Err(DataMapperError::InvalidPath(m)) => assert_eq!(m, "empty segment"),
        other => panic!("unexpected {other:?}"),
    }
}

#[test]
fn f02_detects_dot_length_in_double_brace() {
    assert!(contains_dot_length_accessor("{ \"n\": {{items.length}} }"));
}

#[test]
fn f02_detects_dot_length_in_triple_brace() {
    assert!(contains_dot_length_accessor("{{{ items.length }}}"));
}

#[test]
fn f02_ignores_dot_length_in_hbs_comment() {
    assert!(!contains_dot_length_accessor(
        "{{!-- example: items.length --}}\n{ \"n\": 0 }"
    ));
}

#[test]
fn f02_ignores_dot_lengthy_identifier() {
    assert!(!contains_dot_length_accessor("{{ items.lengthMax }}"));
}

#[test]
fn dot_length_outside_mustache_is_not_an_accessor() {
    assert!(!contains_dot_length_accessor("plain text items.length"));
    assert!(contains_dot_length_accessor("{{#if items.length}}y{{/if}}"));
    assert!(contains_dot_length_accessor("{{ a.length.b }}"));
    assert!(!contains_dot_length_accessor(""));
    assert!(!contains_dot_length_accessor("{{"));
}

#[test]
fn rewrite_value_position() {
    assert_eq!(rewrite_dot_length("{{items.length}}"), "{{ len items }}");
    assert_eq!(rewrite_dot_length("{{{ items.length }}}"), "{{{ len items }}}");
    assert_eq!(
        rewrite_dot_length("{ \"n\": {{user.[0].tags.length}} }"),
        "{ \"n\": {{ len user.[0].tags }} }"
    );
}

#[test]
fn rewrite_block_conditions() {
    assert_eq!(
        rewrite_dot_length("{{#if items.length}}has{{else}}none{{/if}}"),
        "{{#if items}}has{{else}}none{{/if}}"
    );
    assert_eq!(
        rewrite_dot_length("{{#unless xs.length}}e{{/unless}}"),
        "{{#unless xs}}e{{/unless}}"
    );
    assert_eq!(
        rewrite_dot_length("{{#if a}}1{{else if b.length}}2{{/if}}"),
        "{{#if a}}1{{else if b}}2{{/if}}"
    );
}

#[test]
fn rewrite_leaves_comments_and_other_expressions() {
    let t = "{{!-- items.length --}}{{json x.length y}}{{a.lengthMax}}";
    assert_eq!(rewrite_dot_length(t), t);
    assert_eq!(rewrite_dot_length("no mustache here"), "no mustache here");
    assert_eq!(rewrite_dot_length("héllo {{name}} ünïcode"), "héllo {{name}} ünïcode");
}

#[test]
fn prepare_rewrites_only_templates_using_the_accessor() {
    let (body, rewritten) =
        prepare_template_body("{ \"n\": {{#if items}}{{items.length}}{{else}}0{{/if}} }".to_string());
    assert!(rewritten);
    assert_eq!(body, "{ \"n\": {{#if items}}{{ len items }}{{else}}0{{/if}} }");
    let (body, rewritten) = prepare_template_body("{{{json this}}}".to_string());
    assert!(!rewritten);
    assert_eq!(body, "{{{json this}}}");
}

#[test]
fn raw_output_detection() {
    assert!(contains_unsafe_raw_output("{{{name}}}"));
    assert!(contains_unsafe_raw_output("<p>{{{ body }}}</p>"));
    assert!(!contains_unsafe_raw_output("{{{json this}}}"));
    assert!(!contains_unsafe_raw_output("{{{ json body }}}"));
    assert!(!contains_unsafe_raw_output("<h1>Hello {{name}}</h1>"));
    assert!(!contains_unsafe_raw_output("{{!-- {{{x}}} --}}"));
    assert!(contains_unsafe_raw_output("{{{jsonify x}}}"));
}

#[test]
fn capped_buffer_refuses_writes_past_the_cap() {
    let mut b = CappedBuffer::new(10);
    assert!(b.write(b"hello"));
    assert!(b.write(b"world"));
    assert_eq!(b.len(), 10);
    assert!(!b.write(b"!"));
    assert_eq!(b.len(), 10);
    match b.finish(None, "v".to_string()) {
        Err(DataMapperError::ResponseTooLarge { limit }) => assert_eq!(limit, 10),
        other => panic!("unexpected {other:?}"),
    }
}

#[test]
fn capped_buffer_outcomes() {
    let mut b = CappedBuffer::new(100);
    assert!(b.write(b"{\"ok\":true}"));
    assert_eq!(b.finish(None, "v".to_string()).unwrap(), b"{\"ok\":true}".to_vec());
    let b = CappedBuffer::new(100);
    match b.finish(Some("boom".to_string()), "p/v.hbs".to_string()) {
        Err(DataMapperError::TemplateRenderError { view, message }) => {
            assert_eq!(view, "p/v.hbs");
            assert_eq!(message, "boom");
        }
        other => panic!("unexpected {other:?}"),
    }
}

#[test]
fn template_candidates_in_lookup_order() {
    let c = template_candidates("samples", "users/create");
    assert_eq!(c, vec!["samples/users/create.hbs".to_string(), "samples/hbs/users/create.hbs".to_string()]);
}

#[test]
fn select_template_takes_the_first_found_candidate() {
    let tried = template_candidates("p", "v");
    assert_eq!(select_template(tried.clone(), &[true, true]).unwrap(), 0);
    assert_eq!(select_template(tried.clone(), &[false, true]).unwrap(), 1);
    match select_template(tried.clone(), &[false, false]) {
        Err(DataMapperError::TemplateNotFound { tried: t }) => assert_eq!(t, tried),
        other => panic!("expected TemplateNotFound, got {other:?}"),
    }
}

#[test]
fn finished_output_never_exceeds_the_cap() {
    let mut b = CappedBuffer::new(4);
    assert!(b.write(b"abc"));
    assert!(!b.write(b"de"));
    assert!(b.write(b"d"));
    assert!(matches!(
        b.finish(None, "v".to_string()),
        Err(DataMapperError::ResponseTooLarge { limit: 4 })
    ));
    let mut b = CappedBuffer::new(4);
    assert!(b.write(b"abcd"));
    let out = b.finish(None, "v".to_string()).unwrap();
    assert!(out.len() <= 4);
    assert_eq!(out, b"abcd".to_vec());
}

#[test]
fn plain_text_template_passes_through() {
    let t = "{ \"n\": 3, \"s\": \"a.length } }\" }";
    assert!(!contains_dot_length_accessor(t));
    assert_eq!(rewrite_dot_length(t), t);
    let (body, rewritten) = prepare_template_body(t.to_string());
    assert_eq!(body, t);
    assert!(!rewritten);
}

#[test]
fn double_mustache_closes_at_two_braces() {
    assert_eq!(rewrite_dot_length("{\"n\":{{items.length}}}"), "{\"n\":{{ len items }}}");
    assert!(contains_dot_length_accessor("{\"n\":{{items.length}}}"));
    assert_eq!(rewrite_dot_length("{{{items.length}}}"), "{{{ len items }}}");
}
