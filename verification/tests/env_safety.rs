use datamapper::env_safety::{
    dev_fixture_pattern, dev_only_dsl_patterns, enforce_dev_fixture_scan, enforce_posture,
    environment_from_vars, first_non_empty_value, DevFixtureAction, Environment, PostureCheck,
};

#[test]
fn dev_words_classify_as_dev() {
    for word in ["dev", "development", "local", "DEV", " Dev  "] {
        assert_eq!(Environment::from_env_str(word), Environment::Dev, "{word}");
    }
}

#[test]
fn prod_words_classify_as_production() {
    for word in ["prod", "production", "live", "PROD"] {
        assert_eq!(
            Environment::from_env_str(word),
            Environment::Production,
            "{word}"
        );
    }
}

#[test]
fn unknown_env_defaults_to_production_for_safety() {
    assert_eq!(Environment::from_env_str("banana"), Environment::Production);
    assert_eq!(
        Environment::from_env_str("prroduction"),
        Environment::Production
    );
    assert_eq!(Environment::classify("banana"), None);
}

#[test]
fn test_and_staging_words_classify() {
    for word in ["test", "Testing", "ci"] {
        assert_eq!(Environment::from_env_str(word), Environment::Test, "{word}");
    }
    for word in ["stage", "STAGING", "\tpreprod\n"] {
        assert_eq!(Environment::from_env_str(word), Environment::Staging, "{word}");
    }
    assert!(!Environment::Dev.requires_prod_creds());
    assert!(Environment::Test.requires_prod_creds());
    assert_eq!(Environment::Staging.name(), "Staging");
}

#[test]
fn enforce_posture_refuses_in_production() {
    let checks = vec![PostureCheck {
        name: "test.flag",
        is_safe: false,
        description: "some risk",
        fix: "flip to safe",
    }];
    let err = enforce_posture(Environment::Production, &checks).unwrap_err();
    assert!(err.contains("REFUSING TO START"));
    assert!(err.contains("test.flag"));
    assert!(err.contains("flip to safe"));
}

#[test]
fn enforce_posture_message_lists_every_unsafe_item() {
    let checks = vec![
        PostureCheck { name: "a", is_safe: false, description: "ra", fix: "fa" },
        PostureCheck { name: "b", is_safe: true, description: "rb", fix: "fb" },
        PostureCheck { name: "c", is_safe: false, description: "rc", fix: "fc" },
    ];
    let err = enforce_posture(Environment::Staging, &checks).unwrap_err();
    assert_eq!(
        err,
        "REFUSING TO START in Staging: 2 unsafe posture item(s):\n  - a: ra\n      fix: fa\n  - c: rc\n      fix: fc"
    );
}

#[test]
fn enforce_posture_accepts_in_dev() {
    let checks = vec![PostureCheck {
        name: "x",
        is_safe: false,
        description: "y",
        fix: "z",
    }];
    assert!(enforce_posture(Environment::Dev, &checks).is_ok());
}

#[test]
fn enforce_posture_passes_when_all_safe() {
    let checks = vec![PostureCheck {
        name: "x",
        is_safe: true,
        description: "y",
        fix: "z",
    }];
    assert!(enforce_posture(Environment::Production, &checks).is_ok());
}

#[test]
fn dev_fixture_pattern_matches_documented_families() {
    let cases = [
        ("/app/DSL/dev-login/session.hbs", "dev-login"),
        ("/app/DSL/mock-platform/health.hbs", "mock-"),
        ("/app/DSL/http/staging-mock/probe.hbs", "-mock"),
        ("/app/DSL/http/test/probe.hbs", "/test/"),
        ("/app/DSL/example-http/fetch.hbs", "example-"),
        ("/app/DSL/http/prod-example/fetch.hbs", "-example"),
        ("/app/DSL/dev/probe.hbs", "/dev/"),
        ("/app/DSL/mocks/probe.hbs", "/mocks/"),
    ];
    for (path, expected) in cases {
        assert_eq!(
            dev_fixture_pattern(path),
            Some(expected),
            "path {path} should match pattern {expected}"
        );
    }
}

#[test]
fn dev_fixture_pattern_is_case_insensitive() {
    assert_eq!(
        dev_fixture_pattern("/app/DSL/MOCK-Foo/x.hbs"),
        Some("mock-")
    );
}

#[test]
fn dev_fixture_pattern_normalises_windows_separators() {
    assert_eq!(
        dev_fixture_pattern("C:\\app\\DSL\\dev\\probe.hbs"),
        Some("/dev/")
    );
}

#[test]
fn dev_fixture_pattern_leaves_shipped_samples_alone() {
    for path in [
        "/app/DSL/samples/ping.hbs",
        "/app/DSL/samples/echo.hbs",
        "/app/DSL/samples/arrays/map_products.hbs",
        "/app/DSL/samples/objects/select_fields.hbs",
        "/app/DSL/samples/conditionals/include_optional.hbs",
        "/app/DSL/samples/config/from_kv_array.hbs",
        "/app/DSL/samples/users/create.hbs",
        "/app/DSL/samples/users/patch.hbs",
        "/app/DSL/samples/strings/join_tags_csv.hbs",
        "/app/DSL/samples/transform/flatten_address.hbs",
        "/app/DSL/samples/advanced/nested_each_index.hbs",
        "/app/DSL/prod/webhook.hbs",
    ] {
        assert_eq!(dev_fixture_pattern(path), None, "path was: {path}");
    }
}

#[test]
fn dev_fixture_patterns_are_the_documented_eight() {
    assert_eq!(
        dev_only_dsl_patterns(),
        vec!["dev-login", "mock-", "-mock", "/test/", "example-", "-example", "/dev/", "/mocks/"]
    );
}

#[test]
fn dev_fixture_action_from_env_matrix() {
    assert_eq!(
        DevFixtureAction::from_env(Environment::Production),
        DevFixtureAction::Refuse,
    );
    assert_eq!(
        DevFixtureAction::from_env(Environment::Staging),
        DevFixtureAction::Refuse,
    );
    assert_eq!(
        DevFixtureAction::from_env(Environment::Test),
        DevFixtureAction::Refuse,
    );
    assert_eq!(
        DevFixtureAction::from_env(Environment::Dev),
        DevFixtureAction::Warn,
    );
}

fn paths(list: &[&str]) -> Vec<String> {
    list.iter().map(|s| s.to_string()).collect()
}

#[test]
fn enforce_dev_fixture_scan_ignore_returns_ok() {
    let p = paths(&["/tmp/x/mock-platform/x.hbs"]);
    assert!(enforce_dev_fixture_scan(&p, DevFixtureAction::Ignore).is_ok());
}

#[test]
fn enforce_dev_fixture_scan_refuses_in_prod() {
    let p = paths(&["/tmp/x/samples/ok.hbs", "/tmp/x/mock-platform/x.hbs", "/tmp/x/dev/y.hbs"]);
    let err = match enforce_dev_fixture_scan(&p, DevFixtureAction::Refuse) {
        Err(e) => e,
        Ok(_) => panic!("expected refusal"),
    };
    assert!(err.contains("REFUSING TO LOAD"));
    assert!(err.contains("mock-"));
    assert!(err.contains("APP_ENV=dev"));
    assert!(err.contains("/tmp/x/mock-platform/x.hbs"));
    assert!(!err.contains("/tmp/x/dev/y.hbs"));
}

#[test]
fn enforce_dev_fixture_scan_warns_in_dev() {
    let p = paths(&["/tmp/x/mock-platform/x.hbs", "/tmp/x/ok.hbs", "/tmp/x/dev/y.hbs"]);
    let found = match enforce_dev_fixture_scan(&p, DevFixtureAction::Warn) {
        Ok(v) => v,
        Err(_) => panic!("warn must not refuse"),
    };
    assert_eq!(found.len(), 2);
    assert_eq!(found[0].pattern, "mock-");
    assert_eq!(found[1].path, "/tmp/x/dev/y.hbs");
    assert_eq!(found[1].pattern, "/dev/");
}

#[test]
fn enforce_dev_fixture_scan_shipped_samples_pass_refuse() {
    let p = paths(&["/tmp/x/samples/http/health.hbs", "/tmp/x/samples/ping.hbs"]);
    assert!(enforce_dev_fixture_scan(&p, DevFixtureAction::Refuse).is_ok());
}

#[test]
fn enforce_dev_fixture_scan_nonexistent_root_is_ok() {
    let p: Vec<String> = Vec::new();
    assert!(enforce_dev_fixture_scan(&p, DevFixtureAction::Refuse).is_ok());
}

#[test]
fn environment_first_non_empty_variable_wins() {
    assert_eq!(environment_from_vars(Some("dev"), Some("prod"), None), Environment::Dev);
    assert_eq!(environment_from_vars(Some(""), Some("staging"), Some("dev")), Environment::Staging);
    assert_eq!(environment_from_vars(None, None, Some(" CI ")), Environment::Test);
    assert_eq!(environment_from_vars(None, None, None), Environment::Production);
    assert_eq!(environment_from_vars(Some(""), Some(""), Some("")), Environment::Production);
    assert_eq!(environment_from_vars(Some("banana"), Some("dev"), None), Environment::Production);
    assert_eq!(first_non_empty_value(Some(""), None, Some("x")), Some("x"));
}
