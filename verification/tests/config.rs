use datamapper::config::{
    apply_port_env, config_search_paths, defaults_with_port_env, file_sets_port,
    find_cors_origin_key, first_existing, load_config, parse_port, port_setting,
    resolve_config_file, AppConfig, FoundConfig, Limits, PortSetting,
};
use datamapper::error::DataMapperError;

#[test]
fn defaults_are_sane() {
    let cfg = AppConfig::default();
    assert_eq!(cfg.port, 3000);
    assert_eq!(cfg.dsl_path, "./DSL");
    assert_eq!(cfg.limits.max_request_bytes, 2 * 1024 * 1024);
    assert_eq!(cfg.limits.max_response_bytes, 16 * 1024 * 1024);
    assert_eq!(cfg.limits.request_timeout_secs, 30);
}

#[test]
fn f06_request_limit_default_is_2_mib_binary() {
    let cfg = AppConfig::default();
    assert_eq!(
        cfg.limits.max_request_bytes,
        2 * 1024 * 1024,
        "default request-body cap must stay at 2 MiB binary"
    );
}

#[test]
fn default_body_array_cap_is_ten_thousand() {
    assert_eq!(Limits::default().max_body_array_length, 10_000);
}

#[test]
fn cors_origin_key_is_detected_at_top_level() {
    assert_eq!(
        find_cors_origin_key("port: 3000\ncors_origin: \"*\"\n"),
        Some(2)
    );
    assert_eq!(find_cors_origin_key("cors_origin: foo\n"), Some(1));
}

#[test]
fn cors_origin_key_ignores_indented_and_commented_occurrences() {
    assert_eq!(find_cors_origin_key("# cors_origin: foo\n"), None);
    assert_eq!(
        find_cors_origin_key("something:\n  cors_origin: nested\n"),
        None
    );
    assert_eq!(find_cors_origin_key("port: 3000\n"), None);
}

#[test]
fn cors_origin_key_with_space_before_colon_and_crlf() {
    assert_eq!(find_cors_origin_key("a: 1\r\nb: 2\r\ncors_origin : x\r\n"), Some(3));
    assert_eq!(find_cors_origin_key(""), None);
    assert_eq!(find_cors_origin_key("cors_origins: x\n"), None);
}

#[test]
fn file_sets_port_only_for_a_port_key_line() {
    assert!(file_sets_port("port: 4444\ndsl_path: ./DSL\n"));
    assert!(file_sets_port("dsl_path: ./DSL\n   port: 1\n"));
    assert!(!file_sets_port("# port: 4444\ndsl_path: ./DSL\n"));
    assert!(!file_sets_port("dsl_path: ./DSL\nsupport: 1\n"));
}

#[test]
fn parse_port_follows_u16_parsing() {
    assert_eq!(parse_port("8080"), Some(8080));
    assert_eq!(parse_port("+8080"), Some(8080));
    assert_eq!(parse_port("0"), Some(0));
    assert_eq!(parse_port("65535"), Some(65535));
    assert_eq!(parse_port("0065535"), Some(65535));
    assert_eq!(parse_port("65536"), None);
    assert_eq!(parse_port("99999999999999"), None);
    assert_eq!(parse_port(""), None);
    assert_eq!(parse_port("+"), None);
    assert_eq!(parse_port("-1"), None);
    assert_eq!(parse_port(" 80"), None);
    assert_eq!(parse_port("not-a-port"), None);
    for s in ["1", "443", "3000", "65535", "65536", "12a", "+0"] {
        assert_eq!(parse_port(s), s.parse::<u16>().ok(), "{s}");
    }
}

#[test]
fn port_setting_trims_and_classifies() {
    assert!(matches!(port_setting(None), PortSetting::Unset));
    assert!(matches!(port_setting(Some("   ")), PortSetting::Unset));
    assert!(matches!(port_setting(Some(" 8181 ")), PortSetting::Port(8181)));
    match port_setting(Some(" not-a-port ")) {
        PortSetting::Invalid(v) => assert_eq!(v, "not-a-port"),
        _ => panic!("expected Invalid"),
    }
}

#[test]
fn f01_port_env_var_is_honoured_when_config_absent() {
    let cfg = defaults_with_port_env(Some("8181"));
    assert_eq!(cfg.port, 8181, "PORT env var must override default 3000");
    assert_eq!(cfg.dsl_path, "./DSL");
}

#[test]
fn f01_port_env_var_yields_to_explicit_config() {
    let body = "port: 4444\ndsl_path: ./DSL\n";
    let decoded = AppConfig { port: 4444, ..AppConfig::default() };
    let cfg = resolve_config_file("datamapper.yaml", body, Ok(decoded), Some("9999")).unwrap();
    assert_eq!(cfg.port, 4444, "explicit `port:` in config must beat PORT env");
}

#[test]
fn f01_invalid_port_env_var_falls_back_and_warns() {
    let cfg = defaults_with_port_env(Some("not-a-port"));
    assert_eq!(cfg.port, 3000, "unparseable PORT must not crash — falls back to default");
}

#[test]
fn port_env_applies_when_file_omits_port() {
    let body = "dsl_path: /srv/DSL\n";
    let decoded = AppConfig { dsl_path: "/srv/DSL".to_string(), ..AppConfig::default() };
    let cfg = resolve_config_file("c.yaml", body, Ok(decoded), Some("7070")).unwrap();
    assert_eq!(cfg.port, 7070);
    assert_eq!(cfg.dsl_path, "/srv/DSL");
    let same = apply_port_env(AppConfig::default(), None);
    assert_eq!(same.port, 3000);
}

#[test]
fn cors_origin_key_refuses_to_boot_naming_file_and_line() {
    let body = "port: 3000\ncors_origin: \"*\"\n";
    let err = resolve_config_file("/etc/dm.yaml", body, Ok(AppConfig::default()), None)
        .unwrap_err();
    match err {
        DataMapperError::Internal(m) => {
            assert!(m.starts_with("config /etc/dm.yaml line 2: `cors_origin` is not implemented"));
            assert!(m.ends_with("Remove the `cors_origin` key from the config to boot."));
        }
        other => panic!("unexpected {other:?}"),
    }
}

#[test]
fn decode_error_is_reported_with_the_path() {
    let err = resolve_config_file("c.yaml", "port: x\n", Err("bad port".to_string()), None)
        .unwrap_err();
    assert_eq!(err.code(), "Internal");
    assert_eq!(err.to_string(), "internal error: parsing config c.yaml: bad port");
}

#[test]
fn search_paths_follow_flag_env_then_defaults() {
    let args: Vec<String> = ["datamapper", "doctor", "--config", "/a.yaml"]
        .iter()
        .map(|s| s.to_string())
        .collect();
    assert_eq!(
        config_search_paths(&args, Some("/b.yaml")),
        vec!["/a.yaml", "/b.yaml", "./datamapper.yaml", "./datamapper.yml"]
    );
    let args2: Vec<String> = ["datamapper", "--config=/c.yaml"].iter().map(|s| s.to_string()).collect();
    assert_eq!(
        config_search_paths(&args2, Some("")),
        vec!["/c.yaml", "./datamapper.yaml", "./datamapper.yml"]
    );
    let args3: Vec<String> = ["datamapper", "--config"].iter().map(|s| s.to_string()).collect();
    assert_eq!(
        config_search_paths(&args3, None),
        vec!["./datamapper.yaml", "./datamapper.yml"]
    );
}

#[test]
fn first_existing_candidate_decides() {
    assert_eq!(first_existing(&[false, true, true]), Some(1));
    assert_eq!(first_existing(&[false, false]), None);
    assert_eq!(first_existing(&[]), None);
}

#[test]
fn load_config_outcomes() {
    let (cfg, src) = load_config(None, Some("8080")).unwrap();
    assert_eq!((cfg.port, cfg.dsl_path.as_str(), src), (8080, "./DSL", None));
    let unreadable = FoundConfig {
        path: "./datamapper.yaml".to_string(),
        contents: Err("permission denied".to_string()),
    };
    match load_config(Some(unreadable), None) {
        Err(DataMapperError::Internal(m)) => {
            assert_eq!(m, "reading config ./datamapper.yaml: permission denied")
        }
        other => panic!("expected Internal, got {other:?}"),
    }
    let decoded = AppConfig { port: 9999, ..AppConfig::default() };
    let found = FoundConfig {
        path: "conf.yml".to_string(),
        contents: Ok(("port: 9999\n".to_string(), Ok(decoded))),
    };
    let (cfg, src) = load_config(Some(found), Some("1234")).unwrap();
    assert_eq!((cfg.port, src.as_deref()), (9999, Some("conf.yml")));
}
