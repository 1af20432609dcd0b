use datamapper::config::AppConfig;
use datamapper::doctor::{
    config_diagnostics, dsl_tree_diagnostics, env_diagnostics, exit_code, format_line, run,
    summary_line, Diagnostic, DslTreeFacts, DslTreeState, EnvFacts, Severity,
};
use datamapper::error::DataMapperError;

fn d(severity: Severity, category: &'static str, message: &str) -> Diagnostic {
    Diagnostic { severity, category, message: message.into() }
}

#[test]
fn exit_code_zero_when_all_ok() {
    let d = vec![d(Severity::Okay, "env", "cwd = /tmp")];
    assert_eq!(exit_code(&d, false), 0);
    assert_eq!(exit_code(&d, true), 0);
}

#[test]
fn exit_code_zero_when_warn_only_and_not_strict() {
    let d = vec![d(Severity::Warn, "dsl", "writable")];
    assert_eq!(exit_code(&d, false), 0);
}

#[test]
fn exit_code_one_when_warn_and_strict() {
    let d = vec![d(Severity::Warn, "dsl", "writable")];
    assert_eq!(exit_code(&d, true), 1);
}

#[test]
fn exit_code_one_when_error_regardless_of_strict() {
    let d = vec![d(Severity::Error, "config", "unparseable")];
    assert_eq!(exit_code(&d, false), 1);
    assert_eq!(exit_code(&d, true), 1);
}

#[test]
fn exit_code_of_empty_list_is_zero() {
    assert_eq!(exit_code(&[], true), 0);
}

#[test]
fn severity_tag_stable() {
    assert_eq!(Severity::Okay.tag(), "[ok]   ");
    assert_eq!(Severity::Warn.tag(), "[warn] ");
    assert_eq!(Severity::Error.tag(), "[error]");
}

#[test]
fn printed_lines_and_summary() {
    let ds = vec![
        d(Severity::Okay, "env", "cwd = /tmp"),
        d(Severity::Warn, "dsl", "writable"),
        d(Severity::Okay, "config", "loaded"),
    ];
    assert_eq!(format_line(&ds[1]), "[warn]  dsl: writable");
    assert_eq!(summary_line(&ds), "\nsummary: 2 ok, 1 warn, 0 error");
}

fn scanned(count: usize, dot: &[&str], errs: &[&str], writable: bool) -> DslTreeState {
    DslTreeState::Scanned(DslTreeFacts {
        template_count: count,
        dot_length: dot.iter().map(|s| s.to_string()).collect(),
        read_errors: errs.iter().map(|s| s.to_string()).collect(),
        writable,
    })
}

#[test]
fn dsl_tree_walk_reports_hbs_count() {
    let diagnostics = dsl_tree_diagnostics("/tmp/dsl", &scanned(2, &[], &[], false));
    let count_diag = diagnostics
        .iter()
        .find(|d| d.message.contains("template(s) discovered"))
        .expect("count diagnostic present");
    assert!(
        count_diag.message.starts_with("2 "),
        "expected 2 templates, got: {}",
        count_diag.message
    );
    assert_eq!(count_diag.severity, Severity::Okay);
}

#[test]
fn dsl_tree_walk_warns_on_dot_length_accessor() {
    let diagnostics = dsl_tree_diagnostics("/tmp/dsl", &scanned(1, &["samples/count.hbs"], &[], false));
    assert!(diagnostics
        .iter()
        .any(|d| d.severity == Severity::Warn && d.message.contains(".length")));
}

#[test]
fn dsl_tree_walk_reports_missing_directory_as_warn() {
    let diagnostics = dsl_tree_diagnostics("/does/not/exist/at/all", &DslTreeState::Missing);
    assert!(diagnostics
        .iter()
        .any(|d| d.severity == Severity::Warn && d.message.contains("does not exist")));
}

#[test]
fn dsl_tree_not_a_directory_is_an_error() {
    let diagnostics = dsl_tree_diagnostics("/etc/passwd", &DslTreeState::NotADirectory);
    assert_eq!(diagnostics.len(), 1);
    assert_eq!(diagnostics[0].severity, Severity::Error);
    assert_eq!(diagnostics[0].message, "dsl_path /etc/passwd exists but is not a directory");
}

#[test]
fn dot_length_warning_lists_at_most_five_templates() {
    let names = ["a.hbs", "b.hbs", "c.hbs", "d.hbs", "e.hbs", "f.hbs", "g.hbs"];
    let diagnostics = dsl_tree_diagnostics("DSL", &scanned(7, &names, &["x.hbs: denied"], true));
    assert_eq!(diagnostics.len(), 4);
    assert_eq!(diagnostics[0].message, "7 template(s) discovered under DSL");
    assert_eq!(diagnostics[1].severity, Severity::Error);
    assert_eq!(diagnostics[1].message, "unreadable template — x.hbs: denied");
    assert!(diagnostics[2]
        .message
        .ends_with("a.hbs, b.hbs, c.hbs, d.hbs, e.hbs, … +2 more"));
    assert!(diagnostics[2].message.starts_with("7 template(s) use the JS `.length` accessor"));
    assert_eq!(diagnostics[3].severity, Severity::Warn);
    assert!(diagnostics[3].message.contains("is writable by this process"));
}

#[test]
fn env_diagnostics_cover_cwd_port_and_config() {
    let facts = EnvFacts {
        cwd: Some("/srv".to_string()),
        port: Some("8080".to_string()),
        config: None,
    };
    let ds = env_diagnostics(&facts);
    assert_eq!(ds.len(), 3);
    assert_eq!(ds[0].message, "cwd = /srv");
    assert_eq!(ds[1].message, "PORT env = 8080");
    assert_eq!(
        ds[2].message,
        "DATAMAPPER_CONFIG env not set — using default search path"
    );
    let bad = EnvFacts { cwd: None, port: Some("xyz".to_string()), config: Some("/c.yaml".to_string()) };
    let ds = env_diagnostics(&bad);
    assert_eq!(ds[0].severity, Severity::Warn);
    assert_eq!(ds[1].severity, Severity::Warn);
    assert_eq!(
        ds[1].message,
        "PORT env = \"xyz\" is not a valid u16 — falls back to default 3000 (JS DataMapper compat)"
    );
    assert_eq!(ds[2].message, "DATAMAPPER_CONFIG = /c.yaml");
}

#[test]
fn config_diagnostics_for_each_outcome() {
    let ok: Result<(AppConfig, Option<String>), DataMapperError> = Ok((AppConfig::default(), None));
    let ds = config_diagnostics(&ok);
    assert_eq!(ds.len(), 2);
    assert_eq!(ds[0].message, "no file found — using built-in defaults");
    assert_eq!(
        ds[1].message,
        "port=3000 dsl_path=./DSL max_req=2097152 max_resp=16777216 req_to=30s"
    );
    let err: Result<(AppConfig, Option<String>), DataMapperError> =
        Err(DataMapperError::Internal("boom".to_string()));
    let ds = config_diagnostics(&err);
    assert_eq!(ds.len(), 1);
    assert_eq!(ds[0].severity, Severity::Error);
    assert_eq!(ds[0].message, "failed to load: internal error: boom");
}

#[test]
fn run_top_level_returns_non_empty_diagnostics() {
    let facts = EnvFacts { cwd: None, port: None, config: None };
    let loaded: Result<(AppConfig, Option<String>), DataMapperError> =
        Ok((AppConfig::default(), Some("datamapper.yaml".to_string())));
    let d = run(&facts, &loaded, &DslTreeState::Missing);
    assert!(!d.is_empty());
    assert_eq!(d.len(), 6);
    let failed: Result<(AppConfig, Option<String>), DataMapperError> =
        Err(DataMapperError::Internal("x".to_string()));
    assert_eq!(run(&facts, &failed, &DslTreeState::Missing).len(), 4);
}

#[test]
fn strict_and_extra_diagnostics_never_lower_the_exit_code() {
    let base = vec![d(Severity::Okay, "env", "a"), d(Severity::Warn, "dsl", "b")];
    assert!(exit_code(&base, false) <= exit_code(&base, true));
    let more = vec![
        d(Severity::Okay, "env", "a"),
        d(Severity::Warn, "dsl", "b"),
        d(Severity::Error, "config", "c"),
    ];
    for strict in [false, true] {
        assert!(exit_code(&base, strict) <= exit_code(&more, strict));
    }
    assert_eq!(exit_code(&more, false), 1);
}

#[test]
fn summary_counts_add_up_to_the_diagnostics() {
    let ds = vec![
        d(Severity::Okay, "env", "a"),
        d(Severity::Error, "config", "b"),
        d(Severity::Warn, "dsl", "c"),
        d(Severity::Error, "dsl", "d"),
    ];
    assert_eq!(summary_line(&ds), "\nsummary: 1 ok, 1 warn, 2 error");
}
