//! Pre-boot environment validation (`datamapper doctor`).
//!
//! Three classes of check, each turned into diagnostics here from the
//! facts the service gathers: the environment (`PORT`,
//! `DATAMAPPER_CONFIG`, working directory), the configuration load,
//! and the DSL tree (template count, `.length` accessor use, unreadable
//! files, writability). Output is one line per diagnostic with an
//! `[ok]` / `[warn]` / `[error]` tag; the exit code is 1 when an error
//! fired, or a warning under `--strict`.

use vstd::prelude::*;
use crate::config::{parse_port, parse_u16_spec, AppConfig};
use crate::error::{debug_str, debug_text, message_text, DataMapperError};
use crate::text::{decimal, preview, push_decimal, push_preview, push_str, string_views};

verus! {

/// Severity of a single diagnostic.
#[derive(Debug, Clone, Copy, PartialEq, Eq, Structural)]
pub enum Severity {
    Okay,
    Warn,
    Error,
}

pub open spec fn tag_text(s: Severity) -> Seq<char> {
    match s {
        Severity::Okay => "[ok]   "@,
        Severity::Warn => "[warn] "@,
        Severity::Error => "[error]"@,
    }
}

impl Severity {
    /// The fixed-width line prefix of the severity.
    pub fn tag(self) -> (t: &'static str)
        ensures
            t@ == tag_text(self),
    {
        match self {
            Severity::Okay => "[ok]   ",
            Severity::Warn => "[warn] ",
            Severity::Error => "[error]",
        }
    }
}

/// One diagnostic line.
pub struct Diagnostic {
    pub severity: Severity,
    pub category: &'static str,
    pub message: String,
}

/// A diagnostic as `(severity, category, message)`.
pub type DiagView = (Severity, Seq<char>, Seq<char>);

pub open spec fn diag_view(d: Diagnostic) -> DiagView {
    (d.severity, d.category@, d.message@)
}

pub open spec fn diag_views(ds: Seq<Diagnostic>) -> Seq<DiagView> {
    ds.map_values(|d: Diagnostic| diag_view(d))
}

/// Some diagnostic has severity `s`.
pub open spec fn has_severity(ds: Seq<Diagnostic>, s: Severity) -> bool {
    exists|i: int| 0 <= i < ds.len() && (#[trigger] ds[i]).severity == s
}

/// 1 when an `Error` is present, or a `Warn` under `strict`; otherwise 0.
pub open spec fn exit_code_spec(ds: Seq<Diagnostic>, strict: bool) -> u8 {
    if has_severity(ds, Severity::Error) || (strict && has_severity(ds, Severity::Warn)) {
        1u8
    } else {
        0u8
    }
}

/// Exit code the CLI should return given a diagnostic list: 1 when an
/// `Error` is present, or a `Warn` under `strict`; otherwise 0.
pub fn exit_code(diagnostics: &[Diagnostic], strict: bool) -> (c: u8)
    ensures
        c == exit_code_spec(diagnostics@, strict),
{
    let mut has_error = false;
    let mut has_warn = false;
    let mut i: usize = 0;
    while i < diagnostics.len()
        invariant
            i <= diagnostics@.len(),
            has_error == exists|k: int| 0 <= k < i && (#[trigger] diagnostics@[k]).severity
                == Severity::Error,
            has_warn == exists|k: int| 0 <= k < i && (#[trigger] diagnostics@[k]).severity
                == Severity::Warn,
        decreases diagnostics@.len() - i,
    {
        let s = diagnostics[i].severity;
        if s == Severity::Error {
            has_error = true;
        }
        if s == Severity::Warn {
            has_warn = true;
        }
        i += 1;
    }
    if has_error || (strict && has_warn) {
        1
    } else {
        0
    }
}

/// Number of diagnostics of severity `s`.
pub open spec fn count_severity(ds: Seq<Diagnostic>, s: Severity) -> nat
    decreases ds.len(),
{
    if ds.len() == 0 {
        0
    } else {
        count_severity(ds.drop_last(), s) + if ds.last().severity == s {
            1nat
        } else {
            0nat
        }
    }
}

/// `--strict` only ever makes the verdict stricter: whatever passes
/// under `--strict` passes without it.
pub proof fn lemma_strict_never_lowers(ds: Seq<Diagnostic>)
    ensures
        exit_code_spec(ds, false) <= exit_code_spec(ds, true),
{
}

/// More checks never rescue a failing run: adding diagnostics can only
/// keep or raise the exit code.
pub proof fn lemma_more_diagnostics_never_lower(a: Seq<Diagnostic>, b: Seq<Diagnostic>, strict: bool)
    ensures
        exit_code_spec(a, strict) <= exit_code_spec(a + b, strict),
{
    assert forall|s: Severity| has_severity(a, s) implies has_severity(a + b, s) by {
        let i = choose|i: int| 0 <= i < a.len() && (#[trigger] a[i]).severity == s;
        assert((a + b)[i] == a[i]);
    }
}

/// The summary accounts for every diagnostic: the ok, warn and error
/// counts add up to the number of diagnostics.
pub proof fn lemma_summary_counts_total(ds: Seq<Diagnostic>)
    ensures
        count_severity(ds, Severity::Okay) + count_severity(ds, Severity::Warn) + count_severity(
            ds,
            Severity::Error,
        ) == ds.len(),
    decreases ds.len(),
{
    if ds.len() > 0 {
        lemma_summary_counts_total(ds.drop_last());
    }
}

/// The printed line of one diagnostic: `<tag> <category>: <message>`.
pub fn format_line(d: &Diagnostic) -> (l: String)
    ensures
        l@ == tag_text(d.severity) + " "@ + d.category@ + ": "@ + d.message@,
{
    let mut l = String::new();
    push_str(&mut l, d.severity.tag());
    push_str(&mut l, " ");
    push_str(&mut l, d.category);
    push_str(&mut l, ": ");
    push_str(&mut l, d.message.as_str());
    l
}

/// The summary printed after the diagnostics.
pub fn summary_line(diagnostics: &[Diagnostic]) -> (l: String)
    ensures
        l@ == "\nsummary: "@ + decimal(count_severity(diagnostics@, Severity::Okay)) + " ok, "@
            + decimal(count_severity(diagnostics@, Severity::Warn)) + " warn, "@ + decimal(
            count_severity(diagnostics@, Severity::Error),
        ) + " error"@,
{
    let mut ok: u64 = 0;
    let mut warn: u64 = 0;
    let mut error: u64 = 0;
    let mut i: usize = 0;
    while i < diagnostics.len()
        invariant
            i <= diagnostics@.len(),
            ok == count_severity(diagnostics@.take(i as int), Severity::Okay),
            warn == count_severity(diagnostics@.take(i as int), Severity::Warn),
            error == count_severity(diagnostics@.take(i as int), Severity::Error),
            ok + warn + error == i,
        decreases diagnostics@.len() - i,
    {
        assert(diagnostics@.take(i + 1).drop_last() =~= diagnostics@.take(i as int));
        match diagnostics[i].severity {
            Severity::Okay => {
                ok += 1;
            },
            Severity::Warn => {
                warn += 1;
            },
            Severity::Error => {
                error += 1;
            },
        }
        i += 1;
    }
    assert(diagnostics@.take(diagnostics@.len() as int) =~= diagnostics@);
    let mut l = String::new();
    push_str(&mut l, "\nsummary: ");
    push_decimal(&mut l, ok);
    push_str(&mut l, " ok, ");
    push_decimal(&mut l, warn);
    push_str(&mut l, " warn, ");
    push_decimal(&mut l, error);
    push_str(&mut l, " error");
    l
}

// ---------------------------------------------------------------------------
// Environment
// ---------------------------------------------------------------------------

/// What the environment looks like to the doctor.
pub struct EnvFacts {
    /// The working directory, when readable.
    pub cwd: Option<String>,
    /// The `PORT` variable, when set.
    pub port: Option<String>,
    /// The `DATAMAPPER_CONFIG` variable, when set.
    pub config: Option<String>,
}

pub open spec fn opt_view(o: Option<String>) -> Option<Seq<char>> {
    match o {
        Some(s) => Some(s@),
        None => None,
    }
}

/// The environment diagnostics: working directory, `PORT`, `DATAMAPPER_CONFIG`.
pub open spec fn env_diags(cwd: Option<Seq<char>>, port: Option<Seq<char>>, config: Option<
    Seq<char>,
>) -> Seq<DiagView> {
    let c = match cwd {
        Some(p) => (Severity::Okay, "env"@, "cwd = "@ + p),
        None => (
            Severity::Warn,
            "env"@,
            "cwd not readable — relative dsl_path may not resolve as expected"@,
        ),
    };
    let p = match port {
        Some(v) => if v.len() > 0 {
            match parse_u16_spec(v) {
                Some(n) => (Severity::Okay, "env"@, "PORT env = "@ + decimal(n as nat)),
                None => (
                    Severity::Warn,
                    "env"@,
                    "PORT env = "@ + debug_text(v)
                        + " is not a valid u16 — falls back to default 3000 (JS DataMapper compat)"@,
                ),
            }
        } else {
            (Severity::Okay, "env"@, "PORT env not set — using config / default"@)
        },
        None => (Severity::Okay, "env"@, "PORT env not set — using config / default"@),
    };
    let g = match config {
        Some(v) => if v.len() > 0 {
            (Severity::Okay, "env"@, "DATAMAPPER_CONFIG = "@ + v)
        } else {
            (Severity::Okay, "env"@, "DATAMAPPER_CONFIG env not set — using default search path"@)
        },
        None => (
            Severity::Okay,
            "env"@,
            "DATAMAPPER_CONFIG env not set — using default search path"@,
        ),
    };
    seq![c, p, g]
}

fn diag(severity: Severity, category: &'static str, message: String) -> (d: Diagnostic)
    ensures
        d.severity == severity,
        d.category == category,
        d.message == message,
{
    Diagnostic { severity, category, message }
}

fn text(s: &str) -> (r: String)
    ensures
        r@ == s@,
{
    String::from_str(s)
}

/// Diagnostics on the working directory and the environment variables.
pub fn env_diagnostics(facts: &EnvFacts) -> (r: Vec<Diagnostic>)
    ensures
        diag_views(r@) == env_diags(opt_view(facts.cwd), opt_view(facts.port), opt_view(facts.config)),
{
    let mut out: Vec<Diagnostic> = Vec::new();
    match &facts.cwd {
        Some(p) => {
            let mut m = text("cwd = ");
            push_str(&mut m, p.as_str());
            out.push(diag(Severity::Okay, "env", m));
        },
        None => {
            out.push(
                diag(
                    Severity::Warn,
                    "env",
                    text("cwd not readable — relative dsl_path may not resolve as expected"),
                ),
            );
        },
    }
    let port_unset = text("PORT env not set — using config / default");
    match &facts.port {
        Some(v) => {
            if !v.as_str().is_empty() {
                match parse_port(v.as_str()) {
                    Some(n) => {
                        let mut m = text("PORT env = ");
                        push_decimal(&mut m, n as u64);
                        out.push(diag(Severity::Okay, "env", m));
                    },
                    None => {
                        let mut m = text("PORT env = ");
                        let q = debug_str(v.as_str());
                        push_str(&mut m, q.as_str());
                        push_str(&mut m, " is not a valid u16 — falls back to default 3000 (JS DataMapper compat)");
                        out.push(diag(Severity::Warn, "env", m));
                    },
                }
            } else {
                out.push(diag(Severity::Okay, "env", port_unset));
            }
        },
        None => {
            out.push(diag(Severity::Okay, "env", port_unset));
        },
    }
    let config_unset = text("DATAMAPPER_CONFIG env not set — using default search path");
    match &facts.config {
        Some(v) => {
            if !v.as_str().is_empty() {
                let mut m = text("DATAMAPPER_CONFIG = ");
                push_str(&mut m, v.as_str());
                out.push(diag(Severity::Okay, "env", m));
            } else {
                out.push(diag(Severity::Okay, "env", config_unset));
            }
        },
        None => {
            out.push(diag(Severity::Okay, "env", config_unset));
        },
    }
    assert(diag_views(out@) =~= env_diags(
        opt_view(facts.cwd),
        opt_view(facts.port),
        opt_view(facts.config),
    ));
    out
}

// ---------------------------------------------------------------------------
// Configuration
// ---------------------------------------------------------------------------

/// The effective-settings line of a loaded configuration.
pub open spec fn settings_text(cfg: AppConfig) -> Seq<char> {
    "port="@ + decimal(cfg.port as nat) + " dsl_path="@ + cfg.dsl_path@ + " max_req="@ + decimal(
        cfg.limits.max_request_bytes as nat,
    ) + " max_resp="@ + decimal(cfg.limits.max_response_bytes as nat) + " req_to="@ + decimal(
        cfg.limits.request_timeout_secs as nat,
    ) + "s"@
}

/// The configuration diagnostics for a load outcome (the configuration
/// and the file it came from, or the load error).
pub open spec fn config_diags(loaded: Result<(AppConfig, Option<String>), DataMapperError>) -> Seq<
    DiagView,
> {
    match loaded {
        Ok((cfg, source)) => {
            let first = match source {
                Some(p) => (Severity::Okay, "config"@, "loaded from "@ + p@),
                None => (Severity::Okay, "config"@, "no file found — using built-in defaults"@),
            };
            seq![first, (Severity::Okay, "config"@, settings_text(cfg))]
        },
        Err(e) => seq![(Severity::Error, "config"@, "failed to load: "@ + message_text(e))],
    }
}

/// Diagnostics on the configuration load outcome.
pub fn config_diagnostics(loaded: &Result<(AppConfig, Option<String>), DataMapperError>) -> (r: Vec<
    Diagnostic,
>)
    ensures
        diag_views(r@) == config_diags(*loaded),
{
    let mut out: Vec<Diagnostic> = Vec::new();
    match loaded {
        Ok((cfg, source)) => {
            match source {
                Some(p) => {
                    let mut m = text("loaded from ");
                    push_str(&mut m, p.as_str());
                    out.push(diag(Severity::Okay, "config", m));
                },
                None => {
                    out.push(
                        diag(Severity::Okay, "config", text("no file found — using built-in defaults")),
                    );
                },
            }
            let mut m = text("port=");
            push_decimal(&mut m, cfg.port as u64);
            push_str(&mut m, " dsl_path=");
            push_str(&mut m, cfg.dsl_path.as_str());
            push_str(&mut m, " max_req=");
            push_decimal(&mut m, cfg.limits.max_request_bytes as u64);
            push_str(&mut m, " max_resp=");
            push_decimal(&mut m, cfg.limits.max_response_bytes as u64);
            push_str(&mut m, " req_to=");
            push_decimal(&mut m, cfg.limits.request_timeout_secs);
            push_str(&mut m, "s");
            out.push(diag(Severity::Okay, "config", m));
        },
        Err(e) => {
            let mut m = text("failed to load: ");
            let t = e.to_string();
            push_str(&mut m, t.as_str());
            out.push(diag(Severity::Error, "config", m));
        },
    }
    assert(diag_views(out@) =~= config_diags(*loaded));
    out
}


// ---------------------------------------------------------------------------
// DSL tree
// ---------------------------------------------------------------------------

/// What a walk of an existing DSL directory found.
pub struct DslTreeFacts {
    /// Number of `.hbs` files.
    pub template_count: usize,
    /// Templates (relative paths) that use the `.length` accessor.
    pub dot_length: Vec<String>,
    /// `<relative path>: <error>` of each template that could not be read.
    pub read_errors: Vec<String>,
    /// Whether this process can create files in the directory.
    pub writable: bool,
}

/// The state of the configured DSL path.
pub enum DslTreeState {
    Missing,
    NotADirectory,
    Scanned(DslTreeFacts),
}

/// How many `.length` users are named in the warning.
pub const DOT_LENGTH_SHOWN: usize = 5;

pub open spec fn read_error_diags(errors: Seq<Seq<char>>) -> Seq<DiagView> {
    errors.map_values(|m: Seq<char>| (Severity::Error, "dsl"@, "unreadable template — "@ + m))
}

/// The DSL tree diagnostics for the DSL path `path` in state `state`.
pub open spec fn dsl_diags(path: Seq<char>, state: DslTreeState) -> Seq<DiagView> {
    match state {
        DslTreeState::Missing => seq![
            (
                Severity::Warn,
                "dsl"@,
                "dsl_path "@ + path + " does not exist — the server will start but serve no templates"@,
            ),
        ],
        DslTreeState::NotADirectory => seq![
            (Severity::Error, "dsl"@, "dsl_path "@ + path + " exists but is not a directory"@),
        ],
        DslTreeState::Scanned(f) => {
            let count = seq![
                (
                    Severity::Okay,
                    "dsl"@,
                    decimal(f.template_count as nat) + " template(s) discovered under "@ + path,
                ),
            ];
            let dots = string_views(f.dot_length@);
            let dot = if dots.len() > 0 {
                seq![
                    (
                        Severity::Warn,
                        "dsl"@,
                        decimal(dots.len()) + " template(s) use the JS `.length` accessor — auto-rewritten to `(len …)` at render time (book/src/porting-from-js.md): "@
                            + preview(dots, DOT_LENGTH_SHOWN as nat),
                    ),
                ]
            } else {
                Seq::empty()
            };
            let posture = if f.writable {
                (
                    Severity::Warn,
                    "dsl"@,
                    "dsl_path "@ + path
                        + " is writable by this process — production deployments should mount read-only (compose: `DSL:/app/DSL:ro`) to defeat symlink-swap / TOCTOU (h2ck.me v1 L1)"@,
                )
            } else {
                (
                    Severity::Okay,
                    "dsl"@,
                    "dsl_path "@ + path + " is read-only for this process — L1 posture holds"@,
                )
            };
            count + read_error_diags(string_views(f.read_errors@)) + dot + seq![posture]
        },
    }
}

/// Diagnostics on the DSL tree at `dsl_path`.
pub fn dsl_tree_diagnostics(dsl_path: &str, state: &DslTreeState) -> (r: Vec<Diagnostic>)
    ensures
        diag_views(r@) == dsl_diags(dsl_path@, *state),
{
    let mut out: Vec<Diagnostic> = Vec::new();
    match state {
        DslTreeState::Missing => {
            let mut m = text("dsl_path ");
            push_str(&mut m, dsl_path);
            push_str(&mut m, " does not exist — the server will start but serve no templates");
            out.push(diag(Severity::Warn, "dsl", m));
        },
        DslTreeState::NotADirectory => {
            let mut m = text("dsl_path ");
            push_str(&mut m, dsl_path);
            push_str(&mut m, " exists but is not a directory");
            out.push(diag(Severity::Error, "dsl", m));
        },
        DslTreeState::Scanned(f) => {
            let mut m = String::new();
            push_decimal(&mut m, f.template_count as u64);
            push_str(&mut m, " template(s) discovered under ");
            push_str(&mut m, dsl_path);
            out.push(diag(Severity::Okay, "dsl", m));
            let mut i: usize = 0;
            while i < f.read_errors.len()
                invariant
                    i <= f.read_errors@.len(),
                    diag_views(out@) == seq![
                        (
                            Severity::Okay,
                            "dsl"@,
                            decimal(f.template_count as nat) + " template(s) discovered under "@
                                + dsl_path@,
                        ),
                    ] + read_error_diags(string_views(f.read_errors@.take(i as int))),
                decreases f.read_errors@.len() - i,
            {
                let ghost before = out@;
                let mut e = text("unreadable template — ");
                push_str(&mut e, f.read_errors[i].as_str());
                out.push(diag(Severity::Error, "dsl", e));
                assert(read_error_diags(string_views(f.read_errors@.take(i + 1))) =~= read_error_diags(
                    string_views(f.read_errors@.take(i as int)),
                ).push((Severity::Error, "dsl"@, "unreadable template — "@ + f.read_errors@[i as int]@)));
                assert(diag_views(out@) =~= diag_views(before).push(
                    (Severity::Error, "dsl"@, "unreadable template — "@ + f.read_errors@[i as int]@),
                ));
                i += 1;
            }
            assert(f.read_errors@.take(f.read_errors@.len() as int) =~= f.read_errors@);
            let ghost mid = out@;
            if f.dot_length.len() > 0 {
                let mut d = String::new();
                push_decimal(&mut d, f.dot_length.len() as u64);
                push_str(
                    &mut d,
                    " template(s) use the JS `.length` accessor — auto-rewritten to `(len …)` at render time (book/src/porting-from-js.md): ",
                );
                push_preview(&mut d, &f.dot_length, DOT_LENGTH_SHOWN);
                out.push(diag(Severity::Warn, "dsl", d));
                assert(diag_views(out@) =~= diag_views(mid).push(diag_view(out@.last())));
            }
            let ghost mid2 = out@;
            let mut w = text("dsl_path ");
            push_str(&mut w, dsl_path);
            if f.writable {
                push_str(
                    &mut w,
                    " is writable by this process — production deployments should mount read-only (compose: `DSL:/app/DSL:ro`) to defeat symlink-swap / TOCTOU (h2ck.me v1 L1)",
                );
                out.push(diag(Severity::Warn, "dsl", w));
            } else {
                push_str(&mut w, " is read-only for this process — L1 posture holds");
                out.push(diag(Severity::Okay, "dsl", w));
            }
            assert(diag_views(out@) =~= diag_views(mid2).push(diag_view(out@.last())));
        },
    }
    assert(diag_views(out@) =~= dsl_diags(dsl_path@, *state));
    out
}

/// A healthy scanned DSL tree raises nothing: when the directory is
/// read-only for the process, every template was readable and none uses
/// the `.length` accessor, every DSL diagnostic is `[ok]`, so even
/// `doctor --strict` passes on it; a writable tree always raises a
/// warning, and an unreadable template always an error.
pub proof fn lemma_dsl_tree_verdict(path: Seq<char>, f: DslTreeFacts)
    ensures
        (!f.writable && f.read_errors@.len() == 0 && f.dot_length@.len() == 0) ==> forall|k: int|
            0 <= k < dsl_diags(path, DslTreeState::Scanned(f)).len() ==> (#[trigger] dsl_diags(
                path,
                DslTreeState::Scanned(f),
            )[k]).0 == Severity::Okay,
        f.writable ==> exists|k: int|
            0 <= k < dsl_diags(path, DslTreeState::Scanned(f)).len() && (#[trigger] dsl_diags(
                path,
                DslTreeState::Scanned(f),
            )[k]).0 == Severity::Warn,
        f.read_errors@.len() > 0 ==> exists|k: int|
            0 <= k < dsl_diags(path, DslTreeState::Scanned(f)).len() && (#[trigger] dsl_diags(
                path,
                DslTreeState::Scanned(f),
            )[k]).0 == Severity::Error,
{
    let d = dsl_diags(path, DslTreeState::Scanned(f));
    let errs = read_error_diags(string_views(f.read_errors@));
    if !f.writable && f.read_errors@.len() == 0 && f.dot_length@.len() == 0 {
        assert(errs.len() == 0);
        assert(d.len() == 2);
    }
    if f.writable {
        assert(d[d.len() - 1].0 == Severity::Warn);
    }
    if f.read_errors@.len() > 0 {
        assert(d[1] == errs[0]);
        assert(d[1].0 == Severity::Error);
    }
}

/// All doctor diagnostics: the environment, the configuration load
/// outcome and, when the configuration loaded, the DSL tree at its
/// `dsl_path` (whose state is `tree`).
pub fn run(
    env: &EnvFacts,
    loaded: &Result<(AppConfig, Option<String>), DataMapperError>,
    tree: &DslTreeState,
) -> (r: Vec<Diagnostic>)
    ensures
        diag_views(r@) == env_diags(opt_view(env.cwd), opt_view(env.port), opt_view(env.config))
            + config_diags(*loaded) + match loaded {
            Ok((cfg, _)) => dsl_diags(cfg.dsl_path@, *tree),
            Err(_) => Seq::empty(),
        },
{
    let mut out = env_diagnostics(env);
    let ghost a = out@;
    let mut c = config_diagnostics(loaded);
    let ghost b = c@;
    out.append(&mut c);
    assert(diag_views(out@) =~= diag_views(a) + diag_views(b));
    match loaded {
        Ok((cfg, _)) => {
            let ghost a2 = out@;
            let mut d = dsl_tree_diagnostics(cfg.dsl_path.as_str(), tree);
            let ghost b2 = d@;
            out.append(&mut d);
            assert(diag_views(out@) =~= diag_views(a2) + diag_views(b2));
        },
        Err(_) => {
            assert(diag_views(out@) =~= diag_views(out@) + Seq::<DiagView>::empty());
        },
    }
    out
}

} // verus!
