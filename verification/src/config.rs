//! DataMapper configuration.
//!
//! Wire shape (`datamapper.yaml`):
//!
//! ```yaml
//! port: 3000
//! dsl_path: ./DSL
//! limits:
//!   max_request_bytes: 2097152
//!   max_response_bytes: 16777216
//!   request_timeout_secs: 30
//!   max_body_array_length: 10000
//! ```
//!
//! Search order for the file: the `--config <path>` flag, the
//! `DATAMAPPER_CONFIG` environment variable, then `./datamapper.yaml`
//! and `./datamapper.yml`; built-in defaults when none exists. This
//! module holds the rules; reading files and the environment, and
//! YAML decoding, happen in the service around it.

use vstd::prelude::*;
use crate::error::DataMapperError;
use crate::router::opt_str_view;
use crate::text::{
    chars_of, decimal, is_ascii_digit, occurs_at_exec, push_decimal, push_str, range_eq,
    range_views, skip_whitespace, split_lines, split_ranges, starts_with, string_from, trim,
    trim_bounds, trim_start,
};

verus! {

/// Request, response and timing limits.
#[derive(Debug, Clone, Copy)]
pub struct Limits {
    pub max_request_bytes: usize,
    pub max_response_bytes: usize,
    pub request_timeout_secs: u64,
    /// Longest array allowed anywhere in a request-body JSON; `0` disables the check.
    pub max_body_array_length: usize,
}

/// The service configuration.
#[derive(Debug, Clone)]
pub struct AppConfig {
    pub port: u16,
    pub dsl_path: String,
    pub limits: Limits,
}

pub open spec fn default_limits_spec() -> Limits {
    Limits {
        max_request_bytes: 2097152,
        max_response_bytes: 16777216,
        request_timeout_secs: 30,
        max_body_array_length: 10000,
    }
}

pub fn default_port() -> (p: u16)
    ensures
        p == 3000,
{
    3000
}

pub fn default_dsl_path() -> (p: String)
    ensures
        p@ == "./DSL"@,
{
    String::from_str("./DSL")
}

/// 2 MiB (binary).
pub fn default_max_request_bytes() -> (n: usize)
    ensures
        n == 2 * 1024 * 1024,
{
    2 * 1024 * 1024
}

/// 16 MiB (binary).
pub fn default_max_response_bytes() -> (n: usize)
    ensures
        n == 16 * 1024 * 1024,
{
    16 * 1024 * 1024
}

pub fn default_request_timeout_secs() -> (n: u64)
    ensures
        n == 30,
{
    30
}

pub fn default_max_body_array_length() -> (n: usize)
    ensures
        n == 10000,
{
    10000
}

impl Default for Limits {
    fn default() -> (l: Self)
        ensures
            l == default_limits_spec(),
    {
        Limits {
            max_request_bytes: default_max_request_bytes(),
            max_response_bytes: default_max_response_bytes(),
            request_timeout_secs: default_request_timeout_secs(),
            max_body_array_length: default_max_body_array_length(),
        }
    }
}

impl Default for AppConfig {
    fn default() -> (c: Self)
        ensures
            c.port == 3000,
            c.dsl_path@ == "./DSL"@,
            c.limits == default_limits_spec(),
    {
        AppConfig { port: default_port(), dsl_path: default_dsl_path(), limits: Limits::default() }
    }
}

// ---------------------------------------------------------------------------
// Config file text rules
// ---------------------------------------------------------------------------

/// A top-level `cors_origin` key line.
pub open spec fn is_cors_origin_line(line: Seq<char>) -> bool {
    starts_with(line, "cors_origin:"@) || starts_with(line, "cors_origin "@)
}

/// 1-based number of the first top-level `cors_origin:` line, if any.
pub open spec fn cors_origin_line(yaml: Seq<char>) -> Option<int> {
    let lines = split_lines(yaml);
    if exists|k: int| 0 <= k < lines.len() && is_cors_origin_line(#[trigger] lines[k]) {
        let k = choose|k: int|
            0 <= k < lines.len() && is_cors_origin_line(#[trigger] lines[k]) && forall|m: int|
                0 <= m < k ==> !is_cors_origin_line(#[trigger] lines[m]);
        Some(k + 1)
    } else {
        None
    }
}

/// Return the 1-based line number of a top-level `cors_origin:` key
/// in the YAML text, or `None` if not present. Commented and indented
/// (nested) occurrences do not count.
pub fn find_cors_origin_key(yaml: &str) -> (r: Option<usize>)
    ensures
        match r {
            Some(n) => {
                let lines = split_lines(yaml@);
                &&& 1 <= n <= lines.len()
                &&& is_cors_origin_line(lines[n - 1])
                &&& forall|m: int| 0 <= m < n - 1 ==> !is_cors_origin_line(#[trigger] lines[m])
            },
            None => forall|m: int|
                0 <= m < split_lines(yaml@).len() ==> !is_cors_origin_line(
                    #[trigger] split_lines(yaml@)[m],
                ),
        },
{
    let cs = chars_of(yaml);
    let lines = split_ranges(&cs, 0, cs.len(), '\n');
    assert(cs@.subrange(0, cs@.len() as int) =~= cs@);
    let ghost views = range_views(cs@, lines@);
    let colon = chars_of("cors_origin:");
    let space = chars_of("cors_origin ");
    let mut k: usize = 0;
    while k < lines.len()
        invariant
            k <= lines@.len(),
            views == range_views(cs@, lines@),
            views == split_lines(yaml@),
            colon@ == "cors_origin:"@,
            space@ == "cors_origin "@,
            forall|j: int| 0 <= j < lines@.len() ==> (#[trigger] lines@[j]).0 <= lines@[j].1 <= cs@.len(),
            forall|m: int| 0 <= m < k ==> !is_cors_origin_line(#[trigger] views[m]),
        decreases lines@.len() - k,
    {
        let (lo, hi) = lines[k];
        let ghost line = cs@.subrange(lo as int, hi as int);
        assert(views[k as int] == line);
        let hit = (hi - lo >= colon.len() && occurs_at_exec(&cs, &colon, lo)) || (hi - lo
            >= space.len() && occurs_at_exec(&cs, &space, lo));
        assert(hit == is_cors_origin_line(line)) by {
            if hi - lo >= colon@.len() {
                assert(line.take(colon@.len() as int) =~= cs@.subrange(lo as int, lo + colon@.len()));
            }
            if hi - lo >= space@.len() {
                assert(line.take(space@.len() as int) =~= cs@.subrange(lo as int, lo + space@.len()));
            }
        }
        if hit {
            return Some(k + 1);
        }
        k += 1;
    }
    None
}

/// Some line of the file sets `port:` (after its leading whitespace).
pub open spec fn sets_port(body: Seq<char>) -> bool {
    exists|k: int|
        0 <= k < split_lines(body).len() && starts_with(
            trim_start(#[trigger] split_lines(body)[k]),
            "port:"@,
        )
}

/// Whether the config file text explicitly sets `port:` on some line.
pub fn file_sets_port(body: &str) -> (b: bool)
    ensures
        b == sets_port(body@),
{
    let cs = chars_of(body);
    let lines = split_ranges(&cs, 0, cs.len(), '\n');
    assert(cs@.subrange(0, cs@.len() as int) =~= cs@);
    let ghost views = range_views(cs@, lines@);
    let key = chars_of("port:");
    let mut k: usize = 0;
    while k < lines.len()
        invariant
            k <= lines@.len(),
            views == range_views(cs@, lines@),
            views == split_lines(body@),
            key@ == "port:"@,
            forall|j: int| 0 <= j < lines@.len() ==> (#[trigger] lines@[j]).0 <= lines@[j].1 <= cs@.len(),
            forall|m: int| 0 <= m < k ==> !starts_with(trim_start(#[trigger] views[m]), "port:"@),
        decreases lines@.len() - k,
    {
        let (lo, hi) = lines[k];
        assert(views[k as int] == cs@.subrange(lo as int, hi as int));
        let a = skip_whitespace(&cs, lo, hi);
        let ghost t = cs@.subrange(a as int, hi as int);
        let hit = hi - a >= key.len() && occurs_at_exec(&cs, &key, a);
        assert(hit == starts_with(t, "port:"@)) by {
            if hi - a >= key@.len() {
                assert(t.take(key@.len() as int) =~= cs@.subrange(a as int, a + key@.len()));
            }
        }
        if hit {
            return true;
        }
        k += 1;
    }
    false
}

// ---------------------------------------------------------------------------
// Port numbers
// ---------------------------------------------------------------------------

/// Decimal value of a string of ASCII digits.
pub open spec fn digits_value(d: Seq<char>) -> nat
    decreases d.len(),
{
    if d.len() == 0 {
        0
    } else {
        digits_value(d.drop_last()) * 10 + ((d.last() as u32) - 48) as nat
    }
}

/// The digits part of a port string: without one leading `+`.
pub open spec fn port_digits(s: Seq<char>) -> Seq<char> {
    if s.len() > 0 && s[0] == '+' {
        s.drop_first()
    } else {
        s
    }
}

pub open spec fn all_digits(d: Seq<char>) -> bool {
    forall|i: int| 0 <= i < d.len() ==> is_ascii_digit(#[trigger] d[i])
}

/// `str::parse::<u16>`: an optional `+`, then one or more ASCII digits
/// whose value fits in `u16`.
pub open spec fn parse_u16_spec(s: Seq<char>) -> Option<u16> {
    let d = port_digits(s);
    if d.len() > 0 && all_digits(d) && digits_value(d) <= 65535 {
        Some(digits_value(d) as u16)
    } else {
        None
    }
}

proof fn lemma_digits_value_grows(d: Seq<char>, i: int)
    requires
        0 <= i <= d.len(),
        all_digits(d),
    ensures
        digits_value(d.take(i)) <= digits_value(d),
    decreases d.len() - i,
{
    if i < d.len() {
        lemma_digits_value_grows(d, i + 1);
        assert(d.take(i + 1).drop_last() =~= d.take(i));
        assert(is_ascii_digit(d[i]));
    } else {
        assert(d.take(i) =~= d);
    }
}

/// `s.parse::<u16>()`, as an `Option`.
pub fn parse_port(s: &str) -> (r: Option<u16>)
    ensures
        r == parse_u16_spec(s@),
{
    let cs = chars_of(s);
    assert(cs@.subrange(0, cs@.len() as int) =~= cs@);
    parse_port_range(&cs, 0, cs.len())
}

/// `cs[lo..hi].parse::<u16>()`, as an `Option`.
fn parse_port_range(cs: &Vec<char>, lo: usize, hi: usize) -> (r: Option<u16>)
    requires
        lo <= hi <= cs.len(),
    ensures
        r == parse_u16_spec(cs@.subrange(lo as int, hi as int)),
{
    let ghost sv = cs@.subrange(lo as int, hi as int);
    let start: usize = if lo < hi && cs[lo] == '+' {
        lo + 1
    } else {
        lo
    };
    let ghost d = port_digits(sv);
    assert(d =~= cs@.subrange(start as int, hi as int));
    if start == hi {
        return None;
    }
    let mut v: u32 = 0;
    let mut i = start;
    while i < hi
        invariant
            lo <= start <= i <= hi <= cs.len(),
            sv == cs@.subrange(lo as int, hi as int),
            d == port_digits(sv),
            d.len() > 0,
            d == cs@.subrange(start as int, hi as int),
            all_digits(d.take(i - start)),
            v == digits_value(d.take(i - start)),
            v <= 65535,
        decreases hi - i,
    {
        let c = cs[i];
        let ghost k = i - start;
        if !('0' <= c && c <= '9') {
            assert(d[k] == c);
            assert(!all_digits(d));
            return None;
        }
        assert(d.take(k + 1).drop_last() =~= d.take(k));
        assert(d.take(k + 1).last() == c);
        assert(all_digits(d.take(k + 1))) by {
            assert forall|m: int| 0 <= m < k + 1 implies is_ascii_digit(#[trigger] d.take(k + 1)[m]) by {
                if m < k {
                    assert(d.take(k + 1)[m] == d.take(k)[m]);
                }
            }
        }
        let nv = v * 10 + ((c as u32) - 48);
        i += 1;
        if nv > 65535 {
            proof {
                if all_digits(d) {
                    lemma_digits_value_grows(d, k + 1);
                }
            }
            return None;
        }
        v = nv;
    }
    assert(d.take(d.len() as int) =~= d);
    Some(v as u16)
}

/// What the `PORT` environment variable says.
pub enum PortSetting {
    /// Not set, or only whitespace.
    Unset,
    /// A valid port number.
    Port(u16),
    /// Set to something that is not a `u16` (the trimmed value).
    Invalid(String),
}

/// `PORT` rule: the trimmed value, when non-empty, must
/// parse as a `u16`.
pub fn port_setting(value: Option<&str>) -> (r: PortSetting)
    ensures
        match value {
            None => r is Unset,
            Some(v) => {
                let t = trim(v@);
                if t.len() == 0 {
                    r is Unset
                } else {
                    match parse_u16_spec(t) {
                        Some(p) => r == PortSetting::Port(p),
                        None => r matches PortSetting::Invalid(x) && x@ == t,
                    }
                }
            },
        },
{
    match value {
        None => PortSetting::Unset,
        Some(v) => {
            let cs = chars_of(v);
            let (a, b) = trim_bounds(&cs, 0, cs.len());
            assert(cs@.subrange(0, cs@.len() as int) =~= cs@);
            if a == b {
                return PortSetting::Unset;
            }
            match parse_port_range(&cs, a, b) {
                Some(p) => PortSetting::Port(p),
                None => PortSetting::Invalid(string_from(&cs, a, b)),
            }
        },
    }
}

/// The port after the `PORT` override: the valid value, else unchanged.
pub open spec fn port_after_env(port: u16, value: Option<Seq<char>>) -> u16 {
    match value {
        Some(v) => match parse_u16_spec(trim(v)) {
            Some(p) => if trim(v).len() > 0 {
                p
            } else {
                port
            },
            None => port,
        },
        None => port,
    }
}

/// Apply the `PORT` environment value:
/// a valid port replaces `cfg.port`; an unset, empty or invalid value
/// leaves the configuration unchanged.
pub fn apply_port_env(cfg: AppConfig, port_env: Option<&str>) -> (r: AppConfig)
    ensures
        r.port == port_after_env(
            cfg.port,
            match port_env {
                Some(v) => Some(v@),
                None => None,
            },
        ),
        r.dsl_path == cfg.dsl_path,
        r.limits == cfg.limits,
{
    let mut cfg = cfg;
    match port_setting(port_env) {
        PortSetting::Port(p) => {
            cfg.port = p;
        },
        _ => {},
    }
    cfg
}

/// The refusal message for a config file with a `cors_origin` key.
pub open spec fn cors_refusal(path: Seq<char>, line: nat) -> Seq<char> {
    "config "@ + path + " line "@ + decimal(line)
        + ": `cors_origin` is not implemented in this release — DataMapper does not terminate CORS. Configure CORS at your reverse proxy (nginx `add_header Access-Control-Allow-Origin`, Traefik middleware, etc.). Remove the `cors_origin` key from the config to boot."@
}

/// What loading the file at `path` with text `body` gives, for the
/// decoded value (or the decoder's message) and the `PORT` value: a
/// top-level `cors_origin` key refuses to boot; a decoding error is
/// reported with the path; otherwise the decoded value, with `PORT`
/// applied unless the file sets `port:`.
pub open spec fn resolved(
    path: Seq<char>,
    body: Seq<char>,
    decoded: Result<AppConfig, String>,
    port_env: Option<Seq<char>>,
    r: Result<AppConfig, DataMapperError>,
) -> bool {
    match cors_origin_line(body) {
        Some(n) => r matches Err(e) && (e matches DataMapperError::Internal(m) && m@ == cors_refusal(
            path,
            n as nat,
        )),
        None => match decoded {
            Err(msg) => r matches Err(e) && (e matches DataMapperError::Internal(m) && m@
                == "parsing config "@ + path + ": "@ + msg@),
            Ok(cfg) => r matches Ok(c) && c.dsl_path == cfg.dsl_path && c.limits == cfg.limits
                && c.port == if sets_port(body) {
                cfg.port
            } else {
                port_after_env(cfg.port, port_env)
            },
        },
    }
}

/// The configuration loaded from the file at `path` with text `body`,
/// given the decoded value (or the decoder's error message) and the
/// `PORT` environment value: a top-level `cors_origin` key refuses to
/// boot; a decoding error is reported with the path; otherwise the
/// decoded value, with `PORT` applied unless the file sets `port:`.
pub fn resolve_config_file(
    path: &str,
    body: &str,
    decoded: Result<AppConfig, String>,
    port_env: Option<&str>,
) -> (r: Result<AppConfig, DataMapperError>)
    ensures
        resolved(path@, body@, decoded, opt_str_view(port_env), r),
{
    match find_cors_origin_key(body) {
        Some(n) => {
            proof {
                lemma_cors_origin_line(body@, n as int);
            }
            let mut m = String::new();
            push_str(&mut m, "config ");
            push_str(&mut m, path);
            push_str(&mut m, " line ");
            push_decimal(&mut m, n as u64);
            push_str(
                &mut m,
                ": `cors_origin` is not implemented in this release — DataMapper does not terminate CORS. Configure CORS at your reverse proxy (nginx `add_header Access-Control-Allow-Origin`, Traefik middleware, etc.). Remove the `cors_origin` key from the config to boot.",
            );
            return Err(DataMapperError::Internal(m));
        },
        None => {},
    }
    match decoded {
        Err(msg) => {
            let mut m = String::new();
            push_str(&mut m, "parsing config ");
            push_str(&mut m, path);
            push_str(&mut m, ": ");
            push_str(&mut m, msg.as_str());
            Err(DataMapperError::Internal(m))
        },
        Ok(cfg) => {
            if file_sets_port(body) {
                Ok(cfg)
            } else {
                Ok(apply_port_env(cfg, port_env))
            }
        },
    }
}

proof fn lemma_cors_origin_line(yaml: Seq<char>, n: int)
    requires
        1 <= n <= split_lines(yaml).len(),
        is_cors_origin_line(split_lines(yaml)[n - 1]),
        forall|m: int| 0 <= m < n - 1 ==> !is_cors_origin_line(#[trigger] split_lines(yaml)[m]),
    ensures
        cors_origin_line(yaml) == Some(n),
{
    let lines = split_lines(yaml);
    assert(0 <= n - 1 < lines.len() && is_cors_origin_line(lines[n - 1]));
    let k = choose|k: int|
        0 <= k < lines.len() && is_cors_origin_line(#[trigger] lines[k]) && forall|m: int|
            0 <= m < k ==> !is_cors_origin_line(#[trigger] lines[m]);
    assert(k == n - 1) by {
        if k < n - 1 {
            assert(!is_cors_origin_line(lines[k]));
        }
        if k > n - 1 {
            assert(!is_cors_origin_line(lines[n - 1]));
        }
    }
}

/// The configuration used when no file exists: the defaults with the
/// `PORT` environment value applied.
pub fn defaults_with_port_env(port_env: Option<&str>) -> (r: AppConfig)
    ensures
        r.dsl_path@ == "./DSL"@,
        r.limits == default_limits_spec(),
        r.port == port_after_env(
            3000,
            match port_env {
                Some(v) => Some(v@),
                None => None,
            },
        ),
{
    apply_port_env(AppConfig::default(), port_env)
}

/// The first candidate that exists on disk, by index.
pub fn first_existing(exists: &[bool]) -> (r: Option<usize>)
    ensures
        match r {
            Some(i) => i < exists@.len() && exists@[i as int] && forall|j: int|
                0 <= j < i ==> !#[trigger] exists@[j],
            None => forall|j: int| 0 <= j < exists@.len() ==> !#[trigger] exists@[j],
        },
{
    let mut i: usize = 0;
    while i < exists.len()
        invariant
            i <= exists@.len(),
            forall|j: int| 0 <= j < i ==> !#[trigger] exists@[j],
        decreases exists@.len() - i,
    {
        if exists[i] {
            return Some(i);
        }
        i += 1;
    }
    None
}

/// The configuration file that was found: its path, and either its text
/// with the decoding of that text, or the message of the read error.
pub struct FoundConfig {
    pub path: String,
    pub contents: Result<(String, Result<AppConfig, String>), String>,
}

/// The configuration in effect: with no file found, the defaults with
/// `PORT` applied; a file that could not be read is an internal error
/// naming it; otherwise the file's configuration (see [`resolved`]),
/// together with its path.
pub fn load_config(found: Option<FoundConfig>, port_env: Option<&str>) -> (r: Result<
    (AppConfig, Option<String>),
    DataMapperError,
>)
    ensures
        match found {
            None => r matches Ok((c, p)) && p is None && c.dsl_path@ == "./DSL"@ && c.limits
                == default_limits_spec() && c.port == port_after_env(3000, opt_str_view(port_env)),
            Some(f) => match f.contents {
                Err(m) => r matches Err(e) && (e matches DataMapperError::Internal(x) && x@
                    == "reading config "@ + f.path@ + ": "@ + m@),
                Ok((body, decoded)) => resolved(
                    f.path@,
                    body@,
                    decoded,
                    opt_str_view(port_env),
                    match r {
                        Ok((c, _)) => Ok(c),
                        Err(e) => Err(e),
                    },
                ) && (r matches Ok((_, p)) ==> (p matches Some(q) && q@ == f.path@)),
            },
        },
{
    match found {
        None => Ok((defaults_with_port_env(port_env), None)),
        Some(f) => match f.contents {
            Err(m) => {
                let mut x = String::new();
                push_str(&mut x, "reading config ");
                push_str(&mut x, f.path.as_str());
                push_str(&mut x, ": ");
                push_str(&mut x, m.as_str());
                Err(DataMapperError::Internal(x))
            },
            Ok((body, decoded)) => match resolve_config_file(
                f.path.as_str(),
                body.as_str(),
                decoded,
                port_env,
            ) {
                Ok(c) => Ok((c, Some(f.path))),
                Err(e) => Err(e),
            },
        },
    }
}

/// The path given with `--config <path>` or `--config=<path>` among the
/// program arguments from index `i` on (index 0 is the program).
pub open spec fn config_flag(args: Seq<Seq<char>>, i: int) -> Option<Seq<char>>
    decreases args.len() - i,
{
    if 1 <= i < args.len() {
        if args[i] == "--config"@ && i + 1 < args.len() {
            Some(args[i + 1])
        } else if starts_with(args[i], "--config="@) {
            Some(args[i].skip("--config="@.len() as int))
        } else {
            config_flag(args, i + 1)
        }
    } else {
        None
    }
}

/// The config file candidates, in search order.
pub open spec fn search_paths(args: Seq<Seq<char>>, env_config: Option<Seq<char>>) -> Seq<
    Seq<char>,
> {
    let from_flag = match config_flag(args, 1) {
        Some(p) => seq![p],
        None => Seq::empty(),
    };
    let from_env = match env_config {
        Some(p) => if p.len() > 0 {
            seq![p]
        } else {
            Seq::empty()
        },
        None => Seq::empty(),
    };
    from_flag + from_env + seq!["./datamapper.yaml"@, "./datamapper.yml"@]
}

/// `--config` wins over every other resolution step: when the flag is
/// given, its path is the first candidate searched. The conventional
/// `./datamapper.yaml` and `./datamapper.yml` are always the last two.
pub proof fn lemma_config_flag_wins(args: Seq<Seq<char>>, env_config: Option<Seq<char>>)
    ensures
        config_flag(args, 1) matches Some(p) ==> search_paths(args, env_config)[0] == p,
        search_paths(args, env_config).len() >= 2,
        search_paths(args, env_config).last() == "./datamapper.yml"@,
        search_paths(args, env_config)[search_paths(args, env_config).len() - 2]
            == "./datamapper.yaml"@,
{
}

/// Config file candidates from the program arguments and the
/// `DATAMAPPER_CONFIG` value: the `--config` path, the environment
/// path, then `./datamapper.yaml` and `./datamapper.yml`.
pub fn config_search_paths(args: &[String], env_config: Option<&str>) -> (r: Vec<String>)
    ensures
        r@.map_values(|p: String| p@) == search_paths(
            args@.map_values(|a: String| a@),
            match env_config {
                Some(v) => Some(v@),
                None => None,
            },
        ),
{
    let ghost av = args@.map_values(|a: String| a@);
    let mut out: Vec<String> = Vec::new();
    match config_flag_value(args) {
        Some(p) => {
            out.push(p);
        },
        None => {},
    }
    let ghost from_flag = match config_flag(av, 1) {
        Some(p) => seq![p],
        None => Seq::<Seq<char>>::empty(),
    };
    assert(out@.map_values(|p: String| p@) =~= from_flag);
    let ghost env_v = match env_config {
        Some(v) => Some(v@),
        None => None,
    };
    let ghost from_env = match env_v {
        Some(p) => if p.len() > 0 {
            seq![p]
        } else {
            Seq::<Seq<char>>::empty()
        },
        None => Seq::<Seq<char>>::empty(),
    };
    match env_config {
        Some(p) => {
            if !p.is_empty() {
                let ghost before = out@;
                out.push(String::from_str(p));
                assert(out@.map_values(|p: String| p@) =~= before.map_values(|p: String| p@).push(
                    p@,
                ));
            }
        },
        None => {},
    }
    assert(out@.map_values(|p: String| p@) =~= from_flag + from_env);
    let ghost b1 = out@;
    out.push(String::from_str("./datamapper.yaml"));
    assert(out@.map_values(|p: String| p@) =~= b1.map_values(|p: String| p@).push(
        "./datamapper.yaml"@,
    ));
    let ghost b2 = out@;
    out.push(String::from_str("./datamapper.yml"));
    assert(out@.map_values(|p: String| p@) =~= b2.map_values(|p: String| p@).push(
        "./datamapper.yml"@,
    ));
    assert(out@.map_values(|p: String| p@) =~= search_paths(
        av,
        match env_config {
            Some(v) => Some(v@),
            None => None,
        },
    ));
    out
}

/// The `--config` path among the program arguments, if any.
fn config_flag_value(args: &[String]) -> (r: Option<String>)
    ensures
        match r {
            Some(p) => config_flag(args@.map_values(|a: String| a@), 1) == Some(p@),
            None => config_flag(args@.map_values(|a: String| a@), 1) is None,
        },
{
    let ghost av = args@.map_values(|a: String| a@);
    let flag = chars_of("--config");
    let prefix = chars_of("--config=");
    let mut i: usize = 1;
    while i < args.len()
        invariant
            1 <= i,
            av == args@.map_values(|a: String| a@),
            av.len() == args@.len(),
            flag@ == "--config"@,
            prefix@ == "--config="@,
            config_flag(av, 1) == config_flag(av, i as int),
        decreases args@.len() - i,
    {
        let a = chars_of(args[i].as_str());
        assert(a@ == av[i as int]);
        if i + 1 < args.len() && range_eq_all(&a, &flag) {
            let next = args[i + 1].clone();
            assert(next@ == av[i + 1]);
            return Some(next);
        }
        if a.len() >= prefix.len() && occurs_at_exec(&a, &prefix, 0) {
            assert(a@.take(prefix@.len() as int) =~= a@.subrange(0, prefix@.len() as int));
            let rest = string_from(&a, prefix.len(), a.len());
            assert(a@.subrange(prefix@.len() as int, a@.len() as int) =~= a@.skip(
                prefix@.len() as int,
            ));
            return Some(rest);
        }
        assert(!starts_with(a@, "--config="@)) by {
            if starts_with(a@, "--config="@) {
                assert(a@.take(prefix@.len() as int) =~= a@.subrange(0, prefix@.len() as int));
            }
        }
        i += 1;
    }
    None
}

fn range_eq_all(a: &Vec<char>, b: &Vec<char>) -> (r: bool)
    ensures
        r == (a@ == b@),
{
    assert(a@.subrange(0, a@.len() as int) =~= a@);
    range_eq(a, 0, a.len(), b)
}

} // verus!
