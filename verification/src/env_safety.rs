//! Environment-aware safety gates.
//!
//! In any environment above `Dev`, boot must refuse when a
//! documented-unsafe security posture flag is set, or when the DSL
//! tree contains a dev-fixture template. In `Dev` the same conditions
//! are only warned about. Unknown environment names fail safe to
//! `Production`.

use vstd::prelude::*;
use crate::router::opt_str_view;
use crate::text::{
    ascii_lower, chars_of, contains, contains_exec, decimal, join, lower_chars, push_decimal,
    push_str, range_eq, trim, trim_bounds,
};

verus! {

/// Deployment environment class. `Dev` permits weak defaults; every
/// other variant treats them as fatal.
#[derive(Debug, Clone, Copy, PartialEq, Eq, Structural)]
pub enum Environment {
    Dev,
    Test,
    Staging,
    Production,
}

/// The environment a (trimmed, ASCII-lowercased) name designates, if any.
pub open spec fn env_class(raw: Seq<char>) -> Option<Environment> {
    let w = ascii_lower(trim(raw));
    if w == "dev"@ || w == "development"@ || w == "local"@ {
        Some(Environment::Dev)
    } else if w == "test"@ || w == "testing"@ || w == "ci"@ {
        Some(Environment::Test)
    } else if w == "stage"@ || w == "staging"@ || w == "preprod"@ {
        Some(Environment::Staging)
    } else if w == "prod"@ || w == "production"@ || w == "live"@ {
        Some(Environment::Production)
    } else {
        None
    }
}

/// The `Debug` name of each environment.
pub open spec fn env_name(e: Environment) -> Seq<char> {
    match e {
        Environment::Dev => "Dev"@,
        Environment::Test => "Test"@,
        Environment::Staging => "Staging"@,
        Environment::Production => "Production"@,
    }
}

fn word_is(w: &Vec<char>, lit: &str) -> (b: bool)
    ensures
        b == (w@ == lit@),
{
    let l = chars_of(lit);
    assert(w@.subrange(0, w@.len() as int) =~= w@);
    range_eq(w, 0, w.len(), &l)
}

impl Environment {
    /// The environment a name designates (case-insensitive, surrounding
    /// whitespace ignored), or `None` for an unknown name.
    pub fn classify(raw: &str) -> (r: Option<Environment>)
        ensures
            r == env_class(raw@),
    {
        let cs = chars_of(raw);
        let (a, b) = trim_bounds(&cs, 0, cs.len());
        assert(cs@.subrange(0, cs@.len() as int) =~= cs@);
        let mut t: Vec<char> = Vec::new();
        let mut k = a;
        while k < b
            invariant
                a <= k <= b <= cs.len(),
                t@ == cs@.subrange(a as int, k as int),
            decreases b - k,
        {
            t.push(cs[k]);
            k += 1;
            assert(cs@.subrange(a as int, k as int) =~= cs@.subrange(a as int, k - 1).push(
                cs@[k - 1],
            ));
        }
        let w = lower_chars(&t);
        if word_is(&w, "dev") || word_is(&w, "development") || word_is(&w, "local") {
            Some(Environment::Dev)
        } else if word_is(&w, "test") || word_is(&w, "testing") || word_is(&w, "ci") {
            Some(Environment::Test)
        } else if word_is(&w, "stage") || word_is(&w, "staging") || word_is(&w, "preprod") {
            Some(Environment::Staging)
        } else if word_is(&w, "prod") || word_is(&w, "production") || word_is(&w, "live") {
            Some(Environment::Production)
        } else {
            None
        }
    }

    /// Classifier with the fail-safe default: unknown names are `Production`.
    pub fn from_env_str(raw: &str) -> (r: Environment)
        ensures
            r == match env_class(raw@) {
                Some(e) => e,
                None => Environment::Production,
            },
    {
        match Self::classify(raw) {
            Some(e) => e,
            None => Environment::Production,
        }
    }

    /// True for anything above `Dev`. In these envs, unsafe posture
    /// items and dev fixtures refuse to boot rather than emit WARN.
    pub fn requires_prod_creds(self) -> (b: bool)
        ensures
            b == (self != Environment::Dev),
    {
        !matches!(self, Environment::Dev)
    }

    /// The `Debug` name of the environment.
    pub fn name(self) -> (s: &'static str)
        ensures
            s@ == env_name(self),
    {
        match self {
            Environment::Dev => "Dev",
            Environment::Test => "Test",
            Environment::Staging => "Staging",
            Environment::Production => "Production",
        }
    }
}

/// The environment a name designates, unknown names failing safe to `Production`.
pub open spec fn from_env_str_spec(raw: Seq<char>) -> Environment {
    match env_class(raw) {
        Some(e) => e,
        None => Environment::Production,
    }
}

/// The first value that is present and non-empty.
pub open spec fn first_non_empty(vals: Seq<Option<Seq<char>>>) -> Option<Seq<char>>
    decreases vals.len(),
{
    if vals.len() == 0 {
        None
    } else {
        match vals[0] {
            Some(v) => if v.len() > 0 {
                Some(v)
            } else {
                first_non_empty(vals.drop_first())
            },
            None => first_non_empty(vals.drop_first()),
        }
    }
}

/// The first of the three values that is present and non-empty (the
/// `APP_ENV`, `ENVIRONMENT`, `DEPLOY_ENV` precedence).
pub fn first_non_empty_value<'a>(a: Option<&'a str>, b: Option<&'a str>, c: Option<&'a str>) -> (r:
    Option<&'a str>)
    ensures
        opt_str_view(r) == first_non_empty(seq![opt_str_view(a), opt_str_view(b), opt_str_view(c)]),
{
    let ghost vals = seq![opt_str_view(a), opt_str_view(b), opt_str_view(c)];
    assert(vals.drop_first() =~= seq![opt_str_view(b), opt_str_view(c)]);
    assert(vals.drop_first().drop_first() =~= seq![opt_str_view(c)]);
    assert(vals.drop_first().drop_first().drop_first() =~= Seq::<Option<Seq<char>>>::empty());
    proof {
        reveal_with_fuel(first_non_empty, 4);
    }
    if let Some(v) = a {
        if chars_of(v).len() > 0 {
            return a;
        }
    }
    if let Some(v) = b {
        if chars_of(v).len() > 0 {
            return b;
        }
    }
    if let Some(v) = c {
        if chars_of(v).len() > 0 {
            return c;
        }
    }
    None
}

/// The deployment environment from the `APP_ENV`, `ENVIRONMENT` and
/// `DEPLOY_ENV` values: the first non-empty one wins; missing or
/// unknown values fail safe to `Production`.
pub fn environment_from_vars(app_env: Option<&str>, environment: Option<&str>, deploy_env: Option<
    &str,
>) -> (e: Environment)
    ensures
        e == match first_non_empty(
            seq![opt_str_view(app_env), opt_str_view(environment), opt_str_view(deploy_env)],
        ) {
            Some(v) => from_env_str_spec(v),
            None => Environment::Production,
        },
{
    match first_non_empty_value(app_env, environment, deploy_env) {
        Some(v) => Environment::from_env_str(v),
        None => Environment::Production,
    }
}

/// One security-posture flag to validate at boot: a documented-unsafe
/// flag that is permitted in `Dev` (with a WARN) but refused elsewhere.
pub struct PostureCheck {
    pub name: &'static str,
    /// True when the current config / deployment is safe.
    pub is_safe: bool,
    /// Human explanation of the risk when `!is_safe`.
    pub description: &'static str,
    /// Concrete remediation hint.
    pub fix: &'static str,
}

/// The unsafe checks, in order.
pub open spec fn unsafe_checks(checks: Seq<PostureCheck>) -> Seq<PostureCheck>
    decreases checks.len(),
{
    if checks.len() == 0 {
        Seq::empty()
    } else if checks.last().is_safe {
        unsafe_checks(checks.drop_last())
    } else {
        unsafe_checks(checks.drop_last()).push(checks.last())
    }
}

/// How one unsafe check is listed in the refusal message.
pub open spec fn posture_line(c: PostureCheck) -> Seq<char> {
    "  - "@ + c.name@ + ": "@ + c.description@ + "\n      fix: "@ + c.fix@
}

/// The boot refusal message for the unsafe checks in `env`.
pub open spec fn posture_refusal(env: Environment, bad: Seq<PostureCheck>) -> Seq<char> {
    "REFUSING TO START in "@ + env_name(env) + ": "@ + decimal(bad.len()) + " unsafe posture item(s):\n"@
        + join(bad.map_values(|c: PostureCheck| posture_line(c)), "\n"@)
}

fn push_joined_posture(out: &mut String, bad: &Vec<&PostureCheck>)
    ensures
        final(out)@ == old(out)@ + join(
            bad@.map_values(|c: &PostureCheck| posture_line(*c)),
            "\n"@,
        ),
{
    let ghost lines = bad@.map_values(|c: &PostureCheck| posture_line(*c));
    let ghost start = out@;
    let mut i: usize = 0;
    while i < bad.len()
        invariant
            i <= bad@.len(),
            lines == bad@.map_values(|c: &PostureCheck| posture_line(*c)),
            out@ == start + join(lines.take(i as int), "\n"@),
        decreases bad@.len() - i,
    {
        let ghost before = out@;
        if i > 0 {
            push_str(out, "\n");
        }
        let c = bad[i];
        push_str(out, "  - ");
        push_str(out, c.name);
        push_str(out, ": ");
        push_str(out, c.description);
        push_str(out, "\n      fix: ");
        push_str(out, c.fix);
        assert(lines.take(i + 1).drop_last() =~= lines.take(i as int));
        assert(lines.take(i + 1).last() == posture_line(*bad@[i as int]));
        if i == 0 {
            assert(join(lines.take(1), "\n"@) == lines.take(1)[0]);
            assert(out@ =~= start + join(lines.take(i + 1), "\n"@));
        } else {
            assert(out@ =~= start + join(lines.take(i + 1), "\n"@));
        }
        i += 1;
    }
    assert(lines.take(bad@.len() as int) =~= lines);
}

/// Boot-time gate for security-posture flags: `Err` with the refusal
/// message in a non-dev environment when any check is unsafe, `Ok`
/// otherwise (in `Dev` the unsafe items are for the caller to warn about).
pub fn enforce_posture(env: Environment, checks: &[PostureCheck]) -> (r: Result<(), String>)
    ensures
        unsafe_checks(checks@).len() == 0 ==> r is Ok,
        unsafe_checks(checks@).len() > 0 && env == Environment::Dev ==> r is Ok,
        unsafe_checks(checks@).len() > 0 && env != Environment::Dev ==> (r matches Err(m) && m@
            == posture_refusal(env, unsafe_checks(checks@))),
{
    let mut bad: Vec<&PostureCheck> = Vec::new();
    let mut i: usize = 0;
    while i < checks.len()
        invariant
            i <= checks@.len(),
            bad@.map_values(|c: &PostureCheck| *c) == unsafe_checks(checks@.take(i as int)),
        decreases checks@.len() - i,
    {
        let ghost before = bad@;
        assert(checks@.take(i + 1).drop_last() =~= checks@.take(i as int));
        if !checks[i].is_safe {
            bad.push(&checks[i]);
            assert(bad@.map_values(|c: &PostureCheck| *c) =~= before.map_values(
                |c: &PostureCheck| *c,
            ).push(checks@[i as int]));
        }
        i += 1;
    }
    assert(checks@.take(checks@.len() as int) =~= checks@);
    if bad.len() == 0 {
        return Ok(());
    }
    if !env.requires_prod_creds() {
        return Ok(());
    }
    let mut msg = String::new();
    push_str(&mut msg, "REFUSING TO START in ");
    push_str(&mut msg, env.name());
    push_str(&mut msg, ": ");
    push_decimal(&mut msg, bad.len() as u64);
    push_str(&mut msg, " unsafe posture item(s):\n");
    push_joined_posture(&mut msg, &bad);
    assert(bad@.map_values(|c: &PostureCheck| posture_line(*c)) =~= unsafe_checks(
        checks@,
    ).map_values(|c: PostureCheck| posture_line(c)));
    Err(msg)
}

/// Substring patterns that identify a DSL file as a dev/mock/test
/// fixture, in the order they are tried.
pub open spec fn dev_fixture_patterns() -> Seq<Seq<char>> {
    seq![
        "dev-login"@,
        "mock-"@,
        "-mock"@,
        "/test/"@,
        "example-"@,
        "-example"@,
        "/dev/"@,
        "/mocks/"@,
    ]
}

/// The dev-fixture patterns (kept narrow so the shipped `samples/`
/// tree never matches).
pub fn dev_only_dsl_patterns() -> (v: Vec<&'static str>)
    ensures
        v@.len() == dev_fixture_patterns().len(),
        forall|k: int| 0 <= k < v@.len() ==> #[trigger] v@[k]@ == dev_fixture_patterns()[k],
{
    vec!["dev-login", "mock-", "-mock", "/test/", "example-", "-example", "/dev/", "/mocks/"]
}

/// A backslash becomes a slash; other characters are kept.
pub open spec fn slash_char(c: char) -> char {
    if c == '\\' {
        '/'
    } else {
        c
    }
}

/// A path with backslashes turned into slashes, ASCII-lowercased.
pub open spec fn normalise_path(p: Seq<char>) -> Seq<char> {
    ascii_lower(p.map_values(|c: char| slash_char(c)))
}

/// Index of the first pattern, from `k` on, that occurs in `n`.
pub open spec fn first_pattern(n: Seq<char>, k: int) -> Option<int>
    decreases dev_fixture_patterns().len() - k,
{
    if 0 <= k < dev_fixture_patterns().len() {
        if contains(n, dev_fixture_patterns()[k]) {
            Some(k)
        } else {
            first_pattern(n, k + 1)
        }
    } else {
        None
    }
}

/// The dev-fixture pattern a path matches, as `dev_fixture_pattern` reports it.
pub open spec fn fixture_pattern_of(path: Seq<char>) -> Option<Seq<char>> {
    match first_pattern(normalise_path(path), 0) {
        Some(k) => Some(dev_fixture_patterns()[k]),
        None => None,
    }
}

/// Return the pattern that matches `path_str` (slash-normalised,
/// lowercased) if any; `None` when the path is not a dev fixture.
pub fn dev_fixture_pattern(path_str: &str) -> (r: Option<&'static str>)
    ensures
        match r {
            Some(p) => fixture_pattern_of(path_str@) == Some(p@),
            None => fixture_pattern_of(path_str@) is None,
        },
{
    let cs = chars_of(path_str);
    let mut slashed: Vec<char> = Vec::new();
    let mut i: usize = 0;
    while i < cs.len()
        invariant
            i <= cs.len(),
            cs@ == path_str@,
            slashed@ == cs@.take(i as int).map_values(|c: char| slash_char(c)),
        decreases cs.len() - i,
    {
        let c = cs[i];
        slashed.push(if c == '\\' { '/' } else { c });
        i += 1;
        assert(cs@.take(i as int).map_values(|c: char| slash_char(c)) =~= cs@.take(
            i - 1,
        ).map_values(|c: char| slash_char(c)).push(slash_char(c)));
    }
    assert(cs@.take(cs@.len() as int) =~= cs@);
    let n = lower_chars(&slashed);
    assert(n@ =~= normalise_path(path_str@));
    let pats = dev_only_dsl_patterns();
    let mut k: usize = 0;
    while k < pats.len()
        invariant
            k <= pats@.len() == dev_fixture_patterns().len(),
            forall|m: int| 0 <= m < pats@.len() ==> #[trigger] pats@[m]@ == dev_fixture_patterns()[m],
            n@ == normalise_path(path_str@),
            first_pattern(n@, 0) == first_pattern(n@, k as int),
        decreases pats@.len() - k,
    {
        let p = chars_of(pats[k]);
        if contains_exec(&n, &p) {
            return Some(pats[k]);
        }
        k += 1;
    }
    None
}

/// The dev-fixture gate cannot be dodged by letter case or by Windows
/// separators: a path, its ASCII-lowercased form and its form with
/// backslashes turned into slashes all match the same pattern.
pub proof fn lemma_fixture_pattern_normalised(p: Seq<char>)
    ensures
        fixture_pattern_of(ascii_lower(p)) == fixture_pattern_of(p),
        fixture_pattern_of(p.map_values(|c: char| slash_char(c))) == fixture_pattern_of(p),
{
    let lowered = ascii_lower(p);
    let slashed = p.map_values(|c: char| slash_char(c));
    assert forall|i: int| 0 <= i < p.len() implies #[trigger] normalise_path(lowered)[i]
        == normalise_path(p)[i] by {
        let c = p[i];
        if 'A' <= c && c <= 'Z' {
            assert(('a' as u32) <= (c as u32) + 32 <= ('z' as u32));
        }
    }
    assert(normalise_path(lowered) =~= normalise_path(p));
    assert(normalise_path(slashed) =~= normalise_path(p));
}

/// Boot-time action to take when a DSL file matches a dev-fixture pattern.
#[derive(Debug, Clone, Copy, PartialEq, Eq, Structural)]
pub enum DevFixtureAction {
    /// No gate — permissive default for unit tests.
    Ignore,
    /// Emit a WARN and continue loading. Used in `Dev`.
    Warn,
    /// Return a fatal load error. Used in every non-dev env.
    Refuse,
}

impl DevFixtureAction {
    /// Dev → Warn (continue), everything else → Refuse (abort).
    pub fn from_env(env: Environment) -> (a: Self)
        ensures
            a == if env == Environment::Dev {
                DevFixtureAction::Warn
            } else {
                DevFixtureAction::Refuse
            },
    {
        if env.requires_prod_creds() {
            DevFixtureAction::Refuse
        } else {
            DevFixtureAction::Warn
        }
    }
}

/// A template path that matched a dev-fixture pattern.
pub struct FixtureMatch {
    pub path: String,
    pub pattern: &'static str,
}

/// The `(path, pattern)` pairs of the template paths that match a
/// dev-fixture pattern, in order.
pub open spec fn fixture_matches(paths: Seq<Seq<char>>) -> Seq<(Seq<char>, Seq<char>)>
    decreases paths.len(),
{
    if paths.len() == 0 {
        Seq::empty()
    } else {
        let init = fixture_matches(paths.drop_last());
        match fixture_pattern_of(paths.last()) {
            Some(p) => init.push((paths.last(), p)),
            None => init,
        }
    }
}

/// The load refusal message for a dev-fixture template.
pub open spec fn fixture_refusal(path: Seq<char>, pattern: Seq<char>) -> Seq<char> {
    "REFUSING TO LOAD dev-fixture DSL in non-dev environment: "@ + path + " (matched pattern '"@
        + pattern
        + "'). Remove the file from the prod build OR set APP_ENV=dev to permit dev fixtures locally."@
}

pub open spec fn match_views(m: Seq<FixtureMatch>) -> Seq<(Seq<char>, Seq<char>)> {
    m.map_values(|x: FixtureMatch| (x.path@, x.pattern@))
}

/// The dev-fixture gate over the `.hbs` template paths of a DSL tree:
/// `Ignore` accepts everything; `Warn` accepts and returns every
/// match (for the caller to warn about); `Refuse` fails with the
/// refusal message naming the first match.
pub fn enforce_dev_fixture_scan(template_paths: &[String], action: DevFixtureAction) -> (r: Result<
    Vec<FixtureMatch>,
    String,
>)
    ensures
        action == DevFixtureAction::Ignore ==> (r matches Ok(v) && v@.len() == 0),
        action == DevFixtureAction::Warn ==> (r matches Ok(v) && match_views(v@)
            == fixture_matches(template_paths@.map_values(|s: String| s@))),
        action == DevFixtureAction::Refuse ==> ({
            let all = fixture_matches(template_paths@.map_values(|s: String| s@));
            if all.len() == 0 {
                r matches Ok(v) && v@.len() == 0
            } else {
                r matches Err(m) && m@ == fixture_refusal(all[0].0, all[0].1)
            }
        }),
{
    let mut found: Vec<FixtureMatch> = Vec::new();
    if action == DevFixtureAction::Ignore {
        return Ok(found);
    }
    let ghost paths = template_paths@.map_values(|s: String| s@);
    let mut i: usize = 0;
    while i < template_paths.len()
        invariant
            i <= template_paths@.len(),
            paths == template_paths@.map_values(|s: String| s@),
            action != DevFixtureAction::Ignore,
            match_views(found@) == fixture_matches(paths.take(i as int)),
            action == DevFixtureAction::Refuse ==> found@.len() == 0,
        decreases template_paths@.len() - i,
    {
        let ghost before = found@;
        assert(paths.take(i + 1).drop_last() =~= paths.take(i as int));
        assert(paths.take(i + 1).last() == template_paths@[i as int]@);
        match dev_fixture_pattern(template_paths[i].as_str()) {
            Some(pat) => {
                if action == DevFixtureAction::Refuse {
                    proof {
                        lemma_fixture_matches_prefix(paths, i as int);
                    }
                    let mut msg = String::new();
                    push_str(
                        &mut msg,
                        "REFUSING TO LOAD dev-fixture DSL in non-dev environment: ",
                    );
                    push_str(&mut msg, template_paths[i].as_str());
                    push_str(&mut msg, " (matched pattern '");
                    push_str(&mut msg, pat);
                    push_str(
                        &mut msg,
                        "'). Remove the file from the prod build OR set APP_ENV=dev to permit dev fixtures locally.",
                    );
                    return Err(msg);
                }
                found.push(FixtureMatch { path: template_paths[i].clone(), pattern: pat });
                assert(match_views(found@) =~= match_views(before).push(
                    (template_paths@[i as int]@, pat@),
                ));
            },
            None => {},
        }
        i += 1;
    }
    assert(paths.take(template_paths@.len() as int) =~= paths);
    Ok(found)
}

/// The matches of a prefix stay the first matches of the whole list.
proof fn lemma_fixture_matches_prefix(paths: Seq<Seq<char>>, i: int)
    requires
        0 <= i < paths.len(),
        fixture_matches(paths.take(i)).len() == 0,
        fixture_pattern_of(paths[i]) is Some,
    ensures
        fixture_matches(paths).len() > 0,
        fixture_matches(paths)[0] == (paths[i], fixture_pattern_of(paths[i])->0),
    decreases paths.len(),
{
    if paths.len() == i + 1 {
        assert(paths.drop_last() =~= paths.take(i));
    } else {
        assert(paths.drop_last().take(i) =~= paths.take(i));
        lemma_fixture_matches_prefix(paths.drop_last(), i);
    }
}

} // verus!
