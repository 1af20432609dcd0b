//! Template lookup rules and template-body transformations.
//!
//! Logical template names (`<project>/<view>`) are validated here
//! before any filesystem access ([`sanitize_segment`],
//! [`sanitize_route`]). The `.length` accessor detector and
//! rewriter, the raw-output detector and the response-size cap used
//! while rendering also live here. Reading files and running
//! Handlebars happen in the service around this library.

use vstd::prelude::*;
use crate::error::DataMapperError;
use crate::text::{
    chars_of, contains, contains_exec, ends_with, is_ascii_alphanumeric, is_whitespace,
    is_whitespace_char, lemma_trim_noop, occurs_at, occurs_at_exec, push_range, push_str,
    starts_with,
    string_from, string_views, trim, trim_bounds,
};

verus! {

// ---------------------------------------------------------------------------
// Mustache scanning
// ---------------------------------------------------------------------------

/// Position just past the closing braces of the mustache whose body
/// starts at `j`: after the first `}}` at or after `j` (after `}}}`
/// when a third brace follows and the mustache opened with `{{{`), or
/// the end of the text when none.
pub open spec fn close_after(s: Seq<char>, j: int, triple: bool) -> int
    decreases s.len() - j,
{
    if 0 <= j && j + 1 < s.len() {
        if s[j] == '}' && s[j + 1] == '}' {
            if triple && j + 2 < s.len() && s[j + 2] == '}' {
                j + 3
            } else {
                j + 2
            }
        } else {
            close_after(s, j + 1, triple)
        }
    } else {
        s.len() as int
    }
}

pub proof fn lemma_close_after_bounds(s: Seq<char>, j: int, triple: bool)
    requires
        0 <= j <= s.len(),
    ensures
        j <= close_after(s, j, triple) <= s.len(),
    decreases s.len() - j,
{
    if j + 1 < s.len() && !(s[j] == '}' && s[j + 1] == '}') {
        lemma_close_after_bounds(s, j + 1, triple);
    }
}

fn find_close(cs: &Vec<char>, start: usize, triple: bool) -> (r: usize)
    requires
        start <= cs.len(),
    ensures
        r as int == close_after(cs@, start as int, triple),
        start <= r <= cs.len(),
{
    let mut j = start;
    while j < cs.len() && j + 1 < cs.len()
        invariant
            start <= j <= cs.len(),
            close_after(cs@, start as int, triple) == close_after(cs@, j as int, triple),
        decreases cs.len() - j,
    {
        if cs[j] == '}' && cs[j + 1] == '}' {
            if triple && j + 2 < cs.len() && cs[j + 2] == '}' {
                return j + 3;
            }
            return j + 2;
        }
        j += 1;
    }
    cs.len()
}

// ---------------------------------------------------------------------------
// `.length` accessor rewriting
// ---------------------------------------------------------------------------

/// Characters allowed in a bare Handlebars path: identifier characters,
/// `.`, `[`, `]`, `/` and `@`.
pub open spec fn is_path_char(c: char) -> bool {
    is_ascii_alphanumeric(c) || c == '_' || c == '.' || c == '[' || c == ']' || c == '/' || c
        == '@'
}

/// A non-empty string of path characters (`foo.[0].bar`, `../xs`, `@root.items`).
pub open spec fn is_bare_path(s: Seq<char>) -> bool {
    s.len() > 0 && forall|i: int| 0 <= i < s.len() ==> #[trigger] is_path_char(s[i])
}

/// For `path.length` with a bare `path`, that path.
pub open spec fn length_accessor_path(t: Seq<char>) -> Option<Seq<char>> {
    let n = t.len() - ".length"@.len();
    if ends_with(t, ".length"@) && is_bare_path(t.take(n)) {
        Some(t.take(n))
    } else {
        None
    }
}

/// The block openers whose `.length` condition is rewritten, in the
/// order they are tried.
pub open spec fn block_openers() -> Seq<Seq<char>> {
    seq!["#if "@, "#unless "@, "else if "@, "if "@, "unless "@]
}

/// `<opener>path.length` becomes `<opener>path`, trying openers from `k` on.
pub open spec fn block_rewrite(t: Seq<char>, k: int) -> Option<Seq<char>>
    decreases block_openers().len() - k,
{
    if 0 <= k < block_openers().len() {
        let p = block_openers()[k];
        if starts_with(t, p) && length_accessor_path(t.skip(p.len() as int)) is Some {
            Some(p + length_accessor_path(t.skip(p.len() as int))->0)
        } else {
            block_rewrite(t, k + 1)
        }
    } else {
        None
    }
}

/// Rewrite of one mustache body: `path.length` becomes ` len path `;
/// `#if path.length` (and the other openers) becomes `#if path`;
/// anything else is kept as it is.
pub open spec fn rewrite_inner(inner: Seq<char>) -> Seq<char> {
    let t = trim(inner);
    match length_accessor_path(t) {
        Some(path) => " len "@ + path + " "@,
        None => match block_rewrite(t, 0) {
            Some(r) => r,
            None => inner,
        },
    }
}

/// The rewritten template from position `i` on. Text outside mustaches
/// is copied, comments (`{{! … }}`, `{{!-- … --}}`) are copied verbatim,
/// and every other `{{ … }}` / `{{{ … }}}` body goes through
/// [`rewrite_inner`] between the braces it opened with.
pub open spec fn rewrite_from(s: Seq<char>, i: int) -> Seq<char>
    decreases s.len() - i,
{
    if 0 <= i < s.len() {
        if i + 1 < s.len() && s[i] == '{' && s[i + 1] == '{' {
            let triple = i + 2 < s.len() && s[i + 2] == '{';
            let open_end = if triple {
                i + 3
            } else {
                i + 2
            };
            let close = close_after(s, open_end, triple);
            proof {
                lemma_close_after_bounds(s, open_end, triple);
            }
            if open_end < s.len() && s[open_end] == '!' {
                s.subrange(i, close) + rewrite_from(s, close)
            } else {
                let inner_end = close - if triple {
                    3int
                } else {
                    2int
                };
                let inner = if inner_end < open_end {
                    Seq::empty()
                } else {
                    s.subrange(open_end, inner_end)
                };
                let open = if triple {
                    "{{{"@
                } else {
                    "{{"@
                };
                let shut = if triple {
                    "}}}"@
                } else {
                    "}}"@
                };
                open + rewrite_inner(inner) + shut + rewrite_from(s, close)
            }
        } else {
            seq![s[i]] + rewrite_from(s, i + 1)
        }
    } else {
        Seq::empty()
    }
}

fn is_path_char_exec(c: char) -> (b: bool)
    ensures
        b == is_path_char(c),
{
    ('0' <= c && c <= '9') || ('a' <= c && c <= 'z') || ('A' <= c && c <= 'Z') || c == '_' || c
        == '.' || c == '[' || c == ']' || c == '/' || c == '@'
}

fn is_bare_path_range(cs: &Vec<char>, lo: usize, hi: usize) -> (b: bool)
    requires
        lo <= hi <= cs.len(),
    ensures
        b == is_bare_path(cs@.subrange(lo as int, hi as int)),
{
    if lo == hi {
        return false;
    }
    let mut k = lo;
    while k < hi
        invariant
            lo <= k <= hi <= cs.len(),
            forall|m: int| lo <= m < k ==> is_path_char(#[trigger] cs@[m]),
        decreases hi - k,
    {
        if !is_path_char_exec(cs[k]) {
            assert(!is_path_char(cs@.subrange(lo as int, hi as int)[k - lo]));
            return false;
        }
        k += 1;
    }
    assert forall|i: int| 0 <= i < hi - lo implies #[trigger] is_path_char(
        cs@.subrange(lo as int, hi as int)[i],
    ) by {
        assert(cs@.subrange(lo as int, hi as int)[i] == cs@[lo + i]);
    }
    true
}

/// For `cs[lo..hi]` of the form `path.length` with a bare path, the end of that path.
fn accessor_path_end(cs: &Vec<char>, sfx: &Vec<char>, lo: usize, hi: usize) -> (r: Option<usize>)
    requires
        lo <= hi <= cs.len(),
        sfx@ == ".length"@,
    ensures
        match r {
            Some(e) => lo <= e <= hi && length_accessor_path(cs@.subrange(lo as int, hi as int))
                == Some(cs@.subrange(lo as int, e as int)),
            None => length_accessor_path(cs@.subrange(lo as int, hi as int)) is None,
        },
{
    let ghost t = cs@.subrange(lo as int, hi as int);
    if hi - lo < sfx.len() {
        return None;
    }
    let e = hi - sfx.len();
    assert(t.skip(t.len() - sfx@.len()) =~= cs@.subrange(e as int, hi as int));
    assert(t.take(t.len() - sfx@.len()) =~= cs@.subrange(lo as int, e as int));
    if !occurs_at_exec(cs, sfx, e) {
        return None;
    }
    if !is_bare_path_range(cs, lo, e) {
        return None;
    }
    Some(e)
}

/// Rewrite of the mustache body `cs[lo..hi]`.
fn rewrite_inner_exec(cs: &Vec<char>, lo: usize, hi: usize) -> (r: String)
    requires
        lo <= hi <= cs.len(),
    ensures
        r@ == rewrite_inner(cs@.subrange(lo as int, hi as int)),
{
    let ghost inner = cs@.subrange(lo as int, hi as int);
    let sfx = chars_of(".length");
    let (a, b) = trim_bounds(cs, lo, hi);
    let ghost t = cs@.subrange(a as int, b as int);
    assert(t == trim(inner));
    match accessor_path_end(cs, &sfx, a, b) {
        Some(e) => {
            let mut r = String::new();
            push_str(&mut r, " len ");
            push_range(&mut r, cs, a, e);
            push_str(&mut r, " ");
            return r;
        },
        None => {},
    }
    let openers: Vec<Vec<char>> = vec![
        chars_of("#if "),
        chars_of("#unless "),
        chars_of("else if "),
        chars_of("if "),
        chars_of("unless "),
    ];
    assert(openers@.len() == block_openers().len());
    assert(forall|k: int| 0 <= k < 5 ==> #[trigger] openers@[k]@ == block_openers()[k]);
    let mut k: usize = 0;
    while k < openers.len()
        invariant
            k <= openers@.len() == block_openers().len(),
            forall|m: int| 0 <= m < 5 ==> #[trigger] openers@[m]@ == block_openers()[m],
            lo <= a <= b <= hi <= cs.len(),
            sfx@ == ".length"@,
            t == cs@.subrange(a as int, b as int),
            t == trim(cs@.subrange(lo as int, hi as int)),
            length_accessor_path(t) is None,
            block_rewrite(t, 0) == block_rewrite(t, k as int),
        decreases openers@.len() - k,
    {
        let p = &openers[k];
        let ghost pv = block_openers()[k as int];
        if b - a >= p.len() && occurs_at_exec(cs, p, a) {
            let start = a + p.len();
            assert(t.take(pv.len() as int) =~= cs@.subrange(a as int, start as int));
            assert(t.skip(pv.len() as int) =~= cs@.subrange(start as int, b as int));
            match accessor_path_end(cs, &sfx, start, b) {
                Some(e) => {
                    let mut r = String::new();
                    push_range(&mut r, p, 0, p.len());
                    assert(p@.subrange(0, p@.len() as int) =~= p@);
                    push_range(&mut r, cs, start, e);
                    return r;
                },
                None => {},
            }
        } else {
            assert(!starts_with(t, pv)) by {
                if starts_with(t, pv) {
                    assert(t.take(pv.len() as int) =~= cs@.subrange(a as int, a + pv.len()));
                }
            }
        }
        k += 1;
    }
    string_from(cs, lo, hi)
}

/// A character of a Handlebars path: an ASCII letter or digit, `_`,
/// `.`, `[`, `]`, `/` or `@`.
pub open spec fn handlebars_path_char(c: char) -> bool {
    ||| ('a' <= c && c <= 'z')
    ||| ('A' <= c && c <= 'Z')
    ||| ('0' <= c && c <= '9')
    ||| c == '_'
    ||| c == '.'
    ||| c == '['
    ||| c == ']'
    ||| c == '/'
    ||| c == '@'
}

proof fn lemma_close_after_skips(s: Seq<char>, j: int, k: int)
    requires
        0 <= j <= k,
        k + 1 < s.len(),
        s[k] == '}' && s[k + 1] == '}',
        forall|m: int| j <= m < k ==> #[trigger] s[m] != '}',
    ensures
        close_after(s, j, false) == k + 2,
        scan_close(s, j) == k,
    decreases k - j,
{
    if j < k {
        lemma_close_after_skips(s, j + 1, k);
    }
}

/// `p.length` is an accessor on a bare path `p`.
proof fn lemma_path_accessor(p: Seq<char>)
    requires
        p.len() > 0,
        forall|i: int| 0 <= i < p.len() ==> handlebars_path_char(#[trigger] p[i]),
    ensures
        length_accessor_path(p + ".length"@) == Some(p),
        trim(p + ".length"@) == p + ".length"@,
        forall|i: int| 0 <= i < p.len() ==> #[trigger] p[i] != '}' && p[i] != '{' && p[i] != '!',
{
    reveal_strlit(".length");
    assert forall|i: int| 0 <= i < p.len() implies #[trigger] is_path_char(p[i]) by {
        assert(handlebars_path_char(p[i]));
    }
    assert forall|i: int| 0 <= i < p.len() implies #[trigger] p[i] != '}' && p[i] != '{' && p[i]
        != '!' by {
        assert(handlebars_path_char(p[i]));
    }
    let tail = p + ".length"@;
    assert(tail.skip(p.len() as int) =~= ".length"@);
    assert(tail.take(p.len() as int) =~= p);
    assert(!is_whitespace(tail[0])) by {
        assert(handlebars_path_char(p[0]));
    }
    lemma_trim_noop(tail);
}

proof fn lemma_value_accessor(p: Seq<char>)
    requires
        p.len() > 0,
        forall|i: int| 0 <= i < p.len() ==> handlebars_path_char(#[trigger] p[i]),
    ensures
        rewrite_from("{{"@ + p + ".length}}"@, 0) == "{{ len "@ + p + " }}"@,
        dot_length_from("{{"@ + p + ".length}}"@, 0),
{
    reveal_strlit("{{");
    reveal_strlit(".length}}");
    reveal_strlit(".length");
    reveal_strlit("{{ len ");
    reveal_strlit(" }}");
    reveal_strlit(" len ");
    reveal_strlit(" ");
    reveal_strlit("}}");
    lemma_path_accessor(p);
    let tail = p + ".length"@;
    let s = "{{"@ + p + ".length}}"@;
    let k: int = p.len() as int + 9;
    assert(s.len() == k + 2);
    assert forall|m: int| 2 <= m < k implies #[trigger] s[m] != '}' by {
        if m < 2 + p.len() {
            assert(s[m] == p[m - 2]);
        }
    }
    lemma_close_after_skips(s, 2, k);
    assert(s[2] == p[0]);
    assert(s.subrange(2, k) =~= tail);
    assert(rewrite_inner(s.subrange(2, k)) == " len "@ + p + " "@);
    assert(rewrite_from(s, s.len() as int) == Seq::<char>::empty());
    assert("{{"@ + (" len "@ + p + " "@) + "}}"@ + Seq::<char>::empty() =~= "{{ len "@ + p + " }}"@);
    assert(tail.subrange(p.len() as int, p.len() as int + 7) =~= ".length"@);
    assert(length_token_at(tail, p.len() as int));
    assert(has_length_token(s.subrange(2, scan_close(s, 2))));
}

proof fn lemma_block_accessor(p: Seq<char>)
    requires
        p.len() > 0,
        forall|i: int| 0 <= i < p.len() ==> handlebars_path_char(#[trigger] p[i]),
    ensures
        rewrite_from("{{#if "@ + p + ".length}}"@, 0) == "{{#if "@ + p + "}}"@,
{
    reveal_strlit("{{#if ");
    reveal_strlit(".length}}");
    reveal_strlit(".length");
    reveal_strlit("}}");
    reveal_strlit("{{");
    reveal_strlit("#if ");
    reveal_strlit("#unless ");
    reveal_strlit("else if ");
    reveal_strlit("if ");
    reveal_strlit("unless ");
    lemma_path_accessor(p);
    let tail = p + ".length"@;
    let b = "{{#if "@ + p + ".length}}"@;
    let kb: int = p.len() as int + 13;
    assert(b.len() == kb + 2);
    assert forall|m: int| 2 <= m < kb implies #[trigger] b[m] != '}' by {
        if 6 <= m < 6 + p.len() {
            assert(b[m] == p[m - 6]);
        }
    }
    lemma_close_after_skips(b, 2, kb);
    let cond = "#if "@ + tail;
    assert(b.subrange(2, kb) =~= cond);
    lemma_trim_noop(cond);
    assert(!is_bare_path(cond.take(cond.len() - 7))) by {
        assert(cond.take(cond.len() - 7)[0] == '#');
        assert(!is_path_char(cond.take(cond.len() - 7)[0]));
    }
    assert(length_accessor_path(cond) is None);
    assert(cond.take(4) =~= "#if "@);
    assert(cond.skip(4) =~= tail);
    assert(block_rewrite(cond, 0) == Some("#if "@ + p));
    assert(rewrite_from(b, b.len() as int) == Seq::<char>::empty());
    assert("{{"@ + ("#if "@ + p) + "}}"@ + Seq::<char>::empty() =~= "{{#if "@ + p + "}}"@);
}

/// The `.length` accessor is rewritten for every path: for each
/// non-empty path `p` of path characters, `{{p.length}}` becomes
/// `{{ len p }}` and `{{#if p.length}}` becomes `{{#if p}}`; and the
/// detector reports such a template as using the accessor.
pub proof fn lemma_length_accessor_rewritten(p: Seq<char>)
    requires
        p.len() > 0,
        forall|i: int| 0 <= i < p.len() ==> handlebars_path_char(#[trigger] p[i]),
    ensures
        rewrite_from("{{"@ + p + ".length}}"@, 0) == "{{ len "@ + p + " }}"@,
        rewrite_from("{{#if "@ + p + ".length}}"@, 0) == "{{#if "@ + p + "}}"@,
        dot_length_from("{{"@ + p + ".length}}"@, 0),
{
    lemma_value_accessor(p);
    lemma_block_accessor(p);
}

/// Rewrite `{{ path.length }}`, `{{{ path.length }}}` and block helpers
/// like `{{#if path.length}}` / `{{#unless path.length}}` to their
/// `len`-helper equivalents, leaving comments and all other text as is.
#[verifier::rlimit(40)]
pub fn rewrite_dot_length(template: &str) -> (out: String)
    ensures
        out@ == rewrite_from(template@, 0),
{
    let cs = chars_of(template);
    let mut out = String::new();
    let mut i: usize = 0;
    while i < cs.len()
        invariant
            i <= cs.len(),
            cs@ == template@,
            out@ + rewrite_from(cs@, i as int) == rewrite_from(cs@, 0),
        decreases cs.len() - i,
    {
        let ghost s = cs@;
        let ghost before = out@;
        if i + 1 < cs.len() && cs[i] == '{' && cs[i + 1] == '{' {
            let triple = i + 2 < cs.len() && cs[i + 2] == '{';
            let open_end = if triple {
                i + 3
            } else {
                i + 2
            };
            let close = find_close(&cs, open_end, triple);
            if open_end < cs.len() && cs[open_end] == '!' {
                push_range(&mut out, &cs, i, close);
                assert(before + s.subrange(i as int, close as int) + rewrite_from(s, close as int)
                    =~= before + (s.subrange(i as int, close as int) + rewrite_from(
                    s,
                    close as int,
                )));
            } else {
                let k: usize = if triple {
                    3
                } else {
                    2
                };
                let inner_end = close - k;
                let rewritten = if inner_end < open_end {
                    rewrite_inner_exec(&cs, open_end, open_end)
                } else {
                    rewrite_inner_exec(&cs, open_end, inner_end)
                };
                let ghost inner = if inner_end < open_end {
                    Seq::<char>::empty()
                } else {
                    s.subrange(open_end as int, inner_end as int)
                };
                assert(s.subrange(open_end as int, open_end as int) =~= Seq::<char>::empty());
                if triple {
                    push_str(&mut out, "{{{");
                    out.append(rewritten.as_str());
                    push_str(&mut out, "}}}");
                    assert(before + "{{{"@ + rewrite_inner(inner) + "}}}"@ + rewrite_from(
                        s,
                        close as int,
                    ) =~= before + ("{{{"@ + rewrite_inner(inner) + "}}}"@ + rewrite_from(
                        s,
                        close as int,
                    )));
                } else {
                    push_str(&mut out, "{{");
                    out.append(rewritten.as_str());
                    push_str(&mut out, "}}");
                    assert(before + "{{"@ + rewrite_inner(inner) + "}}"@ + rewrite_from(
                        s,
                        close as int,
                    ) =~= before + ("{{"@ + rewrite_inner(inner) + "}}"@ + rewrite_from(
                        s,
                        close as int,
                    )));
                }
            }
            i = close;
        } else {
            out.push(cs[i]);
            assert(before.push(s[i as int]) + rewrite_from(s, i + 1) =~= before + (seq![
                s[i as int],
            ] + rewrite_from(s, i + 1)));
            i += 1;
        }
    }
    assert(rewrite_from(cs@, i as int) =~= Seq::<char>::empty());
    assert(out@ + Seq::<char>::empty() =~= out@);
    out
}


// ---------------------------------------------------------------------------
// `.length` accessor detection
// ---------------------------------------------------------------------------

/// Position of the first `}}` at or after `j`; when there is none, the
/// last position of the text (or `j` itself when at most one character
/// is left).
pub open spec fn scan_close(s: Seq<char>, j: int) -> int
    decreases s.len() - j,
{
    if 0 <= j && j + 1 < s.len() {
        if s[j] == '}' && s[j + 1] == '}' {
            j
        } else {
            scan_close(s, j + 1)
        }
    } else {
        j
    }
}

pub proof fn lemma_scan_close_bounds(s: Seq<char>, j: int)
    requires
        0 <= j <= s.len(),
    ensures
        j <= scan_close(s, j) <= s.len(),
    decreases s.len() - j,
{
    if j + 1 < s.len() && !(s[j] == '}' && s[j + 1] == '}') {
        lemma_scan_close_bounds(s, j + 1);
    }
}

/// Identifier characters: a `.length` followed by one is a different token.
pub open spec fn is_ident_char(c: char) -> bool {
    is_ascii_alphanumeric(c) || c == '_'
}

/// The token `.length` occurs in `body` at `p`, not followed by an
/// identifier character.
pub open spec fn length_token_at(body: Seq<char>, p: int) -> bool {
    &&& occurs_at(body, ".length"@, p)
    &&& (p + ".length"@.len() == body.len() || !is_ident_char(body[p + ".length"@.len()]))
}

/// `body` holds the token `.length`, not followed by an identifier character.
pub open spec fn has_length_token(body: Seq<char>) -> bool {
    exists|p: int| #[trigger] length_token_at(body, p)
}

/// Whether a mustache from position `i` on has a body holding a
/// `.length` token; comments are skipped.
pub open spec fn dot_length_from(s: Seq<char>, i: int) -> bool
    decreases s.len() + 2 - i,
{
    if 0 <= i && i + 1 < s.len() {
        if s[i] == '{' && s[i + 1] == '{' {
            let start = i + 2;
            let j = scan_close(s, start);
            proof {
                lemma_scan_close_bounds(s, start);
            }
            if start < s.len() && s[start] == '!' {
                dot_length_from(s, j + 2)
            } else {
                has_length_token(s.subrange(start, j)) || dot_length_from(s, j + 2)
            }
        } else {
            dot_length_from(s, i + 1)
        }
    } else {
        false
    }
}

fn find_scan_close(cs: &Vec<char>, start: usize) -> (r: usize)
    requires
        start <= cs.len(),
    ensures
        r as int == scan_close(cs@, start as int),
        start <= r <= cs.len(),
{
    let mut j = start;
    while j < cs.len() && j + 1 < cs.len() && !(cs[j] == '}' && cs[j + 1] == '}')
        invariant
            start <= j <= cs.len(),
            scan_close(cs@, start as int) == scan_close(cs@, j as int),
        decreases cs.len() - j,
    {
        j += 1;
    }
    j
}

fn is_ident_char_exec(c: char) -> (b: bool)
    ensures
        b == is_ident_char(c),
{
    ('0' <= c && c <= '9') || ('a' <= c && c <= 'z') || ('A' <= c && c <= 'Z') || c == '_'
}

fn has_length_token_range(cs: &Vec<char>, sfx: &Vec<char>, lo: usize, hi: usize) -> (b: bool)
    requires
        lo <= hi <= cs.len(),
        sfx@ == ".length"@,
    ensures
        b == has_length_token(cs@.subrange(lo as int, hi as int)),
{
    proof {
        reveal_strlit(".length");
    }
    let ghost body = cs@.subrange(lo as int, hi as int);
    let n = sfx.len();
    let mut p = lo;
    while p < hi
        invariant
            lo <= p <= hi <= cs.len(),
            n == sfx@.len() == 7,
            sfx@ == ".length"@,
            body == cs@.subrange(lo as int, hi as int),
            forall|q: int| 0 <= q < p - lo ==> !#[trigger] length_token_at(body, q),
        decreases hi - p,
    {
        let ghost q = p - lo;
        let found = n <= hi - p && occurs_at_exec(cs, sfx, p) && (p + n == hi
            || !is_ident_char_exec(cs[p + n]));
        assert(found == length_token_at(body, q)) by {
            if n <= hi - p {
                assert(body.subrange(q, q + n) =~= cs@.subrange(p as int, p + n));
                if p + n < hi {
                    assert(body[q + n] == cs@[p + n]);
                }
            }
        }
        if found {
            return true;
        }
        p += 1;
    }
    assert forall|q: int| !#[trigger] length_token_at(body, q) by {
        if q >= p - lo && occurs_at(body, ".length"@, q) {
            assert(q + n <= body.len());
        }
    }
    false
}

/// Position of the first `{{` at or after `i`, or the end of the text.
pub open spec fn next_open(s: Seq<char>, i: int) -> int
    decreases s.len() - i,
{
    if 0 <= i && i + 1 < s.len() {
        if s[i] == '{' && s[i + 1] == '{' {
            i
        } else {
            next_open(s, i + 1)
        }
    } else {
        s.len() as int
    }
}

pub proof fn lemma_next_open_bounds(s: Seq<char>, i: int)
    requires
        0 <= i,
    ensures
        i <= next_open(s, i) || next_open(s, i) == s.len(),
        next_open(s, i) <= s.len(),
        next_open(s, i) + 1 < s.len() ==> s[next_open(s, i)] == '{' && s[next_open(s, i) + 1]
            == '{',
        forall|k: int| i <= k < next_open(s, i) && k + 1 < s.len() ==> !(#[trigger] s[k] == '{'
            && s[k + 1] == '{'),
    decreases s.len() - i,
{
    if i + 1 < s.len() && !(s[i] == '{' && s[i + 1] == '{') {
        lemma_next_open_bounds(s, i + 1);
    }
}

/// Start positions of the mustache blocks from `i` on: each is the
/// first `{{` after the previous block, whose body runs to the next
/// `}}` (or to the end of the text).
pub open spec fn block_starts(s: Seq<char>, i: int) -> Seq<int>
    decreases s.len() + 2 - i,
{
    if 0 <= i {
        let p = next_open(s, i);
        proof {
            lemma_next_open_bounds(s, i);
        }
        if p + 1 < s.len() {
            proof {
                lemma_scan_close_bounds(s, p + 2);
            }
            seq![p] + block_starts(s, scan_close(s, p + 2) + 2)
        } else {
            Seq::empty()
        }
    } else {
        Seq::empty()
    }
}

/// The body of the block opened at `p`: after `{{`, up to its closing `}}`.
pub open spec fn block_body(s: Seq<char>, p: int) -> Seq<char> {
    s.subrange(p + 2, scan_close(s, p + 2))
}

/// The block opened at `p` is not a comment (`{{!`) and its body holds
/// the token `.length`.
pub open spec fn block_uses_accessor(s: Seq<char>, p: int) -> bool {
    !(p + 2 < s.len() && s[p + 2] == '!') && has_length_token(block_body(s, p))
}

proof fn lemma_dot_length_blocks(s: Seq<char>, i: int)
    requires
        0 <= i,
    ensures
        dot_length_from(s, i) == exists|k: int|
            0 <= k < block_starts(s, i).len() && block_uses_accessor(
                s,
                #[trigger] block_starts(s, i)[k],
            ),
        forall|k: int|
            0 <= k < block_starts(s, i).len() ==> 0 <= #[trigger] block_starts(s, i)[k] && block_starts(
                s,
                i,
            )[k] + 1 < s.len() && s[block_starts(s, i)[k]] == '{' && s[block_starts(s, i)[k] + 1]
                == '{',
    decreases s.len() + 2 - i,
{
    lemma_next_open_bounds(s, i);
    let b = block_starts(s, i);
    if i + 1 < s.len() {
        if s[i] == '{' && s[i + 1] == '{' {
            let j = scan_close(s, i + 2);
            lemma_scan_close_bounds(s, i + 2);
            lemma_dot_length_blocks(s, j + 2);
            let rest = block_starts(s, j + 2);
            assert(b == seq![i] + rest);
            assert(b[0] == i);
            assert forall|k: int| 0 <= k < rest.len() implies #[trigger] rest[k] == b[k + 1] by {}
            if exists|k: int| 0 <= k < rest.len() && block_uses_accessor(s, #[trigger] rest[k]) {
                let k = choose|k: int| 0 <= k < rest.len() && block_uses_accessor(s, #[trigger] rest[k]);
                assert(b[k + 1] == rest[k]);
            }
            if exists|k: int| 0 <= k < b.len() && block_uses_accessor(s, #[trigger] b[k]) {
                let k = choose|k: int| 0 <= k < b.len() && block_uses_accessor(s, #[trigger] b[k]);
                if k > 0 {
                    assert(rest[k - 1] == b[k]);
                }
            }
        } else {
            lemma_dot_length_blocks(s, i + 1);
            lemma_next_open_bounds(s, i + 1);
            assert(next_open(s, i) == next_open(s, i + 1));
            assert(b == block_starts(s, i + 1));
        }
    } else {
        assert(b.len() == 0);
    }
}

/// The `.length` detector in block terms: a template uses the accessor
/// exactly when some mustache block (opened by the first `{{` after the
/// previous block, closed by the next `}}`) is not a `{{!` comment and
/// its body holds `.length` not followed by an identifier character.
/// Text outside blocks never counts, and every block starts with `{{`.
pub proof fn lemma_dot_length_accessor_blocks(s: Seq<char>)
    ensures
        dot_length_from(s, 0) == exists|k: int|
            0 <= k < block_starts(s, 0).len() && block_uses_accessor(
                s,
                #[trigger] block_starts(s, 0)[k],
            ),
        forall|k: int|
            0 <= k < block_starts(s, 0).len() ==> 0 <= #[trigger] block_starts(s, 0)[k] && block_starts(
                s,
                0,
            )[k] + 1 < s.len() && s[block_starts(s, 0)[k]] == '{' && s[block_starts(s, 0)[k] + 1]
                == '{',
{
    lemma_dot_length_blocks(s, 0);
}

/// Whether the template uses the `.length` accessor inside a
/// `{{ … }}` / `{{{ … }}}` mustache (comments do not count, and
/// `.lengthMax`-like identifiers are a different token).
pub fn contains_dot_length_accessor(template: &str) -> (b: bool)
    ensures
        b == dot_length_from(template@, 0),
{
    let cs = chars_of(template);
    let sfx = chars_of(".length");
    let mut i: usize = 0;
    while i < cs.len() && i + 1 < cs.len()
        invariant
            i <= cs.len(),
            cs@ == template@,
            sfx@ == ".length"@,
            dot_length_from(cs@, 0) == dot_length_from(cs@, i as int),
        decreases cs.len() - i,
    {
        if cs[i] == '{' && cs[i + 1] == '{' {
            let start = i + 2;
            let j = find_scan_close(&cs, start);
            if !(start < cs.len() && cs[start] == '!') {
                if has_length_token_range(&cs, &sfx, start, j) {
                    return true;
                }
            }
            proof {
                lemma_scan_close_bounds(cs@, start as int);
            }
            assert(dot_length_from(cs@, i as int) == dot_length_from(cs@, j + 2));
            if j >= cs.len() - 1 {
                assert(!dot_length_from(cs@, j + 2));
                return false;
            }
            i = j + 2;
        } else {
            i += 1;
        }
    }
    false
}

// ---------------------------------------------------------------------------
// Raw (un-escaped) output detection
// ---------------------------------------------------------------------------

/// A call of the built-in `json` helper: `json` alone or followed by whitespace.
pub open spec fn is_json_helper_call(t: Seq<char>) -> bool {
    starts_with(t, "json"@) && (t.len() == "json"@.len() || is_whitespace(t["json"@.len() as int]))
}

/// Whether a triple-brace mustache from position `i` on emits raw output
/// other than the `json` helper's; mustaches are delimited as in
/// [`rewrite_from`].
pub open spec fn raw_output_from(s: Seq<char>, i: int) -> bool
    decreases s.len() - i,
{
    if 0 <= i < s.len() {
        if i + 1 < s.len() && s[i] == '{' && s[i + 1] == '{' {
            let triple = i + 2 < s.len() && s[i + 2] == '{';
            let open_end = if triple {
                i + 3
            } else {
                i + 2
            };
            let close = close_after(s, open_end, triple);
            proof {
                lemma_close_after_bounds(s, open_end, triple);
            }
            if triple && !(open_end < s.len() && s[open_end] == '!') {
                let inner = if close - 3 < open_end {
                    Seq::empty()
                } else {
                    s.subrange(open_end, close - 3)
                };
                !is_json_helper_call(trim(inner)) || raw_output_from(s, close)
            } else {
                raw_output_from(s, close)
            }
        } else {
            raw_output_from(s, i + 1)
        }
    } else {
        false
    }
}

fn is_json_helper_call_range(cs: &Vec<char>, json: &Vec<char>, lo: usize, hi: usize) -> (b: bool)
    requires
        lo <= hi <= cs.len(),
        json@ == "json"@,
    ensures
        b == is_json_helper_call(cs@.subrange(lo as int, hi as int)),
{
    let ghost t = cs@.subrange(lo as int, hi as int);
    let n = json.len();
    if hi - lo < n || !occurs_at_exec(cs, json, lo) {
        assert(!starts_with(t, "json"@)) by {
            if starts_with(t, "json"@) {
                assert(t.take(n as int) =~= cs@.subrange(lo as int, lo + n));
            }
        }
        return false;
    }
    assert(t.take(n as int) =~= cs@.subrange(lo as int, lo + n));
    if lo + n == hi {
        return true;
    }
    assert(t[n as int] == cs@[lo + n]);
    is_whitespace_char(cs[lo + n])
}

/// Whether the template holds a `{{{ … }}}` mustache whose body is not a
/// `json` helper call: such raw output is never served as HTML.
pub fn contains_unsafe_raw_output(template: &str) -> (b: bool)
    ensures
        b == raw_output_from(template@, 0),
{
    let cs = chars_of(template);
    let json = chars_of("json");
    let mut i: usize = 0;
    while i < cs.len()
        invariant
            i <= cs.len(),
            cs@ == template@,
            json@ == "json"@,
            raw_output_from(cs@, 0) == raw_output_from(cs@, i as int),
        decreases cs.len() - i,
    {
        if i + 1 < cs.len() && cs[i] == '{' && cs[i + 1] == '{' {
            let triple = i + 2 < cs.len() && cs[i + 2] == '{';
            let open_end = if triple {
                i + 3
            } else {
                i + 2
            };
            let close = find_close(&cs, open_end, triple);
            if triple && !(open_end < cs.len() && cs[open_end] == '!') {
                let (a, b) = if close - 3 < open_end {
                    trim_bounds(&cs, open_end, open_end)
                } else {
                    trim_bounds(&cs, open_end, close - 3)
                };
                assert(cs@.subrange(open_end as int, open_end as int) =~= Seq::<char>::empty());
                if !is_json_helper_call_range(&cs, &json, a, b) {
                    return true;
                }
            }
            i = close;
        } else {
            i += 1;
        }
    }
    false
}

/// No opening `{{` anywhere in the text.
pub open spec fn no_mustache(s: Seq<char>) -> bool {
    forall|i: int| 0 <= i < s.len() - 1 ==> !(#[trigger] s[i] == '{' && s[i + 1] == '{')
}

proof fn lemma_plain_suffix(s: Seq<char>, i: int)
    requires
        no_mustache(s),
        0 <= i <= s.len(),
    ensures
        rewrite_from(s, i) == s.subrange(i, s.len() as int),
        !dot_length_from(s, i),
    decreases s.len() - i,
{
    if i < s.len() {
        lemma_plain_suffix(s, i + 1);
        assert(seq![s[i]] + s.subrange(i + 1, s.len() as int) =~= s.subrange(i, s.len() as int));
        if i + 1 < s.len() {
            assert(!(s[i] == '{' && s[i + 1] == '{'));
        }
    } else {
        assert(s.subrange(i, s.len() as int) =~= Seq::<char>::empty());
    }
}

/// Plain text passes through: a template without any `{{` is never
/// flagged as using the `.length` accessor and is rendered as written.
pub proof fn lemma_plain_template_unchanged(s: Seq<char>)
    requires
        no_mustache(s),
    ensures
        !dot_length_from(s, 0),
        rewrite_from(s, 0) == s,
{
    lemma_plain_suffix(s, 0);
    assert(s.subrange(0, s.len() as int) =~= s);
}

/// The template body that is rendered: templates using the `.length`
/// accessor are rewritten first. The flag says whether that happened.
pub fn prepare_template_body(raw: String) -> (r: (String, bool))
    ensures
        r.1 == dot_length_from(raw@, 0),
        r.0@ == if r.1 {
            rewrite_from(raw@, 0)
        } else {
            raw@
        },
{
    if contains_dot_length_accessor(raw.as_str()) {
        (rewrite_dot_length(raw.as_str()), true)
    } else {
        (raw, false)
    }
}

// ---------------------------------------------------------------------------
// Route segment validation
// ---------------------------------------------------------------------------

/// A URL-derived path segment that may touch the filesystem: non-empty,
/// no `..`, no NUL, not starting with `/` or `\`.
pub open spec fn segment_ok(s: Seq<char>) -> bool {
    &&& s.len() > 0
    &&& !contains(s, ".."@)
    &&& !contains(s, "\0"@)
    &&& s[0] != '/'
    &&& s[0] != '\\'
}

/// The message of the `InvalidPath` error for a rejected segment.
pub open spec fn invalid_segment_message(s: Seq<char>) -> Seq<char> {
    if s.len() == 0 {
        "empty segment"@
    } else {
        s
    }
}

/// Reject empty, absolute, or traversal-carrying segments. Called on
/// every URL-derived path piece before it touches the filesystem.
pub fn sanitize_segment(s: &str) -> (r: Result<String, DataMapperError>)
    ensures
        match r {
            Ok(v) => segment_ok(s@) && v@ == s@,
            Err(e) => !segment_ok(s@) && (e matches DataMapperError::InvalidPath(m) && m@
                == invalid_segment_message(s@)),
        },
{
    let cs = chars_of(s);
    if cs.len() == 0 {
        return Err(DataMapperError::InvalidPath(String::from_str("empty segment")));
    }
    let dots = chars_of("..");
    let nul = chars_of("\0");
    if contains_exec(&cs, &dots) || contains_exec(&cs, &nul) || cs[0] == '/' || cs[0] == '\\' {
        return Err(DataMapperError::InvalidPath(String::from_str(s)));
    }
    Ok(String::from_str(s))
}

/// `s` without one trailing `.hbs`.
pub open spec fn strip_hbs_spec(s: Seq<char>) -> Seq<char> {
    if ends_with(s, ".hbs"@) {
        s.take(s.len() - ".hbs"@.len())
    } else {
        s
    }
}

/// Remove one trailing `.hbs` extension, if present.
pub fn strip_hbs(s: &str) -> (r: String)
    ensures
        r@ == strip_hbs_spec(s@),
{
    let cs = chars_of(s);
    let ext = chars_of(".hbs");
    if cs.len() >= ext.len() && occurs_at_exec(&cs, &ext, cs.len() - ext.len()) {
        assert(cs@.skip(cs@.len() - ext@.len()) =~= cs@.subrange(
            cs@.len() - ext@.len(),
            cs@.len() as int,
        ));
        string_from(&cs, 0, cs.len() - ext.len())
    } else {
        assert(!ends_with(cs@, ".hbs"@)) by {
            if ends_with(cs@, ".hbs"@) {
                assert(cs@.skip(cs@.len() - ext@.len()) =~= cs@.subrange(
                    cs@.len() - ext@.len(),
                    cs@.len() as int,
                ));
            }
        }
        string_from(&cs, 0, cs.len())
    }
}

/// Validated `(project, view)` of a template route: the project segment
/// as given, the view without its `.hbs` extension. The project is
/// checked first.
pub fn sanitize_route(project: &str, view: &str) -> (r: Result<(String, String), DataMapperError>)
    ensures
        match r {
            Ok((p, v)) => segment_ok(project@) && segment_ok(strip_hbs_spec(view@)) && p@
                == project@ && v@ == strip_hbs_spec(view@),
            Err(e) => e matches DataMapperError::InvalidPath(m) && (if !segment_ok(project@) {
                m@ == invalid_segment_message(project@)
            } else {
                !segment_ok(strip_hbs_spec(view@)) && m@ == invalid_segment_message(
                    strip_hbs_spec(view@),
                )
            }),
        },
{
    let p = sanitize_segment(project)?;
    let stripped = strip_hbs(view);
    let v = sanitize_segment(stripped.as_str())?;
    Ok((p, v))
}


/// The two logical template paths tried for a validated route, in
/// lookup order: `<project>/<view>.hbs`, then `<project>/hbs/<view>.hbs`.
pub open spec fn candidate_paths(project: Seq<char>, view: Seq<char>) -> Seq<Seq<char>> {
    seq![project + "/"@ + view + ".hbs"@, project + "/hbs/"@ + view + ".hbs"@]
}

/// The logical paths (relative to the DSL root) of the template
/// candidates for a validated `(project, view)`.
pub fn template_candidates(project: &str, view: &str) -> (r: Vec<String>)
    ensures
        string_views(r@) == candidate_paths(project@, view@),
{
    let mut first = String::new();
    push_str(&mut first, project);
    push_str(&mut first, "/");
    push_str(&mut first, view);
    push_str(&mut first, ".hbs");
    let mut second = String::new();
    push_str(&mut second, project);
    push_str(&mut second, "/hbs/");
    push_str(&mut second, view);
    push_str(&mut second, ".hbs");
    let r = vec![first, second];
    assert(string_views(r@) =~= candidate_paths(project@, view@));
    r
}

/// Pick the template among the candidates `tried`, where `found[i]`
/// says whether candidate `i` is a file inside the DSL root: the first
/// one found, or `TemplateNotFound` listing every candidate tried.
pub fn select_template(tried: Vec<String>, found: &[bool]) -> (r: Result<usize, DataMapperError>)
    ensures
        match r {
            Ok(i) => i < tried@.len() && i < found@.len() && found@[i as int] && forall|j: int|
                0 <= j < i ==> !#[trigger] found@[j],
            Err(e) => (e matches DataMapperError::TemplateNotFound { tried: t } && t@ == tried@)
                && forall|j: int| 0 <= j < tried@.len() && j < found@.len() ==> !#[trigger] found@[j],
        },
{
    let mut i: usize = 0;
    while i < tried.len() && i < found.len()
        invariant
            i <= tried@.len(),
            i <= found@.len(),
            forall|j: int| 0 <= j < i ==> !#[trigger] found@[j],
        decreases tried@.len() - i,
    {
        if found[i] {
            return Ok(i);
        }
        i += 1;
    }
    Err(DataMapperError::TemplateNotFound { tried })
}

// ---------------------------------------------------------------------------
// Response size cap
// ---------------------------------------------------------------------------

/// Render output buffer with a byte cap. A write that would take the
/// content past the cap is refused as a whole and marks the buffer as
/// overflowed, so an amplifying template stops at the cap instead of
/// allocating multiples of it.
pub struct CappedBuffer {
    bytes: Vec<u8>,
    cap: usize,
    overflowed: bool,
}

impl CappedBuffer {
    #[verifier::type_invariant]
    spec fn within_cap(self) -> bool {
        self.bytes@.len() <= self.cap
    }

    /// The bytes accepted so far.
    pub closed spec fn content(self) -> Seq<u8> {
        self.bytes@
    }

    /// The cap, in bytes.
    pub closed spec fn limit(self) -> usize {
        self.cap
    }

    /// Whether some write was refused.
    pub closed spec fn overflowed(self) -> bool {
        self.overflowed
    }

    /// An empty buffer with the given cap.
    pub fn new(cap: usize) -> (b: Self)
        ensures
            b.content() == Seq::<u8>::empty(),
            b.limit() == cap,
            !b.overflowed(),
    {
        CappedBuffer { bytes: Vec::new(), cap, overflowed: false }
    }

    /// Append `chunk` if the content stays within the cap; otherwise
    /// leave the content as it is and mark the buffer overflowed.
    pub fn write(&mut self, chunk: &[u8]) -> (accepted: bool)
        ensures
            accepted == (old(self).content().len() + chunk@.len() <= old(self).limit()),
            final(self).limit() == old(self).limit(),
            final(self).content().len() <= final(self).limit(),
            accepted ==> final(self).content() == old(self).content() + chunk@,
            accepted ==> final(self).overflowed() == old(self).overflowed(),
            !accepted ==> final(self).content() == old(self).content() && final(self).overflowed(),
    {
        proof {
            use_type_invariant(&*self);
        }
        if chunk.len() > self.cap - self.bytes.len() {
            self.overflowed = true;
            return false;
        }
        let mut bytes: Vec<u8> = Vec::new();
        std::mem::swap(&mut bytes, &mut self.bytes);
        let ghost start = bytes@;
        let mut i: usize = 0;
        while i < chunk.len()
            invariant
                i <= chunk@.len(),
                bytes@ == start + chunk@.take(i as int),
            decreases chunk@.len() - i,
        {
            bytes.push(chunk[i]);
            i += 1;
            assert(start + chunk@.take(i as int) =~= (start + chunk@.take(i - 1)).push(
                chunk@[i - 1],
            ));
        }
        assert(chunk@.take(chunk@.len() as int) =~= chunk@);
        self.bytes = bytes;
        true
    }

    /// Number of bytes accepted so far.
    pub fn len(&self) -> (n: usize)
        ensures
            n == self.content().len(),
            n <= self.limit(),
    {
        proof {
            use_type_invariant(self);
        }
        self.bytes.len()
    }

    /// Outcome of a render into this buffer: `ResponseTooLarge` once the
    /// cap was hit, otherwise the renderer's own failure for `view`,
    /// otherwise the rendered bytes.
    pub fn finish(self, render_error: Option<String>, view: String) -> (r: Result<
        Vec<u8>,
        DataMapperError,
    >)
        ensures
            self.overflowed() ==> r == Err::<Vec<u8>, DataMapperError>(
                DataMapperError::ResponseTooLarge { limit: self.limit() },
            ),
            !self.overflowed() && render_error is Some ==> r == Err::<Vec<u8>, DataMapperError>(
                DataMapperError::TemplateRenderError { view, message: render_error->0 },
            ),
            !self.overflowed() && render_error is None ==> (r matches Ok(b) && b@ == self.content()),
            r matches Ok(b) ==> b@.len() <= self.limit(),
    {
        proof {
            use_type_invariant(&self);
        }
        if self.overflowed {
            return Err(DataMapperError::ResponseTooLarge { limit: self.cap });
        }
        match render_error {
            Some(message) => Err(DataMapperError::TemplateRenderError { view, message }),
            None => Ok(self.bytes),
        }
    }
}

} // verus!
