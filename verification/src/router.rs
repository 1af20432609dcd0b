//! Request admission and response negotiation rules of the HTTP surface.
//!
//! Routes (served by the service around this library):
//! * `POST /:project/*view` renders `<project>/<view>.hbs` against the
//!   JSON request body;
//! * `GET|HEAD /healthz` and `/health` answer a liveness document.
//!
//! Output negotiation: a client that signals a JSON preference gets
//! `application/json`; otherwise output that parses as JSON is served
//! as JSON, and other output as `text/plain` unless the client
//! explicitly accepts `text/html` (and the template emits no raw,
//! un-escaped output).

use vstd::prelude::*;
use crate::error::DataMapperError;
use crate::text::{
    ascii_lower, chars_of, contains, contains_exec, lemma_contains_transitive,
    lemma_split_on_pieces_occur, ends_with, lower_chars, occurs_at_exec,
    push_str, range_eq, range_views, split_on, split_ranges, starts_with, string_from, trim,
    trim_bounds,
};

verus! {

// ---------------------------------------------------------------------------
// Accept / type headers
// ---------------------------------------------------------------------------

/// A `q` parameter whose value is zero (`q=0`, `q=0.`, `q=0.000`):
/// the media range is explicitly refused.
pub open spec fn is_zero_q(param: Seq<char>) -> bool {
    &&& starts_with(param, "q=0"@)
    &&& (param.len() == 3 || (param[3] == '.' && forall|i: int|
        4 <= i < param.len() ==> #[trigger] param[i] == '0'))
}

/// The media range (an element of a lowercased `Accept` list) carries `q=0`.
pub open spec fn refused(element: Seq<char>) -> bool {
    let params = split_on(element, ';');
    exists|k: int| 1 <= k < params.len() && is_zero_q(trim(#[trigger] params[k]))
}

/// Some media range of the `Accept` value mentions `pattern` and is not refused.
pub open spec fn offers(accept: Seq<char>, pattern: Seq<char>) -> bool {
    let elements = split_on(ascii_lower(accept), ',');
    exists|k: int|
        0 <= k < elements.len() && contains(#[trigger] elements[k], pattern) && !refused(
            elements[k],
        )
}

/// The client explicitly accepts `text/html`. A missing header, `*/*`,
/// an unrelated type or `text/html;q=0` do not count.
pub open spec fn accepts_html_spec(accept: Option<Seq<char>>) -> bool {
    match accept {
        Some(a) => offers(a, "text/html"@),
        None => false,
    }
}

/// The request signals a JSON preference: a `type: json` header (any
/// case), or an `Accept` offering `application/json`, or offering
/// `*/*` without offering `text/html`.
pub open spec fn wants_json_spec(type_header: Option<Seq<char>>, accept: Option<Seq<char>>) -> bool {
    ||| (type_header matches Some(t) && ascii_lower(t) == "json"@)
    ||| (accept matches Some(a) && offers(a, "application/json"@))
    ||| (accept matches Some(a) && offers(a, "*/*"@) && !offers(a, "text/html"@))
}

/// HTML is never inferred: whenever an `Accept` value counts as
/// accepting HTML, the value itself (lowercased) spells out `text/html`.
pub proof fn lemma_html_opt_in_is_explicit(accept: Seq<char>)
    ensures
        accepts_html_spec(Some(accept)) ==> contains(ascii_lower(accept), "text/html"@),
{
    if accepts_html_spec(Some(accept)) {
        let lowered = ascii_lower(accept);
        let elements = split_on(lowered, ',');
        lemma_split_on_pieces_occur(lowered, ',');
        let k = choose|k: int|
            0 <= k < elements.len() && contains(#[trigger] elements[k], "text/html"@) && !refused(
                elements[k],
            );
        lemma_contains_transitive(lowered, elements[k], "text/html"@);
    }
}

/// What signals a JSON preference: a `type: json` header (any case) or
/// an `Accept` offering `application/json` always does; an `Accept` that
/// offers `text/html` without offering `application/json` never does,
/// whether or not it also offers `*/*` (a browser's usual header); a
/// bare `*/*` without `text/html` does; no headers at all never do.
pub proof fn lemma_json_preference(type_header: Option<Seq<char>>, accept: Seq<char>)
    ensures
        (type_header matches Some(t) && ascii_lower(t) == "json"@) ==> wants_json_spec(
            type_header,
            Some(accept),
        ),
        offers(accept, "application/json"@) ==> wants_json_spec(type_header, Some(accept)),
        (offers(accept, "text/html"@) && !offers(accept, "application/json"@)) ==> wants_json_spec(
            None,
            Some(accept),
        ) == false,
        (offers(accept, "*/*"@) && !offers(accept, "text/html"@)) ==> wants_json_spec(
            None,
            Some(accept),
        ),
        !wants_json_spec(None, None),
{
}

pub open spec fn opt_str_view(o: Option<&str>) -> Option<Seq<char>> {
    match o {
        Some(s) => Some(s@),
        None => None,
    }
}

fn is_zero_q_range(cs: &Vec<char>, lo: usize, hi: usize) -> (b: bool)
    requires
        lo <= hi <= cs.len(),
    ensures
        b == is_zero_q(cs@.subrange(lo as int, hi as int)),
{
    let ghost p = cs@.subrange(lo as int, hi as int);
    let q0 = chars_of("q=0");
    proof {
        reveal_strlit("q=0");
    }
    if hi - lo < 3 || !occurs_at_exec(cs, &q0, lo) {
        assert(!starts_with(p, "q=0"@)) by {
            if starts_with(p, "q=0"@) {
                assert(p.take(3) =~= cs@.subrange(lo as int, lo + 3));
            }
        }
        return false;
    }
    assert(p.take(3) =~= cs@.subrange(lo as int, lo + 3));
    if hi - lo == 3 {
        return true;
    }
    assert(p[3] == cs@[lo + 3]);
    if cs[lo + 3] != '.' {
        return false;
    }
    let mut k = lo + 4;
    while k < hi
        invariant
            lo + 4 <= k <= hi <= cs.len(),
            p == cs@.subrange(lo as int, hi as int),
            forall|m: int| 4 <= m < k - lo ==> #[trigger] p[m] == '0',
        decreases hi - k,
    {
        assert(p[k - lo] == cs@[k as int]);
        if cs[k] != '0' {
            return false;
        }
        k += 1;
    }
    true
}

/// Whether the media range `cs[lo..hi]` carries `q=0`.
fn refused_range(cs: &Vec<char>, lo: usize, hi: usize) -> (b: bool)
    requires
        lo <= hi <= cs.len(),
    ensures
        b == refused(cs@.subrange(lo as int, hi as int)),
{
    let params = split_ranges(cs, lo, hi, ';');
    let ghost views = range_views(cs@, params@);
    let mut k: usize = 1;
    while k < params.len()
        invariant
            1 <= k <= params@.len(),
            lo <= hi <= cs.len(),
            views == range_views(cs@, params@),
            views == split_on(cs@.subrange(lo as int, hi as int), ';'),
            forall|j: int| 0 <= j < params@.len() ==> lo <= (#[trigger] params@[j]).0 <= params@[j].1 <= hi,
            forall|m: int| 1 <= m < k ==> !is_zero_q(trim(#[trigger] views[m])),
        decreases params@.len() - k,
    {
        let (a, b) = params[k];
        assert(views[k as int] == cs@.subrange(a as int, b as int));
        let (ta, tb) = trim_bounds(cs, a, b);
        if is_zero_q_range(cs, ta, tb) {
            return true;
        }
        k += 1;
    }
    false
}

/// Whether the `Accept` value offers `pattern` (see [`offers`]).
fn offers_exec(accept: &str, pattern: &str) -> (b: bool)
    ensures
        b == offers(accept@, pattern@),
{
    let raw = chars_of(accept);
    let cs = lower_chars(&raw);
    let pat = chars_of(pattern);
    let elements = split_ranges(&cs, 0, cs.len(), ',');
    assert(cs@.subrange(0, cs@.len() as int) =~= cs@);
    let ghost views = range_views(cs@, elements@);
    let mut k: usize = 0;
    while k < elements.len()
        invariant
            k <= elements@.len(),
            cs@ == ascii_lower(accept@),
            pat@ == pattern@,
            views == range_views(cs@, elements@),
            views == split_on(ascii_lower(accept@), ','),
            forall|j: int| 0 <= j < elements@.len() ==> (#[trigger] elements@[j]).0 <= elements@[j].1 <= cs@.len(),
            forall|m: int|
                0 <= m < k ==> !(contains(#[trigger] views[m], pattern@) && !refused(views[m])),
        decreases elements@.len() - k,
    {
        let (a, b) = elements[k];
        assert(views[k as int] == cs@.subrange(a as int, b as int));
        let mut e: Vec<char> = Vec::new();
        let mut i = a;
        while i < b
            invariant
                a <= i <= b <= cs.len(),
                e@ == cs@.subrange(a as int, i as int),
            decreases b - i,
        {
            e.push(cs[i]);
            i += 1;
            assert(cs@.subrange(a as int, i as int) =~= cs@.subrange(a as int, i - 1).push(
                cs@[i - 1],
            ));
        }
        if contains_exec(&e, &pat) && !refused_range(&cs, a, b) {
            return true;
        }
        k += 1;
    }
    false
}

/// True iff the client explicitly accepts `text/html` in `Accept`.
pub fn accepts_html(accept: Option<&str>) -> (b: bool)
    ensures
        b == accepts_html_spec(opt_str_view(accept)),
{
    match accept {
        Some(a) => offers_exec(a, "text/html"),
        None => false,
    }
}

/// True if the request signals a JSON preference (see [`wants_json_spec`]).
pub fn wants_json(type_header: Option<&str>, accept: Option<&str>) -> (b: bool)
    ensures
        b == wants_json_spec(opt_str_view(type_header), opt_str_view(accept)),
{
    match type_header {
        Some(t) => {
            let raw = chars_of(t);
            let lower = lower_chars(&raw);
            let json = chars_of("json");
            assert(lower@.subrange(0, lower@.len() as int) =~= lower@);
            if range_eq(&lower, 0, lower.len(), &json) {
                return true;
            }
        },
        None => {},
    }
    match accept {
        Some(a) => {
            if offers_exec(a, "application/json") {
                return true;
            }
            offers_exec(a, "*/*") && !offers_exec(a, "text/html")
        },
        None => false,
    }
}

// ---------------------------------------------------------------------------
// Request admission
// ---------------------------------------------------------------------------

/// Cap, in bytes, on a single request header value.
pub const MAX_HEADER_VALUE_BYTES: usize = 8192;

/// The first header value length above `cap`, from position `i` on.
pub open spec fn first_oversize_header(lengths: Seq<usize>, cap: usize, i: int) -> Option<usize>
    decreases lengths.len() - i,
{
    if 0 <= i < lengths.len() {
        if lengths[i] > cap {
            Some(lengths[i])
        } else {
            first_oversize_header(lengths, cap, i + 1)
        }
    } else {
        None
    }
}

/// Header admission: the first header value longer than `cap` bytes
/// (the byte lengths are given in header order) is refused with
/// `HeaderValueTooLarge`; a value of exactly `cap` bytes is admitted.
pub fn check_header_values(value_lengths: &[usize], cap: usize) -> (r: Result<(), DataMapperError>)
    ensures
        match first_oversize_header(value_lengths@, cap, 0) {
            Some(n) => r == Err::<(), DataMapperError>(
                DataMapperError::HeaderValueTooLarge { actual: n, cap },
            ),
            None => r is Ok,
        },
{
    let mut i: usize = 0;
    while i < value_lengths.len()
        invariant
            i <= value_lengths@.len(),
            first_oversize_header(value_lengths@, cap, 0) == first_oversize_header(
                value_lengths@,
                cap,
                i as int,
            ),
        decreases value_lengths@.len() - i,
    {
        if value_lengths[i] > cap {
            return Err(DataMapperError::HeaderValueTooLarge { actual: value_lengths[i], cap });
        }
        i += 1;
    }
    Ok(())
}

/// A body longer than the limit is refused with `RequestTooLarge`.
pub fn check_body_size(len: usize, limit: usize) -> (r: Result<(), DataMapperError>)
    ensures
        len > limit ==> r == Err::<(), DataMapperError>(DataMapperError::RequestTooLarge { limit }),
        len <= limit ==> r is Ok,
{
    if len > limit {
        Err(DataMapperError::RequestTooLarge { limit })
    } else {
        Ok(())
    }
}

/// The error for a failed body read with message `msg`: an over-limit
/// read (`length limit` / `too large`) is `RequestTooLarge`, anything
/// else an internal error naming the failure.
pub fn body_read_error(msg: &str, limit: usize) -> (e: DataMapperError)
    ensures
        (contains(msg@, "length limit"@) || contains(msg@, "too large"@)) ==> e == (
        DataMapperError::RequestTooLarge { limit }),
        !(contains(msg@, "length limit"@) || contains(msg@, "too large"@)) ==> (e matches DataMapperError::Internal(
            m,
        ) && m@ == "reading request body: "@ + msg@),
{
    let cs = chars_of(msg);
    let a = chars_of("length limit");
    let b = chars_of("too large");
    if contains_exec(&cs, &a) || contains_exec(&cs, &b) {
        return DataMapperError::RequestTooLarge { limit };
    }
    let mut m = String::from_str("reading request body: ");
    push_str(&mut m, msg);
    DataMapperError::Internal(m)
}

/// The media type of a `Content-Type` value: lowercased, parameters
/// dropped, trimmed.
pub open spec fn media_type(content_type: Seq<char>) -> Seq<char> {
    trim(split_on(ascii_lower(content_type), ';')[0])
}

/// A JSON-shaped (or empty) media type.
pub open spec fn is_json_media(m: Seq<char>) -> bool {
    m == "application/json"@ || m == "text/json"@ || ends_with(m, "+json"@) || m.len() == 0
}

/// Content-type admission: a non-empty body whose `Content-Type` is
/// present and not JSON-shaped is refused with
/// `UnsupportedContentType` naming the media type. Empty bodies and a
/// missing header are admitted.
pub fn check_content_type(body_is_empty: bool, content_type: Option<&str>) -> (r: Result<
    (),
    DataMapperError,
>)
    ensures
        match content_type {
            Some(ct) => if !body_is_empty && !is_json_media(media_type(ct@)) {
                r matches Err(e) && (e matches DataMapperError::UnsupportedContentType(m) && m@
                    == media_type(ct@))
            } else {
                r is Ok
            },
            None => r is Ok,
        },
{
    if body_is_empty {
        return Ok(());
    }
    match content_type {
        None => Ok(()),
        Some(ct) => {
            let raw = chars_of(ct);
            let cs = lower_chars(&raw);
            let parts = split_ranges(&cs, 0, cs.len(), ';');
            assert(cs@.subrange(0, cs@.len() as int) =~= cs@);
            let (p0, p1) = parts[0];
            assert(range_views(cs@, parts@)[0] == cs@.subrange(p0 as int, p1 as int));
            let (a, b) = trim_bounds(&cs, p0, p1);
            let ghost m = cs@.subrange(a as int, b as int);
            assert(m == media_type(ct@));
            let app = chars_of("application/json");
            let text = chars_of("text/json");
            let plus = chars_of("+json");
            let ends_plus = b - a >= plus.len() && occurs_at_exec(&cs, &plus, b - plus.len());
            assert(ends_plus == ends_with(m, "+json"@)) by {
                if b - a >= plus@.len() {
                    assert(m.skip(m.len() - plus@.len()) =~= cs@.subrange(
                        b - plus@.len(),
                        b as int,
                    ));
                }
            }
            if range_eq(&cs, a, b, &app) || range_eq(&cs, a, b, &text) || ends_plus || a == b {
                Ok(())
            } else {
                Err(DataMapperError::UnsupportedContentType(string_from(&cs, a, b)))
            }
        },
    }
}

/// Admission of a request body of `len` bytes that was read in full:
/// over `limit` it is `RequestTooLarge`; then a non-empty body whose
/// `Content-Type` is present and not JSON-shaped is
/// `UnsupportedContentType` naming the media type.
pub fn admit_body(len: usize, limit: usize, content_type: Option<&str>) -> (r: Result<
    (),
    DataMapperError,
>)
    ensures
        len > limit ==> r == Err::<(), DataMapperError>(DataMapperError::RequestTooLarge { limit }),
        len <= limit ==> match content_type {
            Some(ct) => if len > 0 && !is_json_media(media_type(ct@)) {
                r matches Err(e) && (e matches DataMapperError::UnsupportedContentType(m) && m@
                    == media_type(ct@))
            } else {
                r is Ok
            },
            None => r is Ok,
        },
{
    check_body_size(len, limit)?;
    check_content_type(len == 0, content_type)
}

#[verifier::external_type_specification]
#[verifier::external_body]
pub struct ExJsonValue(serde_json::Value);

/// What `serde_json::from_slice::<serde_json::Value>` gives for `body`:
/// the parsed document, or the `Display` text of its error.
pub uninterp spec fn json_from_slice(body: Seq<u8>) -> Result<serde_json::Value, Seq<char>>;

/// A successful parse yielding `v`.
pub open spec fn parsed_document(v: serde_json::Value) -> Result<serde_json::Value, Seq<char>> {
    Ok(v)
}

/// A failed parse with error text `m`.
pub open spec fn parse_failure(m: Seq<char>) -> Result<serde_json::Value, Seq<char>> {
    Err(m)
}

/// The bytes of the empty JSON object, `{}`.
pub open spec fn empty_object_bytes() -> Seq<u8> {
    seq![123u8, 125u8]
}

/// `serde_json::from_slice::<serde_json::Value>(body)`, the error as its
/// `Display` text.
#[verifier::external_body]
fn parse_json_bytes(body: &[u8]) -> (r: Result<serde_json::Value, String>)
    ensures
        match r {
            Ok(v) => json_from_slice(body@) == parsed_document(v),
            Err(m) => json_from_slice(body@) == parse_failure(m@),
        },
{
    serde_json::from_slice::<serde_json::Value>(body).map_err(|e| e.to_string())
}

/// The empty JSON object (`serde_json::Value::Object` of an empty map):
/// the document that the bytes `{}` parse to.
#[verifier::external_body]
fn empty_json_object() -> (v: serde_json::Value)
    ensures
        json_from_slice(empty_object_bytes()) == parsed_document(v),
{
    serde_json::Value::Object(serde_json::Map::new())
}

/// The bytes whose document is the render context of a request body:
/// the body itself, or `{}` for an empty body.
pub open spec fn context_bytes(body: Seq<u8>) -> Seq<u8> {
    if body.len() == 0 {
        empty_object_bytes()
    } else {
        body
    }
}

/// The render context of a request body: an empty body is the empty
/// object `{}`; any other body must be a JSON document, which is the
/// context, else `InvalidJson` with the parser's message.
pub fn parse_request_body(body: &[u8]) -> (r: Result<serde_json::Value, DataMapperError>)
    ensures
        match json_from_slice(context_bytes(body@)) {
            Ok(v) => r matches Ok(c) && c == v,
            Err(m) => r matches Err(e) && (e matches DataMapperError::InvalidJson(x) && x@ == m),
        },
        body@.len() == 0 ==> r is Ok,
{
    if body.len() == 0 {
        return Ok(empty_json_object());
    }
    match parse_json_bytes(body) {
        Ok(v) => Ok(v),
        Err(m) => Err(DataMapperError::InvalidJson(m)),
    }
}

/// Method admission on the health routes: only `GET` and `HEAD`.
pub fn check_health_method(method: &str) -> (r: Result<(), DataMapperError>)
    ensures
        (method@ == "GET"@ || method@ == "HEAD"@) ==> r is Ok,
        !(method@ == "GET"@ || method@ == "HEAD"@) ==> r == Err::<(), DataMapperError>(
            DataMapperError::MethodNotAllowed,
        ),
{
    let cs = chars_of(method);
    let get = chars_of("GET");
    let head = chars_of("HEAD");
    assert(cs@.subrange(0, cs@.len() as int) =~= cs@);
    if range_eq(&cs, 0, cs.len(), &get) || range_eq(&cs, 0, cs.len(), &head) {
        Ok(())
    } else {
        Err(DataMapperError::MethodNotAllowed)
    }
}

// ---------------------------------------------------------------------------
// Response negotiation
// ---------------------------------------------------------------------------

/// How a rendered output is served.
#[derive(Debug, Clone, Copy, PartialEq, Eq, Structural)]
pub enum ContentKind {
    /// Parsed and re-serialised as `application/json`.
    Json,
    /// The raw output, labelled `application/json`.
    RawJson,
    /// The raw output as `text/html; charset=utf-8`.
    Html,
    /// The raw output as `text/plain; charset=utf-8`.
    Plain,
}

/// The negotiation policy: a JSON preference gets JSON (raw when the
/// output does not parse); otherwise output that parses is upgraded to
/// JSON, and other output is HTML only for an explicit `text/html`
/// opt-in on a template without raw output, else plain text.
pub open spec fn negotiate_spec(parses: bool, prefers_json: bool, accepts_html: bool, raw_output: bool) -> ContentKind {
    if prefers_json {
        if parses {
            ContentKind::Json
        } else {
            ContentKind::RawJson
        }
    } else if parses {
        ContentKind::Json
    } else if accepts_html && !raw_output {
        ContentKind::Html
    } else {
        ContentKind::Plain
    }
}

/// The response policy, given whether the rendered output parses as JSON.
pub fn negotiate(parses_as_json: bool, prefers_json: bool, accepts_html: bool, raw_output: bool) -> (k: ContentKind)
    ensures
        k == negotiate_spec(parses_as_json, prefers_json, accepts_html, raw_output),
{
    if prefers_json {
        if parses_as_json {
            ContentKind::Json
        } else {
            ContentKind::RawJson
        }
    } else if parses_as_json {
        ContentKind::Json
    } else if accepts_html && !raw_output {
        ContentKind::Html
    } else {
        ContentKind::Plain
    }
}

/// What the negotiation promises whatever the inputs: output is served
/// as `text/html` only when the client explicitly accepts `text/html`,
/// asked for no JSON, the output is not JSON and the template has no
/// raw output; a JSON preference is always answered as
/// `application/json`; output that parses as JSON is always served as
/// re-serialised JSON.
pub proof fn lemma_negotiation_policy(parses: bool, prefers_json: bool, accepts_html: bool, raw_output: bool)
    ensures
        negotiate_spec(parses, prefers_json, accepts_html, raw_output) == ContentKind::Html
            ==> accepts_html && !raw_output && !parses && !prefers_json,
        prefers_json ==> (negotiate_spec(parses, prefers_json, accepts_html, raw_output)
            == ContentKind::Json || negotiate_spec(parses, prefers_json, accepts_html, raw_output)
            == ContentKind::RawJson),
        parses ==> negotiate_spec(parses, prefers_json, accepts_html, raw_output)
            == ContentKind::Json,
{
}

/// Whether the text is a JSON document (`serde_json::from_str::<Value>` succeeds).
pub uninterp spec fn json_parses(s: Seq<char>) -> bool;

/// `serde_json::from_str::<serde_json::Value>(s).is_ok()`.
#[verifier::external_body]
fn parses_as_json(s: &str) -> (b: bool)
    ensures
        b == json_parses(s@),
{
    serde_json::from_str::<serde_json::Value>(s).is_ok()
}

/// How the rendered output of a template is served.
pub fn response_kind(rendered: &str, prefers_json: bool, accepts_html: bool, raw_output: bool) -> (k: ContentKind)
    ensures
        k == negotiate_spec(json_parses(rendered@), prefers_json, accepts_html, raw_output),
{
    let parses = parses_as_json(rendered);
    negotiate(parses, prefers_json, accepts_html, raw_output)
}

/// The `Content-Type` of each kind.
pub fn content_type_of(k: ContentKind) -> (t: &'static str)
    ensures
        k == ContentKind::Json || k == ContentKind::RawJson ==> t@ == "application/json"@,
        k == ContentKind::Html ==> t@ == "text/html; charset=utf-8"@,
        k == ContentKind::Plain ==> t@ == "text/plain; charset=utf-8"@,
{
    match k {
        ContentKind::Json => "application/json",
        ContentKind::RawJson => "application/json",
        ContentKind::Html => "text/html; charset=utf-8",
        ContentKind::Plain => "text/plain; charset=utf-8",
    }
}


// ---------------------------------------------------------------------------
// Request-body array cap
// ---------------------------------------------------------------------------

/// The nesting structure of a JSON document, as far as arrays go:
/// arrays with their elements, objects with their values, and scalars.
pub enum JsonShape {
    Scalar,
    Array(Vec<JsonShape>),
    Object(Vec<JsonShape>),
}

/// Length of the first array longer than `limit`, walking the document
/// depth-first (an array before its elements, elements in order).
pub open spec fn first_oversize_array(s: JsonShape, limit: nat) -> Option<nat>
    decreases s,
{
    match s {
        JsonShape::Scalar => None,
        JsonShape::Array(items) => if items@.len() > limit {
            Some(items@.len())
        } else {
            first_oversize_in(items@, limit)
        },
        JsonShape::Object(values) => first_oversize_in(values@, limit),
    }
}

/// [`first_oversize_array`] over a sequence of documents, in order.
pub open spec fn first_oversize_in(items: Seq<JsonShape>, limit: nat) -> Option<nat>
    decreases items,
{
    if items.len() == 0 {
        None
    } else {
        match first_oversize_in(items.subrange(0, items.len() - 1), limit) {
            Some(n) => Some(n),
            None => first_oversize_array(items[items.len() - 1], limit),
        }
    }
}

fn first_oversize_exec(s: &JsonShape, limit: usize) -> (r: Option<usize>)
    ensures
        match first_oversize_array(*s, limit as nat) {
            Some(n) => r == Some(n as usize),
            None => r is None,
        },
    decreases s,
{
    match s {
        JsonShape::Scalar => None,
        JsonShape::Array(items) => {
            if items.len() > limit {
                Some(items.len())
            } else {
                first_oversize_items(items, limit)
            }
        },
        JsonShape::Object(values) => first_oversize_items(values, limit),
    }
}

fn first_oversize_items(items: &Vec<JsonShape>, limit: usize) -> (r: Option<usize>)
    ensures
        match first_oversize_in(items@, limit as nat) {
            Some(n) => r == Some(n as usize),
            None => r is None,
        },
    decreases items@,
{
    let mut i: usize = 0;
    while i < items.len()
        invariant
            i <= items@.len(),
            first_oversize_in(items@.subrange(0, i as int), limit as nat) is None,
        decreases items@.len() - i,
    {
        assert(items@.subrange(0, i + 1).subrange(0, i as int) =~= items@.subrange(0, i as int));
        assert(items@.subrange(0, i + 1)[i as int] == items@[i as int]);
        match first_oversize_exec(&items[i], limit) {
            Some(n) => {
                proof {
                    lemma_first_oversize_prefix(items@, i as int, limit as nat);
                }
                return Some(n);
            },
            None => {},
        }
        i += 1;
    }
    assert(items@.subrange(0, items@.len() as int) =~= items@);
    None
}

/// The first hit in a prefix stays the first hit of the whole sequence.
proof fn lemma_first_oversize_prefix(items: Seq<JsonShape>, i: int, limit: nat)
    requires
        0 <= i < items.len(),
        first_oversize_in(items.subrange(0, i), limit) is None,
        first_oversize_array(items[i], limit) is Some,
    ensures
        first_oversize_in(items, limit) == first_oversize_array(items[i], limit),
    decreases items.len(),
{
    if i == items.len() - 1 {
    } else {
        let shorter = items.subrange(0, items.len() - 1);
        assert(shorter.subrange(0, i) =~= items.subrange(0, i));
        assert(shorter[i] == items[i]);
        lemma_first_oversize_prefix(shorter, i, limit);
    }
}

proof fn lemma_first_oversize_in_some(items: Seq<JsonShape>, k: int, limit: nat)
    requires
        0 <= k < items.len(),
        first_oversize_array(items[k], limit) is Some,
    ensures
        first_oversize_in(items, limit) is Some,
    decreases items.len(),
{
    if k < items.len() - 1 {
        let shorter = items.subrange(0, items.len() - 1);
        assert(shorter[k] == items[k]);
        lemma_first_oversize_in_some(shorter, k, limit);
    }
}

proof fn lemma_first_oversize_bound(s: JsonShape, limit: nat)
    ensures
        first_oversize_array(s, limit) matches Some(m) ==> m > limit,
    decreases s,
{
    match s {
        JsonShape::Scalar => {},
        JsonShape::Array(items) => {
            if items@.len() <= limit {
                lemma_first_oversize_in_bound(items@, limit);
            }
        },
        JsonShape::Object(values) => {
            lemma_first_oversize_in_bound(values@, limit);
        },
    }
}

proof fn lemma_first_oversize_in_bound(items: Seq<JsonShape>, limit: nat)
    ensures
        first_oversize_in(items, limit) matches Some(m) ==> m > limit,
    decreases items,
{
    if items.len() > 0 {
        let shorter = items.subrange(0, items.len() - 1);
        assert(shorter.len() < items.len());
        lemma_first_oversize_in_bound(shorter, limit);
        let last = items[items.len() - 1];
        assert(items.contains(last));
        lemma_first_oversize_bound(last, limit);
    }
}

/// The array cap looks at every array, at any depth and through arrays
/// as well as objects: a reported length always exceeds the limit; an
/// array or object that holds an element with an over-long array
/// inside is itself reported; and a container that is itself within
/// the limit and holds a single element reports exactly what that
/// element reports.
pub proof fn lemma_array_cap_is_deep(s: JsonShape, limit: nat)
    ensures
        first_oversize_array(s, limit) matches Some(m) ==> m > limit,
        (s matches JsonShape::Array(items) && exists|k: int|
            0 <= k < items@.len() && first_oversize_array(#[trigger] items@[k], limit) is Some)
            ==> first_oversize_array(s, limit) is Some,
        (s matches JsonShape::Object(values) && exists|k: int|
            0 <= k < values@.len() && first_oversize_array(#[trigger] values@[k], limit) is Some)
            ==> first_oversize_array(s, limit) is Some,
        (s is Array && s->Array_0@.len() == 1 && 1 <= limit) ==> first_oversize_array(s, limit)
            == first_oversize_array(s->Array_0@[0], limit),
        (s is Object && s->Object_0@.len() == 1) ==> first_oversize_array(s, limit)
            == first_oversize_array(s->Object_0@[0], limit),
{
    lemma_first_oversize_bound(s, limit);
    match s {
        JsonShape::Scalar => {},
        JsonShape::Array(items) => {
            if exists|k: int| 0 <= k < items@.len() && first_oversize_array(#[trigger] items@[k], limit) is Some {
                let k = choose|k: int| 0 <= k < items@.len() && first_oversize_array(#[trigger] items@[k], limit) is Some;
                if items@.len() <= limit {
                    lemma_first_oversize_in_some(items@, k, limit);
                }
            }
            if items@.len() == 1 {
                assert(first_oversize_in(items@.subrange(0, 0), limit) is None);
                assert(first_oversize_in(items@, limit) == first_oversize_array(items@[0], limit));
            }
        },
        JsonShape::Object(values) => {
            if exists|k: int| 0 <= k < values@.len() && first_oversize_array(#[trigger] values@[k], limit) is Some {
                let k = choose|k: int| 0 <= k < values@.len() && first_oversize_array(#[trigger] values@[k], limit) is Some;
                lemma_first_oversize_in_some(values@, k, limit);
            }
            if values@.len() == 1 {
                assert(first_oversize_in(values@.subrange(0, 0), limit) is None);
                assert(first_oversize_in(values@, limit) == first_oversize_array(values@[0], limit));
            }
        },
    }
}

/// Body admission: with a non-zero `limit`, a JSON body holding an
/// array longer than `limit` is refused with `RequestArrayTooLarge`
/// naming the first such array's length; a zero limit disables it.
pub fn check_body_arrays(body: &JsonShape, limit: usize) -> (r: Result<(), DataMapperError>)
    ensures
        limit == 0 ==> r is Ok,
        limit > 0 ==> match first_oversize_array(*body, limit as nat) {
            Some(n) => r == Err::<(), DataMapperError>(
                DataMapperError::RequestArrayTooLarge { length: n as usize, limit },
            ),
            None => r is Ok,
        },
{
    if limit == 0 {
        return Ok(());
    }
    match first_oversize_exec(body, limit) {
        Some(n) => Err(DataMapperError::RequestArrayTooLarge { length: n, limit }),
        None => Ok(()),
    }
}

} // verus!
