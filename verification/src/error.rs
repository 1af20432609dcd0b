//! Domain error type.
//!
//! `DataMapperError` is the library-facing error enum. Each variant
//! carries the operator-actionable context (which template, which
//! limit, which path) and maps to an HTTP status, a stable machine
//! code and a structured JSON body description ([`ErrorBody`]).

use vstd::prelude::*;
use crate::text::{
    chars_of, decimal, join, push_decimal, push_joined, push_str, string_from, string_views,
};

verus! {

/// Every failure the service can answer a request with.
#[derive(Debug)]
pub enum DataMapperError {
    TemplateNotFound { tried: Vec<String> },
    TemplateRenderError { view: String, message: String },
    RequestTooLarge { limit: usize },
    /// A single request header value exceeded the configured cap.
    HeaderValueTooLarge { actual: usize, cap: usize },
    ResponseTooLarge { limit: usize },
    /// The client did not finish sending the body before the deadline.
    RequestReadTimeout { deadline_secs: u64 },
    /// The request-body JSON holds an array longer than the cap.
    RequestArrayTooLarge { length: usize, limit: usize },
    InvalidJson(String),
    InvalidPath(String),
    MethodNotAllowed,
    /// A non-JSON request `Content-Type`, named in the message.
    UnsupportedContentType(String),
    Internal(String),
}

/// `Debug` rendering of a string: quoted, with escapes (`<str as Debug>::fmt`).
pub uninterp spec fn debug_text(s: Seq<char>) -> Seq<char>;

/// `format!("{:?}", s)` for a string.
#[verifier::external_body]
pub(crate) fn debug_str(s: &str) -> (r: String)
    ensures
        r@ == debug_text(s@),
{
    format!("{:?}", s)
}

/// `Debug` rendering of a list of strings: `["a", "b"]`.
pub open spec fn debug_list(items: Seq<Seq<char>>) -> Seq<char> {
    "["@ + join(items.map_values(|t: Seq<char>| debug_text(t)), ", "@) + "]"@
}

/// The human-readable message of each variant (its `Display` text).
pub open spec fn message_text(e: DataMapperError) -> Seq<char> {
    match e {
        DataMapperError::TemplateNotFound { tried } => "template not found: tried "@ + debug_list(
            string_views(tried@),
        ),
        DataMapperError::TemplateRenderError { view, message } => "template render error in "@
            + view@ + ": "@ + message@,
        DataMapperError::RequestTooLarge { limit } => "request body exceeds limit of "@ + decimal(
            limit as nat,
        ) + " bytes"@,
        DataMapperError::HeaderValueTooLarge { actual, cap } => "request header value of "@
            + decimal(actual as nat) + " bytes exceeds cap "@ + decimal(cap as nat),
        DataMapperError::ResponseTooLarge { limit } => "rendered output exceeds limit of "@
            + decimal(limit as nat) + " bytes"@,
        DataMapperError::RequestReadTimeout { deadline_secs } =>
            "request body was not received within "@ + decimal(deadline_secs as nat) + "s"@,
        DataMapperError::RequestArrayTooLarge { length, limit } => "request body array of "@
            + decimal(length as nat) + " elements exceeds limit of "@ + decimal(limit as nat),
        DataMapperError::InvalidJson(m) => "request body is not valid JSON: "@ + m@,
        DataMapperError::InvalidPath(m) => "path traversal or invalid path segment: "@ + m@,
        DataMapperError::MethodNotAllowed => "method not allowed on this route"@,
        DataMapperError::UnsupportedContentType(t) => "Content-Type '"@ + t@
            + "' is not supported — post JSON with Content-Type: application/json"@,
        DataMapperError::Internal(m) => "internal error: "@ + m@,
    }
}

/// The HTTP status each variant answers with.
pub open spec fn status_of(e: DataMapperError) -> u16 {
    match e {
        DataMapperError::TemplateNotFound { .. } => 404,
        DataMapperError::TemplateRenderError { .. } => 500,
        DataMapperError::RequestTooLarge { .. } => 413,
        DataMapperError::HeaderValueTooLarge { .. } => 431,
        DataMapperError::ResponseTooLarge { .. } => 500,
        DataMapperError::RequestReadTimeout { .. } => 408,
        DataMapperError::RequestArrayTooLarge { .. } => 413,
        DataMapperError::InvalidJson(_) => 400,
        DataMapperError::InvalidPath(_) => 400,
        DataMapperError::MethodNotAllowed => 405,
        DataMapperError::UnsupportedContentType(_) => 415,
        DataMapperError::Internal(_) => 500,
    }
}

/// The stable machine code each variant answers with (the `error` field).
pub open spec fn code_of(e: DataMapperError) -> Seq<char> {
    match e {
        DataMapperError::TemplateNotFound { .. } => "TemplateNotFound"@,
        DataMapperError::TemplateRenderError { .. } => "TemplateRenderError"@,
        DataMapperError::RequestTooLarge { .. } => "RequestTooLarge"@,
        DataMapperError::HeaderValueTooLarge { .. } => "HeaderValueTooLarge"@,
        DataMapperError::ResponseTooLarge { .. } => "ResponseTooLarge"@,
        DataMapperError::RequestReadTimeout { .. } => "RequestReadTimeout"@,
        DataMapperError::RequestArrayTooLarge { .. } => "RequestArrayTooLarge"@,
        DataMapperError::InvalidJson(_) => "InvalidJson"@,
        DataMapperError::InvalidPath(_) => "InvalidPath"@,
        DataMapperError::MethodNotAllowed => "MethodNotAllowed"@,
        DataMapperError::UnsupportedContentType(_) => "UnsupportedContentType"@,
        DataMapperError::Internal(_) => "Internal"@,
    }
}

/// Per-entry cap, in characters, on the `tried` paths echoed in a
/// TemplateNotFound body: bounds URL-length amplification of the 404.
pub const MAX_TRIED_PATH_CHARS: usize = 256;

/// One `tried` entry as echoed: unchanged up to the cap, otherwise its
/// first `MAX_TRIED_PATH_CHARS` characters and a truncation marker.
pub open spec fn clip_path(p: Seq<char>) -> Seq<char> {
    if p.len() > MAX_TRIED_PATH_CHARS {
        p.take(MAX_TRIED_PATH_CHARS as int) + "… [truncated]"@
    } else {
        p
    }
}

/// The 404 body cannot amplify a long URL: every echoed entry is at
/// most the cap plus the 13-character marker long, keeps the first
/// `MAX_TRIED_PATH_CHARS` characters of the path, and is the path itself
/// when that fits under the cap.
pub proof fn lemma_clip_path_bounded(p: Seq<char>)
    ensures
        clip_path(p).len() <= MAX_TRIED_PATH_CHARS + 13,
        p.len() <= MAX_TRIED_PATH_CHARS ==> clip_path(p) == p,
        p.len() > MAX_TRIED_PATH_CHARS ==> clip_path(p).take(MAX_TRIED_PATH_CHARS as int) == p.take(
            MAX_TRIED_PATH_CHARS as int,
        ),
{
    reveal_strlit("… [truncated]");
    if p.len() > MAX_TRIED_PATH_CHARS {
        assert(clip_path(p).take(MAX_TRIED_PATH_CHARS as int) =~= p.take(
            MAX_TRIED_PATH_CHARS as int,
        ));
    }
}

/// Cap each entry of a TemplateNotFound `tried` list at
/// [`MAX_TRIED_PATH_CHARS`] characters, marking clipped entries.
pub fn clip_tried_paths(tried: &[String]) -> (r: Vec<String>)
    ensures
        r@.len() == tried@.len(),
        forall|i: int| 0 <= i < tried@.len() ==> #[trigger] r@[i]@ == clip_path(tried@[i]@),
{
    let mut r: Vec<String> = Vec::new();
    let mut i: usize = 0;
    while i < tried.len()
        invariant
            i <= tried@.len(),
            r@.len() == i,
            forall|k: int| 0 <= k < i ==> #[trigger] r@[k]@ == clip_path(tried@[k]@),
        decreases tried@.len() - i,
    {
        let cs = chars_of(tried[i].as_str());
        if cs.len() > MAX_TRIED_PATH_CHARS {
            let mut clipped = string_from(&cs, 0, MAX_TRIED_PATH_CHARS);
            push_str(&mut clipped, "… [truncated]");
            r.push(clipped);
        } else {
            r.push(string_from(&cs, 0, cs.len()));
            assert(cs@.subrange(0, cs@.len() as int) =~= cs@);
        }
        i += 1;
    }
    r
}

/// What a structured error response body holds: the machine code, the
/// message and the variant's extra fields.
pub struct ErrorBody {
    pub error: &'static str,
    pub message: String,
    pub tried: Option<Vec<String>>,
    pub limit: Option<usize>,
    pub actual: Option<usize>,
    pub length: Option<usize>,
    pub view: Option<String>,
    pub deadline_secs: Option<u64>,
}

/// Appends the `Debug` rendering of a list of strings.
fn push_debug_list(out: &mut String, items: &Vec<String>)
    ensures
        final(out)@ == old(out)@ + debug_list(string_views(items@)),
{
    let mut quoted: Vec<String> = Vec::new();
    let mut i: usize = 0;
    while i < items.len()
        invariant
            i <= items@.len(),
            string_views(quoted@) == string_views(items@.take(i as int)).map_values(
                |t: Seq<char>| debug_text(t),
            ),
        decreases items@.len() - i,
    {
        let ghost before = quoted@;
        quoted.push(debug_str(items[i].as_str()));
        i += 1;
        assert(string_views(quoted@) =~= string_views(before).push(debug_text(items@[i - 1]@)));
        assert(string_views(items@.take(i as int)) =~= string_views(items@.take(i - 1)).push(
            items@[i - 1]@,
        ));
        assert(string_views(items@.take(i as int)).map_values(|t: Seq<char>| debug_text(t))
            =~= string_views(items@.take(i - 1)).map_values(|t: Seq<char>| debug_text(t)).push(
            debug_text(items@[i - 1]@),
        ));
    }
    assert(items@.take(items@.len() as int) =~= items@);
    assert(quoted@.subrange(0, quoted@.len() as int) =~= quoted@);
    push_str(out, "[");
    push_joined(out, &quoted, 0, quoted.len(), ", ");
    push_str(out, "]");
}

impl DataMapperError {
    /// The human-readable message (the error's display text).
    pub fn to_string(&self) -> (m: String)
        ensures
            m@ == message_text(*self),
    {
        let mut m = String::new();
        match self {
            DataMapperError::TemplateNotFound { tried } => {
                push_str(&mut m, "template not found: tried ");
                push_debug_list(&mut m, tried);
            },
            DataMapperError::TemplateRenderError { view, message } => {
                push_str(&mut m, "template render error in ");
                push_str(&mut m, view.as_str());
                push_str(&mut m, ": ");
                push_str(&mut m, message.as_str());
            },
            DataMapperError::RequestTooLarge { limit } => {
                push_str(&mut m, "request body exceeds limit of ");
                push_decimal(&mut m, *limit as u64);
                push_str(&mut m, " bytes");
            },
            DataMapperError::HeaderValueTooLarge { actual, cap } => {
                push_str(&mut m, "request header value of ");
                push_decimal(&mut m, *actual as u64);
                push_str(&mut m, " bytes exceeds cap ");
                push_decimal(&mut m, *cap as u64);
            },
            DataMapperError::ResponseTooLarge { limit } => {
                push_str(&mut m, "rendered output exceeds limit of ");
                push_decimal(&mut m, *limit as u64);
                push_str(&mut m, " bytes");
            },
            DataMapperError::RequestReadTimeout { deadline_secs } => {
                push_str(&mut m, "request body was not received within ");
                push_decimal(&mut m, *deadline_secs);
                push_str(&mut m, "s");
            },
            DataMapperError::RequestArrayTooLarge { length, limit } => {
                push_str(&mut m, "request body array of ");
                push_decimal(&mut m, *length as u64);
                push_str(&mut m, " elements exceeds limit of ");
                push_decimal(&mut m, *limit as u64);
            },
            DataMapperError::InvalidJson(x) => {
                push_str(&mut m, "request body is not valid JSON: ");
                push_str(&mut m, x.as_str());
            },
            DataMapperError::InvalidPath(x) => {
                push_str(&mut m, "path traversal or invalid path segment: ");
                push_str(&mut m, x.as_str());
            },
            DataMapperError::MethodNotAllowed => {
                push_str(&mut m, "method not allowed on this route");
            },
            DataMapperError::UnsupportedContentType(x) => {
                push_str(&mut m, "Content-Type '");
                push_str(&mut m, x.as_str());
                push_str(
                    &mut m,
                    "' is not supported — post JSON with Content-Type: application/json",
                );
            },
            DataMapperError::Internal(x) => {
                push_str(&mut m, "internal error: ");
                push_str(&mut m, x.as_str());
            },
        }
        m
    }

    /// The structured body of the error response: code, message and the
    /// variant's extra fields (`tried` clipped per entry, `limit`,
    /// `actual`, `length`, `view`, `deadline_secs`).
    pub fn body(&self) -> (b: ErrorBody)
        ensures
            b.error@ == code_of(*self),
            b.message@ == message_text(*self),
            match *self {
                DataMapperError::TemplateNotFound { tried } => (b.tried matches Some(t) && t@.len()
                    == tried@.len() && forall|i: int|
                    0 <= i < tried@.len() ==> #[trigger] t@[i]@ == clip_path(tried@[i]@)),
                _ => b.tried is None,
            },
            b.limit == match *self {
                DataMapperError::RequestTooLarge { limit } => Some(limit),
                DataMapperError::ResponseTooLarge { limit } => Some(limit),
                DataMapperError::HeaderValueTooLarge { cap, .. } => Some(cap),
                DataMapperError::RequestArrayTooLarge { limit, .. } => Some(limit),
                _ => None,
            },
            b.actual == match *self {
                DataMapperError::HeaderValueTooLarge { actual, .. } => Some(actual),
                _ => None,
            },
            b.length == match *self {
                DataMapperError::RequestArrayTooLarge { length, .. } => Some(length),
                _ => None,
            },
            match *self {
                DataMapperError::TemplateRenderError { view, .. } => (b.view matches Some(v) && v@
                    == view@),
                _ => b.view is None,
            },
            b.deadline_secs == match *self {
                DataMapperError::RequestReadTimeout { deadline_secs } => Some(deadline_secs),
                _ => None,
            },
    {
        let tried = match self {
            DataMapperError::TemplateNotFound { tried } => Some(clip_tried_paths(tried.as_slice())),
            _ => None,
        };
        let limit = match self {
            DataMapperError::RequestTooLarge { limit } => Some(*limit),
            DataMapperError::ResponseTooLarge { limit } => Some(*limit),
            DataMapperError::HeaderValueTooLarge { cap, .. } => Some(*cap),
            DataMapperError::RequestArrayTooLarge { limit, .. } => Some(*limit),
            _ => None,
        };
        let actual = match self {
            DataMapperError::HeaderValueTooLarge { actual, .. } => Some(*actual),
            _ => None,
        };
        let length = match self {
            DataMapperError::RequestArrayTooLarge { length, .. } => Some(*length),
            _ => None,
        };
        let view = match self {
            DataMapperError::TemplateRenderError { view, .. } => Some(view.clone()),
            _ => None,
        };
        let deadline_secs = match self {
            DataMapperError::RequestReadTimeout { deadline_secs } => Some(*deadline_secs),
            _ => None,
        };
        ErrorBody {
            error: self.code(),
            message: self.to_string(),
            tried,
            limit,
            actual,
            length,
            view,
            deadline_secs,
        }
    }

    /// HTTP status code of this error.
    pub fn status(&self) -> (s: u16)
        ensures
            s == status_of(*self),
    {
        match self {
            DataMapperError::TemplateNotFound { .. } => 404,
            DataMapperError::TemplateRenderError { .. } => 500,
            DataMapperError::RequestTooLarge { .. } => 413,
            DataMapperError::HeaderValueTooLarge { .. } => 431,
            DataMapperError::ResponseTooLarge { .. } => 500,
            DataMapperError::RequestReadTimeout { .. } => 408,
            DataMapperError::RequestArrayTooLarge { .. } => 413,
            DataMapperError::InvalidJson(_) => 400,
            DataMapperError::InvalidPath(_) => 400,
            DataMapperError::MethodNotAllowed => 405,
            DataMapperError::UnsupportedContentType(_) => 415,
            DataMapperError::Internal(_) => 500,
        }
    }

    /// Stable machine code of this error.
    pub fn code(&self) -> (c: &'static str)
        ensures
            c@ == code_of(*self),
    {
        match self {
            DataMapperError::TemplateNotFound { .. } => "TemplateNotFound",
            DataMapperError::TemplateRenderError { .. } => "TemplateRenderError",
            DataMapperError::RequestTooLarge { .. } => "RequestTooLarge",
            DataMapperError::HeaderValueTooLarge { .. } => "HeaderValueTooLarge",
            DataMapperError::ResponseTooLarge { .. } => "ResponseTooLarge",
            DataMapperError::RequestReadTimeout { .. } => "RequestReadTimeout",
            DataMapperError::RequestArrayTooLarge { .. } => "RequestArrayTooLarge",
            DataMapperError::InvalidJson(_) => "InvalidJson",
            DataMapperError::InvalidPath(_) => "InvalidPath",
            DataMapperError::MethodNotAllowed => "MethodNotAllowed",
            DataMapperError::UnsupportedContentType(_) => "UnsupportedContentType",
            DataMapperError::Internal(_) => "Internal",
        }
    }
}

} // verus!
