//! W3C Trace Context response headers.
//!
//! An inbound `traceparent` header that is well formed
//! (`00-<32 hex trace id>-<16 hex span id>-<2 hex flags>`, non-zero
//! trace id) passes its trace id on; otherwise a fresh random trace id is
//! used. This service's span id is always fresh. Every response gets
//! `traceparent: 00-<trace_id>-<span_id>-01` and `x-trace-id: <trace_id>`.

use vstd::prelude::*;
use crate::access_log::hex_digit;
use crate::security_headers::header_views;
use crate::text::{
    all_hex_range, ascii_lower, chars_of, is_ascii_hexdigit, str_bytes, lemma_ascii_lower_noop,
    lemma_split_on_concat, lemma_split_on_no_sep, lemma_trim_noop, lower_string, push_str,
    range_eq, range_views, split_on, split_ranges, trim, trim_bounds,
};

verus! {

/// The `version` field this service understands and emits.
pub const VERSION: &'static str = "00";

/// The `trace-flags` field this service emits: sampled.
pub const FLAGS: &'static str = "01";

/// Every character is an ASCII hex digit.
pub open spec fn all_hex(s: Seq<char>) -> bool {
    forall|i: int| 0 <= i < s.len() ==> is_ascii_hexdigit(#[trigger] s[i])
}

/// Every character is `0` (the reserved, invalid trace id).
pub open spec fn all_zero(s: Seq<char>) -> bool {
    forall|i: int| 0 <= i < s.len() ==> #[trigger] s[i] == '0'
}

/// The lowercased trace id of a well-formed `traceparent` header value,
/// `None` for anything else: after trimming, exactly four `-`-separated
/// fields, version `00`, a 32-hex-digit trace id that is not all
/// zeros, a 16-hex-digit span id and 2 hex digits of flags.
pub open spec fn trace_id_of(raw: Seq<char>) -> Option<Seq<char>> {
    let parts = split_on(trim(raw), '-');
    if parts.len() == 4 && parts[0] == VERSION@ && parts[1].len() == 32 && all_hex(parts[1])
        && parts[2].len() == 16 && all_hex(parts[2]) && parts[3].len() == 2 && all_hex(parts[3])
        && !all_zero(parts[1]) {
        Some(ascii_lower(parts[1]))
    } else {
        None
    }
}

/// Extract the 32-hex trace id from an inbound `traceparent`
/// header. Returns `None` when the header is malformed, the version
/// is unsupported, or the trace id is all-zeros (reserved).
pub fn parse_trace_id(raw: &str) -> (r: Option<String>)
    ensures
        match r {
            Some(t) => trace_id_of(raw@) == Some(t@),
            None => trace_id_of(raw@) is None,
        },
{
    let cs = chars_of(raw);
    let (a, b) = trim_bounds(&cs, 0, cs.len());
    assert(cs@.subrange(0, cs@.len() as int) =~= cs@);
    let parts = split_ranges(&cs, a, b, '-');
    let ghost views = range_views(cs@, parts@);
    if parts.len() != 4 {
        return None;
    }
    assert(views[0] == cs@.subrange(parts@[0].0 as int, parts@[0].1 as int));
    assert(views[1] == cs@.subrange(parts@[1].0 as int, parts@[1].1 as int));
    assert(views[2] == cs@.subrange(parts@[2].0 as int, parts@[2].1 as int));
    assert(views[3] == cs@.subrange(parts@[3].0 as int, parts@[3].1 as int));
    let version = chars_of(VERSION);
    let (v0, v1) = parts[0];
    let (t0, t1) = parts[1];
    let (s0, s1) = parts[2];
    let (f0, f1) = parts[3];
    if !range_eq(&cs, v0, v1, &version) {
        return None;
    }
    if t1 - t0 != 32 || s1 - s0 != 16 || !all_hex_range(&cs, t0, t1) || !all_hex_range(
        &cs,
        s0,
        s1,
    ) {
        return None;
    }
    if f1 - f0 != 2 || !all_hex_range(&cs, f0, f1) {
        return None;
    }
    if all_zero_range(&cs, t0, t1) {
        return None;
    }
    Some(lower_string(&cs, t0, t1))
}

fn all_zero_range(cs: &Vec<char>, lo: usize, hi: usize) -> (b: bool)
    requires
        lo <= hi <= cs.len(),
    ensures
        b == all_zero(cs@.subrange(lo as int, hi as int)),
{
    let mut k = lo;
    while k < hi
        invariant
            lo <= k <= hi <= cs.len(),
            forall|m: int| lo <= m < k ==> #[trigger] cs@[m] == '0',
        decreases hi - k,
    {
        if cs[k] != '0' {
            assert(cs@.subrange(lo as int, hi as int)[k - lo] != '0');
            return false;
        }
        k += 1;
    }
    assert forall|i: int| 0 <= i < hi - lo implies #[trigger] cs@.subrange(lo as int, hi as int)[i]
        == '0' by {
        assert(cs@.subrange(lo as int, hi as int)[i] == cs@[lo + i]);
    }
    true
}

/// A lowercase hexadecimal digit (what `{:x}`-style formatting emits).
pub open spec fn is_lower_hex(c: char) -> bool {
    ('0' <= c && c <= '9') || ('a' <= c && c <= 'f')
}

pub open spec fn all_lower_hex(s: Seq<char>) -> bool {
    forall|i: int| 0 <= i < s.len() ==> is_lower_hex(#[trigger] s[i])
}

/// 16 bytes from the operating system's random source
/// (`getrandom::fill`), or `None` when that source fails.
#[verifier::external_body]
fn random_bytes() -> (r: Option<[u8; 16]>) {
    let mut bytes = [0u8; 16];
    match getrandom::fill(&mut bytes) {
        Ok(()) => Some(bytes),
        Err(_) => None,
    }
}

/// The bytes of the version-4 UUID built from random bytes `b`: the
/// version nibble of byte 6 set to 4, the variant bits of byte 8 to `10`.
pub open spec fn uuid_v4_bytes(b: Seq<u8>) -> Seq<u8> {
    b.update(6, (b[6] & 0x0f) | 0x40).update(8, (b[8] & 0x3f) | 0x80)
}

/// Each byte as two lowercase hex digits, high nibble first.
pub open spec fn byte_hex(b: Seq<u8>) -> Seq<char>
    decreases b.len(),
{
    if b.len() == 0 {
        Seq::empty()
    } else {
        byte_hex(b.drop_last()) + seq![
            hex_digit((b.last() / 16) as nat),
            hex_digit((b.last() % 16) as nat),
        ]
    }
}

proof fn lemma_hex_digit_lower(d: nat)
    requires
        d < 16,
    ensures
        is_lower_hex(hex_digit(d)),
{
    if d < 10 {
        assert(hex_digit(d) as u32 == d + 48);
    } else {
        assert(hex_digit(d) as u32 == d + 87);
    }
}

proof fn lemma_byte_hex(b: Seq<u8>)
    ensures
        byte_hex(b).len() == 2 * b.len(),
        all_lower_hex(byte_hex(b)),
        forall|k: int|
            0 <= k < b.len() ==> #[trigger] byte_hex(b)[2 * k] == hex_digit((b[k] / 16) as nat),
    decreases b.len(),
{
    if b.len() > 0 {
        let init = b.drop_last();
        lemma_byte_hex(init);
        let x = b.last();
        lemma_hex_digit_lower((x / 16) as nat);
        lemma_hex_digit_lower((x % 16) as nat);
        let h = byte_hex(b);
        assert(h == byte_hex(init) + seq![hex_digit((x / 16) as nat), hex_digit((x % 16) as nat)]);
        assert forall|i: int| 0 <= i < h.len() implies is_lower_hex(#[trigger] h[i]) by {
            if i < byte_hex(init).len() {
                assert(h[i] == byte_hex(init)[i]);
            }
        }
        assert forall|k: int| 0 <= k < b.len() implies #[trigger] h[2 * k] == hex_digit(
            (b[k] / 16) as nat,
        ) by {
            if k < init.len() {
                assert(h[2 * k] == byte_hex(init)[2 * k]);
                assert(init[k] == b[k]);
            }
        }
    }
}

/// The simple text (32 lowercase hex digits) of the version-4 UUID
/// built from `bytes` (`uuid::Builder::from_random_bytes`).
#[verifier::external_body]
fn uuid_v4_simple(bytes: [u8; 16]) -> (r: String)
    ensures
        r@ == byte_hex(uuid_v4_bytes(bytes@)),
{
    uuid::Builder::from_random_bytes(bytes).into_uuid().simple().to_string()
}

/// The UUID text is 32 lowercase hex digits whose index 12, the
/// version digit, is `4`.
proof fn lemma_uuid_v4_text(bytes: Seq<u8>)
    requires
        bytes.len() == 16,
    ensures
        byte_hex(uuid_v4_bytes(bytes)).len() == 32,
        all_lower_hex(byte_hex(uuid_v4_bytes(bytes))),
        byte_hex(uuid_v4_bytes(bytes))[12] == '4',
{
    let v = uuid_v4_bytes(bytes);
    lemma_byte_hex(v);
    let x = bytes[6];
    assert(((x & 0x0f) | 0x40) / 16 == 4) by (bit_vector);
    assert(v[6] == (x & 0x0f) | 0x40);
    assert(byte_hex(v)[2 * 6int] == hex_digit((v[6] / 16) as nat));
    assert(hex_digit(4) == '4');
}

/// A fresh 32-hex-digit trace id (a random UUID v4), or `None` when no
/// random bytes are available.
pub fn fresh_trace_id() -> (r: Option<String>)
    ensures
        r matches Some(t) ==> t@.len() == 32 && all_lower_hex(t@) && !all_zero(t@) && t@[12]
            == '4',
{
    match random_bytes() {
        Some(b) => {
            let r = uuid_v4_simple(b);
            proof {
                lemma_uuid_v4_text(b@);
            }
            assert(r@[12] != '0');
            Some(r)
        },
        None => None,
    }
}

/// The span id taken from a drawn UUID in simple form: its first 16
/// characters (all of it when shorter).
pub fn span_id_of(uuid_simple: &str) -> (r: String)
    ensures
        r@ == if uuid_simple@.len() >= 16 {
            uuid_simple@.take(16)
        } else {
            uuid_simple@
        },
{
    let cs = chars_of(uuid_simple);
    let n: usize = if cs.len() >= 16 {
        16
    } else {
        cs.len()
    };
    let mut r = String::new();
    let mut k: usize = 0;
    while k < n
        invariant
            k <= n <= cs@.len(),
            cs@ == uuid_simple@,
            r@ == cs@.take(k as int),
        decreases n - k,
    {
        r.push(cs[k]);
        k += 1;
        assert(cs@.take(k as int) =~= cs@.take(k - 1).push(cs@[k - 1]));
    }
    assert(cs@.take(cs@.len() as int) =~= cs@);
    r
}

/// A fresh 16-hex-digit span id: the first half of a random UUID v4,
/// or `None` when no random bytes are available.
pub fn fresh_span_id() -> (r: Option<String>)
    ensures
        r matches Some(t) ==> t@.len() == 16 && all_lower_hex(t@) && t@[12] == '4',
{
    match random_bytes() {
        Some(b) => {
            let u = uuid_v4_simple(b);
            proof {
                lemma_uuid_v4_text(b@);
            }
            let r = span_id_of(u.as_str());
            assert forall|i: int| 0 <= i < r@.len() implies is_lower_hex(#[trigger] r@[i]) by {
                assert(r@[i] == u@[i]);
            }
            assert(r@[12] == u@[12]);
            Some(r)
        },
        None => None,
    }
}

/// The `traceparent` value this service emits.
pub open spec fn traceparent_text(trace_id: Seq<char>, span_id: Seq<char>) -> Seq<char> {
    VERSION@ + "-"@ + trace_id + "-"@ + span_id + "-"@ + FLAGS@
}

/// `00-<trace_id>-<span_id>-01`.
pub fn traceparent_value(trace_id: &str, span_id: &str) -> (r: String)
    ensures
        r@ == traceparent_text(trace_id@, span_id@),
{
    let mut r = String::new();
    push_str(&mut r, VERSION);
    push_str(&mut r, "-");
    push_str(&mut r, trace_id);
    push_str(&mut r, "-");
    push_str(&mut r, span_id);
    push_str(&mut r, "-");
    push_str(&mut r, FLAGS);
    r
}

/// The trace headers of one response.
pub struct TraceHeaders {
    /// Value of `x-trace-id`.
    pub trace_id: String,
    /// Value of `traceparent`.
    pub traceparent: String,
}

/// Trace headers for a response to a request whose `traceparent`
/// header (when present and readable) is `inbound`: its trace id when
/// well formed, otherwise a fresh one; always a fresh span id. `None`
/// when a fresh id was needed and no random bytes were available: the
/// response then goes out without trace headers.
pub fn response_trace_headers(inbound: Option<&str>) -> (h: Option<TraceHeaders>)
    ensures
        h matches Some(x) ==> ((inbound matches Some(raw) && trace_id_of(raw@) is Some)
            ==> x.trace_id@ == trace_id_of(inbound->0@)->0),
        h matches Some(x) ==> (!(inbound matches Some(raw) && trace_id_of(raw@) is Some)
            ==> x.trace_id@.len() == 32 && all_lower_hex(x.trace_id@) && !all_zero(x.trace_id@)),
        h matches Some(x) ==> exists|span: Seq<char>|
            span.len() == 16 && all_lower_hex(span) && x.traceparent@ == traceparent_text(
                x.trace_id@,
                span,
            ),
        h matches Some(x) ==> trace_id_of(x.traceparent@) == Some(x.trace_id@),
{
    let inherited = match inbound {
        Some(raw) => parse_trace_id(raw),
        None => None,
    };
    let trace_id = match inherited {
        Some(t) => t,
        None => match fresh_trace_id() {
            Some(t) => t,
            None => {
                return None;
            },
        },
    };
    let span_id = match fresh_span_id() {
        Some(s) => s,
        None => {
            return None;
        },
    };
    let traceparent = traceparent_value(trace_id.as_str(), span_id.as_str());
    proof {
        if let Some(raw) = inbound {
            lemma_trace_id_of_lower_hex(raw@);
        }
        assert(all_hex(span_id@)) by {
            assert forall|i: int| 0 <= i < span_id@.len() implies is_ascii_hexdigit(
                #[trigger] span_id@[i],
            ) by {
                assert(is_lower_hex(span_id@[i]));
            }
        }
        lemma_traceparent_roundtrip(trace_id@, span_id@);
    }
    Some(TraceHeaders { trace_id, traceparent })
}

/// The flags field only has to be two hex digits: whatever the
/// version, trace id and span id fields hold, a header with any two-hex
/// flags (`00`, unsampled, included) reads exactly like the same
/// header with flags `01`.
pub proof fn lemma_flags_do_not_matter(trace_id: Seq<char>, span_id: Seq<char>, flags: Seq<char>)
    requires
        flags.len() == 2,
        is_ascii_hexdigit(flags[0]),
        is_ascii_hexdigit(flags[1]),
    ensures
        trace_id_of("00-"@ + trace_id + "-"@ + span_id + "-"@ + flags) == trace_id_of(
            "00-"@ + trace_id + "-"@ + span_id + "-"@ + "01"@,
        ),
{
    reveal_strlit("00-");
    reveal_strlit("-");
    reveal_strlit("01");
    let head = "00-"@ + trace_id + "-"@ + span_id;
    let one = "01"@;
    let x = head + "-"@ + flags;
    let y = head + "-"@ + one;
    assert(x =~= head + seq!['-'] + flags);
    assert(y =~= head + seq!['-'] + one);
    assert(x[0] == '0' && y[0] == '0');
    assert(x.last() == flags[1] && y.last() == '1');
    lemma_trim_noop(x);
    lemma_trim_noop(y);
    lemma_split_on_concat(head, flags, '-');
    lemma_split_on_concat(head, one, '-');
    lemma_split_on_no_sep(flags, '-');
    lemma_split_on_no_sep(one, '-');
    let p = split_on(head, '-');
    let px = split_on(trim(x), '-');
    let py = split_on(trim(y), '-');
    assert(px == p + seq![flags]);
    assert(py == p + seq![one]);
    assert(all_hex(flags));
    assert(all_hex(one));
    if px.len() == 4 {
        assert(px[0] == py[0] && px[1] == py[1] && px[2] == py[2]);
    }
}

/// A trace id read from an inbound header is normalised: 32 lowercase
/// hex digits, not all zero.
pub proof fn lemma_trace_id_of_lower_hex(raw: Seq<char>)
    ensures
        trace_id_of(raw) matches Some(t) ==> t.len() == 32 && all_lower_hex(t) && !all_zero(t),
{
    let parts = split_on(trim(raw), '-');
    if trace_id_of(raw) is Some {
        let p = parts[1];
        let t = ascii_lower(p);
        assert forall|i: int| 0 <= i < t.len() implies is_lower_hex(#[trigger] t[i]) by {
            let c = p[i];
            assert(is_ascii_hexdigit(c));
            if 'A' <= c && c <= 'F' {
                assert(('A' as u32) <= (c as u32) <= ('F' as u32));
                assert(('a' as u32) <= (c as u32) + 32 <= ('f' as u32));
            }
        }
        let k = choose|k: int| 0 <= k < p.len() && p[k] != '0';
        assert(t[k] != '0') by {
            let c = p[k];
            if 'A' <= c && c <= 'Z' {
                assert((c as u32) + 32 != ('0' as u32));
            }
        }
    }
}


/// The `traceparent` this service emits is well formed and carries its
/// trace id: reading it back yields the same trace id, for every
/// lowercase non-zero 32-digit trace id and every 16-hex-digit span id.
pub proof fn lemma_traceparent_roundtrip(trace_id: Seq<char>, span_id: Seq<char>)
    requires
        trace_id.len() == 32,
        all_lower_hex(trace_id),
        !all_zero(trace_id),
        span_id.len() == 16,
        all_hex(span_id),
    ensures
        trace_id_of(traceparent_text(trace_id, span_id)) == Some(trace_id),
{
    reveal_strlit("00");
    reveal_strlit("-");
    reveal_strlit("01");
    let v = VERSION@;
    let f = FLAGS@;
    let text = traceparent_text(trace_id, span_id);
    assert(text =~= v + seq!['-'] + (trace_id + seq!['-'] + (span_id + seq!['-'] + f)));
    lemma_split_on_concat(v, trace_id + seq!['-'] + (span_id + seq!['-'] + f), '-');
    lemma_split_on_concat(trace_id, span_id + seq!['-'] + f, '-');
    lemma_split_on_concat(span_id, f, '-');
    lemma_split_on_no_sep(v, '-');
    lemma_split_on_no_sep(f, '-');
    assert forall|i: int| 0 <= i < trace_id.len() implies #[trigger] trace_id[i] != '-' by {
        assert(is_lower_hex(trace_id[i]));
    }
    assert forall|i: int| 0 <= i < span_id.len() implies #[trigger] span_id[i] != '-' by {
        assert(is_ascii_hexdigit(span_id[i]));
    }
    lemma_split_on_no_sep(trace_id, '-');
    lemma_split_on_no_sep(span_id, '-');
    lemma_trim_noop(text);
    let parts = split_on(trim(text), '-');
    assert(parts =~= seq![v, trace_id, span_id, f]);
    assert(all_hex(trace_id)) by {
        assert forall|i: int| 0 <= i < trace_id.len() implies is_ascii_hexdigit(
            #[trigger] trace_id[i],
        ) by {
            assert(is_lower_hex(trace_id[i]));
        }
    }
    assert(f.len() == 2 && all_hex(f));
    assert forall|i: int| 0 <= i < trace_id.len() implies !('A' <= #[trigger] trace_id[i]
        && trace_id[i] <= 'Z') by {
        assert(is_lower_hex(trace_id[i]));
    }
    lemma_ascii_lower_noop(trace_id);
}

/// One of the two headers whose values this service owns.
pub open spec fn is_trace_header(name: Seq<char>) -> bool {
    name == "traceparent"@ || name == "x-trace-id"@
}

/// The headers other than the trace headers, in order.
pub open spec fn without_trace_headers(h: Seq<(Seq<char>, Seq<u8>)>) -> Seq<(Seq<char>, Seq<u8>)>
    decreases h.len(),
{
    if h.len() == 0 {
        Seq::empty()
    } else {
        let init = without_trace_headers(h.drop_last());
        if is_trace_header(h.last().0) {
            init
        } else {
            init.push(h.last())
        }
    }
}

/// The response headers with the trace headers set: every other header
/// kept in order, any handler-set trace header replaced by this
/// service's `traceparent` and `x-trace-id`.
pub open spec fn traced(h: Seq<(Seq<char>, Seq<u8>)>, traceparent: Seq<char>, trace_id: Seq<char>) -> Seq<
    (Seq<char>, Seq<u8>),
> {
    without_trace_headers(h) + seq![
        ("traceparent"@, vstd::utf8::encode_utf8(traceparent)),
        ("x-trace-id"@, vstd::utf8::encode_utf8(trace_id)),
    ]
}

fn name_is(name: &String, lit: &str) -> (b: bool)
    ensures
        b == (name@ == lit@),
{
    let a = chars_of(name.as_str());
    let l = chars_of(lit);
    assert(a@.subrange(0, a@.len() as int) =~= a@);
    range_eq(&a, 0, a.len(), &l)
}

/// The headers of a response with the trace headers set (see [`traced`]).
pub fn with_trace_headers(headers: Vec<(String, Vec<u8>)>, trace: &TraceHeaders) -> (r: Vec<
    (String, Vec<u8>),
>)
    ensures
        header_views(r@) == traced(header_views(headers@), trace.traceparent@, trace.trace_id@),
{
    let ghost hv = header_views(headers@);
    let mut kept: Vec<(String, Vec<u8>)> = Vec::new();
    let mut i: usize = 0;
    while i < headers.len()
        invariant
            i <= headers@.len(),
            hv == header_views(headers@),
            header_views(kept@) == without_trace_headers(hv.take(i as int)),
        decreases headers@.len() - i,
    {
        let ghost before = kept@;
        assert(hv.take(i + 1).drop_last() =~= hv.take(i as int));
        assert(hv.take(i + 1).last() == hv[i as int]);
        let owned = name_is(&headers[i].0, "traceparent") || name_is(&headers[i].0, "x-trace-id");
        if !owned {
            kept.push((headers[i].0.clone(), headers[i].1.clone()));
            assert(header_views(kept@) =~= header_views(before).push(hv[i as int]));
        }
        i += 1;
    }
    assert(hv.take(headers@.len() as int) =~= hv);
    let ghost mid = kept@;
    kept.push((String::from_str("traceparent"), str_bytes(trace.traceparent.as_str())));
    kept.push((String::from_str("x-trace-id"), str_bytes(trace.trace_id.as_str())));
    assert(header_views(kept@) =~= header_views(mid).push(
        ("traceparent"@, vstd::utf8::encode_utf8(trace.traceparent@)),
    ).push(("x-trace-id"@, vstd::utf8::encode_utf8(trace.trace_id@))));
    kept
}

proof fn lemma_without_trace_headers(h: Seq<(Seq<char>, Seq<u8>)>)
    ensures
        forall|j: int|
            0 <= j < without_trace_headers(h).len() ==> h.contains(
                #[trigger] without_trace_headers(h)[j],
            ) && !is_trace_header(without_trace_headers(h)[j].0),
        forall|i: int|
            0 <= i < h.len() && !is_trace_header(#[trigger] h[i].0) ==> without_trace_headers(
                h,
            ).contains(h[i]),
    decreases h.len(),
{
    if h.len() > 0 {
        let init = h.drop_last();
        lemma_without_trace_headers(init);
        let w0 = without_trace_headers(init);
        let w = without_trace_headers(h);
        assert forall|j: int| 0 <= j < w.len() implies h.contains(#[trigger] w[j])
            && !is_trace_header(w[j].0) by {
            if j < w0.len() {
                assert(w[j] == w0[j]);
                assert(init.contains(w0[j]));
                let k = choose|k: int| 0 <= k < init.len() && init[k] == w0[j];
                assert(h[k] == init[k]);
            } else {
                assert(w[j] == h.last());
                assert(h[h.len() - 1] == h.last());
            }
        }
        assert forall|i: int| 0 <= i < h.len() && !is_trace_header(#[trigger] h[i].0) implies w.contains(
            h[i],
        ) by {
            if i < h.len() - 1 {
                assert(h[i] == init[i]);
                assert(w0.contains(init[i]));
                let j = choose|j: int| 0 <= j < w0.len() && w0[j] == init[i];
                assert(w[j] == w0[j]);
            } else {
                assert(w[w.len() - 1] == h.last());
            }
        }
    }
}

/// Setting the trace headers touches nothing else: every header the
/// handler set under another name stays on the response with its value,
/// no other header appears, and the response ends with exactly one
/// `traceparent` and one `x-trace-id` carrying this service's values.
pub proof fn lemma_trace_merge(h: Seq<(Seq<char>, Seq<u8>)>, traceparent: Seq<char>, trace_id: Seq<char>)
    ensures
        forall|i: int|
            0 <= i < h.len() && !is_trace_header(#[trigger] h[i].0) ==> traced(
                h,
                traceparent,
                trace_id,
            ).contains(h[i]),
        forall|j: int|
            0 <= j < traced(h, traceparent, trace_id).len() - 2 ==> h.contains(
                #[trigger] traced(h, traceparent, trace_id)[j],
            ) && !is_trace_header(traced(h, traceparent, trace_id)[j].0),
        traced(h, traceparent, trace_id).len() >= 2,
        traced(h, traceparent, trace_id)[traced(h, traceparent, trace_id).len() - 2] == (
            "traceparent"@,
            vstd::utf8::encode_utf8(traceparent),
        ),
        traced(h, traceparent, trace_id).last() == ("x-trace-id"@, vstd::utf8::encode_utf8(trace_id)),
{
    lemma_without_trace_headers(h);
    let w = without_trace_headers(h);
    let t = traced(h, traceparent, trace_id);
    assert forall|i: int| 0 <= i < h.len() && !is_trace_header(#[trigger] h[i].0) implies t.contains(
        h[i],
    ) by {
        assert(w.contains(h[i]));
        let j = choose|j: int| 0 <= j < w.len() && w[j] == h[i];
        assert(t[j] == w[j]);
    }
    assert forall|j: int| 0 <= j < t.len() - 2 implies h.contains(#[trigger] t[j]) && !is_trace_header(
        t[j].0,
    ) by {
        assert(t[j] == w[j]);
    }
}

} // verus!
