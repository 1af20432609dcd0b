//! Default security response headers.
//!
//! Every response, error paths included, carries five headers that
//! harden the browser rendering surface. A header the handler already
//! set is never overwritten.

use vstd::prelude::*;
use crate::text::{chars_of, range_eq, str_bytes};

verus! {

/// The five defaults, as `(name, value)`.
pub open spec fn default_headers() -> Seq<(Seq<char>, Seq<char>)> {
    seq![
        ("content-security-policy"@, "default-src 'none'; frame-ancestors 'none'"@),
        ("strict-transport-security"@, "max-age=63072000; includeSubDomains; preload"@),
        ("x-frame-options"@, "DENY"@),
        ("x-content-type-options"@, "nosniff"@),
        ("referrer-policy"@, "no-referrer"@),
    ]
}

pub open spec fn pair_views(v: Seq<(&'static str, &'static str)>) -> Seq<(Seq<char>, Seq<char>)> {
    v.map_values(|p: (&'static str, &'static str)| (p.0@, p.1@))
}

/// The five default security headers.
pub fn security_header_defaults() -> (v: Vec<(&'static str, &'static str)>)
    ensures
        pair_views(v@) == default_headers(),
{
    let v = vec![
        ("content-security-policy", "default-src 'none'; frame-ancestors 'none'"),
        ("strict-transport-security", "max-age=63072000; includeSubDomains; preload"),
        ("x-frame-options", "DENY"),
        ("x-content-type-options", "nosniff"),
        ("referrer-policy", "no-referrer"),
    ];
    assert(pair_views(v@) =~= default_headers());
    v
}

/// The defaults among `headers` whose name is not in `present`, in order.
pub open spec fn missing_from(headers: Seq<(Seq<char>, Seq<char>)>, present: Seq<Seq<char>>) -> Seq<
    (Seq<char>, Seq<char>),
>
    decreases headers.len(),
{
    if headers.len() == 0 {
        Seq::empty()
    } else {
        let init = missing_from(headers.drop_last(), present);
        if present.contains(headers.last().0) {
            init
        } else {
            init.push(headers.last())
        }
    }
}

fn name_present(present: &[String], name: &str) -> (b: bool)
    ensures
        b == present@.map_values(|s: String| s@).contains(name@),
{
    let n = chars_of(name);
    let ghost pv = present@.map_values(|s: String| s@);
    let mut i: usize = 0;
    while i < present.len()
        invariant
            i <= present@.len(),
            pv == present@.map_values(|s: String| s@),
            n@ == name@,
            forall|k: int| 0 <= k < i ==> #[trigger] pv[k] != name@,
        decreases present@.len() - i,
    {
        let c = chars_of(present[i].as_str());
        assert(c@.subrange(0, c@.len() as int) =~= c@);
        if range_eq(&c, 0, c.len(), &n) {
            assert(pv[i as int] == name@);
            return true;
        }
        i += 1;
    }
    false
}

/// The default headers to add to a response whose header names
/// (lowercase) are `present`: those not already set, in default order.
pub fn missing_security_headers(present: &[String]) -> (v: Vec<(&'static str, &'static str)>)
    ensures
        pair_views(v@) == missing_from(default_headers(), present@.map_values(|s: String| s@)),
{
    let defaults = security_header_defaults();
    let ghost pv = present@.map_values(|s: String| s@);
    let mut out: Vec<(&'static str, &'static str)> = Vec::new();
    let mut i: usize = 0;
    while i < defaults.len()
        invariant
            i <= defaults@.len(),
            pair_views(defaults@) == default_headers(),
            pv == present@.map_values(|s: String| s@),
            pair_views(out@) == missing_from(pair_views(defaults@).take(i as int), pv),
        decreases defaults@.len() - i,
    {
        let ghost before = out@;
        let (name, value) = defaults[i];
        assert(pair_views(defaults@).take(i + 1).drop_last() =~= pair_views(defaults@).take(
            i as int,
        ));
        assert(pair_views(defaults@).take(i + 1).last() == (name@, value@));
        if !name_present(present, name) {
            out.push((name, value));
            assert(pair_views(out@) =~= pair_views(before).push((name@, value@)));
        }
        i += 1;
    }
    assert(pair_views(defaults@).take(defaults@.len() as int) =~= pair_views(defaults@));
    out
}

/// Each header is either named in `present` or kept; each kept header
/// comes from `headers` and is not named in `present`.
proof fn lemma_missing_from(headers: Seq<(Seq<char>, Seq<char>)>, present: Seq<Seq<char>>)
    ensures
        forall|k: int|
            0 <= k < headers.len() ==> present.contains(#[trigger] headers[k].0) || missing_from(
                headers,
                present,
            ).contains(headers[k]),
        forall|j: int|
            0 <= j < missing_from(headers, present).len() ==> !present.contains(
                (#[trigger] missing_from(headers, present)[j]).0,
            ) && headers.contains(missing_from(headers, present)[j]),
    decreases headers.len(),
{
    if headers.len() > 0 {
        let init = headers.drop_last();
        lemma_missing_from(init, present);
        let m0 = missing_from(init, present);
        let m = missing_from(headers, present);
        assert forall|k: int| 0 <= k < headers.len() implies present.contains(
            #[trigger] headers[k].0,
        ) || m.contains(headers[k]) by {
            if k < headers.len() - 1 {
                assert(headers[k] == init[k]);
                if m0.contains(init[k]) {
                    let j = choose|j: int| 0 <= j < m0.len() && m0[j] == init[k];
                    assert(m[j] == m0[j]);
                }
            } else if !present.contains(headers.last().0) {
                assert(m[m.len() - 1] == headers.last());
            }
        }
        assert forall|j: int| 0 <= j < m.len() implies !present.contains((#[trigger] m[j]).0)
            && headers.contains(m[j]) by {
            if j < m0.len() {
                assert(m[j] == m0[j]);
                assert(!present.contains(m0[j].0));
                assert(init.contains(m0[j]));
                let k = choose|k: int| 0 <= k < init.len() && init[k] == m0[j];
                assert(headers[k] == init[k]);
            } else {
                assert(m[j] == headers[headers.len() - 1]);
            }
        }
    }
}

/// Every response ends up with all five default security headers:
/// each default is either already set by the handler (its name is in
/// `present`) or among the headers added. A header the handler set is
/// never added again, so a handler-set value is never overwritten.
pub proof fn lemma_security_headers_complete(present: Seq<Seq<char>>)
    ensures
        forall|k: int|
            0 <= k < default_headers().len() ==> present.contains(
                #[trigger] default_headers()[k].0,
            ) || missing_from(default_headers(), present).contains(default_headers()[k]),
        forall|j: int|
            0 <= j < missing_from(default_headers(), present).len() ==> !present.contains(
                (#[trigger] missing_from(default_headers(), present)[j]).0,
            ) && default_headers().contains(missing_from(default_headers(), present)[j]),
{
    lemma_missing_from(default_headers(), present);
}

/// Response headers as `(lowercase name, value bytes)`.
pub open spec fn header_views(h: Seq<(String, Vec<u8>)>) -> Seq<(Seq<char>, Seq<u8>)> {
    h.map_values(|p: (String, Vec<u8>)| (p.0@, p.1@))
}

/// The names of the headers, in order.
pub open spec fn header_names(h: Seq<(Seq<char>, Seq<u8>)>) -> Seq<Seq<char>> {
    h.map_values(|p: (Seq<char>, Seq<u8>)| p.0)
}

/// Header pairs with their values as UTF-8 bytes.
pub open spec fn as_byte_values(d: Seq<(Seq<char>, Seq<char>)>) -> Seq<(Seq<char>, Seq<u8>)> {
    d.map_values(|p: (Seq<char>, Seq<char>)| (p.0, vstd::utf8::encode_utf8(p.1)))
}

/// The response headers after the security defaults: every header as
/// the handler set it, then each default whose name the handler did
/// not set.
pub open spec fn secured(h: Seq<(Seq<char>, Seq<u8>)>) -> Seq<(Seq<char>, Seq<u8>)> {
    h + as_byte_values(missing_from(default_headers(), header_names(h)))
}

/// The headers of a response with the security defaults merged in:
/// the handler's headers unchanged and in order, then the defaults it
/// did not set.
pub fn with_security_headers(headers: Vec<(String, Vec<u8>)>) -> (r: Vec<(String, Vec<u8>)>)
    ensures
        header_views(r@) == secured(header_views(headers@)),
{
    let ghost hv = header_views(headers@);
    let mut names: Vec<String> = Vec::new();
    let mut i: usize = 0;
    while i < headers.len()
        invariant
            i <= headers@.len(),
            hv == header_views(headers@),
            names@.map_values(|s: String| s@) == header_names(hv).take(i as int),
        decreases headers@.len() - i,
    {
        let ghost before = names@;
        let n = headers[i].0.clone();
        names.push(n);
        assert(names@.map_values(|s: String| s@) =~= before.map_values(|s: String| s@).push(
            hv[i as int].0,
        ));
        assert(header_names(hv).take(i + 1) =~= header_names(hv).take(i as int).push(hv[i as int].0));
        i += 1;
    }
    assert(header_names(hv).take(headers@.len() as int) =~= header_names(hv));
    let add = missing_security_headers(&names);
    let ghost extra = as_byte_values(missing_from(default_headers(), header_names(hv)));
    assert(extra =~= as_byte_values(pair_views(add@)));
    let mut r = headers;
    let mut k: usize = 0;
    while k < add.len()
        invariant
            k <= add@.len(),
            extra == as_byte_values(pair_views(add@)),
            header_views(r@) == hv + extra.take(k as int),
        decreases add@.len() - k,
    {
        let ghost before = r@;
        let (name, value) = add[k];
        r.push((String::from_str(name), str_bytes(value)));
        assert(header_views(r@) =~= header_views(before).push((name@, vstd::utf8::encode_utf8(value@))));
        assert(extra.take(k + 1) =~= extra.take(k as int).push(extra[k as int]));
        k += 1;
    }
    assert(extra.take(add@.len() as int) =~= extra);
    r
}

/// Merging the defaults keeps the handler's headers exactly (same
/// names, values and order, nothing removed) and leaves every default
/// name set on the response; only defaults the handler did not set are
/// added, with their default values.
pub proof fn lemma_security_merge(h: Seq<(Seq<char>, Seq<u8>)>)
    ensures
        secured(h).take(h.len() as int) == h,
        forall|k: int|
            0 <= k < default_headers().len() ==> header_names(secured(h)).contains(
                #[trigger] default_headers()[k].0,
            ),
        forall|j: int|
            h.len() <= j < secured(h).len() ==> !header_names(h).contains(
                (#[trigger] secured(h)[j]).0,
            ) && as_byte_values(default_headers()).contains(secured(h)[j]),
{
    let names = header_names(h);
    let m = missing_from(default_headers(), names);
    let s = secured(h);
    lemma_security_headers_complete(names);
    assert(s.take(h.len() as int) =~= h);
    assert forall|k: int| 0 <= k < default_headers().len() implies header_names(s).contains(
        #[trigger] default_headers()[k].0,
    ) by {
        let d = default_headers()[k];
        if names.contains(d.0) {
            let i = choose|i: int| 0 <= i < names.len() && names[i] == d.0;
            assert(header_names(s)[i] == d.0);
        } else {
            assert(m.contains(d));
            let j = choose|j: int| 0 <= j < m.len() && m[j] == d;
            assert(header_names(s)[h.len() + j] == d.0);
        }
    }
    assert forall|j: int| h.len() <= j < s.len() implies !names.contains((#[trigger] s[j]).0)
        && as_byte_values(default_headers()).contains(s[j]) by {
        let t = j - h.len();
        assert(s[j] == as_byte_values(m)[t]);
        assert(!names.contains((m[t]).0) && default_headers().contains(m[t]));
        let k = choose|k: int| 0 <= k < default_headers().len() && default_headers()[k] == m[t];
        assert(as_byte_values(default_headers())[k] == s[j]);
    }
}

} // verus!
