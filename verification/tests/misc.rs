use datamapper::access_log::{fallback_trace_id, inbound_trace_id};
use datamapper::helpers::{len_of, LenArg};
use datamapper::security_headers::{
    missing_security_headers, security_header_defaults, with_security_headers,
};

#[test]
fn inherits_trace_id_from_valid_traceparent() {
    assert_eq!(
        inbound_trace_id("00-0af7651916cd43dd8448eb211c80319c-b7ad6b7169203331-01").as_deref(),
        Some("0af7651916cd43dd8448eb211c80319c")
    );
    assert_eq!(
        inbound_trace_id(" 00-0AF7651916CD43DD8448EB211C80319C-b7ad6b7169203331-01 ").as_deref(),
        Some("0af7651916cd43dd8448eb211c80319c")
    );
    assert_eq!(inbound_trace_id("ff-0af7651916cd43dd8448eb211c80319c-b7ad6b7169203331-01"), None);
    assert_eq!(inbound_trace_id("00-short-b7ad6b7169203331-01"), None);
    assert_eq!(inbound_trace_id(""), None);
}

#[test]
fn generates_fresh_id_when_traceparent_absent() {
    let tp = fallback_trace_id(0x1234, 1);
    assert_eq!(tp.len(), 16);
    assert!(tp.chars().all(|c| c.is_ascii_hexdigit()));
    assert_eq!(tp, "0000000000001235");
    assert_eq!(fallback_trace_id(u64::MAX, 2), "0000000000000001");
    assert_eq!(fallback_trace_id(0xdeadbeef, 0), format!("{:016x}", 0xdeadbeefu64));
}

#[test]
fn fresh_ids_are_distinct_across_calls() {
    let t1 = fallback_trace_id(1_000_000, 0);
    let t2 = fallback_trace_id(1_000_000, 1);
    assert_ne!(t1, t2, "successive calls must produce distinct ids");
}

#[test]
fn u9_security_headers_defaults_are_pinned() {
    let h = security_header_defaults();
    assert_eq!(h.len(), 5);
    assert_eq!(h[0], ("content-security-policy", "default-src 'none'; frame-ancestors 'none'"));
    assert_eq!(h[1], ("strict-transport-security", "max-age=63072000; includeSubDomains; preload"));
    assert_eq!(h[2], ("x-frame-options", "DENY"));
    assert_eq!(h[3], ("x-content-type-options", "nosniff"));
    assert_eq!(h[4], ("referrer-policy", "no-referrer"));
}

#[test]
fn u9_security_headers_do_not_clobber_handler_values() {
    let present = vec!["content-type".to_string(), "x-frame-options".to_string()];
    let add = missing_security_headers(&present);
    assert_eq!(add.len(), 4);
    assert!(add.iter().all(|(n, _)| *n != "x-frame-options"));
    assert_eq!(missing_security_headers(&[]).len(), 5);
}

#[test]
fn len_helper_rule() {
    assert_eq!(len_of(&LenArg::Array(4)), 4);
    assert_eq!(len_of(&LenArg::Text("abcde".to_string())), 5);
    assert_eq!(len_of(&LenArg::Text("äöü".to_string())), 3);
    assert_eq!(len_of(&LenArg::Object(2)), 2);
    assert_eq!(len_of(&LenArg::Other), 0);
}

#[test]
fn every_default_header_is_present_or_added() {
    let names = [
        "content-security-policy",
        "strict-transport-security",
        "x-frame-options",
        "x-content-type-options",
        "referrer-policy",
    ];
    for mask in 0u32..32 {
        let present: Vec<String> = names
            .iter()
            .enumerate()
            .filter(|(i, _)| mask & (1 << i) != 0)
            .map(|(_, n)| n.to_string())
            .collect();
        let added = missing_security_headers(&present);
        for n in names {
            let set = present.iter().any(|p| p == n);
            let add = added.iter().any(|(a, _)| *a == n);
            assert!(set != add, "{n} with mask {mask}");
        }
    }
}

#[test]
fn fallback_ids_differ_per_counter_value() {
    let ids: Vec<String> = (0..64).map(|c| fallback_trace_id(u64::MAX - 10, c)).collect();
    for i in 0..ids.len() {
        for j in 0..i {
            assert_ne!(ids[i], ids[j]);
        }
        assert!(ids[i].chars().all(|c| c.is_ascii_digit() || ('a'..='f').contains(&c)));
    }
}

#[test]
fn len_of_array() {
    assert_eq!(len_of(&LenArg::Array(4)), 4);
}

#[test]
fn len_of_string() {
    assert_eq!(len_of(&LenArg::Text("abcde".to_string())), 5);
}

#[test]
fn len_of_missing_is_zero() {
    assert_eq!(len_of(&LenArg::Other), 0);
}

#[test]
fn len_of_object() {
    assert_eq!(len_of(&LenArg::Object(2)), 2);
}

#[test]
fn security_merge_keeps_handler_headers_and_adds_the_rest() {
    let headers = vec![
        ("content-type".to_string(), b"text/plain".to_vec()),
        ("x-frame-options".to_string(), b"SAMEORIGIN".to_vec()),
    ];
    let merged = with_security_headers(headers.clone());
    assert_eq!(merged.len(), 6);
    assert_eq!(merged[..2], headers[..]);
    assert_eq!(
        merged[2],
        (
            "content-security-policy".to_string(),
            b"default-src 'none'; frame-ancestors 'none'".to_vec()
        )
    );
    assert!(merged.iter().filter(|(n, _)| n == "x-frame-options").count() == 1);
    assert_eq!(merged[5], ("referrer-policy".to_string(), b"no-referrer".to_vec()));
}
