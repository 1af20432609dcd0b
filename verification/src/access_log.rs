//! Per-request access-log correlation id.
//!
//! The access log line carries a trace id: the one of a well-formed
//! inbound `traceparent` header, exactly as the response's trace
//! headers carry it, or else a 16-hex-digit id made from the clock and
//! a process-wide counter.

use vstd::prelude::*;
use crate::traceparent::{all_lower_hex, is_lower_hex, parse_trace_id, trace_id_of};

verus! {

/// The trace id the access log inherits from an inbound `traceparent`
/// value: the same one the response headers carry
/// ([`trace_id_of`]), so one request is correlated across both.
pub fn inbound_trace_id(traceparent: &str) -> (r: Option<String>)
    ensures
        match r {
            Some(t) => trace_id_of(traceparent@) == Some(t@),
            None => trace_id_of(traceparent@) is None,
        },
{
    parse_trace_id(traceparent)
}

pub open spec fn hex_digit(d: nat) -> char {
    if d < 10 {
        ((d + 48) as u32) as char
    } else {
        ((d + 87) as u32) as char
    }
}

/// The last `n` lowercase hexadecimal digits of `v`, zero-padded (`{:0n$x}`
/// for values below `16^n`).
pub open spec fn hex_fixed(v: nat, n: nat) -> Seq<char>
    decreases n,
{
    if n == 0 {
        Seq::empty()
    } else {
        hex_fixed(v / 16, (n - 1) as nat).push(hex_digit(v % 16))
    }
}

fn push_hex_fixed(out: &mut String, v: u64, n: usize)
    ensures
        final(out)@ == old(out)@ + hex_fixed(v as nat, n as nat),
    decreases n,
{
    if n > 0 {
        push_hex_fixed(out, v / 16, n - 1);
        let d = (v % 16) as u8;
        let c = if d < 10 {
            (d + 48) as char
        } else {
            (d + 87) as char
        };
        out.push(c);
        assert(hex_fixed(v as nat, n as nat) =~= hex_fixed((v / 16) as nat, (n - 1) as nat).push(
            hex_digit((v % 16) as nat),
        ));
    }
}

/// Value of a hexadecimal digit as `hex_digit` writes it.
spec fn hex_digit_value(c: char) -> nat {
    if c <= '9' {
        ((c as u32) - 48) as nat
    } else {
        ((c as u32) - 87) as nat
    }
}

/// Value of a string of hexadecimal digits as `hex_fixed` writes them.
spec fn hex_value(s: Seq<char>) -> nat
    decreases s.len(),
{
    if s.len() == 0 {
        0
    } else {
        hex_value(s.drop_last()) * 16 + hex_digit_value(s.last())
    }
}

/// `16^n`.
spec fn hex_bound(n: nat) -> nat
    decreases n,
{
    if n == 0 {
        1
    } else {
        16 * hex_bound((n - 1) as nat)
    }
}

/// `hex_fixed` writes `n` lowercase hex digits that read back as `v`
/// when `v < 16^n`.
proof fn lemma_hex_fixed_roundtrip(v: nat, n: nat)
    requires
        v < hex_bound(n),
    ensures
        hex_fixed(v, n).len() == n,
        all_lower_hex(hex_fixed(v, n)),
        hex_value(hex_fixed(v, n)) == v,
    decreases n,
{
    if n > 0 {
        let b = hex_bound((n - 1) as nat);
        assert(v / 16 < b) by (nonlinear_arith)
            requires
                v < 16 * b,
        ;
        lemma_hex_fixed_roundtrip(v / 16, (n - 1) as nat);
        let d = v % 16;
        let s = hex_fixed(v, n);
        let c = hex_digit(d);
        assert(s.drop_last() =~= hex_fixed(v / 16, (n - 1) as nat));
        assert(is_lower_hex(c) && hex_digit_value(c) == d) by {
            if d < 10 {
                assert(c as u32 == d + 48);
            } else {
                assert(c as u32 == d + 87);
            }
        }
        assert forall|i: int| 0 <= i < s.len() implies is_lower_hex(#[trigger] s[i]) by {
            if i < s.len() - 1 {
                assert(s[i] == s.drop_last()[i]);
            }
        }
    }
}

/// Fallback ids are 16 lowercase hex digits, and two ids taken at the
/// same clock reading with different counter values are different: the
/// id is the full 64-bit sum, not a truncation of it.
pub proof fn lemma_fallback_ids_distinct(nanos: u64, c1: u64, c2: u64)
    ensures
        hex_fixed(((nanos as nat + c1 as nat) % 0x1_0000_0000_0000_0000) as nat, 16).len() == 16,
        all_lower_hex(hex_fixed(((nanos as nat + c1 as nat) % 0x1_0000_0000_0000_0000) as nat, 16)),
        c1 != c2 ==> hex_fixed(((nanos as nat + c1 as nat) % 0x1_0000_0000_0000_0000) as nat, 16)
            != hex_fixed(((nanos as nat + c2 as nat) % 0x1_0000_0000_0000_0000) as nat, 16),
{
    let m: nat = 0x1_0000_0000_0000_0000;
    assert(hex_bound(16) == m) by {
        reveal_with_fuel(hex_bound, 17);
    }
    let v1 = ((nanos as nat + c1 as nat) % m) as nat;
    let v2 = ((nanos as nat + c2 as nat) % m) as nat;
    lemma_hex_fixed_roundtrip(v1, 16);
    lemma_hex_fixed_roundtrip(v2, 16);
    if c1 != c2 {
        assert(v1 != v2) by {
            let a = nanos as nat + c1 as nat;
            let b = nanos as nat + c2 as nat;
            if a < m && b < m {
            } else if a >= m && b >= m {
                assert(v1 == a - m && v2 == b - m);
            } else if a >= m {
                assert(v1 == a - m);
            } else {
                assert(v2 == b - m);
            }
        }
    }
}

/// The fallback correlation id: `{:016x}` of `nanos + counter` (wrapping).
pub fn fallback_trace_id(nanos: u64, counter: u64) -> (r: String)
    ensures
        r@ == hex_fixed(((nanos as nat + counter as nat) % 0x1_0000_0000_0000_0000) as nat, 16),
{
    let v = nanos.wrapping_add(counter);
    let mut r = String::new();
    push_hex_fixed(&mut r, v, 16);
    r
}

} // verus!
