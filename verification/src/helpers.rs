//! The built-in `len` template helper's rule.
//!
//! `{{len x}}` is the length of an array, string (in characters) or
//! object, and `0` for anything else (null, missing, numbers, booleans).

use vstd::prelude::*;
use crate::text::chars_of;

verus! {

/// The helper's parameter, as far as its length is concerned.
pub enum LenArg {
    /// An array with this many elements.
    Array(usize),
    /// A string.
    Text(String),
    /// An object with this many entries.
    Object(usize),
    /// Anything else, or no parameter.
    Other,
}

pub open spec fn len_spec(a: LenArg) -> nat {
    match a {
        LenArg::Array(n) => n as nat,
        LenArg::Text(s) => s@.len(),
        LenArg::Object(n) => n as nat,
        LenArg::Other => 0,
    }
}

/// What `{{len x}}` renders, as a number.
pub fn len_of(a: &LenArg) -> (n: usize)
    ensures
        n == len_spec(*a),
{
    match a {
        LenArg::Array(n) => *n,
        LenArg::Text(s) => chars_of(s.as_str()).len(),
        LenArg::Object(n) => *n,
        LenArg::Other => 0,
    }
}

} // verus!
