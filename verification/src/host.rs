//! Static identity of the machine: the chip's marketing name and the model.

use crate::bytes;
use crate::samplers::procname::{self, before_zero};
use crate::text;
use vstd::prelude::*;
use vstd::string::*;
use vstd::utf8::*;

verus! {

/// The text of a zero-terminated value, if it is text.
pub open spec fn value_text(raw: Option<Seq<u8>>) -> Option<Seq<char>> {
    match raw {
        Some(bytes) => if valid_utf8(before_zero(bytes)) {
            Some(decode_utf8(before_zero(bytes)))
        } else {
            None
        },
        None => None,
    }
}

/// The bytes of a value that may be missing.
pub open spec fn bytes_of(raw: Option<Vec<u8>>) -> Option<Seq<u8>> {
    match raw {
        Some(b) => Some(b@),
        None => None,
    }
}

/// The text of a system value, without its terminator and what follows it.
pub fn sysctl_string(raw: Option<Vec<u8>>) -> (r: Option<String>)
    ensures
        text::opt_text(r) == value_text(bytes_of(raw)),
{
    match raw {
        Some(bytes) => bytes::utf8(&procname::until_zero(&bytes)),
        None => None,
    }
}

/// Marketing chip name, e.g. "Apple M5 Pro".
pub fn chip(raw: Option<Vec<u8>>) -> (r: String)
    ensures
        r@ == match value_text(bytes_of(raw)) {
            Some(s) => s,
            None => "unknown SoC"@,
        },
{
    match sysctl_string(raw) {
        Some(s) => s,
        None => text::copy("unknown SoC"),
    }
}

/// Machine model identifier, e.g. "Mac17,8".
pub fn model(raw: Option<Vec<u8>>) -> (r: String)
    ensures
        r@ == match value_text(bytes_of(raw)) {
            Some(s) => s,
            None => "unknown model"@,
        },
{
    match sysctl_string(raw) {
        Some(s) => s,
        None => text::copy("unknown model"),
    }
}

} // verus!
