//! Byte strings as text.

use vstd::prelude::*;
use vstd::utf8::*;

verus! {

/// `std::str::from_utf8` accepts exactly the byte strings that are UTF-8 and
/// decodes them.
#[verifier::external_body]
pub(crate) fn utf8(data: &[u8]) -> (r: Option<String>)
    ensures
        match r {
            Some(s) => valid_utf8(data@) && s@ == decode_utf8(data@),
            None => !valid_utf8(data@),
        },
{
    std::str::from_utf8(data).ok().map(|s| s.to_string())
}

/// What `String::from_utf8_lossy` makes of some bytes.
pub uninterp spec fn lossy_text(data: Seq<u8>) -> Seq<char>;

/// `String::from_utf8_lossy` decodes UTF-8; in any other byte string it puts a
/// replacement character where the bytes are not UTF-8.
#[verifier::external_body]
pub(crate) fn lossy(data: &[u8]) -> (r: String)
    ensures
        r@ == lossy_text(data@),
        valid_utf8(data@) ==> r@ == decode_utf8(data@),
{
    String::from_utf8_lossy(data).into_owned()
}

} // verus!
