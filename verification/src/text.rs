//! Text helpers over the standard library's strings.

use vstd::prelude::*;
use vstd::utf8::*;

verus! {

/// `String::into_bytes` of the standard library: the UTF-8 bytes of the string.
pub assume_specification[ String::into_bytes ](s: String) -> (b: Vec<u8>)
    ensures
        b@ == encode_utf8(s@),
;

/// The `{:?}` form of a text: quoted, with its special characters escaped.
pub uninterp spec fn debug_form(s: Seq<char>) -> Seq<char>;

/// `std::fmt::Debug` of a `str`, a function of the text alone.
#[verifier::external_body]
pub(crate) fn debug_text(s: &str) -> (r: String)
    ensures
        r@ == debug_form(s@),
{
    format!("{s:?}")
}

/// Whether two texts are equal.
pub fn same_text(a: &str, b: &str) -> (r: bool)
    ensures
        r == (a@ == b@),
{
    let r: bool = crate::hash::same_bytes(a.as_bytes(), b.as_bytes());
    proof {
        encode_utf8_decode_utf8(a@);
        encode_utf8_decode_utf8(b@);
    }
    r
}

} // verus!
