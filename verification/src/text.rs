//! Permissive text decoding for header strings. The format stores raw bytes;
//! they are decoded as UTF-8 with invalid sequences replaced, never rejected.

use vstd::prelude::*;

verus! {

/// The character sequence that permissive UTF-8 decoding yields for the
/// given bytes. The decoding depends on the bytes alone.
pub uninterp spec fn lossy_of(s: Seq<u8>) -> Seq<char>;

/// Relies on `String::from_utf8_lossy`: decodes bytes as UTF-8, replacing
/// invalid sequences; the result is a function of the bytes alone.
#[verifier::external_body]
pub(crate) fn lossy_utf8(b: &[u8]) -> (r: String)
    ensures
        r@ == lossy_of(b@),
{
    String::from_utf8_lossy(b).into()
}

} // verus!
