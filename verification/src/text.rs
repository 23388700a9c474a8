//! UTF-8 decoding of symbol names and source filenames.
//!
//! Symbol names are decoded lossily — a garbled name is cosmetic — while
//! source filenames are decoded strictly, since a garbled filename would
//! corrupt line attribution.

use vstd::prelude::*;
use vstd::utf8::decode_utf8;
use vstd::utf8::valid_utf8;

verus! {

/// What `String::from_utf8_lossy` yields for a byte sequence: the bytes
/// decoded as UTF-8 with every ill-formed sequence replaced.  The result
/// is a function of the bytes alone.
pub uninterp spec fn lossy_of(bytes: Seq<u8>) -> Seq<char>;

/// Relies on `String::from_utf8_lossy`: the result depends on the bytes
/// alone, and bytes that are valid UTF-8 decode exactly, with nothing
/// replaced.
#[verifier::external_body]
pub(crate) fn lossy_to_string(b: &[u8]) -> (r: String)
    ensures
        r@ == lossy_of(b@),
        valid_utf8(b@) ==> r@ == decode_utf8(b@),
{
    String::from_utf8_lossy(b).into_owned()
}

/// Relies on `str::from_utf8`: it succeeds exactly on valid UTF-8 input
/// and yields the decoded characters.
#[verifier::external_body]
pub(crate) fn utf8_to_string(b: &[u8]) -> (r: Option<String>)
    ensures
        r is Some <==> valid_utf8(b@),
        r matches Some(s) ==> s@ == decode_utf8(b@),
{
    match std::str::from_utf8(b) {
        Ok(s) => Some(s.to_string()),
        Err(_) => None,
    }
}

} // verus!
