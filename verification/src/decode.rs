//! Percent-decoding of playlist lines.
//!
//! A playlist line may carry percent-encoded characters (`%20` for a space).
//! Decoding is done by the `percent_encoding` crate; what it returns is named
//! by [`percent_decoded`] and every contract downstream speaks of that name.

use vstd::prelude::*;
use percent_encoding::percent_decode_str;

verus! {

/// What percent-decoding makes of `s`: each `%XY` hex escape replaced by the
/// byte it names, the result re-read as text; `None` when the decoded bytes
/// are not valid UTF-8. A function of the characters of `s` alone.
pub uninterp spec fn percent_decoded(s: Seq<char>) -> Option<Seq<char>>;

/// Relies on `percent_encoding::percent_decode_str` and
/// `PercentDecode::decode_utf8`: the decoding depends on the input characters
/// alone, and an input free of `%` holds no escape, so it comes back
/// unchanged.
#[verifier::external_body]
pub(crate) fn percent_decode(s: &str) -> (r: Option<String>)
    ensures
        r is Some <==> percent_decoded(s@) is Some,
        r matches Some(t) ==> percent_decoded(s@) == Some(t@),
{
    match percent_decode_str(s).decode_utf8() {
        Ok(decoded) => Some(decoded.into_owned()),
        Err(_) => None,
    }
}

} // verus!
