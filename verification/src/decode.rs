//! Percent-decoding of link text, done by the `percent-encoding` crate.

use percent_encoding::percent_decode;
use vstd::prelude::*;

verus! {

/// The text that percent-decoding the UTF-8 bytes of `input` and reading the
/// result as UTF-8 gives, with U+FFFD in place of each ill-formed sequence,
/// as `percent_encoding` computes it.
pub uninterp spec fn percent_decoded_lossy(input: Seq<char>) -> Seq<char>;

/// The decoded form of `input`: text without a `%` stands for itself, any
/// other text for what the decoder makes of it.
pub open spec fn decoded_text(input: Seq<char>) -> Seq<char> {
    if input.contains('%') {
        percent_decoded_lossy(input)
    } else {
        input
    }
}

/// Calls `percent_encoding::percent_decode` on the bytes of `input` and
/// `PercentDecode::decode_utf8_lossy` on what it returns.
///
/// Trusted, not proved. The contract names the decoder's result where
/// `input` holds a `%`, and claims that input without a `%` comes back
/// unchanged: the decoder rewrites nothing but sequences that begin with `%`,
/// and the bytes of a string are well-formed UTF-8.
#[verifier::external_body]
pub(crate) fn percent_decode_lossy(input: &str) -> (text: String)
    ensures
        input@.contains('%') ==> text@ == percent_decoded_lossy(input@),
        !input@.contains('%') ==> text@ == input@,
{
    percent_decode(input.as_bytes()).decode_utf8_lossy().into_owned()
}

} // verus!
