//! The base64 text of a payload.

use vstd::prelude::*;
use vstd::utf8::is_ascii_chars;
use base64::Engine;

verus! {

/// The base64 text of `data` in the standard alphabet, with padding.
pub uninterp spec fn base64_standard(data: Seq<u8>) -> Seq<char>;

/// The length of the padded base64 text of `n` bytes: four characters for
/// every three bytes or part of three.
pub open spec fn encoded_len(n: nat) -> nat {
    4 * ((n + 2) / 3)
}

/// Whether the base64 text of a payload of `len` bytes has a length that a
/// `usize` can hold. Only such a payload can be encoded.
pub fn payload_fits(len: usize) -> (fits: bool)
    ensures
        fits == (encoded_len(len as nat) <= usize::MAX),
{
    let groups: usize = len / 3 + if len % 3 == 0 {
        0
    } else {
        1
    };
    assert(groups == (len + 2) / 3);
    groups <= usize::MAX / 4
}

/// Calls `Engine::encode` of the base64 crate on its `STANDARD` engine.
///
/// The contract claims that the text returned is the standard padded base64
/// encoding of `data`, that it has four characters for every three bytes or
/// part of three, and that all of them are ASCII (the alphabet's letters,
/// digits, `+`, `/`, and the padding `=`). The call panics where that length
/// does not fit a `usize`, which the precondition rules out.
#[verifier::external_body]
pub(crate) fn base64_encode(data: &[u8]) -> (text: String)
    requires
        encoded_len(data@.len()) <= usize::MAX,
    ensures
        text@ == base64_standard(data@),
        text@.len() == encoded_len(data@.len()),
        is_ascii_chars(text@),
{
    base64::engine::general_purpose::STANDARD.encode(data)
}

} // verus!
