//! The text form of a key: standard base64 with padding.

use vstd::prelude::*;
use vstd::utf8::is_ascii_chars;

verus! {

/// The number of characters base64 needs for the 32 bytes of a key.
pub const ENCODED_KEY_LEN: usize = 44;

/// The standard base64 text, with padding, of a byte string: what
/// `base64::encode` returns for it.
pub uninterp spec fn base64_text(bytes: Seq<u8>) -> Seq<char>;

/// Encodes a key as base64.
///
/// Trusted: calls `base64::encode`. Besides naming the result, the contract
/// claims two facts of it: 32 bytes give 44 characters, since every three
/// bytes or part of three give four characters, and all of them are ASCII,
/// since they come from the base64 alphabet or are the padding sign.
#[verifier::external_body]
pub(crate) fn base64_string(bytes: &[u8; 32]) -> (r: String)
    ensures
        r@ == base64_text(bytes@),
        r@.len() == ENCODED_KEY_LEN,
        is_ascii_chars(r@),
{
    base64::encode(bytes)
}

} // verus!
