//! Trusted boundary to the byte-string codecs that secrets pass through:
//! base58 for wallet secrets and public keys, base64 for the stored
//! keypair record.

use base64::Engine;
use vstd::prelude::*;

verus! {

/// The bytes that base58 decoding (default alphabet) yields for `s`,
/// or `None` when `s` is not a valid base58 string.
pub uninterp spec fn bs58_bytes_of(s: Seq<char>) -> Option<Seq<u8>>;

/// The base58 string (default alphabet) that encodes `b`.
pub uninterp spec fn bs58_str_of(b: Seq<u8>) -> Seq<char>;

/// The base64 string (standard alphabet, padded) that encodes `b`.
pub uninterp spec fn b64_of(b: Seq<u8>) -> Seq<char>;

/// The bytes that base64 decoding (standard alphabet, padded) yields
/// for `s`, or `None` when `s` is not a valid base64 string.
pub uninterp spec fn b64_bytes_of(s: Seq<char>) -> Option<Seq<u8>>;

/// Relies on bs58::decode with the default alphabet: the result is a
/// function of the input characters alone.
#[verifier::external_body]
pub(crate) fn bs58_decode(s: &str) -> (r: Option<Vec<u8>>)
    ensures
        match r {
            Some(v) => bs58_bytes_of(s@) == Some(v@),
            None => bs58_bytes_of(s@) is None,
        },
{
    bs58::decode(s).into_vec().ok()
}

/// Relies on bs58::encode with the default alphabet: the result is a
/// function of the input bytes alone.
#[verifier::external_body]
pub(crate) fn bs58_encode(b: &[u8]) -> (r: String)
    ensures
        r@ == bs58_str_of(b@),
{
    bs58::encode(b).into_string()
}

/// Relies on base64's STANDARD engine (padded). Encoding is a function
/// of the input bytes alone, and decoding an encoded string returns the
/// original bytes. The engine computes the output size as roughly four
/// thirds of the input size and panics if that overflows, so very long
/// inputs are excluded.
#[verifier::external_body]
pub(crate) fn b64_encode(b: &[u8]) -> (r: String)
    requires
        b@.len() <= usize::MAX as int / 4,
    ensures
        r@ == b64_of(b@),
        b64_bytes_of(r@) == Some(b@),
{
    base64::engine::general_purpose::STANDARD.encode(b)
}

/// Relies on base64's STANDARD engine (padded): the result is a
/// function of the input characters alone.
#[verifier::external_body]
pub(crate) fn b64_decode(s: &str) -> (r: Option<Vec<u8>>)
    ensures
        match r {
            Some(v) => b64_bytes_of(s@) == Some(v@),
            None => b64_bytes_of(s@) is None,
        },
{
    base64::engine::general_purpose::STANDARD.decode(s).ok()
}

/// Relies on String::push: appends exactly one character.
#[verifier::external_body]
pub(crate) fn push_char(s: &mut String, c: char)
    ensures
        final(s)@ == old(s)@ + seq![c],
{
    s.push(c);
}

} // verus!
