//! Trusted bridges to the outside hash and encoding crates that the
//! WebSocket handshake relies on. Each digest or encoding is named, not
//! written out: the contracts say only that the result is a function of
//! the input bytes, plus the few facts the crates' documentation gives.

use vstd::prelude::*;

verus! {

/// The SHA-1 digest of a byte sequence.
pub uninterp spec fn sha1_of(data: Seq<u8>) -> Seq<u8>;

/// The standard base64 encoding, with padding, of a byte sequence.
pub uninterp spec fn base64_of(data: Seq<u8>) -> Seq<u8>;

/// Holds of the bytes base64 output is made of: `A`-`Z`, `a`-`z`,
/// `0`-`9`, `+`, `/`, and the padding byte `=`.
pub open spec fn is_base64_byte(b: u8) -> bool {
    ||| 65 <= b <= 90
    ||| 97 <= b <= 122
    ||| 48 <= b <= 57
    ||| b == 43
    ||| b == 47
    ||| b == 61
}

/// Relies on `sha1::Sha1::digest` (the one-shot interface of the `digest`
/// crate): the digest depends on the input bytes alone and is 20 bytes
/// long.
#[verifier::external_body]
pub fn sha1_digest(data: &[u8]) -> (r: Vec<u8>)
    ensures
        r@ == sha1_of(data@),
        r@.len() == 20,
{
    <sha1::Sha1 as sha1::Digest>::digest(data).to_vec()
}

/// Relies on `base64::encode`: the standard-alphabet padded encoding of
/// the input, so it depends on the input bytes alone and every output
/// byte comes from the standard alphabet or is the padding byte.
#[verifier::external_body]
pub fn base64_encode(data: &[u8]) -> (r: Vec<u8>)
    ensures
        r@ == base64_of(data@),
        forall|i: int| 0 <= i < r@.len() ==> is_base64_byte(r@[i]),
{
    base64::encode(data).into_bytes()
}

} // verus!
