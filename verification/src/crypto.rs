//! Trusted boundary to the cryptographic collaborators: Ed25519 signature
//! creation and verification, and the base64 transport encoding of
//! signatures.  Everything here is a function of its byte arguments alone;
//! the results are given names that the rest of the library reasons with.

use base64::Engine;
use ed25519_dalek::{Signer, Verifier};
use vstd::prelude::*;

verus! {

/// Whether a byte belongs to the standard base64 alphabet (padding
/// included).  Note the double quote is not among them, which is what lets
/// an encoded signature sit inside a quoted wire field.
pub open spec fn b64_char(b: u8) -> bool {
    ||| 65 <= b <= 90  // 'A'..'Z'
    ||| 97 <= b <= 122  // 'a'..'z'
    ||| 48 <= b <= 57  // '0'..'9'
    ||| b == 43  // '+'
    ||| b == 47  // '/'
    ||| b == 61  // '='
}

/// The standard base64 encoding of a byte string.
pub uninterp spec fn b64_of(b: Seq<u8>) -> Seq<u8>;

/// The standard base64 decoding of a byte string, `None` on invalid input.
pub uninterp spec fn b64_decode_of(s: Seq<u8>) -> Option<Seq<u8>>;

/// Whether the Ed25519 signature `sig` over `msg` checks out under the
/// verifying key encoded by `vk` (false as well when `vk` does not decode
/// to a key).
pub uninterp spec fn ed25519_valid(vk: Seq<u8>, msg: Seq<u8>, sig: Seq<u8>) -> bool;

/// The Ed25519 signature over `msg` by the signing key encoded by `sk`.
pub uninterp spec fn ed25519_sig_of(sk: Seq<u8>, msg: Seq<u8>) -> Seq<u8>;

/// Relies on base64's `Engine::encode` with the `STANDARD` engine: the
/// output is a function of the input bytes alone, is made of standard
/// alphabet characters, and `Engine::decode` inverts it.
#[verifier::external_body]
pub(crate) fn base64_encode(b: &[u8]) -> (r: Vec<u8>)
    ensures
        r@ == b64_of(b@),
        b64_decode_of(r@) == Some(b@),
        forall|i: int| 0 <= i < r@.len() ==> b64_char(#[trigger] r@[i]),
{
    base64::engine::general_purpose::STANDARD.encode(b).into_bytes()
}

/// Relies on base64's `Engine::decode` with the `STANDARD` engine: the
/// result is a function of the input bytes alone.
#[verifier::external_body]
pub(crate) fn base64_decode(s: &[u8]) -> (r: Option<Vec<u8>>)
    ensures
        r is Some <==> b64_decode_of(s@) is Some,
        r matches Some(v) ==> b64_decode_of(s@) == Some(v@),
{
    base64::engine::general_purpose::STANDARD.decode(s).ok()
}

/// Relies on ed25519-dalek's `VerifyingKey::from_bytes` and
/// `Verifier::verify`: Ed25519 verification is deterministic in the key
/// bytes, the message and the signature; key bytes that do not decode to a
/// curve point verify nothing.
#[verifier::external_body]
pub(crate) fn ed25519_verify(vk: &[u8], msg: &[u8], sig: &[u8]) -> (r: bool)
    requires
        vk@.len() == 32,
        sig@.len() == 64,
    ensures
        r == ed25519_valid(vk@, msg@, sig@),
{
    let vk_bytes: [u8; 32] = match vk.try_into() {
        Ok(a) => a,
        Err(_) => return false,
    };
    let sig_bytes: [u8; 64] = match sig.try_into() {
        Ok(a) => a,
        Err(_) => return false,
    };
    let key = match ed25519_dalek::VerifyingKey::from_bytes(&vk_bytes) {
        Ok(k) => k,
        Err(_) => return false,
    };
    key.verify(msg, &ed25519_dalek::Signature::from_bytes(&sig_bytes)).is_ok()
}

/// Relies on ed25519-dalek's `SigningKey::from_bytes` (any 32 bytes are a
/// secret key) and `Signer::sign`: RFC 8032 Ed25519 signing is
/// deterministic, so the 64-byte signature is a function of the key bytes
/// and the message alone.
#[verifier::external_body]
pub(crate) fn ed25519_sign(sk: &[u8], msg: &[u8]) -> (r: Vec<u8>)
    requires
        sk@.len() == 32,
    ensures
        r@ == ed25519_sig_of(sk@, msg@),
        r@.len() == 64,
{
    let sk_bytes: [u8; 32] = sk.try_into().expect("secret key is 32 bytes");
    let key = ed25519_dalek::SigningKey::from_bytes(&sk_bytes);
    key.sign(msg).to_bytes().to_vec()
}

} // verus!
