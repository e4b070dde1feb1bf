//! The signature verifier: a pure check of a (client id, message,
//! signature) triple against the identity registry.
//!
//! An id without a registry entry — zero, or out of range — is reported as
//! unknown, never an out-of-bounds access; a signature of the wrong size
//! or one that fails the cryptographic check is reported as invalid.  Both
//! are non-fatal: the caller drops the offending submission and goes on.

use crate::crypto::{ed25519_valid, ed25519_verify};
use crate::registry::{spec_lookup, Registry};
use vstd::prelude::*;

verus! {

/// Why a triple failed verification.
#[derive(Clone, Copy, PartialEq, Eq, Structural, Debug)]
pub enum VerifyError {
    /// The claimed client id has no registry entry.
    UnknownClient,
    /// The signature is not 64 bytes, or does not verify under the
    /// claimed client's key.
    InvalidSignature,
}

/// The verifier's decision: the triple passes exactly when the id has a
/// registry entry and the signature is a valid Ed25519 signature by that
/// key over exactly the message bytes.
pub open spec fn spec_verify(reg: Seq<Seq<u8>>, id: int, msg: Seq<u8>, sig: Seq<u8>) -> Result<
    (),
    VerifyError,
> {
    match spec_lookup(reg, id) {
        None => Err(VerifyError::UnknownClient),
        Some(vk) => if sig.len() == 64 && ed25519_valid(vk, msg, sig) {
            Ok(())
        } else {
            Err(VerifyError::InvalidSignature)
        },
    }
}

/// Validate one (client id, message, signature) triple against the
/// registry.
pub fn verify(reg: &Registry, client_id: u64, message: &[u8], signature: &[u8]) -> (r: Result<
    (),
    VerifyError,
>)
    requires
        reg.wf(),
    ensures
        r == spec_verify(reg@, client_id as int, message@, signature@),
{
    let vk = match reg.lookup(client_id) {
        Some(k) => k,
        None => {
            return Err(VerifyError::UnknownClient);
        },
    };
    if signature.len() != 64 {
        return Err(VerifyError::InvalidSignature);
    }
    proof {
        assert(reg@[client_id - 1].len() == 32);
    }
    if ed25519_verify(vk.as_slice(), message, signature) {
        Ok(())
    } else {
        Err(VerifyError::InvalidSignature)
    }
}

} // verus!
