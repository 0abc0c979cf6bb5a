//! Checking a hierarchy's signature: down the chain of signed public
//! keys to the message.

use vstd::prelude::*;
use crate::error::LmsError;
use crate::hss::definitions::{spec_hss_verify, spec_verify_chain, HssPublicKey};
use crate::hss::signing::HssSignature;
use crate::lms::definitions::LmsPublicKey;

verus! {

/// Checks `signature` on `message` against a hierarchy's public key.
///
/// `Ok` exactly where the signature has one signed key fewer than the
/// public key has levels, every tree's signature of the public key below
/// it verifies, and the last tree's signature of the message verifies.
/// Everything else is `VerificationFailure`.
pub fn verify(signature: &HssSignature, public_key: &HssPublicKey, message: &[u8]) -> (r: Result<
    (),
    LmsError,
>)
    ensures
        r is Ok <==> spec_hss_verify(signature@, public_key@, message@),
        r is Err ==> r == Err::<(), LmsError>(LmsError::VerificationFailure),
{
    let count: usize = signature.signed_public_keys.len();
    if public_key.level == 0 || count != (public_key.level - 1) as usize {
        return Err(LmsError::VerificationFailure);
    }
    let mut key: &LmsPublicKey = &public_key.public_key;
    let mut k: usize = 0;
    while k < count
        invariant
            k <= count,
            count == signature@.signed_public_keys.len(),
            count == signature.signed_public_keys@.len(),
            spec_verify_chain(signature@, public_key@.public_key, 0, message@) == spec_verify_chain(
                signature@,
                key@,
                k as nat,
                message@,
            ),
        decreases count - k,
    {
        let next = &signature.signed_public_keys[k];
        assert(signature@.signed_public_keys[k as int] == next@);
        let signed = next.public_key.to_binary_representation();
        if crate::lms::verify::verify(&next.sig, key, signed.as_slice()).is_err() {
            return Err(LmsError::VerificationFailure);
        }
        key = &next.public_key;
        k += 1;
    }
    crate::lms::verify::verify(&signature.signature, key, message)
}

} // verus!
