//! The scheme on byte strings: keys and signatures go in and out in
//! their wire forms.

use vstd::prelude::*;
use crate::error::LmsError;
use crate::hss::definitions::{
    spec_hss_public_key,
    spec_hss_verify,
    spec_parse_hss_public_key,
    spec_parse_hss_signature,
    spec_sign_result,
    HssPrivateKey,
    HssPublicKey,
    HssSignatureView,
};
use crate::hss::parameter::{valid_parameters, LevelParameter};
use crate::hss::rfc_private_key::{spec_parse_private_key, RfcPrivateKey, RfcPrivateKeyView};
use crate::hss::signing::HssSignature;

verus! {

/// What verification makes of three byte strings: `MalformedInput` where
/// the signature or the public key does not parse, `VerificationFailure`
/// where both parse and the signature does not sign the message under
/// the key, and `Ok` where it does.
pub open spec fn spec_verify_bytes(message: Seq<u8>, signature: Seq<u8>, public_key: Seq<u8>) -> Result<
    (),
    LmsError,
> {
    match (spec_parse_hss_signature(signature), spec_parse_hss_public_key(public_key)) {
        (Some(s), Some(k)) => if spec_hss_verify(s, k, message) {
            Ok(())
        } else {
            Err(LmsError::VerificationFailure)
        },
        _ => Err(LmsError::MalformedInput),
    }
}

/// What signing makes of a message, the bytes of a key's state and a
/// randomiser: the bytes of the signature and of the state that the key
/// is left in, `MalformedInput` where the state does not parse, or the
/// reason for which the key refuses.
pub open spec fn spec_sign_bytes(message: Seq<u8>, private_key: Seq<u8>, c: Seq<u8>) -> Result<
    (Seq<u8>, Seq<u8>),
    LmsError,
> {
    match spec_parse_private_key(private_key) {
        None => Err(LmsError::MalformedInput),
        Some(key) => match spec_sign_result(key, message, c) {
            Err(e) => Err(e),
            Ok((signature, state)) => Ok((signature.serialize(), state.serialize())),
        },
    }
}

/// Makes a key for the given levels from a root seed: the bytes of its
/// state, to be kept secret and stored, and the bytes of its public key.
///
/// Fails with `ConfigInvalid` where no key can be made with the levels
/// and, else, with `EntropyFailure` where the seed is not as long as
/// their digests.
pub fn hss_keygen(parameters: &[LevelParameter], seed: &[u8]) -> (r: Result<(Vec<u8>, Vec<u8>), LmsError>)
    ensures
        match r {
            Ok((private_key, public_key)) => {
                let key = RfcPrivateKeyView { q: 0, parameters: parameters@, seed: seed@ };
                &&& key.wf()
                &&& private_key@ == key.serialize()
                &&& public_key@ == spec_hss_public_key(key).serialize()
            },
            Err(e) => {
                &&& e == if valid_parameters(parameters@) {
                    LmsError::EntropyFailure
                } else {
                    LmsError::ConfigInvalid
                }
                &&& !valid_parameters(parameters@) || seed@.len() != parameters@[0].0.n()
            },
        },
{
    match HssPrivateKey::generate(parameters, seed) {
        Err(e) => Err(e),
        Ok(key) => {
            let public_key = key.get_public_key();
            Ok((key.private_key.to_binary_representation(), public_key.to_binary_representation()))
        },
    }
}

/// Signs `message` with the key whose state is `private_key`, under the
/// randomiser `c`. With the signature come the bytes of the state that
/// the key is left in: they must replace the old state wherever it is
/// stored before the signature leaves the signer's hands, and a signature
/// whose state could not be stored must be thrown away.
pub fn hss_sign(message: &[u8], private_key: &[u8], c: &[u8]) -> (r: Result<(Vec<u8>, Vec<u8>), LmsError>)
    ensures
        match r {
            Ok((signature, state)) => spec_sign_bytes(message@, private_key@, c@) == Ok::<
                (Seq<u8>, Seq<u8>),
                LmsError,
            >((signature@, state@)),
            Err(e) => spec_sign_bytes(message@, private_key@, c@) == Err::<(Seq<u8>, Seq<u8>), LmsError>(
                e,
            ),
        },
{
    let state = match RfcPrivateKey::from_binary_representation(private_key) {
        None => {
            return Err(LmsError::MalformedInput);
        },
        Some(x) => x,
    };
    let mut key = HssPrivateKey { private_key: state };
    match HssSignature::sign(&mut key, message, c) {
        Err(e) => Err(e),
        Ok(signature) => Ok(
            (signature.to_binary_representation(), key.private_key.to_binary_representation()),
        ),
    }
}

/// A signature that waits for the state of its key to be stored. It
/// holds the bytes of the signature, out of reach, and shows the bytes of
/// the state that the key was left in; the signature comes out only in
/// exchange for the word that this state has been stored.
pub struct PendingSignature {
    signature: Vec<u8>,
    state: Vec<u8>,
}

impl PendingSignature {
    /// The bytes of the signature that is held back.
    pub closed spec fn signature(&self) -> Seq<u8> {
        self.signature@
    }

    /// The bytes of the state that are to be stored.
    pub closed spec fn state(&self) -> Seq<u8> {
        self.state@
    }

    /// The bytes of the state that are to be stored in place of the old
    /// state.
    pub fn get_state(&self) -> (r: &Vec<u8>)
        ensures
            r@ == self.state(),
    {
        &self.state
    }

    /// Hands the signature out where the state has been stored, and
    /// drops it where it has not: the leaf that signed is then lost, and
    /// no signature of it exists.
    pub fn release(self, stored: bool) -> (r: Option<Vec<u8>>)
        ensures
            match r {
                Some(signature) => stored && signature@ == self.signature(),
                None => !stored,
            },
    {
        if stored {
            Some(self.signature)
        } else {
            None
        }
    }
}

/// Signs as `hss_sign` does, and holds the signature back until the
/// state of the key has been stored.
pub fn hss_sign_pending(message: &[u8], private_key: &[u8], c: &[u8]) -> (r: Result<
    PendingSignature,
    LmsError,
>)
    ensures
        match r {
            Ok(pending) => spec_sign_bytes(message@, private_key@, c@) == Ok::<
                (Seq<u8>, Seq<u8>),
                LmsError,
            >((pending.signature(), pending.state())),
            Err(e) => spec_sign_bytes(message@, private_key@, c@) == Err::<(Seq<u8>, Seq<u8>), LmsError>(
                e,
            ),
        },
{
    match hss_sign(message, private_key, c) {
        Err(e) => Err(e),
        Ok((signature, state)) => Ok(PendingSignature { signature, state }),
    }
}

/// Checks the bytes of a signature on `message` against the bytes of a
/// public key.
pub fn hss_verify(message: &[u8], signature: &[u8], public_key: &[u8]) -> (r: Result<(), LmsError>)
    ensures
        r == spec_verify_bytes(message@, signature@, public_key@),
{
    let parsed_signature = HssSignature::from_binary_representation(signature);
    let parsed_key = HssPublicKey::from_binary_representation(public_key);
    match (parsed_signature, parsed_key) {
        (Some(s), Some(k)) => match crate::hss::verify::verify(&s, &k, message) {
            Ok(_) => Ok(()),
            Err(_) => Err(LmsError::VerificationFailure),
        },
        _ => Err(LmsError::MalformedInput),
    }
}

/// Whatever `hss_sign` hands out, `hss_verify` accepts: the bytes of a
/// signature made with a key's state verify for the message under the
/// bytes of the key's public key.
pub proof fn theorem_round_trip_bytes(key: RfcPrivateKeyView, message: Seq<u8>, c: Seq<u8>)
    requires
        key.wf(),
        spec_sign_bytes(message, key.serialize(), c) is Ok,
    ensures
        spec_verify_bytes(
            message,
            spec_sign_bytes(message, key.serialize(), c)->Ok_0.0,
            spec_hss_public_key(key).serialize(),
        ) == Ok::<(), LmsError>(()),
{
    crate::hss::rfc_private_key::lemma_parse_serialize_private_key(key);
    let signature = spec_sign_result(key, message, c)->Ok_0.0;
    crate::hss::definitions::lemma_sign_wf(key, message, c);
    crate::hss::definitions::lemma_public_key_wf(key);
    crate::hss::wire::lemma_parse_serialize_hss_signature(signature);
    crate::hss::wire::lemma_parse_serialize_hss_public_key(spec_hss_public_key(key));
    crate::hss::definitions::lemma_sign_then_verify(key, message, c);
}

/// Tampering is noticed. Take the bytes of the signature that a key
/// makes of a message, and change the message, or change one byte of the
/// signature: flip any bit of it. Verification under the bytes of the
/// key's public key then fails, or the digest collides.
pub proof fn theorem_tamper_rejection(
    key: RfcPrivateKeyView,
    message: Seq<u8>,
    c: Seq<u8>,
    data: Seq<u8>,
    other_message: Seq<u8>,
)
    requires
        key.wf(),
        spec_sign_result(key, message, c) is Ok,
        (data == crate::hss::definitions::spec_hss_sign(key, message, c).serialize() && other_message
            != message) || (other_message == message && exists|p: int|
            crate::util::chunks::spec_differ_at(
                crate::hss::definitions::spec_hss_sign(key, message, c).serialize(),
                data,
                p,
            )),
    ensures
        spec_verify_bytes(other_message, data, spec_hss_public_key(key).serialize()) is Err
            || crate::hasher::collides(key.n()),
{
    let honest = crate::hss::definitions::spec_hss_sign(key, message, c);
    let public_key = spec_hss_public_key(key);
    crate::hss::definitions::lemma_public_key_wf(key);
    crate::hss::definitions::lemma_sign_wf(key, message, c);
    crate::hss::wire::lemma_parse_serialize_hss_public_key(public_key);
    if spec_verify_bytes(other_message, data, public_key.serialize()) is Ok {
        let other = spec_parse_hss_signature(data).unwrap();
        crate::hss::wire::lemma_serialize_parse_hss_signature(data);
        if other_message != message {
            crate::hss::wire::lemma_parse_serialize_hss_signature(honest);
            crate::hss::binding::theorem_changed_message(key, message, c, other_message);
        } else {
            let p = choose|p: int| crate::util::chunks::spec_differ_at(honest.serialize(), data, p);
            crate::hss::binding::theorem_changed_byte(key, message, c, other, p);
        }
    }
}

/// A signature that is cut short or run long is refused as malformed,
/// whatever the message and the public key.
pub proof fn theorem_other_lengths_are_malformed(
    signature: HssSignatureView,
    data: Seq<u8>,
    message: Seq<u8>,
    public_key: Seq<u8>,
)
    requires
        signature.wf(),
        data.is_prefix_of(signature.serialize()) || signature.serialize().is_prefix_of(data),
        data != signature.serialize(),
    ensures
        spec_verify_bytes(message, data, public_key) == Err::<(), LmsError>(LmsError::MalformedInput),
{
    crate::hss::wire::lemma_parse_hss_signature_rejects_other_lengths(signature, data);
}

} // verus!
