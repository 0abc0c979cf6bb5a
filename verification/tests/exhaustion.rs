use hbs_lms::error::LmsError;
use hbs_lms::hss::definitions::HssPrivateKey;
use hbs_lms::hss::rfc_private_key::RfcPrivateKey;
use hbs_lms::hss::signing::HssSignature;
use hbs_lms::hss::verify::verify;

const SEED: [u8; 32] = [0x77; 32];

/// The bytes of the state of a two-level key of height 5 and 5 with
/// two-bit chains, after `q` signatures.
fn state_after(q: u64) -> Vec<u8> {
    let mut state = q.to_be_bytes().to_vec();
    state.extend_from_slice(&[0x52, 0x52, 0xff, 0xff, 0xff, 0xff, 0xff, 0xff]);
    state.extend_from_slice(&SEED);
    state
}

/// Loads the state after `from` signatures, signs until `to` signatures
/// have been made, and checks the state that is left.
fn sign_from_to(from: u64, to: u64) -> HssPrivateKey {
    let private_key = RfcPrivateKey::from_binary_representation(&state_after(from)).unwrap();
    let mut key = HssPrivateKey { private_key };
    let public_key = key.get_public_key();
    for q in from..to {
        let message = q.to_le_bytes();
        let signature = HssSignature::sign(&mut key, &message, &[q as u8; 32]).unwrap();
        assert_eq!(key.get_q(), q + 1);
        assert_eq!(signature.signed_public_keys[0].sig.q as u64, q / 32);
        assert_eq!(signature.signature.q as u64, q % 32);
        if q % 37 == 0 || q + 1 == to {
            assert!(verify(&signature, &public_key, &message).is_ok());
        }
    }
    assert_eq!(key.private_key.to_binary_representation(), state_after(to));
    key
}

#[test]
fn signatures_1_to_256_of_1024() {
    let key = sign_from_to(0, 256);
    assert_eq!(key.get_capacity(), 1024);
}

#[test]
fn signatures_257_to_512_of_1024() {
    sign_from_to(256, 512);
}

#[test]
fn signatures_513_to_768_of_1024() {
    sign_from_to(512, 768);
}

#[test]
fn signatures_769_to_1024_of_1024_and_then_no_more() {
    let mut key = sign_from_to(768, 1024);
    assert_eq!(
        HssSignature::sign(&mut key, b"number 1025", &[0u8; 32]).err(),
        Some(LmsError::KeyExhausted)
    );
    assert_eq!(key.private_key.to_binary_representation(), state_after(1024));
    assert_eq!(
        HssSignature::sign(&mut key, b"and again", &[0u8; 32]).err(),
        Some(LmsError::KeyExhausted)
    );
    assert_eq!(key.get_q(), 1024);
}
