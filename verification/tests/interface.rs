use hbs_lms::error::LmsError;
use hbs_lms::hss::definitions::HssPublicKey;
use hbs_lms::hss::interface::{hss_keygen, hss_sign, hss_sign_pending, hss_verify};
use hbs_lms::hss::signing::{lms_signature_len, parse_signed_key, parse_signed_keys, HssSignature};
use hbs_lms::lm_ots::parameter::LmotsAlgorithm;
use hbs_lms::lms::parameter::LmsAlgorithm;

const W8H5: (LmotsAlgorithm, LmsAlgorithm) = (LmotsAlgorithm::LmotsW8, LmsAlgorithm::LmsH5);
const W4H5: (LmotsAlgorithm, LmsAlgorithm) = (LmotsAlgorithm::LmotsW4, LmsAlgorithm::LmsH5);

#[test]
fn keys_signatures_and_states_go_in_and_out_as_bytes() {
    let (private_key, public_key) = hss_keygen(&[W4H5, W4H5], &[0x10u8; 32]).unwrap();
    assert_eq!(private_key.len(), 48);
    assert_eq!(public_key.len(), 60);
    assert_eq!(&private_key[..16], &[0, 0, 0, 0, 0, 0, 0, 0, 0x53, 0x53, 0xff, 0xff, 0xff, 0xff, 0xff, 0xff]);
    assert_eq!(&public_key[..12], &[0, 0, 0, 2, 0, 0, 0, 5, 0, 0, 0, 3]);

    let (signature, state) = hss_sign(b"first", &private_key, &[1u8; 32]).unwrap();
    assert_eq!(&state[..8], &[0, 0, 0, 0, 0, 0, 0, 1]);
    assert_eq!(&state[8..], &private_key[8..]);
    assert_eq!(hss_verify(b"first", &signature, &public_key), Ok(()));
    assert_eq!(
        hss_verify(b"second", &signature, &public_key),
        Err(LmsError::VerificationFailure)
    );

    let (next, state) = hss_sign(b"second", &state, &[2u8; 32]).unwrap();
    assert_eq!(&state[..8], &[0, 0, 0, 0, 0, 0, 0, 2]);
    assert_eq!(hss_verify(b"second", &next, &public_key), Ok(()));
    assert_ne!(next, signature);
}

#[test]
fn every_flipped_bit_of_a_short_message_is_noticed() {
    let (private_key, public_key) = hss_keygen(&[W8H5], &[0x10u8; 32]).unwrap();
    let message = *b"abc";
    let (signature, _) = hss_sign(&message, &private_key, &[1u8; 32]).unwrap();
    for bit in 0..24 {
        let mut changed = message;
        changed[bit / 8] ^= 1 << (bit % 8);
        assert_eq!(
            hss_verify(&changed, &signature, &public_key),
            Err(LmsError::VerificationFailure)
        );
    }
    assert_eq!(hss_verify(&message, &signature, &public_key), Ok(()));
}

#[test]
fn flipped_bits_of_a_signature_are_noticed() {
    let (private_key, public_key) = hss_keygen(&[W8H5, W8H5], &[0x10u8; 32]).unwrap();
    let (signature, _) = hss_sign(b"abc", &private_key, &[1u8; 32]).unwrap();
    let mut position = 0;
    while position < signature.len() {
        for bit in [0u8, 7] {
            let mut changed = signature.clone();
            changed[position] ^= 1 << bit;
            assert!(
                hss_verify(b"abc", &changed, &public_key).is_err(),
                "byte {} bit {}",
                position,
                bit
            );
        }
        position += 13;
    }
    assert_eq!(hss_verify(b"abc", &signature, &public_key), Ok(()));
}

#[test]
fn a_flipped_bit_of_the_root_is_noticed() {
    let (private_key, public_key) = hss_keygen(&[W8H5, W8H5], &[0x10u8; 32]).unwrap();
    let (signature, _) = hss_sign(b"abc", &private_key, &[1u8; 32]).unwrap();
    for position in 28..60 {
        let mut changed = public_key.clone();
        changed[position] ^= 0x04;
        assert_eq!(
            hss_verify(b"abc", &signature, &changed),
            Err(LmsError::VerificationFailure)
        );
    }
    for position in 12..28 {
        let mut changed = public_key.clone();
        changed[position] ^= 0x04;
        assert_eq!(
            hss_verify(b"abc", &signature, &changed),
            Err(LmsError::VerificationFailure)
        );
    }
}

#[test]
fn malformed_bytes_are_reported_as_such() {
    let (private_key, public_key) = hss_keygen(&[W8H5, W8H5], &[0x10u8; 32]).unwrap();
    let (signature, _) = hss_sign(b"abc", &private_key, &[1u8; 32]).unwrap();
    let malformed = Err(LmsError::MalformedInput);

    assert_eq!(hss_verify(b"abc", &signature[..signature.len() - 1], &public_key), malformed);
    assert_eq!(hss_verify(b"abc", &signature[..3], &public_key), malformed);
    assert_eq!(hss_verify(b"abc", &[], &public_key), malformed);
    let mut longer = signature.clone();
    longer.push(0);
    assert_eq!(hss_verify(b"abc", &longer, &public_key), malformed);
    let mut many = signature.clone();
    many[3] = 8;
    assert_eq!(hss_verify(b"abc", &many, &public_key), malformed);
    let mut unknown = signature.clone();
    unknown[11] = 0xee;
    assert_eq!(hss_verify(b"abc", &unknown, &public_key), malformed);

    assert_eq!(hss_verify(b"abc", &signature, &public_key[..59]), malformed);
    assert_eq!(hss_verify(b"abc", &signature, &[]), malformed);
    let mut longer = public_key.clone();
    longer.push(0);
    assert_eq!(hss_verify(b"abc", &signature, &longer), malformed);
    let mut no_levels = public_key.clone();
    no_levels[3] = 0;
    assert_eq!(hss_verify(b"abc", &signature, &no_levels), malformed);
    let mut nine_levels = public_key.clone();
    nine_levels[3] = 9;
    assert_eq!(hss_verify(b"abc", &signature, &nine_levels), malformed);
    let mut unknown = public_key.clone();
    unknown[7] = 0x0f;
    assert_eq!(hss_verify(b"abc", &signature, &unknown), malformed);

    assert_eq!(hss_sign(b"abc", &private_key[..47], &[1u8; 32]).err(), Some(LmsError::MalformedInput));
    let mut unknown = private_key.clone();
    unknown[9] = 0xee;
    assert_eq!(hss_sign(b"abc", &unknown, &[1u8; 32]).err(), Some(LmsError::MalformedInput));
}

#[test]
fn a_signature_with_fewer_levels_than_the_key_is_invalid() {
    let (private_key, public_key) = hss_keygen(&[W8H5, W8H5], &[0x10u8; 32]).unwrap();
    let (signature, _) = hss_sign(b"abc", &private_key, &[1u8; 32]).unwrap();
    let mut three = public_key.clone();
    three[3] = 3;
    assert_eq!(hss_verify(b"abc", &signature, &three), Err(LmsError::VerificationFailure));
    let mut one = public_key.clone();
    one[3] = 1;
    assert_eq!(hss_verify(b"abc", &signature, &one), Err(LmsError::VerificationFailure));
}

#[test]
fn refusals_of_the_byte_interface() {
    assert_eq!(hss_keygen(&[], &[0u8; 32]).err(), Some(LmsError::ConfigInvalid));
    assert_eq!(hss_keygen(&[W8H5], &[0u8; 8]).err(), Some(LmsError::EntropyFailure));
    let (private_key, _) = hss_keygen(&[W8H5], &[0x10u8; 32]).unwrap();
    assert_eq!(hss_sign(b"abc", &private_key, &[1u8; 8]).err(), Some(LmsError::EntropyFailure));
    let mut spent = private_key.clone();
    spent[7] = 32;
    assert_eq!(hss_sign(b"abc", &spent, &[1u8; 32]).err(), Some(LmsError::KeyExhausted));
    spent[0] = 0xff;
    assert_eq!(hss_sign(b"abc", &spent, &[1u8; 32]).err(), Some(LmsError::KeyExhausted));
    let mut last = private_key.clone();
    last[7] = 31;
    let (_, state) = hss_sign(b"abc", &last, &[1u8; 32]).unwrap();
    assert_eq!(state[7], 32);
}

#[test]
fn hierarchy_signature_and_public_key_bytes_parse_back() {
    let (private_key, public_key) = hss_keygen(&[W4H5, W8H5, W4H5], &[0x10u8; 32]).unwrap();
    let (signature, _) = hss_sign(b"abc", &private_key, &[1u8; 32]).unwrap();
    let parsed = HssSignature::from_binary_representation(&signature).unwrap();
    assert_eq!(parsed.signed_public_keys.len(), 2);
    assert_eq!(parsed.to_binary_representation(), signature);
    assert_eq!(
        parsed.signed_public_keys[0].public_key.lmots_parameter,
        LmotsAlgorithm::LmotsW8
    );
    assert_eq!(parsed.signature.lmots_signature.parameter, LmotsAlgorithm::LmotsW4);
    let key = HssPublicKey::from_binary_representation(&public_key).unwrap();
    assert_eq!(key.level, 3);
    assert_eq!(key.to_binary_representation(), public_key);
}

#[test]
fn parts_of_a_signature_are_read_off_its_head() {
    let (private_key, _) = hss_keygen(&[W4H5, W8H5, W4H5], &[0x10u8; 32]).unwrap();
    let (signature, _) = hss_sign(b"abc", &private_key, &[1u8; 32]).unwrap();
    let body = &signature[4..];
    let first_sig = 4 + 2180 + 4 + 160;
    assert_eq!(lms_signature_len(body), Some(first_sig));
    assert_eq!(lms_signature_len(&body[..2188]), Some(first_sig));
    assert_eq!(lms_signature_len(&body[..2187]), None);
    let (first, used) = parse_signed_key(body).unwrap();
    assert_eq!(used, first_sig + 56);
    assert_eq!(first.sig.q, 0);
    assert!(parse_signed_key(&body[..used - 1]).is_none());
    let (keys, used_by_two) = parse_signed_keys(body, 2).unwrap();
    assert_eq!(keys.len(), 2);
    assert_eq!(used_by_two, used + 4 + 1124 + 4 + 160 + 56);
    assert_eq!(signature.len(), 4 + used_by_two + 4 + 2180 + 4 + 160);
    assert!(parse_signed_keys(body, 3).is_none());
    let (none, nothing) = parse_signed_keys(body, 0).unwrap();
    assert_eq!((none.len(), nothing), (0, 0));
}

#[test]
fn a_signature_is_released_only_once_its_state_is_stored() {
    let (private_key, public_key) = hss_keygen(&[W4H5], &[0x10u8; 32]).unwrap();
    let (signature, state) = hss_sign(b"abc", &private_key, &[1u8; 32]).unwrap();

    let pending = hss_sign_pending(b"abc", &private_key, &[1u8; 32]).unwrap();
    assert_eq!(pending.get_state(), &state);
    let released = pending.release(true).unwrap();
    assert_eq!(released, signature);
    assert_eq!(hss_verify(b"abc", &released, &public_key), Ok(()));

    let pending = hss_sign_pending(b"abc", &private_key, &[1u8; 32]).unwrap();
    assert_eq!(pending.get_state(), &state);
    assert_eq!(pending.release(false), None);

    assert_eq!(
        hss_sign_pending(b"abc", &private_key[..40], &[1u8; 32]).err(),
        Some(LmsError::MalformedInput)
    );
    assert_eq!(
        hss_sign_pending(b"abc", &private_key, &[1u8; 31]).err(),
        Some(LmsError::EntropyFailure)
    );
}
