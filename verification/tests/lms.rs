use hbs_lms::error::LmsError;
use hbs_lms::hasher::Sha256Hasher;
use hbs_lms::lm_ots::parameter::LmotsAlgorithm;
use hbs_lms::lms::definitions::LmsPublicKey;
use hbs_lms::lms::keygen::{generate_private_key, generate_public_key, leaf_key, node};
use hbs_lms::lms::parameter::LmsAlgorithm;
use hbs_lms::lms::signing::{authentication_path, LmsSignature};
use hbs_lms::lms::verify::{fold_path, generate_root_candidate, leaf_value, verify};

const I: [u8; 16] = [0, 1, 2, 3, 4, 5, 6, 7, 8, 9, 10, 11, 12, 13, 14, 15];
const W8: LmotsAlgorithm = LmotsAlgorithm::LmotsW8;
const W4: LmotsAlgorithm = LmotsAlgorithm::LmotsW4;
const H5: LmsAlgorithm = LmsAlgorithm::LmsH5;

fn hex(bytes: &[u8]) -> String {
    let mut s = String::new();
    for b in bytes {
        s.push_str(&format!("{:02x}", b));
    }
    s
}

fn sha256(data: &[u8]) -> String {
    let mut hasher = Sha256Hasher::new(32);
    hasher.update(data);
    hex(&hasher.finalize())
}

#[test]
fn the_public_key_is_the_root_of_the_tree() {
    let key = generate_private_key(W8, H5, I, &[1u8; 32]);
    assert_eq!(key.q, 0);
    let public = generate_public_key(&key);
    assert_eq!(
        hex(&public.key),
        "fabe3da4816b048505adc6d5b2da5589401a7c055f73a590fb8e881306ba1ca5"
    );
    assert_eq!(
        hex(&public.to_binary_representation()),
        "0000000500000004000102030405060708090a0b0c0d0e0ffabe3da4816b048505adc6d5b2da5589401a7c055f73a590fb8e881306ba1ca5"
    );
    assert_eq!(public.key, node(W8, H5, &I, &[1u8; 32], 1, 5));
}

#[test]
fn nodes_are_hashes_of_their_children() {
    let seed = [1u8; 32];
    let left = node(W8, H5, &I, &seed, 2, 4);
    assert_eq!(
        hex(&left),
        "8633e4019a4d8a4783595f57e6799cb7f6008bc0f7609b019659004015060215"
    );
    let right = node(W8, H5, &I, &seed, 3, 4);
    let mut hasher = Sha256Hasher::new(32);
    hasher.update(&I);
    hasher.update(&[0, 0, 0, 1, 0x83, 0x83]);
    hasher.update(&left);
    hasher.update(&right);
    assert_eq!(node(W8, H5, &I, &seed, 1, 5), hasher.finalize());
    let leaf = node(W8, H5, &I, &seed, 32, 0);
    assert_eq!(
        hex(&leaf),
        "c62c7ec819daf279ea9279d12f7a54e67b91813a1a7009cd260f64578a4641bf"
    );
    assert_eq!(leaf, leaf_value(H5, &I, 32, &leaf_key(W8, &I, 0, &seed)));
}

#[test]
fn a_signature_has_its_known_value() {
    let signature = LmsSignature::sign_with_leaf(W8, H5, &I, &[1u8; 32], 7, b"hello", &[2u8; 32]);
    let bytes = signature.to_binary_representation();
    assert_eq!(bytes.len(), 1292);
    assert_eq!(
        sha256(&bytes),
        "32b62cd96a6d73c85a063bf8ea2c1b5f5caf6d929e060dcfa008b0a7820702e6"
    );
}

#[test]
fn a_leaf_and_its_path_lead_to_the_root() {
    let seed = [1u8; 32];
    let root = node(W4, H5, &I, &seed, 1, 5);
    for q in [0u32, 1, 14, 31] {
        let path = authentication_path(W4, H5, &I, &seed, q);
        assert_eq!(path.len(), 5);
        let start = node(W4, H5, &I, &seed, 32 + q, 0);
        assert_eq!(fold_path(H5, &I, 32 + q, start, &path), root);
        assert_eq!(path[0], node(W4, H5, &I, &seed, (32 + q) ^ 1, 0));
        assert_eq!(path[4], node(W4, H5, &I, &seed, ((32 + q) >> 4) ^ 1, 4));
    }
    let (signature, with) =
        LmsSignature::sign_with_leaf_and_root(W4, H5, &I, &seed, 9, b"m", &[0u8; 32]);
    assert_eq!(with, root);
    assert_eq!(generate_root_candidate(&signature, &I, b"m"), root);
}

#[test]
fn signing_uses_the_leaves_in_order_and_then_refuses() {
    let mut key = generate_private_key(W4, H5, I, &[5u8; 32]);
    let public = generate_public_key(&key);
    for q in 0..32u32 {
        assert_eq!(key.q, q);
        let message = [q as u8; 3];
        let signature = LmsSignature::sign(&mut key, &message, &[q as u8; 32]).unwrap();
        assert_eq!(signature.q, q);
        assert!(verify(&signature, &public, &message).is_ok());
        assert!(verify(&signature, &public, b"other").is_err());
    }
    assert_eq!(key.q, 32);
    assert_eq!(
        LmsSignature::sign(&mut key, b"one more", &[0u8; 32]).err(),
        Some(LmsError::KeyExhausted)
    );
    assert_eq!(key.q, 32);
}

#[test]
fn a_randomizer_of_the_wrong_length_is_refused_and_no_leaf_is_used() {
    let mut key = generate_private_key(W8, H5, I, &[5u8; 32]);
    assert_eq!(
        LmsSignature::sign(&mut key, b"m", &[0u8; 24]).err(),
        Some(LmsError::EntropyFailure)
    );
    assert_eq!(key.q, 0);
    assert!(LmsSignature::sign(&mut key, b"m", &[0u8; 32]).is_ok());
    assert_eq!(key.q, 1);
}

#[test]
fn a_signature_with_the_wrong_sets_leaf_or_path_is_rejected() {
    let seed = [5u8; 32];
    let key = generate_private_key(W8, H5, I, &seed);
    let public = generate_public_key(&key);
    let good = LmsSignature::sign_with_leaf(W8, H5, &I, &seed, 3, b"m", &[0u8; 32]);
    assert_eq!(verify(&good, &public, b"m"), Ok(()));
    assert_eq!(verify(&good, &public, b"n"), Err(LmsError::VerificationFailure));

    let mut other_leaf = LmsSignature::sign_with_leaf(W8, H5, &I, &seed, 3, b"m", &[0u8; 32]);
    other_leaf.q = 4;
    assert!(verify(&other_leaf, &public, b"m").is_err());

    let mut no_such_leaf = LmsSignature::sign_with_leaf(W8, H5, &I, &seed, 3, b"m", &[0u8; 32]);
    no_such_leaf.q = 32;
    assert!(!no_such_leaf.is_well_formed());
    assert!(verify(&no_such_leaf, &public, b"m").is_err());

    let mut short_path = LmsSignature::sign_with_leaf(W8, H5, &I, &seed, 3, b"m", &[0u8; 32]);
    short_path.path.pop();
    assert!(verify(&short_path, &public, b"m").is_err());

    let mut long_path = LmsSignature::sign_with_leaf(W8, H5, &I, &seed, 3, b"m", &[0u8; 32]);
    long_path.path.push(vec![0u8; 32]);
    assert!(verify(&long_path, &public, b"m").is_err());

    let mut changed_path = LmsSignature::sign_with_leaf(W8, H5, &I, &seed, 3, b"m", &[0u8; 32]);
    changed_path.path[2][0] ^= 1;
    assert!(verify(&changed_path, &public, b"m").is_err());

    let mut other_tree_set = LmsSignature::sign_with_leaf(W8, H5, &I, &seed, 3, b"m", &[0u8; 32]);
    other_tree_set.lms_parameter = LmsAlgorithm::LmsM24H5;
    assert!(verify(&other_tree_set, &public, b"m").is_err());

    let bound_to_w4 = LmsPublicKey {
        lms_parameter: H5,
        lmots_parameter: W4,
        i: I,
        key: public.key.clone(),
    };
    assert!(verify(&good, &bound_to_w4, b"m").is_err());

    let under_w4 = LmsSignature::sign_with_leaf(W4, H5, &I, &seed, 3, b"m", &[0u8; 32]);
    assert!(verify(&under_w4, &public, b"m").is_err());
}

#[test]
fn signature_and_public_key_bytes_parse_back() {
    let seed = [5u8; 24];
    let lmots = LmotsAlgorithm::LmotsN24W8;
    let lms = LmsAlgorithm::LmsM24H5;
    let key = generate_private_key(lmots, lms, I, &seed);
    let public = generate_public_key(&key);
    let public_bytes = public.to_binary_representation();
    assert_eq!(public_bytes.len(), 48);
    let parsed = LmsPublicKey::from_binary_representation(&public_bytes).unwrap();
    assert_eq!(parsed.lms_parameter, lms);
    assert_eq!(parsed.lmots_parameter, lmots);
    assert_eq!(parsed.i, I);
    assert_eq!(parsed.key, public.key);

    let signature = LmsSignature::sign_with_leaf(lmots, lms, &I, &seed, 30, b"m", &[0u8; 24]);
    let bytes = signature.to_binary_representation();
    assert_eq!(bytes.len(), 4 + 652 + 4 + 5 * 24);
    assert_eq!(&bytes[..4], &[0, 0, 0, 30]);
    assert_eq!(&bytes[656..660], &[0, 0, 0, 10]);
    let back = LmsSignature::from_binary_representation(&bytes).unwrap();
    assert_eq!(back.q, 30);
    assert_eq!(back.lms_parameter, lms);
    assert_eq!(back.path, signature.path);
    assert_eq!(back.lmots_signature.y, signature.lmots_signature.y);
    assert_eq!(back.to_binary_representation(), bytes);
    assert!(verify(&back, &parsed, b"m").is_ok());
}

#[test]
fn malformed_signature_and_public_key_bytes_do_not_parse() {
    let seed = [5u8; 32];
    let key = generate_private_key(W8, H5, I, &seed);
    let public_bytes = generate_public_key(&key).to_binary_representation();
    let bytes = LmsSignature::sign_with_leaf(W8, H5, &I, &seed, 3, b"m", &[0u8; 32])
        .to_binary_representation();

    for len in [0usize, 3, 7, 8, 23, 24, 55] {
        assert!(LmsPublicKey::from_binary_representation(&public_bytes[..len]).is_none());
    }
    let mut longer = public_bytes.clone();
    longer.push(0);
    assert!(LmsPublicKey::from_binary_representation(&longer).is_none());
    let mut unknown = public_bytes.clone();
    unknown[3] = 4;
    assert!(LmsPublicKey::from_binary_representation(&unknown).is_none());
    let mut unknown = public_bytes.clone();
    unknown[7] = 9;
    assert!(LmsPublicKey::from_binary_representation(&unknown).is_none());

    for len in [0usize, 7, 8, 1131, 1132, 1291] {
        assert!(LmsSignature::from_binary_representation(&bytes[..len]).is_none());
    }
    let mut longer = bytes.clone();
    longer.push(0);
    assert!(LmsSignature::from_binary_representation(&longer).is_none());
    let mut no_leaf = bytes.clone();
    no_leaf[3] = 32;
    assert!(LmsSignature::from_binary_representation(&no_leaf).is_none());
    let mut unknown = bytes.clone();
    unknown[1131] = 0xee;
    assert!(LmsSignature::from_binary_representation(&unknown).is_none());
    let mut taller = bytes.clone();
    taller[1131] = 6;
    assert!(LmsSignature::from_binary_representation(&taller).is_none());
    let mut unknown = bytes.clone();
    unknown[7] = 0;
    assert!(LmsSignature::from_binary_representation(&unknown).is_none());
    assert!(LmsSignature::from_binary_representation(&bytes).is_some());
}
