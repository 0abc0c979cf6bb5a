use hbs_lms::error::LmsError;
use hbs_lms::hasher::Sha256Hasher;
use hbs_lms::hss::definitions::{capacity, leaf_indices, HssPrivateKey, HssPublicKey};
use hbs_lms::hss::rfc_private_key::RfcPrivateKey;
use hbs_lms::hss::signing::HssSignature;
use hbs_lms::hss::verify::verify;
use hbs_lms::lm_ots::parameter::LmotsAlgorithm;
use hbs_lms::lms::parameter::LmsAlgorithm;

const LEVEL: usize = 2;
const W8H5: (LmotsAlgorithm, LmsAlgorithm) = (LmotsAlgorithm::LmotsW8, LmsAlgorithm::LmsH5);
const W4H5: (LmotsAlgorithm, LmsAlgorithm) = (LmotsAlgorithm::LmotsW4, LmsAlgorithm::LmsH5);
const W2H5: (LmotsAlgorithm, LmsAlgorithm) = (LmotsAlgorithm::LmotsW2, LmsAlgorithm::LmsH5);

fn hex(bytes: &[u8]) -> String {
    let mut s = String::new();
    for b in bytes {
        s.push_str(&format!("{:02x}", b));
    }
    s
}

fn sha256(data: &[u8]) -> String {
    let mut hasher = Sha256Hasher::new(32);
    hasher.update(data);
    hex(&hasher.finalize())
}

fn key_at(parameters: &[(LmotsAlgorithm, LmsAlgorithm)], seed: &[u8], q: u64) -> HssPrivateKey {
    let mut key = HssPrivateKey::generate(parameters, seed).unwrap();
    key.private_key.q = q;
    key
}

#[test]
fn test_hss_verify() {
    let seed = [0x5au8; 32];
    let parameters = vec![
        (
            LmotsAlgorithm::construct_default_parameter(),
            LmsAlgorithm::construct_default_parameter(),
        );
        LEVEL
    ];
    let mut private_key =
        HssPrivateKey::generate(&parameters, &seed).expect("Should geneerate HSS private key");
    let public_key = private_key.get_public_key();

    let mut message = [42, 57, 20, 59, 33, 1, 49, 3, 99, 130, 50, 20];

    generate_signature_and_verify(&mut private_key, &public_key, &mut message);
    generate_signature_and_verify(&mut private_key, &public_key, &mut message);
}

fn generate_signature_and_verify(
    private_key: &mut HssPrivateKey,
    public_key: &HssPublicKey,
    message: &mut [u8],
) {
    let randomizer = [0xc3u8; 32];
    let signature =
        HssSignature::sign(private_key, message, &randomizer).expect("Should sign message");

    assert!(verify(&signature, public_key, message).is_ok());

    message[0] = !message[0];

    assert!(verify(&signature, public_key, message).is_err());
}

#[test]
fn zero_seed_zero_randomizer_abc() {
    let mut private_key = HssPrivateKey::generate(&[W8H5; 2], &[0u8; 32]).unwrap();
    let public_key = private_key.get_public_key();
    let mut message = *b"abc";
    let signature = HssSignature::sign(&mut private_key, &message, &[0u8; 32]).unwrap();
    assert_eq!(verify(&signature, &public_key, &message), Ok(()));
    message[0] ^= 0x01;
    assert_eq!(
        verify(&signature, &public_key, &message),
        Err(LmsError::VerificationFailure)
    );
}

#[test]
fn keys_and_signatures_have_their_known_values() {
    let mut key = HssPrivateKey::generate(&[W8H5; 2], &[0u8; 32]).unwrap();
    assert_eq!(
        hex(&key.get_public_key().to_binary_representation()),
        "000000020000000500000004f9e66daa0532637dd6cb5cb9ae490058625e1449c9c161d196da603c4834915112cf4c3e344a78e9f36a3523c3c382c9"
    );
    let first = HssSignature::sign(&mut key, b"abc", &[0u8; 32]).unwrap();
    let bytes = first.to_binary_representation();
    assert_eq!(bytes.len(), 2644);
    assert_eq!(
        sha256(&bytes),
        "b803b38f33c861314418a532495bf4497df7610d38984ea72c1c07e2369c90fd"
    );
    let second = HssSignature::sign(&mut key, b"abc", &[0u8; 32]).unwrap();
    assert_eq!(
        sha256(&second.to_binary_representation()),
        "b2be47757f6ba10a84410165bd14e47114c89f2fe5750af4efe9840799e01e22"
    );
    let mut rolled = key_at(&[W8H5; 2], &[0u8; 32], 32);
    let third = HssSignature::sign(&mut rolled, b"abc", &[0u8; 32]).unwrap();
    assert_eq!(
        sha256(&third.to_binary_representation()),
        "b39f0141ba4a07da745ffd933c04ac71720aacadd968ddf7e0e8b7a8af966de7"
    );
}

#[test]
fn mixed_widths_short_digests_and_three_levels_have_their_known_values() {
    let seed: Vec<u8> = (0..32).collect();
    let randomizer: Vec<u8> = (32..64).collect();
    let mut key = key_at(&[W2H5, W4H5], &seed, 33);
    assert_eq!(
        hex(&key.get_public_key().to_binary_representation()),
        "000000020000000500000002d08fabd4a2091ff0a8cb4ed834e74534608e7f4d5ba95a87e781276b06ada38070b6652ad0f323c858e5403913ce0041"
    );
    let signature = HssSignature::sign(&mut key, b"mixed widths", &randomizer).unwrap();
    let bytes = signature.to_binary_representation();
    assert_eq!(bytes.len(), 6868);
    assert_eq!(
        sha256(&bytes),
        "4324c139f855282051411856f8225383e1e67f9231001ed39bd1aa69491d9687"
    );

    let seed: Vec<u8> = (0..24).collect();
    let randomizer: Vec<u8> = (24..48).collect();
    let mut key = key_at(&[(LmotsAlgorithm::LmotsN24W8, LmsAlgorithm::LmsM24H5)], &seed, 5);
    let public_key = key.get_public_key();
    assert_eq!(
        hex(&public_key.to_binary_representation()),
        "000000010000000a000000082318d135567adee344904df41153d9e8dfc98588345ff0063fe8fee994b6d8b633ee1594c95906d2"
    );
    let signature = HssSignature::sign(&mut key, b"short digests", &randomizer).unwrap();
    let bytes = signature.to_binary_representation();
    assert_eq!(bytes.len(), 784);
    assert_eq!(
        sha256(&bytes),
        "0f812f533a4a085f0c0507ec1d81247ed2fd55d3651a9e6848e4e031a05876f3"
    );
    assert!(verify(&signature, &public_key, b"short digests").is_ok());

    let mut key = key_at(&[W8H5, W4H5, W8H5], &[7u8; 32], 1055);
    let public_key = key.get_public_key();
    assert_eq!(
        hex(&public_key.to_binary_representation()),
        "000000030000000500000004c53ab38dc22a7b37fd57e23aba86b9cd064e914b3ea99b3f173f84791b10e67196eedd70ff023698c13cdacb20841ced"
    );
    let signature = HssSignature::sign(&mut key, b"", &[9u8; 32]).unwrap();
    let bytes = signature.to_binary_representation();
    assert_eq!(bytes.len(), 5048);
    assert_eq!(
        sha256(&bytes),
        "4c77b55cd53e2430f629f35f43cd30c9070052605d3373b0f35a99b9a89abbdf"
    );
    assert!(verify(&signature, &public_key, b"").is_ok());
    assert_eq!(key.get_q(), 1056);
}

#[test]
fn thirty_two_signatures_then_the_lower_tree_rolls_over() {
    let mut private_key = HssPrivateKey::generate(&[W8H5; 2], &[0x11u8; 32]).unwrap();
    let public_key = private_key.get_public_key();
    let public_bytes = public_key.to_binary_representation();
    let mut lower_tree = Vec::new();
    for q in 0..32u64 {
        assert_eq!(private_key.get_q(), q);
        let message = [q as u8, 1, 2, 3];
        let signature = HssSignature::sign(&mut private_key, &message, &[q as u8; 32]).unwrap();
        assert!(verify(&signature, &public_key, &message).is_ok());
        assert_eq!(signature.signed_public_keys.len(), 1);
        assert_eq!(signature.signed_public_keys[0].sig.q, 0);
        assert_eq!(signature.signature.q, q as u32);
        lower_tree = signature.signed_public_keys[0].public_key.to_binary_representation();
    }
    assert_eq!(private_key.get_q(), 32);
    let signature = HssSignature::sign(&mut private_key, b"the 33rd", &[33u8; 32]).unwrap();
    assert_eq!(private_key.get_q(), 33);
    assert_eq!(signature.signed_public_keys[0].sig.q, 1);
    assert_eq!(signature.signature.q, 0);
    assert_ne!(
        signature.signed_public_keys[0].public_key.to_binary_representation(),
        lower_tree
    );
    assert!(verify(&signature, &public_key, b"the 33rd").is_ok());
    assert_eq!(private_key.get_public_key().to_binary_representation(), public_bytes);
}

#[test]
fn after_two_to_the_ten_signatures_the_key_is_exhausted() {
    let mut private_key = key_at(&[W8H5; 2], &[0x22u8; 32], 1023);
    assert_eq!(private_key.get_capacity(), 1024);
    let public_key = private_key.get_public_key();
    let last = HssSignature::sign(&mut private_key, b"number 1024", &[1u8; 32]).unwrap();
    assert!(verify(&last, &public_key, b"number 1024").is_ok());
    assert_eq!(last.signed_public_keys[0].sig.q, 31);
    assert_eq!(last.signature.q, 31);
    assert_eq!(private_key.get_q(), 1024);
    let state = private_key.private_key.to_binary_representation();
    assert_eq!(
        HssSignature::sign(&mut private_key, b"number 1025", &[1u8; 32]).err(),
        Some(LmsError::KeyExhausted)
    );
    assert_eq!(private_key.get_q(), 1024);
    assert_eq!(private_key.private_key.to_binary_representation(), state);
    assert_eq!(
        HssSignature::sign(&mut private_key, b"again", &[1u8; 31]).err(),
        Some(LmsError::KeyExhausted)
    );
}

#[test]
fn a_key_of_one_tree_signs_exactly_as_often_as_it_has_leaves() {
    let mut private_key = HssPrivateKey::generate(&[W4H5], &[0x33u8; 32]).unwrap();
    let public_key = private_key.get_public_key();
    assert_eq!(private_key.get_capacity(), 32);
    for q in 0..32u64 {
        let before = private_key.private_key.to_binary_representation();
        assert_eq!(&before[..8], &q.to_be_bytes());
        let signature = HssSignature::sign(&mut private_key, b"m", &[0u8; 32]).unwrap();
        assert_eq!(signature.signed_public_keys.len(), 0);
        assert!(verify(&signature, &public_key, b"m").is_ok());
    }
    assert_eq!(
        &private_key.private_key.to_binary_representation()[..8],
        &32u64.to_be_bytes()
    );
    assert_eq!(
        HssSignature::sign(&mut private_key, b"m", &[0u8; 32]).err(),
        Some(LmsError::KeyExhausted)
    );
    assert_eq!(private_key.get_q(), 32);
}

#[test]
fn two_keys_from_one_seed_sign_alike() {
    let seed = [0x44u8; 32];
    let mut first = HssPrivateKey::generate(&[W8H5; 2], &seed).unwrap();
    let mut second = HssPrivateKey::generate(&vec![W8H5, W8H5], &seed.to_vec()).unwrap();
    assert_eq!(
        first.get_public_key().to_binary_representation(),
        second.get_public_key().to_binary_representation()
    );
    let a = HssSignature::sign(&mut first, b"identical", &[5u8; 32]).unwrap();
    let b = HssSignature::sign(&mut second, b"identical", &[5u8; 32]).unwrap();
    assert_eq!(a.to_binary_representation(), b.to_binary_representation());
    let restored = RfcPrivateKey::from_binary_representation(
        &first.private_key.to_binary_representation(),
    )
    .unwrap();
    let mut third = HssPrivateKey { private_key: restored };
    let c = HssSignature::sign(&mut third, b"again", &[6u8; 32]).unwrap();
    let d = HssSignature::sign(&mut second, b"again", &[6u8; 32]).unwrap();
    assert_eq!(c.to_binary_representation(), d.to_binary_representation());
    let e = HssSignature::sign(&mut first, b"again", &[7u8; 32]).unwrap();
    assert_ne!(e.to_binary_representation(), d.to_binary_representation());
}

#[test]
fn another_seed_gives_another_key() {
    let first = HssPrivateKey::generate(&[W4H5; 2], &[1u8; 32]).unwrap();
    let mut second = HssPrivateKey::generate(&[W4H5; 2], &[2u8; 32]).unwrap();
    assert_ne!(
        first.get_public_key().to_binary_representation(),
        second.get_public_key().to_binary_representation()
    );
    let signature = HssSignature::sign(&mut second, b"m", &[0u8; 32]).unwrap();
    assert!(verify(&signature, &first.get_public_key(), b"m").is_err());
    assert!(verify(&signature, &second.get_public_key(), b"m").is_ok());
}

#[test]
fn no_two_signatures_of_a_key_come_from_the_same_leaves() {
    let parameters = [W4H5, W4H5];
    let mut seen = Vec::new();
    for q in [0u64, 1, 31, 32, 33, 63, 64, 500, 1023] {
        let indices = leaf_indices(&parameters, q);
        assert_eq!(indices, vec![(q / 32) as u32, (q % 32) as u32]);
        assert!(!seen.contains(&indices));
        seen.push(indices);
    }
    let mut key = key_at(&parameters, &[3u8; 32], 31);
    let a = HssSignature::sign(&mut key, b"m", &[0u8; 32]).unwrap();
    let b = HssSignature::sign(&mut key, b"m", &[0u8; 32]).unwrap();
    assert_eq!((a.signed_public_keys[0].sig.q, a.signature.q), (0, 31));
    assert_eq!((b.signed_public_keys[0].sig.q, b.signature.q), (1, 0));
    assert_ne!(
        a.signed_public_keys[0].public_key.i,
        b.signed_public_keys[0].public_key.i
    );
}

#[test]
fn leaves_of_unequal_trees() {
    let parameters = [
        (LmotsAlgorithm::LmotsW8, LmsAlgorithm::LmsH10),
        W8H5,
        (LmotsAlgorithm::LmotsW8, LmsAlgorithm::LmsH15),
    ];
    assert_eq!(capacity(&parameters), 1u64 << 30);
    assert_eq!(leaf_indices(&parameters, 0), vec![0, 0, 0]);
    assert_eq!(leaf_indices(&parameters, (1 << 30) - 1), vec![1023, 31, 32767]);
    let q = (700u64 << 20) + (17 << 15) + 12345;
    assert_eq!(leaf_indices(&parameters, q), vec![700, 17, 12345]);
    assert_eq!(capacity(&[W8H5]), 32);
    let tallest = [(LmotsAlgorithm::LmotsW1, LmsAlgorithm::LmsH25); 2];
    assert_eq!(capacity(&tallest), 1u64 << 50);
}

#[test]
fn keys_that_cannot_be_made() {
    let seed = [0u8; 32];
    let mixed = [W8H5, (LmotsAlgorithm::LmotsN24W8, LmsAlgorithm::LmsM24H5)];
    let too_tall = [(LmotsAlgorithm::LmotsW8, LmsAlgorithm::LmsH25); 3];
    assert_eq!(HssPrivateKey::generate(&[], &seed).err(), Some(LmsError::ConfigInvalid));
    assert_eq!(HssPrivateKey::generate(&[W8H5; 9], &seed).err(), Some(LmsError::ConfigInvalid));
    assert_eq!(HssPrivateKey::generate(&mixed, &seed).err(), Some(LmsError::ConfigInvalid));
    assert_eq!(HssPrivateKey::generate(&too_tall, &seed).err(), Some(LmsError::ConfigInvalid));
    assert_eq!(HssPrivateKey::generate(&[], &[]).err(), Some(LmsError::ConfigInvalid));
    assert_eq!(
        HssPrivateKey::generate(&[W8H5; 2], &seed[..31]).err(),
        Some(LmsError::EntropyFailure)
    );
    assert_eq!(
        HssPrivateKey::generate(&[W8H5; 2], &[0u8; 33]).err(),
        Some(LmsError::EntropyFailure)
    );
    assert_eq!(
        HssPrivateKey::generate(&[(LmotsAlgorithm::LmotsN24W8, LmsAlgorithm::LmsM24H5)], &seed).err(),
        Some(LmsError::EntropyFailure)
    );
    assert!(HssPrivateKey::generate(&[W8H5; 8], &seed).is_ok());
}

#[test]
fn a_randomizer_of_the_wrong_length_is_refused_and_the_counter_stays() {
    let mut key = key_at(&[W8H5; 2], &[0u8; 32], 5);
    let before = key.private_key.to_binary_representation();
    for len in [0usize, 24, 31, 33] {
        assert_eq!(
            HssSignature::sign(&mut key, b"m", &vec![0u8; len]).err(),
            Some(LmsError::EntropyFailure)
        );
        assert_eq!(key.private_key.to_binary_representation(), before);
    }
    assert!(HssSignature::sign(&mut key, b"m", &[0u8; 32]).is_ok());
    assert_eq!(key.get_q(), 6);
}

#[test]
fn signatures_with_the_wrong_number_of_levels_are_rejected() {
    let mut two = HssPrivateKey::generate(&[W4H5; 2], &[8u8; 32]).unwrap();
    let mut one = HssPrivateKey::generate(&[W4H5], &[8u8; 32]).unwrap();
    let public_two = two.get_public_key();
    let public_one = one.get_public_key();
    let by_two = HssSignature::sign(&mut two, b"m", &[0u8; 32]).unwrap();
    let by_one = HssSignature::sign(&mut one, b"m", &[0u8; 32]).unwrap();
    assert!(verify(&by_two, &public_two, b"m").is_ok());
    assert!(verify(&by_one, &public_one, b"m").is_ok());
    assert_eq!(verify(&by_one, &public_two, b"m"), Err(LmsError::VerificationFailure));
    assert_eq!(verify(&by_two, &public_one, b"m"), Err(LmsError::VerificationFailure));
    let claims_three = HssPublicKey { level: 3, public_key: two.get_public_key().public_key };
    assert!(verify(&by_two, &claims_three, b"m").is_err());
    let claims_none = HssPublicKey { level: 0, public_key: one.get_public_key().public_key };
    assert!(verify(&by_one, &claims_none, b"m").is_err());
}

#[test]
fn a_changed_signed_public_key_is_rejected() {
    let mut key = HssPrivateKey::generate(&[W4H5; 2], &[8u8; 32]).unwrap();
    let public_key = key.get_public_key();
    let mut signature = HssSignature::sign(&mut key, b"m", &[0u8; 32]).unwrap();
    signature.signed_public_keys[0].public_key.key[0] ^= 1;
    assert!(verify(&signature, &public_key, b"m").is_err());
    signature.signed_public_keys[0].public_key.key[0] ^= 1;
    assert!(verify(&signature, &public_key, b"m").is_ok());
    signature.signed_public_keys[0].sig.path[4][31] ^= 0x80;
    assert!(verify(&signature, &public_key, b"m").is_err());
    signature.signed_public_keys[0].sig.path[4][31] ^= 0x80;
    signature.signature.lmots_signature.c[7] ^= 2;
    assert!(verify(&signature, &public_key, b"m").is_err());
}

#[test]
fn error_messages() {
    assert_eq!(LmsError::MalformedInput.message(), "malformed input");
    assert_eq!(LmsError::VerificationFailure.message(), "signature invalid");
    assert_eq!(LmsError::KeyExhausted.message(), "key exhausted");
    assert_eq!(LmsError::EntropyFailure.message(), "entropy failure");
    assert_eq!(LmsError::ConfigInvalid.message(), "invalid configuration");
}
