use hbs_lms::hasher::Sha256Hasher;
use hbs_lms::lm_ots::definitions::LmotsPublicKey;
use hbs_lms::lm_ots::keygen::{chain, generate_private_key, generate_public_key};
use hbs_lms::lm_ots::parameter::LmotsAlgorithm;
use hbs_lms::lm_ots::signing::LmotsSignature;
use hbs_lms::lm_ots::verify::{generate_public_key_candidate, verify_signature};

const I: [u8; 16] = [0, 1, 2, 3, 4, 5, 6, 7, 8, 9, 10, 11, 12, 13, 14, 15];
const Q: [u8; 4] = [0, 0, 0, 3];

const ALL: [LmotsAlgorithm; 8] = [
    LmotsAlgorithm::LmotsW1,
    LmotsAlgorithm::LmotsW2,
    LmotsAlgorithm::LmotsW4,
    LmotsAlgorithm::LmotsW8,
    LmotsAlgorithm::LmotsN24W1,
    LmotsAlgorithm::LmotsN24W2,
    LmotsAlgorithm::LmotsN24W4,
    LmotsAlgorithm::LmotsN24W8,
];

fn hex(bytes: &[u8]) -> String {
    let mut s = String::new();
    for b in bytes {
        s.push_str(&format!("{:02x}", b));
    }
    s
}

fn sha256(data: &[u8]) -> String {
    let mut hasher = Sha256Hasher::new(32);
    hasher.update(data);
    hex(&hasher.finalize())
}

#[test]
fn secrets_are_derived_from_the_seed() {
    let key = generate_private_key(LmotsAlgorithm::LmotsW8, I, Q, &[1u8; 32]);
    assert_eq!(key.key.len(), 34);
    assert_eq!(
        hex(&key.key[0]),
        "d1550ee49f79098196f598e677af7ca8bb7db76338dc04d14f860875bb54ab1c"
    );
    let mut hasher = Sha256Hasher::new(32);
    hasher.update(&I);
    hasher.update(&Q);
    hasher.update(&[0, 33, 0xff]);
    hasher.update(&[1u8; 32]);
    assert_eq!(key.key[33], hasher.finalize());
    let short = generate_private_key(LmotsAlgorithm::LmotsN24W1, I, Q, &[1u8; 24]);
    assert_eq!(short.key.len(), 200);
    assert_eq!(hex(&short.key[0]), "430f6ad6b358b777d8d68c3759ee53a8336196d61cd9fbeb");
}

#[test]
fn public_keys_have_their_known_values() {
    let expected = [
        (LmotsAlgorithm::LmotsW1, "9ca0c3c4c24f643118e962dce3792aba259ba48108fc8cb6bf5cc47be2867be7"),
        (LmotsAlgorithm::LmotsW2, "83ac3960f84fa540c08669f659fcfd15e19311eb6c2b943c521b1eeeabd515b7"),
        (LmotsAlgorithm::LmotsW4, "a7cdf7c00ea70fe0dfea07b2ec4c46fe49fde97a9df2a961f25f333d12dab953"),
        (LmotsAlgorithm::LmotsW8, "87f4cc343f6b1f46172573e9d24565288f0f4d07180be3739a64304c645966c4"),
    ];
    for (parameter, k) in expected {
        let key = generate_private_key(parameter, I, Q, &[1u8; 32]);
        let public = generate_public_key(&key);
        assert_eq!(hex(&public.key), k);
        assert_eq!(public.i, I);
        assert_eq!(public.q, Q);
    }
    let expected = [
        (LmotsAlgorithm::LmotsN24W1, "17c05c64839fae1a283e72e27cf2bc0a21cb0293bdbbc03b"),
        (LmotsAlgorithm::LmotsN24W8, "f7393f2ef6939f6cdc642d9edcf84115c5191f1101605aac"),
    ];
    for (parameter, k) in expected {
        let key = generate_private_key(parameter, I, Q, &[1u8; 24]);
        assert_eq!(hex(&generate_public_key(&key).key), k);
    }
}

#[test]
fn signatures_have_their_known_values() {
    let expected = [
        (LmotsAlgorithm::LmotsW1, 8516, "0a22beb1c3bc20754b474942db1fbb7179e46a0caf6538879b355213c0d19e91"),
        (LmotsAlgorithm::LmotsW2, 4292, "5c36f6e084c1bdc1398ed09866e58e2c53d4c32125d218022659e4bb635f49b7"),
        (LmotsAlgorithm::LmotsW4, 2180, "ff0a1c99fd5f0d4e1dbe4d0b8dd8979f89d2824dc7d5fcaefafc5a2b08793fca"),
        (LmotsAlgorithm::LmotsW8, 1124, "8910f09351e53312649c56ee557ee7b999ed2a70d0c503b068ae87df94339ecf"),
        (LmotsAlgorithm::LmotsN24W1, 4828, "e50f2cc1ea25b298ee1d39d78144a59f49d26cfcf4d3e3984c8b81fb7ea7811b"),
        (LmotsAlgorithm::LmotsN24W8, 652, "2d848675d4712f3b96c2c95bd16b173900ac0d51acaf3452e395a40b41a13cc1"),
    ];
    for (parameter, len, digest) in expected {
        let n = parameter.get_n();
        let key = generate_private_key(parameter, I, Q, &[1u8; 32][..n]);
        let signature = LmotsSignature::sign(&key, b"hello", &[2u8; 32][..n]);
        let bytes = signature.to_binary_representation();
        assert_eq!(bytes.len(), len);
        assert_eq!(sha256(&bytes), digest);
    }
}

#[test]
fn every_set_verifies_what_it_signs() {
    for parameter in ALL {
        let n = parameter.get_n();
        let key = generate_private_key(parameter, I, Q, &[7u8; 32][..n]);
        let public = generate_public_key(&key);
        let signature = LmotsSignature::sign(&key, b"a message", &[9u8; 32][..n]);
        assert!(signature.is_well_formed());
        assert!(verify_signature(&signature, &public, b"a message"));
        assert_eq!(
            generate_public_key_candidate(&signature, &I, &Q, b"a message"),
            public.key
        );
        assert!(!verify_signature(&signature, &public, b"b message"));
        assert!(!verify_signature(&signature, &public, b"a message "));
    }
}

#[test]
fn a_changed_signature_is_rejected() {
    let parameter = LmotsAlgorithm::LmotsW4;
    let key = generate_private_key(parameter, I, Q, &[7u8; 32]);
    let public = generate_public_key(&key);
    let bytes = LmotsSignature::sign(&key, b"a message", &[9u8; 32]).to_binary_representation();
    for position in [4usize, 35, 36, 100, bytes.len() - 1] {
        let mut changed = bytes.clone();
        changed[position] ^= 0x10;
        let signature = LmotsSignature::from_binary_representation(&changed).unwrap();
        assert!(!verify_signature(&signature, &public, b"a message"));
    }
}

#[test]
fn a_signature_under_another_key_or_set_is_rejected() {
    let key = generate_private_key(LmotsAlgorithm::LmotsW8, I, Q, &[7u8; 32]);
    let public = generate_public_key(&key);
    let signature = LmotsSignature::sign(&key, b"a message", &[9u8; 32]);
    let other_leaf = LmotsPublicKey::new(I, [0, 0, 0, 4], LmotsAlgorithm::LmotsW8, public.key.clone());
    assert!(!verify_signature(&signature, &other_leaf, b"a message"));
    let other_set = LmotsPublicKey::new(I, Q, LmotsAlgorithm::LmotsW4, public.key.clone());
    assert!(!verify_signature(&signature, &other_set, b"a message"));
    let same = LmotsPublicKey::new(I, Q, LmotsAlgorithm::LmotsW8, public.key.clone());
    assert!(verify_signature(&signature, &same, b"a message"));
}

#[test]
fn a_chain_walked_in_two_stages_is_the_chain_walked_in_one() {
    for parameter in [LmotsAlgorithm::LmotsW8, LmotsAlgorithm::LmotsN24W8] {
        let n = parameter.get_n();
        let x = &[3u8; 32][..n];
        let whole = chain(parameter, &I, &Q, 5, 0, 255, x);
        let half = chain(parameter, &I, &Q, 5, 0, 100, x);
        let rest = chain(parameter, &I, &Q, 5, 100, 255, &half);
        assert_eq!(whole, rest);
        assert_eq!(whole.len(), n);
        assert_eq!(chain(parameter, &I, &Q, 5, 7, 7, x), x);
        assert_eq!(chain(parameter, &I, &Q, 5, 9, 7, x), x);
    }
}

#[test]
fn a_chain_is_one_hash_per_step() {
    let parameter = LmotsAlgorithm::LmotsW8;
    let x = [3u8; 32];
    let mut value = x.to_vec();
    for j in 0..5u8 {
        let mut step = Sha256Hasher::new(32);
        step.update(&I);
        step.update(&Q);
        step.update(&[0, 5, j]);
        step.update(&value);
        value = step.finalize();
        assert_eq!(chain(parameter, &I, &Q, 5, 0, j + 1, &x), value);
    }
    let odd = [3u8; 7];
    let mut step = Sha256Hasher::new(32);
    step.update(&I);
    step.update(&Q);
    step.update(&[0, 5, 9]);
    step.update(&odd);
    let first = step.finalize();
    assert_eq!(chain(parameter, &I, &Q, 5, 9, 10, &odd), first);
    let mut step = Sha256Hasher::new(32);
    step.update(&I);
    step.update(&Q);
    step.update(&[0, 5, 10]);
    step.update(&first);
    assert_eq!(chain(parameter, &I, &Q, 5, 9, 11, &odd), step.finalize());
}

#[test]
fn signature_bytes_parse_back() {
    for parameter in ALL {
        let n = parameter.get_n();
        let key = generate_private_key(parameter, I, Q, &[7u8; 32][..n]);
        let signature = LmotsSignature::sign(&key, b"a message", &[9u8; 32][..n]);
        let bytes = signature.to_binary_representation();
        assert_eq!(bytes.len(), 4 + n * (parameter.get_p() as usize + 1));
        assert_eq!(&bytes[..4], &[0, 0, 0, parameter.get_type() as u8]);
        let parsed = LmotsSignature::from_binary_representation(&bytes).unwrap();
        assert_eq!(parsed.parameter, signature.parameter);
        assert_eq!(parsed.c, signature.c);
        assert_eq!(parsed.y, signature.y);
        assert_eq!(parsed.to_binary_representation(), bytes);
    }
}

#[test]
fn truncated_and_overlong_signatures_do_not_parse() {
    let key = generate_private_key(LmotsAlgorithm::LmotsW8, I, Q, &[7u8; 32]);
    let bytes = LmotsSignature::sign(&key, b"a message", &[9u8; 32]).to_binary_representation();
    for len in [0usize, 1, 3, 4, 5, 36, 1123] {
        assert!(LmotsSignature::from_binary_representation(&bytes[..len]).is_none());
    }
    let mut longer = bytes.clone();
    longer.push(0);
    assert!(LmotsSignature::from_binary_representation(&longer).is_none());
    assert!(LmotsSignature::from_binary_representation(&bytes).is_some());
}

#[test]
fn signatures_of_unknown_or_mismatched_type_do_not_parse() {
    let key = generate_private_key(LmotsAlgorithm::LmotsW8, I, Q, &[7u8; 32]);
    let bytes = LmotsSignature::sign(&key, b"a message", &[9u8; 32]).to_binary_representation();
    for code in [0u8, 9, 0xee] {
        let mut changed = bytes.clone();
        changed[3] = code;
        assert!(LmotsSignature::from_binary_representation(&changed).is_none());
    }
    let mut high = bytes.clone();
    high[0] = 1;
    assert!(LmotsSignature::from_binary_representation(&high).is_none());
    let mut other = bytes.clone();
    other[3] = 3;
    assert!(LmotsSignature::from_binary_representation(&other).is_none());
}

#[test]
fn a_randomizer_of_the_wrong_length_gives_a_signature_that_is_not_well_formed() {
    let key = generate_private_key(LmotsAlgorithm::LmotsW8, I, Q, &[7u8; 32]);
    let signature = LmotsSignature::sign(&key, b"a message", &[9u8; 31]);
    assert!(!signature.is_well_formed());
    let bytes = signature.to_binary_representation();
    assert!(LmotsSignature::from_binary_representation(&bytes).is_none());
}
