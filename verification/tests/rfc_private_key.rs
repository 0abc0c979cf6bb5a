use hbs_lms::hasher::Sha256Hasher;
use hbs_lms::hss::rfc_private_key::{
    generate_child_seed_I_value, CompressedParameterSet, RfcPrivateKey, SeedAndI,
};
use hbs_lms::hss::seed_derive::SeedDerive;
use hbs_lms::lm_ots::parameter::LmotsAlgorithm;
use hbs_lms::lms::parameter::LmsAlgorithm;

const W8H5: (LmotsAlgorithm, LmsAlgorithm) = (LmotsAlgorithm::LmotsW8, LmsAlgorithm::LmsH5);
const W4H10: (LmotsAlgorithm, LmsAlgorithm) = (LmotsAlgorithm::LmotsW4, LmsAlgorithm::LmsH10);

fn hex(bytes: &[u8]) -> String {
    let mut s = String::new();
    for b in bytes {
        s.push_str(&format!("{:02x}", b));
    }
    s
}

#[test]
fn a_seed_and_an_identifier_are_copied() {
    let seed: Vec<u8> = (0..32).collect();
    let i: Vec<u8> = (100..132).collect();
    let both = SeedAndI::new(&seed, &i);
    assert_eq!(both.seed, seed);
    assert_eq!(&both.i[..], &i[..16]);
    let exact = SeedAndI::new(&seed[..24], &i[..16]);
    assert_eq!(exact.seed, &seed[..24]);
    assert_eq!(&exact.i[..], &i[..16]);
}

#[test]
fn levels_pack_into_eight_bytes() {
    let set = CompressedParameterSet::from(&[W8H5, W4H10]).unwrap();
    assert_eq!(set.0, [0x54, 0x63, 0xff, 0xff, 0xff, 0xff, 0xff, 0xff]);
    assert_eq!(set.to(), vec![W8H5, W4H10]);
    let full = CompressedParameterSet::from(&[W8H5; 8]).unwrap();
    assert_eq!(full.0, [0x54; 8]);
    assert_eq!(full.to(), vec![W8H5; 8]);
    let one = CompressedParameterSet::from(&[(LmotsAlgorithm::LmotsN24W1, LmsAlgorithm::LmsM24H25)])
        .unwrap();
    assert_eq!(one.0, [0xe5, 0xff, 0xff, 0xff, 0xff, 0xff, 0xff, 0xff]);
    assert_eq!(one.to(), vec![(LmotsAlgorithm::LmotsN24W1, LmsAlgorithm::LmsM24H25)]);
}

#[test]
fn levels_that_make_no_key_are_not_packed() {
    assert!(CompressedParameterSet::from(&[]).is_none());
    assert!(CompressedParameterSet::from(&[W8H5; 9]).is_none());
    assert!(CompressedParameterSet::from(&[(LmotsAlgorithm::LmotsW8, LmsAlgorithm::LmsH25); 3]).is_none());
    assert!(CompressedParameterSet::from(&[(LmotsAlgorithm::LmotsW8, LmsAlgorithm::LmsM24H5)]).is_none());
}

#[test]
fn packed_levels_are_taken_from_a_slice() {
    let bytes = [0x54, 0x63, 0xff, 0xff, 0xff, 0xff, 0xff, 0xff];
    let set = CompressedParameterSet::from_slice(&bytes).unwrap();
    assert_eq!(set.0, bytes);
    assert_eq!(set.to(), vec![W8H5, W4H10]);
    assert!(CompressedParameterSet::from_slice(&[0x54; 8]).is_some());
}

#[test]
fn malformed_packed_levels_are_refused() {
    let good = [0x54u8, 0x54, 0xff, 0xff, 0xff, 0xff, 0xff, 0xff];
    assert!(CompressedParameterSet::from_slice(&good).is_some());
    assert!(CompressedParameterSet::from_slice(&good[..7]).is_none());
    assert!(CompressedParameterSet::from_slice(&[]).is_none());
    let mut nine = good.to_vec();
    nine.push(0xff);
    assert!(CompressedParameterSet::from_slice(&nine).is_none());
    assert!(CompressedParameterSet::from_slice(&[0xff; 8]).is_none());
    assert!(CompressedParameterSet::from_slice(&[0; 8]).is_none());
    for position in 0..8 {
        let mut changed = good;
        changed[position] = 0xee;
        assert!(CompressedParameterSet::from_slice(&changed).is_none(), "position {}", position);
    }
    let gap = [0x54u8, 0xff, 0x54, 0xff, 0xff, 0xff, 0xff, 0xff];
    assert!(CompressedParameterSet::from_slice(&gap).is_none());
    let mixed = [0x54u8, 0xa8, 0xff, 0xff, 0xff, 0xff, 0xff, 0xff];
    assert!(CompressedParameterSet::from_slice(&mixed).is_none());
    let too_tall = [0x91u8, 0x91, 0x91, 0xff, 0xff, 0xff, 0xff, 0xff];
    assert!(CompressedParameterSet::from_slice(&too_tall).is_none());
    let unknown_tree = [0x44u8, 0xff, 0xff, 0xff, 0xff, 0xff, 0xff, 0xff];
    assert!(CompressedParameterSet::from_slice(&unknown_tree).is_none());
    let unknown_one_time = [0x59u8, 0xff, 0xff, 0xff, 0xff, 0xff, 0xff, 0xff];
    assert!(CompressedParameterSet::from_slice(&unknown_one_time).is_none());
}

#[test]
fn a_fresh_state_counts_from_zero() {
    let seed: Vec<u8> = (0..32).collect();
    let key = RfcPrivateKey::generate(&[W8H5, W8H5], &seed).unwrap();
    assert_eq!(key.q, 0);
    assert_eq!(key.seed, seed);
    assert_eq!(key.get_n(), 32);
    assert_eq!(
        hex(&key.to_binary_representation()),
        "00000000000000005454ffffffffffff000102030405060708090a0b0c0d0e0f101112131415161718191a1b1c1d1e1f"
    );
    assert!(RfcPrivateKey::generate(&[W8H5, W8H5], &seed[..24]).is_none());
    assert!(RfcPrivateKey::generate(&[], &seed).is_none());
    let short = RfcPrivateKey::generate(
        &[(LmotsAlgorithm::LmotsN24W8, LmsAlgorithm::LmsM24H10)],
        &seed[..24],
    )
    .unwrap();
    assert_eq!(short.get_n(), 24);
    assert_eq!(
        hex(&short.to_binary_representation()),
        "0000000000000000b8ffffffffffffff000102030405060708090a0b0c0d0e0f1011121314151617"
    );
}

#[test]
fn state_bytes_parse_back() {
    let seed: Vec<u8> = (50..82).collect();
    let mut key = RfcPrivateKey::generate(&[W8H5, W4H10, W8H5], &seed).unwrap();
    key.q = 0x0102_0304_0506_0708;
    let bytes = key.to_binary_representation();
    assert_eq!(bytes.len(), 48);
    assert_eq!(&bytes[..8], &[1, 2, 3, 4, 5, 6, 7, 8]);
    let parsed = RfcPrivateKey::from_binary_representation(&bytes).unwrap();
    assert_eq!(parsed.q, key.q);
    assert_eq!(parsed.compressed_parameter.0, key.compressed_parameter.0);
    assert_eq!(parsed.seed, key.seed);
    assert_eq!(parsed.to_binary_representation(), bytes);
    assert_eq!(parsed.compressed_parameter.to(), vec![W8H5, W4H10, W8H5]);
}

#[test]
fn an_unregistered_byte_in_the_packed_levels_is_refused() {
    let key = RfcPrivateKey::generate(&[W8H5, W8H5], &[0u8; 32]).unwrap();
    let bytes = key.to_binary_representation();
    for position in 8..16 {
        let mut changed = bytes.clone();
        changed[position] = 0xee;
        assert!(
            RfcPrivateKey::from_binary_representation(&changed).is_none(),
            "position {}",
            position
        );
    }
    assert!(RfcPrivateKey::from_binary_representation(&bytes).is_some());
}

#[test]
fn state_bytes_of_the_wrong_length_are_refused() {
    let key = RfcPrivateKey::generate(&[W8H5, W8H5], &[0u8; 32]).unwrap();
    let bytes = key.to_binary_representation();
    for len in [0usize, 8, 15, 16, 40, 47] {
        assert!(RfcPrivateKey::from_binary_representation(&bytes[..len]).is_none());
    }
    let mut longer = bytes.clone();
    longer.push(0);
    assert!(RfcPrivateKey::from_binary_representation(&longer).is_none());
    let mut short_digests = bytes.clone();
    short_digests[8] = 0xa8;
    short_digests[9] = 0xa8;
    assert!(RfcPrivateKey::from_binary_representation(&short_digests).is_none());
    assert!(RfcPrivateKey::from_binary_representation(&short_digests[..40]).is_some());
}

#[test]
fn the_top_tree_is_derived_from_the_root_seed() {
    let key = RfcPrivateKey::generate(&[W8H5, W8H5], &[0u8; 32]).unwrap();
    let top = key.generate_root_seed_I_value();
    assert_eq!(
        hex(&top.seed),
        "cb9b4e95187da33b58ca87dc7660862457819909eaa0b7346405556249bf3c59"
    );
    assert_eq!(hex(&top.i), "f9e66daa0532637dd6cb5cb9ae490058");
    let seed: Vec<u8> = (0..24).collect();
    let short =
        RfcPrivateKey::generate(&[(LmotsAlgorithm::LmotsN24W8, LmsAlgorithm::LmsM24H10)], &seed)
            .unwrap();
    let top = short.generate_root_seed_I_value();
    assert_eq!(hex(&top.seed), "a1e9253ffd914fec4866b6ebd1aeed612c7f89d7616ec989");
    assert_eq!(hex(&top.i), "2318d135567adee344904df41153d9e8");
}

#[test]
fn the_top_tree_does_not_depend_on_the_counter() {
    let mut key = RfcPrivateKey::generate(&[W8H5, W8H5], &[9u8; 32]).unwrap();
    let before = key.generate_root_seed_I_value();
    key.q = 77;
    let after = key.generate_root_seed_I_value();
    assert_eq!(before.seed, after.seed);
    assert_eq!(before.i, after.i);
}

#[test]
fn a_child_tree_is_derived_from_its_parent_and_the_leaf() {
    let key = RfcPrivateKey::generate(&[W8H5, W8H5], &[0u8; 32]).unwrap();
    let top = key.generate_root_seed_I_value();
    let child = generate_child_seed_I_value(&top.seed, &top.i, 5, W8H5.0, W8H5.1);
    assert_eq!(
        hex(&child.seed),
        "3a9839a93b83199dc49398d756cd7a68e260252d309e1521fe5f0af3d671c88c"
    );
    assert_eq!(hex(&child.i), "dd07d9b01ea43809d9cb0935c3979b2b");
    let other = generate_child_seed_I_value(&top.seed, &top.i, 6, W8H5.0, W8H5.1);
    assert_ne!(other.seed, child.seed);
    assert_ne!(other.i, child.i);

    let mut hasher = Sha256Hasher::new(32);
    hasher.update(&top.i);
    hasher.update(&[0, 0, 0, 5, 0xff, 0xfe, 0xff]);
    hasher.update(&top.seed);
    assert_eq!(child.seed, hasher.finalize());
    let mut hasher = Sha256Hasher::new(32);
    hasher.update(&top.i);
    hasher.update(&[0, 0, 0, 5, 0xff, 0xff, 0xff]);
    hasher.update(&top.seed);
    assert_eq!(&child.i[..], &hasher.finalize()[..16]);
}

#[test]
fn a_derivation_moves_its_index_on_when_asked() {
    let i = [4u8; 16];
    let mut derive = SeedDerive::new(32, &[1u8; 32], &i);
    derive.set_q(3);
    derive.set_j(0xfffe);
    let first = derive.seed_derive(true);
    assert_eq!(derive.j, 0xffff);
    let second = derive.seed_derive(false);
    assert_eq!(derive.j, 0xffff);
    assert_eq!(derive.seed_derive(true), second);
    assert_eq!(derive.j, 0);
    assert_ne!(first, second);
    let mut again = SeedDerive::new(32, &[1u8; 32], &i);
    again.set_q(3);
    again.set_j(0xfffe);
    assert_eq!(again.seed_derive(false), first);
    assert_eq!(again.q, 3);
    let mut short = SeedDerive::new(24, &[1u8; 32], &i);
    short.set_q(3);
    short.set_j(0xfffe);
    assert_eq!(short.seed_derive(false), &first[..24]);
}
