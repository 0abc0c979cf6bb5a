use hbs_lms::hasher::Sha256Hasher;

fn hex(bytes: &[u8]) -> String {
    let mut s = String::new();
    for b in bytes {
        s.push_str(&format!("{:02x}", b));
    }
    s
}

fn pattern(len: usize) -> Vec<u8> {
    (0..len).map(|k| (k % 256) as u8).collect()
}

fn sha256(data: &[u8]) -> String {
    let mut hasher = Sha256Hasher::new(32);
    hasher.update(data);
    hex(&hasher.finalize())
}

#[test]
fn sha256_of_abc() {
    assert_eq!(
        sha256(b"abc"),
        "ba7816bf8f01cfea414140de5dae2223b00361a396177a9cb410ff61f20015ad"
    );
}

#[test]
fn sha256_of_nothing() {
    assert_eq!(
        sha256(b""),
        "e3b0c44298fc1c149afbf4c8996fb92427ae41e4649b934ca495991b7852b855"
    );
}

#[test]
fn sha256_of_two_block_message() {
    assert_eq!(
        sha256(b"abcdbcdecdefdefgefghfghighijhijkijkljklmklmnlmnomnopnopq"),
        "248d6a61d20638b8e5c026930c3e6039a33ce45964ff2167f6ecedd419db06c1"
    );
}

#[test]
fn sha256_around_the_block_boundaries() {
    let expected = [
        (1, "6e340b9cffb37a989ca544e6bb780a2c78901d3fb33738768511a30617afa01d"),
        (55, "463eb28e72f82e0a96c0a4cc53690c571281131f672aa229e0d45ae59b598b59"),
        (56, "da2ae4d6b36748f2a318f23e7ab1dfdf45acdc9d049bd80e59de82a60895f562"),
        (63, "29af2686fd53374a36b0846694cc342177e428d1647515f078784d69cdb9e488"),
        (64, "fdeab9acf3710362bd2658cdc9a29e8f9c757fcf9811603a8c447cd1d9151108"),
        (65, "4bfd2c8b6f1eec7a2afeb48b934ee4b2694182027e6d0fc075074f2fabb31781"),
        (119, "da18797ed7c3a777f0847f429724a2d8cd5138e6ed2895c3fa1a6d39d18f7ec6"),
        (120, "f52b23db1fbb6ded89ef42a23ce0c8922c45f25c50b568a93bf1c075420bbb7c"),
        (128, "471fb943aa23c511f6f72f8d1652d9c880cfa392ad80503120547703e56a2be5"),
        (1000, "a8af099bf2e878609558dbf69d8f88f4a31040a8cf84b549a0cfa912f12ffc3f"),
    ];
    for (len, digest) in expected {
        assert_eq!(sha256(&pattern(len)), digest, "length {}", len);
    }
}

#[test]
fn update_in_pieces_equals_update_at_once() {
    let data = pattern(300);
    for cut in [0, 1, 63, 64, 65, 128, 299, 300] {
        let mut hasher = Sha256Hasher::new(32);
        hasher.update(&data[..cut]);
        hasher.update(&data[cut..]);
        assert_eq!(hex(&hasher.finalize()), sha256(&data));
    }
}

#[test]
fn output_is_cut_to_the_length_asked_for() {
    let mut hasher = Sha256Hasher::new(24);
    hasher.update(b"abc");
    assert_eq!(
        hex(&hasher.finalize()),
        "ba7816bf8f01cfea414140de5dae2223b00361a396177a9c"
    );
    let mut none = Sha256Hasher::new(0);
    none.update(b"abc");
    assert_eq!(none.finalize().len(), 0);
}

#[test]
fn output_longer_than_the_digest_is_the_whole_digest() {
    let mut hasher = Sha256Hasher::new(64);
    hasher.update(b"abc");
    assert_eq!(
        hex(&hasher.finalize()),
        "ba7816bf8f01cfea414140de5dae2223b00361a396177a9cb410ff61f20015ad"
    );
}

#[test]
fn finalize_reset_leaves_the_hasher_as_new() {
    let mut hasher = Sha256Hasher::new(32);
    hasher.update(b"something else");
    let first = hasher.finalize_reset();
    assert_eq!(hex(&first), sha256(b"something else"));
    hasher.update(b"abc");
    assert_eq!(hex(&hasher.finalize_reset()), sha256(b"abc"));
    assert_eq!(hex(&hasher.finalize()), sha256(b""));
}
