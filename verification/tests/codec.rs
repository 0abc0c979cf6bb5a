use hbs_lms::lm_ots::parameter::LmotsAlgorithm;
use hbs_lms::util::coef::{coef, max_digit};
use hbs_lms::util::compare::bytes_equal;
use hbs_lms::util::ustr::{str16u, str32u, str64u, u16str, u32str, u64str, u8str};

#[test]
fn integers_are_packed_big_endian() {
    assert_eq!(u8str(0xab), [0xab]);
    assert_eq!(u16str(0x8081), [0x80, 0x81]);
    assert_eq!(u32str(0x0102_0304), [1, 2, 3, 4]);
    assert_eq!(u64str(0x0102_0304_0506_0708), [1, 2, 3, 4, 5, 6, 7, 8]);
    assert_eq!(u32str(u32::MAX), [0xff; 4]);
    assert_eq!(u64str(0), [0; 8]);
}

#[test]
fn unpacking_undoes_packing() {
    for x in [0u64, 1, 0xff, 0x100, 0xdead_beef, 0x1_0000_0000, u64::MAX] {
        assert_eq!(str64u(&u64str(x)), x);
        assert_eq!(str32u(&u32str(x as u32)), x as u32);
        assert_eq!(str16u(&u16str(x as u16)), x as u16);
    }
    assert_eq!(str32u(&[0, 0, 1, 0, 9, 9]), 256);
}

#[test]
fn coef_reads_fields_most_significant_first() {
    let s = [0x12u8, 0x34];
    let w8: Vec<u8> = (0..2).map(|i| coef(&s, i, 8)).collect();
    let w4: Vec<u8> = (0..4).map(|i| coef(&s, i, 4)).collect();
    let w2: Vec<u8> = (0..8).map(|i| coef(&s, i, 2)).collect();
    let w1: Vec<u8> = (0..16).map(|i| coef(&s, i, 1)).collect();
    assert_eq!(w8, [18, 52]);
    assert_eq!(w4, [1, 2, 3, 4]);
    assert_eq!(w2, [0, 1, 0, 2, 0, 3, 1, 0]);
    assert_eq!(w1, [0, 0, 0, 1, 0, 0, 1, 0, 0, 0, 1, 1, 0, 1, 0, 0]);
}

#[test]
fn coef_agrees_with_the_shift_and_mask_formula() {
    let s: Vec<u8> = (0..34).map(|k| (k * 37 + 11) as u8).collect();
    for w in [1u8, 2, 4, 8] {
        let count = (s.len() * 8 / w as usize) as u16;
        for i in 0..count {
            let bit = i as usize * w as usize;
            let expected = (s[bit / 8] >> (8 - w as usize - bit % 8)) & ((1u16 << w) - 1) as u8;
            assert_eq!(coef(&s, i, w), expected);
            assert!(coef(&s, i, w) <= max_digit(w));
        }
    }
}

#[test]
fn largest_digits() {
    assert_eq!(max_digit(1), 1);
    assert_eq!(max_digit(2), 3);
    assert_eq!(max_digit(4), 15);
    assert_eq!(max_digit(8), 255);
}

#[test]
fn checksum_is_appended_as_two_bytes() {
    let digest: Vec<u8> = (0..32).map(|k| (2 * k) as u8).collect();
    let expected = [
        (LmotsAlgorithm::LmotsW1, [0x58u8, 0x00]),
        (LmotsAlgorithm::LmotsW2, [0x40, 0x00]),
        (LmotsAlgorithm::LmotsW4, [0x2b, 0x00]),
        (LmotsAlgorithm::LmotsW8, [0x1c, 0x00]),
    ];
    for (parameter, checksum) in expected {
        let with = parameter.get_appended_with_checksum(&digest);
        assert_eq!(with.len(), 34);
        assert_eq!(&with[..32], &digest[..]);
        assert_eq!(&with[32..], &checksum[..]);
    }
}

#[test]
fn checksum_of_all_ones_is_zero_and_of_all_zeros_is_largest() {
    let ones = [0xffu8; 32];
    let zeros = [0u8; 32];
    let with = LmotsAlgorithm::LmotsW8.get_appended_with_checksum(&ones);
    assert_eq!(&with[32..], &[0, 0]);
    let with = LmotsAlgorithm::LmotsW8.get_appended_with_checksum(&zeros);
    assert_eq!(&with[32..], &u16str(32 * 255));
    let with = LmotsAlgorithm::LmotsW1.get_appended_with_checksum(&zeros);
    assert_eq!(&with[32..], &u16str(256 << 7));
    let with = LmotsAlgorithm::LmotsN24W1.get_appended_with_checksum(&zeros[..24]);
    assert_eq!(&with[24..], &u16str(192 << 8));
}

#[test]
fn byte_strings_compare_by_content() {
    assert!(bytes_equal(b"", b""));
    assert!(bytes_equal(b"abc", b"abc"));
    assert!(!bytes_equal(b"abc", b"abd"));
    assert!(!bytes_equal(b"abc", b"bbc"));
    assert!(!bytes_equal(b"abc", b"abcd"));
    assert!(!bytes_equal(b"abc", b""));
}
