use hbs_lms::hss::parameter::{check_parameters, pack, unpack};
use hbs_lms::lm_ots::parameter::LmotsAlgorithm;
use hbs_lms::lms::parameter::LmsAlgorithm;

const LMOTS: [LmotsAlgorithm; 8] = [
    LmotsAlgorithm::LmotsW1,
    LmotsAlgorithm::LmotsW2,
    LmotsAlgorithm::LmotsW4,
    LmotsAlgorithm::LmotsW8,
    LmotsAlgorithm::LmotsN24W1,
    LmotsAlgorithm::LmotsN24W2,
    LmotsAlgorithm::LmotsN24W4,
    LmotsAlgorithm::LmotsN24W8,
];

const LMS: [LmsAlgorithm; 10] = [
    LmsAlgorithm::LmsH5,
    LmsAlgorithm::LmsH10,
    LmsAlgorithm::LmsH15,
    LmsAlgorithm::LmsH20,
    LmsAlgorithm::LmsH25,
    LmsAlgorithm::LmsM24H5,
    LmsAlgorithm::LmsM24H10,
    LmsAlgorithm::LmsM24H15,
    LmsAlgorithm::LmsM24H20,
    LmsAlgorithm::LmsM24H25,
];

#[test]
fn one_time_sets_have_the_registered_sizes() {
    let expected = [
        (1, 32, 1, 265, 7),
        (2, 32, 2, 133, 6),
        (3, 32, 4, 67, 4),
        (4, 32, 8, 34, 0),
        (5, 24, 1, 200, 8),
        (6, 24, 2, 101, 6),
        (7, 24, 4, 51, 4),
        (8, 24, 8, 26, 0),
    ];
    for (parameter, (code, n, w, p, ls)) in LMOTS.iter().zip(expected) {
        assert_eq!(parameter.get_type(), code);
        assert_eq!(parameter.get_n(), n);
        assert_eq!(parameter.get_w(), w);
        assert_eq!(parameter.get_p(), p);
        assert_eq!(parameter.get_ls(), ls);
        assert_eq!(parameter.get_max_digit() as u32, (1u32 << w) - 1);
    }
}

#[test]
fn chain_count_and_shift_follow_from_n_and_w() {
    for parameter in LMOTS {
        let n = parameter.get_n() as u32;
        let w = parameter.get_w() as u32;
        let u = (8 * n + w - 1) / w;
        let largest_sum = ((1u32 << w) - 1) * u;
        let bits = 32 - largest_sum.leading_zeros();
        let v = (bits + w - 1) / w;
        assert_eq!(parameter.get_p() as u32, u + v);
        assert_eq!(parameter.get_ls() as u32, 16 - v * w);
    }
}

#[test]
fn tree_sets_have_the_registered_sizes() {
    let expected = [
        (5, 32, 5),
        (6, 32, 10),
        (7, 32, 15),
        (8, 32, 20),
        (9, 32, 25),
        (10, 24, 5),
        (11, 24, 10),
        (12, 24, 15),
        (13, 24, 20),
        (14, 24, 25),
    ];
    for (parameter, (code, m, h)) in LMS.iter().zip(expected) {
        assert_eq!(parameter.get_type(), code);
        assert_eq!(parameter.get_m(), m);
        assert_eq!(parameter.get_h(), h);
        assert_eq!(parameter.get_leaves(), 1u32 << h);
    }
}

#[test]
fn type_codes_are_looked_up() {
    for parameter in LMOTS {
        assert_eq!(LmotsAlgorithm::from_u32(parameter.get_type()), Some(parameter));
    }
    for parameter in LMS {
        assert_eq!(LmsAlgorithm::from_u32(parameter.get_type()), Some(parameter));
    }
}

#[test]
fn unknown_type_codes_are_not_treated_as_any_set() {
    for code in [0u32, 9, 14, 15, 0x100, 0x0100_0000, u32::MAX] {
        assert_eq!(LmotsAlgorithm::from_u32(code), None);
    }
    for code in [0u32, 1, 4, 15, 16, 0x500, 0x0500_0000, u32::MAX] {
        assert_eq!(LmsAlgorithm::from_u32(code), None);
    }
}

#[test]
fn default_sets() {
    assert_eq!(LmotsAlgorithm::construct_default_parameter(), LmotsAlgorithm::LmotsW1);
    assert_eq!(LmsAlgorithm::construct_default_parameter(), LmsAlgorithm::LmsH5);
}

#[test]
fn a_level_packs_into_one_byte() {
    assert_eq!(pack(&(LmotsAlgorithm::LmotsW8, LmsAlgorithm::LmsH5)), 0x54);
    assert_eq!(pack(&(LmotsAlgorithm::LmotsW1, LmsAlgorithm::LmsH25)), 0x91);
    assert_eq!(pack(&(LmotsAlgorithm::LmotsN24W8, LmsAlgorithm::LmsM24H10)), 0xb8);
    for lmots in LMOTS {
        for lms in LMS {
            let b = pack(&(lmots, lms));
            assert_ne!(b, 0xff);
            assert_eq!(unpack(b), Some((lmots, lms)));
        }
    }
}

#[test]
fn bytes_that_pack_no_level() {
    for b in [0x00u8, 0x04, 0x50, 0x59, 0x5f, 0x44, 0xf4, 0xee, 0xff] {
        assert_eq!(unpack(b), None, "byte {:#x}", b);
    }
}

#[test]
fn levels_fit_to_make_a_key() {
    let w8h5 = (LmotsAlgorithm::LmotsW8, LmsAlgorithm::LmsH5);
    let w1h25 = (LmotsAlgorithm::LmotsW1, LmsAlgorithm::LmsH25);
    assert!(check_parameters(&[w8h5]));
    assert!(check_parameters(&[w8h5; 8]));
    assert!(check_parameters(&[w1h25, w1h25, w8h5, w8h5]));
    assert!(check_parameters(&[(LmotsAlgorithm::LmotsN24W4, LmsAlgorithm::LmsM24H15); 4]));
    let h63 = [
        w1h25,
        w1h25,
        (LmotsAlgorithm::LmotsW1, LmsAlgorithm::LmsH5),
        w8h5,
        (LmotsAlgorithm::LmotsW2, LmsAlgorithm::LmsH5),
    ];
    assert!(!check_parameters(&h63));
    assert!(check_parameters(&h63[..4]));
}

#[test]
fn levels_not_fit_to_make_a_key() {
    let w8h5 = (LmotsAlgorithm::LmotsW8, LmsAlgorithm::LmsH5);
    let w1h25 = (LmotsAlgorithm::LmotsW1, LmsAlgorithm::LmsH25);
    assert!(!check_parameters(&[]));
    assert!(!check_parameters(&[w8h5; 9]));
    assert!(!check_parameters(&[w1h25, w1h25, w1h25]));
    assert!(!check_parameters(&[(LmotsAlgorithm::LmotsN24W8, LmsAlgorithm::LmsH5)]));
    assert!(!check_parameters(&[(LmotsAlgorithm::LmotsW8, LmsAlgorithm::LmsM24H5)]));
    assert!(!check_parameters(&[w8h5, (LmotsAlgorithm::LmotsN24W8, LmsAlgorithm::LmsM24H5)]));
}
