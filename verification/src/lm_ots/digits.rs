//! The digits that a signature reveals: no two digests with their
//! checksums have digits of which the one's are all at least the
//! other's.

use vstd::prelude::*;
use crate::lm_ots::parameter::LmotsAlgorithm;
use crate::util::coef::{lemma_coef_bound, spec_coef, spec_max_digit, valid_width};
use crate::util::ustr::spec_u16str;

verus! {

/// A digit that lies within the first `n` bytes is a digit of those
/// bytes, whatever follows them.
pub proof fn lemma_coef_of_head(head: Seq<u8>, tail: Seq<u8>, k: nat, w: nat)
    requires
        valid_width(w),
        k * w < 8 * head.len(),
    ensures
        spec_coef(head + tail, k, w) == spec_coef(head, k, w),
{
    assert(k * w / 8 < head.len());
}

/// A byte is determined by the digits in it.
proof fn lemma_byte_of_digits(b: u8, c: u8, w: nat)
    requires
        valid_width(w),
        forall|shift: u8|
            shift < 8 && shift as nat % w == 0 ==> (#[trigger] (b >> shift)) & spec_max_digit(w) == (c
                >> shift) & spec_max_digit(w),
    ensures
        b == c,
{
    if w == 8 {
        assert((b >> 0u8) & 255 == (c >> 0u8) & 255);
        assert((b >> 0u8) & 255 == (c >> 0u8) & 255 ==> b == c) by (bit_vector);
    } else if w == 4 {
        assert((b >> 0u8) & 15 == (c >> 0u8) & 15);
        assert((b >> 4u8) & 15 == (c >> 4u8) & 15);
        assert(((b >> 0u8) & 15 == (c >> 0u8) & 15 && (b >> 4u8) & 15 == (c >> 4u8) & 15) ==> b == c)
            by (bit_vector);
    } else if w == 2 {
        assert((b >> 0u8) & 3 == (c >> 0u8) & 3);
        assert((b >> 2u8) & 3 == (c >> 2u8) & 3);
        assert((b >> 4u8) & 3 == (c >> 4u8) & 3);
        assert((b >> 6u8) & 3 == (c >> 6u8) & 3);
        assert(((b >> 0u8) & 3 == (c >> 0u8) & 3 && (b >> 2u8) & 3 == (c >> 2u8) & 3 && (b >> 4u8) & 3
            == (c >> 4u8) & 3 && (b >> 6u8) & 3 == (c >> 6u8) & 3) ==> b == c) by (bit_vector);
    } else {
        assert((b >> 0u8) & 1 == (c >> 0u8) & 1);
        assert((b >> 1u8) & 1 == (c >> 1u8) & 1);
        assert((b >> 2u8) & 1 == (c >> 2u8) & 1);
        assert((b >> 3u8) & 1 == (c >> 3u8) & 1);
        assert((b >> 4u8) & 1 == (c >> 4u8) & 1);
        assert((b >> 5u8) & 1 == (c >> 5u8) & 1);
        assert((b >> 6u8) & 1 == (c >> 6u8) & 1);
        assert((b >> 7u8) & 1 == (c >> 7u8) & 1);
        assert(((b >> 0u8) & 1 == (c >> 0u8) & 1 && (b >> 1u8) & 1 == (c >> 1u8) & 1 && (b >> 2u8) & 1
            == (c >> 2u8) & 1 && (b >> 3u8) & 1 == (c >> 3u8) & 1 && (b >> 4u8) & 1 == (c >> 4u8) & 1
            && (b >> 5u8) & 1 == (c >> 5u8) & 1 && (b >> 6u8) & 1 == (c >> 6u8) & 1 && (b >> 7u8) & 1
            == (c >> 7u8) & 1) ==> b == c) by (bit_vector);
    }
}

/// Two byte strings of one length with the same digits are one byte
/// string.
pub proof fn lemma_bytes_of_digits(a: Seq<u8>, b: Seq<u8>, w: nat)
    requires
        valid_width(w),
        a.len() == b.len(),
        forall|k: nat| k * w < 8 * a.len() ==> spec_coef(a, k, w) == spec_coef(b, k, w),
    ensures
        a == b,
{
    assert forall|j: int| 0 <= j < a.len() implies a[j] == b[j] by {
        assert forall|shift: u8| shift < 8 && shift as nat % w == 0 implies (#[trigger] (a[j] >> shift))
            & spec_max_digit(w) == (b[j] >> shift) & spec_max_digit(w) by {
            let k: nat = if w == 8 {
                j as nat
            } else if w == 4 {
                (2 * j + (4 - shift) / 4) as nat
            } else if w == 2 {
                (4 * j + (6 - shift) / 2) as nat
            } else {
                (8 * j + (7 - shift)) as nat
            };
            assert(k * w < 8 * a.len());
            assert(k * w / 8 == j);
            assert((8 - w - (k * w) % 8) as u8 == shift);
            assert(spec_coef(a, k, w) == spec_coef(b, k, w));
        }
        lemma_byte_of_digits(a[j], b[j], w);
    }
    assert(a =~= b);
}

/// Where no digit of `b` is less than the digit of `a` in its place, the
/// sum of the complements of the digits of `b` is at most that of `a`,
/// and less where one digit of `b` is greater.
pub proof fn lemma_sum_of_greater_digits(alg: LmotsAlgorithm, a: Seq<u8>, b: Seq<u8>, count: nat)
    requires
        forall|k: nat| k < count ==> spec_coef(b, k, alg.w()) >= spec_coef(a, k, alg.w()),
    ensures
        0 <= alg.checksum_sum(b, count) <= alg.checksum_sum(a, count) <= alg.max_digit() * count,
        (exists|k: nat| k < count && spec_coef(b, k, alg.w()) > spec_coef(a, k, alg.w()))
            ==> alg.checksum_sum(b, count) < alg.checksum_sum(a, count),
    decreases count,
{
    alg.lemma_sizes();
    if count > 0 {
        let last = (count - 1) as nat;
        lemma_sum_of_greater_digits(alg, a, b, last);
        lemma_coef_bound(a, last, alg.w());
        lemma_coef_bound(b, last, alg.w());
        assert(alg.max_digit() * count == alg.max_digit() * last + alg.max_digit()) by (nonlinear_arith)
            requires
                count == last + 1,
        ;
        if exists|k: nat| k < count && spec_coef(b, k, alg.w()) > spec_coef(a, k, alg.w()) {
            let k = choose|k: nat| k < count && spec_coef(b, k, alg.w()) > spec_coef(a, k, alg.w());
            if k < last {
                assert(exists|k: nat| k < last && spec_coef(b, k, alg.w()) > spec_coef(a, k, alg.w()));
            }
        }
    } else {
        assert(alg.max_digit() * count == 0) by (nonlinear_arith)
            requires
                count == 0,
        ;
    }
}

/// Of two sums of which the second is the smaller, shifted left by 7
/// bits, the second has a smaller digit of 1 bit among the first 9.
proof fn lemma_smaller_digit_w1(x: u16, y: u16)
    by (bit_vector)
    requires
        y < x,
        x <= 256,
    ensures
        ({
            let cx = x << 7u16;
            let cy = y << 7u16;
            (((cy / 0x100) as u8) >> 7u8) & 1u8 < (((cx / 0x100) as u8) >> 7u8) & 1u8
            || (((cy / 0x100) as u8) >> 6u8) & 1u8 < (((cx / 0x100) as u8) >> 6u8) & 1u8
            || (((cy / 0x100) as u8) >> 5u8) & 1u8 < (((cx / 0x100) as u8) >> 5u8) & 1u8
            || (((cy / 0x100) as u8) >> 4u8) & 1u8 < (((cx / 0x100) as u8) >> 4u8) & 1u8
            || (((cy / 0x100) as u8) >> 3u8) & 1u8 < (((cx / 0x100) as u8) >> 3u8) & 1u8
            || (((cy / 0x100) as u8) >> 2u8) & 1u8 < (((cx / 0x100) as u8) >> 2u8) & 1u8
            || (((cy / 0x100) as u8) >> 1u8) & 1u8 < (((cx / 0x100) as u8) >> 1u8) & 1u8
            || (((cy / 0x100) as u8) >> 0u8) & 1u8 < (((cx / 0x100) as u8) >> 0u8) & 1u8
            || (((cy % 0x100) as u8) >> 7u8) & 1u8 < (((cx % 0x100) as u8) >> 7u8) & 1u8
        }),
{
}

/// Of two sums of which the second is the smaller, shifted left by 8
/// bits, the second has a smaller digit of 1 bit among the first 8.
proof fn lemma_smaller_digit_w1_short(x: u16, y: u16)
    by (bit_vector)
    requires
        y < x,
        x <= 192,
    ensures
        ({
            let cx = x << 8u16;
            let cy = y << 8u16;
            (((cy / 0x100) as u8) >> 7u8) & 1u8 < (((cx / 0x100) as u8) >> 7u8) & 1u8
            || (((cy / 0x100) as u8) >> 6u8) & 1u8 < (((cx / 0x100) as u8) >> 6u8) & 1u8
            || (((cy / 0x100) as u8) >> 5u8) & 1u8 < (((cx / 0x100) as u8) >> 5u8) & 1u8
            || (((cy / 0x100) as u8) >> 4u8) & 1u8 < (((cx / 0x100) as u8) >> 4u8) & 1u8
            || (((cy / 0x100) as u8) >> 3u8) & 1u8 < (((cx / 0x100) as u8) >> 3u8) & 1u8
            || (((cy / 0x100) as u8) >> 2u8) & 1u8 < (((cx / 0x100) as u8) >> 2u8) & 1u8
            || (((cy / 0x100) as u8) >> 1u8) & 1u8 < (((cx / 0x100) as u8) >> 1u8) & 1u8
            || (((cy / 0x100) as u8) >> 0u8) & 1u8 < (((cx / 0x100) as u8) >> 0u8) & 1u8
        }),
{
}

/// Of two sums of which the second is the smaller, shifted left by 6
/// bits, the second has a smaller digit of 2 bits among the first 5.
proof fn lemma_smaller_digit_w2(x: u16, y: u16)
    by (bit_vector)
    requires
        y < x,
        x <= 384,
    ensures
        ({
            let cx = x << 6u16;
            let cy = y << 6u16;
            (((cy / 0x100) as u8) >> 6u8) & 3u8 < (((cx / 0x100) as u8) >> 6u8) & 3u8
            || (((cy / 0x100) as u8) >> 4u8) & 3u8 < (((cx / 0x100) as u8) >> 4u8) & 3u8
            || (((cy / 0x100) as u8) >> 2u8) & 3u8 < (((cx / 0x100) as u8) >> 2u8) & 3u8
            || (((cy / 0x100) as u8) >> 0u8) & 3u8 < (((cx / 0x100) as u8) >> 0u8) & 3u8
            || (((cy % 0x100) as u8) >> 6u8) & 3u8 < (((cx % 0x100) as u8) >> 6u8) & 3u8
        }),
{
}

/// Of two sums of which the second is the smaller, shifted left by 4
/// bits, the second has a smaller digit of 4 bits among the first 3.
proof fn lemma_smaller_digit_w4(x: u16, y: u16)
    by (bit_vector)
    requires
        y < x,
        x <= 960,
    ensures
        ({
            let cx = x << 4u16;
            let cy = y << 4u16;
            (((cy / 0x100) as u8) >> 4u8) & 15u8 < (((cx / 0x100) as u8) >> 4u8) & 15u8
            || (((cy / 0x100) as u8) >> 0u8) & 15u8 < (((cx / 0x100) as u8) >> 0u8) & 15u8
            || (((cy % 0x100) as u8) >> 4u8) & 15u8 < (((cx % 0x100) as u8) >> 4u8) & 15u8
        }),
{
}

/// Of two sums of which the second is the smaller, shifted left by 0
/// bits, the second has a smaller digit of 8 bits among the first 2.
proof fn lemma_smaller_digit_w8(x: u16, y: u16)
    by (bit_vector)
    requires
        y < x,
        x <= 8160,
    ensures
        ({
            let cx = x << 0u16;
            let cy = y << 0u16;
            (((cy / 0x100) as u8) >> 0u8) & 255u8 < (((cx / 0x100) as u8) >> 0u8) & 255u8
            || (((cy % 0x100) as u8) >> 0u8) & 255u8 < (((cx % 0x100) as u8) >> 0u8) & 255u8
        }),
{
}

/// Of two digests of which the second has the smaller sum of
/// complements, the second has a smaller digit in its checksum.
pub proof fn lemma_checksum_digit(alg: LmotsAlgorithm, a: Seq<u8>, b: Seq<u8>)
    requires
        a.len() == alg.n(),
        b.len() == alg.n(),
        0 <= alg.checksum_sum(b, alg.u()) < alg.checksum_sum(a, alg.u()) <= alg.max_digit() * alg.u(),
    ensures
        exists|k: nat|
            alg.u() <= k < alg.p() && spec_coef(alg.appended_with_checksum(b), k, alg.w()) < spec_coef(
                alg.appended_with_checksum(a),
                k,
                alg.w(),
            ),
{
    let x = alg.checksum_sum(a, alg.u()) as u16;
    let y = alg.checksum_sum(b, alg.u()) as u16;
    let cx = alg.checksum(a);
    let cy = alg.checksum(b);
    let da = alg.appended_with_checksum(a);
    let db = alg.appended_with_checksum(b);
    alg.lemma_sizes();
    match alg {
        LmotsAlgorithm::LmotsW1 => {
            assert(alg.u() == 256);
            assert(alg.max_digit() == 1);
            assert(alg.max_digit() * alg.u() == 256) by (nonlinear_arith)
                requires
                    alg.max_digit() == 1,
                    alg.u() == 256,
            ;
            lemma_smaller_digit_w1(x, y);
            assert(cx == x << 7u16);
            assert(cy == y << 7u16);
            assert(da[32] == (cx / 0x100) as u8 && da[33] == (cx % 0x100) as u8);
            assert(db[32] == (cy / 0x100) as u8 && db[33] == (cy % 0x100) as u8);
            if (((cy / 0x100) as u8) >> 7u8) & 1u8 < (((cx / 0x100) as u8) >> 7u8) & 1u8 {
                assert(spec_coef(db, 256, 1) < spec_coef(da, 256, 1));
            } else if (((cy / 0x100) as u8) >> 6u8) & 1u8 < (((cx / 0x100) as u8) >> 6u8) & 1u8 {
                assert(spec_coef(db, 257, 1) < spec_coef(da, 257, 1));
            } else if (((cy / 0x100) as u8) >> 5u8) & 1u8 < (((cx / 0x100) as u8) >> 5u8) & 1u8 {
                assert(spec_coef(db, 258, 1) < spec_coef(da, 258, 1));
            } else if (((cy / 0x100) as u8) >> 4u8) & 1u8 < (((cx / 0x100) as u8) >> 4u8) & 1u8 {
                assert(spec_coef(db, 259, 1) < spec_coef(da, 259, 1));
            } else if (((cy / 0x100) as u8) >> 3u8) & 1u8 < (((cx / 0x100) as u8) >> 3u8) & 1u8 {
                assert(spec_coef(db, 260, 1) < spec_coef(da, 260, 1));
            } else if (((cy / 0x100) as u8) >> 2u8) & 1u8 < (((cx / 0x100) as u8) >> 2u8) & 1u8 {
                assert(spec_coef(db, 261, 1) < spec_coef(da, 261, 1));
            } else if (((cy / 0x100) as u8) >> 1u8) & 1u8 < (((cx / 0x100) as u8) >> 1u8) & 1u8 {
                assert(spec_coef(db, 262, 1) < spec_coef(da, 262, 1));
            } else if (((cy / 0x100) as u8) >> 0u8) & 1u8 < (((cx / 0x100) as u8) >> 0u8) & 1u8 {
                assert(spec_coef(db, 263, 1) < spec_coef(da, 263, 1));
            } else {
                assert(spec_coef(db, 264, 1) < spec_coef(da, 264, 1));
            }
        },
        LmotsAlgorithm::LmotsW2 => {
            assert(alg.u() == 128);
            assert(alg.max_digit() == 3);
            assert(alg.max_digit() * alg.u() == 384) by (nonlinear_arith)
                requires
                    alg.max_digit() == 3,
                    alg.u() == 128,
            ;
            lemma_smaller_digit_w2(x, y);
            assert(cx == x << 6u16);
            assert(cy == y << 6u16);
            assert(da[32] == (cx / 0x100) as u8 && da[33] == (cx % 0x100) as u8);
            assert(db[32] == (cy / 0x100) as u8 && db[33] == (cy % 0x100) as u8);
            if (((cy / 0x100) as u8) >> 6u8) & 3u8 < (((cx / 0x100) as u8) >> 6u8) & 3u8 {
                assert(spec_coef(db, 128, 2) < spec_coef(da, 128, 2));
            } else if (((cy / 0x100) as u8) >> 4u8) & 3u8 < (((cx / 0x100) as u8) >> 4u8) & 3u8 {
                assert(spec_coef(db, 129, 2) < spec_coef(da, 129, 2));
            } else if (((cy / 0x100) as u8) >> 2u8) & 3u8 < (((cx / 0x100) as u8) >> 2u8) & 3u8 {
                assert(spec_coef(db, 130, 2) < spec_coef(da, 130, 2));
            } else if (((cy / 0x100) as u8) >> 0u8) & 3u8 < (((cx / 0x100) as u8) >> 0u8) & 3u8 {
                assert(spec_coef(db, 131, 2) < spec_coef(da, 131, 2));
            } else {
                assert(spec_coef(db, 132, 2) < spec_coef(da, 132, 2));
            }
        },
        LmotsAlgorithm::LmotsW4 => {
            assert(alg.u() == 64);
            assert(alg.max_digit() == 15);
            assert(alg.max_digit() * alg.u() == 960) by (nonlinear_arith)
                requires
                    alg.max_digit() == 15,
                    alg.u() == 64,
            ;
            lemma_smaller_digit_w4(x, y);
            assert(cx == x << 4u16);
            assert(cy == y << 4u16);
            assert(da[32] == (cx / 0x100) as u8 && da[33] == (cx % 0x100) as u8);
            assert(db[32] == (cy / 0x100) as u8 && db[33] == (cy % 0x100) as u8);
            if (((cy / 0x100) as u8) >> 4u8) & 15u8 < (((cx / 0x100) as u8) >> 4u8) & 15u8 {
                assert(spec_coef(db, 64, 4) < spec_coef(da, 64, 4));
            } else if (((cy / 0x100) as u8) >> 0u8) & 15u8 < (((cx / 0x100) as u8) >> 0u8) & 15u8 {
                assert(spec_coef(db, 65, 4) < spec_coef(da, 65, 4));
            } else {
                assert(spec_coef(db, 66, 4) < spec_coef(da, 66, 4));
            }
        },
        LmotsAlgorithm::LmotsW8 => {
            assert(alg.u() == 32);
            assert(alg.max_digit() == 255);
            assert(alg.max_digit() * alg.u() == 8160) by (nonlinear_arith)
                requires
                    alg.max_digit() == 255,
                    alg.u() == 32,
            ;
            lemma_smaller_digit_w8(x, y);
            assert(cx == x << 0u16);
            assert(cy == y << 0u16);
            assert(da[32] == (cx / 0x100) as u8 && da[33] == (cx % 0x100) as u8);
            assert(db[32] == (cy / 0x100) as u8 && db[33] == (cy % 0x100) as u8);
            if (((cy / 0x100) as u8) >> 0u8) & 255u8 < (((cx / 0x100) as u8) >> 0u8) & 255u8 {
                assert(spec_coef(db, 32, 8) < spec_coef(da, 32, 8));
            } else {
                assert(spec_coef(db, 33, 8) < spec_coef(da, 33, 8));
            }
        },
        LmotsAlgorithm::LmotsN24W1 => {
            assert(alg.u() == 192);
            assert(alg.max_digit() == 1);
            assert(alg.max_digit() * alg.u() == 192) by (nonlinear_arith)
                requires
                    alg.max_digit() == 1,
                    alg.u() == 192,
            ;
            lemma_smaller_digit_w1_short(x, y);
            assert(cx == x << 8u16);
            assert(cy == y << 8u16);
            assert(da[24] == (cx / 0x100) as u8 && da[25] == (cx % 0x100) as u8);
            assert(db[24] == (cy / 0x100) as u8 && db[25] == (cy % 0x100) as u8);
            if (((cy / 0x100) as u8) >> 7u8) & 1u8 < (((cx / 0x100) as u8) >> 7u8) & 1u8 {
                assert(spec_coef(db, 192, 1) < spec_coef(da, 192, 1));
            } else if (((cy / 0x100) as u8) >> 6u8) & 1u8 < (((cx / 0x100) as u8) >> 6u8) & 1u8 {
                assert(spec_coef(db, 193, 1) < spec_coef(da, 193, 1));
            } else if (((cy / 0x100) as u8) >> 5u8) & 1u8 < (((cx / 0x100) as u8) >> 5u8) & 1u8 {
                assert(spec_coef(db, 194, 1) < spec_coef(da, 194, 1));
            } else if (((cy / 0x100) as u8) >> 4u8) & 1u8 < (((cx / 0x100) as u8) >> 4u8) & 1u8 {
                assert(spec_coef(db, 195, 1) < spec_coef(da, 195, 1));
            } else if (((cy / 0x100) as u8) >> 3u8) & 1u8 < (((cx / 0x100) as u8) >> 3u8) & 1u8 {
                assert(spec_coef(db, 196, 1) < spec_coef(da, 196, 1));
            } else if (((cy / 0x100) as u8) >> 2u8) & 1u8 < (((cx / 0x100) as u8) >> 2u8) & 1u8 {
                assert(spec_coef(db, 197, 1) < spec_coef(da, 197, 1));
            } else if (((cy / 0x100) as u8) >> 1u8) & 1u8 < (((cx / 0x100) as u8) >> 1u8) & 1u8 {
                assert(spec_coef(db, 198, 1) < spec_coef(da, 198, 1));
            } else {
                assert(spec_coef(db, 199, 1) < spec_coef(da, 199, 1));
            }
        },
        LmotsAlgorithm::LmotsN24W2 => {
            assert(alg.u() == 96);
            assert(alg.max_digit() == 3);
            assert(alg.max_digit() * alg.u() == 288) by (nonlinear_arith)
                requires
                    alg.max_digit() == 3,
                    alg.u() == 96,
            ;
            lemma_smaller_digit_w2(x, y);
            assert(cx == x << 6u16);
            assert(cy == y << 6u16);
            assert(da[24] == (cx / 0x100) as u8 && da[25] == (cx % 0x100) as u8);
            assert(db[24] == (cy / 0x100) as u8 && db[25] == (cy % 0x100) as u8);
            if (((cy / 0x100) as u8) >> 6u8) & 3u8 < (((cx / 0x100) as u8) >> 6u8) & 3u8 {
                assert(spec_coef(db, 96, 2) < spec_coef(da, 96, 2));
            } else if (((cy / 0x100) as u8) >> 4u8) & 3u8 < (((cx / 0x100) as u8) >> 4u8) & 3u8 {
                assert(spec_coef(db, 97, 2) < spec_coef(da, 97, 2));
            } else if (((cy / 0x100) as u8) >> 2u8) & 3u8 < (((cx / 0x100) as u8) >> 2u8) & 3u8 {
                assert(spec_coef(db, 98, 2) < spec_coef(da, 98, 2));
            } else if (((cy / 0x100) as u8) >> 0u8) & 3u8 < (((cx / 0x100) as u8) >> 0u8) & 3u8 {
                assert(spec_coef(db, 99, 2) < spec_coef(da, 99, 2));
            } else {
                assert(spec_coef(db, 100, 2) < spec_coef(da, 100, 2));
            }
        },
        LmotsAlgorithm::LmotsN24W4 => {
            assert(alg.u() == 48);
            assert(alg.max_digit() == 15);
            assert(alg.max_digit() * alg.u() == 720) by (nonlinear_arith)
                requires
                    alg.max_digit() == 15,
                    alg.u() == 48,
            ;
            lemma_smaller_digit_w4(x, y);
            assert(cx == x << 4u16);
            assert(cy == y << 4u16);
            assert(da[24] == (cx / 0x100) as u8 && da[25] == (cx % 0x100) as u8);
            assert(db[24] == (cy / 0x100) as u8 && db[25] == (cy % 0x100) as u8);
            if (((cy / 0x100) as u8) >> 4u8) & 15u8 < (((cx / 0x100) as u8) >> 4u8) & 15u8 {
                assert(spec_coef(db, 48, 4) < spec_coef(da, 48, 4));
            } else if (((cy / 0x100) as u8) >> 0u8) & 15u8 < (((cx / 0x100) as u8) >> 0u8) & 15u8 {
                assert(spec_coef(db, 49, 4) < spec_coef(da, 49, 4));
            } else {
                assert(spec_coef(db, 50, 4) < spec_coef(da, 50, 4));
            }
        },
        LmotsAlgorithm::LmotsN24W8 => {
            assert(alg.u() == 24);
            assert(alg.max_digit() == 255);
            assert(alg.max_digit() * alg.u() == 6120) by (nonlinear_arith)
                requires
                    alg.max_digit() == 255,
                    alg.u() == 24,
            ;
            lemma_smaller_digit_w8(x, y);
            assert(cx == x << 0u16);
            assert(cy == y << 0u16);
            assert(da[24] == (cx / 0x100) as u8 && da[25] == (cx % 0x100) as u8);
            assert(db[24] == (cy / 0x100) as u8 && db[25] == (cy % 0x100) as u8);
            if (((cy / 0x100) as u8) >> 0u8) & 255u8 < (((cx / 0x100) as u8) >> 0u8) & 255u8 {
                assert(spec_coef(db, 24, 8) < spec_coef(da, 24, 8));
            } else {
                assert(spec_coef(db, 25, 8) < spec_coef(da, 25, 8));
            }
        },
    }
}

/// Digit `k` lies in the digest itself where `k` is less than `u`.
proof fn lemma_digit_index(alg: LmotsAlgorithm, k: nat)
    ensures
        k < alg.u() <==> k * alg.w() < 8 * alg.n(),
{
    alg.lemma_sizes();
    assert(k < alg.u() <==> k * alg.w() < alg.u() * alg.w()) by (nonlinear_arith)
        requires
            alg.w() > 0,
    ;
}

/// Of two different digests, the second has, among the digits of the
/// digest and of its checksum, one that is smaller than the digit of the
/// first in its place.
pub proof fn lemma_some_digit_is_smaller(alg: LmotsAlgorithm, a: Seq<u8>, b: Seq<u8>)
    requires
        a.len() == alg.n(),
        b.len() == alg.n(),
        a != b,
    ensures
        exists|k: nat|
            k < alg.p() && spec_coef(alg.appended_with_checksum(b), k, alg.w()) < spec_coef(
                alg.appended_with_checksum(a),
                k,
                alg.w(),
            ),
{
    let w = alg.w();
    let da = alg.appended_with_checksum(a);
    let db = alg.appended_with_checksum(b);
    alg.lemma_sizes();
    if exists|k: nat| k < alg.u() && spec_coef(b, k, w) < spec_coef(a, k, w) {
        let k = choose|k: nat| k < alg.u() && spec_coef(b, k, w) < spec_coef(a, k, w);
        lemma_digit_index(alg, k);
        lemma_coef_of_head(a, spec_u16str(alg.checksum(a)), k, w);
        lemma_coef_of_head(b, spec_u16str(alg.checksum(b)), k, w);
        assert(k < alg.p() && spec_coef(db, k, w) < spec_coef(da, k, w));
    } else {
        assert forall|k: nat| k < alg.u() implies spec_coef(b, k, w) >= spec_coef(a, k, w) by {
            if spec_coef(b, k, w) < spec_coef(a, k, w) {
                assert(k < alg.u() && spec_coef(b, k, w) < spec_coef(a, k, w));
            }
        }
        lemma_sum_of_greater_digits(alg, a, b, alg.u());
        if forall|k: nat| k * w < 8 * a.len() ==> spec_coef(a, k, w) == spec_coef(b, k, w) {
            lemma_bytes_of_digits(a, b, w);
        }
        let k = choose|k: nat| k * w < 8 * a.len() && spec_coef(a, k, w) != spec_coef(b, k, w);
        lemma_digit_index(alg, k);
        assert(k < alg.u() && spec_coef(b, k, w) > spec_coef(a, k, w));
        lemma_checksum_digit(alg, a, b);
    }
}

} // verus!
