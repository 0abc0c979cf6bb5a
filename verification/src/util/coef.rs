//! Reading a byte string as a row of `w`-bit fields.

use vstd::prelude::*;

verus! {

/// Whether `w` is a field width that the scheme knows: 1, 2, 4 or 8 bits.
pub open spec fn valid_width(w: nat) -> bool {
    w == 1 || w == 2 || w == 4 || w == 8
}

/// The largest value of a `w`-bit field, `2^w - 1`.
pub open spec fn spec_max_digit(w: nat) -> u8 {
    if w == 1 {
        1
    } else if w == 2 {
        3
    } else if w == 4 {
        15
    } else {
        255
    }
}

/// Field `i` of `s`, where the fields are `w` bits wide and the most
/// significant field of a byte comes first.
pub open spec fn spec_coef(s: Seq<u8>, i: nat, w: nat) -> u8
    recommends
        valid_width(w),
        i * w / 8 < s.len(),
{
    (s[(i * w / 8) as int] >> ((8 - w - (i * w) % 8) as u8)) & spec_max_digit(w)
}

/// A field never exceeds the largest value of its width.
pub proof fn lemma_coef_bound(s: Seq<u8>, i: nat, w: nat)
    requires
        valid_width(w),
    ensures
        spec_coef(s, i, w) <= spec_max_digit(w),
{
    let b = s[(i * w / 8) as int];
    let sh = (8 - w - (i * w) % 8) as u8;
    assert((b >> sh) & 1 <= 1) by (bit_vector);
    assert((b >> sh) & 3 <= 3) by (bit_vector);
    assert((b >> sh) & 15 <= 15) by (bit_vector);
    assert((b >> sh) & 255 <= 255) by (bit_vector);
}

/// The largest value of a `w`-bit field.
pub fn max_digit(w: u8) -> (r: u8)
    ensures
        r == spec_max_digit(w as nat),
{
    if w == 1 {
        1
    } else if w == 2 {
        3
    } else if w == 4 {
        15
    } else {
        255
    }
}

/// Field `i` of `s` at width `w`.
pub fn coef(s: &[u8], i: u16, w: u8) -> (r: u8)
    requires
        valid_width(w as nat),
        (i as nat) * (w as nat) / 8 < s@.len(),
    ensures
        r == spec_coef(s@, i as nat, w as nat),
        r <= spec_max_digit(w as nat),
{
    assert(i * w <= 0xffff * 8 && i * w == (i as nat) * (w as nat)) by (nonlinear_arith)
        requires
            i <= 0xffff,
            w <= 8,
    ;
    let bit: u32 = (i as u32) * (w as u32);
    proof {
        if w == 2 {
            assert(bit == 2 * i);
        } else if w == 4 {
            assert(bit == 4 * i);
        } else if w == 8 {
            assert(bit == 8 * i);
        }
        lemma_coef_bound(s@, i as nat, w as nat);
    }
    let index: usize = (bit / 8) as usize;
    let shift: u8 = 8 - w - ((bit % 8) as u8);
    (s[index] >> shift) & max_digit(w)
}

} // verus!
