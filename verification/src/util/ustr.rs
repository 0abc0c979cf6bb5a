//! Big-endian packing and unpacking of fixed-width integers.

use vstd::prelude::*;

verus! {

/// The one byte that encodes `x`.
pub open spec fn spec_u8str(x: u8) -> Seq<u8> {
    seq![x]
}

/// The two bytes that encode `x`, most significant first.
pub open spec fn spec_u16str(x: u16) -> Seq<u8> {
    seq![(x / 0x100) as u8, (x % 0x100) as u8]
}

/// The four bytes that encode `x`, most significant first.
pub open spec fn spec_u32str(x: u32) -> Seq<u8> {
    seq![
        (x / 0x100_0000) as u8,
        (x / 0x1_0000 % 0x100) as u8,
        (x / 0x100 % 0x100) as u8,
        (x % 0x100) as u8,
    ]
}

/// The eight bytes that encode `x`, most significant first.
pub open spec fn spec_u64str(x: u64) -> Seq<u8> {
    spec_u32str((x / 0x1_0000_0000) as u32) + spec_u32str((x % 0x1_0000_0000) as u32)
}

/// The integer whose big-endian encoding is the first two bytes of `s`.
pub open spec fn spec_str16u(s: Seq<u8>) -> u16
    recommends
        s.len() >= 2,
{
    (s[0] as int * 0x100 + s[1] as int) as u16
}

/// The integer whose big-endian encoding is the first four bytes of `s`.
pub open spec fn spec_str32u(s: Seq<u8>) -> u32
    recommends
        s.len() >= 4,
{
    (s[0] as int * 0x100_0000 + s[1] as int * 0x1_0000 + s[2] as int * 0x100 + s[3] as int) as u32
}

/// The integer whose big-endian encoding is the first eight bytes of `s`.
pub open spec fn spec_str64u(s: Seq<u8>) -> u64
    recommends
        s.len() >= 8,
{
    (spec_str32u(s.subrange(0, 4)) as int * 0x1_0000_0000 + spec_str32u(s.subrange(4, 8)) as int) as u64
}

/// Packs `x` into its one byte.
pub fn u8str(x: u8) -> (r: [u8; 1])
    ensures
        r@ == spec_u8str(x),
{
    let r: [u8; 1] = [x];
    assert(r@ =~= spec_u8str(x));
    r
}

/// Packs `x` into two bytes, most significant first.
pub fn u16str(x: u16) -> (r: [u8; 2])
    ensures
        r@ == spec_u16str(x),
{
    let r: [u8; 2] = [(x / 0x100) as u8, (x % 0x100) as u8];
    assert(r@ =~= spec_u16str(x));
    r
}

/// Packs `x` into four bytes, most significant first.
pub fn u32str(x: u32) -> (r: [u8; 4])
    ensures
        r@ == spec_u32str(x),
{
    let r: [u8; 4] = [
        (x / 0x100_0000) as u8,
        (x / 0x1_0000 % 0x100) as u8,
        (x / 0x100 % 0x100) as u8,
        (x % 0x100) as u8,
    ];
    assert(r@ =~= spec_u32str(x));
    r
}

/// Packs `x` into eight bytes, most significant first.
pub fn u64str(x: u64) -> (r: [u8; 8])
    ensures
        r@ == spec_u64str(x),
{
    let hi: [u8; 4] = u32str((x / 0x1_0000_0000) as u32);
    let lo: [u8; 4] = u32str((x % 0x1_0000_0000) as u32);
    let r: [u8; 8] = [hi[0], hi[1], hi[2], hi[3], lo[0], lo[1], lo[2], lo[3]];
    assert(r@ =~= spec_u64str(x));
    r
}

/// Reads the integer that the first two bytes of `s` encode.
pub fn str16u(s: &[u8]) -> (r: u16)
    requires
        s@.len() >= 2,
    ensures
        r == spec_str16u(s@),
{
    (s[0] as u16) * 0x100 + (s[1] as u16)
}

/// Reads the integer that the first four bytes of `s` encode.
pub fn str32u(s: &[u8]) -> (r: u32)
    requires
        s@.len() >= 4,
    ensures
        r == spec_str32u(s@),
{
    (s[0] as u32) * 0x100_0000 + (s[1] as u32) * 0x1_0000 + (s[2] as u32) * 0x100 + (s[3] as u32)
}

/// Reads the integer that the first eight bytes of `s` encode.
pub fn str64u(s: &[u8]) -> (r: u64)
    requires
        s@.len() >= 8,
    ensures
        r == spec_str64u(s@),
{
    let hi: u32 = str32u(vstd::slice::slice_subrange(s, 0, 4));
    let lo: u32 = str32u(vstd::slice::slice_subrange(s, 4, 8));
    (hi as u64) * 0x1_0000_0000 + (lo as u64)
}

/// A 32-bit integer is the sum of its four bytes, each at its place.
proof fn lemma_split32(x: u32)
    ensures
        (x / 0x100_0000) * 0x100_0000 + (x / 0x1_0000 % 0x100) * 0x1_0000 + (x / 0x100 % 0x100)
            * 0x100 + (x % 0x100) == x,
        x / 0x100_0000 < 0x100,
{
    assert((x / 0x100_0000) * 0x100_0000 + (x / 0x1_0000 % 0x100) * 0x1_0000 + (x / 0x100 % 0x100)
        * 0x100 + (x % 0x100) == x && x / 0x100_0000 < 0x100) by (bit_vector);
}

/// Four bytes, each at its place, add up to a 32-bit integer whose
/// bytes they are.
proof fn lemma_join32(b0: u8, b1: u8, b2: u8, b3: u8)
    ensures
        ({
            let v = b0 as int * 0x100_0000 + b1 as int * 0x1_0000 + b2 as int * 0x100 + b3 as int;
            &&& 0 <= v < 0x1_0000_0000
            &&& v / 0x100_0000 == b0
            &&& v / 0x1_0000 % 0x100 == b1
            &&& v / 0x100 % 0x100 == b2
            &&& v % 0x100 == b3
        }),
{
    let v = b0 as int * 0x100_0000 + b1 as int * 0x1_0000 + b2 as int * 0x100 + b3 as int;
    let r2 = b1 as int * 0x1_0000 + b2 as int * 0x100 + b3 as int;
    let r1 = b2 as int * 0x100 + b3 as int;
    vstd::arithmetic::div_mod::lemma_fundamental_div_mod_converse(v, 0x100_0000, b0 as int, r2);
    vstd::arithmetic::div_mod::lemma_fundamental_div_mod_converse(
        v,
        0x1_0000,
        b0 as int * 0x100 + b1 as int,
        r1,
    );
    vstd::arithmetic::div_mod::lemma_fundamental_div_mod_converse(
        b0 as int * 0x100 + b1 as int,
        0x100,
        b0 as int,
        b1 as int,
    );
    vstd::arithmetic::div_mod::lemma_fundamental_div_mod_converse(
        v,
        0x100,
        b0 as int * 0x1_0000 + b1 as int * 0x100 + b2 as int,
        b3 as int,
    );
    vstd::arithmetic::div_mod::lemma_fundamental_div_mod_converse(
        b0 as int * 0x1_0000 + b1 as int * 0x100 + b2 as int,
        0x100,
        b0 as int * 0x100 + b1 as int,
        b2 as int,
    );
}

/// Unpacking undoes packing, for each width.
pub proof fn lemma_str_of_ustr(a: u16, b: u32, c: u64)
    ensures
        spec_u16str(a).len() == 2,
        spec_u32str(b).len() == 4,
        spec_u64str(c).len() == 8,
        spec_str16u(spec_u16str(a)) == a,
        spec_str32u(spec_u32str(b)) == b,
        spec_str64u(spec_u64str(c)) == c,
{
    let hi = (c / 0x1_0000_0000) as u32;
    let lo = (c % 0x1_0000_0000) as u32;
    lemma_split32(b);
    lemma_split32(hi);
    lemma_split32(lo);
    assert(spec_u64str(c).subrange(0, 4) =~= spec_u32str(hi));
    assert(spec_u64str(c).subrange(4, 8) =~= spec_u32str(lo));
    assert(spec_str32u(spec_u32str(hi)) == hi);
    assert(spec_str32u(spec_u32str(lo)) == lo);
}

/// Packing undoes unpacking: an encoding is determined by its value.
pub proof fn lemma_ustr_of_str(s: Seq<u8>)
    ensures
        s.len() == 2 ==> spec_u16str(spec_str16u(s)) == s,
        s.len() == 4 ==> spec_u32str(spec_str32u(s)) == s,
        s.len() == 8 ==> spec_u64str(spec_str64u(s)) == s,
{
    if s.len() == 2 {
        assert(spec_u16str(spec_str16u(s)) =~= s);
    }
    if s.len() == 4 {
        lemma_join32(s[0], s[1], s[2], s[3]);
        assert(spec_u32str(spec_str32u(s)) =~= s);
    }
    if s.len() == 8 {
        let hi = s.subrange(0, 4);
        let lo = s.subrange(4, 8);
        lemma_join32(hi[0], hi[1], hi[2], hi[3]);
        lemma_join32(lo[0], lo[1], lo[2], lo[3]);
        assert(spec_u32str(spec_str32u(hi)) =~= hi);
        assert(spec_u32str(spec_str32u(lo)) =~= lo);
        let v = spec_str64u(s);
        assert(v == spec_str32u(hi) as int * 0x1_0000_0000 + spec_str32u(lo) as int);
        assert((v / 0x1_0000_0000) as u32 == spec_str32u(hi));
        assert((v % 0x1_0000_0000) as u32 == spec_str32u(lo));
        assert(spec_u64str(v) =~= s);
    }
}

} // verus!
