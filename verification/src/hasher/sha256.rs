//! The SHA-256 compression function and padding rule, as a mathematical
//! definition and as executable code proved equal to it.

use vstd::prelude::*;
use crate::util::ustr::{spec_str32u, spec_u32str, spec_u64str};

verus! {

/// Round constants.
pub const K: [u32; 64] = [
    0x428a2f98, 0x71374491, 0xb5c0fbcf, 0xe9b5dba5, 0x3956c25b, 0x59f111f1, 0x923f82a4, 0xab1c5ed5,
    0xd807aa98, 0x12835b01, 0x243185be, 0x550c7dc3, 0x72be5d74, 0x80deb1fe, 0x9bdc06a7, 0xc19bf174,
    0xe49b69c1, 0xefbe4786, 0x0fc19dc6, 0x240ca1cc, 0x2de92c6f, 0x4a7484aa, 0x5cb0a9dc, 0x76f988da,
    0x983e5152, 0xa831c66d, 0xb00327c8, 0xbf597fc7, 0xc6e00bf3, 0xd5a79147, 0x06ca6351, 0x14292967,
    0x27b70a85, 0x2e1b2138, 0x4d2c6dfc, 0x53380d13, 0x650a7354, 0x766a0abb, 0x81c2c92e, 0x92722c85,
    0xa2bfe8a1, 0xa81a664b, 0xc24b8b70, 0xc76c51a3, 0xd192e819, 0xd6990624, 0xf40e3585, 0x106aa070,
    0x19a4c116, 0x1e376c08, 0x2748774c, 0x34b0bcb5, 0x391c0cb3, 0x4ed8aa4a, 0x5b9cca4f, 0x682e6ff3,
    0x748f82ee, 0x78a5636f, 0x84c87814, 0x8cc70208, 0x90befffa, 0xa4506ceb, 0xbef9a3f7, 0xc67178f2,
];

/// Initial chaining value.
pub const IV: [u32; 8] = [
    0x6a09e667, 0xbb67ae85, 0x3c6ef372, 0xa54ff53a, 0x510e527f, 0x9b05688c, 0x1f83d9ab, 0x5be0cd19,
];

/// Addition modulo 2^32.
pub open spec fn spec_wadd(x: u32, y: u32) -> u32 {
    ((x + y) % 0x1_0000_0000) as u32
}

/// Rotation of a 32-bit word to the right by `n` places, `0 < n < 32`.
pub open spec fn spec_rotr(x: u32, n: u32) -> u32 {
    (x >> n) | (x << ((32 - n) as u32))
}

/// The choice function: each bit of `y` or of `z`, as the bit of `x` says.
pub open spec fn spec_ch(x: u32, y: u32, z: u32) -> u32 {
    (x & y) ^ (!x & z)
}

/// The majority function: each bit as two of `x`, `y` and `z` have it.
pub open spec fn spec_maj(x: u32, y: u32, z: u32) -> u32 {
    (x & y) ^ (x & z) ^ (y & z)
}

/// The first mixing function of the rounds.
pub open spec fn spec_big_sigma0(x: u32) -> u32 {
    spec_rotr(x, 2) ^ spec_rotr(x, 13) ^ spec_rotr(x, 22)
}

/// The second mixing function of the rounds.
pub open spec fn spec_big_sigma1(x: u32) -> u32 {
    spec_rotr(x, 6) ^ spec_rotr(x, 11) ^ spec_rotr(x, 25)
}

/// The first mixing function of the message schedule.
pub open spec fn spec_small_sigma0(x: u32) -> u32 {
    spec_rotr(x, 7) ^ spec_rotr(x, 18) ^ (x >> 3)
}

/// The second mixing function of the message schedule.
pub open spec fn spec_small_sigma1(x: u32) -> u32 {
    spec_rotr(x, 17) ^ spec_rotr(x, 19) ^ (x >> 10)
}

/// Word `t` of the message schedule of a 64-byte block.
pub closed spec fn spec_schedule(block: Seq<u8>, t: nat) -> u32
    decreases t,
{
    if t < 16 {
        spec_str32u(block.subrange(4 * t as int, 4 * t as int + 4))
    } else {
        spec_wadd(
            spec_wadd(
                spec_wadd(
                    spec_small_sigma1(spec_schedule(block, (t - 2) as nat)),
                    spec_schedule(block, (t - 7) as nat),
                ),
                spec_small_sigma0(spec_schedule(block, (t - 15) as nat)),
            ),
            spec_schedule(block, (t - 16) as nat),
        )
    }
}

/// One round on the eight working variables `s`, with round constant `k`
/// and schedule word `w`.
pub closed spec fn spec_round(s: Seq<u32>, k: u32, w: u32) -> Seq<u32> {
    let t1 = spec_wadd(
        spec_wadd(spec_wadd(spec_wadd(s[7], spec_big_sigma1(s[4])), spec_ch(s[4], s[5], s[6])), k),
        w,
    );
    let t2 = spec_wadd(spec_big_sigma0(s[0]), spec_maj(s[0], s[1], s[2]));
    seq![spec_wadd(t1, t2), s[0], s[1], s[2], spec_wadd(s[3], t1), s[4], s[5], s[6]]
}

/// The working variables after the first `t` rounds on a block.
pub closed spec fn spec_rounds(s: Seq<u32>, block: Seq<u8>, t: nat) -> Seq<u32>
    decreases t,
{
    if t == 0 {
        s
    } else {
        spec_round(
            spec_rounds(s, block, (t - 1) as nat),
            K[t - 1],
            spec_schedule(block, (t - 1) as nat),
        )
    }
}

/// The chaining value after a 64-byte block is compressed into `state`.
pub closed spec fn spec_compress(state: Seq<u32>, block: Seq<u8>) -> Seq<u32> {
    let r = spec_rounds(state, block, 64);
    Seq::new(8, |i: int| spec_wadd(state[i], r[i]))
}

/// The chaining value after every whole 64-byte block of `data` is
/// compressed into `state`, in order.
pub open spec fn spec_absorb(state: Seq<u32>, data: Seq<u8>) -> Seq<u32>
    decreases data.len(),
{
    if data.len() < 64 {
        state
    } else {
        spec_absorb(spec_compress(state, data.subrange(0, 64)), data.subrange(64, data.len() as int))
    }
}

/// Number of zero bytes in the padding of a message of `len` bytes.
pub open spec fn spec_zero_count(len: nat) -> nat {
    ((119 - (len % 64)) % 64) as nat
}

/// The padding of a message of `len` bytes: a one bit, zeros up to eight
/// bytes short of a block boundary, and the bit length modulo 2^64.
pub open spec fn spec_padding(len: nat) -> Seq<u8> {
    seq![0x80u8] + Seq::new(spec_zero_count(len), |i: int| 0u8) + spec_u64str(
        ((8 * len) % 0x1_0000_0000_0000_0000) as u64,
    )
}

/// The 32 bytes that encode a chaining value.
pub open spec fn spec_state_bytes(state: Seq<u32>) -> Seq<u8> {
    Seq::new(32, |i: int| spec_u32str(state[i / 4])[i % 4])
}

/// The SHA-256 digest of `data`.
#[verifier::opaque]
pub open spec fn sha256(data: Seq<u8>) -> Seq<u8> {
    spec_state_bytes(spec_absorb(IV@, data + spec_padding(data.len())))
}

/// Adds modulo 2^32.
#[inline]
pub fn wadd(x: u32, y: u32) -> (r: u32)
    ensures
        r == spec_wadd(x, y),
{
    x.wrapping_add(y)
}

/// Rotates a word to the right by `n` places.
#[inline]
fn rotr(x: u32, n: u32) -> (r: u32)
    requires
        0 < n < 32,
    ensures
        r == spec_rotr(x, n),
{
    (x >> n) | (x << (32 - n))
}

/// The choice function.
#[inline]
fn ch(x: u32, y: u32, z: u32) -> (r: u32)
    ensures
        r == spec_ch(x, y, z),
{
    (x & y) ^ (!x & z)
}

/// The majority function.
#[inline]
fn maj(x: u32, y: u32, z: u32) -> (r: u32)
    ensures
        r == spec_maj(x, y, z),
{
    (x & y) ^ (x & z) ^ (y & z)
}

/// The first mixing function of the rounds.
#[inline]
fn big_sigma0(x: u32) -> (r: u32)
    ensures
        r == spec_big_sigma0(x),
{
    rotr(x, 2) ^ rotr(x, 13) ^ rotr(x, 22)
}

/// The second mixing function of the rounds.
#[inline]
fn big_sigma1(x: u32) -> (r: u32)
    ensures
        r == spec_big_sigma1(x),
{
    rotr(x, 6) ^ rotr(x, 11) ^ rotr(x, 25)
}

/// The first mixing function of the message schedule.
#[inline]
fn small_sigma0(x: u32) -> (r: u32)
    ensures
        r == spec_small_sigma0(x),
{
    rotr(x, 7) ^ rotr(x, 18) ^ (x >> 3)
}

/// The second mixing function of the message schedule.
#[inline]
fn small_sigma1(x: u32) -> (r: u32)
    ensures
        r == spec_small_sigma1(x),
{
    rotr(x, 17) ^ rotr(x, 19) ^ (x >> 10)
}

/// Compresses one block into the chaining value.
pub fn compress(state: &mut [u32; 8], block: &[u8])
    requires
        block@.len() == 64,
    ensures
        final(state)@ == spec_compress(old(state)@, block@),
{
    let mut w: [u32; 64] = [0u32; 64];
    let mut t: usize = 0;
    while t < 16
        invariant
            t <= 16,
            block@.len() == 64,
            forall|j: int| 0 <= j < t ==> w@[j] == spec_schedule(block@, j as nat),
        decreases 16 - t,
    {
        let word: u32 = (block[4 * t] as u32) * 0x100_0000 + (block[4 * t + 1] as u32) * 0x1_0000 + (
        block[4 * t + 2] as u32) * 0x100 + (block[4 * t + 3] as u32);
        w[t] = word;
        t += 1;
    }
    while t < 64
        invariant
            16 <= t <= 64,
            forall|j: int| 0 <= j < t ==> w@[j] == spec_schedule(block@, j as nat),
        decreases 64 - t,
    {
        let word: u32 = wadd(
            wadd(wadd(small_sigma1(w[t - 2]), w[t - 7]), small_sigma0(w[t - 15])),
            w[t - 16],
        );
        w[t] = word;
        t += 1;
    }
    let ghost init = state@;
    let mut a: u32 = state[0];
    let mut b: u32 = state[1];
    let mut c: u32 = state[2];
    let mut d: u32 = state[3];
    let mut e: u32 = state[4];
    let mut f: u32 = state[5];
    let mut g: u32 = state[6];
    let mut h: u32 = state[7];
    assert(seq![a, b, c, d, e, f, g, h] =~= init);
    t = 0;
    while t < 64
        invariant
            t <= 64,
            forall|j: int| 0 <= j < 64 ==> w@[j] == spec_schedule(block@, j as nat),
            seq![a, b, c, d, e, f, g, h] == spec_rounds(init, block@, t as nat),
        decreases 64 - t,
    {
        let ghost before = seq![a, b, c, d, e, f, g, h];
        let t1: u32 = wadd(wadd(wadd(wadd(h, big_sigma1(e)), ch(e, f, g)), K[t]), w[t]);
        let t2: u32 = wadd(big_sigma0(a), maj(a, b, c));
        h = g;
        g = f;
        f = e;
        e = wadd(d, t1);
        d = c;
        c = b;
        b = a;
        a = wadd(t1, t2);
        t += 1;
        assert(seq![a, b, c, d, e, f, g, h] =~= spec_round(
            before,
            K[t - 1],
            spec_schedule(block@, (t - 1) as nat),
        ));
    }
    state[0] = wadd(state[0], a);
    state[1] = wadd(state[1], b);
    state[2] = wadd(state[2], c);
    state[3] = wadd(state[3], d);
    state[4] = wadd(state[4], e);
    state[5] = wadd(state[5], f);
    state[6] = wadd(state[6], g);
    state[7] = wadd(state[7], h);
    assert(state@ =~= spec_compress(init, block@));
}

} // verus!
