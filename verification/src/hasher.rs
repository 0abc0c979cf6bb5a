//! The digest behind every hash of the scheme: SHA-256, fed piece by piece
//! and cut to the output length that a parameter set asks for.

pub mod sha256;

use vstd::prelude::*;
use crate::constants::MAX_HASH;
use crate::hasher::sha256::{
    compress, sha256, spec_absorb, spec_compress, spec_padding, spec_state_bytes, spec_zero_count,
    IV,
};
use crate::util::ustr::{spec_u64str, u32str, u64str};

verus! {

/// The digest of `data` at output length `n`: the SHA-256 digest, cut to its
/// first `n` bytes where `n` is less than the full length.
pub open spec fn digest(n: nat, data: Seq<u8>) -> Seq<u8> {
    if n < 32 {
        sha256(data).subrange(0, n as int)
    } else {
        sha256(data)
    }
}

/// A digest always has the length it was asked for, 32 bytes at most.
pub proof fn lemma_digest_len(n: nat, data: Seq<u8>)
    ensures
        digest(n, data).len() == if n < 32 { n } else { 32 },
{
    reveal(sha256);
}

/// Whether the digest at output length `n` sends two different byte
/// strings to the same value.
pub open spec fn collides(n: nat) -> bool {
    exists|a: Seq<u8>, b: Seq<u8>| a != b && #[trigger] digest(n, a) == #[trigger] digest(n, b)
}

/// Two byte strings with one digest are one byte string, or the digest
/// collides.
pub proof fn lemma_same_digest(n: nat, a: Seq<u8>, b: Seq<u8>)
    requires
        digest(n, a) == digest(n, b),
    ensures
        a == b || collides(n),
{
}

/// A message of at most 55 bytes fills exactly one block with its
/// padding, and its digest is that block compressed into the initial
/// chaining value.
pub proof fn lemma_single_block(msg: Seq<u8>)
    requires
        msg.len() <= 55,
    ensures
        (msg + spec_padding(msg.len())).len() == 64,
        sha256(msg) == spec_state_bytes(spec_compress(IV@, msg + spec_padding(msg.len()))),
{
    reveal(sha256);
    let padded = msg + spec_padding(msg.len());
    crate::util::ustr::lemma_str_of_ustr(0, 0, ((8 * msg.len()) % 0x1_0000_0000_0000_0000) as u64);
    assert(padded.subrange(0, 64) =~= padded);
    assert(spec_absorb(spec_compress(IV@, padded), padded.subrange(64, 64)) == spec_compress(
        IV@,
        padded,
    ));
}

/// Byte `t` of the 32 bytes that encode a chaining value.
pub fn state_byte(state: &[u32; 8], t: usize) -> (r: u8)
    requires
        t < 32,
    ensures
        r == spec_state_bytes(state@)[t as int],
{
    let word: [u8; 4] = u32str(state[t / 4]);
    word[t % 4]
}

/// A message of at most 55 bytes followed by its padding: one block.
pub fn padded_block(msg: &[u8]) -> (block: Vec<u8>)
    requires
        msg@.len() <= 55,
    ensures
        block@ == msg@ + spec_padding(msg@.len()),
        block@.len() == 64,
{
    let len: usize = msg.len();
    let mut block: Vec<u8> = Vec::new();
    block.extend_from_slice(msg);
    block.push(0x80);
    let ghost mut zeros: nat = 0;
    assert(block@ =~= msg@ + seq![0x80u8] + Seq::new(0, |i: int| 0u8));
    while block.len() < 56
        invariant
            len == msg@.len(),
            len <= 55,
            block@.len() == len + 1 + zeros,
            block@.len() <= 56,
            block@ == msg@ + seq![0x80u8] + Seq::new(zeros, |i: int| 0u8),
        decreases 56 - block@.len(),
    {
        block.push(0);
        proof {
            assert(block@ =~= msg@ + seq![0x80u8] + Seq::new(zeros + 1, |i: int| 0u8));
            zeros = zeros + 1;
        }
    }
    let bits: u64 = 8 * (len as u64);
    block.extend_from_slice(&u64str(bits));
    proof {
        crate::util::ustr::lemma_str_of_ustr(0, 0, bits);
        assert(zeros == spec_zero_count(len as nat));
        assert(block@ =~= msg@ + spec_padding(len as nat));
    }
    block
}

/// Compressing one more block extends what has been absorbed by that block.
proof fn lemma_absorb_block(state: Seq<u32>, data: Seq<u8>, block: Seq<u8>)
    requires
        data.len() % 64 == 0,
        block.len() == 64,
    ensures
        spec_absorb(state, data + block) == spec_compress(spec_absorb(state, data), block),
    decreases data.len(),
{
    let all = data + block;
    if data.len() == 0 {
        assert(all.subrange(0, 64) =~= block);
        assert(spec_absorb(spec_compress(state, block), all.subrange(64, all.len() as int))
            == spec_compress(state, block));
    } else {
        assert(all.subrange(0, 64) =~= data.subrange(0, 64));
        assert(all.subrange(64, all.len() as int) =~= data.subrange(64, data.len() as int) + block);
        lemma_absorb_block(
            spec_compress(state, data.subrange(0, 64)),
            data.subrange(64, data.len() as int),
            block,
        );
    }
}

/// A running digest: bytes go in through `update`, the digest of all of them
/// comes out of `finalize`.
pub struct Sha256Hasher {
    state: [u32; 8],
    block: [u8; 64],
    filled: usize,
    length: u64,
    output_len: usize,
    absorbed: Ghost<Seq<u8>>,
}

impl View for Sha256Hasher {
    type V = Seq<u8>;

    /// Every byte fed in since the hasher was created or last reset.
    closed spec fn view(&self) -> Seq<u8> {
        self.absorbed@
    }
}

impl Sha256Hasher {
    /// The chaining value covers every whole block fed so far, and the
    /// block buffer holds the bytes after the last whole block.
    spec fn buffered(&self) -> bool {
        let len = self.absorbed@.len() as int;
        &&& self.filled < 64
        &&& self.filled <= len
        &&& (len - self.filled) % 64 == 0
        &&& self.state@ == spec_absorb(IV@, self.absorbed@.subrange(0, len - self.filled))
        &&& forall|k: int|
            0 <= k < self.filled ==> self.block@[k] == self.absorbed@[len - self.filled + k]
    }

    /// The internal state agrees with the bytes fed so far.
    pub closed spec fn wf(&self) -> bool {
        &&& self.buffered()
        &&& self.length == self.absorbed@.len() % 0x1_0000_0000_0000_0000
    }

    /// The output length that the hasher was created with.
    pub closed spec fn output_len(&self) -> nat {
        self.output_len as nat
    }

    /// A hasher that has been fed nothing and yields digests of
    /// `output_len` bytes (of the full 32 where `output_len` is larger).
    pub fn new(output_len: usize) -> (hasher: Self)
        ensures
            hasher.wf(),
            hasher@ == Seq::<u8>::empty(),
            hasher.output_len() == output_len,
    {
        let hasher = Sha256Hasher {
            state: IV,
            block: [0u8; 64],
            filled: 0,
            length: 0,
            output_len,
            absorbed: Ghost(Seq::empty()),
        };
        assert(hasher.absorbed@.subrange(0, 0) =~= Seq::<u8>::empty());
        hasher
    }

    /// Feeds one byte; a block that it completes is compressed.
    fn push(&mut self, b: u8)
        requires
            old(self).buffered(),
        ensures
            final(self).buffered(),
            final(self).absorbed@ == old(self).absorbed@.push(b),
            final(self).length == old(self).length,
            final(self).output_len == old(self).output_len,
    {
        let ghost before = self.absorbed@;
        let ghost whole = before.subrange(0, before.len() - self.filled);
        self.block[self.filled] = b;
        self.filled += 1;
        self.absorbed = Ghost(before.push(b));
        let ghost len = self.absorbed@.len() as int;
        assert(self.absorbed@.subrange(0, len - self.filled) =~= whole);
        if self.filled == 64 {
            compress(&mut self.state, &self.block);
            self.filled = 0;
            proof {
                lemma_absorb_block(IV@, whole, self.block@);
                assert(whole + self.block@ =~= self.absorbed@.subrange(0, len));
            }
        }
    }

    /// Feeds `data` to the hasher.
    pub fn update(&mut self, data: &[u8])
        requires
            old(self).wf(),
        ensures
            final(self).wf(),
            final(self)@ == old(self)@ + data@,
            final(self).output_len() == old(self).output_len(),
    {
        let n: usize = data.len();
        let mut i: usize = 0;
        assert(data@.subrange(0, 0) =~= Seq::<u8>::empty());
        assert(self.absorbed@ + Seq::<u8>::empty() =~= self.absorbed@);
        while i < n
            invariant
                i <= n,
                n == data@.len(),
                self.buffered(),
                self.absorbed@ == old(self).absorbed@ + data@.subrange(0, i as int),
                self.length == old(self).length,
                self.output_len == old(self).output_len,
            decreases n - i,
        {
            self.push(data[i]);
            i += 1;
            assert(data@.subrange(0, i as int) =~= data@.subrange(0, i - 1).push(data@[i - 1]));
            assert(self.absorbed@ =~= old(self).absorbed@ + data@.subrange(0, i as int));
        }
        assert(data@.subrange(0, n as int) =~= data@);
        self.length = self.length.wrapping_add(n as u64);
    }

    /// Feeds the one bit and the zero bytes of the padding.
    fn pad_zeros(&mut self)
        requires
            old(self).buffered(),
        ensures
            final(self).buffered(),
            final(self).filled == 56,
            final(self).absorbed@ == old(self).absorbed@ + seq![0x80u8] + Seq::new(
                spec_zero_count(old(self).absorbed@.len()),
                |i: int| 0u8,
            ),
            final(self).length == old(self).length,
            final(self).output_len == old(self).output_len,
    {
        let ghost msg = self.absorbed@;
        self.push(0x80);
        let ghost mut zeros: nat = 0;
        assert(msg.push(0x80u8) =~= msg + seq![0x80u8] + Seq::new(0, |i: int| 0u8));
        while self.filled != 56
            invariant
                self.buffered(),
                self.absorbed@ == msg + seq![0x80u8] + Seq::new(zeros, |i: int| 0u8),
                self.length == old(self).length,
                self.output_len == old(self).output_len,
                zeros + (if self.filled <= 56 {
                    56 - self.filled
                } else {
                    120 - self.filled
                }) == spec_zero_count(msg.len()),
            decreases
                    (if self.filled <= 56 {
                        56 - self.filled
                    } else {
                        120 - self.filled
                    }),
        {
            self.push(0);
            proof {
                assert(self.absorbed@ =~= msg + seq![0x80u8] + Seq::new(zeros + 1, |i: int| 0u8));
                zeros = zeros + 1;
            }
        }
    }

    /// Feeds the eight bytes that close the padding.
    fn pad_length(&mut self, bits: u64)
        requires
            old(self).buffered(),
            old(self).filled == 56,
        ensures
            final(self).buffered(),
            final(self).filled == 0,
            final(self).absorbed@ == old(self).absorbed@ + spec_u64str(bits),
            final(self).output_len == old(self).output_len,
    {
        let length_bytes: [u8; 8] = u64str(bits);
        let ghost head = self.absorbed@;
        let mut i: usize = 0;
        assert(head + length_bytes@.subrange(0, 0) =~= head);
        while i < 8
            invariant
                i <= 8,
                self.buffered(),
                self.filled == (56 + i) % 64,
                self.absorbed@ == head + length_bytes@.subrange(0, i as int),
                self.output_len == old(self).output_len,
            decreases 8 - i,
        {
            self.push(length_bytes[i]);
            i += 1;
            assert(self.absorbed@ =~= head + length_bytes@.subrange(0, i as int));
        }
        assert(length_bytes@.subrange(0, 8) =~= length_bytes@);
    }

    /// The leading bytes of the chaining value, as many as the output
    /// length allows.
    fn output(&self) -> (out: Vec<u8>)
        ensures
            out@ == if self.output_len < 32 {
                spec_state_bytes(self.state@).subrange(0, self.output_len as int)
            } else {
                spec_state_bytes(self.state@)
            },
    {
        let limit: usize = if self.output_len < MAX_HASH {
            self.output_len
        } else {
            MAX_HASH
        };
        let mut out: Vec<u8> = Vec::new();
        let mut j: usize = 0;
        while j < limit
            invariant
                j <= limit <= 32,
                out@ == spec_state_bytes(self.state@).subrange(0, j as int),
            decreases limit - j,
        {
            out.push(state_byte(&self.state, j));
            j += 1;
            assert(out@ =~= spec_state_bytes(self.state@).subrange(0, j as int));
        }
        assert(spec_state_bytes(self.state@).subrange(0, 32) =~= spec_state_bytes(self.state@));
        out
    }

    /// The digest of everything fed so far; the hasher is left as new.
    pub fn finalize_reset(&mut self) -> (out: Vec<u8>)
        requires
            old(self).wf(),
        ensures
            final(self).wf(),
            final(self)@ == Seq::<u8>::empty(),
            final(self).output_len() == old(self).output_len(),
            out@ == digest(old(self).output_len(), old(self)@),
    {
        let ghost msg = self.absorbed@;
        let bits: u64 = self.length.wrapping_mul(8);
        assert(bits == (8 * msg.len()) % 0x1_0000_0000_0000_0000) by {
            vstd::arithmetic::div_mod::lemma_mul_mod_noop_right(
                8,
                msg.len() as int,
                0x1_0000_0000_0000_0000,
            );
        }
        self.pad_zeros();
        self.pad_length(bits);
        proof {
            reveal(sha256);
            assert(self.absorbed@ =~= msg + spec_padding(msg.len()));
            assert(self.absorbed@.subrange(0, self.absorbed@.len() as int) =~= self.absorbed@);
        }
        let out = self.output();
        self.state = IV;
        self.filled = 0;
        self.length = 0;
        self.absorbed = Ghost(Seq::empty());
        assert(self.absorbed@.subrange(0, 0) =~= Seq::<u8>::empty());
        out
    }

    /// The digest of everything fed so far.
    pub fn finalize(self) -> (out: Vec<u8>)
        requires
            self.wf(),
        ensures
            out@ == digest(self.output_len(), self@),
    {
        let mut hasher = self;
        hasher.finalize_reset()
    }
}

} // verus!
