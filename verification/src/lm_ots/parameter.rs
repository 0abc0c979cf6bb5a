//! The registered one-time parameter sets.

use vstd::prelude::*;
use crate::hasher::Sha256Hasher;
use crate::util::coef::{coef, spec_coef, spec_max_digit, valid_width, max_digit};
use crate::util::ustr::{spec_u16str, u16str};

verus! {

/// A registered one-time parameter set: SHA-256 at 32 or 24 bytes of
/// output, with hash chains that sign 1, 2, 4 or 8 bits each.
#[derive(Clone, Copy, Debug, PartialEq, Eq, Structural)]
pub enum LmotsAlgorithm {
    LmotsW1,
    LmotsW2,
    LmotsW4,
    LmotsW8,
    LmotsN24W1,
    LmotsN24W2,
    LmotsN24W4,
    LmotsN24W8,
}

impl LmotsAlgorithm {
    /// The type code under which the set is registered.
    pub open spec fn type_code(self) -> u32 {
        match self {
            LmotsAlgorithm::LmotsW1 => 1,
            LmotsAlgorithm::LmotsW2 => 2,
            LmotsAlgorithm::LmotsW4 => 3,
            LmotsAlgorithm::LmotsW8 => 4,
            LmotsAlgorithm::LmotsN24W1 => 5,
            LmotsAlgorithm::LmotsN24W2 => 6,
            LmotsAlgorithm::LmotsN24W4 => 7,
            LmotsAlgorithm::LmotsN24W8 => 8,
        }
    }

    /// The set registered under `code`, if there is one.
    pub open spec fn spec_from_u32(code: u32) -> Option<Self> {
        if code == 1 {
            Some(LmotsAlgorithm::LmotsW1)
        } else if code == 2 {
            Some(LmotsAlgorithm::LmotsW2)
        } else if code == 3 {
            Some(LmotsAlgorithm::LmotsW4)
        } else if code == 4 {
            Some(LmotsAlgorithm::LmotsW8)
        } else if code == 5 {
            Some(LmotsAlgorithm::LmotsN24W1)
        } else if code == 6 {
            Some(LmotsAlgorithm::LmotsN24W2)
        } else if code == 7 {
            Some(LmotsAlgorithm::LmotsN24W4)
        } else if code == 8 {
            Some(LmotsAlgorithm::LmotsN24W8)
        } else {
            None
        }
    }

    /// Bytes of digest output.
    pub open spec fn n(self) -> nat {
        match self {
            LmotsAlgorithm::LmotsW1 | LmotsAlgorithm::LmotsW2 | LmotsAlgorithm::LmotsW4 | LmotsAlgorithm::LmotsW8 => 32,
            _ => 24,
        }
    }

    /// Bits that one hash chain signs.
    pub open spec fn w(self) -> nat {
        match self {
            LmotsAlgorithm::LmotsW1 | LmotsAlgorithm::LmotsN24W1 => 1,
            LmotsAlgorithm::LmotsW2 | LmotsAlgorithm::LmotsN24W2 => 2,
            LmotsAlgorithm::LmotsW4 | LmotsAlgorithm::LmotsN24W4 => 4,
            LmotsAlgorithm::LmotsW8 | LmotsAlgorithm::LmotsN24W8 => 8,
        }
    }

    /// Number of hash chains.
    pub open spec fn p(self) -> nat {
        match self {
            LmotsAlgorithm::LmotsW1 => 265,
            LmotsAlgorithm::LmotsW2 => 133,
            LmotsAlgorithm::LmotsW4 => 67,
            LmotsAlgorithm::LmotsW8 => 34,
            LmotsAlgorithm::LmotsN24W1 => 200,
            LmotsAlgorithm::LmotsN24W2 => 101,
            LmotsAlgorithm::LmotsN24W4 => 51,
            LmotsAlgorithm::LmotsN24W8 => 26,
        }
    }

    /// Left shift that aligns the checksum with the top of its two bytes.
    pub open spec fn ls(self) -> nat {
        match self {
            LmotsAlgorithm::LmotsW1 => 7,
            LmotsAlgorithm::LmotsW2 => 6,
            LmotsAlgorithm::LmotsW4 => 4,
            LmotsAlgorithm::LmotsW8 => 0,
            LmotsAlgorithm::LmotsN24W1 => 8,
            LmotsAlgorithm::LmotsN24W2 => 6,
            LmotsAlgorithm::LmotsN24W4 => 4,
            LmotsAlgorithm::LmotsN24W8 => 0,
        }
    }

    /// Number of chains that sign the message digest itself, `8n / w`.
    pub open spec fn u(self) -> nat {
        8 * self.n() / self.w()
    }

    /// Length of the chains: the largest digit, `2^w - 1`.
    pub open spec fn max_digit(self) -> nat {
        spec_max_digit(self.w()) as nat
    }

    /// Length in bytes of a signature under this set: a type code, the
    /// randomiser and `p` chain values, `4 + n * (p + 1)`.
    pub open spec fn signature_len(self) -> nat {
        match self {
            LmotsAlgorithm::LmotsW1 => 8516,
            LmotsAlgorithm::LmotsW2 => 4292,
            LmotsAlgorithm::LmotsW4 => 2180,
            LmotsAlgorithm::LmotsW8 => 1124,
            LmotsAlgorithm::LmotsN24W1 => 4828,
            LmotsAlgorithm::LmotsN24W2 => 2452,
            LmotsAlgorithm::LmotsN24W4 => 1252,
            LmotsAlgorithm::LmotsN24W8 => 652,
        }
    }

    /// The sum of the complements of the first `count` digits of `digest`.
    pub open spec fn checksum_sum(self, digest: Seq<u8>, count: nat) -> int
        decreases count,
    {
        if count == 0 {
            0
        } else {
            self.checksum_sum(digest, (count - 1) as nat) + (self.max_digit() - spec_coef(
                digest,
                (count - 1) as nat,
                self.w(),
            ))
        }
    }

    /// The checksum of a digest: the sum of the complements of its digits,
    /// shifted to the top of sixteen bits.
    pub open spec fn checksum(self, digest: Seq<u8>) -> u16 {
        (self.checksum_sum(digest, self.u()) as u16) << (self.ls() as u16)
    }

    /// A digest followed by the two bytes of its checksum.
    pub open spec fn appended_with_checksum(self, digest: Seq<u8>) -> Seq<u8> {
        digest + spec_u16str(self.checksum(digest))
    }

    /// The number of chains follows from `n` and `w`: beside the `u`
    /// chains for the digits of the digest there are as many chains as
    /// the largest checksum, `(2^w - 1) * u`, has digits of `w` bits, and
    /// no more.
    pub proof fn theorem_chain_count(self)
        ensures
            self.u() == 8 * self.n() / self.w(),
            vstd::arithmetic::power2::pow2((self.p() - self.u()) as nat * self.w()) > self.max_digit()
                * self.u(),
            vstd::arithmetic::power2::pow2((self.p() - self.u() - 1) as nat * self.w())
                <= self.max_digit() * self.u(),
    {
        vstd::arithmetic::power2::lemma2_to64();
        match self {
            LmotsAlgorithm::LmotsW1 => {
                assert(self.u() == 256);
                assert((self.p() - self.u()) as nat * self.w() == 9);
                assert((self.p() - self.u() - 1) as nat * self.w() == 8);
                assert(self.max_digit() * self.u() == 256);
            },
            LmotsAlgorithm::LmotsW2 => {
                assert(self.u() == 128);
                assert((self.p() - self.u()) as nat * self.w() == 10);
                assert((self.p() - self.u() - 1) as nat * self.w() == 8);
                assert(self.max_digit() * self.u() == 384);
            },
            LmotsAlgorithm::LmotsW4 => {
                assert(self.u() == 64);
                assert((self.p() - self.u()) as nat * self.w() == 12);
                assert((self.p() - self.u() - 1) as nat * self.w() == 8);
                assert(self.max_digit() * self.u() == 960);
            },
            LmotsAlgorithm::LmotsW8 => {
                assert(self.u() == 32);
                assert((self.p() - self.u()) as nat * self.w() == 16);
                assert((self.p() - self.u() - 1) as nat * self.w() == 8);
                assert(self.max_digit() * self.u() == 8160);
            },
            LmotsAlgorithm::LmotsN24W1 => {
                assert(self.u() == 192);
                assert((self.p() - self.u()) as nat * self.w() == 8);
                assert((self.p() - self.u() - 1) as nat * self.w() == 7);
                assert(self.max_digit() * self.u() == 192);
            },
            LmotsAlgorithm::LmotsN24W2 => {
                assert(self.u() == 96);
                assert((self.p() - self.u()) as nat * self.w() == 10);
                assert((self.p() - self.u() - 1) as nat * self.w() == 8);
                assert(self.max_digit() * self.u() == 288);
            },
            LmotsAlgorithm::LmotsN24W4 => {
                assert(self.u() == 48);
                assert((self.p() - self.u()) as nat * self.w() == 12);
                assert((self.p() - self.u() - 1) as nat * self.w() == 8);
                assert(self.max_digit() * self.u() == 720);
            },
            LmotsAlgorithm::LmotsN24W8 => {
                assert(self.u() == 24);
                assert((self.p() - self.u()) as nat * self.w() == 16);
                assert((self.p() - self.u() - 1) as nat * self.w() == 8);
                assert(self.max_digit() * self.u() == 6120);
            },
        }
    }

    /// The registered sizes agree with each other: the digest splits into
    /// whole digits, and all `p` digits lie within the digest and its
    /// two checksum bytes.
    pub proof fn lemma_sizes(self)
        ensures
            valid_width(self.w()),
            self.n() == 32 || self.n() == 24,
            self.u() * self.w() == 8 * self.n(),
            self.u() < self.p() <= 265,
            self.p() * self.w() <= 8 * (self.n() + 2),
            (self.p() - self.u()) * self.w() + self.ls() == 16,
            self.max_digit() + 1 == vstd::arithmetic::power2::pow2(self.w()),
            self.signature_len() == 4 + self.n() * (self.p() + 1),
            self.signature_len() == 4 + self.n() + self.p() * self.n(),
    {
        vstd::arithmetic::power2::lemma2_to64();
        match self {
            LmotsAlgorithm::LmotsW1 => {
                assert(self.u() == 256);
            },
            LmotsAlgorithm::LmotsW2 => {
                assert(self.u() == 128);
            },
            LmotsAlgorithm::LmotsW4 => {
                assert(self.u() == 64);
            },
            LmotsAlgorithm::LmotsW8 => {
                assert(self.u() == 32);
            },
            LmotsAlgorithm::LmotsN24W1 => {
                assert(self.u() == 192);
            },
            LmotsAlgorithm::LmotsN24W2 => {
                assert(self.u() == 96);
            },
            LmotsAlgorithm::LmotsN24W4 => {
                assert(self.u() == 48);
            },
            LmotsAlgorithm::LmotsN24W8 => {
                assert(self.u() == 24);
            },
        }
    }

    /// The type code names the set and nothing else.
    pub proof fn lemma_type_code(self)
        ensures
            Self::spec_from_u32(self.type_code()) == Some(self),
    {
    }

    /// A code that names a set is that set's type code.
    pub proof fn lemma_from_u32(code: u32)
        ensures
            Self::spec_from_u32(code) matches Some(a) ==> a.type_code() == code,
    {
    }

    /// The type code under which the set is registered.
    pub fn get_type(self) -> (r: u32)
        ensures
            r == self.type_code(),
    {
        match self {
            LmotsAlgorithm::LmotsW1 => 1,
            LmotsAlgorithm::LmotsW2 => 2,
            LmotsAlgorithm::LmotsW4 => 3,
            LmotsAlgorithm::LmotsW8 => 4,
            LmotsAlgorithm::LmotsN24W1 => 5,
            LmotsAlgorithm::LmotsN24W2 => 6,
            LmotsAlgorithm::LmotsN24W4 => 7,
            LmotsAlgorithm::LmotsN24W8 => 8,
        }
    }

    /// Looks a type code up; `None` where no set is registered under it.
    pub fn from_u32(code: u32) -> (r: Option<Self>)
        ensures
            r == Self::spec_from_u32(code),
    {
        if code == 1 {
            Some(LmotsAlgorithm::LmotsW1)
        } else if code == 2 {
            Some(LmotsAlgorithm::LmotsW2)
        } else if code == 3 {
            Some(LmotsAlgorithm::LmotsW4)
        } else if code == 4 {
            Some(LmotsAlgorithm::LmotsW8)
        } else if code == 5 {
            Some(LmotsAlgorithm::LmotsN24W1)
        } else if code == 6 {
            Some(LmotsAlgorithm::LmotsN24W2)
        } else if code == 7 {
            Some(LmotsAlgorithm::LmotsN24W4)
        } else if code == 8 {
            Some(LmotsAlgorithm::LmotsN24W8)
        } else {
            None
        }
    }

    /// Bytes of digest output.
    pub fn get_n(self) -> (r: usize)
        ensures
            r == self.n(),
    {
        match self {
            LmotsAlgorithm::LmotsW1 | LmotsAlgorithm::LmotsW2 | LmotsAlgorithm::LmotsW4 | LmotsAlgorithm::LmotsW8 => 32,
            _ => 24,
        }
    }

    /// Bits that one hash chain signs.
    pub fn get_w(self) -> (r: u8)
        ensures
            r == self.w(),
    {
        match self {
            LmotsAlgorithm::LmotsW1 | LmotsAlgorithm::LmotsN24W1 => 1,
            LmotsAlgorithm::LmotsW2 | LmotsAlgorithm::LmotsN24W2 => 2,
            LmotsAlgorithm::LmotsW4 | LmotsAlgorithm::LmotsN24W4 => 4,
            LmotsAlgorithm::LmotsW8 | LmotsAlgorithm::LmotsN24W8 => 8,
        }
    }

    /// Number of hash chains.
    pub fn get_p(self) -> (r: u16)
        ensures
            r == self.p(),
    {
        match self {
            LmotsAlgorithm::LmotsW1 => 265,
            LmotsAlgorithm::LmotsW2 => 133,
            LmotsAlgorithm::LmotsW4 => 67,
            LmotsAlgorithm::LmotsW8 => 34,
            LmotsAlgorithm::LmotsN24W1 => 200,
            LmotsAlgorithm::LmotsN24W2 => 101,
            LmotsAlgorithm::LmotsN24W4 => 51,
            LmotsAlgorithm::LmotsN24W8 => 26,
        }
    }

    /// Left shift that aligns the checksum with the top of its two bytes.
    pub fn get_ls(self) -> (r: u8)
        ensures
            r == self.ls(),
    {
        match self {
            LmotsAlgorithm::LmotsW1 => 7,
            LmotsAlgorithm::LmotsW2 => 6,
            LmotsAlgorithm::LmotsW4 => 4,
            LmotsAlgorithm::LmotsW8 => 0,
            LmotsAlgorithm::LmotsN24W1 => 8,
            LmotsAlgorithm::LmotsN24W2 => 6,
            LmotsAlgorithm::LmotsN24W4 => 4,
            LmotsAlgorithm::LmotsN24W8 => 0,
        }
    }

    /// The length of the chains, `2^w - 1`.
    pub fn get_max_digit(self) -> (r: u8)
        ensures
            r == self.max_digit(),
    {
        max_digit(self.get_w())
    }

    /// The set that is used where none is asked for.
    pub fn construct_default_parameter() -> (r: Self)
        ensures
            r == LmotsAlgorithm::LmotsW1,
    {
        LmotsAlgorithm::LmotsW1
    }

    /// A fresh hasher at this set's output length.
    pub fn get_hasher(self) -> (hasher: Sha256Hasher)
        ensures
            hasher.wf(),
            hasher@ == Seq::<u8>::empty(),
            hasher.output_len() == self.n(),
    {
        Sha256Hasher::new(self.get_n())
    }

    /// Appends to a digest the two bytes of its checksum.
    pub fn get_appended_with_checksum(self, digest: &[u8]) -> (r: Vec<u8>)
        requires
            digest@.len() == self.n(),
        ensures
            r@ == self.appended_with_checksum(digest@),
    {
        let w: u8 = self.get_w();
        let top: u8 = self.get_max_digit();
        let count: u16 = (8 * self.get_n() / (w as usize)) as u16;
        let mut sum: u16 = 0;
        let mut i: u16 = 0;
        proof {
            self.lemma_sizes();
        }
        while i < count
            invariant
                i <= count,
                count == self.u(),
                count <= 256,
                w == self.w(),
                top == self.max_digit(),
                valid_width(w as nat),
                digest@.len() == self.n(),
                self.u() * self.w() == 8 * self.n(),
                sum == self.checksum_sum(digest@, i as nat),
                sum <= 255 * i,
            decreases count - i,
        {
            assert((i as nat) * (w as nat) / 8 < digest@.len()) by (nonlinear_arith)
                requires
                    i < count,
                    count * w == 8 * digest@.len(),
                    w > 0,
            ;
            let a: u8 = coef(digest, i, w);
            sum = sum + ((top - a) as u16);
            i += 1;
        }
        let checksum: u16 = sum << (self.get_ls() as u16);
        let tail: [u8; 2] = u16str(checksum);
        let mut r: Vec<u8> = Vec::new();
        r.extend_from_slice(digest);
        r.extend_from_slice(&tail);
        assert(r@ =~= self.appended_with_checksum(digest@));
        r
    }
}

} // verus!
