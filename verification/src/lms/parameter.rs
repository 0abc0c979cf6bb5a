//! The registered tree parameter sets.

use vstd::prelude::*;
use vstd::arithmetic::power2::{lemma2_to64, pow2};
use crate::hasher::Sha256Hasher;

verus! {

/// A registered tree parameter set: SHA-256 at 32 or 24 bytes per node,
/// and a tree of height 5, 10, 15, 20 or 25.
#[derive(Clone, Copy, Debug, PartialEq, Eq, Structural)]
pub enum LmsAlgorithm {
    LmsH5,
    LmsH10,
    LmsH15,
    LmsH20,
    LmsH25,
    LmsM24H5,
    LmsM24H10,
    LmsM24H15,
    LmsM24H20,
    LmsM24H25,
}

impl LmsAlgorithm {
    /// The type code under which the set is registered.
    pub open spec fn type_code(self) -> u32 {
        match self {
            LmsAlgorithm::LmsH5 => 5,
            LmsAlgorithm::LmsH10 => 6,
            LmsAlgorithm::LmsH15 => 7,
            LmsAlgorithm::LmsH20 => 8,
            LmsAlgorithm::LmsH25 => 9,
            LmsAlgorithm::LmsM24H5 => 10,
            LmsAlgorithm::LmsM24H10 => 11,
            LmsAlgorithm::LmsM24H15 => 12,
            LmsAlgorithm::LmsM24H20 => 13,
            LmsAlgorithm::LmsM24H25 => 14,
        }
    }

    /// The set registered under `code`, if there is one.
    pub open spec fn spec_from_u32(code: u32) -> Option<Self> {
        if code == 5 {
            Some(LmsAlgorithm::LmsH5)
        } else if code == 6 {
            Some(LmsAlgorithm::LmsH10)
        } else if code == 7 {
            Some(LmsAlgorithm::LmsH15)
        } else if code == 8 {
            Some(LmsAlgorithm::LmsH20)
        } else if code == 9 {
            Some(LmsAlgorithm::LmsH25)
        } else if code == 10 {
            Some(LmsAlgorithm::LmsM24H5)
        } else if code == 11 {
            Some(LmsAlgorithm::LmsM24H10)
        } else if code == 12 {
            Some(LmsAlgorithm::LmsM24H15)
        } else if code == 13 {
            Some(LmsAlgorithm::LmsM24H20)
        } else if code == 14 {
            Some(LmsAlgorithm::LmsM24H25)
        } else {
            None
        }
    }

    /// Bytes in a node of the tree.
    pub open spec fn m(self) -> nat {
        match self {
            LmsAlgorithm::LmsH5 | LmsAlgorithm::LmsH10 | LmsAlgorithm::LmsH15 | LmsAlgorithm::LmsH20 | LmsAlgorithm::LmsH25 => 32,
            _ => 24,
        }
    }

    /// Height of the tree.
    pub open spec fn h(self) -> nat {
        match self {
            LmsAlgorithm::LmsH5 | LmsAlgorithm::LmsM24H5 => 5,
            LmsAlgorithm::LmsH10 | LmsAlgorithm::LmsM24H10 => 10,
            LmsAlgorithm::LmsH15 | LmsAlgorithm::LmsM24H15 => 15,
            LmsAlgorithm::LmsH20 | LmsAlgorithm::LmsM24H20 => 20,
            LmsAlgorithm::LmsH25 | LmsAlgorithm::LmsM24H25 => 25,
        }
    }

    /// Number of leaves, `2^h`.
    pub open spec fn leaves(self) -> nat {
        match self {
            LmsAlgorithm::LmsH5 | LmsAlgorithm::LmsM24H5 => 0x20,
            LmsAlgorithm::LmsH10 | LmsAlgorithm::LmsM24H10 => 0x400,
            LmsAlgorithm::LmsH15 | LmsAlgorithm::LmsM24H15 => 0x8000,
            LmsAlgorithm::LmsH20 | LmsAlgorithm::LmsM24H20 => 0x10_0000,
            LmsAlgorithm::LmsH25 | LmsAlgorithm::LmsM24H25 => 0x200_0000,
        }
    }

    /// Length in bytes of an authentication path, `h * m`.
    pub open spec fn path_len(self) -> nat {
        match self {
            LmsAlgorithm::LmsH5 => 160,
            LmsAlgorithm::LmsH10 => 320,
            LmsAlgorithm::LmsH15 => 480,
            LmsAlgorithm::LmsH20 => 640,
            LmsAlgorithm::LmsH25 => 800,
            LmsAlgorithm::LmsM24H5 => 120,
            LmsAlgorithm::LmsM24H10 => 240,
            LmsAlgorithm::LmsM24H15 => 360,
            LmsAlgorithm::LmsM24H20 => 480,
            LmsAlgorithm::LmsM24H25 => 600,
        }
    }

    /// Length in bytes of a public key under this set.
    pub open spec fn public_key_len(self) -> nat {
        24 + self.m()
    }

    /// The registered sizes agree with each other.
    pub proof fn lemma_sizes(self)
        ensures
            self.m() == 32 || self.m() == 24,
            5 <= self.h() <= 25,
            self.leaves() == pow2(self.h()),
            self.path_len() == self.h() * self.m(),
    {
        lemma2_to64();
        match self {
            LmsAlgorithm::LmsH5 => {
                assert(5 * 32 == 160);
            },
            LmsAlgorithm::LmsH10 => {
                assert(10 * 32 == 320);
            },
            LmsAlgorithm::LmsH15 => {
                assert(15 * 32 == 480);
            },
            LmsAlgorithm::LmsH20 => {
                assert(20 * 32 == 640);
            },
            LmsAlgorithm::LmsH25 => {
                assert(25 * 32 == 800);
            },
            LmsAlgorithm::LmsM24H5 => {
                assert(5 * 24 == 120);
            },
            LmsAlgorithm::LmsM24H10 => {
                assert(10 * 24 == 240);
            },
            LmsAlgorithm::LmsM24H15 => {
                assert(15 * 24 == 360);
            },
            LmsAlgorithm::LmsM24H20 => {
                assert(20 * 24 == 480);
            },
            LmsAlgorithm::LmsM24H25 => {
                assert(25 * 24 == 600);
            },
        }
    }

    /// The type code names the set and nothing else.
    pub proof fn lemma_type_code(self)
        ensures
            Self::spec_from_u32(self.type_code()) == Some(self),
    {
    }

    /// A code that names a set is that set's type code.
    pub proof fn lemma_from_u32(code: u32)
        ensures
            Self::spec_from_u32(code) matches Some(a) ==> a.type_code() == code,
    {
    }

    /// The type code under which the set is registered.
    pub fn get_type(self) -> (r: u32)
        ensures
            r == self.type_code(),
    {
        match self {
            LmsAlgorithm::LmsH5 => 5,
            LmsAlgorithm::LmsH10 => 6,
            LmsAlgorithm::LmsH15 => 7,
            LmsAlgorithm::LmsH20 => 8,
            LmsAlgorithm::LmsH25 => 9,
            LmsAlgorithm::LmsM24H5 => 10,
            LmsAlgorithm::LmsM24H10 => 11,
            LmsAlgorithm::LmsM24H15 => 12,
            LmsAlgorithm::LmsM24H20 => 13,
            LmsAlgorithm::LmsM24H25 => 14,
        }
    }

    /// Looks a type code up; `None` where no set is registered under it.
    pub fn from_u32(code: u32) -> (r: Option<Self>)
        ensures
            r == Self::spec_from_u32(code),
    {
        if code == 5 {
            Some(LmsAlgorithm::LmsH5)
        } else if code == 6 {
            Some(LmsAlgorithm::LmsH10)
        } else if code == 7 {
            Some(LmsAlgorithm::LmsH15)
        } else if code == 8 {
            Some(LmsAlgorithm::LmsH20)
        } else if code == 9 {
            Some(LmsAlgorithm::LmsH25)
        } else if code == 10 {
            Some(LmsAlgorithm::LmsM24H5)
        } else if code == 11 {
            Some(LmsAlgorithm::LmsM24H10)
        } else if code == 12 {
            Some(LmsAlgorithm::LmsM24H15)
        } else if code == 13 {
            Some(LmsAlgorithm::LmsM24H20)
        } else if code == 14 {
            Some(LmsAlgorithm::LmsM24H25)
        } else {
            None
        }
    }

    /// Bytes in a node of the tree.
    pub fn get_m(self) -> (r: usize)
        ensures
            r == self.m(),
    {
        match self {
            LmsAlgorithm::LmsH5 | LmsAlgorithm::LmsH10 | LmsAlgorithm::LmsH15 | LmsAlgorithm::LmsH20 | LmsAlgorithm::LmsH25 => 32,
            _ => 24,
        }
    }

    /// Height of the tree.
    pub fn get_h(self) -> (r: u8)
        ensures
            r == self.h(),
    {
        match self {
            LmsAlgorithm::LmsH5 | LmsAlgorithm::LmsM24H5 => 5,
            LmsAlgorithm::LmsH10 | LmsAlgorithm::LmsM24H10 => 10,
            LmsAlgorithm::LmsH15 | LmsAlgorithm::LmsM24H15 => 15,
            LmsAlgorithm::LmsH20 | LmsAlgorithm::LmsM24H20 => 20,
            LmsAlgorithm::LmsH25 | LmsAlgorithm::LmsM24H25 => 25,
        }
    }

    /// The number of leaves, `2^h`.
    pub fn get_leaves(self) -> (r: u32)
        ensures
            r == self.leaves(),
    {
        match self {
            LmsAlgorithm::LmsH5 | LmsAlgorithm::LmsM24H5 => 0x20,
            LmsAlgorithm::LmsH10 | LmsAlgorithm::LmsM24H10 => 0x400,
            LmsAlgorithm::LmsH15 | LmsAlgorithm::LmsM24H15 => 0x8000,
            LmsAlgorithm::LmsH20 | LmsAlgorithm::LmsM24H20 => 0x10_0000,
            LmsAlgorithm::LmsH25 | LmsAlgorithm::LmsM24H25 => 0x200_0000,
        }
    }

    /// The set that is used where none is asked for.
    pub fn construct_default_parameter() -> (r: Self)
        ensures
            r == LmsAlgorithm::LmsH5,
    {
        LmsAlgorithm::LmsH5
    }

    /// A fresh hasher at this set's node length.
    pub fn get_hasher(self) -> (hasher: Sha256Hasher)
        ensures
            hasher.wf(),
            hasher@ == Seq::<u8>::empty(),
            hasher.output_len() == self.m(),
    {
        Sha256Hasher::new(self.get_m())
    }
}

} // verus!
