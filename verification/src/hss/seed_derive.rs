//! Deriving the seed and the identifier of every tree from the root seed.

use vstd::prelude::*;
use crate::constants::{D_TOPSEED, SEED_CHILD_I, SEED_CHILD_SEED, SEED_RANDOMIZER};
use crate::hasher::{digest, Sha256Hasher};
use crate::lm_ots::definitions::IType;
use crate::util::ustr::{spec_u16str, spec_u32str, u16str, u32str};

verus! {

/// The value derived from a tree's seed for leaf `q` under the
/// derivation index `j`.
pub open spec fn spec_seed_derive(n: nat, i: Seq<u8>, q: u32, j: u16, seed: Seq<u8>) -> Seq<u8> {
    digest(n, i + spec_u32str(q) + spec_u16str(j) + seq![0xffu8] + seed)
}

/// The seed of the tree that leaf `q` of the tree `(i, seed)` signs.
pub open spec fn spec_child_seed(n: nat, i: Seq<u8>, q: u32, seed: Seq<u8>) -> Seq<u8> {
    spec_seed_derive(n, i, q, SEED_CHILD_SEED, seed)
}

/// The identifier of the tree that leaf `q` of the tree `(i, seed)` signs.
pub open spec fn spec_child_i(n: nat, i: Seq<u8>, q: u32, seed: Seq<u8>) -> Seq<u8> {
    spec_seed_derive(n, i, q, SEED_CHILD_I, seed).subrange(0, 16)
}

/// The randomiser with which leaf `q` of the tree `(i, seed)` signs the
/// public key of the tree below it.
pub open spec fn spec_inner_randomizer(n: nat, i: Seq<u8>, q: u32, seed: Seq<u8>) -> Seq<u8> {
    spec_seed_derive(n, i, q, SEED_RANDOMIZER, seed)
}

/// The input of the hashes that derive the top tree: an all-zero
/// identifier and leaf index, the separator of this derivation, the step
/// `which` and the value `seed` that the step starts from.
pub open spec fn spec_topseed_preimage(which: u8, seed: Seq<u8>) -> Seq<u8> {
    Seq::new(20, |k: int| 0u8) + spec_u16str(D_TOPSEED) + seq![which] + seed
}

/// The intermediate value from which the seed and the identifier of the
/// top tree are derived.
pub open spec fn spec_top_intermediate(n: nat, root_seed: Seq<u8>) -> Seq<u8> {
    digest(n, spec_topseed_preimage(0, root_seed))
}

/// The seed of the top tree.
pub open spec fn spec_top_seed(n: nat, root_seed: Seq<u8>) -> Seq<u8> {
    digest(n, spec_topseed_preimage(1, spec_top_intermediate(n, root_seed)))
}

/// The identifier of the top tree.
pub open spec fn spec_top_i(n: nat, root_seed: Seq<u8>) -> Seq<u8> {
    digest(n, spec_topseed_preimage(2, spec_top_intermediate(n, root_seed))).subrange(0, 16)
}

/// Derives values from one tree's seed: for the leaf and the derivation
/// index that it is set to.
pub struct SeedDerive {
    pub n: usize,
    pub seed: Vec<u8>,
    pub i: IType,
    pub q: u32,
    pub j: u16,
}

impl SeedDerive {
    /// A derivation from the tree `(i, seed)` at output length `n`, set to
    /// leaf 0 and index 0.
    pub fn new(n: usize, seed: &[u8], i: &IType) -> (r: Self)
        ensures
            r.n == n,
            r.seed@ == seed@,
            r.i == *i,
            r.q == 0,
            r.j == 0,
    {
        SeedDerive { n, seed: vstd::slice::slice_to_vec(seed), i: *i, q: 0, j: 0 }
    }

    /// Sets the leaf that values are derived for.
    pub fn set_q(&mut self, q: u32)
        ensures
            *final(self) == (SeedDerive { q, ..*old(self) }),
    {
        self.q = q;
    }

    /// Sets the index under which values are derived.
    pub fn set_j(&mut self, j: u16)
        ensures
            *final(self) == (SeedDerive { j, ..*old(self) }),
    {
        self.j = j;
    }

    /// The value derived for the current leaf and index. With
    /// `increment_j` the index then moves on by one, wrapping at the top.
    pub fn seed_derive(&mut self, increment_j: bool) -> (r: Vec<u8>)
        ensures
            r@ == spec_seed_derive(
                old(self).n as nat,
                old(self).i@,
                old(self).q,
                old(self).j,
                old(self).seed@,
            ),
            *final(self) == (SeedDerive {
                j: if increment_j {
                    if old(self).j == 0xffff {
                        0u16
                    } else {
                        (old(self).j + 1) as u16
                    }
                } else {
                    old(self).j
                },
                ..*old(self)
            }),
    {
        let mut hasher = Sha256Hasher::new(self.n);
        let ff: [u8; 1] = [0xff];
        assert(ff@ =~= seq![0xffu8]);
        hasher.update(&self.i);
        hasher.update(&u32str(self.q));
        hasher.update(&u16str(self.j));
        hasher.update(&ff);
        hasher.update(self.seed.as_slice());
        assert(hasher@ =~= self.i@ + spec_u32str(self.q) + spec_u16str(self.j) + seq![0xffu8]
            + self.seed@);
        if increment_j {
            self.j = if self.j == 0xffff {
                0
            } else {
                self.j + 1
            };
        }
        hasher.finalize()
    }
}

} // verus!
