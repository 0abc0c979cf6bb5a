//! Building a tree from its seed: leaves, nodes and the root.

use vstd::prelude::*;
use vstd::arithmetic::power2::pow2;
use vstd::slice::slice_to_vec;
use crate::constants::{D_INTR, D_LEAF};
use crate::lm_ots::definitions::IType;
use crate::lm_ots::parameter::LmotsAlgorithm;
use crate::lms::definitions::{
    lemma_row_bound, spec_leaf_key, spec_lms_public_key, spec_node, LmsPrivateKey, LmsPublicKey,
};
use crate::lms::parameter::LmsAlgorithm;
use crate::util::ustr::{spec_u16str, spec_u32str, u16str, u32str};

verus! {

/// The secret state of the tree `(i, seed)`, with no leaf used yet.
pub fn generate_private_key(
    lmots_parameter: LmotsAlgorithm,
    lms_parameter: LmsAlgorithm,
    i: IType,
    seed: &[u8],
) -> (r: LmsPrivateKey)
    ensures
        r.lmots_parameter == lmots_parameter,
        r.lms_parameter == lms_parameter,
        r.i == i,
        r.seed@ == seed@,
        r.q == 0,
{
    LmsPrivateKey { lmots_parameter, lms_parameter, i, seed: slice_to_vec(seed), q: 0 }
}

/// The one-time public key at leaf `q` of the tree `(i, seed)`.
pub fn leaf_key(lmots_parameter: LmotsAlgorithm, i: &IType, q: u32, seed: &[u8]) -> (r: Vec<u8>)
    ensures
        r@ == spec_leaf_key(lmots_parameter, i@, q, seed@),
        r@.len() == lmots_parameter.n(),
{
    let secrets = crate::lm_ots::keygen::generate_private_key(lmots_parameter, *i, u32str(q), seed);
    let public = crate::lm_ots::keygen::generate_public_key(&secrets);
    public.key
}

/// The value of node `r`, which has `levels` levels of the tree below it.
pub fn node(
    lmots_parameter: LmotsAlgorithm,
    lms_parameter: LmsAlgorithm,
    i: &IType,
    seed: &[u8],
    r: u32,
    levels: u8,
) -> (value: Vec<u8>)
    requires
        levels <= lms_parameter.h(),
        pow2((lms_parameter.h() - levels) as nat) <= r < 2 * pow2((lms_parameter.h() - levels) as nat),
    ensures
        value@ == spec_node(lmots_parameter, lms_parameter, i@, seed@, r as nat, levels as nat),
        value@.len() == lms_parameter.m(),
    decreases levels,
{
    proof {
        lemma_row_bound(lms_parameter, levels as nat);
        crate::lms::definitions::lemma_node_len(
            lmots_parameter,
            lms_parameter,
            i@,
            seed@,
            r as nat,
            levels as nat,
        );
    }
    let mut hasher = lms_parameter.get_hasher();
    hasher.update(i);
    hasher.update(&u32str(r));
    if levels == 0 {
        let key = leaf_key(lmots_parameter, i, r - lms_parameter.get_leaves(), seed);
        hasher.update(&u16str(D_LEAF));
        hasher.update(key.as_slice());
        assert(hasher@ =~= i@ + spec_u32str(r) + spec_u16str(D_LEAF) + key@);
    } else {
        let left = node(lmots_parameter, lms_parameter, i, seed, 2 * r, levels - 1);
        let right = node(lmots_parameter, lms_parameter, i, seed, 2 * r + 1, levels - 1);
        hasher.update(&u16str(D_INTR));
        hasher.update(left.as_slice());
        hasher.update(right.as_slice());
        assert(hasher@ =~= i@ + spec_u32str(r) + spec_u16str(D_INTR) + left@ + right@);
    }
    hasher.finalize()
}

/// The public key of a tree: its root, with the parameter sets and the
/// identifier.
pub fn generate_public_key(private_key: &LmsPrivateKey) -> (r: LmsPublicKey)
    ensures
        r@ == spec_lms_public_key(
            private_key.lmots_parameter,
            private_key.lms_parameter,
            private_key.i@,
            private_key.seed@,
        ),
        r@.wf(),
{
    proof {
        private_key.lms_parameter.lemma_sizes();
        vstd::arithmetic::power2::lemma2_to64();
    }
    let key = node(
        private_key.lmots_parameter,
        private_key.lms_parameter,
        &private_key.i,
        private_key.seed.as_slice(),
        1,
        private_key.lms_parameter.get_h(),
    );
    LmsPublicKey {
        lms_parameter: private_key.lms_parameter,
        lmots_parameter: private_key.lmots_parameter,
        i: private_key.i,
        key,
    }
}

} // verus!
