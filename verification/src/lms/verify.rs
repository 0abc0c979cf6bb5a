//! Checking a signature under a tree: climbing from the leaf to the root.

use vstd::prelude::*;
use crate::constants::{D_INTR, D_LEAF};
use crate::error::LmsError;
use crate::lm_ots::definitions::IType;
use crate::lm_ots::verify::generate_public_key_candidate;
use crate::lms::definitions::{
    lemma_ancestor_range,
    lemma_row_bound,
    spec_ancestor,
    spec_fold,
    spec_leaf,
    spec_lms_verify,
    spec_root_candidate,
    LmsPublicKey,
};
use crate::lms::parameter::LmsAlgorithm;
use crate::lms::signing::LmsSignature;
use crate::util::chunks::spec_rows;
use crate::util::compare::bytes_equal;
use crate::util::ustr::{spec_u16str, spec_u32str, u16str, u32str};

verus! {

/// The value of leaf node `leaf`, which binds the one-time public key
/// `ots_key`.
pub fn leaf_value(lms_parameter: LmsAlgorithm, i: &IType, leaf: u32, ots_key: &[u8]) -> (r: Vec<u8>)
    ensures
        r@ == spec_leaf(lms_parameter, i@, leaf as nat, ots_key@),
{
    let mut hasher = lms_parameter.get_hasher();
    hasher.update(i);
    hasher.update(&u32str(leaf));
    hasher.update(&u16str(D_LEAF));
    hasher.update(ots_key);
    assert(hasher@ =~= i@ + spec_u32str(leaf) + spec_u16str(D_LEAF) + ots_key@);
    hasher.finalize()
}

/// Climbs from leaf node `leaf` to the root: folds the value `start` of
/// the leaf with the siblings in `path`, one level at a time.
pub fn fold_path(lms_parameter: LmsAlgorithm, i: &IType, leaf: u32, start: Vec<u8>, path: &Vec<Vec<u8>>) -> (r:
    Vec<u8>)
    requires
        lms_parameter.leaves() <= leaf < 2 * lms_parameter.leaves(),
        path@.len() == lms_parameter.h(),
    ensures
        r@ == spec_fold(
            lms_parameter,
            i@,
            leaf as nat,
            start@,
            spec_rows(path@),
            lms_parameter.h(),
        ),
{
    let h: u8 = lms_parameter.get_h();
    let ghost first = start@;
    let ghost rows = spec_rows(path@);
    let mut hasher = lms_parameter.get_hasher();
    let mut value = start;
    let mut current: u32 = leaf;
    let mut k: u8 = 0;
    while k < h
        invariant
            k <= h,
            h == lms_parameter.h(),
            path@.len() == h,
            rows == spec_rows(path@),
            lms_parameter.leaves() <= leaf < 2 * lms_parameter.leaves(),
            current == spec_ancestor(leaf as nat, k as nat),
            hasher.wf(),
            hasher@ == Seq::<u8>::empty(),
            hasher.output_len() == lms_parameter.m(),
            value@ == spec_fold(lms_parameter, i@, leaf as nat, first, rows, k as nat),
        decreases h - k,
    {
        proof {
            lemma_ancestor_range(lms_parameter, leaf as nat, k as nat);
            lemma_row_bound(lms_parameter, k as nat);
        }
        assert(rows[k as int] == path[k as int]@);
        let ghost below = value@;
        let parent: u32 = current / 2;
        hasher.update(i);
        hasher.update(&u32str(parent));
        hasher.update(&u16str(D_INTR));
        if current % 2 == 1 {
            hasher.update(path[k as usize].as_slice());
            hasher.update(value.as_slice());
            assert(hasher@ =~= i@ + spec_u32str(parent) + spec_u16str(D_INTR) + rows[k as int] + below);
        } else {
            hasher.update(value.as_slice());
            hasher.update(path[k as usize].as_slice());
            assert(hasher@ =~= i@ + spec_u32str(parent) + spec_u16str(D_INTR) + below + rows[k as int]);
        }
        value = hasher.finalize_reset();
        current = parent;
        k += 1;
    }
    value
}

/// The root that `signature` would belong to if it signed `message` in a
/// tree with identifier `i`.
pub fn generate_root_candidate(signature: &LmsSignature, i: &IType, message: &[u8]) -> (r: Vec<u8>)
    requires
        signature.wf(),
    ensures
        r@ == spec_root_candidate(signature@, i@, message@),
{
    let lms_parameter = signature.lms_parameter;
    proof {
        lms_parameter.lemma_sizes();
    }
    let leaf: u32 = lms_parameter.get_leaves() + signature.q;
    let ots_key = generate_public_key_candidate(
        &signature.lmots_signature,
        i,
        &u32str(signature.q),
        message,
    );
    let start = leaf_value(lms_parameter, i, leaf, ots_key.as_slice());
    fold_path(lms_parameter, i, leaf, start, &signature.path)
}

/// Checks `signature` on `message` against a tree's public key.
///
/// `Ok` exactly where the signature is well formed, names the parameter
/// sets of the key, and leads from the message to the key's root;
/// `VerificationFailure` everywhere else.
pub fn verify(signature: &LmsSignature, public_key: &LmsPublicKey, message: &[u8]) -> (r: Result<
    (),
    LmsError,
>)
    ensures
        r is Ok <==> spec_lms_verify(signature@, public_key@, message@),
        r is Err ==> r == Err::<(), LmsError>(LmsError::VerificationFailure),
{
    if !signature.is_well_formed() {
        return Err(LmsError::VerificationFailure);
    }
    if signature.lms_parameter != public_key.lms_parameter {
        return Err(LmsError::VerificationFailure);
    }
    if signature.lmots_signature.parameter != public_key.lmots_parameter {
        return Err(LmsError::VerificationFailure);
    }
    let candidate = generate_root_candidate(signature, &public_key.i, message);
    if bytes_equal(candidate.as_slice(), public_key.key.as_slice()) {
        Ok(())
    } else {
        Err(LmsError::VerificationFailure)
    }
}

} // verus!
