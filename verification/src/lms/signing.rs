//! Signing with the next unused leaf of a tree, and the wire form of the
//! signature.

use vstd::prelude::*;
use vstd::slice::slice_subrange;
use crate::error::LmsError;
use crate::lm_ots::definitions::IType;
use crate::lm_ots::parameter::LmotsAlgorithm;
use crate::lm_ots::signing::LmotsSignature;
use crate::lms::definitions::{
    lemma_ancestor_range, lemma_lms_sign_wf, lemma_row_bound, spec_ancestor, spec_leaf_node,
    spec_lms_sign, spec_lms_signature_len, spec_parse_lms_signature, spec_path, spec_root, spec_sibling, LmsPrivateKey, LmsSignatureView,
};
use crate::lms::keygen::node;
use crate::lms::parameter::LmsAlgorithm;
use crate::util::chunks::{append_rows, read_rows, rows_uniform, spec_rows};
use crate::util::ustr::{spec_u32str, str32u, u32str};

verus! {

/// A signature under a tree: the leaf that signed, its one-time
/// signature, and the authentication path from the leaf to the root.
pub struct LmsSignature {
    pub q: u32,
    pub lmots_signature: LmotsSignature,
    pub lms_parameter: LmsAlgorithm,
    pub path: Vec<Vec<u8>>,
}

impl View for LmsSignature {
    type V = LmsSignatureView;

    open spec fn view(&self) -> LmsSignatureView {
        LmsSignatureView {
            q: self.q,
            lmots_signature: self.lmots_signature@,
            lms_parameter: self.lms_parameter,
            path: spec_rows(self.path@),
        }
    }
}

/// The authentication path of leaf `q` of the tree `(i, seed)`.
pub fn authentication_path(
    lmots_parameter: LmotsAlgorithm,
    lms_parameter: LmsAlgorithm,
    i: &IType,
    seed: &[u8],
    q: u32,
) -> (path: Vec<Vec<u8>>)
    requires
        q < lms_parameter.leaves(),
    ensures
        spec_rows(path@) == spec_path(lmots_parameter, lms_parameter, i@, seed@, q),
{
    let h: u8 = lms_parameter.get_h();
    let ghost leaf = spec_leaf_node(lms_parameter, q);
    let ghost want = spec_path(lmots_parameter, lms_parameter, i@, seed@, q);
    let mut current: u32 = lms_parameter.get_leaves() + q;
    let mut path: Vec<Vec<u8>> = Vec::new();
    let mut k: u8 = 0;
    proof {
        lms_parameter.lemma_sizes();
    }
    while k < h
        invariant
            k <= h,
            h == lms_parameter.h(),
            lms_parameter.leaves() <= leaf < 2 * lms_parameter.leaves(),
            leaf == spec_leaf_node(lms_parameter, q),
            current == spec_ancestor(leaf, k as nat),
            want == spec_path(lmots_parameter, lms_parameter, i@, seed@, q),
            path@.len() == k,
            forall|j: int| 0 <= j < k ==> (#[trigger] path@[j])@ == want[j],
        decreases h - k,
    {
        proof {
            lemma_ancestor_range(lms_parameter, leaf, k as nat);
            lemma_row_bound(lms_parameter, k as nat);
            lemma_row_bound(lms_parameter, (k + 1) as nat);
        }
        let sibling: u32 = if current % 2 == 0 {
            current + 1
        } else {
            current - 1
        };
        assert(sibling == spec_sibling(current as nat));
        let value = node(lmots_parameter, lms_parameter, i, seed, sibling, k);
        path.push(value);
        current = current / 2;
        k += 1;
    }
    assert(spec_rows(path@) =~= want);
    path
}

impl LmsSignature {
    /// The one-time signature is well formed, the leaf exists, and the
    /// path has one node of `m` bytes per level.
    pub open spec fn wf(&self) -> bool {
        self@.wf()
    }

    /// Checks what `wf` states.
    pub fn is_well_formed(&self) -> (r: bool)
        ensures
            r == self.wf(),
    {
        self.lmots_signature.is_well_formed() && self.q < self.lms_parameter.get_leaves()
            && self.path.len() == self.lms_parameter.get_h() as usize && rows_uniform(
            &self.path,
            self.lms_parameter.get_m(),
        )
    }

    /// Signs `message` with leaf `q` of the tree `(i, seed)`, under the
    /// randomiser `c`.
    ///
    /// A leaf must never sign a second message.
    pub fn sign_with_leaf(
        lmots_parameter: LmotsAlgorithm,
        lms_parameter: LmsAlgorithm,
        i: &IType,
        seed: &[u8],
        q: u32,
        message: &[u8],
        c: &[u8],
    ) -> (signature: LmsSignature)
        requires
            q < lms_parameter.leaves(),
            c@.len() == lmots_parameter.n(),
        ensures
            signature.wf(),
            signature@ == spec_lms_sign(lmots_parameter, lms_parameter, i@, seed@, q, c@, message@),
    {
        let secrets = crate::lm_ots::keygen::generate_private_key(lmots_parameter, *i, u32str(q), seed);
        let lmots_signature = LmotsSignature::sign(&secrets, message, c);
        let path = authentication_path(lmots_parameter, lms_parameter, i, seed, q);
        proof {
            lemma_lms_sign_wf(lmots_parameter, lms_parameter, i@, seed@, q, c@, message@);
        }
        LmsSignature { q, lmots_signature, lms_parameter, path }
    }

    /// Signs `message` with leaf `q` of the tree `(i, seed)`, under the
    /// randomiser `c`; with the signature comes the root of the tree,
    /// which the leaf and its authentication path lead to.
    ///
    /// A leaf must never sign a second message.
    pub fn sign_with_leaf_and_root(
        lmots_parameter: LmotsAlgorithm,
        lms_parameter: LmsAlgorithm,
        i: &IType,
        seed: &[u8],
        q: u32,
        message: &[u8],
        c: &[u8],
    ) -> (r: (LmsSignature, Vec<u8>))
        requires
            q < lms_parameter.leaves(),
            c@.len() == lmots_parameter.n(),
        ensures
            r.0.wf(),
            r.0@ == spec_lms_sign(lmots_parameter, lms_parameter, i@, seed@, q, c@, message@),
            r.1@ == spec_root(lmots_parameter, lms_parameter, i@, seed@),
            r.1@.len() == lms_parameter.m(),
    {
        let secrets = crate::lm_ots::keygen::generate_private_key(lmots_parameter, *i, u32str(q), seed);
        let lmots_signature = LmotsSignature::sign(&secrets, message, c);
        let ots_key = crate::lm_ots::keygen::generate_public_key(&secrets);
        let path = authentication_path(lmots_parameter, lms_parameter, i, seed, q);
        proof {
            lms_parameter.lemma_sizes();
            lemma_lms_sign_wf(lmots_parameter, lms_parameter, i@, seed@, q, c@, message@);
            crate::lms::definitions::lemma_fold_path(
                lmots_parameter,
                lms_parameter,
                i@,
                seed@,
                q,
                lms_parameter.h(),
            );
            crate::lms::definitions::lemma_ancestor_root(lms_parameter, spec_leaf_node(lms_parameter, q));
            crate::lms::definitions::lemma_node_len(
                lmots_parameter,
                lms_parameter,
                i@,
                seed@,
                1,
                lms_parameter.h(),
            );
        }
        let leaf: u32 = lms_parameter.get_leaves() + q;
        let start = crate::lms::verify::leaf_value(lms_parameter, i, leaf, ots_key.key.as_slice());
        assert((leaf - lms_parameter.leaves()) as u32 == q);
        let root = crate::lms::verify::fold_path(lms_parameter, i, leaf, start, &path);
        (LmsSignature { q, lmots_signature, lms_parameter, path }, root)
    }

    /// Signs `message` with the next unused leaf of the tree, under the
    /// randomiser `c`, and marks the leaf as used.
    ///
    /// Fails, and leaves the key as it was, where every leaf has signed
    /// (`KeyExhausted`) or, else, where `c` is not `n` bytes long
    /// (`EntropyFailure`).
    pub fn sign(private_key: &mut LmsPrivateKey, message: &[u8], c: &[u8]) -> (r: Result<
        LmsSignature,
        LmsError,
    >)
        ensures
            final(private_key).lmots_parameter == old(private_key).lmots_parameter,
            final(private_key).lms_parameter == old(private_key).lms_parameter,
            final(private_key).i == old(private_key).i,
            final(private_key).seed == old(private_key).seed,
            match r {
                Ok(signature) => {
                    &&& old(private_key).q < old(private_key).lms_parameter.leaves()
                    &&& c@.len() == old(private_key).lmots_parameter.n()
                    &&& final(private_key).q == old(private_key).q + 1
                    &&& signature.wf()
                    &&& signature@ == spec_lms_sign(
                        old(private_key).lmots_parameter,
                        old(private_key).lms_parameter,
                        old(private_key).i@,
                        old(private_key).seed@,
                        old(private_key).q,
                        c@,
                        message@,
                    )
                },
                Err(e) => {
                    &&& final(private_key).q == old(private_key).q
                    &&& e == if old(private_key).q >= old(private_key).lms_parameter.leaves() {
                        LmsError::KeyExhausted
                    } else {
                        LmsError::EntropyFailure
                    }
                    &&& old(private_key).q >= old(private_key).lms_parameter.leaves() || c@.len()
                        != old(private_key).lmots_parameter.n()
                },
            },
    {
        let q: u32 = private_key.q;
        if q >= private_key.lms_parameter.get_leaves() {
            return Err(LmsError::KeyExhausted);
        }
        if c.len() != private_key.lmots_parameter.get_n() {
            return Err(LmsError::EntropyFailure);
        }
        let signature = LmsSignature::sign_with_leaf(
            private_key.lmots_parameter,
            private_key.lms_parameter,
            &private_key.i,
            private_key.seed.as_slice(),
            q,
            message,
            c,
        );
        private_key.q = q + 1;
        Ok(signature)
    }

    /// The bytes of the signature on the wire.
    pub fn to_binary_representation(&self) -> (r: Vec<u8>)
        ensures
            r@ == self@.serialize(),
    {
        let mut r: Vec<u8> = Vec::new();
        r.extend_from_slice(&u32str(self.q));
        let inner = self.lmots_signature.to_binary_representation();
        r.extend_from_slice(inner.as_slice());
        r.extend_from_slice(&u32str(self.lms_parameter.get_type()));
        assert(r@ =~= spec_u32str(self.q) + self.lmots_signature@.serialize() + spec_u32str(
            self.lms_parameter.type_code(),
        ));
        append_rows(&mut r, &self.path);
        r
    }

    /// Reads a signature off the wire. `None` where a type code is not
    /// registered, the leaf index is not a leaf of the tree, or `data` is
    /// not exactly as long as its type codes say.
    pub fn from_binary_representation(data: &[u8]) -> (r: Option<Self>)
        ensures
            match r {
                Some(signature) => spec_parse_lms_signature(data@) == Some(signature@) && signature.wf(),
                None => spec_parse_lms_signature(data@) is None,
            },
    {
        proof {
            reveal(spec_lms_signature_len);
            reveal(spec_parse_lms_signature);
        }
        if data.len() < 8 {
            return None;
        }
        let q: u32 = str32u(slice_subrange(data, 0, 4));
        let lmots_parameter = match LmotsAlgorithm::from_u32(str32u(slice_subrange(data, 4, 8))) {
            None => {
                return None;
            },
            Some(x) => x,
        };
        let n: usize = lmots_parameter.get_n();
        let p: usize = lmots_parameter.get_p() as usize;
        proof {
            lmots_parameter.lemma_sizes();
            assert(p * n <= 265 * 32) by (nonlinear_arith)
                requires
                    n <= 32,
                    p <= 265,
            ;
        }
        let end: usize = 8 + 4 + n + p * n;
        if data.len() < end {
            return None;
        }
        let lms_parameter = match LmsAlgorithm::from_u32(str32u(slice_subrange(data, end - 4, end))) {
            None => {
                return None;
            },
            Some(x) => x,
        };
        let m: usize = lms_parameter.get_m();
        let h: usize = lms_parameter.get_h() as usize;
        proof {
            lms_parameter.lemma_sizes();
            assert(h * m <= 25 * 32) by (nonlinear_arith)
                requires
                    m <= 32,
                    h <= 25,
            ;
        }
        if data.len() != end + h * m || q >= lms_parameter.get_leaves() {
            return None;
        }
        let lmots_signature = match LmotsSignature::from_binary_representation(
            slice_subrange(data, 4, end - 4),
        ) {
            None => {
                proof {
                    assert(data@.subrange(4, end - 4).subrange(0, 4) =~= data@.subrange(4, 8));
                }
                return None;
            },
            Some(x) => x,
        };
        let path = read_rows(slice_subrange(data, end, data.len()), m, h);
        let signature = LmsSignature { q, lmots_signature, lms_parameter, path };
        proof {
            crate::lms::definitions::lemma_serialize_parse_lms_signature(data@);
        }
        Some(signature)
    }
}

} // verus!
